//! The library's one error type.
use vstd::prelude::*;

verus! {

/// Something the user is told about.
#[derive(Debug, PartialEq, Eq)]
pub enum AppError {
    Other(String),
}

impl AppError {
    /// The message.
    pub open spec fn text(self) -> Seq<char> {
        match self {
            AppError::Other(m) => m@,
        }
    }

    /// An error with a message.
    pub fn other(message: &str) -> (r: AppError)
        ensures
            r.text() == message@,
    {
        AppError::Other(message.to_owned())
    }

    /// The message as a string.
    pub fn message(&self) -> (r: String)
        ensures
            r@ == self.text(),
    {
        match self {
            AppError::Other(m) => m.clone(),
        }
    }
}

/// `prefix` and `rest` as one message.
pub fn message2(prefix: &str, rest: &str) -> (r: AppError)
    ensures
        r.text() == prefix@ + rest@,
{
    let mut s = prefix.to_owned();
    s.append(rest);
    AppError::Other(s)
}

} // verus!
