//! The name that the assistant's maker sells it under. What is shown to the user
//! carries the name as it is; programs, folders and models carry it in lower case.
use vstd::prelude::*;
use crate::text;

verus! {

/// The name, with its capital.
#[derive(Debug, PartialEq, Eq)]
pub struct Brand {
    pub name: String,
}

impl Brand {
    /// The name in lower case.
    pub open spec fn lower(self) -> Seq<char> {
        text::ascii_lower(self.name@)
    }

    /// The name in lower case, behind something else.
    pub fn behind(&self, before: &str) -> (r: String)
        ensures
            r@ == before@ + self.lower(),
    {
        let mut s = before.to_owned();
        s.append(text::to_ascii_lower(self.name.as_str()).as_str());
        s
    }

    /// The name in lower case, with something else behind it.
    pub fn before(&self, after: &str) -> (r: String)
        ensures
            r@ == self.lower() + after@,
    {
        let mut s = text::to_ascii_lower(self.name.as_str());
        s.append(after);
        s
    }
}

} // verus!
