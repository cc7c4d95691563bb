//! The name of a meeting.
use vstd::prelude::*;
use crate::text;

verus! {

broadcast use vstd::string::group_string_axioms;

/// What a meeting without a name is called.
pub const DEFAULT_TITLE: &'static str = "Meeting";

/// A title on one line: its words with single spaces between them, or the
/// default where it has none.
pub open spec fn clean_title(raw: Seq<char>) -> Seq<char> {
    let w = text::words_of(raw);
    if w.len() == 0 {
        DEFAULT_TITLE@
    } else {
        text::joined(w, " "@)
    }
}

/// A title on one line.
pub fn sanitize_title(raw: &str) -> (r: String)
    ensures
        r@ == clean_title(raw@),
{
    let w = text::words(raw);
    assert(text::texts(w@).len() == w@.len());
    if w.len() == 0 {
        DEFAULT_TITLE.to_owned()
    } else {
        text::join(&w, " ")
    }
}

/// A title keeps its words and their order, whatever stood between them, and cleaning it
/// again changes nothing.
pub proof fn law_titles_keep_their_words(raw: Seq<char>)
    ensures
        text::words_of(raw).len() > 0 ==> text::words_of(clean_title(raw)) == text::words_of(raw),
        text::words_of(raw).len() == 0 ==> clean_title(raw) == "Meeting"@,
        clean_title(clean_title(raw)) == clean_title(raw),
{
    reveal_strlit(" ");
    assert(" "@ =~= seq![' ']);
    text::law_words_are_words(raw);
    text::law_joined_words_are_the_words(text::words_of(raw));
    if text::words_of(raw).len() == 0 {
        reveal_strlit("Meeting");
        let d = DEFAULT_TITLE@;
        assert(d =~= seq!['M', 'e', 'e', 't', 'i', 'n', 'g']);
        text::law_words_stand_between_spaces(d, ' ', Seq::empty());
        assert(text::joined(seq![d], " "@) == d);
    }
}

} // verus!
