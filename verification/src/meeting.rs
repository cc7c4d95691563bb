//! Naming the speakers of a meeting once it is over.
use vstd::prelude::*;
use crate::error::AppError;
use crate::text;

verus! {

/// A speaker that was named.
#[derive(Debug, PartialEq, Eq)]
pub struct AssignSpeakerResult {
    pub attendees: Vec<String>,
    /// The person's own note.
    pub person_note_path: String,
    /// How many lines of the transcript were changed.
    pub relabeled: usize,
}

/// The name that a speaker is given; it must not be blank, and the meeting must
/// be over.
pub fn assign_meeting_speaker(to: &str, recording: bool) -> (r: Result<String, AppError>)
    ensures
        if text::trimmed(to@).len() == 0 {
            r matches Err(e) && e.text() == "assign_meeting_speaker: empty name"@
        } else if recording {
            r matches Err(e) && e.text()
                == "This meeting is still recording — name speakers from the recording bar."@
        } else {
            r matches Ok(name) && name@ == text::trimmed(to@)
        },
{
    let name = text::trim(to);
    if name.is_empty() {
        Err(AppError::other("assign_meeting_speaker: empty name"))
    } else if recording {
        Err(
            AppError::other(
                "This meeting is still recording — name speakers from the recording bar.",
            ),
        )
    } else {
        Ok(name.to_owned())
    }
}

/// The names for which there is something to hear, in their order.
pub open spec fn heard(attendees: Seq<Seq<char>>, clip: Seq<bool>) -> Seq<Seq<char>>
    decreases attendees.len(),
{
    if attendees.len() == 0 {
        Seq::empty()
    } else {
        let front = heard(attendees.drop_last(), clip);
        if clip[attendees.len() - 1] {
            front.push(attendees.last())
        } else {
            front
        }
    }
}

/// The attendees of whose voice there is a clip.
pub fn meeting_voice_clips(attendees: &Vec<String>, clip: &Vec<bool>) -> (r: Vec<String>)
    requires
        attendees@.len() == clip@.len(),
    ensures
        text::texts(r@) == heard(text::texts(attendees@), clip@),
{
    let ghost all = text::texts(attendees@);
    let mut out: Vec<String> = Vec::new();
    let mut i: usize = 0;
    assert(all.take(0) =~= Seq::<Seq<char>>::empty());
    assert(text::texts(out@) =~= Seq::<Seq<char>>::empty());
    while i < attendees.len()
        invariant
            attendees@.len() == clip@.len(),
            i <= attendees.len(),
            all == text::texts(attendees@),
            text::texts(out@) == heard(all.take(i as int), clip@),
        decreases attendees.len() - i,
    {
        assert(all.take(i + 1).drop_last() =~= all.take(i as int));
        assert(all.take(i + 1).last() == attendees@[i as int]@);
        if clip[i] {
            let name = attendees[i].clone();
            proof {
                text::lemma_texts_push(out@, name);
            }
            out.push(name);
        }
        i += 1;
    }
    assert(all.take(i as int) =~= all);
    out
}

/// The attendees with a clip are listed in their order, and no others.
pub proof fn law_heard_attendees_are_listed(
    attendees: Seq<Seq<char>>,
    a: Seq<char>,
    clip: Seq<bool>,
)
    requires
        clip.len() == attendees.len() + 1,
    ensures
        heard(attendees.push(a), clip) == (if clip[attendees.len() as int] {
            heard(attendees, clip).push(a)
        } else {
            heard(attendees, clip)
        }),
        heard(Seq::empty(), clip).len() == 0,
{
    assert(attendees.push(a).drop_last() =~= attendees);
}

} // verus!
