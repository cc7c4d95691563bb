//! A meeting while it is being captured.
use vstd::prelude::*;
use crate::distillation::DistillResult;
use crate::error::AppError;
use crate::error;
use crate::ids;
use crate::meeting_note;
use crate::text;

verus! {

broadcast use vstd::string::group_string_axioms;

/// How a voice that nobody has named is labelled, before its number.
pub const UNKNOWN_SPEAKER: &'static str = "Unknown speaker";

/// Whether a label is that of a voice nobody has named.
pub fn is_unknown_speaker(label: &str) -> (r: bool)
    ensures
        r == text::begins(label@, UNKNOWN_SPEAKER@),
{
    text::starts_with(label, UNKNOWN_SPEAKER)
}

/// Whether a meeting has begun or ended.
#[derive(Clone, Copy, Debug, PartialEq, Eq, Structural)]
pub enum SessionLifecycle {
    Started,
    Stopped,
}

/// Something that is told of a meeting.
#[derive(Debug, PartialEq, Eq)]
pub enum SessionEvent {
    Status { session_id: String, note_path: String, state: SessionLifecycle },
    AttendeeChanged { attendees: Vec<String> },
    Distilled { summary: String, turn_id: String, suggested_title: Option<String> },
}

/// The event tells of that meeting that it has begun or ended.
pub open spec fn tells_status(
    e: SessionEvent,
    id: Seq<char>,
    path: Seq<char>,
    at: SessionLifecycle,
) -> bool {
    e matches SessionEvent::Status { session_id, note_path, state } && session_id@ == id
        && note_path@ == path && state == at
}

/// A meeting that has begun.
#[derive(Debug, PartialEq, Eq)]
pub struct SessionStartResult {
    pub session_id: String,
    pub note_path: String,
}

/// A meeting that has ended.
#[derive(Debug, PartialEq, Eq)]
pub struct SessionStopResult {
    pub note_path: String,
    pub segment_count: usize,
    pub attendees: Vec<String>,
}

/// A meeting's note that was renamed.
#[derive(Debug, PartialEq, Eq)]
pub struct RenameMeetingResult {
    pub note_path: String,
}

/// A meeting that is being captured.
#[derive(Debug, PartialEq, Eq)]
pub struct OpenSession {
    pub session_id: String,
    pub title: String,
    pub note_path: String,
}

/// The text is an id of a meeting.
pub open spec fn is_session_id(s: Seq<char>) -> bool {
    &&& text::begins(s, "session:"@)
    &&& s.len() == "session:"@.len() + 36
    &&& forall|i: int| "session:"@.len() <= i < s.len() ==> ids::uuid_char(#[trigger] s[i])
}

/// A fresh id of a meeting.
pub fn new_session_id() -> (r: String)
    ensures
        is_session_id(r@),
{
    let mut s = String::from_str("session:");
    let random = ids::random_uuid();
    s.append(random.as_str());
    proof {
        let n = "session:"@.len() as int;
        assert(s@.take(n) =~= "session:"@);
        assert forall|i: int| n <= i < s@.len() implies ids::uuid_char(#[trigger] s@[i]) by {
            assert(s@[i] == random@[i - n]);
        }
    }
    s
}

/// The name that a meeting begins under.
pub fn session_title(title: &str) -> (r: String)
    ensures
        r@ == meeting_note::clean_title(title@),
{
    meeting_note::sanitize_title(title)
}

/// A meeting begins: what is kept of it, what is told of it, and what the caller
/// gets back.
pub fn session_start(session_id: &str, title: &str, note_path: &str) -> (r: (
    OpenSession,
    SessionEvent,
    SessionStartResult,
))
    ensures
        r.0.session_id@ == session_id@,
        r.0.title@ == title@,
        r.0.note_path@ == note_path@,
        tells_status(r.1, session_id@, note_path@, SessionLifecycle::Started),
        r.2.session_id@ == session_id@,
        r.2.note_path@ == note_path@,
{
    (
        OpenSession {
            session_id: session_id.to_owned(),
            title: title.to_owned(),
            note_path: note_path.to_owned(),
        },
        SessionEvent::Status {
            session_id: session_id.to_owned(),
            note_path: note_path.to_owned(),
            state: SessionLifecycle::Started,
        },
        SessionStartResult {
            session_id: session_id.to_owned(),
            note_path: note_path.to_owned(),
        },
    )
}

/// The meeting, or an error where none of that id is being captured.
pub fn require_session(session: Option<OpenSession>, session_id: &str) -> (r: Result<
    OpenSession,
    AppError,
>)
    ensures
        match session {
            Some(s) => r == Ok::<OpenSession, AppError>(s),
            None => r matches Err(e) && e.text() == "no open session "@ + session_id@,
        },
{
    match session {
        Some(s) => Ok(s),
        None => Err(error::message2("no open session ", session_id)),
    }
}

/// What ends a meeting.
#[derive(Debug, PartialEq, Eq)]
pub struct SessionStop {
    /// What is told of it.
    pub event: SessionEvent,
    /// What the caller gets back.
    pub result: SessionStopResult,
    /// Whether there is anything to distil.
    pub distils: bool,
}

/// A meeting ends, with what its note holds: only one in which something was said
/// is distilled.
pub fn session_stop(session: &OpenSession, segment_count: usize, attendees: &Vec<String>) -> (r:
    SessionStop)
    ensures
        tells_status(
            r.event,
            session.session_id@,
            session.note_path@,
            SessionLifecycle::Stopped,
        ),
        r.result.note_path@ == session.note_path@,
        r.result.segment_count == segment_count,
        text::texts(r.result.attendees@) == text::texts(attendees@),
        r.distils == (segment_count > 0),
{
    SessionStop {
        event: SessionEvent::Status {
            session_id: session.session_id.clone(),
            note_path: session.note_path.clone(),
            state: SessionLifecycle::Stopped,
        },
        result: SessionStopResult {
            note_path: session.note_path.clone(),
            segment_count,
            attendees: text::copy_list(attendees),
        },
        distils: segment_count > 0,
    }
}

/// What is told of a meeting that was distilled.
pub fn distilled_event(result: DistillResult) -> (r: SessionEvent)
    ensures
        r == (SessionEvent::Distilled {
            summary: result.summary,
            turn_id: result.turn_id,
            suggested_title: result.suggested_title,
        }),
{
    SessionEvent::Distilled {
        summary: result.summary,
        turn_id: result.turn_id,
        suggested_title: result.suggested_title,
    }
}

// ---------------------------------------------------------------------------
// What is known of the voices
// ---------------------------------------------------------------------------

/// What is known of a voice: numbers, held by their bits.
#[derive(Debug, PartialEq, Eq)]
pub struct Centroid {
    pub label: String,
    pub bits: Vec<u32>,
}

/// What is known of the voices of a meeting, by their labels.
#[derive(Debug, PartialEq, Eq)]
pub struct Centroids {
    entries: Vec<Centroid>,
}

/// The map that a list makes.
pub open spec fn centroid_map(v: Seq<Centroid>) -> Map<Seq<char>, Seq<u32>>
    decreases v.len(),
{
    if v.len() == 0 {
        Map::empty()
    } else {
        centroid_map(v.drop_last()).insert(v.last().label@, v.last().bits@)
    }
}

/// No label is there twice.
pub open spec fn one_each(v: Seq<Centroid>) -> bool {
    forall|i: int, j: int|
        0 <= i < j < v.len() ==> (#[trigger] v[i]).label@ != (#[trigger] v[j]).label@
}

impl View for Centroids {
    type V = Map<Seq<char>, Seq<u32>>;

    closed spec fn view(&self) -> Map<Seq<char>, Seq<u32>> {
        centroid_map(self.entries@)
    }
}

proof fn lemma_centroid_map(v: Seq<Centroid>)
    requires
        one_each(v),
    ensures
        forall|i: int|
            #![trigger v[i]]
            0 <= i < v.len() ==> centroid_map(v).contains_key(v[i].label@) && centroid_map(
                v,
            )[v[i].label@] == v[i].bits@,
        forall|k: Seq<char>| #[trigger]
            centroid_map(v).contains_key(k) ==> exists|i: int|
                0 <= i < v.len() && (#[trigger] v[i]).label@ == k,
    decreases v.len(),
{
    if v.len() > 0 {
        let front = v.drop_last();
        assert forall|i: int, j: int| 0 <= i < j < front.len() implies (#[trigger] front[i]).label@
            != (#[trigger] front[j]).label@ by {
            assert(v[i] == front[i] && v[j] == front[j]);
        }
        lemma_centroid_map(front);
        assert forall|i: int|
            #![trigger v[i]]
            0 <= i < v.len() implies centroid_map(v).contains_key(v[i].label@) && centroid_map(
            v,
        )[v[i].label@] == v[i].bits@ by {
            if i < v.len() - 1 {
                assert(front[i] == v[i]);
                assert(v[i].label@ != v[v.len() - 1].label@);
            }
        }
        assert forall|k: Seq<char>| #[trigger] centroid_map(v).contains_key(k) implies exists|i: int|
            0 <= i < v.len() && (#[trigger] v[i]).label@ == k by {
            if k == v.last().label@ {
                assert(v[v.len() - 1].label@ == k);
            } else {
                assert(centroid_map(front).contains_key(k));
                let i = choose|i: int| 0 <= i < front.len() && (#[trigger] front[i]).label@ == k;
                assert(v[i].label@ == k);
            }
        }
    }
}

proof fn lemma_same_centroids(v: Seq<Centroid>, m: Map<Seq<char>, Seq<u32>>)
    requires
        one_each(v),
        forall|i: int|
            #![trigger v[i]]
            0 <= i < v.len() ==> m.contains_key(v[i].label@) && m[v[i].label@] == v[i].bits@,
        forall|k: Seq<char>| #[trigger]
            m.contains_key(k) ==> exists|i: int| 0 <= i < v.len() && (#[trigger] v[i]).label@ == k,
    ensures
        centroid_map(v) == m,
{
    lemma_centroid_map(v);
    let c = centroid_map(v);
    assert forall|k: Seq<char>| #[trigger] c.contains_key(k) == m.contains_key(k) by {
        if m.contains_key(k) {
            let i = choose|i: int| 0 <= i < v.len() && (#[trigger] v[i]).label@ == k;
            assert(c.contains_key(v[i].label@));
        }
        if c.contains_key(k) {
            let i = choose|i: int| 0 <= i < v.len() && (#[trigger] v[i]).label@ == k;
            assert(m.contains_key(v[i].label@));
        }
    }
    assert(c.dom() =~= m.dom());
    assert forall|k: Seq<char>| #[trigger] c.contains_key(k) implies c[k] == m[k] by {
        let i = choose|i: int| 0 <= i < v.len() && (#[trigger] v[i]).label@ == k;
        assert(c[v[i].label@] == v[i].bits@);
    }
    assert(c =~= m);
}

fn copy_bits(v: &Vec<u32>) -> (r: Vec<u32>)
    ensures
        r@ == v@,
{
    let r = v.clone();
    assert(r@ =~= v@);
    r
}

impl Default for Centroids {
    fn default() -> (r: Centroids)
        ensures
            r.wf(),
            r@ == Map::<Seq<char>, Seq<u32>>::empty(),
    {
        Centroids { entries: Vec::new() }
    }
}

impl Centroids {
    /// No label is there twice.
    pub closed spec fn wf(&self) -> bool {
        one_each(self.entries@)
    }

    fn position(&self, label: &str) -> (r: Option<usize>)
        requires
            self.wf(),
        ensures
            match r {
                Some(i) => i < self.entries@.len() && self.entries@[i as int].label@ == label@
                    && self@.contains_key(label@),
                None => !self@.contains_key(label@) && forall|i: int|
                    0 <= i < self.entries@.len() ==> (#[trigger] self.entries@[i]).label@ != label@,
            },
    {
        proof {
            lemma_centroid_map(self.entries@);
        }
        let mut i: usize = 0;
        while i < self.entries.len()
            invariant
                i <= self.entries.len(),
                one_each(self.entries@),
                forall|k: int| 0 <= k < i ==> (#[trigger] self.entries@[k]).label@ != label@,
            decreases self.entries.len() - i,
        {
            if text::same(self.entries[i].label.as_str(), label) {
                proof {
                    lemma_centroid_map(self.entries@);
                    assert(self@.contains_key(self.entries@[i as int].label@));
                }
                return Some(i);
            }
            i += 1;
        }
        None
    }

    /// What is known of a voice.
    pub fn get(&self, label: &str) -> (r: Option<Vec<u32>>)
        requires
            self.wf(),
        ensures
            match r {
                Some(v) => self@.contains_key(label@) && self@[label@] == v@,
                None => !self@.contains_key(label@),
            },
    {
        match self.position(label) {
            Some(i) => {
                proof {
                    lemma_centroid_map(self.entries@);
                    assert(self@[self.entries@[i as int].label@] == self.entries@[i as int].bits@);
                }
                Some(copy_bits(&self.entries[i].bits))
            },
            None => None,
        }
    }

    /// Puts down what is known of a voice, in place of what was.
    pub fn publish(&mut self, label: &str, bits: Vec<u32>)
        requires
            old(self).wf(),
        ensures
            final(self).wf(),
            final(self)@ == old(self)@.insert(label@, bits@),
    {
        let ghost start = self.entries@;
        let ghost m = self@.insert(label@, bits@);
        let ghost b = bits@;
        proof {
            lemma_centroid_map(start);
        }
        let entry = Centroid { label: label.to_owned(), bits };
        match self.position(label) {
            Some(i) => {
                self.entries.set(i, entry);
                let ghost v = self.entries@;
                proof {
                    assert forall|p: int, q: int| 0 <= p < q < v.len() implies (
                    #[trigger] v[p]).label@ != (#[trigger] v[q]).label@ by {
                        assert(start[p].label@ != start[q].label@);
                        assert(p != i ==> v[p] == start[p]);
                        assert(q != i ==> v[q] == start[q]);
                    }
                    assert forall|k: int|
                        #![trigger v[k]]
                        0 <= k < v.len() implies m.contains_key(v[k].label@) && m[v[k].label@]
                        == v[k].bits@ by {
                        if k != i {
                            assert(v[k] == start[k]);
                            assert(start[k].label@ != start[i as int].label@);
                        }
                    }
                    assert forall|key: Seq<char>| #[trigger] m.contains_key(key) implies exists|
                        k: int,
                    |
                        0 <= k < v.len() && (#[trigger] v[k]).label@ == key by {
                        if key == label@ {
                            assert(v[i as int].label@ == key);
                        } else {
                            assert(centroid_map(start).contains_key(key));
                            let k = choose|k: int|
                                0 <= k < start.len() && (#[trigger] start[k]).label@ == key;
                            assert(v[k].label@ == key);
                        }
                    }
                    lemma_same_centroids(v, m);
                }
            },
            None => {
                self.entries.push(entry);
                let ghost v = self.entries@;
                proof {
                    assert forall|p: int, q: int| 0 <= p < q < v.len() implies (
                    #[trigger] v[p]).label@ != (#[trigger] v[q]).label@ by {
                        assert(v[p] == start[p]);
                        if q < start.len() {
                            assert(v[q] == start[q]);
                        }
                    }
                    assert(v.drop_last() =~= start);
                    assert(v.last().label@ == label@ && v.last().bits@ == b);
                }
            },
        }
    }

    /// A voice was named: what is known of it goes under the new name, in place
    /// of what was there. Where nothing is known of it, nothing changes.
    pub fn rename(&mut self, from: &str, to: &str)
        requires
            old(self).wf(),
        ensures
            final(self).wf(),
            final(self)@ == if old(self)@.contains_key(from@) {
                old(self)@.remove(from@).insert(to@, old(self)@[from@])
            } else {
                old(self)@
            },
    {
        match self.position(from) {
            Some(i) => {
                let ghost start = self.entries@;
                let ghost was = self@;
                proof {
                    lemma_centroid_map(start);
                    assert(was[start[i as int].label@] == start[i as int].bits@);
                }
                let bits = copy_bits(&self.entries[i].bits);
                self.entries.remove(i);
                let ghost v = self.entries@;
                proof {
                    assert forall|p: int, q: int| 0 <= p < q < v.len() implies (
                    #[trigger] v[p]).label@ != (#[trigger] v[q]).label@ by {
                        let a = if p < i {
                            p
                        } else {
                            p + 1
                        };
                        let b = if q < i {
                            q
                        } else {
                            q + 1
                        };
                        assert(v[p] == start[a] && v[q] == start[b]);
                    }
                    let m = was.remove(from@);
                    assert forall|k: int|
                        #![trigger v[k]]
                        0 <= k < v.len() implies m.contains_key(v[k].label@) && m[v[k].label@]
                        == v[k].bits@ by {
                        let a = if k < i {
                            k
                        } else {
                            k + 1
                        };
                        assert(v[k] == start[a]);
                        assert(start[a].label@ != start[i as int].label@);
                    }
                    assert forall|key: Seq<char>| #[trigger] m.contains_key(key) implies exists|
                        k: int,
                    |
                        0 <= k < v.len() && (#[trigger] v[k]).label@ == key by {
                        assert(centroid_map(start).contains_key(key));
                        let k = choose|k: int|
                            0 <= k < start.len() && (#[trigger] start[k]).label@ == key;
                        if k < i {
                            assert(v[k].label@ == key);
                        } else {
                            assert(v[k - 1].label@ == key);
                        }
                    }
                    lemma_same_centroids(v, m);
                }
                self.publish(to, bits);
            },
            None => {},
        }
    }
}

/// What is told of a meeting names that meeting, its note and whether it has begun or
/// ended, and nothing else tells it.
pub proof fn law_status_names_the_meeting(
    e: SessionEvent,
    id: Seq<char>,
    path: Seq<char>,
    at: SessionLifecycle,
)
    ensures
        tells_status(e, id, path, at) <==> match e {
            SessionEvent::Status { session_id, note_path, state } => {
                &&& id == session_id@
                &&& path == note_path@
                &&& at == state
            },
            SessionEvent::AttendeeChanged { .. } => false,
            SessionEvent::Distilled { .. } => false,
        },
{
}

/// What was put down last for a label counts, and labels do not touch one another.
pub proof fn law_the_last_put_down_counts(v: Seq<Centroid>, c: Centroid, label: Seq<char>)
    ensures
        centroid_map(v.push(c)).contains_key(c.label@),
        centroid_map(v.push(c))[c.label@] == c.bits@,
        label != c.label@ ==> (centroid_map(v.push(c)).contains_key(label) == centroid_map(
            v,
        ).contains_key(label)),
        label != c.label@ && centroid_map(v).contains_key(label) ==> centroid_map(
            v.push(c),
        )[label] == centroid_map(v)[label],
        !centroid_map(Seq::empty()).contains_key(label),
{
    assert(v.push(c).drop_last() =~= v);
}

/// The id of a meeting is a prefix and a uuid, every character of it.
pub proof fn law_meeting_ids_hold_a_uuid(uuid: Seq<char>)
    requires
        uuid.len() == 36,
    ensures
        is_session_id("session:"@ + uuid) <==> forall|i: int|
            0 <= i < 36 ==> ids::uuid_char(#[trigger] uuid[i]),
{
    let p = "session:"@;
    let s = p + uuid;
    assert(s.take(p.len() as int) =~= p);
    if is_session_id(s) {
        assert forall|i: int| 0 <= i < 36 implies ids::uuid_char(#[trigger] uuid[i]) by {
            assert(s[p.len() + i] == uuid[i]);
        }
    }
    if forall|i: int| 0 <= i < 36 ==> ids::uuid_char(#[trigger] uuid[i]) {
        assert forall|i: int| p.len() <= i < s.len() implies ids::uuid_char(#[trigger] s[i]) by {
            assert(s[i] == uuid[i - p.len()]);
        }
    }
}

} // verus!
