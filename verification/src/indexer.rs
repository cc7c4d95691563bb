//! The index of the notes: when a note is indexed, how it is cut into chunks,
//! and what a pass over the formation counts.
use vstd::prelude::*;
use crate::audit::TaskCompletionEntry;
use crate::datetime::{Date, Timestamp};
use crate::tasks::TaskCompletionEvent;
use crate::audit;
use crate::daily_note;
use crate::datetime;
use crate::diff_gen;
use crate::ids;
use crate::tasks;
use crate::text;

verus! {

broadcast use vstd::string::group_string_axioms;

/// The event that tells of a line added to the daily note.
pub const DAILY_NOTE_APPENDED_EVENT: &'static str = "daily-note-appended";

/// How many milliseconds a note must be quiet before it is indexed.
pub const DEBOUNCE_MILLIS: u64 = 1500;

/// How many milliseconds lie between two looks for notes that are due.
pub const TICK_MILLIS: u64 = 500;

/// How many bytes a chunk may have.
pub const CHUNK_MAX_CHARS: usize = 1500;

/// What is told of a line added to the daily note.
#[derive(Debug, PartialEq, Eq)]
pub struct DailyNoteAppendedPayload {
    /// The entry to undo.
    pub entry_id: String,
    pub task_id: String,
    pub daily_note_path: String,
    /// The line, word for word.
    pub bullet_text: String,
}

/// What indexing a note gave.
#[derive(Debug, PartialEq, Eq)]
pub struct IndexOutcome {
    pub chunk_count: usize,
    /// The tasks that were found newly done; only the task list has any.
    pub task_completions: Vec<TaskCompletionEvent>,
}

impl Default for IndexOutcome {
    fn default() -> (r: IndexOutcome)
        ensures
            r.chunk_count == 0,
            r.task_completions@.len() == 0,
    {
        IndexOutcome { chunk_count: 0, task_completions: Vec::new() }
    }
}

// ---------------------------------------------------------------------------
// When a note is indexed
// ---------------------------------------------------------------------------

/// A note that waits to be indexed, and when that was last asked for.
#[derive(Debug, PartialEq, Eq)]
pub struct PendingNote {
    pub path: String,
    /// In milliseconds.
    pub asked_at: u64,
}

/// The notes that wait.
#[derive(Debug, PartialEq, Eq)]
pub struct Debouncer {
    pending: Vec<PendingNote>,
}

/// The notes that wait, with their times.
pub open spec fn pending_views(v: Seq<PendingNote>) -> Seq<(Seq<char>, int)> {
    v.map_values(|p: PendingNote| (p.path@, p.asked_at as int))
}

impl View for Debouncer {
    type V = Seq<(Seq<char>, int)>;

    closed spec fn view(&self) -> Seq<(Seq<char>, int)> {
        pending_views(self.pending@)
    }
}

/// The waiting notes once one is asked for: its clock starts anew.
pub open spec fn rearmed(pending: Seq<(Seq<char>, int)>, path: Seq<char>, now: int) -> Seq<
    (Seq<char>, int),
>
    decreases pending.len(),
{
    if pending.len() == 0 {
        seq![(path, now)]
    } else if pending[0].0 == path {
        seq![(path, now)] + pending.drop_first()
    } else {
        seq![pending[0]] + rearmed(pending.drop_first(), path, now)
    }
}

/// The note has been quiet for long enough.
pub open spec fn is_due(p: (Seq<char>, int), now: int) -> bool {
    now - p.1 >= DEBOUNCE_MILLIS
}

/// The notes that are due, or those that are not.
pub open spec fn sifted(pending: Seq<(Seq<char>, int)>, now: int, due: bool) -> Seq<
    (Seq<char>, int),
>
    decreases pending.len(),
{
    if pending.len() == 0 {
        Seq::empty()
    } else {
        let front = sifted(pending.drop_last(), now, due);
        if is_due(pending.last(), now) == due {
            front.push(pending.last())
        } else {
            front
        }
    }
}

/// The paths of some waiting notes.
pub open spec fn pending_paths(pending: Seq<(Seq<char>, int)>) -> Seq<Seq<char>> {
    pending.map_values(|p: (Seq<char>, int)| p.0)
}

impl Default for Debouncer {
    fn default() -> (r: Debouncer)
        ensures
            r@.len() == 0,
    {
        Debouncer { pending: Vec::new() }
    }
}

impl Debouncer {
    /// Asks for a note to be indexed; what was asked for before counts no more.
    pub fn request(&mut self, path: &str, now: u64)
        ensures
            final(self)@ == rearmed(old(self)@, path@, now as int),
    {
        let ghost start = pending_views(self.pending@);
        let mut i: usize = 0;
        assert(start.skip(0) =~= start);
        assert(start.take(0) + rearmed(start, path@, now as int) =~= rearmed(
            start,
            path@,
            now as int,
        ));
        while i < self.pending.len()
            invariant
                i <= self.pending.len(),
                start == old(self)@,
                start == pending_views(self.pending@),
                rearmed(start, path@, now as int) == start.take(i as int) + rearmed(
                    start.skip(i as int),
                    path@,
                    now as int,
                ),
            decreases self.pending.len() - i,
        {
            let ghost rest = start.skip(i as int);
            assert(rest[0] == start[i as int]);
            assert(rest.drop_first() =~= start.skip(i + 1));
            if text::same(self.pending[i].path.as_str(), path) {
                let note = PendingNote { path: path.to_owned(), asked_at: now };
                self.pending.set(i, note);
                assert(pending_views(self.pending@) =~= start.take(i as int) + (seq![
                    (path@, now as int),
                ] + start.skip(i + 1)));
                return;
            }
            assert(start.take(i as int) + (seq![rest[0]] + rearmed(
                rest.drop_first(),
                path@,
                now as int,
            )) =~= start.take(i + 1) + rearmed(start.skip(i + 1), path@, now as int));
            i += 1;
        }
        assert(start.skip(i as int) =~= Seq::<(Seq<char>, int)>::empty());
        self.pending.push(PendingNote { path: path.to_owned(), asked_at: now });
        assert(pending_views(self.pending@) =~= start.take(i as int) + seq![(path@, now as int)]);
    }

    /// Takes out the notes that are due.
    pub fn tick(&mut self, now: u64) -> (r: Vec<String>)
        ensures
            text::texts(r@) == pending_paths(sifted(old(self)@, now as int, true)),
            final(self)@ == sifted(old(self)@, now as int, false),
    {
        let ghost start = pending_views(self.pending@);
        let mut ready: Vec<String> = Vec::new();
        let mut waiting: Vec<PendingNote> = Vec::new();
        let mut i: usize = 0;
        assert(start.take(0) =~= Seq::<(Seq<char>, int)>::empty());
        assert(text::texts(ready@) =~= pending_paths(sifted(start.take(0), now as int, true)));
        assert(pending_views(waiting@) =~= sifted(start.take(0), now as int, false));
        while i < self.pending.len()
            invariant
                i <= self.pending.len(),
                start == pending_views(self.pending@),
                text::texts(ready@) == pending_paths(
                    sifted(start.take(i as int), now as int, true),
                ),
                pending_views(waiting@) == sifted(start.take(i as int), now as int, false),
            decreases self.pending.len() - i,
        {
            assert(start.take(i + 1).drop_last() =~= start.take(i as int));
            assert(start.take(i + 1).last() == start[i as int]);
            let t: u64 = self.pending[i].asked_at;
            let path = self.pending[i].path.clone();
            if now >= t && now - t >= DEBOUNCE_MILLIS {
                proof {
                    text::lemma_texts_push(ready@, path);
                    let so_far = sifted(start.take(i as int), now as int, true);
                    assert(pending_paths(so_far.push(start[i as int])) =~= pending_paths(
                        so_far,
                    ).push(path@));
                }
                ready.push(path);
            } else {
                let ghost before = waiting@;
                waiting.push(PendingNote { path, asked_at: t });
                assert(pending_views(waiting@) =~= pending_views(before).push(start[i as int]));
            }
            i += 1;
        }
        assert(start.take(i as int) =~= start);
        self.pending = waiting;
        ready
    }
}

/// However often a note is asked for, only the last time counts.
pub proof fn law_flurry_counts_once(
    pending: Seq<(Seq<char>, int)>,
    path: Seq<char>,
    first: int,
    second: int,
)
    ensures
        rearmed(rearmed(pending, path, first), path, second) == rearmed(pending, path, second),
    decreases pending.len(),
{
    let once = rearmed(pending, path, first);
    if pending.len() == 0 {
        assert(once.drop_first() =~= pending);
        assert(seq![(path, second)] + pending =~= seq![(path, second)]);
    } else if pending[0].0 == path {
        assert(once.drop_first() =~= pending.drop_first());
    } else {
        assert(once[0] == pending[0]);
        assert(once.drop_first() =~= rearmed(pending.drop_first(), path, first));
        law_flurry_counts_once(pending.drop_first(), path, first, second);
    }
}

/// No note is waited for twice.
pub open spec fn no_twice(pending: Seq<(Seq<char>, int)>) -> bool {
    forall|i: int, j: int|
        0 <= i < j < pending.len() ==> (#[trigger] pending[i]).0 != (#[trigger] pending[j]).0
}

proof fn lemma_rearmed(pending: Seq<(Seq<char>, int)>, path: Seq<char>, now: int)
    ensures
        forall|k: int|
            0 <= k < rearmed(pending, path, now).len() ==> (#[trigger] rearmed(
                pending,
                path,
                now,
            )[k]) == (path, now) || pending.contains(rearmed(pending, path, now)[k]),
        no_twice(pending) ==> no_twice(rearmed(pending, path, now)) && forall|k: int|
            0 <= k < rearmed(pending, path, now).len() && (#[trigger] rearmed(
                pending,
                path,
                now,
            )[k]).0 == path ==> rearmed(pending, path, now)[k].1 == now,
    decreases pending.len(),
{
    let out = rearmed(pending, path, now);
    if pending.len() > 0 {
        let rest = pending.drop_first();
        assert forall|i: int| 0 <= i < rest.len() implies pending.contains(#[trigger] rest[i]) by {
            assert(pending[i + 1] == rest[i]);
        }
        if pending[0].0 == path {
            assert forall|k: int| 0 <= k < out.len() implies #[trigger] out[k] == (path, now)
                || pending.contains(out[k]) by {
                if k > 0 {
                    assert(out[k] == rest[k - 1]);
                }
            }
            if no_twice(pending) {
                assert forall|k: int| 0 < k < out.len() implies (#[trigger] out[k]).0 != path by {
                    assert(out[k] == pending[k]);
                }
                assert forall|i: int, j: int| 0 <= i < j < out.len() implies (#[trigger] out[i]).0
                    != (#[trigger] out[j]).0 by {
                    assert(out[j] == pending[j]);
                    if i > 0 {
                        assert(out[i] == pending[i]);
                    }
                }
            }
        } else {
            let tail = rearmed(rest, path, now);
            lemma_rearmed(rest, path, now);
            assert forall|k: int| 0 <= k < out.len() implies #[trigger] out[k] == (path, now)
                || pending.contains(out[k]) by {
                if k > 0 {
                    assert(out[k] == tail[k - 1]);
                    if rest.contains(tail[k - 1]) {
                        let q = choose|q: int| 0 <= q < rest.len() && rest[q] == tail[k - 1];
                        assert(pending[q + 1] == out[k]);
                    }
                } else {
                    assert(pending[0] == out[k]);
                }
            }
            if no_twice(pending) {
                assert forall|i: int, j: int| 0 <= i < j < rest.len() implies (#[trigger] rest[i]).0
                    != (#[trigger] rest[j]).0 by {
                    assert(pending[i + 1] == rest[i] && pending[j + 1] == rest[j]);
                }
                assert(no_twice(rest));
                assert forall|k: int| 0 < k < out.len() implies (#[trigger] out[k]).0
                    != pending[0].0 by {
                    assert(out[k] == tail[k - 1]);
                    if tail[k - 1] != (path, now) {
                        let q = choose|q: int| 0 <= q < rest.len() && rest[q] == tail[k - 1];
                        assert(pending[q + 1] == out[k]);
                    }
                }
                assert forall|i: int, j: int| 0 <= i < j < out.len() implies (#[trigger] out[i]).0
                    != (#[trigger] out[j]).0 by {
                    assert(out[j] == tail[j - 1]);
                    if i > 0 {
                        assert(out[i] == tail[i - 1]);
                    }
                }
                assert forall|k: int| 0 <= k < out.len() && (#[trigger] out[k]).0 == path implies
                    out[k].1 == now by {
                    if k > 0 {
                        assert(out[k] == tail[k - 1]);
                    }
                }
            }
        }
    }
}

/// A note is indexed no sooner than it has been quiet for long enough, whatever
/// was asked for before.
pub proof fn law_requests_wait(
    pending: Seq<(Seq<char>, int)>,
    path: Seq<char>,
    asked: int,
    now: int,
)
    requires
        no_twice(pending),
        now < asked + DEBOUNCE_MILLIS,
    ensures
        no_twice(rearmed(pending, path, asked)),
        !pending_paths(sifted(rearmed(pending, path, asked), now, true)).contains(path),
{
    let after = rearmed(pending, path, asked);
    lemma_rearmed(pending, path, asked);
    lemma_sifted(after, now, true);
    let due = sifted(after, now, true);
    assert forall|k: int| 0 <= k < due.len() implies pending_paths(due)[k] != path by {
        assert(is_due(due[k], now));
        let q = choose|q: int| 0 <= q < after.len() && after[q] == due[k];
        assert(after[q].0 == path ==> after[q].1 == asked);
    }
}

proof fn lemma_sifted(pending: Seq<(Seq<char>, int)>, now: int, due: bool)
    ensures
        forall|k: int|
            0 <= k < sifted(pending, now, due).len() ==> is_due(
                #[trigger] sifted(pending, now, due)[k],
                now,
            ) == due && pending.contains(sifted(pending, now, due)[k]),
    decreases pending.len(),
{
    if pending.len() > 0 {
        lemma_sifted(pending.drop_last(), now, due);
        let front = sifted(pending.drop_last(), now, due);
        let out = sifted(pending, now, due);
        assert forall|k: int| 0 <= k < out.len() implies is_due(#[trigger] out[k], now) == due
            && pending.contains(out[k]) by {
            if k < front.len() {
                assert(out[k] == front[k]);
                let q = choose|q: int|
                    0 <= q < pending.drop_last().len() && pending.drop_last()[q] == front[k];
                assert(pending[q] == out[k]);
            } else {
                assert(pending[pending.len() - 1] == out[k]);
            }
        }
    }
}

/// Nothing that was asked for is lost: a look takes a note out or leaves it
/// waiting.
pub proof fn law_no_request_is_lost(pending: Seq<(Seq<char>, int)>, now: int)
    ensures
        sifted(pending, now, true).to_multiset().add(sifted(pending, now, false).to_multiset())
            == pending.to_multiset(),
    decreases pending.len(),
{
    broadcast use vstd::seq_lib::group_to_multiset_ensures;

    if pending.len() > 0 {
        let front = pending.drop_last();
        law_no_request_is_lost(front, now);
        assert(pending =~= front.push(pending.last()));
        assert(sifted(pending, now, true).to_multiset().add(
            sifted(pending, now, false).to_multiset(),
        ) =~= front.to_multiset().insert(pending.last()));
    } else {
        assert(sifted(pending, now, true).to_multiset().add(
            sifted(pending, now, false).to_multiset(),
        ) =~= pending.to_multiset());
    }
}

// ---------------------------------------------------------------------------
// Chunks
// ---------------------------------------------------------------------------

/// The pieces of which anything is left once they are trimmed.
pub open spec fn paragraphs_in(pieces: Seq<Seq<char>>) -> Seq<Seq<char>>
    decreases pieces.len(),
{
    if pieces.len() == 0 {
        Seq::empty()
    } else {
        let front = paragraphs_in(pieces.drop_last());
        let p = text::trimmed(pieces.last());
        if p.len() == 0 {
            front
        } else {
            front.push(p)
        }
    }
}

/// The paragraphs of a note: what stands between its blank lines.
pub open spec fn paragraphs_of(content: Seq<char>) -> Seq<Seq<char>> {
    paragraphs_in(text::pieces_of(content, "\n\n"@))
}

/// A paragraph cut between characters, each piece as long as a chunk may be.
pub open spec fn cut(p: Seq<char>) -> Seq<Seq<char>>
    decreases p.len(),
    via cut_decreases
{
    let n = text::fitting(p, CHUNK_MAX_CHARS as int) as int;
    if p.len() == 0 {
        Seq::empty()
    } else {
        seq![p.take(n)] + cut(p.skip(n))
    }
}

#[via_fn]
proof fn cut_decreases(p: Seq<char>) {
    lemma_fits_some(p);
}

proof fn lemma_fits_some(p: Seq<char>)
    ensures
        p.len() > 0 ==> 0 < text::fitting(p, CHUNK_MAX_CHARS as int) <= p.len(),
{
    text::lemma_fitting(p, CHUNK_MAX_CHARS as int);
}

/// The chunks of some paragraphs behind a chunk that is not yet closed. A chunk
/// takes in paragraphs while they fit; one that is too long by itself is cut.
pub open spec fn chunks_from(current: Seq<char>, paras: Seq<Seq<char>>) -> Seq<Seq<char>>
    decreases paras.len(),
{
    let closed = if current.len() == 0 {
        Seq::empty()
    } else {
        seq![current]
    };
    if paras.len() == 0 {
        closed
    } else {
        let p = paras[0];
        let rest = paras.drop_first();
        if text::bytes_of(p) > CHUNK_MAX_CHARS {
            closed + cut(p) + chunks_from(Seq::empty(), rest)
        } else if current.len() == 0 {
            chunks_from(p, rest)
        } else if text::bytes_of(current) + text::bytes_of(p) + 2 > CHUNK_MAX_CHARS {
            closed + chunks_from(p, rest)
        } else {
            chunks_from(current + "\n\n"@ + p, rest)
        }
    }
}

/// The chunks of a note.
pub open spec fn chunks_of(content: Seq<char>) -> Seq<Seq<char>> {
    chunks_from(Seq::empty(), paragraphs_of(content))
}

fn paragraphs(content: &str) -> (r: Vec<String>)
    ensures
        text::texts(r@) == paragraphs_of(content@),
{
    proof {
        reveal_strlit("\n\n");
    }
    let pieces = text::split(content, "\n\n");
    let ghost all = text::texts(pieces@);
    let mut out: Vec<String> = Vec::new();
    let mut i: usize = 0;
    assert(all.take(0) =~= Seq::<Seq<char>>::empty());
    assert(text::texts(out@) =~= Seq::<Seq<char>>::empty());
    while i < pieces.len()
        invariant
            i <= pieces.len(),
            all == text::texts(pieces@),
            text::texts(out@) == paragraphs_in(all.take(i as int)),
        decreases pieces.len() - i,
    {
        assert(all.take(i + 1).drop_last() =~= all.take(i as int));
        assert(all.take(i + 1).last() == pieces@[i as int]@);
        let p = text::trim(pieces[i].as_str());
        if !p.is_empty() {
            let owned = p.to_owned();
            proof {
                text::lemma_texts_push(out@, owned);
            }
            out.push(owned);
        }
        i += 1;
    }
    assert(all.take(i as int) =~= all);
    out
}

fn push_cut(out: &mut Vec<String>, para: &str)
    ensures
        text::texts(final(out)@) == text::texts(old(out)@) + cut(para@),
{
    let ghost start = text::texts(out@);
    let cs = text::chars_of(para);
    let mut i: usize = 0;
    assert(para@.skip(0) =~= para@);
    while i < cs.len()
        invariant
            cs@ == para@,
            i <= cs.len(),
            start + cut(para@) == text::texts(out@) + cut(para@.skip(i as int)),
        decreases cs.len() - i,
    {
        let ghost rest = para@.skip(i as int);
        proof {
            lemma_fits_some(rest);
        }
        let n: usize = text::fit(cs.as_slice(), i, CHUNK_MAX_CHARS);
        let piece = para.substring_char(i, i + n).to_owned();
        proof {
            assert(para@.subrange(i as int, i + n) =~= rest.take(n as int));
            assert(rest.skip(n as int) =~= para@.skip(i + n));
            text::lemma_texts_push(out@, piece);
            assert(text::texts(out@) + (seq![piece@] + cut(para@.skip(i + n))) =~= text::texts(
                out@,
            ).push(piece@) + cut(para@.skip(i + n)));
        }
        out.push(piece);
        i = i + n;
    }
    assert(para@.skip(i as int) =~= Seq::<char>::empty());
    assert(text::texts(out@) + cut(para@.skip(i as int)) =~= text::texts(out@));
}

/// The chunks of a note, of at most [`CHUNK_MAX_CHARS`] bytes each: whole
/// paragraphs as far as they fit, a longer one cut between characters.
pub fn chunk_markdown(content: &str) -> (r: Vec<String>)
    ensures
        text::texts(r@) == chunks_of(content@),
{
    let paras = paragraphs(content);
    let ghost all = text::texts(paras@);
    let mut out: Vec<String> = Vec::new();
    let mut current: String = String::new();
    let mut used: usize = 0;
    let mut i: usize = 0;
    proof {
        assert(all.skip(0) =~= all);
        assert(current@ =~= Seq::<char>::empty());
        text::lemma_bytes_bounds(current@);
        assert(text::texts(out@) + chunks_from(current@, all) =~= chunks_of(content@));
    }
    while i < paras.len()
        invariant
            i <= paras.len(),
            all == text::texts(paras@),
            used == text::bytes_of(current@),
            used <= CHUNK_MAX_CHARS,
            text::texts(out@) + chunks_from(current@, all.skip(i as int)) == chunks_of(content@),
        decreases paras.len() - i,
    {
        let para = paras[i].as_str();
        let ghost rest = all.skip(i as int);
        let ghost was = current@;
        let ghost so_far = text::texts(out@);
        proof {
            assert(rest[0] == para@);
            assert(rest.drop_first() =~= all.skip(i + 1));
            text::lemma_bytes_bounds(Seq::<char>::empty());
            text::lemma_bytes_bounds(was);
        }
        let len: usize = text::byte_len(para);
        let open = !current.as_str().is_empty();
        if open && (len > CHUNK_MAX_CHARS || used + len + 2 > CHUNK_MAX_CHARS) {
            proof {
                text::lemma_texts_push(out@, current);
            }
            out.push(current);
            current = String::new();
            used = 0;
            assert(text::texts(out@) =~= so_far + seq![was]);
            assert(current@ =~= Seq::<char>::empty());
        }
        let ghost closed = if was.len() == 0 {
            Seq::<Seq<char>>::empty()
        } else {
            seq![was]
        };
        if len > CHUNK_MAX_CHARS {
            push_cut(&mut out, para);
            assert(text::texts(out@) + chunks_from(Seq::empty(), all.skip(i + 1)) =~= so_far + (
            closed + cut(para@) + chunks_from(Seq::empty(), all.skip(i + 1))));
        } else {
            if !current.as_str().is_empty() {
                proof {
                    lemma_gap(current@);
                    text::lemma_bytes_concat(current@ + "\n\n"@, para@);
                }
                current.append("\n\n");
                used = used + 2;
            } else {
                proof {
                    assert(current@ + para@ =~= para@);
                }
            }
            current.append(para);
            used = used + len;
            assert(text::texts(out@) + chunks_from(current@, all.skip(i + 1)) =~= so_far
                + chunks_from(was, rest));
        }
        i += 1;
    }
    let ghost so_far = text::texts(out@);
    let ghost was = current@;
    assert(all.skip(i as int) =~= Seq::<Seq<char>>::empty());
    if !current.as_str().is_empty() {
        proof {
            text::lemma_texts_push(out@, current);
        }
        out.push(current);
        assert(text::texts(out@) =~= so_far + seq![was]);
    } else {
        assert(so_far + Seq::<Seq<char>>::empty() =~= so_far);
    }
    out
}

proof fn lemma_gap(out: Seq<char>)
    ensures
        text::bytes_of(out + "\n\n"@) == text::bytes_of(out) + 2,
{
    reveal_strlit("\n\n");
    assert("\n\n"@ =~= seq!['\n', '\n']);
    text::lemma_bytes_concat(out, "\n\n"@);
    text::lemma_bytes_first("\n\n"@);
    text::lemma_bytes_first("\n\n"@.drop_first());
    assert("\n\n"@.drop_first().drop_first() =~= Seq::<char>::empty());
    text::lemma_bytes_bounds(Seq::<char>::empty());
}

/// Every chunk holds something, and is no longer than a chunk may be.
pub proof fn law_chunks_fit(content: Seq<char>)
    ensures
        forall|i: int|
            0 <= i < chunks_of(content).len() ==> 0 < (#[trigger] chunks_of(content)[i]).len()
                && text::bytes_of(chunks_of(content)[i]) <= CHUNK_MAX_CHARS,
{
    text::lemma_bytes_bounds(Seq::<char>::empty());
    lemma_paragraphs(text::pieces_of(content, "\n\n"@));
    lemma_chunks_fit(Seq::empty(), paragraphs_of(content));
}

proof fn lemma_paragraphs(pieces: Seq<Seq<char>>)
    ensures
        forall|i: int|
            0 <= i < paragraphs_in(pieces).len() ==> (#[trigger] paragraphs_in(pieces)[i]).len()
                > 0,
    decreases pieces.len(),
{
    if pieces.len() > 0 {
        lemma_paragraphs(pieces.drop_last());
        let front = paragraphs_in(pieces.drop_last());
        let all = paragraphs_in(pieces);
        assert forall|i: int| 0 <= i < all.len() implies (#[trigger] all[i]).len() > 0 by {
            if i < front.len() {
                assert(all[i] == front[i]);
            }
        }
    }
}

proof fn lemma_cut_fits(p: Seq<char>)
    ensures
        forall|i: int|
            0 <= i < cut(p).len() ==> 0 < (#[trigger] cut(p)[i]).len() && text::bytes_of(cut(p)[i])
                <= CHUNK_MAX_CHARS,
    decreases p.len(),
{
    if p.len() > 0 {
        lemma_fits_some(p);
        text::lemma_fitting(p, CHUNK_MAX_CHARS as int);
        let n = text::fitting(p, CHUNK_MAX_CHARS as int) as int;
        lemma_cut_fits(p.skip(n));
        let tail = cut(p.skip(n));
        assert forall|i: int| 0 <= i < cut(p).len() implies 0 < (#[trigger] cut(p)[i]).len()
            && text::bytes_of(cut(p)[i]) <= CHUNK_MAX_CHARS by {
            if i > 0 {
                assert(cut(p)[i] == tail[i - 1]);
            }
        }
    }
}

/// The pieces hold something and fit.
spec fn fit_all(v: Seq<Seq<char>>) -> bool {
    forall|i: int|
        0 <= i < v.len() ==> 0 < (#[trigger] v[i]).len() && text::bytes_of(v[i]) <= CHUNK_MAX_CHARS
}

proof fn lemma_fit_concat(a: Seq<Seq<char>>, b: Seq<Seq<char>>)
    requires
        fit_all(a),
        fit_all(b),
    ensures
        fit_all(a + b),
{
    assert forall|i: int| 0 <= i < (a + b).len() implies 0 < (#[trigger] (a + b)[i]).len()
        && text::bytes_of((a + b)[i]) <= CHUNK_MAX_CHARS by {
        if i < a.len() {
            assert((a + b)[i] == a[i]);
        } else {
            assert((a + b)[i] == b[i - a.len()]);
        }
    }
}

proof fn lemma_chunks_fit(current: Seq<char>, paras: Seq<Seq<char>>)
    requires
        text::bytes_of(current) <= CHUNK_MAX_CHARS,
        forall|i: int| 0 <= i < paras.len() ==> (#[trigger] paras[i]).len() > 0,
    ensures
        fit_all(chunks_from(current, paras)),
    decreases paras.len(),
{
    let closed = if current.len() == 0 {
        Seq::empty()
    } else {
        seq![current]
    };
    assert(fit_all(closed));
    if paras.len() > 0 {
        let p = paras[0];
        let rest = paras.drop_first();
        assert forall|i: int| 0 <= i < rest.len() implies (#[trigger] rest[i]).len() > 0 by {
            assert(rest[i] == paras[i + 1]);
        }
        text::lemma_bytes_bounds(Seq::<char>::empty());
        if text::bytes_of(p) > CHUNK_MAX_CHARS {
            lemma_cut_fits(p);
            lemma_chunks_fit(Seq::empty(), rest);
            lemma_fit_concat(closed, cut(p));
            lemma_fit_concat(closed + cut(p), chunks_from(Seq::empty(), rest));
        } else if current.len() == 0 {
            lemma_chunks_fit(p, rest);
        } else if text::bytes_of(current) + text::bytes_of(p) + 2 > CHUNK_MAX_CHARS {
            lemma_chunks_fit(p, rest);
            lemma_fit_concat(closed, chunks_from(p, rest));
        } else {
            lemma_gap(current);
            text::lemma_bytes_concat(current + "\n\n"@, p);
            lemma_chunks_fit(current + "\n\n"@ + p, rest);
        }
    }
}

/// What a text says: its characters without the white space.
pub open spec fn ink(s: Seq<char>) -> Seq<char>
    decreases s.len(),
{
    if s.len() == 0 {
        Seq::empty()
    } else if text::is_space(s.last()) {
        ink(s.drop_last())
    } else {
        ink(s.drop_last()).push(s.last())
    }
}

/// What some texts say, one after the other.
pub open spec fn all_ink(v: Seq<Seq<char>>) -> Seq<char>
    decreases v.len(),
{
    if v.len() == 0 {
        Seq::empty()
    } else {
        all_ink(v.drop_last()) + ink(v.last())
    }
}

proof fn lemma_ink_concat(a: Seq<char>, b: Seq<char>)
    ensures
        ink(a + b) == ink(a) + ink(b),
    decreases b.len(),
{
    if b.len() == 0 {
        assert(a + b =~= a);
        assert(ink(a) + ink(b) =~= ink(a));
    } else {
        assert((a + b).drop_last() =~= a + b.drop_last());
        assert((a + b).last() == b.last());
        lemma_ink_concat(a, b.drop_last());
        if !text::is_space(b.last()) {
            assert((ink(a) + ink(b.drop_last())).push(b.last()) =~= ink(a) + ink(
                b.drop_last(),
            ).push(b.last()));
        }
    }
}

proof fn lemma_all_ink_concat(a: Seq<Seq<char>>, b: Seq<Seq<char>>)
    ensures
        all_ink(a + b) == all_ink(a) + all_ink(b),
    decreases b.len(),
{
    if b.len() == 0 {
        assert(a + b =~= a);
        assert(all_ink(a) + all_ink(b) =~= all_ink(a));
    } else {
        assert((a + b).drop_last() =~= a + b.drop_last());
        assert((a + b).last() == b.last());
        lemma_all_ink_concat(a, b.drop_last());
        assert(all_ink(a) + all_ink(b.drop_last()) + ink(b.last()) =~= all_ink(a) + (all_ink(
            b.drop_last(),
        ) + ink(b.last())));
    }
}

proof fn lemma_all_ink_one(p: Seq<char>)
    ensures
        all_ink(seq![p]) == ink(p),
{
    assert(seq![p].drop_last() =~= Seq::<Seq<char>>::empty());
    assert(all_ink(Seq::<Seq<char>>::empty()) =~= Seq::<char>::empty());
    assert(all_ink(seq![p]) =~= ink(p));
}

proof fn lemma_ink_trimmed(s: Seq<char>)
    ensures
        ink(text::trimmed(s)) == ink(s),
{
    lemma_ink_trimmed_start(s);
    lemma_ink_trimmed_end(text::trimmed_start(s));
}

proof fn lemma_ink_trimmed_start(s: Seq<char>)
    ensures
        ink(text::trimmed_start(s)) == ink(s),
    decreases s.len(),
{
    if s.len() > 0 && text::is_space(s[0]) {
        lemma_ink_trimmed_start(s.drop_first());
        assert(s =~= seq![s[0]] + s.drop_first());
        lemma_ink_concat(seq![s[0]], s.drop_first());
        assert(seq![s[0]].drop_last() =~= Seq::<char>::empty());
        assert(ink(Seq::<char>::empty()) =~= Seq::<char>::empty());
        assert(ink(seq![s[0]]) =~= Seq::<char>::empty());
        assert(ink(seq![s[0]]) + ink(s.drop_first()) =~= ink(s.drop_first()));
    }
}

proof fn lemma_ink_trimmed_end(s: Seq<char>)
    ensures
        ink(text::trimmed_end(s)) == ink(s),
    decreases s.len(),
{
    if s.len() > 0 && text::is_space(s.last()) {
        lemma_ink_trimmed_end(s.drop_last());
    }
}

proof fn lemma_ink_gap()
    ensures
        ink("\n\n"@) == Seq::<char>::empty(),
{
    reveal_strlit("\n\n");
    assert("\n\n"@ =~= seq!['\n', '\n']);
    assert("\n\n"@.drop_last() =~= seq!['\n']);
    assert(seq!['\n'].drop_last() =~= Seq::<char>::empty());
    assert(ink(Seq::<char>::empty()) =~= Seq::<char>::empty());
    assert(ink(seq!['\n']) =~= Seq::<char>::empty());
}

proof fn lemma_ink_pieces(s: Seq<char>)
    ensures
        all_ink(text::pieces_of(s, "\n\n"@)) == ink(s),
    decreases s.len(),
{
    let sep = "\n\n"@;
    reveal_strlit("\n\n");
    text::lemma_found_from(s, sep, 0);
    match text::found(s, sep) {
        Some(i) => {
            let rest = s.skip(i + sep.len());
            lemma_ink_pieces(rest);
            assert(s =~= s.take(i) + sep + rest);
            lemma_ink_concat(s.take(i) + sep, rest);
            lemma_ink_concat(s.take(i), sep);
            lemma_ink_gap();
            lemma_all_ink_concat(seq![s.take(i)], text::pieces_of(rest, sep));
            lemma_all_ink_one(s.take(i));
            assert(ink(s.take(i)) + Seq::<char>::empty() =~= ink(s.take(i)));
        },
        None => {
            lemma_all_ink_one(s);
        },
    }
}

proof fn lemma_ink_paragraphs(pieces: Seq<Seq<char>>)
    ensures
        all_ink(paragraphs_in(pieces)) == all_ink(pieces),
    decreases pieces.len(),
{
    if pieces.len() > 0 {
        let front = paragraphs_in(pieces.drop_last());
        lemma_ink_paragraphs(pieces.drop_last());
        lemma_ink_trimmed(pieces.last());
        let p = text::trimmed(pieces.last());
        if p.len() == 0 {
            assert(ink(p) =~= Seq::<char>::empty());
            assert(all_ink(pieces.drop_last()) + ink(pieces.last()) =~= all_ink(
                pieces.drop_last(),
            ));
        } else {
            assert(front.push(p).drop_last() =~= front);
        }
    }
}

proof fn lemma_ink_cut(p: Seq<char>)
    ensures
        all_ink(cut(p)) == ink(p),
    decreases p.len(),
{
    if p.len() > 0 {
        lemma_fits_some(p);
        let n = text::fitting(p, CHUNK_MAX_CHARS as int) as int;
        lemma_ink_cut(p.skip(n));
        lemma_all_ink_concat(seq![p.take(n)], cut(p.skip(n)));
        lemma_all_ink_one(p.take(n));
        lemma_ink_concat(p.take(n), p.skip(n));
        assert(p.take(n) + p.skip(n) =~= p);
    }
}

proof fn lemma_ink_chunks(current: Seq<char>, paras: Seq<Seq<char>>)
    ensures
        all_ink(chunks_from(current, paras)) == ink(current) + all_ink(paras),
    decreases paras.len(),
{
    let closed = if current.len() == 0 {
        Seq::empty()
    } else {
        seq![current]
    };
    lemma_all_ink_one(current);
    assert(all_ink(closed) =~= ink(current));
    if paras.len() == 0 {
        assert(ink(current) + all_ink(paras) =~= ink(current));
    } else {
        let p = paras[0];
        let rest = paras.drop_first();
        assert(paras =~= seq![p] + rest);
        lemma_all_ink_concat(seq![p], rest);
        lemma_all_ink_one(p);
        let none = Seq::<char>::empty();
        if text::bytes_of(p) > CHUNK_MAX_CHARS {
            lemma_ink_cut(p);
            lemma_ink_chunks(none, rest);
            lemma_all_ink_concat(closed, cut(p));
            lemma_all_ink_concat(closed + cut(p), chunks_from(none, rest));
            assert(ink(current) + ink(p) + (ink(none) + all_ink(rest)) =~= ink(current) + (ink(p)
                + all_ink(rest)));
        } else if current.len() == 0 {
            lemma_ink_chunks(p, rest);
            assert(ink(current) + (ink(p) + all_ink(rest)) =~= ink(p) + all_ink(rest));
        } else if text::bytes_of(current) + text::bytes_of(p) + 2 > CHUNK_MAX_CHARS {
            lemma_ink_chunks(p, rest);
            lemma_all_ink_concat(closed, chunks_from(p, rest));
        } else {
            lemma_ink_chunks(current + "\n\n"@ + p, rest);
            lemma_ink_concat(current + "\n\n"@, p);
            lemma_ink_concat(current, "\n\n"@);
            lemma_ink_gap();
            assert(ink(current) + none + ink(p) + all_ink(rest) =~= ink(current) + (ink(p)
                + all_ink(rest)));
        }
    }
}

/// Nothing that a note says is lost in its chunks, and nothing is added or moved:
/// but for white space they say, one after the other, what the note says.
pub proof fn law_chunks_say_what_the_note_says(content: Seq<char>)
    ensures
        all_ink(chunks_of(content)) == ink(content),
{
    lemma_ink_chunks(Seq::empty(), paragraphs_of(content));
    lemma_ink_paragraphs(text::pieces_of(content, "\n\n"@));
    lemma_ink_pieces(content);
    assert(ink(Seq::<char>::empty()) + ink(content) =~= ink(content));
}

/// Where no paragraph is too long for a chunk, the chunks joined by blank lines are
/// the paragraphs joined by blank lines: chunks begin and end between paragraphs.
pub proof fn law_chunks_are_paragraphs(content: Seq<char>)
    requires
        forall|i: int|
            0 <= i < paragraphs_of(content).len() ==> text::bytes_of(
                #[trigger] paragraphs_of(content)[i],
            ) <= CHUNK_MAX_CHARS,
    ensures
        text::joined(chunks_of(content), "\n\n"@) == text::joined(
            paragraphs_of(content),
            "\n\n"@,
        ),
{
    let paras = paragraphs_of(content);
    lemma_paragraphs(text::pieces_of(content, "\n\n"@));
    lemma_chunks_joined(Seq::empty(), paras);
    assert(Seq::<Seq<char>>::empty() + paras =~= paras);
}

/// The chunk that is not yet closed, where there is one.
spec fn opened(current: Seq<char>) -> Seq<Seq<char>> {
    if current.len() == 0 {
        Seq::empty()
    } else {
        seq![current]
    }
}

proof fn lemma_chunks_joined(current: Seq<char>, paras: Seq<Seq<char>>)
    requires
        forall|i: int|
            0 <= i < paras.len() ==> text::bytes_of(#[trigger] paras[i]) <= CHUNK_MAX_CHARS,
        forall|i: int| 0 <= i < paras.len() ==> (#[trigger] paras[i]).len() > 0,
    ensures
        text::joined(chunks_from(current, paras), "\n\n"@) == text::joined(
            opened(current) + paras,
            "\n\n"@,
        ),
        chunks_from(current, paras).len() == 0 ==> current.len() == 0 && paras.len() == 0,
    decreases paras.len(),
{
    let gap = "\n\n"@;
    let closed = opened(current);
    if paras.len() == 0 {
        assert(closed + paras =~= closed);
    } else {
        let p = paras[0];
        let rest = paras.drop_first();
        assert forall|i: int| 0 <= i < rest.len() implies text::bytes_of(#[trigger] rest[i])
            <= CHUNK_MAX_CHARS && rest[i].len() > 0 by {
            assert(rest[i] == paras[i + 1]);
        }
        assert(paras =~= seq![p] + rest);
        if current.len() == 0 {
            lemma_chunks_joined(p, rest);
            assert(closed + paras =~= opened(p) + rest);
        } else if text::bytes_of(current) + text::bytes_of(p) + 2 > CHUNK_MAX_CHARS {
            lemma_chunks_joined(p, rest);
            assert(opened(p) + rest =~= paras);
            text::lemma_joined_add(closed, chunks_from(p, rest), gap);
            text::lemma_joined_add(closed, paras, gap);
        } else {
            let next = current + gap + p;
            let two = seq![current, p];
            lemma_chunks_joined(next, rest);
            assert(closed + paras =~= two + rest);
            text::lemma_joined_add(seq![current], seq![p], gap);
            assert(seq![current] + seq![p] =~= two);
            assert(text::joined(two, gap) == next);
            if rest.len() == 0 {
                assert(opened(next) + rest =~= seq![next]);
                assert(two + rest =~= two);
            } else {
                text::lemma_joined_add(seq![next], rest, gap);
                text::lemma_joined_add(two, rest, gap);
            }
        }
    }
}

/// A paragraph that is not too long for a chunk is never split: it stands whole in
/// one of them.
pub proof fn law_short_paragraphs_stay_whole(content: Seq<char>, i: int)
    requires
        0 <= i < paragraphs_of(content).len(),
        text::bytes_of(paragraphs_of(content)[i]) <= CHUNK_MAX_CHARS,
    ensures
        exists|k: int|
            0 <= k < chunks_of(content).len() && text::has_text(
                #[trigger] chunks_of(content)[k],
                paragraphs_of(content)[i],
            ),
{
    lemma_paragraphs(text::pieces_of(content, "\n\n"@));
    let (k, at) = lemma_stays_whole(Seq::empty(), paragraphs_of(content), i);
    text::lemma_found_from(chunks_of(content)[k], paragraphs_of(content)[i], 0);
}

/// The first chunk begins with what was not yet closed.
proof fn lemma_opened_first(current: Seq<char>, paras: Seq<Seq<char>>)
    requires
        current.len() > 0,
    ensures
        chunks_from(current, paras).len() > 0,
        text::begins(chunks_from(current, paras)[0], current),
    decreases paras.len(),
{
    assert(current.take(current.len() as int) =~= current);
    if paras.len() > 0 {
        let p = paras[0];
        let rest = paras.drop_first();
        if text::bytes_of(p) <= CHUNK_MAX_CHARS && text::bytes_of(current) + text::bytes_of(p) + 2
            <= CHUNK_MAX_CHARS {
            let next = current + "\n\n"@ + p;
            lemma_opened_first(next, rest);
            let first = chunks_from(next, rest)[0];
            assert(next.take(current.len() as int) =~= current);
            assert(first.take(current.len() as int) =~= first.take(next.len() as int).take(
                current.len() as int,
            ));
        }
    }
}

/// In which chunk a paragraph stands, and where.
proof fn lemma_stays_whole(current: Seq<char>, paras: Seq<Seq<char>>, i: int) -> (r: (int, int))
    requires
        0 <= i < paras.len(),
        text::bytes_of(paras[i]) <= CHUNK_MAX_CHARS,
        forall|k: int| 0 <= k < paras.len() ==> (#[trigger] paras[k]).len() > 0,
    ensures
        0 <= r.0 < chunks_from(current, paras).len(),
        text::occurs_at(chunks_from(current, paras)[r.0], paras[i], r.1),
    decreases paras.len(),
{
    reveal_strlit("\n\n");
    let p = paras[0];
    let rest = paras.drop_first();
    let none = Seq::<char>::empty();
    let closed = opened(current);
    let all = chunks_from(current, paras);
    assert(p.len() > 0);
    assert forall|k: int| 0 <= k < rest.len() implies (#[trigger] rest[k]).len() > 0 by {
        assert(rest[k] == paras[k + 1]);
    }
    if text::bytes_of(p) > CHUNK_MAX_CHARS {
        assert(rest[i - 1] == paras[i]);
        let (k, at) = lemma_stays_whole(none, rest, i - 1);
        let front = closed + cut(p);
        assert(all[front.len() + k] == chunks_from(none, rest)[k]);
        (front.len() + k, at)
    } else {
        let apart = current.len() == 0 || text::bytes_of(current) + text::bytes_of(p) + 2
            > CHUNK_MAX_CHARS;
        let next = if apart {
            p
        } else {
            current + "\n\n"@ + p
        };
        let front = if apart {
            closed
        } else {
            Seq::empty()
        };
        assert(all =~= front + chunks_from(next, rest));
        if i > 0 {
            assert(rest[i - 1] == paras[i]);
            let (k, at) = lemma_stays_whole(next, rest, i - 1);
            assert(all[front.len() + k] == chunks_from(next, rest)[k]);
            (front.len() + k, at)
        } else {
            lemma_opened_first(next, rest);
            let first = chunks_from(next, rest)[0];
            let at = next.len() - p.len();
            assert(all[front.len() as int] == first);
            assert(next.subrange(at, next.len() as int) =~= p);
            assert(first.subrange(at, next.len() as int) =~= first.take(
                next.len() as int,
            ).subrange(at, next.len() as int));
            (front.len() as int, at)
        }
    }
}

/// A chunk as it is kept.
#[derive(Debug, PartialEq, Eq)]
pub struct NoteChunk {
    pub note_path: String,
    pub chunk_idx: usize,
    pub text: String,
}

/// The chunks of a note as they are kept, numbered in their order.
pub fn note_chunks(relative_path: &str, content: &str) -> (r: Vec<NoteChunk>)
    ensures
        r@.len() == chunks_of(content@).len(),
        forall|i: int|
            0 <= i < r@.len() ==> (#[trigger] r@[i]).note_path@ == relative_path@ && r@[i].chunk_idx
                == i && r@[i].text@ == chunks_of(content@)[i],
{
    let chunks = chunk_markdown(content);
    let ghost all = text::texts(chunks@);
    let mut out: Vec<NoteChunk> = Vec::new();
    let mut i: usize = 0;
    while i < chunks.len()
        invariant
            i <= chunks.len(),
            all == text::texts(chunks@),
            out.len() == i,
            forall|k: int|
                0 <= k < i ==> (#[trigger] out@[k]).note_path@ == relative_path@
                    && out@[k].chunk_idx == k && out@[k].text@ == all[k],
        decreases chunks.len() - i,
    {
        assert(all[i as int] == chunks@[i as int]@);
        out.push(
            NoteChunk {
                note_path: relative_path.to_owned(),
                chunk_idx: i,
                text: chunks[i].clone(),
            },
        );
        i += 1;
    }
    out
}

/// Whether indexing a note also reads the tasks in it.
pub fn holds_tasks(relative_path: &str) -> (r: bool)
    ensures
        r == (relative_path@ == tasks::TASKS_NOTE_PATH@),
{
    text::same(relative_path, tasks::TASKS_NOTE_PATH)
}

// ---------------------------------------------------------------------------
// Tasks that are done
// ---------------------------------------------------------------------------

/// The line that a finished task adds to the daily note.
pub fn completion_bullet(event: &TaskCompletionEvent) -> (r: String)
    ensures
        r@ == "- "@ + event.title@,
{
    let mut s = String::from_str("- ");
    s.append(event.title.as_str());
    s
}

/// What is told of a line that a finished task added to the daily note.
pub fn appended_payload(entry: &TaskCompletionEntry) -> (r: DailyNoteAppendedPayload)
    ensures
        r.entry_id@ == entry.entry_id@,
        r.task_id@ == entry.task_id@,
        r.daily_note_path@ == entry.daily_note_path@,
        r.bullet_text@ == entry.appended_bullet_text@,
{
    DailyNoteAppendedPayload {
        entry_id: entry.entry_id.clone(),
        task_id: entry.task_id.clone(),
        daily_note_path: entry.daily_note_path.clone(),
        bullet_text: entry.appended_bullet_text.clone(),
    }
}

/// What a finished task does: the daily note's new text, if it changes, and
/// the entry for the log.
#[derive(Debug, PartialEq, Eq)]
pub struct CompletionStep {
    pub note: Option<String>,
    pub entry: TaskCompletionEntry,
}

/// The day's note once the tasks are done, one after the other.
pub open spec fn day_with(note: Seq<char>, titles: Seq<Seq<char>>) -> Seq<char>
    decreases titles.len(),
{
    if titles.len() == 0 {
        note
    } else {
        daily_note::with_bullet(
            day_with(note, titles.drop_last()),
            daily_note::bullet_of("- "@ + titles.last()),
        )
    }
}

/// Takes up one finished task: its line goes to the day's note, unless it is
/// there, and an entry by which that can be undone goes to the log.
pub fn apply_task_completion(
    note: &str,
    event: &TaskCompletionEvent,
    today: Date,
    created: Timestamp,
) -> (r: CompletionStep)
    requires
        today.wf(),
    ensures
        ({
            let bullet = daily_note::bullet_of("- "@ + event.title@);
            &&& r.note is None <==> daily_note::did_holds(note@, bullet)
            &&& r.note matches Some(s) ==> s@ == daily_note::with_bullet(note@, bullet)
        }),
        ids::is_id(r.entry.entry_id@, "task_completion_"@),
        r.entry.created == created,
        r.entry.task_id@ == event.task_id@,
        r.entry.task_title@ == event.title@,
        r.entry.daily_note_path@ == daily_note::DAILY_NOTES_DIR@ + seq!['/']
            + datetime::iso_date(today) + ".md"@,
        r.entry.appended_bullet_text@ == "- "@ + event.title@,
{
    let bullet = completion_bullet(event);
    let daily_rel = daily_note::daily_note_relative_path(today);
    CompletionStep {
        note: daily_note::append_did_bullet(note, bullet.as_str()),
        entry: audit::task_completion_entry(
            created,
            event.task_id.as_str(),
            event.title.as_str(),
            daily_rel.as_str(),
            bullet.as_str(),
        ),
    }
}

/// Every task that was finished has its line in the day's note, whatever was
/// finished after it. The titles must be of one line and not end in a carriage
/// return.
pub proof fn law_finished_tasks_are_in_the_day(note: Seq<char>, titles: Seq<Seq<char>>, i: int)
    requires
        0 <= i < titles.len(),
        forall|k: int|
            0 <= k < titles.len() ==> text::free_of(#[trigger] titles[k], '\n')
                && daily_note::no_return(titles[k]),
    ensures
        daily_note::did_holds(day_with(note, titles), "- "@ + titles[i]),
    decreases titles.len(),
{
    let before = day_with(note, titles.drop_last());
    let last = titles.last();
    assert(titles[titles.len() - 1] == last);
    lemma_title_bullet(last);
    if i == titles.len() - 1 {
        daily_note::law_appended_bullet_is_there(before, "- "@ + last);
    } else {
        assert forall|k: int| 0 <= k < titles.drop_last().len() implies text::free_of(
            #[trigger] titles.drop_last()[k],
            '\n',
        ) && daily_note::no_return(titles.drop_last()[k]) by {
            assert(titles.drop_last()[k] == titles[k]);
        }
        law_finished_tasks_are_in_the_day(note, titles.drop_last(), i);
        assert(text::free_of(titles[i], '\n'));
        lemma_title_bullet(titles[i]);
        daily_note::law_appending_keeps_the_bullets(before, "- "@ + last, "- "@ + titles[i]);
    }
}

/// The line for a title of one line is a plain bullet.
proof fn lemma_title_bullet(title: Seq<char>)
    requires
        text::free_of(title, '\n'),
        daily_note::no_return(title),
    ensures
        daily_note::plain_bullet("- "@ + title),
        daily_note::bullet_of("- "@ + title) == "- "@ + title,
        text::trimmed_end("- "@ + title).len() > 0,
{
    reveal_strlit("- ");
    let b = "- "@ + title;
    assert(b[0] == '-');
    diff_gen::lemma_trimmed_end_first(b);
    assert(title.len() > 0 ==> b.last() == title.last());
    assert(text::trimmed_start(b) == b);
    assert(!diff_gen::heading_line(b));
    assert(b.last() != '\n');
}

// ---------------------------------------------------------------------------
// A pass over the formation
// ---------------------------------------------------------------------------

/// How far a pass over the formation is.
#[derive(Debug, PartialEq, Eq)]
pub struct IndexProgress {
    pub done: usize,
    pub total: usize,
    pub current_path: String,
}

/// What a pass over the formation counted.
#[derive(Clone, Copy, Debug, PartialEq, Eq, Structural)]
pub struct IndexFormationResult {
    pub total: usize,
    pub indexed: usize,
    pub skipped: usize,
    pub failed: usize,
}

/// What became of a note in a pass.
#[derive(Clone, Copy, Debug, PartialEq, Eq, Structural)]
pub enum NoteOutcome {
    Indexed,
    Skipped,
    Failed,
}

/// Whether a note is indexed in a pass: where that is forced, where it never was,
/// or where it has changed since.
pub fn needs_index(force: bool, modified_secs: i64, recorded: Option<i64>) -> (r: bool)
    ensures
        r == (force || recorded is None || modified_secs > recorded->0),
{
    force || match recorded {
        Some(t) => modified_secs > t,
        None => true,
    }
}

/// How many notes had that outcome.
pub open spec fn count_of(outcomes: Seq<NoteOutcome>, which: NoteOutcome) -> nat
    decreases outcomes.len(),
{
    if outcomes.len() == 0 {
        0
    } else {
        count_of(outcomes.drop_last(), which) + if outcomes.last() == which {
            1nat
        } else {
            0
        }
    }
}

/// What a pass counted, from what became of its notes.
pub fn index_formation(outcomes: &Vec<NoteOutcome>) -> (r: IndexFormationResult)
    ensures
        r.total == outcomes@.len(),
        r.indexed == count_of(outcomes@, NoteOutcome::Indexed),
        r.skipped == count_of(outcomes@, NoteOutcome::Skipped),
        r.failed == count_of(outcomes@, NoteOutcome::Failed),
        r.indexed + r.skipped + r.failed == r.total,
{
    let mut indexed: usize = 0;
    let mut skipped: usize = 0;
    let mut failed: usize = 0;
    let mut i: usize = 0;
    assert(outcomes@.take(0) =~= Seq::<NoteOutcome>::empty());
    while i < outcomes.len()
        invariant
            i <= outcomes.len(),
            indexed == count_of(outcomes@.take(i as int), NoteOutcome::Indexed),
            skipped == count_of(outcomes@.take(i as int), NoteOutcome::Skipped),
            failed == count_of(outcomes@.take(i as int), NoteOutcome::Failed),
            indexed + skipped + failed == i,
        decreases outcomes.len() - i,
    {
        assert(outcomes@.take(i + 1).drop_last() =~= outcomes@.take(i as int));
        assert(outcomes@.take(i + 1).last() == outcomes@[i as int]);
        match outcomes[i] {
            NoteOutcome::Indexed => {
                indexed += 1;
            },
            NoteOutcome::Skipped => {
                skipped += 1;
            },
            NoteOutcome::Failed => {
                failed += 1;
            },
        }
        i += 1;
    }
    assert(outcomes@.take(i as int) =~= outcomes@);
    IndexFormationResult { total: outcomes.len(), indexed, skipped, failed }
}

/// The end of a pass: everything is done, and no note is being worked on.
pub fn pass_finished(total: usize) -> (r: IndexProgress)
    ensures
        r.done == total,
        r.total == total,
        r.current_path@.len() == 0,
{
    IndexProgress { done: total, total, current_path: String::new() }
}

/// A note that has been quiet for long enough is taken out, in its order, and one that has
/// not waits on.
pub proof fn law_quiet_notes_are_due(pending: Seq<(Seq<char>, int)>, p: (Seq<char>, int), now: int)
    ensures
        now >= p.1 + 1500 ==> sifted(pending.push(p), now, true) == sifted(
            pending,
            now,
            true,
        ).push(p) && sifted(pending.push(p), now, false) == sifted(pending, now, false),
        now < p.1 + 1500 ==> sifted(pending.push(p), now, true) == sifted(pending, now, true)
            && sifted(pending.push(p), now, false) == sifted(pending, now, false).push(p),
{
    assert(pending.push(p).drop_last() =~= pending);
}

/// Asking for a note leaves the others waiting as they were, and a note that was not
/// waited for comes last.
pub proof fn law_asking_leaves_the_others(
    pending: Seq<(Seq<char>, int)>,
    path: Seq<char>,
    now: int,
)
    ensures
        forall|i: int|
            0 <= i < pending.len() && (#[trigger] pending[i]).0 != path ==> rearmed(
                pending,
                path,
                now,
            ).contains(pending[i]),
        rearmed(pending, path, now).contains((path, now)),
        (forall|i: int| 0 <= i < pending.len() ==> (#[trigger] pending[i]).0 != path) ==> rearmed(
            pending,
            path,
            now,
        ) == pending.push((path, now)),
    decreases pending.len(),
{
    let r = rearmed(pending, path, now);
    if pending.len() == 0 {
        assert(r[0] == (path, now));
        assert(r =~= pending.push((path, now)));
    } else if pending[0].0 == path {
        assert(r[0] == (path, now));
        assert forall|i: int| 0 <= i < pending.len() && (#[trigger] pending[i]).0
            != path implies r.contains(pending[i]) by {
            assert(r[i] == pending[i]);
        }
    } else {
        let rest = pending.drop_first();
        let s = rearmed(rest, path, now);
        law_asking_leaves_the_others(rest, path, now);
        let at = choose|k: int| 0 <= k < s.len() && s[k] == (path, now);
        assert(r[at + 1] == (path, now));
        assert forall|i: int| 0 <= i < pending.len() && (#[trigger] pending[i]).0
            != path implies r.contains(pending[i]) by {
            if i == 0 {
                assert(r[0] == pending[0]);
            } else {
                assert(rest[i - 1] == pending[i]);
                assert(s.contains(rest[i - 1]));
                let k = choose|k: int| 0 <= k < s.len() && s[k] == rest[i - 1];
                assert(r[k + 1] == pending[i]);
            }
        }
        if forall|i: int| 0 <= i < pending.len() ==> (#[trigger] pending[i]).0 != path {
            assert forall|i: int| 0 <= i < rest.len() implies (#[trigger] rest[i]).0 != path by {
                assert(rest[i] == pending[i + 1]);
            }
            assert(r =~= pending.push((path, now)));
        }
    }
}

/// What is cut of a paragraph is the paragraph, piece behind piece.
pub proof fn law_cutting_loses_nothing(p: Seq<char>)
    ensures
        text::glued(cut(p)) == p,
    decreases p.len(),
{
    if p.len() == 0 {
        assert(text::glued(cut(p)) =~= p);
    } else {
        lemma_fits_some(p);
        let n = text::fitting(p, CHUNK_MAX_CHARS as int) as int;
        law_cutting_loses_nothing(p.skip(n));
        text::lemma_glued_add(seq![p.take(n)], cut(p.skip(n)));
        text::lemma_glued_one(p.take(n));
        assert(p.take(n) + p.skip(n) =~= p);
    }
}

/// Paragraphs that fit in one chunk together stand in one chunk, with blank lines between
/// them.
pub proof fn law_what_fits_is_one_chunk(content: Seq<char>)
    requires
        paragraphs_of(content).len() > 0,
        text::bytes_of(text::joined(paragraphs_of(content), "\n\n"@)) <= 1500,
    ensures
        chunks_of(content) == seq![text::joined(paragraphs_of(content), "\n\n"@)],
{
    let paras = paragraphs_of(content);
    lemma_paragraphs(text::pieces_of(content, "\n\n"@));
    lemma_one_chunk(Seq::empty(), paras);
    assert(opened(Seq::empty()) + paras =~= paras);
}

proof fn lemma_one_chunk(current: Seq<char>, paras: Seq<Seq<char>>)
    requires
        current.len() > 0 || paras.len() > 0,
        forall|i: int| 0 <= i < paras.len() ==> (#[trigger] paras[i]).len() > 0,
        text::bytes_of(text::joined(opened(current) + paras, "\n\n"@)) <= CHUNK_MAX_CHARS,
    ensures
        chunks_from(current, paras) == seq![text::joined(opened(current) + paras, "\n\n"@)],
    decreases paras.len(),
{
    let gap = "\n\n"@;
    let closed = opened(current);
    let all = closed + paras;
    if paras.len() == 0 {
        assert(all =~= seq![current]);
    } else {
        let p = paras[0];
        let rest = paras.drop_first();
        assert(paras =~= seq![p] + rest);
        assert(p.len() > 0);
        assert forall|i: int| 0 <= i < rest.len() implies (#[trigger] rest[i]).len() > 0 by {
            assert(rest[i] == paras[i + 1]);
        }
        let next = if current.len() == 0 {
            p
        } else {
            current + gap + p
        };
        let head = if current.len() == 0 {
            seq![p]
        } else {
            seq![current, p]
        };
        assert(all =~= head + rest);
        if current.len() > 0 {
            text::lemma_joined_add(seq![current], seq![p], gap);
            assert(seq![current] + seq![p] =~= head);
        }
        assert(text::joined(head, gap) == next);
        assert(text::joined(all, gap) == text::joined(opened(next) + rest, gap)) by {
            if rest.len() == 0 {
                assert(all =~= head);
                assert(opened(next) + rest =~= seq![next]);
            } else {
                text::lemma_joined_add(head, rest, gap);
                text::lemma_joined_add(seq![next], rest, gap);
                assert(opened(next) + rest =~= seq![next] + rest);
            }
        }
        assert(text::bytes_of(next) <= text::bytes_of(text::joined(all, gap))) by {
            if rest.len() == 0 {
                assert(all =~= head);
            } else {
                text::lemma_joined_add(head, rest, gap);
                text::lemma_bytes_concat(next + gap, text::joined(rest, gap));
                text::lemma_bytes_concat(next, gap);
            }
        }
        if current.len() > 0 {
            text::lemma_bytes_concat(current + gap, p);
            lemma_gap(current);
        }
        lemma_one_chunk(next, rest);
    }
}

/// Each note of a pass is counted once, under what became of it.
pub proof fn law_each_note_is_counted(outcomes: Seq<NoteOutcome>, o: NoteOutcome, which: NoteOutcome)
    ensures
        count_of(outcomes.push(o), o) == count_of(outcomes, o) + 1,
        which != o ==> count_of(outcomes.push(o), which) == count_of(outcomes, which),
        count_of(Seq::empty(), which) == 0,
{
    assert(outcomes.push(o).drop_last() =~= outcomes);
}

/// A paragraph is what stands between blank lines, trimmed; what is blank is none.
pub proof fn law_paragraphs_are_trimmed_pieces(pieces: Seq<Seq<char>>, p: Seq<char>)
    ensures
        text::blank(p) ==> paragraphs_in(pieces.push(p)) == paragraphs_in(pieces),
        !text::blank(p) ==> paragraphs_in(pieces.push(p)) == paragraphs_in(pieces).push(
            text::trimmed(p),
        ),
        paragraphs_in(Seq::empty()).len() == 0,
{
    text::law_blank_texts_are_trimmed_away(p);
    assert(pieces.push(p).drop_last() =~= pieces);
}

} // verus!
