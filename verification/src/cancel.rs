//! The turns in flight, and which of them the user has asked to stop.
//!
//! A turn registers under the id the interface knows it by and gets a token to
//! watch. A cancel trips that token and records whether the work so far is to
//! be kept or reverted; the turn's owner asks for that once the engine stopped.
use tokio_util::sync::CancellationToken;
use vstd::prelude::*;
use crate::text;

verus! {

/// tokio-util's cancellation token.
#[verifier::external_type_specification]
#[verifier::external_body]
pub struct ExCancellationToken(CancellationToken);

/// `CancellationToken::new`: a fresh token. Nothing more is claimed of it; that
/// it is untripped is state shared between its clones.
#[verifier::external_body]
pub(crate) fn new_token() -> (r: CancellationToken) {
    CancellationToken::new()
}

/// `CancellationToken::clone`: a handle to the same token, tripped whenever it is.
#[verifier::external_body]
fn same_token(t: &CancellationToken) -> (r: CancellationToken)
    ensures
        r == *t,
{
    t.clone()
}

/// `CancellationToken::cancel` trips the token, for all its handles. That is
/// state shared between them, of which no clause can speak.
#[verifier::external_body]
fn trip(t: &CancellationToken) {
    t.cancel()
}

/// What the user asked for when interrupting a turn.
#[derive(Clone, Copy, Debug, PartialEq, Eq, Structural)]
pub enum CancelMode {
    /// Stop the turn and keep its partial work.
    Steer,
    /// Stop the turn and revert its partial work.
    Redirect,
}

/// The mode that a word names.
pub open spec fn mode_named(s: Seq<char>) -> Option<CancelMode> {
    if s == "steer"@ {
        Some(CancelMode::Steer)
    } else if s == "redirect"@ {
        Some(CancelMode::Redirect)
    } else {
        None
    }
}

impl CancelMode {
    /// Reads a mode, written in lower case.
    pub fn from_word(s: &str) -> (r: Option<CancelMode>)
        ensures
            r == mode_named(s@),
    {
        if text::same(s, "steer") {
            Some(CancelMode::Steer)
        } else if text::same(s, "redirect") {
            Some(CancelMode::Redirect)
        } else {
            None
        }
    }
}

/// One turn in flight.
struct Handle {
    id: String,
    token: CancellationToken,
    mode: Option<CancelMode>,
}

/// The turns in flight, by id.
pub struct CancelRegistry {
    entries: Vec<Handle>,
}

/// The turns that a list of handles holds.
spec fn turns(entries: Seq<Handle>) -> Map<Seq<char>, (CancellationToken, Option<CancelMode>)>
    decreases entries.len(),
{
    if entries.len() == 0 {
        Map::empty()
    } else {
        turns(entries.drop_last()).insert(
            entries.last().id@,
            (entries.last().token, entries.last().mode),
        )
    }
}

/// No two handles share an id.
spec fn distinct(entries: Seq<Handle>) -> bool {
    forall|i: int, j: int|
        0 <= i < j < entries.len() ==> (#[trigger] entries[i]).id@ != (#[trigger] entries[j]).id@
}

impl View for CancelRegistry {
    type V = Map<Seq<char>, (CancellationToken, Option<CancelMode>)>;

    closed spec fn view(&self) -> Map<Seq<char>, (CancellationToken, Option<CancelMode>)> {
        turns(self.entries@)
    }
}

/// The turns once one of them is cancelled.
pub open spec fn cancelled(
    m: Map<Seq<char>, (CancellationToken, Option<CancelMode>)>,
    id: Seq<char>,
    mode: CancelMode,
) -> Map<Seq<char>, (CancellationToken, Option<CancelMode>)> {
    if m.contains_key(id) {
        m.insert(id, (m[id].0, Some(mode)))
    } else {
        m
    }
}

/// A turn that has finished cannot be cancelled any more: a late cancel
/// changes nothing.
pub proof fn law_late_cancel_is_a_no_op(
    m: Map<Seq<char>, (CancellationToken, Option<CancelMode>)>,
    id: Seq<char>,
    mode: CancelMode,
)
    ensures
        cancelled(m.remove(id), id, mode) == m.remove(id),
{
}

/// A cancel leaves every other turn as it was.
pub proof fn law_cancel_leaves_others(
    m: Map<Seq<char>, (CancellationToken, Option<CancelMode>)>,
    id: Seq<char>,
    other: Seq<char>,
    mode: CancelMode,
)
    requires
        other != id,
    ensures
        cancelled(m, id, mode).contains_key(other) == m.contains_key(other),
        m.contains_key(other) ==> cancelled(m, id, mode)[other] == m[other],
{
}

/// What the map of a list of distinct handles holds.
proof fn lemma_turns(entries: Seq<Handle>)
    requires
        distinct(entries),
    ensures
        forall|i: int|
            0 <= i < entries.len() ==> turns(entries).contains_key((#[trigger] entries[i]).id@)
                && turns(entries)[entries[i].id@] == (entries[i].token, entries[i].mode),
        forall|id: Seq<char>| #[trigger]
            turns(entries).contains_key(id) ==> exists|i: int|
                0 <= i < entries.len() && (#[trigger] entries[i]).id@ == id,
    decreases entries.len(),
{
    if entries.len() > 0 {
        let front = entries.drop_last();
        assert(distinct(front)) by {
            assert forall|i: int, j: int| 0 <= i < j < front.len() implies (#[trigger] front[i]).id@
                != (#[trigger] front[j]).id@ by {
                assert(entries[i].id@ != entries[j].id@);
            }
        }
        lemma_turns(front);
        assert forall|i: int| 0 <= i < entries.len() implies turns(entries).contains_key(
            (#[trigger] entries[i]).id@,
        ) && turns(entries)[entries[i].id@] == (entries[i].token, entries[i].mode) by {
            if i < entries.len() - 1 {
                assert(front[i] == entries[i]);
                assert(entries[i].id@ != entries[entries.len() - 1].id@);
            }
        }
        assert forall|id: Seq<char>| turns(entries).contains_key(id) implies exists|i: int|
            0 <= i < entries.len() && (#[trigger] entries[i]).id@ == id by {
            if id == entries.last().id@ {
                assert(entries[entries.len() - 1].id@ == id);
            } else {
                assert(turns(front).contains_key(id));
                let i = choose|i: int| 0 <= i < front.len() && (#[trigger] front[i]).id@ == id;
                assert(entries[i].id@ == id);
            }
        }
    }
}

/// Two lists with the same handles, in whatever order, hold the same turns.
proof fn lemma_same_turns(a: Seq<Handle>, m: Map<Seq<char>, (CancellationToken, Option<CancelMode>)>)
    requires
        distinct(a),
        forall|i: int|
            0 <= i < a.len() ==> m.contains_key((#[trigger] a[i]).id@) && m[a[i].id@] == (
                a[i].token,
                a[i].mode,
            ),
        forall|id: Seq<char>|
            m.contains_key(id) ==> exists|i: int| 0 <= i < a.len() && (#[trigger] a[i]).id@ == id,
    ensures
        turns(a) == m,
{
    lemma_turns(a);
    assert forall|id: Seq<char>| turns(a).contains_key(id) == m.contains_key(id) by {
        if m.contains_key(id) {
            let i = choose|i: int| 0 <= i < a.len() && (#[trigger] a[i]).id@ == id;
            assert(turns(a).contains_key(a[i].id@));
        }
        if turns(a).contains_key(id) {
            let i = choose|i: int| 0 <= i < a.len() && (#[trigger] a[i]).id@ == id;
            assert(m.contains_key(a[i].id@));
        }
    }
    assert forall|id: Seq<char>| turns(a).contains_key(id) implies turns(a)[id] == m[id] by {
        let i = choose|i: int| 0 <= i < a.len() && (#[trigger] a[i]).id@ == id;
        assert(turns(a)[a[i].id@] == (a[i].token, a[i].mode));
        assert(m[a[i].id@] == (a[i].token, a[i].mode));
    }
    assert(turns(a) =~= m);
}

impl Default for CancelRegistry {
    fn default() -> (r: CancelRegistry)
        ensures
            r.wf(),
            r@ == Map::<Seq<char>, (CancellationToken, Option<CancelMode>)>::empty(),
    {
        CancelRegistry { entries: Vec::new() }
    }
}

impl CancelRegistry {
    /// Each id stands for one turn.
    pub closed spec fn wf(&self) -> bool {
        distinct(self.entries@)
    }

    /// The place of a turn.
    fn position(&self, id: &str) -> (r: Option<usize>)
        requires
            self.wf(),
        ensures
            match r {
                Some(i) => i < self.entries.len() && self.entries@[i as int].id@ == id@
                    && self@.contains_key(id@),
                None => !self@.contains_key(id@),
            },
    {
        proof {
            lemma_turns(self.entries@);
        }
        let mut i: usize = 0;
        while i < self.entries.len()
            invariant
                i <= self.entries.len(),
                forall|k: int| 0 <= k < i ==> (#[trigger] self.entries@[k]).id@ != id@,
                forall|k: int|
                    0 <= k < self.entries@.len() ==> turns(self.entries@).contains_key(
                        (#[trigger] self.entries@[k]).id@,
                    ),
            decreases self.entries.len() - i,
        {
            if text::same(self.entries[i].id.as_str(), id) {
                assert(turns(self.entries@).contains_key(self.entries@[i as int].id@));
                return Some(i);
            }
            i += 1;
        }
        None
    }

    /// Registers a turn that is about to run, and gives it its token. A turn
    /// registered before under the same id is forgotten.
    pub fn register(&mut self, client_turn_id: &str) -> (r: CancellationToken)
        requires
            old(self).wf(),
        ensures
            final(self).wf(),
            final(self)@ == old(self)@.insert(client_turn_id@, (r, None)),
    {
        let token = new_token();
        let ghost m = self@;
        self.finish(client_turn_id);
        let ghost rest = self.entries@;
        let h = Handle { id: client_turn_id.to_owned(), token: same_token(&token), mode: None };
        self.entries.push(h);
        proof {
            lemma_turns(rest);
            assert(self.entries@.drop_last() =~= rest);
            assert forall|i: int| 0 <= i < rest.len() implies (#[trigger] rest[i]).id@
                != client_turn_id@ by {
                assert(turns(rest).contains_key(rest[i].id@));
            }
            assert forall|i: int, j: int| 0 <= i < j < self.entries@.len() implies (
            #[trigger] self.entries@[i]).id@ != (#[trigger] self.entries@[j]).id@ by {
                assert(self.entries@[i] == rest[i]);
                if j < rest.len() {
                    assert(self.entries@[j] == rest[j]);
                }
            }
            assert(self@ =~= m.insert(client_turn_id@, (token, None)));
        }
        token
    }

    /// Trips a turn's token and records the mode. Nothing happens for an id
    /// that is not known: that turn has finished.
    pub fn cancel(&mut self, client_turn_id: &str, mode: CancelMode)
        requires
            old(self).wf(),
        ensures
            final(self).wf(),
            final(self)@ == cancelled(old(self)@, client_turn_id@, mode),
    {
        match self.position(client_turn_id) {
            Some(i) => {
                let ghost before = self.entries@;
                let ghost m = self@;
                let h = Handle {
                    id: self.entries[i].id.clone(),
                    token: same_token(&self.entries[i].token),
                    mode: Some(mode),
                };
                trip(&h.token);
                self.entries.set(i, h);
                proof {
                    lemma_turns(before);
                    let after = self.entries@;
                    assert(m[before[i as int].id@] == (before[i as int].token, before[i as int].mode));
                    let want = m.insert(client_turn_id@, (before[i as int].token, Some(mode)));
                    assert forall|a: int, b: int| 0 <= a < b < after.len() implies (
                    #[trigger] after[a]).id@ != (#[trigger] after[b]).id@ by {
                        assert(before[a].id@ != before[b].id@);
                    }
                    assert forall|k: int| 0 <= k < after.len() implies want.contains_key(
                        (#[trigger] after[k]).id@,
                    ) && want[after[k].id@] == (after[k].token, after[k].mode) by {
                        if k != i {
                            assert(after[k] == before[k]);
                            assert(before[k].id@ != before[i as int].id@) by {
                                if k < i {
                                    assert(before[k].id@ != before[i as int].id@);
                                } else {
                                    assert(before[i as int].id@ != before[k].id@);
                                }
                            }
                        }
                    }
                    assert forall|id: Seq<char>| want.contains_key(id) implies exists|k: int|
                        0 <= k < after.len() && (#[trigger] after[k]).id@ == id by {
                        if id == client_turn_id@ {
                            assert(after[i as int].id@ == id);
                        } else {
                            let k = choose|k: int|
                                0 <= k < before.len() && (#[trigger] before[k]).id@ == id;
                            assert(after[k].id@ == id);
                        }
                    }
                    lemma_same_turns(after, want);
                }
            },
            None => {},
        }
    }

    /// The mode that a cancel recorded for the turn, if it was cancelled.
    pub fn taken_mode(&self, client_turn_id: &str) -> (r: Option<CancelMode>)
        requires
            self.wf(),
        ensures
            r == (if self@.contains_key(client_turn_id@) {
                self@[client_turn_id@].1
            } else {
                None
            }),
    {
        proof {
            lemma_turns(self.entries@);
        }
        match self.position(client_turn_id) {
            Some(i) => self.entries[i].mode,
            None => None,
        }
    }

    /// Forgets a finished turn; a second time changes nothing.
    pub fn finish(&mut self, client_turn_id: &str)
        requires
            old(self).wf(),
        ensures
            final(self).wf(),
            final(self)@ == old(self)@.remove(client_turn_id@),
    {
        match self.position(client_turn_id) {
            Some(i) => {
                let ghost before = self.entries@;
                let ghost m = self@;
                let _gone = self.entries.remove(i);
                proof {
                    lemma_turns(before);
                    let after = self.entries@;
                    let want = m.remove(client_turn_id@);
                    assert(forall|k: int|
                        0 <= k < after.len() ==> after[k] == (if k < i {
                            before[k]
                        } else {
                            before[k + 1]
                        }));
                    assert forall|a: int, b: int| 0 <= a < b < after.len() implies (
                    #[trigger] after[a]).id@ != (#[trigger] after[b]).id@ by {
                        let x = if a < i {
                            a
                        } else {
                            a + 1
                        };
                        let y = if b < i {
                            b
                        } else {
                            b + 1
                        };
                        assert(before[x].id@ != before[y].id@);
                    }
                    assert forall|k: int| 0 <= k < after.len() implies want.contains_key(
                        (#[trigger] after[k]).id@,
                    ) && want[after[k].id@] == (after[k].token, after[k].mode) by {
                        let x = if k < i {
                            k
                        } else {
                            k + 1
                        };
                        assert(after[k] == before[x]);
                        if x < i {
                            assert(before[x].id@ != before[i as int].id@);
                        } else {
                            assert(before[i as int].id@ != before[x].id@);
                        }
                    }
                    assert forall|id: Seq<char>| want.contains_key(id) implies exists|k: int|
                        0 <= k < after.len() && (#[trigger] after[k]).id@ == id by {
                        let x = choose|x: int|
                            0 <= x < before.len() && (#[trigger] before[x]).id@ == id;
                        if x < i {
                            assert(after[x].id@ == id);
                        } else {
                            assert(after[x - 1].id@ == id);
                        }
                    }
                    lemma_same_turns(after, want);
                }
            },
            None => {
                assert(self@.remove(client_turn_id@) =~= self@);
            },
        }
    }
}

/// A cancel is recorded for its turn, in its mode and under the same token; a later one
/// takes its place.
pub proof fn law_cancels_are_recorded(
    m: Map<Seq<char>, (CancellationToken, Option<CancelMode>)>,
    id: Seq<char>,
    mode: CancelMode,
    later: CancelMode,
)
    requires
        m.contains_key(id),
    ensures
        cancelled(m, id, mode).contains_key(id),
        cancelled(m, id, mode)[id].0 == m[id].0,
        cancelled(m, id, mode)[id].1 == Some(mode),
        cancelled(cancelled(m, id, mode), id, later)[id].1 == Some(later),
{
}

/// To steer keeps what was done, to redirect does not: each word names its own mode, and
/// no other word names one.
pub proof fn law_words_name_their_mode(s: Seq<char>)
    ensures
        mode_named(s) == Some(CancelMode::Steer) <==> s == "steer"@,
        mode_named(s) == Some(CancelMode::Redirect) <==> s == "redirect"@,
{
    reveal_strlit("steer");
    reveal_strlit("redirect");
    assert("steer"@.len() == 5);
    assert("redirect"@.len() == 8);
}

} // verus!
