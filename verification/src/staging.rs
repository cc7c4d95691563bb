//! What waits in the staging tray: facts drawn from chat, and the note changes
//! that would file them.
use vstd::prelude::*;
use crate::datetime::Timestamp;
use crate::diff_gen;
use crate::error::AppError;
use crate::error;
use crate::extraction;
use crate::formation;
use crate::ids;
use crate::paths;
use crate::text;

verus! {

broadcast use vstd::string::group_string_axioms;

/// The note that the note-taker's own facts are filed in.
pub const SELF_NOTE_PATH: &'static str = "People/Me.md";

/// How sure the extractor is of something: a double, held by its IEEE 754 bits.
#[derive(Clone, Copy, Debug, PartialEq, Eq, Structural)]
pub struct Confidence {
    pub bits: u64,
}

impl Confidence {
    /// The bits are those of no number.
    pub open spec fn is_nan(self) -> bool {
        self.bits % 0x8000_0000_0000_0000 > 0x7FF0_0000_0000_0000
    }

    /// The number's place in the order of the numbers.
    pub open spec fn rank(self) -> int {
        if self.bits < 0x8000_0000_0000_0000 {
            self.bits as int
        } else {
            0x8000_0000_0000_0000 - self.bits
        }
    }

    /// Both are numbers, and the first is less than the second.
    pub open spec fn less(self, other: Confidence) -> bool {
        !self.is_nan() && !other.is_nan() && self.rank() < other.rank()
    }

    /// Whether the first is less than the second.
    pub fn is_less(self, other: Confidence) -> (r: bool)
        ensures
            r == self.less(other),
    {
        let a: i128 = if self.bits < 0x8000_0000_0000_0000 {
            self.bits as i128
        } else {
            0x8000_0000_0000_0000 - self.bits as i128
        };
        let b: i128 = if other.bits < 0x8000_0000_0000_0000 {
            other.bits as i128
        } else {
            0x8000_0000_0000_0000 - other.bits as i128
        };
        self.bits % 0x8000_0000_0000_0000 <= 0x7FF0_0000_0000_0000 && other.bits
            % 0x8000_0000_0000_0000 <= 0x7FF0_0000_0000_0000 && a < b
    }
}

/// The bits of `1.0`.
pub const FULL_CONFIDENCE_BITS: u64 = 0x3FF0_0000_0000_0000;

/// The bits of positive infinity.
pub const INFINITE_CONFIDENCE_BITS: u64 = 0x7FF0_0000_0000_0000;

/// A fact that waits to be filed.
#[derive(Debug, PartialEq, Eq)]
pub struct StagedFact {
    pub subject_id: String,
    pub subject_name: String,
    pub subject_type: String,
    pub predicate: String,
    pub object_id: String,
    pub object_name: String,
    pub object_type: String,
    pub valid_from: Timestamp,
    /// Whether `valid_from` was read from the text rather than defaulted.
    pub valid_from_explicit: bool,
    pub valid_to: Option<Timestamp>,
    pub confidence: Confidence,
    /// The user asked to keep this fact beside the one it conflicts with.
    pub explicit_coexist: bool,
}

impl StagedFact {
    /// The instants are ones the calendar can hold.
    pub open spec fn wf(self) -> bool {
        &&& self.valid_from.wf()
        &&& self.valid_to is Some ==> self.valid_to->0.wf()
    }
}

impl Clone for StagedFact {
    fn clone(&self) -> (r: StagedFact)
        ensures
            r == *self,
    {
        StagedFact {
            subject_id: self.subject_id.clone(),
            subject_name: self.subject_name.clone(),
            subject_type: self.subject_type.clone(),
            predicate: self.predicate.clone(),
            object_id: self.object_id.clone(),
            object_name: self.object_name.clone(),
            object_type: self.object_type.clone(),
            valid_from: self.valid_from,
            valid_from_explicit: self.valid_from_explicit,
            valid_to: self.valid_to,
            confidence: self.confidence,
            explicit_coexist: self.explicit_coexist,
        }
    }
}

/// Whether a change makes a note or extends one.
#[derive(Clone, Copy, Debug, PartialEq, Eq, Structural)]
pub enum ChangeKind {
    Create,
    Update,
}

/// A fact already in the graph that a staged fact contradicts.
#[derive(Debug, PartialEq, Eq)]
pub struct Conflict {
    pub staged_fact_index: usize,
    pub predicate: String,
    pub existing_object_id: String,
    pub existing_object_name: String,
    pub existing_valid_from: Timestamp,
    pub existing_source_chat_id: String,
}

impl Clone for Conflict {
    fn clone(&self) -> (r: Conflict)
        ensures
            r == *self,
    {
        Conflict {
            staged_fact_index: self.staged_fact_index,
            predicate: self.predicate.clone(),
            existing_object_id: self.existing_object_id.clone(),
            existing_object_name: self.existing_object_name.clone(),
            existing_valid_from: self.existing_valid_from,
            existing_source_chat_id: self.existing_source_chat_id.clone(),
        }
    }
}

/// An entity already in the graph that a freshly mentioned one may be.
#[derive(Debug, PartialEq, Eq)]
pub struct DisambiguationSuggestion {
    pub staged_fact_index: usize,
    /// `subject` or `object`: the end of the fact that the mention stands at.
    pub endpoint: String,
    pub mention_name: String,
    pub candidate_id: String,
    pub candidate_name: String,
    pub candidate_type: String,
    pub candidate_note_path: Option<String>,
    pub score: Confidence,
}

impl Clone for DisambiguationSuggestion {
    fn clone(&self) -> (r: DisambiguationSuggestion)
        ensures
            r == *self,
    {
        DisambiguationSuggestion {
            staged_fact_index: self.staged_fact_index,
            endpoint: self.endpoint.clone(),
            mention_name: self.mention_name.clone(),
            candidate_id: self.candidate_id.clone(),
            candidate_name: self.candidate_name.clone(),
            candidate_type: self.candidate_type.clone(),
            candidate_note_path: match &self.candidate_note_path {
                Some(p) => Some(p.clone()),
                None => None,
            },
            score: self.score,
        }
    }
}

/// A change to one note: what a Keep would write, and the facts it files.
#[derive(Debug, PartialEq, Eq)]
pub struct NoteChange {
    pub kind: ChangeKind,
    pub note_path: String,
    pub diff: String,
    pub new_content: String,
    pub facts: Vec<StagedFact>,
    pub confidence: Confidence,
    pub conflicts: Vec<Conflict>,
    pub suggestions: Vec<DisambiguationSuggestion>,
}

/// What a [`NoteChange`] says.
#[verifier::ext_equal]
pub struct NoteChangeView {
    pub kind: ChangeKind,
    pub note_path: Seq<char>,
    pub diff: Seq<char>,
    pub new_content: Seq<char>,
    pub facts: Seq<StagedFact>,
    pub confidence: Confidence,
    pub conflicts: Seq<Conflict>,
    pub suggestions: Seq<DisambiguationSuggestion>,
}

impl View for NoteChange {
    type V = NoteChangeView;

    open spec fn view(&self) -> NoteChangeView {
        NoteChangeView {
            kind: self.kind,
            note_path: self.note_path@,
            diff: self.diff@,
            new_content: self.new_content@,
            facts: self.facts@,
            confidence: self.confidence,
            conflicts: self.conflicts@,
            suggestions: self.suggestions@,
        }
    }
}

/// A copy of a list whose elements copy to themselves.
pub fn copy_facts(v: &Vec<StagedFact>) -> (r: Vec<StagedFact>)
    ensures
        r@ == v@,
{
    let r = v.clone();
    assert(r@ =~= v@);
    r
}

impl Clone for NoteChange {
    fn clone(&self) -> (r: NoteChange)
        ensures
            r@ == self@,
    {
        let facts = self.facts.clone();
        let conflicts = self.conflicts.clone();
        let suggestions = self.suggestions.clone();
        assert(facts@ =~= self.facts@);
        assert(conflicts@ =~= self.conflicts@);
        assert(suggestions@ =~= self.suggestions@);
        NoteChange {
            kind: self.kind,
            note_path: self.note_path.clone(),
            diff: self.diff.clone(),
            new_content: self.new_content.clone(),
            facts,
            confidence: self.confidence,
            conflicts,
            suggestions,
        }
    }
}

/// A proposal that waits in the tray.
#[derive(Debug, PartialEq, Eq)]
pub struct StagingEntry {
    pub id: String,
    pub created: Timestamp,
    pub chat_message_id: String,
    pub chat_excerpt: String,
    pub status: String,
    pub changes: Vec<NoteChange>,
}

/// What a [`StagingEntry`] says.
#[verifier::ext_equal]
pub struct StagingEntryView {
    pub id: Seq<char>,
    pub created: Timestamp,
    pub chat_message_id: Seq<char>,
    pub chat_excerpt: Seq<char>,
    pub status: Seq<char>,
    pub changes: Seq<NoteChangeView>,
}

/// The changes, in their order.
pub open spec fn change_views(v: Seq<NoteChange>) -> Seq<NoteChangeView> {
    v.map_values(|c: NoteChange| c@)
}

impl View for StagingEntry {
    type V = StagingEntryView;

    open spec fn view(&self) -> StagingEntryView {
        StagingEntryView {
            id: self.id@,
            created: self.created,
            chat_message_id: self.chat_message_id@,
            chat_excerpt: self.chat_excerpt@,
            status: self.status@,
            changes: change_views(self.changes@),
        }
    }
}

impl Clone for StagingEntry {
    fn clone(&self) -> (r: StagingEntry)
        ensures
            r@ == self@,
    {
        let mut changes: Vec<NoteChange> = Vec::new();
        let mut i: usize = 0;
        while i < self.changes.len()
            invariant
                i <= self.changes.len(),
                changes.len() == i,
                forall|k: int| 0 <= k < i ==> (#[trigger] changes@[k])@ == self.changes@[k]@,
            decreases self.changes.len() - i,
        {
            changes.push(self.changes[i].clone());
            i += 1;
        }
        assert(change_views(changes@) =~= change_views(self.changes@));
        StagingEntry {
            id: self.id.clone(),
            created: self.created,
            chat_message_id: self.chat_message_id.clone(),
            chat_excerpt: self.chat_excerpt.clone(),
            status: self.status.clone(),
            changes,
        }
    }
}

// ---------------------------------------------------------------------------
// Where things are kept
// ---------------------------------------------------------------------------

/// Where the proposals are kept.
pub fn staging_dir(formation_root: &str) -> (r: String)
    ensures
        r@ == paths::joined_path(
            paths::joined_path(formation_root@, formation::APP_DIR@),
            "staging"@,
        ),
{
    let app = paths::join(formation_root, formation::APP_DIR);
    paths::join(app.as_str(), "staging")
}

/// Where what a commit replaced is kept.
pub fn snapshot_dir(formation_root: &str, commit_id: &str) -> (r: String)
    ensures
        r@ == paths::joined_path(
            paths::joined_path(
                paths::joined_path(formation_root@, formation::APP_DIR@),
                "snapshots"@,
            ),
            commit_id@,
        ),
{
    let app = paths::join(formation_root, formation::APP_DIR);
    let snapshots = paths::join(app.as_str(), "snapshots");
    paths::join(snapshots.as_str(), commit_id)
}

// ---------------------------------------------------------------------------
// The tray
// ---------------------------------------------------------------------------

/// `list`, oldest first, with `x` put behind every entry that is not newer.
pub open spec fn inserted_oldest(list: Seq<StagingEntry>, x: StagingEntry) -> Seq<StagingEntry>
    decreases list.len(),
{
    if list.len() == 0 || !x.created.before(list.last().created) {
        list.push(x)
    } else {
        inserted_oldest(list.drop_last(), x).push(list.last())
    }
}

/// The entries oldest first; entries of one time stay as they stood.
pub open spec fn oldest_first_of(list: Seq<StagingEntry>) -> Seq<StagingEntry>
    decreases list.len(),
{
    if list.len() == 0 {
        Seq::empty()
    } else {
        inserted_oldest(oldest_first_of(list.drop_last()), list.last())
    }
}

/// Puts an entry at its place in a list that is oldest first.
fn insert_pending(list: &mut Vec<StagingEntry>, x: StagingEntry)
    ensures
        final(list)@ == inserted_oldest(old(list)@, x),
{
    let ghost start = list@;
    let n: usize = list.len();
    let mut i: usize = n;
    assert(start.take(n as int) =~= start);
    assert(inserted_oldest(start, x) =~= inserted_oldest(start.take(i as int), x) + start.skip(
        i as int,
    ));
    while i > 0 && x.created.is_before(list[i - 1].created)
        invariant
            i <= n,
            n == list.len(),
            start == list@,
            inserted_oldest(start, x) == inserted_oldest(start.take(i as int), x) + start.skip(
                i as int,
            ),
        decreases i,
    {
        assert(start.take(i as int).last() == start[i - 1]);
        assert(start.take(i as int).drop_last() =~= start.take(i - 1));
        assert(inserted_oldest(start.take(i - 1), x).push(start[i - 1]) + start.skip(i as int)
            =~= inserted_oldest(start.take(i - 1), x) + start.skip(i - 1));
        i -= 1;
    }
    assert(i > 0 ==> start.take(i as int).last() == start[i - 1]);
    assert(inserted_oldest(start.take(i as int), x) =~= start.take(i as int).push(x));
    list.insert(i, x);
    assert(list@ =~= start.take(i as int).push(x) + start.skip(i as int));
}

/// The entries that wait in the tray, oldest first.
pub fn list_staging(entries: Vec<StagingEntry>) -> (r: Vec<StagingEntry>)
    ensures
        r@ == oldest_first_of(entries@),
{
    let ghost all = entries@;
    let ghost mut done: int = 0;
    let mut rest = entries;
    let mut out: Vec<StagingEntry> = Vec::new();
    assert(all.take(0) =~= Seq::<StagingEntry>::empty());
    assert(all.skip(0) =~= all);
    while rest.len() > 0
        invariant
            0 <= done <= all.len(),
            rest@ == all.skip(done),
            out@ == oldest_first_of(all.take(done)),
        decreases rest.len(),
    {
        let x = rest.remove(0);
        assert(x == all[done]);
        assert(all.take(done + 1).drop_last() =~= all.take(done));
        insert_pending(&mut out, x);
        assert(rest@ =~= all.skip(done + 1));
        proof {
            done = done + 1;
        }
    }
    assert(all.take(done) =~= all);
    out
}

// ---------------------------------------------------------------------------
// A change with what speaks against it
// ---------------------------------------------------------------------------

/// A fact in the graph that contradicts one to be filed.
#[derive(Debug, PartialEq, Eq)]
pub struct ExistingFact {
    pub predicate: String,
    pub object_id: String,
    pub object_name: String,
    pub valid_from: Timestamp,
    pub source_chat_id: String,
}

/// An entity in the graph that is like one that was mentioned.
#[derive(Debug, PartialEq, Eq)]
pub struct Candidate {
    pub id: String,
    pub canonical_name: String,
    pub entity_type: String,
    pub note_path: Option<String>,
    pub score: Confidence,
}

/// What the graph knows of one end of a fact.
#[derive(Debug, PartialEq, Eq)]
pub struct EndpointLookup {
    /// Whether an entity of that name is in the graph.
    pub known: bool,
    /// The entities that are like it, the likest first.
    pub similar: Vec<Candidate>,
}

/// What the graph knows of a fact.
#[derive(Debug, PartialEq, Eq)]
pub struct FactLookup {
    pub conflicts: Vec<ExistingFact>,
    pub subject: EndpointLookup,
    pub object: EndpointLookup,
}

/// A contradiction as it is shown.
pub open spec fn conflict_of(index: int, c: ExistingFact) -> Conflict {
    Conflict {
        staged_fact_index: index as usize,
        predicate: c.predicate,
        existing_object_id: c.object_id,
        existing_object_name: c.object_name,
        existing_valid_from: c.valid_from,
        existing_source_chat_id: c.source_chat_id,
    }
}

/// The contradictions that a fact is shown with: none where the user has said
/// to keep both.
pub open spec fn conflicts_on(index: int, fact: StagedFact, lookup: FactLookup) -> Seq<Conflict> {
    if fact.explicit_coexist {
        Seq::empty()
    } else {
        lookup.conflicts@.map_values(|c: ExistingFact| conflict_of(index, c))
    }
}

/// The contradictions of the first `n` facts.
pub open spec fn conflicts_of_first(
    n: int,
    facts: Seq<StagedFact>,
    lookups: Seq<FactLookup>,
) -> Seq<Conflict>
    decreases n,
{
    if n <= 0 {
        Seq::empty()
    } else {
        conflicts_of_first(n - 1, facts, lookups) + conflicts_on(n - 1, facts[n - 1], lookups[n - 1])
    }
}

/// What a suggestion says.
pub struct SuggestionView {
    pub index: int,
    pub endpoint: Seq<char>,
    pub mention: Seq<char>,
    pub candidate: Candidate,
}

impl View for DisambiguationSuggestion {
    type V = SuggestionView;

    open spec fn view(&self) -> SuggestionView {
        SuggestionView {
            index: self.staged_fact_index as int,
            endpoint: self.endpoint@,
            mention: self.mention_name@,
            candidate: Candidate {
                id: self.candidate_id,
                canonical_name: self.candidate_name,
                entity_type: self.candidate_type,
                note_path: self.candidate_note_path,
                score: self.score,
            },
        }
    }
}

/// The suggestions, in their order.
pub open spec fn suggestion_views(v: Seq<DisambiguationSuggestion>) -> Seq<SuggestionView> {
    v.map_values(|s: DisambiguationSuggestion| s@)
}

/// What is suggested for one end of a fact: the likest entity, unless the end is
/// the note-taker or in the graph already.
pub open spec fn suggestion_for(
    index: int,
    endpoint: Seq<char>,
    name: Seq<char>,
    lookup: EndpointLookup,
) -> Seq<SuggestionView> {
    if name == extraction::SELF_NAME@ || lookup.known || lookup.similar@.len() == 0 {
        Seq::empty()
    } else {
        seq![SuggestionView { index, endpoint, mention: name, candidate: lookup.similar@[0] }]
    }
}

/// What is suggested for the first `n` facts.
pub open spec fn suggestions_for_first(
    n: int,
    facts: Seq<StagedFact>,
    lookups: Seq<FactLookup>,
) -> Seq<SuggestionView>
    decreases n,
{
    if n <= 0 {
        Seq::empty()
    } else {
        suggestions_for_first(n - 1, facts, lookups) + suggestion_for(
            n - 1,
            "subject"@,
            facts[n - 1].subject_name@,
            lookups[n - 1].subject,
        ) + suggestion_for(
            n - 1,
            "object"@,
            facts[n - 1].object_name@,
            lookups[n - 1].object,
        )
    }
}

/// The change that files facts in a note; `None` where the note has them all.
pub fn render_change(
    note_path: &str,
    existing: Option<&str>,
    facts: &Vec<StagedFact>,
    source_chat_id: &str,
) -> (r: Option<NoteChange>)
    requires
        forall|i: int| 0 <= i < facts@.len() ==> (#[trigger] facts@[i]).wf(),
    ensures
        ({
            let change = diff_gen::facts_applied(
                note_path@,
                text::opt_str(existing),
                facts@,
                source_chat_id@,
            );
            match r {
                Some(c) => c@ == change && change.facts.len() > 0,
                None => change.facts.len() == 0,
            }
        }),
{
    let change = diff_gen::apply_facts_to_note(note_path, existing, facts, source_chat_id);
    if change.facts.len() == 0 {
        None
    } else {
        Some(change)
    }
}

fn push_suggestion(
    out: &mut Vec<DisambiguationSuggestion>,
    index: usize,
    endpoint: &str,
    name: &str,
    lookup: &EndpointLookup,
)
    ensures
        suggestion_views(final(out)@) == suggestion_views(old(out)@) + suggestion_for(
            index as int,
            endpoint@,
            name@,
            *lookup,
        ),
{
    if text::same(name, extraction::SELF_NAME) || lookup.known || lookup.similar.len() == 0 {
        assert(suggestion_views(out@) + Seq::<SuggestionView>::empty() =~= suggestion_views(out@));
        return;
    }
    let best = &lookup.similar[0];
    let s = DisambiguationSuggestion {
        staged_fact_index: index,
        endpoint: endpoint.to_owned(),
        mention_name: name.to_owned(),
        candidate_id: best.id.clone(),
        candidate_name: best.canonical_name.clone(),
        candidate_type: best.entity_type.clone(),
        candidate_note_path: match &best.note_path {
            Some(p) => Some(p.clone()),
            None => None,
        },
        score: best.score,
    };
    let ghost before = out@;
    let ghost v = s@;
    out.push(s);
    assert(suggestion_views(out@) =~= suggestion_views(before) + seq![v]);
}

/// A change with what the graph says of its facts: what they contradict, and
/// whom their ends may be.
pub fn assemble_note_change(change: NoteChange, lookups: &Vec<FactLookup>) -> (r: NoteChange)
    requires
        lookups@.len() == change.facts@.len(),
    ensures
        r@ == (NoteChangeView {
            conflicts: change.conflicts@ + conflicts_of_first(
                change.facts@.len() as int,
                change.facts@,
                lookups@,
            ),
            suggestions: r.suggestions@,
            ..change@
        }),
        suggestion_views(r.suggestions@) == suggestion_views(change.suggestions@)
            + suggestions_for_first(change.facts@.len() as int, change.facts@, lookups@),
{
    let mut change = change;
    let ghost facts = change.facts@;
    let ghost start = change;
    let mut i: usize = 0;
    assert(start.conflicts@ + Seq::<Conflict>::empty() =~= start.conflicts@);
    assert(suggestion_views(start.suggestions@) + Seq::<SuggestionView>::empty()
        =~= suggestion_views(start.suggestions@));
    while i < change.facts.len()
        invariant
            lookups@.len() == facts.len(),
            change.facts@ == facts,
            i <= facts.len(),
            change@ == (NoteChangeView {
                conflicts: start.conflicts@ + conflicts_of_first(i as int, facts, lookups@),
                suggestions: change.suggestions@,
                ..start@
            }),
            suggestion_views(change.suggestions@) == suggestion_views(start.suggestions@)
                + suggestions_for_first(i as int, facts, lookups@),
        decreases facts.len() - i,
    {
        let lookup = &lookups[i];
        let ghost conflicts_before = change.conflicts@;
        if !change.facts[i].explicit_coexist {
            let ghost flagged = lookup.conflicts@.map_values(
                |c: ExistingFact| conflict_of(i as int, c),
            );
            let mut j: usize = 0;
            assert(conflicts_before + flagged.take(0) =~= conflicts_before);
            while j < lookup.conflicts.len()
                invariant
                    j <= lookup.conflicts.len(),
                    flagged == lookup.conflicts@.map_values(
                        |c: ExistingFact| conflict_of(i as int, c),
                    ),
                    change.facts@ == facts,
                    change.conflicts@ == conflicts_before + flagged.take(j as int),
                    change@ == (NoteChangeView {
                        conflicts: change.conflicts@,
                        suggestions: change.suggestions@,
                        ..start@
                    }),
                    suggestion_views(change.suggestions@) == suggestion_views(start.suggestions@)
                        + suggestions_for_first(i as int, facts, lookups@),
                decreases lookup.conflicts.len() - j,
            {
                let c = &lookup.conflicts[j];
                let k = Conflict {
                    staged_fact_index: i,
                    predicate: c.predicate.clone(),
                    existing_object_id: c.object_id.clone(),
                    existing_object_name: c.object_name.clone(),
                    existing_valid_from: c.valid_from,
                    existing_source_chat_id: c.source_chat_id.clone(),
                };
                assert(k == flagged[j as int]);
                assert(flagged.take(j + 1) =~= flagged.take(j as int).push(k));
                change.conflicts.push(k);
                assert(change.conflicts@ =~= conflicts_before + flagged.take(j + 1));
                j += 1;
            }
            assert(flagged.take(j as int) =~= flagged);
        } else {
            assert(conflicts_before + Seq::<Conflict>::empty() =~= conflicts_before);
        }
        assert(change.conflicts@ == conflicts_before + conflicts_on(
            i as int,
            facts[i as int],
            lookups@[i as int],
        ));
        assert(change.conflicts@ =~= start.conflicts@ + conflicts_of_first(
            i + 1,
            facts,
            lookups@,
        ));
        let ghost suggested = suggestion_views(change.suggestions@);
        let subject = change.facts[i].subject_name.clone();
        let object = change.facts[i].object_name.clone();
        push_suggestion(&mut change.suggestions, i, "subject", subject.as_str(), &lookup.subject);
        push_suggestion(&mut change.suggestions, i, "object", object.as_str(), &lookup.object);
        assert(suggestion_views(change.suggestions@) =~= suggestion_views(start.suggestions@)
            + suggestions_for_first(i + 1, facts, lookups@));
        i += 1;
    }
    change
}

// ---------------------------------------------------------------------------
// Answering a contradiction
// ---------------------------------------------------------------------------

/// The first change to a note.
pub open spec fn change_to(changes: Seq<NoteChangeView>, note_path: Seq<char>, i: int) -> Option<
    int,
>
    decreases changes.len() - i,
{
    if i < 0 || i >= changes.len() {
        None
    } else if changes[i].note_path == note_path {
        Some(i)
    } else {
        change_to(changes, note_path, i + 1)
    }
}

fn find_change(changes: &Vec<NoteChange>, note_path: &str) -> (r: Result<usize, AppError>)
    ensures
        match r {
            Ok(i) => change_to(change_views(changes@), note_path@, 0) == Some(i as int) && i
                < changes@.len(),
            Err(e) => change_to(change_views(changes@), note_path@, 0) is None && e.text()
                == "no staged change for "@ + note_path@,
        },
{
    let mut i: usize = 0;
    while i < changes.len()
        invariant
            i <= changes.len(),
            change_to(change_views(changes@), note_path@, 0) == change_to(
                change_views(changes@),
                note_path@,
                i as int,
            ),
        decreases changes.len() - i,
    {
        if text::same(changes[i].note_path.as_str(), note_path) {
            return Ok(i);
        }
        i += 1;
    }
    Err(error::message2("no staged change for ", note_path))
}

/// The contradictions that are not of that fact.
pub open spec fn conflicts_besides(v: Seq<Conflict>, index: int) -> Seq<Conflict>
    decreases v.len(),
{
    if v.len() == 0 {
        Seq::empty()
    } else if v.last().staged_fact_index == index {
        conflicts_besides(v.drop_last(), index)
    } else {
        conflicts_besides(v.drop_last(), index).push(v.last())
    }
}

fn keep_other_conflicts(v: &Vec<Conflict>, index: usize) -> (r: Vec<Conflict>)
    ensures
        r@ == conflicts_besides(v@, index as int),
{
    let mut out: Vec<Conflict> = Vec::new();
    let mut i: usize = 0;
    assert(v@.take(0) =~= Seq::<Conflict>::empty());
    while i < v.len()
        invariant
            i <= v.len(),
            out@ == conflicts_besides(v@.take(i as int), index as int),
        decreases v.len() - i,
    {
        assert(v@.take(i + 1).drop_last() =~= v@.take(i as int));
        assert(v@.take(i + 1).last() == v@[i as int]);
        if v[i].staged_fact_index != index {
            out.push(v[i].clone());
        }
        i += 1;
    }
    assert(v@.take(i as int) =~= v@);
    out
}

/// A change whose contradiction was answered: the banner is gone, and where both
/// facts are to be kept the new one says so.
pub open spec fn answered(c: NoteChangeView, index: int, coexist: bool) -> NoteChangeView {
    NoteChangeView {
        conflicts: conflicts_besides(c.conflicts, index),
        facts: if coexist && index < c.facts.len() {
            c.facts.update(index, StagedFact { explicit_coexist: true, ..c.facts[index] })
        } else {
            c.facts
        },
        ..c
    }
}

/// What is to be done about an answer.
#[derive(Debug, PartialEq, Eq)]
pub enum ConflictStep {
    /// The proposal, answered.
    Answered(StagingEntry),
    /// The change at `pos` is to be rendered anew from the facts that are left.
    Rebuild { entry: StagingEntry, pos: usize, facts: Vec<StagedFact> },
}

/// Answers a contradiction. `update` files the new fact in place of the old one,
/// `coexist` beside it, and `discard` drops the new one.
pub fn resolve_conflict(
    entry: StagingEntry,
    note_path: &str,
    staged_fact_index: usize,
    resolution: &str,
) -> (r: Result<ConflictStep, AppError>)
    ensures
        match change_to(entry@.changes, note_path@, 0) {
            None => r matches Err(e) && e.text() == "no staged change for "@ + note_path@,
            Some(pos) => {
                let change = entry@.changes[pos];
                if resolution@ == "update"@ || resolution@ == "coexist"@ {
                    r matches Ok(ConflictStep::Answered(done)) && done@ == (StagingEntryView {
                        changes: entry@.changes.update(
                            pos,
                            answered(change, staged_fact_index as int, resolution@ == "coexist"@),
                        ),
                        ..entry@
                    })
                } else if resolution@ == "discard"@ {
                    if staged_fact_index >= change.facts.len() {
                        r matches Err(e) && e.text() == "staged_fact_index out of range"@
                    } else {
                        r matches Ok(ConflictStep::Rebuild { entry: same, pos: at, facts })
                            && same@ == entry@ && at == pos && facts@ == change.facts.remove(
                            staged_fact_index as int,
                        )
                    }
                } else {
                    r matches Err(e) && e.text() == "unknown resolution: "@ + resolution@
                }
            },
        },
{
    let mut entry = entry;
    let ghost before = entry@;
    let pos: usize = match find_change(&entry.changes, note_path) {
        Ok(p) => p,
        Err(e) => {
            return Err(e);
        },
    };
    let coexist = text::same(resolution, "coexist");
    if coexist || text::same(resolution, "update") {
        let mut change = entry.changes.remove(pos);
        let ghost was = change@;
        change.conflicts = keep_other_conflicts(&change.conflicts, staged_fact_index);
        if coexist && staged_fact_index < change.facts.len() {
            let mut fact = change.facts[staged_fact_index].clone();
            fact.explicit_coexist = true;
            change.facts.set(staged_fact_index, fact);
        }
        assert(change@ =~= answered(was, staged_fact_index as int, coexist));
        entry.changes.insert(pos, change);
        proof {
            reveal_strlit("update");
            reveal_strlit("coexist");
            assert(change_views(entry.changes@) =~= before.changes.update(
                pos as int,
                answered(before.changes[pos as int], staged_fact_index as int, coexist),
            ));
        }
        Ok(ConflictStep::Answered(entry))
    } else if text::same(resolution, "discard") {
        if staged_fact_index >= entry.changes[pos].facts.len() {
            return Err(AppError::other("staged_fact_index out of range"));
        }
        let mut facts = copy_facts(&entry.changes[pos].facts);
        facts.remove(staged_fact_index);
        Ok(ConflictStep::Rebuild { entry, pos, facts })
    } else {
        Err(error::message2("unknown resolution: ", resolution))
    }
}

/// The proposal with a change rendered anew, or without it.
pub fn put_change(entry: StagingEntry, pos: usize, rebuilt: Option<NoteChange>) -> (r: StagingEntry)
    requires
        pos < entry.changes@.len(),
    ensures
        r@ == (StagingEntryView {
            changes: match rebuilt {
                Some(c) => entry@.changes.update(pos as int, c@),
                None => entry@.changes.remove(pos as int),
            },
            ..entry@
        }),
{
    let mut entry = entry;
    let ghost before = entry@;
    entry.changes.remove(pos);
    match rebuilt {
        Some(c) => {
            let ghost cv = c@;
            entry.changes.insert(pos, c);
            assert(change_views(entry.changes@) =~= before.changes.update(pos as int, cv));
        },
        None => {
            assert(change_views(entry.changes@) =~= before.changes.remove(pos as int));
        },
    }
    entry
}

/// Whether a proposal leaves the tray: it does when nothing is left of it.
pub fn is_spent(entry: &StagingEntry) -> (r: bool)
    ensures
        r == (entry@.changes.len() == 0),
{
    entry.changes.len() == 0
}

// ---------------------------------------------------------------------------
// Answering a suggestion
// ---------------------------------------------------------------------------

/// The suggestion is for that end of that fact.
pub open spec fn suggests(s: DisambiguationSuggestion, index: int, endpoint: Seq<char>) -> bool {
    s.staged_fact_index == index && s.endpoint@ == endpoint
}

/// The first suggestion for that end of that fact.
pub open spec fn first_suggestion(
    v: Seq<DisambiguationSuggestion>,
    index: int,
    endpoint: Seq<char>,
    i: int,
) -> Option<DisambiguationSuggestion>
    decreases v.len() - i,
{
    if i < 0 || i >= v.len() {
        None
    } else if suggests(v[i], index, endpoint) {
        Some(v[i])
    } else {
        first_suggestion(v, index, endpoint, i + 1)
    }
}

fn find_suggestion(v: &Vec<DisambiguationSuggestion>, index: usize, endpoint: &str) -> (r: Option<
    DisambiguationSuggestion,
>)
    ensures
        r == first_suggestion(v@, index as int, endpoint@, 0),
{
    let mut i: usize = 0;
    while i < v.len()
        invariant
            i <= v.len(),
            first_suggestion(v@, index as int, endpoint@, 0) == first_suggestion(
                v@,
                index as int,
                endpoint@,
                i as int,
            ),
        decreases v.len() - i,
    {
        if v[i].staged_fact_index == index && text::same(v[i].endpoint.as_str(), endpoint) {
            return Some(v[i].clone());
        }
        i += 1;
    }
    None
}

/// A fact with one end put in place of another.
pub open spec fn repointed(
    f: StagedFact,
    endpoint: Seq<char>,
    s: DisambiguationSuggestion,
) -> StagedFact {
    if endpoint == "subject"@ {
        StagedFact {
            subject_id: s.candidate_id,
            subject_name: s.candidate_name,
            subject_type: s.candidate_type,
            ..f
        }
    } else {
        StagedFact {
            object_id: s.candidate_id,
            object_name: s.candidate_name,
            object_type: s.candidate_type,
            ..f
        }
    }
}

/// All the facts of these changes.
pub open spec fn facts_of(changes: Seq<NoteChangeView>) -> Seq<StagedFact>
    decreases changes.len(),
{
    if changes.len() == 0 {
        Seq::empty()
    } else {
        facts_of(changes.drop_last()) + changes.last().facts
    }
}

/// The changes with the end of a fact put in place.
pub open spec fn repointed_changes(
    changes: Seq<NoteChangeView>,
    pos: int,
    index: int,
    endpoint: Seq<char>,
    s: DisambiguationSuggestion,
) -> Seq<NoteChangeView> {
    changes.update(
        pos,
        NoteChangeView {
            facts: changes[pos].facts.update(
                index,
                repointed(changes[pos].facts[index], endpoint, s),
            ),
            ..changes[pos]
        },
    )
}

fn gather_facts(changes: &Vec<NoteChange>) -> (r: Vec<StagedFact>)
    ensures
        r@ == facts_of(change_views(changes@)),
{
    let mut out: Vec<StagedFact> = Vec::new();
    let mut i: usize = 0;
    assert(change_views(changes@).take(0) =~= Seq::<NoteChangeView>::empty());
    while i < changes.len()
        invariant
            i <= changes.len(),
            out@ == facts_of(change_views(changes@).take(i as int)),
        decreases changes.len() - i,
    {
        let ghost all = change_views(changes@);
        assert(all.take(i + 1).drop_last() =~= all.take(i as int));
        assert(all.take(i + 1).last() == changes@[i as int]@);
        let mut more = copy_facts(&changes[i].facts);
        out.append(&mut more);
        i += 1;
    }
    assert(change_views(changes@).take(i as int) =~= change_views(changes@));
    out
}

/// Takes a suggestion: the end of the fact becomes the entity that it may be.
/// That can move the fact to another note, so what comes back is all the facts
/// of the proposal, to be filed anew.
pub fn apply_disambiguation(
    entry: &StagingEntry,
    note_path: &str,
    staged_fact_index: usize,
    endpoint: &str,
) -> (r: Result<Vec<StagedFact>, AppError>)
    ensures
        match change_to(entry@.changes, note_path@, 0) {
            None => r matches Err(e) && e.text() == "no staged change for "@ + note_path@,
            Some(pos) => {
                let change = entry@.changes[pos];
                match first_suggestion(change.suggestions, staged_fact_index as int, endpoint@, 0) {
                    None => r matches Err(e) && e.text()
                        == "no matching disambiguation suggestion"@,
                    Some(s) => if staged_fact_index >= change.facts.len() {
                        r matches Err(e) && e.text() == "staged_fact_index out of range"@
                    } else if endpoint@ == "subject"@ || endpoint@ == "object"@ {
                        r matches Ok(facts) && facts@ == facts_of(
                            repointed_changes(
                                entry@.changes,
                                pos,
                                staged_fact_index as int,
                                endpoint@,
                                s,
                            ),
                        )
                    } else {
                        r matches Err(e) && e.text() == "unknown endpoint: "@ + endpoint@
                    },
                }
            },
        },
{
    let pos: usize = match find_change(&entry.changes, note_path) {
        Ok(p) => p,
        Err(e) => {
            return Err(e);
        },
    };
    let s = match find_suggestion(&entry.changes[pos].suggestions, staged_fact_index, endpoint) {
        Some(s) => s,
        None => {
            return Err(AppError::other("no matching disambiguation suggestion"));
        },
    };
    if staged_fact_index >= entry.changes[pos].facts.len() {
        return Err(AppError::other("staged_fact_index out of range"));
    }
    let ghost sv = s;
    let mut fact = entry.changes[pos].facts[staged_fact_index].clone();
    let ghost was = fact;
    if text::same(endpoint, "subject") {
        fact.subject_id = s.candidate_id;
        fact.subject_name = s.candidate_name;
        fact.subject_type = s.candidate_type;
    } else if text::same(endpoint, "object") {
        fact.object_id = s.candidate_id;
        fact.object_name = s.candidate_name;
        fact.object_type = s.candidate_type;
    } else {
        return Err(error::message2("unknown endpoint: ", endpoint));
    }
    proof {
        reveal_strlit("subject");
        reveal_strlit("object");
        assert("subject"@.len() != "object"@.len());
    }
    assert(fact == repointed(was, endpoint@, sv));
    let mut edited = entry.clone();
    let ghost all = edited@.changes;
    let mut change = edited.changes.remove(pos);
    assert(change@ == all[pos as int]);
    change.facts.set(staged_fact_index, fact);
    edited.changes.insert(pos, change);
    assert(change_views(edited.changes@) =~= repointed_changes(
        all,
        pos as int,
        staged_fact_index as int,
        endpoint@,
        sv,
    ));
    Ok(gather_facts(&edited.changes))
}

/// The suggestions that are not for that end of that fact.
pub open spec fn suggestions_besides(
    v: Seq<DisambiguationSuggestion>,
    index: int,
    endpoint: Seq<char>,
) -> Seq<DisambiguationSuggestion>
    decreases v.len(),
{
    if v.len() == 0 {
        Seq::empty()
    } else if suggests(v.last(), index, endpoint) {
        suggestions_besides(v.drop_last(), index, endpoint)
    } else {
        suggestions_besides(v.drop_last(), index, endpoint).push(v.last())
    }
}

/// Turns a suggestion down: only the banner goes, the fact stays as it is.
pub fn dismiss_disambiguation(
    entry: StagingEntry,
    note_path: &str,
    staged_fact_index: usize,
    endpoint: &str,
) -> (r: Result<StagingEntry, AppError>)
    ensures
        match change_to(entry@.changes, note_path@, 0) {
            None => r matches Err(e) && e.text() == "no staged change for "@ + note_path@,
            Some(pos) => r matches Ok(done) && done@ == (StagingEntryView {
                changes: entry@.changes.update(
                    pos,
                    NoteChangeView {
                        suggestions: suggestions_besides(
                            entry@.changes[pos].suggestions,
                            staged_fact_index as int,
                            endpoint@,
                        ),
                        ..entry@.changes[pos]
                    },
                ),
                ..entry@
            }),
        },
{
    let mut entry = entry;
    let ghost before = entry@;
    let pos: usize = match find_change(&entry.changes, note_path) {
        Ok(p) => p,
        Err(e) => {
            return Err(e);
        },
    };
    let mut change = entry.changes.remove(pos);
    let ghost held = change.suggestions@;
    let ghost was = change@;
    let mut left: Vec<DisambiguationSuggestion> = Vec::new();
    let mut i: usize = 0;
    assert(held.take(0) =~= Seq::<DisambiguationSuggestion>::empty());
    while i < change.suggestions.len()
        invariant
            held == change.suggestions@,
            i <= held.len(),
            left@ == suggestions_besides(held.take(i as int), staged_fact_index as int, endpoint@),
        decreases held.len() - i,
    {
        assert(held.take(i + 1).drop_last() =~= held.take(i as int));
        assert(held.take(i + 1).last() == held[i as int]);
        let s = &change.suggestions[i];
        if !(s.staged_fact_index == staged_fact_index && text::same(s.endpoint.as_str(), endpoint)) {
            left.push(s.clone());
        }
        i += 1;
    }
    assert(held.take(i as int) =~= held);
    change.suggestions = left;
    let ghost now = change@;
    entry.changes.insert(pos, change);
    assert(change_views(entry.changes@) =~= before.changes.update(pos as int, now));
    Ok(entry)
}

/// The note that a fact is filed in: the note-taker's own, or the one that its
/// subject is routed to.
pub fn staged_fact_note_path(fact: &StagedFact, routed: &str) -> (r: String)
    ensures
        r@ == if fact.subject_name@ == extraction::SELF_NAME@ {
            SELF_NOTE_PATH@
        } else {
            routed@
        },
{
    if text::same(fact.subject_name.as_str(), extraction::SELF_NAME) {
        SELF_NOTE_PATH.to_owned()
    } else {
        routed.to_owned()
    }
}

/// Facts that are filed in one note.
#[derive(Debug, PartialEq, Eq)]
pub struct NoteFacts {
    pub note_path: String,
    pub facts: Vec<StagedFact>,
}

/// The notes with their facts, in their order.
pub open spec fn group_views(v: Seq<NoteFacts>) -> Seq<(Seq<char>, Seq<StagedFact>)> {
    v.map_values(|g: NoteFacts| (g.note_path@, g.facts@))
}

/// The group of a note.
pub open spec fn group_at(
    groups: Seq<(Seq<char>, Seq<StagedFact>)>,
    note_path: Seq<char>,
    i: int,
) -> Option<int>
    decreases groups.len() - i,
{
    if i < 0 || i >= groups.len() {
        None
    } else if groups[i].0 == note_path {
        Some(i)
    } else {
        group_at(groups, note_path, i + 1)
    }
}

/// The groups with one fact more.
pub open spec fn with_fact(
    groups: Seq<(Seq<char>, Seq<StagedFact>)>,
    note_path: Seq<char>,
    fact: StagedFact,
) -> Seq<(Seq<char>, Seq<StagedFact>)> {
    match group_at(groups, note_path, 0) {
        Some(i) => groups.update(i, (note_path, groups[i].1.push(fact))),
        None => groups.push((note_path, seq![fact])),
    }
}

/// The first `n` facts by their note, each note where it first comes up.
pub open spec fn grouped(facts: Seq<StagedFact>, note_paths: Seq<Seq<char>>, n: int) -> Seq<
    (Seq<char>, Seq<StagedFact>),
>
    decreases n,
{
    if n <= 0 {
        Seq::empty()
    } else {
        with_fact(grouped(facts, note_paths, n - 1), note_paths[n - 1], facts[n - 1])
    }
}

/// The facts by the note each is filed in.
pub fn reassemble_changes(facts: &Vec<StagedFact>, note_paths: &Vec<String>) -> (r: Vec<NoteFacts>)
    requires
        facts@.len() == note_paths@.len(),
    ensures
        group_views(r@) == grouped(facts@, text::texts(note_paths@), facts@.len() as int),
{
    let mut out: Vec<NoteFacts> = Vec::new();
    let ghost notes = text::texts(note_paths@);
    let mut i: usize = 0;
    assert(group_views(out@) =~= Seq::<(Seq<char>, Seq<StagedFact>)>::empty());
    while i < facts.len()
        invariant
            facts@.len() == note_paths@.len(),
            notes == text::texts(note_paths@),
            i <= facts.len(),
            group_views(out@) == grouped(facts@, notes, i as int),
        decreases facts.len() - i,
    {
        let path = note_paths[i].as_str();
        let ghost groups = group_views(out@);
        let mut k: usize = 0;
        while k < out.len() && !text::same(out[k].note_path.as_str(), path)
            invariant
                k <= out.len(),
                groups == group_views(out@),
                group_at(groups, path@, 0) == group_at(groups, path@, k as int),
            decreases out.len() - k,
        {
            k += 1;
        }
        let fact = facts[i].clone();
        if k < out.len() {
            let mut g = out.remove(k);
            g.facts.push(fact);
            let ghost gv = (g.note_path@, g.facts@);
            out.insert(k, g);
            assert(group_views(out@) =~= groups.update(k as int, gv));
        } else {
            let g = NoteFacts { note_path: path.to_owned(), facts: vec![fact] };
            assert(g.facts@ =~= seq![facts@[i as int]]);
            let ghost gv = (g.note_path@, g.facts@);
            out.push(g);
            assert(group_views(out@) =~= groups.push(gv));
        }
        i += 1;
    }
    out
}

// ---------------------------------------------------------------------------
// Committing
// ---------------------------------------------------------------------------

/// A note that a commit wrote, and whether it was not there before.
#[derive(Debug, PartialEq, Eq)]
pub struct UndoNote {
    pub note_path: String,
    pub was_create: bool,
}

/// What it takes to undo a commit.
#[derive(Debug, PartialEq, Eq)]
pub struct UndoRecord {
    pub commit_id: String,
    pub staging_id: String,
    pub notes: Vec<UndoNote>,
    pub new_fact_ids: Vec<String>,
    pub entry_snapshot: StagingEntry,
}

/// What came of a commit.
#[derive(Debug, PartialEq, Eq)]
pub struct CommitResult {
    /// The commit to undo.
    pub commit_id: String,
    pub staging_id: String,
    pub committed_notes: Vec<String>,
    pub new_fact_ids: Vec<String>,
    /// What is left of the proposal, where only a part was kept.
    pub remaining: Option<StagingEntry>,
}

/// The change is among those to be committed: all of them, or those to the
/// chosen notes.
pub open spec fn chosen(c: NoteChangeView, select: Option<Seq<Seq<char>>>) -> bool {
    match select {
        Some(notes) => notes.contains(c.note_path),
        None => true,
    }
}

/// The changes that are committed, or those that are not.
pub open spec fn part(
    changes: Seq<NoteChangeView>,
    select: Option<Seq<Seq<char>>>,
    committed: bool,
) -> Seq<NoteChangeView>
    decreases changes.len(),
{
    if changes.len() == 0 {
        Seq::empty()
    } else {
        let front = part(changes.drop_last(), select, committed);
        if chosen(changes.last(), select) == committed {
            front.push(changes.last())
        } else {
            front
        }
    }
}

/// The notes that were chosen.
pub open spec fn selection(note_paths: Option<Vec<String>>) -> Option<Seq<Seq<char>>> {
    match note_paths {
        Some(v) => Some(text::texts(v@)),
        None => None,
    }
}

/// A commit in the making.
#[derive(Debug, PartialEq, Eq)]
pub struct CommitPlan {
    pub commit_id: String,
    pub to_commit: Vec<NoteChange>,
    pub to_keep: Vec<NoteChange>,
}

fn is_chosen(c: &NoteChange, note_paths: &Option<Vec<String>>) -> (r: bool)
    ensures
        r == chosen(c@, selection(*note_paths)),
{
    match note_paths {
        Some(v) => text::list_has(v, c.note_path.as_str()),
        None => true,
    }
}

/// Splits a proposal into what is committed now and what stays in the tray, in
/// their order. It is an error to choose nothing.
pub fn commit_changes(entry: &StagingEntry, note_paths: Option<Vec<String>>) -> (r: Result<
    CommitPlan,
    AppError,
>)
    ensures
        ({
            let select = selection(note_paths);
            let now = part(entry@.changes, select, true);
            if now.len() == 0 {
                r matches Err(e) && e.text() == "no matching note changes to keep"@
            } else {
                r matches Ok(p) && change_views(p.to_commit@) == now && change_views(p.to_keep@)
                    == part(entry@.changes, select, false) && ids::is_id(p.commit_id@, "commit_"@)
            }
        }),
{
    let ghost select = selection(note_paths);
    let ghost all = entry@.changes;
    let mut to_commit: Vec<NoteChange> = Vec::new();
    let mut to_keep: Vec<NoteChange> = Vec::new();
    let mut i: usize = 0;
    assert(all.take(0) =~= Seq::<NoteChangeView>::empty());
    assert(change_views(to_commit@) =~= Seq::<NoteChangeView>::empty());
    assert(change_views(to_keep@) =~= Seq::<NoteChangeView>::empty());
    while i < entry.changes.len()
        invariant
            all == change_views(entry.changes@),
            select == selection(note_paths),
            i <= entry.changes.len(),
            change_views(to_commit@) == part(all.take(i as int), select, true),
            change_views(to_keep@) == part(all.take(i as int), select, false),
        decreases entry.changes.len() - i,
    {
        let c = entry.changes[i].clone();
        let ghost cv = c@;
        assert(all.take(i + 1).drop_last() =~= all.take(i as int));
        assert(all.take(i + 1).last() == cv);
        if is_chosen(&c, &note_paths) {
            let ghost before = to_commit@;
            to_commit.push(c);
            assert(change_views(to_commit@) =~= change_views(before).push(cv));
        } else {
            let ghost before = to_keep@;
            to_keep.push(c);
            assert(change_views(to_keep@) =~= change_views(before).push(cv));
        }
        i += 1;
    }
    assert(all.take(i as int) =~= all);
    assert(change_views(to_commit@).len() == to_commit@.len());
    if to_commit.len() == 0 {
        return Err(AppError::other("no matching note changes to keep"));
    }
    Ok(CommitPlan { commit_id: ids::fresh_id("commit_"), to_commit, to_keep })
}

/// A fact as it is written into the graph.
#[derive(Debug, PartialEq, Eq)]
pub struct FactEdge {
    pub subject_id: String,
    pub predicate: String,
    pub object_id: String,
    pub valid_from: Timestamp,
    pub valid_to: Option<Timestamp>,
    pub source_chat_id: String,
    pub confidence: Confidence,
    /// Whether it takes the place of the facts it contradicts.
    pub supersedes: bool,
}

/// A fact between the two entities that its ends were put into the graph as. It
/// takes the place of what it contradicts, unless both are to be kept.
pub fn fact_edge(fact: &StagedFact, subject_id: &str, object_id: &str, source_chat_id: &str) -> (r:
    FactEdge)
    ensures
        r.subject_id@ == subject_id@,
        r.predicate@ == fact.predicate@,
        r.object_id@ == object_id@,
        r.valid_from == fact.valid_from,
        r.valid_to == fact.valid_to,
        r.source_chat_id@ == source_chat_id@,
        r.confidence == fact.confidence,
        r.supersedes == !fact.explicit_coexist,
{
    FactEdge {
        subject_id: subject_id.to_owned(),
        predicate: fact.predicate.clone(),
        object_id: object_id.to_owned(),
        valid_from: fact.valid_from,
        valid_to: fact.valid_to,
        source_chat_id: source_chat_id.to_owned(),
        confidence: fact.confidence,
        supersedes: !fact.explicit_coexist,
    }
}

/// The notes of these changes.
pub open spec fn note_paths_of(changes: Seq<NoteChangeView>) -> Seq<Seq<char>> {
    changes.map_values(|c: NoteChangeView| c.note_path)
}

/// What is written down of a commit once its notes and facts are in place, and
/// what comes back of it. `was_create` says of each note whether it was new.
pub fn finish_commit(
    entry: StagingEntry,
    plan: CommitPlan,
    was_create: &Vec<bool>,
    new_fact_ids: &Vec<String>,
) -> (r: (CommitResult, UndoRecord))
    requires
        was_create@.len() == plan.to_commit@.len(),
    ensures
        ({
            let (result, undo) = r;
            let notes = note_paths_of(change_views(plan.to_commit@));
            &&& result.commit_id@ == plan.commit_id@
            &&& result.staging_id@ == entry@.id
            &&& text::texts(result.committed_notes@) == notes
            &&& text::texts(result.new_fact_ids@) == text::texts(new_fact_ids@)
            &&& match result.remaining {
                None => plan.to_keep@.len() == 0,
                Some(left) => plan.to_keep@.len() > 0 && left@ == (StagingEntryView {
                    changes: change_views(plan.to_keep@),
                    ..entry@
                }),
            }
            &&& undo.commit_id@ == plan.commit_id@
            &&& undo.staging_id@ == entry@.id
            &&& undo.notes@.len() == notes.len()
            &&& forall|i: int|
                0 <= i < notes.len() ==> (#[trigger] undo.notes@[i]).note_path@ == notes[i]
                    && undo.notes@[i].was_create == was_create@[i]
            &&& text::texts(undo.new_fact_ids@) == text::texts(new_fact_ids@)
            &&& undo.entry_snapshot@ == entry@
        }),
{
    let mut committed_notes: Vec<String> = Vec::new();
    let mut notes: Vec<UndoNote> = Vec::new();
    let ghost all = note_paths_of(change_views(plan.to_commit@));
    let mut i: usize = 0;
    while i < plan.to_commit.len()
        invariant
            was_create@.len() == plan.to_commit@.len(),
            all == note_paths_of(change_views(plan.to_commit@)),
            i <= plan.to_commit.len(),
            committed_notes@.len() == i,
            notes@.len() == i,
            forall|k: int| 0 <= k < i ==> (#[trigger] committed_notes@[k])@ == all[k],
            forall|k: int|
                0 <= k < i ==> (#[trigger] notes@[k]).note_path@ == all[k] && notes@[k].was_create
                    == was_create@[k],
        decreases plan.to_commit.len() - i,
    {
        let path = plan.to_commit[i].note_path.as_str();
        assert(all[i as int] == path@);
        committed_notes.push(path.to_owned());
        notes.push(UndoNote { note_path: path.to_owned(), was_create: was_create[i] });
        i += 1;
    }
    assert(text::texts(committed_notes@) =~= all);
    let undo = UndoRecord {
        commit_id: plan.commit_id.clone(),
        staging_id: entry.id.clone(),
        notes,
        new_fact_ids: text::copy_list(new_fact_ids),
        entry_snapshot: entry.clone(),
    };
    let staging_id = entry.id.clone();
    let remaining = if plan.to_keep.len() == 0 {
        None
    } else {
        Some(StagingEntry { changes: plan.to_keep, ..entry })
    };
    (
        CommitResult {
            commit_id: plan.commit_id,
            staging_id,
            committed_notes,
            new_fact_ids: text::copy_list(new_fact_ids),
            remaining,
        },
        undo,
    )
}

/// What undoing a commit does to a note.
#[derive(Debug, PartialEq, Eq)]
pub enum UndoStep {
    /// The commit made it: it goes.
    Delete(String),
    /// It comes back out of the snapshot.
    Restore(String),
}

/// The step undoes that note.
pub open spec fn undoes(step: UndoStep, note: UndoNote) -> bool {
    match step {
        UndoStep::Delete(p) => note.was_create && p@ == note.note_path@,
        UndoStep::Restore(p) => !note.was_create && p@ == note.note_path@,
    }
}

/// What undoing a commit does to each of its notes.
pub fn undo_commit(undo: &UndoRecord) -> (r: Vec<UndoStep>)
    ensures
        r@.len() == undo.notes@.len(),
        forall|i: int| 0 <= i < r@.len() ==> undoes(#[trigger] r@[i], undo.notes@[i]),
{
    let mut out: Vec<UndoStep> = Vec::new();
    let mut i: usize = 0;
    while i < undo.notes.len()
        invariant
            i <= undo.notes.len(),
            out@.len() == i,
            forall|k: int| 0 <= k < i ==> undoes(#[trigger] out@[k], undo.notes@[k]),
        decreases undo.notes.len() - i,
    {
        let path = undo.notes[i].note_path.clone();
        if undo.notes[i].was_create {
            out.push(UndoStep::Delete(path));
        } else {
            out.push(UndoStep::Restore(path));
        }
        i += 1;
    }
    out
}

// ---------------------------------------------------------------------------
// Laws
// ---------------------------------------------------------------------------

/// The formation's notes once these changes are written.
pub open spec fn written(
    notes: Map<Seq<char>, Seq<char>>,
    changes: Seq<NoteChangeView>,
) -> Map<Seq<char>, Seq<char>>
    decreases changes.len(),
{
    if changes.len() == 0 {
        notes
    } else {
        written(notes, changes.drop_last()).insert(
            changes.last().note_path,
            changes.last().new_content,
        )
    }
}

/// The note that a step is about.
pub open spec fn step_path(step: UndoStep) -> Seq<char> {
    match step {
        UndoStep::Delete(p) => p@,
        UndoStep::Restore(p) => p@,
    }
}

/// The formation's notes once these steps are taken, one after the other, with
/// what the snapshot holds.
pub open spec fn unwritten(
    notes: Map<Seq<char>, Seq<char>>,
    snapshot: Map<Seq<char>, Seq<char>>,
    steps: Seq<UndoStep>,
) -> Map<Seq<char>, Seq<char>>
    decreases steps.len(),
{
    if steps.len() == 0 {
        notes
    } else {
        let rest = unwritten(notes, snapshot, steps.drop_last());
        match steps.last() {
            UndoStep::Delete(p) => rest.remove(p@),
            UndoStep::Restore(p) => rest.insert(p@, snapshot[p@]),
        }
    }
}

proof fn lemma_written(notes: Map<Seq<char>, Seq<char>>, changes: Seq<NoteChangeView>, p: Seq<char>)
    requires
        !note_paths_of(changes).contains(p),
    ensures
        written(notes, changes).contains_key(p) == notes.contains_key(p),
        notes.contains_key(p) ==> written(notes, changes)[p] == notes[p],
    decreases changes.len(),
{
    if changes.len() > 0 {
        let all = note_paths_of(changes);
        let front = note_paths_of(changes.drop_last());
        assert(all[changes.len() - 1] == changes.last().note_path);
        assert forall|i: int| 0 <= i < front.len() implies front[i] != p by {
            assert(all[i] == front[i]);
        }
        lemma_written(notes, changes.drop_last(), p);
    }
}

proof fn lemma_unwritten(
    notes: Map<Seq<char>, Seq<char>>,
    snapshot: Map<Seq<char>, Seq<char>>,
    steps: Seq<UndoStep>,
    p: Seq<char>,
)
    requires
        forall|i: int|
            0 <= i < steps.len() ==> (#[trigger] steps[i] is Restore) == snapshot.contains_key(
                step_path(steps[i]),
            ),
    ensures
        ({
            let after = unwritten(notes, snapshot, steps);
            if exists|i: int| 0 <= i < steps.len() && step_path(#[trigger] steps[i]) == p {
                after.contains_key(p) == snapshot.contains_key(p) && (snapshot.contains_key(p)
                    ==> after[p] == snapshot[p])
            } else {
                after.contains_key(p) == notes.contains_key(p) && (notes.contains_key(p)
                    ==> after[p] == notes[p])
            }
        }),
    decreases steps.len(),
{
    if steps.len() > 0 {
        let front = steps.drop_last();
        assert forall|i: int| 0 <= i < front.len() implies (#[trigger] front[i] is Restore)
            == snapshot.contains_key(step_path(front[i])) by {
            assert(front[i] == steps[i]);
        }
        lemma_unwritten(notes, snapshot, front, p);
        assert(steps[steps.len() - 1] == steps.last());
        if step_path(steps.last()) != p {
            if exists|i: int| 0 <= i < steps.len() && step_path(#[trigger] steps[i]) == p {
                let i = choose|i: int| 0 <= i < steps.len() && step_path(#[trigger] steps[i]) == p;
                assert(front[i] == steps[i]);
            }
            if exists|i: int| 0 <= i < front.len() && step_path(#[trigger] front[i]) == p {
                let i = choose|i: int| 0 <= i < front.len() && step_path(#[trigger] front[i]) == p;
                assert(steps[i] == front[i]);
            }
        }
    }
}

/// Undoing a commit gives back the formation as it was before: once the steps of
/// its undo are taken, every note that the commit wrote is as it was, or gone if
/// it was new, and no other note has changed.
pub proof fn law_undo_reverts_the_commit(
    notes: Map<Seq<char>, Seq<char>>,
    changes: Seq<NoteChangeView>,
    undo: UndoRecord,
    steps: Seq<UndoStep>,
)
    requires
        undo.notes@.len() == changes.len(),
        forall|i: int|
            0 <= i < changes.len() ==> (#[trigger] undo.notes@[i]).note_path@
                == changes[i].note_path && undo.notes@[i].was_create == !notes.contains_key(
                changes[i].note_path,
            ),
        steps.len() == undo.notes@.len(),
        forall|i: int| 0 <= i < steps.len() ==> undoes(#[trigger] steps[i], undo.notes@[i]),
    ensures
        unwritten(written(notes, changes), notes, steps) == notes,
{
    let after = unwritten(written(notes, changes), notes, steps);
    assert forall|i: int| 0 <= i < steps.len() implies (#[trigger] steps[i] is Restore)
        == notes.contains_key(step_path(steps[i])) by {
        assert(undoes(steps[i], undo.notes@[i]));
    }
    assert forall|p: Seq<char>| #[trigger] after.contains_key(p) == notes.contains_key(p) && (
    notes.contains_key(p) ==> after[p] == notes[p]) by {
        lemma_unwritten(written(notes, changes), notes, steps, p);
        if note_paths_of(changes).contains(p) {
            let i = choose|i: int| 0 <= i < changes.len() && note_paths_of(changes)[i] == p;
            assert(undoes(steps[i], undo.notes@[i]));
            assert(step_path(steps[i]) == p);
        } else {
            lemma_written(notes, changes, p);
            assert forall|i: int| 0 <= i < steps.len() implies step_path(#[trigger] steps[i])
                != p by {
                assert(undoes(steps[i], undo.notes@[i]));
                assert(note_paths_of(changes)[i] == changes[i].note_path);
            }
        }
    }
    assert(after.dom() =~= notes.dom());
    assert forall|p: Seq<char>| notes.contains_key(p) implies #[trigger] after[p] == notes[p] by {
        assert(after.contains_key(p));
    }
    assert(after =~= notes);
}

/// Nothing of a proposal is lost or doubled when it is split: each change is
/// either committed or stays.
pub proof fn law_commit_splits_the_proposal(
    changes: Seq<NoteChangeView>,
    select: Option<Seq<Seq<char>>>,
)
    ensures
        part(changes, select, true).to_multiset().add(part(changes, select, false).to_multiset())
            == changes.to_multiset(),
    decreases changes.len(),
{
    broadcast use vstd::seq_lib::group_to_multiset_ensures;

    if changes.len() > 0 {
        let front = changes.drop_last();
        law_commit_splits_the_proposal(front, select);
        assert(changes =~= front.push(changes.last()));
        assert(part(changes, select, true).to_multiset().add(
            part(changes, select, false).to_multiset(),
        ) =~= front.to_multiset().insert(changes.last()));
    } else {
        assert(part(changes, select, true).to_multiset().add(
            part(changes, select, false).to_multiset(),
        ) =~= changes.to_multiset());
    }
}

/// Without a choice of notes everything is committed, and nothing stays.
pub proof fn law_keep_all_keeps_all(changes: Seq<NoteChangeView>)
    ensures
        part(changes, None, true) == changes,
        part(changes, None, false).len() == 0,
    decreases changes.len(),
{
    if changes.len() > 0 {
        law_keep_all_keeps_all(changes.drop_last());
        assert(changes =~= changes.drop_last().push(changes.last()));
    }
}

/// Every change is filed for its note: a fact that is grouped stands in the
/// group of its note.
pub proof fn law_facts_are_filed_with_their_note(
    facts: Seq<StagedFact>,
    note_paths: Seq<Seq<char>>,
    n: int,
    k: int,
)
    requires
        0 <= k < n <= facts.len(),
        facts.len() == note_paths.len(),
    ensures
        exists|g: int|
            0 <= g < grouped(facts, note_paths, n).len() && (#[trigger] grouped(
                facts,
                note_paths,
                n,
            )[g]).0 == note_paths[k] && grouped(facts, note_paths, n)[g].1.contains(facts[k]),
    decreases n,
{
    let before = grouped(facts, note_paths, n - 1);
    let after = grouped(facts, note_paths, n);
    let path = note_paths[n - 1];
    let fact = facts[n - 1];
    lemma_group_at(before, path, 0);
    if k == n - 1 {
        match group_at(before, path, 0) {
            Some(i) => {
                let fs = before[i].1.push(fact);
                assert(fs[fs.len() - 1] == fact);
                assert(after[i] == (path, fs));
            },
            None => {
                assert(after[before.len() as int] == (path, seq![fact]));
                assert(seq![fact][0] == fact);
            },
        }
    } else {
        law_facts_are_filed_with_their_note(facts, note_paths, n - 1, k);
        let g = choose|g: int|
            0 <= g < before.len() && (#[trigger] before[g]).0 == note_paths[k]
                && before[g].1.contains(facts[k]);
        let j = choose|j: int| 0 <= j < before[g].1.len() && before[g].1[j] == facts[k];
        assert(after[g].0 == note_paths[k]);
        assert(after[g].1[j] == facts[k]);
    }
}

proof fn lemma_group_at(groups: Seq<(Seq<char>, Seq<StagedFact>)>, note_path: Seq<char>, i: int)
    requires
        0 <= i,
    ensures
        group_at(groups, note_path, i) matches Some(k) ==> i <= k < groups.len() && groups[k].0
            == note_path,
    decreases groups.len() - i,
{
    if i < groups.len() && groups[i].0 != note_path {
        lemma_group_at(groups, note_path, i + 1);
    }
}

/// Answering a contradiction clears its banner and leaves every other one.
pub proof fn law_answer_clears_its_banner(v: Seq<Conflict>, index: int, i: int)
    requires
        0 <= i < v.len(),
    ensures
        conflicts_besides(v, index).contains(v[i]) == (v[i].staged_fact_index != index),
    decreases v.len(),
{
    let front = v.drop_last();
    let left = conflicts_besides(v, index);
    lemma_besides_index(v, index);
    if v[i].staged_fact_index != index {
        if i == v.len() - 1 {
            assert(left[left.len() - 1] == v[i]);
        } else {
            assert(front[i] == v[i]);
            law_answer_clears_its_banner(front, index, i);
            let k = choose|k: int|
                0 <= k < conflicts_besides(front, index).len() && conflicts_besides(front, index)[k]
                    == v[i];
            assert(left[k] == v[i]);
        }
    }
}

proof fn lemma_besides_index(v: Seq<Conflict>, index: int)
    ensures
        forall|k: int|
            0 <= k < conflicts_besides(v, index).len() ==> (#[trigger] conflicts_besides(
                v,
                index,
            )[k]).staged_fact_index != index,
    decreases v.len(),
{
    if v.len() > 0 {
        lemma_besides_index(v.drop_last(), index);
        let front = conflicts_besides(v.drop_last(), index);
        let all = conflicts_besides(v, index);
        assert forall|k: int| 0 <= k < all.len() implies (#[trigger] all[k]).staged_fact_index
            != index by {
            if k < front.len() {
                assert(all[k] == front[k]);
            }
        }
    }
}

/// The entries oldest first.
pub open spec fn is_oldest_first(list: Seq<StagingEntry>) -> bool {
    forall|i: int, j: int|
        0 <= i < j < list.len() ==> !(#[trigger] list[j]).created.before(
            (#[trigger] list[i]).created,
        )
}

proof fn lemma_inserted_oldest(list: Seq<StagingEntry>, x: StagingEntry)
    requires
        is_oldest_first(list),
    ensures
        is_oldest_first(inserted_oldest(list, x)),
        inserted_oldest(list, x).len() == list.len() + 1,
        inserted_oldest(list, x).to_multiset() == list.to_multiset().insert(x),
        forall|k: int|
            0 <= k < inserted_oldest(list, x).len() ==> (#[trigger] inserted_oldest(list, x)[k]) == x
                || list.contains(inserted_oldest(list, x)[k]),
    decreases list.len(),
{
    broadcast use vstd::seq_lib::group_to_multiset_ensures;

    if list.len() == 0 || !x.created.before(list.last().created) {
        let out = list.push(x);
        assert forall|i: int, j: int| 0 <= i < j < out.len() implies !(
        #[trigger] out[j]).created.before((#[trigger] out[i]).created) by {
            if j == list.len() {
                if i < list.len() - 1 {
                    assert(!list[list.len() - 1].created.before(list[i].created));
                }
            }
        }
        assert forall|k: int| 0 <= k < out.len() implies #[trigger] out[k] == x || list.contains(
            out[k],
        ) by {
            if k < list.len() {
                assert(list[k] == out[k]);
            }
        }
    } else {
        let front = list.drop_last();
        let last = list.last();
        assert(is_oldest_first(front)) by {
            assert forall|i: int, j: int| 0 <= i < j < front.len() implies !(
            #[trigger] front[j]).created.before((#[trigger] front[i]).created) by {
                assert(!list[j].created.before(list[i].created));
            }
        }
        lemma_inserted_oldest(front, x);
        let mid = inserted_oldest(front, x);
        let out = mid.push(last);
        assert forall|k: int| 0 <= k < mid.len() implies !last.created.before(
            (#[trigger] mid[k]).created,
        ) by {
            if mid[k] != x {
                let q = choose|q: int| 0 <= q < front.len() && front[q] == mid[k];
                assert(!list[list.len() - 1].created.before(list[q].created));
            }
        }
        assert forall|k: int| 0 <= k < out.len() implies #[trigger] out[k] == x || list.contains(
            out[k],
        ) by {
            if k < mid.len() {
                if mid[k] != x {
                    let q = choose|q: int| 0 <= q < front.len() && front[q] == mid[k];
                    assert(list[q] == out[k]);
                }
            } else {
                assert(list[list.len() - 1] == out[k]);
            }
        }
        assert(list =~= front.push(last));
        assert(front.to_multiset().insert(x).insert(last) =~= front.to_multiset().insert(
            last,
        ).insert(x));
    }
}

/// The tray is listed oldest first, and nothing is lost or added.
pub proof fn law_tray_is_oldest_first(entries: Seq<StagingEntry>)
    ensures
        is_oldest_first(oldest_first_of(entries)),
        oldest_first_of(entries).to_multiset() == entries.to_multiset(),
        oldest_first_of(entries).len() == entries.len(),
    decreases entries.len(),
{
    broadcast use vstd::seq_lib::group_to_multiset_ensures;

    if entries.len() > 0 {
        law_tray_is_oldest_first(entries.drop_last());
        lemma_inserted_oldest(oldest_first_of(entries.drop_last()), entries.last());
        assert(entries =~= entries.drop_last().push(entries.last()));
    } else {
        assert(oldest_first_of(entries) =~= entries);
    }
}

/// What is committed are the changes to the chosen notes, what stays are the others, each
/// in their order.
pub proof fn law_chosen_notes_are_committed(
    changes: Seq<NoteChangeView>,
    c: NoteChangeView,
    notes: Seq<Seq<char>>,
)
    ensures
        ({
            let now = part(changes, Some(notes), true);
            let later = part(changes, Some(notes), false);
            let more = changes.push(c);
            if notes.contains(c.note_path) {
                &&& part(more, Some(notes), true) == now.push(c)
                &&& part(more, Some(notes), false) == later
            } else {
                &&& part(more, Some(notes), true) == now
                &&& part(more, Some(notes), false) == later.push(c)
            }
        }),
        part(Seq::empty(), Some(notes), true).len() == 0,
        part(Seq::empty(), Some(notes), false).len() == 0,
{
    assert(changes.push(c).drop_last() =~= changes);
}

/// A contradiction is shown at the fact that it contradicts, with what the graph holds:
/// one for each that was found, in their order. A fact that is to stand beside what it
/// contradicts is shown with none.
pub proof fn law_contradictions_are_shown_at_their_fact(
    index: int,
    fact: StagedFact,
    lookup: FactLookup,
    k: int,
)
    requires
        0 <= index <= usize::MAX,
        0 <= k < lookup.conflicts@.len(),
    ensures
        fact.explicit_coexist ==> conflicts_on(index, fact, lookup).len() == 0,
        !fact.explicit_coexist ==> {
            let shown = conflicts_on(index, fact, lookup);
            let found = lookup.conflicts@[k];
            &&& shown.len() == lookup.conflicts@.len()
            &&& shown[k].staged_fact_index == index
            &&& shown[k].predicate@ == found.predicate@
            &&& shown[k].existing_object_id@ == found.object_id@
            &&& shown[k].existing_object_name@ == found.object_name@
            &&& shown[k].existing_valid_from == found.valid_from
            &&& shown[k].existing_source_chat_id@ == found.source_chat_id@
        },
{
}

/// The contradictions of a list of facts are those of each, one fact after the other,
/// under its place in the list.
pub proof fn law_contradictions_come_fact_by_fact(
    n: int,
    facts: Seq<StagedFact>,
    lookups: Seq<FactLookup>,
    k: int,
)
    requires
        0 <= n <= facts.len(),
        facts.len() == lookups.len(),
        facts.len() <= usize::MAX,
        0 <= k < conflicts_of_first(n, facts, lookups).len(),
    ensures
        ({
            let c = conflicts_of_first(n, facts, lookups)[k];
            let i = c.staged_fact_index as int;
            &&& 0 <= i < n
            &&& !facts[i].explicit_coexist
            &&& exists|j: int|
                0 <= j < lookups[i].conflicts@.len() && (#[trigger] lookups[i].conflicts@[j]).object_id
                    == c.existing_object_id && lookups[i].conflicts@[j].predicate == c.predicate
            &&& forall|before: int|
                0 <= before < k ==> (#[trigger] conflicts_of_first(
                    n,
                    facts,
                    lookups,
                )[before]).staged_fact_index <= c.staged_fact_index
        }),
    decreases n,
{
    if n > 0 {
        let front = conflicts_of_first(n - 1, facts, lookups);
        let own = conflicts_on(n - 1, facts[n - 1], lookups[n - 1]);
        let all = conflicts_of_first(n, facts, lookups);
        if k < front.len() {
            law_contradictions_come_fact_by_fact(n - 1, facts, lookups, k);
            assert(all[k] == front[k]);
            assert forall|before: int| 0 <= before < k implies (
            #[trigger] all[before]).staged_fact_index <= all[k].staged_fact_index by {
                assert(all[before] == front[before]);
            }
        } else {
            let j = k - front.len();
            assert(all[k] == own[j]);
            assert(lookups[n - 1].conflicts@[j].object_id == all[k].existing_object_id);
            assert forall|before: int| 0 <= before < k implies (
            #[trigger] all[before]).staged_fact_index <= all[k].staged_fact_index by {
                if before < front.len() {
                    law_contradictions_come_fact_by_fact(n - 1, facts, lookups, before);
                    assert(all[before] == front[before]);
                } else {
                    assert(all[before] == own[before - front.len()]);
                }
            }
        }
    }
}

/// Whom an end of a fact may be is asked just where it is neither the note-taker nor in
/// the graph and something there is like it; it is asked of the likest, and of that end.
pub proof fn law_suggestions_ask_for_the_likest(
    index: int,
    endpoint: Seq<char>,
    name: Seq<char>,
    lookup: EndpointLookup,
)
    ensures
        ({
            let asked = suggestion_for(index, endpoint, name, lookup);
            if name == "Me"@ || lookup.known || lookup.similar@.len() == 0 {
                asked.len() == 0
            } else {
                &&& asked.len() == 1
                &&& asked[0].index == index
                &&& asked[0].endpoint == endpoint
                &&& asked[0].mention == name
                &&& asked[0].candidate == lookup.similar@[0]
            }
        }),
{
}

/// What is asked of one fact more comes behind what is asked of the others: first of its
/// subject, then of its object.
pub proof fn law_suggestions_come_fact_by_fact(
    n: int,
    facts: Seq<StagedFact>,
    lookups: Seq<FactLookup>,
)
    requires
        0 <= n < facts.len(),
        facts.len() == lookups.len(),
    ensures
        ({
            let before = suggestions_for_first(n, facts, lookups);
            let after = suggestions_for_first(n + 1, facts, lookups);
            let f = facts[n];
            let l = lookups[n];
            let of_subject = f.subject_name@ != "Me"@ && !l.subject.known
                && l.subject.similar@.len() > 0;
            let of_object = f.object_name@ != "Me"@ && !l.object.known && l.object.similar@.len()
                > 0;
            &&& after.take(before.len() as int) == before
            &&& after.len() == before.len() + (if of_subject {
                1int
            } else {
                0int
            }) + (if of_object {
                1int
            } else {
                0int
            })
            &&& of_subject ==> after[before.len() as int].endpoint == "subject"@
                && after[before.len() as int].mention == f.subject_name@
                && after[before.len() as int].index == n
                && after[before.len() as int].candidate == l.subject.similar@[0]
            &&& of_object ==> after.last().endpoint == "object"@ && after.last().mention
                == f.object_name@ && after.last().index == n && after.last().candidate
                == l.object.similar@[0]
        }),
        suggestions_for_first(0, facts, lookups).len() == 0,
{
    let before = suggestions_for_first(n, facts, lookups);
    let after = suggestions_for_first(n + 1, facts, lookups);
    assert(after.take(before.len() as int) =~= before);
}

/// Taking a suggestion puts the entity in place of that end of the fact, and touches
/// nothing else of it.
pub proof fn law_taken_suggestions_change_one_end(f: StagedFact, s: DisambiguationSuggestion)
    ensures
        ({
            let a = repointed(f, "subject"@, s);
            let b = repointed(f, "object"@, s);
            &&& a.subject_id == s.candidate_id && a.subject_name == s.candidate_name
                && a.subject_type == s.candidate_type
            &&& a.object_id == f.object_id && a.object_name == f.object_name && a.object_type
                == f.object_type
            &&& b.object_id == s.candidate_id && b.object_name == s.candidate_name && b.object_type
                == s.candidate_type
            &&& b.subject_id == f.subject_id && b.subject_name == f.subject_name && b.subject_type
                == f.subject_type
            &&& a.predicate == f.predicate && b.predicate == f.predicate
            &&& a.valid_from == f.valid_from && b.valid_from == f.valid_from
            &&& a.valid_to == f.valid_to && b.valid_to == f.valid_to
            &&& a.confidence == f.confidence && b.confidence == f.confidence
            &&& a.valid_from_explicit == f.valid_from_explicit && b.valid_from_explicit
                == f.valid_from_explicit
            &&& a.explicit_coexist == f.explicit_coexist && b.explicit_coexist
                == f.explicit_coexist
        }),
{
    reveal_strlit("subject");
    reveal_strlit("object");
    assert("subject"@.len() == 7);
    assert("object"@.len() == 6);
}

/// The facts of a proposal are those of its changes, one change after the other.
pub proof fn law_facts_come_change_by_change(a: Seq<NoteChangeView>, b: Seq<NoteChangeView>)
    ensures
        facts_of(a + b) == facts_of(a) + facts_of(b),
    decreases b.len(),
{
    if b.len() == 0 {
        assert(a + b =~= a);
        assert(facts_of(a) + facts_of(b) =~= facts_of(a));
    } else {
        law_facts_come_change_by_change(a, b.drop_last());
        assert((a + b).drop_last() =~= a + b.drop_last());
        assert((a + b).last() == b.last());
        assert(facts_of(a) + facts_of(b.drop_last()) + b.last().facts =~= facts_of(a) + facts_of(b));
    }
}

/// Only the fact that the suggestion was for is changed, and no other change of the
/// proposal.
pub proof fn law_taken_suggestions_leave_the_rest(
    changes: Seq<NoteChangeView>,
    pos: int,
    index: int,
    endpoint: Seq<char>,
    s: DisambiguationSuggestion,
    other: int,
    k: int,
)
    requires
        0 <= pos < changes.len(),
        0 <= index < changes[pos].facts.len(),
        0 <= other < changes.len(),
        0 <= k < changes[other].facts.len(),
    ensures
        ({
            let after = repointed_changes(changes, pos, index, endpoint, s);
            &&& after.len() == changes.len()
            &&& after[other].facts.len() == changes[other].facts.len()
            &&& after[other].note_path == changes[other].note_path
            &&& other != pos || k != index ==> after[other].facts[k] == changes[other].facts[k]
            &&& after[pos].facts[index] == repointed(changes[pos].facts[index], endpoint, s)
        }),
{
}

/// The change to a note is the first one with its path, and is found just where there is
/// one.
pub proof fn law_changes_are_found_by_their_note(
    changes: Seq<NoteChangeView>,
    note_path: Seq<char>,
)
    ensures
        match change_to(changes, note_path, 0) {
            Some(i) => {
                &&& 0 <= i < changes.len()
                &&& changes[i].note_path == note_path
                &&& forall|j: int| 0 <= j < i ==> (#[trigger] changes[j]).note_path != note_path
            },
            None => forall|j: int|
                0 <= j < changes.len() ==> (#[trigger] changes[j]).note_path != note_path,
        },
{
    lemma_change_to(changes, note_path, 0);
}

proof fn lemma_change_to(changes: Seq<NoteChangeView>, note_path: Seq<char>, i: int)
    requires
        0 <= i,
    ensures
        match change_to(changes, note_path, i) {
            Some(k) => {
                &&& i <= k < changes.len()
                &&& changes[k].note_path == note_path
                &&& forall|j: int| i <= j < k ==> (#[trigger] changes[j]).note_path != note_path
            },
            None => forall|j: int|
                i <= j < changes.len() ==> (#[trigger] changes[j]).note_path != note_path,
        },
    decreases changes.len() - i,
{
    if i < changes.len() && changes[i].note_path != note_path {
        lemma_change_to(changes, note_path, i + 1);
    }
}

/// The suggestion for an end of a fact is the first one for it, and is found just where
/// there is one.
pub proof fn law_suggestions_are_found_by_their_end(
    v: Seq<DisambiguationSuggestion>,
    index: int,
    endpoint: Seq<char>,
)
    ensures
        match first_suggestion(v, index, endpoint, 0) {
            Some(s) => {
                &&& s.staged_fact_index == index
                &&& s.endpoint@ == endpoint
                &&& v.contains(s)
            },
            None => forall|j: int|
                0 <= j < v.len() ==> (#[trigger] v[j]).staged_fact_index != index || v[j].endpoint@
                    != endpoint,
        },
{
    lemma_first_suggestion(v, index, endpoint, 0);
}

proof fn lemma_first_suggestion(
    v: Seq<DisambiguationSuggestion>,
    index: int,
    endpoint: Seq<char>,
    i: int,
)
    requires
        0 <= i,
    ensures
        match first_suggestion(v, index, endpoint, i) {
            Some(s) => s.staged_fact_index == index && s.endpoint@ == endpoint && v.contains(s),
            None => forall|j: int|
                i <= j < v.len() ==> (#[trigger] v[j]).staged_fact_index != index || v[j].endpoint@
                    != endpoint,
        },
    decreases v.len() - i,
{
    if i < v.len() {
        if suggests(v[i], index, endpoint) {
            assert(v.contains(v[i]));
        } else {
            lemma_first_suggestion(v, index, endpoint, i + 1);
        }
    }
}

/// Turning a suggestion down takes away those for that end of that fact and leaves every
/// other one, in their order.
pub proof fn law_turned_down_suggestions_are_gone(
    v: Seq<DisambiguationSuggestion>,
    s: DisambiguationSuggestion,
    index: int,
    endpoint: Seq<char>,
)
    ensures
        suggestions_besides(v.push(s), index, endpoint) == (if s.staged_fact_index == index
            && s.endpoint@ == endpoint {
            suggestions_besides(v, index, endpoint)
        } else {
            suggestions_besides(v, index, endpoint).push(s)
        }),
        suggestions_besides(Seq::empty(), index, endpoint).len() == 0,
{
    assert(v.push(s).drop_last() =~= v);
}

/// An answer touches neither the note nor the other facts: to keep both marks the new
/// fact, to update marks nothing.
pub proof fn law_answers_mark_only_their_fact(c: NoteChangeView, index: int, k: int)
    requires
        0 <= index < c.facts.len(),
        0 <= k < c.facts.len(),
    ensures
        ({
            let update = answered(c, index, false);
            let both = answered(c, index, true);
            &&& update.facts == c.facts
            &&& both.facts.len() == c.facts.len()
            &&& both.facts[index].explicit_coexist
            &&& both.facts[index].predicate == c.facts[index].predicate
            &&& both.facts[index].object_id == c.facts[index].object_id
            &&& both.facts[index].subject_id == c.facts[index].subject_id
            &&& k != index ==> both.facts[k] == c.facts[k]
            &&& update.new_content == c.new_content && both.new_content == c.new_content
            &&& update.note_path == c.note_path && both.note_path == c.note_path
            &&& update.suggestions == c.suggestions && both.suggestions == c.suggestions
        }),
{
}

/// The facts, of the first `n`, that are filed in a note, in their order.
pub open spec fn facts_for(
    facts: Seq<StagedFact>,
    note_paths: Seq<Seq<char>>,
    n: int,
    p: Seq<char>,
) -> Seq<StagedFact>
    decreases n,
{
    if n <= 0 {
        Seq::empty()
    } else if note_paths[n - 1] == p {
        facts_for(facts, note_paths, n - 1, p).push(facts[n - 1])
    } else {
        facts_for(facts, note_paths, n - 1, p)
    }
}

/// Every note has one group, with just the facts that are filed in it, in their order.
pub proof fn law_groups_are_by_note(facts: Seq<StagedFact>, note_paths: Seq<Seq<char>>, n: int)
    requires
        0 <= n <= facts.len(),
        facts.len() == note_paths.len(),
    ensures
        forall|g: int|
            0 <= g < grouped(facts, note_paths, n).len() ==> (#[trigger] grouped(
                facts,
                note_paths,
                n,
            )[g]).1 == facts_for(facts, note_paths, n, grouped(facts, note_paths, n)[g].0),
        forall|g: int, h: int|
            0 <= g < h < grouped(facts, note_paths, n).len() ==> (#[trigger] grouped(
                facts,
                note_paths,
                n,
            )[g]).0 != (#[trigger] grouped(facts, note_paths, n)[h]).0,
        forall|k: int|
            0 <= k < n ==> exists|g: int|
                0 <= g < grouped(facts, note_paths, n).len() && (#[trigger] grouped(
                    facts,
                    note_paths,
                    n,
                )[g]).0 == #[trigger] note_paths[k],
    decreases n,
{
    if n > 0 {
        law_groups_are_by_note(facts, note_paths, n - 1);
        let before = grouped(facts, note_paths, n - 1);
        let after = grouped(facts, note_paths, n);
        let path = note_paths[n - 1];
        lemma_group_at(before, path, 0);
        lemma_group_at_none(before, path, 0);
        if group_at(before, path, 0) is None {
            lemma_no_facts_for(facts, note_paths, n - 1, path);
        }
        assert forall|g: int| 0 <= g < after.len() implies (#[trigger] after[g]).1 == facts_for(
            facts,
            note_paths,
            n,
            after[g].0,
        ) by {
            match group_at(before, path, 0) {
                Some(i) => {
                    if g != i {
                        assert(after[g] == before[g]);
                        assert(before[g].0 != path);
                    } else {
                        assert(before[g].1 == facts_for(facts, note_paths, n - 1, path));
                    }
                },
                None => {
                    if g < before.len() {
                        assert(after[g] == before[g]);
                    } else {
                        assert(after[g].1 =~= seq![facts[n - 1]]);
                        assert(facts_for(facts, note_paths, n, path) =~= seq![facts[n - 1]]);
                    }
                },
            }
        }
        assert forall|k: int| 0 <= k < n implies exists|g: int|
            0 <= g < after.len() && (#[trigger] after[g]).0 == #[trigger] note_paths[k] by {
            if k < n - 1 {
                let g = choose|g: int|
                    0 <= g < before.len() && (#[trigger] before[g]).0 == note_paths[k];
                assert(after[g].0 == before[g].0);
            } else {
                match group_at(before, path, 0) {
                    Some(i) => {
                        assert(after[i].0 == path);
                    },
                    None => {
                        assert(after[before.len() as int].0 == path);
                    },
                }
            }
        }
    }
}

proof fn lemma_group_at_none(groups: Seq<(Seq<char>, Seq<StagedFact>)>, p: Seq<char>, i: int)
    requires
        0 <= i,
    ensures
        group_at(groups, p, i) is None ==> forall|g: int|
            i <= g < groups.len() ==> (#[trigger] groups[g]).0 != p,
    decreases groups.len() - i,
{
    if i < groups.len() && groups[i].0 != p {
        lemma_group_at_none(groups, p, i + 1);
    }
}

/// A note that no fact is filed in has none.
proof fn lemma_no_facts_for(
    facts: Seq<StagedFact>,
    note_paths: Seq<Seq<char>>,
    n: int,
    p: Seq<char>,
)
    requires
        0 <= n <= facts.len(),
        facts.len() == note_paths.len(),
        forall|g: int|
            0 <= g < grouped(facts, note_paths, n).len() ==> (#[trigger] grouped(
                facts,
                note_paths,
                n,
            )[g]).0 != p,
    ensures
        facts_for(facts, note_paths, n, p).len() == 0,
    decreases n,
{
    if n > 0 {
        law_groups_are_by_note(facts, note_paths, n - 1);
        let before = grouped(facts, note_paths, n - 1);
        let after = grouped(facts, note_paths, n);
        let path = note_paths[n - 1];
        lemma_group_at(before, path, 0);
        assert forall|g: int| 0 <= g < before.len() implies (#[trigger] before[g]).0 != p by {
            assert(after[g].0 == before[g].0);
        }
        match group_at(before, path, 0) {
            Some(i) => {
                assert(after[i].0 == path);
            },
            None => {
                assert(after[before.len() as int].0 == path);
            },
        }
        lemma_no_facts_for(facts, note_paths, n - 1, p);
    }
}

/// Of two numbers that are not negative the one with the lesser bits is less; of two
/// negative ones it is the one with the greater bits; a negative one is less than one
/// above nought.
pub proof fn law_numbers_are_ordered(a: Confidence, b: Confidence)
    requires
        !a.is_nan(),
        !b.is_nan(),
    ensures
        a.bits < 0x8000_0000_0000_0000 && b.bits < 0x8000_0000_0000_0000 ==> (a.less(b) <==> a.bits
            < b.bits),
        a.bits >= 0x8000_0000_0000_0000 && b.bits >= 0x8000_0000_0000_0000 ==> (a.less(b)
            <==> a.bits > b.bits),
        a.bits >= 0x8000_0000_0000_0000 && 0 < b.bits < 0x8000_0000_0000_0000 ==> a.less(b)
            && !b.less(a),
{
}

/// What is no number is just what lies beyond infinity, with either sign.
pub proof fn law_only_beyond_infinity_is_no_number(c: Confidence)
    ensures
        c.bits <= 0x7FF0_0000_0000_0000 ==> !c.is_nan(),
        0x7FF0_0000_0000_0000 < c.bits < 0x8000_0000_0000_0000 ==> c.is_nan(),
        0x8000_0000_0000_0000 <= c.bits <= 0xFFF0_0000_0000_0000 ==> !c.is_nan(),
        0xFFF0_0000_0000_0000 < c.bits ==> c.is_nan(),
{
}

} // verus!
