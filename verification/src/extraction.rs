//! Facts drawn from text: the vocabulary, and what becomes of what a model
//! finds.
use vstd::prelude::*;
use crate::datetime::Timestamp;
use crate::datetime;
use crate::paths;
use crate::text;

verus! {

broadcast use vstd::string::group_string_axioms;

/// A single-precision number, held by its IEEE 754 bits.
#[derive(Clone, Copy, Debug, PartialEq, Eq, Structural)]
pub struct Probability {
    pub bits: u32,
}

impl Probability {
    /// The bits are those of no number.
    pub open spec fn is_nan(self) -> bool {
        self.bits % 0x8000_0000 > 0x7F80_0000
    }

    /// The number's place in the order of the numbers.
    pub open spec fn rank(self) -> int {
        if self.bits < 0x8000_0000 {
            self.bits as int
        } else {
            0x8000_0000 - self.bits
        }
    }

    /// Both are numbers, and the first is less than the second.
    pub open spec fn less(self, other: Probability) -> bool {
        !self.is_nan() && !other.is_nan() && self.rank() < other.rank()
    }

    /// Whether the first is less than the second.
    pub fn is_less(self, other: Probability) -> (r: bool)
        ensures
            r == self.less(other),
    {
        let a: i64 = if self.bits < 0x8000_0000 {
            self.bits as i64
        } else {
            0x8000_0000 - self.bits as i64
        };
        let b: i64 = if other.bits < 0x8000_0000 {
            other.bits as i64
        } else {
            0x8000_0000 - other.bits as i64
        };
        self.bits % 0x8000_0000 <= 0x7F80_0000 && other.bits % 0x8000_0000 <= 0x7F80_0000 && a < b
    }
}

/// The bits of 0.5: an entity less sure than this is noise.
pub const MIN_ENTITY_CONFIDENCE: u32 = 0x3F00_0000;

/// The bits of 0.6: relations are noisier than entities.
pub const MIN_RELATION_CONFIDENCE: u32 = 0x3F19_999A;

/// What the note-taker is called. Facts about them are filed in one note.
pub const SELF_NAME: &'static str = "Me";

// ---------------------------------------------------------------------------
// The vocabulary
// ---------------------------------------------------------------------------

/// The types an entity can have.
pub const ENTITY_LABELS: [&'static str; 9] = [
    "person",
    "organization",
    "meeting",
    "project",
    "task",
    "topic",
    "location",
    "date",
    "event",
];

/// The types an entity can have.
pub open spec fn label_names() -> Seq<Seq<char>> {
    seq![
        "person"@,
        "organization"@,
        "meeting"@,
        "project"@,
        "task"@,
        "topic"@,
        "location"@,
        "date"@,
        "event"@,
    ]
}

/// The texts of a list of literals.
pub open spec fn names(v: Seq<&'static str>) -> Seq<Seq<char>> {
    v.map_values(|s: &'static str| s@)
}

/// Whether a text is a type that an entity can have.
pub fn is_entity_label(s: &str) -> (r: bool)
    ensures
        r == label_names().contains(s@),
{
    let v = ENTITY_LABELS;
    let mut i: usize = 0;
    assert(names(v@) =~= label_names());
    while i < 9
        invariant
            i <= 9,
            names(v@) == label_names(),
            forall|k: int| 0 <= k < i ==> v@[k]@ != s@,
        decreases 9 - i,
    {
        if text::same(v[i], s) {
            assert(label_names()[i as int] == s@);
            return true;
        }
        i += 1;
    }
    assert forall|k: int| 0 <= k < label_names().len() implies label_names()[k] != s@ by {
        assert(names(v@)[k] == v@[k]@);
    }
    false
}

/// A predicate, and the types of the entities it may stand between.
#[derive(Debug, PartialEq, Eq)]
pub struct RelationSpec {
    pub predicate: String,
    pub subject: String,
    pub object: String,
}

impl RelationSpec {
    /// Whether the subject may have that type.
    pub fn allows_subject(&self, label: &str) -> (r: bool)
        ensures
            r == (self.subject@ == label@),
    {
        text::same(self.subject.as_str(), label)
    }

    /// Whether the object may have that type.
    pub fn allows_object(&self, label: &str) -> (r: bool)
        ensures
            r == (self.object@ == label@),
    {
        text::same(self.object.as_str(), label)
    }
}

/// The predicates that facts are made of.
#[derive(Debug, PartialEq, Eq)]
pub struct RelationSchema {
    pub relations: Vec<RelationSpec>,
}

/// What a list of relations allows.
pub open spec fn spec_rows(v: Seq<RelationSpec>) -> Seq<(Seq<char>, Seq<char>, Seq<char>)> {
    v.map_values(|r: RelationSpec| (r.predicate@, r.subject@, r.object@))
}

impl View for RelationSchema {
    type V = Seq<(Seq<char>, Seq<char>, Seq<char>)>;

    open spec fn view(&self) -> Seq<(Seq<char>, Seq<char>, Seq<char>)> {
        spec_rows(self.relations@)
    }
}

impl RelationSchema {
    /// The relation of that name: of several, the last.
    pub fn find(&self, predicate: &str) -> (r: Option<&RelationSpec>)
        ensures
            match r {
                Some(s) => exists|i: int|
                    {
                        &&& 0 <= i < self.relations@.len()
                        &&& #[trigger] self.relations@[i] == *s
                        &&& s.predicate@ == predicate@
                        &&& forall|k: int|
                            i < k < self.relations@.len()
                                ==> (#[trigger] self.relations@[k]).predicate@ != predicate@
                    },
                None => forall|k: int|
                    0 <= k < self.relations@.len()
                        ==> (#[trigger] self.relations@[k]).predicate@ != predicate@,
            },
    {
        let mut i: usize = self.relations.len();
        while i > 0
            invariant
                i <= self.relations.len(),
                forall|k: int|
                    i <= k < self.relations@.len()
                        ==> (#[trigger] self.relations@[k]).predicate@ != predicate@,
            decreases i,
        {
            i -= 1;
            if text::same(self.relations[i].predicate.as_str(), predicate) {
                return Some(&self.relations[i]);
            }
        }
        None
    }
}

/// These predicates between entities of these types.
pub open spec fn allowed(preds: Seq<Seq<char>>, subject: Seq<char>, object: Seq<char>) -> Seq<
    (Seq<char>, Seq<char>, Seq<char>),
> {
    preds.map_values(|p: Seq<char>| (p, subject, object))
}

fn allow(s: &mut RelationSchema, preds: &Vec<&'static str>, subject: &str, object: &str)
    ensures
        final(s)@ == old(s)@ + allowed(names(preds@), subject@, object@),
{
    let ghost start = s@;
    let ghost all = allowed(names(preds@), subject@, object@);
    let mut i: usize = 0;
    assert(start + all.take(0) =~= start);
    while i < preds.len()
        invariant
            i <= preds.len(),
            all == allowed(names(preds@), subject@, object@),
            s@ == start + all.take(i as int),
        decreases preds.len() - i,
    {
        let row = RelationSpec {
            predicate: preds[i].to_owned(),
            subject: subject.to_owned(),
            object: object.to_owned(),
        };
        let ghost before = s.relations@;
        let ghost added = (row.predicate@, row.subject@, row.object@);
        s.relations.push(row);
        proof {
            assert(spec_rows(s.relations@) =~= spec_rows(before).push(added));
            assert(all[i as int] == added);
            assert(all.take(i + 1) =~= all.take(i as int).push(added));
            assert(start + all.take(i + 1) =~= (start + all.take(i as int)).push(added));
        }
        i += 1;
    }
    assert(all.take(i as int) =~= all);
}

/// The predicates that facts are made of, each with the types it stands between.
pub open spec fn schema_rows() -> Seq<(Seq<char>, Seq<char>, Seq<char>)> {
    allowed(seq!["works_at"@, "joined"@, "left"@, "founded"@, "invests_in"@, "advises"@, "member_of"@, "former_member_of"@, "volunteered_at"@], "person"@, "organization"@)
        + allowed(seq!["knows"@, "reports_to"@, "manages"@, "parent_of"@, "child_of"@, "sibling_of"@, "partner_of"@, "mentored_by"@, "collaborates_with"@], "person"@, "person"@)
        + allowed(seq!["lives_in"@, "born_in"@, "visited"@], "person"@, "location"@)
        + allowed(seq!["expert_in"@, "interested_in"@, "advocates_for"@], "person"@, "topic"@)
        + allowed(seq!["attended"@, "organized"@, "presented_at"@], "person"@, "meeting"@)
        + allowed(seq!["created"@, "contributes_to"@, "leads"@], "person"@, "project"@)
        + allowed(seq!["owns_task"@, "completed"@, "delegated_to"@], "person"@, "task"@)
        + allowed(seq!["subsidiary_of"@, "competitor_of"@, "acquired_by"@, "partner_with"@], "organization"@, "organization"@)
        + allowed(seq!["located_in"@, "headquartered_in"@], "organization"@, "location"@)
        + allowed(seq!["scheduled_for"@], "meeting"@, "date"@)
        + allowed(seq!["about"@], "meeting"@, "topic"@)
        + allowed(seq!["due_on"@], "task"@, "date"@)
        + allowed(seq!["blocks"@, "depends_on"@], "task"@, "task"@)
}

/// The predicates that facts are made of.
pub fn default_relation_schema() -> (r: RelationSchema)
    ensures
        r@ == schema_rows(),
{
    let mut s = RelationSchema { relations: Vec::new() };
    assert(s@ =~= Seq::<(Seq<char>, Seq<char>, Seq<char>)>::empty());
    let preds: Vec<&'static str> = vec!["works_at", "joined", "left", "founded", "invests_in", "advises", "member_of", "former_member_of", "volunteered_at"];
    assert(names(preds@) =~= seq!["works_at"@, "joined"@, "left"@, "founded"@, "invests_in"@, "advises"@, "member_of"@, "former_member_of"@, "volunteered_at"@]);
    allow(&mut s, &preds, "person", "organization");
    let preds: Vec<&'static str> = vec!["knows", "reports_to", "manages", "parent_of", "child_of", "sibling_of", "partner_of", "mentored_by", "collaborates_with"];
    assert(names(preds@) =~= seq!["knows"@, "reports_to"@, "manages"@, "parent_of"@, "child_of"@, "sibling_of"@, "partner_of"@, "mentored_by"@, "collaborates_with"@]);
    allow(&mut s, &preds, "person", "person");
    let preds: Vec<&'static str> = vec!["lives_in", "born_in", "visited"];
    assert(names(preds@) =~= seq!["lives_in"@, "born_in"@, "visited"@]);
    allow(&mut s, &preds, "person", "location");
    let preds: Vec<&'static str> = vec!["expert_in", "interested_in", "advocates_for"];
    assert(names(preds@) =~= seq!["expert_in"@, "interested_in"@, "advocates_for"@]);
    allow(&mut s, &preds, "person", "topic");
    let preds: Vec<&'static str> = vec!["attended", "organized", "presented_at"];
    assert(names(preds@) =~= seq!["attended"@, "organized"@, "presented_at"@]);
    allow(&mut s, &preds, "person", "meeting");
    let preds: Vec<&'static str> = vec!["created", "contributes_to", "leads"];
    assert(names(preds@) =~= seq!["created"@, "contributes_to"@, "leads"@]);
    allow(&mut s, &preds, "person", "project");
    let preds: Vec<&'static str> = vec!["owns_task", "completed", "delegated_to"];
    assert(names(preds@) =~= seq!["owns_task"@, "completed"@, "delegated_to"@]);
    allow(&mut s, &preds, "person", "task");
    let preds: Vec<&'static str> = vec!["subsidiary_of", "competitor_of", "acquired_by", "partner_with"];
    assert(names(preds@) =~= seq!["subsidiary_of"@, "competitor_of"@, "acquired_by"@, "partner_with"@]);
    allow(&mut s, &preds, "organization", "organization");
    let preds: Vec<&'static str> = vec!["located_in", "headquartered_in"];
    assert(names(preds@) =~= seq!["located_in"@, "headquartered_in"@]);
    allow(&mut s, &preds, "organization", "location");
    let preds: Vec<&'static str> = vec!["scheduled_for"];
    assert(names(preds@) =~= seq!["scheduled_for"@]);
    allow(&mut s, &preds, "meeting", "date");
    let preds: Vec<&'static str> = vec!["about"];
    assert(names(preds@) =~= seq!["about"@]);
    allow(&mut s, &preds, "meeting", "topic");
    let preds: Vec<&'static str> = vec!["due_on"];
    assert(names(preds@) =~= seq!["due_on"@]);
    allow(&mut s, &preds, "task", "date");
    let preds: Vec<&'static str> = vec!["blocks", "depends_on"];
    assert(names(preds@) =~= seq!["blocks"@, "depends_on"@]);
    allow(&mut s, &preds, "task", "task");
    assert(s@ =~= schema_rows());
    s
}

// ---------------------------------------------------------------------------
// What was found
// ---------------------------------------------------------------------------

/// An entity that the model found.
#[derive(Debug, PartialEq, Eq)]
pub struct EntitySpan {
    pub sequence_idx: usize,
    pub text: String,
    pub class: String,
    pub probability: Probability,
}

impl Clone for EntitySpan {
    fn clone(&self) -> (r: EntitySpan)
        ensures
            r == *self,
    {
        EntitySpan {
            sequence_idx: self.sequence_idx,
            text: self.text.clone(),
            class: self.class.clone(),
            probability: self.probability,
        }
    }
}

/// A relation that the model found.
#[derive(Debug, PartialEq, Eq)]
pub struct RelationSpan {
    pub sequence_idx: usize,
    pub predicate: String,
    /// The subject, as the text has it.
    pub subject: String,
    /// The object, as the text has it.
    pub object: String,
    pub probability: Probability,
}

impl Clone for RelationSpan {
    fn clone(&self) -> (r: RelationSpan)
        ensures
            r == *self,
    {
        RelationSpan {
            sequence_idx: self.sequence_idx,
            predicate: self.predicate.clone(),
            subject: self.subject.clone(),
            object: self.object.clone(),
            probability: self.probability,
        }
    }
}

/// An entity, resolved to a name.
#[derive(Debug, PartialEq, Eq)]
pub struct ExtractedEntity {
    /// For the note-taker always [`SELF_NAME`].
    pub name: String,
    /// One of [`ENTITY_LABELS`].
    pub entity_type: String,
    pub is_self: bool,
    pub confidence: Probability,
}

/// A relation between two entities, with the bounds of its validity.
#[derive(Debug, PartialEq, Eq)]
pub struct ExtractedRelation {
    pub subject: String,
    pub predicate: String,
    pub object: String,
    /// When it began to hold, if the text says so.
    pub valid_from: Option<Timestamp>,
    /// When it ceased to hold: a fact with an end is a former one.
    pub valid_to: Option<Timestamp>,
    pub confidence: Probability,
}

/// What is known of an entity.
pub struct EntityView {
    pub name: Seq<char>,
    pub entity_type: Seq<char>,
    pub is_self: bool,
    pub confidence: Probability,
}

/// What is known of a relation.
pub struct RelationView {
    pub subject: Seq<char>,
    pub predicate: Seq<char>,
    pub object: Seq<char>,
    pub valid_from: Option<Timestamp>,
    pub valid_to: Option<Timestamp>,
    pub confidence: Probability,
}

impl View for ExtractedEntity {
    type V = EntityView;

    open spec fn view(&self) -> EntityView {
        EntityView {
            name: self.name@,
            entity_type: self.entity_type@,
            is_self: self.is_self,
            confidence: self.confidence,
        }
    }
}

impl View for ExtractedRelation {
    type V = RelationView;

    open spec fn view(&self) -> RelationView {
        RelationView {
            subject: self.subject@,
            predicate: self.predicate@,
            object: self.object@,
            valid_from: self.valid_from,
            valid_to: self.valid_to,
            confidence: self.confidence,
        }
    }
}

/// The entities, in their order.
pub open spec fn entity_views(v: Seq<ExtractedEntity>) -> Seq<EntityView> {
    v.map_values(|e: ExtractedEntity| e@)
}

/// The relations, in their order.
pub open spec fn relation_views(v: Seq<ExtractedRelation>) -> Seq<RelationView> {
    v.map_values(|r: ExtractedRelation| r@)
}

/// What was drawn from a message.
#[derive(Debug, PartialEq, Eq)]
pub struct Extraction {
    pub entities: Vec<ExtractedEntity>,
    pub relations: Vec<ExtractedRelation>,
}

impl Default for Extraction {
    fn default() -> (r: Extraction)
        ensures
            r.entities@.len() == 0,
            r.relations@.len() == 0,
    {
        Extraction { entities: Vec::new(), relations: Vec::new() }
    }
}

/// Four digits that make a year from 1000 on stand at `i`.
pub open spec fn year_at(s: Seq<char>, i: int) -> bool {
    &&& 0 <= i && i + 4 <= s.len()
    &&& text::is_digit(s[i]) && s[i] != '0'
    &&& text::is_digit(s[i + 1]) && text::is_digit(s[i + 2]) && text::is_digit(s[i + 3])
}

/// The number that four digits make.
pub open spec fn year_value(s: Seq<char>, i: int) -> int {
    (s[i] as int - 48) * 1000 + (s[i + 1] as int - 48) * 100 + (s[i + 2] as int - 48) * 10 + (s[i
        + 3] as int - 48)
}

/// The first year at `i` or behind it.
pub open spec fn year_from(s: Seq<char>, i: int) -> Option<int>
    decreases s.len() - i,
{
    if i < 0 || i + 4 > s.len() {
        None
    } else if year_at(s, i) {
        Some(year_value(s, i))
    } else {
        year_from(s, i + 1)
    }
}

/// The instant in which the first year in a text begins.
pub open spec fn year_start_in(s: Seq<char>) -> Option<Timestamp> {
    match year_from(s, 0) {
        Some(y) => Some(Timestamp { secs: datetime::year_start(y) as i64, nanos: 0 }),
        None => None,
    }
}

fn ascii_digit(c: char) -> (r: bool)
    ensures
        r == text::is_digit(c),
{
    '0' <= c && c <= '9'
}

fn digit_value(c: char) -> (r: i32)
    requires
        text::is_digit(c),
    ensures
        r == c as int - 48,
        0 <= r <= 9,
{
    (c as u32 - 48) as i32
}

/// The first year of four digits in a text, from 1000 on: midnight on its first
/// of January.
pub fn parse_year_start(text: &str) -> (r: Option<Timestamp>)
    ensures
        r == year_start_in(text@),
        r matches Some(t) ==> t.wf(),
{
    let cs = text::chars_of(text);
    if cs.len() < 4 {
        return None;
    }
    let last: usize = cs.len() - 4;
    let mut i: usize = 0;
    while i <= last
        invariant
            cs@ == text@,
            last == cs.len() - 4,
            i <= last + 1,
            year_from(text@, 0) == year_from(text@, i as int),
        decreases last + 1 - i,
    {
        if ascii_digit(cs[i]) && cs[i] != '0' && ascii_digit(cs[i + 1]) && ascii_digit(cs[i + 2])
            && ascii_digit(cs[i + 3]) {
            let year: i32 = digit_value(cs[i]) * 1000 + digit_value(cs[i + 1]) * 100 + digit_value(
                cs[i + 2],
            ) * 10 + digit_value(cs[i + 3]);
            assert(cs@[i as int] != '0');
            assert(year >= 1000);
            assert(year_at(text@, i as int));
            return datetime::first_of_january(year);
        }
        i += 1;
    }
    None
}

/// The texts of the entities that are dates.
pub open spec fn dates_in(entities: Seq<EntitySpan>) -> Seq<Seq<char>>
    decreases entities.len(),
{
    if entities.len() == 0 {
        Seq::empty()
    } else {
        let front = dates_in(entities.drop_last());
        if entities.last().class@ == "date"@ {
            front.push(entities.last().text@)
        } else {
            front
        }
    }
}

/// The year that a message is about: that of its date, where it has just one.
pub open spec fn single_year(entities: Seq<EntitySpan>) -> Option<Timestamp> {
    let dates = dates_in(entities);
    if dates.len() == 1 {
        year_start_in(dates[0])
    } else {
        None
    }
}

fn find_single_year(entities: &Vec<EntitySpan>) -> (r: Option<Timestamp>)
    ensures
        r == single_year(entities@),
        r matches Some(t) ==> t.wf(),
{
    let mut dates: Vec<&str> = Vec::new();
    let mut i: usize = 0;
    assert(entities@.take(0) =~= Seq::<EntitySpan>::empty());
    while i < entities.len()
        invariant
            i <= entities.len(),
            dates@.len() == dates_in(entities@.take(i as int)).len(),
            forall|k: int|
                0 <= k < dates@.len() ==> (#[trigger] dates@[k])@ == dates_in(
                    entities@.take(i as int),
                )[k],
        decreases entities.len() - i,
    {
        assert(entities@.take(i + 1).drop_last() =~= entities@.take(i as int));
        assert(entities@.take(i + 1).last() == entities@[i as int]);
        if text::same(entities[i].class.as_str(), "date") {
            dates.push(entities[i].text.as_str());
        }
        i += 1;
    }
    assert(entities@.take(i as int) =~= entities@);
    if dates.len() == 1 {
        parse_year_start(dates[0])
    } else {
        None
    }
}

/// The entity that a span stands for.
pub open spec fn entity_of(e: EntitySpan) -> ExtractedEntity {
    ExtractedEntity {
        name: e.text,
        entity_type: e.class,
        is_self: false,
        confidence: e.probability,
    }
}

/// The relation that a span stands for.
pub open spec fn relation_of(r: RelationSpan, year: Option<Timestamp>) -> ExtractedRelation {
    ExtractedRelation {
        subject: r.subject,
        predicate: r.predicate,
        object: r.object,
        valid_from: year,
        valid_to: None,
        confidence: r.probability,
    }
}

/// What was drawn from a message, out of what the model found. Nobody is known
/// as the note-taker, nothing has ended, and the one date there is, if there is
/// just one, is when everything began.
pub fn extraction_of_spans(entities: &Vec<EntitySpan>, relations: &Vec<RelationSpan>) -> (r: Extraction)
    ensures
        r.entities@ == entities@.map_values(|e: EntitySpan| entity_of(e)),
        r.relations@ == relations@.map_values(
            |s: RelationSpan| relation_of(s, single_year(entities@)),
        ),
{
    let year = find_single_year(entities);
    let mut out = Extraction { entities: Vec::new(), relations: Vec::new() };
    let mut i: usize = 0;
    while i < entities.len()
        invariant
            i <= entities.len(),
            out.entities.len() == i,
            out.relations@.len() == 0,
            forall|k: int| 0 <= k < i ==> #[trigger] out.entities@[k] == entity_of(entities@[k]),
        decreases entities.len() - i,
    {
        let e = &entities[i];
        out.entities.push(
            ExtractedEntity {
                name: e.text.clone(),
                entity_type: e.class.clone(),
                is_self: false,
                confidence: e.probability,
            },
        );
        i += 1;
    }
    assert(out.entities@ =~= entities@.map_values(|e: EntitySpan| entity_of(e)));
    let ghost drawn = out.entities@;
    let mut j: usize = 0;
    while j < relations.len()
        invariant
            j <= relations.len(),
            out.entities@ == drawn,
            out.relations.len() == j,
            year == single_year(entities@),
            forall|k: int|
                0 <= k < j ==> #[trigger] out.relations@[k] == relation_of(
                    relations@[k],
                    single_year(entities@),
                ),
        decreases relations.len() - j,
    {
        let s = &relations[j];
        out.relations.push(
            ExtractedRelation {
                subject: s.subject.clone(),
                predicate: s.predicate.clone(),
                object: s.object.clone(),
                valid_from: year,
                valid_to: None,
                confidence: s.probability,
            },
        );
        j += 1;
    }
    assert(out.relations@ =~= relations@.map_values(
        |s: RelationSpan| relation_of(s, single_year(entities@)),
    ));
    out
}

// ---------------------------------------------------------------------------
// The model's files
// ---------------------------------------------------------------------------

/// Where the model's files are.
#[derive(Debug, PartialEq, Eq)]
pub struct ModelPaths {
    pub root: String,
}

/// Where the model's files are, below the program's own folder.
pub open spec fn model_root(app_dir: Seq<char>) -> Seq<char> {
    paths::joined_path(
        paths::joined_path(app_dir, "models"@),
        "gliner-multitask-large-v0.5"@,
    )
}

impl ModelPaths {
    /// The place below the program's own folder.
    pub fn under_app_dir(app_dir: &str) -> (r: ModelPaths)
        ensures
            r.root@ == model_root(app_dir@),
    {
        let models = paths::join(app_dir, "models");
        ModelPaths { root: paths::join(models.as_str(), "gliner-multitask-large-v0.5") }
    }

    /// The tokenizer's file.
    pub fn tokenizer(&self) -> (r: String)
        ensures
            r@ == paths::joined_path(self.root@, "tokenizer.json"@),
    {
        paths::join(self.root.as_str(), "tokenizer.json")
    }

    /// The model's file.
    pub fn onnx(&self) -> (r: String)
        ensures
            r@ == paths::joined_path(paths::joined_path(self.root@, "onnx"@), "model.onnx"@),
    {
        let dir = paths::join(self.root.as_str(), "onnx");
        paths::join(dir.as_str(), "model.onnx")
    }

    /// Whether the model is there, given which of its two files are.
    pub fn exist(&self, tokenizer_is_file: bool, onnx_is_file: bool) -> (r: bool)
        ensures
            r == (tokenizer_is_file && onnx_is_file),
    {
        tokenizer_is_file && onnx_is_file
    }
}

/// What the user is told where the model is missing.
pub open spec fn bootstrap_text(root: Seq<char>) -> Seq<char> {
    "GLiNER model files not found at "@
        + root
        + ".\nBootstrap once:\n  mkdir -p "@
        + root
        + "/onnx && cd "@
        + root
        + " && \\\n  curl -L -o tokenizer.json https://huggingface.co/onnx-community/gliner-multitask-large-v0.5/resolve/main/tokenizer.json && \\\n  curl -L -o onnx/model.onnx https://huggingface.co/onnx-community/gliner-multitask-large-v0.5/resolve/main/onnx/model.onnx"@
}

/// What the user is told where the model is missing: how to fetch it.
pub fn model_bootstrap_hint(paths: &ModelPaths) -> (r: String)
    ensures
        r@ == bootstrap_text(paths.root@),
{
    let root = paths.root.as_str();
    let mut s = String::from_str("GLiNER model files not found at ");
    s.append(root);
    s.append(".\nBootstrap once:\n  mkdir -p ");
    s.append(root);
    s.append("/onnx && cd ");
    s.append(root);
    s.append(" && \\\n  curl -L -o tokenizer.json https://huggingface.co/onnx-community/gliner-multitask-large-v0.5/resolve/main/tokenizer.json && \\\n  curl -L -o onnx/model.onnx https://huggingface.co/onnx-community/gliner-multitask-large-v0.5/resolve/main/onnx/model.onnx");
    s
}

/// Of two numbers that are not negative the one with the lesser bits is less; of two
/// negative ones it is the one with the greater bits; a negative one is less than one
/// above nought.
pub proof fn law_probabilities_are_ordered(a: Probability, b: Probability)
    requires
        !a.is_nan(),
        !b.is_nan(),
    ensures
        a.bits < 0x8000_0000 && b.bits < 0x8000_0000 ==> (a.less(b) <==> a.bits < b.bits),
        a.bits >= 0x8000_0000 && b.bits >= 0x8000_0000 ==> (a.less(b) <==> a.bits > b.bits),
        a.bits >= 0x8000_0000 && 0 < b.bits < 0x8000_0000 ==> a.less(b) && !b.less(a),
{
}

/// What is no number is neither less nor more than anything.
pub proof fn law_no_number_is_not_compared(a: Probability, b: Probability)
    requires
        a.bits % 0x8000_0000 > 0x7F80_0000,
    ensures
        !a.less(b),
        !b.less(a),
{
}

/// The year of a text is the first of its years: one of four digits that does not begin
/// with a nought, and none stands before it. Where there is none the text has no year.
pub proof fn law_years_are_the_first_in_the_text(s: Seq<char>)
    ensures
        match year_from(s, 0) {
            Some(y) => exists|i: int|
                0 <= i && i + 4 <= s.len() && #[trigger] year_value(s, i) == y && '1' <= s[i] <= '9'
                    && text::is_digit(s[i + 1]) && text::is_digit(s[i + 2]) && text::is_digit(
                    s[i + 3],
                ) && forall|j: int| 0 <= j < i ==> !#[trigger] year_at(s, j),
            None => forall|j: int| 0 <= j <= s.len() ==> !#[trigger] year_at(s, j),
        },
        year_from(s, 0) matches Some(y) ==> 1000 <= y <= 9999,
        year_from(s, 0) matches Some(y) ==> year_start_in(s) is Some && year_start_in(s)->0.secs
            == datetime::year_start(y) as i64,
{
    lemma_year_from(s, 0);
}

proof fn lemma_year_from(s: Seq<char>, i: int)
    requires
        0 <= i,
    ensures
        match year_from(s, i) {
            Some(y) => exists|k: int|
                i <= k && k + 4 <= s.len() && #[trigger] year_value(s, k) == y && '1' <= s[k] <= '9'
                    && text::is_digit(s[k + 1]) && text::is_digit(s[k + 2]) && text::is_digit(
                    s[k + 3],
                ) && forall|j: int| i <= j < k ==> !#[trigger] year_at(s, j),
            None => forall|j: int| i <= j <= s.len() ==> !#[trigger] year_at(s, j),
        },
        year_from(s, i) matches Some(y) ==> 1000 <= y <= 9999,
    decreases s.len() - i,
{
    if i + 4 <= s.len() {
        if year_at(s, i) {
            assert(year_value(s, i) == year_from(s, i)->0);
        } else {
            lemma_year_from(s, i + 1);
        }
    }
}

/// A year is written with its thousands first.
pub proof fn law_years_are_read_from_the_left(s: Seq<char>, a: int, b: int, c: int, d: int)
    requires
        s.len() >= 4,
        1 <= a <= 9,
        0 <= b <= 9,
        0 <= c <= 9,
        0 <= d <= 9,
        s[0] == text::digit_char(a),
        s[1] == text::digit_char(b),
        s[2] == text::digit_char(c),
        s[3] == text::digit_char(d),
    ensures
        year_from(s, 0) == Some(1000 * a + 100 * b + 10 * c + d),
{
    assert(year_at(s, 0));
}

/// The year of a message is that of its date just where it has one date: with none, or
/// with a second one, it has no year.
pub proof fn law_two_dates_give_no_year(entities: Seq<EntitySpan>, e: EntitySpan)
    ensures
        e.class@ != "date"@ ==> single_year(entities.push(e)) == single_year(entities),
        e.class@ == "date"@ && dates_in(entities).len() == 0 ==> single_year(entities.push(e))
            == year_start_in(e.text@),
        e.class@ == "date"@ && dates_in(entities).len() > 0 ==> single_year(entities.push(e))
            is None,
        single_year(Seq::empty()) is None,
{
    assert(entities.push(e).drop_last() =~= entities);
}

/// What the model found keeps its direction and its name; nobody is taken for the
/// note-taker, and nothing has ended.
pub proof fn law_spans_keep_their_ends(e: EntitySpan, r: RelationSpan, year: Option<Timestamp>)
    ensures
        entity_of(e).name@ == e.text@,
        entity_of(e).entity_type@ == e.class@,
        !entity_of(e).is_self,
        entity_of(e).confidence == e.probability,
        relation_of(r, year).subject@ == r.subject@,
        relation_of(r, year).predicate@ == r.predicate@,
        relation_of(r, year).object@ == r.object@,
        relation_of(r, year).valid_from == year,
        relation_of(r, year).valid_to is None,
        relation_of(r, year).confidence == r.probability,
{
}

/// Every predicate stands between entities of known types.
pub proof fn law_predicates_join_known_types(i: int)
    requires
        0 <= i < schema_rows().len(),
    ensures
        label_names().contains(schema_rows()[i].1),
        label_names().contains(schema_rows()[i].2),
{
    assert(label_names()[0] == "person"@);
    assert(label_names()[1] == "organization"@);
    assert(label_names()[2] == "meeting"@);
    assert(label_names()[3] == "project"@);
    assert(label_names()[4] == "task"@);
    assert(label_names()[5] == "topic"@);
    assert(label_names()[6] == "location"@);
    assert(label_names()[7] == "date"@);
}

/// A list of relations allows each predicate from its own subject to its own object.
pub proof fn law_relations_allow_their_own_ends(v: Seq<RelationSpec>, i: int)
    requires
        0 <= i < v.len(),
    ensures
        spec_rows(v).len() == v.len(),
        spec_rows(v)[i].0 == v[i].predicate@,
        spec_rows(v)[i].1 == v[i].subject@,
        spec_rows(v)[i].2 == v[i].object@,
{
}

/// What is no number is just what lies beyond infinity, with either sign.
pub proof fn law_only_beyond_infinity_is_no_number(p: Probability)
    ensures
        p.bits <= 0x7F80_0000 ==> !p.is_nan(),
        0x7F80_0000 < p.bits < 0x8000_0000 ==> p.is_nan(),
        0x8000_0000 <= p.bits <= 0xFF80_0000 ==> !p.is_nan(),
        0xFF80_0000 < p.bits ==> p.is_nan(),
{
}

} // verus!
