//! From what the model found to facts in the graph: which entities are taken,
//! which relations become facts, and what is told of it.
use vstd::prelude::*;
use crate::datetime::Timestamp;
use crate::error::AppError;
use crate::extraction::EntitySpan;
use crate::extraction::ModelPaths;
use crate::extraction::Probability;
use crate::extraction::RelationSpan;
use crate::extraction;
use crate::text;

verus! {

broadcast use vstd::string::group_string_axioms;

/// What a look for entities gives.
#[derive(Debug, PartialEq, Eq)]
pub struct ExtractionResult {
    pub model_ready: bool,
    /// How to fetch the model, where it is missing.
    pub bootstrap_hint: Option<String>,
    pub spans: Vec<EntitySpan>,
}

/// The model's files, or an error that says how to fetch them.
pub fn require_model(paths: ModelPaths, there: bool) -> (r: Result<ModelPaths, AppError>)
    ensures
        if there {
            r == Ok::<ModelPaths, AppError>(paths)
        } else {
            r matches Err(e) && e.text() == extraction::bootstrap_text(paths.root@)
        },
{
    if there {
        Ok(paths)
    } else {
        Err(AppError::Other(extraction::model_bootstrap_hint(&paths)))
    }
}

/// What is given where the model is missing.
pub fn model_missing(paths: &ModelPaths) -> (r: ExtractionResult)
    ensures
        !r.model_ready,
        text::opt_text(r.bootstrap_hint) == Some(extraction::bootstrap_text(paths.root@)),
        r.spans@.len() == 0,
{
    ExtractionResult {
        model_ready: false,
        bootstrap_hint: Some(extraction::model_bootstrap_hint(paths)),
        spans: Vec::new(),
    }
}

/// The rows one behind the other.
pub open spec fn flattened(rows: Seq<Vec<EntitySpan>>) -> Seq<EntitySpan>
    decreases rows.len(),
{
    if rows.len() == 0 {
        Seq::empty()
    } else {
        flattened(rows.drop_last()) + rows.last()@
    }
}

/// What is given where the model has run: its spans, row after row.
pub fn extract_entities(rows: &Vec<Vec<EntitySpan>>) -> (r: ExtractionResult)
    ensures
        r.model_ready,
        r.bootstrap_hint is None,
        r.spans@ == flattened(rows@),
{
    let mut spans: Vec<EntitySpan> = Vec::new();
    let mut i: usize = 0;
    assert(rows@.take(0) =~= Seq::<Vec<EntitySpan>>::empty());
    while i < rows.len()
        invariant
            i <= rows.len(),
            spans@ == flattened(rows@.take(i as int)),
        decreases rows.len() - i,
    {
        assert(rows@.take(i + 1).drop_last() =~= rows@.take(i as int));
        assert(rows@.take(i + 1).last() == rows@[i as int]);
        let mut row = rows[i].clone();
        assert(row@ =~= rows@[i as int]@);
        spans.append(&mut row);
        i += 1;
    }
    assert(rows@.take(i as int) =~= rows@);
    ExtractionResult { model_ready: true, bootstrap_hint: None, spans }
}

/// An entity that was put into the graph.
#[derive(Debug, PartialEq, Eq)]
pub struct UpsertedSpan {
    pub text: String,
    pub class: String,
    pub probability: Probability,
    pub entity_id: String,
    /// Whether it was not there before.
    pub was_new: bool,
}

/// A fact that was written.
#[derive(Debug, PartialEq, Eq)]
pub struct FactWritten {
    pub fact_id: String,
    pub subject: String,
    pub predicate: String,
    pub object: String,
    pub confidence: Probability,
}

/// A fact to be written.
#[derive(Debug, PartialEq, Eq)]
pub struct FactWrite {
    pub subject_id: String,
    pub object_id: String,
    pub valid_from: Timestamp,
    pub source_chat_id: String,
    /// The relation it comes from.
    pub relation: RelationSpan,
}

/// What came of a message.
#[derive(Debug, PartialEq, Eq)]
pub struct ExtractFactsResult {
    pub entities: Vec<UpsertedSpan>,
    pub facts: Vec<FactWritten>,
    pub skipped_low_confidence: usize,
    pub skipped_unresolved_entity: usize,
}

/// The entity is too unsure to be taken.
pub open spec fn unsure_entity(e: EntitySpan) -> bool {
    e.probability.less(Probability { bits: extraction::MIN_ENTITY_CONFIDENCE })
}

/// The relation is too unsure to be taken.
pub open spec fn unsure_relation(r: RelationSpan) -> bool {
    r.probability.less(Probability { bits: extraction::MIN_RELATION_CONFIDENCE })
}

/// The entities that are taken, in their order.
pub open spec fn taken_entities(entities: Seq<EntitySpan>) -> Seq<EntitySpan>
    decreases entities.len(),
{
    if entities.len() == 0 {
        Seq::empty()
    } else {
        let front = taken_entities(entities.drop_last());
        if unsure_entity(entities.last()) {
            front
        } else {
            front.push(entities.last())
        }
    }
}

/// The entities that are sure enough, and how many are not.
pub fn accepted_entities(entities: &Vec<EntitySpan>) -> (r: (Vec<EntitySpan>, usize))
    ensures
        r.0@ == taken_entities(entities@),
        r.1 + r.0@.len() == entities@.len(),
{
    let mut taken: Vec<EntitySpan> = Vec::new();
    let mut skipped: usize = 0;
    let ghost all = entities@;
    let mut i: usize = 0;
    assert(all.take(0) =~= Seq::<EntitySpan>::empty());
    while i < entities.len()
        invariant
            i <= entities.len(),
            all == entities@,
            taken@ == taken_entities(all.take(i as int)),
            skipped + taken@.len() == i,
        decreases entities.len() - i,
    {
        let span = &entities[i];
        assert(all.take(i + 1).drop_last() =~= all.take(i as int));
        assert(all.take(i + 1).last() == all[i as int]);
        if span.probability.is_less(Probability { bits: extraction::MIN_ENTITY_CONFIDENCE }) {
            skipped += 1;
        } else {
            taken.push(span.clone());
        }
        i += 1;
    }
    assert(all.take(i as int) =~= all);
    (taken, skipped)
}

/// An entity with the id it was given.
pub fn upserted(span: EntitySpan, entity_id: String, was_new: bool) -> (r: UpsertedSpan)
    ensures
        r == (UpsertedSpan {
            text: span.text,
            class: span.class,
            probability: span.probability,
            entity_id,
            was_new,
        }),
{
    UpsertedSpan {
        text: span.text,
        class: span.class,
        probability: span.probability,
        entity_id,
        was_new,
    }
}

/// The id under which a text was put into the graph: that of the last entity
/// with the text.
pub open spec fn id_of(upserted: Seq<UpsertedSpan>, name: Seq<char>) -> Option<Seq<char>>
    decreases upserted.len(),
{
    if upserted.len() == 0 {
        None
    } else if upserted.last().text@ == name {
        Some(upserted.last().entity_id@)
    } else {
        id_of(upserted.drop_last(), name)
    }
}

fn find_id(upserted: &Vec<UpsertedSpan>, name: &str) -> (r: Option<String>)
    ensures
        text::opt_text(r) == id_of(upserted@, name@),
{
    let mut i: usize = upserted.len();
    assert(upserted@.take(i as int) =~= upserted@);
    while i > 0
        invariant
            i <= upserted.len(),
            id_of(upserted@, name@) == id_of(upserted@.take(i as int), name@),
        decreases i,
    {
        assert(upserted@.take(i as int).last() == upserted@[i - 1]);
        assert(upserted@.take(i as int).drop_last() =~= upserted@.take(i - 1));
        if text::same(upserted[i - 1].text.as_str(), name) {
            return Some(upserted[i - 1].entity_id.clone());
        }
        i -= 1;
    }
    None
}

/// Both ends of the relation are in the graph.
pub open spec fn resolved(r: RelationSpan, upserted: Seq<UpsertedSpan>) -> bool {
    id_of(upserted, r.subject@) is Some && id_of(upserted, r.object@) is Some
}

/// The relations that become facts: sure enough, and between entities that were
/// put into the graph.
pub open spec fn taken_relations(
    relations: Seq<RelationSpan>,
    upserted: Seq<UpsertedSpan>,
) -> Seq<RelationSpan>
    decreases relations.len(),
{
    if relations.len() == 0 {
        Seq::empty()
    } else {
        let front = taken_relations(relations.drop_last(), upserted);
        let r = relations.last();
        if !unsure_relation(r) && resolved(r, upserted) {
            front.push(r)
        } else {
            front
        }
    }
}

/// How many relations are too unsure.
pub open spec fn unsure_count(relations: Seq<RelationSpan>) -> nat
    decreases relations.len(),
{
    if relations.len() == 0 {
        0
    } else {
        unsure_count(relations.drop_last()) + if unsure_relation(relations.last()) {
            1nat
        } else {
            0
        }
    }
}

/// The facts to write, and how many relations were left out for which reason.
#[derive(Debug, PartialEq, Eq)]
pub struct FactPlan {
    pub writes: Vec<FactWrite>,
    pub skipped_low_confidence: usize,
    pub skipped_unresolved_entity: usize,
}

/// The fact that a relation becomes.
pub open spec fn writes_relation(
    w: FactWrite,
    r: RelationSpan,
    upserted: Seq<UpsertedSpan>,
    valid_from: Timestamp,
    source_chat_id: Seq<char>,
) -> bool {
    &&& w.relation == r
    &&& id_of(upserted, r.subject@) == Some(w.subject_id@)
    &&& id_of(upserted, r.object@) == Some(w.object_id@)
    &&& w.valid_from == valid_from
    &&& w.source_chat_id@ == source_chat_id
}

/// Which relations become facts: those that are sure enough and whose two ends
/// were put into the graph.
pub fn plan_facts(
    relations: &Vec<RelationSpan>,
    upserted: &Vec<UpsertedSpan>,
    valid_from: Timestamp,
    source_chat_id: &str,
) -> (r: FactPlan)
    ensures
        r.writes@.len() == taken_relations(relations@, upserted@).len(),
        forall|i: int|
            0 <= i < r.writes@.len() ==> writes_relation(
                #[trigger] r.writes@[i],
                taken_relations(relations@, upserted@)[i],
                upserted@,
                valid_from,
                source_chat_id@,
            ),
        r.skipped_low_confidence == unsure_count(relations@),
        r.skipped_low_confidence + r.skipped_unresolved_entity + r.writes@.len()
            == relations@.len(),
{
    let mut writes: Vec<FactWrite> = Vec::new();
    let mut unsure: usize = 0;
    let mut unresolved: usize = 0;
    let ghost all = relations@;
    let mut i: usize = 0;
    assert(all.take(0) =~= Seq::<RelationSpan>::empty());
    while i < relations.len()
        invariant
            i <= relations.len(),
            all == relations@,
            writes@.len() == taken_relations(all.take(i as int), upserted@).len(),
            forall|k: int|
                0 <= k < writes@.len() ==> writes_relation(
                    #[trigger] writes@[k],
                    taken_relations(all.take(i as int), upserted@)[k],
                    upserted@,
                    valid_from,
                    source_chat_id@,
                ),
            unsure == unsure_count(all.take(i as int)),
            unsure + unresolved + writes@.len() == i,
        decreases relations.len() - i,
    {
        let rel = &relations[i];
        assert(all.take(i + 1).drop_last() =~= all.take(i as int));
        assert(all.take(i + 1).last() == all[i as int]);
        if rel.probability.is_less(Probability { bits: extraction::MIN_RELATION_CONFIDENCE }) {
            unsure += 1;
        } else {
            let subject = find_id(upserted, rel.subject.as_str());
            let object = find_id(upserted, rel.object.as_str());
            match (subject, object) {
                (Some(subject_id), Some(object_id)) => {
                    writes.push(
                        FactWrite {
                            subject_id,
                            object_id,
                            valid_from,
                            source_chat_id: source_chat_id.to_owned(),
                            relation: rel.clone(),
                        },
                    );
                },
                _ => {
                    unresolved += 1;
                },
            }
        }
        i += 1;
    }
    assert(all.take(i as int) =~= all);
    FactPlan {
        writes,
        skipped_low_confidence: unsure,
        skipped_unresolved_entity: unresolved,
    }
}

/// A fact that was written, with the id it was given.
pub fn fact_written(write: FactWrite, fact_id: String) -> (r: FactWritten)
    ensures
        r == (FactWritten {
            fact_id,
            subject: write.relation.subject,
            predicate: write.relation.predicate,
            object: write.relation.object,
            confidence: write.relation.probability,
        }),
{
    FactWritten {
        fact_id,
        subject: write.relation.subject,
        predicate: write.relation.predicate,
        object: write.relation.object,
        confidence: write.relation.probability,
    }
}

/// What came of a message, once its entities and facts are in the graph: what was
/// too unsure counts whether it was an entity or a relation.
pub fn run_extract_facts(
    entities: Vec<UpsertedSpan>,
    facts: Vec<FactWritten>,
    unsure_entities: usize,
    unsure_relations: usize,
    unresolved_relations: usize,
) -> (r: ExtractFactsResult)
    requires
        unsure_entities + unsure_relations <= usize::MAX,
    ensures
        r == (ExtractFactsResult {
            entities,
            facts,
            skipped_low_confidence: (unsure_entities + unsure_relations) as usize,
            skipped_unresolved_entity: unresolved_relations,
        }),
{
    ExtractFactsResult {
        entities,
        facts,
        skipped_low_confidence: unsure_entities + unsure_relations,
        skipped_unresolved_entity: unresolved_relations,
    }
}

/// Nothing is lost: each relation is written, too unsure, or without an entity
/// at one of its ends.
pub proof fn law_every_relation_is_accounted_for(
    relations: Seq<RelationSpan>,
    upserted: Seq<UpsertedSpan>,
    r: RelationSpan,
)
    requires
        relations.contains(r),
    ensures
        taken_relations(relations, upserted).contains(r) || unsure_relation(r) || !resolved(
            r,
            upserted,
        ),
    decreases relations.len(),
{
    let i = choose|i: int| 0 <= i < relations.len() && relations[i] == r;
    let front = taken_relations(relations.drop_last(), upserted);
    let all = taken_relations(relations, upserted);
    if i == relations.len() - 1 {
        if !unsure_relation(r) && resolved(r, upserted) {
            assert(all[all.len() - 1] == r);
        }
    } else {
        assert(relations.drop_last()[i] == r);
        law_every_relation_is_accounted_for(relations.drop_last(), upserted, r);
        if front.contains(r) {
            let k = choose|k: int| 0 <= k < front.len() && front[k] == r;
            assert(all[k] == r);
        }
    }
}

/// Every fact written stands between two entities of the message.
pub proof fn law_facts_join_known_entities(
    relations: Seq<RelationSpan>,
    upserted: Seq<UpsertedSpan>,
    i: int,
)
    requires
        0 <= i < taken_relations(relations, upserted).len(),
    ensures
        resolved(taken_relations(relations, upserted)[i], upserted),
        !unsure_relation(taken_relations(relations, upserted)[i]),
    decreases relations.len(),
{
    let front = taken_relations(relations.drop_last(), upserted);
    if i < front.len() {
        law_facts_join_known_entities(relations.drop_last(), upserted, i);
    }
}

/// What is just as sure as it must be is taken, what is less sure is not: an entity from
/// one half on, each in its order.
pub proof fn law_sure_entities_are_taken(entities: Seq<EntitySpan>, e: EntitySpan)
    ensures
        e.probability.less(Probability { bits: extraction::MIN_ENTITY_CONFIDENCE })
            ==> taken_entities(entities.push(e)) == taken_entities(entities),
        !e.probability.less(Probability { bits: extraction::MIN_ENTITY_CONFIDENCE })
            ==> taken_entities(entities.push(e)) == taken_entities(entities).push(e),
        taken_entities(Seq::empty()).len() == 0,
{
    assert(entities.push(e).drop_last() =~= entities);
}

/// A relation becomes a fact just where it is sure enough and both its ends were put into
/// the graph; facts come in the order of the relations.
pub proof fn law_sure_relations_become_facts(
    relations: Seq<RelationSpan>,
    upserted: Seq<UpsertedSpan>,
    r: RelationSpan,
)
    ensures
        ({
            let sure = !r.probability.less(
                Probability { bits: extraction::MIN_RELATION_CONFIDENCE },
            );
            let known = (exists|i: int|
                0 <= i < upserted.len() && (#[trigger] upserted[i]).text@ == r.subject@) && (exists|
                i: int,
            |
                0 <= i < upserted.len() && (#[trigger] upserted[i]).text@ == r.object@);
            let before = taken_relations(relations, upserted);
            let after = taken_relations(relations.push(r), upserted);
            if sure && known {
                after == before.push(r)
            } else {
                after == before
            }
        }),
        unsure_count(relations.push(r)) == unsure_count(relations) + (if r.probability.less(
            Probability { bits: extraction::MIN_RELATION_CONFIDENCE },
        ) {
            1int
        } else {
            0int
        }),
{
    assert(relations.push(r).drop_last() =~= relations);
    law_ids_are_those_of_the_text(upserted, r.subject@);
    law_ids_are_those_of_the_text(upserted, r.object@);
}

/// An end of a relation is the entity with its text: the last one of that text, and none
/// where no entity has it.
pub proof fn law_ids_are_those_of_the_text(upserted: Seq<UpsertedSpan>, name: Seq<char>)
    ensures
        match id_of(upserted, name) {
            Some(id) => exists|i: int|
                0 <= i < upserted.len() && (#[trigger] upserted[i]).text@ == name
                    && upserted[i].entity_id@ == id && forall|j: int|
                    i < j < upserted.len() ==> (#[trigger] upserted[j]).text@ != name,
            None => forall|j: int|
                0 <= j < upserted.len() ==> (#[trigger] upserted[j]).text@ != name,
        },
    decreases upserted.len(),
{
    if upserted.len() > 0 {
        let front = upserted.drop_last();
        law_ids_are_those_of_the_text(front, name);
        let last = upserted[upserted.len() - 1];
        if last.text@ != name {
            if id_of(upserted, name) is Some {
                let id = id_of(upserted, name)->0;
                let i = choose|i: int|
                    0 <= i < front.len() && (#[trigger] front[i]).text@ == name
                        && front[i].entity_id@ == id && forall|j: int|
                        i < j < front.len() ==> (#[trigger] front[j]).text@ != name;
                assert(upserted[i] == front[i]);
                assert forall|j: int| i < j < upserted.len() implies (
                #[trigger] upserted[j]).text@ != name by {
                    if j < front.len() {
                        assert(upserted[j] == front[j]);
                    }
                }
            } else {
                assert forall|j: int| 0 <= j < upserted.len() implies (
                #[trigger] upserted[j]).text@ != name by {
                    if j < front.len() {
                        assert(upserted[j] == front[j]);
                    }
                }
            }
        }
    }
}

/// A fact runs from the subject of its relation to the object, never the other way.
pub proof fn law_facts_keep_their_direction(
    w: FactWrite,
    r: RelationSpan,
    upserted: Seq<UpsertedSpan>,
    valid_from: Timestamp,
    source_chat_id: Seq<char>,
)
    requires
        writes_relation(w, r, upserted, valid_from, source_chat_id),
    ensures
        exists|i: int|
            0 <= i < upserted.len() && (#[trigger] upserted[i]).text@ == r.subject@
                && upserted[i].entity_id@ == w.subject_id@,
        exists|i: int|
            0 <= i < upserted.len() && (#[trigger] upserted[i]).text@ == r.object@
                && upserted[i].entity_id@ == w.object_id@,
        w.relation.predicate@ == r.predicate@,
        w.valid_from == valid_from,
        w.source_chat_id@ == source_chat_id,
{
    law_ids_are_those_of_the_text(upserted, r.subject@);
    law_ids_are_those_of_the_text(upserted, r.object@);
}

/// Spans come row by row, in their order.
pub proof fn law_spans_come_row_by_row(rows: Seq<Vec<EntitySpan>>, row: Vec<EntitySpan>)
    ensures
        flattened(rows.push(row)) == flattened(rows) + row@,
        flattened(Seq::empty()).len() == 0,
{
    assert(rows.push(row).drop_last() =~= rows);
}

} // verus!
