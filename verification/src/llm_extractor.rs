//! Facts drawn from text by a language model: the prompt, and what becomes of
//! the answer.
use vstd::prelude::*;
use crate::datetime::Timestamp;
use crate::datetime;
use crate::extraction::EntityView;
use crate::extraction::ExtractedEntity;
use crate::extraction::ExtractedRelation;
use crate::extraction::Extraction;
use crate::extraction::Probability;
use crate::extraction::RelationView;
use crate::extraction;
use crate::memory;
use crate::text;

verus! {

broadcast use vstd::string::group_string_axioms;

/// The bits of 0.9, which everything a language model says is taken to be: it
/// gives no probabilities of its own.
pub const LLM_CONFIDENCE: u32 = 0x3F66_6666;

/// The prompt for a message.
pub open spec fn prompt_text(message: Seq<char>) -> Seq<char> {
    "You extract structured facts from a personal note. Output ONLY a JSON object, no prose, of exactly this shape:\n{\"entities\":[{\"name\":string,\"type\":string,\"is_self\":boolean}],\"relations\":[{\"subject\":string,\"predicate\":string,\"object\":string,\"valid_from\":string|null,\"valid_to\":string|null,\"current\":boolean}]}\n\nRules:\n- \"type\" is one of: person, organization, project, task, meeting, event, topic, location, date.\n- is_self is true ONLY for the note-taker — entities the text calls \"I\", \"me\", \"we\", \"my\", \"our\". Always name that entity \"Me\".\n- Resolve pronouns: when \"he\"/\"she\"/\"they\" refers to a named person, use that person's name as the subject or object.\n- predicate is a short snake_case verb phrase, e.g. works_at, attended, owns_task, leads, advocates_for, due_on, member_of, manages, knows.\n- Every relation's subject and object MUST each match an entity \"name\".\n- valid_from / valid_to: a year (\"2019\") or a date the text states, otherwise null.\n- current: false when the fact is past or no longer true (\"worked at\", \"used to\", \"former\"), true otherwise.\n\nThe block below shows ONLY the output format. Its names and facts are unrelated to the real note — never copy them into your answer.\n[FORMAT EXAMPLE — DO NOT COPY ITS CONTENT]\ninput: \"Talked to Dana today. She used to work at Stripe until 2022. Remind me to renew my passport.\"\noutput: {\"entities\":[{\"name\":\"Me\",\"type\":\"person\",\"is_self\":true},{\"name\":\"Dana\",\"type\":\"person\",\"is_self\":false},{\"name\":\"Stripe\",\"type\":\"organization\",\"is_self\":false},{\"name\":\"renew passport\",\"type\":\"task\",\"is_self\":false}],\"relations\":[{\"subject\":\"Dana\",\"predicate\":\"works_at\",\"object\":\"Stripe\",\"valid_from\":null,\"valid_to\":\"2022\",\"current\":false},{\"subject\":\"Me\",\"predicate\":\"owns_task\",\"object\":\"renew passport\",\"valid_from\":null,\"valid_to\":null,\"current\":true}]}\n[END EXAMPLE]\n\nNow extract ONLY from this real note, ignoring the example's content entirely:\n\""@
        + message
        + "\"\nJSON:"@
}

/// The prompt that asks for the facts in a message.
pub fn build_prompt(message: &str) -> (r: String)
    ensures
        r@ == prompt_text(message@),
{
    let mut s = String::from_str("You extract structured facts from a personal note. Output ONLY a JSON object, no prose, of exactly this shape:\n{\"entities\":[{\"name\":string,\"type\":string,\"is_self\":boolean}],\"relations\":[{\"subject\":string,\"predicate\":string,\"object\":string,\"valid_from\":string|null,\"valid_to\":string|null,\"current\":boolean}]}\n\nRules:\n- \"type\" is one of: person, organization, project, task, meeting, event, topic, location, date.\n- is_self is true ONLY for the note-taker — entities the text calls \"I\", \"me\", \"we\", \"my\", \"our\". Always name that entity \"Me\".\n- Resolve pronouns: when \"he\"/\"she\"/\"they\" refers to a named person, use that person's name as the subject or object.\n- predicate is a short snake_case verb phrase, e.g. works_at, attended, owns_task, leads, advocates_for, due_on, member_of, manages, knows.\n- Every relation's subject and object MUST each match an entity \"name\".\n- valid_from / valid_to: a year (\"2019\") or a date the text states, otherwise null.\n- current: false when the fact is past or no longer true (\"worked at\", \"used to\", \"former\"), true otherwise.\n\nThe block below shows ONLY the output format. Its names and facts are unrelated to the real note — never copy them into your answer.\n[FORMAT EXAMPLE — DO NOT COPY ITS CONTENT]\ninput: \"Talked to Dana today. She used to work at Stripe until 2022. Remind me to renew my passport.\"\noutput: {\"entities\":[{\"name\":\"Me\",\"type\":\"person\",\"is_self\":true},{\"name\":\"Dana\",\"type\":\"person\",\"is_self\":false},{\"name\":\"Stripe\",\"type\":\"organization\",\"is_self\":false},{\"name\":\"renew passport\",\"type\":\"task\",\"is_self\":false}],\"relations\":[{\"subject\":\"Dana\",\"predicate\":\"works_at\",\"object\":\"Stripe\",\"valid_from\":null,\"valid_to\":\"2022\",\"current\":false},{\"subject\":\"Me\",\"predicate\":\"owns_task\",\"object\":\"renew passport\",\"valid_from\":null,\"valid_to\":null,\"current\":true}]}\n[END EXAMPLE]\n\nNow extract ONLY from this real note, ignoring the example's content entirely:\n\"");
    s.append(message);
    s.append("\"\nJSON:");
    s
}

/// The object in a text: from the first opening brace to the last closing one;
/// the text itself, trimmed, where it holds none.
pub open spec fn object_in(raw: Seq<char>) -> Seq<char> {
    let t = text::trimmed(raw);
    match (text::index_of(t, '{'), text::last_index_of(t, '}')) {
        (Some(start), Some(end)) => if end > start {
            t.subrange(start, end + 1)
        } else {
            t
        },
        _ => t,
    }
}

/// The JSON object in an answer, without fences and prose around it.
pub fn extract_json_object<'a>(raw: &'a str) -> (r: &'a str)
    ensures
        r@ == object_in(raw@),
{
    let trimmed = text::trim(raw);
    let cs = text::chars_of(trimmed);
    let first = text::find_char(cs.as_slice(), '{');
    let last = text::find_last_char(cs.as_slice(), '}');
    match (first, last) {
        (Some(start), Some(end)) => {
            if end > start {
                trimmed.substring_char(start, end + 1)
            } else {
                trimmed
            }
        },
        _ => trimmed,
    }
}

/// An entity as the model writes it.
#[derive(Debug, PartialEq, Eq)]
pub struct LlmEntity {
    pub name: String,
    pub entity_type: String,
    pub is_self: bool,
}

/// A relation as the model writes it.
#[derive(Debug, PartialEq, Eq)]
pub struct LlmRelation {
    pub subject: String,
    pub predicate: String,
    pub object: String,
    pub valid_from: Option<String>,
    pub valid_to: Option<String>,
    /// Whether it still holds; so it does where the model does not say.
    pub current: bool,
}

/// An answer as the model writes it.
#[derive(Debug, PartialEq, Eq)]
pub struct LlmExtraction {
    pub entities: Vec<LlmEntity>,
    pub relations: Vec<LlmRelation>,
}

/// The type that an entity is given: its own, where that is one, else `topic`.
pub open spec fn entity_type(raw: Seq<char>) -> Seq<char> {
    let t = text::lowercase(text::trimmed(raw));
    if extraction::label_names().contains(t) {
        t
    } else {
        "topic"@
    }
}

/// The type that an entity is given; one that is unknown is a topic.
pub fn normalize_entity_type(raw: &str) -> (r: String)
    ensures
        r@ == entity_type(raw@),
{
    let t = text::to_lowercase(text::trim(raw));
    if extraction::is_entity_label(t.as_str()) {
        t
    } else {
        "topic".to_owned()
    }
}

/// The word means the present.
pub open spec fn means_now(t: Seq<char>) -> bool {
    t == "today"@ || t == "now"@ || t == "tonight"@
}

/// The instant that a text means, at the instant `now`.
pub open spec fn when_meant(raw: Seq<char>, now: Timestamp) -> Option<Timestamp> {
    let t = text::trimmed(raw);
    if t.len() == 0 {
        None
    } else if means_now(text::lowercase(t)) {
        Some(now)
    } else {
        dated(t, datetime::rfc3339_instant(t), datetime::ymd_date(t))
    }
}

/// The instant of a text that chrono reads as `instant` or as `date`: that
/// instant, else the day's midnight, else the first year in the text.
pub open spec fn dated(
    t: Seq<char>,
    instant: Option<Timestamp>,
    date: Option<datetime::Date>,
) -> Option<Timestamp> {
    match instant {
        Some(i) => Some(i),
        None => match date {
            Some(d) => Some(Timestamp { secs: datetime::day_start(d) as i64, nanos: 0 }),
            None => extraction::year_start_in(t),
        },
    }
}

/// The instant of a text, given what chrono reads it as.
pub fn date_of(t: &str, instant: Option<Timestamp>, date: Option<datetime::Date>) -> (r: Option<
    Timestamp,
>)
    requires
        instant matches Some(i) ==> i.wf(),
        date matches Some(d) ==> d.wf(),
    ensures
        r == dated(t@, instant, date),
        r matches Some(i) ==> i.wf(),
{
    match instant {
        Some(i) => Some(i),
        None => match date {
            Some(d) => Some(datetime::midnight(d)),
            None => extraction::parse_year_start(t),
        },
    }
}

/// The instant that a text means: the present, a time stamp, a day, or the
/// beginning of a year.
pub fn parse_when(raw: &str, now: Timestamp) -> (r: Option<Timestamp>)
    requires
        now.wf(),
    ensures
        r == when_meant(raw@, now),
        r matches Some(t) ==> t.wf(),
{
    let t = text::trim(raw);
    if t.is_empty() {
        return None;
    }
    let lower = text::to_lowercase(t);
    if text::same(lower.as_str(), "today") || text::same(lower.as_str(), "now") || text::same(
        lower.as_str(),
        "tonight",
    ) {
        return Some(now);
    }
    date_of(t, datetime::read_rfc3339(t), datetime::read_ymd(t))
}

/// The instant that an optional text means.
pub open spec fn opt_when(raw: Option<String>, now: Timestamp) -> Option<Timestamp> {
    match raw {
        Some(s) => when_meant(s@, now),
        None => None,
    }
}

fn parse_opt_when(raw: &Option<String>, now: Timestamp) -> (r: Option<Timestamp>)
    requires
        now.wf(),
    ensures
        r == opt_when(*raw, now),
        r matches Some(t) ==> t.wf(),
{
    match raw {
        Some(s) => parse_when(s.as_str(), now),
        None => None,
    }
}

/// The entity that the model means, if it has a name.
pub open spec fn entity_meant(e: LlmEntity) -> Option<EntityView> {
    if text::trimmed(e.name@).len() == 0 {
        None
    } else {
        Some(
            EntityView {
                name: text::trimmed(e.name@),
                entity_type: entity_type(e.entity_type@),
                is_self: e.is_self,
                confidence: Probability { bits: LLM_CONFIDENCE },
            },
        )
    }
}

/// The relation that the model means, if it has two ends and a predicate of
/// which letters or digits are left. One that no longer holds has an end: the
/// one given, else its start, else the present.
pub open spec fn relation_meant(r: LlmRelation, now: Timestamp) -> Option<RelationView> {
    let predicate = memory::slug(r.predicate@);
    let from = opt_when(r.valid_from, now);
    let to = opt_when(r.valid_to, now);
    if text::trimmed(r.subject@).len() == 0 || text::trimmed(r.predicate@).len() == 0
        || text::trimmed(r.object@).len() == 0 || predicate.len() == 0 {
        None
    } else {
        Some(
            RelationView {
                subject: text::trimmed(r.subject@),
                predicate,
                object: text::trimmed(r.object@),
                valid_from: from,
                valid_to: if !r.current && to is None {
                    match from {
                        Some(f) => Some(f),
                        None => Some(now),
                    }
                } else {
                    to
                },
                confidence: Probability { bits: LLM_CONFIDENCE },
            },
        )
    }
}

/// The entities that the model means.
pub open spec fn entities_meant(v: Seq<LlmEntity>) -> Seq<EntityView>
    decreases v.len(),
{
    if v.len() == 0 {
        Seq::empty()
    } else {
        match entity_meant(v.last()) {
            Some(e) => entities_meant(v.drop_last()).push(e),
            None => entities_meant(v.drop_last()),
        }
    }
}

/// The relations that the model means.
pub open spec fn relations_meant(v: Seq<LlmRelation>, now: Timestamp) -> Seq<RelationView>
    decreases v.len(),
{
    if v.len() == 0 {
        Seq::empty()
    } else {
        match relation_meant(v.last(), now) {
            Some(r) => relations_meant(v.drop_last(), now).push(r),
            None => relations_meant(v.drop_last(), now),
        }
    }
}

fn take_entity(e: &LlmEntity) -> (r: Option<ExtractedEntity>)
    ensures
        match r {
            Some(x) => entity_meant(*e) == Some(x@) && x.name@ == text::trimmed(e.name@)
                && x.is_self == e.is_self,
            None => entity_meant(*e) is None && text::trimmed(e.name@).len() == 0,
        },
{
    let name = text::trim(e.name.as_str());
    if name.is_empty() {
        None
    } else {
        Some(
            ExtractedEntity {
                name: name.to_owned(),
                entity_type: normalize_entity_type(e.entity_type.as_str()),
                is_self: e.is_self,
                confidence: Probability { bits: LLM_CONFIDENCE },
            },
        )
    }
}

fn take_relation(r: &LlmRelation, now: Timestamp) -> (x: Option<ExtractedRelation>)
    requires
        now.wf(),
    ensures
        match x {
            Some(y) => {
                &&& relation_meant(*r, now) == Some(y@)
                &&& y.subject@ == text::trimmed(r.subject@)
                &&& y.predicate@ == memory::slug(r.predicate@)
                &&& y.object@ == text::trimmed(r.object@)
            },
            None => relation_meant(*r, now) is None,
        },
{
    let subject = text::trim(r.subject.as_str());
    let object = text::trim(r.object.as_str());
    if subject.is_empty() || text::trim(r.predicate.as_str()).is_empty() || object.is_empty() {
        return None;
    }
    let predicate = memory::slugify(r.predicate.as_str());
    if predicate.as_str().is_empty() {
        return None;
    }
    let valid_from = parse_opt_when(&r.valid_from, now);
    let mut valid_to = parse_opt_when(&r.valid_to, now);
    if !r.current && valid_to.is_none() {
        valid_to = match valid_from {
            Some(f) => Some(f),
            None => Some(now),
        };
    }
    Some(
        ExtractedRelation {
            subject: subject.to_owned(),
            predicate,
            object: object.to_owned(),
            valid_from,
            valid_to,
            confidence: Probability { bits: LLM_CONFIDENCE },
        },
    )
}

impl LlmExtraction {
    /// What the model means, at the instant `now`: without entities that have no
    /// name and relations that lack an end or a predicate.
    pub fn into_extraction(self, now: Timestamp) -> (r: Extraction)
        requires
            now.wf(),
        ensures
            extraction::entity_views(r.entities@) == entities_meant(self.entities@),
            extraction::relation_views(r.relations@) == relations_meant(self.relations@, now),
            forall|k: int|
                0 <= k < r.relations@.len() ==> drawn_from(
                    (#[trigger] r.relations@[k])@,
                    self.relations@,
                    now,
                ),
    {
        let mut entities: Vec<ExtractedEntity> = Vec::new();
        let mut i: usize = 0;
        assert(self.entities@.take(0) =~= Seq::<LlmEntity>::empty());
        assert(extraction::entity_views(entities@) =~= Seq::<EntityView>::empty());
        while i < self.entities.len()
            invariant
                i <= self.entities.len(),
                extraction::entity_views(entities@) == entities_meant(
                    self.entities@.take(i as int),
                ),
            decreases self.entities.len() - i,
        {
            assert(self.entities@.take(i + 1).drop_last() =~= self.entities@.take(i as int));
            assert(self.entities@.take(i + 1).last() == self.entities@[i as int]);
            match take_entity(&self.entities[i]) {
                Some(e) => {
                    let ghost before = entities@;
                    let ghost v = e@;
                    entities.push(e);
                    assert(extraction::entity_views(entities@) =~= extraction::entity_views(
                        before,
                    ).push(v));
                },
                None => {},
            }
            i += 1;
        }
        assert(self.entities@.take(i as int) =~= self.entities@);
        let mut relations: Vec<ExtractedRelation> = Vec::new();
        let mut j: usize = 0;
        assert(self.relations@.take(0) =~= Seq::<LlmRelation>::empty());
        assert(extraction::relation_views(relations@) =~= Seq::<RelationView>::empty());
        while j < self.relations.len()
            invariant
                now.wf(),
                j <= self.relations.len(),
                extraction::relation_views(relations@) == relations_meant(
                    self.relations@.take(j as int),
                    now,
                ),
            decreases self.relations.len() - j,
        {
            assert(self.relations@.take(j + 1).drop_last() =~= self.relations@.take(j as int));
            assert(self.relations@.take(j + 1).last() == self.relations@[j as int]);
            match take_relation(&self.relations[j], now) {
                Some(x) => {
                    let ghost before = relations@;
                    let ghost v = x@;
                    relations.push(x);
                    assert(extraction::relation_views(relations@) =~= extraction::relation_views(
                        before,
                    ).push(v));
                },
                None => {},
            }
            j += 1;
        }
        assert(self.relations@.take(j as int) =~= self.relations@);
        proof {
            let views = extraction::relation_views(relations@);
            assert forall|k: int| 0 <= k < relations@.len() implies drawn_from(
                (#[trigger] relations@[k])@,
                self.relations@,
                now,
            ) by {
                assert(views[k] == relations@[k]@);
                law_relations_keep_their_direction(self.relations@, now, k);
            }
        }
        Extraction { entities, relations }
    }
}

/// A relation that no longer holds is a closed interval.
pub proof fn law_former_facts_have_an_end(r: LlmRelation, now: Timestamp)
    requires
        !r.current,
    ensures
        relation_meant(r, now) matches Some(v) ==> v.valid_to is Some,
{
}

/// An entity always has one of the known types.
pub proof fn law_entity_types_are_known(e: LlmEntity)
    ensures
        entity_meant(e) matches Some(v) ==> extraction::label_names().contains(v.entity_type),
{
    assert(extraction::label_names()[5] == "topic"@);
}

/// A relation says what the model's relation says: the same two ends in the same
/// direction, without the white space around them, and the interval that it states.
pub open spec fn comes_from(v: RelationView, r: LlmRelation, now: Timestamp) -> bool {
    &&& v.subject == text::trimmed(r.subject@)
    &&& v.object == text::trimmed(r.object@)
    &&& v.predicate == memory::slug(r.predicate@)
    &&& v.valid_from == match r.valid_from {
        Some(s) => when_meant(s@, now),
        None => None,
    }
    &&& r.current ==> v.valid_to == match r.valid_to {
        Some(s) => when_meant(s@, now),
        None => None,
    }
}

/// A relation comes from one of the model's.
pub open spec fn drawn_from(v: RelationView, relations: Seq<LlmRelation>, now: Timestamp) -> bool {
    exists|i: int| 0 <= i < relations.len() && #[trigger] comes_from(v, relations[i], now)
}

/// Every relation that is taken over keeps the direction of the model's relation that
/// it comes from: its subject is that relation's subject and its object that
/// relation's object, both without the white space around them.
pub proof fn law_relations_keep_their_direction(v: Seq<LlmRelation>, now: Timestamp, k: int)
    requires
        0 <= k < relations_meant(v, now).len(),
    ensures
        exists|i: int|
            0 <= i < v.len() && relations_meant(v, now)[k].subject == text::trimmed(
                (#[trigger] v[i]).subject@,
            ) && relations_meant(v, now)[k].object == text::trimmed(v[i].object@)
                && relations_meant(v, now)[k].predicate == memory::slug(v[i].predicate@),
        drawn_from(relations_meant(v, now)[k], v, now),
    decreases v.len(),
{
    let front = v.drop_last();
    if k < relations_meant(front, now).len() {
        law_relations_keep_their_direction(front, now, k);
        let i = choose|i: int|
            0 <= i < front.len() && #[trigger] comes_from(
                relations_meant(front, now)[k],
                front[i],
                now,
            );
        assert(comes_from(relations_meant(v, now)[k], v[i], now));
    } else {
        assert(comes_from(relations_meant(v, now)[k], v[v.len() - 1], now));
    }
}

/// A relation is taken over just where it has two ends and a predicate with letters or
/// digits in it, behind those that came before it; one that is not leaves the others
/// as they are.
pub proof fn law_relations_are_taken_in_order(v: Seq<LlmRelation>, r: LlmRelation, now: Timestamp)
    ensures
        ({
            let before = relations_meant(v, now);
            let after = relations_meant(v.push(r), now);
            if text::trimmed(r.subject@).len() > 0 && text::trimmed(r.object@).len() > 0
                && text::trimmed(r.predicate@).len() > 0 && memory::slug(r.predicate@).len() > 0 {
                &&& after.len() == before.len() + 1
                &&& after.drop_last() == before
                &&& after.last().subject == text::trimmed(r.subject@)
                &&& after.last().object == text::trimmed(r.object@)
            } else {
                after == before
            }
        }),
{
    assert(v.push(r).drop_last() =~= v);
    let after = relations_meant(v.push(r), now);
    if after.len() > relations_meant(v, now).len() {
        assert(after.drop_last() =~= relations_meant(v, now));
    }
}

/// Entities are taken over in their order, each under its own name and as the
/// note-taker just where the model says so; one without a name is left out.
pub proof fn law_entities_are_taken_in_order(v: Seq<LlmEntity>, e: LlmEntity)
    ensures
        ({
            let before = entities_meant(v);
            let after = entities_meant(v.push(e));
            if text::trimmed(e.name@).len() > 0 {
                &&& after.len() == before.len() + 1
                &&& after.drop_last() == before
                &&& after.last().name == text::trimmed(e.name@)
                &&& after.last().is_self == e.is_self
                &&& extraction::label_names().contains(
                    text::lowercase(text::trimmed(e.entity_type@)),
                ) ==> after.last().entity_type == text::lowercase(text::trimmed(e.entity_type@))
            } else {
                after == before
            }
        }),
{
    assert(v.push(e).drop_last() =~= v);
    let after = entities_meant(v.push(e));
    if after.len() > entities_meant(v).len() {
        assert(after.drop_last() =~= entities_meant(v));
    }
}

/// The interval of a relation is the one that the model states: a beginning is given
/// just where it states one that can be read, and an end that can be read is kept.
/// One that still holds has no other end; one that no longer holds ends, where no end
/// can be read, when it began, or now where that is not known either.
pub proof fn law_intervals_are_as_stated(r: LlmRelation, now: Timestamp)
    ensures
        relation_meant(r, now) matches Some(v) ==> {
            &&& r.valid_from is None ==> v.valid_from is None
            &&& r.valid_from matches Some(s) ==> v.valid_from == when_meant(s@, now)
            &&& r.valid_to matches Some(s) ==> (when_meant(s@, now) is Some ==> v.valid_to
                == when_meant(s@, now))
            &&& r.current && r.valid_to is None ==> v.valid_to is None
            &&& !r.current && r.valid_to is None && v.valid_from is Some ==> v.valid_to
                == v.valid_from
            &&& !r.current && r.valid_to is None && v.valid_from is None ==> v.valid_to == Some(now)
        },
{
}

/// White space around a date changes nothing, words for the present mean now, and what
/// is a time stamp means the instant that it names.
pub proof fn law_dates_mean_what_they_name(raw: Seq<char>, now: Timestamp)
    ensures
        when_meant(text::trimmed(raw), now) == when_meant(raw, now),
        text::trimmed(raw).len() == 0 ==> when_meant(raw, now) is None,
        text::lowercase(text::trimmed(raw)) == "now"@ || text::lowercase(text::trimmed(raw))
            == "today"@ || text::lowercase(text::trimmed(raw)) == "tonight"@ ==> when_meant(
            raw,
            now,
        ) == (if text::trimmed(raw).len() == 0 {
            None
        } else {
            Some(now)
        }),
        text::trimmed(raw).len() > 0 && !means_now(text::lowercase(text::trimmed(raw))) ==> (
        datetime::rfc3339_instant(text::trimmed(raw)) is Some ==> when_meant(raw, now)
            == datetime::rfc3339_instant(text::trimmed(raw))),
{
    text::lemma_trimmed_twice(raw);
}

/// What stands around an object in an answer does not matter: the object is what lies
/// from the first opening brace to the last closing one, with both.
pub proof fn law_prose_around_the_object_is_left_out(
    before: Seq<char>,
    inner: Seq<char>,
    after: Seq<char>,
)
    requires
        before.len() > 0 && !text::is_space(before[0]),
        after.len() > 0 && !text::is_space(after.last()),
        text::free_of(before, '{'),
        text::free_of(after, '}'),
    ensures
        object_in(before + (seq!['{'] + inner + seq!['}']) + after) == seq!['{'] + inner + seq!['}'],
        object_in(before) == text::trimmed(before),
{
    let object = seq!['{'] + inner + seq!['}'];
    let s = before + object + after;
    let none = Seq::<char>::empty();
    assert(s[0] == before[0]);
    assert(s.last() == after.last());
    text::law_trimming_takes_the_space_around(none, s, none);
    assert(none + s + none =~= s);
    assert(text::blank(none));
    let start = before.len() as int;
    let end = start + object.len() - 1;
    assert(s[start] == '{');
    assert forall|i: int| 0 <= i < start implies s[i] != '{' by {
        assert(before[i] != '{');
    }
    text::lemma_index_of_is(s, '{', start);
    text::law_last_place_is_the_last(before + seq!['{'] + inner, '}', after);
    assert(s =~= (before + seq!['{'] + inner) + seq!['}'] + after);
    assert(s.subrange(start, end + 1) =~= object);
    lemma_trimmed_free(before, '{');
    text::lemma_index_of(text::trimmed(before), '{');
}

proof fn lemma_trimmed_free(s: Seq<char>, c: char)
    requires
        text::free_of(s, c),
    ensures
        text::free_of(text::trimmed(s), c),
{
    lemma_start_free(s, c);
    lemma_end_free(text::trimmed_start(s), c);
}

proof fn lemma_start_free(s: Seq<char>, c: char)
    requires
        text::free_of(s, c),
    ensures
        text::free_of(text::trimmed_start(s), c),
    decreases s.len(),
{
    if s.len() > 0 && text::is_space(s[0]) {
        assert forall|i: int| 0 <= i < s.drop_first().len() implies s.drop_first()[i] != c by {
            assert(s[i + 1] != c);
        }
        lemma_start_free(s.drop_first(), c);
    }
}

proof fn lemma_end_free(s: Seq<char>, c: char)
    requires
        text::free_of(s, c),
    ensures
        text::free_of(text::trimmed_end(s), c),
    decreases s.len(),
{
    if s.len() > 0 && text::is_space(s.last()) {
        assert forall|i: int| 0 <= i < s.drop_last().len() implies s.drop_last()[i] != c by {
            assert(s[i] != c);
        }
        lemma_end_free(s.drop_last(), c);
    }
}

/// A time stamp goes before a day, and a day before a year in the text; a day means the
/// moment in which it begins.
pub proof fn law_days_mean_their_beginning(t: Seq<char>, i: Timestamp, d: datetime::Date)
    requires
        i64::MIN <= datetime::day_start(d) <= i64::MAX,
    ensures
        dated(t, Some(i), Some(d)) == Some(i) && dated(t, Some(i), None) == Some(i),
        dated(t, None, Some(d)) matches Some(w) && w.secs == datetime::day_start(d) && w.nanos == 0,
        dated(t, None, None) == extraction::year_start_in(t),
{
}

} // verus!
