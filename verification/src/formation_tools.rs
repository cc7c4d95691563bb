//! The tools that the agent reaches the graph through: what they are called
//! with, and what they answer.
use vstd::prelude::*;
use crate::datetime::Date;
use crate::datetime::Timestamp;
use crate::datetime;
use crate::error::AppError;
use crate::error;
use crate::extraction;
use crate::json::Json;
use crate::json::JsonModel;
use crate::json;
use crate::memory;
use crate::staging::Confidence;
use crate::staging::ExistingFact;
use crate::staging::FULL_CONFIDENCE_BITS;
use crate::staging::FactEdge;
use crate::tasks::ChecklistLine;
use crate::tasks::Task;
use crate::tasks::TaskStatus;
use crate::text;

verus! {

broadcast use vstd::string::group_string_axioms;

/// How many excerpts a search returns where nothing else is asked for.
pub const DEFAULT_SEARCH_K: u64 = 5;

/// How sure a fact is that the agent records: the bits of `1.0`.
pub const RECORDED_CONFIDENCE_BITS: u64 = FULL_CONFIDENCE_BITS;

/// What a turn's calls have in common.
#[derive(Debug, PartialEq, Eq)]
pub struct ToolContext {
    pub formation_root: String,
    /// The message that started the turn, the provenance of all it records.
    pub source_chat_id: String,
}

// ---------------------------------------------------------------------------
// What is said of the tools
// ---------------------------------------------------------------------------

/// What is said of a tool.
#[derive(Debug, PartialEq, Eq)]
pub struct ToolSchema {
    pub name: &'static str,
    pub description: &'static str,
    /// A JSON Schema.
    pub parameters: Json,
}

/// What a [`ToolSchema`] says.
pub struct ToolSchemaView {
    pub name: Seq<char>,
    pub description: Seq<char>,
    pub parameters: JsonModel,
}

impl View for ToolSchema {
    type V = ToolSchemaView;

    open spec fn view(&self) -> ToolSchemaView {
        ToolSchemaView {
            name: self.name@,
            description: self.description@,
            parameters: self.parameters.model(),
        }
    }
}

/// A parameter that is a text.
pub open spec fn text_prop(description: Seq<char>) -> JsonModel {
    JsonModel::Object(
        Map::empty().insert("type"@, JsonModel::Str("string"@)).insert(
            "description"@,
            JsonModel::Str(description),
        ),
    )
}

/// The parameter that says how many excerpts to return.
pub open spec fn count_prop() -> JsonModel {
    JsonModel::Object(
        Map::empty().insert("type"@, JsonModel::Str("integer"@)).insert(
            "description"@,
            JsonModel::Str("How many excerpts to return (default 5)."@),
        ).insert("minimum"@, JsonModel::Int(1)).insert("maximum"@, JsonModel::Int(50)),
    )
}

/// The schema of an object with these properties, some of them required.
pub open spec fn object_schema(
    properties: Map<Seq<char>, JsonModel>,
    required: Seq<JsonModel>,
) -> JsonModel {
    JsonModel::Object(
        Map::empty().insert("type"@, JsonModel::Str("object"@)).insert(
            "properties"@,
            JsonModel::Object(properties),
        ).insert("required"@, JsonModel::Array(required)),
    )
}

fn text_property(description: &str) -> (r: Json)
    ensures
        r.model() == text_prop(description@),
{
    json::object2("type", json::string("string"), "description", json::string(description))
}

fn count_property() -> (r: Json)
    ensures
        r.model() == count_prop(),
{
    let none: Vec<(String, Json)> = Vec::new();
    assert(json::members(none@) =~= Map::empty());
    let a = json::with(none, "type", json::string("integer"));
    let b = json::with(
        a,
        "description",
        json::string("How many excerpts to return (default 5)."),
    );
    let c = json::with(b, "minimum", Json::Int(1));
    Json::Object(json::with(c, "maximum", Json::Int(50)))
}

fn schema_object(properties: Vec<(String, Json)>, required: &Vec<&'static str>) -> (r: Json)
    ensures
        r.model() == object_schema(
            json::members(properties@),
            required@.map_values(|s: &'static str| JsonModel::Str(s@)),
        ),
{
    json::object3(
        "type",
        json::string("object"),
        "properties",
        Json::Object(properties),
        "required",
        json::strings(required),
    )
}

/// What is said of `search_notes`.
pub open spec fn search_notes_tool() -> ToolSchemaView {
    ToolSchemaView {
        name: "search_notes"@,
        description: "Semantic search over the formation's notes. Returns the most relevant note excerpts for a query."@,
        parameters: object_schema(
            Map::empty().insert("query"@, text_prop("What to search for, in natural language."@)).insert("k"@, count_prop()),
            seq![JsonModel::Str("query"@)],
        ),
    }
}

fn search_notes_schema() -> (r: ToolSchema)
    ensures
        r@ == search_notes_tool(),
{
    let none: Vec<(String, Json)> = Vec::new();
    assert(json::members(none@) =~= Map::empty());
    let p0 = json::with(none, "query", text_property("What to search for, in natural language."));
    let p1 = json::with(p0, "k", count_property());
    let required: Vec<&'static str> = vec!["query"];
    assert(required@.map_values(|s: &'static str| JsonModel::Str(s@)) =~= seq![JsonModel::Str("query"@)]);
    ToolSchema {
        name: "search_notes",
        description: "Semantic search over the formation's notes. Returns the most relevant note excerpts for a query.",
        parameters: schema_object(p1, &required),
    }
}

/// What is said of `find_entity`.
pub open spec fn find_entity_tool() -> ToolSchemaView {
    ToolSchemaView {
        name: "find_entity"@,
        description: "Look up an entity (person, organization, project, …) by name and return its current relationship Facts."@,
        parameters: object_schema(
            Map::empty().insert("name"@, text_prop("The entity's name."@)),
            seq![JsonModel::Str("name"@)],
        ),
    }
}

fn find_entity_schema() -> (r: ToolSchema)
    ensures
        r@ == find_entity_tool(),
{
    let none: Vec<(String, Json)> = Vec::new();
    assert(json::members(none@) =~= Map::empty());
    let p0 = json::with(none, "name", text_property("The entity's name."));
    let required: Vec<&'static str> = vec!["name"];
    assert(required@.map_values(|s: &'static str| JsonModel::Str(s@)) =~= seq![JsonModel::Str("name"@)]);
    ToolSchema {
        name: "find_entity",
        description: "Look up an entity (person, organization, project, …) by name and return its current relationship Facts.",
        parameters: schema_object(p0, &required),
    }
}

/// What is said of `related_facts`.
pub open spec fn related_facts_tool() -> ToolSchemaView {
    ToolSchemaView {
        name: "related_facts"@,
        description: "Return the current relationship Facts recorded for an entity — what it is connected to in the knowledge graph."@,
        parameters: object_schema(
            Map::empty().insert("entity"@, text_prop("The entity's name."@)),
            seq![JsonModel::Str("entity"@)],
        ),
    }
}

fn related_facts_schema() -> (r: ToolSchema)
    ensures
        r@ == related_facts_tool(),
{
    let none: Vec<(String, Json)> = Vec::new();
    assert(json::members(none@) =~= Map::empty());
    let p0 = json::with(none, "entity", text_property("The entity's name."));
    let required: Vec<&'static str> = vec!["entity"];
    assert(required@.map_values(|s: &'static str| JsonModel::Str(s@)) =~= seq![JsonModel::Str("entity"@)]);
    ToolSchema {
        name: "related_facts",
        description: "Return the current relationship Facts recorded for an entity — what it is connected to in the knowledge graph.",
        parameters: schema_object(p0, &required),
    }
}

/// What is said of `find_contradiction`.
pub open spec fn find_contradiction_tool() -> ToolSchemaView {
    ToolSchemaView {
        name: "find_contradiction"@,
        description: "Before recording a relationship, check whether it contradicts an existing current Fact (same subject and predicate, different object). Call this when a new statement might conflict with what is known."@,
        parameters: object_schema(
            Map::empty().insert("subject"@, text_prop("The entity the relationship is about."@)).insert("predicate"@, text_prop("The relationship type, e.g. works_at, reports_to."@)).insert("object"@, text_prop("The entity on the other end of the relationship."@)),
            seq![JsonModel::Str("subject"@), JsonModel::Str("predicate"@), JsonModel::Str("object"@)],
        ),
    }
}

fn find_contradiction_schema() -> (r: ToolSchema)
    ensures
        r@ == find_contradiction_tool(),
{
    let none: Vec<(String, Json)> = Vec::new();
    assert(json::members(none@) =~= Map::empty());
    let p0 = json::with(none, "subject", text_property("The entity the relationship is about."));
    let p1 = json::with(p0, "predicate", text_property("The relationship type, e.g. works_at, reports_to."));
    let p2 = json::with(p1, "object", text_property("The entity on the other end of the relationship."));
    let required: Vec<&'static str> = vec!["subject", "predicate", "object"];
    assert(required@.map_values(|s: &'static str| JsonModel::Str(s@)) =~= seq![JsonModel::Str("subject"@), JsonModel::Str("predicate"@), JsonModel::Str("object"@)]);
    ToolSchema {
        name: "find_contradiction",
        description: "Before recording a relationship, check whether it contradicts an existing current Fact (same subject and predicate, different object). Call this when a new statement might conflict with what is known.",
        parameters: schema_object(p2, &required),
    }
}

/// What is said of `record_fact`.
pub open spec fn record_fact_tool() -> ToolSchemaView {
    ToolSchemaView {
        name: "record_fact"@,
        description: "Record a relationship between two entities as a bi-temporal graph Fact. Use only for genuine entity→entity relationships; ordinary note details belong in the note text, not here."@,
        parameters: object_schema(
            Map::empty().insert("subject"@, text_prop("The entity the relationship is about."@)).insert("subject_type"@, text_prop("One of: person, organization, meeting, project, task, topic, location, date, event."@)).insert("predicate"@, text_prop("The relationship type, e.g. works_at, reports_to, lives_in."@)).insert("object"@, text_prop("The entity on the other end."@)).insert("object_type"@, text_prop("One of: person, organization, meeting, project, task, topic, location, date, event."@)).insert("valid_from"@, text_prop("When the relationship began (YYYY-MM-DD or RFC3339). Defaults to now."@)).insert("valid_to"@, text_prop("When the relationship ended, if it is historical (YYYY-MM-DD or RFC3339)."@)),
            seq![JsonModel::Str("subject"@), JsonModel::Str("subject_type"@), JsonModel::Str("predicate"@), JsonModel::Str("object"@), JsonModel::Str("object_type"@)],
        ),
    }
}

fn record_fact_schema() -> (r: ToolSchema)
    ensures
        r@ == record_fact_tool(),
{
    let none: Vec<(String, Json)> = Vec::new();
    assert(json::members(none@) =~= Map::empty());
    let p0 = json::with(none, "subject", text_property("The entity the relationship is about."));
    let p1 = json::with(p0, "subject_type", text_property("One of: person, organization, meeting, project, task, topic, location, date, event."));
    let p2 = json::with(p1, "predicate", text_property("The relationship type, e.g. works_at, reports_to, lives_in."));
    let p3 = json::with(p2, "object", text_property("The entity on the other end."));
    let p4 = json::with(p3, "object_type", text_property("One of: person, organization, meeting, project, task, topic, location, date, event."));
    let p5 = json::with(p4, "valid_from", text_property("When the relationship began (YYYY-MM-DD or RFC3339). Defaults to now."));
    let p6 = json::with(p5, "valid_to", text_property("When the relationship ended, if it is historical (YYYY-MM-DD or RFC3339)."));
    let required: Vec<&'static str> = vec!["subject", "subject_type", "predicate", "object", "object_type"];
    assert(required@.map_values(|s: &'static str| JsonModel::Str(s@)) =~= seq![JsonModel::Str("subject"@), JsonModel::Str("subject_type"@), JsonModel::Str("predicate"@), JsonModel::Str("object"@), JsonModel::Str("object_type"@)]);
    ToolSchema {
        name: "record_fact",
        description: "Record a relationship between two entities as a bi-temporal graph Fact. Use only for genuine entity→entity relationships; ordinary note details belong in the note text, not here.",
        parameters: schema_object(p6, &required),
    }
}

/// What is said of `retract_fact`.
pub open spec fn retract_fact_tool() -> ToolSchemaView {
    ToolSchemaView {
        name: "retract_fact"@,
        description: "Delete a Fact that was recorded in error — it was never true. To record that a relationship ended (was true, then changed), use record_fact with valid_to instead."@,
        parameters: object_schema(
            Map::empty().insert("fact_id"@, text_prop("The id of the Fact to retract, e.g. fact:abc123."@)),
            seq![JsonModel::Str("fact_id"@)],
        ),
    }
}

fn retract_fact_schema() -> (r: ToolSchema)
    ensures
        r@ == retract_fact_tool(),
{
    let none: Vec<(String, Json)> = Vec::new();
    assert(json::members(none@) =~= Map::empty());
    let p0 = json::with(none, "fact_id", text_property("The id of the Fact to retract, e.g. fact:abc123."));
    let required: Vec<&'static str> = vec!["fact_id"];
    assert(required@.map_values(|s: &'static str| JsonModel::Str(s@)) =~= seq![JsonModel::Str("fact_id"@)]);
    ToolSchema {
        name: "retract_fact",
        description: "Delete a Fact that was recorded in error — it was never true. To record that a relationship ended (was true, then changed), use record_fact with valid_to instead.",
        parameters: schema_object(p0, &required),
    }
}

/// What is said of `record_task`.
pub open spec fn record_task_tool() -> ToolSchemaView {
    ToolSchemaView {
        name: "record_task"@,
        description: "Add a reminder to the formation's task list (Tasks.md)."@,
        parameters: object_schema(
            Map::empty().insert("title"@, text_prop("What the reminder is for."@)).insert("due"@, text_prop("The due date (YYYY-MM-DD), if there is one."@)),
            seq![JsonModel::Str("title"@)],
        ),
    }
}

fn record_task_schema() -> (r: ToolSchema)
    ensures
        r@ == record_task_tool(),
{
    let none: Vec<(String, Json)> = Vec::new();
    assert(json::members(none@) =~= Map::empty());
    let p0 = json::with(none, "title", text_property("What the reminder is for."));
    let p1 = json::with(p0, "due", text_property("The due date (YYYY-MM-DD), if there is one."));
    let required: Vec<&'static str> = vec!["title"];
    assert(required@.map_values(|s: &'static str| JsonModel::Str(s@)) =~= seq![JsonModel::Str("title"@)]);
    ToolSchema {
        name: "record_task",
        description: "Add a reminder to the formation's task list (Tasks.md).",
        parameters: schema_object(p1, &required),
    }
}

/// What is said of `record_open_loop`.
pub open spec fn record_open_loop_tool() -> ToolSchemaView {
    ToolSchemaView {
        name: "record_open_loop"@,
        description: "Note an unresolved question or a stated-but-unfulfilled intention to follow up on later (\"decide on the vendor\", \"they were going to send the contract\"). Softer than a task: no due date, surfaced gently in conversation. Use when the user leaves something open."@,
        parameters: object_schema(
            Map::empty().insert("title"@, text_prop("The open loop, as a short phrase."@)).insert("context"@, text_prop("Optional detail or why it matters."@)),
            seq![JsonModel::Str("title"@)],
        ),
    }
}

fn record_open_loop_schema() -> (r: ToolSchema)
    ensures
        r@ == record_open_loop_tool(),
{
    let none: Vec<(String, Json)> = Vec::new();
    assert(json::members(none@) =~= Map::empty());
    let p0 = json::with(none, "title", text_property("The open loop, as a short phrase."));
    let p1 = json::with(p0, "context", text_property("Optional detail or why it matters."));
    let required: Vec<&'static str> = vec!["title"];
    assert(required@.map_values(|s: &'static str| JsonModel::Str(s@)) =~= seq![JsonModel::Str("title"@)]);
    ToolSchema {
        name: "record_open_loop",
        description: "Note an unresolved question or a stated-but-unfulfilled intention to follow up on later (\"decide on the vendor\", \"they were going to send the contract\"). Softer than a task: no due date, surfaced gently in conversation. Use when the user leaves something open.",
        parameters: schema_object(p1, &required),
    }
}

/// What is said of `close_open_loop`.
pub open spec fn close_open_loop_tool() -> ToolSchemaView {
    ToolSchemaView {
        name: "close_open_loop"@,
        description: "Resolve an open loop once it has been settled. Pass the loop id shown in the working set (e.g. open_loop:vendor_a1b2c3)."@,
        parameters: object_schema(
            Map::empty().insert("loop_id"@, text_prop("The id of the open loop to close."@)),
            seq![JsonModel::Str("loop_id"@)],
        ),
    }
}

fn close_open_loop_schema() -> (r: ToolSchema)
    ensures
        r@ == close_open_loop_tool(),
{
    let none: Vec<(String, Json)> = Vec::new();
    assert(json::members(none@) =~= Map::empty());
    let p0 = json::with(none, "loop_id", text_property("The id of the open loop to close."));
    let required: Vec<&'static str> = vec!["loop_id"];
    assert(required@.map_values(|s: &'static str| JsonModel::Str(s@)) =~= seq![JsonModel::Str("loop_id"@)]);
    ToolSchema {
        name: "close_open_loop",
        description: "Resolve an open loop once it has been settled. Pass the loop id shown in the working set (e.g. open_loop:vendor_a1b2c3).",
        parameters: schema_object(p0, &required),
    }
}

/// The tools, in their order.
pub open spec fn tools() -> Seq<ToolSchemaView> {
    seq![
        search_notes_tool(),
        find_entity_tool(),
        related_facts_tool(),
        find_contradiction_tool(),
        record_fact_tool(),
        retract_fact_tool(),
        record_task_tool(),
        record_open_loop_tool(),
        close_open_loop_tool(),
    ]
}

/// The tools that the agent sees.
pub fn tool_schemas() -> (r: Vec<ToolSchema>)
    ensures
        r@.map_values(|s: ToolSchema| s@) == tools(),
{
    let v: Vec<ToolSchema> = vec![
        search_notes_schema(),
        find_entity_schema(),
        related_facts_schema(),
        find_contradiction_schema(),
        record_fact_schema(),
        retract_fact_schema(),
        record_task_schema(),
        record_open_loop_schema(),
        close_open_loop_schema(),
    ];
    assert(v@.map_values(|s: ToolSchema| s@) =~= tools());
    v
}

// ---------------------------------------------------------------------------
// What the tools are called with
// ---------------------------------------------------------------------------

/// A text that an argument must be.
pub open spec fn needed(args: JsonModel, key: Seq<char>) -> Result<Seq<char>, Seq<char>> {
    match json::text_member(args, key) {
        Some(s) => Ok(s),
        None => Err("missing required string argument: "@ + key),
    }
}

/// A text that an argument must be.
pub fn req_str(args: &Json, key: &str) -> (r: Result<String, AppError>)
    ensures
        match r {
            Ok(s) => needed(args.model(), key@) == Ok::<Seq<char>, Seq<char>>(s@),
            Err(e) => needed(args.model(), key@) == Err::<Seq<char>, Seq<char>>(e.text()),
        },
{
    match args.get_str(key) {
        Some(s) => Ok(s.to_owned()),
        None => Err(error::message2("missing required string argument: ", key)),
    }
}

/// A text that an argument may be.
pub fn opt_str(args: &Json, key: &str) -> (r: Option<String>)
    ensures
        text::opt_text(r) == json::text_member(args.model(), key@),
{
    match args.get_str(key) {
        Some(s) => Some(s.to_owned()),
        None => None,
    }
}

/// What is wrong with an entity type that is none.
pub open spec fn bad_type(t: Seq<char>) -> Seq<char> {
    "invalid entity type "@ + text::debug_text(t)
        + "; expected one of: person, organization, meeting, project, task, topic, location, date, event"@
}

/// Refuses a type that no entity can have.
pub fn check_entity_type(t: &str) -> (r: Result<(), AppError>)
    ensures
        match r {
            Ok(_) => extraction::label_names().contains(t@),
            Err(e) => !extraction::label_names().contains(t@) && e.text() == bad_type(t@),
        },
{
    if extraction::is_entity_label(t) {
        Ok(())
    } else {
        let mut m = String::from_str("invalid entity type ");
        m.append(text::std_debug(t).as_str());
        m.append(
            "; expected one of: person, organization, meeting, project, task, topic, location, date, event",
        );
        Err(AppError::Other(m))
    }
}

/// The instant of a text that chrono reads as `instant` or as `date`.
pub open spec fn stated(instant: Option<Timestamp>, date: Option<Date>) -> Option<Timestamp> {
    match instant {
        Some(i) => Some(i),
        None => match date {
            Some(d) => Some(Timestamp { secs: datetime::day_start(d) as i64, nanos: 0 }),
            None => None,
        },
    }
}

/// The instant, given what chrono reads a text as: that instant, else the day's
/// midnight.
pub fn instant_of(instant: Option<Timestamp>, date: Option<Date>) -> (r: Option<Timestamp>)
    requires
        instant matches Some(i) ==> i.wf(),
        date matches Some(d) ==> d.wf(),
    ensures
        r == stated(instant, date),
        r matches Some(t) ==> t.wf(),
{
    match instant {
        Some(i) => Some(i),
        None => match date {
            Some(d) => Some(datetime::midnight(d)),
            None => None,
        },
    }
}

/// The instant that a text names: a time stamp or a day, or what is wrong with it.
pub open spec fn instant_in(s: Seq<char>) -> Result<Timestamp, Seq<char>> {
    let t = text::trimmed(s);
    match stated(datetime::rfc3339_instant(t), datetime::ymd_date(t)) {
        Some(i) => Ok(i),
        None => Err(
            "could not parse "@ + text::debug_text(t)
                + " as a date (YYYY-MM-DD) or datetime (RFC3339)"@,
        ),
    }
}

/// The instant that a text names, as a day or a time stamp.
pub fn parse_dt(s: &str) -> (r: Result<Timestamp, AppError>)
    ensures
        match r {
            Ok(t) => instant_in(s@) == Ok::<Timestamp, Seq<char>>(t) && t.wf(),
            Err(e) => instant_in(s@) == Err::<Timestamp, Seq<char>>(e.text()),
        },
{
    let t = text::trim(s);
    match instant_of(datetime::read_rfc3339(t), datetime::read_ymd(t)) {
        Some(i) => Ok(i),
        None => {
            let mut m = String::from_str("could not parse ");
            m.append(text::std_debug(t).as_str());
            m.append(" as a date (YYYY-MM-DD) or datetime (RFC3339)");
            Err(AppError::Other(m))
        },
    }
}

/// A tool with what it is called with.
#[derive(Debug, PartialEq, Eq)]
pub enum ToolCall {
    SearchNotes { query: String, k: u64 },
    FindEntity { name: String },
    RelatedFacts { entity: String },
    FindContradiction { subject: String, predicate: String, object: String },
    RecordFact(RecordFact),
    RetractFact { fact_id: String },
    RecordTask { title: String, due: Option<Date> },
    RecordOpenLoop { title: String, context: Option<String> },
    CloseOpenLoop { loop_id: String },
}

/// A fact to be recorded.
#[derive(Debug, PartialEq, Eq)]
pub struct RecordFact {
    pub subject: String,
    pub subject_type: String,
    pub predicate: String,
    pub object: String,
    pub object_type: String,
    pub valid_from: Timestamp,
    pub valid_to: Option<Timestamp>,
}

/// What a [`RecordFact`] says.
pub struct RecordFactView {
    pub subject: Seq<char>,
    pub subject_type: Seq<char>,
    pub predicate: Seq<char>,
    pub object: Seq<char>,
    pub object_type: Seq<char>,
    pub valid_from: Timestamp,
    pub valid_to: Option<Timestamp>,
}

/// What a [`ToolCall`] says.
pub enum ToolCallView {
    SearchNotes { query: Seq<char>, k: int },
    FindEntity { name: Seq<char> },
    RelatedFacts { entity: Seq<char> },
    FindContradiction { subject: Seq<char>, predicate: Seq<char>, object: Seq<char> },
    RecordFact(RecordFactView),
    RetractFact { fact_id: Seq<char> },
    RecordTask { title: Seq<char>, due: Option<Date> },
    RecordOpenLoop { title: Seq<char>, context: Option<Seq<char>> },
    CloseOpenLoop { loop_id: Seq<char> },
}

impl View for RecordFact {
    type V = RecordFactView;

    open spec fn view(&self) -> RecordFactView {
        RecordFactView {
            subject: self.subject@,
            subject_type: self.subject_type@,
            predicate: self.predicate@,
            object: self.object@,
            object_type: self.object_type@,
            valid_from: self.valid_from,
            valid_to: self.valid_to,
        }
    }
}

impl View for ToolCall {
    type V = ToolCallView;

    open spec fn view(&self) -> ToolCallView {
        match self {
            ToolCall::SearchNotes { query, k } => ToolCallView::SearchNotes {
                query: query@,
                k: k as int,
            },
            ToolCall::FindEntity { name } => ToolCallView::FindEntity { name: name@ },
            ToolCall::RelatedFacts { entity } => ToolCallView::RelatedFacts { entity: entity@ },
            ToolCall::FindContradiction {
                subject,
                predicate,
                object,
            } => ToolCallView::FindContradiction {
                subject: subject@,
                predicate: predicate@,
                object: object@,
            },
            ToolCall::RecordFact(f) => ToolCallView::RecordFact(f@),
            ToolCall::RetractFact { fact_id } => ToolCallView::RetractFact { fact_id: fact_id@ },
            ToolCall::RecordTask { title, due } => ToolCallView::RecordTask {
                title: title@,
                due: *due,
            },
            ToolCall::RecordOpenLoop { title, context } => ToolCallView::RecordOpenLoop {
                title: title@,
                context: text::opt_text(*context),
            },
            ToolCall::CloseOpenLoop { loop_id } => ToolCallView::CloseOpenLoop {
                loop_id: loop_id@,
            },
        }
    }
}

/// How many excerpts are asked for.
pub open spec fn count_asked(args: JsonModel) -> int {
    match json::member(args, "k"@) {
        Some(v) => match json::natural(v) {
            Some(n) => n,
            None => DEFAULT_SEARCH_K as int,
        },
        None => DEFAULT_SEARCH_K as int,
    }
}

fn asked_count(args: &Json) -> (r: u64)
    ensures
        r == count_asked(args.model()),
{
    match args.get("k") {
        Some(v) => match v.as_u64() {
            Some(n) => n,
            None => DEFAULT_SEARCH_K,
        },
        None => DEFAULT_SEARCH_K,
    }
}

/// A search, as it is asked for.
pub open spec fn search_asked(args: JsonModel) -> Result<ToolCallView, Seq<char>> {
    match needed(args, "query"@) {
        Ok(query) => Ok(ToolCallView::SearchNotes { query, k: count_asked(args) }),
        Err(e) => Err(e),
    }
}

/// A look for contradictions, as it is asked for.
pub open spec fn contradiction_asked(args: JsonModel) -> Result<ToolCallView, Seq<char>> {
    match (needed(args, "subject"@), needed(args, "predicate"@), needed(args, "object"@)) {
        (Ok(subject), Ok(predicate), Ok(object)) => Ok(
            ToolCallView::FindContradiction { subject, predicate, object },
        ),
        (Err(e), _, _) => Err(e),
        (_, Err(e), _) => Err(e),
        (_, _, Err(e)) => Err(e),
    }
}

/// The five texts that a fact must have, or what is wrong with the first that is
/// missing.
pub open spec fn fact_texts(args: JsonModel) -> Result<
    (Seq<char>, Seq<char>, Seq<char>, Seq<char>, Seq<char>),
    Seq<char>,
> {
    match needed(args, "subject"@) {
        Err(e) => Err(e),
        Ok(subject) => match needed(args, "subject_type"@) {
            Err(e) => Err(e),
            Ok(subject_type) => match needed(args, "predicate"@) {
                Err(e) => Err(e),
                Ok(predicate) => match needed(args, "object"@) {
                    Err(e) => Err(e),
                    Ok(object) => match needed(args, "object_type"@) {
                        Err(e) => Err(e),
                        Ok(object_type) => Ok(
                            (subject, subject_type, predicate, object, object_type),
                        ),
                    },
                },
            },
        },
    }
}

/// An instant that may be given.
pub open spec fn instant_asked(args: JsonModel, key: Seq<char>) -> Result<
    Option<Timestamp>,
    Seq<char>,
> {
    match json::text_member(args, key) {
        None => Ok(None),
        Some(s) => match instant_in(s) {
            Ok(t) => Ok(Some(t)),
            Err(e) => Err(e),
        },
    }
}

/// A fact, as it is asked to be recorded at the instant `now`: its types must be
/// known ones, and it holds from now on where nothing else is said.
pub open spec fn fact_asked(args: JsonModel, now: Timestamp) -> Result<ToolCallView, Seq<char>> {
    match fact_texts(args) {
        Err(e) => Err(e),
        Ok((subject, subject_type, predicate, object, object_type)) => if !extraction::label_names().contains(
            subject_type,
        ) {
            Err(bad_type(subject_type))
        } else if !extraction::label_names().contains(object_type) {
            Err(bad_type(object_type))
        } else {
            match (instant_asked(args, "valid_from"@), instant_asked(args, "valid_to"@)) {
                (Ok(from), Ok(valid_to)) => Ok(
                    ToolCallView::RecordFact(
                        RecordFactView {
                            subject,
                            subject_type,
                            predicate,
                            object,
                            object_type,
                            valid_from: match from {
                                Some(t) => t,
                                None => now,
                            },
                            valid_to,
                        },
                    ),
                ),
                (Err(e), _) => Err(e),
                (_, Err(e)) => Err(e),
            }
        },
    }
}

fn opt_instant(args: &Json, key: &str) -> (r: Result<Option<Timestamp>, AppError>)
    ensures
        match r {
            Ok(t) => instant_asked(args.model(), key@) == Ok::<Option<Timestamp>, Seq<char>>(t),
            Err(e) => instant_asked(args.model(), key@) == Err::<Option<Timestamp>, Seq<char>>(
                e.text(),
            ),
        },
{
    match args.get_str(key) {
        None => Ok(None),
        Some(s) => match parse_dt(s) {
            Ok(t) => Ok(Some(t)),
            Err(e) => Err(e),
        },
    }
}

/// A fact, as it is asked to be recorded at the instant `now`.
pub fn record_fact(args: &Json, now: Timestamp) -> (r: Result<ToolCall, AppError>)
    ensures
        match r {
            Ok(c) => fact_asked(args.model(), now) == Ok::<ToolCallView, Seq<char>>(c@),
            Err(e) => fact_asked(args.model(), now) == Err::<ToolCallView, Seq<char>>(e.text()),
        },
        match r {
            Ok(ToolCall::RecordFact(f)) => says_what_was_asked(f@, args.model(), now),
            Ok(_) => false,
            Err(_) => true,
        },
{
    proof {
        law_fact_is_as_asked(args.model(), now);
    }
    let subject = match req_str(args, "subject") {
        Ok(s) => s,
        Err(e) => {
            return Err(e);
        },
    };
    let subject_type = match req_str(args, "subject_type") {
        Ok(s) => s,
        Err(e) => {
            return Err(e);
        },
    };
    let predicate = match req_str(args, "predicate") {
        Ok(s) => s,
        Err(e) => {
            return Err(e);
        },
    };
    let object = match req_str(args, "object") {
        Ok(s) => s,
        Err(e) => {
            return Err(e);
        },
    };
    let object_type = match req_str(args, "object_type") {
        Ok(s) => s,
        Err(e) => {
            return Err(e);
        },
    };
    assert(fact_texts(args.model()) == Ok::<
        (Seq<char>, Seq<char>, Seq<char>, Seq<char>, Seq<char>),
        Seq<char>,
    >((subject@, subject_type@, predicate@, object@, object_type@)));
    match check_entity_type(subject_type.as_str()) {
        Ok(_) => {},
        Err(e) => {
            return Err(e);
        },
    }
    match check_entity_type(object_type.as_str()) {
        Ok(_) => {},
        Err(e) => {
            return Err(e);
        },
    }
    let valid_from = match opt_instant(args, "valid_from") {
        Ok(Some(t)) => t,
        Ok(None) => now,
        Err(e) => {
            return Err(e);
        },
    };
    let valid_to = match opt_instant(args, "valid_to") {
        Ok(t) => t,
        Err(e) => {
            return Err(e);
        },
    };
    Ok(
        ToolCall::RecordFact(
            RecordFact {
                subject,
                subject_type,
                predicate,
                object,
                object_type,
                valid_from,
                valid_to,
            },
        ),
    )
}

/// A task, as it is asked to be recorded: it must have a title, and a day where
/// one is given.
pub open spec fn task_asked(args: JsonModel) -> Result<ToolCallView, Seq<char>> {
    match needed(args, "title"@) {
        Err(e) => Err(e),
        Ok(title) => {
            let title = text::trimmed(title);
            if title.len() == 0 {
                Err("record_task: title is empty"@)
            } else {
                match json::text_member(args, "due"@) {
                    None => Ok(ToolCallView::RecordTask { title, due: None }),
                    Some(s) => match datetime::ymd_date(text::trimmed(s)) {
                        Some(d) => Ok(ToolCallView::RecordTask { title, due: Some(d) }),
                        None => Err(
                            "record_task: bad due date "@ + text::debug_text(s)
                                + " (expected YYYY-MM-DD)"@,
                        ),
                    },
                }
            }
        },
    }
}

/// A task, as it is asked to be recorded.
pub fn record_task(args: &Json) -> (r: Result<ToolCall, AppError>)
    ensures
        match r {
            Ok(c) => task_asked(args.model()) == Ok::<ToolCallView, Seq<char>>(c@),
            Err(e) => task_asked(args.model()) == Err::<ToolCallView, Seq<char>>(e.text()),
        },
        r matches Ok(ToolCall::RecordTask { due: Some(d), .. }) ==> d.wf(),
{
    let raw = match req_str(args, "title") {
        Ok(s) => s,
        Err(e) => {
            return Err(e);
        },
    };
    let title = text::trim(raw.as_str()).to_owned();
    if title.as_str().is_empty() {
        return Err(AppError::other("record_task: title is empty"));
    }
    match args.get_str("due") {
        None => Ok(ToolCall::RecordTask { title, due: None }),
        Some(s) => match datetime::read_ymd(text::trim(s)) {
            Some(d) => Ok(ToolCall::RecordTask { title, due: Some(d) }),
            None => {
                let mut m = String::from_str("record_task: bad due date ");
                m.append(text::std_debug(s).as_str());
                m.append(" (expected YYYY-MM-DD)");
                Err(AppError::Other(m))
            },
        },
    }
}

/// An open loop, as it is asked to be recorded: it must have a title.
pub open spec fn loop_asked(args: JsonModel) -> Result<ToolCallView, Seq<char>> {
    match needed(args, "title"@) {
        Err(e) => Err(e),
        Ok(title) => if text::trimmed(title).len() == 0 {
            Err("record_open_loop: title is empty"@)
        } else {
            Ok(
                ToolCallView::RecordOpenLoop {
                    title: text::trimmed(title),
                    context: json::text_member(args, "context"@),
                },
            )
        },
    }
}

fn record_open_loop(args: &Json) -> (r: Result<ToolCall, AppError>)
    ensures
        match r {
            Ok(c) => loop_asked(args.model()) == Ok::<ToolCallView, Seq<char>>(c@),
            Err(e) => loop_asked(args.model()) == Err::<ToolCallView, Seq<char>>(e.text()),
        },
{
    let raw = match req_str(args, "title") {
        Ok(s) => s,
        Err(e) => {
            return Err(e);
        },
    };
    let title = text::trim(raw.as_str());
    if title.is_empty() {
        return Err(AppError::other("record_open_loop: title is empty"));
    }
    Ok(ToolCall::RecordOpenLoop { title: title.to_owned(), context: opt_str(args, "context") })
}

fn find_contradiction(args: &Json) -> (r: Result<ToolCall, AppError>)
    ensures
        match r {
            Ok(c) => contradiction_asked(args.model()) == Ok::<ToolCallView, Seq<char>>(c@),
            Err(e) => contradiction_asked(args.model()) == Err::<ToolCallView, Seq<char>>(e.text()),
        },
{
    let subject = match req_str(args, "subject") {
        Ok(s) => s,
        Err(e) => {
            return Err(e);
        },
    };
    let predicate = match req_str(args, "predicate") {
        Ok(s) => s,
        Err(e) => {
            return Err(e);
        },
    };
    let object = match req_str(args, "object") {
        Ok(s) => s,
        Err(e) => {
            return Err(e);
        },
    };
    Ok(ToolCall::FindContradiction { subject, predicate, object })
}

/// What a call asks for, by the tool's name, at the instant `now`; or what is
/// wrong with it.
pub open spec fn call_asked(name: Seq<char>, args: JsonModel, now: Timestamp) -> Result<
    ToolCallView,
    Seq<char>,
> {
    if name == "search_notes"@ {
        search_asked(args)
    } else if name == "find_entity"@ {
        match needed(args, "name"@) {
            Ok(name) => Ok(ToolCallView::FindEntity { name }),
            Err(e) => Err(e),
        }
    } else if name == "related_facts"@ {
        match needed(args, "entity"@) {
            Ok(entity) => Ok(ToolCallView::RelatedFacts { entity }),
            Err(e) => Err(e),
        }
    } else if name == "find_contradiction"@ {
        contradiction_asked(args)
    } else if name == "record_fact"@ {
        fact_asked(args, now)
    } else if name == "retract_fact"@ {
        match needed(args, "fact_id"@) {
            Ok(fact_id) => Ok(ToolCallView::RetractFact { fact_id }),
            Err(e) => Err(e),
        }
    } else if name == "record_task"@ {
        task_asked(args)
    } else if name == "record_open_loop"@ {
        loop_asked(args)
    } else if name == "close_open_loop"@ {
        match needed(args, "loop_id"@) {
            Ok(loop_id) => Ok(ToolCallView::CloseOpenLoop { loop_id }),
            Err(e) => Err(e),
        }
    } else {
        Err("unknown tool: "@ + name)
    }
}

/// What a call asks for. A name that is no tool, or an argument that will not do,
/// is an error.
pub fn dispatch(name: &str, args: &Json, now: Timestamp) -> (r: Result<ToolCall, AppError>)
    ensures
        match r {
            Ok(c) => call_asked(name@, args.model(), now) == Ok::<ToolCallView, Seq<char>>(c@),
            Err(e) => call_asked(name@, args.model(), now) == Err::<ToolCallView, Seq<char>>(
                e.text(),
            ),
        },
        r matches Ok(ToolCall::RecordTask { due: Some(d), .. }) ==> d.wf(),
        r matches Ok(ToolCall::RecordFact(f)) ==> says_what_was_asked(f@, args.model(), now),
{
    if text::same(name, "search_notes") {
        match req_str(args, "query") {
            Ok(query) => Ok(ToolCall::SearchNotes { query, k: asked_count(args) }),
            Err(e) => Err(e),
        }
    } else if text::same(name, "find_entity") {
        match req_str(args, "name") {
            Ok(name) => Ok(ToolCall::FindEntity { name }),
            Err(e) => Err(e),
        }
    } else if text::same(name, "related_facts") {
        match req_str(args, "entity") {
            Ok(entity) => Ok(ToolCall::RelatedFacts { entity }),
            Err(e) => Err(e),
        }
    } else if text::same(name, "find_contradiction") {
        find_contradiction(args)
    } else if text::same(name, "record_fact") {
        record_fact(args, now)
    } else if text::same(name, "retract_fact") {
        match req_str(args, "fact_id") {
            Ok(fact_id) => Ok(ToolCall::RetractFact { fact_id }),
            Err(e) => Err(e),
        }
    } else if text::same(name, "record_task") {
        record_task(args)
    } else if text::same(name, "record_open_loop") {
        record_open_loop(args)
    } else if text::same(name, "close_open_loop") {
        match req_str(args, "loop_id") {
            Ok(loop_id) => Ok(ToolCall::CloseOpenLoop { loop_id }),
            Err(e) => Err(e),
        }
    } else {
        Err(error::message2("unknown tool: ", name))
    }
}

// ---------------------------------------------------------------------------
// What the tools answer
// ---------------------------------------------------------------------------

/// An excerpt that a search found.
#[derive(Debug, PartialEq, Eq)]
pub struct SearchHit {
    pub note_path: String,
    pub chunk_idx: i64,
    pub text: String,
    /// How far it is from the query: a number.
    pub distance: Json,
}

/// An excerpt as it is answered.
pub open spec fn hit_model(h: SearchHit) -> JsonModel {
    JsonModel::Object(
        Map::empty().insert("note_path"@, JsonModel::Str(h.note_path@)).insert(
            "chunk_idx"@,
            JsonModel::Int(h.chunk_idx as int),
        ).insert("text"@, JsonModel::Str(h.text@)).insert("distance"@, h.distance.model()),
    )
}

fn hit_json(h: &SearchHit) -> (r: Json)
    ensures
        r.model() == hit_model(*h),
{
    let none: Vec<(String, Json)> = Vec::new();
    assert(json::members(none@) =~= Map::empty());
    let a = json::with(none, "note_path", json::string(h.note_path.as_str()));
    let b = json::with(a, "chunk_idx", Json::Int(h.chunk_idx));
    let c = json::with(b, "text", json::string(h.text.as_str()));
    Json::Object(json::with(c, "distance", h.distance.clone()))
}

/// What a search answers.
pub fn search_results(hits: &Vec<SearchHit>) -> (r: Json)
    ensures
        r.model() == JsonModel::Object(
            Map::empty().insert(
                "results"@,
                JsonModel::Array(hits@.map_values(|h: SearchHit| hit_model(h))),
            ),
        ),
{
    let ghost all = hits@.map_values(|h: SearchHit| hit_model(h));
    let mut out: Vec<Json> = Vec::new();
    let mut i: usize = 0;
    assert(json::models(out@) =~= all.take(0));
    while i < hits.len()
        invariant
            i <= hits.len(),
            all == hits@.map_values(|h: SearchHit| hit_model(h)),
            json::models(out@) == all.take(i as int),
        decreases hits.len() - i,
    {
        let j = hit_json(&hits[i]);
        proof {
            json::lemma_models_push(out@, j);
            assert(all.take(i + 1) =~= all.take(i as int).push(all[i as int]));
        }
        out.push(j);
        i += 1;
    }
    assert(all.take(i as int) =~= all);
    json::object1("results", Json::Array(out))
}

/// A fact in the graph.
#[derive(Debug, PartialEq, Eq)]
pub struct FactRow {
    pub id: String,
    pub subject: String,
    pub predicate: String,
    pub object: String,
    pub valid_from: Timestamp,
    pub valid_to: Option<Timestamp>,
}

impl FactRow {
    /// Its instants are ones the calendar can hold.
    pub open spec fn wf(self) -> bool {
        self.valid_from.wf() && (self.valid_to matches Some(t) ==> t.wf())
    }
}

/// An instant as it is answered.
pub open spec fn instant_model(t: Timestamp) -> JsonModel {
    JsonModel::Str(datetime::rfc3339_text(t.secs as int, t.nanos as int))
}

/// A fact as it is answered: it is current while it has no end.
pub open spec fn fact_model(f: FactRow) -> JsonModel {
    JsonModel::Object(
        Map::empty().insert("fact_id"@, JsonModel::Str(f.id@)).insert(
            "subject"@,
            JsonModel::Str(f.subject@),
        ).insert("predicate"@, JsonModel::Str(f.predicate@)).insert(
            "object"@,
            JsonModel::Str(f.object@),
        ).insert("valid_from"@, instant_model(f.valid_from)).insert(
            "valid_to"@,
            match f.valid_to {
                Some(t) => instant_model(t),
                None => JsonModel::Null,
            },
        ).insert("current"@, JsonModel::Bool(f.valid_to is None)),
    )
}

/// A fact as it is answered.
pub fn fact_to_json(f: &FactRow) -> (r: Json)
    requires
        f.wf(),
    ensures
        r.model() == fact_model(*f),
{
    let none: Vec<(String, Json)> = Vec::new();
    assert(json::members(none@) =~= Map::empty());
    let a = json::with(none, "fact_id", json::string(f.id.as_str()));
    let b = json::with(a, "subject", json::string(f.subject.as_str()));
    let c = json::with(b, "predicate", json::string(f.predicate.as_str()));
    let d = json::with(c, "object", json::string(f.object.as_str()));
    let from = datetime::format_rfc3339(f.valid_from);
    let e = json::with(d, "valid_from", json::string(from.as_str()));
    let end = match f.valid_to {
        Some(t) => json::string(datetime::format_rfc3339(t).as_str()),
        None => Json::Null,
    };
    let g = json::with(e, "valid_to", end);
    Json::Object(json::with(g, "current", Json::Bool(f.valid_to.is_none())))
}

fn facts_json(facts: &Vec<FactRow>) -> (r: Json)
    requires
        forall|i: int| 0 <= i < facts@.len() ==> (#[trigger] facts@[i]).wf(),
    ensures
        r.model() == JsonModel::Array(facts@.map_values(|f: FactRow| fact_model(f))),
{
    let ghost all = facts@.map_values(|f: FactRow| fact_model(f));
    let mut out: Vec<Json> = Vec::new();
    let mut i: usize = 0;
    assert(json::models(out@) =~= all.take(0));
    while i < facts.len()
        invariant
            forall|k: int| 0 <= k < facts@.len() ==> (#[trigger] facts@[k]).wf(),
            i <= facts.len(),
            all == facts@.map_values(|f: FactRow| fact_model(f)),
            json::models(out@) == all.take(i as int),
        decreases facts.len() - i,
    {
        let j = fact_to_json(&facts[i]);
        proof {
            json::lemma_models_push(out@, j);
            assert(all.take(i + 1) =~= all.take(i as int).push(all[i as int]));
        }
        out.push(j);
        i += 1;
    }
    assert(all.take(i as int) =~= all);
    Json::Array(out)
}

/// An entity in the graph.
#[derive(Debug, PartialEq, Eq)]
pub struct EntityRow {
    pub id: String,
    pub canonical_name: String,
    pub entity_type: String,
    pub note_path: Option<String>,
}

/// What a look for an entity answers, given the entity, if there is one, and its
/// current facts.
pub fn find_entity(entity: Option<&EntityRow>, facts: &Vec<FactRow>) -> (r: Json)
    requires
        forall|i: int| 0 <= i < facts@.len() ==> (#[trigger] facts@[i]).wf(),
    ensures
        r.model() == match entity {
            None => JsonModel::Object(Map::empty().insert("found"@, JsonModel::Bool(false))),
            Some(e) => JsonModel::Object(
                Map::empty().insert("found"@, JsonModel::Bool(true)).insert(
                    "entity"@,
                    JsonModel::Object(
                        Map::empty().insert("id"@, JsonModel::Str(e.id@)).insert(
                            "name"@,
                            JsonModel::Str(e.canonical_name@),
                        ).insert("type"@, JsonModel::Str(e.entity_type@)).insert(
                            "note_path"@,
                            json::opt_text_model(text::opt_text(e.note_path)),
                        ),
                    ),
                ).insert(
                    "current_facts"@,
                    JsonModel::Array(facts@.map_values(|f: FactRow| fact_model(f))),
                ),
            ),
        },
{
    match entity {
        None => json::object1("found", Json::Bool(false)),
        Some(e) => {
            let none: Vec<(String, Json)> = Vec::new();
            assert(json::members(none@) =~= Map::empty());
            let a = json::with(none, "id", json::string(e.id.as_str()));
            let b = json::with(a, "name", json::string(e.canonical_name.as_str()));
            let c = json::with(b, "type", json::string(e.entity_type.as_str()));
            let path = match &e.note_path {
                Some(p) => json::opt_string(Some(p.as_str())),
                None => json::opt_string(None),
            };
            let d = Json::Object(json::with(c, "note_path", path));
            json::object3(
                "found",
                Json::Bool(true),
                "entity",
                d,
                "current_facts",
                facts_json(facts),
            )
        },
    }
}

/// What a look for the facts about an entity answers; there are none about an
/// entity that is not in the graph.
pub fn related_facts(facts: &Vec<FactRow>) -> (r: Json)
    requires
        forall|i: int| 0 <= i < facts@.len() ==> (#[trigger] facts@[i]).wf(),
    ensures
        r.model() == JsonModel::Object(
            Map::empty().insert(
                "facts"@,
                JsonModel::Array(facts@.map_values(|f: FactRow| fact_model(f))),
            ),
        ),
{
    json::object1("facts", facts_json(facts))
}

/// The id of the object that contradictions are looked for beside: its own, or
/// the one it would be given.
pub fn object_id_for(known: Option<String>, object: &str) -> (r: String)
    ensures
        r@ == match known {
            Some(id) => id@,
            None => "entity:"@ + memory::slug(object@),
        },
{
    match known {
        Some(id) => id,
        None => {
            let mut s = String::from_str("entity:");
            s.append(memory::slugify(object).as_str());
            s
        },
    }
}

/// A contradiction as it is answered.
pub open spec fn contradiction_model(c: ExistingFact) -> JsonModel {
    JsonModel::Object(
        Map::empty().insert("predicate"@, JsonModel::Str(c.predicate@)).insert(
            "existing_object"@,
            JsonModel::Str(c.object_name@),
        ).insert("since"@, instant_model(c.valid_from)).insert(
            "source_chat_id"@,
            JsonModel::Str(c.source_chat_id@),
        ),
    )
}

/// What a look for contradictions answers; a subject that is not in the graph
/// contradicts nothing.
pub fn contradictions(found: &Vec<ExistingFact>) -> (r: Json)
    requires
        forall|i: int| 0 <= i < found@.len() ==> (#[trigger] found@[i]).valid_from.wf(),
    ensures
        r.model() == JsonModel::Object(
            Map::empty().insert(
                "contradictions"@,
                JsonModel::Array(found@.map_values(|c: ExistingFact| contradiction_model(c))),
            ),
        ),
{
    let ghost all = found@.map_values(|c: ExistingFact| contradiction_model(c));
    let mut out: Vec<Json> = Vec::new();
    let mut i: usize = 0;
    assert(json::models(out@) =~= all.take(0));
    while i < found.len()
        invariant
            forall|k: int| 0 <= k < found@.len() ==> (#[trigger] found@[k]).valid_from.wf(),
            i <= found.len(),
            all == found@.map_values(|c: ExistingFact| contradiction_model(c)),
            json::models(out@) == all.take(i as int),
        decreases found.len() - i,
    {
        let c = &found[i];
        assert(found@[i as int].valid_from.wf());
        let none: Vec<(String, Json)> = Vec::new();
        assert(json::members(none@) =~= Map::empty());
        let a = json::with(none, "predicate", json::string(c.predicate.as_str()));
        let b = json::with(a, "existing_object", json::string(c.object_name.as_str()));
        let since = datetime::format_rfc3339(c.valid_from);
        let d = json::with(b, "since", json::string(since.as_str()));
        let e = json::with(d, "source_chat_id", json::string(c.source_chat_id.as_str()));
        let j = Json::Object(e);
        proof {
            json::lemma_models_push(out@, j);
            assert(all.take(i + 1) =~= all.take(i as int).push(all[i as int]));
        }
        out.push(j);
        i += 1;
    }
    assert(all.take(i as int) =~= all);
    json::object1("contradictions", Json::Array(out))
}

/// An end of a fact, once it was put into the graph.
#[derive(Debug, PartialEq, Eq)]
pub struct UpsertedEntity {
    pub id: String,
    /// Whether it was not there before.
    pub was_new: bool,
}

/// The edge that a recorded fact becomes, between the two entities that its ends were
/// put into the graph as. It is taken for certain, and takes the place of what it
/// contradicts.
pub fn recorded_edge(
    fact: &RecordFact,
    subject_id: &str,
    object_id: &str,
    source_chat_id: &str,
) -> (r: FactEdge)
    ensures
        r.subject_id@ == subject_id@,
        r.predicate@ == fact.predicate@,
        r.object_id@ == object_id@,
        r.valid_from == fact.valid_from,
        r.valid_to == fact.valid_to,
        r.source_chat_id@ == source_chat_id@,
        r.confidence.bits == RECORDED_CONFIDENCE_BITS,
        r.supersedes,
{
    FactEdge {
        subject_id: subject_id.to_owned(),
        predicate: fact.predicate.clone(),
        object_id: object_id.to_owned(),
        valid_from: fact.valid_from,
        valid_to: fact.valid_to,
        source_chat_id: source_chat_id.to_owned(),
        confidence: Confidence { bits: RECORDED_CONFIDENCE_BITS },
        supersedes: true,
    }
}

/// What recording a fact answers.
pub fn fact_recorded(fact_id: &str, subject: &UpsertedEntity, object: &UpsertedEntity) -> (r: Json)
    ensures
        r.model() == JsonModel::Object(
            Map::empty().insert("fact_id"@, JsonModel::Str(fact_id@)).insert(
                "subject_id"@,
                JsonModel::Str(subject.id@),
            ).insert("object_id"@, JsonModel::Str(object.id@)).insert(
                "subject_was_new"@,
                JsonModel::Bool(subject.was_new),
            ).insert("object_was_new"@, JsonModel::Bool(object.was_new)),
        ),
{
    let none: Vec<(String, Json)> = Vec::new();
    assert(json::members(none@) =~= Map::empty());
    let a = json::with(none, "fact_id", json::string(fact_id));
    let b = json::with(a, "subject_id", json::string(subject.id.as_str()));
    let c = json::with(b, "object_id", json::string(object.id.as_str()));
    let d = json::with(c, "subject_was_new", Json::Bool(subject.was_new));
    Json::Object(json::with(d, "object_was_new", Json::Bool(object.was_new)))
}

/// What retracting a fact answers.
pub fn retract_fact(fact_id: &str) -> (r: Json)
    ensures
        r.model() == JsonModel::Object(
            Map::empty().insert("retracted"@, JsonModel::Bool(true)).insert(
                "fact_id"@,
                JsonModel::Str(fact_id@),
            ),
        ),
{
    json::object2("retracted", Json::Bool(true), "fact_id", json::string(fact_id))
}

/// The line that a new task adds to the task list.
pub fn task_line(title: &str, due: Option<Date>, key: &str) -> (r: ChecklistLine)
    ensures
        !r.done,
        r.title@ == title@,
        r.due == due,
        r.completed is None,
        text::opt_text(r.id) == Some(key@),
{
    ChecklistLine {
        done: false,
        title: title.to_owned(),
        due,
        completed: None,
        id: Some(key.to_owned()),
    }
}

/// The row that is kept of a new task; it reminds when it is due.
pub fn task_row(
    ctx: &ToolContext,
    id: &str,
    title: &str,
    remind_at: Option<Timestamp>,
    now: Timestamp,
) -> (r: Task)
    ensures
        r.id@ == id@,
        r.title@ == title@,
        r.status == TaskStatus::Open,
        r.due == remind_at,
        r.remind_at == remind_at,
        !r.notified,
        r.created == now,
        r.completed_at is None,
        text::opt_text(r.source_chat_id) == Some(ctx.source_chat_id@),
{
    Task {
        id: id.to_owned(),
        title: title.to_owned(),
        status: TaskStatus::Open,
        due: remind_at,
        remind_at,
        notified: false,
        created: now,
        completed_at: None,
        source_chat_id: Some(ctx.source_chat_id.clone()),
    }
}

/// What recording a task answers.
pub fn task_recorded(task_id: &str, title: &str, due: Option<Date>) -> (r: Json)
    requires
        due matches Some(d) ==> d.wf(),
    ensures
        r.model() == JsonModel::Object(
            Map::empty().insert("task_id"@, JsonModel::Str(task_id@)).insert(
                "title"@,
                JsonModel::Str(title@),
            ).insert(
                "due"@,
                match due {
                    Some(d) => JsonModel::Str(datetime::iso_date(d)),
                    None => JsonModel::Null,
                },
            ),
        ),
{
    let day = match due {
        Some(d) => json::string(datetime::format_date(d).as_str()),
        None => Json::Null,
    };
    json::object3("task_id", json::string(task_id), "title", json::string(title), "due", day)
}

/// What recording an open loop answers.
pub fn loop_recorded(loop_id: &str, title: &str) -> (r: Json)
    ensures
        r.model() == JsonModel::Object(
            Map::empty().insert("loop_id"@, JsonModel::Str(loop_id@)).insert(
                "title"@,
                JsonModel::Str(title@),
            ),
        ),
{
    json::object2("loop_id", json::string(loop_id), "title", json::string(title))
}

/// What closing an open loop answers.
pub fn close_open_loop(loop_id: &str) -> (r: Json)
    ensures
        r.model() == JsonModel::Object(
            Map::empty().insert("closed"@, JsonModel::Bool(true)).insert(
                "loop_id"@,
                JsonModel::Str(loop_id@),
            ),
        ),
{
    json::object2("closed", Json::Bool(true), "loop_id", json::string(loop_id))
}

// ---------------------------------------------------------------------------
// Laws
// ---------------------------------------------------------------------------

/// A tool is one that the agent is told of.
pub open spec fn advertised(name: Seq<char>) -> bool {
    exists|i: int| 0 <= i < tools().len() && (#[trigger] tools()[i]).name == name
}

/// A fact says what a call asked to record: the five texts each under its own name, and
/// the interval that was stated. It begins at the instant that `valid_from` names,
/// whatever else is given, and now where there is no `valid_from`; it ends at the
/// instant that `valid_to` names, and not at all where there is none.
pub open spec fn says_what_was_asked(f: RecordFactView, args: JsonModel, now: Timestamp) -> bool {
    &&& json::text_member(args, "subject"@) == Some(f.subject)
    &&& json::text_member(args, "subject_type"@) == Some(f.subject_type)
    &&& json::text_member(args, "predicate"@) == Some(f.predicate)
    &&& json::text_member(args, "object"@) == Some(f.object)
    &&& json::text_member(args, "object_type"@) == Some(f.object_type)
    &&& json::text_member(args, "valid_from"@) matches Some(s) ==> instant_in(s) == Ok::<
        Timestamp,
        Seq<char>,
    >(f.valid_from)
    &&& json::text_member(args, "valid_from"@) is None ==> f.valid_from == now
    &&& json::text_member(args, "valid_to"@) matches Some(s) ==> (f.valid_to matches Some(t)
        && instant_in(s) == Ok::<Timestamp, Seq<char>>(t))
    &&& json::text_member(args, "valid_to"@) is None ==> f.valid_to is None
}

/// What is recorded is what was asked to be recorded, and it is recorded just where all
/// five texts are given, both types are known ones and the dates that are given can be
/// read.
pub proof fn law_fact_is_as_asked(args: JsonModel, now: Timestamp)
    ensures
        match call_asked("record_fact"@, args, now) {
            Ok(ToolCallView::RecordFact(f)) => {
                &&& says_what_was_asked(f, args, now)
                &&& extraction::label_names().contains(f.subject_type)
                &&& extraction::label_names().contains(f.object_type)
            },
            Ok(_) => false,
            Err(_) => true,
        },
        call_asked("record_fact"@, args, now) is Ok <==> {
            &&& json::text_member(args, "subject"@) is Some
            &&& json::text_member(args, "predicate"@) is Some
            &&& json::text_member(args, "object"@) is Some
            &&& json::text_member(args, "subject_type"@) matches Some(t)
                && extraction::label_names().contains(t)
            &&& json::text_member(args, "object_type"@) matches Some(t)
                && extraction::label_names().contains(t)
            &&& json::text_member(args, "valid_from"@) matches Some(s) ==> instant_in(s) is Ok
            &&& json::text_member(args, "valid_to"@) matches Some(s) ==> instant_in(s) is Ok
        },
        call_asked("record_fact"@, args, now) == fact_asked(args, now),
{
    lemma_names_differ();
}

/// A stated beginning does not depend on when the fact is recorded, nor on whether it
/// has ended.
pub proof fn law_stated_beginning_stays(
    args: JsonModel,
    other: JsonModel,
    now: Timestamp,
    later: Timestamp,
)
    requires
        json::text_member(args, "valid_from"@) is Some,
        json::text_member(other, "valid_from"@) == json::text_member(args, "valid_from"@),
        call_asked("record_fact"@, args, now) is Ok,
        call_asked("record_fact"@, other, later) is Ok,
    ensures
        ({
            let a = call_asked("record_fact"@, args, now)->Ok_0->RecordFact_0;
            let b = call_asked("record_fact"@, other, later)->Ok_0->RecordFact_0;
            a.valid_from == b.valid_from
        }),
{
    law_fact_is_as_asked(args, now);
    law_fact_is_as_asked(other, later);
}

/// A date is read in spite of white space around it: a time stamp as its instant, a
/// day as the instant at which it begins, and nothing else.
pub proof fn law_dates_name_their_instant(s: Seq<char>)
    ensures
        instant_in(text::trimmed(s)) == instant_in(s),
        datetime::rfc3339_instant(text::trimmed(s)) matches Some(i) ==> instant_in(s) == Ok::<
            Timestamp,
            Seq<char>,
        >(i),
        datetime::rfc3339_instant(text::trimmed(s)) is None ==> match datetime::ymd_date(
            text::trimmed(s),
        ) {
            Some(d) => instant_in(s) == Ok::<Timestamp, Seq<char>>(
                (Timestamp { secs: datetime::day_start(d) as i64, nanos: 0 }),
            ),
            None => instant_in(s) is Err,
        },
{
    text::lemma_trimmed_twice(s);
}

/// The calls that look something up carry what they are called with, each argument
/// under its own name.
pub proof fn law_lookups_are_as_asked(args: JsonModel, now: Timestamp)
    ensures
        match call_asked("search_notes"@, args, now) {
            Ok(c) => c matches ToolCallView::SearchNotes { query, k } && json::text_member(
                args,
                "query"@,
            ) == Some(query) && (json::member(args, "k"@) matches Some(JsonModel::Int(n)) ==> (
            n >= 0 ==> k == n)) && (json::member(args, "k"@) is None ==> k == 5),
            Err(_) => json::text_member(args, "query"@) is None,
        },
        match call_asked("find_entity"@, args, now) {
            Ok(c) => c matches ToolCallView::FindEntity { name } && json::text_member(
                args,
                "name"@,
            ) == Some(name),
            Err(_) => json::text_member(args, "name"@) is None,
        },
        match call_asked("related_facts"@, args, now) {
            Ok(c) => c matches ToolCallView::RelatedFacts { entity } && json::text_member(
                args,
                "entity"@,
            ) == Some(entity),
            Err(_) => json::text_member(args, "entity"@) is None,
        },
        match call_asked("find_contradiction"@, args, now) {
            Ok(c) => c matches ToolCallView::FindContradiction { subject, predicate, object }
                && json::text_member(args, "subject"@) == Some(subject) && json::text_member(
                args,
                "predicate"@,
            ) == Some(predicate) && json::text_member(args, "object"@) == Some(object),
            Err(_) => json::text_member(args, "subject"@) is None || json::text_member(
                args,
                "predicate"@,
            ) is None || json::text_member(args, "object"@) is None,
        },
{
    lemma_names_differ();
}

/// The calls that change something else than a fact carry what they are called with,
/// each argument under its own name; a title is asked for, and may not be blank.
pub proof fn law_changes_are_as_asked(args: JsonModel, now: Timestamp)
    ensures
        match call_asked("retract_fact"@, args, now) {
            Ok(c) => c matches ToolCallView::RetractFact { fact_id } && json::text_member(
                args,
                "fact_id"@,
            ) == Some(fact_id),
            Err(_) => json::text_member(args, "fact_id"@) is None,
        },
        match call_asked("close_open_loop"@, args, now) {
            Ok(c) => c matches ToolCallView::CloseOpenLoop { loop_id } && json::text_member(
                args,
                "loop_id"@,
            ) == Some(loop_id),
            Err(_) => json::text_member(args, "loop_id"@) is None,
        },
        match call_asked("record_open_loop"@, args, now) {
            Ok(c) => c matches ToolCallView::RecordOpenLoop { title, context } && title.len() > 0
                && (json::text_member(args, "title"@) matches Some(t) && title == text::trimmed(t))
                && context == json::text_member(args, "context"@),
            Err(_) => json::text_member(args, "title"@) matches Some(t) ==> text::trimmed(t).len()
                == 0,
        },
        match call_asked("record_task"@, args, now) {
            Ok(c) => c matches ToolCallView::RecordTask { title, due } && title.len() > 0 && (
            json::text_member(args, "title"@) matches Some(t) && title == text::trimmed(t)) && (
            json::text_member(args, "due"@) is None ==> due is None) && (json::text_member(
                args,
                "due"@,
            ) matches Some(d) ==> due is Some && due == datetime::ymd_date(text::trimmed(d))),
            Err(_) => json::text_member(args, "title"@) matches Some(t) ==> text::trimmed(t).len()
                == 0 || (json::text_member(args, "due"@) matches Some(d) && datetime::ymd_date(
                text::trimmed(d),
            ) is None),
        },
{
    lemma_names_differ();
}

/// A fact is answered with each part under its own name; it is called current just
/// while it has no end.
pub proof fn law_answered_facts_say_what_is_known(f: FactRow)
    ensures
        ({
            let m = fact_model(f);
            &&& json::text_member(m, "fact_id"@) == Some(f.id@)
            &&& json::text_member(m, "subject"@) == Some(f.subject@)
            &&& json::text_member(m, "predicate"@) == Some(f.predicate@)
            &&& json::text_member(m, "object"@) == Some(f.object@)
            &&& json::text_member(m, "valid_from"@) == Some(
                datetime::rfc3339_text(f.valid_from.secs as int, f.valid_from.nanos as int),
            )
            &&& f.valid_to matches Some(t) ==> json::text_member(m, "valid_to"@) == Some(
                datetime::rfc3339_text(t.secs as int, t.nanos as int),
            )
            &&& f.valid_to is None ==> json::member(m, "valid_to"@) == Some(JsonModel::Null)
            &&& json::member(m, "current"@) == Some(JsonModel::Bool(f.valid_to is None))
        }),
{
    reveal_strlit("fact_id");
    reveal_strlit("subject");
    reveal_strlit("predicate");
    reveal_strlit("object");
    reveal_strlit("valid_from");
    reveal_strlit("valid_to");
    reveal_strlit("current");
    assert("fact_id"@[0] == 'f');
    assert("subject"@[0] == 's');
    assert("predicate"@.len() == 9);
    assert("object"@.len() == 6);
    assert("valid_from"@.len() == 10);
    assert("valid_to"@.len() == 8);
    assert("current"@[0] == 'c');
}

/// A contradiction is answered with what was known before: the object that the fact has
/// so far, since when, and where it was said.
pub proof fn law_contradictions_say_what_was_known(c: ExistingFact)
    ensures
        ({
            let m = contradiction_model(c);
            &&& json::text_member(m, "predicate"@) == Some(c.predicate@)
            &&& json::text_member(m, "existing_object"@) == Some(c.object_name@)
            &&& json::text_member(m, "since"@) == Some(
                datetime::rfc3339_text(c.valid_from.secs as int, c.valid_from.nanos as int),
            )
            &&& json::text_member(m, "source_chat_id"@) == Some(c.source_chat_id@)
        }),
{
    reveal_strlit("predicate");
    reveal_strlit("existing_object");
    reveal_strlit("since");
    reveal_strlit("source_chat_id");
    assert("predicate"@.len() == 9);
    assert("existing_object"@.len() == 15);
    assert("since"@.len() == 5);
    assert("source_chat_id"@.len() == 14);
}

/// An excerpt is answered with each part under its own name.
pub proof fn law_excerpts_say_where_they_are_from(h: SearchHit)
    ensures
        ({
            let m = hit_model(h);
            &&& json::text_member(m, "note_path"@) == Some(h.note_path@)
            &&& json::member(m, "chunk_idx"@) == Some(JsonModel::Int(h.chunk_idx as int))
            &&& json::text_member(m, "text"@) == Some(h.text@)
            &&& json::member(m, "distance"@) == Some(h.distance.model())
        }),
{
    reveal_strlit("note_path");
    reveal_strlit("chunk_idx");
    reveal_strlit("text");
    reveal_strlit("distance");
    assert("note_path"@[0] == 'n');
    assert("chunk_idx"@[0] == 'c');
    assert("text"@.len() == 4);
    assert("distance"@.len() == 8);
}

/// A tool that the agent is not told of is refused, whatever it is called with.
pub proof fn law_unknown_tools_are_refused(name: Seq<char>, args: JsonModel, now: Timestamp)
    requires
        !advertised(name),
    ensures
        call_asked(name, args, now) == Err::<ToolCallView, Seq<char>>("unknown tool: "@ + name),
{
    assert(tools()[0].name == "search_notes"@);
    assert(tools()[1].name == "find_entity"@);
    assert(tools()[2].name == "related_facts"@);
    assert(tools()[3].name == "find_contradiction"@);
    assert(tools()[4].name == "record_fact"@);
    assert(tools()[5].name == "retract_fact"@);
    assert(tools()[6].name == "record_task"@);
    assert(tools()[7].name == "record_open_loop"@);
    assert(tools()[8].name == "close_open_loop"@);
}

/// What the agent is told a tool must have, it must have: a call of a tool that
/// lacks a required argument is refused.
pub proof fn law_required_arguments_are_required(
    i: int,
    key: Seq<char>,
    args: JsonModel,
    now: Timestamp,
)
    requires
        0 <= i < tools().len(),
        is_required(tools()[i].parameters, key),
        json::text_member(args, key) is None,
    ensures
        call_asked(tools()[i].name, args, now) is Err,
{
    lemma_names_differ();
    if i == 0 {
        lemma_required(
            search_notes_tool(),
            key,
            seq![JsonModel::Str("query"@)],
        );
    } else if i == 1 {
        lemma_required(
            find_entity_tool(),
            key,
            seq![JsonModel::Str("name"@)],
        );
    } else if i == 2 {
        lemma_required(
            related_facts_tool(),
            key,
            seq![JsonModel::Str("entity"@)],
        );
    } else if i == 3 {
        lemma_required(
            find_contradiction_tool(),
            key,
            seq![JsonModel::Str("subject"@), JsonModel::Str("predicate"@), JsonModel::Str("object"@)],
        );
    } else if i == 4 {
        lemma_required(
            record_fact_tool(),
            key,
            seq![JsonModel::Str("subject"@), JsonModel::Str("subject_type"@), JsonModel::Str("predicate"@), JsonModel::Str("object"@), JsonModel::Str("object_type"@)],
        );
    } else if i == 5 {
        lemma_required(
            retract_fact_tool(),
            key,
            seq![JsonModel::Str("fact_id"@)],
        );
    } else if i == 6 {
        lemma_required(
            record_task_tool(),
            key,
            seq![JsonModel::Str("title"@)],
        );
    } else if i == 7 {
        lemma_required(
            record_open_loop_tool(),
            key,
            seq![JsonModel::Str("title"@)],
        );
    } else if i == 8 {
        lemma_required(
            close_open_loop_tool(),
            key,
            seq![JsonModel::Str("loop_id"@)],
        );
    }
}

proof fn lemma_required(t: ToolSchemaView, key: Seq<char>, required: Seq<JsonModel>)
    requires
        is_required(t.parameters, key),
        exists|properties: Map<Seq<char>, JsonModel>|
            t.parameters == #[trigger] object_schema(properties, required),
    ensures
        required.contains(JsonModel::Str(key)),
{
    let properties = choose|properties: Map<Seq<char>, JsonModel>|
        t.parameters == #[trigger] object_schema(properties, required);
    assert(json::member(t.parameters, "required"@) == Some(JsonModel::Array(required)));
}

proof fn lemma_names_differ()
    ensures
        "find_entity"@ != "search_notes"@,
        "related_facts"@ != "search_notes"@,
        "related_facts"@ != "find_entity"@,
        "find_contradiction"@ != "search_notes"@,
        "find_contradiction"@ != "find_entity"@,
        "find_contradiction"@ != "related_facts"@,
        "record_fact"@ != "search_notes"@,
        "record_fact"@ != "find_entity"@,
        "record_fact"@ != "related_facts"@,
        "record_fact"@ != "find_contradiction"@,
        "retract_fact"@ != "search_notes"@,
        "retract_fact"@ != "find_entity"@,
        "retract_fact"@ != "related_facts"@,
        "retract_fact"@ != "find_contradiction"@,
        "retract_fact"@ != "record_fact"@,
        "record_task"@ != "search_notes"@,
        "record_task"@ != "find_entity"@,
        "record_task"@ != "related_facts"@,
        "record_task"@ != "find_contradiction"@,
        "record_task"@ != "record_fact"@,
        "record_task"@ != "retract_fact"@,
        "record_open_loop"@ != "search_notes"@,
        "record_open_loop"@ != "find_entity"@,
        "record_open_loop"@ != "related_facts"@,
        "record_open_loop"@ != "find_contradiction"@,
        "record_open_loop"@ != "record_fact"@,
        "record_open_loop"@ != "retract_fact"@,
        "record_open_loop"@ != "record_task"@,
        "close_open_loop"@ != "search_notes"@,
        "close_open_loop"@ != "find_entity"@,
        "close_open_loop"@ != "related_facts"@,
        "close_open_loop"@ != "find_contradiction"@,
        "close_open_loop"@ != "record_fact"@,
        "close_open_loop"@ != "retract_fact"@,
        "close_open_loop"@ != "record_task"@,
        "close_open_loop"@ != "record_open_loop"@,
{
    reveal_strlit("search_notes");
    reveal_strlit("find_entity");
    reveal_strlit("related_facts");
    reveal_strlit("find_contradiction");
    reveal_strlit("record_fact");
    reveal_strlit("retract_fact");
    reveal_strlit("record_task");
    reveal_strlit("record_open_loop");
    reveal_strlit("close_open_loop");
    assert("search_notes"@.len() == 12);
    assert("find_entity"@.len() == 11);
    assert("related_facts"@.len() == 13);
    assert("find_contradiction"@.len() == 18);
    assert("record_fact"@.len() == 11);
    assert("retract_fact"@.len() == 12);
    assert("record_task"@.len() == 11);
    assert("record_open_loop"@.len() == 16);
    assert("close_open_loop"@.len() == 15);
    assert("find_entity"@[0] != "record_fact"@[0]);
    assert("find_entity"@[0] != "record_task"@[0]);
    assert("record_fact"@[7] != "record_task"@[7]);
    assert("search_notes"@[0] != "retract_fact"@[0]);
}

/// A parameter that a schema requires.
pub open spec fn is_required(schema: JsonModel, key: Seq<char>) -> bool {
    match json::member(schema, "required"@) {
        Some(JsonModel::Array(a)) => a.contains(JsonModel::Str(key)),
        _ => false,
    }
}

/// The tool takes a parameter of that name.
pub open spec fn takes(t: ToolSchemaView, key: Seq<char>) -> bool {
    match json::member(t.parameters, "properties"@) {
        Some(p) => json::member(p, key) is Some,
        None => false,
    }
}

/// Each tool describes the parameters that it reads, and asks for those that it cannot do
/// without.
pub proof fn law_tools_describe_what_they_read()
    ensures
        takes(search_notes_tool(), "query"@) && is_required(search_notes_tool().parameters, "query"@),
        takes(search_notes_tool(), "k"@),
        takes(find_entity_tool(), "name"@) && is_required(find_entity_tool().parameters, "name"@),
        takes(related_facts_tool(), "entity"@) && is_required(related_facts_tool().parameters, "entity"@),
        forall|k: Seq<char>|
            k == "subject"@ || k == "predicate"@ || k == "object"@ ==> #[trigger] takes(
                find_contradiction_tool(),
                k,
            ) && is_required(find_contradiction_tool().parameters, k) && takes(record_fact_tool(), k) && is_required(
                record_fact_tool().parameters,
                k,
            ),
        forall|k: Seq<char>|
            k == "subject_type"@ || k == "object_type"@ ==> #[trigger] takes(record_fact_tool(), k)
                && is_required(record_fact_tool().parameters, k),
        takes(record_fact_tool(), "valid_from"@) && takes(record_fact_tool(), "valid_to"@),
        takes(retract_fact_tool(), "fact_id"@) && is_required(retract_fact_tool().parameters, "fact_id"@),
        takes(record_task_tool(), "title"@) && is_required(record_task_tool().parameters, "title"@),
        takes(record_task_tool(), "due"@),
        takes(record_open_loop_tool(), "title"@) && is_required(record_open_loop_tool().parameters, "title"@),
        takes(record_open_loop_tool(), "context"@),
        takes(close_open_loop_tool(), "loop_id"@) && is_required(close_open_loop_tool().parameters, "loop_id"@),
{
    reveal_strlit("type");
    reveal_strlit("properties");
    reveal_strlit("required");
    assert("type"@.len() == 4);
    assert("properties"@.len() == 10);
    assert("required"@.len() == 8);
    lemma_is_required(search_notes_tool(), 0, "query"@);
    lemma_is_required(find_entity_tool(), 0, "name"@);
    lemma_is_required(related_facts_tool(), 0, "entity"@);
    lemma_is_required(find_contradiction_tool(), 0, "subject"@);
    lemma_is_required(find_contradiction_tool(), 1, "predicate"@);
    lemma_is_required(find_contradiction_tool(), 2, "object"@);
    lemma_is_required(record_fact_tool(), 0, "subject"@);
    lemma_is_required(record_fact_tool(), 1, "subject_type"@);
    lemma_is_required(record_fact_tool(), 2, "predicate"@);
    lemma_is_required(record_fact_tool(), 3, "object"@);
    lemma_is_required(record_fact_tool(), 4, "object_type"@);
    lemma_is_required(retract_fact_tool(), 0, "fact_id"@);
    lemma_is_required(record_task_tool(), 0, "title"@);
    lemma_is_required(record_open_loop_tool(), 0, "title"@);
    lemma_is_required(close_open_loop_tool(), 0, "loop_id"@);
}

proof fn lemma_is_required(t: ToolSchemaView, i: int, key: Seq<char>)
    requires
        json::member(t.parameters, "required"@) matches Some(JsonModel::Array(a)) && 0 <= i
            < a.len() && a[i] == JsonModel::Str(key),
    ensures
        is_required(t.parameters, key),
{
}

/// What is to be recorded is told as it was asked for, each end as that end.
pub proof fn law_facts_to_record_keep_their_ends(f: RecordFact)
    ensures
        f@.subject == f.subject@ && f@.subject_type == f.subject_type@,
        f@.object == f.object@ && f@.object_type == f.object_type@,
        f@.predicate == f.predicate@,
        f@.valid_from == f.valid_from && f@.valid_to == f.valid_to,
{
}

} // verus!
