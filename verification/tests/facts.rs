//! Facts: how they stand in notes, how they are staged and kept, and the tools
//! that an agent records them with.
use sediment::datetime::{Date, Timestamp};
use sediment::diff_gen::{
    apply_facts_to_note, escape, humanize, parse_note, parse_quoted_pair, predicate_phrasing,
    predicate_phrasing_past, render_fact_bullet,
};
use sediment::formation_mcp::{call_arguments, memory_dir, tool_reply, ToolReply, INSTRUCTIONS};
use sediment::formation_tools::{
    close_open_loop, contradictions, dispatch, fact_recorded, fact_to_json, find_entity,
    loop_recorded, object_id_for, opt_str, parse_dt, recorded_edge, related_facts, req_str,
    retract_fact,
    search_results, task_line, task_recorded, task_row, tool_schemas, EntityRow, FactRow,
    SearchHit, ToolCall, ToolContext, UpsertedEntity,
};
use sediment::json::{from_serde, parse, print, to_serde, Json};
use sediment::memory::slugify;
use sediment::staging::{
    apply_disambiguation, assemble_note_change, commit_changes, dismiss_disambiguation, fact_edge,
    finish_commit, is_spent, list_staging, put_change, reassemble_changes, render_change, resolve_conflict,
    snapshot_dir, staged_fact_note_path, staging_dir, undo_commit, Candidate, ChangeKind,
    Confidence, ConflictStep, EndpointLookup, ExistingFact, FactLookup, NoteChange, StagedFact,
    StagingEntry, UndoStep,
};
use sediment::tasks::{complete_task, snooze_task, TaskStatus};

fn at(secs: i64) -> Timestamp {
    Timestamp { secs, nanos: 0 }
}

fn conf(f: f64) -> Confidence {
    Confidence { bits: f.to_bits() }
}

fn fact(predicate: &str, object: &str) -> StagedFact {
    StagedFact {
        subject_id: "entity:bill_gates".to_string(),
        subject_name: "Bill Gates".to_string(),
        subject_type: "person".to_string(),
        predicate: predicate.to_string(),
        object_id: format!("entity:{}", slugify(object)),
        object_name: object.to_string(),
        object_type: "organization".to_string(),
        valid_from: at(1_750_000_000),
        valid_from_explicit: false,
        valid_to: None,
        confidence: conf(0.9),
        explicit_coexist: false,
    }
}

#[test]
fn predicate_phrasing_table_and_fallback() {
    assert_eq!(predicate_phrasing("works_at"), "Works at");
    assert_eq!(predicate_phrasing("founded"), "Founded");
    assert_eq!(predicate_phrasing("headquartered_in"), "Headquartered in");
    // What is not in the table is made readable.
    assert_eq!(predicate_phrasing("co_authored"), "Co authored");
}

#[test]
fn render_fact_bullet_plain_and_dated() {
    let f = fact("founded", "Microsoft");
    assert_eq!(render_fact_bullet(&f), "- Founded Microsoft");
    let mut dated = fact("joined", "Acme");
    dated.valid_from_explicit = true;
    // The first of June 2021.
    dated.valid_from = at(1_622_505_600);
    assert_eq!(render_fact_bullet(&dated), "- Joined Acme (2021)");
    let mut past = fact("works_at", "Acme");
    past.valid_to = Some(at(1_622_505_600));
    let bullet = render_fact_bullet(&past);
    assert!(bullet.starts_with(&format!("- {}", predicate_phrasing_past("works_at"))));
}

#[test]
fn new_note_gets_frontmatter_and_facts_section() {
    let change = apply_facts_to_note(
        "People/Bill Gates.md",
        None,
        &vec![fact("founded", "Microsoft")],
        "chat_message:abc",
    );
    assert_eq!(change.kind, ChangeKind::Create);
    assert_eq!(change.facts.len(), 1);
    let c = &change.new_content;
    assert!(c.starts_with("---\nchat-notes:\n  facts:\n"));
    assert!(c.contains("\"founded:microsoft\": \"chat_message:abc\""));
    assert!(c.contains("## Facts\n\n- Founded Microsoft"));
    assert!(c.ends_with('\n'));
}

#[test]
fn update_appends_under_facts_without_disturbing_prose() {
    let existing = "---\ntags: [people]\n---\n\nBill is a person I know.\n\n## Facts\n\n- Founded Microsoft\n\n## Notes\n\nMet him in 1998.\n";
    let change = apply_facts_to_note(
        "People/Bill Gates.md",
        Some(existing),
        &vec![fact("invests_in", "Cascade")],
        "chat_message:def",
    );
    assert_eq!(change.kind, ChangeKind::Update);
    let c = &change.new_content;
    assert!(c.contains("tags: [people]"));
    assert!(c.contains("\"invests_in:cascade\": \"chat_message:def\""));
    assert!(c.contains("- Founded Microsoft"));
    assert!(c.contains("- Invests in Cascade"));
    assert!(c.contains("Bill is a person I know."));
    assert!(c.contains("## Notes\n\nMet him in 1998."));
    let facts_at = c.find("- Invests in Cascade").unwrap();
    let notes_at = c.find("## Notes").unwrap();
    assert!(facts_at < notes_at);
}

#[test]
fn re_applying_the_same_fact_is_idempotent() {
    let first = apply_facts_to_note(
        "People/Bill Gates.md",
        None,
        &vec![fact("founded", "Microsoft")],
        "chat_message:abc",
    );
    let second = apply_facts_to_note(
        "People/Bill Gates.md",
        Some(&first.new_content),
        &vec![fact("founded", "Microsoft")],
        "chat_message:xyz",
    );
    assert!(second.facts.is_empty(), "the fact is not staged again");
    assert_eq!(second.new_content, first.new_content);
    assert_eq!(first.new_content.matches("- Founded Microsoft").count(), 1);
}

#[test]
fn duplicate_facts_within_one_batch_collapse() {
    let change = apply_facts_to_note(
        "People/Bill Gates.md",
        None,
        &vec![fact("founded", "Microsoft"), fact("founded", "Microsoft")],
        "chat_message:abc",
    );
    assert_eq!(change.facts.len(), 1);
    assert_eq!(change.new_content.matches("- Founded Microsoft").count(), 1);
}

#[test]
fn note_without_facts_section_appends_one() {
    let existing = "Just some freeform notes about Bill.\n";
    let change = apply_facts_to_note(
        "People/Bill Gates.md",
        Some(existing),
        &vec![fact("works_at", "Acme")],
        "chat_message:q",
    );
    let c = &change.new_content;
    assert!(c.contains("Just some freeform notes about Bill."));
    assert!(c.contains("## Facts\n\n- Works at Acme"));
    assert!(change.diff.contains("+- Works at Acme"));
}

#[test]
fn provenance_is_read_back() {
    let change = apply_facts_to_note(
        "People/Bill Gates.md",
        None,
        &vec![fact("founded", "Micro\"soft\\")],
        "chat \"x\"",
    );
    let parsed = parse_note(&change.new_content);
    assert_eq!(parsed.provenance.len(), 1);
    assert_eq!(parsed.provenance[0].1, "chat \"x\"");
    let line = format!("    \"{}\": \"{}\"", escape("a\"b"), escape("c\\d"));
    assert_eq!(
        parse_quoted_pair(&line),
        Some(("a\"b".to_string(), "c\\d".to_string()))
    );
    assert_eq!(parse_quoted_pair("no quotes"), None);
}

#[test]
fn slugs_are_lower_case_with_single_underscores() {
    assert_eq!(slugify("Bill Gates"), "bill_gates");
    assert_eq!(slugify("  --Ünï 42!!"), "ünï_42");
    assert_eq!(slugify("-->"), "");
}

// ---------------------------------------------------------------------------
// Staging
// ---------------------------------------------------------------------------

fn alice_fact() -> StagedFact {
    StagedFact {
        subject_id: "entity:alice".to_string(),
        subject_name: "Alice".to_string(),
        subject_type: "person".to_string(),
        predicate: "founded".to_string(),
        object_id: "entity:acme".to_string(),
        object_name: "Acme".to_string(),
        object_type: "organization".to_string(),
        valid_from: at(1_750_000_000),
        valid_from_explicit: false,
        valid_to: None,
        confidence: conf(0.95),
        explicit_coexist: false,
    }
}

fn sample_change(path: &str) -> NoteChange {
    NoteChange {
        kind: ChangeKind::Create,
        note_path: path.to_string(),
        diff: "+- Founded Acme".to_string(),
        new_content: "---\nchat-notes:\n  facts:\n    \"founded:acme\": \"chat_message:test\"\n---\n\n## Facts\n\n- Founded Acme\n".to_string(),
        confidence: conf(0.95),
        conflicts: vec![],
        suggestions: vec![],
        facts: vec![alice_fact()],
    }
}

fn sample_entry() -> StagingEntry {
    StagingEntry {
        id: "stg_1".to_string(),
        created: at(1_750_000_000),
        chat_message_id: "chat_message:test".to_string(),
        chat_excerpt: "Alice founded Acme.".to_string(),
        status: "pending".to_string(),
        changes: vec![sample_change("People/Alice.md")],
    }
}

#[test]
fn the_tray_is_listed_oldest_first() {
    let named = |id: &str, secs: i64| {
        let mut entry = sample_entry();
        entry.id = id.to_string();
        entry.created = at(secs);
        entry
    };
    let tray = vec![named("c", 30), named("a", 10), named("d", 30), named("b", 20)];
    let ids: Vec<String> = list_staging(tray).into_iter().map(|e| e.id).collect();
    assert_eq!(ids, vec!["a", "b", "c", "d"]);
    assert!(list_staging(Vec::new()).is_empty());
}

#[test]
fn stage_then_keep_writes_note_and_graph() {
    let entry = sample_entry();
    let plan = commit_changes(&entry, None).expect("commit");
    assert_eq!(plan.to_commit.len(), 1);
    assert!(plan.to_commit[0].new_content.contains("- Founded Acme"));
    assert!(plan.to_keep.is_empty());
    let edge = fact_edge(&plan.to_commit[0].facts[0], "entity:alice", "entity:acme", "chat");
    assert_eq!(edge.predicate, "founded");
    assert_eq!(edge.subject_id, "entity:alice");
    let (result, undo) = finish_commit(entry, plan, &vec![true], &vec!["fact:1".to_string()]);
    assert_eq!(result.committed_notes, vec!["People/Alice.md"]);
    assert_eq!(result.new_fact_ids.len(), 1);
    assert!(result.remaining.is_none(), "the proposal is used up");
    assert_eq!(undo.commit_id, result.commit_id);
    assert_eq!(undo_commit(&undo), vec![UndoStep::Delete("People/Alice.md".to_string())]);
    assert_eq!(
        snapshot_dir("/f", &result.commit_id),
        format!("/f/.chat-notes/snapshots/{}", result.commit_id)
    );
}

#[test]
fn stage_then_discard_is_a_noop() {
    // Nothing that is staged touches a note before it is kept.
    let entry = sample_entry();
    assert_eq!(staging_dir("/f"), "/f/.chat-notes/staging");
    assert!(!is_spent(&entry));
    assert!(commit_changes(&entry, Some(vec!["Other.md".to_string()])).is_err());
}

#[test]
fn keeping_a_part_leaves_the_rest() {
    let mut entry = sample_entry();
    entry.changes.push(sample_change("People/Bob.md"));
    let plan = commit_changes(&entry, Some(vec!["People/Bob.md".to_string()])).expect("commit");
    assert_eq!(plan.to_commit[0].note_path, "People/Bob.md");
    assert_eq!(plan.to_keep[0].note_path, "People/Alice.md");
    let (result, undo) = finish_commit(entry, plan, &vec![false], &vec![]);
    let left = result.remaining.expect("one change is left");
    assert_eq!(left.changes.len(), 1);
    assert_eq!(left.changes[0].note_path, "People/Alice.md");
    assert_eq!(undo_commit(&undo), vec![UndoStep::Restore("People/Bob.md".to_string())]);
    assert_eq!(undo.entry_snapshot.changes.len(), 2);
}

fn endpoint(known: bool, similar: Vec<Candidate>) -> EndpointLookup {
    EndpointLookup { known, similar }
}

fn conflicting() -> ExistingFact {
    ExistingFact {
        predicate: "founded".to_string(),
        object_id: "entity:globex".to_string(),
        object_name: "Globex".to_string(),
        valid_from: at(1),
        source_chat_id: "chat_message:old".to_string(),
    }
}

#[test]
fn conflicts_and_likenesses_are_raised() {
    let candidate = Candidate {
        id: "entity:alicia".to_string(),
        canonical_name: "Alicia".to_string(),
        entity_type: "person".to_string(),
        note_path: Some("People/Alicia.md".to_string()),
        score: conf(0.9),
    };
    let change = assemble_note_change(
        sample_change("People/Alice.md"),
        &vec![FactLookup {
            conflicts: vec![conflicting()],
            subject: endpoint(false, vec![candidate]),
            object: endpoint(true, vec![]),
        }],
    );
    assert_eq!(change.conflicts.len(), 1);
    assert_eq!(change.conflicts[0].existing_object_name, "Globex");
    assert_eq!(change.suggestions.len(), 1);
    assert_eq!(change.suggestions[0].candidate_name, "Alicia");
    let mut entry = sample_entry();
    entry.changes = vec![change];

    // The likeness is dismissed, or taken up.
    let endpoint_name = entry.changes[0].suggestions[0].endpoint.clone();
    let facts = apply_disambiguation(&entry, "People/Alice.md", 0, &endpoint_name).expect("apply");
    assert_eq!(facts[0].subject_id, "entity:alicia");
    let entry =
        dismiss_disambiguation(entry, "People/Alice.md", 0, &endpoint_name).expect("dismiss");
    assert!(entry.changes[0].suggestions.is_empty());
    assert!(apply_disambiguation(&entry, "People/Alice.md", 0, "subject").is_err());
}

#[test]
fn a_conflict_is_answered() {
    let with_conflict = || {
        let mut entry = sample_entry();
        entry.changes = vec![assemble_note_change(
            sample_change("People/Alice.md"),
            &vec![FactLookup {
                conflicts: vec![conflicting()],
                subject: endpoint(true, vec![]),
                object: endpoint(true, vec![]),
            }],
        )];
        entry
    };
    assert!(resolve_conflict(with_conflict(), "People/Alice.md", 0, "shrug").is_err());
    assert!(resolve_conflict(with_conflict(), "Nowhere.md", 0, "coexist").is_err());
    match resolve_conflict(with_conflict(), "People/Alice.md", 0, "coexist").expect("answer") {
        ConflictStep::Answered(e) => {
            assert!(e.changes[0].conflicts.is_empty(), "the banner is gone");
            assert!(e.changes[0].facts[0].explicit_coexist);
        }
        other => panic!("expected an answer, got {other:?}"),
    }
    match resolve_conflict(with_conflict(), "People/Alice.md", 0, "discard").expect("answer") {
        ConflictStep::Rebuild { entry, pos, facts } => {
            assert!(facts.is_empty());
            let entry = put_change(entry, pos, None);
            assert!(is_spent(&entry));
        }
        other => panic!("expected a rebuild, got {other:?}"),
    }
}

#[test]
fn facts_are_filed_with_their_note() {
    let facts = vec![alice_fact(), fact("founded", "Microsoft"), alice_fact()];
    let routed = vec![
        "People/Alice.md".to_string(),
        "People/Bill Gates.md".to_string(),
        "People/Alice.md".to_string(),
    ];
    let groups = reassemble_changes(&facts, &routed);
    assert_eq!(groups.len(), 2);
    assert_eq!(groups[0].note_path, "People/Alice.md");
    assert_eq!(groups[0].facts.len(), 2);
    assert_eq!(groups[1].facts.len(), 1);
    assert_eq!(staged_fact_note_path(&alice_fact(), "People/Alice.md"), "People/Alice.md");
    assert!(render_change("People/Alice.md", None, &vec![alice_fact()], "chat").is_some());
    let done = render_change("People/Alice.md", None, &vec![alice_fact()], "chat").unwrap();
    assert!(
        render_change("People/Alice.md", Some(&done.new_content), &vec![alice_fact()], "chat")
            .is_none(),
        "nothing new, no change"
    );
}

// ---------------------------------------------------------------------------
// The tools
// ---------------------------------------------------------------------------

fn now() -> Timestamp {
    at(1_750_000_000)
}

fn call(name: &str, args: &str) -> Result<ToolCall, String> {
    dispatch(name, &parse(args).unwrap(), now()).map_err(|e| e.message())
}

fn value(j: &Json) -> serde_json::Value {
    serde_json::from_str(&print(j)).unwrap()
}

fn row(predicate: &str, object: &str) -> FactRow {
    FactRow {
        id: "fact:1".to_string(),
        subject: "Josh".to_string(),
        predicate: predicate.to_string(),
        object: object.to_string(),
        valid_from: at(0),
        valid_to: None,
    }
}

const NINE: [&str; 9] = [
    "search_notes",
    "find_entity",
    "related_facts",
    "find_contradiction",
    "record_fact",
    "retract_fact",
    "record_task",
    "record_open_loop",
    "close_open_loop",
];

const WORKS_AT: &str = r#"{
    "subject": "Josh", "subject_type": "person",
    "predicate": "works_at",
    "object": "Cloudflare", "object_type": "organization"
}"#;

#[test]
fn tool_schemas_lists_the_nine_tools() {
    let schemas = tool_schemas();
    assert_eq!(schemas.len(), 9);
    let names: Vec<&str> = schemas.iter().map(|s| s.name).collect();
    for expected in NINE {
        assert!(names.contains(&expected), "missing tool {expected}");
    }
    for s in &schemas {
        assert_eq!(s.parameters.get_str("type"), Some("object"), "{} schema", s.name);
    }
}

/// What each tool takes, as the engine is told it.
const SCHEMAS: [(&str, &str); 9] = [
    (
        "search_notes",
        r#"{
            "type": "object",
            "properties": {
                "query": { "type": "string", "description": "What to search for, in natural language." },
                "k": { "type": "integer", "description": "How many excerpts to return (default 5).", "minimum": 1, "maximum": 50 }
            },
            "required": ["query"]
        }"#,
    ),
    (
        "find_entity",
        r#"{
            "type": "object",
            "properties": {
                "name": { "type": "string", "description": "The entity's name." }
            },
            "required": ["name"]
        }"#,
    ),
    (
        "related_facts",
        r#"{
            "type": "object",
            "properties": {
                "entity": { "type": "string", "description": "The entity's name." }
            },
            "required": ["entity"]
        }"#,
    ),
    (
        "find_contradiction",
        r#"{
            "type": "object",
            "properties": {
                "subject": { "type": "string", "description": "The entity the relationship is about." },
                "predicate": { "type": "string", "description": "The relationship type, e.g. works_at, reports_to." },
                "object": { "type": "string", "description": "The entity on the other end of the relationship." }
            },
            "required": ["subject", "predicate", "object"]
        }"#,
    ),
    (
        "record_fact",
        r#"{
            "type": "object",
            "properties": {
                "subject": { "type": "string", "description": "The entity the relationship is about." },
                "subject_type": { "type": "string", "description": "One of: person, organization, meeting, project, task, topic, location, date, event." },
                "predicate": { "type": "string", "description": "The relationship type, e.g. works_at, reports_to, lives_in." },
                "object": { "type": "string", "description": "The entity on the other end." },
                "object_type": { "type": "string", "description": "One of: person, organization, meeting, project, task, topic, location, date, event." },
                "valid_from": { "type": "string", "description": "When the relationship began (YYYY-MM-DD or RFC3339). Defaults to now." },
                "valid_to": { "type": "string", "description": "When the relationship ended, if it is historical (YYYY-MM-DD or RFC3339)." }
            },
            "required": ["subject", "subject_type", "predicate", "object", "object_type"]
        }"#,
    ),
    (
        "retract_fact",
        r#"{
            "type": "object",
            "properties": {
                "fact_id": { "type": "string", "description": "The id of the Fact to retract, e.g. fact:abc123." }
            },
            "required": ["fact_id"]
        }"#,
    ),
    (
        "record_task",
        r#"{
            "type": "object",
            "properties": {
                "title": { "type": "string", "description": "What the reminder is for." },
                "due": { "type": "string", "description": "The due date (YYYY-MM-DD), if there is one." }
            },
            "required": ["title"]
        }"#,
    ),
    (
        "record_open_loop",
        r#"{
            "type": "object",
            "properties": {
                "title": { "type": "string", "description": "The open loop, as a short phrase." },
                "context": { "type": "string", "description": "Optional detail or why it matters." }
            },
            "required": ["title"]
        }"#,
    ),
    (
        "close_open_loop",
        r#"{
            "type": "object",
            "properties": {
                "loop_id": { "type": "string", "description": "The id of the open loop to close." }
            },
            "required": ["loop_id"]
        }"#,
    ),
];

#[test]
fn rmcp_tools_advertises_the_nine_tools() {
    let schemas = tool_schemas();
    assert_eq!(schemas.len(), 9, "nine graph tools");
    let names: Vec<&str> = schemas.iter().map(|s| s.name).collect();
    for expected in NINE {
        assert!(names.contains(&expected), "missing tool {expected}");
    }
    for s in &schemas {
        assert!(!s.description.is_empty(), "{} has a description", s.name);
        let schema = to_serde(&s.parameters);
        let schema = schema.as_object().expect("an object");
        assert_eq!(schema.get("type").and_then(|v| v.as_str()), Some("object"));
        assert!(schema.contains_key("properties"), "{} has properties", s.name);
    }
}

#[test]
fn rmcp_tools_match_formation_tool_schemas() {
    let schemas = tool_schemas();
    assert_eq!(schemas.len(), SCHEMAS.len());
    for (s, (name, expected)) in schemas.iter().zip(SCHEMAS) {
        assert_eq!(s.name, name);
        let expected: serde_json::Value = serde_json::from_str(expected).unwrap();
        assert_eq!(to_serde(&s.parameters), expected, "{name} schema");
    }
}

#[test]
fn a_recorded_fact_is_certain_and_supersedes() {
    let Ok(ToolCall::RecordFact(fact)) = call("record_fact", WORKS_AT) else {
        panic!("no fact");
    };
    let edge = recorded_edge(&fact, "entity:josh", "entity:acme", "chat_message:1");
    assert_eq!(edge.subject_id, "entity:josh");
    assert_eq!(edge.predicate, "works_at");
    assert_eq!(edge.object_id, "entity:acme");
    assert_eq!(edge.valid_from, fact.valid_from);
    assert_eq!(edge.valid_to, fact.valid_to);
    assert_eq!(edge.source_chat_id, "chat_message:1");
    assert_eq!(edge.confidence, conf(1.0));
    assert!(edge.supersedes);
}

#[test]
fn an_integer_is_the_same_however_it_is_held() {
    let back = from_serde(to_serde(&Json::Big(5)));
    assert_eq!(back.as_i64(), Some(5));
    assert_eq!(Json::Big(5).as_i64(), Some(5));
    assert_eq!(Json::Big(u64::MAX).as_i64(), None);
    assert_eq!(parse(&print(&Json::Big(u64::MAX))).unwrap().as_u64(), Some(u64::MAX));
}

#[test]
fn user_keys_behind_the_block_are_the_users() {
    let existing = "---\nchat-notes:\n  facts:\n    \"founded:microsoft\": \"c1\"\ntags: [people]\n---\n\n## Facts\n\n- Founded Microsoft\n";
    let facts = [fact("works_at", "Acme")].to_vec();
    let c = apply_facts_to_note("People/Bill Gates.md", Some(existing), &facts, "c2").new_content;
    assert!(c.lines().any(|l| l == "tags: [people]"));
    assert_eq!(
        c,
        "---\ntags: [people]\nchat-notes:\n  facts:\n    \"founded:microsoft\": \"c1\"\n    \"works_at:acme\": \"c2\"\n---\n\n## Facts\n\n- Founded Microsoft\n- Works at Acme\n"
    );
}

#[test]
fn a_note_is_written_anew_in_its_managed_parts_alone() {
    let existing = "---\ntags: [people]\n---\n\nBill is a person I know.\n\n## Facts\n\n- Founded Microsoft\n\n## Notes\n\nMet him in 1998.\n";
    let facts = [fact("invests_in", "Cascade")].to_vec();
    let change =
        apply_facts_to_note("People/Bill Gates.md", Some(existing), &facts, "chat_message:def");
    assert_eq!(
        change.new_content,
        "---\ntags: [people]\nchat-notes:\n  facts:\n    \"invests_in:cascade\": \"chat_message:def\"\n---\n\nBill is a person I know.\n\n## Facts\n\n- Founded Microsoft\n- Invests in Cascade\n\n## Notes\n\nMet him in 1998.\n"
    );
    // A second fact adds its two lines and nothing else.
    let more = [fact("works_at", "Acme")].to_vec();
    let again = apply_facts_to_note("x.md", Some(&change.new_content), &more, "c3").new_content;
    assert_eq!(again.lines().count(), change.new_content.lines().count() + 2);
    let p = parse_note(&again);
    assert_eq!(p.user_frontmatter, "tags: [people]\n");
    assert_eq!(p.prose_before, "\nBill is a person I know.\n\n");
    assert_eq!(p.prose_after, "## Notes\n\nMet him in 1998.\n");
}

#[test]
fn prose_keeps_its_endings_and_blank_lines() {
    let existing = "One.\r\nTwo.\r\n\r\n## Facts\r\n\r\n- Knows Al\r\n\r\n## Notes\r\n\r\nEnd.\r\n\r\n\r\n";
    let facts = [fact("works_at", "Acme")].to_vec();
    let c = apply_facts_to_note("x.md", Some(existing), &facts, "c").new_content;
    assert!(c.contains("\n\nOne.\r\nTwo.\r\n\r\n## Facts\n\n- Knows Al\n- Works at Acme\n"));
    assert!(c.ends_with("\n## Notes\r\n\r\nEnd.\r\n\r\n\r\n"));
}

#[test]
fn filing_in_two_steps_is_filing_at_once() {
    let one = || fact("founded", "Microsoft");
    let two = || fact("invests_in", "Cascade");
    let made = apply_facts_to_note("x.md", None, &[one()].to_vec(), "c").new_content;
    let stepwise = apply_facts_to_note("x.md", Some(&made), &[two(), one()].to_vec(), "c");
    let at_once = apply_facts_to_note("x.md", None, &[one(), two(), one()].to_vec(), "c");
    assert_eq!(stepwise.new_content, at_once.new_content);
}

#[test]
fn every_wording_follows_the_rule() {
    for p in ["works_at", "former_member_of", "collaborates_with", "headquartered_in", "co_authored"] {
        assert_eq!(predicate_phrasing(p), humanize(p));
    }
    assert_eq!(humanize("former_member_of"), "Former member of");
}

#[test]
fn the_least_confidence_counts_even_below_zero() {
    let with = |object: &str, c: f64| {
        let mut f = fact("knows", object);
        f.confidence = conf(c);
        f
    };
    let least = |facts: Vec<StagedFact>| {
        apply_facts_to_note("x.md", None, &facts, "c").confidence
    };
    assert_eq!(least([with("Al", 0.9), with("Bo", 0.4), with("Cy", 0.7)].to_vec()), conf(0.4));
    assert_eq!(least([with("Al", 0.9), with("Bo", -0.5)].to_vec()), conf(-0.5));
    assert_eq!(least([with("Al", -0.2), with("Bo", -0.5), with("Cy", 0.0)].to_vec()), conf(-0.5));
    assert_eq!(least([with("Al", f64::NAN), with("Bo", 0.3)].to_vec()), conf(0.3));
}

#[test]
fn dispatch_rejects_an_unknown_tool() {
    assert!(call("no_such_tool", "{}").is_err());
}

#[test]
fn open_loop_record_and_close_via_dispatch() {
    assert_eq!(
        call("record_open_loop", r#"{ "title": "Decide on vendor" }"#),
        Ok(ToolCall::RecordOpenLoop { title: "Decide on vendor".to_string(), context: None })
    );
    let created = value(&loop_recorded("open_loop:1", "Decide on vendor"));
    let loop_id = created["loop_id"].as_str().expect("loop_id");
    assert!(loop_id.starts_with("open_loop:"));
    assert_eq!(
        call("close_open_loop", r#"{ "loop_id": "open_loop:1" }"#),
        Ok(ToolCall::CloseOpenLoop { loop_id: "open_loop:1".to_string() })
    );
    assert_eq!(value(&close_open_loop("open_loop:1"))["closed"], true);
}

#[test]
fn record_fact_then_find_entity_round_trip() {
    match call("record_fact", WORKS_AT) {
        Ok(ToolCall::RecordFact(f)) => {
            assert_eq!(f.subject, "Josh");
            assert_eq!(f.object, "Cloudflare");
            assert_eq!(f.valid_from, now());
            assert_eq!(f.valid_to, None);
        }
        other => panic!("expected a fact, got {other:?}"),
    }
    let up = |id: &str, was_new: bool| UpsertedEntity { id: id.to_string(), was_new };
    let rec = value(&fact_recorded("fact:1", &up("person:josh", true), &up("org:cf", false)));
    assert!(rec["fact_id"].as_str().unwrap().starts_with("fact:"));
    assert_eq!(rec["subject_was_new"], true);

    let josh = EntityRow {
        id: "person:josh".to_string(),
        canonical_name: "Josh".to_string(),
        entity_type: "person".to_string(),
        note_path: None,
    };
    let found = value(&find_entity(Some(&josh), &vec![row("works_at", "Cloudflare")]));
    assert_eq!(found["found"], true);
    let facts = found["current_facts"].as_array().unwrap();
    assert_eq!(facts.len(), 1);
    assert_eq!(facts[0]["predicate"], "works_at");
    assert_eq!(facts[0]["current"], true);
    assert_eq!(value(&find_entity(None, &vec![]))["found"], false);
}

#[test]
fn record_fact_rejects_an_invalid_entity_type() {
    let args = WORKS_AT.replace("\"person\"", "\"wizard\"");
    assert!(call("record_fact", &args).is_err());
}

#[test]
fn find_contradiction_flags_a_conflicting_employer() {
    assert_eq!(
        call(
            "find_contradiction",
            r#"{ "subject": "Josh", "predicate": "works_at", "object": "Acme" }"#
        ),
        Ok(ToolCall::FindContradiction {
            subject: "Josh".to_string(),
            predicate: "works_at".to_string(),
            object: "Acme".to_string(),
        })
    );
    let hits = value(&contradictions(&vec![ExistingFact {
        object_name: "Cloudflare".to_string(),
        ..conflicting()
    }]));
    let hits = hits["contradictions"].as_array().unwrap();
    assert_eq!(hits.len(), 1);
    assert_eq!(hits[0]["existing_object"], "Cloudflare");
    assert!(value(&contradictions(&vec![]))["contradictions"].as_array().unwrap().is_empty());
    assert_eq!(object_id_for(Some("org:cf".to_string()), "Cloudflare"), "org:cf");
    assert_ne!(object_id_for(None, "Acme"), "org:cf");
}

#[test]
fn retract_fact_removes_the_edge() {
    assert_eq!(
        call("retract_fact", r#"{ "fact_id": "fact:1" }"#),
        Ok(ToolCall::RetractFact { fact_id: "fact:1".to_string() })
    );
    assert!(print(&retract_fact("fact:1")).contains("fact:1"));
}

#[test]
fn record_fact_with_valid_to_is_historical() {
    let args = r#"{
        "subject": "Josh", "subject_type": "person",
        "predicate": "worked_at",
        "object": "Cloudflare", "object_type": "organization",
        "valid_from": "2019-01-01", "valid_to": "2020-01-01"
    }"#;
    match call("record_fact", args) {
        Ok(ToolCall::RecordFact(f)) => {
            assert_eq!(f.valid_from, at(1_546_300_800));
            assert_eq!(f.valid_to, Some(at(1_577_836_800)));
        }
        other => panic!("expected a fact, got {other:?}"),
    }
    let past = FactRow { valid_to: Some(at(5)), ..row("worked_at", "Cloudflare") };
    let shown = value(&fact_to_json(&past));
    assert_eq!(shown["current"], false);
    assert_eq!(shown["valid_to"], "1970-01-01T00:00:05+00:00");
    let related = value(&related_facts(&vec![]));
    assert!(related["facts"].as_array().unwrap().is_empty());
}

#[test]
fn record_task_writes_the_note_and_the_row() {
    assert_eq!(
        call("record_task", r#"{ "title": "Renew passport", "due": "2026-06-01" }"#),
        Ok(ToolCall::RecordTask {
            title: "Renew passport".to_string(),
            due: Some(Date { year: 2026, month: 6, day: 1 }),
        })
    );
    let due = Some(Date { year: 2026, month: 6, day: 1 });
    let mut lines = vec![task_line("Renew passport", due, "renew_1")];
    assert_eq!(lines[0].title, "Renew passport");
    assert!(!lines[0].done);
    assert_eq!(lines[0].due, due);
    let ctx = ToolContext {
        formation_root: "/f".to_string(),
        source_chat_id: "chat_message:test".to_string(),
    };
    let task = task_row(&ctx, "task:renew_1", "Renew passport", Some(at(7)), now());
    assert_eq!(task.status, TaskStatus::Open);
    assert_eq!(task.remind_at, Some(at(7)));
    assert_eq!(task.source_chat_id.as_deref(), Some("chat_message:test"));
    let told = value(&task_recorded("task:renew_1", "Renew passport", due));
    assert!(told["task_id"].as_str().unwrap().starts_with("task:"));
    assert_eq!(told["due"], "2026-06-01");

    // The task is done once, however often that is said.
    let today = Date { year: 2026, month: 5, day: 30 };
    assert!(complete_task(&mut lines, "renew_1", today));
    assert!(lines[0].done);
    assert_eq!(lines[0].completed, Some(today));
    complete_task(&mut lines, "renew_1", Date { year: 2027, month: 1, day: 1 });
    assert_eq!(lines[0].completed, Some(today));
    assert!(!complete_task(&mut lines, "nobody", today));

    // A task is put off to an instant.
    let later = snooze_task(Some(task), "task:renew_1", "2026-06-02T08:00:00Z").expect("snooze");
    assert_eq!(later.remind_at, Some(at(1_780_387_200)));
    assert!(snooze_task(Some(later), "task:renew_1", "soon").is_err());
    assert!(snooze_task(None, "task:x", "2026-06-02T08:00:00Z").is_err());
}

#[test]
fn search_notes_takes_five_unless_told() {
    assert_eq!(
        call("search_notes", r#"{ "query": "anything", "k": 3 }"#),
        Ok(ToolCall::SearchNotes { query: "anything".to_string(), k: 3 })
    );
    assert_eq!(
        call("search_notes", r#"{ "query": "anything" }"#),
        Ok(ToolCall::SearchNotes { query: "anything".to_string(), k: 5 })
    );
    let hit = SearchHit {
        note_path: "A.md".to_string(),
        chunk_idx: 2,
        text: "x".to_string(),
        distance: parse("0.25").unwrap(),
    };
    let shown = value(&search_results(&vec![hit]));
    assert_eq!(shown["results"][0]["note_path"], "A.md");
    assert_eq!(shown["results"][0]["chunk_idx"], 2);
    assert_eq!(shown["results"][0]["distance"], 0.25);
}

#[test]
fn arguments_are_asked_for_by_name() {
    let args = parse(r#"{ "title": "x", "n": 1 }"#).unwrap();
    assert_eq!(req_str(&args, "title").unwrap(), "x");
    assert!(req_str(&args, "n").is_err());
    assert!(req_str(&args, "missing").is_err());
    assert_eq!(opt_str(&args, "missing"), None);
    assert!(parse_dt("not a date").is_err());
    assert_eq!(parse_dt("1970-01-02").unwrap(), at(86_400));
    assert!(call("record_task", "{}").is_err());
    assert!(call("find_entity", "{}").is_err());
}

#[test]
fn call_tool_error_path_returns_an_error_result() {
    let args = call_arguments(None);
    let err = dispatch("no_such_tool", &args, now()).unwrap_err();
    let said = err.message();
    let reply: ToolReply = tool_reply(Err(err));
    assert!(reply.is_error);
    assert_eq!(reply.text, said);
    assert!(reply.structured.is_none());
    let answer = parse(r#"{"found":false}"#).unwrap();
    let reply = tool_reply(Ok(answer));
    assert!(!reply.is_error);
    assert_eq!(reply.text, r#"{"found":false}"#);
    assert_eq!(memory_dir("/f"), "/f/.chat-notes/memory");
    assert!(INSTRUCTIONS.starts_with("Graph-only tools"));
}
