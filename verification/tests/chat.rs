//! The chat turn: what an agent is told, and what becomes of its answer.
use sediment::agent_tone::{render_system_prompt, AgentTone};
use sediment::audit::ChangedNote;
use sediment::cancel::{CancelMode, CancelRegistry};
use sediment::chat::{
    assemble_grounding, build_engine, chat_turn, history_fetch, history_window, surfaced_loop,
    truncate_chars, turn_fate, turn_result, OpenLoop, TurnContext, TurnFate, WorkingSet,
};
use sediment::conversation::{TranscriptTurn, TurnStop};
use sediment::conversation::TurnOutcome;
use sediment::datetime::Timestamp;
use sediment::error::AppError;
use sediment::formation_state::AppConfig;
use sediment::turn_flow::{FlowAction, FlowEvent, Stage, TurnFlow};

fn turn(role: &str, content: &str) -> TranscriptTurn {
    TranscriptTurn { role: role.to_string(), content: content.to_string() }
}

#[test]
fn assemble_grounding_keeps_priority_and_respects_budget() {
    let a = "A".repeat(100);
    let b = "B".repeat(100);
    let c = "C".repeat(100);
    // The budget fits A, a blank line and B (202 bytes) but leaves no room for C.
    let out = assemble_grounding(&vec![Some(a.clone()), Some(b.clone()), Some(c)], 204).unwrap();
    assert!(out.contains(&a), "highest-priority section kept");
    assert!(out.contains(&b), "second section kept");
    assert!(!out.contains('C'), "overflowing lower-priority section dropped");

    // Nothing to inject.
    assert!(assemble_grounding(&vec![None, None], 1000).is_none());

    // A single oversize section is truncated, not dropped.
    let out = assemble_grounding(&vec![Some("X".repeat(1000))], 100).unwrap();
    assert!(out.len() <= 100, "truncated within budget including the ellipsis");
    assert!(out.ends_with('…'));
}

#[test]
fn missing_sections_are_passed_over() {
    let sections = vec![None, Some("one".to_string()), None, Some("two".to_string())];
    assert_eq!(assemble_grounding(&sections, 1000).as_deref(), Some("one\n\ntwo"));
    // The first section that does not fit ends the text.
    assert_eq!(assemble_grounding(&sections, 5).as_deref(), Some("one"));
    // No blank line is left for a section of which nothing can stand.
    assert_eq!(assemble_grounding(&sections, 6).as_deref(), Some("one"));
    assert_eq!(assemble_grounding(&sections, 7).as_deref(), Some("one"));
    assert_eq!(assemble_grounding(&sections, 8).as_deref(), Some("one\n\ntwo"));
}

#[test]
fn truncation_stays_within_bytes_and_between_characters() {
    assert_eq!(truncate_chars("short", 10), "short");
    assert_eq!(truncate_chars("abcdefghij", 10), "abcdefghij");
    assert_eq!(truncate_chars("abcdefghijk", 10), "abcdefg…");
    // Each of these takes two bytes: three of them and the ellipsis make nine.
    assert_eq!(truncate_chars("éééééé", 10), "ééé…");
    assert_eq!(truncate_chars("abcdef", 2), "");
}

#[test]
fn the_window_drops_the_message_itself() {
    assert_eq!(history_fetch(), 21);
    let w = history_window(
        vec![turn("user", "hi"), turn("assistant", "hello"), turn("user", "again")],
        "again",
    );
    assert_eq!(w, vec![turn("user", "hi"), turn("assistant", "hello")]);
    // Only the last turn can be the message.
    let w = history_window(vec![turn("user", "again"), turn("assistant", "yes")], "again");
    assert_eq!(w.len(), 2);
}

#[test]
fn from_config_defaults_to_warm() {
    assert_eq!(AgentTone::from_config(None), AgentTone::Warm);
    assert_eq!(AgentTone::from_config(Some("")), AgentTone::Warm);
    assert_eq!(AgentTone::from_config(Some("nonsense")), AgentTone::Warm);
    assert_eq!(AgentTone::from_config(Some(" stoic ")), AgentTone::Stoic);
    assert_eq!(AgentTone::from_config(Some("sassy")), AgentTone::Sassy);
    assert_eq!(AgentTone::from_config(Some("warm")), AgentTone::Warm);
}

#[test]
fn render_replaces_the_tone_section_once() {
    let base = "# Agent\n\nDo three things.\n\n## Tone\n\nWarm, concise, direct.\n";
    let stoic = render_system_prompt(base, AgentTone::Stoic);
    // What is not about the tone is kept word for word.
    assert!(stoic.contains("Do three things."));
    // One heading: the section was replaced, not appended.
    assert_eq!(stoic.matches("## Tone").count(), 1);
    assert!(stoic.contains("spare, exacting editor"));
    assert!(!stoic.contains("Warm, concise, direct."));
}

#[test]
fn render_appends_when_marker_absent() {
    let base = "# Agent\n\nNo tone section here.";
    let warm = render_system_prompt(base, AgentTone::Warm);
    assert!(warm.contains("No tone section here."));
    assert_eq!(warm.matches("## Tone").count(), 1);
    assert!(warm.contains("plainspoken"));
}

#[test]
fn the_last_tone_wins() {
    let base = "# Agent\n\n## Tone\n\nplain\n";
    let twice = render_system_prompt(&render_system_prompt(base, AgentTone::Sassy), AgentTone::Stoic);
    assert_eq!(twice, render_system_prompt(base, AgentTone::Stoic));
    for tone in [AgentTone::Stoic, AgentTone::Warm, AgentTone::Sassy] {
        assert_eq!(AgentTone::from_config(Some(tone.as_str())), tone);
    }
}

#[test]
fn cancel_records_mode_and_trips_token() {
    let mut reg = CancelRegistry::default();
    let token = reg.register("t1");
    assert!(!token.is_cancelled());
    assert_eq!(reg.taken_mode("t1"), None);

    reg.cancel("t1", CancelMode::Redirect);
    assert!(token.is_cancelled());
    assert_eq!(reg.taken_mode("t1"), Some(CancelMode::Redirect));
}

#[test]
fn cancel_unknown_id_is_a_noop() {
    let mut reg = CancelRegistry::default();
    reg.cancel("ghost", CancelMode::Steer);
    assert_eq!(reg.taken_mode("ghost"), None);
}

#[test]
fn finish_removes_the_handle() {
    let mut reg = CancelRegistry::default();
    let token = reg.register("t1");
    reg.finish("t1");
    // A late request does not reach the turn that is gone.
    reg.cancel("t1", CancelMode::Steer);
    assert!(!token.is_cancelled());
    assert_eq!(reg.taken_mode("t1"), None);
    reg.finish("t1");
}

#[test]
fn cancelling_one_turn_leaves_the_others() {
    let mut reg = CancelRegistry::default();
    let one = reg.register("one");
    let two = reg.register("two");
    reg.cancel("one", CancelMode::Steer);
    assert!(one.is_cancelled());
    assert!(!two.is_cancelled());
    assert_eq!(reg.taken_mode("two"), None);
    // A turn registered anew has a token of its own.
    let again = reg.register("one");
    assert!(!again.is_cancelled());
    assert_eq!(reg.taken_mode("one"), None);
}

#[test]
fn mode_deserializes_from_lowercase() {
    let s: String = serde_json::from_str("\"steer\"").unwrap();
    assert_eq!(CancelMode::from_word(&s), Some(CancelMode::Steer));
    let r: String = serde_json::from_str("\"redirect\"").unwrap();
    assert_eq!(CancelMode::from_word(&r), Some(CancelMode::Redirect));
    assert_eq!(CancelMode::from_word("Steer"), None);
}

#[test]
fn a_turn_carries_its_grounding_and_history() {
    let mut reg = CancelRegistry::default();
    let context = TurnContext {
        source_chat_id: "chat-1".to_string(),
        recent: vec![turn("user", "hi"), turn("user", "what next?")],
        entities: Some("## Entities\n- Sarah".to_string()),
        in_play: None,
        related: Some("## Related\n- Notes".to_string()),
        endpoint: Some("http://localhost:11434".to_string()),
        cancel: reg.register("t"),
    };
    let cfg = AppConfig::default();
    let t = chat_turn("what next?", "s-1", "/f", context, &cfg);
    assert_eq!(t.message, "what next?");
    assert_eq!(t.history, vec![turn("user", "hi")]);
    assert_eq!(t.formation_root, "/f");
    assert_eq!(t.source_chat_id, "chat-1");
    assert_eq!(t.conversation_id, "s-1");
    assert_eq!(t.tone, "warm");
    assert_eq!(
        t.injected_context.as_deref(),
        Some("## Entities\n- Sarah\n\n## Related\n- Notes")
    );
    assert_eq!(build_engine(&cfg).model, "sonnet");
}

#[test]
fn the_fate_of_a_turn() {
    assert!(matches!(turn_fate(TurnStop::Completed, None), TurnFate::Keep));
    assert!(matches!(
        turn_fate(TurnStop::Interrupted, Some(CancelMode::Redirect)),
        TurnFate::Revert
    ));
    assert!(!matches!(
        turn_fate(TurnStop::Interrupted, Some(CancelMode::Steer)),
        TurnFate::Revert
    ));
}

#[test]
fn the_result_counts_the_facts() {
    let ws = WorkingSet {
        open_loops: vec![
            OpenLoop { id: "l1".to_string(), text: "one".to_string() },
            OpenLoop { id: "l2".to_string(), text: "two".to_string() },
        ],
    };
    assert_eq!(surfaced_loop(&ws).as_deref(), Some("l1"));
    assert_eq!(surfaced_loop(&WorkingSet { open_loops: vec![] }), None);
    let changed = vec![ChangedNote { path: "A.md".to_string(), was_create: true }];
    let r = turn_result("turn-1", "done", changed, &vec!["f1".to_string(), "f2".to_string()], ws);
    assert_eq!(r.turn_id, "turn-1");
    assert_eq!(r.reply, "done");
    assert_eq!(r.recorded_fact_count, 2);
    assert_eq!(r.changed_notes.len(), 1);
    assert_eq!(r.working_set.open_loops.len(), 2);
}

fn begun() -> TurnFlow {
    let (flow, action) = TurnFlow::begin("turn_1".to_string(), "What next?".to_string());
    assert_eq!(action, FlowAction::TakeSnapshot);
    let (flow, action) = flow.next(FlowEvent::SnapshotTaken(Ok(())));
    assert_eq!(action, FlowAction::Run);
    flow
}

fn outcome(stop: TurnStop) -> Result<TurnOutcome, AppError> {
    Ok(TurnOutcome { reply: "Done.".to_string(), stop })
}

fn changed() -> Vec<ChangedNote> {
    vec![ChangedNote { path: "A.md".to_string(), was_create: true }]
}

#[test]
fn a_turn_is_logged_once_it_has_answered() {
    let now = Timestamp { secs: 7, nanos: 0 };
    let (flow, action) = begun().next(FlowEvent::Answered(outcome(TurnStop::Completed), None));
    assert_eq!(action, FlowAction::Compare);
    let (flow, action) = flow.next(FlowEvent::Compared(Ok(changed())));
    assert_eq!(action, FlowAction::FindFacts);
    let (flow, action) = flow.next(FlowEvent::FactsFound(Ok(vec!["fact:1".to_string()]), now));
    match action {
        FlowAction::WriteEntry(e) => {
            assert_eq!(e.turn_id, "turn_1");
            assert_eq!(e.user_excerpt, "What next?");
            assert_eq!(e.reply_excerpt, "Done.");
            assert_eq!(e.created, now);
            assert_eq!(e.changed_notes, changed());
            assert_eq!(e.recorded_fact_ids, vec!["fact:1"]);
        }
        other => panic!("expected an entry, got {other:?}"),
    }
    let (flow, action) = flow.next(FlowEvent::EntryWritten(Ok(())));
    assert_eq!(action, FlowAction::Prune(20));
    let (flow, action) = flow.next(FlowEvent::Pruned);
    assert_eq!(action, FlowAction::SaveReply("Done.".to_string()));
    let (flow, action) = flow.next(FlowEvent::ReplySaved(Ok(())));
    assert_eq!(flow.stage, Stage::Over);
    assert_eq!(
        action,
        FlowAction::Finish {
            reply: "Done.".to_string(),
            changed: changed(),
            facts: vec!["fact:1".to_string()],
        }
    );
}

#[test]
fn a_failed_turn_removes_its_snapshot() {
    let failed = FlowEvent::Answered(Err(AppError::other("no engine")), None);
    let (flow, action) = begun().next(failed);
    assert_eq!(action, FlowAction::DropSnapshot);
    let (flow, action) = flow.next(FlowEvent::SnapshotDropped);
    assert_eq!(flow.stage, Stage::Over);
    assert_eq!(action, FlowAction::Fail(AppError::other("no engine")));
}

#[test]
fn a_redirected_turn_is_taken_back() {
    let now = Timestamp { secs: 7, nanos: 0 };
    let stopped =
        FlowEvent::Answered(outcome(TurnStop::Interrupted), Some(CancelMode::Redirect));
    let (flow, _) = begun().next(stopped);
    let (flow, _) = flow.next(FlowEvent::Compared(Ok(changed())));
    let (flow, action) = flow.next(FlowEvent::FactsFound(Ok(vec![]), now));
    assert!(matches!(action, FlowAction::Revert(_)));
    let (flow, action) = flow.next(FlowEvent::Reverted(Ok(())));
    assert_eq!(action, FlowAction::DropSnapshot);
    let (flow, action) = flow.next(FlowEvent::SnapshotDropped);
    assert_eq!(flow.stage, Stage::Over);
    assert_eq!(action, FlowAction::Vanish);
}

#[test]
fn a_turn_without_a_snapshot_does_not_run() {
    let (flow, _) = TurnFlow::begin("turn_1".to_string(), "hi".to_string());
    let (flow, action) = flow.next(FlowEvent::SnapshotTaken(Err(AppError::other("disk full"))));
    assert_eq!(flow.stage, Stage::Over);
    assert_eq!(action, FlowAction::Fail(AppError::other("disk full")));
}
