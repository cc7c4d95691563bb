//! What a meeting leaves behind: the turn that distils it, and its receipt.
use sediment::audit::chat_turn_entry;
use sediment::brand::Brand;
use sediment::conversation::TurnRequest;
use sediment::datetime::Timestamp;
use sediment::distillation::{
    cap, distill_meeting, distill_turn, distillation_message, distilled,
    grounding_from_windows, last_receipt_line, looks_like_refusal, marker_value, parse_receipt,
    receipt, unresolved_voices, UnresolvedVoice,
};
use sediment::formation_state::AppConfig;
use sediment::meeting::{assign_meeting_speaker, meeting_voice_clips};
use sediment::meeting_note::sanitize_title;
use sediment::session::{
    distilled_event, is_unknown_speaker, new_session_id, require_session, session_start,
    session_stop, session_title, Centroids, OpenSession, SessionEvent, SessionLifecycle,
};
use sediment::settings::Engine;

fn brand() -> Brand {
    Brand { name: "Acme".to_string() }
}

fn voice(label: &str, guess: Option<&str>) -> UnresolvedVoice {
    UnresolvedVoice { label: label.to_string(), guess: guess.map(str::to_string) }
}

fn list(items: &[&str]) -> Vec<String> {
    items.iter().map(|s| s.to_string()).collect()
}

#[test]
fn grounding_packs_windows_within_budget() {
    let windows = vec!["A".repeat(100), "B".repeat(100), "C".repeat(100)];
    // The header (about 40), two windows of 100 and their line feeds fit in 260.
    let g = grounding_from_windows(&windows, 260).unwrap();
    assert!(g.contains(&"A".repeat(100)) && g.contains(&"B".repeat(100)));
    assert!(!g.contains(&"C".repeat(100)), "third window dropped over budget");
    // No transcript, no grounding.
    assert!(grounding_from_windows(&vec![], 1000).is_none());
}

#[test]
fn a_larger_budget_keeps_what_a_smaller_one_kept() {
    let windows = list(&["one", "two", "three"]);
    let small = grounding_from_windows(&windows, 49).unwrap();
    let large = grounding_from_windows(&windows, 100).unwrap();
    assert_eq!(small, "## Meeting transcript (for distillation)\none\ntwo\n");
    assert!(large.starts_with(&small));
    assert!(large.ends_with("three\n"));
    assert!(grounding_from_windows(&windows, 44).is_none());
}

#[test]
fn distillation_message_raises_unresolved_voices_with_guesses() {
    // No unknown voices: nothing is asked.
    let plain = distillation_message("Q3", "Meetings/q3.md", &list(&["Self"]), &vec![]);
    assert!(!plain.contains("not identified"));

    // Unknown voices: the agent is to raise them, with a guess where there is one.
    let unresolved =
        vec![voice("Unknown speaker 2", Some("Dana Kim")), voice("Unknown speaker 3", None)];
    let m = distillation_message("Q3", "Meetings/q3.md", &list(&["Self"]), &unresolved);
    assert!(m.contains("Some voices were not identified"));
    assert!(m.contains("\"Unknown speaker 2\" (possibly Dana Kim)"));
    assert!(m.contains("\"Unknown speaker 3\""));
    assert!(m.contains("ask, never assert"));
    // The two marker lines still end the prompt.
    assert!(m.contains("SUMMARY:") && m.contains("TITLE:"));
}

#[test]
fn the_message_names_the_attendees() {
    let m = distillation_message("Q3", "Meetings/q3.md", &list(&["Ann", "Bob"]), &vec![]);
    assert!(m.contains("its attendees are Ann, Bob. Read the note"));
    assert!(m.starts_with("This is an automatic end-of-meeting distillation"));
    assert!(m.ends_with("warrants a better one."));
    let none = distillation_message("Q3", "Meetings/q3.md", &vec![], &vec![]);
    assert!(none.contains("its attendees are the attendees."));
}

#[test]
fn unknown_voices_get_their_guess() {
    let who = list(&["Ann", "Unknown speaker 1", "Unknown speaker 2"]);
    let guesses = vec![("Unknown speaker 2".to_string(), "Bob".to_string())];
    assert_eq!(
        unresolved_voices(&who, &guesses),
        vec![voice("Unknown speaker 1", None), voice("Unknown speaker 2", Some("Bob"))]
    );
    assert!(is_unknown_speaker("Unknown speaker 7"));
    assert!(!is_unknown_speaker("Ann"));
}

#[test]
fn parse_receipt_pulls_summary_and_title_markers() {
    let reply = "Recorded 3 facts.\nUpdated Sarah's note.\n\
                 SUMMARY: Filed 2 tasks and noted the Q3 budget decision.\n\
                 TITLE: Q3 Budget Review";
    let (summary, title) = parse_receipt(reply, "Untitled");
    assert_eq!(summary, "Filed 2 tasks and noted the Q3 budget decision.");
    assert_eq!(title.as_deref(), Some("Q3 Budget Review"));
}

#[test]
fn parse_receipt_drops_title_equal_to_current_or_fallback() {
    // The same title, case and spacing aside: no new name is offered.
    let (_, same) = parse_receipt("SUMMARY: ok\nTITLE: Weekly  Sync", "weekly sync");
    assert_eq!(same, None);
    // The bare fallback is never offered.
    let (_, fb) = parse_receipt("SUMMARY: ok\nTITLE:    ", "Whatever");
    assert_eq!(fb, None);
}

#[test]
fn parse_receipt_falls_back_to_last_line_without_markers() {
    // No SUMMARY marker: the last line that is no TITLE line is the receipt.
    let (summary, title) = parse_receipt("Recorded the decision.\nTITLE: A Title", "x");
    assert_eq!(summary, "Recorded the decision.");
    assert_eq!(title.as_deref(), Some("A Title"));
    // An empty reply gives the fixed line.
    assert_eq!(parse_receipt("   \n  ", "x").0, "Meeting distilled.");
    assert!(cap(&"x".repeat(500), 240).chars().count() <= 240);
}

#[test]
fn receipts_are_capped_with_an_ellipsis() {
    assert_eq!(cap("abc", 3), "abc");
    assert_eq!(cap("abcd", 3), "ab…");
    let long = format!("SUMMARY: {}", "y".repeat(300));
    let (summary, _) = parse_receipt(&long, "x");
    assert_eq!(summary.chars().count(), 240);
    assert!(summary.ends_with('…'));
}

#[test]
fn markers_are_read_from_their_line() {
    assert_eq!(marker_value("a\nSUMMARY:  fine \n", "SUMMARY:").as_deref(), Some("fine"));
    assert_eq!(marker_value("nothing here", "SUMMARY:"), None);
    // The first line with the marker decides, also where it says nothing.
    assert_eq!(marker_value("SUMMARY:\nSUMMARY: later", "SUMMARY:"), None);
    assert_eq!(marker_value("- summary: \"one\"\nSUMMARY: two", "SUMMARY:").as_deref(), Some("one"));
    assert_eq!(last_receipt_line("one\ntwo\nTITLE: x\n\n").as_deref(), Some("two"));
    assert_eq!(last_receipt_line("TITLE: x"), None);
}

#[test]
fn looks_like_refusal_catches_declines_not_real_summaries() {
    assert!(looks_like_refusal("I'm sorry, but I cannot assist with that request."));
    assert!(looks_like_refusal("I apologize, but I'm unable to help with this."));
    assert!(looks_like_refusal("As an AI, I can't do that."));
    // A summary that mentions an apology later is no refusal.
    assert!(!looks_like_refusal(
        "Recorded that Sarah apologized for the delay and will resend the deck."
    ));
    assert!(!looks_like_refusal("Filed 2 tasks and noted the Q3 budget decision."));
}

#[test]
fn a_refusal_gives_a_neutral_receipt() {
    let neutral = "Meeting saved — couldn't auto-summarize this one.";
    assert_eq!(receipt("I'm sorry, but no.", "Q3"), (neutral.to_string(), None));
    assert_eq!(receipt("  ", "Q3").0, neutral);
    // A reply in the agreed form is taken, however it begins.
    assert_eq!(receipt("I'm sorry I was late.\nSUMMARY: done", "Q3").0, "done");
    let d = distilled("SUMMARY: done\nTITLE: Plan", "Q3", "turn-9");
    assert_eq!(d.summary, "done");
    assert_eq!(d.turn_id, "turn-9");
    assert_eq!(d.suggested_title.as_deref(), Some("Plan"));
    assert_eq!(
        distilled_event(d),
        SessionEvent::Distilled {
            summary: "done".to_string(),
            turn_id: "turn-9".to_string(),
            suggested_title: Some("Plan".to_string()),
        }
    );
}

#[test]
fn a_meeting_without_words_is_not_distilled() {
    let cfg = AppConfig::default();
    assert!(distill_meeting("M.md", "Q3", &vec![], &vec![], &vec![], &cfg, &brand()).is_none());
}

#[test]
fn the_configured_engine_distils() {
    let windows = list(&["Ann: hello"]);
    let mut cfg = AppConfig::default();
    let p = distill_meeting("M.md", "Q3", &list(&["Ann"]), &windows, &vec![], &cfg, &brand())
        .unwrap();
    assert_eq!(p.engine, Engine::ClaudeCode);
    assert_eq!(p.model, "sonnet");
    assert!(p.injected_context.as_deref().unwrap().ends_with("Ann: hello\n"));
    cfg.conversation_engine = Some("copilot".to_string());
    let p = distill_meeting("M.md", "Q3", &list(&["Ann"]), &windows, &vec![], &cfg, &brand())
        .unwrap();
    assert_eq!(p.engine, Engine::Copilot);
    assert_eq!(p.model, "acme-haiku-4.5");
    cfg.copilot_model = Some("gpt-5".to_string());
    let p = distill_meeting("M.md", "Q3", &list(&["Ann"]), &windows, &vec![], &cfg, &brand())
        .unwrap();
    assert_eq!(p.model, "gpt-5");

    let t: TurnRequest = distill_turn(&p, "/f", "chat-1", "conv", None, &cfg);
    assert_eq!(t.message, p.message);
    assert!(t.history.is_empty());
    assert_eq!(t.embedding_provider, "ollama");
    assert_eq!(t.tone, "warm");
    assert_eq!(t.conversation_id, "conv");
    assert!(!t.cancel.is_cancelled());
}

#[test]
fn the_log_entry_of_a_distillation() {
    let windows = list(&["Ann: hello"]);
    let cfg = AppConfig::default();
    let p = distill_meeting("M.md", "Q3", &list(&["Ann"]), &windows, &vec![], &cfg, &brand())
        .unwrap();
    assert_eq!(p.what, "Meeting distillation — Q3");
    let at = Timestamp { secs: 10, nanos: 0 };
    let e = chat_turn_entry("turn-1", at, &p.what, "All done.", vec![], list(&["f1"]));
    assert_eq!(e.user_excerpt, "Meeting distillation — Q3");
    assert_eq!(e.reply_excerpt, "All done.");
    assert_eq!(e.snapshot_dir, ".chat-notes/snapshots/turn-1");
    assert_eq!(e.recorded_fact_ids, list(&["f1"]));
}

#[test]
fn titles_lose_their_extra_space() {
    assert_eq!(sanitize_title("  Weekly   Sync "), "Weekly Sync");
    assert_eq!(sanitize_title("   "), "Meeting");
}

#[test]
fn a_session_opens_and_closes() {
    assert_eq!(session_title("  "), "Meeting");
    let (open, event, result) = session_start("s1", "Q3", "Meetings/Q3.md");
    assert_eq!(open.session_id, "s1");
    assert_eq!(
        event,
        SessionEvent::Status {
            session_id: "s1".to_string(),
            note_path: "Meetings/Q3.md".to_string(),
            state: SessionLifecycle::Started,
        }
    );
    assert_eq!(result.note_path, "Meetings/Q3.md");
    let stop = session_stop(&open, 3, &list(&["Ann"]));
    assert_eq!(stop.result.segment_count, 3);
    assert_eq!(stop.result.attendees, list(&["Ann"]));
    assert!(stop.distils);
    assert!(!session_stop(&open, 0, &vec![]).distils);
    let missing = require_session(None, "s9").unwrap_err();
    assert_eq!(missing.message(), "no open session s9");
    assert_eq!(require_session(Some(open), "s1").unwrap().title, "Q3");
}

#[test]
fn sessions_get_ids_of_their_own() {
    let a = new_session_id();
    let b = new_session_id();
    assert_ne!(a, b);
    assert!(a.len() >= 36);
}

#[test]
fn voices_keep_their_print_under_a_new_name() {
    let mut c = Centroids::default();
    c.publish("Unknown speaker 1", vec![1, 2]);
    c.publish("Ann", vec![3]);
    c.rename("Unknown speaker 1", "Bob");
    assert_eq!(c.get("Unknown speaker 1"), None);
    assert_eq!(c.get("Bob"), Some(vec![1, 2]));
    assert_eq!(c.get("Ann"), Some(vec![3]));
    c.publish("Bob", vec![4]);
    assert_eq!(c.get("Bob"), Some(vec![4]));
    c.rename("nobody", "Ann");
    assert_eq!(c.get("Ann"), Some(vec![3]));
}

#[test]
fn a_speaker_is_named_only_between_recordings() {
    assert_eq!(assign_meeting_speaker("  Ann ", false).unwrap(), "Ann");
    assert!(assign_meeting_speaker("   ", false).is_err());
    assert!(assign_meeting_speaker("Ann", true).is_err());
    assert_eq!(
        meeting_voice_clips(&list(&["Ann", "Bob"]), &vec![false, true]),
        list(&["Bob"])
    );
}

#[test]
fn an_open_session_is_handed_back() {
    let s = OpenSession {
        session_id: "s".to_string(),
        title: "t".to_string(),
        note_path: "n.md".to_string(),
    };
    assert_eq!(require_session(Some(s), "s").unwrap().note_path, "n.md");
}
