//! The daily note, the log of changes, and how each change is taken back.
use chrono::Datelike;
use sediment::audit::{
    audit_dir, audit_file, chat_turn_entry, diff_formation, excerpt, keeps_entry, new_task_completion_id,
    new_turn_id, prune_old, read_all_audit, revert_to_snapshot, snapshot_dir_for,
    task_completion_entry, undo_fact, undo_task_completion, undo_turn, AuditEntry, AuditFile,
    ChangedNote, ChatTurnEntry, RevertStep, TaskCompletionEntry, UndoTaskCompletionResult,
    WalkedFile,
};
use sediment::daily_note::{
    append_did_bullet, daily_note_relative_path, daily_template_relative_path, ensure_daily_note,
    remove_did_bullet, splice_did_append, splice_did_remove, DailyNotePlan, RemoveOutcome,
    RemoveResult, SpliceOutcome,
};
use sediment::datetime::{format_date, format_year, read_rfc3339, Date, Timestamp};
use sediment::indexer::{appended_payload, apply_task_completion, completion_bullet};
use sediment::tasks::TaskCompletionEvent;

fn day() -> Date {
    Date { year: 2026, month: 5, day: 22 }
}

fn at(secs: i64) -> Timestamp {
    Timestamp { secs, nanos: 0 }
}

fn fresh_note() -> String {
    match ensure_daily_note(false, None) {
        DailyNotePlan::Seed { note, .. } => note,
        DailyNotePlan::Keep => panic!("a missing note is seeded"),
    }
}

fn appended(note: &str, bullet: &str) -> String {
    append_did_bullet(note, bullet).unwrap_or_else(|| note.to_string())
}

#[test]
fn relative_path_is_iso_and_posix() {
    assert_eq!(daily_note_relative_path(day()), "Daily Notes/2026-05-22.md");
    let today = chrono::Local::now().date_naive();
    let path = daily_note_relative_path(Date {
        year: today.year(),
        month: today.month(),
        day: today.day(),
    });
    assert!(path.starts_with("Daily Notes/"));
    assert!(path.ends_with(".md"));
}

#[test]
fn ensure_creates_template_and_daily_note_when_missing() {
    match ensure_daily_note(false, None) {
        DailyNotePlan::Seed { template, note } => {
            assert!(template.is_some(), "the template is made too");
            assert!(note.starts_with("## Checklist"));
            assert!(note.contains("- [ ] Take vitamins"));
            assert!(note.contains("## Did"));
            assert!(note.contains("## Notes"));
        }
        DailyNotePlan::Keep => panic!("a missing note is seeded"),
    }
    // The second time the note stays, whatever the template has become.
    assert_eq!(ensure_daily_note(true, Some("- [ ] Different\n")), DailyNotePlan::Keep);
    assert_eq!(daily_template_relative_path(), "Templates/Daily.md");
}

#[test]
fn ensure_seeds_from_existing_template() {
    match ensure_daily_note(false, Some("- [ ] Meditate\n- [ ] Stretch\n")) {
        DailyNotePlan::Seed { template, note } => {
            assert!(template.is_none());
            assert!(note.contains("- [ ] Meditate"));
            assert!(note.contains("- [ ] Stretch"));
            assert!(!note.contains("Take vitamins"));
        }
        DailyNotePlan::Keep => panic!("a missing note is seeded"),
    }
}

#[test]
fn append_inserts_bullet_under_did_and_preserves_neighbours() {
    let body = appended(&fresh_note(), "- Called the dentist");
    let did = body.find("## Did").unwrap();
    let notes = body.find("## Notes").unwrap();
    assert!(did < notes, "section order preserved");
    assert!(body[did..notes].contains("- Called the dentist"));
    assert!(body.contains("- [ ] Take vitamins"));
}

#[test]
fn append_is_idempotent_on_exact_match() {
    let once = appended(&fresh_note(), "- Called the dentist");
    assert_eq!(append_did_bullet(&once, "- Called the dentist"), None);
    let twice = appended(&once, "- Called the dentist");
    assert_eq!(twice.matches("- Called the dentist").count(), 1);
}

#[test]
fn append_creates_heading_when_missing() {
    let body = appended("## Checklist\n\n- [ ] Vitamins\n", "- Called the dentist");
    assert!(body.contains("## Did"));
    assert!(body.contains("- Called the dentist"));
    assert!(body.ends_with('\n'));
    assert_eq!(
        body,
        "## Checklist\n\n- [ ] Vitamins\n\n## Did\n\n- Called the dentist\n"
    );
}

#[test]
fn append_lands_at_end_of_did_not_file() {
    let body = appended(
        "## Checklist\n\n- [ ] x\n\n## Did\n\n- earlier event\n\n## Notes\n\n- reflection\n",
        "- new event",
    );
    let earlier = body.find("- earlier event").unwrap();
    let newer = body.find("- new event").unwrap();
    let notes = body.find("## Notes").unwrap();
    let reflection = body.find("- reflection").unwrap();
    assert!(earlier < newer && newer < notes && notes < reflection);
}

#[test]
fn remove_bullet_is_exact_match_or_refuses() {
    let body = appended(&fresh_note(), "- Called the dentist");
    let (outcome, text) = remove_did_bullet(Some(&body), "- Called the dentist");
    assert_eq!(outcome, RemoveResult::Removed);
    let body = text.unwrap();
    assert!(!body.contains("- Called the dentist"));

    // A bullet that was edited is left alone.
    let body = appended(&body, "- Watched a youtube video");
    let edited =
        body.replace("- Watched a youtube video", "- Watched a youtube video about Rust");
    let (outcome, text) = remove_did_bullet(Some(&edited), "- Watched a youtube video");
    assert_eq!(outcome, RemoveResult::EditedSinceAppended);
    assert_eq!(text, None, "nothing is written");
}

#[test]
fn remove_returns_file_missing_for_absent_note() {
    assert_eq!(remove_did_bullet(None, "- whatever"), (RemoveResult::FileMissing, None));
}

#[test]
fn remove_only_acts_inside_did_section() {
    let body = "## Checklist\n\n- [ ] x\n\n## Did\n\n## Notes\n\n- Called the dentist\n";
    let (outcome, text) = remove_did_bullet(Some(body), "- Called the dentist");
    assert_eq!(outcome, RemoveResult::EditedSinceAppended);
    assert_eq!(text, None);
}

#[test]
fn finished_tasks_stay_in_the_day() {
    let event = |id: &str, title: &str| TaskCompletionEvent {
        task_id: id.to_string(),
        title: title.to_string(),
    };
    assert_eq!(completion_bullet(&event("t", "Call")), "- Call");
    let mut note = fresh_note();
    for (id, title) in [("task:a", "Call Ann"), ("task:b", "Write Bob"), ("task:a", "Call Ann")] {
        let step = apply_task_completion(&note, &event(id, title), day(), at(5));
        assert_eq!(step.entry.task_title, title);
        assert_eq!(step.entry.daily_note_path, "Daily Notes/2026-05-22.md");
        assert_eq!(step.entry.created, at(5));
        let told = appended_payload(&step.entry);
        assert_eq!(told.bullet_text, format!("- {title}"));
        assert_eq!(told.entry_id, step.entry.entry_id);
        if let Some(text) = step.note {
            note = text;
        }
    }
    assert_eq!(note.matches("- Call Ann").count(), 1);
    assert_eq!(note.matches("- Write Bob").count(), 1);
}

// ---------------------------------------------------------------------------
// The log
// ---------------------------------------------------------------------------

fn walked(path: &str, current: &str, snapshot: Option<&str>) -> WalkedFile {
    WalkedFile {
        path: path.to_string(),
        current: current.as_bytes().to_vec(),
        snapshot: snapshot.map(|s| s.as_bytes().to_vec()),
    }
}

fn sample_chat_turn(turn_id: &str, created: i64) -> AuditEntry {
    AuditEntry::ChatTurn(ChatTurnEntry {
        turn_id: turn_id.to_string(),
        created: at(created),
        user_excerpt: "Josh moved to Cloudflare.".to_string(),
        reply_excerpt: "Filed it under People/Josh.md.".to_string(),
        snapshot_dir: format!(".chat-notes/snapshots/{turn_id}"),
        changed_notes: vec![ChangedNote { path: "People/Josh.md".to_string(), was_create: false }],
        recorded_fact_ids: vec!["fact:abc".to_string()],
    })
}

fn sample_task_completion(entry_id: &str, created: i64, bullet: &str) -> AuditEntry {
    AuditEntry::TaskCompletion(TaskCompletionEntry {
        entry_id: entry_id.to_string(),
        created: at(created),
        task_id: "task:foo".to_string(),
        task_title: "Foo".to_string(),
        daily_note_path: "Daily Notes/2026-05-22.md".to_string(),
        appended_bullet_text: bullet.to_string(),
    })
}

fn file(name: &str, entry: Option<AuditEntry>) -> AuditFile {
    AuditFile { name: name.to_string(), entry }
}

#[test]
fn snapshot_then_diff_detects_created_and_modified_notes() {
    // The app's own folder is neither walked nor compared.
    assert!(!keeps_entry(true, ".chat-notes"));
    assert!(keeps_entry(true, "People"));
    let changed = diff_formation(&vec![
        walked(
            "People/Josh.md",
            "## Facts\n\n- Likes Rust\n- Works at Cloudflare\n",
            Some("## Facts\n\n- Likes Rust\n"),
        ),
        walked(
            "People/Maria.md",
            "## Facts\n\n- Likes hiking\n",
            Some("## Facts\n\n- Likes hiking\n"),
        ),
        walked("People/Devon.md", "## Facts\n\n- New hire\n", None),
    ]);
    assert_eq!(changed.len(), 2, "one changed, one new");
    let devon = changed.iter().find(|c| c.path == "People/Devon.md").expect("Devon");
    assert!(devon.was_create);
    let josh = changed.iter().find(|c| c.path == "People/Josh.md").expect("Josh");
    assert!(!josh.was_create);
    assert!(!changed.iter().any(|c| c.path == "People/Maria.md"));
    // They come in the order of their paths.
    assert_eq!(changed[0].path, "People/Devon.md");
}

#[test]
fn diff_of_an_untouched_formation_is_empty() {
    let files = vec![walked("People/Josh.md", "- Likes Rust\n", Some("- Likes Rust\n"))];
    assert!(diff_formation(&files).is_empty());
}

#[test]
fn audit_entry_round_trip_and_newest_first() {
    let all = read_all_audit(vec![
        file("turn_older.json", Some(sample_chat_turn("turn_older", 100))),
        file("turn_broken.json", None),
        file("turn_newer.json", Some(sample_chat_turn("turn_newer", 300))),
        file(
            "task_completion_middle.json",
            Some(sample_task_completion("task_completion_middle", 200, "- Foo")),
        ),
        file("turn_left.json.tmp", Some(sample_chat_turn("turn_left", 400))),
    ]);
    assert_eq!(all.len(), 3, "what does not read is passed over");
    assert_eq!(all[0].entry_id(), "turn_newer", "newest first");
    assert_eq!(all[1].entry_id(), "task_completion_middle");
    assert_eq!(all[2].entry_id(), "turn_older");
    assert!(matches!(all[1], AuditEntry::TaskCompletion(_)));
}

#[test]
fn prune_old_keeps_exactly_n_recent_turns() {
    let files: Vec<AuditFile> = (0..5)
        .map(|i| {
            let id = format!("turn_{i:03}");
            file(&format!("{id}.json"), Some(sample_chat_turn(&id, i)))
        })
        .collect();
    let log = read_all_audit(files);
    let gone = prune_old(&log, 3);
    let ids: Vec<&str> = gone.iter().map(|g| g.entry_id.as_str()).collect();
    assert_eq!(ids.len(), 2, "all but the newest three");
    assert!(ids.contains(&"turn_000"));
    assert!(ids.contains(&"turn_001"));
    // The snapshots of those turns go with them.
    assert!(gone.iter().all(|g| g.snapshot_dir.is_some()));
    assert!(prune_old(&log, 5).is_empty());
    let task = vec![sample_task_completion("task_completion_x", 1, "- Foo")];
    assert_eq!(prune_old(&task, 0)[0].snapshot_dir, None, "a task has no snapshot");
}

#[test]
fn undo_turn_restores_notes_and_deletes_facts() {
    let changed = diff_formation(&vec![
        walked("People/Josh.md", "new", Some("old")),
        walked("People/Devon.md", "new", None),
    ]);
    let entry = AuditEntry::ChatTurn(ChatTurnEntry {
        turn_id: "turn_1".to_string(),
        created: at(1),
        user_excerpt: "Josh moved to Cloudflare under Devon".to_string(),
        reply_excerpt: "Filed it.".to_string(),
        snapshot_dir: ".chat-notes/snapshots/turn_1".to_string(),
        changed_notes: changed,
        recorded_fact_ids: vec!["f1".to_string(), "f2".to_string()],
    });
    let (plan, snapshot) = undo_turn(&entry, "turn_1").expect("undo");
    assert!(plan.notes.contains(&RevertStep::Restore("People/Josh.md".to_string())));
    assert!(plan.notes.contains(&RevertStep::Delete("People/Devon.md".to_string())));
    assert_eq!(plan.fact_ids, vec!["f1", "f2"]);
    assert_eq!(snapshot, ".chat-notes/snapshots/turn_1");
    let none = revert_to_snapshot(&vec![], &vec![]);
    assert!(none.notes.is_empty() && none.fact_ids.is_empty());
}

#[test]
fn undo_fact_reverts_one_fact_and_keeps_the_rest() {
    let entry = AuditEntry::ChatTurn(chat_turn_entry(
        "turn_1",
        at(1),
        "Josh works at Cloudflare and likes Rust",
        "Recorded both.",
        vec![],
        vec!["f1".to_string(), "f2".to_string()],
    ));
    let after = undo_fact(entry, "turn_1", "f1").expect("undo_fact");
    match &after {
        AuditEntry::ChatTurn(e) => assert_eq!(e.recorded_fact_ids, vec!["f2"]),
        other => panic!("expected a chat turn, got {other:?}"),
    }
    assert!(undo_fact(after, "turn_1", "fact:not_here").is_err(), "an unknown fact is refused");
}

#[test]
fn task_completion_round_trip_and_undo_removes_bullet() {
    let bullet = "- Called the dentist";
    let daily_rel = daily_note_relative_path(day());
    let body = appended(&fresh_note(), bullet);
    let tc = task_completion_entry(
        at(1),
        "task:call_dentist_d4e5f6",
        "Call the dentist",
        &daily_rel,
        bullet,
    );
    assert_eq!(tc.task_id, "task:call_dentist_d4e5f6");
    assert_eq!(tc.daily_note_path, daily_rel);
    assert_eq!(tc.appended_bullet_text, bullet);
    let id = tc.entry_id.clone();
    let undo =
        undo_task_completion(&AuditEntry::TaskCompletion(tc), &id, Some(&body)).expect("undo");
    assert_eq!(undo.result, UndoTaskCompletionResult::Removed);
    assert!(undo.remove_entry);
    assert!(!undo.new_note.unwrap().contains(bullet));
}

#[test]
fn task_completion_undo_refuses_when_bullet_edited() {
    let bullet = "- Watched a youtube video";
    let body = appended(&fresh_note(), bullet);
    let edited = body.replace(bullet, "- Watched a youtube video about Rust");
    let entry = sample_task_completion("task_completion_1", 1, bullet);
    let undo = undo_task_completion(&entry, "task_completion_1", Some(&edited)).expect("undo");
    assert_eq!(undo.result, UndoTaskCompletionResult::EditedSinceAppended);
    assert!(!undo.remove_entry, "the entry stays");
    assert_eq!(undo.new_note, None, "the user's edit is kept");
    let gone = undo_task_completion(&entry, "task_completion_1", None).expect("undo");
    assert_eq!(gone.result, UndoTaskCompletionResult::FileMissing);
}

#[test]
fn undo_turn_and_undo_fact_reject_task_completion_entries() {
    let entry = sample_task_completion("task_completion_1", 1, "- Foo");
    let err = undo_turn(&entry, "task_completion_1").unwrap_err();
    assert!(err.message().contains("not a chat-turn"), "{}", err.message());
    let err = undo_fact(entry, "task_completion_1", "fact:bar").unwrap_err();
    assert!(err.message().contains("not a chat-turn"), "{}", err.message());
    let turn = sample_chat_turn("turn_1", 1);
    assert!(undo_task_completion(&turn, "turn_1", None).is_err());
}

#[test]
fn entries_have_ids_and_places() {
    let turn = new_turn_id();
    let task = new_task_completion_id();
    assert!(turn.starts_with("turn_"));
    assert!(task.starts_with("task_completion_"));
    assert_ne!(turn, new_turn_id());
    // The moment it was made, to the millisecond, and what chance adds.
    let stamp: Vec<char> = turn["turn_".len()..].chars().take(18).collect();
    assert_eq!(stamp.len(), 18);
    for (i, c) in stamp.iter().enumerate() {
        assert!(if i == 8 { *c == 'T' } else { c.is_ascii_digit() }, "{turn}");
    }
    assert!(!turn.contains('/') && !task.contains('/'));
    assert_eq!(audit_dir("/f"), "/f/.chat-notes/audit");
    assert_eq!(audit_file("/f", "turn_1"), "/f/.chat-notes/audit/turn_1.json");
    assert_eq!(snapshot_dir_for("/f", "turn_1"), "/f/.chat-notes/snapshots/turn_1");
    assert_eq!(excerpt("  short  "), "short");
    let long = excerpt(&"é".repeat(500));
    assert!(long.ends_with('…'));
    assert!(long.chars().count() < 500);
}

#[test]
fn instants_and_days_are_read_and_written() {
    assert_eq!(format_date(day()), "2026-05-22");
    assert_eq!(format_date(Date { year: 0, month: 3, day: 4 }), "0000-03-04");
    assert_eq!(format_date(Date { year: 12345, month: 1, day: 2 }), "+12345-01-02");
    assert_eq!(format_date(Date { year: -44, month: 3, day: 15 }), "-0044-03-15");
    assert_eq!(format_date(Date { year: -12345, month: 3, day: 15 }), "-12345-03-15");
    assert_eq!(read_rfc3339("1970-01-01T00:00:10Z"), Some(at(10)));
    assert_eq!(read_rfc3339("1970-01-01T01:00:00+01:00"), Some(at(0)));
    assert_eq!(read_rfc3339("yesterday"), None);
    assert!(at(1).is_before(at(2)));
    assert!(!at(2).is_before(at(2)));
}

/// The lines with more than white space in them, as they are.
fn lines_said(note: &str) -> Vec<&str> {
    note.lines().filter(|l| !l.trim().is_empty()).collect()
}

#[test]
fn years_are_written_in_four_digits_or_with_their_sign() {
    assert_eq!(format_year(at(1_622_505_600)), "2021");
    assert_eq!(format_year(at(-62_167_219_200)), "0000");
    assert_eq!(format_year(at(-62_167_219_201)), "-0001");
    assert_eq!(format_year(at(-63_555_753_600)), "-0044");
    assert_eq!(format_year(at(327_403_382_400)), "+12345");
    assert_eq!(format_year(at(327_403_382_399)), "+12344");
}

#[test]
fn one_blank_line_stays_below_the_heading() {
    let note = "## Checklist\n\n- [ ] x\n\n## Did\n\n- earlier event\n\n## Notes\n\n- reflection\n";
    assert_eq!(
        splice_did_append(note, "- new event"),
        SpliceOutcome::Written(
            "## Checklist\n\n- [ ] x\n\n## Did\n\n- earlier event\n- new event\n\n## Notes\n\n- reflection\n"
                .to_string()
        )
    );
    assert_eq!(
        append_did_bullet("## Did\n", "- a").as_deref(),
        Some("## Did\n\n- a\n")
    );
}

#[test]
fn white_space_at_the_end_of_a_bullet_does_not_count() {
    let note = "## Did\n\n- x \n";
    assert_eq!(splice_did_append(note, "- x "), SpliceOutcome::AlreadyPresent);
    assert_eq!(append_did_bullet(note, "- x "), None);
    assert_eq!(append_did_bullet(note, "- x"), None);
    assert_eq!(remove_did_bullet(Some(note), "- x ").0, RemoveResult::Removed);
    let once = append_did_bullet("## Did\n", "- y ").unwrap();
    assert_eq!(once, "## Did\n\n- y \n");
    assert_eq!(append_did_bullet(&once, "- y "), None);
    assert_eq!(remove_did_bullet(Some(&once), "- y ").0, RemoveResult::Removed);
}

#[test]
fn a_line_that_is_not_the_bullet_is_left_alone() {
    let note = "## Did\n\n- x\n";
    // The line lacks the space that the bullet ends in.
    assert_eq!(splice_did_remove(note, "- x "), RemoveOutcome::NotFound);
    assert_eq!(remove_did_bullet(Some(note), "- x "), (RemoveResult::EditedSinceAppended, None));
    assert_eq!(
        splice_did_append(note, "- x "),
        SpliceOutcome::Written("## Did\n\n- x\n- x \n".to_string())
    );
    // White space is no blank line.
    assert_eq!(splice_did_remove(note, "   "), RemoveOutcome::NotFound);
    assert_eq!(
        splice_did_remove("## Did\n\n- x\n- y\n\n## Notes\n\n- x\n", "- x"),
        RemoveOutcome::Removed("## Did\n\n- y\n\n## Notes\n\n- x\n".to_string())
    );
}

#[test]
fn taking_a_line_out_keeps_the_others() {
    let note = "intro\n\n## Did\n\n- a\n- b\n  - c\n\n## Notes\n\n- b\nend";
    let RemoveOutcome::Removed(out) = splice_did_remove(note, "- b") else {
        panic!("the line is there");
    };
    assert_eq!(lines_said(&out), vec!["intro", "## Did", "- a", "  - c", "## Notes", "- b", "end"]);
}

#[test]
fn lines_are_joined_by_line_feeds() {
    let note = "# Day\r\n\r\n## Did\r\n\r\n- a\r\n\r\n## Notes\r\n";
    let with = append_did_bullet(note, "- b").unwrap();
    assert_eq!(with, "# Day\n\n## Did\n\n- a\n- b\n\n## Notes\n");
    let (_, back) = remove_did_bullet(Some(&with), "- a");
    assert_eq!(back.as_deref(), Some("# Day\n\n## Did\n\n- b\n\n## Notes\n"));
    // A note that does not end in a line feed does not get one.
    assert_eq!(append_did_bullet("text", "- b").as_deref(), Some("text\n\n## Did\n\n- b"));
}

#[test]
fn a_line_that_is_appended_and_taken_back_leaves_the_note_as_it_was() {
    let note = "## Checklist\n\n- [ ] x\n\n## Did\n\n- earlier event\n\n## Notes\n\n- new event\n";
    let with = append_did_bullet(note, "- new event").unwrap();
    assert_eq!(
        lines_said(&with),
        [
            "## Checklist",
            "- [ ] x",
            "## Did",
            "- earlier event",
            "- new event",
            "## Notes",
            "- new event"
        ]
    );
    let (result, back) = remove_did_bullet(Some(&with), "- new event");
    assert_eq!(result, RemoveResult::Removed);
    assert_eq!(lines_said(&back.unwrap()), lines_said(note));

    let with = append_did_bullet("just text\n", "- done").unwrap();
    let (_, back) = remove_did_bullet(Some(&with), "- done");
    assert_eq!(lines_said(&back.unwrap()), ["just text", "## Did"]);
}
