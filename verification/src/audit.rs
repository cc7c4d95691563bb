//! The log of what was changed, and how each change is taken back.
//!
//! Two kinds of entry stand side by side: a chat turn, which is undone from a
//! snapshot of the formation taken before it, and a completed task, which is
//! undone by removing the line it added to a daily note.
use vstd::prelude::*;
use crate::daily_note;
use crate::datetime::Timestamp;
use crate::error::AppError;
use crate::formation;
use crate::ids;
use crate::paths;
use crate::text;

verus! {

broadcast use vstd::string::group_string_axioms;

/// How many entries, and snapshots, are kept.
pub const AUDIT_RETENTION: usize = 20;

/// A note that a turn changed.
#[derive(Debug, PartialEq, Eq)]
pub struct ChangedNote {
    /// Relative to the formation, with forward slashes.
    pub path: String,
    /// The turn made the note; undoing it deletes the note.
    pub was_create: bool,
}

impl Clone for ChangedNote {
    fn clone(&self) -> (r: ChangedNote)
        ensures
            r == *self,
    {
        ChangedNote { path: self.path.clone(), was_create: self.was_create }
    }
}

/// What one chat turn changed.
#[derive(Debug, PartialEq, Eq)]
pub struct ChatTurnEntry {
    pub turn_id: String,
    pub created: Timestamp,
    pub user_excerpt: String,
    pub reply_excerpt: String,
    /// The snapshot taken before the turn, relative to the formation.
    pub snapshot_dir: String,
    pub changed_notes: Vec<ChangedNote>,
    pub recorded_fact_ids: Vec<String>,
}

/// A completed task that was noted in a daily note.
#[derive(Debug, PartialEq, Eq)]
pub struct TaskCompletionEntry {
    pub entry_id: String,
    pub created: Timestamp,
    pub task_id: String,
    /// The task's title when it was completed.
    pub task_title: String,
    pub daily_note_path: String,
    /// The line that was added, word for word.
    pub appended_bullet_text: String,
}

/// An entry of the log.
#[derive(Debug, PartialEq, Eq)]
pub enum AuditEntry {
    ChatTurn(ChatTurnEntry),
    TaskCompletion(TaskCompletionEntry),
}

impl AuditEntry {
    /// The entry's id.
    pub open spec fn id(self) -> Seq<char> {
        match self {
            AuditEntry::ChatTurn(e) => e.turn_id@,
            AuditEntry::TaskCompletion(e) => e.entry_id@,
        }
    }

    /// When the entry was made.
    pub open spec fn time(self) -> Timestamp {
        match self {
            AuditEntry::ChatTurn(e) => e.created,
            AuditEntry::TaskCompletion(e) => e.created,
        }
    }

    /// The entry's id, which is also its file's name.
    pub fn entry_id(&self) -> (r: &str)
        ensures
            r@ == self.id(),
    {
        match self {
            AuditEntry::ChatTurn(e) => e.turn_id.as_str(),
            AuditEntry::TaskCompletion(e) => e.entry_id.as_str(),
        }
    }

    /// When the entry was made.
    pub fn created(&self) -> (r: Timestamp)
        ensures
            r == self.time(),
    {
        match self {
            AuditEntry::ChatTurn(e) => e.created,
            AuditEntry::TaskCompletion(e) => e.created,
        }
    }
}

/// The beginning of a text, for a heading.
pub open spec fn excerpt_of(s: Seq<char>) -> Seq<char> {
    let t = text::trimmed(s);
    if t.len() <= 140 {
        t
    } else {
        t.take(140).push('…')
    }
}

/// The first 140 characters of a text, trimmed; an ellipsis where more followed.
pub fn excerpt(s: &str) -> (r: String)
    ensures
        r@ == excerpt_of(s@),
{
    let trimmed = text::trim(s);
    if trimmed.unicode_len() <= 140 {
        trimmed.to_owned()
    } else {
        let mut head = text::take_chars(trimmed, 140).to_owned();
        head.push('…');
        head
    }
}

/// A fresh id for a turn.
pub fn new_turn_id() -> (r: String)
    ensures
        ids::is_id(r@, "turn_"@),
{
    ids::fresh_id("turn_")
}

/// A fresh id for a completed task.
pub fn new_task_completion_id() -> (r: String)
    ensures
        ids::is_id(r@, "task_completion_"@),
{
    ids::fresh_id("task_completion_")
}

// ---------------------------------------------------------------------------
// Where things are kept
// ---------------------------------------------------------------------------

/// The snapshot of a turn, relative to the formation.
pub open spec fn snapshot_rel(turn_id: Seq<char>) -> Seq<char> {
    formation::APP_DIR@ + "/snapshots/"@ + turn_id
}

/// The snapshot directory of a turn under a formation.
pub fn snapshot_dir_for(formation_root: &str, turn_id: &str) -> (r: String)
    ensures
        r@ == paths::joined_path(
            paths::joined_path(
                paths::joined_path(formation_root@, formation::APP_DIR@),
                "snapshots"@,
            ),
            turn_id@,
        ),
{
    let dir = paths::join(
        paths::join(formation_root, formation::APP_DIR).as_str(),
        "snapshots",
    );
    paths::join(dir.as_str(), turn_id)
}

/// The directory of the log under a formation.
pub open spec fn audit_dir_path(formation_root: Seq<char>) -> Seq<char> {
    paths::joined_path(paths::joined_path(formation_root, formation::APP_DIR@), "audit"@)
}

/// The directory of the log under a formation.
pub fn audit_dir(formation_root: &str) -> (r: String)
    ensures
        r@ == audit_dir_path(formation_root@),
{
    paths::join(paths::join(formation_root, formation::APP_DIR).as_str(), "audit")
}

/// The file of an entry under a formation.
pub fn audit_file(formation_root: &str, entry_id: &str) -> (r: String)
    ensures
        r@ == paths::joined_path(audit_dir_path(formation_root@), entry_id@ + ".json"@),
{
    let mut name = entry_id.to_owned();
    name.append(".json");
    paths::join(audit_dir(formation_root).as_str(), name.as_str())
}

/// A directory that snapshots and comparisons pass over.
pub open spec fn skipped_dir(name: Seq<char>) -> bool {
    name == formation::APP_DIR@ || name == ".gemini"@
}

/// Whether the walk over a formation goes into, or takes, an entry: all but
/// the directories of the program itself and of an engine's configuration.
pub fn keeps_entry(is_dir: bool, name: &str) -> (r: bool)
    ensures
        r == !(is_dir && skipped_dir(name@)),
{
    !(is_dir && (text::same(name, formation::APP_DIR) || text::same(name, ".gemini")))
}

// ---------------------------------------------------------------------------
// What a turn changed
// ---------------------------------------------------------------------------

/// A file of the formation after a turn: its bytes now and, if the snapshot
/// holds it, its bytes then.
#[derive(Debug, PartialEq, Eq)]
pub struct WalkedFile {
    pub path: String,
    pub current: Vec<u8>,
    pub snapshot: Option<Vec<u8>>,
}

/// The turn made or changed the file.
pub open spec fn differs(f: WalkedFile) -> bool {
    match f.snapshot {
        None => true,
        Some(s) => s@ != f.current@,
    }
}

/// A note of the change that the file shows.
pub open spec fn change_of(f: WalkedFile) -> (Seq<char>, bool) {
    (f.path@, f.snapshot is None)
}

/// The changes among the files, in their order.
pub open spec fn changes_in(files: Seq<WalkedFile>) -> Seq<(Seq<char>, bool)>
    decreases files.len(),
{
    if files.len() == 0 {
        Seq::empty()
    } else {
        let before = changes_in(files.drop_last());
        if differs(files.last()) {
            before.push(change_of(files.last()))
        } else {
            before
        }
    }
}

/// The views of a list of changed notes.
pub open spec fn changed_views(v: Seq<ChangedNote>) -> Seq<(Seq<char>, bool)> {
    v.map_values(|c: ChangedNote| (c.path@, c.was_create))
}

/// `list` with `x` put before the first element whose path comes after `x`'s.
pub open spec fn inserted(list: Seq<(Seq<char>, bool)>, x: (Seq<char>, bool)) -> Seq<
    (Seq<char>, bool),
>
    decreases list.len(),
{
    if list.len() == 0 || !text::before(x.0, list.last().0) {
        list.push(x)
    } else {
        inserted(list.drop_last(), x).push(list.last())
    }
}

/// The list in the order of its paths; equal paths stay as they stood.
pub open spec fn by_path(list: Seq<(Seq<char>, bool)>) -> Seq<(Seq<char>, bool)>
    decreases list.len(),
{
    if list.len() == 0 {
        Seq::empty()
    } else {
        inserted(by_path(list.drop_last()), list.last())
    }
}

/// Whether two byte strings are the same.
fn same_bytes(a: &Vec<u8>, b: &Vec<u8>) -> (r: bool)
    ensures
        r == (a@ == b@),
{
    if a.len() != b.len() {
        return false;
    }
    let mut i: usize = 0;
    while i < a.len()
        invariant
            a.len() == b.len(),
            i <= a.len(),
            forall|k: int| 0 <= k < i ==> a@[k] == b@[k],
        decreases a.len() - i,
    {
        if a[i] != b[i] {
            return false;
        }
        i += 1;
    }
    assert(a@ =~= b@);
    true
}

/// Puts a changed note at its place in a list in path order.
fn insert_change(list: &mut Vec<ChangedNote>, x: ChangedNote)
    ensures
        changed_views(final(list)@) == inserted(
            changed_views(old(list)@),
            (x.path@, x.was_create),
        ),
{
    let ghost start = changed_views(list@);
    let ghost v = (x.path@, x.was_create);
    let n: usize = list.len();
    let mut i: usize = n;
    assert(start.take(n as int) =~= start);
    assert(inserted(start, v) =~= inserted(start.take(i as int), v) + start.skip(i as int));
    while i > 0 && text::comes_before(x.path.as_str(), list[i - 1].path.as_str())
        invariant
            i <= n,
            n == list.len(),
            start == changed_views(list@),
            v == (x.path@, x.was_create),
            inserted(start, v) == inserted(start.take(i as int), v) + start.skip(i as int),
        decreases i,
    {
        assert(start.take(i as int).last() == start[i - 1]);
        assert(start.take(i as int).drop_last() =~= start.take(i - 1));
        assert(inserted(start.take(i - 1), v).push(start[i - 1]) + start.skip(i as int)
            =~= inserted(start.take(i - 1), v) + start.skip(i - 1));
        i -= 1;
    }
    assert(i > 0 ==> start.take(i as int).last() == start[i - 1]);
    assert(inserted(start.take(i as int), v) =~= start.take(i as int).push(v));
    let ghost before = list@;
    list.insert(i, x);
    assert(changed_views(list@) =~= start.take(i as int).push(v) + start.skip(i as int));
}

/// The notes that a turn made or changed, in path order. A file that the
/// snapshot holds and that is gone is not among them: there is nothing to
/// compare it with.
pub fn diff_formation(files: &Vec<WalkedFile>) -> (r: Vec<ChangedNote>)
    ensures
        changed_views(r@) == by_path(changes_in(files@)),
{
    let mut out: Vec<ChangedNote> = Vec::new();
    let mut i: usize = 0;
    assert(files@.take(0) =~= Seq::<WalkedFile>::empty());
    assert(changed_views(out@) =~= Seq::<(Seq<char>, bool)>::empty());
    while i < files.len()
        invariant
            i <= files.len(),
            changed_views(out@) == by_path(changes_in(files@.take(i as int))),
        decreases files.len() - i,
    {
        let f = &files[i];
        let ghost so_far = changes_in(files@.take(i as int));
        assert(files@.take(i + 1).drop_last() =~= files@.take(i as int));
        assert(files@.take(i + 1).last() == *f);
        let changed = match &f.snapshot {
            None => true,
            Some(s) => !same_bytes(s, &f.current),
        };
        if changed {
            let note = ChangedNote { path: f.path.clone(), was_create: f.snapshot.is_none() };
            insert_change(&mut out, note);
            assert(so_far.push(change_of(*f)).drop_last() =~= so_far);
        }
        i += 1;
    }
    assert(files@.take(i as int) =~= files@);
    out
}

// ---------------------------------------------------------------------------
// The log
// ---------------------------------------------------------------------------

/// `list`, newest first, with `x` put behind every entry that is not older.
pub open spec fn inserted_newest(list: Seq<AuditEntry>, x: AuditEntry) -> Seq<AuditEntry>
    decreases list.len(),
{
    if list.len() == 0 || !list.last().time().before(x.time()) {
        list.push(x)
    } else {
        inserted_newest(list.drop_last(), x).push(list.last())
    }
}

/// The entries newest first; entries of one time stay as they stood.
pub open spec fn newest_first_of(list: Seq<AuditEntry>) -> Seq<AuditEntry>
    decreases list.len(),
{
    if list.len() == 0 {
        Seq::empty()
    } else {
        inserted_newest(newest_first_of(list.drop_last()), list.last())
    }
}

/// Puts an entry at its place in a list that is newest first.
fn insert_entry(list: &mut Vec<AuditEntry>, x: AuditEntry)
    ensures
        final(list)@ == inserted_newest(old(list)@, x),
{
    let ghost start = list@;
    let n: usize = list.len();
    let mut i: usize = n;
    assert(start.take(n as int) =~= start);
    assert(inserted_newest(start, x) =~= inserted_newest(start.take(i as int), x) + start.skip(
        i as int,
    ));
    while i > 0 && list[i - 1].created().is_before(x.created())
        invariant
            i <= n,
            n == list.len(),
            start == list@,
            inserted_newest(start, x) == inserted_newest(start.take(i as int), x) + start.skip(
                i as int,
            ),
        decreases i,
    {
        assert(start.take(i as int).last() == start[i - 1]);
        assert(start.take(i as int).drop_last() =~= start.take(i - 1));
        assert(inserted_newest(start.take(i - 1), x).push(start[i - 1]) + start.skip(i as int)
            =~= inserted_newest(start.take(i - 1), x) + start.skip(i - 1));
        i -= 1;
    }
    assert(i > 0 ==> start.take(i as int).last() == start[i - 1]);
    assert(inserted_newest(start.take(i as int), x) =~= start.take(i as int).push(x));
    list.insert(i, x);
    assert(list@ =~= start.take(i as int).push(x) + start.skip(i as int));
}

/// The entries of the log, newest first.
pub fn newest_first(entries: Vec<AuditEntry>) -> (r: Vec<AuditEntry>)
    ensures
        r@ == newest_first_of(entries@),
{
    let ghost all = entries@;
    let ghost mut done: int = 0;
    let mut rest = entries;
    let mut out: Vec<AuditEntry> = Vec::new();
    assert(all.take(0) =~= Seq::<AuditEntry>::empty());
    assert(all.skip(0) =~= all);
    while rest.len() > 0
        invariant
            0 <= done <= all.len(),
            rest@ == all.skip(done),
            out@ == newest_first_of(all.take(done)),
        decreases rest.len(),
    {
        let x = rest.remove(0);
        assert(x == all[done]);
        assert(all.take(done + 1).drop_last() =~= all.take(done));
        insert_entry(&mut out, x);
        assert(rest@ =~= all.skip(done + 1));
        proof {
            done = done + 1;
        }
    }
    assert(all.take(done) =~= all);
    out
}

/// A file of the log's folder, and the entry in it if it reads as one.
#[derive(Debug, PartialEq, Eq)]
pub struct AuditFile {
    pub name: String,
    pub entry: Option<AuditEntry>,
}

/// The entries of the files that are entries; a leftover of a write, or a file
/// that does not read, is passed over.
pub open spec fn entries_in(files: Seq<AuditFile>) -> Seq<AuditEntry>
    decreases files.len(),
{
    if files.len() == 0 {
        Seq::empty()
    } else {
        let front = entries_in(files.drop_last());
        match files.last().entry {
            Some(e) => if paths::extension_of(files.last().name@) == Some("json"@) {
                front.push(e)
            } else {
                front
            },
            None => front,
        }
    }
}

/// Reads the log, newest first.
pub fn read_all_audit(files: Vec<AuditFile>) -> (r: Vec<AuditEntry>)
    ensures
        r@ == newest_first_of(entries_in(files@)),
{
    let ghost all = files@;
    let ghost mut done: int = 0;
    let mut rest = files;
    let mut out: Vec<AuditEntry> = Vec::new();
    assert(all.take(0) =~= Seq::<AuditFile>::empty());
    assert(all.skip(0) =~= all);
    while rest.len() > 0
        invariant
            0 <= done <= all.len(),
            rest@ == all.skip(done),
            out@ == entries_in(all.take(done)),
        decreases rest.len(),
    {
        let file = rest.remove(0);
        assert(file == all[done]);
        assert(all.take(done + 1).drop_last() =~= all.take(done));
        assert(all.take(done + 1).last() == file);
        let is_entry = match paths::extension(file.name.as_str()) {
            Some(ext) => text::same(ext.as_str(), "json"),
            None => false,
        };
        match file.entry {
            Some(e) => {
                if is_entry {
                    out.push(e);
                }
            },
            None => {},
        }
        assert(rest@ =~= all.skip(done + 1));
        proof {
            done = done + 1;
        }
    }
    assert(all.take(done) =~= all);
    newest_first(out)
}

/// What goes when an entry is pruned: its file, and its snapshot if it has one.
#[derive(Debug, PartialEq, Eq)]
pub struct PruneStep {
    pub entry_id: String,
    pub snapshot_dir: Option<String>,
}

/// The step that prunes the entry.
pub open spec fn prunes(step: PruneStep, e: AuditEntry) -> bool {
    &&& step.entry_id@ == e.id()
    &&& text::opt_text(step.snapshot_dir) == match e {
        AuditEntry::ChatTurn(c) => Some(c.snapshot_dir@),
        AuditEntry::TaskCompletion(_) => None,
    }
}

/// What to delete so that only the newest `keep` entries stay, given the
/// entries newest first: every entry behind those, in order.
pub fn prune_old(newest_first: &Vec<AuditEntry>, keep: usize) -> (r: Vec<PruneStep>)
    ensures
        r@.len() == (if newest_first@.len() <= keep {
            0
        } else {
            newest_first@.len() - keep
        }),
        forall|k: int| 0 <= k < r@.len() ==> prunes(#[trigger] r@[k], newest_first@[keep + k]),
{
    let mut out: Vec<PruneStep> = Vec::new();
    let mut i: usize = keep;
    while i < newest_first.len()
        invariant
            keep <= i,
            i <= newest_first.len() || i == keep,
            out@.len() == i - keep,
            forall|k: int| 0 <= k < out@.len() ==> prunes(#[trigger] out@[k], newest_first@[keep + k]),
        decreases newest_first.len() - i,
    {
        let e = &newest_first[i];
        let snapshot_dir = match e {
            AuditEntry::ChatTurn(c) => Some(c.snapshot_dir.clone()),
            AuditEntry::TaskCompletion(_) => None,
        };
        let step = PruneStep { entry_id: e.entry_id().to_owned(), snapshot_dir };
        out.push(step);
        i += 1;
    }
    out
}

/// The entry for a finished chat turn.
pub fn chat_turn_entry(
    turn_id: &str,
    created: Timestamp,
    message: &str,
    reply: &str,
    changed_notes: Vec<ChangedNote>,
    recorded_fact_ids: Vec<String>,
) -> (r: ChatTurnEntry)
    ensures
        r.turn_id@ == turn_id@,
        r.created == created,
        r.user_excerpt@ == excerpt_of(message@),
        r.reply_excerpt@ == excerpt_of(reply@),
        r.snapshot_dir@ == snapshot_rel(turn_id@),
        r.changed_notes@ == changed_notes@,
        r.recorded_fact_ids@ == recorded_fact_ids@,
{
    let mut dir = formation::APP_DIR.to_owned();
    dir.append("/snapshots/");
    dir.append(turn_id);
    ChatTurnEntry {
        turn_id: turn_id.to_owned(),
        created,
        user_excerpt: excerpt(message),
        reply_excerpt: excerpt(reply),
        snapshot_dir: dir,
        changed_notes,
        recorded_fact_ids,
    }
}

/// The entry for a completed task, under a fresh id.
pub fn task_completion_entry(
    created: Timestamp,
    task_id: &str,
    task_title: &str,
    daily_note_path: &str,
    appended_bullet_text: &str,
) -> (r: TaskCompletionEntry)
    ensures
        ids::is_id(r.entry_id@, "task_completion_"@),
        r.created == created,
        r.task_id@ == task_id@,
        r.task_title@ == task_title@,
        r.daily_note_path@ == daily_note_path@,
        r.appended_bullet_text@ == appended_bullet_text@,
{
    TaskCompletionEntry {
        entry_id: new_task_completion_id(),
        created,
        task_id: task_id.to_owned(),
        task_title: task_title.to_owned(),
        daily_note_path: daily_note_path.to_owned(),
        appended_bullet_text: appended_bullet_text.to_owned(),
    }
}

// ---------------------------------------------------------------------------
// Undo
// ---------------------------------------------------------------------------

/// How one note is taken back.
#[derive(Debug, PartialEq, Eq)]
pub enum RevertStep {
    /// Delete the note; it not being there is no error.
    Delete(String),
    /// Overwrite the note with its bytes in the snapshot.
    Restore(String),
}

/// The step takes the note back.
pub open spec fn reverts(step: RevertStep, note: ChangedNote) -> bool {
    match step {
        RevertStep::Delete(p) => note.was_create && p@ == note.path@,
        RevertStep::Restore(p) => !note.was_create && p@ == note.path@,
    }
}

/// What undoing a turn takes: the notes, then the facts.
#[derive(Debug, PartialEq, Eq)]
pub struct RevertPlan {
    pub notes: Vec<RevertStep>,
    pub fact_ids: Vec<String>,
}

/// How a turn's changes are taken back from its snapshot: each changed note
/// restored, or deleted if the turn made it, then each recorded fact deleted.
pub fn revert_to_snapshot(changed_notes: &Vec<ChangedNote>, fact_ids: &Vec<String>) -> (r: RevertPlan)
    ensures
        r.notes@.len() == changed_notes@.len(),
        forall|i: int|
            0 <= i < changed_notes@.len() ==> reverts(#[trigger] r.notes@[i], changed_notes@[i]),
        text::texts(r.fact_ids@) == text::texts(fact_ids@),
{
    let mut notes: Vec<RevertStep> = Vec::new();
    let mut i: usize = 0;
    while i < changed_notes.len()
        invariant
            i <= changed_notes.len(),
            notes@.len() == i,
            forall|k: int| 0 <= k < i ==> reverts(#[trigger] notes@[k], changed_notes@[k]),
        decreases changed_notes.len() - i,
    {
        let n = &changed_notes[i];
        if n.was_create {
            notes.push(RevertStep::Delete(n.path.clone()));
        } else {
            notes.push(RevertStep::Restore(n.path.clone()));
        }
        i += 1;
    }
    let ids = fact_ids.clone();
    assert(text::texts(ids@) =~= text::texts(fact_ids@));
    RevertPlan { notes, fact_ids: ids }
}

/// The message for an entry of the wrong kind.
pub open spec fn wrong_kind(id: Seq<char>, kind: Seq<char>) -> Seq<char> {
    "audit entry "@ + id + " is not a "@ + kind + " entry"@
}

fn wrong_kind_error(id: &str, kind: &str) -> (r: AppError)
    ensures
        r.text() == wrong_kind(id@, kind@),
{
    let mut s = String::from_str("audit entry ");
    s.append(id);
    s.append(" is not a ");
    s.append(kind);
    s.append(" entry");
    AppError::Other(s)
}

/// How a whole turn is undone, from its entry: the plan, and the snapshot to
/// restore from, which goes afterwards together with the entry. An entry that
/// is no chat turn is refused.
pub fn undo_turn(entry: &AuditEntry, turn_id: &str) -> (r: Result<(RevertPlan, String), AppError>)
    ensures
        match *entry {
            AuditEntry::ChatTurn(e) => match r {
                Ok((plan, dir)) => {
                    &&& dir@ == e.snapshot_dir@
                    &&& plan.notes@.len() == e.changed_notes@.len()
                    &&& forall|i: int|
                        0 <= i < e.changed_notes@.len() ==> reverts(
                            #[trigger] plan.notes@[i],
                            e.changed_notes@[i],
                        )
                    &&& text::texts(plan.fact_ids@) == text::texts(e.recorded_fact_ids@)
                },
                Err(_) => false,
            },
            AuditEntry::TaskCompletion(_) => r matches Err(e) && e.text() == wrong_kind(
                turn_id@,
                "chat-turn"@,
            ),
        },
{
    match entry {
        AuditEntry::ChatTurn(e) => {
            let plan = revert_to_snapshot(&e.changed_notes, &e.recorded_fact_ids);
            Ok((plan, e.snapshot_dir.clone()))
        },
        AuditEntry::TaskCompletion(_) => Err(wrong_kind_error(turn_id, "chat-turn")),
    }
}

/// The ids other than one.
pub open spec fn ids_without(ids: Seq<Seq<char>>, id: Seq<char>) -> Seq<Seq<char>>
    decreases ids.len(),
{
    if ids.len() == 0 {
        Seq::empty()
    } else {
        let before = ids_without(ids.drop_last(), id);
        if ids.last() == id {
            before
        } else {
            before.push(ids.last())
        }
    }
}

/// Undoes one fact of a turn: the entry as it is afterwards. The notes and the
/// other facts stay, and so does the entry, even without any fact. An entry
/// that is no chat turn, and a fact that is not the turn's, are refused.
pub fn undo_fact(entry: AuditEntry, turn_id: &str, fact_id: &str) -> (r: Result<AuditEntry, AppError>)
    ensures
        match entry {
            AuditEntry::ChatTurn(e) => if text::texts(e.recorded_fact_ids@).contains(fact_id@) {
                r matches Ok(AuditEntry::ChatTurn(n)) && text::texts(n.recorded_fact_ids@)
                    == ids_without(text::texts(e.recorded_fact_ids@), fact_id@) && n.turn_id
                    == e.turn_id && n.created == e.created && n.user_excerpt == e.user_excerpt
                    && n.reply_excerpt == e.reply_excerpt && n.snapshot_dir == e.snapshot_dir
                    && n.changed_notes == e.changed_notes
            } else {
                r matches Err(m) && m.text() == "fact "@ + fact_id@ + " is not in turn "@ + turn_id@
            },
            AuditEntry::TaskCompletion(_) => r matches Err(m) && m.text() == wrong_kind(
                turn_id@,
                "chat-turn"@,
            ),
        },
{
    match entry {
        AuditEntry::ChatTurn(e) => {
            if !text::list_has(&e.recorded_fact_ids, fact_id) {
                let mut s = String::from_str("fact ");
                s.append(fact_id);
                s.append(" is not in turn ");
                s.append(turn_id);
                return Err(AppError::Other(s));
            }
            let ghost all = text::texts(e.recorded_fact_ids@);
            let mut kept: Vec<String> = Vec::new();
            let mut i: usize = 0;
            assert(all.take(0) =~= Seq::<Seq<char>>::empty());
            assert(text::texts(kept@) =~= Seq::<Seq<char>>::empty());
            while i < e.recorded_fact_ids.len()
                invariant
                    i <= e.recorded_fact_ids.len(),
                    all == text::texts(e.recorded_fact_ids@),
                    text::texts(kept@) == ids_without(all.take(i as int), fact_id@),
                decreases e.recorded_fact_ids.len() - i,
            {
                assert(all.take(i + 1).drop_last() =~= all.take(i as int));
                assert(all.take(i + 1).last() == e.recorded_fact_ids@[i as int]@);
                if !text::same(e.recorded_fact_ids[i].as_str(), fact_id) {
                    let id = e.recorded_fact_ids[i].clone();
                    proof {
                        text::lemma_texts_push(kept@, id);
                    }
                    kept.push(id);
                }
                i += 1;
            }
            assert(all.take(i as int) =~= all);
            Ok(
                AuditEntry::ChatTurn(
                    ChatTurnEntry {
                        turn_id: e.turn_id,
                        created: e.created,
                        user_excerpt: e.user_excerpt,
                        reply_excerpt: e.reply_excerpt,
                        snapshot_dir: e.snapshot_dir,
                        changed_notes: e.changed_notes,
                        recorded_fact_ids: kept,
                    },
                ),
            )
        },
        AuditEntry::TaskCompletion(_) => Err(wrong_kind_error(turn_id, "chat-turn")),
    }
}

/// What became of a request to undo a completed task.
#[derive(Clone, Copy, Debug, PartialEq, Eq, Structural)]
pub enum UndoTaskCompletionResult {
    /// The line is out of the daily note, and the entry out of the log.
    Removed,
    /// The line was edited since: it stays, and so does the entry.
    EditedSinceAppended,
    /// The daily note is gone, and so is the entry.
    FileMissing,
}

/// What undoing a completed task takes.
#[derive(Debug, PartialEq, Eq)]
pub struct TaskUndo {
    pub result: UndoTaskCompletionResult,
    /// The daily note's new text, if it changes.
    pub new_note: Option<String>,
    /// Whether the entry goes.
    pub remove_entry: bool,
}

/// Undoes a completed task, given the daily note's text (`None` where it is
/// gone): the line it added is removed from `## Did` if it still stands there
/// as it was. An entry of another kind is refused.
pub fn undo_task_completion(entry: &AuditEntry, entry_id: &str, note: Option<&str>) -> (r: Result<
    TaskUndo,
    AppError,
>)
    ensures
        match *entry {
            AuditEntry::ChatTurn(_) => r matches Err(e) && e.text() == wrong_kind(
                entry_id@,
                "task-completion"@,
            ),
            AuditEntry::TaskCompletion(e) => {
                let bullet = daily_note::bullet_of(e.appended_bullet_text@);
                match (r, note) {
                    (Ok(u), None) => u.result is FileMissing && u.new_note is None && u.remove_entry,
                    (Ok(u), Some(c)) => if daily_note::did_holds(c@, bullet) {
                        &&& u.result is Removed
                        &&& u.remove_entry
                        &&& text::opt_text(u.new_note) == Some(
                            daily_note::without_bullet(c@, bullet),
                        )
                    } else {
                        u.result is EditedSinceAppended && u.new_note is None && !u.remove_entry
                    },
                    _ => false,
                }
            },
        },
{
    match entry {
        AuditEntry::ChatTurn(_) => Err(wrong_kind_error(entry_id, "task-completion")),
        AuditEntry::TaskCompletion(e) => {
            let (outcome, new_note) = daily_note::remove_did_bullet(
                note,
                e.appended_bullet_text.as_str(),
            );
            let (result, remove_entry) = match outcome {
                daily_note::RemoveResult::Removed => (UndoTaskCompletionResult::Removed, true),
                daily_note::RemoveResult::EditedSinceAppended => (
                    UndoTaskCompletionResult::EditedSinceAppended,
                    false,
                ),
                daily_note::RemoveResult::FileMissing => (
                    UndoTaskCompletionResult::FileMissing,
                    true,
                ),
            };
            Ok(TaskUndo { result, new_note, remove_entry })
        },
    }
}

// ---------------------------------------------------------------------------
// Laws
// ---------------------------------------------------------------------------

/// The id spaces of turns and completed tasks do not meet.
pub proof fn law_id_spaces_are_disjoint(a: Seq<char>, b: Seq<char>)
    requires
        ids::is_id(a, "turn_"@),
        ids::is_id(b, "task_completion_"@),
    ensures
        a != b,
{
    reveal_strlit("turn_");
    reveal_strlit("task_completion_");
    assert(a[1] == 'u');
    assert(b[1] == 'a');
}

/// The entries newest first.
pub open spec fn is_newest_first(list: Seq<AuditEntry>) -> bool {
    forall|i: int, j: int|
        0 <= i < j < list.len() ==> !(#[trigger] list[i]).time().before(
            (#[trigger] list[j]).time(),
        )
}

proof fn lemma_inserted_newest(list: Seq<AuditEntry>, x: AuditEntry)
    requires
        is_newest_first(list),
    ensures
        is_newest_first(inserted_newest(list, x)),
        inserted_newest(list, x).len() == list.len() + 1,
        inserted_newest(list, x).to_multiset() == list.to_multiset().insert(x),
        forall|k: int|
            0 <= k < inserted_newest(list, x).len() ==> (#[trigger] inserted_newest(list, x)[k]) == x
                || list.contains(inserted_newest(list, x)[k]),
    decreases list.len(),
{
    broadcast use vstd::seq_lib::group_to_multiset_ensures;

    if list.len() == 0 || !list.last().time().before(x.time()) {
        let out = list.push(x);
        assert forall|i: int, j: int| 0 <= i < j < out.len() implies !(
        #[trigger] out[i]).time().before((#[trigger] out[j]).time()) by {
            if j == list.len() {
                if i < list.len() - 1 {
                    assert(!list[i].time().before(list[list.len() - 1].time()));
                }
            }
        }
        assert forall|k: int| 0 <= k < out.len() implies #[trigger] out[k] == x || list.contains(
            out[k],
        ) by {
            if k < list.len() {
                assert(list[k] == out[k]);
            }
        }
    } else {
        let front = list.drop_last();
        let last = list.last();
        assert(is_newest_first(front)) by {
            assert forall|i: int, j: int| 0 <= i < j < front.len() implies !(
            #[trigger] front[i]).time().before((#[trigger] front[j]).time()) by {
                assert(!list[i].time().before(list[j].time()));
            }
        }
        lemma_inserted_newest(front, x);
        let mid = inserted_newest(front, x);
        let out = mid.push(last);
        assert forall|k: int| 0 <= k < mid.len() implies !(#[trigger] mid[k]).time().before(
            last.time(),
        ) by {
            if mid[k] != x {
                let q = choose|q: int| 0 <= q < front.len() && front[q] == mid[k];
                assert(!list[q].time().before(list[list.len() - 1].time()));
            }
        }
        assert forall|k: int| 0 <= k < out.len() implies #[trigger] out[k] == x || list.contains(
            out[k],
        ) by {
            if k < mid.len() {
                if mid[k] != x {
                    let q = choose|q: int| 0 <= q < front.len() && front[q] == mid[k];
                    assert(list[q] == out[k]);
                }
            } else {
                assert(list[list.len() - 1] == out[k]);
            }
        }
        assert(list =~= front.push(last));
        assert(front.to_multiset().insert(x).insert(last) =~= front.to_multiset().insert(
            last,
        ).insert(x));
    }
}

/// The log is listed newest first, and nothing is lost or added.
pub proof fn law_log_is_newest_first(entries: Seq<AuditEntry>)
    ensures
        is_newest_first(newest_first_of(entries)),
        newest_first_of(entries).to_multiset() == entries.to_multiset(),
        newest_first_of(entries).len() == entries.len(),
    decreases entries.len(),
{
    broadcast use vstd::seq_lib::group_to_multiset_ensures;

    if entries.len() > 0 {
        law_log_is_newest_first(entries.drop_last());
        lemma_inserted_newest(newest_first_of(entries.drop_last()), entries.last());
        assert(entries =~= entries.drop_last().push(entries.last()));
    } else {
        assert(newest_first_of(entries) =~= entries);
    }
}

/// Pruning keeps the newest: no entry that stays is older than one that goes.
pub proof fn law_pruning_keeps_the_newest(entries: Seq<AuditEntry>, keep: int, kept: int, gone: int)
    requires
        0 <= kept < keep <= gone < entries.len(),
    ensures
        !newest_first_of(entries)[kept].time().before(newest_first_of(entries)[gone].time()),
{
    law_log_is_newest_first(entries);
}

/// What a turn changed between two states of the formation.
pub open spec fn turn_changes(
    snapshot: Map<Seq<char>, Seq<u8>>,
    after: Map<Seq<char>, Seq<u8>>,
) -> Set<(Seq<char>, bool)> {
    Set::new(
        |c: (Seq<char>, bool)|
            after.contains_key(c.0) && (if c.1 {
                !snapshot.contains_key(c.0)
            } else {
                snapshot.contains_key(c.0) && snapshot[c.0] != after[c.0]
            }),
    )
}

/// The formation, as a map from paths to bytes, once these steps are taken, one
/// after the other, with what the snapshot holds.
pub open spec fn reverted(
    after: Map<Seq<char>, Seq<u8>>,
    snapshot: Map<Seq<char>, Seq<u8>>,
    steps: Seq<RevertStep>,
) -> Map<Seq<char>, Seq<u8>>
    decreases steps.len(),
{
    if steps.len() == 0 {
        after
    } else {
        let rest = reverted(after, snapshot, steps.drop_last());
        match steps.last() {
            RevertStep::Delete(p) => rest.remove(p@),
            RevertStep::Restore(p) => rest.insert(p@, snapshot[p@]),
        }
    }
}

/// The files are those of the formation, each of them once, with its bytes then and
/// now.
pub open spec fn walks(
    files: Seq<WalkedFile>,
    snapshot: Map<Seq<char>, Seq<u8>>,
    after: Map<Seq<char>, Seq<u8>>,
) -> bool {
    &&& forall|i: int|
        0 <= i < files.len() ==> after.contains_key((#[trigger] files[i]).path@)
            && files[i].current@ == after[files[i].path@] && (files[i].snapshot is Some)
            == snapshot.contains_key(files[i].path@) && (files[i].snapshot is Some
            ==> files[i].snapshot->0@ == snapshot[files[i].path@])
    &&& forall|p: Seq<char>|
        after.contains_key(p) ==> exists|i: int|
            0 <= i < files.len() && (#[trigger] files[i]).path@ == p
    &&& forall|i: int, j: int|
        0 <= i < j < files.len() ==> (#[trigger] files[i]).path@ != (#[trigger] files[j]).path@
}

/// What a step makes of a file, and that it leaves all others.
proof fn lemma_reverted(
    after: Map<Seq<char>, Seq<u8>>,
    snapshot: Map<Seq<char>, Seq<u8>>,
    changed: Seq<ChangedNote>,
    steps: Seq<RevertStep>,
    p: Seq<char>,
)
    requires
        steps.len() == changed.len(),
        forall|i: int| 0 <= i < steps.len() ==> reverts(#[trigger] steps[i], changed[i]),
        forall|i: int|
            0 <= i < changed.len() ==> (#[trigger] changed[i]).was_create == !snapshot.contains_key(
                changed[i].path@,
            ),
    ensures
        ({
            let back = reverted(after, snapshot, steps);
            if exists|i: int| 0 <= i < changed.len() && (#[trigger] changed[i]).path@ == p {
                back.contains_key(p) == snapshot.contains_key(p) && (snapshot.contains_key(p)
                    ==> back[p] == snapshot[p])
            } else {
                back.contains_key(p) == after.contains_key(p) && (after.contains_key(p)
                    ==> back[p] == after[p])
            }
        }),
    decreases steps.len(),
{
    if steps.len() > 0 {
        let front = steps.drop_last();
        let notes = changed.drop_last();
        assert forall|i: int| 0 <= i < front.len() implies reverts(#[trigger] front[i], notes[i]) by {
            assert(reverts(steps[i], changed[i]));
        }
        assert forall|i: int| 0 <= i < notes.len() implies (#[trigger] notes[i]).was_create
            == !snapshot.contains_key(notes[i].path@) by {
            assert(notes[i] == changed[i]);
        }
        lemma_reverted(after, snapshot, notes, front, p);
        assert(reverts(steps[steps.len() - 1], changed[steps.len() - 1]));
        if changed.last().path@ != p {
            if exists|i: int| 0 <= i < changed.len() && (#[trigger] changed[i]).path@ == p {
                let i = choose|i: int| 0 <= i < changed.len() && (#[trigger] changed[i]).path@ == p;
                assert(notes[i] == changed[i]);
            }
            if exists|i: int| 0 <= i < notes.len() && (#[trigger] notes[i]).path@ == p {
                let i = choose|i: int| 0 <= i < notes.len() && (#[trigger] notes[i]).path@ == p;
                assert(changed[i] == notes[i]);
            }
        }
    }
}

/// Undoing a turn brings the formation back to what it was before, file by file
/// and byte by byte, as long as the turn deleted no file: the steps that take
/// back what the comparison lists lead from the formation after the turn to its
/// snapshot.
pub proof fn law_undo_restores_the_formation(
    files: Seq<WalkedFile>,
    changed: Seq<ChangedNote>,
    steps: Seq<RevertStep>,
    snapshot: Map<Seq<char>, Seq<u8>>,
    after: Map<Seq<char>, Seq<u8>>,
)
    requires
        walks(files, snapshot, after),
        changed_views(changed) == by_path(changes_in(files)),
        steps.len() == changed.len(),
        forall|i: int| 0 <= i < steps.len() ==> reverts(#[trigger] steps[i], changed[i]),
        forall|p: Seq<char>| snapshot.contains_key(p) ==> after.contains_key(p),
    ensures
        reverted(after, snapshot, steps) == snapshot,
{
    let listed = by_path(changes_in(files));
    law_diff_lists_the_changes(files, snapshot, after);
    assert forall|i: int| 0 <= i < changed.len() implies turn_changes(snapshot, after).contains(
        ((#[trigger] changed[i]).path@, changed[i].was_create),
    ) by {
        assert(changed_views(changed)[i] == listed[i]);
        assert(listed.contains(listed[i]));
    }
    let back = reverted(after, snapshot, steps);
    assert forall|p: Seq<char>| #[trigger] back.contains_key(p) == snapshot.contains_key(p) && (
    snapshot.contains_key(p) ==> back[p] == snapshot[p]) by {
        lemma_reverted(after, snapshot, changed, steps, p);
        if !(exists|i: int| 0 <= i < changed.len() && (#[trigger] changed[i]).path@ == p) {
            assert forall|made: bool| !turn_changes(snapshot, after).contains((p, made)) by {
                if listed.contains((p, made)) {
                    let i = choose|i: int| 0 <= i < listed.len() && listed[i] == (p, made);
                    assert(changed_views(changed)[i] == (p, made));
                    assert(changed[i].path@ == p);
                }
            }
            assert(!turn_changes(snapshot, after).contains((p, true)));
            assert(!turn_changes(snapshot, after).contains((p, false)));
        }
    }
    assert(back.dom() =~= snapshot.dom());
    assert forall|p: Seq<char>| snapshot.contains_key(p) implies #[trigger] back[p]
        == snapshot[p] by {
        assert(back.contains_key(p));
    }
    assert(back =~= snapshot);
}

/// What is compared file by file is what the turn changed: a walk over all files of
/// the formation, each once with its bytes then and now, lists just the changes
/// between the two states, each once and by strictly ascending paths.
pub proof fn law_diff_lists_the_changes(
    files: Seq<WalkedFile>,
    snapshot: Map<Seq<char>, Seq<u8>>,
    after: Map<Seq<char>, Seq<u8>>,
)
    requires
        walks(files, snapshot, after),
    ensures
        forall|c: (Seq<char>, bool)|
            by_path(changes_in(files)).contains(c) <==> turn_changes(snapshot, after).contains(c),
        forall|i: int, j: int|
            0 <= i < j < by_path(changes_in(files)).len() ==> text::before(
                (#[trigger] by_path(changes_in(files))[i]).0,
                (#[trigger] by_path(changes_in(files))[j]).0,
            ),
{
    broadcast use vstd::seq_lib::group_to_multiset_ensures;

    let found = changes_in(files);
    let listed = by_path(found);
    lemma_changes_found(files, snapshot, after);
    law_changes_are_in_path_order(found);
    lemma_changes_once(files);
    assert forall|c: (Seq<char>, bool)| listed.contains(c) <==> turn_changes(
        snapshot,
        after,
    ).contains(c) by {
        assert(listed.contains(c) <==> listed.to_multiset().count(c) > 0);
        assert(found.contains(c) <==> found.to_multiset().count(c) > 0);
    }
    assert(found.no_duplicates());
    found.lemma_multiset_has_no_duplicates();
    listed.lemma_multiset_has_no_duplicates_conv();
    assert forall|i: int, j: int| 0 <= i < j < listed.len() implies text::before(
        (#[trigger] listed[i]).0,
        (#[trigger] listed[j]).0,
    ) by {
        let a = listed[i];
        let b = listed[j];
        assert(listed.contains(a) && listed.contains(b));
        assert(listed.to_multiset().count(a) > 0 && listed.to_multiset().count(b) > 0);
        assert(found.contains(a) && found.contains(b));
        if a.0 == b.0 {
            let x = choose|x: int| 0 <= x < found.len() && found[x] == a;
            let y = choose|y: int| 0 <= y < found.len() && found[y] == b;
            assert(x != y);
            if x < y {
                assert(found[x].0 != found[y].0);
            } else {
                assert(found[y].0 != found[x].0);
            }
        }
        text::lemma_before_order(a.0, b.0, a.0);
    }
}

/// Files with different paths give changes with different paths.
proof fn lemma_changes_once(files: Seq<WalkedFile>)
    requires
        forall|i: int, j: int|
            0 <= i < j < files.len() ==> (#[trigger] files[i]).path@ != (#[trigger] files[j]).path@,
    ensures
        forall|i: int, j: int|
            0 <= i < j < changes_in(files).len() ==> (#[trigger] changes_in(files)[i]).0 != (
            #[trigger] changes_in(files)[j]).0,
    decreases files.len(),
{
    if files.len() > 0 {
        let front = files.drop_last();
        assert forall|i: int, j: int| 0 <= i < j < front.len() implies (#[trigger] front[i]).path@
            != (#[trigger] front[j]).path@ by {
            assert(front[i] == files[i] && front[j] == files[j]);
        }
        lemma_changes_once(front);
        lemma_changes_in(front);
        let before = changes_in(front);
        let now = changes_in(files);
        assert forall|i: int, j: int| 0 <= i < j < now.len() implies (#[trigger] now[i]).0 != (
        #[trigger] now[j]).0 by {
            assert(now[i] == before[i]);
            if j < before.len() {
                assert(now[j] == before[j]);
            } else {
                assert(before.contains(before[i]));
                let q = choose|q: int|
                    0 <= q < front.len() && differs(#[trigger] front[q]) && change_of(front[q])
                        == before[i];
                assert(front[q] == files[q]);
                assert(files[q].path@ != files[files.len() - 1].path@);
            }
        }
    }
}

/// The changes that a walk finds are those of the turn.
proof fn lemma_changes_found(
    files: Seq<WalkedFile>,
    snapshot: Map<Seq<char>, Seq<u8>>,
    after: Map<Seq<char>, Seq<u8>>,
)
    requires
        walks(files, snapshot, after),
    ensures
        forall|c: (Seq<char>, bool)|
            changes_in(files).contains(c) <==> turn_changes(snapshot, after).contains(c),
{
    lemma_changes_in(files);
    assert forall|c: (Seq<char>, bool)|
        changes_in(files).contains(c) <==> turn_changes(snapshot, after).contains(c) by {
        if changes_in(files).contains(c) {
            let i = choose|i: int|
                0 <= i < files.len() && differs(#[trigger] files[i]) && change_of(files[i]) == c;
            assert(after.contains_key(files[i].path@));
        }
        if turn_changes(snapshot, after).contains(c) {
            let i = choose|i: int| 0 <= i < files.len() && (#[trigger] files[i]).path@ == c.0;
            assert(differs(files[i]) && change_of(files[i]) == c);
        }
    }
}

proof fn lemma_changes_in(files: Seq<WalkedFile>)
    ensures
        forall|c: (Seq<char>, bool)|
            changes_in(files).contains(c) <==> (exists|i: int|
                0 <= i < files.len() && differs(#[trigger] files[i]) && change_of(files[i]) == c),
    decreases files.len(),
{
    if files.len() > 0 {
        let front = files.drop_last();
        lemma_changes_in(front);
        let before = changes_in(front);
        let now = changes_in(files);
        let last = files.last();
        assert forall|c: (Seq<char>, bool)| now.contains(c) <==> (exists|i: int|
            0 <= i < files.len() && differs(#[trigger] files[i]) && change_of(files[i]) == c) by {
            if now.contains(c) {
                let q = choose|q: int| 0 <= q < now.len() && now[q] == c;
                if q < before.len() {
                    assert(before[q] == c);
                    assert(before.contains(c));
                    let i = choose|i: int|
                        0 <= i < front.len() && differs(#[trigger] front[i]) && change_of(front[i])
                            == c;
                    assert(files[i] == front[i]);
                } else {
                    assert(differs(files[files.len() - 1]));
                }
            }
            if exists|i: int|
                0 <= i < files.len() && differs(#[trigger] files[i]) && change_of(files[i]) == c {
                let i = choose|i: int|
                    0 <= i < files.len() && differs(#[trigger] files[i]) && change_of(files[i]) == c;
                if i < front.len() {
                    assert(front[i] == files[i]);
                    assert(before.contains(c));
                    let q = choose|q: int| 0 <= q < before.len() && before[q] == c;
                    assert(now[q] == c);
                } else {
                    assert(now[now.len() - 1] == c);
                }
            }
        }
    }
}

/// Undoing one fact leaves every other one: the id is gone, all others stay.
pub proof fn law_undo_fact_keeps_the_rest(ids: Seq<Seq<char>>, id: Seq<char>)
    ensures
        !ids_without(ids, id).contains(id),
        forall|other: Seq<char>|
            other != id ==> #[trigger] ids_without(ids, id).contains(other) == ids.contains(other),
    decreases ids.len(),
{
    if ids.len() > 0 {
        let front = ids.drop_last();
        law_undo_fact_keeps_the_rest(front, id);
        let before = ids_without(front, id);
        let now = ids_without(ids, id);
        if now.contains(id) {
            let q = choose|q: int| 0 <= q < now.len() && now[q] == id;
            assert(before[q] == id);
        }
        assert forall|other: Seq<char>| other != id implies #[trigger] now.contains(other)
            == ids.contains(other) by {
            assert(before.contains(other) == front.contains(other));
            if now.contains(other) {
                let q = choose|q: int| 0 <= q < now.len() && now[q] == other;
                if q < before.len() {
                    assert(before[q] == other);
                    assert(before.contains(other));
                    let p = choose|p: int| 0 <= p < front.len() && front[p] == other;
                    assert(ids[p] == other);
                } else {
                    assert(ids[ids.len() - 1] == other);
                }
            }
            if ids.contains(other) {
                let p = choose|p: int| 0 <= p < ids.len() && ids[p] == other;
                if p < front.len() {
                    assert(front[p] == other);
                    assert(front.contains(other));
                    let q = choose|q: int| 0 <= q < before.len() && before[q] == other;
                    assert(now[q] == other);
                } else {
                    assert(now[now.len() - 1] == other);
                }
            }
        }
    }
}

/// The notes in the order of their paths.
pub open spec fn in_path_order(list: Seq<(Seq<char>, bool)>) -> bool {
    forall|i: int, j: int|
        0 <= i < j < list.len() ==> !text::before((#[trigger] list[j]).0, (#[trigger] list[i]).0)
}

proof fn lemma_inserted(list: Seq<(Seq<char>, bool)>, x: (Seq<char>, bool))
    requires
        in_path_order(list),
    ensures
        in_path_order(inserted(list, x)),
        inserted(list, x).to_multiset() == list.to_multiset().insert(x),
        forall|k: int|
            0 <= k < inserted(list, x).len() ==> (#[trigger] inserted(list, x)[k]) == x
                || list.contains(inserted(list, x)[k]),
    decreases list.len(),
{
    broadcast use vstd::seq_lib::group_to_multiset_ensures;

    if list.len() == 0 || !text::before(x.0, list.last().0) {
        let out = list.push(x);
        assert forall|i: int, j: int| 0 <= i < j < out.len() implies !text::before(
            (#[trigger] out[j]).0,
            (#[trigger] out[i]).0,
        ) by {
            if j == list.len() && i < list.len() - 1 {
                assert(!text::before(list[list.len() - 1].0, list[i].0));
                text::lemma_before_order(list[i].0, list.last().0, x.0);
            }
        }
        assert forall|k: int| 0 <= k < out.len() implies #[trigger] out[k] == x || list.contains(
            out[k],
        ) by {
            if k < list.len() {
                assert(list[k] == out[k]);
            }
        }
    } else {
        let front = list.drop_last();
        let last = list.last();
        assert(in_path_order(front)) by {
            assert forall|i: int, j: int| 0 <= i < j < front.len() implies !text::before(
                (#[trigger] front[j]).0,
                (#[trigger] front[i]).0,
            ) by {
                assert(!text::before(list[j].0, list[i].0));
            }
        }
        lemma_inserted(front, x);
        let mid = inserted(front, x);
        let out = mid.push(last);
        assert forall|k: int| 0 <= k < mid.len() implies !text::before(
            last.0,
            (#[trigger] mid[k]).0,
        ) by {
            if mid[k] != x {
                let q = choose|q: int| 0 <= q < front.len() && front[q] == mid[k];
                assert(!text::before(list[list.len() - 1].0, list[q].0));
            } else {
                lemma_before_asymmetric(x.0, last.0);
            }
        }
        assert forall|k: int| 0 <= k < out.len() implies #[trigger] out[k] == x || list.contains(
            out[k],
        ) by {
            if k < mid.len() {
                if mid[k] != x {
                    let q = choose|q: int| 0 <= q < front.len() && front[q] == mid[k];
                    assert(list[q] == out[k]);
                }
            } else {
                assert(list[list.len() - 1] == out[k]);
            }
        }
        assert(list =~= front.push(last));
        assert(front.to_multiset().insert(x).insert(last) =~= front.to_multiset().insert(
            last,
        ).insert(x));
    }
}

proof fn lemma_before_asymmetric(a: Seq<char>, b: Seq<char>)
    requires
        text::before(a, b),
    ensures
        !text::before(b, a),
    decreases a.len(),
{
    if a.len() > 0 && a[0] == b[0] {
        lemma_before_asymmetric(a.drop_first(), b.drop_first());
    }
}

/// The changed notes are listed in path order, none lost and none added.
pub proof fn law_changes_are_in_path_order(list: Seq<(Seq<char>, bool)>)
    ensures
        in_path_order(by_path(list)),
        by_path(list).to_multiset() == list.to_multiset(),
    decreases list.len(),
{
    broadcast use vstd::seq_lib::group_to_multiset_ensures;

    if list.len() > 0 {
        law_changes_are_in_path_order(list.drop_last());
        lemma_inserted(by_path(list.drop_last()), list.last());
        assert(list =~= list.drop_last().push(list.last()));
    } else {
        assert(by_path(list) =~= list);
    }
}

/// A heading is the beginning of its text: all of it, white space around it aside, up to
/// a hundred and forty characters, and those with an ellipsis where more follow.
pub proof fn law_excerpts_begin_their_text(s: Seq<char>)
    ensures
        text::trimmed(s).len() <= 140 ==> excerpt_of(s) == text::trimmed(s),
        text::trimmed(s).len() > 140 ==> {
            &&& excerpt_of(s).len() == 141
            &&& excerpt_of(s).last() == '…'
            &&& text::begins(text::trimmed(s), excerpt_of(s).drop_last())
        },
{
    let t = text::trimmed(s);
    if t.len() > 140 {
        assert(excerpt_of(s).drop_last() =~= t.take(140));
    }
}

/// A file of the log is an entry just where it reads as one and is named as one; entries
/// are taken in the order of the files.
pub proof fn law_entries_are_those_of_the_files(files: Seq<AuditFile>, f: AuditFile)
    ensures
        entries_in(files.push(f)) == (if f.entry is Some && paths::extension_of(f.name@) == Some(
            "json"@,
        ) {
            entries_in(files).push(f.entry->0)
        } else {
            entries_in(files)
        }),
        entries_in(Seq::empty()).len() == 0,
{
    assert(files.push(f).drop_last() =~= files);
}

/// An entry that is no newer than any other is listed last: behind all that are not older
/// than it, also those of its own time.
pub proof fn law_oldest_entries_are_listed_last(entries: Seq<AuditEntry>, x: AuditEntry)
    requires
        forall|i: int| 0 <= i < entries.len() ==> !(#[trigger] entries[i]).time().before(x.time()),
    ensures
        newest_first_of(entries.push(x)) == newest_first_of(entries).push(x),
{
    assert(entries.push(x).drop_last() =~= entries);
    let listed = newest_first_of(entries);
    law_log_is_newest_first(entries);
    if listed.len() > 0 {
        broadcast use vstd::seq_lib::group_to_multiset_ensures;

        let last = listed.last();
        assert(listed[listed.len() - 1] == last);
        assert(listed.to_multiset().contains(last));
        assert(entries.contains(last));
        let i = choose|i: int| 0 <= i < entries.len() && entries[i] == last;
        assert(!entries[i].time().before(x.time()));
    }
}

/// A turn changed a file just where it made it or where its bytes differ; it is listed
/// under its own path, as made just where there was none before.
pub proof fn law_changes_are_those_of_the_files(files: Seq<WalkedFile>, f: WalkedFile)
    ensures
        ({
            let before = changes_in(files);
            let after = changes_in(files.push(f));
            match f.snapshot {
                None => after == before.push((f.path@, true)),
                Some(s) => if s@ == f.current@ {
                    after == before
                } else {
                    after == before.push((f.path@, false))
                },
            }
        }),
{
    assert(files.push(f).drop_last() =~= files);
}

/// Undoing one fact keeps the order of the others.
pub proof fn law_undo_fact_keeps_the_order(ids: Seq<Seq<char>>, more: Seq<char>, id: Seq<char>)
    ensures
        ids_without(ids.push(more), id) == (if more == id {
            ids_without(ids, id)
        } else {
            ids_without(ids, id).push(more)
        }),
{
    assert(ids.push(more).drop_last() =~= ids);
}

/// The snapshot of a turn is its own: two turns never share one.
pub proof fn law_snapshots_are_apart(a: Seq<char>, b: Seq<char>)
    ensures
        snapshot_rel(a) == snapshot_rel(b) <==> a == b,
        text::ends(snapshot_rel(a), a),
{
    let head = formation::APP_DIR@ + "/snapshots/"@;
    assert(snapshot_rel(a).skip(head.len() as int) =~= a);
    assert(snapshot_rel(b).skip(head.len() as int) =~= b);
    assert(snapshot_rel(a).skip(snapshot_rel(a).len() - a.len()) =~= a);
}

/// A step takes a note back by deleting it just where the turn made it, and else by
/// restoring it.
pub proof fn law_made_notes_are_deleted(step: RevertStep, note: ChangedNote)
    requires
        reverts(step, note),
    ensures
        step is Delete <==> note.was_create,
        step matches RevertStep::Delete(p) ==> p@ == note.path@,
        step matches RevertStep::Restore(p) ==> p@ == note.path@,
{
}

/// A step deletes the entry it names and, for a turn, that turn's snapshot.
pub proof fn law_steps_prune_their_entry(step: PruneStep, e: AuditEntry)
    requires
        prunes(step, e),
    ensures
        e matches AuditEntry::ChatTurn(c) ==> step.entry_id@ == c.turn_id@
            && text::opt_text(step.snapshot_dir) == Some(c.snapshot_dir@),
        e matches AuditEntry::TaskCompletion(t) ==> step.entry_id@ == t.entry_id@
            && step.snapshot_dir is None,
{
}

/// Two folders are passed over, the program's own and an engine's, and no others.
pub proof fn law_two_folders_are_passed_over(name: Seq<char>)
    ensures
        skipped_dir(formation::APP_DIR@) && skipped_dir(".gemini"@),
        name != formation::APP_DIR@ && name != ".gemini"@ ==> !skipped_dir(name),
{
}

} // verus!
