//! The course of a turn: what is done when, and what is left when it fails.
//!
//! A turn runs between two states of the formation. The snapshot comes before the
//! engine, so that whatever the engine does can be compared and taken back; the
//! entry in the log comes after, so that only what happened is logged.
use vstd::prelude::*;
use crate::audit::{ChangedNote, ChatTurnEntry, RevertPlan};
use crate::audit;
use crate::cancel::CancelMode;
use crate::chat::TurnFate;
use crate::chat;
use crate::conversation::{TurnOutcome, TurnStop};
use crate::datetime::Timestamp;
use crate::error::AppError;
use crate::text;

verus! {

broadcast use vstd::string::group_string_axioms;

/// How far a turn is.
#[derive(Debug, PartialEq, Eq)]
pub enum Stage {
    /// The snapshot is being taken.
    Starting,
    /// The engine runs.
    Running,
    /// The engine failed, and the snapshot is being removed.
    Dropping { error: AppError },
    /// The formation is being compared with the snapshot.
    Comparing { reply: String, fate: TurnFate },
    /// The facts that the turn recorded are being looked up.
    Collecting { reply: String, fate: TurnFate, changed: Vec<ChangedNote> },
    /// What the turn did is being taken back.
    Reverting,
    /// It is taken back, and the snapshot is being removed.
    Clearing,
    /// The entry is being written.
    Logging { reply: String, changed: Vec<ChangedNote>, facts: Vec<String> },
    /// Old entries are being removed.
    Pruning { reply: String, changed: Vec<ChangedNote>, facts: Vec<String> },
    /// The reply is being saved.
    Replying { reply: String, changed: Vec<ChangedNote>, facts: Vec<String> },
    Over,
}

/// A turn on its way.
#[derive(Debug, PartialEq, Eq)]
pub struct TurnFlow {
    pub turn_id: String,
    /// What the turn is about: the message, or the name of what set it off.
    pub what: String,
    pub stage: Stage,
}

/// What came of the last action.
#[derive(Debug, PartialEq, Eq)]
pub enum FlowEvent {
    SnapshotTaken(Result<(), AppError>),
    /// What the engine answered, and how the user broke it off, if so.
    Answered(Result<TurnOutcome, AppError>, Option<CancelMode>),
    SnapshotDropped,
    Compared(Result<Vec<ChangedNote>, AppError>),
    /// The facts, and what time it is.
    FactsFound(Result<Vec<String>, AppError>, Timestamp),
    Reverted(Result<(), AppError>),
    EntryWritten(Result<(), AppError>),
    /// Whether it worked does not matter to the turn.
    Pruned,
    ReplySaved(Result<(), AppError>),
}

/// What is to be done next.
#[derive(Debug, PartialEq, Eq)]
pub enum FlowAction {
    TakeSnapshot,
    Run,
    DropSnapshot,
    Compare,
    FindFacts,
    Revert(RevertPlan),
    WriteEntry(ChatTurnEntry),
    /// All but that many of the newest entries go.
    Prune(usize),
    SaveReply(String),
    /// The turn is done.
    Finish { reply: String, changed: Vec<ChangedNote>, facts: Vec<String> },
    /// The turn is over and has left nothing.
    Vanish,
    Fail(AppError),
}

// ---------------------------------------------------------------------------
// The model
// ---------------------------------------------------------------------------

/// What a [`Stage`] says.
pub enum StageView {
    Starting,
    Running,
    Dropping { error: Seq<char> },
    Comparing { reply: Seq<char>, fate: TurnFate },
    Collecting { reply: Seq<char>, fate: TurnFate, changed: Seq<ChangedNote> },
    Reverting,
    Clearing,
    Logging { reply: Seq<char>, changed: Seq<ChangedNote>, facts: Seq<Seq<char>> },
    Pruning { reply: Seq<char>, changed: Seq<ChangedNote>, facts: Seq<Seq<char>> },
    Replying { reply: Seq<char>, changed: Seq<ChangedNote>, facts: Seq<Seq<char>> },
    Over,
}

impl View for Stage {
    type V = StageView;

    open spec fn view(&self) -> StageView {
        match *self {
            Stage::Starting => StageView::Starting,
            Stage::Running => StageView::Running,
            Stage::Dropping { error } => StageView::Dropping { error: error.text() },
            Stage::Comparing { reply, fate } => StageView::Comparing { reply: reply@, fate },
            Stage::Collecting { reply, fate, changed } => StageView::Collecting {
                reply: reply@,
                fate,
                changed: changed@,
            },
            Stage::Reverting => StageView::Reverting,
            Stage::Clearing => StageView::Clearing,
            Stage::Logging { reply, changed, facts } => StageView::Logging {
                reply: reply@,
                changed: changed@,
                facts: text::texts(facts@),
            },
            Stage::Pruning { reply, changed, facts } => StageView::Pruning {
                reply: reply@,
                changed: changed@,
                facts: text::texts(facts@),
            },
            Stage::Replying { reply, changed, facts } => StageView::Replying {
                reply: reply@,
                changed: changed@,
                facts: text::texts(facts@),
            },
            Stage::Over => StageView::Over,
        }
    }
}

/// What a [`TurnFlow`] says.
pub struct FlowView {
    pub turn_id: Seq<char>,
    pub what: Seq<char>,
    pub stage: StageView,
}

impl View for TurnFlow {
    type V = FlowView;

    open spec fn view(&self) -> FlowView {
        FlowView { turn_id: self.turn_id@, what: self.what@, stage: self.stage@ }
    }
}

/// What the engine answered, and what becomes of it.
pub enum Answer {
    Failed { error: Seq<char> },
    Replied { reply: Seq<char>, fate: TurnFate },
}

/// What a [`FlowEvent`] says; an error is its message.
pub enum EventView {
    SnapshotTaken(Option<Seq<char>>),
    Answered(Answer),
    SnapshotDropped,
    Compared(Result<Seq<ChangedNote>, Seq<char>>),
    FactsFound(Result<Seq<Seq<char>>, Seq<char>>, Timestamp),
    Reverted(Option<Seq<char>>),
    EntryWritten(Option<Seq<char>>),
    Pruned,
    ReplySaved(Option<Seq<char>>),
}

/// The message of an error, if there is one.
pub open spec fn failure(r: Result<(), AppError>) -> Option<Seq<char>> {
    match r {
        Ok(_) => None,
        Err(e) => Some(e.text()),
    }
}

/// What becomes of a turn that stopped so.
pub open spec fn fate_of(stop: TurnStop, mode: Option<CancelMode>) -> TurnFate {
    if stop == TurnStop::Interrupted && mode == Some(CancelMode::Redirect) {
        TurnFate::Revert
    } else {
        TurnFate::Keep
    }
}

impl View for FlowEvent {
    type V = EventView;

    open spec fn view(&self) -> EventView {
        match *self {
            FlowEvent::SnapshotTaken(r) => EventView::SnapshotTaken(failure(r)),
            FlowEvent::Answered(r, mode) => EventView::Answered(
                match r {
                    Ok(o) => Answer::Replied { reply: o.reply@, fate: fate_of(o.stop, mode) },
                    Err(e) => Answer::Failed { error: e.text() },
                },
            ),
            FlowEvent::SnapshotDropped => EventView::SnapshotDropped,
            FlowEvent::Compared(r) => EventView::Compared(
                match r {
                    Ok(v) => Ok(v@),
                    Err(e) => Err(e.text()),
                },
            ),
            FlowEvent::FactsFound(r, now) => EventView::FactsFound(
                match r {
                    Ok(v) => Ok(text::texts(v@)),
                    Err(e) => Err(e.text()),
                },
                now,
            ),
            FlowEvent::Reverted(r) => EventView::Reverted(failure(r)),
            FlowEvent::EntryWritten(r) => EventView::EntryWritten(failure(r)),
            FlowEvent::Pruned => EventView::Pruned,
            FlowEvent::ReplySaved(r) => EventView::ReplySaved(failure(r)),
        }
    }
}

/// What an entry says.
pub struct EntryView {
    pub turn_id: Seq<char>,
    pub created: Timestamp,
    pub user_excerpt: Seq<char>,
    pub reply_excerpt: Seq<char>,
    pub snapshot_dir: Seq<char>,
    pub changed: Seq<ChangedNote>,
    pub facts: Seq<Seq<char>>,
}

/// What a [`FlowAction`] asks for.
pub enum ActionView {
    TakeSnapshot,
    Run,
    DropSnapshot,
    Compare,
    FindFacts,
    Revert { changed: Seq<ChangedNote>, facts: Seq<Seq<char>> },
    WriteEntry(EntryView),
    Prune(int),
    SaveReply(Seq<char>),
    Finish { reply: Seq<char>, changed: Seq<ChangedNote>, facts: Seq<Seq<char>> },
    Vanish,
    Fail(Seq<char>),
}

/// The entry of a turn.
pub open spec fn entry_view(e: ChatTurnEntry) -> EntryView {
    EntryView {
        turn_id: e.turn_id@,
        created: e.created,
        user_excerpt: e.user_excerpt@,
        reply_excerpt: e.reply_excerpt@,
        snapshot_dir: e.snapshot_dir@,
        changed: e.changed_notes@,
        facts: text::texts(e.recorded_fact_ids@),
    }
}

/// The plan takes back just these notes and facts.
pub open spec fn plan_reverts(
    plan: RevertPlan,
    changed: Seq<ChangedNote>,
    facts: Seq<Seq<char>>,
) -> bool {
    &&& plan.notes@.len() == changed.len()
    &&& forall|i: int|
        0 <= i < changed.len() ==> audit::reverts(#[trigger] plan.notes@[i], changed[i])
    &&& text::texts(plan.fact_ids@) == facts
}

/// The action asks for that.
pub open spec fn asks(action: FlowAction, v: ActionView) -> bool {
    match action {
        FlowAction::TakeSnapshot => v is TakeSnapshot,
        FlowAction::Run => v is Run,
        FlowAction::DropSnapshot => v is DropSnapshot,
        FlowAction::Compare => v is Compare,
        FlowAction::FindFacts => v is FindFacts,
        FlowAction::Revert(plan) => v matches ActionView::Revert { changed, facts } && plan_reverts(
            plan,
            changed,
            facts,
        ),
        FlowAction::WriteEntry(e) => v == ActionView::WriteEntry(entry_view(e)),
        FlowAction::Prune(n) => v == ActionView::Prune(n as int),
        FlowAction::SaveReply(s) => v == ActionView::SaveReply(s@),
        FlowAction::Finish { reply, changed, facts } => v == (ActionView::Finish {
            reply: reply@,
            changed: changed@,
            facts: text::texts(facts@),
        }),
        FlowAction::Vanish => v is Vanish,
        FlowAction::Fail(e) => v == ActionView::Fail(e.text()),
    }
}

// ---------------------------------------------------------------------------
// The course
// ---------------------------------------------------------------------------

/// The event is one that the stage waits for.
pub open spec fn fits(stage: StageView, event: EventView) -> bool {
    match stage {
        StageView::Starting => event is SnapshotTaken,
        StageView::Running => event is Answered,
        StageView::Dropping { .. } => event is SnapshotDropped,
        StageView::Comparing { .. } => event is Compared,
        StageView::Collecting { .. } => event is FactsFound,
        StageView::Reverting => event is Reverted,
        StageView::Clearing => event is SnapshotDropped,
        StageView::Logging { .. } => event is EntryWritten,
        StageView::Pruning { .. } => event is Pruned,
        StageView::Replying { .. } => event is ReplySaved,
        StageView::Over => false,
    }
}

/// Where a stage leads on an event that it waits for, and what is done then.
pub open spec fn course(f: FlowView, event: EventView) -> (StageView, ActionView) {
    match (f.stage, event) {
        (StageView::Starting, EventView::SnapshotTaken(None)) => (
            StageView::Running,
            ActionView::Run,
        ),
        (StageView::Running, EventView::Answered(Answer::Failed { error })) => (
            StageView::Dropping { error },
            ActionView::DropSnapshot,
        ),
        (StageView::Running, EventView::Answered(Answer::Replied { reply, fate })) => (
            StageView::Comparing { reply, fate },
            ActionView::Compare,
        ),
        (StageView::Dropping { error }, EventView::SnapshotDropped) => (
            StageView::Over,
            ActionView::Fail(error),
        ),
        (StageView::Comparing { reply, fate }, EventView::Compared(Ok(changed))) => (
            StageView::Collecting { reply, fate, changed },
            ActionView::FindFacts,
        ),
        (
            StageView::Collecting { reply, fate, changed },
            EventView::FactsFound(Ok(facts), now),
        ) => if fate == TurnFate::Revert {
            (StageView::Reverting, ActionView::Revert { changed, facts })
        } else {
            (
                StageView::Logging { reply, changed, facts },
                ActionView::WriteEntry(
                    EntryView {
                        turn_id: f.turn_id,
                        created: now,
                        user_excerpt: audit::excerpt_of(f.what),
                        reply_excerpt: audit::excerpt_of(reply),
                        snapshot_dir: audit::snapshot_rel(f.turn_id),
                        changed,
                        facts,
                    },
                ),
            )
        },
        (StageView::Reverting, EventView::Reverted(None)) => (
            StageView::Clearing,
            ActionView::DropSnapshot,
        ),
        (StageView::Clearing, EventView::SnapshotDropped) => (StageView::Over, ActionView::Vanish),
        (StageView::Logging { reply, changed, facts }, EventView::EntryWritten(None)) => (
            StageView::Pruning { reply, changed, facts },
            ActionView::Prune(audit::AUDIT_RETENTION as int),
        ),
        (StageView::Pruning { reply, changed, facts }, EventView::Pruned) => (
            StageView::Replying { reply, changed, facts },
            ActionView::SaveReply(reply),
        ),
        (StageView::Replying { reply, changed, facts }, EventView::ReplySaved(None)) => (
            StageView::Over,
            ActionView::Finish { reply, changed, facts },
        ),
        // Whatever else fails ends the turn.
        (_, EventView::SnapshotTaken(Some(m))) => (StageView::Over, ActionView::Fail(m)),
        (_, EventView::Compared(Err(m))) => (StageView::Over, ActionView::Fail(m)),
        (_, EventView::FactsFound(Err(m), _)) => (StageView::Over, ActionView::Fail(m)),
        (_, EventView::Reverted(Some(m))) => (StageView::Over, ActionView::Fail(m)),
        (_, EventView::EntryWritten(Some(m))) => (StageView::Over, ActionView::Fail(m)),
        (_, EventView::ReplySaved(Some(m))) => (StageView::Over, ActionView::Fail(m)),
        _ => (f.stage, ActionView::Vanish),
    }
}

fn over(turn_id: String, what: String, action: FlowAction) -> (r: (TurnFlow, FlowAction))
    ensures
        r.0@ == (FlowView { turn_id: turn_id@, what: what@, stage: StageView::Over }),
        r.1 == action,
{
    (TurnFlow { turn_id, what, stage: Stage::Over }, action)
}

impl TurnFlow {
    /// A turn that begins: first its snapshot is taken.
    pub fn begin(turn_id: String, what: String) -> (r: (TurnFlow, FlowAction))
        ensures
            r.0@ == (FlowView { turn_id: turn_id@, what: what@, stage: StageView::Starting }),
            r.1 == FlowAction::TakeSnapshot,
    {
        (TurnFlow { turn_id, what, stage: Stage::Starting }, FlowAction::TakeSnapshot)
    }

    /// The turn goes on with what came of the last action.
    pub fn next(self, event: FlowEvent) -> (r: (TurnFlow, FlowAction))
        requires
            fits(self@.stage, event@),
        ensures
            r.0@ == (FlowView { stage: course(self@, event@).0, ..self@ }),
            asks(r.1, course(self@, event@).1),
    {
        let TurnFlow { turn_id, what, stage } = self;
        match (stage, event) {
            (Stage::Starting, FlowEvent::SnapshotTaken(r)) => match r {
                Ok(_) => (TurnFlow { turn_id, what, stage: Stage::Running }, FlowAction::Run),
                Err(e) => over(turn_id, what, FlowAction::Fail(e)),
            },
            (Stage::Running, FlowEvent::Answered(r, mode)) => match r {
                Ok(o) => {
                    let fate = chat::turn_fate(o.stop, mode);
                    (
                        TurnFlow {
                            turn_id,
                            what,
                            stage: Stage::Comparing { reply: o.reply, fate },
                        },
                        FlowAction::Compare,
                    )
                },
                Err(error) => (
                    TurnFlow { turn_id, what, stage: Stage::Dropping { error } },
                    FlowAction::DropSnapshot,
                ),
            },
            (Stage::Dropping { error }, FlowEvent::SnapshotDropped) => over(
                turn_id,
                what,
                FlowAction::Fail(error),
            ),
            (Stage::Comparing { reply, fate }, FlowEvent::Compared(r)) => match r {
                Ok(changed) => (
                    TurnFlow { turn_id, what, stage: Stage::Collecting { reply, fate, changed } },
                    FlowAction::FindFacts,
                ),
                Err(e) => over(turn_id, what, FlowAction::Fail(e)),
            },
            (Stage::Collecting { reply, fate, changed }, FlowEvent::FactsFound(r, now)) => match r {
                Ok(facts) => match fate {
                    TurnFate::Revert => {
                        let plan = audit::revert_to_snapshot(&changed, &facts);
                        (
                            TurnFlow { turn_id, what, stage: Stage::Reverting },
                            FlowAction::Revert(plan),
                        )
                    },
                    TurnFate::Keep => {
                        let entry = audit::chat_turn_entry(
                            turn_id.as_str(),
                            now,
                            what.as_str(),
                            reply.as_str(),
                            copy_changed(&changed),
                            text::copy_list(&facts),
                        );
                        (
                            TurnFlow {
                                turn_id,
                                what,
                                stage: Stage::Logging { reply, changed, facts },
                            },
                            FlowAction::WriteEntry(entry),
                        )
                    },
                },
                Err(e) => over(turn_id, what, FlowAction::Fail(e)),
            },
            (Stage::Reverting, FlowEvent::Reverted(r)) => match r {
                Ok(_) => (
                    TurnFlow { turn_id, what, stage: Stage::Clearing },
                    FlowAction::DropSnapshot,
                ),
                Err(e) => over(turn_id, what, FlowAction::Fail(e)),
            },
            (Stage::Clearing, FlowEvent::SnapshotDropped) => over(
                turn_id,
                what,
                FlowAction::Vanish,
            ),
            (Stage::Logging { reply, changed, facts }, FlowEvent::EntryWritten(r)) => match r {
                Ok(_) => (
                    TurnFlow { turn_id, what, stage: Stage::Pruning { reply, changed, facts } },
                    FlowAction::Prune(audit::AUDIT_RETENTION),
                ),
                Err(e) => over(turn_id, what, FlowAction::Fail(e)),
            },
            (Stage::Pruning { reply, changed, facts }, FlowEvent::Pruned) => {
                let said = reply.clone();
                (
                    TurnFlow { turn_id, what, stage: Stage::Replying { reply, changed, facts } },
                    FlowAction::SaveReply(said),
                )
            },
            (Stage::Replying { reply, changed, facts }, FlowEvent::ReplySaved(r)) => match r {
                Ok(_) => over(turn_id, what, FlowAction::Finish { reply, changed, facts }),
                Err(e) => over(turn_id, what, FlowAction::Fail(e)),
            },
            (stage, _) => (TurnFlow { turn_id, what, stage }, FlowAction::Vanish),
        }
    }
}

fn copy_changed(v: &Vec<ChangedNote>) -> (r: Vec<ChangedNote>)
    ensures
        r@ == v@,
{
    let mut out: Vec<ChangedNote> = Vec::new();
    let mut i: usize = 0;
    while i < v.len()
        invariant
            i <= v.len(),
            out@ == v@.take(i as int),
        decreases v.len() - i,
    {
        assert(v@.take(i + 1) =~= v@.take(i as int).push(v@[i as int]));
        out.push(v[i].clone());
        i += 1;
    }
    assert(v@.take(i as int) =~= v@);
    out
}

// ---------------------------------------------------------------------------
// Laws
// ---------------------------------------------------------------------------

/// The turn after these events.
pub open spec fn after(f: FlowView, events: Seq<EventView>) -> FlowView
    decreases events.len(),
{
    if events.len() == 0 {
        f
    } else {
        let before = after(f, events.drop_last());
        FlowView { stage: course(before, events.last()).0, ..before }
    }
}

/// What was done on each of these events.
pub open spec fn done(f: FlowView, events: Seq<EventView>) -> Seq<ActionView>
    decreases events.len(),
{
    if events.len() == 0 {
        Seq::empty()
    } else {
        done(f, events.drop_last()).push(course(after(f, events.drop_last()), events.last()).1)
    }
}

/// Each event is one that the turn waited for.
pub open spec fn in_step(f: FlowView, events: Seq<EventView>) -> bool
    decreases events.len(),
{
    events.len() == 0 || (in_step(f, events.drop_last()) && fits(
        after(f, events.drop_last()).stage,
        events.last(),
    ))
}

/// What the engine answered, if it has.
pub open spec fn answer_in(events: Seq<EventView>) -> Option<Answer>
    decreases events.len(),
{
    if events.len() == 0 {
        None
    } else {
        match events.last() {
            EventView::Answered(a) => Some(a),
            _ => answer_in(events.drop_last()),
        }
    }
}

/// The action leaves a trace of the turn: an entry, or a saved reply. It is the
/// one that the answer calls for.
pub open spec fn trace_is_due(turn_id: Seq<char>, action: ActionView, answer: Option<Answer>) -> bool {
    match action {
        ActionView::WriteEntry(e) => {
            &&& answer matches Some(Answer::Replied { reply, fate: TurnFate::Keep })
            &&& e.turn_id == turn_id
            &&& e.snapshot_dir == audit::snapshot_rel(turn_id)
            &&& e.reply_excerpt == audit::excerpt_of(reply)
        },
        ActionView::SaveReply(s) => answer == Some(
            Answer::Replied { reply: s, fate: TurnFate::Keep },
        ),
        ActionView::Finish { reply, .. } => answer == Some(
            Answer::Replied { reply, fate: TurnFate::Keep },
        ),
        ActionView::Revert { .. } => answer matches Some(
            Answer::Replied { fate: TurnFate::Revert, .. },
        ),
        _ => true,
    }
}

/// The stage holds what the engine answered.
spec fn stage_knows(stage: StageView, answer: Option<Answer>) -> bool {
    match stage {
        StageView::Starting => answer is None,
        StageView::Running => answer is None,
        StageView::Dropping { error } => answer == Some(Answer::Failed { error }),
        StageView::Comparing { reply, fate } => answer == Some(Answer::Replied { reply, fate }),
        StageView::Collecting { reply, fate, .. } => answer == Some(
            Answer::Replied { reply, fate },
        ),
        StageView::Reverting => answer matches Some(
            Answer::Replied { fate: TurnFate::Revert, .. },
        ),
        StageView::Clearing => answer matches Some(
            Answer::Replied { fate: TurnFate::Revert, .. },
        ),
        StageView::Logging { reply, .. } => answer == Some(
            Answer::Replied { reply, fate: TurnFate::Keep },
        ),
        StageView::Pruning { reply, .. } => answer == Some(
            Answer::Replied { reply, fate: TurnFate::Keep },
        ),
        StageView::Replying { reply, .. } => answer == Some(
            Answer::Replied { reply, fate: TurnFate::Keep },
        ),
        StageView::Over => true,
    }
}

proof fn lemma_traces(f: FlowView, events: Seq<EventView>)
    requires
        f.stage is Starting,
        in_step(f, events),
    ensures
        after(f, events).turn_id == f.turn_id,
        stage_knows(after(f, events).stage, answer_in(events)),
        done(f, events).len() == events.len(),
        forall|k: int|
            0 <= k < events.len() ==> trace_is_due(
                f.turn_id,
                #[trigger] done(f, events)[k],
                answer_in(events),
            ),
    decreases events.len(),
{
    if events.len() > 0 {
        let front = events.drop_last();
        lemma_traces(f, front);
        let before = after(f, front);
        assert(fits(before.stage, events.last()));
        assert forall|k: int| 0 <= k < events.len() implies trace_is_due(
            f.turn_id,
            #[trigger] done(f, events)[k],
            answer_in(events),
        ) by {
            if k < front.len() {
                assert(done(f, events)[k] == done(f, front)[k]);
                assert(trace_is_due(f.turn_id, done(f, front)[k], answer_in(front)));
                if events.last() is Answered {
                    assert(before.stage is Running);
                    assert(answer_in(front) is None);
                }
            }
        }
    }
}

/// Only a turn whose engine replied, and that the user did not redirect, leaves an
/// entry and a reply, and they are of that reply; only a redirected one is taken
/// back.
pub proof fn law_only_kept_turns_leave_a_trace(f: FlowView, events: Seq<EventView>, k: int)
    requires
        f.stage is Starting,
        in_step(f, events),
        0 <= k < events.len(),
    ensures
        trace_is_due(f.turn_id, done(f, events)[k], answer_in(events)),
{
    lemma_traces(f, events);
}

/// A turn whose engine failed removes its snapshot at once and leaves no trace.
pub proof fn law_failed_turns_leave_nothing(f: FlowView, events: Seq<EventView>, k: int)
    requires
        f.stage is Starting,
        in_step(f, events),
        answer_in(events) matches Some(Answer::Failed { .. }),
        0 <= k < events.len(),
    ensures
        events[k] is Answered ==> done(f, events)[k] is DropSnapshot,
        !(done(f, events)[k] is WriteEntry),
        !(done(f, events)[k] is SaveReply),
        !(done(f, events)[k] is Finish),
    decreases events.len(),
{
    lemma_traces(f, events);
    assert(trace_is_due(f.turn_id, done(f, events)[k], answer_in(events)));
    if events[k] is Answered {
        lemma_answer_is_seen(f, events, k);
    }
}

/// A turn is answered once: what was answered at some event is what was answered.
proof fn lemma_answer_is_seen(f: FlowView, events: Seq<EventView>, k: int)
    requires
        f.stage is Starting,
        in_step(f, events),
        0 <= k < events.len(),
        events[k] is Answered,
    ensures
        answer_in(events) == Some(events[k]->Answered_0),
        done(f, events)[k] == course(after(f, events.take(k)), events[k]).1,
        after(f, events.take(k)).stage is Running,
    decreases events.len(),
{
    let front = events.drop_last();
    if k == events.len() - 1 {
        assert(events.take(k) =~= front);
        lemma_traces(f, front);
    } else {
        lemma_answer_is_seen(f, front, k);
        assert(front.take(k) =~= events.take(k));
        assert(front[k] == events[k]);
        lemma_traces(f, front);
        assert(done(f, events)[k] == done(f, front)[k]);
        if events.last() is Answered {
            assert(after(f, front).stage is Running);
            assert(false);
        }
    }
}

/// The engine runs only once the snapshot is there.
pub proof fn law_snapshot_comes_first(f: FlowView, events: Seq<EventView>, k: int)
    requires
        f.stage is Starting,
        in_step(f, events),
        0 <= k < events.len(),
        done(f, events)[k] is Run,
    ensures
        k == 0,
        events[0] == EventView::SnapshotTaken(None),
    decreases events.len(),
{
    lemma_traces(f, events);
    let front = events.drop_last();
    lemma_traces(f, front);
    if k < front.len() {
        assert(done(f, events)[k] == done(f, front)[k]);
        law_snapshot_comes_first(f, front, k);
        assert(front[0] == events[0]);
    } else {
        assert(after(f, front).stage is Starting);
        lemma_starting_is_the_start(f, front);
    }
}

proof fn lemma_starting_is_the_start(f: FlowView, events: Seq<EventView>)
    requires
        f.stage is Starting,
        in_step(f, events),
        after(f, events).stage is Starting,
    ensures
        events.len() == 0,
{
    if events.len() > 0 {
        let before = after(f, events.drop_last());
        assert(fits(before.stage, events.last()));
        assert(after(f, events).stage == course(before, events.last()).0);
    }
}

/// A turn that is kept runs its whole course: the engine, the comparison with the
/// snapshot, the facts, the entry with all of this, the old entries, the reply; and it
/// ends with that reply, these notes and these facts.
pub proof fn law_kept_turns_run_their_course(
    f: FlowView,
    reply: Seq<char>,
    changed: Seq<ChangedNote>,
    facts: Seq<Seq<char>>,
    now: Timestamp,
)
    requires
        f.stage is Starting,
    ensures
        ({
            let events = seq![
                EventView::SnapshotTaken(None),
                EventView::Answered(Answer::Replied { reply, fate: TurnFate::Keep }),
                EventView::Compared(Ok(changed)),
                EventView::FactsFound(Ok(facts), now),
                EventView::EntryWritten(None),
                EventView::Pruned,
                EventView::ReplySaved(None),
            ];
            let entry = EntryView {
                turn_id: f.turn_id,
                created: now,
                user_excerpt: audit::excerpt_of(f.what),
                reply_excerpt: audit::excerpt_of(reply),
                snapshot_dir: audit::snapshot_rel(f.turn_id),
                changed,
                facts,
            };
            &&& in_step(f, events)
            &&& after(f, events).stage is Over
            &&& done(f, events) == seq![
                ActionView::Run,
                ActionView::Compare,
                ActionView::FindFacts,
                ActionView::WriteEntry(entry),
                ActionView::Prune(20),
                ActionView::SaveReply(reply),
                ActionView::Finish { reply, changed, facts },
            ]
        }),
{
    let e1 = seq![EventView::SnapshotTaken(None)];
    let e2 = e1.push(EventView::Answered(Answer::Replied { reply, fate: TurnFate::Keep }));
    let e3 = e2.push(EventView::Compared(Ok(changed)));
    let e4 = e3.push(EventView::FactsFound(Ok(facts), now));
    let e5 = e4.push(EventView::EntryWritten(None));
    let e6 = e5.push(EventView::Pruned);
    let e7 = e6.push(EventView::ReplySaved(None));
    let events = seq![
        EventView::SnapshotTaken(None),
        EventView::Answered(Answer::Replied { reply, fate: TurnFate::Keep }),
        EventView::Compared(Ok(changed)),
        EventView::FactsFound(Ok(facts), now),
        EventView::EntryWritten(None),
        EventView::Pruned,
        EventView::ReplySaved(None),
    ];
    assert(events =~= e7);
    lemma_step(f, Seq::empty(), EventView::SnapshotTaken(None));
    assert(Seq::<EventView>::empty().push(EventView::SnapshotTaken(None)) =~= e1);
    lemma_step(f, e1, EventView::Answered(Answer::Replied { reply, fate: TurnFate::Keep }));
    lemma_step(f, e2, EventView::Compared(Ok(changed)));
    lemma_step(f, e3, EventView::FactsFound(Ok(facts), now));
    lemma_step(f, e4, EventView::EntryWritten(None));
    lemma_step(f, e5, EventView::Pruned);
    lemma_step(f, e6, EventView::ReplySaved(None));
    let entry = EntryView {
        turn_id: f.turn_id,
        created: now,
        user_excerpt: audit::excerpt_of(f.what),
        reply_excerpt: audit::excerpt_of(reply),
        snapshot_dir: audit::snapshot_rel(f.turn_id),
        changed,
        facts,
    };
    assert(done(f, events) =~= seq![
        ActionView::Run,
        ActionView::Compare,
        ActionView::FindFacts,
        ActionView::WriteEntry(entry),
        ActionView::Prune(20),
        ActionView::SaveReply(reply),
        ActionView::Finish { reply, changed, facts },
    ]);
}

/// One event more.
proof fn lemma_step(f: FlowView, events: Seq<EventView>, e: EventView)
    ensures
        after(f, events.push(e)) == (FlowView {
            stage: course(after(f, events), e).0,
            ..after(f, events)
        }),
        done(f, events.push(e)) == done(f, events).push(course(after(f, events), e).1),
        in_step(f, events.push(e)) == (in_step(f, events) && fits(after(f, events).stage, e)),
{
    assert(events.push(e).drop_last() =~= events);
}

/// A turn that the user redirected is taken back, all its notes and all its facts, then
/// its snapshot goes, and nothing is left of it.
pub proof fn law_redirected_turns_are_taken_back(
    f: FlowView,
    reply: Seq<char>,
    changed: Seq<ChangedNote>,
    facts: Seq<Seq<char>>,
    now: Timestamp,
)
    requires
        f.stage is Starting,
    ensures
        ({
            let events = seq![
                EventView::SnapshotTaken(None),
                EventView::Answered(Answer::Replied { reply, fate: TurnFate::Revert }),
                EventView::Compared(Ok(changed)),
                EventView::FactsFound(Ok(facts), now),
                EventView::Reverted(None),
                EventView::SnapshotDropped,
            ];
            &&& in_step(f, events)
            &&& after(f, events).stage is Over
            &&& done(f, events) == seq![
                ActionView::Run,
                ActionView::Compare,
                ActionView::FindFacts,
                ActionView::Revert { changed, facts },
                ActionView::DropSnapshot,
                ActionView::Vanish,
            ]
        }),
{
    let e1 = seq![EventView::SnapshotTaken(None)];
    let e2 = e1.push(EventView::Answered(Answer::Replied { reply, fate: TurnFate::Revert }));
    let e3 = e2.push(EventView::Compared(Ok(changed)));
    let e4 = e3.push(EventView::FactsFound(Ok(facts), now));
    let e5 = e4.push(EventView::Reverted(None));
    let e6 = e5.push(EventView::SnapshotDropped);
    let events = seq![
        EventView::SnapshotTaken(None),
        EventView::Answered(Answer::Replied { reply, fate: TurnFate::Revert }),
        EventView::Compared(Ok(changed)),
        EventView::FactsFound(Ok(facts), now),
        EventView::Reverted(None),
        EventView::SnapshotDropped,
    ];
    assert(events =~= e6);
    lemma_step(f, Seq::empty(), EventView::SnapshotTaken(None));
    assert(Seq::<EventView>::empty().push(EventView::SnapshotTaken(None)) =~= e1);
    lemma_step(f, e1, EventView::Answered(Answer::Replied { reply, fate: TurnFate::Revert }));
    lemma_step(f, e2, EventView::Compared(Ok(changed)));
    lemma_step(f, e3, EventView::FactsFound(Ok(facts), now));
    lemma_step(f, e4, EventView::Reverted(None));
    lemma_step(f, e5, EventView::SnapshotDropped);
    assert(done(f, events) =~= seq![
        ActionView::Run,
        ActionView::Compare,
        ActionView::FindFacts,
        ActionView::Revert { changed, facts },
        ActionView::DropSnapshot,
        ActionView::Vanish,
    ]);
}

/// A turn whose engine failed fails with what the engine said, once its snapshot is gone.
pub proof fn law_failed_turns_say_why(f: FlowView, error: Seq<char>)
    requires
        f.stage is Starting,
    ensures
        ({
            let events = seq![
                EventView::SnapshotTaken(None),
                EventView::Answered(Answer::Failed { error }),
                EventView::SnapshotDropped,
            ];
            &&& in_step(f, events)
            &&& after(f, events).stage is Over
            &&& done(f, events) == seq![
                ActionView::Run,
                ActionView::DropSnapshot,
                ActionView::Fail(error),
            ]
        }),
{
    let e1 = seq![EventView::SnapshotTaken(None)];
    let e2 = e1.push(EventView::Answered(Answer::Failed { error }));
    let e3 = e2.push(EventView::SnapshotDropped);
    let events = seq![
        EventView::SnapshotTaken(None),
        EventView::Answered(Answer::Failed { error }),
        EventView::SnapshotDropped,
    ];
    assert(events =~= e3);
    lemma_step(f, Seq::empty(), EventView::SnapshotTaken(None));
    assert(Seq::<EventView>::empty().push(EventView::SnapshotTaken(None)) =~= e1);
    lemma_step(f, e1, EventView::Answered(Answer::Failed { error }));
    lemma_step(f, e2, EventView::SnapshotDropped);
    assert(done(f, events) =~= seq![
        ActionView::Run,
        ActionView::DropSnapshot,
        ActionView::Fail(error),
    ]);
}

/// Whatever step of a turn fails ends it with what went wrong; nothing more is done.
pub proof fn law_failed_steps_end_the_turn(f: FlowView, e: EventView, m: Seq<char>)
    requires
        fits(f.stage, e),
        e == EventView::SnapshotTaken(Some(m)) || e == EventView::Compared(Err(m)) || e
            == EventView::Reverted(Some(m)) || e == EventView::EntryWritten(Some(m)) || e
            == EventView::ReplySaved(Some(m)) || (e matches EventView::FactsFound(Err(why), _) && why
            == m),
    ensures
        course(f, e).0 is Over,
        course(f, e).1 == ActionView::Fail(m),
{
}

/// A turn is taken back just where the user broke it off to change direction.
pub proof fn law_only_redirected_turns_are_taken_back(stop: TurnStop, mode: Option<CancelMode>)
    ensures
        fate_of(stop, mode) == TurnFate::Revert <==> stop == TurnStop::Interrupted && mode == Some(
            CancelMode::Redirect,
        ),
{
}

/// An action asks for one thing, with what it carries and nothing else.
pub proof fn law_actions_ask_for_one_thing(a: FlowAction, v: ActionView, w: ActionView)
    ensures
        asks(a, v) && asks(a, w) && !(a is Revert) ==> v == w,
        a matches FlowAction::SaveReply(s) ==> (asks(a, v) <==> v == ActionView::SaveReply(s@)),
        a matches FlowAction::Fail(e) ==> (asks(a, v) <==> v == ActionView::Fail(e.text())),
        a matches FlowAction::Prune(n) ==> (asks(a, v) <==> v == ActionView::Prune(n as int)),
        a is Run ==> (asks(a, v) <==> v is Run),
        a is Vanish ==> (asks(a, v) <==> v is Vanish),
        a is TakeSnapshot ==> (asks(a, v) <==> v is TakeSnapshot),
        a is DropSnapshot ==> (asks(a, v) <==> v is DropSnapshot),
        a is Compare ==> (asks(a, v) <==> v is Compare),
        a is FindFacts ==> (asks(a, v) <==> v is FindFacts),
        a matches FlowAction::Finish { reply, changed, facts } ==> (asks(a, v) ==> {
            &&& v matches ActionView::Finish { reply: r, changed: c, facts: f }
            &&& r == reply@
            &&& c == changed@
            &&& f == text::texts(facts@)
        }),
{
}

/// A plan takes back every note that changed, each by itself, and every fact: one that the
/// turn made is deleted, another put back.
pub proof fn law_plans_take_back_every_note(
    plan: RevertPlan,
    changed: Seq<ChangedNote>,
    facts: Seq<Seq<char>>,
    i: int,
)
    requires
        plan_reverts(plan, changed, facts),
        0 <= i < changed.len(),
    ensures
        i < plan.notes@.len(),
        changed[i].was_create ==> (plan.notes@[i] matches audit::RevertStep::Delete(p) && p@
            == changed[i].path@),
        !changed[i].was_create ==> (plan.notes@[i] matches audit::RevertStep::Restore(p) && p@
            == changed[i].path@),
        text::texts(plan.fact_ids@) == facts,
{
    assert(audit::reverts(plan.notes@[i], changed[i]));
}

} // verus!
