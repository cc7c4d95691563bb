//! A turn of the conversation: what the agent is given, and what becomes of it.
use tokio_util::sync::CancellationToken;
use vstd::prelude::*;
use crate::agent_tone;
use crate::audit::ChangedNote;
use crate::cancel::CancelMode;
use crate::claude_code::ClaudeCodeEngine;
use crate::claude_code;
use crate::conversation::TranscriptTurn;
use crate::conversation::TurnRequest;
use crate::conversation::TurnStop;
use crate::embedding;
use crate::formation_state::AppConfig;
use crate::settings;
use crate::text;

verus! {

broadcast use vstd::string::group_string_axioms;

/// How many earlier messages the agent sees.
pub const TURN_HISTORY_LIMIT: usize = 20;

/// How many bytes of grounding are pushed into a turn.
pub const INJECTED_CONTEXT_BUDGET: usize = 8000;

/// Something the user left open.
#[derive(Debug, PartialEq, Eq)]
pub struct OpenLoop {
    pub id: String,
    pub text: String,
}

/// What is in play.
#[derive(Debug, PartialEq, Eq)]
pub struct WorkingSet {
    /// The one surfaced longest ago first.
    pub open_loops: Vec<OpenLoop>,
}

/// What a turn produced.
#[derive(Debug, PartialEq, Eq)]
pub struct ChatTurnResult {
    /// The turn to undo.
    pub turn_id: String,
    pub reply: String,
    pub changed_notes: Vec<ChangedNote>,
    pub recorded_fact_count: usize,
    pub working_set: WorkingSet,
}

// ---------------------------------------------------------------------------
// The history
// ---------------------------------------------------------------------------

/// The last message is the one the user has just sent.
pub open spec fn ends_with_message(recent: Seq<TranscriptTurn>, message: Seq<char>) -> bool {
    recent.len() > 0 && recent.last().role@ == "user"@ && recent.last().content@ == message
}

/// How many of the latest messages to ask for: one more than the agent sees,
/// since the message just sent is among them.
pub fn history_fetch() -> (r: usize)
    ensures
        r == TURN_HISTORY_LIMIT + 1,
{
    TURN_HISTORY_LIMIT + 1
}

/// The messages before the one the user has just sent, oldest first.
pub fn history_window(recent: Vec<TranscriptTurn>, message: &str) -> (r: Vec<TranscriptTurn>)
    ensures
        r@ == if ends_with_message(recent@, message@) {
            recent@.drop_last()
        } else {
            recent@
        },
{
    let mut recent = recent;
    let n = recent.len();
    if n > 0 && text::same(recent[n - 1].role.as_str(), "user") && text::same(
        recent[n - 1].content.as_str(),
        message,
    ) {
        recent.pop();
    }
    recent
}

// ---------------------------------------------------------------------------
// The grounding
// ---------------------------------------------------------------------------

/// A text cut to at most `max` bytes, with an ellipsis where it was cut and the
/// ellipsis fits.
pub open spec fn truncated(s: Seq<char>, max: int) -> Seq<char> {
    if text::bytes_of(s) <= max {
        s
    } else if max < 3 {
        Seq::empty()
    } else {
        s.take(text::fitting(s, max - 3) as int).push('…')
    }
}

/// A text cut to at most `max` bytes between characters, with an ellipsis.
pub fn truncate_chars(s: &str, max: usize) -> (r: String)
    ensures
        r@ == truncated(s@, max as int),
        text::bytes_of(r@) <= max,
{
    if text::byte_len(s) <= max {
        return s.to_owned();
    }
    if max < 3 {
        return String::new();
    }
    let cs = text::chars_of(s);
    assert(cs@.skip(0) =~= cs@);
    let n = text::fit(cs.as_slice(), 0, max - 3);
    let mut head = text::take_chars(s, n).to_owned();
    proof {
        assert(head@ =~= s@.take(n as int));
        text::lemma_fitting(s@, max - 3);
        lemma_ellipsis_bytes(head@);
    }
    head.push('…');
    head
}

proof fn lemma_ellipsis_bytes(s: Seq<char>)
    ensures
        text::bytes_of(s.push('…')) == text::bytes_of(s) + 3,
{
    text::lemma_bytes_concat(s, seq!['…']);
    text::lemma_bytes_first(seq!['…']);
    assert(seq!['…'].drop_first() =~= Seq::<char>::empty());
    assert(s + seq!['…'] =~= s.push('…'));
}

/// The sections that there are.
pub open spec fn present(sections: Seq<Option<String>>) -> Seq<Seq<char>>
    decreases sections.len(),
{
    if sections.len() == 0 {
        Seq::empty()
    } else {
        match sections[0] {
            Some(s) => seq![s@] + present(sections.drop_first()),
            None => present(sections.drop_first()),
        }
    }
}

/// What comes of `sections` behind `out`: whole sections while they fit in the
/// budget, with a blank line between them; the first that does not fit is cut,
/// and nothing follows it. Where nothing of it can stand, no blank line is left
/// for it.
pub open spec fn packed(out: Seq<char>, sections: Seq<Seq<char>>, budget: int) -> Seq<char>
    decreases sections.len(),
{
    if sections.len() == 0 {
        out
    } else {
        let start = if out.len() == 0 {
            out
        } else {
            out + "\n\n"@
        };
        let room = budget - text::bytes_of(start);
        if room <= 0 {
            out
        } else if text::bytes_of(sections[0]) <= room {
            packed(start + sections[0], sections.drop_first(), budget)
        } else if room < 3 {
            out
        } else {
            start + truncated(sections[0], room)
        }
    }
}

/// The sections under a budget, in their order.
pub open spec fn assembled(sections: Seq<Option<String>>, budget: int) -> Option<Seq<char>> {
    let out = packed(Seq::empty(), present(sections), budget);
    if out.len() == 0 {
        None
    } else {
        Some(out)
    }
}

proof fn lemma_gap_bytes(out: Seq<char>)
    ensures
        text::bytes_of(out + "\n\n"@) == text::bytes_of(out) + 2,
        text::bytes_of(Seq::<char>::empty()) == 0,
        out.len() > 0 ==> text::bytes_of(out) > 0,
{
    reveal_strlit("\n\n");
    assert("\n\n"@ =~= seq!['\n', '\n']);
    text::lemma_bytes_concat(out, "\n\n"@);
    text::lemma_bytes_first("\n\n"@);
    text::lemma_bytes_first("\n\n"@.drop_first());
    assert("\n\n"@.drop_first().drop_first() =~= Seq::<char>::empty());
    text::lemma_bytes_bounds(Seq::<char>::empty());
    text::lemma_bytes_bounds(out);
}

/// The grounding of a turn: sections in the order of their weight, under a
/// budget of bytes. Whole sections are taken while they fit; the first that does
/// not is cut, and what follows is dropped. `None` where there is nothing.
pub fn assemble_grounding(sections: &Vec<Option<String>>, budget: usize) -> (r: Option<String>)
    ensures
        text::opt_text(r) == assembled(sections@, budget as int),
        r matches Some(s) ==> text::bytes_of(s@) <= budget,
{
    let mut out = String::new();
    let mut used: usize = 0;
    let mut i: usize = 0;
    proof {
        assert(sections@.skip(0) =~= sections@);
        assert(out@ =~= Seq::<char>::empty());
        lemma_gap_bytes(out@);
    }
    let ghost goal = packed(Seq::empty(), present(sections@), budget as int);
    while i < sections.len()
        invariant_except_break
            i <= sections.len(),
            used == text::bytes_of(out@),
            used <= budget,
            goal == packed(out@, present(sections@.skip(i as int)), budget as int),
        ensures
            goal == out@,
            text::bytes_of(out@) <= budget,
        decreases sections.len() - i,
    {
        assert(sections@.skip(i as int)[0] == sections@[i as int]);
        assert(sections@.skip(i as int).drop_first() =~= sections@.skip(i + 1));
        match &sections[i] {
            None => {},
            Some(section) => {
                let ghost rest = present(sections@.skip(i + 1));
                let ghost all = present(sections@.skip(i as int));
                assert(all[0] == section@);
                assert(all.drop_first() =~= rest);
                let empty = out.as_str().is_empty();
                let sep: usize = if empty { 0 } else { 2 };
                proof {
                    lemma_gap_bytes(out@);
                }
                if budget - used <= sep {
                    break ;
                }
                let room: usize = budget - used - sep;
                let len = text::byte_len(section.as_str());
                if len > room && room < 3 {
                    break ;
                }
                if !empty {
                    out.append("\n\n");
                }
                let ghost start = out@;
                if len <= room {
                    proof {
                        text::lemma_bytes_concat(start, section@);
                    }
                    out.append(section.as_str());
                    used = used + sep + len;
                } else {
                    let cut = truncate_chars(section.as_str(), room);
                    proof {
                        text::lemma_bytes_concat(start, cut@);
                    }
                    out.append(cut.as_str());
                    break ;
                }
            },
        }
        i += 1;
    }
    if out.as_str().is_empty() {
        None
    } else {
        Some(out)
    }
}

/// The grounding never exceeds its budget.
pub proof fn law_grounding_within_budget(sections: Seq<Option<String>>, budget: int)
    requires
        budget >= 0,
    ensures
        assembled(sections, budget) matches Some(s) ==> text::bytes_of(s) <= budget,
{
    lemma_gap_bytes(Seq::empty());
    lemma_packed_fits(Seq::empty(), present(sections), budget);
}

proof fn lemma_truncated_bytes(s: Seq<char>, max: int)
    requires
        max >= 0,
    ensures
        text::bytes_of(truncated(s, max)) <= max,
{
    lemma_gap_bytes(Seq::empty());
    if text::bytes_of(s) > max && max >= 3 {
        text::lemma_fitting(s, max - 3);
        lemma_ellipsis_bytes(s.take(text::fitting(s, max - 3) as int));
    }
}

proof fn lemma_packed_fits(out: Seq<char>, sections: Seq<Seq<char>>, budget: int)
    requires
        text::bytes_of(out) <= budget,
    ensures
        text::bytes_of(packed(out, sections, budget)) <= budget,
    decreases sections.len(),
{
    if sections.len() > 0 {
        let start = if out.len() == 0 {
            out
        } else {
            out + "\n\n"@
        };
        let room = budget - text::bytes_of(start);
        if room > 0 {
            if text::bytes_of(sections[0]) <= room {
                text::lemma_bytes_concat(start, sections[0]);
                lemma_packed_fits(start + sections[0], sections.drop_first(), budget);
            } else if room >= 3 {
                lemma_truncated_bytes(sections[0], room);
                text::lemma_bytes_concat(start, truncated(sections[0], room));
            }
        }
    }
}

/// What weighs more is never crowded out: whatever sections follow, a first
/// section that fits stands whole at the front.
pub proof fn law_first_section_is_kept(
    first: String,
    rest: Seq<Option<String>>,
    budget: int,
)
    requires
        0 < text::bytes_of(first@) <= budget,
    ensures
        assembled(seq![Some(first)] + rest, budget) matches Some(s) && text::begins(s, first@),
{
    let all = seq![Some(first)] + rest;
    assert(all[0] == Some(first));
    assert(all.drop_first() =~= rest);
    let sections = present(all);
    assert(sections[0] == first@);
    assert(sections.drop_first() =~= present(rest));
    lemma_gap_bytes(Seq::empty());
    text::lemma_bytes_bounds(first@);
    assert(Seq::<char>::empty() + first@ =~= first@);
    lemma_packed_begins(first@, present(rest), budget);
}

proof fn lemma_packed_begins(out: Seq<char>, sections: Seq<Seq<char>>, budget: int)
    ensures
        text::begins(packed(out, sections, budget), out),
    decreases sections.len(),
{
    if sections.len() > 0 {
        let start = if out.len() == 0 {
            out
        } else {
            out + "\n\n"@
        };
        let room = budget - text::bytes_of(start);
        if room > 0 && (text::bytes_of(sections[0]) <= room || room >= 3) {
            let next = if text::bytes_of(sections[0]) <= room {
                start + sections[0]
            } else {
                start + truncated(sections[0], room)
            };
            let all = packed(out, sections, budget);
            if text::bytes_of(sections[0]) <= room {
                lemma_packed_begins(next, sections.drop_first(), budget);
            } else {
                assert(all.take(next.len() as int) =~= next);
            }
            assert(next.take(out.len() as int) =~= out);
            assert(text::begins(all, next));
            assert(all.take(out.len() as int) =~= all.take(next.len() as int).take(out.len() as int));
        } else {
            assert(out.take(out.len() as int) =~= out);
        }
    } else {
        assert(out.take(out.len() as int) =~= out);
    }
}

// ---------------------------------------------------------------------------
// The turn
// ---------------------------------------------------------------------------

/// The engine that is started anew for a turn, on the chosen model.
pub fn build_engine(cfg: &AppConfig) -> (r: ClaudeCodeEngine)
    ensures
        r.model@ == settings::model_or(
            text::opt_text(cfg.claude_code_model),
            claude_code::DEFAULT_MODEL@,
        ),
{
    let model = settings::pick_model(&cfg.claude_code_model, claude_code::DEFAULT_MODEL);
    ClaudeCodeEngine::new(model.as_str())
}

/// What a turn is given besides its message.
pub struct TurnContext {
    /// The message's id.
    pub source_chat_id: String,
    /// The latest messages, the one just sent among them, oldest first.
    pub recent: Vec<TranscriptTurn>,
    /// What the message speaks of, what is in play, and the notes it is near to.
    pub entities: Option<String>,
    pub in_play: Option<String>,
    pub related: Option<String>,
    /// The endpoint of an Ollama other than the local one.
    pub endpoint: Option<String>,
    /// Tripped when the user interrupts the turn.
    pub cancel: CancellationToken,
}

/// The turn that a message asks for.
pub fn chat_turn(
    message: &str,
    session_id: &str,
    formation_root: &str,
    context: TurnContext,
    cfg: &AppConfig,
) -> (r: TurnRequest)
    ensures
        r.message@ == message@,
        r.history@ == if ends_with_message(context.recent@, message@) {
            context.recent@.drop_last()
        } else {
            context.recent@
        },
        r.formation_root@ == formation_root@,
        r.source_chat_id@ == context.source_chat_id@,
        r.embedding_provider@ == embedding::provider_text(
            embedding::provider_named(text::opt_text(cfg.embedding_provider)),
        ),
        r.ollama_url == context.endpoint,
        text::opt_text(r.injected_context) == assembled(
            seq![context.entities, context.in_play, context.related],
            INJECTED_CONTEXT_BUDGET as int,
        ),
        r.tone@ == agent_tone::tone_text(agent_tone::tone_named(text::opt_text(cfg.agent_tone))),
        r.cancel == context.cancel,
        r.conversation_id@ == session_id@,
{
    let sections: Vec<Option<String>> = vec![context.entities, context.in_play, context.related];
    assert(sections@ =~= seq![context.entities, context.in_play, context.related]);
    TurnRequest {
        message: message.to_owned(),
        history: history_window(context.recent, message),
        formation_root: formation_root.to_owned(),
        source_chat_id: context.source_chat_id,
        embedding_provider: settings::get_embedding_provider(cfg),
        ollama_url: context.endpoint,
        injected_context: assemble_grounding(&sections, INJECTED_CONTEXT_BUDGET),
        tone: settings::get_agent_tone(cfg),
        cancel: context.cancel,
        conversation_id: session_id.to_owned(),
    }
}

/// What becomes of the work of a turn.
#[derive(Clone, Copy, Debug, PartialEq, Eq, Structural)]
pub enum TurnFate {
    /// It is kept, and entered in the log.
    Keep,
    /// It is undone, as if the turn had never run.
    Revert,
}

/// What becomes of a turn that stopped: only one that the user broke off to
/// change direction is undone.
pub fn turn_fate(stop: TurnStop, mode: Option<CancelMode>) -> (r: TurnFate)
    ensures
        r == TurnFate::Revert <==> stop == TurnStop::Interrupted && mode == Some(
            CancelMode::Redirect,
        ),
{
    match stop {
        TurnStop::Completed => TurnFate::Keep,
        TurnStop::Interrupted => match mode {
            Some(CancelMode::Redirect) => TurnFate::Revert,
            _ => TurnFate::Keep,
        },
    }
}

/// The open loop that the turn has surfaced: the first.
pub fn surfaced_loop(working_set: &WorkingSet) -> (r: Option<String>)
    ensures
        text::opt_text(r) == if working_set.open_loops@.len() == 0 {
            None
        } else {
            Some(working_set.open_loops@[0].id@)
        },
{
    if working_set.open_loops.len() == 0 {
        None
    } else {
        Some(working_set.open_loops[0].id.clone())
    }
}

/// What a finished turn produced.
pub fn turn_result(
    turn_id: &str,
    reply: &str,
    changed_notes: Vec<ChangedNote>,
    recorded_fact_ids: &Vec<String>,
    working_set: WorkingSet,
) -> (r: ChatTurnResult)
    ensures
        r.turn_id@ == turn_id@,
        r.reply@ == reply@,
        r.changed_notes@ == changed_notes@,
        r.recorded_fact_count == recorded_fact_ids@.len(),
        r.working_set == working_set,
{
    ChatTurnResult {
        turn_id: turn_id.to_owned(),
        reply: reply.to_owned(),
        changed_notes,
        recorded_fact_count: recorded_fact_ids.len(),
        working_set,
    }
}

/// The sections that there are stand in their order.
pub proof fn law_sections_stand_in_order(a: Seq<Option<String>>, b: Seq<Option<String>>)
    ensures
        present(a + b) == present(a) + present(b),
        a.len() == 1 ==> present(a) == (match a[0] {
            Some(s) => seq![s@],
            None => Seq::<Seq<char>>::empty(),
        }),
    decreases a.len(),
{
    if a.len() == 0 {
        assert(a + b =~= b);
        assert(present(a) + present(b) =~= present(b));
    } else {
        law_sections_stand_in_order(a.drop_first(), b);
        assert((a + b).drop_first() =~= a.drop_first() + b);
        assert((a + b)[0] == a[0]);
        assert(present(a + b) =~= present(a) + present(b));
        if a.len() == 1 {
            assert(a.drop_first().len() == 0);
            assert(present(a) =~= (match a[0] {
                Some(s) => seq![s@],
                None => Seq::<Seq<char>>::empty(),
            }));
        }
    }
}

/// Where everything fits nothing is left out or cut: the grounding is the sections in
/// their order with a blank line between each two.
pub proof fn law_what_fits_is_told_whole(sections: Seq<Option<String>>, budget: int)
    requires
        forall|i: int| 0 <= i < present(sections).len() ==> (#[trigger] present(sections)[i]).len()
            > 0,
        text::bytes_of(text::joined(present(sections), "\n\n"@)) <= budget,
    ensures
        present(sections).len() == 0 ==> assembled(sections, budget) is None,
        present(sections).len() > 0 ==> assembled(sections, budget) == Some(
            text::joined(present(sections), "\n\n"@),
        ),
{
    let all = present(sections);
    lemma_gap_bytes(Seq::empty());
    if all.len() > 0 {
        let rest = all.drop_first();
        assert(all =~= seq![all[0]] + rest);
        assert(text::joined(seq![all[0]], "\n\n"@) == all[0]);
        if rest.len() > 0 {
            text::lemma_joined_add(seq![all[0]], rest, "\n\n"@);
            text::lemma_bytes_concat(all[0] + "\n\n"@, text::joined(rest, "\n\n"@));
            text::lemma_bytes_concat(all[0], "\n\n"@);
        }
        assert(Seq::<char>::empty() + all[0] =~= all[0]);
        lemma_gap_bytes(all[0]);
        assert forall|i: int| 0 <= i < rest.len() implies (#[trigger] rest[i]).len() > 0 by {
            assert(all[i + 1].len() > 0);
        }
        lemma_packed_whole(all[0], rest, budget);
    }
}

proof fn lemma_packed_whole(out: Seq<char>, sections: Seq<Seq<char>>, budget: int)
    requires
        out.len() > 0,
        forall|i: int| 0 <= i < sections.len() ==> (#[trigger] sections[i]).len() > 0,
        sections.len() > 0 ==> text::bytes_of(out + "\n\n"@ + text::joined(sections, "\n\n"@))
            <= budget,
    ensures
        sections.len() == 0 ==> packed(out, sections, budget) == out,
        sections.len() > 0 ==> packed(out, sections, budget) == out + "\n\n"@ + text::joined(
            sections,
            "\n\n"@,
        ),
    decreases sections.len(),
{
    if sections.len() > 0 {
        let rest = sections.drop_first();
        let start = out + "\n\n"@;
        assert(sections =~= seq![sections[0]] + rest);
        assert(text::joined(seq![sections[0]], "\n\n"@) == sections[0]);
        assert(sections[0].len() > 0);
        assert forall|i: int| 0 <= i < rest.len() implies (#[trigger] rest[i]).len() > 0 by {
            assert(sections[i + 1].len() > 0);
        }
        if rest.len() > 0 {
            text::lemma_joined_add(seq![sections[0]], rest, "\n\n"@);
            let tail = "\n\n"@ + text::joined(rest, "\n\n"@);
            assert(start + text::joined(sections, "\n\n"@) =~= start + sections[0] + tail);
            text::lemma_bytes_concat(start + sections[0], tail);
            assert(start + sections[0] + tail =~= start + sections[0] + "\n\n"@ + text::joined(
                rest,
                "\n\n"@,
            ));
        } else {
            assert(sections =~= seq![sections[0]]);
        }
        text::lemma_bytes_concat(start, sections[0]);
        lemma_gap_bytes(sections[0]);
        lemma_packed_whole(start + sections[0], rest, budget);
    }
}

/// A text that is too long is cut between characters, behind as many as fit before the
/// ellipsis; one that is not stays as it is.
pub proof fn law_cut_texts_keep_their_beginning(s: Seq<char>, max: int)
    requires
        max >= 3,
    ensures
        text::bytes_of(s) <= max ==> truncated(s, max) == s,
        text::bytes_of(s) > max ==> {
            let t = truncated(s, max);
            let n = t.len() - 1;
            &&& 0 <= n < s.len()
            &&& t.last() == '…'
            &&& t.drop_last() == s.take(n)
            &&& text::bytes_of(s.take(n)) <= max - 3
            &&& text::bytes_of(s.take(n + 1)) > max - 3
        },
{
    if text::bytes_of(s) > max {
        text::lemma_fitting(s, max - 3);
        let n = text::fitting(s, max - 3) as int;
        if n == s.len() {
            assert(s.take(n) =~= s);
        }
        assert(truncated(s, max).drop_last() =~= s.take(n));
    }
}

/// The message that was just sent is not told twice: where it is the last one it is left
/// out, and where it is not nothing is.
pub proof fn law_only_the_users_own_message_is_the_last(
    earlier: Seq<TranscriptTurn>,
    t: TranscriptTurn,
    message: Seq<char>,
)
    ensures
        !ends_with_message(Seq::empty(), message),
        ends_with_message(earlier.push(t), message) ==> t.content@ == message && t.role@
            == "user"@,
        t.content@ == message && t.role@ == "user"@ ==> ends_with_message(earlier.push(t), message),
{
}

} // verus!
