//! The turn that distils a meeting once it has ended.
use vstd::prelude::*;
use crate::agent_tone;
use crate::brand::Brand;
use crate::cancel;
use crate::conversation::TurnRequest;
use crate::embedding;
use crate::formation_state::AppConfig;
use crate::meeting_note;
use crate::session;
use crate::settings::Engine;
use crate::settings;
use crate::text;

verus! {

broadcast use vstd::string::group_string_axioms;

/// How many bytes of transcript are pushed into the turn; the agent reads the
/// rest of the note itself.
pub const DISTILL_GROUNDING_BUDGET: usize = 8000;

/// What opens the transcript.
pub const GROUNDING_HEADER: &'static str = "## Meeting transcript (for distillation)\n";

/// What the user is shown where no summary could be had.
pub const NEUTRAL_RECEIPT: &'static str = "Meeting saved — couldn't auto-summarize this one.";

/// What a finished distillation hands back.
#[derive(Debug, PartialEq, Eq)]
pub struct DistillResult {
    /// One line.
    pub summary: String,
    /// The turn to undo.
    pub turn_id: String,
    /// A better name for the meeting, if there is one.
    pub suggested_title: Option<String>,
}

// ---------------------------------------------------------------------------
// The instruction
// ---------------------------------------------------------------------------

/// A voice that nobody has named, with a guess at who it was.
#[derive(Debug, PartialEq, Eq)]
pub struct UnresolvedVoice {
    pub label: String,
    pub guess: Option<String>,
}

/// What is known of such a voice.
pub open spec fn voice_view(v: UnresolvedVoice) -> (Seq<char>, Option<Seq<char>>) {
    (v.label@, text::opt_text(v.guess))
}

/// The voices, in their order.
pub open spec fn voice_views(v: Seq<UnresolvedVoice>) -> Seq<(Seq<char>, Option<Seq<char>>)> {
    v.map_values(|u: UnresolvedVoice| voice_view(u))
}

/// The first guess that was made for a label.
pub open spec fn guess_for(
    suggestions: Seq<(String, String)>,
    label: Seq<char>,
) -> Option<Seq<char>>
    decreases suggestions.len(),
{
    if suggestions.len() == 0 {
        None
    } else if suggestions[0].0@ == label {
        Some(suggestions[0].1@)
    } else {
        guess_for(suggestions.drop_first(), label)
    }
}

/// The attendees that nobody has named, each with its guess.
pub open spec fn unresolved_in(
    attendees: Seq<Seq<char>>,
    suggestions: Seq<(String, String)>,
) -> Seq<(Seq<char>, Option<Seq<char>>)>
    decreases attendees.len(),
{
    if attendees.len() == 0 {
        Seq::empty()
    } else {
        let front = unresolved_in(attendees.drop_last(), suggestions);
        let a = attendees.last();
        if text::begins(a, session::UNKNOWN_SPEAKER@) {
            front.push((a, guess_for(suggestions, a)))
        } else {
            front
        }
    }
}

fn find_guess(suggestions: &Vec<(String, String)>, label: &str) -> (r: Option<String>)
    ensures
        text::opt_text(r) == guess_for(suggestions@, label@),
{
    let mut i: usize = 0;
    assert(suggestions@.skip(0) =~= suggestions@);
    while i < suggestions.len()
        invariant
            i <= suggestions.len(),
            guess_for(suggestions@, label@) == guess_for(suggestions@.skip(i as int), label@),
        decreases suggestions.len() - i,
    {
        if text::same(suggestions[i].0.as_str(), label) {
            return Some(suggestions[i].1.clone());
        }
        assert(suggestions@.skip(i as int).drop_first() =~= suggestions@.skip(i + 1));
        i += 1;
    }
    None
}

/// The attendees that nobody has named, each with the first guess made for it.
pub fn unresolved_voices(attendees: &Vec<String>, suggestions: &Vec<(String, String)>) -> (r: Vec<
    UnresolvedVoice,
>)
    ensures
        voice_views(r@) == unresolved_in(text::texts(attendees@), suggestions@),
{
    let mut out: Vec<UnresolvedVoice> = Vec::new();
    let ghost all = text::texts(attendees@);
    let mut i: usize = 0;
    assert(all.take(0) =~= Seq::<Seq<char>>::empty());
    assert(voice_views(out@) =~= Seq::<(Seq<char>, Option<Seq<char>>)>::empty());
    while i < attendees.len()
        invariant
            i <= attendees.len(),
            all == text::texts(attendees@),
            voice_views(out@) == unresolved_in(all.take(i as int), suggestions@),
        decreases attendees.len() - i,
    {
        let a = attendees[i].as_str();
        assert(all.take(i + 1).drop_last() =~= all.take(i as int));
        assert(all.take(i + 1).last() == a@);
        if session::is_unknown_speaker(a) {
            let v = UnresolvedVoice { label: a.to_owned(), guess: find_guess(suggestions, a) };
            let ghost so_far = out@;
            let ghost vv = voice_view(v);
            out.push(v);
            assert(voice_views(out@) =~= voice_views(so_far).push(vv));
        }
        i += 1;
    }
    assert(all.take(i as int) =~= all);
    out
}

/// How a voice is named in the instruction.
pub open spec fn voice_phrase(v: (Seq<char>, Option<Seq<char>>)) -> Seq<char> {
    match v.1 {
        Some(name) => "\""@ + v.0 + "\" (possibly "@ + name + ")"@,
        None => "\""@ + v.0 + "\""@,
    }
}

/// What is said of the voices that nobody has named.
pub open spec fn reconcile_text(voices: Seq<(Seq<char>, Option<Seq<char>>)>) -> Seq<char> {
    if voices.len() == 0 {
        Seq::empty()
    } else {
        "\n\nSome voices were not identified: "@
            + text::joined(
            voices.map_values(|v: (Seq<char>, Option<Seq<char>>)| voice_phrase(v)),
            "; "@,
        )
            + ". Before the SUMMARY line, add one short, friendly sentence asking who they were so they can be named — offer your best guess where there is one, but ask, never assert. Do not record Facts attributed to an unidentified voice.\n"@
    }
}

/// Who was there.
pub open spec fn attendee_list(attendees: Seq<Seq<char>>) -> Seq<char> {
    if attendees.len() == 0 {
        "the attendees"@
    } else {
        text::joined(attendees, ", "@)
    }
}

/// The instruction to distil a meeting.
pub open spec fn message_text(
    title: Seq<char>,
    note_rel: Seq<char>,
    attendees: Seq<Seq<char>>,
    voices: Seq<(Seq<char>, Option<Seq<char>>)>,
) -> Seq<char> {
    "This is an automatic end-of-meeting distillation — no one is waiting on a reply. The meeting \""@
        + title
        + "\" just ended; its Meeting note is at `"@
        + note_rel
        + "` and its attendees are "@
        + attendee_list(attendees)
        + ". Read the note ('read_note') and distil it the way you handle any turn:\n\n- Record durable Facts about the attendees with 'record_fact', superseding any that are now stale.\n- Update each attendee's People note with what you learned about them.\n- Open a Task ('record_task') or open loop for each action item or commitment.\n- Capture Decisions made.\n\nDistil, don't dump: record what matters, not every utterance. Attribute a Fact to a *named* person only when the transcript makes the speaker clear; otherwise record it unattributed rather than guess (a wrong attribution silently pollutes a real person's note).\n"@
        + reconcile_text(voices)
        + "\nFinish your reply with exactly these two lines, each on its own line and nothing after them:\nSUMMARY: <one short sentence summarising what you recorded — the receipt the user sees>\nTITLE: <a concise 3-to-6 word title naming what this meeting was actually about>\n\nThe meeting was opened as \""@
        + title
        + "\". If that name already captures the topic well, repeat it on the TITLE line; only suggest a different title when the content clearly warrants a better one."@
}

fn phrase_voice(v: &UnresolvedVoice) -> (r: String)
    ensures
        r@ == voice_phrase(voice_view(*v)),
{
    let mut s = String::from_str("\"");
    s.append(v.label.as_str());
    match &v.guess {
        Some(name) => {
            s.append("\" (possibly ");
            s.append(name.as_str());
            s.append(")");
        },
        None => {
            s.append("\"");
        },
    }
    s
}

fn reconcile(unresolved: &Vec<UnresolvedVoice>) -> (r: String)
    ensures
        r@ == reconcile_text(voice_views(unresolved@)),
{
    if unresolved.len() == 0 {
        return String::new();
    }
    let mut phrases: Vec<String> = Vec::new();
    let mut i: usize = 0;
    while i < unresolved.len()
        invariant
            i <= unresolved.len(),
            phrases.len() == i,
            forall|k: int|
                0 <= k < i ==> (#[trigger] phrases@[k])@ == voice_phrase(voice_view(unresolved@[k])),
        decreases unresolved.len() - i,
    {
        phrases.push(phrase_voice(&unresolved[i]));
        i += 1;
    }
    assert(text::texts(phrases@) =~= voice_views(unresolved@).map_values(
        |v: (Seq<char>, Option<Seq<char>>)| voice_phrase(v),
    ));
    let mut s = String::from_str("\n\nSome voices were not identified: ");
    s.append(text::join(&phrases, "; ").as_str());
    s.append(". Before the SUMMARY line, add one short, friendly sentence asking who they were so they can be named — offer your best guess where there is one, but ask, never assert. Do not record Facts attributed to an unidentified voice.\n");
    s
}

/// The instruction to distil a meeting. Where voices went unnamed it asks who
/// they were, with the guess where there is one.
pub fn distillation_message(
    title: &str,
    note_rel: &str,
    attendees: &Vec<String>,
    unresolved: &Vec<UnresolvedVoice>,
) -> (r: String)
    ensures
        r@ == message_text(title@, note_rel@, text::texts(attendees@), voice_views(unresolved@)),
{
    assert(text::texts(attendees@).len() == attendees@.len());
    let who = if attendees.len() == 0 {
        "the attendees".to_owned()
    } else {
        text::join(attendees, ", ")
    };
    let ask = reconcile(unresolved);
    let mut s = String::from_str("This is an automatic end-of-meeting distillation — no one is waiting on a reply. The meeting \"");
    s.append(title);
    s.append("\" just ended; its Meeting note is at `");
    s.append(note_rel);
    s.append("` and its attendees are ");
    s.append(who.as_str());
    s.append(". Read the note ('read_note') and distil it the way you handle any turn:\n\n- Record durable Facts about the attendees with 'record_fact', superseding any that are now stale.\n- Update each attendee's People note with what you learned about them.\n- Open a Task ('record_task') or open loop for each action item or commitment.\n- Capture Decisions made.\n\nDistil, don't dump: record what matters, not every utterance. Attribute a Fact to a *named* person only when the transcript makes the speaker clear; otherwise record it unattributed rather than guess (a wrong attribution silently pollutes a real person's note).\n");
    s.append(ask.as_str());
    s.append("\nFinish your reply with exactly these two lines, each on its own line and nothing after them:\nSUMMARY: <one short sentence summarising what you recorded — the receipt the user sees>\nTITLE: <a concise 3-to-6 word title naming what this meeting was actually about>\n\nThe meeting was opened as \"");
    s.append(title);
    s.append("\". If that name already captures the topic well, repeat it on the TITLE line; only suggest a different title when the content clearly warrants a better one.");
    s
}

// ---------------------------------------------------------------------------
// The transcript
// ---------------------------------------------------------------------------

/// How many windows are taken, after `used` bytes: whole windows, from the first
/// on, each with a line feed, while they fit in the budget.
pub open spec fn windows_taken(windows: Seq<Seq<char>>, used: int, budget: int) -> nat
    decreases windows.len(),
{
    if windows.len() == 0 {
        0
    } else {
        let next = used + text::bytes_of(windows[0]) + 1;
        if next > budget {
            0
        } else {
            1 + windows_taken(windows.drop_first(), next, budget)
        }
    }
}

/// The windows, each with a line feed.
pub open spec fn windows_text(windows: Seq<Seq<char>>) -> Seq<char>
    decreases windows.len(),
{
    if windows.len() == 0 {
        Seq::empty()
    } else {
        windows_text(windows.drop_last()) + windows.last().push('\n')
    }
}

/// The transcript as it is pushed into the turn.
pub open spec fn grounding(windows: Seq<Seq<char>>, budget: int) -> Option<Seq<char>> {
    let n = windows_taken(windows, text::bytes_of(GROUNDING_HEADER@) as int, budget) as int;
    if n == 0 {
        None
    } else {
        Some(GROUNDING_HEADER@ + windows_text(windows.take(n)))
    }
}

proof fn lemma_windows_taken(windows: Seq<Seq<char>>, used: int, budget: int)
    ensures
        windows_taken(windows, used, budget) <= windows.len(),
    decreases windows.len(),
{
    if windows.len() > 0 {
        lemma_windows_taken(
            windows.drop_first(),
            used + text::bytes_of(windows[0]) + 1,
            budget,
        );
    }
}

proof fn lemma_line_bytes(w: Seq<char>)
    ensures
        text::bytes_of(w.push('\n')) == text::bytes_of(w) + 1,
{
    text::lemma_bytes_concat(w, seq!['\n']);
    text::lemma_bytes_first(seq!['\n']);
    assert(seq!['\n'].drop_first() =~= Seq::<char>::empty());
    assert(w + seq!['\n'] =~= w.push('\n'));
}

/// The transcript as one block within `budget` bytes, oldest window first.
pub fn grounding_from_windows(windows: &Vec<String>, budget: usize) -> (r: Option<String>)
    ensures
        text::opt_text(r) == grounding(text::texts(windows@), budget as int),
{
    let ghost all = text::texts(windows@);
    let ghost head = text::bytes_of(GROUNDING_HEADER@) as int;
    let mut out = GROUNDING_HEADER.to_owned();
    let mut used: usize = text::byte_len(GROUNDING_HEADER);
    let mut i: usize = 0;
    assert(all.skip(0) =~= all);
    assert(all.take(0) =~= Seq::<Seq<char>>::empty());
    assert(out@ =~= GROUNDING_HEADER@ + windows_text(all.take(0)));
    while i < windows.len()
        invariant
            all == text::texts(windows@),
            head == text::bytes_of(GROUNDING_HEADER@),
            i <= windows.len(),
            out@ == GROUNDING_HEADER@ + windows_text(all.take(i as int)),
            windows_taken(all, head, budget as int) == i + windows_taken(
                all.skip(i as int),
                used as int,
                budget as int,
            ),
        ensures
            out@ == GROUNDING_HEADER@ + windows_text(all.take(i as int)),
            windows_taken(all, head, budget as int) == i,
        decreases windows.len() - i,
    {
        let w = windows[i].as_str();
        assert(all.skip(i as int)[0] == w@);
        assert(all.skip(i as int).drop_first() =~= all.skip(i + 1));
        let len: usize = text::byte_len(w);
        if used >= budget || len >= budget - used {
            break ;
        }
        assert(all.take(i + 1).drop_last() =~= all.take(i as int));
        assert(all.take(i + 1).last() == w@);
        out.append(w);
        out.push('\n');
        assert(out@ =~= GROUNDING_HEADER@ + (windows_text(all.take(i as int)) + w@.push('\n')));
        used = used + len + 1;
        i += 1;
    }
    if i == 0 {
        None
    } else {
        Some(out)
    }
}

/// The transcript fits in the budget.
pub proof fn law_grounding_fits(windows: Seq<Seq<char>>, budget: int)
    requires
        grounding(windows, budget) is Some,
    ensures
        text::bytes_of(grounding(windows, budget)->0) <= budget,
{
    let head = text::bytes_of(GROUNDING_HEADER@) as int;
    let n = windows_taken(windows, head, budget) as int;
    lemma_taken_fit(windows, head, budget);
    text::lemma_bytes_concat(GROUNDING_HEADER@, windows_text(windows.take(n)));
}

proof fn lemma_taken_fit(windows: Seq<Seq<char>>, used: int, budget: int)
    ensures
        ({
            let n = windows_taken(windows, used, budget) as int;
            n > 0 ==> used + text::bytes_of(windows_text(windows.take(n))) <= budget
        }),
    decreases windows.len(),
{
    lemma_windows_taken(windows, used, budget);
    let n = windows_taken(windows, used, budget) as int;
    if n > 0 {
        let rest = windows.drop_first();
        let next = used + text::bytes_of(windows[0]) + 1;
        lemma_windows_taken(rest, next, budget);
        lemma_taken_fit(rest, next, budget);
        lemma_windows_text_first(windows.take(n));
        assert(windows.take(n).drop_first() =~= rest.take(n - 1));
        lemma_line_bytes(windows[0]);
        text::lemma_bytes_concat(windows[0].push('\n'), windows_text(rest.take(n - 1)));
        if n == 1 {
            assert(rest.take(0) =~= Seq::<Seq<char>>::empty());
            text::lemma_bytes_bounds(windows_text(rest.take(0)));
        }
    }
}

proof fn lemma_windows_text_first(w: Seq<Seq<char>>)
    requires
        w.len() > 0,
    ensures
        windows_text(w) == w[0].push('\n') + windows_text(w.drop_first()),
    decreases w.len(),
{
    if w.len() == 1 {
        assert(w.drop_last() =~= Seq::<Seq<char>>::empty());
        assert(w.drop_first() =~= Seq::<Seq<char>>::empty());
        assert(windows_text(w) =~= w[0].push('\n') + windows_text(w.drop_first()));
    } else {
        lemma_windows_text_first(w.drop_last());
        assert(w.drop_last().drop_first() =~= w.drop_first().drop_last());
        assert(windows_text(w) =~= w[0].push('\n') + windows_text(w.drop_first()));
    }
}

/// A longer budget never takes fewer windows.
pub proof fn law_more_budget_takes_no_fewer_windows(
    windows: Seq<Seq<char>>,
    used: int,
    small: int,
    large: int,
)
    requires
        small <= large,
    ensures
        windows_taken(windows, used, small) <= windows_taken(windows, used, large),
    decreases windows.len(),
{
    if windows.len() > 0 {
        law_more_budget_takes_no_fewer_windows(
            windows.drop_first(),
            used + text::bytes_of(windows[0]) + 1,
            small,
            large,
        );
    }
}

// ---------------------------------------------------------------------------
// The receipt
// ---------------------------------------------------------------------------

/// What may stand before the text of a line.
pub open spec fn bullets() -> Seq<char> {
    seq!['-', '*', '#', ' ']
}

/// What may stand around a value.
pub open spec fn quotes() -> Seq<char> {
    seq!['"', '\'', '“', '”']
}

fn bullet_marks() -> (r: Vec<char>)
    ensures
        r@ == bullets(),
{
    let v: Vec<char> = vec!['-', '*', '#', ' '];
    assert(v@ =~= bullets());
    v
}

fn quote_marks() -> (r: Vec<char>)
    ensures
        r@ == quotes(),
{
    let v: Vec<char> = vec!['"', '\'', '“', '”'];
    assert(v@ =~= quotes());
    v
}

/// What a line says after a marker, if it has the marker: without bullets, and
/// without quotes around the value.
pub open spec fn marked(line: Seq<char>, marker: Seq<char>) -> Option<Seq<char>> {
    let l = text::trimmed(text::trimmed_start_any(line, bullets()));
    if text::begins_ignoring_case(l, marker) {
        let value = text::trimmed(l.skip(marker.len() as int));
        Some(
            text::trimmed(
                text::trimmed_end_any(text::trimmed_start_any(value, quotes()), quotes()),
            ),
        )
    } else {
        None
    }
}

/// What the first of these lines that has the marker says after it; `None` where
/// no line has it, or where that line says nothing.
pub open spec fn first_marked(lines: Seq<Seq<char>>, marker: Seq<char>) -> Option<Seq<char>>
    decreases lines.len(),
{
    if lines.len() == 0 {
        None
    } else {
        match marked(lines[0], marker) {
            Some(v) => if v.len() == 0 {
                None
            } else {
                Some(v)
            },
            None => first_marked(lines.drop_first(), marker),
        }
    }
}

fn marked_line(line: &str, marker: &str) -> (r: Option<String>)
    ensures
        text::opt_text(r) == marked(line@, marker@),
{
    let bullets = bullet_marks();
    let l = text::trim(text::trim_start_any(line, bullets.as_slice()));
    if text::starts_with_ignoring_case(l, marker) {
        let n = marker.unicode_len();
        let len = l.unicode_len();
        assert(l@.subrange(n as int, len as int) =~= l@.skip(n as int));
        let value = text::trim(l.substring_char(n, len));
        let quotes = quote_marks();
        let bare = text::trim(
            text::trim_end_any(text::trim_start_any(value, quotes.as_slice()), quotes.as_slice()),
        );
        Some(bare.to_owned())
    } else {
        None
    }
}

/// What a reply says after a marker, on the first line that has it; `None` when
/// there is no such line or it says nothing.
pub fn marker_value(reply: &str, marker: &str) -> (r: Option<String>)
    ensures
        text::opt_text(r) == first_marked(text::lines_of(reply@), marker@),
{
    let lines = text::lines(reply);
    let ghost all = text::texts(lines@);
    let mut i: usize = 0;
    assert(all.skip(0) =~= all);
    while i < lines.len()
        invariant
            i <= lines.len(),
            all == text::texts(lines@),
            all == text::lines_of(reply@),
            first_marked(all, marker@) == first_marked(all.skip(i as int), marker@),
        decreases lines.len() - i,
    {
        assert(all.skip(i as int)[0] == lines@[i as int]@);
        assert(all.skip(i as int).drop_first() =~= all.skip(i + 1));
        match marked_line(lines[i].as_str(), marker) {
            Some(v) => {
                if v.as_str().is_empty() {
                    return None;
                }
                return Some(v);
            },
            None => {},
        }
        i += 1;
    }
    None
}

/// The line may serve as a receipt: it is not blank and no title.
pub open spec fn receipt_line(line: Seq<char>) -> bool {
    let t = text::trimmed(line);
    t.len() > 0 && !text::begins_ignoring_case(text::trimmed_start_any(t, bullets()), "TITLE:"@)
}

/// The last of these lines that may serve as a receipt, without bullets.
pub open spec fn last_receipt(lines: Seq<Seq<char>>) -> Option<Seq<char>>
    decreases lines.len(),
{
    if lines.len() == 0 {
        None
    } else if receipt_line(lines.last()) {
        Some(text::trimmed(text::trimmed_start_any(text::trimmed(lines.last()), bullets())))
    } else {
        last_receipt(lines.drop_last())
    }
}

/// The last line of a reply that is not blank and no title.
pub fn last_receipt_line(reply: &str) -> (r: Option<String>)
    ensures
        text::opt_text(r) == last_receipt(text::lines_of(reply@)),
{
    let lines = text::lines(reply);
    let bullets = bullet_marks();
    let ghost all = text::texts(lines@);
    let mut i: usize = lines.len();
    assert(all.take(i as int) =~= all);
    while i > 0
        invariant
            i <= lines.len(),
            bullets@ == self::bullets(),
            all == text::texts(lines@),
            all == text::lines_of(reply@),
            last_receipt(all) == last_receipt(all.take(i as int)),
        decreases i,
    {
        assert(all.take(i as int).last() == lines@[i - 1]@);
        assert(all.take(i as int).drop_last() =~= all.take(i - 1));
        let t = text::trim(lines[i - 1].as_str());
        let bare = text::trim_start_any(t, bullets.as_slice());
        if !t.is_empty() && !text::starts_with_ignoring_case(bare, "TITLE:") {
            return Some(text::trim(bare).to_owned());
        }
        i -= 1;
    }
    None
}

/// At most `max` characters, the last of them an ellipsis where it was cut.
pub open spec fn capped(line: Seq<char>, max: int) -> Seq<char> {
    if line.len() > max {
        line.take(max - 1).push('…')
    } else {
        line
    }
}

/// A line of at most `max` characters, with an ellipsis where it was cut.
pub fn cap(line: &str, max: usize) -> (r: String)
    requires
        max >= 1 || line@.len() == 0,
    ensures
        r@ == capped(line@, max as int),
        r@.len() <= max,
{
    if line.unicode_len() > max {
        let mut s = text::take_chars(line, max - 1).to_owned();
        s.push('…');
        s
    } else {
        line.to_owned()
    }
}

/// The summary that a reply gives.
pub open spec fn summary_of(reply: Seq<char>) -> Seq<char> {
    let lines = text::lines_of(reply);
    let found = match first_marked(lines, "SUMMARY:"@) {
        Some(v) => Some(v),
        None => last_receipt(lines),
    };
    capped(
        match found {
            Some(v) => if v.len() == 0 {
                "Meeting distilled."@
            } else {
                v
            },
            None => "Meeting distilled."@,
        },
        240,
    )
}

/// The title that a reply suggests, if it is a name and not the one there is.
pub open spec fn title_of(reply: Seq<char>, current: Seq<char>) -> Option<Seq<char>> {
    match first_marked(text::lines_of(reply), "TITLE:"@) {
        Some(raw) => {
            let clean = meeting_note::clean_title(raw);
            if clean != meeting_note::DEFAULT_TITLE@ && text::ascii_lower(clean)
                != text::ascii_lower(meeting_note::clean_title(current)) {
                Some(capped(clean, 120))
            } else {
                None
            }
        },
        None => None,
    }
}

/// The summary and the suggested title in a reply. Without a summary line, the
/// last line is the summary; a title that is no name, or the one the meeting
/// has, is not suggested.
pub fn parse_receipt(reply: &str, current_title: &str) -> (r: (String, Option<String>))
    ensures
        r.0@ == summary_of(reply@),
        text::opt_text(r.1) == title_of(reply@, current_title@),
{
    let found = match marker_value(reply, "SUMMARY:") {
        Some(v) => Some(v),
        None => last_receipt_line(reply),
    };
    let summary = match found {
        Some(v) => if v.as_str().is_empty() {
            "Meeting distilled.".to_owned()
        } else {
            v
        },
        None => "Meeting distilled.".to_owned(),
    };
    let suggested = match marker_value(reply, "TITLE:") {
        Some(raw) => {
            let clean = meeting_note::sanitize_title(raw.as_str());
            let current = meeting_note::sanitize_title(current_title);
            if !text::same(clean.as_str(), meeting_note::DEFAULT_TITLE)
                && !text::same_ignoring_case(clean.as_str(), current.as_str()) {
                Some(cap(clean.as_str(), 120))
            } else {
                None
            }
        },
        None => None,
    };
    (cap(summary.as_str(), 240), suggested)
}

/// The beginning of a reply that declines.
pub open spec fn declines(head: Seq<char>) -> bool {
    ||| text::has_text(head, "i'm sorry"@)
    ||| text::has_text(head, "i am sorry"@)
    ||| text::has_text(head, "i apologize"@)
    ||| text::has_text(head, "i apologise"@)
    ||| text::has_text(head, "i cannot assist"@)
    ||| text::has_text(head, "i can't assist"@)
    ||| text::has_text(head, "i cannot help"@)
    ||| text::has_text(head, "i can't help"@)
    ||| text::has_text(head, "i cannot fulfill"@)
    ||| text::has_text(head, "i can't fulfill"@)
    ||| text::has_text(head, "i cannot comply"@)
    ||| text::has_text(head, "i can't comply"@)
    ||| text::has_text(head, "unable to assist"@)
    ||| text::has_text(head, "unable to help"@)
    ||| text::has_text(head, "i won't be able to"@)
    ||| text::has_text(head, "i will not be able to"@)
    ||| text::has_text(head, "as an ai"@)
}

/// The reply is a refusal: one of the phrases that models decline with stands
/// in its first 200 characters.
pub open spec fn is_refusal(reply: Seq<char>) -> bool {
    declines(text::lowercase(text::first_chars(text::trimmed(reply), 200)))
}

/// Whether a reply is a refusal and no distillation.
pub fn looks_like_refusal(reply: &str) -> (r: bool)
    ensures
        r == is_refusal(reply@),
{
    let head = text::to_lowercase(text::take_chars(text::trim(reply), 200));
    let h = head.as_str();
    text::contains(h, "i'm sorry")
        || text::contains(h, "i am sorry")
        || text::contains(h, "i apologize")
        || text::contains(h, "i apologise")
        || text::contains(h, "i cannot assist")
        || text::contains(h, "i can't assist")
        || text::contains(h, "i cannot help")
        || text::contains(h, "i can't help")
        || text::contains(h, "i cannot fulfill")
        || text::contains(h, "i can't fulfill")
        || text::contains(h, "i cannot comply")
        || text::contains(h, "i can't comply")
        || text::contains(h, "unable to assist")
        || text::contains(h, "unable to help")
        || text::contains(h, "i won't be able to")
        || text::contains(h, "i will not be able to")
        || text::contains(h, "as an ai")
}

/// No summary can be had from the reply: it has no summary line, and is blank or
/// a refusal.
pub open spec fn no_summary(reply: Seq<char>) -> bool {
    &&& first_marked(text::lines_of(reply), "SUMMARY:"@) is None
    &&& text::trimmed(reply).len() == 0 || is_refusal(reply)
}

/// The receipt that a reply is turned into: its summary and title, or the
/// neutral line where no summary can be had.
pub fn receipt(reply: &str, title: &str) -> (r: (String, Option<String>))
    ensures
        if no_summary(reply@) {
            r.0@ == NEUTRAL_RECEIPT@ && r.1 is None
        } else {
            r.0@ == summary_of(reply@) && text::opt_text(r.1) == title_of(reply@, title@)
        },
{
    let had_marker = marker_value(reply, "SUMMARY:").is_some();
    if !had_marker && (text::trim(reply).is_empty() || looks_like_refusal(reply)) {
        (NEUTRAL_RECEIPT.to_owned(), None)
    } else {
        parse_receipt(reply, title)
    }
}

/// A receipt says something, on at most 240 characters. A suggested title has at
/// most 120 characters; one with fewer, which was not cut, is neither the title the
/// meeting has, in whatever case, nor the title of a meeting without one.
pub proof fn law_receipts_are_short(reply: Seq<char>, current: Seq<char>)
    ensures
        0 < summary_of(reply).len() <= 240,
        title_of(reply, current) matches Some(t) ==> {
            &&& 0 < t.len() <= 120
            &&& t.len() < 120 ==> t != meeting_note::DEFAULT_TITLE@
            &&& t.len() < 120 ==> text::ascii_lower(t) != text::ascii_lower(
                meeting_note::clean_title(current),
            )
        },
{
    reveal_strlit("Meeting distilled.");
    if title_of(reply, current) is Some {
        let raw = first_marked(text::lines_of(reply), "TITLE:"@)->0;
        lemma_clean_title(raw);
    }
}

proof fn lemma_clean_title(raw: Seq<char>)
    ensures
        meeting_note::clean_title(raw).len() > 0,
{
    reveal_strlit("Meeting");
    let w = text::words_of(raw);
    if w.len() > 0 {
        text::lemma_words(raw);
        if w.len() > 1 {
            reveal_strlit(" ");
        }
    }
}

// ---------------------------------------------------------------------------
// The turn
// ---------------------------------------------------------------------------

/// What a meeting's distillation is to run: the message, and on what.
#[derive(Debug, PartialEq, Eq)]
pub struct DistillPlan {
    /// What the turn is called in the log.
    pub what: String,
    pub message: String,
    pub injected_context: Option<String>,
    pub engine: Engine,
    pub model: String,
}

/// Plans the distillation of a meeting that has ended. There is nothing to do
/// where nothing was said.
pub fn distill_meeting(
    note_rel: &str,
    title: &str,
    attendees: &Vec<String>,
    windows: &Vec<String>,
    suggestions: &Vec<(String, String)>,
    cfg: &AppConfig,
    brand: &Brand,
) -> (r: Option<DistillPlan>)
    ensures
        match r {
            None => windows@.len() == 0,
            Some(p) => {
                &&& windows@.len() > 0
                &&& p.message@ == message_text(
                    title@,
                    note_rel@,
                    text::texts(attendees@),
                    unresolved_in(text::texts(attendees@), suggestions@),
                )
                &&& text::opt_text(p.injected_context) == grounding(
                    text::texts(windows@),
                    DISTILL_GROUNDING_BUDGET as int,
                )
                &&& p.what@ == "Meeting distillation — "@ + title@
                &&& p.engine == settings::configured_engine(*cfg)
                &&& p.model@ == settings::configured_model(*cfg, *brand)
            },
        },
{
    if windows.len() == 0 {
        return None;
    }
    let unresolved = unresolved_voices(attendees, suggestions);
    let mut what = String::from_str("Meeting distillation — ");
    what.append(title);
    Some(
        DistillPlan {
            what,
            message: distillation_message(title, note_rel, attendees, &unresolved),
            injected_context: grounding_from_windows(windows, DISTILL_GROUNDING_BUDGET),
            engine: settings::engine_of(cfg),
            model: settings::model_of(cfg, brand),
        },
    )
}

/// The turn that runs the plan, once its message has an id. It has no history,
/// and nobody can interrupt it.
pub fn distill_turn(
    plan: &DistillPlan,
    formation_root: &str,
    source_chat_id: &str,
    conversation_id: &str,
    endpoint: Option<String>,
    cfg: &AppConfig,
) -> (r: TurnRequest)
    ensures
        r.message@ == plan.message@,
        r.history@.len() == 0,
        r.formation_root@ == formation_root@,
        r.source_chat_id@ == source_chat_id@,
        r.embedding_provider@ == embedding::provider_text(
            embedding::provider_named(text::opt_text(cfg.embedding_provider)),
        ),
        r.ollama_url == endpoint,
        text::opt_text(r.injected_context) == text::opt_text(plan.injected_context),
        r.tone@ == agent_tone::tone_text(agent_tone::tone_named(text::opt_text(cfg.agent_tone))),
        r.conversation_id@ == conversation_id@,
{
    TurnRequest {
        message: plan.message.clone(),
        history: Vec::new(),
        formation_root: formation_root.to_owned(),
        source_chat_id: source_chat_id.to_owned(),
        embedding_provider: settings::get_embedding_provider(cfg),
        ollama_url: endpoint,
        injected_context: settings::copy_choice(&plan.injected_context),
        tone: settings::get_agent_tone(cfg),
        cancel: cancel::new_token(),
        conversation_id: conversation_id.to_owned(),
    }
}

/// What a finished distillation hands back.
pub fn distilled(reply: &str, title: &str, turn_id: &str) -> (r: DistillResult)
    ensures
        r.turn_id@ == turn_id@,
        if no_summary(reply@) {
            r.summary@ == NEUTRAL_RECEIPT@ && r.suggested_title is None
        } else {
            r.summary@ == summary_of(reply@) && text::opt_text(r.suggested_title) == title_of(
                reply@,
                title@,
            )
        },
{
    let (summary, suggested_title) = receipt(reply, title);
    DistillResult { summary, turn_id: turn_id.to_owned(), suggested_title }
}

/// A voice is guessed to be whom the first guess for its label says, and nobody where
/// there is no guess for it.
pub proof fn law_first_guesses_count(suggestions: Seq<(String, String)>, label: Seq<char>)
    ensures
        match guess_for(suggestions, label) {
            Some(name) => exists|i: int|
                0 <= i < suggestions.len() && (#[trigger] suggestions[i]).0@ == label
                    && suggestions[i].1@ == name && forall|j: int|
                    0 <= j < i ==> (#[trigger] suggestions[j]).0@ != label,
            None => forall|j: int|
                0 <= j < suggestions.len() ==> (#[trigger] suggestions[j]).0@ != label,
        },
    decreases suggestions.len(),
{
    if suggestions.len() > 0 && suggestions[0].0@ != label {
        let rest = suggestions.drop_first();
        law_first_guesses_count(rest, label);
        if guess_for(suggestions, label) is Some {
            let name = guess_for(suggestions, label)->0;
            let i = choose|i: int|
                0 <= i < rest.len() && (#[trigger] rest[i]).0@ == label && rest[i].1@ == name
                    && forall|j: int| 0 <= j < i ==> (#[trigger] rest[j]).0@ != label;
            assert(suggestions[i + 1] == rest[i]);
            assert forall|j: int| 0 <= j < i + 1 implies (#[trigger] suggestions[j]).0@ != label by {
                if j > 0 {
                    assert(suggestions[j] == rest[j - 1]);
                }
            }
        } else {
            assert forall|j: int| 0 <= j < suggestions.len() implies (
            #[trigger] suggestions[j]).0@ != label by {
                if j > 0 {
                    assert(suggestions[j] == rest[j - 1]);
                }
            }
        }
    }
}

/// The voices to ask for are just the attendees that nobody has named, in their order.
pub proof fn law_unnamed_voices_are_asked_for(
    attendees: Seq<Seq<char>>,
    a: Seq<char>,
    suggestions: Seq<(String, String)>,
)
    ensures
        ({
            let before = unresolved_in(attendees, suggestions);
            let after = unresolved_in(attendees.push(a), suggestions);
            if text::begins(a, session::UNKNOWN_SPEAKER@) {
                after == before.push((a, guess_for(suggestions, a)))
            } else {
                after == before
            }
        }),
        unresolved_in(Seq::empty(), suggestions).len() == 0,
{
    assert(attendees.push(a).drop_last() =~= attendees);
}

/// A guess is offered as a guess, and only where there is one; a voice is always named by
/// its own label.
pub proof fn law_guesses_are_offered(label: Seq<char>, name: Seq<char>)
    ensures
        voice_phrase((label, None)) == "\""@ + label + "\""@,
        voice_phrase((label, Some(name))) == voice_phrase((label, None)) + " (possibly "@ + name
            + ")"@,
{
    reveal_strlit("\" (possibly ");
    reveal_strlit("\"");
    reveal_strlit(" (possibly ");
    assert("\" (possibly "@ =~= "\""@ + " (possibly "@);
    assert(voice_phrase((label, Some(name))) =~= voice_phrase((label, None)) + " (possibly "@ + name
        + ")"@);
}

/// The transcript is told from its beginning: as many whole windows as fit, in their
/// order, and where one is left out the next would not have fitted.
pub proof fn law_transcript_is_told_from_the_start(windows: Seq<Seq<char>>, budget: int)
    ensures
        ({
            let n = windows_taken(windows, text::bytes_of(GROUNDING_HEADER@) as int, budget) as int;
            &&& 0 <= n <= windows.len()
            &&& n == 0 ==> grounding(windows, budget) is None
            &&& n > 0 ==> grounding(windows, budget) == Some(
                GROUNDING_HEADER@ + windows_text(windows.take(n)),
            )
            &&& n < windows.len() ==> text::bytes_of(GROUNDING_HEADER@) + text::bytes_of(
                windows_text(windows.take(n + 1)),
            ) > budget
        }),
{
    lemma_windows_taken(windows, text::bytes_of(GROUNDING_HEADER@) as int, budget);
    lemma_next_too_long(windows, text::bytes_of(GROUNDING_HEADER@) as int, budget);
}

proof fn lemma_next_too_long(windows: Seq<Seq<char>>, used: int, budget: int)
    ensures
        ({
            let n = windows_taken(windows, used, budget) as int;
            n < windows.len() ==> used + text::bytes_of(windows_text(windows.take(n + 1))) > budget
        }),
    decreases windows.len(),
{
    if windows.len() > 0 {
        lemma_windows_taken(windows, used, budget);
        let n = windows_taken(windows, used, budget) as int;
        if n < windows.len() {
            let w = windows.take(n + 1);
            lemma_windows_text_first(w);
            lemma_line_bytes(windows[0]);
            text::lemma_bytes_concat(windows[0].push('\n'), windows_text(w.drop_first()));
            let next = used + text::bytes_of(windows[0]) + 1;
            if next <= budget {
                lemma_next_too_long(windows.drop_first(), next, budget);
                assert(w.drop_first() =~= windows.drop_first().take(n));
            }
        }
    }
}

/// The windows follow one another, a line each.
pub proof fn law_windows_follow_one_another(windows: Seq<Seq<char>>, w: Seq<char>)
    ensures
        windows_text(windows.push(w)) == windows_text(windows) + w + seq!['\n'],
        windows_text(Seq::empty()).len() == 0,
{
    assert(windows.push(w).drop_last() =~= windows);
    assert(windows_text(windows.push(w)) =~= windows_text(windows) + w + seq!['\n']);
}

/// What a line says behind its marker is read in spite of bullets before the line, white
/// space around the value and the case of the marker.
pub proof fn law_marked_values_are_read(
    marks: Seq<char>,
    marker: Seq<char>,
    gap: Seq<char>,
    value: Seq<char>,
    end: Seq<char>,
)
    requires
        forall|i: int| 0 <= i < marks.len() ==> bullets().contains(#[trigger] marks[i]),
        marker.len() > 0,
        !bullets().contains(marker[0]),
        !text::is_space(marker[0]),
        text::blank(gap),
        text::blank(end),
        value.len() > 0,
        !text::is_space(value[0]) && !text::is_space(value.last()),
        !quotes().contains(value[0]) && !quotes().contains(value.last()),
    ensures
        marked(marks + (marker + gap + value + end), marker) == Some(value),
{
    let l = marker + gap + value;
    let line = marker + gap + value + end;
    let none = Seq::<char>::empty();
    assert(line[0] == marker[0]);
    text::law_marks_are_taken_off(marks, line, bullets());
    assert(text::trimmed_start_any(marks + line, bullets()) == line);
    assert(line =~= none + l + end);
    assert(l[0] == marker[0] && l.last() == value.last());
    text::law_trimming_takes_the_space_around(none, l, end);
    assert(l.take(marker.len() as int) =~= marker);
    assert(l.skip(marker.len() as int) =~= gap + value + none);
    text::law_trimming_takes_the_space_around(gap, value, none);
    text::law_marks_are_taken_off(none, value, quotes());
    assert(none + value =~= value);
    assert(value + none =~= value);
    assert(none + value + none =~= value);
    text::law_trimming_takes_the_space_around(none, value, none);
}

/// The first line with the marker counts, whatever lines without it stand before and
/// whatever lines stand behind.
pub proof fn law_first_marked_line_counts(
    before: Seq<Seq<char>>,
    line: Seq<char>,
    after: Seq<Seq<char>>,
    marker: Seq<char>,
)
    requires
        forall|i: int| 0 <= i < before.len() ==> marked(#[trigger] before[i], marker) is None,
        marked(line, marker) is Some,
    ensures
        first_marked(before + seq![line] + after, marker) == (if marked(line, marker)->0.len() > 0 {
            marked(line, marker)
        } else {
            None
        }),
        first_marked(before, marker) is None,
    decreases before.len(),
{
    let all = before + seq![line] + after;
    if before.len() == 0 {
        assert(all[0] == line);
    } else {
        let rest = before.drop_first();
        assert(marked(before[0], marker) is None);
        assert(all[0] == before[0]);
        assert(all.drop_first() =~= rest + seq![line] + after);
        assert forall|i: int| 0 <= i < rest.len() implies marked(
            #[trigger] rest[i],
            marker,
        ) is None by {
            assert(marked(before[i + 1], marker) is None);
        }
        law_first_marked_line_counts(rest, line, after, marker);
    }
}

/// Without a summary line the last line that is not blank and no title is the receipt,
/// whatever stands before it.
pub proof fn law_last_line_is_the_receipt(
    before: Seq<Seq<char>>,
    line: Seq<char>,
    after: Seq<Seq<char>>,
)
    requires
        receipt_line(line),
        forall|i: int| 0 <= i < after.len() ==> !receipt_line(#[trigger] after[i]),
    ensures
        last_receipt(before + seq![line] + after) == Some(
            text::trimmed(text::trimmed_start_any(text::trimmed(line), bullets())),
        ),
    decreases after.len(),
{
    let all = before + seq![line] + after;
    if after.len() == 0 {
        assert(all.last() == line);
    } else {
        assert(!receipt_line(after[after.len() - 1]));
        assert(all.last() == after[after.len() - 1]);
        assert(all.drop_last() =~= before + seq![line] + after.drop_last());
        assert forall|i: int| 0 <= i < after.drop_last().len() implies !receipt_line(
            #[trigger] after.drop_last()[i],
        ) by {
            assert(!receipt_line(after[i]));
        }
        law_last_line_is_the_receipt(before, line, after.drop_last());
    }
}

/// A summary line is the summary, all of it up to the limit; only without one is another
/// line.
pub proof fn law_summary_line_is_the_summary(reply: Seq<char>)
    ensures
        ({
            let lines = text::lines_of(reply);
            let marked = first_marked(lines, "SUMMARY:"@);
            let s = summary_of(reply);
            &&& marked matches Some(v) ==> (v.len() <= 240 ==> s == v) && (v.len() > 240 ==> s
                == v.take(239).push('…'))
            &&& marked is None ==> (last_receipt(lines) matches Some(v) ==> (0 < v.len() <= 240
                ==> s == v))
            &&& marked is None && last_receipt(lines) is None ==> s == "Meeting distilled."@
        }),
        !no_summary(reply) || first_marked(text::lines_of(reply), "SUMMARY:"@) is None,
{
    reveal_strlit("Meeting distilled.");
    lemma_first_marked_speaks(text::lines_of(reply), "SUMMARY:"@);
}

proof fn lemma_first_marked_speaks(lines: Seq<Seq<char>>, marker: Seq<char>)
    ensures
        first_marked(lines, marker) matches Some(v) ==> v.len() > 0,
    decreases lines.len(),
{
    if lines.len() > 0 {
        lemma_first_marked_speaks(lines.drop_first(), marker);
    }
}

/// A title is suggested just where the reply has a title line that names the meeting
/// otherwise than it is named; it is then that name.
pub proof fn law_titles_are_those_of_the_title_line(reply: Seq<char>, current: Seq<char>)
    ensures
        ({
            let raw = first_marked(text::lines_of(reply), "TITLE:"@);
            let t = title_of(reply, current);
            &&& raw is None ==> t is None
            &&& raw matches Some(v) ==> {
                let clean = meeting_note::clean_title(v);
                let same = clean == "Meeting"@ || text::ascii_lower(clean) == text::ascii_lower(
                    meeting_note::clean_title(current),
                );
                &&& same ==> t is None
                &&& !same && clean.len() <= 120 ==> t == Some(clean)
                &&& !same ==> t is Some
            }
        }),
{
}

/// A line serves as a receipt where there is anything on it but white space, unless it is
/// a title line, with or without bullets before it.
pub proof fn law_lines_that_say_something_serve(line: Seq<char>)
    ensures
        text::blank(line) ==> !receipt_line(line),
        !text::blank(line) && text::begins_ignoring_case(
            text::trimmed_start_any(text::trimmed(line), bullets()),
            "TITLE:"@,
        ) ==> !receipt_line(line),
        !text::blank(line) && !text::begins_ignoring_case(
            text::trimmed_start_any(text::trimmed(line), bullets()),
            "TITLE:"@,
        ) ==> receipt_line(line),
{
    text::law_blank_texts_are_trimmed_away(line);
}

/// The attendees are named in their order, with commas between them; only where nobody is
/// known are they just the attendees.
pub proof fn law_attendees_are_named_in_order(attendees: Seq<Seq<char>>, a: Seq<char>)
    ensures
        attendee_list(seq![a]) == a,
        attendees.len() > 0 ==> attendee_list(attendees.push(a)) == attendee_list(attendees) + ", "@
            + a,
        attendee_list(Seq::empty()) == "the attendees"@,
{
    text::law_parts_are_joined_in_order(attendees, a, ", "@);
}

/// A reply with a summary line always gives a summary; without one, a blank reply and a
/// refusal give none, and every other reply does.
pub proof fn law_refusals_give_no_summary(reply: Seq<char>)
    ensures
        first_marked(text::lines_of(reply), "SUMMARY:"@) is Some ==> !no_summary(reply),
        first_marked(text::lines_of(reply), "SUMMARY:"@) is None ==> {
            &&& text::blank(reply) ==> no_summary(reply)
            &&& is_refusal(reply) ==> no_summary(reply)
            &&& !text::blank(reply) && !is_refusal(reply) ==> !no_summary(reply)
        },
{
    text::law_blank_texts_are_trimmed_away(reply);
}

/// A text within the limit stays as it is, and a longer one keeps its beginning and is
/// exactly as long as it may be, with an ellipsis at its end.
pub proof fn law_long_lines_are_cut(line: Seq<char>, max: int)
    requires
        max > 0,
    ensures
        line.len() <= max ==> capped(line, max) == line,
        line.len() > max ==> {
            &&& capped(line, max).len() == max
            &&& capped(line, max).last() == '…'
            &&& text::begins(line, capped(line, max).drop_last())
        },
{
    if line.len() > max {
        assert(capped(line, max).drop_last() =~= line.take(max - 1));
    }
}

/// Voices are asked for where there are any, each by its phrase and in its order; where
/// there are none nothing is asked.
pub proof fn law_each_unnamed_voice_is_asked_for(
    voices: Seq<(Seq<char>, Option<Seq<char>>)>,
    i: int,
)
    ensures
        reconcile_text(Seq::empty()).len() == 0,
        0 <= i < voices.len() ==> text::has_text(reconcile_text(voices), voice_phrase(voices[i])),
{
    if 0 <= i < voices.len() {
        let head = "\n\nSome voices were not identified: "@;
        let tail = ". Before the SUMMARY line, add one short, friendly sentence asking who they were so they can be named — offer your best guess where there is one, but ask, never assert. Do not record Facts attributed to an unidentified voice.\n"@;
        let phrases = voices.map_values(
            |v: (Seq<char>, Option<Seq<char>>)| voice_phrase(v),
        );
        let all = reconcile_text(voices);
        let (a, b) = lemma_joined_holds(phrases, "; "@, i);
        let p = phrases[i];
        let left = head + a;
        let right = b + tail;
        assert(all =~= left + p + right);
        assert(all.subrange(left.len() as int, (left.len() + p.len()) as int) =~= p);
        assert(text::occurs_at(all, p, left.len() as int));
        text::lemma_found_from(all, p, 0);
    }
}

proof fn lemma_joined_holds(parts: Seq<Seq<char>>, sep: Seq<char>, i: int) -> (r: (
    Seq<char>,
    Seq<char>,
))
    requires
        0 <= i < parts.len(),
    ensures
        text::joined(parts, sep) == r.0 + parts[i] + r.1,
    decreases parts.len(),
{
    let e = Seq::<char>::empty();
    if parts.len() == 1 {
        assert(e + parts[0] + e =~= parts[0]);
        (e, e)
    } else if i == parts.len() - 1 {
        let a = text::joined(parts.drop_last(), sep) + sep;
        assert(a + parts[i] + e =~= a + parts[i]);
        (a, e)
    } else {
        let (a, b) = lemma_joined_holds(parts.drop_last(), sep, i);
        let c = b + sep + parts.last();
        assert(a + parts[i] + b + sep + parts.last() =~= a + parts[i] + c);
        (a, c)
    }
}

/// The transcript is pushed just where one of its windows fits, behind the header.
pub proof fn law_transcript_is_pushed_where_it_fits(windows: Seq<Seq<char>>, budget: int)
    ensures
        ({
            let n = windows_taken(
                windows,
                text::bytes_of(GROUNDING_HEADER@) as int,
                budget,
            ) as int;
            &&& n == 0 <==> grounding(windows, budget) is None
            &&& grounding(windows, budget) matches Some(g) ==> text::without_prefix(
                g,
                GROUNDING_HEADER@,
            ) == Some(windows_text(windows.take(n)))
        }),
{
    let n = windows_taken(windows, text::bytes_of(GROUNDING_HEADER@) as int, budget) as int;
    text::law_what_is_taken_off_comes_back(GROUNDING_HEADER@, windows_text(windows.take(n)));
}

/// Only the beginning of a reply, its first 200 characters, can make it a refusal.
pub proof fn law_only_the_beginning_refuses(reply: Seq<char>, more: Seq<char>)
    requires
        reply.len() == 200,
        !text::is_space(reply[0]),
        !text::is_space(reply.last()),
        more.len() > 0,
        !text::is_space(more.last()),
    ensures
        is_refusal(reply + more) == is_refusal(reply),
        is_refusal(reply) == declines(text::lowercase(reply)),
{
    let none = Seq::<char>::empty();
    let s = reply + more;
    assert(s[0] == reply[0]);
    assert(s.last() == more.last());
    text::law_trimming_takes_the_space_around(none, reply, none);
    text::law_trimming_takes_the_space_around(none, s, none);
    assert(none + reply + none =~= reply);
    assert(none + s + none =~= s);
    assert(s.take(200) =~= reply);
}

} // verus!
