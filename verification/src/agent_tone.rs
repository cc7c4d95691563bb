//! The agent's tone of voice: a parameter of the one behaviour prompt.
//!
//! The prompt ends with a `## Tone` section; choosing a tone swaps that section
//! and leaves everything before it as it is.
use vstd::prelude::*;
use crate::text;

verus! {

broadcast use vstd::string::group_string_axioms;

/// The heading of the section that a tone replaces.
pub const TONE_MARKER: &'static str = "## Tone";

/// The body of the section for a calm and economical voice.
pub const STOIC_BODY: &'static str = "A spare, exacting editor. Say what you recorded and stop — no preamble, no\nreassurance, no exclamation points. Short declarative sentences. A confirmation\nis a clause, not a paragraph: \"Noted — moved the vendor call to Thursday.\"\nYou are not cold, only economical; the steadiness is the warmth. Ask the single\nquestion that would change what you record, or ask nothing. Never trade accuracy\nfor brevity — one more sharp question beats a half-true note.\n";

/// The body of the section for a plainspoken, friendly voice.
pub const WARM_BODY: &'static str = "A sharp friend who actually keeps your notes — warm, unhurried, plainspoken.\nWhen someone tells you something good, you are glad, and you let a word of it\nshow — never a speech. Contractions and plain language; skip corporate cheer and\nexclamation-point enthusiasm. Reflect back what you heard, connect it to what you\nalready know, and gently sharpen it: \"Oh, nice — that's a big one off your\nplate. Want me to close the vendor loop too?\" When something is unclear, ask the\nway a curious friend would, not like a form. Warmth never costs accuracy; when\nyou are unsure, you ask.\n";

/// The body of the section for a dry, knowing voice.
pub const SASSY_BODY: &'static str = "A quick, dry thinking partner who is genuinely good company. You have opinions\nand the nerve to voice them, and you will tease when it is earned — a\nraised-eyebrow callback when they tell you something they already told you last\nweek: \"Third time this vendor's 'finalizing the quote.' Noted — want a nudge set\nfor Friday?\" But you read the room: when it is serious or they are stressed, the\nwit steps aside without being asked. One beat of levity per reply at most, and it\nalways yields to the actual answer or the question that matters. The snark is how\nyou say things, never what you record or how carefully you record it.\n";

/// The agent's personality. `Warm` is the default.
#[derive(Clone, Copy, Debug, PartialEq, Eq, Structural)]
pub enum AgentTone {
    /// Calm and economical, a steady editor's voice.
    Stoic,
    /// A plainspoken friend who keeps your notes.
    Warm,
    /// Good company with a dry, knowing edge.
    Sassy,
}

impl Default for AgentTone {
    fn default() -> (r: AgentTone)
        ensures
            r is Warm,
    {
        AgentTone::Warm
    }
}

/// The tone that a config string names, white space aside; `Warm` for none and
/// for any other.
pub open spec fn tone_named(raw: Option<Seq<char>>) -> AgentTone {
    match raw {
        Some(s) => if text::trimmed(s) == "stoic"@ {
            AgentTone::Stoic
        } else if text::trimmed(s) == "sassy"@ {
            AgentTone::Sassy
        } else {
            AgentTone::Warm
        },
        None => AgentTone::Warm,
    }
}

/// The config string of a tone.
pub open spec fn tone_text(tone: AgentTone) -> Seq<char> {
    match tone {
        AgentTone::Stoic => "stoic"@,
        AgentTone::Warm => "warm"@,
        AgentTone::Sassy => "sassy"@,
    }
}

/// The `## Tone` section of a tone.
pub open spec fn tone_section_text(tone: AgentTone) -> Seq<char> {
    let body = match tone {
        AgentTone::Stoic => STOIC_BODY@,
        AgentTone::Warm => WARM_BODY@,
        AgentTone::Sassy => SASSY_BODY@,
    };
    TONE_MARKER@ + "\n\n"@ + body
}

impl AgentTone {
    /// Reads the config string. `None`, an empty string and anything that is
    /// no tone give `Warm`.
    pub fn from_config(raw: Option<&str>) -> (r: AgentTone)
        ensures
            r == tone_named(text::opt_str(raw)),
    {
        match raw {
            Some(s) => {
                let t = text::trim(s);
                if text::same(t, "stoic") {
                    AgentTone::Stoic
                } else if text::same(t, "sassy") {
                    AgentTone::Sassy
                } else {
                    AgentTone::Warm
                }
            },
            None => AgentTone::Warm,
        }
    }

    /// The string that is kept in the configuration.
    pub fn as_str(&self) -> (r: &'static str)
        ensures
            r@ == tone_text(*self),
    {
        match self {
            AgentTone::Stoic => "stoic",
            AgentTone::Warm => "warm",
            AgentTone::Sassy => "sassy",
        }
    }

    /// The whole `## Tone` section. Every tone keeps the mandate to sharpen
    /// rather than transcribe; only the personality differs.
    pub fn tone_section(&self) -> (r: String)
        ensures
            r@ == tone_section_text(*self),
    {
        let body = match self {
            AgentTone::Stoic => STOIC_BODY,
            AgentTone::Warm => WARM_BODY,
            AgentTone::Sassy => SASSY_BODY,
        };
        let mut s = TONE_MARKER.to_owned();
        s.append("\n\n");
        s.append(body);
        s
    }
}

/// The part of a prompt that a tone leaves alone: what stands before the first
/// `## Tone`, or all of it, without the white space at its end.
pub open spec fn prompt_head(base: Seq<char>) -> Seq<char> {
    match text::found(base, TONE_MARKER@) {
        Some(i) => text::trimmed_end(base.take(i)),
        None => text::trimmed_end(base),
    }
}

/// The prompt in a tone.
pub open spec fn rendered(base: Seq<char>, tone: AgentTone) -> Seq<char> {
    prompt_head(base) + "\n\n"@ + tone_section_text(tone)
}

/// The behaviour prompt in the chosen tone: its `## Tone` section, the last
/// one, is replaced, or added where there is none.
pub fn render_system_prompt(base: &str, tone: AgentTone) -> (r: String)
    ensures
        r@ == rendered(base@, tone),
{
    let head = match text::find(base, TONE_MARKER) {
        Some(i) => {
            assert(base@.subrange(0, i as int) =~= base@.take(i as int));
            text::trim_end(base.substring_char(0, i))
        },
        None => text::trim_end(base),
    };
    let mut out = head.to_owned();
    out.append("\n\n");
    out.append(tone.tone_section().as_str());
    out
}

// ---------------------------------------------------------------------------
// Laws
// ---------------------------------------------------------------------------

/// A tone's config string names that tone.
pub proof fn law_tone_round_trip(tone: AgentTone)
    ensures
        tone_named(Some(tone_text(tone))) == tone,
{
    reveal_strlit("stoic");
    reveal_strlit("warm");
    reveal_strlit("sassy");
    lemma_no_space_trim(tone_text(tone));
    assert("warm"@.len() != "stoic"@.len());
    assert("sassy"@[1] != "stoic"@[1]);
}

proof fn lemma_no_space_trim(s: Seq<char>)
    requires
        s.len() > 0,
        !text::is_space(s[0]),
        !text::is_space(s.last()),
    ensures
        text::trimmed(s) == s,
{
}

/// Every tone's section begins with the marker.
proof fn lemma_section_begins(tone: AgentTone)
    ensures
        text::occurs_at(tone_section_text(tone), TONE_MARKER@, 0),
        tone_section_text(tone)[0] == '#',
{
    reveal_strlit("## Tone");
    assert(tone_section_text(tone).subrange(0, 7) =~= TONE_MARKER@);
}

/// The first `n` characters of `s` hold no `c`.
spec fn free_up_to(s: Seq<char>, c: char, n: int) -> bool
    decreases n,
{
    n <= 0 || (s[n - 1] != c && free_up_to(s, c, n - 1))
}

proof fn lemma_free_up_to(s: Seq<char>, c: char, n: int, i: int)
    requires
        free_up_to(s, c, n),
        0 <= i < n,
    ensures
        s[i] != c,
    decreases n,
{
    if i < n - 1 {
        lemma_free_up_to(s, c, n - 1, i);
    }
}

proof fn lemma_stoic_is_plain()
    ensures
        free_up_to(STOIC_BODY@, '#', STOIC_BODY@.len() as int),
{
    reveal_strlit(
        "A spare, exacting editor. Say what you recorded and stop — no preamble, no\nreassurance, no exclamation points. Short declarative sentences. A confirmation\nis a clause, not a paragraph: \"Noted — moved the vendor call to Thursday.\"\nYou are not cold, only economical; the steadiness is the warmth. Ask the single\nquestion that would change what you record, or ask nothing. Never trade accuracy\nfor brevity — one more sharp question beats a half-true note.\n",
    );
    let s = STOIC_BODY@;
    assert(s.len() == 453);
    reveal_with_fuel(free_up_to, 26);
    assert(free_up_to(s, '#', 25));
    assert(free_up_to(s, '#', 50));
    assert(free_up_to(s, '#', 75));
    assert(free_up_to(s, '#', 100));
    assert(free_up_to(s, '#', 125));
    assert(free_up_to(s, '#', 150));
    assert(free_up_to(s, '#', 175));
    assert(free_up_to(s, '#', 200));
    assert(free_up_to(s, '#', 225));
    assert(free_up_to(s, '#', 250));
    assert(free_up_to(s, '#', 275));
    assert(free_up_to(s, '#', 300));
    assert(free_up_to(s, '#', 325));
    assert(free_up_to(s, '#', 350));
    assert(free_up_to(s, '#', 375));
    assert(free_up_to(s, '#', 400));
    assert(free_up_to(s, '#', 425));
    assert(free_up_to(s, '#', 450));
}

proof fn lemma_warm_is_plain()
    ensures
        free_up_to(WARM_BODY@, '#', WARM_BODY@.len() as int),
{
    reveal_strlit(
        "A sharp friend who actually keeps your notes — warm, unhurried, plainspoken.\nWhen someone tells you something good, you are glad, and you let a word of it\nshow — never a speech. Contractions and plain language; skip corporate cheer and\nexclamation-point enthusiasm. Reflect back what you heard, connect it to what you\nalready know, and gently sharpen it: \"Oh, nice — that's a big one off your\nplate. Want me to close the vendor loop too?\" When something is unclear, ask the\nway a curious friend would, not like a form. Warmth never costs accuracy; when\nyou are unsure, you ask.\n",
    );
    let s = WARM_BODY@;
    assert(s.len() == 578);
    reveal_with_fuel(free_up_to, 26);
    assert(free_up_to(s, '#', 25));
    assert(free_up_to(s, '#', 50));
    assert(free_up_to(s, '#', 75));
    assert(free_up_to(s, '#', 100));
    assert(free_up_to(s, '#', 125));
    assert(free_up_to(s, '#', 150));
    assert(free_up_to(s, '#', 175));
    assert(free_up_to(s, '#', 200));
    assert(free_up_to(s, '#', 225));
    assert(free_up_to(s, '#', 250));
    assert(free_up_to(s, '#', 275));
    assert(free_up_to(s, '#', 300));
    assert(free_up_to(s, '#', 325));
    assert(free_up_to(s, '#', 350));
    assert(free_up_to(s, '#', 375));
    assert(free_up_to(s, '#', 400));
    assert(free_up_to(s, '#', 425));
    assert(free_up_to(s, '#', 450));
    assert(free_up_to(s, '#', 475));
    assert(free_up_to(s, '#', 500));
    assert(free_up_to(s, '#', 525));
    assert(free_up_to(s, '#', 550));
    assert(free_up_to(s, '#', 575));
}

proof fn lemma_sassy_is_plain()
    ensures
        free_up_to(SASSY_BODY@, '#', SASSY_BODY@.len() as int),
{
    reveal_strlit(
        "A quick, dry thinking partner who is genuinely good company. You have opinions\nand the nerve to voice them, and you will tease when it is earned — a\nraised-eyebrow callback when they tell you something they already told you last\nweek: \"Third time this vendor's 'finalizing the quote.' Noted — want a nudge set\nfor Friday?\" But you read the room: when it is serious or they are stressed, the\nwit steps aside without being asked. One beat of levity per reply at most, and it\nalways yields to the actual answer or the question that matters. The snark is how\nyou say things, never what you record or how carefully you record it.\n",
    );
    let s = SASSY_BODY@;
    assert(s.len() == 625);
    reveal_with_fuel(free_up_to, 26);
    assert(free_up_to(s, '#', 25));
    assert(free_up_to(s, '#', 50));
    assert(free_up_to(s, '#', 75));
    assert(free_up_to(s, '#', 100));
    assert(free_up_to(s, '#', 125));
    assert(free_up_to(s, '#', 150));
    assert(free_up_to(s, '#', 175));
    assert(free_up_to(s, '#', 200));
    assert(free_up_to(s, '#', 225));
    assert(free_up_to(s, '#', 250));
    assert(free_up_to(s, '#', 275));
    assert(free_up_to(s, '#', 300));
    assert(free_up_to(s, '#', 325));
    assert(free_up_to(s, '#', 350));
    assert(free_up_to(s, '#', 375));
    assert(free_up_to(s, '#', 400));
    assert(free_up_to(s, '#', 425));
    assert(free_up_to(s, '#', 450));
    assert(free_up_to(s, '#', 475));
    assert(free_up_to(s, '#', 500));
    assert(free_up_to(s, '#', 525));
    assert(free_up_to(s, '#', 550));
    assert(free_up_to(s, '#', 575));
    assert(free_up_to(s, '#', 600));
}

/// Trimming the end twice is trimming it once.
proof fn lemma_trimmed_end_twice(s: Seq<char>)
    ensures
        text::trimmed_end(text::trimmed_end(s)) == text::trimmed_end(s),
        text::trimmed_end(s).len() <= s.len(),
        text::trimmed_end(s) == s.take(text::trimmed_end(s).len() as int),
    decreases s.len(),
{
    if s.len() > 0 && text::is_space(s.last()) {
        lemma_trimmed_end_twice(s.drop_last());
        let t = text::trimmed_end(s);
        assert(s.drop_last().take(t.len() as int) =~= s.take(t.len() as int));
    } else {
        assert(s.take(s.len() as int) =~= s);
    }
}

/// A rendered prompt holds `## Tone` exactly once: it begins with the prompt's text
/// before the first `## Tone`, all of it where there was none, without the white
/// space at its end; then come a blank line and the heading, and the section runs to
/// the end. The section was replaced, not added to.
pub proof fn law_one_tone_section(base: Seq<char>, tone: AgentTone)
    ensures
        text::begins(
            rendered(base, tone),
            text::trimmed_end(
                match text::found(base, TONE_MARKER@) {
                    Some(i) => base.take(i),
                    None => base,
                },
            ) + "\n\n## Tone\n"@,
        ),
        forall|q: int|
            #[trigger] text::occurs_at(rendered(base, tone), TONE_MARKER@, q) <==> q
                == prompt_head(base).len() + 2,
        text::found(rendered(base, tone), TONE_MARKER@) == Some(
            (prompt_head(base).len() + 2) as int,
        ),
        text::ends(rendered(base, tone), tone_section_text(tone)),
{
    reveal_strlit("\n\n## Tone\n");
    let head = prompt_head(base);
    let out = rendered(base, tone);
    let section = tone_section_text(tone);
    let marker = TONE_MARKER@;
    reveal_strlit("\n\n");
    reveal_strlit("## Tone");
    lemma_section_begins(tone);
    let at = (head.len() + 2) as int;
    assert(out.subrange(at, at + 7) =~= section.subrange(0, 7));
    text::lemma_found_from(base, marker, 0);
    assert forall|q: int| 0 <= q < at implies !#[trigger] text::occurs_at(out, marker, q) by {
        if text::occurs_at(out, marker, q) {
            let w = out.subrange(q, q + 7);
            assert forall|k: int| 0 <= k < 7 implies w[k] == marker[k] && out[q + k] == marker[k] by {}
            // The marker holds no line feed, so it would lie within the head.
            assert(out[head.len() as int] == '\n');
            assert(out[head.len() as int + 1] == '\n');
            if q + 7 > head.len() {
                if q <= head.len() {
                    assert(out[q + (head.len() - q)] == marker[head.len() - q]);
                } else {
                    assert(out[q] == marker[0]);
                }
            }
            let cut = match text::found(base, marker) {
                Some(i) => base.take(i),
                None => base,
            };
            lemma_trimmed_end_twice(cut);
            assert(head =~= base.take(head.len() as int));
            assert(base.subrange(q, q + 7) =~= w);
            assert(text::occurs_at(base, marker, q));
        }
    }
    text::lemma_found_is(out, marker, at);
    assert(out.skip(out.len() - section.len()) =~= section);
    let opening = head + "\n\n## Tone\n"@;
    assert(out.take(opening.len() as int) =~= opening);
    assert forall|q: int| q > at implies !#[trigger] text::occurs_at(out, marker, q) by {
        if text::occurs_at(out, marker, q) {
            lemma_later_is_plain(tone, q - at);
            let w = out.subrange(q, q + 7);
            assert(w[0] == marker[0] && w[1] == marker[1]);
            assert(out[q] == section[q - at]);
            assert(out[q + 1] == section[q - at + 1]);
        }
    }
}

/// Behind its first character, a tone's section holds no two `#` in a row.
proof fn lemma_later_is_plain(tone: AgentTone, i: int)
    requires
        0 < i < tone_section_text(tone).len() - 1,
    ensures
        tone_section_text(tone)[i] != '#' || tone_section_text(tone)[i + 1] != '#',
{
    reveal_strlit("\n\n");
    reveal_strlit("## Tone");
    let body = match tone {
        AgentTone::Stoic => STOIC_BODY@,
        AgentTone::Warm => WARM_BODY@,
        AgentTone::Sassy => SASSY_BODY@,
    };
    let s = tone_section_text(tone);
    if i >= 9 {
        assert(s[i] == body[i - 9]);
        match tone {
            AgentTone::Stoic => {
                lemma_stoic_is_plain();
            },
            AgentTone::Warm => {
                lemma_warm_is_plain();
            },
            AgentTone::Sassy => {
                lemma_sassy_is_plain();
            },
        }
        lemma_free_up_to(body, '#', body.len() as int, i - 9);
    } else if i >= 7 {
        assert(s[i] == "\n\n"@[i - 7]);
    } else {
        assert(s[i] == TONE_MARKER@[i]);
        assert(i < 6 ==> s[i + 1] == TONE_MARKER@[i + 1]);
    }
}

/// Only the last tone counts: rendering a rendered prompt in another tone is
/// rendering the prompt in that tone.
pub proof fn law_last_tone_wins(base: Seq<char>, first: AgentTone, second: AgentTone)
    ensures
        rendered(rendered(base, first), second) == rendered(base, second),
{
    let head = prompt_head(base);
    let out = rendered(base, first);
    law_one_tone_section(base, first);
    reveal_strlit("\n\n");
    let at = (head.len() + 2) as int;
    let cut = out.take(at);
    assert(cut =~= head.push('\n').push('\n'));
    assert(cut.drop_last() =~= head.push('\n'));
    assert(head.push('\n').drop_last() =~= head);
    reveal_with_fuel(text::trimmed_end, 3);
    let base_cut = match text::found(base, TONE_MARKER@) {
        Some(i) => base.take(i),
        None => base,
    };
    lemma_trimmed_end_twice(base_cut);
    assert(text::trimmed_end(cut) == text::trimmed_end(head));
}

/// Each tone has a section of its own: the heading, a blank line and the body of that
/// tone and no other.
pub proof fn law_each_tone_has_its_section()
    ensures
        text::ends(tone_section_text(AgentTone::Stoic), STOIC_BODY@),
        text::ends(tone_section_text(AgentTone::Warm), WARM_BODY@),
        text::ends(tone_section_text(AgentTone::Sassy), SASSY_BODY@),
        forall|t: AgentTone| #[trigger]
            tone_section_text(t).take("## Tone\n\n"@.len() as int) == "## Tone\n\n"@,
{
    reveal_strlit("## Tone");
    reveal_strlit("## Tone\n\n");
    reveal_strlit("\n\n");
    let head = TONE_MARKER@ + "\n\n"@;
    assert(head =~= "## Tone\n\n"@);
    let (a, b, c) = (
        tone_section_text(AgentTone::Stoic),
        tone_section_text(AgentTone::Warm),
        tone_section_text(AgentTone::Sassy),
    );
    assert(a.skip(a.len() - STOIC_BODY@.len()) =~= STOIC_BODY@);
    assert(b.skip(b.len() - WARM_BODY@.len()) =~= WARM_BODY@);
    assert(c.skip(c.len() - SASSY_BODY@.len()) =~= SASSY_BODY@);
    assert forall|t: AgentTone| #[trigger]
        tone_section_text(t).take("## Tone\n\n"@.len() as int) == "## Tone\n\n"@ by {
        assert(tone_section_text(t).take(head.len() as int) =~= head);
    }
}

/// A tone is named by its own word, white space aside; any other word, and none, names
/// the warm one.
pub proof fn law_words_name_their_tone(raw: Seq<char>)
    ensures
        tone_named(Some(raw)) is Stoic <==> text::trimmed(raw) == "stoic"@,
        tone_named(Some(raw)) is Sassy <==> text::trimmed(raw) == "sassy"@,
        tone_named(None) is Warm,
{
    reveal_strlit("stoic");
    reveal_strlit("sassy");
    assert("stoic"@[1] == 't');
    assert("sassy"@[1] == 'a');
}

} // verus!
