//! Daily notes, `Daily Notes/<YYYY-MM-DD>.md`: a `## Checklist` seeded from a
//! template, a `## Did` section that events are appended to, and `## Notes`.
//!
//! Everything here works on the note's text; reading and writing the file is
//! the caller's part.
use vstd::prelude::*;
use crate::datetime::Date;
use crate::datetime;
use crate::diff_gen;
use crate::text;

verus! {

broadcast use vstd::string::group_string_axioms;

/// The folder that holds the daily notes.
pub const DAILY_NOTES_DIR: &'static str = "Daily Notes";

/// The folder that holds the templates the user may edit.
pub const TEMPLATES_DIR: &'static str = "Templates";

/// The daily note's template inside [`TEMPLATES_DIR`].
pub const DAILY_TEMPLATE_FILENAME: &'static str = "Daily.md";

/// The section for what happened.
pub const DID_HEADING: &'static str = "## Did";

/// The section for the recurring items of the template.
pub const CHECKLIST_HEADING: &'static str = "## Checklist";

/// The section for reflections.
pub const NOTES_HEADING: &'static str = "## Notes";

/// The template that is written where the user has none.
pub const DEFAULT_DAILY_TEMPLATE: &'static str = "- [ ] Take vitamins\n- [ ] 30 min reading\n";

/// `Daily Notes/<YYYY-MM-DD>.md`, relative to the formation and with forward
/// slashes on every platform.
pub fn daily_note_relative_path(date: Date) -> (r: String)
    requires
        date.wf(),
    ensures
        r@ == DAILY_NOTES_DIR@ + seq!['/'] + datetime::iso_date(date) + ".md"@,
{
    let mut s = String::from_str(DAILY_NOTES_DIR);
    s.push('/');
    s.append(datetime::format_date(date).as_str());
    s.append(".md");
    s
}

/// `Templates/Daily.md`, relative to the formation.
pub fn daily_template_relative_path() -> (r: String)
    ensures
        r@ == TEMPLATES_DIR@ + seq!['/'] + DAILY_TEMPLATE_FILENAME@,
{
    let mut s = String::from_str(TEMPLATES_DIR);
    s.push('/');
    s.append(DAILY_TEMPLATE_FILENAME);
    s
}

/// A fresh daily note: the checklist, then two empty sections.
pub open spec fn initial_note(template: Seq<char>) -> Seq<char> {
    CHECKLIST_HEADING@ + "\n\n"@ + text::trimmed_end_of(template, '\n') + "\n\n"@ + DID_HEADING@
        + "\n\n"@ + NOTES_HEADING@ + "\n"@
}

/// Frames a template's checklist into a fresh daily note.
pub fn render_initial_daily_note(template_body: &str) -> (r: String)
    ensures
        r@ == initial_note(template_body@),
{
    let mut s = String::from_str(CHECKLIST_HEADING);
    s.append("\n\n");
    s.append(text::trim_end_char(template_body, '\n'));
    s.append("\n\n");
    s.append(DID_HEADING);
    s.append("\n\n");
    s.append(NOTES_HEADING);
    s.append("\n");
    s
}

/// What has to be written so that a daily note exists.
#[derive(Debug, PartialEq, Eq)]
pub enum DailyNotePlan {
    /// The note is there.
    Keep,
    /// Write the note, and before it the template if one is given.
    Seed { template: Option<String>, note: String },
}

/// What is left to do for a daily note to exist, given whether it does and
/// what the template file holds (`None` where there is no such file). A note
/// that exists is never written again, whatever the template has become.
pub fn ensure_daily_note(note_exists: bool, template: Option<&str>) -> (r: DailyNotePlan)
    ensures
        note_exists ==> r is Keep,
        !note_exists ==> match (r, template) {
            (DailyNotePlan::Seed { template: None, note }, Some(t)) => note@ == initial_note(t@),
            (DailyNotePlan::Seed { template: Some(t), note }, None) => t@ == DEFAULT_DAILY_TEMPLATE@
                && note@ == initial_note(DEFAULT_DAILY_TEMPLATE@),
            _ => false,
        },
{
    if note_exists {
        return DailyNotePlan::Keep;
    }
    match template {
        Some(t) => DailyNotePlan::Seed { template: None, note: render_initial_daily_note(t) },
        None => DailyNotePlan::Seed {
            template: Some(DEFAULT_DAILY_TEMPLATE.to_owned()),
            note: render_initial_daily_note(DEFAULT_DAILY_TEMPLATE),
        },
    }
}

// ---------------------------------------------------------------------------
// The `## Did` section
// ---------------------------------------------------------------------------

/// Where a section stands among the lines: its heading, and the next heading
/// or the end.
pub open spec fn section_of(lines: Seq<Seq<char>>, heading: Seq<char>) -> Option<(int, int)> {
    match diff_gen::line_from(lines, heading, 0) {
        Some(h) => Some((h, diff_gen::heading_from(lines, h + 1))),
        None => None,
    }
}

/// Finds a section: the index of its heading and that of the next heading, or
/// of the end. The lines between are the section's.
pub fn find_section(lines: &Vec<String>, heading: &str) -> (r: Option<(usize, usize)>)
    ensures
        match r {
            Some((h, e)) => section_of(text::texts(lines@), heading@) == Some((h as int, e as int))
                && h < e <= lines.len(),
            None => section_of(text::texts(lines@), heading@) is None,
        },
{
    match diff_gen::find_line(lines, heading, 0) {
        Some(h) => {
            let e = diff_gen::find_heading(lines, h + 1);
            Some((h, e))
        },
        None => None,
    }
}

/// The lines without the blank ones they end with.
pub open spec fn without_blank_tail(lines: Seq<Seq<char>>) -> Seq<Seq<char>>
    decreases lines.len(),
{
    if lines.len() > 0 && text::trimmed(lines.last()).len() == 0 {
        without_blank_tail(lines.drop_last())
    } else {
        lines
    }
}

/// How many blank lines there are at the beginning.
pub open spec fn blank_head(lines: Seq<Seq<char>>) -> nat
    decreases lines.len(),
{
    if lines.len() > 0 && text::trimmed(lines[0]).len() == 0 {
        1 + blank_head(lines.drop_first())
    } else {
        0
    }
}

/// The lines without the blank ones around them.
pub open spec fn without_blanks(lines: Seq<Seq<char>>) -> Seq<Seq<char>> {
    without_blank_tail(lines.skip(blank_head(lines) as int))
}

/// The lines as one text, ended by a line feed if `original` was.
pub open spec fn finalized(lines: Seq<Seq<char>>, original: Seq<char>) -> Seq<char> {
    let j = text::joined(lines, seq!['\n']);
    if text::ends(original, seq!['\n']) && !text::ends(j, seq!['\n']) {
        j.push('\n')
    } else {
        j
    }
}

/// The line is the bullet: as it stands, or without the white space at its end.
pub open spec fn is_bullet(line: Seq<char>, bullet: Seq<char>) -> bool {
    line == bullet || text::trimmed_end(line) == bullet
}

/// The first of `lines`, from `i` on, that is the bullet.
pub open spec fn bullet_from(lines: Seq<Seq<char>>, bullet: Seq<char>, i: int) -> Option<int>
    decreases lines.len() - i,
{
    if i >= lines.len() {
        None
    } else if is_bullet(lines[i], bullet) {
        Some(i)
    } else {
        bullet_from(lines, bullet, i + 1)
    }
}

/// The first line from `start` up to `end` that is the bullet.
fn find_bullet(lines: &Vec<String>, bullet: &str, start: usize, end: usize) -> (r: Option<usize>)
    requires
        start <= end <= lines@.len(),
    ensures
        match r {
            Some(p) => bullet_from(
                text::texts(lines@).subrange(start as int, end as int),
                bullet@,
                0,
            ) == Some(p - start) && start <= p < end,
            None => bullet_from(
                text::texts(lines@).subrange(start as int, end as int),
                bullet@,
                0,
            ) is None,
        },
{
    let ghost section = text::texts(lines@).subrange(start as int, end as int);
    let mut i: usize = start;
    while i < end
        invariant
            start <= i <= end <= lines@.len(),
            section == text::texts(lines@).subrange(start as int, end as int),
            bullet_from(section, bullet@, 0) == bullet_from(section, bullet@, i - start),
        decreases end - i,
    {
        let line = lines[i].as_str();
        assert(section[i - start] == line@);
        if text::same(line, bullet) || text::same(text::trim_end(line), bullet) {
            return Some(i);
        }
        i += 1;
    }
    None
}

/// The lines of a note with a bullet appended to its `## Did` section, which is
/// made at the end where there is none. One blank line is left below the heading
/// and one above the next.
pub open spec fn lines_with_bullet(lines: Seq<Seq<char>>, bullet: Seq<char>) -> Seq<Seq<char>> {
    match section_of(lines, DID_HEADING@) {
        Some((h, e)) => {
            let after = if e < lines.len() {
                seq![Seq::<char>::empty()] + lines.skip(e)
            } else {
                Seq::empty()
            };
            lines.take(h + 1) + seq![Seq::<char>::empty()] + without_blanks(
                lines.subrange(h + 1, e),
            ) + seq![bullet] + after
        },
        None => {
            let gap = if lines.len() > 0 && text::trimmed(lines.last()).len() > 0 {
                seq![Seq::<char>::empty()]
            } else {
                Seq::empty()
            };
            lines + gap + seq![DID_HEADING@, Seq::<char>::empty(), bullet]
        },
    }
}

/// The note's `## Did` section holds the bullet.
pub open spec fn did_holds(content: Seq<char>, bullet: Seq<char>) -> bool {
    bullet_place(text::lines_of(content), bullet) is Some
}

/// The place of the first line of the `## Did` section that is the bullet.
pub open spec fn bullet_place(lines: Seq<Seq<char>>, bullet: Seq<char>) -> Option<int> {
    match section_of(lines, DID_HEADING@) {
        Some((h, e)) => match bullet_from(lines.subrange(h + 1, e), bullet, 0) {
            Some(k) => Some(h + 1 + k),
            None => None,
        },
        None => None,
    }
}

/// What appending a bullet makes of a note.
#[derive(Debug, PartialEq, Eq)]
pub enum SpliceOutcome {
    /// The section holds the bullet: there is nothing to write.
    AlreadyPresent,
    /// The note's new text.
    Written(String),
}

/// What removing a bullet makes of a note.
#[derive(Debug, PartialEq, Eq)]
pub enum RemoveOutcome {
    /// The section does not hold the bullet as it was.
    NotFound,
    /// The note's new text.
    Removed(String),
}

/// Joins the lines, and ends the text in a line feed iff `original` did.
pub fn finalize(lines: &Vec<String>, original: &str) -> (r: String)
    ensures
        r@ == finalized(text::texts(lines@), original@),
{
    proof {
        reveal_strlit("\n");
        assert("\n"@ =~= seq!['\n']);
    }
    let mut joined = text::join(lines, "\n");
    if text::ends_with(original, "\n") && !text::ends_with(joined.as_str(), "\n") {
        joined.push('\n');
    }
    joined
}

/// Appends copies of `from[a..b]`.
fn push_lines(out: &mut Vec<String>, from: &Vec<String>, a: usize, b: usize)
    requires
        a <= b <= from@.len(),
    ensures
        text::texts(final(out)@) == text::texts(old(out)@) + text::texts(from@).subrange(
            a as int,
            b as int,
        ),
{
    let ghost start = text::texts(out@);
    let ghost all = text::texts(from@);
    let mut i: usize = a;
    while i < b
        invariant
            a <= i <= b <= from@.len(),
            all == text::texts(from@),
            text::texts(out@) =~= start + all.subrange(a as int, i as int),
        decreases b - i,
    {
        let line = from[i].clone();
        proof {
            text::lemma_texts_push(out@, line);
        }
        out.push(line);
        i += 1;
    }
}

/// Appends one line.
fn push_line(out: &mut Vec<String>, line: String)
    ensures
        text::texts(final(out)@) == text::texts(old(out)@).push(line@),
{
    proof {
        text::lemma_texts_push(out@, line);
    }
    out.push(line);
}

/// Where the lines from `a` up to `b` begin and end once the blank ones around them
/// are left out.
fn unblanked(lines: &Vec<String>, a: usize, b: usize) -> (r: (usize, usize))
    requires
        a <= b <= lines@.len(),
    ensures
        a <= r.0 <= r.1 <= b,
        text::texts(lines@).subrange(r.0 as int, r.1 as int) == without_blanks(
            text::texts(lines@).subrange(a as int, b as int),
        ),
{
    let ghost all = text::texts(lines@);
    let ghost section = all.subrange(a as int, b as int);
    let mut start: usize = a;
    assert(section.skip(0) =~= section);
    while start < b && text::trim(lines[start].as_str()).is_empty()
        invariant
            a <= start <= b <= lines.len(),
            all == text::texts(lines@),
            section == all.subrange(a as int, b as int),
            blank_head(section) == start - a + blank_head(section.skip(start - a)),
        decreases b - start,
    {
        assert(section.skip(start - a)[0] == all[start as int]);
        assert(section.skip(start - a).drop_first() =~= section.skip(start - a + 1));
        start += 1;
    }
    assert(start < b ==> section.skip(start - a)[0] == all[start as int]);
    let ghost inner = all.subrange(start as int, b as int);
    assert(section.skip(blank_head(section) as int) =~= inner);
    let mut end: usize = b;
    assert(inner.take(inner.len() as int) =~= inner);
    while end > start && text::trim(lines[end - 1].as_str()).is_empty()
        invariant
            a <= start <= end <= b <= lines.len(),
            all == text::texts(lines@),
            inner == all.subrange(start as int, b as int),
            without_blank_tail(inner) == without_blank_tail(inner.take(end - start)),
        decreases end,
    {
        assert(inner.take(end - start).last() == all[end - 1]);
        assert(inner.take(end - start).drop_last() =~= inner.take(end - start - 1));
        end -= 1;
    }
    assert(inner.take(end - start) =~= all.subrange(start as int, end as int));
    assert(end > start ==> inner.take(end - start).last() == all[end - 1]);
    (start, end)
}

/// Puts `bullet_line` at the end of the note's `## Did` section, unless that
/// section holds it. A missing section is added at the end of the note.
pub fn splice_did_append(content: &str, bullet_line: &str) -> (r: SpliceOutcome)
    ensures
        match r {
            SpliceOutcome::AlreadyPresent => did_holds(content@, bullet_line@),
            SpliceOutcome::Written(s) => !did_holds(content@, bullet_line@) && s@ == finalized(
                lines_with_bullet(text::lines_of(content@), bullet_line@),
                content@,
            ),
        },
{
    let lines = text::lines(content);
    let ghost all = text::texts(lines@);
    let n: usize = lines.len();
    let mut out: Vec<String> = Vec::new();
    assert(text::texts(out@) =~= Seq::<Seq<char>>::empty());
    match find_section(&lines, DID_HEADING) {
        Some((h, e)) => {
            if find_bullet(&lines, bullet_line, h + 1, e).is_some() {
                return SpliceOutcome::AlreadyPresent;
            }
            let (start, end) = unblanked(&lines, h + 1, e);
            push_lines(&mut out, &lines, 0, h + 1);
            assert(text::texts(out@) =~= all.take(h + 1));
            push_line(&mut out, String::new());
            push_lines(&mut out, &lines, start, end);
            push_line(&mut out, bullet_line.to_owned());
            if e < n {
                push_line(&mut out, String::new());
                push_lines(&mut out, &lines, e, n);
                assert(all.subrange(e as int, n as int) =~= all.skip(e as int));
            }
            assert(text::texts(out@) =~= lines_with_bullet(all, bullet_line@));
        },
        None => {
            push_lines(&mut out, &lines, 0, n);
            assert(text::texts(out@) =~= all);
            if n > 0 && !text::trim(lines[n - 1].as_str()).is_empty() {
                push_line(&mut out, String::new());
            }
            push_line(&mut out, DID_HEADING.to_owned());
            push_line(&mut out, String::new());
            push_line(&mut out, bullet_line.to_owned());
            assert(text::texts(out@) =~= lines_with_bullet(all, bullet_line@));
        },
    }
    SpliceOutcome::Written(finalize(&out, content))
}

/// The note's text without the bullet.
pub open spec fn without_bullet(content: Seq<char>, bullet: Seq<char>) -> Seq<char> {
    let lines = text::lines_of(content);
    finalized(lines.remove(bullet_place(lines, bullet)->0), content)
}

/// Takes one `bullet_line` out of the note's `## Did` section. Only a line that is
/// the bullet, as it stands or without the white space at its end, is ever taken
/// out, and none outside that section.
pub fn splice_did_remove(content: &str, bullet_line: &str) -> (r: RemoveOutcome)
    ensures
        match r {
            RemoveOutcome::NotFound => !did_holds(content@, bullet_line@),
            RemoveOutcome::Removed(s) => did_holds(content@, bullet_line@) && s@ == without_bullet(
                content@,
                bullet_line@,
            ),
        },
{
    let lines = text::lines(content);
    let ghost all = text::texts(lines@);
    match find_section(&lines, DID_HEADING) {
        None => RemoveOutcome::NotFound,
        Some((h, e)) => {
            match find_bullet(&lines, bullet_line, h + 1, e) {
                None => RemoveOutcome::NotFound,
                Some(at) => {
                    let mut out: Vec<String> = Vec::new();
                    assert(text::texts(out@) =~= Seq::<Seq<char>>::empty());
                    push_lines(&mut out, &lines, 0, at);
                    push_lines(&mut out, &lines, at + 1, lines.len());
                    assert(text::texts(out@) =~= all.remove(at as int));
                    RemoveOutcome::Removed(finalize(&out, content))
                },
            }
        },
    }
}

/// What became of a request to take a bullet back.
#[derive(Clone, Copy, Debug, PartialEq, Eq, Structural)]
pub enum RemoveResult {
    /// The bullet stood in `## Did` and is out.
    Removed,
    /// The note is there but the bullet is not, as it was: the user has edited
    /// it, and an edit is never destroyed.
    EditedSinceAppended,
    /// There is no note.
    FileMissing,
}

/// The bullet line of a bullet that may end in line feeds.
pub open spec fn bullet_of(bullet: Seq<char>) -> Seq<char> {
    text::trimmed_end_of(bullet, '\n')
}

/// A note's text with the bullet in its `## Did` section: the text itself where
/// that section holds it.
pub open spec fn with_bullet(content: Seq<char>, bullet: Seq<char>) -> Seq<char> {
    if did_holds(content, bullet) {
        content
    } else {
        finalized(lines_with_bullet(text::lines_of(content), bullet), content)
    }
}

/// Appends a bullet to a note's text: the text to write, or `None` where the
/// section holds the bullet and nothing is to be written.
pub fn append_did_bullet(content: &str, bullet: &str) -> (r: Option<String>)
    ensures
        match r {
            None => did_holds(content@, bullet_of(bullet@)),
            Some(s) => !did_holds(content@, bullet_of(bullet@)) && s@ == with_bullet(
                content@,
                bullet_of(bullet@),
            ),
        },
{
    match splice_did_append(content, text::trim_end_char(bullet, '\n')) {
        SpliceOutcome::AlreadyPresent => None,
        SpliceOutcome::Written(s) => Some(s),
    }
}

/// Takes a bullet back from a note's text (`None` where there is no note):
/// what became of it, and the text to write if it was removed.
pub fn remove_did_bullet(content: Option<&str>, bullet: &str) -> (r: (RemoveResult, Option<String>))
    ensures
        match content {
            None => r.0 is FileMissing && r.1 is None,
            Some(c) => if did_holds(c@, bullet_of(bullet@)) {
                r.0 is Removed && text::opt_text(r.1) == Some(
                    without_bullet(c@, bullet_of(bullet@)),
                )
            } else {
                r.0 is EditedSinceAppended && r.1 is None
            },
        },
{
    match content {
        None => (RemoveResult::FileMissing, None),
        Some(c) => match splice_did_remove(c, text::trim_end_char(bullet, '\n')) {
            RemoveOutcome::NotFound => (RemoveResult::EditedSinceAppended, None),
            RemoveOutcome::Removed(s) => (RemoveResult::Removed, Some(s)),
        },
    }
}

// ---------------------------------------------------------------------------
// Laws
// ---------------------------------------------------------------------------

/// The lines that are left are the first ones.
proof fn lemma_without_blank_tail(lines: Seq<Seq<char>>)
    ensures
        without_blank_tail(lines).len() <= lines.len(),
        forall|k: int|
            0 <= k < without_blank_tail(lines).len() ==> #[trigger] without_blank_tail(lines)[k]
                == lines[k],
    decreases lines.len(),
{
    if lines.len() > 0 && text::trimmed(lines.last()).len() == 0 {
        lemma_without_blank_tail(lines.drop_last());
    }
}

/// The lines below a heading that are kept are lines of that section, in order.
proof fn lemma_without_blanks(lines: Seq<Seq<char>>)
    ensures
        blank_head(lines) + without_blanks(lines).len() <= lines.len(),
        forall|k: int|
            0 <= k < without_blanks(lines).len() ==> #[trigger] without_blanks(lines)[k]
                == lines[blank_head(lines) + k],
{
    lemma_blank_head(lines);
    let inner = lines.skip(blank_head(lines) as int);
    lemma_without_blank_tail(inner);
    assert forall|k: int| 0 <= k < without_blanks(lines).len() implies #[trigger] without_blanks(
        lines,
    )[k] == lines[blank_head(lines) + k] by {
        assert(without_blank_tail(inner)[k] == inner[k]);
    }
}

proof fn lemma_blank_head(lines: Seq<Seq<char>>)
    ensures
        blank_head(lines) <= lines.len(),
        forall|k: int|
            0 <= k < blank_head(lines) ==> text::trimmed(#[trigger] lines[k]).len() == 0,
    decreases lines.len(),
{
    if lines.len() > 0 && text::trimmed(lines[0]).len() == 0 {
        let rest = lines.drop_first();
        lemma_blank_head(rest);
        assert forall|k: int| 0 <= k < blank_head(lines) implies text::trimmed(
            #[trigger] lines[k],
        ).len() == 0 by {
            if k > 0 {
                assert(rest[k - 1] == lines[k]);
            }
        }
    }
}

/// A carriage return at the end is not touched by trimming the start, unless there
/// is nothing but white space.
proof fn lemma_trimmed_start_cr(s: Seq<char>)
    ensures
        text::trimmed_start(text::without_cr(s)) == text::without_cr(text::trimmed_start(s)),
    decreases s.len(),
{
    if s.len() > 0 && s.last() == '\r' {
        let t = s.drop_last();
        if text::is_space(s[0]) {
            lemma_trimmed_start_cr(s.drop_first());
            if s.len() > 1 {
                assert(s.drop_first().last() == '\r');
                assert(t.drop_first() =~= s.drop_first().drop_last());
            } else {
                assert(t =~= Seq::<char>::empty());
                assert(s.drop_first() =~= Seq::<char>::empty());
            }
        } else {
            assert(s.len() > 1);
            assert(t[0] == s[0]);
        }
    } else if s.len() > 0 && text::is_space(s[0]) {
        lemma_trimmed_start_cr(s.drop_first());
        if s.len() > 1 {
            assert(s.drop_first().last() == s.last());
        }
    }
}

/// A carriage return at its end makes no line a heading, nor does it keep one
/// from being one.
proof fn lemma_heading_cr(l: Seq<char>)
    ensures
        diff_gen::heading_line(text::without_cr(l)) == diff_gen::heading_line(l),
{
    lemma_trimmed_start_cr(l);
    let t = text::trimmed_start(l);
    if t.len() > 0 && t.last() == '\r' {
        lemma_hashes_cr(t);
    }
}

proof fn lemma_hashes_cr(t: Seq<char>)
    requires
        t.len() > 0,
        t.last() == '\r',
    ensures
        diff_gen::leading_hashes(t.drop_last()) == diff_gen::leading_hashes(t),
        diff_gen::leading_hashes(t) < t.len(),
    decreases t.len(),
{
    if t[0] == '#' {
        assert(t.len() > 1);
        assert(t.drop_last().drop_first() =~= t.drop_first().drop_last());
        lemma_hashes_cr(t.drop_first());
    }
}

/// What `bullet_from` says of the lines it passes over.
proof fn lemma_bullet_from(lines: Seq<Seq<char>>, bullet: Seq<char>, i: int)
    requires
        0 <= i <= lines.len(),
    ensures
        match bullet_from(lines, bullet, i) {
            Some(n) => i <= n < lines.len() && is_bullet(lines[n], bullet) && (forall|k: int|
                i <= k < n ==> !is_bullet(#[trigger] lines[k], bullet)),
            None => forall|k: int| i <= k < lines.len() ==> !is_bullet(#[trigger] lines[k], bullet),
        },
    decreases lines.len() - i,
{
    if i < lines.len() && !is_bullet(lines[i], bullet) {
        lemma_bullet_from(lines, bullet, i + 1);
    }
}

/// `bullet_from` passes over lines that are not the bullet.
proof fn lemma_bullet_from_skips(lines: Seq<Seq<char>>, bullet: Seq<char>, i: int, n: int)
    requires
        0 <= i <= n < lines.len(),
        forall|k: int| i <= k < n ==> !is_bullet(#[trigger] lines[k], bullet),
        is_bullet(lines[n], bullet),
    ensures
        bullet_from(lines, bullet, i) == Some(n),
    decreases n - i,
{
    if i < n {
        assert(!is_bullet(lines[i], bullet));
        lemma_bullet_from_skips(lines, bullet, i + 1, n);
    }
}

/// The text does not end in a carriage return.
pub open spec fn no_return(s: Seq<char>) -> bool {
    s.len() > 0 ==> s.last() != '\r'
}

/// No line ends in a carriage return of its own.
pub open spec fn steady(lines: Seq<Seq<char>>) -> bool {
    forall|k: int| 0 <= k < lines.len() ==> no_return(#[trigger] lines[k])
}

/// Every line is free of line feeds.
spec fn all_single(lines: Seq<Seq<char>>) -> bool {
    forall|k: int| 0 <= k < lines.len() ==> text::free_of(#[trigger] lines[k], '\n')
}

/// The line, or what is left of it where it is read again.
spec fn read_as(line: Seq<char>, again: Seq<char>) -> bool {
    again == line || again == text::without_cr(line)
}

/// A line that is read again says what it said.
proof fn lemma_read_as(line: Seq<char>, again: Seq<char>)
    requires
        read_as(line, again),
    ensures
        text::trimmed_end(again) == text::trimmed_end(line),
        diff_gen::heading_line(again) == diff_gen::heading_line(line),
        no_return(line) ==> again == line,
        forall|b: Seq<char>|
            no_return(b) && is_bullet(line, b) ==> #[trigger] is_bullet(again, b),
{
    text::lemma_trimmed_end_cr(line);
    lemma_heading_cr(line);
}

/// The lines of a text put together from `out` are `out` again, but for a carriage
/// return at the end of a line; an empty last line may be missing.
proof fn lemma_final_lines(out: Seq<Seq<char>>, original: Seq<char>)
    requires
        out.len() > 0,
        all_single(out),
    ensures
        ({
            let m = text::lines_of(finalized(out, original));
            &&& (m.len() == out.len() || (m.len() == out.len() - 1 && out.last().len() == 0))
            &&& forall|k: int| 0 <= k < m.len() ==> read_as(out[k], #[trigger] m[k])
            &&& steady(out) ==> (m == out || (out.last().len() == 0 && m == out.drop_last()))
        }),
{
    let m = text::lines_of(finalized(out, original));
    text::lemma_lines_of_joined(out);
    text::lemma_lines_of_joined_open(out);
    assert forall|k: int| 0 <= k < m.len() implies read_as(out[k], #[trigger] m[k]) by {
        assert(m[k] == out[k] || m[k] == text::without_cr(out[k]));
    }
    if steady(out) {
        assert forall|k: int| 0 <= k < m.len() implies #[trigger] m[k] == out[k] by {
            assert(no_return(out[k]));
            lemma_read_as(out[k], m[k]);
        }
        if m.len() == out.len() {
            assert(m =~= out);
        } else {
            assert(m =~= out.drop_last());
        }
    }
}

/// The bullet is one line, does not end in a carriage return and is no heading.
pub open spec fn plain_bullet(bullet: Seq<char>) -> bool {
    &&& text::free_of(bullet, '\n')
    &&& no_return(bullet)
    &&& !diff_gen::heading_line(bullet)
}

proof fn lemma_empty_line()
    ensures
        text::free_of(Seq::<char>::empty(), '\n'),
        text::trimmed_end(Seq::<char>::empty()) == Seq::<char>::empty(),
        !diff_gen::heading_line(Seq::<char>::empty()),
        no_return(Seq::<char>::empty()),
{
    let e = Seq::<char>::empty();
    assert(text::trimmed_start(e) == e);
}

proof fn lemma_did_line()
    ensures
        text::free_of(DID_HEADING@, '\n'),
        text::trimmed_end(DID_HEADING@) == DID_HEADING@,
        no_return(DID_HEADING@),
        DID_HEADING@.len() > 0,
{
    reveal_strlit("## Did");
}

/// The lines of a note with an appended bullet are lines.
proof fn lemma_spliced(lines: Seq<Seq<char>>, bullet: Seq<char>)
    requires
        all_single(lines),
        plain_bullet(bullet),
    ensures
        all_single(lines_with_bullet(lines, bullet)),
        steady(lines) ==> steady(lines_with_bullet(lines, bullet)),
{
    let out = lines_with_bullet(lines, bullet);
    let empty = Seq::<char>::empty();
    lemma_empty_line();
    lemma_did_line();
    assert forall|k: int| 0 <= k < out.len() implies text::free_of(#[trigger] out[k], '\n') && (
    steady(lines) ==> no_return(out[k])) by {
        match section_of(lines, DID_HEADING@) {
            Some((h, e)) => {
                diff_gen::lemma_line_from(lines, DID_HEADING@, 0);
                diff_gen::lemma_heading_from(lines, h + 1);
                let section = lines.subrange(h + 1, e);
                let kept = without_blanks(section);
                lemma_without_blanks(section);
                let at = h + 2 + kept.len();
                if k <= h {
                    assert(out[k] == lines[k]);
                } else if k == h + 1 {
                    assert(out[k] == empty);
                } else if k < at {
                    assert(out[k] == kept[k - h - 2]);
                    assert(out[k] == lines[h + 1 + blank_head(section) + k - h - 2]);
                } else if k == at {
                    assert(out[k] == bullet);
                } else if k == at + 1 {
                    assert(out[k] == empty);
                } else {
                    assert(out[k] == lines[e + k - at - 2]);
                }
            },
            None => {
                if k < lines.len() {
                    assert(out[k] == lines[k]);
                }
            },
        }
    }
}

/// A text whose lines hold a `## Did` section with the bullet in it.
proof fn lemma_did_holds(content: Seq<char>, bullet: Seq<char>, h: int, at: int)
    requires
        ({
            let m = text::lines_of(content);
            &&& 0 <= h < at < m.len()
            &&& text::trimmed_end(m[h]) == DID_HEADING@
            &&& is_bullet(m[at], bullet)
            &&& forall|k: int| 0 <= k < h ==> text::trimmed_end(#[trigger] m[k]) != DID_HEADING@
            &&& forall|k: int| h < k <= at ==> !diff_gen::heading_line(#[trigger] m[k])
        }),
    ensures
        did_holds(content, bullet),
{
    let m = text::lines_of(content);
    diff_gen::lemma_line_from_skips(m, DID_HEADING@, 0, h);
    diff_gen::lemma_heading_from(m, h + 1);
    let e = diff_gen::heading_from(m, h + 1);
    assert(e > at) by {
        if e <= at {
            assert(diff_gen::heading_line(m[e]));
        }
    }
    let section = m.subrange(h + 1, e);
    assert(section[at - h - 1] == m[at]);
    lemma_bullet_from(section, bullet, 0);
}

/// What stands where in a note whose `## Did` section got a bullet.
proof fn lemma_spliced_section(content: Seq<char>, bullet: Seq<char>, h: int, e: int)
    requires
        plain_bullet(bullet),
        section_of(text::lines_of(content), DID_HEADING@) == Some((h, e)),
    ensures
        ({
            let lines = text::lines_of(content);
            let out = lines_with_bullet(lines, bullet);
            let m = text::lines_of(finalized(out, content));
            let section = lines.subrange(h + 1, e);
            let kept = without_blanks(section);
            let at = h + 2 + kept.len();
            &&& 0 <= h < e <= lines.len()
            &&& at < m.len() || (at == m.len() && bullet.len() == 0)
            &&& at < out.len()
            &&& out[at] == bullet
            &&& text::trimmed_end(m[h]) == DID_HEADING@
            &&& m[h + 1] == Seq::<char>::empty()
            &&& at < m.len() ==> m[at] == bullet
            &&& forall|k: int| 0 <= k < h ==> text::trimmed_end(#[trigger] m[k]) != DID_HEADING@
            &&& forall|k: int|
                h < k <= at && k < m.len() ==> !diff_gen::heading_line(#[trigger] m[k])
            &&& forall|k: int| h + 1 < k < at ==> read_as(kept[k - h - 2], #[trigger] m[k])
            &&& steady(lines) ==> (m == out || (out.last().len() == 0 && m == out.drop_last()))
        }),
{
    let lines = text::lines_of(content);
    let out = lines_with_bullet(lines, bullet);
    let empty = Seq::<char>::empty();
    text::lemma_lines_free(content);
    diff_gen::lemma_line_from(lines, DID_HEADING@, 0);
    diff_gen::lemma_heading_from(lines, h + 1);
    let section = lines.subrange(h + 1, e);
    let kept = without_blanks(section);
    lemma_without_blanks(section);
    let at = h + 2 + kept.len();
    lemma_empty_line();
    lemma_spliced(lines, bullet);
    assert(out[at] == bullet);
    assert(out[h + 1] == empty);
    assert(out[h] == lines[h]);
    lemma_final_lines(out, content);
    let m = text::lines_of(finalized(out, content));
    assert(m.len() > h + 1);
    assert(read_as(out[h], m[h]) && read_as(out[h + 1], m[h + 1]));
    lemma_read_as(out[h], m[h]);
    lemma_read_as(out[h + 1], m[h + 1]);
    if at < m.len() {
        assert(read_as(out[at], m[at]));
        lemma_read_as(out[at], m[at]);
    }
    assert forall|k: int| 0 <= k < h implies text::trimmed_end(#[trigger] m[k]) != DID_HEADING@ by {
        assert(out[k] == lines[k]);
        lemma_read_as(out[k], m[k]);
    }
    assert forall|k: int| h + 1 < k < at implies read_as(kept[k - h - 2], #[trigger] m[k]) by {
        assert(out[k] == kept[k - h - 2]);
    }
    assert forall|k: int| h < k <= at && k < m.len() implies !diff_gen::heading_line(
        #[trigger] m[k],
    ) by {
        lemma_read_as(out[k], m[k]);
        if h + 1 < k < at {
            assert(out[k] == kept[k - h - 2]);
            assert(out[k] == lines[h + 1 + blank_head(section) + k - h - 2]);
        }
    }
}

/// A bullet that was appended is there: appending it again finds it present,
/// and taking it back finds it. The bullet must be a plain one.
pub proof fn law_appended_bullet_is_there(content: Seq<char>, bullet: Seq<char>)
    requires
        plain_bullet(bullet),
    ensures
        did_holds(
            finalized(lines_with_bullet(text::lines_of(content), bullet), content),
            bullet,
        ),
{
    let lines = text::lines_of(content);
    let s = finalized(lines_with_bullet(lines, bullet), content);
    match section_of(lines, DID_HEADING@) {
        Some((h, e)) => {
            lemma_spliced_section(content, bullet, h, e);
            if bullet.len() > 0 {
                let at = h + 2 + without_blanks(lines.subrange(h + 1, e)).len();
                lemma_did_holds(s, bullet, h, at as int);
            } else {
                assert(bullet =~= Seq::<char>::empty());
                lemma_did_holds(s, bullet, h, h + 1);
            }
        },
        None => {
            let h = lemma_made_section(content, bullet);
            if bullet.len() > 0 {
                lemma_did_holds(s, bullet, h, h + 2);
            } else {
                assert(bullet =~= Seq::<char>::empty());
                lemma_did_holds(s, bullet, h, h + 1);
            }
        },
    }
}

/// What stands where in a note that had no `## Did` section.
proof fn lemma_made_section(content: Seq<char>, bullet: Seq<char>) -> (h: int)
    requires
        plain_bullet(bullet),
        section_of(text::lines_of(content), DID_HEADING@) is None,
    ensures
        ({
            let lines = text::lines_of(content);
            let out = lines_with_bullet(lines, bullet);
            let m = text::lines_of(finalized(out, content));
            &&& h == out.len() - 3
            &&& lines.len() <= h <= lines.len() + 1
            &&& m.len() == out.len() || (m.len() == out.len() - 1 && bullet.len() == 0)
            &&& out[h] == DID_HEADING@
            &&& out[h + 1] == Seq::<char>::empty()
            &&& out[h + 2] == bullet
            &&& text::trimmed_end(m[h]) == DID_HEADING@
            &&& m[h + 1] == Seq::<char>::empty()
            &&& bullet.len() > 0 ==> m[h + 2] == bullet
            &&& forall|k: int| 0 <= k < h ==> text::trimmed_end(#[trigger] m[k]) != DID_HEADING@
            &&& forall|k: int| h < k < m.len() ==> !diff_gen::heading_line(#[trigger] m[k])
            &&& steady(lines) && bullet.len() > 0 ==> m == out
        }),
{
    let lines = text::lines_of(content);
    let out = lines_with_bullet(lines, bullet);
    let m = text::lines_of(finalized(out, content));
    text::lemma_lines_free(content);
    diff_gen::lemma_line_from(lines, DID_HEADING@, 0);
    lemma_empty_line();
    lemma_did_line();
    lemma_spliced(lines, bullet);
    lemma_final_lines(out, content);
    let h = (out.len() - 3) as int;
    assert(out[h] == DID_HEADING@);
    assert(out[h + 1] == Seq::<char>::empty());
    assert(out[h + 2] == bullet);
    assert(read_as(out[h], m[h]) && read_as(out[h + 1], m[h + 1]));
    lemma_read_as(out[h], m[h]);
    lemma_read_as(out[h + 1], m[h + 1]);
    if m.len() == out.len() {
        assert(read_as(out[h + 2], m[h + 2]));
        lemma_read_as(out[h + 2], m[h + 2]);
    }
    assert forall|k: int| 0 <= k < h implies text::trimmed_end(#[trigger] m[k])
        != DID_HEADING@ by {
        lemma_read_as(out[k], m[k]);
        if k < lines.len() {
            assert(out[k] == lines[k]);
        } else {
            assert(out[k] == Seq::<char>::empty());
        }
    }
    h
}

/// A line with more than white space in it is not among the blank ones at the
/// end.
proof fn lemma_blank_tail_is_blank(lines: Seq<Seq<char>>, k: int)
    requires
        0 <= k < lines.len(),
        text::trimmed_end(lines[k]).len() > 0,
    ensures
        k < without_blank_tail(lines).len(),
    decreases lines.len(),
{
    if text::trimmed(lines.last()).len() == 0 {
        lemma_blank_both_ways(lines.last());
        lemma_blank_tail_is_blank(lines.drop_last(), k);
    }
}

/// A line that is blank, white space at its start taken first, is all white
/// space.
proof fn lemma_blank_both_ways(s: Seq<char>)
    requires
        text::trimmed(s).len() == 0,
    ensures
        text::trimmed_end(s).len() == 0,
    decreases s.len(),
{
    if s.len() > 0 && text::is_space(s[0]) {
        lemma_blank_both_ways(s.drop_first());
        lemma_blank_with_space(s);
    }
}

proof fn lemma_blank_with_space(s: Seq<char>)
    requires
        s.len() > 0,
        text::is_space(s[0]),
        text::trimmed_end(s.drop_first()).len() == 0,
    ensures
        text::trimmed_end(s).len() == 0,
    decreases s.len(),
{
    if s.len() > 1 {
        let t = s.drop_first();
        assert(t.last() == s.last());
        assert(text::is_space(t.last()));
        assert(s.drop_last().drop_first() =~= t.drop_last());
        lemma_blank_with_space(s.drop_last());
    } else {
        assert(s.last() == s[0]);
        assert(text::trimmed_end(s.drop_last()).len() == 0);
    }
}

/// A line that is not blank is kept.
proof fn lemma_kept(lines: Seq<Seq<char>>, k: int)
    requires
        0 <= k < lines.len(),
        text::trimmed_end(lines[k]).len() > 0,
    ensures
        blank_head(lines) <= k < blank_head(lines) + without_blanks(lines).len(),
{
    lemma_blank_head(lines);
    let n = blank_head(lines) as int;
    if k < n {
        lemma_blank_both_ways(lines[k]);
    }
    assert(lines.skip(n)[k - n] == lines[k]);
    lemma_blank_tail_is_blank(lines.skip(n), k - n);
}

/// Appending a bullet loses none of those that stand in the section. Neither may end
/// in a carriage return, which reading a line takes off, and the other must not be of
/// white space alone, since blank lines at the section's ends are not kept.
pub proof fn law_appending_keeps_the_bullets(
    content: Seq<char>,
    bullet: Seq<char>,
    other: Seq<char>,
)
    requires
        plain_bullet(bullet),
        no_return(other),
        text::trimmed_end(other).len() > 0 || other.len() == 0,
        did_holds(content, other),
    ensures
        did_holds(finalized(lines_with_bullet(text::lines_of(content), bullet), content), other),
{
    let lines = text::lines_of(content);
    let s = finalized(lines_with_bullet(lines, bullet), content);
    let (h, e) = section_of(lines, DID_HEADING@)->0;
    lemma_spliced_section(content, bullet, h, e);
    if other.len() > 0 {
        let section = lines.subrange(h + 1, e);
        lemma_bullet_from(section, other, 0);
        let k = bullet_from(section, other, 0)->0;
        lemma_trimmed_end_again(section[k]);
        lemma_kept(section, k);
        lemma_without_blanks(section);
        let n = blank_head(section) as int;
        let kept = without_blanks(section);
        assert(kept[k - n] == section[n + (k - n)]);
        let at = h + 2 + k - n;
        let m = text::lines_of(s);
        assert(read_as(kept[at - h - 2], m[at]));
        lemma_read_as(kept[k - n], m[at]);
        assert(is_bullet(m[at], other));
        lemma_did_holds(s, other, h, at);
    } else {
        assert(other =~= Seq::<char>::empty());
        lemma_did_holds(s, other, h, h + 1);
    }
}

proof fn lemma_trimmed_end_again(s: Seq<char>)
    ensures
        text::trimmed_end(text::trimmed_end(s)) == text::trimmed_end(s),
    decreases s.len(),
{
    if s.len() > 0 && text::is_space(s.last()) {
        lemma_trimmed_end_again(s.drop_last());
    }
}

/// Removing touches one line only: the line that goes is the bullet, as it stands or
/// without the white space at its end, and it stands in the `## Did` section, between
/// its heading and the next one. No line before it in that section is the bullet.
pub proof fn law_removal_stays_in_did(content: Seq<char>, bullet: Seq<char>)
    requires
        did_holds(content, bullet),
    ensures
        ({
            let lines = text::lines_of(content);
            let (h, e) = section_of(lines, DID_HEADING@)->0;
            let at = bullet_place(lines, bullet)->0;
            &&& 0 <= h < at < e <= lines.len()
            &&& is_bullet(lines[at], bullet)
            &&& text::trimmed_end(lines[h]) == DID_HEADING@
            &&& forall|k: int| h < k < at ==> !is_bullet(#[trigger] lines[k], bullet)
            &&& forall|k: int| h < k < e ==> !diff_gen::heading_line(#[trigger] lines[k])
            &&& without_bullet(content, bullet) == finalized(
                lines.take(at) + lines.skip(at + 1),
                content,
            )
        }),
{
    let lines = text::lines_of(content);
    diff_gen::lemma_line_from(lines, DID_HEADING@, 0);
    let (h, e) = section_of(lines, DID_HEADING@)->0;
    diff_gen::lemma_heading_from(lines, h + 1);
    let section = lines.subrange(h + 1, e);
    lemma_bullet_from(section, bullet, 0);
    let k = bullet_from(section, bullet, 0)->0;
    assert(section[k] == lines[h + 1 + k]);
    let at = bullet_place(lines, bullet)->0;
    assert forall|i: int| h < i < at implies !is_bullet(#[trigger] lines[i], bullet) by {
        assert(section[i - h - 1] == lines[i]);
    }
    assert(lines.remove(at) =~= lines.take(at) + lines.skip(at + 1));
}

// What a note says, line by line.

/// The lines with more than white space in them, as they are.
pub open spec fn said(lines: Seq<Seq<char>>) -> Seq<Seq<char>>
    decreases lines.len(),
{
    if lines.len() == 0 {
        Seq::empty()
    } else {
        let front = said(lines.drop_last());
        if text::trimmed_end(lines.last()).len() == 0 {
            front
        } else {
            front.push(lines.last())
        }
    }
}

/// What a note says before the place where a bullet is appended; a `## Did`
/// heading that has to be made counts.
pub open spec fn said_before(lines: Seq<Seq<char>>) -> Seq<Seq<char>> {
    match section_of(lines, DID_HEADING@) {
        Some((h, e)) => said(lines.take(e)),
        None => said(lines).push(DID_HEADING@),
    }
}

/// What a note says behind that place.
pub open spec fn said_behind(lines: Seq<Seq<char>>) -> Seq<Seq<char>> {
    match section_of(lines, DID_HEADING@) {
        Some((h, e)) => said(lines.skip(e)),
        None => Seq::empty(),
    }
}

proof fn lemma_said_add(a: Seq<Seq<char>>, b: Seq<Seq<char>>)
    ensures
        said(a + b) == said(a) + said(b),
    decreases b.len(),
{
    if b.len() == 0 {
        assert(a + b =~= a);
        assert(said(a) + said(b) =~= said(a));
    } else {
        assert((a + b).drop_last() =~= a + b.drop_last());
        assert((a + b).last() == b.last());
        lemma_said_add(a, b.drop_last());
        assert(said(a + b) =~= said(a) + said(b));
    }
}

proof fn lemma_said_one(line: Seq<char>)
    ensures
        said(seq![line]) == if text::trimmed_end(line).len() == 0 {
            Seq::empty()
        } else {
            seq![line]
        },
{
    let one = seq![line];
    assert(one.drop_last() =~= Seq::<Seq<char>>::empty());
    assert(said(one.drop_last()) =~= Seq::<Seq<char>>::empty());
    assert(one.last() == line);
    assert(said(one) =~= if text::trimmed_end(line).len() == 0 {
        Seq::empty()
    } else {
        seq![line]
    });
}

proof fn lemma_said_blank_tail(lines: Seq<Seq<char>>)
    ensures
        said(without_blank_tail(lines)) == said(lines),
    decreases lines.len(),
{
    if lines.len() > 0 && text::trimmed(lines.last()).len() == 0 {
        lemma_blank_both_ways(lines.last());
        lemma_said_blank_tail(lines.drop_last());
    }
}

/// Blank lines say nothing.
proof fn lemma_said_blank(lines: Seq<Seq<char>>)
    requires
        forall|k: int| 0 <= k < lines.len() ==> text::trimmed(#[trigger] lines[k]).len() == 0,
    ensures
        said(lines) == Seq::<Seq<char>>::empty(),
    decreases lines.len(),
{
    if lines.len() > 0 {
        assert(text::trimmed(lines[lines.len() - 1]).len() == 0);
        lemma_blank_both_ways(lines.last());
        let front = lines.drop_last();
        assert forall|k: int| 0 <= k < front.len() implies text::trimmed(
            #[trigger] front[k],
        ).len() == 0 by {
            assert(front[k] == lines[k]);
        }
        lemma_said_blank(front);
    }
}

proof fn lemma_said_without_blanks(lines: Seq<Seq<char>>)
    ensures
        said(without_blanks(lines)) == said(lines),
{
    lemma_blank_head(lines);
    let n = blank_head(lines) as int;
    lemma_said_blank(lines.take(n));
    lemma_said_blank_tail(lines.skip(n));
    lemma_said_add(lines.take(n), lines.skip(n));
    assert(lines =~= lines.take(n) + lines.skip(n));
    assert(said(lines) =~= said(lines.skip(n)));
}

/// Putting lines together to a text and taking it apart again changes nothing that
/// they say.
proof fn lemma_said_final(out: Seq<Seq<char>>, original: Seq<char>)
    requires
        out.len() > 0,
        all_single(out),
        steady(out),
    ensures
        said(text::lines_of(finalized(out, original))) == said(out),
{
    lemma_final_lines(out, original);
    if out.last().len() == 0 {
        assert(out.last() =~= Seq::<char>::empty());
        lemma_empty_line();
    }
}

/// Where an appended bullet stands, and what the note says before and behind it.
proof fn lemma_appended(content: Seq<char>, bullet: Seq<char>) -> (at: int)
    requires
        plain_bullet(bullet),
        text::trimmed_end(bullet).len() > 0,
        steady(text::lines_of(content)),
        !did_holds(content, bullet),
    ensures
        ({
            let lines = text::lines_of(content);
            let m = text::lines_of(with_bullet(content, bullet));
            &&& 0 < at < m.len()
            &&& m[at] == bullet
            &&& steady(m)
            &&& bullet_place(m, bullet) == Some(at)
            &&& said(m.take(at)) == said_before(lines)
            &&& said(m.skip(at + 1)) == said_behind(lines)
        }),
{
    let lines = text::lines_of(content);
    let empty = Seq::<char>::empty();
    let out = lines_with_bullet(lines, bullet);
    let s = finalized(out, content);
    let m = text::lines_of(s);
    assert(bullet.len() > 0);
    lemma_empty_line();
    lemma_did_line();
    text::lemma_lines_free(content);
    lemma_spliced(lines, bullet);
    diff_gen::lemma_line_from(lines, DID_HEADING@, 0);
    lemma_said_one(empty);
    lemma_said_one(DID_HEADING@);
    match section_of(lines, DID_HEADING@) {
        Some((h, e)) => {
            lemma_spliced_section(content, bullet, h, e);
            assert(steady(m)) by {
                assert forall|k: int| 0 <= k < m.len() implies no_return(#[trigger] m[k]) by {
                    assert(m[k] == out[k]);
                }
            }
            let section = lines.subrange(h + 1, e);
            let kept = without_blanks(section);
            lemma_without_blanks(section);
            lemma_said_without_blanks(section);
            lemma_bullet_from(section, bullet, 0);
            let at = (h + 2 + kept.len()) as int;
            let after = if e < lines.len() {
                seq![empty] + lines.skip(e)
            } else {
                Seq::empty()
            };
            assert forall|k: int| h < k < at implies !is_bullet(#[trigger] m[k], bullet) by {
                if k > h + 1 {
                    assert(m[k] == out[k]);
                    assert(out[k] == kept[k - h - 2]);
                    assert(m[k] == section[blank_head(section) + k - h - 2]);
                }
            }
            lemma_place(m, bullet, h, at);
            // Before the bullet.
            let head = lines.take(h + 1) + seq![empty] + kept;
            assert(out.take(at) =~= head);
            assert(m.take(at) =~= out.take(at));
            lemma_said_add(lines.take(h + 1) + seq![empty], kept);
            lemma_said_add(lines.take(h + 1), seq![empty]);
            lemma_said_add(lines.take(h + 1), section);
            assert(lines.take(e) =~= lines.take(h + 1) + section);
            assert(said(head) =~= said(lines.take(e)));
            // Behind it.
            assert(out.skip(at + 1) =~= after);
            lemma_said_skip(m, out, at + 1);
            if e < lines.len() {
                lemma_said_add(seq![empty], lines.skip(e));
                assert(said(after) =~= said(lines.skip(e)));
            } else {
                assert(lines.skip(e) =~= after);
            }
            at
        },
        None => {
            let h = lemma_made_section(content, bullet);
            let did = DID_HEADING@;
            let gap: Seq<Seq<char>> = if lines.len() > 0 && text::trimmed(lines.last()).len() > 0 {
                seq![empty]
            } else {
                Seq::empty()
            };
            assert(m == out);
            lemma_place(m, bullet, h, h + 2);
            let head = lines + gap + seq![did, empty];
            assert(out.take(h + 2) =~= head);
            lemma_said_add(lines + gap, seq![did, empty]);
            lemma_said_add(lines, gap);
            lemma_said_add(seq![did], seq![empty]);
            assert(seq![did, empty] =~= seq![did] + seq![empty]);
            assert(said(gap) =~= Seq::<Seq<char>>::empty());
            assert(said(head) =~= said(lines).push(did));
            assert(m.skip(h + 3) =~= Seq::<Seq<char>>::empty());
            h + 2
        },
    }
}

/// The lines behind a place, where an empty last one may be missing.
proof fn lemma_said_skip(m: Seq<Seq<char>>, out: Seq<Seq<char>>, n: int)
    requires
        0 <= n <= m.len(),
        m == out || (out.len() > 0 && out.last().len() == 0 && m == out.drop_last()),
    ensures
        said(m.skip(n)) == said(out.skip(n)),
{
    if m != out {
        lemma_empty_line();
        assert(out.skip(n).drop_last() =~= m.skip(n));
        assert(out.skip(n).last() =~= Seq::<char>::empty());
    }
}

/// The first line behind the `## Did` heading that is the bullet.
proof fn lemma_place(m: Seq<Seq<char>>, bullet: Seq<char>, h: int, at: int)
    requires
        0 <= h < at < m.len(),
        text::trimmed_end(m[h]) == DID_HEADING@,
        is_bullet(m[at], bullet),
        forall|k: int| 0 <= k < h ==> text::trimmed_end(#[trigger] m[k]) != DID_HEADING@,
        forall|k: int| h < k <= at ==> !diff_gen::heading_line(#[trigger] m[k]),
        forall|k: int| h < k < at ==> !is_bullet(#[trigger] m[k], bullet),
    ensures
        bullet_place(m, bullet) == Some(at),
{
    diff_gen::lemma_line_from_skips(m, DID_HEADING@, 0, h);
    diff_gen::lemma_heading_from(m, h + 1);
    let e = diff_gen::heading_from(m, h + 1);
    assert(e > at) by {
        if e <= at {
            assert(diff_gen::heading_line(m[e]));
        }
    }
    let section = m.subrange(h + 1, e);
    assert forall|k: int| 0 <= k < at - h - 1 implies !is_bullet(#[trigger] section[k], bullet) by {
        assert(section[k] == m[h + 1 + k]);
    }
    assert(section[at - h - 1] == m[at]);
    lemma_bullet_from_skips(section, bullet, 0, at - h - 1);
}

/// Appending a bullet adds that line, and the `## Did` heading where there was
/// none, and nothing else: every line of the note that is not blank stands in it
/// as it did, character by character, in the same order. No line of the note may end
/// in a carriage return that is not part of its ending.
pub proof fn law_appending_keeps_the_note(content: Seq<char>, bullet: Seq<char>)
    requires
        plain_bullet(bullet),
        text::trimmed_end(bullet).len() > 0,
        steady(text::lines_of(content)),
        !did_holds(content, bullet),
    ensures
        ({
            let lines = text::lines_of(content);
            &&& said(text::lines_of(with_bullet(content, bullet))) == said_before(lines).push(bullet)
                + said_behind(lines)
            &&& section_of(lines, DID_HEADING@) is Some ==> said_before(lines) + said_behind(lines)
                == said(lines)
            &&& section_of(lines, DID_HEADING@) is None ==> said_before(lines) + said_behind(lines)
                == said(lines).push(DID_HEADING@)
        }),
{
    let lines = text::lines_of(content);
    let m = text::lines_of(with_bullet(content, bullet));
    let at = lemma_appended(content, bullet);
    lemma_said_one(m[at]);
    lemma_said_add(m.take(at), seq![m[at]]);
    lemma_said_add(m.take(at) + seq![m[at]], m.skip(at + 1));
    assert(m =~= m.take(at) + seq![m[at]] + m.skip(at + 1));
    assert(said(m) =~= said_before(lines).push(bullet) + said_behind(lines));
    lemma_parts(lines);
}

/// What a note says before and behind the place is all that it says.
proof fn lemma_parts(lines: Seq<Seq<char>>)
    ensures
        said_before(lines) + said_behind(lines) == if section_of(lines, DID_HEADING@) is Some {
            said(lines)
        } else {
            said(lines).push(DID_HEADING@)
        },
{
    match section_of(lines, DID_HEADING@) {
        Some((h, e)) => {
            diff_gen::lemma_line_from(lines, DID_HEADING@, 0);
            diff_gen::lemma_heading_from(lines, h + 1);
            lemma_said_add(lines.take(e), lines.skip(e));
            assert(lines =~= lines.take(e) + lines.skip(e));
        },
        None => {
            assert(said_before(lines) + said_behind(lines) =~= said(lines).push(DID_HEADING@));
        },
    }
}

/// Taking a bullet back right after it was appended finds it, and leaves the note
/// with just the lines it had, blank ones aside, each as it was; a `## Did` heading
/// that was made for the bullet stays as the last of them. No line of the note may end
/// in a carriage return that is not part of its ending.
pub proof fn law_taking_back_undoes_the_append(content: Seq<char>, bullet: Seq<char>)
    requires
        plain_bullet(bullet),
        text::trimmed_end(bullet).len() > 0,
        steady(text::lines_of(content)),
        !did_holds(content, bullet),
    ensures
        ({
            let lines = text::lines_of(content);
            let s = with_bullet(content, bullet);
            &&& did_holds(s, bullet)
            &&& said(text::lines_of(without_bullet(s, bullet))) == if section_of(
                lines,
                DID_HEADING@,
            ) is Some {
                said(lines)
            } else {
                said(lines).push(DID_HEADING@)
            }
        }),
{
    let lines = text::lines_of(content);
    let s = with_bullet(content, bullet);
    let m = text::lines_of(s);
    let at = lemma_appended(content, bullet);
    let out = m.remove(at);
    text::lemma_lines_free(s);
    assert forall|k: int| 0 <= k < out.len() implies text::free_of(#[trigger] out[k], '\n')
        && no_return(out[k]) by {
        assert(out[k] == m[if k < at { k } else { k + 1 }]);
    }
    lemma_said_final(out, s);
    assert(out =~= m.take(at) + m.skip(at + 1));
    lemma_said_add(m.take(at), m.skip(at + 1));
    lemma_parts(lines);
}

/// Taking a line out leaves every other line that is not blank as it was. No line of
/// the note may end in a carriage return that is not part of its ending.
pub proof fn law_removal_keeps_the_rest(content: Seq<char>, bullet: Seq<char>)
    requires
        steady(text::lines_of(content)),
        did_holds(content, bullet),
    ensures
        ({
            let lines = text::lines_of(content);
            let at = bullet_place(lines, bullet)->0;
            said(text::lines_of(without_bullet(content, bullet))) == said(lines.take(at)) + said(
                lines.skip(at + 1),
            )
        }),
{
    let lines = text::lines_of(content);
    let at = bullet_place(lines, bullet)->0;
    law_removal_stays_in_did(content, bullet);
    let out = lines.remove(at);
    text::lemma_lines_free(content);
    assert forall|k: int| 0 <= k < out.len() implies text::free_of(#[trigger] out[k], '\n')
        && no_return(out[k]) by {
        assert(out[k] == lines[if k < at { k } else { k + 1 }]);
    }
    lemma_said_final(out, content);
    assert(out =~= lines.take(at) + lines.skip(at + 1));
    lemma_said_add(lines.take(at), lines.skip(at + 1));
}

/// A fresh note begins with the checklist, as the template has it, and ends with the two
/// empty sections; line feeds that end the template do not matter.
pub proof fn law_fresh_notes_hold_the_template(template: Seq<char>)
    ensures
        initial_note(template.push('\n')) == initial_note(template),
        template.len() > 0 && template.last() != '\n' ==> {
            &&& text::begins(initial_note(template), "## Checklist\n\n"@ + template)
            &&& initial_note(template) == "## Checklist\n\n"@ + template
                + "\n\n## Did\n\n## Notes\n"@
        },
{
    text::law_marks_behind_are_taken_off(template, '\n');
    reveal_strlit("## Checklist");
    reveal_strlit("\n\n");
    reveal_strlit("\n");
    reveal_strlit("## Did");
    reveal_strlit("## Notes");
    reveal_strlit("## Checklist\n\n");
    reveal_strlit("\n\n## Did\n\n## Notes\n");
    if template.len() > 0 && template.last() != '\n' {
        let head = "## Checklist\n\n"@ + template;
        let all = head + "\n\n## Did\n\n## Notes\n"@;
        assert(initial_note(template) =~= all);
        assert(all.take(head.len() as int) =~= head);
    }
}

/// A text that ended in a line feed still does, and one that did not gets none.
pub proof fn law_the_last_line_feed_stays(lines: Seq<Seq<char>>, original: Seq<char>)
    ensures
        text::ends(original, seq!['\n']) ==> text::ends(finalized(lines, original), seq!['\n']),
        !text::ends(original, seq!['\n']) ==> finalized(lines, original) == text::joined(
            lines,
            seq!['\n'],
        ),
        text::begins(finalized(lines, original), text::joined(lines, seq!['\n'])),
        finalized(lines, original).len() <= text::joined(lines, seq!['\n']).len() + 1,
{
    let j = text::joined(lines, seq!['\n']);
    assert(j.take(j.len() as int) =~= j);
    assert(j.push('\n').take(j.len() as int) =~= j);
    assert(j.push('\n').skip(j.len() as int) =~= seq!['\n']);
}

} // verus!
