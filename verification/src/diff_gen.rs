//! How facts become markdown.
//!
//! Each fact is one bullet under a managed `## Facts` section. Which fact came
//! from which chat message is kept in a `chat-notes` block at the end of the
//! note's frontmatter. The user's own prose and frontmatter keys stay as they
//! are.
use vstd::prelude::*;
use crate::datetime;
use crate::memory;
use crate::staging::{ChangeKind, Confidence, NoteChange, StagedFact};
use crate::staging;
use crate::text;

verus! {

broadcast use vstd::string::group_string_axioms;

// ---------------------------------------------------------------------------
// Lines and headings
// ---------------------------------------------------------------------------

/// The first of `lines`, from `i` on, that is `target` but for white space at
/// its end.
pub open spec fn line_from(lines: Seq<Seq<char>>, target: Seq<char>, i: int) -> Option<int>
    decreases lines.len() - i,
{
    if i >= lines.len() {
        None
    } else if text::trimmed_end(lines[i]) == target {
        Some(i)
    } else {
        line_from(lines, target, i + 1)
    }
}

/// How many `#` the text begins with.
pub open spec fn leading_hashes(s: Seq<char>) -> nat
    decreases s.len(),
{
    if s.len() > 0 && s[0] == '#' {
        1 + leading_hashes(s.drop_first())
    } else {
        0
    }
}

/// The line is a markdown heading: one to six `#` and a space, with nothing
/// but white space before them.
pub open spec fn heading_line(line: Seq<char>) -> bool {
    let t = text::trimmed_start(line);
    let n = leading_hashes(t);
    1 <= n <= 6 && n < t.len() && t[n as int] == ' '
}

/// The first heading among `lines`, from `i` on; their number if there is none.
pub open spec fn heading_from(lines: Seq<Seq<char>>, i: int) -> int
    decreases lines.len() - i,
{
    if i >= lines.len() {
        lines.len() as int
    } else if heading_line(lines[i]) {
        i
    } else {
        heading_from(lines, i + 1)
    }
}

/// The number of leading hashes is that of the run of `#` the text begins with.
proof fn lemma_leading_hashes(s: Seq<char>, n: int)
    requires
        0 <= n <= s.len(),
        forall|k: int| 0 <= k < n ==> s[k] == '#',
        n < s.len() ==> s[n] != '#',
    ensures
        leading_hashes(s) == n,
    decreases n,
{
    if n > 0 {
        lemma_leading_hashes(s.drop_first(), n - 1);
    }
}

/// Whether a line is a markdown heading.
pub fn is_heading(line: &str) -> (r: bool)
    ensures
        r == heading_line(line@),
{
    let t = text::trim_start(line);
    let cs = text::chars_of(t);
    let mut n: usize = 0;
    while n < cs.len() && cs[n] == '#'
        invariant
            n <= cs.len(),
            forall|k: int| 0 <= k < n ==> cs@[k] == '#',
        decreases cs.len() - n,
    {
        n += 1;
    }
    proof {
        lemma_leading_hashes(cs@, n as int);
    }
    1 <= n && n <= 6 && n < cs.len() && cs[n] == ' '
}

/// The first line from `start` on that is `target` but for white space at its end.
pub fn find_line(lines: &Vec<String>, target: &str, start: usize) -> (r: Option<usize>)
    requires
        start <= lines@.len(),
    ensures
        match r {
            Some(p) => line_from(text::texts(lines@), target@, start as int) == Some(p as int)
                && start <= p < lines.len(),
            None => line_from(text::texts(lines@), target@, start as int) is None,
        },
{
    let mut i: usize = start;
    while i < lines.len()
        invariant
            start <= i <= lines.len(),
            line_from(text::texts(lines@), target@, start as int) == line_from(
                text::texts(lines@),
                target@,
                i as int,
            ),
        decreases lines.len() - i,
    {
        if text::same(text::trim_end(lines[i].as_str()), target) {
            return Some(i);
        }
        i += 1;
    }
    None
}

/// The first heading from `start` on, or the number of lines.
pub fn find_heading(lines: &Vec<String>, start: usize) -> (r: usize)
    requires
        start <= lines@.len(),
    ensures
        r == heading_from(text::texts(lines@), start as int),
        start <= r <= lines@.len(),
{
    let mut i: usize = start;
    while i < lines.len()
        invariant
            start <= i <= lines.len(),
            heading_from(text::texts(lines@), start as int) == heading_from(
                text::texts(lines@),
                i as int,
            ),
        decreases lines.len() - i,
    {
        if is_heading(lines[i].as_str()) {
            return i;
        }
        i += 1;
    }
    i
}

// ---------------------------------------------------------------------------
// Wording
// ---------------------------------------------------------------------------

/// The predicates with a wording of their own, and that wording.
pub open spec fn phrase_table(p: Seq<char>) -> Option<Seq<char>> {
    if p == "works_at"@ { Some("Works at"@) }
    else if p == "joined"@ { Some("Joined"@) }
    else if p == "left"@ { Some("Left"@) }
    else if p == "founded"@ { Some("Founded"@) }
    else if p == "invests_in"@ { Some("Invests in"@) }
    else if p == "advises"@ { Some("Advises"@) }
    else if p == "member_of"@ { Some("Member of"@) }
    else if p == "former_member_of"@ { Some("Former member of"@) }
    else if p == "volunteered_at"@ { Some("Volunteered at"@) }
    else if p == "knows"@ { Some("Knows"@) }
    else if p == "reports_to"@ { Some("Reports to"@) }
    else if p == "manages"@ { Some("Manages"@) }
    else if p == "parent_of"@ { Some("Parent of"@) }
    else if p == "child_of"@ { Some("Child of"@) }
    else if p == "sibling_of"@ { Some("Sibling of"@) }
    else if p == "partner_of"@ { Some("Partner of"@) }
    else if p == "mentored_by"@ { Some("Mentored by"@) }
    else if p == "collaborates_with"@ { Some("Collaborates with"@) }
    else if p == "lives_in"@ { Some("Lives in"@) }
    else if p == "born_in"@ { Some("Born in"@) }
    else if p == "visited"@ { Some("Visited"@) }
    else if p == "expert_in"@ { Some("Expert in"@) }
    else if p == "interested_in"@ { Some("Interested in"@) }
    else if p == "advocates_for"@ { Some("Advocates for"@) }
    else if p == "attended"@ { Some("Attended"@) }
    else if p == "organized"@ { Some("Organized"@) }
    else if p == "presented_at"@ { Some("Presented at"@) }
    else if p == "created"@ { Some("Created"@) }
    else if p == "contributes_to"@ { Some("Contributes to"@) }
    else if p == "leads"@ { Some("Leads"@) }
    else if p == "owns_task"@ { Some("Owns task"@) }
    else if p == "completed"@ { Some("Completed"@) }
    else if p == "delegated_to"@ { Some("Delegated to"@) }
    else if p == "subsidiary_of"@ { Some("Subsidiary of"@) }
    else if p == "competitor_of"@ { Some("Competitor of"@) }
    else if p == "acquired_by"@ { Some("Acquired by"@) }
    else if p == "partner_with"@ { Some("Partner with"@) }
    else if p == "located_in"@ { Some("Located in"@) }
    else if p == "headquartered_in"@ { Some("Headquartered in"@) }
    else if p == "scheduled_for"@ { Some("Scheduled for"@) }
    else if p == "about"@ { Some("About"@) }
    else if p == "due_on"@ { Some("Due on"@) }
    else if p == "blocks"@ { Some("Blocks"@) }
    else if p == "depends_on"@ { Some("Depends on"@) }
    else { None }
}

/// The predicates with a past wording of their own, and that wording.
pub open spec fn past_table(p: Seq<char>) -> Option<Seq<char>> {
    if p == "works_at"@ { Some("Worked at"@) }
    else if p == "member_of"@ { Some("Was a member of"@) }
    else if p == "leads"@ { Some("Led"@) }
    else if p == "manages"@ { Some("Managed"@) }
    else if p == "advises"@ { Some("Advised"@) }
    else if p == "reports_to"@ { Some("Reported to"@) }
    else if p == "owns_task"@ { Some("Owned task"@) }
    else if p == "advocates_for"@ { Some("Advocated for"@) }
    else if p == "lives_in"@ { Some("Lived in"@) }
    else if p == "contributes_to"@ { Some("Contributed to"@) }
    else if p == "invests_in"@ { Some("Invested in"@) }
    else if p == "expert_in"@ { Some("Was an expert in"@) }
    else if p == "interested_in"@ { Some("Was interested in"@) }
    else { None }
}

/// The predicate with spaces for `_` and its first character in upper case.
pub open spec fn humanized(p: Seq<char>) -> Seq<char> {
    let spaced = text::with_char_replaced(p, '_', ' ');
    if spaced.len() == 0 {
        Seq::empty()
    } else {
        text::uppercase_of(spaced[0]) + spaced.drop_first()
    }
}

/// A predicate's wording.
pub open spec fn phrasing(p: Seq<char>) -> Seq<char> {
    match phrase_table(p) {
        Some(w) => w,
        None => humanized(p),
    }
}

/// A predicate's wording for something that is over.
pub open spec fn phrasing_past(p: Seq<char>) -> Seq<char> {
    match past_table(p) {
        Some(w) => w,
        None => phrasing(p),
    }
}

/// `snake_case` as `Sentence case`, for predicates outside the table.
pub fn humanize(predicate: &str) -> (r: String)
    ensures
        r@ == humanized(predicate@),
{
    let spaced = text::replace_char(predicate, '_', ' ');
    let cs = text::chars_of(spaced.as_str());
    if cs.len() == 0 {
        return String::new();
    }
    let mut out = text::to_uppercase_char(cs[0]);
    let rest = text::string_of(vstd::slice::slice_subrange(cs.as_slice(), 1, cs.len()));
    assert(rest@ =~= cs@.drop_first());
    out.append(rest.as_str());
    out
}

/// The verb phrase for a predicate; one outside the table is humanised.
pub fn predicate_phrasing(predicate: &str) -> (r: String)
    ensures
        r@ == phrasing(predicate@),
{
    let p = predicate;
    let w = if text::same(p, "works_at") { "Works at" }
    else if text::same(p, "joined") { "Joined" }
    else if text::same(p, "left") { "Left" }
    else if text::same(p, "founded") { "Founded" }
    else if text::same(p, "invests_in") { "Invests in" }
    else if text::same(p, "advises") { "Advises" }
    else if text::same(p, "member_of") { "Member of" }
    else if text::same(p, "former_member_of") { "Former member of" }
    else if text::same(p, "volunteered_at") { "Volunteered at" }
    else if text::same(p, "knows") { "Knows" }
    else if text::same(p, "reports_to") { "Reports to" }
    else if text::same(p, "manages") { "Manages" }
    else if text::same(p, "parent_of") { "Parent of" }
    else if text::same(p, "child_of") { "Child of" }
    else if text::same(p, "sibling_of") { "Sibling of" }
    else if text::same(p, "partner_of") { "Partner of" }
    else if text::same(p, "mentored_by") { "Mentored by" }
    else if text::same(p, "collaborates_with") { "Collaborates with" }
    else if text::same(p, "lives_in") { "Lives in" }
    else if text::same(p, "born_in") { "Born in" }
    else if text::same(p, "visited") { "Visited" }
    else if text::same(p, "expert_in") { "Expert in" }
    else if text::same(p, "interested_in") { "Interested in" }
    else if text::same(p, "advocates_for") { "Advocates for" }
    else if text::same(p, "attended") { "Attended" }
    else if text::same(p, "organized") { "Organized" }
    else if text::same(p, "presented_at") { "Presented at" }
    else if text::same(p, "created") { "Created" }
    else if text::same(p, "contributes_to") { "Contributes to" }
    else if text::same(p, "leads") { "Leads" }
    else if text::same(p, "owns_task") { "Owns task" }
    else if text::same(p, "completed") { "Completed" }
    else if text::same(p, "delegated_to") { "Delegated to" }
    else if text::same(p, "subsidiary_of") { "Subsidiary of" }
    else if text::same(p, "competitor_of") { "Competitor of" }
    else if text::same(p, "acquired_by") { "Acquired by" }
    else if text::same(p, "partner_with") { "Partner with" }
    else if text::same(p, "located_in") { "Located in" }
    else if text::same(p, "headquartered_in") { "Headquartered in" }
    else if text::same(p, "scheduled_for") { "Scheduled for" }
    else if text::same(p, "about") { "About" }
    else if text::same(p, "due_on") { "Due on" }
    else if text::same(p, "blocks") { "Blocks" }
    else if text::same(p, "depends_on") { "Depends on" }
    else { return humanize(p); };
    w.to_owned()
}

/// The past verb phrase for a predicate, for a fact whose validity has ended.
/// A predicate without one of its own keeps its present wording.
pub fn predicate_phrasing_past(predicate: &str) -> (r: String)
    ensures
        r@ == phrasing_past(predicate@),
{
    let p = predicate;
    let w = if text::same(p, "works_at") { "Worked at" }
    else if text::same(p, "member_of") { "Was a member of" }
    else if text::same(p, "leads") { "Led" }
    else if text::same(p, "manages") { "Managed" }
    else if text::same(p, "advises") { "Advised" }
    else if text::same(p, "reports_to") { "Reported to" }
    else if text::same(p, "owns_task") { "Owned task" }
    else if text::same(p, "advocates_for") { "Advocated for" }
    else if text::same(p, "lives_in") { "Lived in" }
    else if text::same(p, "contributes_to") { "Contributed to" }
    else if text::same(p, "invests_in") { "Invested in" }
    else if text::same(p, "expert_in") { "Was an expert in" }
    else if text::same(p, "interested_in") { "Was interested in" }
    else { return predicate_phrasing(p); };
    w.to_owned()
}

/// A fact's id within a note: `<predicate>:<slug of the object>`.
pub open spec fn fact_key(f: StagedFact) -> Seq<char> {
    f.predicate@ + seq![':'] + memory::slug(f.object_name@)
}

/// The bullet that states a fact.
pub open spec fn fact_bullet(f: StagedFact) -> Seq<char> {
    let words = if f.valid_to is Some {
        phrasing_past(f.predicate@)
    } else {
        phrasing(f.predicate@)
    };
    let base = "- "@ + words + seq![' '] + text::trimmed(f.object_name@);
    if f.valid_from_explicit {
        base + " ("@ + datetime::year_text(f.valid_from.secs as int) + seq![')']
    } else {
        base
    }
}

/// The id of a fact within a note. Facts with the same predicate and object
/// share it, so they make one bullet.
pub fn fact_id(fact: &StagedFact) -> (r: String)
    ensures
        r@ == fact_key(*fact),
{
    let mut s = fact.predicate.clone();
    s.push(':');
    s.append(memory::slugify(fact.object_name.as_str()).as_str());
    s
}

/// The markdown bullet for a fact, such as `- Founded Microsoft`: in the past
/// tense once its validity has ended, with the year where the text gave one.
pub fn render_fact_bullet(fact: &StagedFact) -> (r: String)
    requires
        fact.wf(),
    ensures
        r@ == fact_bullet(*fact),
        forall|y: int|
            fact.valid_from_explicit && #[trigger] datetime::year_start(y) <= fact.valid_from.secs
                < datetime::year_start(y + 1) ==> text::ends(
                r@,
                " ("@ + datetime::year_digits(y) + seq![')'],
            ),
{
    let words = if fact.valid_to.is_some() {
        predicate_phrasing_past(fact.predicate.as_str())
    } else {
        predicate_phrasing(fact.predicate.as_str())
    };
    let mut s = String::from_str("- ");
    s.append(words.as_str());
    s.push(' ');
    s.append(text::trim(fact.object_name.as_str()));
    if fact.valid_from_explicit {
        s.append(" (");
        s.append(datetime::format_year(fact.valid_from).as_str());
        s.push(')');
        proof {
            let secs = fact.valid_from.secs as int;
            let end = " ("@ + datetime::year_text(secs) + seq![')'];
            assert(s@.skip(s@.len() - end.len()) =~= end);
            assert forall|y: int|
                #[trigger] datetime::year_start(y) <= secs < datetime::year_start(
                    y + 1,
                ) implies datetime::year_text(secs) == datetime::year_digits(y) by {
                datetime::law_instants_have_one_year(secs, y);
            }
        }
    }
    s
}

// ---------------------------------------------------------------------------
// Reading a note
// ---------------------------------------------------------------------------

/// A note in its managed and unmanaged regions.
pub struct ParsedNote {
    /// The user's frontmatter lines as they are, without the fences and the
    /// `chat-notes` block; empty, or ended by a line feed.
    pub user_frontmatter: String,
    /// The pairs of fact id and source chat of the `chat-notes` block, in order.
    pub provenance: Vec<(String, String)>,
    /// The body before the `## Facts` heading, as it is; all of it where there is
    /// none.
    pub prose_before: String,
    /// What stands in the `## Facts` section, trimmed.
    pub facts_body: String,
    /// The body from the heading after the `## Facts` section on, as it is.
    pub prose_after: String,
}

/// What a [`ParsedNote`] says.
#[verifier::ext_equal]
pub struct NoteRegions {
    pub user_frontmatter: Seq<char>,
    pub provenance: Seq<(Seq<char>, Seq<char>)>,
    pub prose_before: Seq<char>,
    pub facts_body: Seq<char>,
    pub prose_after: Seq<char>,
}

/// The views of pairs of strings.
pub open spec fn pairs(v: Seq<(String, String)>) -> Seq<(Seq<char>, Seq<char>)> {
    v.map_values(|p: (String, String)| (p.0@, p.1@))
}

/// One pair more in the list is one pair of texts more.
proof fn lemma_pairs_push(v: Seq<(String, String)>, p: (String, String))
    ensures
        pairs(v.push(p)) == pairs(v).push((p.0@, p.1@)),
{
    assert(pairs(v.push(p)) =~= pairs(v).push((p.0@, p.1@)));
}

impl View for ParsedNote {
    type V = NoteRegions;

    open spec fn view(&self) -> NoteRegions {
        NoteRegions {
            user_frontmatter: self.user_frontmatter@,
            provenance: pairs(self.provenance@),
            prose_before: self.prose_before@,
            facts_body: self.facts_body@,
            prose_after: self.prose_after@,
        }
    }
}

/// The frontmatter between a leading `---` line and the next one, and what
/// follows it; no frontmatter and the whole content where there is no such block.
pub open spec fn frontmatter_split(content: Seq<char>) -> (Option<Seq<char>>, Seq<char>) {
    match text::without_prefix(content, "---\n"@) {
        None => (None, content),
        Some(rest) => match text::found(rest, "\n---\n"@) {
            Some(end) => (Some(rest.take(end)), rest.skip(end + 5)),
            None => match text::without_suffix(rest, "\n---"@) {
                Some(fm) => (Some(fm), Seq::empty()),
                None => (None, content),
            },
        },
    }
}

/// Splits a leading `---` block off a note.
pub fn split_frontmatter<'a>(content: &'a str) -> (r: (Option<&'a str>, &'a str))
    ensures
        (text::opt_str(r.0), r.1@) == frontmatter_split(content@),
{
    match text::strip_prefix(content, "---\n") {
        None => (None, content),
        Some(rest) => match text::find(rest, "\n---\n") {
            Some(end) => {
                let n = rest.unicode_len();
                proof {
                    reveal_strlit("\n---\n");
                }
                assert(rest@.subrange(0, end as int) =~= rest@.take(end as int));
                assert(rest@.subrange(end + 5, n as int) =~= rest@.skip(end + 5));
                (Some(rest.substring_char(0, end)), rest.substring_char(end + 5, n))
            },
            None => match text::strip_suffix(rest, "\n---") {
                Some(fm) => {
                    let none = fm.substring_char(0, 0);
                    assert(none@ =~= Seq::<char>::empty());
                    (Some(fm), none)
                },
                None => (None, content),
            },
        },
    }
}

/// The text up to the next `"` that no backslash precedes, each backslash
/// standing for the character after it, and what follows the `"`.
pub open spec fn quoted(s: Seq<char>) -> Option<(Seq<char>, Seq<char>)>
    decreases s.len(),
{
    if s.len() == 0 {
        None
    } else if s[0] == '"' {
        Some((Seq::empty(), s.skip(1)))
    } else if s[0] == '\\' {
        if s.len() == 1 {
            None
        } else {
            match quoted(s.skip(2)) {
                Some((k, rest)) => Some((seq![s[1]] + k, rest)),
                None => None,
            }
        }
    } else {
        match quoted(s.skip(1)) {
            Some((k, rest)) => Some((seq![s[0]] + k, rest)),
            None => None,
        }
    }
}

/// Reads a string up to its closing `"`, and what follows it.
pub fn take_quoted<'a>(s: &'a str) -> (r: Option<(String, &'a str)>)
    ensures
        match r {
            Some((k, rest)) => quoted(s@) == Some((k@, rest@)),
            None => quoted(s@) is None,
        },
{
    let cs = text::chars_of(s);
    let n: usize = cs.len();
    let mut content: String = String::new();
    let mut i: usize = 0;
    assert(s@.skip(0) =~= s@);
    proof {
        match quoted(s@) {
            Some((k, rest)) => {
                assert(content@ + k =~= k);
            },
            None => {},
        }
    }
    while i < n
        invariant
            cs@ == s@,
            n == cs.len(),
            i <= n,
            quoted(s@) == match quoted(s@.skip(i as int)) {
                Some((k, rest)) => Some((content@ + k, rest)),
                None => None,
            },
        decreases n - i,
    {
        let c: char = cs[i];
        let ghost here = s@.skip(i as int);
        let ghost before = content@;
        if c == '\\' {
            if i + 1 < n {
                assert(here.skip(2) =~= s@.skip(i + 2));
                content.push(cs[i + 1]);
                proof {
                    match quoted(s@.skip(i + 2)) {
                        Some((k, rest)) => {
                            assert(before + (seq![here[1]] + k) =~= content@ + k);
                        },
                        None => {},
                    }
                }
                i += 2;
            } else {
                return None;
            }
        } else if c == '"' {
            assert(here.skip(1) =~= s@.subrange(i + 1, n as int));
            assert(content@ + Seq::<char>::empty() =~= content@);
            return Some((content, s.substring_char(i + 1, n)));
        } else {
            assert(here.skip(1) =~= s@.skip(i + 1));
            content.push(c);
            proof {
                match quoted(s@.skip(i + 1)) {
                    Some((k, rest)) => {
                        assert(before + (seq![here[0]] + k) =~= content@ + k);
                    },
                    None => {},
                }
            }
            i += 1;
        }
    }
    assert(s@.skip(i as int).len() == 0);
    None
}

/// The key and the value of a line `"key": "value"`, white space around the
/// colon and before the key aside.
pub open spec fn quoted_pair(line: Seq<char>) -> Option<(Seq<char>, Seq<char>)> {
    match text::without_prefix(text::trimmed_start(line), seq!['"']) {
        None => None,
        Some(a) => match quoted(a) {
            None => None,
            Some((key, b)) => match text::without_prefix(text::trimmed_start(b), seq![':']) {
                None => None,
                Some(c) => match text::without_prefix(text::trimmed_start(c), seq!['"']) {
                    None => None,
                    Some(d) => match quoted(d) {
                        None => None,
                        Some((val, _)) => Some((key, val)),
                    },
                },
            },
        },
    }
}

/// Parses a `"key": "value"` line.
pub fn parse_quoted_pair(line: &str) -> (r: Option<(String, String)>)
    ensures
        match r {
            Some(p) => quoted_pair(line@) == Some((p.0@, p.1@)),
            None => quoted_pair(line@) is None,
        },
{
    proof {
        reveal_strlit("\"");
        reveal_strlit(":");
        assert("\""@ =~= seq!['"']);
        assert(":"@ =~= seq![':']);
    }
    match text::strip_prefix(text::trim_start(line), "\"") {
        None => None,
        Some(a) => match take_quoted(a) {
            None => None,
            Some((key, b)) => match text::strip_prefix(text::trim_start(b), ":") {
                None => None,
                Some(c) => match text::strip_prefix(text::trim_start(c), "\"") {
                    None => None,
                    Some(d) => match take_quoted(d) {
                        None => None,
                        Some((val, _)) => Some((key, val)),
                    },
                },
            },
        },
    }
}

/// The pairs of the lines after a `facts:` line; lines that hold no pair are
/// passed over.
pub open spec fn provenance_of(lines: Seq<Seq<char>>, in_facts: bool) -> Seq<
    (Seq<char>, Seq<char>),
>
    decreases lines.len(),
{
    if lines.len() == 0 {
        Seq::empty()
    } else {
        let rest = lines.drop_first();
        if text::trimmed(lines[0]) == "facts:"@ {
            provenance_of(rest, true)
        } else if !in_facts {
            provenance_of(rest, false)
        } else {
            match quoted_pair(lines[0]) {
                Some(p) => seq![p] + provenance_of(rest, true),
                None => provenance_of(rest, true),
            }
        }
    }
}

/// Reads the pairs under the `facts:` key of a `chat-notes` block.
pub fn parse_provenance(block_lines: &Vec<String>) -> (r: Vec<(String, String)>)
    ensures
        pairs(r@) == provenance_of(text::texts(block_lines@), false),
{
    let ghost all = text::texts(block_lines@);
    let mut out: Vec<(String, String)> = Vec::new();
    let mut in_facts: bool = false;
    let mut i: usize = 0;
    assert(all.skip(0) =~= all);
    assert(pairs(out@) + provenance_of(all, false) =~= provenance_of(all, false));
    while i < block_lines.len()
        invariant
            all == text::texts(block_lines@),
            i <= block_lines.len(),
            provenance_of(all, false) == pairs(out@) + provenance_of(all.skip(i as int), in_facts),
        decreases block_lines.len() - i,
    {
        let line = block_lines[i].as_str();
        let ghost rest = all.skip(i as int);
        assert(rest.drop_first() =~= all.skip(i + 1));
        assert(rest[0] == line@);
        if text::same(text::trim(line), "facts:") {
            in_facts = true;
        } else if in_facts {
            match parse_quoted_pair(line) {
                Some(p) => {
                    let ghost before = pairs(out@);
                    proof {
                        lemma_pairs_push(out@, p);
                    }
                    out.push(p);
                    assert(before + (seq![(p.0@, p.1@)] + provenance_of(all.skip(i + 1), true))
                        =~= pairs(out@) + provenance_of(all.skip(i + 1), true));
                },
                None => {},
            }
        }
        i += 1;
    }
    assert(all.skip(i as int).len() == 0);
    assert(pairs(out@) + provenance_of(all.skip(i as int), in_facts) =~= pairs(out@));
    out
}

/// The row is blank or indented: below a key, it belongs to that key.
pub open spec fn indented(row: Seq<char>) -> bool {
    row.len() > 0 && text::is_space(row[0])
}

/// The rows of a frontmatter that are the user's. A row `chat-notes:` begins the
/// block that is not, which runs to the first row that is neither blank nor
/// indented; `in_block` says whether the first row stands in such a block.
pub open spec fn own_rows(rows: Seq<Seq<char>>, in_block: bool) -> Seq<Seq<char>>
    decreases rows.len(),
{
    if rows.len() == 0 {
        Seq::empty()
    } else {
        let rest = rows.drop_first();
        if text::trimmed_end(rows[0]) == "chat-notes:"@ || (in_block && indented(rows[0])) {
            own_rows(rest, true)
        } else {
            seq![rows[0]] + own_rows(rest, false)
        }
    }
}

/// The rows of a frontmatter that stand in the `chat-notes` block, below its key.
pub open spec fn block_rows(rows: Seq<Seq<char>>, in_block: bool) -> Seq<Seq<char>>
    decreases rows.len(),
{
    if rows.len() == 0 {
        Seq::empty()
    } else {
        let rest = rows.drop_first();
        if text::trimmed_end(rows[0]) == "chat-notes:"@ {
            block_rows(rest, true)
        } else if in_block && indented(rows[0]) {
            seq![rows[0]] + block_rows(rest, true)
        } else {
            block_rows(rest, false)
        }
    }
}

/// The rows of a frontmatter, whose last line feed stands before the fence.
pub open spec fn frontmatter_rows(frontmatter: Seq<char>) -> Seq<Seq<char>> {
    text::rows_of(frontmatter.push('\n'))
}

/// The user's part of the frontmatter and the pairs of its `chat-notes` block.
pub open spec fn chat_notes_split(frontmatter: Seq<char>) -> (
    Seq<char>,
    Seq<(Seq<char>, Seq<char>)>,
) {
    let rows = frontmatter_rows(frontmatter);
    (
        text::glued(own_rows(rows, false)),
        provenance_of(text::lines_of(text::glued(block_rows(rows, false))), false),
    )
}

/// The first part in front, then the others.
proof fn lemma_glued_first(row: Seq<char>, rest: Seq<Seq<char>>)
    ensures
        text::glued(seq![row] + rest) == row + text::glued(rest),
{
    text::lemma_glued_add(seq![row], rest);
    text::lemma_glued_one(row);
}

/// Separates the user's frontmatter from the `chat-notes` block.
pub fn split_chat_notes_block(frontmatter: &str) -> (r: (String, Vec<(String, String)>))
    ensures
        (r.0@, pairs(r.1@)) == chat_notes_split(frontmatter@),
{
    let mut whole = frontmatter.to_owned();
    whole.push('\n');
    let rows = text::rows(whole.as_str());
    let ghost all = text::texts(rows@);
    let mut user: String = String::new();
    let mut block: String = String::new();
    let mut in_block: bool = false;
    let mut i: usize = 0;
    assert(all.skip(0) =~= all);
    assert(user@ + text::glued(own_rows(all, false)) =~= text::glued(own_rows(all, false)));
    assert(block@ + text::glued(block_rows(all, false)) =~= text::glued(block_rows(all, false)));
    while i < rows.len()
        invariant
            all == text::texts(rows@),
            i <= rows.len(),
            text::glued(own_rows(all, false)) == user@ + text::glued(
                own_rows(all.skip(i as int), in_block),
            ),
            text::glued(block_rows(all, false)) == block@ + text::glued(
                block_rows(all.skip(i as int), in_block),
            ),
        decreases rows.len() - i,
    {
        let row = rows[i].as_str();
        let ghost rest = all.skip(i as int);
        assert(rest.drop_first() =~= all.skip(i + 1));
        assert(rest[0] == row@);
        if text::same(text::trim_end(row), "chat-notes:") {
            in_block = true;
        } else if in_block && !row.is_empty() && text::is_whitespace(row.get_char(0)) {
            let ghost before = block@;
            block.append(row);
            proof {
                let tail = block_rows(all.skip(i + 1), true);
                lemma_glued_first(row@, tail);
                assert(before + (row@ + text::glued(tail)) =~= block@ + text::glued(tail));
            }
        } else {
            let ghost before = user@;
            user.append(row);
            in_block = false;
            proof {
                let tail = own_rows(all.skip(i + 1), false);
                lemma_glued_first(row@, tail);
                assert(before + (row@ + text::glued(tail)) =~= user@ + text::glued(tail));
            }
        }
        i += 1;
    }
    assert(all.skip(i as int).len() == 0);
    assert(user@ + Seq::<char>::empty() =~= user@);
    assert(block@ + Seq::<char>::empty() =~= block@);
    let lines = text::lines(block.as_str());
    (user, parse_provenance(&lines))
}

/// The body before the `## Facts` heading, what stands in that section, and
/// the body from the next heading on.
pub open spec fn facts_split(body: Seq<char>) -> (Seq<char>, Seq<char>, Seq<char>) {
    let rows = text::rows_of(body);
    match line_from(rows, "## Facts"@, 0) {
        None => (body, Seq::empty(), Seq::empty()),
        Some(h) => {
            let next = heading_from(rows, h + 1);
            (
                text::glued(rows.take(h)),
                text::trimmed(text::glued(rows.subrange(h + 1, next))),
                text::glued(rows.skip(next)),
            )
        },
    }
}

/// Splits a body around its `## Facts` section.
pub fn split_facts_section(body: &str) -> (r: (String, String, String))
    ensures
        (r.0@, r.1@, r.2@) == facts_split(body@),
{
    let rows = text::rows(body);
    let ghost all = text::texts(rows@);
    match find_line(&rows, "## Facts", 0) {
        None => (body.to_owned(), String::new(), String::new()),
        Some(h) => {
            let next = find_heading(&rows, h + 1);
            let before = text::glue(&rows, 0, h);
            let section = text::glue(&rows, h + 1, next);
            let after = text::glue(&rows, next, rows.len());
            assert(all.subrange(0, h as int) =~= all.take(h as int));
            assert(all.subrange(next as int, all.len() as int) =~= all.skip(next as int));
            (before, text::trim(section.as_str()).to_owned(), after)
        },
    }
}

/// The regions of a note.
pub open spec fn note_regions(content: Seq<char>) -> NoteRegions {
    let (frontmatter, body) = frontmatter_split(content);
    let (user, provenance) = match frontmatter {
        Some(fm) => chat_notes_split(fm),
        None => (Seq::empty(), Seq::empty()),
    };
    let (before, facts, after) = facts_split(body);
    NoteRegions {
        user_frontmatter: user,
        provenance,
        prose_before: before,
        facts_body: facts,
        prose_after: after,
    }
}

/// Takes a note apart.
pub fn parse_note(content: &str) -> (r: ParsedNote)
    ensures
        r@ == note_regions(content@),
{
    let (frontmatter, body) = split_frontmatter(content);
    let (user_frontmatter, provenance) = match frontmatter {
        Some(fm) => split_chat_notes_block(fm),
        None => {
            let none: Vec<(String, String)> = Vec::new();
            assert(pairs(none@) =~= Seq::<(Seq<char>, Seq<char>)>::empty());
            (String::new(), none)
        },
    };
    let (prose_before, facts_body, prose_after) = split_facts_section(body);
    ParsedNote { user_frontmatter, provenance, prose_before, facts_body, prose_after }
}

// ---------------------------------------------------------------------------
// Writing a note
// ---------------------------------------------------------------------------

/// One character as it stands between quotes.
pub open spec fn escaped_char(c: char) -> Seq<char> {
    if c == '\\' || c == '"' {
        seq!['\\', c]
    } else {
        seq![c]
    }
}

/// `s` as it stands between quotes: a backslash before each `\` and `"`.
pub open spec fn escaped(s: Seq<char>) -> Seq<char>
    decreases s.len(),
{
    if s.len() == 0 {
        Seq::empty()
    } else {
        escaped_char(s[0]) + escaped(s.drop_first())
    }
}

/// Puts a backslash before each backslash and quote.
pub fn escape(s: &str) -> (r: String)
    ensures
        r@ == escaped(s@),
{
    let cs = text::chars_of(s);
    let mut out: String = String::new();
    let mut i: usize = 0;
    assert(s@.skip(0) =~= s@);
    assert(out@ + escaped(s@) =~= escaped(s@));
    while i < cs.len()
        invariant
            cs@ == s@,
            i <= cs.len(),
            out@ + escaped(s@.skip(i as int)) == escaped(s@),
        decreases cs.len() - i,
    {
        let c: char = cs[i];
        let ghost before = out@;
        if c == '\\' || c == '"' {
            out.push('\\');
        }
        out.push(c);
        assert(s@.skip(i as int).drop_first() =~= s@.skip(i + 1));
        assert(out@ =~= before + escaped_char(c));
        assert(out@ + escaped(s@.skip(i + 1)) =~= before + (escaped_char(c) + escaped(
            s@.skip(i + 1),
        )));
        i += 1;
    }
    assert(s@.skip(i as int).len() == 0);
    assert(out@ + escaped(s@.skip(i as int)) =~= out@);
    out
}

/// The line that records one pair, its line feed left out.
pub open spec fn pair_line(p: (Seq<char>, Seq<char>)) -> Seq<char> {
    "    \""@ + escaped(p.0) + "\": \""@ + escaped(p.1) + seq!['"']
}

/// The lines that record `provenance`, each with its line feed.
pub open spec fn pair_lines(provenance: Seq<(Seq<char>, Seq<char>)>) -> Seq<char>
    decreases provenance.len(),
{
    if provenance.len() == 0 {
        Seq::empty()
    } else {
        pair_lines(provenance.drop_last()) + pair_line(provenance.last()).push('\n')
    }
}

/// The `chat-notes` block.
pub open spec fn chat_notes_block(provenance: Seq<(Seq<char>, Seq<char>)>) -> Seq<char> {
    "chat-notes:\n  facts:\n"@ + pair_lines(provenance)
}

/// Writes the `chat-notes` block.
pub fn render_chat_notes_block(provenance: &Vec<(String, String)>) -> (r: String)
    ensures
        r@ == chat_notes_block(pairs(provenance@)),
{
    let ghost all = pairs(provenance@);
    let mut s = String::from_str("chat-notes:\n  facts:\n");
    let ghost head = s@;
    let mut i: usize = 0;
    assert(head + pair_lines(all.take(0)) =~= head);
    while i < provenance.len()
        invariant
            all == pairs(provenance@),
            i <= provenance.len(),
            s@ == head + pair_lines(all.take(i as int)),
        decreases provenance.len() - i,
    {
        let ghost before = s@;
        s.append("    \"");
        s.append(escape(provenance[i].0.as_str()).as_str());
        s.append("\": \"");
        s.append(escape(provenance[i].1.as_str()).as_str());
        s.push('"');
        s.push('\n');
        assert(all.take(i + 1).drop_last() =~= all.take(i as int));
        assert(all.take(i + 1).last() == all[i as int]);
        assert(s@ =~= before + pair_line(all[i as int]).push('\n'));
        assert(s@ =~= head + pair_lines(all.take(i + 1)));
        i += 1;
    }
    assert(all.take(i as int) =~= all);
    s
}

/// The `## Facts` section: what stands in it, then the new bullets.
pub open spec fn facts_section(facts_body: Seq<char>, bullets: Seq<Seq<char>>) -> Seq<char> {
    let existing = text::trimmed(facts_body);
    let kept = if existing.len() == 0 {
        Seq::empty()
    } else if bullets.len() == 0 {
        existing
    } else {
        existing.push('\n')
    };
    "## Facts\n\n"@ + kept + text::joined(bullets, seq!['\n']) + seq!['\n']
}

/// Writes the `## Facts` section.
pub fn render_facts_section(facts_body: &str, new_bullets: &Vec<String>) -> (r: String)
    ensures
        r@ == facts_section(facts_body@, text::texts(new_bullets@)),
{
    proof {
        reveal_strlit("\n");
        assert("\n"@ =~= seq!['\n']);
    }
    let mut s = String::from_str("## Facts\n\n");
    let existing = text::trim(facts_body);
    if !existing.is_empty() {
        s.append(existing);
        if !new_bullets.is_empty() {
            s.push('\n');
        }
    }
    s.append(text::join(new_bullets, "\n").as_str());
    s.push('\n');
    s
}

/// `s`, ended by a line feed; empty where it is empty.
pub open spec fn ended(s: Seq<char>) -> Seq<char> {
    if s.len() == 0 || s.last() == '\n' {
        s
    } else {
        s.push('\n')
    }
}

/// Ends a text in a line feed, unless it is empty or ends in one.
fn end_line(s: String) -> (r: String)
    ensures
        r@ == ended(s@),
{
    let mut s = s;
    let n = s.as_str().unicode_len();
    if n > 0 && s.as_str().get_char(n - 1) != '\n' {
        s.push('\n');
    }
    s
}

/// What has to stand between the prose and the `## Facts` heading for a blank
/// line to be there: nothing where there is one, or no prose.
pub open spec fn gap_after(prose: Seq<char>) -> Seq<char> {
    let rows = text::rows_of(prose);
    if rows.len() == 0 {
        Seq::empty()
    } else if prose.last() != '\n' {
        seq!['\n', '\n']
    } else if text::trimmed(rows.last()).len() == 0 {
        Seq::empty()
    } else {
        seq!['\n']
    }
}

/// The line feeds that put a blank line behind the prose.
fn gap_behind(prose: &str) -> (r: String)
    ensures
        r@ == gap_after(prose@),
{
    let rows = text::rows(prose);
    let mut gap: String = String::new();
    proof {
        text::lemma_rows(prose@);
        assert(rows@.len() == text::rows_of(prose@).len());
    }
    let n: usize = rows.len();
    if n > 0 {
        let len = prose.unicode_len();
        proof {
            assert(prose@.len() > 0) by {
                if prose@.len() == 0 {
                    assert(text::rows_of(prose@).len() == 0);
                }
            }
            assert(text::texts(rows@).last() == rows@[n - 1]@);
        }
        if prose.get_char(len - 1) != '\n' {
            gap.push('\n');
            gap.push('\n');
            assert(gap@ =~= seq!['\n', '\n']);
        } else if !text::trim(rows[n - 1].as_str()).is_empty() {
            gap.push('\n');
            assert(gap@ =~= seq!['\n']);
        }
    }
    assert(gap@ =~= gap_after(prose@));
    gap
}

/// What stands behind the `## Facts` section: a blank line and the prose, where
/// there is any.
pub open spec fn closing(prose_after: Seq<char>) -> Seq<char> {
    if prose_after.len() == 0 {
        Seq::empty()
    } else {
        seq!['\n'] + prose_after
    }
}

/// The body of a note: the prose before, the `## Facts` section, the prose after.
pub open spec fn note_body(p: NoteRegions, bullets: Seq<Seq<char>>) -> Seq<char> {
    p.prose_before + gap_after(p.prose_before) + facts_section(p.facts_body, bullets) + closing(
        p.prose_after,
    )
}

/// The user's frontmatter lines as they are written again; none where they are
/// blank.
pub open spec fn own_text(user: Seq<char>) -> Seq<char> {
    if text::trimmed(user).len() > 0 {
        ended(user)
    } else {
        Seq::empty()
    }
}

/// The frontmatter of a note: the user's lines, then the `chat-notes` block;
/// nothing where there is neither.
pub open spec fn note_head(user: Seq<char>, provenance: Seq<(Seq<char>, Seq<char>)>) -> Seq<char> {
    if text::trimmed(user).len() == 0 && provenance.len() == 0 {
        Seq::empty()
    } else {
        "---\n"@ + own_text(user) + chat_notes_block(provenance) + "---\n"@
    }
}

/// What has to stand between the frontmatter and the body for the body to begin
/// with a blank line.
pub open spec fn lead_before(head: Seq<char>, body: Seq<char>) -> Seq<char> {
    if head.len() == 0 || text::begins(body, seq!['\n']) {
        Seq::empty()
    } else {
        seq!['\n']
    }
}

/// The whole note, ended by a line feed.
pub open spec fn note_text(
    p: NoteRegions,
    provenance: Seq<(Seq<char>, Seq<char>)>,
    bullets: Seq<Seq<char>>,
) -> Seq<char> {
    let head = note_head(p.user_frontmatter, provenance);
    let body = note_body(p, bullets);
    ended(head + lead_before(head, body) + body)
}

/// Puts a note together from its regions, the merged provenance and the
/// bullets to append to the `## Facts` section. The user's regions go in as they
/// are.
pub fn render_note(
    parsed: &ParsedNote,
    provenance: &Vec<(String, String)>,
    new_bullets: &Vec<String>,
) -> (r: String)
    ensures
        r@ == note_text(parsed@, pairs(provenance@), text::texts(new_bullets@)),
{
    let section = render_facts_section(parsed.facts_body.as_str(), new_bullets);
    let mut body: String = parsed.prose_before.clone();
    body.append(gap_behind(parsed.prose_before.as_str()).as_str());
    body.append(section.as_str());
    if !parsed.prose_after.as_str().is_empty() {
        body.push('\n');
        body.append(parsed.prose_after.as_str());
    }
    assert(body@ =~= note_body(parsed@, text::texts(new_bullets@)));
    let mut content: String = String::new();
    let user = parsed.user_frontmatter.as_str();
    let has_user = !text::trim(user).is_empty();
    if has_user || !provenance.is_empty() {
        content.append("---\n");
        if has_user {
            content.append(end_line(user.to_owned()).as_str());
        }
        content.append(render_chat_notes_block(provenance).as_str());
        content.append("---\n");
        proof {
            reveal_strlit("---\n");
        }
    }
    assert(content@ =~= note_head(user@, pairs(provenance@)));
    proof {
        reveal_strlit("\n");
        assert("\n"@ =~= seq!['\n']);
    }
    if !content.as_str().is_empty() && !text::starts_with(body.as_str(), "\n") {
        content.push('\n');
    }
    content.append(body.as_str());
    let ghost head = note_head(user@, pairs(provenance@));
    assert(content@ =~= head + lead_before(head, body@) + body@);
    end_line(content)
}

/// The lines of `new` that a walk along `old` does not match, each after a `+`.
pub open spec fn added_lines(old_lines: Seq<Seq<char>>, new_lines: Seq<Seq<char>>) -> Seq<Seq<char>>
    decreases new_lines.len(),
{
    if new_lines.len() == 0 {
        Seq::empty()
    } else if old_lines.len() > 0 && old_lines[0] == new_lines[0] {
        added_lines(old_lines.drop_first(), new_lines.drop_first())
    } else {
        seq![seq!['+'] + new_lines[0]] + added_lines(old_lines, new_lines.drop_first())
    }
}

/// The additions that lead from one text to the other, a line each.
pub open spec fn additions(before: Seq<char>, after: Seq<char>) -> Seq<char> {
    text::joined(added_lines(text::lines_of(before), text::lines_of(after)), seq!['\n'])
}

/// The lines of `new` without a match in `old`, for the tray's summary.
pub fn additive_diff(before: &str, after: &str) -> (r: String)
    ensures
        r@ == additions(before@, after@),
{
    proof {
        reveal_strlit("\n");
        assert("\n"@ =~= seq!['\n']);
    }
    let old_lines = text::lines(before);
    let new_lines = text::lines(after);
    let ghost o = text::texts(old_lines@);
    let ghost n = text::texts(new_lines@);
    let mut out: Vec<String> = Vec::new();
    let mut i: usize = 0;
    let mut k: usize = 0;
    assert(o.skip(0) =~= o);
    assert(n.skip(0) =~= n);
    assert(text::texts(out@) + added_lines(o, n) =~= added_lines(o, n));
    while k < new_lines.len()
        invariant
            o == text::texts(old_lines@),
            n == text::texts(new_lines@),
            i <= old_lines.len(),
            k <= new_lines.len(),
            text::texts(out@) + added_lines(o.skip(i as int), n.skip(k as int)) == added_lines(o, n),
        decreases new_lines.len() - k,
    {
        let ghost os = o.skip(i as int);
        let ghost ns = n.skip(k as int);
        assert(ns.drop_first() =~= n.skip(k + 1));
        if i < old_lines.len() && text::same(old_lines[i].as_str(), new_lines[k].as_str()) {
            assert(os.drop_first() =~= o.skip(i + 1));
            i += 1;
        } else {
            assert(!(os.len() > 0 && os[0] == ns[0]));
            let ghost before_out = text::texts(out@);
            let mut line = String::from_str("+");
            proof {
                reveal_strlit("+");
                assert("+"@ =~= seq!['+']);
            }
            line.append(new_lines[k].as_str());
            proof {
                text::lemma_texts_push(out@, line);
            }
            out.push(line);
            assert(before_out + (seq![line@] + added_lines(os, n.skip(k + 1))) =~= text::texts(out@)
                + added_lines(os, n.skip(k + 1)));
        }
        k += 1;
    }
    assert(n.skip(k as int).len() == 0);
    assert(text::texts(out@) + added_lines(o.skip(i as int), n.skip(k as int)) =~= text::texts(
        out@,
    ));
    text::join(&out, "\n")
}

// ---------------------------------------------------------------------------
// Applying facts
// ---------------------------------------------------------------------------

/// The ids of the facts.
pub open spec fn fact_keys(facts: Seq<StagedFact>) -> Seq<Seq<char>> {
    facts.map_values(|f: StagedFact| fact_key(f))
}

/// The ids of the pairs.
pub open spec fn pair_keys(provenance: Seq<(Seq<char>, Seq<char>)>) -> Seq<Seq<char>> {
    provenance.map_values(|p: (Seq<char>, Seq<char>)| p.0)
}

/// The facts whose id is neither among `ids` nor that of an earlier fact.
pub open spec fn fresh_facts(facts: Seq<StagedFact>, ids: Seq<Seq<char>>) -> Seq<StagedFact>
    decreases facts.len(),
{
    if facts.len() == 0 {
        Seq::empty()
    } else {
        let before = fresh_facts(facts.drop_last(), ids);
        let f = facts.last();
        if ids.contains(fact_key(f)) || fact_keys(before).contains(fact_key(f)) {
            before
        } else {
            before.push(f)
        }
    }
}

/// The pairs that file `facts` under one chat message.
pub open spec fn filed_under(facts: Seq<StagedFact>, chat: Seq<char>) -> Seq<
    (Seq<char>, Seq<char>),
> {
    facts.map_values(|f: StagedFact| (fact_key(f), chat))
}

/// The bullets for the facts.
pub open spec fn fact_bullets(facts: Seq<StagedFact>) -> Seq<Seq<char>> {
    facts.map_values(|f: StagedFact| fact_bullet(f))
}

/// The least confidence among the facts; infinite where there are none.
pub open spec fn least_confidence(facts: Seq<StagedFact>) -> Confidence
    decreases facts.len(),
{
    if facts.len() == 0 {
        Confidence { bits: staging::INFINITE_CONFIDENCE_BITS }
    } else {
        let before = least_confidence(facts.drop_last());
        let c = facts.last().confidence;
        if c.less(before) {
            c
        } else {
            before
        }
    }
}

/// The change that files `facts` in a note.
pub open spec fn facts_applied(
    note_path: Seq<char>,
    existing: Option<Seq<char>>,
    facts: Seq<StagedFact>,
    chat: Seq<char>,
) -> staging::NoteChangeView {
    let original = match existing {
        Some(c) => c,
        None => Seq::empty(),
    };
    let kind = if existing is Some {
        ChangeKind::Update
    } else {
        ChangeKind::Create
    };
    let parsed = note_regions(original);
    let added = fresh_facts(facts, pair_keys(parsed.provenance));
    if added.len() == 0 {
        staging::NoteChangeView {
            kind,
            note_path,
            diff: Seq::empty(),
            new_content: original,
            facts: Seq::empty(),
            confidence: Confidence { bits: staging::FULL_CONFIDENCE_BITS },
            conflicts: Seq::empty(),
            suggestions: Seq::empty(),
        }
    } else {
        let content = note_text(
            parsed,
            parsed.provenance + filed_under(added, chat),
            fact_bullets(added),
        );
        staging::NoteChangeView {
            kind,
            note_path,
            diff: additions(original, content),
            new_content: content,
            facts: added,
            confidence: least_confidence(added),
            conflicts: Seq::empty(),
            suggestions: Seq::empty(),
        }
    }
}

/// Whether some pair carries the id.
fn has_pair(provenance: &Vec<(String, String)>, id: &str) -> (r: bool)
    ensures
        r == pair_keys(pairs(provenance@)).contains(id@),
{
    let ghost keys = pair_keys(pairs(provenance@));
    let mut i: usize = 0;
    while i < provenance.len()
        invariant
            keys == pair_keys(pairs(provenance@)),
            i <= provenance.len(),
            forall|k: int| 0 <= k < i ==> keys[k] != id@,
        decreases provenance.len() - i,
    {
        assert(keys[i as int] == provenance@[i as int].0@);
        if text::same(provenance[i].0.as_str(), id) {
            return true;
        }
        i += 1;
    }
    false
}

/// The change that files `facts` in a note, whose content on disk is
/// `existing_content` (`None` for a new note). A fact whose id the note's
/// `chat-notes` block already holds is left out, and so is a second one with
/// the same id.
pub fn apply_facts_to_note(
    note_path: &str,
    existing_content: Option<&str>,
    facts: &Vec<StagedFact>,
    source_chat_id: &str,
) -> (r: NoteChange)
    requires
        forall|i: int| 0 <= i < facts@.len() ==> (#[trigger] facts@[i]).wf(),
    ensures
        r@ == facts_applied(note_path@, text::opt_str(existing_content), facts@, source_chat_id@),
{
    let original: &str = match existing_content {
        Some(c) => c,
        None => "",
    };
    proof {
        reveal_strlit("");
        assert(""@ =~= Seq::<char>::empty());
    }
    let kind = if existing_content.is_some() {
        ChangeKind::Update
    } else {
        ChangeKind::Create
    };
    let parsed = parse_note(original);
    let ghost held = parsed@.provenance;
    let ghost ids = pair_keys(held);
    let mut provenance: Vec<(String, String)> = Vec::new();
    let mut k: usize = 0;
    while k < parsed.provenance.len()
        invariant
            k <= parsed.provenance.len(),
            held == pairs(parsed.provenance@),
            pairs(provenance@) =~= held.take(k as int),
        decreases parsed.provenance.len() - k,
    {
        let p = (parsed.provenance[k].0.clone(), parsed.provenance[k].1.clone());
        proof {
            lemma_pairs_push(provenance@, p);
        }
        provenance.push(p);
        k += 1;
    }
    assert(held.take(k as int) =~= held);
    let mut added: Vec<StagedFact> = Vec::new();
    let mut new_bullets: Vec<String> = Vec::new();
    let mut least: Confidence = Confidence { bits: staging::INFINITE_CONFIDENCE_BITS };
    let mut i: usize = 0;
    assert(held + filed_under(added@, source_chat_id@) =~= held);
    assert(facts@.take(0) =~= Seq::<StagedFact>::empty());
    assert(text::texts(new_bullets@) =~= fact_bullets(added@));
    while i < facts.len()
        invariant
            i <= facts.len(),
            forall|j: int| 0 <= j < facts@.len() ==> (#[trigger] facts@[j]).wf(),
            ids == pair_keys(held),
            added@ == fresh_facts(facts@.take(i as int), ids),
            pairs(provenance@) == held + filed_under(added@, source_chat_id@),
            text::texts(new_bullets@) == fact_bullets(added@),
            least == least_confidence(added@),
        decreases facts.len() - i,
    {
        let fact = &facts[i];
        let id = fact_id(fact);
        let ghost so_far = added@;
        assert(facts@.take(i + 1).drop_last() =~= facts@.take(i as int));
        assert(facts@.take(i + 1).last() == *fact);
        assert(pair_keys(pairs(provenance@)) =~= ids + fact_keys(so_far));
        assert((ids + fact_keys(so_far)).contains(id@) == (ids.contains(id@) || fact_keys(
            so_far,
        ).contains(id@))) by {
            if ids.contains(id@) {
                let q = choose|q: int| 0 <= q < ids.len() && ids[q] == id@;
                assert((ids + fact_keys(so_far))[q] == id@);
            }
            if fact_keys(so_far).contains(id@) {
                let q = choose|q: int|
                    0 <= q < fact_keys(so_far).len() && fact_keys(so_far)[q] == id@;
                assert((ids + fact_keys(so_far))[ids.len() + q] == id@);
            }
        }
        if !has_pair(&provenance, id.as_str()) {
            let bullet = render_fact_bullet(fact);
            proof {
                text::lemma_texts_push(new_bullets@, bullet);
            }
            new_bullets.push(bullet);
            let p = (id, source_chat_id.to_owned());
            proof {
                lemma_pairs_push(provenance@, p);
            }
            provenance.push(p);
            added.push(fact.clone());
            if fact.confidence.is_less(least) {
                least = fact.confidence;
            }
            assert(added@ =~= so_far.push(*fact));
            assert(added@.drop_last() =~= so_far);
            assert(filed_under(added@, source_chat_id@) =~= filed_under(
                so_far,
                source_chat_id@,
            ).push((fact_key(*fact), source_chat_id@)));
            assert(fact_bullets(added@) =~= fact_bullets(so_far).push(fact_bullet(*fact)));
        }
        i += 1;
    }
    assert(facts@.take(i as int) =~= facts@);
    let conflicts: Vec<staging::Conflict> = Vec::new();
    let suggestions: Vec<staging::DisambiguationSuggestion> = Vec::new();
    if added.is_empty() {
        let none: Vec<StagedFact> = Vec::new();
        return NoteChange {
            kind,
            note_path: note_path.to_owned(),
            diff: String::new(),
            new_content: original.to_owned(),
            facts: none,
            confidence: Confidence { bits: staging::FULL_CONFIDENCE_BITS },
            conflicts,
            suggestions,
        };
    }
    let new_content = render_note(&parsed, &provenance, &new_bullets);
    let diff = additive_diff(original, new_content.as_str());
    NoteChange {
        kind,
        note_path: note_path.to_owned(),
        diff,
        new_content,
        facts: added,
        confidence: least,
        conflicts,
        suggestions,
    }
}

// ---------------------------------------------------------------------------
// Laws
// ---------------------------------------------------------------------------

/// What is written between quotes is what is read from between them.
pub proof fn law_quoting_round_trip(s: Seq<char>, rest: Seq<char>)
    ensures
        quoted(escaped(s) + (seq!['"'] + rest)) == Some((s, rest)),
    decreases s.len(),
{
    let t = escaped(s) + (seq!['"'] + rest);
    if s.len() == 0 {
        assert(t =~= seq!['"'] + rest);
        assert(t.skip(1) =~= rest);
    } else {
        let tail = escaped(s.drop_first()) + (seq!['"'] + rest);
        law_quoting_round_trip(s.drop_first(), rest);
        assert(t =~= escaped_char(s[0]) + tail);
        if s[0] == '\\' || s[0] == '"' {
            assert(t.skip(2) =~= tail);
            assert(t[1] == s[0]);
        } else {
            assert(t.skip(1) =~= tail);
        }
        assert(seq![s[0]] + s.drop_first() =~= s);
    }
}

/// A recorded pair is read back from its line.
pub proof fn law_pair_round_trip(p: (Seq<char>, Seq<char>))
    ensures
        quoted_pair(pair_line(p)) == Some(p),
        text::trimmed(pair_line(p)) != "facts:"@,
{
    reveal_strlit("    \"");
    reveal_strlit("\": \"");
    reveal_strlit("facts:");
    let line = pair_line(p);
    let d = escaped(p.1) + (seq!['"'] + Seq::<char>::empty());
    let b = seq![':', ' ', '"'] + d;
    let a = escaped(p.0) + (seq!['"'] + b);
    assert(line =~= seq![' ', ' ', ' ', ' ', '"'] + a);
    assert(text::trimmed_start(line) == seq!['"'] + a) by {
        reveal_with_fuel(text::trimmed_start, 5);
        assert(line.drop_first().drop_first().drop_first().drop_first() =~= seq!['"'] + a);
    }
    let q = seq!['"'] + a;
    assert(q.take(1) =~= seq!['"']);
    assert(q.skip(1) =~= a);
    law_quoting_round_trip(p.0, b);
    assert(text::trimmed_start(b) == b);
    assert(b.take(1) =~= seq![':']);
    let c = b.skip(1);
    assert(c =~= seq![' ', '"'] + d);
    assert(text::trimmed_start(c) == seq!['"'] + d) by {
        reveal_with_fuel(text::trimmed_start, 2);
        assert(c.drop_first() =~= seq!['"'] + d);
    }
    let e = seq!['"'] + d;
    assert(e.take(1) =~= seq!['"']);
    assert(e.skip(1) =~= d);
    law_quoting_round_trip(p.1, Seq::empty());
    lemma_trimmed_end_first(q);
    assert("facts:"@[0] == 'f');
}

/// Trimming the end keeps a first character that is no white space.
pub proof fn lemma_trimmed_end_first(s: Seq<char>)
    requires
        s.len() > 0,
        !text::is_space(s[0]),
    ensures
        text::trimmed_end(s).len() > 0,
        text::trimmed_end(s)[0] == s[0],
    decreases s.len(),
{
    if text::is_space(s.last()) {
        lemma_trimmed_end_first(s.drop_last());
    }
}

/// No id and no chat in the pairs holds a line feed.
pub open spec fn single_line(provenance: Seq<(Seq<char>, Seq<char>)>) -> bool {
    forall|i: int|
        0 <= i < provenance.len() ==> text::free_of((#[trigger] provenance[i]).0, '\n')
            && text::free_of(provenance[i].1, '\n')
}

/// Escaping brings no line feed in.
proof fn lemma_escaped_free(s: Seq<char>)
    requires
        text::free_of(s, '\n'),
    ensures
        text::free_of(escaped(s), '\n'),
    decreases s.len(),
{
    if s.len() > 0 {
        assert forall|i: int| 0 <= i < s.drop_first().len() implies s.drop_first()[i] != '\n' by {
            assert(s.drop_first()[i] == s[i + 1]);
        }
        lemma_escaped_free(s.drop_first());
        assert(s[0] != '\n');
        let e = escaped_char(s[0]);
        assert(text::free_of(e, '\n'));
        assert forall|i: int| 0 <= i < escaped(s).len() implies escaped(s)[i] != '\n' by {
            if i >= e.len() {
                assert(escaped(s)[i] == escaped(s.drop_first())[i - e.len()]);
            } else {
                assert(escaped(s)[i] == e[i]);
            }
        }
    }
}

/// The line of a single-line pair holds no line feed and ends in a quote.
proof fn lemma_pair_line_free(p: (Seq<char>, Seq<char>))
    requires
        text::free_of(p.0, '\n'),
        text::free_of(p.1, '\n'),
    ensures
        text::free_of(pair_line(p), '\n'),
        pair_line(p).len() > 4,
        pair_line(p).last() == '"',
        pair_line(p)[0] == ' ',
{
    reveal_strlit("    \"");
    reveal_strlit("\": \"");
    lemma_escaped_free(p.0);
    lemma_escaped_free(p.1);
    let x = "    \""@;
    let k = escaped(p.0);
    let y = "\": \""@;
    let v = escaped(p.1);
    let line = pair_line(p);
    assert forall|i: int| 0 <= i < line.len() implies line[i] != '\n' by {
        if i < x.len() {
            assert(line[i] == x[i]);
        } else if i < x.len() + k.len() {
            assert(line[i] == k[i - x.len()]);
        } else if i < x.len() + k.len() + y.len() {
            assert(line[i] == y[i - x.len() - k.len()]);
        } else if i < x.len() + k.len() + y.len() + v.len() {
            assert(line[i] == v[i - x.len() - k.len() - y.len()]);
        }
    }
}

/// The lines of the recorded pairs are the pairs' lines.
proof fn lemma_pair_lines(provenance: Seq<(Seq<char>, Seq<char>)>)
    requires
        single_line(provenance),
    ensures
        text::lines_of(pair_lines(provenance)) == provenance.map_values(
            |p: (Seq<char>, Seq<char>)| pair_line(p),
        ),
        provenance.len() > 0 ==> pair_lines(provenance).len() > 0 && pair_lines(provenance).last()
            == '\n',
    decreases provenance.len(),
{
    let f = |p: (Seq<char>, Seq<char>)| pair_line(p);
    if provenance.len() == 0 {
        assert(provenance.map_values(f) =~= Seq::<Seq<char>>::empty());
        assert(text::lines_of(pair_lines(provenance)) =~= Seq::<Seq<char>>::empty());
    } else {
        let front = provenance.drop_last();
        let p = provenance.last();
        assert(single_line(front)) by {
            assert forall|i: int| 0 <= i < front.len() implies text::free_of(
                (#[trigger] front[i]).0,
                '\n',
            ) && text::free_of(front[i].1, '\n') by {
                assert(front[i] == provenance[i]);
            }
        }
        lemma_pair_lines(front);
        lemma_pair_line_free(p);
        text::lemma_lines_single(pair_line(p));
        let l = pair_line(p).push('\n');
        if front.len() > 0 {
            text::lemma_lines_concat(pair_lines(front), l);
        } else {
            assert(pair_lines(front) =~= Seq::<char>::empty());
            assert(pair_lines(front) + l =~= l);
        }
        assert(provenance.map_values(f) =~= front.map_values(f) + seq![pair_line(p)]);
    }
}

/// Each of the pairs' lines is read back as its pair.
proof fn lemma_pairs_read_back(provenance: Seq<(Seq<char>, Seq<char>)>)
    ensures
        provenance_of(
            provenance.map_values(|p: (Seq<char>, Seq<char>)| pair_line(p)),
            true,
        ) == provenance,
    decreases provenance.len(),
{
    let f = |p: (Seq<char>, Seq<char>)| pair_line(p);
    let lines = provenance.map_values(f);
    if provenance.len() > 0 {
        let rest = provenance.drop_first();
        assert(lines.drop_first() =~= rest.map_values(f));
        lemma_pairs_read_back(rest);
        law_pair_round_trip(provenance[0]);
        assert(lines[0] == pair_line(provenance[0]));
        assert(seq![provenance[0]] + rest =~= provenance);
    } else {
        assert(provenance_of(lines, true) =~= provenance);
    }
}

/// `line_from` passes over lines that do not match.
pub proof fn lemma_line_from_skips(lines: Seq<Seq<char>>, target: Seq<char>, i: int, n: int)
    requires
        0 <= i <= n < lines.len(),
        forall|k: int| i <= k < n ==> text::trimmed_end(#[trigger] lines[k]) != target,
        text::trimmed_end(lines[n]) == target,
    ensures
        line_from(lines, target, i) == Some(n),
    decreases n - i,
{
    if i < n {
        assert(text::trimmed_end(lines[i]) != target);
        lemma_line_from_skips(lines, target, i + 1, n);
    }
}

/// What `line_from` says of the lines it passes over.
pub proof fn lemma_line_from(lines: Seq<Seq<char>>, target: Seq<char>, i: int)
    requires
        0 <= i <= lines.len(),
    ensures
        match line_from(lines, target, i) {
            Some(n) => i <= n < lines.len() && text::trimmed_end(lines[n]) == target && (forall|k: int|
                i <= k < n ==> text::trimmed_end(#[trigger] lines[k]) != target),
            None => forall|k: int|
                i <= k < lines.len() ==> text::trimmed_end(#[trigger] lines[k]) != target,
        },
    decreases lines.len() - i,
{
    if i < lines.len() && text::trimmed_end(lines[i]) != target {
        lemma_line_from(lines, target, i + 1);
    }
}

/// Trimming the end leaves the beginning.
proof fn lemma_trimmed_end_prefix(s: Seq<char>)
    ensures
        text::trimmed_end(s).len() <= s.len(),
        forall|k: int|
            0 <= k < text::trimmed_end(s).len() ==> #[trigger] text::trimmed_end(s)[k] == s[k],
    decreases s.len(),
{
    if s.len() > 0 && text::is_space(s.last()) {
        lemma_trimmed_end_prefix(s.drop_last());
    }
}

/// An indented row does not begin the `chat-notes` block.
proof fn lemma_indented(row: Seq<char>)
    requires
        indented(row),
    ensures
        text::trimmed_end(row) != "chat-notes:"@,
{
    reveal_strlit("chat-notes:");
    lemma_trimmed_end_prefix(row);
    if text::trimmed_end(row) == "chat-notes:"@ {
        assert(text::trimmed_end(row)[0] == 'c');
    }
}

/// The rows that are the user's are rows, and none of them begins the block.
proof fn lemma_own_rows(rows: Seq<Seq<char>>, in_block: bool)
    requires
        text::all_rows(rows),
    ensures
        text::all_rows(own_rows(rows, in_block)),
        forall|k: int|
            0 <= k < own_rows(rows, in_block).len() ==> text::trimmed_end(
                #[trigger] own_rows(rows, in_block)[k],
            ) != "chat-notes:"@,
    decreases rows.len(),
{
    if rows.len() > 0 {
        let rest = rows.drop_first();
        assert forall|k: int| 0 <= k < rest.len() implies text::is_row(#[trigger] rest[k]) by {
            assert(rest[k] == rows[k + 1]);
        }
        lemma_own_rows(rest, true);
        lemma_own_rows(rest, false);
        assert(text::is_row(rows[0]));
        let own = own_rows(rows, in_block);
        if !(text::trimmed_end(rows[0]) == "chat-notes:"@ || (in_block && indented(rows[0]))) {
            let tail = own_rows(rest, false);
            assert forall|k: int| 0 <= k < own.len() implies text::is_row(#[trigger] own[k])
                && text::trimmed_end(own[k]) != "chat-notes:"@ by {
                if k > 0 {
                    assert(own[k] == tail[k - 1]);
                }
            }
        }
    }
}

/// A row that is not among the rows is not among the user's.
proof fn lemma_own_rows_lack(rows: Seq<Seq<char>>, in_block: bool, row: Seq<char>)
    requires
        forall|k: int| 0 <= k < rows.len() ==> #[trigger] rows[k] != row,
    ensures
        forall|k: int|
            0 <= k < own_rows(rows, in_block).len() ==> #[trigger] own_rows(rows, in_block)[k]
                != row,
    decreases rows.len(),
{
    if rows.len() > 0 {
        let rest = rows.drop_first();
        assert forall|k: int| 0 <= k < rest.len() implies #[trigger] rest[k] != row by {
            assert(rest[k] == rows[k + 1]);
        }
        lemma_own_rows_lack(rest, true, row);
        lemma_own_rows_lack(rest, false, row);
        assert(rows[0] != row);
        let own = own_rows(rows, in_block);
        if !(text::trimmed_end(rows[0]) == "chat-notes:"@ || (in_block && indented(rows[0]))) {
            let tail = own_rows(rest, false);
            assert forall|k: int| 0 <= k < own.len() implies #[trigger] own[k] != row by {
                if k > 0 {
                    assert(own[k] == tail[k - 1]);
                }
            }
        } else {
            assert(own == own_rows(rest, true));
        }
    }
}

/// No row but the first is a fence.
spec fn unfenced(rows: Seq<Seq<char>>) -> bool {
    forall|k: int| 0 < k < rows.len() ==> #[trigger] rows[k] != "---\n"@
}

/// Where no row but the first is a fence, none of the user's but the first is.
proof fn lemma_own_rows_unfenced(rows: Seq<Seq<char>>)
    requires
        unfenced(rows),
    ensures
        unfenced(own_rows(rows, false)),
{
    if rows.len() > 0 {
        let rest = rows.drop_first();
        assert forall|k: int| 0 <= k < rest.len() implies #[trigger] rest[k] != "---\n"@ by {
            assert(rest[k] == rows[k + 1]);
        }
        lemma_own_rows_lack(rest, true, "---\n"@);
        lemma_own_rows_lack(rest, false, "---\n"@);
        let own = own_rows(rows, false);
        assert forall|k: int| 0 < k < own.len() implies #[trigger] own[k] != "---\n"@ by {
            if text::trimmed_end(rows[0]) == "chat-notes:"@ {
                assert(own[k] == own_rows(rest, true)[k]);
            } else {
                assert(own[k] == own_rows(rest, false)[k - 1]);
            }
        }
    }
}

proof fn lemma_fence_is_row()
    ensures
        text::is_row("---\n"@),
        "---\n"@.len() == 4,
        "\n---\n"@ == seq!['\n'] + "---\n"@,
        "\n---\n"@.len() == 5,
{
    reveal_strlit("---\n");
    reveal_strlit("\n---\n");
    assert("\n---\n"@ =~= seq!['\n'] + "---\n"@);
    assert(text::free_of("---\n"@.drop_last(), '\n'));
}

/// A fence after a line feed is a row.
proof fn lemma_fence_at(s: Seq<char>, q: int)
    requires
        text::occurs_at(s, "\n---\n"@, q),
    ensures
        !unfenced(text::rows_of(s)),
{
    lemma_fence_is_row();
    let a = s.take(q + 1);
    let fence = "---\n"@;
    let w = s.subrange(q, q + 5);
    assert(w[0] == '\n');
    assert(a.last() == '\n');
    assert(s.subrange(q + 1, q + 5) =~= fence) by {
        assert forall|k: int| 0 <= k < 4 implies s.subrange(q + 1, q + 5)[k] == fence[k] by {
            assert(w[k + 1] == s[q + 1 + k]);
            assert(("\n---\n"@)[k + 1] == fence[k]);
        }
    }
    let b = s.skip(q + 5);
    assert(s =~= a + (fence + b));
    text::lemma_rows_concat(a, fence + b);
    text::lemma_rows_first(fence, b);
    text::lemma_rows(a);
    let rows = text::rows_of(s);
    let n = text::rows_of(a).len() as int;
    assert(rows[n] == fence);
    assert(n > 0);
}

/// A row that is a fence, but for the first, is a fence after a line feed.
proof fn lemma_fence_row(s: Seq<char>, k: int) -> (q: int)
    requires
        s.len() > 0,
        s.last() == '\n',
        0 < k < text::rows_of(s).len(),
        text::rows_of(s)[k] == "---\n"@,
    ensures
        text::occurs_at(s, "\n---\n"@, q),
{
    lemma_fence_is_row();
    let rows = text::rows_of(s);
    text::lemma_rows(s);
    let front = rows.take(k);
    assert forall|i: int| 0 <= i < front.len() implies text::is_row(#[trigger] front[i]) by {
        assert(front[i] == rows[i]);
    }
    text::lemma_glued_ends(front);
    let a = text::glued(front);
    let rest = rows.skip(k + 1);
    assert(rows =~= front + (seq![rows[k]] + rest));
    text::lemma_glued_add(front, seq![rows[k]] + rest);
    lemma_glued_first(rows[k], rest);
    let b = text::glued(rest);
    assert(s =~= a + ("---\n"@ + b));
    let q = a.len() - 1;
    assert(s.subrange(q, q + 5) =~= "\n---\n"@) by {
        let w = s.subrange(q, q + 5);
        assert(w[0] == a.last());
        assert forall|i: int| 0 <= i < 5 implies w[i] == ("\n---\n"@)[i] by {
            if i > 0 {
                assert(w[i] == ("---\n"@)[i - 1]);
            }
        }
    }
    q
}

/// The frontmatter of a note ends at the first fence.
proof fn lemma_frontmatter_unfenced(content: Seq<char>)
    ensures
        match frontmatter_split(content).0 {
            Some(fm) => text::all_rows(frontmatter_rows(fm)) && unfenced(frontmatter_rows(fm)),
            None => true,
        },
{
    match frontmatter_split(content).0 {
        Some(fm) => {
            let rest = text::without_prefix(content, "---\n"@)->0;
            let whole = fm.push('\n');
            let fence = "\n---\n"@;
            lemma_fence_is_row();
            reveal_strlit("\n---");
            text::lemma_rows(whole);
            text::lemma_found_from(rest, fence, 0);
            let rows = frontmatter_rows(fm);
            assert(whole =~= rest.take(whole.len() as int)) by {
                match text::found(rest, fence) {
                    Some(end) => {
                        let w = rest.subrange(end, end + 5);
                        assert(w[0] == rest[end]);
                    },
                    None => {
                        let tail = rest.skip(rest.len() - 4);
                        assert(tail[0] == rest[rest.len() - 4]);
                    },
                }
            }
            assert forall|k: int| 0 < k < rows.len() implies #[trigger] rows[k] != "---\n"@ by {
                if rows[k] == "---\n"@ {
                    let q = lemma_fence_row(whole, k);
                    assert(rest.subrange(q, q + 5) =~= whole.subrange(q, q + 5));
                    assert(text::occurs_at(rest, fence, q));
                }
            }
        },
        None => {},
    }
}

/// What a note's frontmatter leaves the user: rows, none of which begins the
/// block, and none of which but the first is a fence.
proof fn lemma_user_rows(content: Seq<char>)
    ensures
        ({
            let user = note_regions(content).user_frontmatter;
            let rows = text::rows_of(user);
            &&& text::all_rows(rows)
            &&& unfenced(rows)
            &&& user.len() > 0 ==> user.last() == '\n'
            &&& forall|k: int|
                0 <= k < rows.len() ==> text::trimmed_end(#[trigger] rows[k]) != "chat-notes:"@
        }),
{
    let user = note_regions(content).user_frontmatter;
    match frontmatter_split(content).0 {
        Some(fm) => {
            let rows = frontmatter_rows(fm);
            let own = own_rows(rows, false);
            lemma_frontmatter_unfenced(content);
            lemma_own_rows(rows, false);
            lemma_own_rows_unfenced(rows);
            text::lemma_rows_of_glued(own);
            text::lemma_glued_ends(own);
        },
        None => {
            assert(text::rows_of(user) =~= Seq::<Seq<char>>::empty());
        },
    }
}

/// The pairs that a frontmatter yields hold no line feed.
proof fn lemma_provenance_single_line(lines: Seq<Seq<char>>, in_facts: bool)
    requires
        forall|k: int| 0 <= k < lines.len() ==> text::free_of(#[trigger] lines[k], '\n'),
    ensures
        single_line(provenance_of(lines, in_facts)),
    decreases lines.len(),
{
    if lines.len() > 0 {
        let rest = lines.drop_first();
        assert forall|k: int| 0 <= k < rest.len() implies text::free_of(#[trigger] rest[k], '\n') by {
            assert(rest[k] == lines[k + 1]);
        }
        lemma_provenance_single_line(rest, true);
        lemma_provenance_single_line(rest, false);
        assert(text::free_of(lines[0], '\n'));
        match quoted_pair(lines[0]) {
            Some(p) => {
                lemma_quoted_pair_free(lines[0]);
                let tail = provenance_of(rest, true);
                let all = seq![p] + tail;
                assert forall|i: int| 0 <= i < all.len() implies text::free_of(
                    (#[trigger] all[i]).0,
                    '\n',
                ) && text::free_of(all[i].1, '\n') by {
                    if i > 0 {
                        assert(all[i] == tail[i - 1]);
                    }
                }
            },
            None => {},
        }
    }
}

proof fn lemma_trimmed_start_free(s: Seq<char>)
    requires
        text::free_of(s, '\n'),
    ensures
        text::free_of(text::trimmed_start(s), '\n'),
    decreases s.len(),
{
    if s.len() > 0 && text::is_space(s[0]) {
        assert forall|i: int| 0 <= i < s.drop_first().len() implies s.drop_first()[i] != '\n' by {
            assert(s.drop_first()[i] == s[i + 1]);
        }
        lemma_trimmed_start_free(s.drop_first());
    }
}

proof fn lemma_skip_free(s: Seq<char>, n: int)
    requires
        text::free_of(s, '\n'),
        0 <= n <= s.len(),
    ensures
        text::free_of(s.skip(n), '\n'),
{
    assert forall|i: int| 0 <= i < s.skip(n).len() implies s.skip(n)[i] != '\n' by {
        assert(s.skip(n)[i] == s[i + n]);
    }
}

proof fn lemma_quoted_free(s: Seq<char>)
    requires
        text::free_of(s, '\n'),
    ensures
        match quoted(s) {
            Some((k, rest)) => text::free_of(k, '\n') && text::free_of(rest, '\n'),
            None => true,
        },
    decreases s.len(),
{
    if s.len() > 0 {
        assert(s[0] != '\n');
        lemma_skip_free(s, 1);
        if s[0] == '"' {
        } else if s[0] == '\\' {
            if s.len() > 1 {
                assert(s[1] != '\n');
                lemma_skip_free(s, 2);
                lemma_quoted_free(s.skip(2));
            }
        } else {
            lemma_quoted_free(s.skip(1));
        }
    }
}

proof fn lemma_quoted_pair_free(line: Seq<char>)
    requires
        text::free_of(line, '\n'),
    ensures
        match quoted_pair(line) {
            Some(p) => text::free_of(p.0, '\n') && text::free_of(p.1, '\n'),
            None => true,
        },
{
    if quoted_pair(line) is Some {
        lemma_trimmed_start_free(line);
        let t = text::trimmed_start(line);
        lemma_skip_free(t, 1);
        let a = t.skip(1);
        lemma_quoted_free(a);
        let (_, b) = quoted(a)->0;
        lemma_trimmed_start_free(b);
        let bt = text::trimmed_start(b);
        lemma_skip_free(bt, 1);
        let c = bt.skip(1);
        lemma_trimmed_start_free(c);
        let ct = text::trimmed_start(c);
        lemma_skip_free(ct, 1);
        lemma_quoted_free(ct.skip(1));
    }
}

/// The pairs that a note yields hold no line feed.
proof fn lemma_note_single_line(content: Seq<char>)
    ensures
        single_line(note_regions(content).provenance),
{
    match frontmatter_split(content).0 {
        Some(fm) => {
            let block = text::glued(block_rows(frontmatter_rows(fm), false));
            text::lemma_lines_free(block);
            lemma_provenance_single_line(text::lines_of(block), false);
        },
        None => {},
    }
}

/// The user's rows in front of a block are passed over.
proof fn lemma_rows_before_block(own: Seq<Seq<char>>, tail: Seq<Seq<char>>)
    requires
        forall|k: int| 0 <= k < own.len() ==> text::trimmed_end(#[trigger] own[k]) != "chat-notes:"@,
    ensures
        own_rows(own + tail, false) == own + own_rows(tail, false),
        block_rows(own + tail, false) == block_rows(tail, false),
    decreases own.len(),
{
    if own.len() == 0 {
        assert(own + tail =~= tail);
        assert(own + own_rows(tail, false) =~= own_rows(tail, false));
    } else {
        let rest = own.drop_first();
        assert forall|k: int| 0 <= k < rest.len() implies text::trimmed_end(#[trigger] rest[k])
            != "chat-notes:"@ by {
            assert(rest[k] == own[k + 1]);
        }
        lemma_rows_before_block(rest, tail);
        let all = own + tail;
        assert(all.drop_first() =~= rest + tail);
        assert(all[0] == own[0]);
        assert(own_rows(all, false) =~= own + own_rows(tail, false));
    }
}

/// Indented rows belong to the block they stand in.
proof fn lemma_rows_in_block(rows: Seq<Seq<char>>)
    requires
        forall|k: int| 0 <= k < rows.len() ==> indented(#[trigger] rows[k]),
    ensures
        own_rows(rows, true) == Seq::<Seq<char>>::empty(),
        block_rows(rows, true) == rows,
    decreases rows.len(),
{
    if rows.len() > 0 {
        let rest = rows.drop_first();
        assert forall|k: int| 0 <= k < rest.len() implies indented(#[trigger] rest[k]) by {
            assert(rest[k] == rows[k + 1]);
        }
        lemma_rows_in_block(rest);
        assert(indented(rows[0]));
        lemma_indented(rows[0]);
        assert(block_rows(rows, true) =~= rows);
    } else {
        assert(block_rows(rows, true) =~= rows);
    }
}

/// The rows of the recorded pairs.
spec fn pair_rows(provenance: Seq<(Seq<char>, Seq<char>)>) -> Seq<Seq<char>> {
    provenance.map_values(|p: (Seq<char>, Seq<char>)| pair_line(p).push('\n'))
}

/// The lines of the pairs, as rows: indented, and glued they are the text.
proof fn lemma_pair_rows(provenance: Seq<(Seq<char>, Seq<char>)>)
    requires
        single_line(provenance),
    ensures
        text::glued(pair_rows(provenance)) == pair_lines(provenance),
        text::all_rows(pair_rows(provenance)),
        forall|k: int| 0 <= k < provenance.len() ==> indented(#[trigger] pair_rows(provenance)[k]),
    decreases provenance.len(),
{
    let rows = pair_rows(provenance);
    if provenance.len() > 0 {
        let front = provenance.drop_last();
        assert(single_line(front)) by {
            assert forall|i: int| 0 <= i < front.len() implies text::free_of(
                (#[trigger] front[i]).0,
                '\n',
            ) && text::free_of(front[i].1, '\n') by {
                assert(front[i] == provenance[i]);
            }
        }
        lemma_pair_rows(front);
        assert(rows.drop_last() =~= pair_rows(front));
    }
    assert forall|k: int| 0 <= k < provenance.len() implies indented(#[trigger] rows[k])
        && text::is_row(rows[k]) by {
        let line = pair_line(provenance[k]);
        lemma_pair_line_free(provenance[k]);
        assert(rows[k] == line.push('\n'));
        assert(rows[k].drop_last() =~= line);
    }
}

/// The rows of a `chat-notes` block.
proof fn lemma_block_rows(provenance: Seq<(Seq<char>, Seq<char>)>)
    requires
        single_line(provenance),
    ensures
        ({
            let key = "chat-notes:"@.push('\n');
            let rows = seq![key] + (seq!["  facts:"@.push('\n')] + pair_rows(provenance));
            &&& text::rows_of(chat_notes_block(provenance)) == rows
            &&& text::all_rows(rows)
            &&& own_rows(rows, false) == Seq::<Seq<char>>::empty()
            &&& block_rows(rows, false) == seq!["  facts:"@.push('\n')] + pair_rows(provenance)
            &&& unfenced(rows)
            &&& rows[0] != "---\n"@
        }),
{
    let a = "chat-notes:"@;
    let b = "  facts:"@;
    reveal_strlit("chat-notes:\n  facts:\n");
    reveal_strlit("chat-notes:");
    reveal_strlit("  facts:");
    reveal_strlit("---\n");
    let key = a.push('\n');
    let inner = seq![b.push('\n')] + pair_rows(provenance);
    let rows = seq![key] + inner;
    lemma_pair_rows(provenance);
    assert(key.drop_last() =~= a);
    assert(b.push('\n').drop_last() =~= b);
    assert(text::is_row(key));
    assert(text::is_row(b.push('\n')));
    assert forall|k: int| 0 <= k < inner.len() implies indented(#[trigger] inner[k])
        && text::is_row(inner[k]) by {
        if k > 0 {
            assert(inner[k] == pair_rows(provenance)[k - 1]);
        }
    }
    assert forall|k: int| 0 <= k < rows.len() implies text::is_row(#[trigger] rows[k]) by {
        if k > 0 {
            assert(rows[k] == inner[k - 1]);
        }
    }
    lemma_glued_first(key, inner);
    lemma_glued_first(b.push('\n'), pair_rows(provenance));
    assert(chat_notes_block(provenance) =~= text::glued(rows));
    text::lemma_rows_of_glued(rows);
    lemma_rows_in_block(inner);
    assert(rows.drop_first() =~= inner);
    assert(text::trimmed_end(key) == a) by {
        assert(text::trimmed_end(a) == a);
    }
    assert forall|k: int| 0 < k < rows.len() implies #[trigger] rows[k] != "---\n"@ by {
        assert(rows[k] == inner[k - 1]);
        assert(indented(inner[k - 1]));
    }
}

/// The frontmatter lines of a rendered note.
spec fn front_text(user: Seq<char>, provenance: Seq<(Seq<char>, Seq<char>)>) -> Seq<char> {
    own_text(user) + chat_notes_block(provenance)
}

/// What follows the frontmatter of a rendered note.
spec fn tail_text(
    p: NoteRegions,
    provenance: Seq<(Seq<char>, Seq<char>)>,
    bullets: Seq<Seq<char>>,
) -> Seq<char> {
    let body = note_body(p, bullets);
    lead_before(note_head(p.user_frontmatter, provenance), body) + ended(body)
}

/// A rendered note is its fence, its frontmatter lines, a fence and the rest.
proof fn lemma_note_text_parts(
    p: NoteRegions,
    provenance: Seq<(Seq<char>, Seq<char>)>,
    bullets: Seq<Seq<char>>,
)
    requires
        provenance.len() > 0,
    ensures
        note_text(p, provenance, bullets) == "---\n"@ + (front_text(p.user_frontmatter, provenance)
            + ("---\n"@ + tail_text(p, provenance, bullets))),
{
    reveal_strlit("## Facts\n\n");
    let head = note_head(p.user_frontmatter, provenance);
    let body = note_body(p, bullets);
    assert(body.len() > 0);
    let all = head + lead_before(head, body) + body;
    assert(all.last() == body.last());
    assert(note_text(p, provenance, bullets) =~= "---\n"@ + (front_text(
        p.user_frontmatter,
        provenance,
    ) + ("---\n"@ + tail_text(p, provenance, bullets))));
}

/// The rows of the frontmatter lines of a rendered note.
proof fn lemma_front_rows(original: Seq<char>, provenance: Seq<(Seq<char>, Seq<char>)>)
    requires
        provenance.len() > 0,
        single_line(provenance),
    ensures
        ({
            let user = note_regions(original).user_frontmatter;
            let f = front_text(user, provenance);
            let rows = text::rows_of(f);
            &&& f.len() > 0
            &&& f.last() == '\n'
            &&& unfenced(rows)
            &&& text::glued(own_rows(rows, false)) == own_text(user)
            &&& block_rows(rows, false) == seq!["  facts:"@.push('\n')] + pair_rows(provenance)
        }),
{
    let user = note_regions(original).user_frontmatter;
    let own = own_text(user);
    let block = chat_notes_block(provenance);
    let f = front_text(user, provenance);
    lemma_user_rows(original);
    lemma_block_rows(provenance);
    lemma_pair_lines(provenance);
    assert(f.last() == block.last());
    assert(text::rows_of(Seq::<char>::empty()) =~= Seq::<Seq<char>>::empty());
    assert(own == user || own.len() == 0);
    text::lemma_rows_concat(own, block);
    let a = text::rows_of(own);
    let b = text::rows_of(block);
    lemma_rows_before_block(a, b);
    text::lemma_rows(own);
    assert(a + own_rows(b, false) =~= a);
    let rows = text::rows_of(f);
    assert forall|k: int| 0 < k < rows.len() implies #[trigger] rows[k] != "---\n"@ by {
        if k < a.len() {
            assert(rows[k] == a[k]);
        } else {
            assert(rows[k] == b[k - a.len()]);
        }
    }
}

/// The frontmatter of a rendered note is what was written between the fences.
proof fn lemma_frontmatter_read_back(
    original: Seq<char>,
    provenance: Seq<(Seq<char>, Seq<char>)>,
    bullets: Seq<Seq<char>>,
)
    requires
        provenance.len() > 0,
        single_line(provenance),
    ensures
        ({
            let p = note_regions(original);
            let f = front_text(p.user_frontmatter, provenance);
            &&& f.len() > 0
            &&& f.last() == '\n'
            &&& frontmatter_split(note_text(p, provenance, bullets)) == (
                Some(f.drop_last()),
                tail_text(p, provenance, bullets),
            )
        }),
{
    let p = note_regions(original);
    let f = front_text(p.user_frontmatter, provenance);
    let content = note_text(p, provenance, bullets);
    let tail = tail_text(p, provenance, bullets);
    lemma_note_text_parts(p, provenance, bullets);
    lemma_front_rows(original, provenance);
    lemma_fence_is_row();
    lemma_first_fence(f, tail);
    let fm = f.drop_last();
    let rest = f + ("---\n"@ + tail);
    assert(content.take(4) =~= "---\n"@);
    assert(content.skip(4) =~= rest);
    let at = fm.len() as int;
    assert(rest.take(at) =~= fm);
    assert(rest.skip(at + 5) =~= tail);
}

/// Where frontmatter lines hold no fence, the first is the one behind them.
proof fn lemma_first_fence(f: Seq<char>, tail: Seq<char>)
    requires
        f.len() > 0,
        f.last() == '\n',
        unfenced(text::rows_of(f)),
    ensures
        text::found(f + ("---\n"@ + tail), "\n---\n"@) == Some(f.len() - 1),
{
    lemma_fence_is_row();
    let fence = "\n---\n"@;
    let rest = f + ("---\n"@ + tail);
    let at = f.len() - 1;
    assert(text::occurs_at(rest, fence, at)) by {
        let w = rest.subrange(at, at + 5);
        assert forall|i: int| 0 <= i < 5 implies w[i] == fence[i] by {
            if i > 0 {
                assert(w[i] == ("---\n"@)[i - 1]);
            }
        }
        assert(w =~= fence);
    }
    assert forall|q: int| 0 <= q < at implies !#[trigger] text::occurs_at(rest, fence, q) by {
        if text::occurs_at(rest, fence, q) {
            reveal_strlit("\n---\n");
            let w = rest.subrange(q, q + 5);
            assert(w[1] == '-' && w[2] == '-' && w[3] == '-');
            assert(rest[q + 1] == '-' && rest[q + 2] == '-' && rest[q + 3] == '-');
            assert(rest[at] == f[at]);
            assert(q + 4 <= at);
            assert(f.subrange(q, q + 5) =~= w);
            lemma_fence_at(f, q);
        }
    }
    text::lemma_found_is(rest, fence, at);
}

/// What a rendered note records is what is read back from it: the pairs, all
/// of them and in order, and the user's frontmatter lines, character by character
/// (none where they were blank).
pub proof fn law_rendered_provenance_is_read_back(
    original: Seq<char>,
    provenance: Seq<(Seq<char>, Seq<char>)>,
    bullets: Seq<Seq<char>>,
)
    requires
        provenance.len() > 0,
        single_line(provenance),
    ensures
        ({
            let p = note_regions(original);
            let again = note_regions(note_text(p, provenance, bullets));
            &&& again.provenance == provenance
            &&& again.user_frontmatter == own_text(p.user_frontmatter)
            &&& text::trimmed(p.user_frontmatter).len() > 0 ==> own_text(p.user_frontmatter)
                == p.user_frontmatter
        }),
{
    let p = note_regions(original);
    let f = front_text(p.user_frontmatter, provenance);
    lemma_frontmatter_read_back(original, provenance, bullets);
    lemma_front_rows(original, provenance);
    lemma_user_rows(original);
    assert(f.drop_last().push('\n') =~= f);
    // The lines of the block.
    let b = "  facts:"@;
    let line = b.push('\n');
    let inner = seq![line] + pair_rows(provenance);
    lemma_pair_rows(provenance);
    lemma_glued_first(line, pair_rows(provenance));
    reveal_strlit("  facts:");
    reveal_strlit("facts:");
    text::lemma_lines_concat(line, pair_lines(provenance));
    text::lemma_lines_single(b);
    lemma_pair_lines(provenance);
    let pl = provenance.map_values(|x: (Seq<char>, Seq<char>)| pair_line(x));
    let lines = text::lines_of(text::glued(inner));
    assert(lines =~= seq![b] + pl);
    assert(lines.drop_first() =~= pl);
    assert(text::trimmed(b) == "facts:"@) by {
        reveal_with_fuel(text::trimmed_start, 3);
        assert(b.drop_first().drop_first() =~= "facts:"@);
    }
    lemma_pairs_read_back(provenance);
}

/// Every fact is either known or among the fresh ones, by its id.
proof fn lemma_fresh_facts_cover(facts: Seq<StagedFact>, ids: Seq<Seq<char>>)
    ensures
        forall|i: int|
            0 <= i < facts.len() ==> ids.contains(fact_key(#[trigger] facts[i])) || fact_keys(
                fresh_facts(facts, ids),
            ).contains(fact_key(facts[i])),
    decreases facts.len(),
{
    if facts.len() > 0 {
        let front = facts.drop_last();
        lemma_fresh_facts_cover(front, ids);
        let before = fresh_facts(front, ids);
        let now = fresh_facts(facts, ids);
        assert forall|i: int| 0 <= i < facts.len() implies ids.contains(
            fact_key(#[trigger] facts[i]),
        ) || fact_keys(now).contains(fact_key(facts[i])) by {
            let key = fact_key(facts[i]);
            if now.len() > before.len() {
                assert(fact_keys(now) =~= fact_keys(before).push(fact_key(facts.last())));
                if i == facts.len() - 1 {
                    assert(fact_keys(now)[before.len() as int] == key);
                }
            }
            if i < facts.len() - 1 {
                assert(front[i] == facts[i]);
                if !ids.contains(key) {
                    let q = choose|q: int|
                        0 <= q < fact_keys(before).len() && fact_keys(before)[q] == key;
                    assert(fact_keys(now)[q] == key);
                }
            }
        }
    }
}

/// No fact is fresh where all ids are known.
proof fn lemma_no_fresh_facts(facts: Seq<StagedFact>, ids: Seq<Seq<char>>)
    requires
        forall|i: int| 0 <= i < facts.len() ==> ids.contains(fact_key(#[trigger] facts[i])),
    ensures
        fresh_facts(facts, ids).len() == 0,
    decreases facts.len(),
{
    if facts.len() > 0 {
        let front = facts.drop_last();
        assert forall|i: int| 0 <= i < front.len() implies ids.contains(
            fact_key(#[trigger] front[i]),
        ) by {
            assert(front[i] == facts[i]);
        }
        lemma_no_fresh_facts(front, ids);
        assert(ids.contains(fact_key(facts[facts.len() - 1])));
    }
}

/// A slug holds no line feed.
proof fn lemma_slug_free(s: Seq<char>)
    ensures
        text::free_of(memory::slug_words(s), '\n'),
    decreases s.len(),
{
    if s.len() > 0 {
        lemma_slug_free(s.drop_last());
    }
}

/// The fresh facts come from the facts.
proof fn lemma_fresh_facts_from(facts: Seq<StagedFact>, ids: Seq<Seq<char>>)
    ensures
        forall|i: int|
            0 <= i < fresh_facts(facts, ids).len() ==> facts.contains(
                #[trigger] fresh_facts(facts, ids)[i],
            ),
    decreases facts.len(),
{
    if facts.len() > 0 {
        let front = facts.drop_last();
        lemma_fresh_facts_from(front, ids);
        let now = fresh_facts(facts, ids);
        let before = fresh_facts(front, ids);
        assert forall|i: int| 0 <= i < now.len() implies facts.contains(#[trigger] now[i]) by {
            if i < before.len() {
                assert(front.contains(before[i]));
                let q = choose|q: int| 0 <= q < front.len() && front[q] == before[i];
                assert(facts[q] == now[i]);
            } else {
                assert(facts[facts.len() - 1] == now[i]);
            }
        }
    }
}

/// The pairs that file fresh facts hold no line feed.
proof fn lemma_merged_single_line(original: Seq<char>, facts: Seq<StagedFact>, chat: Seq<char>)
    requires
        forall|i: int|
            0 <= i < facts.len() ==> text::free_of((#[trigger] facts[i]).predicate@, '\n'),
        text::free_of(chat, '\n'),
    ensures
        ({
            let held = note_regions(original).provenance;
            single_line(held + filed_under(fresh_facts(facts, pair_keys(held)), chat))
        }),
{
    let held = note_regions(original).provenance;
    let ids = pair_keys(held);
    let added = fresh_facts(facts, ids);
    let merged = held + filed_under(added, chat);
    lemma_note_single_line(original);
    lemma_fresh_facts_from(facts, ids);
    assert forall|i: int| 0 <= i < merged.len() implies text::free_of(
        (#[trigger] merged[i]).0,
        '\n',
    ) && text::free_of(merged[i].1, '\n') by {
        if i < held.len() {
            assert(merged[i] == held[i]);
        } else {
            let f = added[i - held.len()];
            assert(merged[i] == (fact_key(f), chat));
            let q = choose|q: int| 0 <= q < facts.len() && facts[q] == f;
            assert(text::free_of(facts[q].predicate@, '\n'));
            lemma_slug_free(text::lowercase(f.object_name@));
            let key = fact_key(f);
            let w = memory::slug(f.object_name@);
            assert forall|j: int| 0 <= j < key.len() implies key[j] != '\n' by {
                if j > f.predicate@.len() {
                    assert(key[j] == w[j - f.predicate@.len() - 1]);
                } else if j < f.predicate@.len() {
                    assert(key[j] == f.predicate@[j]);
                }
            }
        }
    }
}

/// Filing the same facts a second time, from whatever chat message, changes
/// nothing: no fact is staged and the note stays as the first time left it.
/// The predicates and the chat id must each be one line.
pub proof fn law_reapplying_facts_is_idempotent(
    note_path: Seq<char>,
    existing: Option<Seq<char>>,
    facts: Seq<StagedFact>,
    chat: Seq<char>,
    later_chat: Seq<char>,
)
    requires
        forall|i: int|
            0 <= i < facts.len() ==> text::free_of((#[trigger] facts[i]).predicate@, '\n'),
        text::free_of(chat, '\n'),
    ensures
        ({
            let first = facts_applied(note_path, existing, facts, chat);
            let second = facts_applied(note_path, Some(first.new_content), facts, later_chat);
            &&& second.facts.len() == 0
            &&& second.new_content == first.new_content
            &&& second.diff.len() == 0
        }),
{
    let original = match existing {
        Some(c) => c,
        None => Seq::empty(),
    };
    let p = note_regions(original);
    let ids = pair_keys(p.provenance);
    let added = fresh_facts(facts, ids);
    let first = facts_applied(note_path, existing, facts, chat);
    if added.len() > 0 {
        let merged = p.provenance + filed_under(added, chat);
        lemma_merged_single_line(original, facts, chat);
        law_rendered_provenance_is_read_back(original, merged, fact_bullets(added));
        let known = pair_keys(merged);
        assert(known =~= ids + fact_keys(added));
        lemma_fresh_facts_cover(facts, ids);
        assert forall|i: int| 0 <= i < facts.len() implies known.contains(
            fact_key(#[trigger] facts[i]),
        ) by {
            let key = fact_key(facts[i]);
            if ids.contains(key) {
                let q = choose|q: int| 0 <= q < ids.len() && ids[q] == key;
                assert(known[q] == key);
            } else {
                let q = choose|q: int| 0 <= q < fact_keys(added).len() && fact_keys(added)[q] == key;
                assert(known[ids.len() + q] == key);
            }
        }
        lemma_no_fresh_facts(facts, known);
    }
}

/// What a body holds between the prose before and the prose after: its `## Facts`
/// heading and what stands below it, or nothing.
pub open spec fn managed_section(body: Seq<char>) -> Seq<char> {
    let rows = text::rows_of(body);
    match line_from(rows, "## Facts"@, 0) {
        None => Seq::empty(),
        Some(h) => text::glued(rows.subrange(h, heading_from(rows, h + 1))),
    }
}

/// Filing facts keeps what the user wrote, character by character. Where no fact
/// is new the note stays as it is. Otherwise the body, which is the prose before,
/// the `## Facts` section and the prose after, has that section written anew, with
/// the facts behind what it held; before it and behind it the prose stands as it
/// was, and no more than line feeds come in between. In front stands the
/// frontmatter: the user's lines as they were (unless they are blank) and the
/// `chat-notes` block.
pub proof fn law_user_text_is_kept(
    note_path: Seq<char>,
    existing: Option<Seq<char>>,
    facts: Seq<StagedFact>,
    chat: Seq<char>,
)
    ensures
        ({
            let original = match existing {
                Some(c) => c,
                None => Seq::empty(),
            };
            let p = note_regions(original);
            let body = frontmatter_split(original).1;
            let change = facts_applied(note_path, existing, facts, chat);
            let new = change.new_content;
            let merged = p.provenance + filed_under(change.facts, chat);
            let bullets = fact_bullets(change.facts);
            let front = own_text(p.user_frontmatter);
            let lead = lead_before(note_head(p.user_frontmatter, merged), note_body(p, bullets));
            let gap = gap_after(p.prose_before);
            &&& body == p.prose_before + managed_section(body) + p.prose_after
            &&& front == p.user_frontmatter || text::trimmed(p.user_frontmatter).len() == 0
            &&& lead == Seq::<char>::empty() || lead == seq!['\n']
            &&& gap == Seq::<char>::empty() || gap == seq!['\n'] || gap == seq!['\n', '\n']
            &&& change.facts.len() == 0 ==> new == original
            &&& change.facts.len() > 0 ==> new == ended(
                "---\n"@ + front + chat_notes_block(merged) + "---\n"@ + lead + p.prose_before + gap
                    + facts_section(p.facts_body, bullets) + closing(p.prose_after),
            )
        }),
{
    let original = match existing {
        Some(c) => c,
        None => Seq::empty(),
    };
    let p = note_regions(original);
    let change = facts_applied(note_path, existing, facts, chat);
    lemma_body_parts(frontmatter_split(original).1);
    lemma_user_rows(original);
    let merged = p.provenance + filed_under(change.facts, chat);
    let bullets = fact_bullets(change.facts);
    if change.facts.len() > 0 {
        let head = note_head(p.user_frontmatter, merged);
        let written = note_body(p, bullets);
        let lead = lead_before(head, written);
        lemma_note_in_a_row(
            "---\n"@ + own_text(p.user_frontmatter) + chat_notes_block(merged) + "---\n"@,
            lead,
            p.prose_before,
            gap_after(p.prose_before),
            facts_section(p.facts_body, bullets),
            closing(p.prose_after),
        );
    }
}

/// The head of a note and its body, part by part.
proof fn lemma_note_in_a_row(
    head: Seq<char>,
    lead: Seq<char>,
    before: Seq<char>,
    gap: Seq<char>,
    section: Seq<char>,
    after: Seq<char>,
)
    ensures
        head + lead + (before + gap + section + after) == head + lead + before + gap + section
            + after,
{
    assert(head + lead + (before + gap + section + after) =~= head + lead + before + gap + section
        + after);
}

/// The three parts of a body are the body.
proof fn lemma_body_parts(body: Seq<char>)
    ensures
        ({
            let (before, _, after) = facts_split(body);
            body == before + managed_section(body) + after
        }),
{
    let rows = text::rows_of(body);
    text::lemma_rows(body);
    lemma_line_from(rows, "## Facts"@, 0);
    match line_from(rows, "## Facts"@, 0) {
        None => {
            assert(body + Seq::<char>::empty() + Seq::<char>::empty() =~= body);
        },
        Some(h) => {
            let next = heading_from(rows, h + 1);
            lemma_heading_from(rows, h + 1);
            assert(rows =~= rows.take(h) + rows.subrange(h, next) + rows.skip(next));
            text::lemma_glued_add(rows.take(h) + rows.subrange(h, next), rows.skip(next));
            text::lemma_glued_add(rows.take(h), rows.subrange(h, next));
        },
    }
}

/// `heading_from` answers with the first heading, or the number of lines.
pub proof fn lemma_heading_from(lines: Seq<Seq<char>>, i: int)
    requires
        0 <= i <= lines.len(),
    ensures
        i <= heading_from(lines, i) <= lines.len(),
        forall|k: int|
            i <= k < heading_from(lines, i) ==> !heading_line(#[trigger] lines[k]),
        heading_from(lines, i) < lines.len() ==> heading_line(lines[heading_from(lines, i)]),
    decreases lines.len() - i,
{
    if i < lines.len() && !heading_line(lines[i]) {
        lemma_heading_from(lines, i + 1);
    }
}

/// The wording of every predicate is the predicate itself with spaces for `_` and a
/// capital: the table says nothing that the rule for predicates outside it would not.
pub proof fn law_wording_is_humanized(p: Seq<char>)
    ensures
        phrasing(p) == humanized(p),
{
    lemma_wording_of_roles(p);
    lemma_wording_of_ties(p);
    lemma_wording_of_deeds(p);
    lemma_wording_of_links(p);
}

proof fn lemma_wording_of_roles(p: Seq<char>)
    ensures
        p == "works_at"@ ==> humanized(p) == "Works at"@,
        p == "joined"@ ==> humanized(p) == "Joined"@,
        p == "left"@ ==> humanized(p) == "Left"@,
        p == "founded"@ ==> humanized(p) == "Founded"@,
        p == "invests_in"@ ==> humanized(p) == "Invests in"@,
        p == "advises"@ ==> humanized(p) == "Advises"@,
        p == "member_of"@ ==> humanized(p) == "Member of"@,
        p == "former_member_of"@ ==> humanized(p) == "Former member of"@,
        p == "volunteered_at"@ ==> humanized(p) == "Volunteered at"@,
        p == "knows"@ ==> humanized(p) == "Knows"@,
        p == "reports_to"@ ==> humanized(p) == "Reports to"@,
{
    if p == "works_at"@ {
        reveal_strlit("works_at");
        reveal_strlit("Works at");
        assert(humanized(p) =~= "Works at"@);
    }
    if p == "joined"@ {
        reveal_strlit("joined");
        reveal_strlit("Joined");
        assert(humanized(p) =~= "Joined"@);
    }
    if p == "left"@ {
        reveal_strlit("left");
        reveal_strlit("Left");
        assert(humanized(p) =~= "Left"@);
    }
    if p == "founded"@ {
        reveal_strlit("founded");
        reveal_strlit("Founded");
        assert(humanized(p) =~= "Founded"@);
    }
    if p == "invests_in"@ {
        reveal_strlit("invests_in");
        reveal_strlit("Invests in");
        assert(humanized(p) =~= "Invests in"@);
    }
    if p == "advises"@ {
        reveal_strlit("advises");
        reveal_strlit("Advises");
        assert(humanized(p) =~= "Advises"@);
    }
    if p == "member_of"@ {
        reveal_strlit("member_of");
        reveal_strlit("Member of");
        assert(humanized(p) =~= "Member of"@);
    }
    if p == "former_member_of"@ {
        reveal_strlit("former_member_of");
        reveal_strlit("Former member of");
        assert(humanized(p) =~= "Former member of"@);
    }
    if p == "volunteered_at"@ {
        reveal_strlit("volunteered_at");
        reveal_strlit("Volunteered at");
        assert(humanized(p) =~= "Volunteered at"@);
    }
    if p == "knows"@ {
        reveal_strlit("knows");
        reveal_strlit("Knows");
        assert(humanized(p) =~= "Knows"@);
    }
    if p == "reports_to"@ {
        reveal_strlit("reports_to");
        reveal_strlit("Reports to");
        assert(humanized(p) =~= "Reports to"@);
    }
}

proof fn lemma_wording_of_ties(p: Seq<char>)
    ensures
        p == "manages"@ ==> humanized(p) == "Manages"@,
        p == "parent_of"@ ==> humanized(p) == "Parent of"@,
        p == "child_of"@ ==> humanized(p) == "Child of"@,
        p == "sibling_of"@ ==> humanized(p) == "Sibling of"@,
        p == "partner_of"@ ==> humanized(p) == "Partner of"@,
        p == "mentored_by"@ ==> humanized(p) == "Mentored by"@,
        p == "collaborates_with"@ ==> humanized(p) == "Collaborates with"@,
        p == "lives_in"@ ==> humanized(p) == "Lives in"@,
        p == "born_in"@ ==> humanized(p) == "Born in"@,
        p == "visited"@ ==> humanized(p) == "Visited"@,
        p == "expert_in"@ ==> humanized(p) == "Expert in"@,
{
    if p == "manages"@ {
        reveal_strlit("manages");
        reveal_strlit("Manages");
        assert(humanized(p) =~= "Manages"@);
    }
    if p == "parent_of"@ {
        reveal_strlit("parent_of");
        reveal_strlit("Parent of");
        assert(humanized(p) =~= "Parent of"@);
    }
    if p == "child_of"@ {
        reveal_strlit("child_of");
        reveal_strlit("Child of");
        assert(humanized(p) =~= "Child of"@);
    }
    if p == "sibling_of"@ {
        reveal_strlit("sibling_of");
        reveal_strlit("Sibling of");
        assert(humanized(p) =~= "Sibling of"@);
    }
    if p == "partner_of"@ {
        reveal_strlit("partner_of");
        reveal_strlit("Partner of");
        assert(humanized(p) =~= "Partner of"@);
    }
    if p == "mentored_by"@ {
        reveal_strlit("mentored_by");
        reveal_strlit("Mentored by");
        assert(humanized(p) =~= "Mentored by"@);
    }
    if p == "collaborates_with"@ {
        reveal_strlit("collaborates_with");
        reveal_strlit("Collaborates with");
        assert(humanized(p) =~= "Collaborates with"@);
    }
    if p == "lives_in"@ {
        reveal_strlit("lives_in");
        reveal_strlit("Lives in");
        assert(humanized(p) =~= "Lives in"@);
    }
    if p == "born_in"@ {
        reveal_strlit("born_in");
        reveal_strlit("Born in");
        assert(humanized(p) =~= "Born in"@);
    }
    if p == "visited"@ {
        reveal_strlit("visited");
        reveal_strlit("Visited");
        assert(humanized(p) =~= "Visited"@);
    }
    if p == "expert_in"@ {
        reveal_strlit("expert_in");
        reveal_strlit("Expert in");
        assert(humanized(p) =~= "Expert in"@);
    }
}

proof fn lemma_wording_of_deeds(p: Seq<char>)
    ensures
        p == "interested_in"@ ==> humanized(p) == "Interested in"@,
        p == "advocates_for"@ ==> humanized(p) == "Advocates for"@,
        p == "attended"@ ==> humanized(p) == "Attended"@,
        p == "organized"@ ==> humanized(p) == "Organized"@,
        p == "presented_at"@ ==> humanized(p) == "Presented at"@,
        p == "created"@ ==> humanized(p) == "Created"@,
        p == "contributes_to"@ ==> humanized(p) == "Contributes to"@,
        p == "leads"@ ==> humanized(p) == "Leads"@,
        p == "owns_task"@ ==> humanized(p) == "Owns task"@,
        p == "completed"@ ==> humanized(p) == "Completed"@,
        p == "delegated_to"@ ==> humanized(p) == "Delegated to"@,
{
    if p == "interested_in"@ {
        reveal_strlit("interested_in");
        reveal_strlit("Interested in");
        assert(humanized(p) =~= "Interested in"@);
    }
    if p == "advocates_for"@ {
        reveal_strlit("advocates_for");
        reveal_strlit("Advocates for");
        assert(humanized(p) =~= "Advocates for"@);
    }
    if p == "attended"@ {
        reveal_strlit("attended");
        reveal_strlit("Attended");
        assert(humanized(p) =~= "Attended"@);
    }
    if p == "organized"@ {
        reveal_strlit("organized");
        reveal_strlit("Organized");
        assert(humanized(p) =~= "Organized"@);
    }
    if p == "presented_at"@ {
        reveal_strlit("presented_at");
        reveal_strlit("Presented at");
        assert(humanized(p) =~= "Presented at"@);
    }
    if p == "created"@ {
        reveal_strlit("created");
        reveal_strlit("Created");
        assert(humanized(p) =~= "Created"@);
    }
    if p == "contributes_to"@ {
        reveal_strlit("contributes_to");
        reveal_strlit("Contributes to");
        assert(humanized(p) =~= "Contributes to"@);
    }
    if p == "leads"@ {
        reveal_strlit("leads");
        reveal_strlit("Leads");
        assert(humanized(p) =~= "Leads"@);
    }
    if p == "owns_task"@ {
        reveal_strlit("owns_task");
        reveal_strlit("Owns task");
        assert(humanized(p) =~= "Owns task"@);
    }
    if p == "completed"@ {
        reveal_strlit("completed");
        reveal_strlit("Completed");
        assert(humanized(p) =~= "Completed"@);
    }
    if p == "delegated_to"@ {
        reveal_strlit("delegated_to");
        reveal_strlit("Delegated to");
        assert(humanized(p) =~= "Delegated to"@);
    }
}

proof fn lemma_wording_of_links(p: Seq<char>)
    ensures
        p == "subsidiary_of"@ ==> humanized(p) == "Subsidiary of"@,
        p == "competitor_of"@ ==> humanized(p) == "Competitor of"@,
        p == "acquired_by"@ ==> humanized(p) == "Acquired by"@,
        p == "partner_with"@ ==> humanized(p) == "Partner with"@,
        p == "located_in"@ ==> humanized(p) == "Located in"@,
        p == "headquartered_in"@ ==> humanized(p) == "Headquartered in"@,
        p == "scheduled_for"@ ==> humanized(p) == "Scheduled for"@,
        p == "about"@ ==> humanized(p) == "About"@,
        p == "due_on"@ ==> humanized(p) == "Due on"@,
        p == "blocks"@ ==> humanized(p) == "Blocks"@,
        p == "depends_on"@ ==> humanized(p) == "Depends on"@,
{
    if p == "subsidiary_of"@ {
        reveal_strlit("subsidiary_of");
        reveal_strlit("Subsidiary of");
        assert(humanized(p) =~= "Subsidiary of"@);
    }
    if p == "competitor_of"@ {
        reveal_strlit("competitor_of");
        reveal_strlit("Competitor of");
        assert(humanized(p) =~= "Competitor of"@);
    }
    if p == "acquired_by"@ {
        reveal_strlit("acquired_by");
        reveal_strlit("Acquired by");
        assert(humanized(p) =~= "Acquired by"@);
    }
    if p == "partner_with"@ {
        reveal_strlit("partner_with");
        reveal_strlit("Partner with");
        assert(humanized(p) =~= "Partner with"@);
    }
    if p == "located_in"@ {
        reveal_strlit("located_in");
        reveal_strlit("Located in");
        assert(humanized(p) =~= "Located in"@);
    }
    if p == "headquartered_in"@ {
        reveal_strlit("headquartered_in");
        reveal_strlit("Headquartered in");
        assert(humanized(p) =~= "Headquartered in"@);
    }
    if p == "scheduled_for"@ {
        reveal_strlit("scheduled_for");
        reveal_strlit("Scheduled for");
        assert(humanized(p) =~= "Scheduled for"@);
    }
    if p == "about"@ {
        reveal_strlit("about");
        reveal_strlit("About");
        assert(humanized(p) =~= "About"@);
    }
    if p == "due_on"@ {
        reveal_strlit("due_on");
        reveal_strlit("Due on");
        assert(humanized(p) =~= "Due on"@);
    }
    if p == "blocks"@ {
        reveal_strlit("blocks");
        reveal_strlit("Blocks");
        assert(humanized(p) =~= "Blocks"@);
    }
    if p == "depends_on"@ {
        reveal_strlit("depends_on");
        reveal_strlit("Depends on");
        assert(humanized(p) =~= "Depends on"@);
    }
}

/// The wording for what is over is one line for each predicate that has one.
proof fn lemma_past_wording(p: Seq<char>)
    ensures
        past_table(p) matches Some(w) ==> text::free_of(w, '\n'),
{
    reveal_strlit("Worked at");
    reveal_strlit("Was a member of");
    reveal_strlit("Led");
    reveal_strlit("Managed");
    reveal_strlit("Advised");
    reveal_strlit("Reported to");
    reveal_strlit("Owned task");
    reveal_strlit("Advocated for");
    reveal_strlit("Lived in");
    reveal_strlit("Contributed to");
    reveal_strlit("Invested in");
    reveal_strlit("Was an expert in");
    reveal_strlit("Was interested in");
}

/// The fact can be stated on one line: neither its predicate nor its object holds a
/// line feed, and the object is not blank.
pub open spec fn one_line_fact(f: StagedFact) -> bool {
    &&& text::free_of(f.predicate@, '\n')
    &&& text::free_of(f.object_name@, '\n')
    &&& text::trimmed(f.object_name@).len() > 0
}

/// A wording without a line feed, where the predicate has none.
proof fn lemma_humanized_free(p: Seq<char>)
    requires
        text::free_of(p, '\n'),
    ensures
        text::free_of(humanized(p), '\n'),
{
    if p.len() > 0 {
        let spaced = text::with_char_replaced(p, '_', ' ');
        let up = text::uppercase_of(spaced[0]);
        let rest = spaced.drop_first();
        assert(p[0] != '\n');
        text::lemma_without_feeds(text::unicode_uppercase(spaced[0]));
        assert(text::free_of(up, '\n'));
        assert forall|i: int| 0 <= i < rest.len() implies rest[i] != '\n' by {
            assert(p[i + 1] != '\n');
        }
        assert(humanized(p) == up + rest);
        assert forall|i: int| 0 <= i < humanized(p).len() implies humanized(p)[i] != '\n' by {
            if i < up.len() {
                assert(humanized(p)[i] == up[i]);
            } else {
                assert(humanized(p)[i] == rest[i - up.len()]);
            }
        }
    }
}

proof fn lemma_trimmed_end_last(s: Seq<char>)
    ensures
        text::trimmed_end(s).len() > 0 ==> !text::is_space(text::trimmed_end(s).last()),
    decreases s.len(),
{
    if s.len() > 0 && text::is_space(s.last()) {
        lemma_trimmed_end_last(s.drop_last());
    }
}

proof fn lemma_free_add(a: Seq<char>, b: Seq<char>)
    requires
        text::free_of(a, '\n'),
        text::free_of(b, '\n'),
    ensures
        text::free_of(a + b, '\n'),
{
    assert forall|i: int| 0 <= i < (a + b).len() implies (a + b)[i] != '\n' by {
        if i < a.len() {
            assert((a + b)[i] == a[i]);
        } else {
            assert((a + b)[i] == b[i - a.len()]);
        }
    }
}

/// A bullet on one line: it begins with its dash and does not end in white space.
spec fn tight_bullet(b: Seq<char>) -> bool {
    b.len() > 0 && b[0] == '-' && !text::is_space(b.last()) && text::free_of(b, '\n')
}

/// A wording without a line feed for a predicate without one.
proof fn lemma_words_free(p: Seq<char>)
    requires
        text::free_of(p, '\n'),
    ensures
        text::free_of(phrasing(p), '\n'),
        text::free_of(phrasing_past(p), '\n'),
{
    law_wording_is_humanized(p);
    lemma_humanized_free(p);
    lemma_past_wording(p);
}

/// The words of a bullet and its object make a tight bullet.
proof fn lemma_bullet_words(words: Seq<char>, name: Seq<char>)
    requires
        text::free_of(words, '\n'),
        text::free_of(name, '\n'),
        name.len() > 0,
        !text::is_space(name.last()),
    ensures
        tight_bullet("- "@ + words + seq![' '] + name),
{
    reveal_strlit("- ");
    let base = "- "@ + words + seq![' '] + name;
    lemma_free_add("- "@, words);
    lemma_free_add("- "@ + words, seq![' ']);
    lemma_free_add("- "@ + words + seq![' '], name);
    assert(base.last() == name.last());
    assert(base[0] == '-');
}

/// A year behind a tight bullet leaves it tight.
proof fn lemma_bullet_year(base: Seq<char>, year: Seq<char>)
    requires
        tight_bullet(base),
        text::free_of(year, '\n'),
    ensures
        tight_bullet(base + " ("@ + year + seq![')']),
{
    reveal_strlit(" (");
    lemma_free_add(base, " ("@);
    lemma_free_add(base + " ("@, year);
    lemma_free_add(base + " ("@ + year, seq![')']);
    let b = base + " ("@ + year + seq![')'];
    assert(b.last() == ')');
    assert(b[0] == base[0]);
}

/// What is trimmed holds no line feed where the whole does not, and ends in no
/// white space.
proof fn lemma_trimmed_name(s: Seq<char>)
    requires
        text::free_of(s, '\n'),
    ensures
        text::free_of(text::trimmed(s), '\n'),
        text::trimmed(s).len() > 0 ==> !text::is_space(text::trimmed(s).last()),
{
    lemma_trimmed_start_free(s);
    let ts = text::trimmed_start(s);
    lemma_trimmed_end_prefix(ts);
    lemma_trimmed_end_last(ts);
    let name = text::trimmed(s);
    assert forall|i: int| 0 <= i < name.len() implies name[i] != '\n' by {
        assert(name[i] == ts[i]);
    }
}

/// The bullet of a fact that can be stated on one line.
proof fn lemma_bullet(f: StagedFact)
    requires
        one_line_fact(f),
    ensures
        tight_bullet(fact_bullet(f)),
{
    let p = f.predicate@;
    let secs = f.valid_from.secs as int;
    let name = text::trimmed(f.object_name@);
    lemma_words_free(p);
    lemma_trimmed_name(f.object_name@);
    let words = if f.valid_to is Some {
        phrasing_past(p)
    } else {
        phrasing(p)
    };
    lemma_bullet_words(words, name);
    if f.valid_from_explicit {
        lemma_year_free(datetime::year_of(secs));
        lemma_bullet_year("- "@ + words + seq![' '] + name, datetime::year_text(secs));
    }
}

proof fn lemma_four_digits_free(y: int)
    ensures
        text::free_of(datetime::four_digits(y), '\n'),
{
    let d = datetime::four_digits(y);
    assert forall|n: int| 0 <= n < 10 implies #[trigger] datetime::digit(n) != '\n' by {}
    assert(0 <= y / 1000 % 10 < 10);
    assert(0 <= y / 100 % 10 < 10);
    assert(0 <= y / 10 % 10 < 10);
    assert(0 <= y % 10 < 10);
}

proof fn lemma_decimal_free(n: nat)
    ensures
        text::free_of(text::decimal_text(n), '\n'),
    decreases n,
{
    assert forall|d: int| 0 <= d < 10 implies #[trigger] text::digit_char(d) != '\n' by {}
    assert(0 <= n % 10 < 10);
    if n >= 10 {
        lemma_decimal_free(n / 10);
        lemma_free_add(text::decimal_text(n / 10), seq![text::digit_char((n % 10) as int)]);
        assert(text::decimal_text(n) =~= text::decimal_text(n / 10) + seq![
            text::digit_char((n % 10) as int),
        ]);
    } else {
        assert(text::digit_char(n as int) != '\n');
    }
}

proof fn lemma_year_free(y: int)
    ensures
        text::free_of(datetime::year_digits(y), '\n'),
{
    lemma_four_digits_free(y);
    lemma_four_digits_free(-y);
    if y > 9999 {
        lemma_decimal_free(y as nat);
        lemma_free_add(seq!['+'], text::decimal_text(y as nat));
    } else if y < -9999 {
        lemma_decimal_free((-y) as nat);
        lemma_free_add(seq!['-'], text::decimal_text((-y) as nat));
    } else if y < 0 {
        lemma_free_add(seq!['-'], datetime::four_digits(-y));
    }
}

/// Bullets as rows.
spec fn bullet_rows(bullets: Seq<Seq<char>>) -> Seq<Seq<char>> {
    bullets.map_values(|b: Seq<char>| b.push('\n'))
}

proof fn lemma_bullet_rows(bullets: Seq<Seq<char>>)
    requires
        bullets.len() > 0,
        forall|k: int| 0 <= k < bullets.len() ==> tight_bullet(#[trigger] bullets[k]),
    ensures
        text::glued(bullet_rows(bullets)) == text::joined(bullets, seq!['\n']).push('\n'),
        tight_start(text::joined(bullets, seq!['\n'])),
    decreases bullets.len(),
{
    let rows = bullet_rows(bullets);
    let j = text::joined(bullets, seq!['\n']);
    assert(tight_bullet(bullets[bullets.len() - 1]));
    if bullets.len() == 1 {
        assert(rows =~= seq![bullets[0].push('\n')]);
        text::lemma_glued_one(bullets[0].push('\n'));
    } else {
        let front = bullets.drop_last();
        assert forall|k: int| 0 <= k < front.len() implies tight_bullet(#[trigger] front[k]) by {
            assert(front[k] == bullets[k]);
        }
        lemma_bullet_rows(front);
        assert(rows.drop_last() =~= bullet_rows(front));
        let jf = text::joined(front, seq!['\n']);
        assert(text::glued(rows) =~= jf.push('\n') + bullets.last().push('\n'));
        assert(j =~= jf + seq!['\n'] + bullets.last());
        assert(text::glued(rows) =~= j.push('\n'));
        assert(j[0] == jf[0]);
        assert(j.last() == bullets.last().last());
    }
}

/// A text that begins with a dash and does not end in white space.
spec fn tight_start(s: Seq<char>) -> bool {
    s.len() > 0 && s[0] == '-' && !text::is_space(s.last())
}

/// A section of bullets, below an empty line, is taken apart again.
proof fn lemma_section_read_back(bullets: Seq<Seq<char>>)
    requires
        bullets.len() > 0,
        forall|k: int| 0 <= k < bullets.len() ==> tight_bullet(#[trigger] bullets[k]),
    ensures
        facts_split(seq!['\n'] + facts_section(Seq::empty(), bullets)) == (
            seq!['\n'],
            text::joined(bullets, seq!['\n']),
            Seq::<char>::empty(),
        ),
{
    let feed = seq!['\n'];
    let title = "## Facts"@.push('\n');
    let j = text::joined(bullets, feed);
    let head = seq![feed, title, feed];
    let tail = bullet_rows(bullets);
    let rows = head + tail;
    let body = feed + facts_section(Seq::empty(), bullets);
    reveal_strlit("## Facts\n\n");
    reveal_strlit("## Facts");
    lemma_bullet_rows(bullets);
    assert(title.drop_last() =~= "## Facts"@);
    assert(text::is_row(feed)) by {
        assert(feed.drop_last() =~= Seq::<char>::empty());
    }
    assert(text::is_row(title));
    assert forall|k: int| 0 <= k < rows.len() implies text::is_row(#[trigger] rows[k]) by {
        if k >= 3 {
            let b = bullets[k - 3];
            assert(tight_bullet(b));
            assert(rows[k] == b.push('\n'));
            assert(b.push('\n').drop_last() =~= b);
        }
    }
    // The text is these rows.
    assert(head =~= seq![feed] + (seq![title] + (seq![feed] + Seq::empty())));
    lemma_glued_first(feed, seq![title] + (seq![feed] + Seq::empty()));
    lemma_glued_first(title, seq![feed] + Seq::empty());
    lemma_glued_first(feed, Seq::empty());
    text::lemma_glued_add(head, tail);
    assert(text::trimmed(Seq::<char>::empty()).len() == 0);
    assert(body =~= text::glued(rows));
    text::lemma_rows_of_glued(rows);
    // The heading is the second of them.
    assert(text::trimmed_end(feed) == Seq::<char>::empty()) by {
        assert(feed.drop_last() =~= Seq::<char>::empty());
        assert(text::trimmed_end(feed.drop_last()) =~= Seq::<char>::empty());
    }
    assert(text::trimmed_end(title) == "## Facts"@) by {
        assert(text::trimmed_end("## Facts"@) == "## Facts"@);
    }
    assert forall|k: int| 0 <= k < 1 implies text::trimmed_end(#[trigger] rows[k])
        != "## Facts"@ by {
        assert(rows[0] == feed);
    }
    assert(rows[1] == title);
    lemma_line_from_skips(rows, "## Facts"@, 0, 1);
    // No heading follows it.
    lemma_heading_from(rows, 2);
    let next = heading_from(rows, 2);
    assert(next == rows.len()) by {
        if next < rows.len() {
            if next == 2 {
                assert(rows[2] == feed);
                assert(text::trimmed_start(feed).len() == 0) by {
                    assert(feed.drop_first() =~= Seq::<char>::empty());
                    assert(text::trimmed_start(feed.drop_first()) =~= Seq::<char>::empty());
                }
            } else {
                let b = bullets[next - 3];
                assert(tight_bullet(b));
                assert(rows[next] == b.push('\n'));
                assert(rows[next][0] == '-');
                assert(text::trimmed_start(rows[next]) == rows[next]);
                assert(leading_hashes(rows[next]) == 0);
            }
        }
    }
    // The parts.
    assert(rows.take(1) =~= seq![feed]);
    text::lemma_glued_one(feed);
    assert(rows.skip(next) =~= Seq::<Seq<char>>::empty());
    let inner = rows.subrange(2, next);
    assert(inner =~= seq![feed] + tail);
    lemma_glued_first(feed, tail);
    let x = feed + j.push('\n');
    assert(text::glued(inner) == x);
    assert(x.drop_first() =~= j.push('\n'));
    assert(text::trimmed_start(j.push('\n')) == j.push('\n'));
    assert(text::trimmed_start(x) == j.push('\n'));
    assert(j.push('\n').drop_last() =~= j);
    assert(text::trimmed_end(j) == j);
    assert(text::trimmed(x) == j);
}

/// The fresh facts of two lists in a row.
proof fn lemma_fresh_concat(first: Seq<StagedFact>, second: Seq<StagedFact>)
    ensures
        fresh_facts(first + second, Seq::empty()) == fresh_facts(first, Seq::empty())
            + fresh_facts(second, fact_keys(fresh_facts(first, Seq::empty()))),
    decreases second.len(),
{
    let none = Seq::<Seq<char>>::empty();
    let a = fresh_facts(first, none);
    let ids = fact_keys(a);
    if second.len() == 0 {
        assert(first + second =~= first);
        assert(a + fresh_facts(second, ids) =~= a);
    } else {
        let front = second.drop_last();
        let all = first + second;
        lemma_fresh_concat(first, front);
        assert(all.drop_last() =~= first + front);
        assert(all.last() == second.last());
        let b = fresh_facts(front, ids);
        let key = fact_key(second.last());
        assert(fact_keys(a + b) =~= ids + fact_keys(b));
        assert(fact_keys(a + b).contains(key) == (ids.contains(key) || fact_keys(b).contains(
            key,
        ))) by {
            if ids.contains(key) {
                let q = choose|q: int| 0 <= q < ids.len() && ids[q] == key;
                assert((ids + fact_keys(b))[q] == key);
            }
            if fact_keys(b).contains(key) {
                let q = choose|q: int| 0 <= q < fact_keys(b).len() && fact_keys(b)[q] == key;
                assert((ids + fact_keys(b))[ids.len() + q] == key);
            }
        }
        assert(fresh_facts(all, none) =~= a + fresh_facts(second, ids));
    }
}

/// The first fact is fresh where no id is known.
proof fn lemma_some_fresh(facts: Seq<StagedFact>)
    requires
        facts.len() > 0,
    ensures
        fresh_facts(facts, Seq::empty()).len() > 0,
    decreases facts.len(),
{
    if facts.len() > 1 {
        lemma_some_fresh(facts.drop_last());
    } else {
        assert(fresh_facts(facts.drop_last(), Seq::empty()).len() == 0);
    }
}

/// What a note that does not exist holds.
proof fn lemma_no_note()
    ensures
        note_regions(Seq::empty()) == (NoteRegions {
            user_frontmatter: Seq::empty(),
            provenance: Seq::empty(),
            prose_before: Seq::empty(),
            facts_body: Seq::empty(),
            prose_after: Seq::empty(),
        }),
{
    reveal_strlit("---\n");
    assert(text::rows_of(Seq::<char>::empty()).len() == 0);
}

/// What a note that was made for facts holds.
proof fn lemma_made_note(added: Seq<StagedFact>, chat: Seq<char>)
    requires
        added.len() > 0,
        single_line(filed_under(added, chat)),
        forall|k: int| 0 <= k < added.len() ==> one_line_fact(#[trigger] added[k]),
    ensures
        ({
            let none = note_regions(Seq::empty());
            let made = note_text(none, filed_under(added, chat), fact_bullets(added));
            note_regions(made) == (NoteRegions {
                user_frontmatter: Seq::empty(),
                provenance: filed_under(added, chat),
                prose_before: seq!['\n'],
                facts_body: text::joined(fact_bullets(added), seq!['\n']),
                prose_after: Seq::empty(),
            })
        }),
        tight_start(text::joined(fact_bullets(added), seq!['\n'])),
{
    let e = Seq::<char>::empty();
    let none = note_regions(e);
    let filed = filed_under(added, chat);
    let bullets = fact_bullets(added);
    lemma_no_note();
    assert forall|k: int| 0 <= k < bullets.len() implies tight_bullet(#[trigger] bullets[k]) by {
        assert(one_line_fact(added[k]));
        lemma_bullet(added[k]);
    }
    lemma_bullet_rows(bullets);
    lemma_section_read_back(bullets);
    law_rendered_provenance_is_read_back(e, filed, bullets);
    lemma_frontmatter_read_back(e, filed, bullets);
    assert(text::trimmed(e).len() == 0);
    let section = facts_section(e, bullets);
    reveal_strlit("## Facts\n\n");
    reveal_strlit("---\n");
    assert(section[0] == '#');
    assert(section.last() == '\n');
    assert(text::rows_of(e).len() == 0);
    let body = note_body(none, bullets);
    assert(body =~= section);
    assert(!text::begins(body, seq!['\n'])) by {
        if text::begins(body, seq!['\n']) {
            assert(body.take(1)[0] == '#');
        }
    }
    assert(tail_text(none, filed, bullets) =~= seq!['\n'] + section);
}

/// Filing facts in a new note in two steps writes what filing them at once writes.
/// The chat id must be of one line, and so must the facts of the first step, of which
/// there must be some.
pub proof fn law_filing_in_two_steps(
    note_path: Seq<char>,
    first: Seq<StagedFact>,
    second: Seq<StagedFact>,
    chat: Seq<char>,
)
    requires
        first.len() > 0,
        forall|k: int| 0 <= k < first.len() ==> one_line_fact(#[trigger] first[k]),
        text::free_of(chat, '\n'),
    ensures
        ({
            let made = facts_applied(note_path, None, first, chat).new_content;
            facts_applied(note_path, Some(made), second, chat).new_content == facts_applied(
                note_path,
                None,
                first + second,
                chat,
            ).new_content
        }),
{
    let e = Seq::<char>::empty();
    let none = note_regions(e);
    let no_ids = Seq::<Seq<char>>::empty();
    lemma_no_note();
    assert(pair_keys(none.provenance) =~= no_ids);
    let a = fresh_facts(first, no_ids);
    let filed = filed_under(a, chat);
    lemma_some_fresh(first);
    lemma_fresh_facts_from(first, no_ids);
    assert forall|k: int| 0 <= k < a.len() implies one_line_fact(#[trigger] a[k]) by {
        let q = choose|q: int| 0 <= q < first.len() && first[q] == a[k];
        assert(one_line_fact(first[q]));
    }
    lemma_merged_single_line(e, first, chat);
    assert(none.provenance + filed =~= filed);
    lemma_made_note(a, chat);
    let made = facts_applied(note_path, None, first, chat).new_content;
    assert(made == note_text(none, filed, fact_bullets(a)));
    let p = note_regions(made);
    assert(pair_keys(filed) =~= fact_keys(a));
    let b = fresh_facts(second, fact_keys(a));
    lemma_fresh_concat(first, second);
    let all = filed_under(a + b, chat);
    assert(none.provenance + all =~= all);
    if b.len() == 0 {
        assert(a + b =~= a);
    } else {
        let two = fact_bullets(b);
        let one = fact_bullets(a);
        assert(fact_bullets(a + b) =~= one + two);
        assert(filed + filed_under(b, chat) =~= all);
        text::lemma_joined_add(one, two, seq!['\n']);
        lemma_two_steps(one, two, all, p);
    }
}

/// The text of both ways to file.
proof fn lemma_two_steps(
    one: Seq<Seq<char>>,
    two: Seq<Seq<char>>,
    all: Seq<(Seq<char>, Seq<char>)>,
    p: NoteRegions,
)
    requires
        all.len() > 0,
        one.len() > 0,
        two.len() > 0,
        p.user_frontmatter.len() == 0,
        p.prose_before == seq!['\n'],
        p.facts_body == text::joined(one, seq!['\n']),
        tight_start(p.facts_body),
        p.prose_after.len() == 0,
        text::joined(one + two, seq!['\n']) == text::joined(one, seq!['\n']) + seq!['\n']
            + text::joined(two, seq!['\n']),
    ensures
        note_text(p, all, two) == note_text(note_regions(Seq::empty()), all, one + two),
{
    let e = Seq::<char>::empty();
    let none = note_regions(e);
    let feed = seq!['\n'];
    lemma_no_note();
    reveal_strlit("## Facts\n\n");
    reveal_strlit("---\n");
    assert(p.user_frontmatter =~= e);
    assert(p.prose_after =~= e);
    let head = note_head(e, all);
    // The first way.
    assert(gap_after(feed) =~= e) by {
        assert(text::is_row(feed)) by {
            assert(feed.drop_last() =~= e);
        }
        text::lemma_rows_first(feed, e);
        assert(feed + e =~= feed);
        assert(text::rows_of(feed) =~= seq![feed]);
        assert(feed.drop_first() =~= e);
        assert(text::trimmed_start(e) =~= e);
        assert(text::trimmed_start(feed) =~= e);
        assert(text::trimmed(feed).len() == 0);
    }
    assert(text::trimmed(p.facts_body) == p.facts_body) by {
        assert(text::trimmed_start(p.facts_body) == p.facts_body);
    }
    let rest = p.facts_body + feed + text::joined(two, feed) + feed;
    let title = "## Facts\n\n"@;
    let body = note_body(p, two);
    assert(body =~= feed + (title + rest));
    assert(text::begins(body, feed)) by {
        assert(body.take(1) =~= feed);
    }
    // The second way.
    assert(text::trimmed(e).len() == 0);
    assert(text::rows_of(e).len() == 0);
    let whole = note_body(none, one + two);
    assert(whole =~= title + rest);
    assert(!text::begins(whole, feed)) by {
        if text::begins(whole, feed) {
            assert(whole.take(1)[0] == '#');
        }
    }
    assert(head + lead_before(head, body) + body =~= head + lead_before(head, whole) + whole);
}

/// The bullet of a fact says it in those words: they stand behind the dash and before
/// the object.
pub open spec fn told_as(f: StagedFact, words: Seq<char>) -> bool {
    text::begins(fact_bullet(f), "- "@ + words + seq![' '] + text::trimmed(f.object_name@))
}

/// The predicates that are told otherwise once they are over.
pub open spec fn passing_predicates() -> Seq<Seq<char>> {
    seq![
        "works_at"@,
        "member_of"@,
        "leads"@,
        "manages"@,
        "advises"@,
        "reports_to"@,
        "owns_task"@,
        "advocates_for"@,
        "lives_in"@,
        "contributes_to"@,
        "invests_in"@,
        "expert_in"@,
        "interested_in"@,
    ]
}

proof fn lemma_told(f: StagedFact, words: Seq<char>)
    requires
        words == (if f.valid_to is Some {
            phrasing_past(f.predicate@)
        } else {
            phrasing(f.predicate@)
        }),
    ensures
        told_as(f, words),
        fact_bullet(f).len() >= 2 + words.len(),
        forall|k: int| 0 <= k < words.len() ==> #[trigger] fact_bullet(f)[k + 2] == words[k],
{
    reveal_strlit("- ");
    let base = "- "@ + words + seq![' '] + text::trimmed(f.object_name@);
    assert(fact_bullet(f).take(base.len() as int) =~= base);
    assert forall|k: int| 0 <= k < words.len() implies #[trigger] fact_bullet(f)[k + 2]
        == words[k] by {
        assert(fact_bullet(f)[k + 2] == base[k + 2]);
    }
}

/// Two bullets begin otherwise where the words of their facts differ in a place.
proof fn lemma_told_apart(f: StagedFact, g: StagedFact, a: Seq<char>, b: Seq<char>, k: int)
    requires
        f.valid_to is Some,
        g.valid_to is None,
        a == phrasing_past(f.predicate@),
        b == phrasing(g.predicate@),
        0 <= k < a.len(),
        k < b.len(),
        a[k] != b[k],
    ensures
        fact_bullet(f) != fact_bullet(g),
{
    lemma_told(f, a);
    lemma_told(g, b);
    assert(fact_bullet(f)[k + 2] == a[k]);
    assert(fact_bullet(g)[k + 2] == b[k]);
}

/// The wording of each predicate that passes, once it is over.
proof fn lemma_past_words(p: Seq<char>)
    ensures
        p == "works_at"@ ==> phrasing_past(p) == "Worked at"@,
        p == "member_of"@ ==> phrasing_past(p) == "Was a member of"@,
        p == "leads"@ ==> phrasing_past(p) == "Led"@,
        p == "manages"@ ==> phrasing_past(p) == "Managed"@,
        p == "advises"@ ==> phrasing_past(p) == "Advised"@,
        p == "reports_to"@ ==> phrasing_past(p) == "Reported to"@,
        p == "owns_task"@ ==> phrasing_past(p) == "Owned task"@,
        p == "advocates_for"@ ==> phrasing_past(p) == "Advocated for"@,
        p == "lives_in"@ ==> phrasing_past(p) == "Lived in"@,
        p == "contributes_to"@ ==> phrasing_past(p) == "Contributed to"@,
        p == "invests_in"@ ==> phrasing_past(p) == "Invested in"@,
        p == "expert_in"@ ==> phrasing_past(p) == "Was an expert in"@,
        p == "interested_in"@ ==> phrasing_past(p) == "Was interested in"@,
{
    reveal_strlit("works_at");
    reveal_strlit("member_of");
    reveal_strlit("leads");
    reveal_strlit("manages");
    reveal_strlit("advises");
    reveal_strlit("reports_to");
    reveal_strlit("owns_task");
    reveal_strlit("advocates_for");
    reveal_strlit("lives_in");
    reveal_strlit("contributes_to");
    reveal_strlit("invests_in");
    reveal_strlit("expert_in");
    reveal_strlit("interested_in");
    assert("works_at"@.len() == 8 && "works_at"@[0] == 'w');
    assert("member_of"@.len() == 9 && "member_of"@[0] == 'm');
    assert("leads"@.len() == 5 && "leads"@[0] == 'l');
    assert("manages"@.len() == 7 && "manages"@[0] == 'm');
    assert("advises"@.len() == 7 && "advises"@[0] == 'a');
    assert("reports_to"@.len() == 10 && "reports_to"@[0] == 'r');
    assert("owns_task"@.len() == 9 && "owns_task"@[0] == 'o');
    assert("advocates_for"@.len() == 13 && "advocates_for"@[0] == 'a');
    assert("lives_in"@.len() == 8 && "lives_in"@[0] == 'l');
    assert("contributes_to"@.len() == 14 && "contributes_to"@[0] == 'c');
    assert("invests_in"@.len() == 10 && "invests_in"@[0] == 'i');
    assert("expert_in"@.len() == 9 && "expert_in"@[0] == 'e');
    assert("interested_in"@.len() == 13 && "interested_in"@[0] == 'i');
}

/// A fact that has ended is told in the past tense: what was a job, a home, a lead is
/// not told as one. Whatever else the two facts are, its bullet is not that of a fact
/// with the same predicate that has not ended.
pub proof fn law_ended_facts_are_told_in_the_past(f: StagedFact, g: StagedFact)
    requires
        f.valid_to is Some,
        g.valid_to is None,
        g.predicate@ == f.predicate@,
    ensures
        f.predicate@ == "works_at"@ ==> told_as(f, "Worked at"@),
        f.predicate@ == "member_of"@ ==> told_as(f, "Was a member of"@),
        f.predicate@ == "leads"@ ==> told_as(f, "Led"@),
        f.predicate@ == "manages"@ ==> told_as(f, "Managed"@),
        f.predicate@ == "advises"@ ==> told_as(f, "Advised"@),
        f.predicate@ == "reports_to"@ ==> told_as(f, "Reported to"@),
        f.predicate@ == "owns_task"@ ==> told_as(f, "Owned task"@),
        f.predicate@ == "advocates_for"@ ==> told_as(f, "Advocated for"@),
        f.predicate@ == "lives_in"@ ==> told_as(f, "Lived in"@),
        f.predicate@ == "contributes_to"@ ==> told_as(f, "Contributed to"@),
        f.predicate@ == "invests_in"@ ==> told_as(f, "Invested in"@),
        f.predicate@ == "expert_in"@ ==> told_as(f, "Was an expert in"@),
        f.predicate@ == "interested_in"@ ==> told_as(f, "Was interested in"@),
        passing_predicates().contains(f.predicate@) ==> fact_bullet(f) != fact_bullet(g),
{
    let p = f.predicate@;
    lemma_told(f, phrasing_past(p));
    lemma_past_words(p);
    if passing_predicates().contains(p) {
        lemma_past_differs(f, g);
    }
}

proof fn lemma_past_differs(f: StagedFact, g: StagedFact)
    requires
        f.valid_to is Some,
        g.valid_to is None,
        g.predicate@ == f.predicate@,
        passing_predicates().contains(f.predicate@),
    ensures
        fact_bullet(f) != fact_bullet(g),
{
    let p = f.predicate@;
    lemma_past_words(p);
    law_wording_is_humanized(p);
    lemma_wording_of_roles(p);
    lemma_wording_of_ties(p);
    lemma_wording_of_deeds(p);
    lemma_wording_of_links(p);
    if p == "works_at"@ {
        reveal_strlit("Worked at");
        reveal_strlit("Works at");
        lemma_told_apart(f, g, "Worked at"@, "Works at"@, 4);
    }
    if p == "member_of"@ {
        reveal_strlit("Was a member of");
        reveal_strlit("Member of");
        lemma_told_apart(f, g, "Was a member of"@, "Member of"@, 0);
    }
    if p == "leads"@ {
        reveal_strlit("Led");
        reveal_strlit("Leads");
        lemma_told_apart(f, g, "Led"@, "Leads"@, 2);
    }
    if p == "manages"@ {
        reveal_strlit("Managed");
        reveal_strlit("Manages");
        lemma_told_apart(f, g, "Managed"@, "Manages"@, 6);
    }
    if p == "advises"@ {
        reveal_strlit("Advised");
        reveal_strlit("Advises");
        lemma_told_apart(f, g, "Advised"@, "Advises"@, 6);
    }
    if p == "reports_to"@ {
        reveal_strlit("Reported to");
        reveal_strlit("Reports to");
        lemma_told_apart(f, g, "Reported to"@, "Reports to"@, 6);
    }
    if p == "owns_task"@ {
        reveal_strlit("Owned task");
        reveal_strlit("Owns task");
        lemma_told_apart(f, g, "Owned task"@, "Owns task"@, 3);
    }
    if p == "advocates_for"@ {
        reveal_strlit("Advocated for");
        reveal_strlit("Advocates for");
        lemma_told_apart(f, g, "Advocated for"@, "Advocates for"@, 8);
    }
    if p == "lives_in"@ {
        reveal_strlit("Lived in");
        reveal_strlit("Lives in");
        lemma_told_apart(f, g, "Lived in"@, "Lives in"@, 4);
    }
    if p == "contributes_to"@ {
        reveal_strlit("Contributed to");
        reveal_strlit("Contributes to");
        lemma_told_apart(f, g, "Contributed to"@, "Contributes to"@, 10);
    }
    if p == "invests_in"@ {
        reveal_strlit("Invested in");
        reveal_strlit("Invests in");
        lemma_told_apart(f, g, "Invested in"@, "Invests in"@, 6);
    }
    if p == "expert_in"@ {
        reveal_strlit("Was an expert in");
        reveal_strlit("Expert in");
        lemma_told_apart(f, g, "Was an expert in"@, "Expert in"@, 0);
    }
    if p == "interested_in"@ {
        reveal_strlit("Was interested in");
        reveal_strlit("Interested in");
        lemma_told_apart(f, g, "Was interested in"@, "Interested in"@, 0);
    }
}

/// What is told the same, over or not, keeps its wording: so it is for every predicate
/// but those that pass.
pub proof fn law_lasting_facts_keep_their_wording(p: Seq<char>)
    ensures
        !passing_predicates().contains(p) ==> phrasing_past(p) == humanized(p),
{
    law_wording_is_humanized(p);
    assert(passing_predicates()[0] == "works_at"@);
    assert(passing_predicates()[1] == "member_of"@);
    assert(passing_predicates()[2] == "leads"@);
    assert(passing_predicates()[3] == "manages"@);
    assert(passing_predicates()[4] == "advises"@);
    assert(passing_predicates()[5] == "reports_to"@);
    assert(passing_predicates()[6] == "owns_task"@);
    assert(passing_predicates()[7] == "advocates_for"@);
    assert(passing_predicates()[8] == "lives_in"@);
    assert(passing_predicates()[9] == "contributes_to"@);
    assert(passing_predicates()[10] == "invests_in"@);
    assert(passing_predicates()[11] == "expert_in"@);
    assert(passing_predicates()[12] == "interested_in"@);
}

/// A bullet names its object last, but for the year of its beginning, which stands
/// behind it in brackets just where the text gave one. A fact that has not ended is told
/// in its predicate's own words.
pub proof fn law_bullets_name_their_object(f: StagedFact)
    ensures
        text::begins(fact_bullet(f), "- "@),
        f.valid_to is None ==> told_as(f, humanized(f.predicate@)),
        !f.valid_from_explicit ==> text::ends(
            fact_bullet(f),
            seq![' '] + text::trimmed(f.object_name@),
        ),
        f.valid_from_explicit ==> text::ends(
            fact_bullet(f),
            seq![' '] + text::trimmed(f.object_name@) + " ("@ + datetime::year_text(
                f.valid_from.secs as int,
            ) + seq![')'],
        ),
{
    law_wording_is_humanized(f.predicate@);
    let words = if f.valid_to is Some {
        phrasing_past(f.predicate@)
    } else {
        phrasing(f.predicate@)
    };
    lemma_told(f, words);
    let b = fact_bullet(f);
    let name = seq![' '] + text::trimmed(f.object_name@);
    assert(b.take("- "@.len() as int) =~= "- "@);
    if f.valid_from_explicit {
        let end = name + " ("@ + datetime::year_text(f.valid_from.secs as int) + seq![')'];
        assert(b.skip(b.len() - end.len()) =~= end);
    } else {
        assert(b.skip(b.len() - name.len()) =~= name);
    }
}

/// The id of a fact tells it apart: two facts share one just where they have the same
/// predicate and objects with the same slug.
pub proof fn law_fact_ids_tell_facts_apart(f: StagedFact, g: StagedFact)
    ensures
        fact_key(f) == fact_key(g) <==> f.predicate@ == g.predicate@ && memory::slug(f.object_name@)
            == memory::slug(g.object_name@),
{
    if fact_key(f) == fact_key(g) {
        memory::law_slugs_keep_the_letters(f.object_name@);
        memory::law_slugs_keep_the_letters(g.object_name@);
        let (p, q) = (f.predicate@, g.predicate@);
        let (a, b) = (memory::slug(f.object_name@), memory::slug(g.object_name@));
        let key = fact_key(f);
        assert(key[p.len() as int] == ':');
        assert(fact_key(g)[q.len() as int] == ':');
        assert(!text::alphanumeric(':'));
        assert(key.len() == p.len() + 1 + a.len());
        assert(fact_key(g).len() == q.len() + 1 + b.len());
        if p.len() < q.len() {
            assert(key[q.len() as int] == a[q.len() - p.len() - 1]);
        } else if q.len() < p.len() {
            assert(fact_key(g)[p.len() as int] == b[p.len() - q.len() - 1]);
        }
        assert(p =~= key.take(p.len() as int));
        assert(q =~= fact_key(g).take(p.len() as int));
        assert(a =~= key.skip(p.len() as int + 1));
        assert(b =~= fact_key(g).skip(p.len() as int + 1));
    }
}

/// One fact more is filed behind the others, unless its id is known already or that of
/// one of them; then nothing changes.
pub proof fn law_new_facts_are_filed_once(
    facts: Seq<StagedFact>,
    f: StagedFact,
    ids: Seq<Seq<char>>,
)
    ensures
        ({
            let before = fresh_facts(facts, ids);
            let after = fresh_facts(facts.push(f), ids);
            if ids.contains(fact_key(f)) || exists|i: int|
                0 <= i < facts.len() && fact_key(#[trigger] facts[i]) == fact_key(f) {
                after == before
            } else {
                after == before.push(f)
            }
        }),
        fresh_facts(Seq::empty(), ids).len() == 0,
{
    assert(facts.push(f).drop_last() =~= facts);
    lemma_fresh_facts_cover(facts, ids);
    lemma_fresh_facts_from(facts, ids);
    let before = fresh_facts(facts, ids);
    if fact_keys(before).contains(fact_key(f)) {
        let q = choose|q: int|
            0 <= q < fact_keys(before).len() && fact_keys(before)[q] == fact_key(f);
        assert(facts.contains(before[q]));
        let i = choose|i: int| 0 <= i < facts.len() && facts[i] == before[q];
        assert(fact_key(facts[i]) == fact_key(f));
    }
}

/// The `## Facts` section keeps what stands in it and then lists the new facts, a line
/// each, in their order.
pub proof fn law_facts_are_listed_in_order(
    facts_body: Seq<char>,
    facts: Seq<StagedFact>,
    f: StagedFact,
)
    ensures
        facts_section(facts_body, fact_bullets(Seq::empty())) == "## Facts\n\n"@ + text::trimmed(
            facts_body,
        ) + seq!['\n'],
        facts.len() > 0 || text::trimmed(facts_body).len() > 0 ==> facts_section(
            facts_body,
            fact_bullets(facts.push(f)),
        ) == facts_section(facts_body, fact_bullets(facts)) + fact_bullet(f) + seq!['\n'],
        facts.len() == 0 && text::trimmed(facts_body).len() == 0 ==> facts_section(
            facts_body,
            fact_bullets(facts.push(f)),
        ) == "## Facts\n\n"@ + fact_bullet(f) + seq!['\n'],
{
    let none = fact_bullets(Seq::<StagedFact>::empty());
    assert(none =~= Seq::<Seq<char>>::empty());
    assert(facts_section(facts_body, none) =~= "## Facts\n\n"@ + text::trimmed(facts_body) + seq![
        '\n',
    ]);
    let (a, b) = (fact_bullets(facts), fact_bullets(facts.push(f)));
    assert(b =~= a.push(fact_bullet(f)));
    assert(b.drop_last() =~= a);
    if facts.len() == 0 {
        assert(a =~= none);
        assert(text::joined(b, seq!['\n']) =~= fact_bullet(f));
        if text::trimmed(facts_body).len() > 0 {
            assert(facts_section(facts_body, b) =~= facts_section(facts_body, a) + fact_bullet(f)
                + seq!['\n']);
        } else {
            assert(facts_section(facts_body, b) =~= "## Facts\n\n"@ + fact_bullet(f) + seq!['\n']);
        }
    } else {
        assert(text::joined(b, seq!['\n']) == text::joined(a, seq!['\n']) + seq!['\n']
            + fact_bullet(f));
        assert(facts_section(facts_body, b) =~= facts_section(facts_body, a) + fact_bullet(f)
            + seq!['\n']);
    }
}

/// A change is for its own note, which it creates just where there is none; it files
/// what is new of the facts, under the chat message, and asks nothing yet. It is as sure
/// as the least sure of them.
pub proof fn law_changes_file_what_is_new(
    note_path: Seq<char>,
    existing: Option<Seq<char>>,
    facts: Seq<StagedFact>,
    chat: Seq<char>,
)
    ensures
        ({
            let c = facts_applied(note_path, existing, facts, chat);
            let known = match existing {
                Some(t) => pair_keys(note_regions(t).provenance),
                None => pair_keys(note_regions(Seq::empty()).provenance),
            };
            &&& c.note_path == note_path
            &&& c.kind is Create <==> existing is None
            &&& c.conflicts.len() == 0 && c.suggestions.len() == 0
            &&& c.facts == fresh_facts(facts, known)
            &&& c.facts.len() == 0 ==> c.diff.len() == 0
            &&& forall|i: int|
                0 <= i < c.facts.len() ==> !(#[trigger] c.facts[i]).confidence.less(c.confidence)
        }),
{
    let c = facts_applied(note_path, existing, facts, chat);
    lemma_least_confidence(c.facts);
    let known = match existing {
        Some(t) => pair_keys(note_regions(t).provenance),
        None => pair_keys(note_regions(Seq::empty()).provenance),
    };
    assert(c.facts =~= fresh_facts(facts, known));
}

/// None of the facts is less sure than the least sure, and it is one of them, unless all
/// are beyond comparison.
pub proof fn law_least_confidence_is_least(facts: Seq<StagedFact>)
    ensures
        forall|i: int|
            0 <= i < facts.len() ==> !(#[trigger] facts[i]).confidence.less(
                least_confidence(facts),
            ),
        least_confidence(facts).bits == staging::INFINITE_CONFIDENCE_BITS || exists|i: int|
            0 <= i < facts.len() && (#[trigger] facts[i]).confidence == least_confidence(facts),
{
    lemma_least_confidence(facts);
}

proof fn lemma_least_confidence(facts: Seq<StagedFact>)
    ensures
        !least_confidence(facts).is_nan(),
        forall|i: int|
            0 <= i < facts.len() ==> !(#[trigger] facts[i]).confidence.less(
                least_confidence(facts),
            ),
        least_confidence(facts).bits == staging::INFINITE_CONFIDENCE_BITS || exists|i: int|
            0 <= i < facts.len() && (#[trigger] facts[i]).confidence == least_confidence(facts),
    decreases facts.len(),
{
    if facts.len() > 0 {
        let front = facts.drop_last();
        lemma_least_confidence(front);
        let least = least_confidence(facts);
        assert forall|i: int| 0 <= i < facts.len() implies !(
        #[trigger] facts[i]).confidence.less(least) by {
            if i < front.len() {
                assert(facts[i] == front[i]);
            }
        }
        if facts.last().confidence.less(least_confidence(front)) {
            assert(facts[facts.len() - 1].confidence == least);
        } else if least.bits != staging::INFINITE_CONFIDENCE_BITS {
            let i = choose|i: int|
                0 <= i < front.len() && (#[trigger] front[i]).confidence == least_confidence(front);
            assert(facts[i].confidence == least);
        }
    }
}

/// What is shown as added are lines of the new text, each behind a plus and in their
/// order: one more line behind the old text is shown as added, and what has not changed
/// is not.
pub proof fn law_additions_are_new_lines(
    before: Seq<Seq<char>>,
    more: Seq<Seq<char>>,
)
    ensures
        added_lines(before, before).len() == 0,
        added_lines(before, before + more) == more.map_values(
            |l: Seq<char>| seq!['+'] + l,
        ),
        forall|i: int|
            0 <= i < added_lines(before, more).len() ==> exists|k: int|
                0 <= k < more.len() && #[trigger] added_lines(before, more)[i] == seq!['+']
                    + #[trigger] more[k],
{
    lemma_added_behind(before, more);
    lemma_added_behind(before, Seq::empty());
    assert(before + Seq::<Seq<char>>::empty() =~= before);
    lemma_added_from(before, more);
}

proof fn lemma_added_behind(before: Seq<Seq<char>>, more: Seq<Seq<char>>)
    ensures
        added_lines(before, before + more) == more.map_values(|l: Seq<char>| seq!['+'] + l),
    decreases before.len() + more.len(),
{
    let all = before + more;
    if before.len() > 0 {
        assert(all.drop_first() =~= before.drop_first() + more);
        lemma_added_behind(before.drop_first(), more);
    } else {
        assert(all =~= more);
        if more.len() > 0 {
            assert(before + more.drop_first() =~= more.drop_first());
            lemma_added_behind(before, more.drop_first());
            assert(added_lines(before, all) =~= more.map_values(|l: Seq<char>| seq!['+'] + l));
        } else {
            assert(added_lines(before, all) =~= more.map_values(|l: Seq<char>| seq!['+'] + l));
        }
    }
}

proof fn lemma_added_from(before: Seq<Seq<char>>, after: Seq<Seq<char>>)
    ensures
        forall|i: int|
            0 <= i < added_lines(before, after).len() ==> exists|k: int|
                0 <= k < after.len() && #[trigger] added_lines(before, after)[i] == seq!['+']
                    + #[trigger] after[k],
    decreases after.len(),
{
    if after.len() > 0 {
        let rest = after.drop_first();
        let out = added_lines(before, after);
        if before.len() > 0 && before[0] == after[0] {
            lemma_added_from(before.drop_first(), rest);
            let later = added_lines(before.drop_first(), rest);
            assert forall|i: int| 0 <= i < out.len() implies exists|k: int|
                0 <= k < after.len() && #[trigger] out[i] == seq!['+'] + #[trigger] after[k] by {
                assert(out[i] == later[i]);
                let k = choose|k: int|
                    0 <= k < rest.len() && later[i] == seq!['+'] + #[trigger] rest[k];
                assert(after[k + 1] == rest[k]);
            }
        } else {
            lemma_added_from(before, rest);
            let later = added_lines(before, rest);
            assert forall|i: int| 0 <= i < out.len() implies exists|k: int|
                0 <= k < after.len() && #[trigger] out[i] == seq!['+'] + #[trigger] after[k] by {
                if i == 0 {
                    assert(out[0] == seq!['+'] + after[0]);
                } else {
                    assert(out[i] == later[i - 1]);
                    let k = choose|k: int|
                        0 <= k < rest.len() && later[i - 1] == seq!['+'] + #[trigger] rest[k];
                    assert(after[k + 1] == rest[k]);
                }
            }
        }
    }
}

/// Pairs are read from the lines behind the `facts:` line, one from each line that holds
/// one and in their order; what stands before that line is none.
pub proof fn law_pairs_stand_behind_their_heading(
    before: Seq<Seq<char>>,
    heading: Seq<char>,
    lines: Seq<Seq<char>>,
    line: Seq<char>,
)
    requires
        forall|i: int| 0 <= i < before.len() ==> text::trimmed(#[trigger] before[i]) != "facts:"@,
        text::trimmed(heading) == "facts:"@,
    ensures
        provenance_of(before, false).len() == 0,
        provenance_of(before + seq![heading] + lines, false) == provenance_of(lines, true),
        text::trimmed(line) != "facts:"@ ==> provenance_of(lines.push(line), true)
            == provenance_of(lines, true) + (match quoted_pair(line) {
            Some(p) => seq![p],
            None => Seq::empty(),
        }),
{
    lemma_no_pairs(before, Seq::empty());
    assert(before + Seq::<Seq<char>>::empty() =~= before);
    let tail = seq![heading] + lines;
    lemma_no_pairs(before, tail);
    assert(before + seq![heading] + lines =~= before + tail);
    assert(tail[0] == heading);
    assert(tail.drop_first() =~= lines);
    if text::trimmed(line) != "facts:"@ {
        lemma_pairs_last(lines, line);
    }
}

proof fn lemma_no_pairs(before: Seq<Seq<char>>, rest: Seq<Seq<char>>)
    requires
        forall|i: int| 0 <= i < before.len() ==> text::trimmed(#[trigger] before[i]) != "facts:"@,
    ensures
        provenance_of(before + rest, false) == provenance_of(rest, false),
    decreases before.len(),
{
    if before.len() == 0 {
        assert(before + rest =~= rest);
    } else {
        let next = before.drop_first();
        assert(text::trimmed(before[0]) != "facts:"@);
        assert forall|i: int| 0 <= i < next.len() implies text::trimmed(#[trigger] next[i])
            != "facts:"@ by {
            assert(text::trimmed(before[i + 1]) != "facts:"@);
        }
        assert((before + rest)[0] == before[0]);
        assert((before + rest).drop_first() =~= next + rest);
        lemma_no_pairs(next, rest);
    }
}

proof fn lemma_pairs_last(lines: Seq<Seq<char>>, line: Seq<char>)
    requires
        text::trimmed(line) != "facts:"@,
    ensures
        provenance_of(lines.push(line), true) == provenance_of(lines, true) + (match quoted_pair(
            line,
        ) {
            Some(p) => seq![p],
            None => Seq::empty(),
        }),
    decreases lines.len(),
{
    let all = lines.push(line);
    let none = Seq::<Seq<char>>::empty();
    if lines.len() == 0 {
        assert(all[0] == line);
        assert(all.drop_first() =~= none);
        assert(provenance_of(none, true).len() == 0);
        assert(provenance_of(all, true) =~= provenance_of(lines, true) + (match quoted_pair(line) {
            Some(p) => seq![p],
            None => Seq::empty(),
        }));
    } else {
        let rest = lines.drop_first();
        assert(all[0] == lines[0]);
        assert(all.drop_first() =~= rest.push(line));
        lemma_pairs_last(rest, line);
        assert(provenance_of(all, true) =~= provenance_of(lines, true) + (match quoted_pair(line) {
            Some(p) => seq![p],
            None => Seq::empty(),
        }));
    }
}

/// A heading has one to six hashes and a space behind them; a seventh makes it none, and
/// so does a missing space. White space before it does not matter.
pub proof fn law_headings_have_up_to_six_hashes(n: int, rest: Seq<char>)
    requires
        n >= 0,
        rest.len() == 0 || rest[0] != '#',
    ensures
        ({
            let hashes = Seq::new(n as nat, |i: int| '#');
            heading_line(hashes + rest) <==> (1 <= n <= 6 && rest.len() > 0 && rest[0] == ' ') || (n
                == 0 && heading_line(rest))
        }),
{
    let hashes = Seq::new(n as nat, |i: int| '#');
    let s = hashes + rest;
    if n == 0 {
        assert(s =~= rest);
        if rest.len() > 0 && !text::is_space(rest[0]) {
            assert(text::trimmed_start(rest) == rest);
        }
    } else {
        assert(s[0] == '#');
        assert(text::trimmed_start(s) == s);
        lemma_hashes_counted(n as nat, rest);
    }
}

proof fn lemma_hashes_counted(n: nat, rest: Seq<char>)
    requires
        rest.len() == 0 || rest[0] != '#',
    ensures
        leading_hashes(Seq::new(n, |i: int| '#') + rest) == n,
    decreases n,
{
    let s = Seq::new(n, |i: int| '#') + rest;
    if n == 0 {
        assert(s =~= rest);
    } else {
        let fewer = Seq::new((n - 1) as nat, |i: int| '#') + rest;
        assert(s.drop_first() =~= fewer);
        lemma_hashes_counted((n - 1) as nat, rest);
    }
}

/// A note has frontmatter just where the user wrote some or facts are kept in it; it
/// stands between two rows of dashes, the user's own lines first.
pub proof fn law_frontmatter_stands_between_dashes(
    user: Seq<char>,
    provenance: Seq<(Seq<char>, Seq<char>)>,
)
    ensures
        text::blank(user) && provenance.len() == 0 ==> note_head(user, provenance).len() == 0,
        !text::blank(user) || provenance.len() > 0 ==> {
            &&& text::begins(note_head(user, provenance), "---\n"@ + own_text(user))
            &&& text::ends(note_head(user, provenance), "---\n"@)
        },
{
    text::law_blank_texts_are_trimmed_away(user);
    if !text::blank(user) || provenance.len() > 0 {
        let dashes = "---\n"@;
        let head = dashes + own_text(user);
        let all = note_head(user, provenance);
        let most = head + chat_notes_block(provenance);
        assert(all =~= most + dashes);
        assert(all =~= head + (chat_notes_block(provenance) + dashes));
        text::law_what_is_taken_off_comes_back(head, chat_notes_block(provenance) + dashes);
        text::law_what_is_taken_off_comes_back(dashes, most);
    }
}

/// The user's own frontmatter is written as it is, ended by a line feed; what is blank is
/// not written.
pub proof fn law_own_frontmatter_is_written_as_it_is(user: Seq<char>)
    ensures
        text::blank(user) ==> own_text(user).len() == 0,
        !text::blank(user) ==> text::begins(own_text(user), user),
        !text::blank(user) && user.last() == '\n' ==> own_text(user) == user,
{
    text::law_blank_texts_are_trimmed_away(user);
    assert(user.take(user.len() as int) =~= user);
    assert(user.push('\n').take(user.len() as int) =~= user);
}

} // verus!
