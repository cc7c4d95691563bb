//! An engine that is a program of its own, started anew for each turn.
//!
//! What a line of its output means, how a turn gathers its reply and how it
//! ends, and what the program is started with.
use vstd::prelude::*;
use crate::brand::Brand;
use crate::conversation::{TranscriptTurn, TurnEvent, TurnOutcome, TurnRequest, TurnStop};
use crate::conversation;
use crate::copilot;
use crate::error::AppError;
use crate::json::{Json, JsonModel};
use crate::json;
use crate::paths;
use crate::text;

verus! {

broadcast use vstd::string::group_string_axioms;

/// The model that is used where none is chosen.
pub const DEFAULT_MODEL: &'static str = "sonnet";

/// The seconds that a turn may take.
pub const TURN_TIMEOUT_SECS: u64 = 300;

/// The file tools that the agent may use. A shell is not among them.
pub const NATIVE_FILE_TOOLS: &'static str = "Read,Edit,Write,Grep,Glob";

// ---------------------------------------------------------------------------
// Finding the program
// ---------------------------------------------------------------------------

/// The places to look for the program first, in order.
pub fn candidates(home: Option<&str>, brand: &Brand) -> (r: Vec<String>)
    ensures
        text::texts(r@) == (match home {
            Some(h) => seq![
                paths::joined_path(h@, ".local/bin/"@ + brand.lower()),
                paths::joined_path(h@, "."@ + brand.lower() + "/local/"@ + brand.lower()),
            ],
            None => Seq::<Seq<char>>::empty(),
        }) + seq![
            "/opt/homebrew/bin/"@ + brand.lower(),
            "/usr/local/bin/"@ + brand.lower(),
        ],
{
    let mut out: Vec<String> = Vec::new();
    match home {
        Some(h) => {
            let installed = brand.behind(".local/bin/");
            let mut own = brand.behind(".");
            own.append("/local/");
            own.append(text::to_ascii_lower(brand.name.as_str()).as_str());
            out.push(paths::join(h, installed.as_str()));
            out.push(paths::join(h, own.as_str()));
            assert(text::texts(out@) =~= seq![out@[0]@, out@[1]@]);
        },
        None => {
            assert(text::texts(out@) =~= Seq::<Seq<char>>::empty());
        },
    }
    let ghost lead = text::texts(out@);
    let a = brand.behind("/opt/homebrew/bin/");
    let b = brand.behind("/usr/local/bin/");
    proof {
        text::lemma_texts_push(out@, a);
        text::lemma_texts_push(out@.push(a), b);
    }
    out.push(a);
    out.push(b);
    assert(text::texts(out@) =~= lead + seq![a@, b@]);
    out
}

/// Where the program is: the first candidate that is there, else what a login
/// shell answered, if that is a file.
pub fn locate(
    candidates: &Vec<String>,
    there: &Vec<bool>,
    shell: Option<String>,
    shell_is_file: bool,
) -> (r: Option<String>)
    ensures
        text::opt_text(r) == (match copilot::first_there(text::texts(candidates@), there@, 0) {
            Some(p) => Some(p),
            None => if shell_is_file {
                text::opt_text(shell)
            } else {
                None
            },
        }),
{
    match copilot::first_existing(candidates, there) {
        Some(p) => Some(p),
        None => if shell_is_file {
            shell
        } else {
            None
        },
    }
}

/// What `auth status` says.
#[derive(Debug, PartialEq, Eq)]
pub struct ParsedAuth {
    pub logged_in: bool,
    pub auth_method: Option<String>,
    pub subscription_type: Option<String>,
    pub email: Option<String>,
}

/// Whether the program is installed and who is logged in.
#[derive(Debug, PartialEq, Eq)]
pub struct ClaudeCodeStatus {
    pub installed: bool,
    pub binary_path: Option<String>,
    pub logged_in: bool,
    /// The maker's site for a subscription, `apiKey` for a key.
    pub auth_method: Option<String>,
    /// Such as `max` or `pro`.
    pub subscription_type: Option<String>,
    pub email: Option<String>,
}

/// What `auth status` said; an answer that could not be read is that nobody is
/// logged in.
pub fn parse_auth_status(answer: Option<ParsedAuth>) -> (r: ParsedAuth)
    ensures
        match answer {
            Some(a) => r == a,
            None => !r.logged_in && r.auth_method is None && r.subscription_type is None
                && r.email is None,
        },
{
    match answer {
        Some(a) => a,
        None => ParsedAuth {
            logged_in: false,
            auth_method: None,
            subscription_type: None,
            email: None,
        },
    }
}

/// The status, from where the program was located and what `auth status` said.
pub fn detect(located: Option<String>, auth: ParsedAuth) -> (r: ClaudeCodeStatus)
    ensures
        r.installed == (located is Some),
        r.binary_path == located,
        located is None ==> !r.logged_in && r.auth_method is None && r.subscription_type is None
            && r.email is None,
        located is Some ==> r.logged_in == auth.logged_in && r.auth_method == auth.auth_method
            && r.subscription_type == auth.subscription_type && r.email == auth.email,
{
    match located {
        None => ClaudeCodeStatus {
            installed: false,
            binary_path: None,
            logged_in: false,
            auth_method: None,
            subscription_type: None,
            email: None,
        },
        Some(b) => ClaudeCodeStatus {
            installed: true,
            binary_path: Some(b),
            logged_in: auth.logged_in,
            auth_method: auth.auth_method,
            subscription_type: auth.subscription_type,
            email: auth.email,
        },
    }
}

// ---------------------------------------------------------------------------
// The output stream
// ---------------------------------------------------------------------------

/// A piece of a message under way.
#[derive(Debug, PartialEq, Eq)]
pub struct Delta {
    pub kind: String,
    pub text: Option<String>,
}

/// An event of the stream.
#[derive(Debug, PartialEq, Eq)]
pub struct StreamEvent {
    pub kind: String,
    pub delta: Option<Delta>,
}

/// How the account stands with its quota.
#[derive(Debug, PartialEq, Eq)]
pub struct RateLimitInfo {
    pub status: String,
}

/// A block of a settled message.
#[derive(Debug, PartialEq, Eq)]
pub struct ContentBlock {
    pub kind: String,
    pub name: Option<String>,
    pub input: Option<Json>,
}

/// A settled message.
#[derive(Debug, PartialEq, Eq)]
pub struct AssistantMessage {
    pub content: Vec<ContentBlock>,
}

/// One line of the output, as far as it matters.
#[derive(Debug, PartialEq, Eq)]
pub struct StreamEnvelope {
    pub kind: String,
    pub event: Option<StreamEvent>,
    pub rate_limit_info: Option<RateLimitInfo>,
    pub message: Option<AssistantMessage>,
    pub is_error: bool,
    pub subtype: Option<String>,
    pub result: Option<String>,
}

/// A settled call of a tool: its name and its arguments.
#[derive(Debug, PartialEq, Eq)]
pub struct ToolUseCall {
    pub name: String,
    pub input: Json,
}

/// What a [`ToolUseCall`] says.
pub struct ToolUseView {
    pub name: Seq<char>,
    pub input: JsonModel,
}

impl View for ToolUseCall {
    type V = ToolUseView;

    open spec fn view(&self) -> ToolUseView {
        ToolUseView { name: self.name@, input: self.input.model() }
    }
}

/// The views of a list of calls.
pub open spec fn call_views(v: Seq<ToolUseCall>) -> Seq<ToolUseView> {
    v.map_values(|c: ToolUseCall| c@)
}

/// What a line of the output means.
#[derive(Debug, PartialEq, Eq)]
pub enum StreamLine {
    /// A piece of the reply.
    Token(String),
    /// The tools that a settled message calls.
    ToolUses(Vec<ToolUseCall>),
    /// The end: the whole answer, or an error.
    Done { answer: String, is_error: bool, subtype: Option<String> },
    /// The quota is used up.
    RateLimited,
    /// Nothing that matters.
    Other,
}

/// What a [`StreamLine`] says.
pub enum StreamLineView {
    Token(Seq<char>),
    ToolUses(Seq<ToolUseView>),
    Done { answer: Seq<char>, is_error: bool, subtype: Option<Seq<char>> },
    RateLimited,
    Other,
}

impl View for StreamLine {
    type V = StreamLineView;

    open spec fn view(&self) -> StreamLineView {
        match self {
            StreamLine::Token(t) => StreamLineView::Token(t@),
            StreamLine::ToolUses(c) => StreamLineView::ToolUses(call_views(c@)),
            StreamLine::Done { answer, is_error, subtype } => StreamLineView::Done {
                answer: answer@,
                is_error: *is_error,
                subtype: text::opt_text(*subtype),
            },
            StreamLine::RateLimited => StreamLineView::RateLimited,
            StreamLine::Other => StreamLineView::Other,
        }
    }
}

/// The calls among the blocks of a message: those of kind `tool_use` with a
/// name, in order; without arguments they carry null.
pub open spec fn settled_calls(blocks: Seq<ContentBlock>) -> Seq<ToolUseView>
    decreases blocks.len(),
{
    if blocks.len() == 0 {
        Seq::empty()
    } else {
        let before = settled_calls(blocks.drop_last());
        let b = blocks.last();
        if b.kind@ == "tool_use"@ && b.name is Some {
            before.push(
                ToolUseView {
                    name: b.name->0@,
                    input: match b.input {
                        Some(j) => j.model(),
                        None => JsonModel::Null,
                    },
                },
            )
        } else {
            before
        }
    }
}

/// The text that a stream event adds to the reply, if it is such an event.
pub open spec fn event_text(e: Option<StreamEvent>) -> Option<Seq<char>> {
    match e {
        Some(ev) => if ev.kind@ == "content_block_delta"@ {
            match ev.delta {
                Some(d) => if d.kind@ == "text_delta"@ {
                    match d.text {
                        Some(t) => Some(t@),
                        None => Some(Seq::empty()),
                    }
                } else {
                    None
                },
                None => None,
            }
        } else {
            None
        },
        None => None,
    }
}

/// What a line means.
pub open spec fn line_meaning(env: Option<StreamEnvelope>) -> StreamLineView {
    match env {
        None => StreamLineView::Other,
        Some(e) => if e.kind@ == "stream_event"@ {
            match event_text(e.event) {
                Some(t) => StreamLineView::Token(t),
                None => StreamLineView::Other,
            }
        } else if e.kind@ == "rate_limit_event"@ {
            if e.rate_limit_info is Some && e.rate_limit_info->0.status@ == "allowed"@ {
                StreamLineView::Other
            } else {
                StreamLineView::RateLimited
            }
        } else if e.kind@ == "assistant"@ {
            let calls = match e.message {
                Some(m) => settled_calls(m.content@),
                None => Seq::empty(),
            };
            if calls.len() == 0 {
                StreamLineView::Other
            } else {
                StreamLineView::ToolUses(calls)
            }
        } else if e.kind@ == "result"@ {
            StreamLineView::Done {
                answer: match e.result {
                    Some(a) => a@,
                    None => Seq::empty(),
                },
                is_error: e.is_error,
                subtype: text::opt_text(e.subtype),
            }
        } else {
            StreamLineView::Other
        },
    }
}

/// The calls among the blocks.
fn take_calls(blocks: &Vec<ContentBlock>) -> (r: Vec<ToolUseCall>)
    ensures
        call_views(r@) == settled_calls(blocks@),
{
    let mut out: Vec<ToolUseCall> = Vec::new();
    let mut i: usize = 0;
    assert(blocks@.take(0) =~= Seq::<ContentBlock>::empty());
    assert(call_views(out@) =~= Seq::<ToolUseView>::empty());
    while i < blocks.len()
        invariant
            i <= blocks.len(),
            call_views(out@) == settled_calls(blocks@.take(i as int)),
        decreases blocks.len() - i,
    {
        let b = &blocks[i];
        assert(blocks@.take(i + 1).drop_last() =~= blocks@.take(i as int));
        assert(blocks@.take(i + 1).last() == *b);
        if text::same(b.kind.as_str(), "tool_use") {
            match &b.name {
                Some(name) => {
                    let input = match &b.input {
                        Some(j) => j.clone(),
                        None => Json::Null,
                    };
                    let c = ToolUseCall { name: name.clone(), input };
                    let ghost before = out@;
                    out.push(c);
                    assert(call_views(out@) =~= call_views(before).push(c@));
                },
                None => {},
            }
        }
        i += 1;
    }
    assert(blocks@.take(i as int) =~= blocks@);
    out
}

/// What a line of the output means. A line that could not be read (`None`)
/// means nothing: one bad line never ends a turn.
pub fn parse_stream_line(env: Option<StreamEnvelope>) -> (r: StreamLine)
    ensures
        r@ == line_meaning(env),
{
    let e = match env {
        Some(e) => e,
        None => {
            return StreamLine::Other;
        },
    };
    if text::same(e.kind.as_str(), "stream_event") {
        match &e.event {
            Some(ev) => if text::same(ev.kind.as_str(), "content_block_delta") {
                match &ev.delta {
                    Some(d) => if text::same(d.kind.as_str(), "text_delta") {
                        match &d.text {
                            Some(t) => StreamLine::Token(t.clone()),
                            None => StreamLine::Token(String::new()),
                        }
                    } else {
                        StreamLine::Other
                    },
                    None => StreamLine::Other,
                }
            } else {
                StreamLine::Other
            },
            None => StreamLine::Other,
        }
    } else if text::same(e.kind.as_str(), "rate_limit_event") {
        let allowed = match &e.rate_limit_info {
            Some(i) => text::same(i.status.as_str(), "allowed"),
            None => false,
        };
        if allowed {
            StreamLine::Other
        } else {
            StreamLine::RateLimited
        }
    } else if text::same(e.kind.as_str(), "assistant") {
        match &e.message {
            Some(m) => {
                let calls = take_calls(&m.content);
                assert(calls@.len() == call_views(calls@).len());
                if calls.is_empty() {
                    StreamLine::Other
                } else {
                    StreamLine::ToolUses(calls)
                }
            },
            None => StreamLine::Other,
        }
    } else if text::same(e.kind.as_str(), "result") {
        StreamLine::Done {
            answer: match e.result {
                Some(a) => a,
                None => String::new(),
            },
            is_error: e.is_error,
            subtype: e.subtype,
        }
    } else {
        StreamLine::Other
    }
}

// ---------------------------------------------------------------------------
// Tool calls in words
// ---------------------------------------------------------------------------

/// What follows the last `__` at or before position `i`; all of `s` if there is none.
pub open spec fn after_last_from(s: Seq<char>, i: int) -> Seq<char>
    decreases i + 1,
{
    if i < 0 {
        s
    } else if text::occurs_at(s, "__"@, i) {
        s.skip(i + 2)
    } else {
        after_last_from(s, i - 1)
    }
}

/// The name without its namespace; the whole name where nothing would be left.
pub open spec fn bare_name(name: Seq<char>) -> Seq<char> {
    let t = after_last_from(name, name.len() as int);
    if t.len() == 0 {
        name
    } else {
        t
    }
}

/// The argument that says best what a call touches.
pub open spec fn call_detail(input: JsonModel, keys: Seq<Seq<char>>) -> Option<Seq<char>>
    decreases keys.len(),
{
    if keys.len() == 0 {
        None
    } else {
        match json::text_member(input, keys[0]) {
            Some(s) => if s.len() > 0 {
                Some(s)
            } else {
                call_detail(input, keys.drop_first())
            },
            None => call_detail(input, keys.drop_first()),
        }
    }
}

/// The arguments that are tried, in order.
pub open spec fn detail_keys() -> Seq<Seq<char>> {
    seq![
        "file_path"@,
        "path"@,
        "query"@,
        "name"@,
        "subject"@,
        "title"@,
        "pattern"@,
        "fact_id"@,
    ]
}

/// A call in words: the bare name, and the argument that says best what it touches.
pub open spec fn call_summary(call: ToolUseView) -> Seq<char> {
    match call_detail(call.input, detail_keys()) {
        Some(d) => bare_name(call.name) + seq![' '] + d,
        None => bare_name(call.name),
    }
}

/// The name without its namespace.
fn strip_namespace(name: &str) -> (r: String)
    ensures
        r@ == bare_name(name@),
{
    proof {
        reveal_strlit("__");
    }
    let cs = text::chars_of(name);
    let sep = text::chars_of("__");
    let n: usize = cs.len();
    let mut i: usize = n;
    assert(!text::occurs_at(name@, "__"@, n as int));
    while i > 0
        invariant
            cs@ == name@,
            sep@ == "__"@,
            "__"@.len() == 2,
            n == cs.len(),
            i <= n,
            !text::occurs_at(name@, "__"@, i as int),
            after_last_from(name@, n as int) == after_last_from(name@, i as int),
        decreases i,
    {
        assert(after_last_from(name@, i as int) == after_last_from(name@, i - 1));
        i -= 1;
        if text::slice_occurs_at(cs.as_slice(), sep.as_slice(), i) {
            let rest = text::string_of(vstd::slice::slice_subrange(cs.as_slice(), i + 2, n));
            assert(rest@ =~= name@.skip(i + 2));
            if rest.as_str().is_empty() {
                return name.to_owned();
            }
            return rest;
        }
    }
    assert(after_last_from(name@, 0) == after_last_from(name@, -1));
    name.to_owned()
}

/// The argument of that name, if it is a text with anything in it.
fn nonempty_arg(input: &Json, key: &str) -> (r: Option<String>)
    ensures
        text::opt_text(r) == (match json::text_member(input.model(), key@) {
            Some(s) => if s.len() > 0 {
                Some(s)
            } else {
                None
            },
            None => None,
        }),
{
    match input.get_str(key) {
        Some(s) => if s.is_empty() {
            None
        } else {
            Some(s.to_owned())
        },
        None => None,
    }
}

/// The argument that says best what a call touches.
fn find_detail(input: &Json) -> (r: Option<String>)
    ensures
        text::opt_text(r) == call_detail(input.model(), detail_keys()),
{
    let keys: Vec<&str> = vec![
        "file_path",
        "path",
        "query",
        "name",
        "subject",
        "title",
        "pattern",
        "fact_id",
    ];
    let ghost all = detail_keys();
    assert(all.skip(0) =~= all);
    let mut i: usize = 0;
    while i < keys.len()
        invariant
            i <= keys.len(),
            keys@.len() == all.len(),
            all == detail_keys(),
            forall|k: int| 0 <= k < keys@.len() ==> (#[trigger] keys@[k])@ == all[k],
            call_detail(input.model(), all) == call_detail(input.model(), all.skip(i as int)),
        decreases keys.len() - i,
    {
        assert(keys@[i as int]@ == all[i as int]);
        assert(all.skip(i as int).drop_first() =~= all.skip(i + 1));
        match nonempty_arg(input, keys[i]) {
            Some(d) => {
                return Some(d);
            },
            None => {},
        }
        i += 1;
    }
    assert(all.skip(i as int).len() == 0);
    None
}

/// A call in words, for the trail of what the agent did.
pub fn summarize_tool_call(call: &ToolUseCall) -> (r: String)
    ensures
        r@ == call_summary(call@),
{
    let mut name = strip_namespace(call.name.as_str());
    match find_detail(&call.input) {
        Some(d) => {
            name.push(' ');
            name.append(d.as_str());
        },
        None => {},
    }
    name
}

// ---------------------------------------------------------------------------
// One turn
// ---------------------------------------------------------------------------

/// The end of a turn as the stream told it.
#[derive(Debug, PartialEq, Eq)]
pub struct DoneLine {
    pub answer: String,
    pub is_error: bool,
    pub subtype: Option<String>,
}

/// A turn in flight: the text so far, the end if it came, and whether the
/// quota was reported used up.
#[derive(Debug, PartialEq, Eq)]
pub struct ClaudeTurn {
    pub accumulator: String,
    pub done: Option<DoneLine>,
    pub rate_limited: bool,
}

/// The state of a turn.
pub struct ClaudeTurnView {
    pub accumulator: Seq<char>,
    pub done: Option<(Seq<char>, bool, Option<Seq<char>>)>,
    pub rate_limited: bool,
}

impl View for ClaudeTurn {
    type V = ClaudeTurnView;

    open spec fn view(&self) -> ClaudeTurnView {
        ClaudeTurnView {
            accumulator: self.accumulator@,
            done: match self.done {
                Some(d) => Some((d.answer@, d.is_error, text::opt_text(d.subtype))),
                None => None,
            },
            rate_limited: self.rate_limited,
        }
    }
}

/// The state before the first line.
pub open spec fn turn_start() -> ClaudeTurnView {
    ClaudeTurnView { accumulator: Seq::empty(), done: None, rate_limited: false }
}

/// The state after one more line: text is gathered, the last end counts.
pub open spec fn turn_step(s: ClaudeTurnView, line: StreamLineView) -> ClaudeTurnView {
    match line {
        StreamLineView::Token(t) => ClaudeTurnView { accumulator: s.accumulator + t, ..s },
        StreamLineView::Done { answer, is_error, subtype } => ClaudeTurnView {
            done: Some((answer, is_error, subtype)),
            ..s
        },
        StreamLineView::RateLimited => ClaudeTurnView { rate_limited: true, ..s },
        _ => s,
    }
}

/// The state after a series of lines.
pub open spec fn turn_after(lines: Seq<StreamLineView>) -> ClaudeTurnView
    decreases lines.len(),
{
    if lines.len() == 0 {
        turn_start()
    } else {
        turn_step(turn_after(lines.drop_last()), lines.last())
    }
}

/// The events that a line gives rise to.
pub open spec fn line_events(line: StreamLineView) -> Seq<conversation::TurnEventView> {
    match line {
        StreamLineView::Token(t) => seq![conversation::TurnEventView::TextDelta { text: t }],
        StreamLineView::ToolUses(calls) => calls.map_values(
            |c: ToolUseView|
                conversation::TurnEventView::ToolActivity {
                    tool: c.name,
                    summary: call_summary(c),
                },
        ),
        _ => Seq::empty(),
    }
}

/// The views of a list of events.
pub open spec fn event_views(v: Seq<TurnEvent>) -> Seq<conversation::TurnEventView> {
    v.map_values(|e: TurnEvent| e@)
}

/// What is told of a program that ended too soon.
pub open spec fn unfinished_text(brand: Brand) -> Seq<char> {
    brand.name@
        + " Code exited without finishing the turn — make sure you are signed in (run `"@
        + brand.lower() + "` in a terminal)."@
}

/// How a turn ends: the reply, or what went wrong.
pub open spec fn turn_result(
    s: ClaudeTurnView,
    exited_well: bool,
    stderr: Seq<char>,
    brand: Brand,
) -> Result<Seq<char>, Seq<char>> {
    match s.done {
        Some((answer, is_error, subtype)) => if is_error {
            Err(
                brand.name@ + " Code reported an error during the turn (subtype: "@ + (
                match subtype {
                    Some(t) => t,
                    None => "unknown"@,
                }) + ")."@,
            )
        } else if answer.len() > 0 {
            Ok(answer)
        } else if s.accumulator.len() > 0 {
            Ok(s.accumulator)
        } else {
            Err(brand.name@ + " Code returned an empty reply — the turn may have been blocked."@)
        },
        None => if s.rate_limited {
            Err(
                brand.name@ + " usage limit reached. Your "@ + brand.name@
                    + " subscription's quota is exhausted; it will reset later."@,
            )
        } else if !exited_well {
            if text::trimmed(stderr).len() == 0 {
                Err(unfinished_text(brand))
            } else {
                Err(
                    brand.name@ + " Code exited with an error: "@ + text::first_chars(
                        text::trimmed(stderr),
                        500,
                    ),
                )
            }
        } else if s.accumulator.len() > 0 {
            Ok(s.accumulator)
        } else {
            Err(unfinished_text(brand))
        },
    }
}

fn said(brand: &Brand, what: &str) -> (r: String)
    ensures
        r@ == brand.name@ + what@,
{
    let mut s = brand.name.clone();
    s.append(what);
    s
}

fn unfinished(brand: &Brand) -> (r: AppError)
    ensures
        r.text() == unfinished_text(*brand),
{
    let mut s = said(
        brand,
        " Code exited without finishing the turn — make sure you are signed in (run `",
    );
    s.append(text::to_ascii_lower(brand.name.as_str()).as_str());
    s.append("` in a terminal).");
    AppError::Other(s)
}

impl ClaudeTurn {
    /// A turn that has just begun.
    pub fn begin() -> (r: ClaudeTurn)
        ensures
            r@ == turn_start(),
            r@ == turn_after(Seq::empty()),
    {
        ClaudeTurn { accumulator: String::new(), done: None, rate_limited: false }
    }

    /// Takes a line in; the events to pass on.
    pub fn on_line(&mut self, line: StreamLine) -> (r: Vec<TurnEvent>)
        ensures
            final(self)@ == turn_step(old(self)@, line@),
            event_views(r@) == line_events(line@),
            forall|before: Seq<StreamLineView>|
                old(self)@ == #[trigger] turn_after(before) ==> final(self)@ == turn_after(
                    before.push(line@),
                ),
    {
        let ghost start = self@;
        let ghost l = line@;
        let mut out: Vec<TurnEvent> = Vec::new();
        assert(event_views(out@) =~= Seq::<conversation::TurnEventView>::empty());
        match line {
            StreamLine::Token(t) => {
                self.accumulator.append(t.as_str());
                out.push(TurnEvent::TextDelta { text: t });
                assert(event_views(out@) =~= line_events(l));
            },
            StreamLine::ToolUses(calls) => {
                let mut i: usize = 0;
                while i < calls.len()
                    invariant
                        i <= calls.len(),
                        self@ == start,
                        l == StreamLineView::ToolUses(call_views(calls@)),
                        event_views(out@) =~= line_events(l).take(i as int),
                    decreases calls.len() - i,
                {
                    let summary = summarize_tool_call(&calls[i]);
                    let ev = TurnEvent::ToolActivity { tool: calls[i].name.clone(), summary };
                    let ghost before = out@;
                    out.push(ev);
                    assert(event_views(out@) =~= event_views(before).push(ev@));
                    assert(line_events(l)[i as int] == ev@);
                    i += 1;
                }
                assert(line_events(l).take(i as int) =~= line_events(l));
            },
            StreamLine::Done { answer, is_error, subtype } => {
                self.done = Some(DoneLine { answer, is_error, subtype });
            },
            StreamLine::RateLimited => {
                self.rate_limited = true;
            },
            StreamLine::Other => {},
        }
        proof {
            assert forall|before: Seq<StreamLineView>|
                start == #[trigger] turn_after(before) implies self@ == turn_after(
                before.push(l),
            ) by {
                assert(before.push(l).drop_last() =~= before);
            }
        }
        out
    }

    /// The turn's result, once the program has exited.
    pub fn resolve(self, exited_well: bool, stderr: &str, brand: &Brand) -> (r: Result<
        TurnOutcome,
        AppError,
    >)
        ensures
            match turn_result(self@, exited_well, stderr@, *brand) {
                Ok(reply) => r matches Ok(o) && o.reply@ == reply && o.stop is Completed,
                Err(m) => r matches Err(e) && e.text() == m,
            },
    {
        match self.done {
            Some(d) => {
                if d.is_error {
                    let mut s = said(brand, " Code reported an error during the turn (subtype: ");
                    match &d.subtype {
                        Some(t) => {
                            s.append(t.as_str());
                        },
                        None => {
                            s.append("unknown");
                        },
                    }
                    s.append(").");
                    Err(AppError::Other(s))
                } else if !d.answer.as_str().is_empty() {
                    Ok(TurnOutcome { reply: d.answer, stop: TurnStop::Completed })
                } else if !self.accumulator.as_str().is_empty() {
                    Ok(TurnOutcome { reply: self.accumulator, stop: TurnStop::Completed })
                } else {
                    Err(
                        AppError::Other(
                            said(
                                brand,
                                " Code returned an empty reply — the turn may have been blocked.",
                            ),
                        ),
                    )
                }
            },
            None => {
                if self.rate_limited {
                    let mut s = said(brand, " usage limit reached. Your ");
                    s.append(brand.name.as_str());
                    s.append(" subscription's quota is exhausted; it will reset later.");
                    Err(AppError::Other(s))
                } else if !exited_well {
                    let t = text::trim(stderr);
                    if t.is_empty() {
                        Err(unfinished(brand))
                    } else {
                        let mut s = said(brand, " Code exited with an error: ");
                        s.append(text::take_chars(t, 500));
                        Err(AppError::Other(s))
                    }
                } else if !self.accumulator.as_str().is_empty() {
                    Ok(TurnOutcome { reply: self.accumulator, stop: TurnStop::Completed })
                } else {
                    Err(unfinished(brand))
                }
            },
        }
    }
}

/// The message where the program is not there.
pub fn not_installed(brand: &Brand) -> (r: AppError)
    ensures
        r.text() == brand.name@ + " Code is not installed. Install it from https://"@
            + brand.lower() + ".com/"@ + brand.lower() + "-code."@,
{
    let mut s = said(brand, " Code is not installed. Install it from https://");
    s.append(text::to_ascii_lower(brand.name.as_str()).as_str());
    s.append(".com/");
    s.append(text::to_ascii_lower(brand.name.as_str()).as_str());
    s.append("-code.");
    AppError::Other(s)
}

/// The message for a turn that took too long.
pub fn timed_out(brand: &Brand) -> (r: AppError)
    ensures
        r.text() == brand.name@
            + " Code did not finish within 300s — the turn was cancelled."@,
{
    AppError::Other(said(brand, " Code did not finish within 300s — the turn was cancelled."))
}

// ---------------------------------------------------------------------------
// Starting the program
// ---------------------------------------------------------------------------

/// The engine: the model that the agent runs on.
#[derive(Debug, PartialEq, Eq)]
pub struct ClaudeCodeEngine {
    pub model: String,
}

impl ClaudeCodeEngine {
    /// An engine for a model.
    pub fn new(model: &str) -> (r: ClaudeCodeEngine)
        ensures
            r.model@ == model@,
    {
        ClaudeCodeEngine { model: model.to_owned() }
    }

    /// The arguments that start the agent: the file tools and the program's
    /// own MCP server, nothing of the user's, and no shell.
    pub fn args(&self, system_prompt: &str, mcp_config_path: &str) -> (r: Vec<String>)
        ensures
            text::texts(r@) == seq![
                "-p"@,
                "--system-prompt"@,
                system_prompt@,
                "--output-format"@,
                "stream-json"@,
                "--include-partial-messages"@,
                "--verbose"@,
                "--mcp-config"@,
                mcp_config_path@,
                "--strict-mcp-config"@,
                "--allowedTools"@,
                NATIVE_FILE_TOOLS@ + ",mcp__sediment"@,
                "--disallowedTools"@,
                "Bash"@,
                "--permission-mode"@,
                "acceptEdits"@,
                "--no-session-persistence"@,
                "--model"@,
                self.model@,
            ],
    {
        let mut allowed = NATIVE_FILE_TOOLS.to_owned();
        allowed.append(",mcp__sediment");
        let out: Vec<String> = vec![
            "-p".to_owned(),
            "--system-prompt".to_owned(),
            system_prompt.to_owned(),
            "--output-format".to_owned(),
            "stream-json".to_owned(),
            "--include-partial-messages".to_owned(),
            "--verbose".to_owned(),
            "--mcp-config".to_owned(),
            mcp_config_path.to_owned(),
            "--strict-mcp-config".to_owned(),
            "--allowedTools".to_owned(),
            allowed,
            "--disallowedTools".to_owned(),
            "Bash".to_owned(),
            "--permission-mode".to_owned(),
            "acceptEdits".to_owned(),
            "--no-session-persistence".to_owned(),
            "--model".to_owned(),
            self.model.clone(),
        ];
        assert(text::texts(out@) =~= seq![
            out@[0]@,
            out@[1]@,
            out@[2]@,
            out@[3]@,
            out@[4]@,
            out@[5]@,
            out@[6]@,
            out@[7]@,
            out@[8]@,
            out@[9]@,
            out@[10]@,
            out@[11]@,
            out@[12]@,
            out@[13]@,
            out@[14]@,
            out@[15]@,
            out@[16]@,
            out@[17]@,
            out@[18]@,
        ]);
        out
    }
}

impl Default for ClaudeCodeEngine {
    fn default() -> (r: ClaudeCodeEngine)
        ensures
            r.model@ == DEFAULT_MODEL@,
    {
        ClaudeCodeEngine::new(DEFAULT_MODEL)
    }
}

/// One earlier turn, labelled.
pub open spec fn transcript_block(t: TranscriptTurn) -> Seq<char> {
    (if t.role@ == "assistant"@ {
        "Assistant"@
    } else {
        "User"@
    }) + ": "@ + text::trimmed(t.content@) + "\n\n"@
}

/// The earlier turns, labelled, one after the other.
pub open spec fn transcript(history: Seq<TranscriptTurn>) -> Seq<char>
    decreases history.len(),
{
    if history.len() == 0 {
        Seq::empty()
    } else {
        transcript(history.drop_last()) + transcript_block(history.last())
    }
}

/// The prompt for a turn: the formation's path, what is already known, the
/// conversation so far, the message.
pub open spec fn turn_prompt(turn: TurnRequest) -> Seq<char> {
    let opening = "# Your formation\n\n"@
        + "Every note lives inside this folder. Read and write notes only here, using absolute paths under it:\n"@
        + text::trimmed(turn.formation_root@) + "\n\n"@;
    let known = match turn.injected_context {
        Some(c) => if text::trimmed(c@).len() == 0 {
            Seq::empty()
        } else {
            "# What you already know\n\n"@ + text::trimmed(c@) + "\n\n"@
        },
        None => Seq::empty(),
    };
    let so_far = if turn.history@.len() == 0 {
        Seq::empty()
    } else {
        "# Conversation so far\n\n"@ + transcript(turn.history@)
    };
    opening + known + so_far + "# New message\n\n"@ + text::trimmed(turn.message@)
}

/// Builds the prompt for a turn. It opens with the formation's absolute path:
/// notes are read and written there and nowhere else.
pub fn render_turn_prompt(turn: &TurnRequest) -> (r: String)
    ensures
        r@ == turn_prompt(*turn),
{
    let mut out: String = String::from_str("# Your formation\n\n");
    out.append(
        "Every note lives inside this folder. Read and write notes only here, using absolute paths under it:\n",
    );
    out.append(text::trim(turn.formation_root.as_str()));
    out.append("\n\n");
    let ghost opening = out@;
    match &turn.injected_context {
        Some(c) => {
            let ctx = text::trim(c.as_str());
            if !ctx.is_empty() {
                out.append("# What you already know\n\n");
                out.append(ctx);
                out.append("\n\n");
            }
        },
        None => {},
    }
    if !turn.history.is_empty() {
        out.append("# Conversation so far\n\n");
        let ghost before = out@;
        let mut i: usize = 0;
        assert(before + transcript(turn.history@.take(0)) =~= before);
        while i < turn.history.len()
            invariant
                i <= turn.history.len(),
                out@ == before + transcript(turn.history@.take(i as int)),
            decreases turn.history.len() - i,
        {
            let t = &turn.history[i];
            let ghost start = out@;
            if text::same(t.role.as_str(), "assistant") {
                out.append("Assistant");
            } else {
                out.append("User");
            }
            out.append(": ");
            out.append(text::trim(t.content.as_str()));
            out.append("\n\n");
            assert(out@ =~= start + transcript_block(*t));
            assert(turn.history@.take(i + 1).drop_last() =~= turn.history@.take(i as int));
            assert(out@ =~= before + transcript(turn.history@.take(i + 1)));
            i += 1;
        }
        assert(turn.history@.take(i as int) =~= turn.history@);
    }
    out.append("# New message\n\n");
    out.append(text::trim(turn.message.as_str()));
    out
}

/// The configuration that makes the agent start this same program as its MCP
/// server, with what that server needs in its environment.
pub open spec fn server_config_model(self_exe: Seq<char>, turn: TurnRequest) -> JsonModel {
    let env = JsonModel::Object(
        Map::empty().insert("SEDIMENT_FORMATION"@, JsonModel::Str(turn.formation_root@)).insert(
            "SEDIMENT_SOURCE_CHAT_ID"@,
            JsonModel::Str(turn.source_chat_id@),
        ).insert(
            "SEDIMENT_EMBEDDING_PROVIDER"@,
            JsonModel::Str(turn.embedding_provider@),
        ).insert(
            "SEDIMENT_OLLAMA_URL"@,
            JsonModel::Str(
                match turn.ollama_url {
                    Some(u) => u@,
                    None => Seq::empty(),
                },
            ),
        ),
    );
    let server = JsonModel::Object(
        Map::empty().insert("command"@, JsonModel::Str(self_exe)).insert(
            "args"@,
            JsonModel::Array(seq![JsonModel::Str("--mcp-stdio"@)]),
        ).insert("env"@, env),
    );
    JsonModel::Object(
        Map::empty().insert(
            "mcpServers"@,
            JsonModel::Object(Map::empty().insert("sediment"@, server)),
        ),
    )
}

proof fn lemma_config_shallow(self_exe: Seq<char>, turn: TurnRequest)
    ensures
        json::shallow(server_config_model(self_exe, turn), 100),
{
    let e0 = Map::<Seq<char>, JsonModel>::empty();
    let formation = JsonModel::Str(turn.formation_root@);
    let chat = JsonModel::Str(turn.source_chat_id@);
    let provider = JsonModel::Str(turn.embedding_provider@);
    let url = JsonModel::Str(
        match turn.ollama_url {
            Some(u) => u@,
            None => Seq::empty(),
        },
    );
    json::lemma_shallow_empty(97);
    json::lemma_shallow_insert(e0, "SEDIMENT_FORMATION"@, formation, 97);
    let e1 = e0.insert("SEDIMENT_FORMATION"@, formation);
    json::lemma_shallow_insert(e1, "SEDIMENT_SOURCE_CHAT_ID"@, chat, 97);
    let e2 = e1.insert("SEDIMENT_SOURCE_CHAT_ID"@, chat);
    json::lemma_shallow_insert(e2, "SEDIMENT_EMBEDDING_PROVIDER"@, provider, 97);
    let e3 = e2.insert("SEDIMENT_EMBEDDING_PROVIDER"@, provider);
    json::lemma_shallow_insert(e3, "SEDIMENT_OLLAMA_URL"@, url, 97);
    let env = JsonModel::Object(e3.insert("SEDIMENT_OLLAMA_URL"@, url));
    let args = JsonModel::Array(seq![JsonModel::Str("--mcp-stdio"@)]);
    json::lemma_shallow_array1(JsonModel::Str("--mcp-stdio"@), 97);
    json::lemma_shallow_empty(98);
    json::lemma_shallow_insert(e0, "command"@, JsonModel::Str(self_exe), 98);
    let s1 = e0.insert("command"@, JsonModel::Str(self_exe));
    json::lemma_shallow_insert(s1, "args"@, args, 98);
    let s2 = s1.insert("args"@, args);
    json::lemma_shallow_insert(s2, "env"@, env, 98);
    let server = JsonModel::Object(s2.insert("env"@, env));
    json::lemma_shallow_empty(99);
    json::lemma_shallow_insert(e0, "sediment"@, server, 99);
    let servers = JsonModel::Object(e0.insert("sediment"@, server));
    json::lemma_shallow_empty(100);
    json::lemma_shallow_insert(e0, "mcpServers"@, servers, 100);
}

/// The `--mcp-config` text for a turn.
pub fn mcp_config_json(self_exe: &str, turn: &TurnRequest) -> (r: String)
    ensures
        r@ == json::compact_text(server_config_model(self_exe@, *turn)),
        json::parsed_text(r@) == Some(server_config_model(self_exe@, *turn)),
{
    proof {
        lemma_config_shallow(self_exe@, *turn);
    }
    let none: Vec<(String, Json)> = Vec::new();
    assert(json::members(none@) =~= Map::empty());
    let env = json::with(none, "SEDIMENT_FORMATION", json::string(turn.formation_root.as_str()));
    let env = json::with(
        env,
        "SEDIMENT_SOURCE_CHAT_ID",
        json::string(turn.source_chat_id.as_str()),
    );
    let env = json::with(
        env,
        "SEDIMENT_EMBEDDING_PROVIDER",
        json::string(turn.embedding_provider.as_str()),
    );
    let url = match &turn.ollama_url {
        Some(u) => u.clone(),
        None => String::new(),
    };
    let env = json::with(env, "SEDIMENT_OLLAMA_URL", Json::Str(url));
    let server = json::object3(
        "command",
        json::string(self_exe),
        "args",
        json::array1(json::string("--mcp-stdio")),
        "env",
        Json::Object(env),
    );
    let cfg = json::object1("mcpServers", json::object1("sediment", server));
    json::print(&cfg)
}

// ---------------------------------------------------------------------------
// Laws
// ---------------------------------------------------------------------------

/// The text that a series of lines streams.
pub open spec fn streamed_text(lines: Seq<StreamLineView>) -> Seq<char>
    decreases lines.len(),
{
    if lines.len() == 0 {
        Seq::empty()
    } else {
        let before = streamed_text(lines.drop_last());
        match lines.last() {
            StreamLineView::Token(t) => before + t,
            _ => before,
        }
    }
}

/// What was streamed is what was gathered: where the end carries no answer of
/// its own, the reply is the streamed text, all of it and in order.
pub proof fn law_gathered_text_is_the_streamed_text(lines: Seq<StreamLineView>)
    ensures
        turn_after(lines).accumulator == streamed_text(lines),
    decreases lines.len(),
{
    if lines.len() > 0 {
        law_gathered_text_is_the_streamed_text(lines.drop_last());
    }
}

/// Lines that mean nothing change nothing, wherever they stand.
pub proof fn law_other_lines_change_nothing(s: ClaudeTurnView)
    ensures
        turn_step(s, StreamLineView::Other) == s,
        line_events(StreamLineView::Other).len() == 0,
{
}

/// A turn whose end reports an error never gives a reply, and one that was cut
/// short by the quota says so, whatever was streamed before.
pub proof fn law_failures_give_no_reply(
    s: ClaudeTurnView,
    exited_well: bool,
    stderr: Seq<char>,
    brand: Brand,
)
    ensures
        s.done matches Some(d) && d.1 ==> turn_result(s, exited_well, stderr, brand) is Err,
        s.done is None && s.rate_limited ==> turn_result(s, exited_well, stderr, brand) is Err,
{
}

/// The conversation is told in its order: what was said in two stretches, one after the
/// other, is told as the first stretch and then the second.
pub proof fn law_conversation_is_told_in_order(
    earlier: Seq<TranscriptTurn>,
    later: Seq<TranscriptTurn>,
)
    ensures
        transcript(earlier + later) == transcript(earlier) + transcript(later),
    decreases later.len(),
{
    if later.len() == 0 {
        assert(earlier + later =~= earlier);
        assert(transcript(earlier) + transcript(later) =~= transcript(earlier));
    } else {
        law_conversation_is_told_in_order(earlier, later.drop_last());
        assert((earlier + later).drop_last() =~= earlier + later.drop_last());
        assert((earlier + later).last() == later.last());
        assert(transcript(earlier) + transcript(later.drop_last()) + transcript_block(later.last())
            =~= transcript(earlier) + transcript(later));
    }
}

/// One more turn in the history stands behind all that the prompt told of the
/// conversation before, and in front of the new message: under whose turn it was, and
/// word for word but for the white space around it. So of two turns the earlier one
/// always stands before the later one, each reply behind what it replies to.
pub proof fn law_prompt_tells_each_turn_behind_the_earlier_ones(
    turn: TurnRequest,
    more: TurnRequest,
    t: TranscriptTurn,
)
    requires
        more.message@ == turn.message@,
        more.formation_root@ == turn.formation_root@,
        more.injected_context == turn.injected_context,
        more.history@ == turn.history@.push(t),
    ensures
        ({
            let tail = "# New message\n\n"@ + text::trimmed(turn.message@);
            let before = turn_prompt(turn);
            let told = before.take(before.len() - tail.len());
            let opened = if turn.history@.len() == 0 {
                told + "# Conversation so far\n\n"@
            } else {
                told
            };
            let label = if t.role@ == "assistant"@ {
                "Assistant"@
            } else {
                "User"@
            };
            &&& before == told + tail
            &&& turn_prompt(more) == opened + label + ": "@ + text::trimmed(t.content@) + "\n\n"@
                + tail
        }),
{
    let tail = "# New message\n\n"@ + text::trimmed(turn.message@);
    let opening = "# Conversation so far\n\n"@;
    let h = turn.history@;
    let head = prompt_head(turn);
    let block = transcript_block(t);
    lemma_prompt_parts(turn);
    lemma_prompt_parts(more);
    assert(prompt_head(more) == head);
    assert(more.history@.drop_last() =~= h);
    assert(more.history@.last() == t);
    assert(transcript(more.history@) == transcript(h) + block);
    let label = if t.role@ == "assistant"@ {
        "Assistant"@
    } else {
        "User"@
    };
    assert(block == label + ": "@ + text::trimmed(t.content@) + "\n\n"@);
    if h.len() == 0 {
        lemma_taken_back(head, tail);
        lemma_first_turn(head, opening, transcript(h), block, tail);
        lemma_spread(head + opening, label, ": "@, text::trimmed(t.content@), "\n\n"@, tail);
    } else {
        let so_far = head + (opening + transcript(h));
        lemma_taken_back(so_far, tail);
        lemma_later_turn(head, opening, transcript(h), block, tail);
        lemma_spread(so_far, label, ": "@, text::trimmed(t.content@), "\n\n"@, tail);
    }
}

/// What the prompt says before the conversation.
spec fn prompt_head(turn: TurnRequest) -> Seq<char> {
    "# Your formation\n\n"@
        + "Every note lives inside this folder. Read and write notes only here, using absolute paths under it:\n"@
        + text::trimmed(turn.formation_root@) + "\n\n"@ + known_part(turn)
}

/// The prompt is its head, the conversation where there is one, and the message.
proof fn lemma_prompt_parts(turn: TurnRequest)
    ensures
        ({
            let tail = "# New message\n\n"@ + text::trimmed(turn.message@);
            turn_prompt(turn) == if turn.history@.len() == 0 {
                prompt_head(turn) + tail
            } else {
                prompt_head(turn) + ("# Conversation so far\n\n"@ + transcript(turn.history@)) + tail
            }
        }),
{
    let tail = "# New message\n\n"@ + text::trimmed(turn.message@);
    if turn.history@.len() == 0 {
        assert(turn_prompt(turn) =~= prompt_head(turn) + tail);
    } else {
        assert(turn_prompt(turn) =~= prompt_head(turn) + ("# Conversation so far\n\n"@ + transcript(
            turn.history@,
        )) + tail);
    }
}

proof fn lemma_taken_back(a: Seq<char>, tail: Seq<char>)
    ensures
        (a + tail).take((a + tail).len() - tail.len()) == a,
{
    assert((a + tail).take(a.len() as int) =~= a);
}

proof fn lemma_first_turn(
    head: Seq<char>,
    opening: Seq<char>,
    told: Seq<char>,
    block: Seq<char>,
    tail: Seq<char>,
)
    requires
        told.len() == 0,
    ensures
        head + (opening + (told + block)) + tail == (head + opening) + block + tail,
{
    assert(told + block =~= block);
    assert(head + (opening + block) =~= (head + opening) + block);
}

proof fn lemma_later_turn(
    head: Seq<char>,
    opening: Seq<char>,
    told: Seq<char>,
    block: Seq<char>,
    tail: Seq<char>,
)
    ensures
        head + (opening + (told + block)) + tail == (head + (opening + told)) + block + tail,
{
    assert(head + (opening + (told + block)) =~= (head + (opening + told)) + block);
}

proof fn lemma_spread(
    a: Seq<char>,
    b: Seq<char>,
    c: Seq<char>,
    d: Seq<char>,
    e: Seq<char>,
    tail: Seq<char>,
)
    ensures
        a + (b + c + d + e) + tail == a + b + c + d + e + tail,
{
    assert(a + (b + c + d + e) =~= a + b + c + d + e);
}

/// What the prompt says is already known.
spec fn known_part(turn: TurnRequest) -> Seq<char> {
    match turn.injected_context {
        Some(c) => if text::trimmed(c@).len() == 0 {
            Seq::empty()
        } else {
            "# What you already know\n\n"@ + text::trimmed(c@) + "\n\n"@
        },
        None => Seq::empty(),
    }
}

/// What is already known stands between the formation's path and the conversation, and
/// nothing else in the prompt depends on it. Blank knowledge is none.
pub proof fn law_prompt_grounds_the_turn(bare: TurnRequest, grounded: TurnRequest, c: String)
    requires
        bare.injected_context is None,
        grounded.injected_context == Some(c),
        grounded.message@ == bare.message@,
        grounded.history@ == bare.history@,
        grounded.formation_root@ == bare.formation_root@,
    ensures
        text::trimmed(c@).len() == 0 ==> turn_prompt(grounded) == turn_prompt(bare),
        ({
            let without = turn_prompt(bare);
            let opening = "# Your formation\n\n"@
                + "Every note lives inside this folder. Read and write notes only here, using absolute paths under it:\n"@
                + text::trimmed(bare.formation_root@) + "\n\n"@;
            &&& without == opening + without.skip(opening.len() as int)
            &&& text::trimmed(c@).len() > 0 ==> turn_prompt(grounded) == opening
                + "# What you already know\n\n"@ + text::trimmed(c@) + "\n\n"@ + without.skip(
                opening.len() as int,
            )
        }),
{
    let without = turn_prompt(bare);
    let opening = "# Your formation\n\n"@
        + "Every note lives inside this folder. Read and write notes only here, using absolute paths under it:\n"@
        + text::trimmed(bare.formation_root@) + "\n\n"@;
    let so_far = if bare.history@.len() == 0 {
        Seq::empty()
    } else {
        "# Conversation so far\n\n"@ + transcript(bare.history@)
    };
    let rest = so_far + "# New message\n\n"@ + text::trimmed(bare.message@);
    assert(without =~= opening + rest);
    assert(without.skip(opening.len() as int) =~= rest);
    if text::trimmed(c@).len() > 0 {
        assert(turn_prompt(grounded) =~= opening + "# What you already know\n\n"@ + text::trimmed(
            c@,
        ) + "\n\n"@ + rest);
    } else {
        assert(turn_prompt(grounded) =~= opening + rest);
    }
}

/// The prompt ends in the new message, which nothing before it depends on; where there
/// was no conversation none is told of.
pub proof fn law_prompt_ends_in_the_message(turn: TurnRequest, other: TurnRequest)
    requires
        other.history@ == turn.history@,
        other.formation_root@ == turn.formation_root@,
        other.injected_context == turn.injected_context,
    ensures
        ({
            let (p, q) = (turn_prompt(turn), turn_prompt(other));
            let (m, n) = (text::trimmed(turn.message@), text::trimmed(other.message@));
            &&& p == p.take(p.len() - m.len()) + m
            &&& q == q.take(q.len() - n.len()) + n
            &&& p.take(p.len() - m.len()) == q.take(q.len() - n.len())
            &&& text::ends(p.take(p.len() - m.len()), "# New message\n\n"@)
        }),
{
    let so_far = if turn.history@.len() == 0 {
        Seq::empty()
    } else {
        "# Conversation so far\n\n"@ + transcript(turn.history@)
    };
    let head = "# Your formation\n\n"@
        + "Every note lives inside this folder. Read and write notes only here, using absolute paths under it:\n"@
        + text::trimmed(turn.formation_root@) + "\n\n"@ + known_part(turn) + so_far
        + "# New message\n\n"@;
    let (p, q) = (turn_prompt(turn), turn_prompt(other));
    let (m, n) = (text::trimmed(turn.message@), text::trimmed(other.message@));
    assert(p =~= head + m);
    assert(q =~= head + n);
    assert(p.take(p.len() - m.len()) =~= head);
    assert(q.take(q.len() - n.len()) =~= head);
    let last = "# New message\n\n"@;
    assert(head.skip(head.len() - last.len()) =~= last);
}

/// The calls in a message come in the order of its blocks, each under the name and with
/// the arguments of its block; blocks that are no call with a name are passed over.
pub proof fn law_calls_come_in_order(blocks: Seq<ContentBlock>, b: ContentBlock)
    ensures
        ({
            let before = settled_calls(blocks);
            let after = settled_calls(blocks.push(b));
            if b.kind@ == "tool_use"@ && b.name is Some {
                &&& after.len() == before.len() + 1
                &&& after.drop_last() == before
                &&& after.last().name == b.name->0@
                &&& b.input matches Some(j) ==> after.last().input == j.model()
                &&& b.input is None ==> after.last().input == JsonModel::Null
            } else {
                after == before
            }
        }),
{
    assert(blocks.push(b).drop_last() =~= blocks);
    let after = settled_calls(blocks.push(b));
    if after.len() > settled_calls(blocks).len() {
        assert(after.drop_last() =~= settled_calls(blocks));
    }
}

/// A line is a piece of the reply just where it is a text delta, and then it is that
/// text; it is the end just where it is a result, with its answer and whether it is an
/// error; it says that the quota is used up just where it is about the quota and does
/// not say that the turn is allowed; a line that could not be read means nothing.
pub proof fn law_lines_mean_what_they_say(e: StreamEnvelope)
    ensures
        line_meaning(None) is Other,
        line_meaning(Some(e)) is Token <==> e.kind@ == "stream_event"@ && (e.event matches Some(ev)
            && ev.kind@ == "content_block_delta"@ && (ev.delta matches Some(d) && d.kind@
            == "text_delta"@)),
        line_meaning(Some(e)) matches StreamLineView::Token(t) ==> t == (
        match e.event->0.delta->0.text {
            Some(said) => said@,
            None => Seq::empty(),
        }),
        line_meaning(Some(e)) is Done <==> e.kind@ == "result"@,
        line_meaning(Some(e)) matches StreamLineView::Done { answer, is_error, subtype } ==> {
            &&& e.result matches Some(a) ==> answer == a@
            &&& e.result is None ==> answer.len() == 0
            &&& is_error == e.is_error
            &&& subtype == text::opt_text(e.subtype)
        },
        line_meaning(Some(e)) is RateLimited <==> e.kind@ == "rate_limit_event"@ && !(
        e.rate_limit_info matches Some(i) && i.status@ == "allowed"@),
        line_meaning(Some(e)) matches StreamLineView::ToolUses(c) ==> e.kind@ == "assistant"@
            && e.message is Some && c == settled_calls(e.message->0.content@) && c.len() > 0,
        e.kind@ == "assistant"@ && e.message is Some && settled_calls(e.message->0.content@).len()
            > 0 ==> line_meaning(Some(e)) is ToolUses,
{
    reveal_strlit("stream_event");
    reveal_strlit("rate_limit_event");
    reveal_strlit("assistant");
    reveal_strlit("result");
    assert("stream_event"@.len() == 12);
    assert("rate_limit_event"@.len() == 16);
    assert("assistant"@.len() == 9);
    assert("result"@.len() == 6);
}

/// What one more line changes: a piece is put behind the text so far, an end takes the
/// place of any before it, the quota once used up stays so; everything else about the
/// turn stays as it was.
pub proof fn law_each_line_adds_its_part(lines: Seq<StreamLineView>, line: StreamLineView)
    ensures
        ({
            let before = turn_after(lines);
            let after = turn_after(lines.push(line));
            &&& line matches StreamLineView::Token(t) ==> after.accumulator == before.accumulator + t
            &&& !(line is Token) ==> after.accumulator == before.accumulator
            &&& line matches StreamLineView::Done { answer, is_error, subtype } ==> after.done
                == Some((answer, is_error, subtype))
            &&& !(line is Done) ==> after.done == before.done
            &&& after.rate_limited == (before.rate_limited || line is RateLimited)
        }),
        turn_after(Seq::empty()).accumulator.len() == 0,
        turn_after(Seq::empty()).done is None,
        !turn_after(Seq::empty()).rate_limited,
{
    assert(lines.push(line).drop_last() =~= lines);
}

/// How a turn ends. An end that is no error gives its answer, or the text so far where
/// the answer is empty; an error gives none. Without an end, a used-up quota or a
/// program that failed is an error, and else the text so far is the reply. An empty
/// reply is always an error.
pub proof fn law_replies_are_the_answer(
    s: ClaudeTurnView,
    exited_well: bool,
    stderr: Seq<char>,
    brand: Brand,
)
    ensures
        ({
            let r = turn_result(s, exited_well, stderr, brand);
            &&& r matches Ok(reply) ==> reply.len() > 0
            &&& s.done matches Some((answer, is_error, _)) ==> {
                &&& is_error ==> r is Err
                &&& !is_error && answer.len() > 0 ==> r == Ok::<Seq<char>, Seq<char>>(answer)
                &&& !is_error && answer.len() == 0 && s.accumulator.len() > 0 ==> r == Ok::<
                    Seq<char>,
                    Seq<char>,
                >(s.accumulator)
            }
            &&& s.done is None && (s.rate_limited || !exited_well) ==> r is Err
            &&& s.done is None && !s.rate_limited && exited_well && s.accumulator.len() > 0 ==> r
                == Ok::<Seq<char>, Seq<char>>(s.accumulator)
        }),
{
}

/// A tool is told of by its name without the namespaces before it: what is told is the
/// end of the name, and holds no `__` unless the name ends in one.
pub proof fn law_bare_names_end_their_name(name: Seq<char>)
    ensures
        text::ends(name, bare_name(name)),
        name.len() > 0 ==> bare_name(name).len() > 0,
        bare_name(name) != name ==> text::ends(
            name.take(name.len() - bare_name(name).len()),
            "__"@,
        ),
        bare_name(name) != name ==> forall|i: int|
            0 <= i <= bare_name(name).len() ==> !#[trigger] text::occurs_at(
                bare_name(name),
                "__"@,
                i,
            ),
        bare_name(name) == name ==> forall|i: int|
            0 <= i < name.len() - 2 ==> !#[trigger] text::occurs_at(name, "__"@, i)
                || text::ends(name, "__"@),
{
    reveal_strlit("__");
    lemma_after_last(name, name.len() as int);
    let t = after_last_from(name, name.len() as int);
    assert(name.skip(0) =~= name);
    if t.len() > 0 && t != name {
        let cut = name.len() - t.len();
        assert(text::occurs_at(name, "__"@, cut - 2));
        assert(name.skip(cut) =~= t);
        assert(name.take(cut).skip(cut - 2) =~= "__"@) by {
            assert(name.subrange(cut - 2, cut) =~= name.take(cut).skip(cut - 2));
        }
        assert forall|i: int| 0 <= i <= t.len() implies !#[trigger] text::occurs_at(
            t,
            "__"@,
            i,
        ) by {
            if text::occurs_at(t, "__"@, i) {
                assert(t.subrange(i, i + 2) =~= name.subrange(cut + i, cut + i + 2));
                assert(text::occurs_at(name, "__"@, cut + i));
            }
        }
    } else if t.len() == 0 && name.len() > 0 {
        assert(text::occurs_at(name, "__"@, name.len() - 2));
        assert(name.subrange(name.len() - 2, name.len() as int) =~= name.skip(name.len() - 2));
    }
}

proof fn lemma_after_last(name: Seq<char>, i: int)
    requires
        i <= name.len(),
    ensures
        ({
            let t = after_last_from(name, i);
            let cut = name.len() - t.len();
            &&& t.len() <= name.len()
            &&& t == name.skip(cut)
            &&& t != name ==> cut >= 2 && cut - 2 <= i && text::occurs_at(name, "__"@, cut - 2)
            &&& forall|j: int|
                (if t == name {
                    0
                } else {
                    cut - 1
                }) <= j <= i ==> !#[trigger] text::occurs_at(name, "__"@, j)
        }),
    decreases i + 1,
{
    reveal_strlit("__");
    if i < 0 {
        assert(name.skip(0) =~= name);
    } else if text::occurs_at(name, "__"@, i) {
        let t = name.skip(i + 2);
        assert(t.len() == name.len() - i - 2);
    } else {
        lemma_after_last(name, i - 1);
    }
}

/// What a call touches is told by the first of the arguments, in their order, that is a
/// text with anything in it; where none is, nothing is told.
pub proof fn law_details_are_the_first_given(input: JsonModel, keys: Seq<Seq<char>>)
    ensures
        match call_detail(input, keys) {
            Some(d) => exists|i: int|
                0 <= i < keys.len() && json::text_member(input, #[trigger] keys[i]) == Some(d)
                    && d.len() > 0 && forall|j: int|
                    0 <= j < i ==> !(json::text_member(input, #[trigger] keys[j]) matches Some(t)
                        && t.len() > 0),
            None => forall|j: int|
                0 <= j < keys.len() ==> !(json::text_member(input, #[trigger] keys[j]) matches Some(
                    t,
                ) && t.len() > 0),
        },
    decreases keys.len(),
{
    if keys.len() > 0 {
        let rest = keys.drop_first();
        law_details_are_the_first_given(input, rest);
        let here = json::text_member(input, keys[0]) matches Some(t) && t.len() > 0;
        if !here {
            assert forall|j: int| 1 <= j < keys.len() implies #[trigger] keys[j] == rest[j - 1] by {}
            if call_detail(input, keys) is Some {
                let d = call_detail(input, keys)->0;
                let i = choose|i: int|
                    0 <= i < rest.len() && json::text_member(input, #[trigger] rest[i]) == Some(d)
                        && d.len() > 0 && forall|j: int|
                        0 <= j < i ==> !(json::text_member(input, #[trigger] rest[j]) matches Some(
                            t,
                        ) && t.len() > 0);
                assert(keys[i + 1] == rest[i]);
                assert forall|j: int| 0 <= j < i + 1 implies !(json::text_member(
                    input,
                    #[trigger] keys[j],
                ) matches Some(t) && t.len() > 0) by {
                    if j > 0 {
                        assert(keys[j] == rest[j - 1]);
                    }
                }
            } else {
                assert forall|j: int| 0 <= j < keys.len() implies !(json::text_member(
                    input,
                    #[trigger] keys[j],
                ) matches Some(t) && t.len() > 0) by {
                    if j > 0 {
                        assert(keys[j] == rest[j - 1]);
                    }
                }
            }
        } else {
            assert(json::text_member(input, keys[0]) == call_detail(input, keys));
        }
    }
}

/// Every piece of the reply and every call of a tool is passed on, in order; a call
/// under its own name.
pub proof fn law_events_tell_what_happens(line: StreamLineView)
    ensures
        line matches StreamLineView::Token(t) ==> line_events(line) == seq![
            conversation::TurnEventView::TextDelta { text: t },
        ],
        line matches StreamLineView::ToolUses(calls) ==> line_events(line).len() == calls.len()
            && forall|i: int|
            0 <= i < calls.len() ==> (#[trigger] line_events(line)[i]
                matches conversation::TurnEventView::ToolActivity { tool, summary } && tool
                == calls[i].name && text::begins(summary, bare_name(calls[i].name))),
        !(line is Token) && !(line is ToolUses) ==> line_events(line).len() == 0,
{
    if let StreamLineView::ToolUses(calls) = line {
        assert forall|i: int| 0 <= i < calls.len() implies (#[trigger] line_events(line)[i]
            matches conversation::TurnEventView::ToolActivity { tool, summary } && tool
            == calls[i].name && text::begins(summary, bare_name(calls[i].name))) by {
            let bare = bare_name(calls[i].name);
            let told = call_summary(calls[i]);
            assert(told.take(bare.len() as int) =~= bare);
        }
    }
}

/// The server that the agent is told of is this program, and works on the formation of
/// the turn, for the message of the turn.
pub proof fn law_server_works_for_the_turn(self_exe: Seq<char>, turn: TurnRequest)
    ensures
        ({
            let m = server_config_model(self_exe, turn);
            let server = json::member(json::member(m, "mcpServers"@)->0, "sediment"@)->0;
            let env = json::member(server, "env"@)->0;
            &&& json::text_member(server, "command"@) == Some(self_exe)
            &&& json::text_member(env, "SEDIMENT_FORMATION"@) == Some(turn.formation_root@)
            &&& json::text_member(env, "SEDIMENT_SOURCE_CHAT_ID"@) == Some(turn.source_chat_id@)
            &&& json::text_member(env, "SEDIMENT_EMBEDDING_PROVIDER"@) == Some(
                turn.embedding_provider@,
            )
            &&& json::text_member(env, "SEDIMENT_OLLAMA_URL"@) == Some(
                match turn.ollama_url {
                    Some(u) => u@,
                    None => Seq::empty(),
                },
            )
        }),
{
    reveal_strlit("SEDIMENT_FORMATION");
    reveal_strlit("SEDIMENT_SOURCE_CHAT_ID");
    reveal_strlit("SEDIMENT_EMBEDDING_PROVIDER");
    reveal_strlit("SEDIMENT_OLLAMA_URL");
    reveal_strlit("command");
    reveal_strlit("args");
    reveal_strlit("env");
    assert("SEDIMENT_FORMATION"@.len() == 18);
    assert("SEDIMENT_SOURCE_CHAT_ID"@.len() == 23);
    assert("SEDIMENT_EMBEDDING_PROVIDER"@.len() == 27);
    assert("SEDIMENT_OLLAMA_URL"@.len() == 19);
    assert("command"@.len() == 7);
    assert("args"@.len() == 4);
    assert("env"@.len() == 3);
}

/// A call is told by the file it touches before what it asks for, and by that before what
/// it names.
pub proof fn law_details_are_tried_in_order()
    ensures
        detail_keys().len() == 8,
        detail_keys()[0] == "file_path"@ && detail_keys()[1] == "path"@,
        detail_keys()[2] == "query"@ && detail_keys()[3] == "name"@,
        detail_keys()[4] == "subject"@ && detail_keys()[5] == "title"@,
        detail_keys()[6] == "pattern"@ && detail_keys()[7] == "fact_id"@,
{
}

} // verus!
