//! The Copilot CLI as a warm engine: one long-lived process that speaks
//! JSON-RPC 2.0, a line a message, and serves many turns.
//!
//! This is the protocol and its decisions: the messages that go out, what an
//! incoming line is and asks for, how a turn gathers its reply, and when the
//! process is replaced. Starting it and moving the lines is the program's part.
use vstd::prelude::*;
use crate::brand::Brand;
use crate::agent_tone;
use crate::agent_tone::AgentTone;
use crate::conversation::{TurnEvent, TurnOutcome, TurnRequest, TurnStop};
use crate::conversation;
use crate::error::AppError;
use crate::json::{Json, JsonModel};
use crate::json;
use crate::paths;
use crate::text;

verus! {

broadcast use vstd::string::group_string_axioms;

/// The model that is used where none is chosen.
pub open spec fn default_model_text(brand: Brand) -> Seq<char> {
    brand.lower() + "-haiku-4.5"@
}

/// The model that is used where none is chosen.
pub fn default_model(brand: &Brand) -> (r: String)
    ensures
        r@ == default_model_text(*brand),
{
    brand.before("-haiku-4.5")
}

/// The version the client names itself by.
pub const CLIENT_VERSION: &'static str = "0.1.0";

/// A process is replaced after this many turns, before it slows down.
pub const MAX_TURNS_PER_PROCESS: u64 = 40;

/// The id of the `session/new` request of a model discovery.
pub const SESSION_NEW_ID: i64 = 2;

// ---------------------------------------------------------------------------
// Finding the program
// ---------------------------------------------------------------------------

/// The places to look for the program first, off Windows.
pub fn unix_candidates(home: Option<&str>) -> (r: Vec<String>)
    ensures
        text::texts(r@) == (match home {
            Some(h) => seq![paths::joined_path(h@, ".local/bin/copilot"@)],
            None => Seq::<Seq<char>>::empty(),
        }) + seq!["/opt/homebrew/bin/copilot"@, "/usr/local/bin/copilot"@],
{
    let mut out: Vec<String> = Vec::new();
    match home {
        Some(h) => {
            out.push(paths::join(h, ".local/bin/copilot"));
        },
        None => {},
    }
    let ghost lead = text::texts(out@);
    let a = "/opt/homebrew/bin/copilot".to_owned();
    let b = "/usr/local/bin/copilot".to_owned();
    proof {
        text::lemma_texts_push(out@, a);
        text::lemma_texts_push(out@.push(a), b);
    }
    out.push(a);
    out.push(b);
    assert(text::texts(out@) =~= lead + seq![a@, b@]);
    out
}

/// The first candidate that is there.
pub open spec fn first_there(candidates: Seq<Seq<char>>, there: Seq<bool>, i: int) -> Option<Seq<char>>
    decreases candidates.len() - i,
{
    if i >= candidates.len() {
        None
    } else if i < there.len() && there[i] {
        Some(candidates[i])
    } else {
        first_there(candidates, there, i + 1)
    }
}

/// The first candidate that is there; `there[i]` tells whether `candidates[i]`
/// is a file.
pub fn first_existing(candidates: &Vec<String>, there: &Vec<bool>) -> (r: Option<String>)
    ensures
        text::opt_text(r) == first_there(text::texts(candidates@), there@, 0),
{
    let ghost all = text::texts(candidates@);
    let mut i: usize = 0;
    while i < candidates.len()
        invariant
            i <= candidates.len(),
            all == text::texts(candidates@),
            first_there(all, there@, 0) == first_there(all, there@, i as int),
        decreases candidates.len() - i,
    {
        if i < there.len() && there[i] {
            return Some(candidates[i].clone());
        }
        i += 1;
    }
    None
}

/// Where the program is: the first candidate that is there, else what the
/// shell (`where` on Windows) found.
pub fn locate(candidates: &Vec<String>, there: &Vec<bool>, probed: Option<String>) -> (r: Option<
    String,
>)
    ensures
        text::opt_text(r) == (match first_there(text::texts(candidates@), there@, 0) {
            Some(p) => Some(p),
            None => text::opt_text(probed),
        }),
{
    match first_existing(candidates, there) {
        Some(p) => Some(p),
        None => probed,
    }
}

/// What a `command -v` answered: its output, trimmed, if it succeeded and said
/// anything.
pub fn shell_answer(success: bool, stdout: &str) -> (r: Option<String>)
    ensures
        text::opt_text(r) == (if success && text::trimmed(stdout@).len() > 0 {
            Some(text::trimmed(stdout@))
        } else {
            None
        }),
{
    if !success {
        return None;
    }
    let path = text::trim(stdout);
    if path.is_empty() {
        None
    } else {
        Some(path.to_owned())
    }
}

/// Whether the program is installed, and where.
#[derive(Debug, PartialEq, Eq)]
pub struct CopilotStatus {
    pub installed: bool,
    pub binary_path: Option<String>,
}

/// The install status, from where the program was located. Whether the user is
/// logged in shows on the first turn.
pub fn detect(located: Option<String>) -> (r: CopilotStatus)
    ensures
        r.installed == (located is Some),
        text::opt_text(r.binary_path) == text::opt_text(located),
{
    CopilotStatus { installed: located.is_some(), binary_path: located }
}

// ---------------------------------------------------------------------------
// Messages out
// ---------------------------------------------------------------------------

/// The envelope of a request.
pub open spec fn request_model(id: int, method: Seq<char>, params: JsonModel) -> JsonModel {
    JsonModel::Object(
        Map::empty().insert("jsonrpc"@, JsonModel::Str("2.0"@)).insert(
            "id"@,
            JsonModel::Int(id),
        ).insert("method"@, JsonModel::Str(method)).insert("params"@, params),
    )
}

/// A request.
fn request(id: i64, method: &str, params: Json) -> (r: Json)
    ensures
        r.model() == request_model(id as int, method@, params.model()),
{
    let none: Vec<(String, Json)> = Vec::new();
    assert(json::members(none@) =~= Map::empty());
    let o = json::with(none, "jsonrpc", json::string("2.0"));
    let o = json::with(o, "id", Json::Int(id));
    let o = json::with(o, "method", json::string(method));
    Json::Object(json::with(o, "params", params))
}

/// One message as one line: compact JSON and a line feed at its end.
pub fn ndjson_line(msg: &Json) -> (r: String)
    ensures
        r@ == json::compact_text(msg.model()).push('\n'),
        text::free_of(json::compact_text(msg.model()), '\n'),
        json::shallow(msg.model(), 100) ==> line_shape(r@) == shape_of(msg.model()),
{
    let mut s = json::print(msg);
    let ghost t = s@;
    s.push('\n');
    proof {
        assert(s@.drop_last() =~= t);
        assert(text::trimmed_start(s@) == s@);
        assert(text::trimmed_end(t) == t);
    }
    s
}

/// The parameters of an `initialize` request.
pub open spec fn initialize_params() -> JsonModel {
    let fs = JsonModel::Object(
        Map::empty().insert("readTextFile"@, JsonModel::Bool(false)).insert(
            "writeTextFile"@,
            JsonModel::Bool(false),
        ),
    );
    let capabilities = JsonModel::Object(
        Map::empty().insert("fs"@, fs).insert("terminal"@, JsonModel::Bool(false)),
    );
    let info = JsonModel::Object(
        Map::empty().insert("name"@, JsonModel::Str("sediment"@)).insert(
            "version"@,
            JsonModel::Str(CLIENT_VERSION@),
        ),
    );
    JsonModel::Object(
        Map::empty().insert("protocolVersion"@, JsonModel::Int(1)).insert(
            "clientCapabilities"@,
            capabilities,
        ).insert("clientInfo"@, info),
    )
}

/// The `initialize` request. The client offers no file access: the agent uses
/// file tools of its own.
pub fn initialize_msg(id: i64) -> (r: Json)
    ensures
        r.model() == request_model(id as int, "initialize"@, initialize_params()),
        json::shallow(r.model(), 100),
{
    proof {
        lemma_initialize_shallow();
        lemma_request_shallow(id as int, "initialize"@, initialize_params());
    }
    let fs = json::object2(
        "readTextFile",
        Json::Bool(false),
        "writeTextFile",
        Json::Bool(false),
    );
    let capabilities = json::object2("fs", fs, "terminal", Json::Bool(false));
    let info = json::object2(
        "name",
        json::string("sediment"),
        "version",
        json::string(CLIENT_VERSION),
    );
    request(
        id,
        "initialize",
        json::object3(
            "protocolVersion",
            Json::Int(1),
            "clientCapabilities",
            capabilities,
            "clientInfo",
            info,
        ),
    )
}

/// The `session/new` request. MCP servers are not named here: the program
/// drops the ones that talk over stdio, so they come by a file.
pub fn session_new_msg(id: i64, cwd: &str) -> (r: Json)
    ensures
        r.model() == request_model(
            id as int,
            "session/new"@,
            JsonModel::Object(
                Map::empty().insert("cwd"@, JsonModel::Str(cwd@)).insert(
                    "mcpServers"@,
                    JsonModel::Array(Seq::empty()),
                ),
            ),
        ),
        json::shallow(r.model(), 100),
{
    proof {
        let none = JsonModel::Array(Seq::empty());
        lemma_pair_shallow("cwd"@, JsonModel::Str(cwd@), "mcpServers"@, none, 99);
        lemma_request_shallow(
            id as int,
            "session/new"@,
            JsonModel::Object(
                Map::empty().insert("cwd"@, JsonModel::Str(cwd@)).insert("mcpServers"@, none),
            ),
        );
    }
    request(
        id,
        "session/new",
        json::object2("cwd", json::string(cwd), "mcpServers", json::array0()),
    )
}

/// The `session/prompt` request: one turn's text.
pub fn session_prompt_msg(id: i64, session_id: &str, prompt: &str) -> (r: Json)
    ensures
        r.model() == request_model(
            id as int,
            "session/prompt"@,
            JsonModel::Object(
                Map::empty().insert("sessionId"@, JsonModel::Str(session_id@)).insert(
                    "prompt"@,
                    JsonModel::Array(
                        seq![
                            JsonModel::Object(
                                Map::empty().insert("type"@, JsonModel::Str("text"@)).insert(
                                    "text"@,
                                    JsonModel::Str(prompt@),
                                ),
                            ),
                        ],
                    ),
                ),
            ),
        ),
        json::shallow(r.model(), 100),
{
    proof {
        let kind = JsonModel::Str("text"@);
        let body = JsonModel::Str(prompt@);
        lemma_pair_shallow("type"@, kind, "text"@, body, 97);
        let piece = JsonModel::Object(
            Map::empty().insert("type"@, kind).insert("text"@, body),
        );
        json::lemma_shallow_array1(piece, 98);
        let list = JsonModel::Array(seq![piece]);
        let session = JsonModel::Str(session_id@);
        lemma_pair_shallow("sessionId"@, session, "prompt"@, list, 99);
        lemma_request_shallow(
            id as int,
            "session/prompt"@,
            JsonModel::Object(
                Map::empty().insert("sessionId"@, session).insert("prompt"@, list),
            ),
        );
    }
    let part = json::object2("type", json::string("text"), "text", json::string(prompt));
    request(
        id,
        "session/prompt",
        json::object2("sessionId", json::string(session_id), "prompt", json::array1(part)),
    )
}

/// The `session/cancel` notification: no id, and no response is expected.
pub fn session_cancel_msg(session_id: &str) -> (r: Json)
    ensures
        r.model() == JsonModel::Object(
            Map::empty().insert("jsonrpc"@, JsonModel::Str("2.0"@)).insert(
                "method"@,
                JsonModel::Str("session/cancel"@),
            ).insert(
                "params"@,
                JsonModel::Object(Map::empty().insert("sessionId"@, JsonModel::Str(session_id@))),
            ),
        ),
        json::shallow(r.model(), 100),
{
    proof {
        let version = JsonModel::Str("2.0"@);
        let method = JsonModel::Str("session/cancel"@);
        let session = JsonModel::Str(session_id@);
        lemma_pair_shallow("jsonrpc"@, version, "method"@, method, 100);
        json::lemma_shallow_empty(99);
        json::lemma_shallow_insert(Map::empty(), "sessionId"@, session, 99);
        json::lemma_shallow_insert(
            Map::<Seq<char>, JsonModel>::empty().insert("jsonrpc"@, version).insert(
                "method"@,
                method,
            ),
            "params"@,
            JsonModel::Object(Map::empty().insert("sessionId"@, session)),
            100,
        );
    }
    json::object3(
        "jsonrpc",
        json::string("2.0"),
        "method",
        json::string("session/cancel"),
        "params",
        json::object1("sessionId", json::string(session_id)),
    )
}

/// The option is the one with the id `allow_always`.
pub open spec fn allows_always(option: JsonModel) -> bool {
    json::text_member(option, "optionId"@) == Some("allow_always"@)
}

/// The option is of a kind that allows.
pub open spec fn allows(option: JsonModel) -> bool {
    let kind = json::text_member(option, "kind"@);
    kind == Some("allow_always"@) || kind == Some("allow_once"@)
}

/// The first option, from `i` on, that allows always.
pub open spec fn first_always(options: Seq<JsonModel>, i: int) -> Option<int>
    decreases options.len() - i,
{
    if i >= options.len() {
        None
    } else if allows_always(options[i]) {
        Some(i)
    } else {
        first_always(options, i + 1)
    }
}

/// The first option, from `i` on, of a kind that allows.
pub open spec fn first_allowing(options: Seq<JsonModel>, i: int) -> Option<int>
    decreases options.len() - i,
{
    if i >= options.len() {
        None
    } else if allows(options[i]) {
        Some(i)
    } else {
        first_allowing(options, i + 1)
    }
}

/// The option that a permission request is answered with: `allow_always`, else
/// the first that allows, else `allow_once`.
pub open spec fn chosen_option(params: JsonModel) -> Seq<char> {
    match json::member(params, "options"@) {
        Some(JsonModel::Array(options)) => {
            let pick = match first_always(options, 0) {
                Some(i) => Some(i),
                None => first_allowing(options, 0),
            };
            match pick {
                Some(i) => match json::text_member(options[i], "optionId"@) {
                    Some(id) => id,
                    None => "allow_once"@,
                },
                None => "allow_once"@,
            }
        },
        _ => "allow_once"@,
    }
}

/// The id of the option to choose.
fn choose_option(params: &Json) -> (r: String)
    ensures
        r@ == chosen_option(params.model()),
{
    match params.get("options") {
        None => "allow_once".to_owned(),
        Some(v) => match v.as_array() {
            None => "allow_once".to_owned(),
            Some(options) => {
                let ghost all = json::models(options@);
                proof {
                    json::lemma_models_index(options@);
                }
                let mut pick: Option<usize> = None;
                let mut i: usize = 0;
                while i < options.len() && pick.is_none()
                    invariant
                        i <= options.len(),
                        all == json::models(options@),
                        all.len() == options@.len(),
                        forall|k: int| 0 <= k < options@.len() ==> #[trigger] all[k] == options@[k].model(),
                        match pick {
                            Some(p) => p < options.len() && first_always(all, 0) == Some(p as int),
                            None => first_always(all, 0) == first_always(all, i as int),
                        },
                    decreases options.len() - i,
                {
                    let hit = match options[i].get_str("optionId") {
                        Some(id) => text::same(id, "allow_always"),
                        None => false,
                    };
                    assert(all[i as int] == options@[i as int].model());
                    assert(hit == allows_always(all[i as int]));
                    if hit {
                        pick = Some(i);
                    }
                    i += 1;
                }
                let mut k: usize = 0;
                let ghost always = first_always(all, 0);
                while k < options.len() && pick.is_none()
                    invariant
                        k <= options.len(),
                        all == json::models(options@),
                        all.len() == options@.len(),
                        forall|q: int| 0 <= q < options@.len() ==> #[trigger] all[q] == options@[q].model(),
                        match pick {
                            Some(p) => p < options.len() && (always == Some(p as int) || (always is None
                                && first_allowing(all, 0) == Some(p as int))),
                            None => always is None && first_allowing(all, 0) == first_allowing(
                                all,
                                k as int,
                            ),
                        },
                    decreases options.len() - k,
                {
                    let hit = match options[k].get_str("kind") {
                        Some(kind) => text::same(kind, "allow_always") || text::same(
                            kind,
                            "allow_once",
                        ),
                        None => false,
                    };
                    assert(all[k as int] == options@[k as int].model());
                    assert(hit == allows(all[k as int]));
                    if hit {
                        pick = Some(k);
                    }
                    k += 1;
                }
                match pick {
                    Some(p) => {
                        assert(all[p as int] == options@[p as int].model());
                        match options[p].get_str("optionId") {
                            Some(id) => id.to_owned(),
                            None => "allow_once".to_owned(),
                        }
                    },
                    None => "allow_once".to_owned(),
                }
            },
        },
    }
}

/// The reply that grants a permission request.
pub open spec fn permission_model(id: int, params: JsonModel) -> JsonModel {
    JsonModel::Object(
        Map::empty().insert("jsonrpc"@, JsonModel::Str("2.0"@)).insert(
            "id"@,
            JsonModel::Int(id),
        ).insert(
            "result"@,
            JsonModel::Object(
                Map::empty().insert(
                    "outcome"@,
                    JsonModel::Object(
                        Map::empty().insert("outcome"@, JsonModel::Str("selected"@)).insert(
                            "optionId"@,
                            JsonModel::Str(chosen_option(params)),
                        ),
                    ),
                ),
            ),
        ),
    )
}

/// The reply that turns a request down.
pub open spec fn unsupported_model(id: int) -> JsonModel {
    JsonModel::Object(
        Map::empty().insert("jsonrpc"@, JsonModel::Str("2.0"@)).insert(
            "id"@,
            JsonModel::Int(id),
        ).insert(
            "error"@,
            JsonModel::Object(
                Map::empty().insert("code"@, JsonModel::Int(-32601)).insert(
                    "message"@,
                    JsonModel::Str("method not supported"@),
                ),
            ),
        ),
    )
}

/// The reply to a permission request: yes. It carries the program's id, not
/// one of ours, which count separately.
pub fn permission_allow_msg(their_id: i64, request_params: &Json) -> (r: Json)
    ensures
        r.model() == permission_model(their_id as int, request_params.model()),
{
    let option = choose_option(request_params);
    let outcome = json::object2(
        "outcome",
        json::string("selected"),
        "optionId",
        Json::Str(option),
    );
    json::object3(
        "jsonrpc",
        json::string("2.0"),
        "id",
        Json::Int(their_id),
        "result",
        json::object1("outcome", outcome),
    )
}

/// The reply to a request the client does not serve.
pub fn unsupported_msg(their_id: i64) -> (r: Json)
    ensures
        r.model() == unsupported_model(their_id as int),
{
    json::object3(
        "jsonrpc",
        json::string("2.0"),
        "id",
        Json::Int(their_id),
        "error",
        json::object2(
            "code",
            Json::Int(-32601),
            "message",
            json::string("method not supported"),
        ),
    )
}

// ---------------------------------------------------------------------------
// Messages in
// ---------------------------------------------------------------------------

/// An incoming message, told by its shape. The program's request ids and ours
/// overlap, so an id alone tells nothing.
#[derive(Debug, PartialEq, Eq)]
pub enum Incoming {
    Response { id: i64, result: Option<Json>, error: Option<Json> },
    Request { id: i64, method: String, params: Json },
    Notification { method: String, params: Json },
    Other,
}

/// What an [`Incoming`] says.
pub enum IncomingView {
    Response { id: int, result: Option<JsonModel>, error: Option<JsonModel> },
    Request { id: int, method: Seq<char>, params: JsonModel },
    Notification { method: Seq<char>, params: JsonModel },
    Other,
}

impl View for Incoming {
    type V = IncomingView;

    open spec fn view(&self) -> IncomingView {
        match self {
            Incoming::Response { id, result, error } => IncomingView::Response {
                id: *id as int,
                result: json::opt_model(*result),
                error: json::opt_model(*error),
            },
            Incoming::Request { id, method, params } => IncomingView::Request {
                id: *id as int,
                method: method@,
                params: params.model(),
            },
            Incoming::Notification { method, params } => IncomingView::Notification {
                method: method@,
                params: params.model(),
            },
            Incoming::Other => IncomingView::Other,
        }
    }
}

/// A member's whole number, where it fits in 64 bits with a sign.
pub open spec fn int_member(m: JsonModel, key: Seq<char>) -> Option<int> {
    match json::member(m, key) {
        Some(v) => json::signed(v),
        None => None,
    }
}

/// A member, or null.
pub open spec fn member_or_null(m: JsonModel, key: Seq<char>) -> JsonModel {
    match json::member(m, key) {
        Some(v) => v,
        None => JsonModel::Null,
    }
}

/// What a message is: with a method and an id a request, with a method alone a
/// notification, with an id alone a response.
pub open spec fn shape_of(v: JsonModel) -> IncomingView {
    match (json::text_member(v, "method"@), int_member(v, "id"@)) {
        (Some(method), Some(id)) => IncomingView::Request {
            id,
            method,
            params: member_or_null(v, "params"@),
        },
        (Some(method), None) => IncomingView::Notification {
            method,
            params: member_or_null(v, "params"@),
        },
        (None, Some(id)) => IncomingView::Response {
            id,
            result: json::member(v, "result"@),
            error: json::member(v, "error"@),
        },
        (None, None) => IncomingView::Other,
    }
}

/// A copy of a member.
fn copy_member(v: &Json, key: &str) -> (r: Option<Json>)
    ensures
        json::opt_model(r) == json::member(v.model(), key@),
{
    match v.get(key) {
        Some(m) => Some(m.clone()),
        None => None,
    }
}

/// A copy of a member, or null.
fn copy_or_null(v: &Json, key: &str) -> (r: Json)
    ensures
        r.model() == member_or_null(v.model(), key@),
{
    match v.get(key) {
        Some(m) => m.clone(),
        None => Json::Null,
    }
}

/// What a message is, by its shape.
pub fn classify_value(v: &Json) -> (r: Incoming)
    ensures
        r@ == shape_of(v.model()),
{
    let method = v.get_str("method");
    let id = match v.get("id") {
        Some(n) => n.as_i64(),
        None => None,
    };
    match method {
        Some(m) => match id {
            Some(id) => Incoming::Request {
                id,
                method: m.to_owned(),
                params: copy_or_null(v, "params"),
            },
            None => Incoming::Notification { method: m.to_owned(), params: copy_or_null(v, "params") },
        },
        None => match id {
            Some(id) => Incoming::Response {
                id,
                result: copy_member(v, "result"),
                error: copy_member(v, "error"),
            },
            None => Incoming::Other,
        },
    }
}

/// What a line is; a line that is no JSON is something else.
pub open spec fn line_shape(line: Seq<char>) -> IncomingView {
    match json::parsed_text(text::trimmed(line)) {
        Some(v) => shape_of(v),
        None => IncomingView::Other,
    }
}

/// What an incoming line is, by its shape.
pub fn classify(line: &str) -> (r: Incoming)
    ensures
        r@ == line_shape(line@),
{
    match json::parse(text::trim(line)) {
        Some(v) => classify_value(&v),
        None => Incoming::Other,
    }
}

/// The event that a `session/update` notification stands for: text of the
/// reply, or the use of a tool. Thoughts, plans and the like give none.
pub open spec fn update_event(params: JsonModel) -> Option<conversation::TurnEventView> {
    match json::member(params, "update"@) {
        None => None,
        Some(update) => {
            let kind = json::text_member(update, "sessionUpdate"@);
            if kind == Some("agent_message_chunk"@) {
                match json::member(update, "content"@) {
                    None => None,
                    Some(content) => match json::text_member(content, "text"@) {
                        None => None,
                        Some(t) => if t.len() == 0 {
                            None
                        } else {
                            Some(conversation::TurnEventView::TextDelta { text: t })
                        },
                    },
                }
            } else if kind == Some("tool_call"@) {
                let summary = match json::text_member(update, "title"@) {
                    Some(t) => t,
                    None => match json::text_member(update, "kind"@) {
                        Some(k) => k,
                        None => "tool"@,
                    },
                };
                Some(conversation::TurnEventView::ToolActivity { tool: "copilot"@, summary })
            } else {
                None
            }
        },
    }
}

/// The event that a `session/update` notification stands for.
pub fn session_update_event(params: &Json) -> (r: Option<TurnEvent>)
    ensures
        conversation::opt_event(r) == update_event(params.model()),
{
    match params.get("update") {
        None => None,
        Some(update) => match update.get_str("sessionUpdate") {
            None => None,
            Some(kind) => if text::same(kind, "agent_message_chunk") {
                match update.get("content") {
                    None => None,
                    Some(content) => match content.get_str("text") {
                        None => None,
                        Some(t) => if t.is_empty() {
                            None
                        } else {
                            Some(TurnEvent::TextDelta { text: t.to_owned() })
                        },
                    },
                }
            } else if text::same(kind, "tool_call") {
                proof {
                    reveal_strlit("agent_message_chunk");
                    reveal_strlit("tool_call");
                    assert("agent_message_chunk"@.len() != "tool_call"@.len());
                }
                let summary = match update.get_str("title") {
                    Some(t) => t,
                    None => match update.get_str("kind") {
                        Some(k) => k,
                        None => "tool",
                    },
                };
                Some(TurnEvent::ToolActivity {
                    tool: "copilot".to_owned(),
                    summary: summary.to_owned(),
                })
            } else {
                None
            },
        },
    }
}

/// What is to be done about an incoming message.
#[derive(Debug, PartialEq, Eq)]
pub enum ReaderAction {
    /// Hand the payload to whoever waits for the response with this id.
    Resolve { id: i64, payload: Result<Json, String> },
    /// Send this line.
    Reply { line: String },
    /// Hand the update to the turn in flight.
    Forward { params: Json },
    Ignore,
}

/// What a [`ReaderAction`] says.
pub enum ReaderActionView {
    Resolve { id: int, payload: Result<JsonModel, Seq<char>> },
    Reply { line: Seq<char> },
    Forward { params: JsonModel },
    Ignore,
}

/// The view of a response's payload.
pub open spec fn payload_view(p: Result<Json, String>) -> Result<JsonModel, Seq<char>> {
    match p {
        Ok(j) => Ok(j.model()),
        Err(e) => Err(e@),
    }
}

impl View for ReaderAction {
    type V = ReaderActionView;

    open spec fn view(&self) -> ReaderActionView {
        match self {
            ReaderAction::Resolve { id, payload } => ReaderActionView::Resolve {
                id: *id as int,
                payload: payload_view(*payload),
            },
            ReaderAction::Reply { line } => ReaderActionView::Reply { line: line@ },
            ReaderAction::Forward { params } => ReaderActionView::Forward { params: params.model() },
            ReaderAction::Ignore => ReaderActionView::Ignore,
        }
    }
}

/// A response's payload: its error as text, else its result, else null.
pub open spec fn response_payload(result: Option<JsonModel>, error: Option<JsonModel>) -> Result<
    JsonModel,
    Seq<char>,
> {
    match error {
        Some(e) => Err(json::compact_text(e)),
        None => match result {
            Some(v) => Ok(v),
            None => Ok(JsonModel::Null),
        },
    }
}

/// What a message calls for: a response resolves its request, a permission
/// request is granted and any other turned down, an update goes to the turn.
pub open spec fn reaction(m: IncomingView) -> ReaderActionView {
    match m {
        IncomingView::Response { id, result, error } => ReaderActionView::Resolve {
            id,
            payload: response_payload(result, error),
        },
        IncomingView::Request { id, method, params } => ReaderActionView::Reply {
            line: json::compact_text(
                if method == "session/request_permission"@ {
                    permission_model(id, params)
                } else {
                    unsupported_model(id)
                },
            ).push('\n'),
        },
        IncomingView::Notification { method, params } => if method == "session/update"@ {
            ReaderActionView::Forward { params }
        } else {
            ReaderActionView::Ignore
        },
        IncomingView::Other => ReaderActionView::Ignore,
    }
}

/// What an incoming message calls for.
pub fn react(m: Incoming) -> (r: ReaderAction)
    ensures
        r@ == reaction(m@),
{
    match m {
        Incoming::Response { id, result, error } => {
            let payload: Result<Json, String> = match error {
                Some(e) => Err(json::print(&e)),
                None => match result {
                    Some(v) => Ok(v),
                    None => Ok(Json::Null),
                },
            };
            ReaderAction::Resolve { id, payload }
        },
        Incoming::Request { id, method, params } => {
            let reply = if text::same(method.as_str(), "session/request_permission") {
                permission_allow_msg(id, &params)
            } else {
                unsupported_msg(id)
            };
            ReaderAction::Reply { line: ndjson_line(&reply) }
        },
        Incoming::Notification { method, params } => {
            if text::same(method.as_str(), "session/update") {
                ReaderAction::Forward { params }
            } else {
                ReaderAction::Ignore
            }
        },
        Incoming::Other => ReaderAction::Ignore,
    }
}

/// What an incoming line calls for.
pub fn react_to_line(line: &str) -> (r: ReaderAction)
    ensures
        r@ == reaction(line_shape(line@)),
{
    react(classify(line))
}

/// The id that a request carries.
pub fn request_id(msg: &Json) -> (r: Result<i64, AppError>)
    ensures
        match r {
            Ok(id) => int_member(msg.model(), "id"@) == Some(id as int),
            Err(e) => int_member(msg.model(), "id"@) is None && e.text()
                == "copilot: request missing id"@,
        },
{
    let id = match msg.get("id") {
        Some(n) => n.as_i64(),
        None => None,
    };
    match id {
        Some(id) => Ok(id),
        None => Err(AppError::other("copilot: request missing id")),
    }
}

/// The id of the session that a `session/new` response opens.
pub fn session_id_of(resp: &Json) -> (r: Result<String, AppError>)
    ensures
        match r {
            Ok(id) => json::text_member(resp.model(), "sessionId"@) == Some(id@),
            Err(e) => json::text_member(resp.model(), "sessionId"@) is None && e.text()
                == "copilot: session/new returned no sessionId"@,
        },
{
    match resp.get_str("sessionId") {
        Some(id) => Ok(id.to_owned()),
        None => Err(AppError::other("copilot: session/new returned no sessionId")),
    }
}

/// The arguments that start a warm process.
pub fn spawn_args(formation: &str, mcp_config_path: &str, model: &str) -> (r: Vec<String>)
    ensures
        text::texts(r@) == seq![
            "--acp"@,
            "--disable-builtin-mcps"@,
            "--allow-all-tools"@,
            "--no-custom-instructions"@,
            "--add-dir"@,
            formation@,
            "--additional-mcp-config"@,
            seq!['@'] + mcp_config_path@,
            "--model"@,
            model@,
        ],
{
    let mut mcp = String::new();
    mcp.push('@');
    mcp.append(mcp_config_path);
    assert(mcp@ =~= seq!['@'] + mcp_config_path@);
    let out: Vec<String> = vec![
        "--acp".to_owned(),
        "--disable-builtin-mcps".to_owned(),
        "--allow-all-tools".to_owned(),
        "--no-custom-instructions".to_owned(),
        "--add-dir".to_owned(),
        formation.to_owned(),
        "--additional-mcp-config".to_owned(),
        mcp,
        "--model".to_owned(),
        model.to_owned(),
    ];
    assert(text::texts(out@) =~= seq![
        out@[0]@,
        out@[1]@,
        out@[2]@,
        out@[3]@,
        out@[4]@,
        out@[5]@,
        out@[6]@,
        out@[7]@,
        out@[8]@,
        out@[9]@,
    ]);
    out
}

/// The arguments that start a process for model discovery.
pub fn discovery_args(cwd: &str) -> (r: Vec<String>)
    ensures
        text::texts(r@) == seq!["--acp"@, "--add-dir"@, cwd@],
{
    let out: Vec<String> = vec!["--acp".to_owned(), "--add-dir".to_owned(), cwd.to_owned()];
    assert(text::texts(out@) =~= seq![out@[0]@, out@[1]@, out@[2]@]);
    out
}

// ---------------------------------------------------------------------------
// Models
// ---------------------------------------------------------------------------

/// A model that the user's account can use.
#[derive(Debug, PartialEq, Eq)]
pub struct CopilotModel {
    pub model_id: String,
    pub name: String,
    pub description: Option<String>,
    /// What a turn is billed at, such as `0.33x`.
    pub usage: Option<String>,
    pub enabled: bool,
}

/// What a [`CopilotModel`] says.
#[verifier::ext_equal]
pub struct CopilotModelView {
    pub model_id: Seq<char>,
    pub name: Seq<char>,
    pub description: Option<Seq<char>>,
    pub usage: Option<Seq<char>>,
    pub enabled: bool,
}

impl View for CopilotModel {
    type V = CopilotModelView;

    open spec fn view(&self) -> CopilotModelView {
        CopilotModelView {
            model_id: self.model_id@,
            name: self.name@,
            description: text::opt_text(self.description),
            usage: text::opt_text(self.usage),
            enabled: self.enabled,
        }
    }
}

/// The models of an account, and its default.
#[derive(Debug, PartialEq, Eq)]
pub struct CopilotModels {
    pub available: Vec<CopilotModel>,
    pub current_model_id: Option<String>,
}

/// The views of a list of models.
pub open spec fn model_views(v: Seq<CopilotModel>) -> Seq<CopilotModelView> {
    v.map_values(|m: CopilotModel| m@)
}

/// A text member of an optional value.
pub open spec fn opt_text_member(o: Option<JsonModel>, key: Seq<char>) -> Option<Seq<char>> {
    match o {
        Some(m) => json::text_member(m, key),
        None => None,
    }
}

/// The model that an entry of the list describes; none without an id. A model
/// without a name goes by its id, one that does not say so is enabled.
pub open spec fn described_model(m: JsonModel) -> Option<CopilotModelView> {
    match json::text_member(m, "modelId"@) {
        None => None,
        Some(id) => {
            let meta = json::member(m, "_meta"@);
            Some(
                CopilotModelView {
                    model_id: id,
                    name: match json::text_member(m, "name"@) {
                        Some(n) => n,
                        None => id,
                    },
                    description: json::text_member(m, "description"@),
                    usage: opt_text_member(meta, "copilotUsage"@),
                    enabled: match opt_text_member(meta, "copilotEnablement"@) {
                        Some(e) => e == "enabled"@,
                        None => true,
                    },
                },
            )
        },
    }
}

/// The models that a list describes, in order.
pub open spec fn described_models(list: Seq<JsonModel>) -> Seq<CopilotModelView>
    decreases list.len(),
{
    if list.len() == 0 {
        Seq::empty()
    } else {
        let before = described_models(list.drop_last());
        match described_model(list.last()) {
            Some(m) => before.push(m),
            None => before,
        }
    }
}

/// The models that a `session/new` response advertises.
pub open spec fn advertised_models(resp: JsonModel) -> Seq<CopilotModelView> {
    match json::member(resp, "models"@) {
        Some(models) => match json::member(models, "availableModels"@) {
            Some(JsonModel::Array(list)) => described_models(list),
            _ => Seq::empty(),
        },
        None => Seq::empty(),
    }
}

/// A text that may be there, as a string.
fn owned(o: Option<&str>) -> (r: Option<String>)
    ensures
        text::opt_text(r) == text::opt_str(o),
{
    match o {
        Some(s) => Some(s.to_owned()),
        None => None,
    }
}

/// The model that an entry describes.
fn describe_model(m: &Json) -> (r: Option<CopilotModel>)
    ensures
        match r {
            Some(c) => described_model(m.model()) == Some(c@),
            None => described_model(m.model()) is None,
        },
{
    match m.get_str("modelId") {
        None => None,
        Some(id) => {
            let name = match m.get_str("name") {
                Some(n) => n.to_owned(),
                None => id.to_owned(),
            };
            let description = owned(m.get_str("description"));
            let (usage, enabled) = match m.get("_meta") {
                Some(meta) => {
                    let usage = owned(meta.get_str("copilotUsage"));
                    let enabled = match meta.get_str("copilotEnablement") {
                        Some(e) => text::same(e, "enabled"),
                        None => true,
                    };
                    (usage, enabled)
                },
                None => (None, true),
            };
            Some(CopilotModel { model_id: id.to_owned(), name, description, usage, enabled })
        },
    }
}

/// The models that a `session/new` response advertises. A missing or oddly
/// shaped list is an empty one.
pub fn parse_models(resp: &Json) -> (r: CopilotModels)
    ensures
        model_views(r.available@) == advertised_models(resp.model()),
        text::opt_text(r.current_model_id) == opt_text_member(
            json::member(resp.model(), "models"@),
            "currentModelId"@,
        ),
{
    let mut available: Vec<CopilotModel> = Vec::new();
    assert(model_views(available@) =~= Seq::<CopilotModelView>::empty());
    match resp.get("models") {
        None => CopilotModels { available, current_model_id: None },
        Some(models) => {
            let current_model_id = owned(models.get_str("currentModelId"));
            match models.get("availableModels") {
                None => {},
                Some(v) => match v.as_array() {
                    None => {},
                    Some(list) => {
                        let ghost all = json::models(list@);
                        proof {
                            json::lemma_models_index(list@);
                            assert(all.take(0) =~= Seq::<JsonModel>::empty());
                        }
                        let mut i: usize = 0;
                        while i < list.len()
                            invariant
                                i <= list.len(),
                                all == json::models(list@),
                                all.len() == list@.len(),
                                forall|k: int|
                                    0 <= k < list@.len() ==> #[trigger] all[k] == list@[k].model(),
                                model_views(available@) == described_models(all.take(i as int)),
                            decreases list.len() - i,
                        {
                            assert(all.take(i + 1).drop_last() =~= all.take(i as int));
                            assert(all.take(i + 1).last() == list@[i as int].model());
                            match describe_model(&list[i]) {
                                Some(m) => {
                                    let ghost before = available@;
                                    available.push(m);
                                    assert(model_views(available@) =~= model_views(before).push(m@));
                                },
                                None => {},
                            }
                            i += 1;
                        }
                        assert(all.take(i as int) =~= all);
                    },
                },
            }
            CopilotModels { available, current_model_id }
        },
    }
}

/// What a line read during a model discovery settles: nothing yet, or the
/// result of the `session/new` request.
pub fn discovery_step(line: &str) -> (r: Option<Result<CopilotModels, AppError>>)
    ensures
        match line_shape(line@) {
            IncomingView::Response { id, result, error } => if id != SESSION_NEW_ID {
                r is None
            } else {
                match (r, error) {
                    (Some(Err(e)), Some(m)) => e.text() == "copilot session/new: "@
                        + json::compact_text(m),
                    (Some(Ok(models)), None) => {
                        let resp = match result {
                            Some(v) => v,
                            None => JsonModel::Null,
                        };
                        &&& model_views(models.available@) == advertised_models(resp)
                        &&& text::opt_text(models.current_model_id) == opt_text_member(
                            json::member(resp, "models"@),
                            "currentModelId"@,
                        )
                    },
                    _ => false,
                }
            },
            _ => r is None,
        },
{
    match classify(line) {
        Incoming::Response { id, result, error } => {
            if id != SESSION_NEW_ID {
                return None;
            }
            match error {
                Some(e) => {
                    let mut s = String::from_str("copilot session/new: ");
                    s.append(json::print(&e).as_str());
                    Some(Err(AppError::Other(s)))
                },
                None => match result {
                    Some(v) => Some(Ok(parse_models(&v))),
                    None => {
                        let null = Json::Null;
                        Some(Ok(parse_models(&null)))
                    },
                },
            }
        },
        _ => None,
    }
}

// ---------------------------------------------------------------------------
// One turn
// ---------------------------------------------------------------------------

/// The result of a turn on a warm session.
#[derive(Debug, PartialEq, Eq)]
pub struct SessionTurn {
    pub reply: String,
    pub stop: TurnStop,
    /// The session cannot be trusted with another turn.
    pub recycle: bool,
}

/// The text that an event adds to the reply.
pub open spec fn delta_of(e: Option<conversation::TurnEventView>) -> Seq<char> {
    match e {
        Some(conversation::TurnEventView::TextDelta { text }) => text,
        _ => Seq::empty(),
    }
}

/// The reply that a series of updates makes.
pub open spec fn streamed_reply(updates: Seq<JsonModel>) -> Seq<char>
    decreases updates.len(),
{
    if updates.len() == 0 {
        Seq::empty()
    } else {
        streamed_reply(updates.drop_last()) + delta_of(update_event(updates.last()))
    }
}

/// A turn in flight: the reply so far.
#[derive(Debug, PartialEq, Eq)]
pub struct CopilotTurn {
    pub reply: String,
}

impl CopilotTurn {
    /// A turn that has just begun.
    pub fn begin() -> (r: CopilotTurn)
        ensures
            r.reply@ == streamed_reply(Seq::empty()),
    {
        CopilotTurn { reply: String::new() }
    }

    /// Takes an update in; the event to pass on, if it stands for one. After
    /// the updates of a turn the reply is [`streamed_reply`] of them.
    pub fn on_update(&mut self, params: &Json) -> (r: Option<TurnEvent>)
        ensures
            conversation::opt_event(r) == update_event(params.model()),
            final(self).reply@ == old(self).reply@ + delta_of(update_event(params.model())),
            forall|before: Seq<JsonModel>|
                old(self).reply@ == #[trigger] streamed_reply(before) ==> final(self).reply@
                    == streamed_reply(before.push(params.model())),
    {
        let ghost start = self.reply@;
        let ev = session_update_event(params);
        match &ev {
            Some(TurnEvent::TextDelta { text }) => {
                self.reply.append(text.as_str());
            },
            _ => {
                assert(start + Seq::<char>::empty() =~= start);
            },
        }
        proof {
            assert forall|before: Seq<JsonModel>|
                start == #[trigger] streamed_reply(before) implies self.reply@ == streamed_reply(
                before.push(params.model()),
            ) by {
                assert(before.push(params.model()).drop_last() =~= before);
            }
        }
        ev
    }

    /// The turn ends with the prompt's response: a failure if the response is
    /// an error or a refusal, else the reply.
    pub fn responded(self, payload: Result<Json, String>) -> (r: Result<SessionTurn, AppError>)
        ensures
            match payload_view(payload) {
                Err(m) => r is Err && r->Err_0.text() == "copilot error: "@ + m,
                Ok(v) => if json::text_member(v, "stopReason"@) == Some("refusal"@) {
                    r is Err && r->Err_0.text() == "copilot refused the request"@
                } else {
                    r is Ok && r->Ok_0.reply@ == self.reply@ && r->Ok_0.stop is Completed
                        && !r->Ok_0.recycle
                },
            },
    {
        match payload {
            Err(m) => Err(crate::error::message2("copilot error: ", m.as_str())),
            Ok(v) => {
                let refused = match v.get_str("stopReason") {
                    Some(s) => text::same(s, "refusal"),
                    None => false,
                };
                if refused {
                    Err(AppError::other("copilot refused the request"))
                } else {
                    Ok(SessionTurn { reply: self.reply, stop: TurnStop::Completed, recycle: false })
                }
            },
        }
    }

    /// The turn was interrupted. Unless the program acknowledged that in time,
    /// the session has to go.
    pub fn interrupted(self, acknowledged: bool) -> (r: SessionTurn)
        ensures
            r.reply@ == self.reply@,
            r.stop is Interrupted,
            r.recycle == !acknowledged,
    {
        SessionTurn { reply: self.reply, stop: TurnStop::Interrupted, recycle: !acknowledged }
    }
}

// ---------------------------------------------------------------------------
// The warm session
// ---------------------------------------------------------------------------

/// The process that is kept between turns: what it was started for, how many
/// turns it has served, and whether the persona has been sent.
#[derive(Debug, PartialEq, Eq)]
pub struct Resident {
    pub formation: String,
    pub model: String,
    pub tone: String,
    pub conversation_id: String,
    pub turns: u64,
    pub persona_sent: bool,
}

/// The resident process can serve this turn.
pub open spec fn serves(re: Resident, turn: TurnRequest, model: Seq<char>) -> bool {
    &&& re.formation@ == turn.formation_root@
    &&& re.model@ == model
    &&& re.tone@ == turn.tone@
    &&& re.conversation_id@ == turn.conversation_id@
    &&& re.turns < MAX_TURNS_PER_PROCESS
}

/// The engine's state between turns.
pub struct CopilotEngineHandle {
    pub resident: Option<Resident>,
}

impl Default for CopilotEngineHandle {
    fn default() -> (r: CopilotEngineHandle)
        ensures
            r.resident is None,
            r.wf(),
    {
        CopilotEngineHandle { resident: None }
    }
}

impl CopilotEngineHandle {
    /// No process serves more than its share of turns.
    pub open spec fn wf(&self) -> bool {
        self.resident is Some ==> self.resident->0.turns <= MAX_TURNS_PER_PROCESS
    }

    /// Whether a turn needs a new process: where there is none, where the
    /// formation, the model, the tone or the conversation differ from what the
    /// resident one was started for, and where that one has served its share.
    pub fn needs_new(&self, turn: &TurnRequest, model: &str) -> (r: bool)
        ensures
            r == !(self.resident is Some && serves(self.resident->0, *turn, model@)),
    {
        match &self.resident {
            None => true,
            Some(re) => !text::same(re.formation.as_str(), turn.formation_root.as_str())
                || !text::same(re.model.as_str(), model) || !text::same(
                re.tone.as_str(),
                turn.tone.as_str(),
            ) || !text::same(re.conversation_id.as_str(), turn.conversation_id.as_str()) || re.turns
                >= MAX_TURNS_PER_PROCESS,
        }
    }

    /// The old process, if any, is gone.
    pub fn stopped(&mut self)
        ensures
            final(self).resident is None,
            final(self).wf(),
    {
        self.resident = None;
    }

    /// A process was started for the turn.
    pub fn started(&mut self, turn: &TurnRequest, model: &str)
        ensures
            final(self).wf(),
            final(self).resident matches Some(re) && serves(re, *turn, model@) && re.turns == 0
                && !re.persona_sent,
    {
        self.resident = Some(
            Resident {
                formation: turn.formation_root.clone(),
                model: model.to_owned(),
                tone: turn.tone.clone(),
                conversation_id: turn.conversation_id.clone(),
                turns: 0,
                persona_sent: false,
            },
        );
    }

    /// The prompt for the turn on the resident process: with the persona if
    /// that has not been sent yet.
    pub fn prompt(&mut self, turn: &TurnRequest, base_prompt: &str) -> (r: String)
        requires
            old(self).resident is Some,
            old(self).wf(),
        ensures
            final(self).wf(),
            final(self).resident is Some,
            r@ == copilot_prompt(*turn, !old(self).resident->0.persona_sent, base_prompt@),
            final(self).resident->0 == (Resident { persona_sent: true, ..old(self).resident->0 }),
    {
        let mut first: bool = false;
        match self.resident.take() {
            Some(re) => {
                first = !re.persona_sent;
                self.resident = Some(Resident { persona_sent: true, ..re });
            },
            None => {},
        }
        render_copilot_prompt(turn, first, base_prompt)
    }

    /// The turn is over. A failure, and a stop that was not acknowledged, cost
    /// the process; the second result tells whether it is to be shut down.
    pub fn finished(&mut self, result: Result<SessionTurn, AppError>) -> (r: (
        Result<TurnOutcome, AppError>,
        bool,
    ))
        requires
            old(self).resident is Some,
            old(self).wf(),
            old(self).resident->0.turns < MAX_TURNS_PER_PROCESS,
        ensures
            final(self).wf(),
            match result {
                Ok(t) => {
                    &&& r.0 matches Ok(o) && o.reply@ == t.reply@ && o.stop == t.stop
                    &&& r.1 == t.recycle
                },
                Err(e) => {
                    &&& r.0 matches Err(f) && f.text() == e.text()
                    &&& r.1
                },
            },
            r.1 ==> final(self).resident is None,
            !r.1 ==> final(self).resident == Some(
                Resident {
                    turns: (old(self).resident->0.turns + 1) as u64,
                    ..old(self).resident->0
                },
            ),
    {
        match result {
            Ok(t) => {
                let recycle = t.recycle;
                if recycle {
                    self.resident = None;
                } else {
                    match self.resident.take() {
                        Some(re) => {
                            let turns: u64 = re.turns + 1;
                            self.resident = Some(Resident { turns, ..re });
                        },
                        None => {},
                    }
                }
                (Ok(TurnOutcome { reply: t.reply, stop: t.stop }), recycle)
            },
            Err(e) => {
                self.resident = None;
                (Err(e), true)
            },
        }
    }
}

/// The prompt for one turn: the persona and the formation on a session's first
/// turn, what is already known, then the message.
pub open spec fn copilot_prompt(turn: TurnRequest, first: bool, base: Seq<char>) -> Seq<char> {
    let opening = if first {
        agent_tone::rendered(base, agent_tone::tone_named(Some(turn.tone@)))
            + "\n\n# Your formation\n\n"@
            + "Read and write notes only inside this folder, using absolute paths under it:\n"@
            + text::trimmed(turn.formation_root@) + "\n\n"@
    } else {
        Seq::empty()
    };
    let known = match turn.injected_context {
        Some(c) => if text::trimmed(c@).len() == 0 {
            Seq::empty()
        } else {
            "# What you already know\n\n"@ + text::trimmed(c@) + "\n\n"@
        },
        None => Seq::empty(),
    };
    opening + known + "# New message\n\n"@ + text::trimmed(turn.message@)
}

/// Builds the prompt for one turn. The warm process keeps the history, so only
/// the first turn carries the persona.
pub fn render_copilot_prompt(turn: &TurnRequest, first: bool, base_prompt: &str) -> (r: String)
    ensures
        r@ == copilot_prompt(*turn, first, base_prompt@),
{
    let mut out: String = String::new();
    if first {
        let persona = agent_tone::render_system_prompt(
            base_prompt,
            AgentTone::from_config(Some(turn.tone.as_str())),
        );
        out.append(persona.as_str());
        out.append("\n\n# Your formation\n\n");
        out.append(
            "Read and write notes only inside this folder, using absolute paths under it:\n",
        );
        out.append(text::trim(turn.formation_root.as_str()));
        out.append("\n\n");
    }
    let ghost opening = out@;
    match &turn.injected_context {
        Some(c) => {
            let ctx = text::trim(c.as_str());
            if !ctx.is_empty() {
                out.append("# What you already know\n\n");
                out.append(ctx);
                out.append("\n\n");
            }
        },
        None => {},
    }
    out.append("# New message\n\n");
    out.append(text::trim(turn.message.as_str()));
    out
}

/// The configuration by which the program finds this program's own MCP server.
pub open spec fn mcp_config_model(
    self_exe: Seq<char>,
    formation: Seq<char>,
    source_chat_id: Seq<char>,
    embedding_provider: Seq<char>,
    ollama_url: Seq<char>,
) -> JsonModel {
    let env = JsonModel::Object(
        Map::empty().insert("SEDIMENT_FORMATION"@, JsonModel::Str(formation)).insert(
            "SEDIMENT_SOURCE_CHAT_ID"@,
            JsonModel::Str(source_chat_id),
        ).insert("SEDIMENT_EMBEDDING_PROVIDER"@, JsonModel::Str(embedding_provider)).insert(
            "SEDIMENT_OLLAMA_URL"@,
            JsonModel::Str(ollama_url),
        ),
    );
    let server = JsonModel::Object(
        Map::empty().insert("type"@, JsonModel::Str("local"@)).insert(
            "command"@,
            JsonModel::Str(self_exe),
        ).insert("args"@, JsonModel::Array(seq![JsonModel::Str("--mcp-stdio"@)])).insert(
            "env"@,
            env,
        ).insert("tools"@, JsonModel::Array(seq![JsonModel::Str("*"@)])),
    );
    JsonModel::Object(
        Map::empty().insert(
            "mcpServers"@,
            JsonModel::Object(Map::empty().insert("sediment"@, server)),
        ),
    )
}

/// The MCP configuration: this same program, started again as a server, with
/// the formation and the provenance in its environment.
pub fn mcp_config(
    self_exe: &str,
    formation: &str,
    source_chat_id: &str,
    embedding_provider: &str,
    ollama_url: &str,
) -> (r: Json)
    ensures
        r.model() == mcp_config_model(
            self_exe@,
            formation@,
            source_chat_id@,
            embedding_provider@,
            ollama_url@,
        ),
{
    let none: Vec<(String, Json)> = Vec::new();
    assert(json::members(none@) =~= Map::empty());
    let env = json::with(none, "SEDIMENT_FORMATION", json::string(formation));
    let env = json::with(env, "SEDIMENT_SOURCE_CHAT_ID", json::string(source_chat_id));
    let env = json::with(env, "SEDIMENT_EMBEDDING_PROVIDER", json::string(embedding_provider));
    let env = json::with(env, "SEDIMENT_OLLAMA_URL", json::string(ollama_url));
    let empty: Vec<(String, Json)> = Vec::new();
    assert(json::members(empty@) =~= Map::empty());
    let server = json::with(empty, "type", json::string("local"));
    let server = json::with(server, "command", json::string(self_exe));
    let server = json::with(server, "args", json::array1(json::string("--mcp-stdio")));
    let server = json::with(server, "env", Json::Object(env));
    let server = json::with(server, "tools", json::array1(json::string("*")));
    json::object1("mcpServers", json::object1("sediment", Json::Object(server)))
}

/// Where the MCP configuration is written, inside the formation.
pub fn mcp_config_path(formation: &str) -> (r: String)
    ensures
        r@ == paths::joined_path(
            paths::joined_path(paths::joined_path(formation@, ".chat-notes"@), "copilot"@),
            "mcp-config.json"@,
        ),
{
    let dir = paths::join(paths::join(formation, ".chat-notes").as_str(), "copilot");
    paths::join(dir.as_str(), "mcp-config.json")
}

// ---------------------------------------------------------------------------
// Laws
// ---------------------------------------------------------------------------

/// A request that is built reads as that request, whatever its id.
pub proof fn law_requests_read_as_requests(id: i64, method: Seq<char>, params: JsonModel)
    ensures
        shape_of(request_model(id as int, method, params)) == (IncomingView::Request {
            id: id as int,
            method,
            params,
        }),
{
    lemma_envelope_keys();
}

proof fn lemma_envelope_keys()
    ensures
        "jsonrpc"@ != "id"@,
        "jsonrpc"@ != "method"@,
        "jsonrpc"@ != "params"@,
        "jsonrpc"@ != "result"@,
        "jsonrpc"@ != "error"@,
        "id"@ != "method"@,
        "id"@ != "params"@,
        "id"@ != "result"@,
        "id"@ != "error"@,
        "method"@ != "params"@,
        "method"@ != "result"@,
        "method"@ != "error"@,
        "result"@ != "error"@,
{
    reveal_strlit("jsonrpc");
    reveal_strlit("id");
    reveal_strlit("method");
    reveal_strlit("params");
    reveal_strlit("result");
    reveal_strlit("error");
    assert("method"@[0] == 'm');
    assert("params"@[0] == 'p');
    assert("result"@[0] == 'r');
    assert("jsonrpc"@.len() == 7);
    assert("id"@.len() == 2);
    assert("error"@.len() == 5);
}

/// A request with shallow parameters is shallow.
proof fn lemma_request_shallow(id: int, method: Seq<char>, params: JsonModel)
    requires
        json::shallow(params, 99),
    ensures
        json::shallow(request_model(id, method, params), 100),
{
    let e = Map::<Seq<char>, JsonModel>::empty();
    json::lemma_shallow_empty(100);
    json::lemma_shallow_insert(e, "jsonrpc"@, JsonModel::Str("2.0"@), 100);
    let a = e.insert("jsonrpc"@, JsonModel::Str("2.0"@));
    json::lemma_shallow_insert(a, "id"@, JsonModel::Int(id), 100);
    let b = a.insert("id"@, JsonModel::Int(id));
    json::lemma_shallow_insert(b, "method"@, JsonModel::Str(method), 100);
    let c = b.insert("method"@, JsonModel::Str(method));
    json::lemma_shallow_insert(c, "params"@, params, 100);
}

/// An object of two shallow members is shallow.
proof fn lemma_pair_shallow(k1: Seq<char>, v1: JsonModel, k2: Seq<char>, v2: JsonModel, depth: nat)
    requires
        depth > 0,
        json::shallow(v1, (depth - 1) as nat),
        json::shallow(v2, (depth - 1) as nat),
    ensures
        json::shallow(JsonModel::Object(Map::empty().insert(k1, v1).insert(k2, v2)), depth),
{
    let e = Map::<Seq<char>, JsonModel>::empty();
    json::lemma_shallow_empty(depth);
    json::lemma_shallow_insert(e, k1, v1, depth);
    json::lemma_shallow_insert(e.insert(k1, v1), k2, v2, depth);
}

proof fn lemma_initialize_shallow()
    ensures
        json::shallow(initialize_params(), 99),
{
    let no = JsonModel::Bool(false);
    lemma_pair_shallow("readTextFile"@, no, "writeTextFile"@, no, 97);
    let fs = JsonModel::Object(
        Map::empty().insert("readTextFile"@, no).insert("writeTextFile"@, no),
    );
    lemma_pair_shallow("fs"@, fs, "terminal"@, no, 98);
    let capabilities = JsonModel::Object(Map::empty().insert("fs"@, fs).insert("terminal"@, no));
    let name = JsonModel::Str("sediment"@);
    let version = JsonModel::Str(CLIENT_VERSION@);
    lemma_pair_shallow("name"@, name, "version"@, version, 98);
    let info = JsonModel::Object(Map::empty().insert("name"@, name).insert("version"@, version));
    lemma_pair_shallow("protocolVersion"@, JsonModel::Int(1), "clientCapabilities"@, capabilities, 99);
    let two = Map::<Seq<char>, JsonModel>::empty().insert(
        "protocolVersion"@,
        JsonModel::Int(1),
    ).insert("clientCapabilities"@, capabilities);
    json::lemma_shallow_insert(two, "clientInfo"@, info, 99);
}

/// Both replies to the program's requests are shallow, so they read back from
/// the lines they are sent as.
pub proof fn law_replies_are_readable(id: int, params: JsonModel)
    ensures
        json::shallow(permission_model(id, params), 100),
        json::shallow(unsupported_model(id), 100),
{
    let version = JsonModel::Str("2.0"@);
    lemma_pair_shallow("jsonrpc"@, version, "id"@, JsonModel::Int(id), 100);
    let head = Map::<Seq<char>, JsonModel>::empty().insert("jsonrpc"@, version).insert(
        "id"@,
        JsonModel::Int(id),
    );
    let selected = JsonModel::Str("selected"@);
    let option = JsonModel::Str(chosen_option(params));
    lemma_pair_shallow("outcome"@, selected, "optionId"@, option, 98);
    let outcome = JsonModel::Object(
        Map::empty().insert("outcome"@, selected).insert("optionId"@, option),
    );
    json::lemma_shallow_empty(99);
    json::lemma_shallow_insert(Map::empty(), "outcome"@, outcome, 99);
    let result = JsonModel::Object(Map::empty().insert("outcome"@, outcome));
    json::lemma_shallow_insert(head, "result"@, result, 100);
    let code = JsonModel::Int(-32601);
    let message = JsonModel::Str("method not supported"@);
    lemma_pair_shallow("code"@, code, "message"@, message, 99);
    let error = JsonModel::Object(Map::empty().insert("code"@, code).insert("message"@, message));
    json::lemma_shallow_insert(head, "error"@, error, 100);
}

/// Every request of the program is answered, once, with a response that
/// carries the program's own id.
pub proof fn law_replies_carry_their_id(id: i64, method: Seq<char>, params: JsonModel)
    ensures
        ({
            let id = id as int;
            let reply = if method == "session/request_permission"@ {
                permission_model(id, params)
            } else {
                unsupported_model(id)
            };
            &&& reaction(IncomingView::Request { id, method, params }) == (ReaderActionView::Reply {
                line: json::compact_text(reply).push('\n'),
            })
            &&& shape_of(reply) is Response
            &&& shape_of(reply)->Response_id == id
        }),
{
    lemma_envelope_keys();
}

/// Two messages with the same id are told apart by their shape: one with a
/// method is a request, one without is a response.
pub proof fn law_shape_not_id_decides(v: JsonModel, id: int)
    requires
        int_member(v, "id"@) == Some(id),
    ensures
        json::text_member(v, "method"@) is Some ==> shape_of(v) is Request,
        json::text_member(v, "method"@) is None ==> shape_of(v) is Response,
{
}

/// The persona goes out once per process: right after a process is started,
/// and no more until another one is.
pub proof fn law_persona_only_first(turn: TurnRequest, base: Seq<char>)
    ensures
        copilot_prompt(turn, true, base) == agent_tone::rendered(
            base,
            agent_tone::tone_named(Some(turn.tone@)),
        ) + "\n\n# Your formation\n\n"@
            + "Read and write notes only inside this folder, using absolute paths under it:\n"@
            + text::trimmed(turn.formation_root@) + "\n\n"@ + copilot_prompt(turn, false, base),
{
    let opening = agent_tone::rendered(base, agent_tone::tone_named(Some(turn.tone@)))
        + "\n\n# Your formation\n\n"@
        + "Read and write notes only inside this folder, using absolute paths under it:\n"@
        + text::trimmed(turn.formation_root@) + "\n\n"@;
    let known = match turn.injected_context {
        Some(c) => if text::trimmed(c@).len() == 0 {
            Seq::empty()
        } else {
            "# What you already know\n\n"@ + text::trimmed(c@) + "\n\n"@
        },
        None => Seq::empty(),
    };
    let rest = known + "# New message\n\n"@ + text::trimmed(turn.message@);
    assert(copilot_prompt(turn, false, base) =~= rest);
    assert(copilot_prompt(turn, true, base) =~= opening + rest);
}

/// A permission request is granted: with the option to allow always where it is offered,
/// else with the first option of a kind that allows. An option of another kind is chosen
/// only where it carries the id to allow always.
pub proof fn law_permission_is_granted(params: JsonModel, options: Seq<JsonModel>)
    requires
        json::member(params, "options"@) == Some(JsonModel::Array(options)),
    ensures
        (exists|i: int|
            0 <= i < options.len() && json::text_member(#[trigger] options[i], "optionId"@) == Some(
                "allow_always"@,
            )) ==> chosen_option(params) == "allow_always"@,
        forall|i: int|
            0 <= i < options.len() && (forall|j: int|
                0 <= j < options.len() ==> json::text_member(#[trigger] options[j], "optionId"@)
                    != Some("allow_always"@)) && allows(#[trigger] options[i]) && (forall|j: int|
                0 <= j < i ==> !allows(#[trigger] options[j])) ==> match json::text_member(
                options[i],
                "optionId"@,
            ) {
                Some(id) => chosen_option(params) == id,
                None => chosen_option(params) == "allow_once"@,
            },
{
    lemma_first_always(options, 0);
    lemma_first_allowing(options, 0);
}

proof fn lemma_first_always(options: Seq<JsonModel>, i: int)
    requires
        0 <= i,
    ensures
        match first_always(options, i) {
            Some(k) => i <= k < options.len() && allows_always(options[k]),
            None => forall|j: int| i <= j < options.len() ==> !allows_always(#[trigger] options[j]),
        },
    decreases options.len() - i,
{
    if i < options.len() && !allows_always(options[i]) {
        lemma_first_always(options, i + 1);
    }
}

proof fn lemma_first_allowing(options: Seq<JsonModel>, i: int)
    requires
        0 <= i,
    ensures
        match first_allowing(options, i) {
            Some(k) => i <= k < options.len() && allows(options[k]) && forall|j: int|
                i <= j < k ==> !allows(#[trigger] options[j]),
            None => forall|j: int| i <= j < options.len() ==> !allows(#[trigger] options[j]),
        },
    decreases options.len() - i,
{
    if i < options.len() && !allows(options[i]) {
        lemma_first_allowing(options, i + 1);
    }
}

/// A kind allows just where it allows always or once.
pub proof fn law_only_allowing_kinds_allow(option: JsonModel)
    ensures
        allows(option) <==> json::text_member(option, "kind"@) == Some("allow_always"@)
            || json::text_member(option, "kind"@) == Some("allow_once"@),
{
}

/// Text of the message is text of the reply, word for word; a call of a tool is told by
/// its title; what is neither is not told.
pub proof fn law_updates_stand_for_what_they_say(params: JsonModel, update: JsonModel)
    requires
        json::member(params, "update"@) == Some(update),
    ensures
        ({
            let kind = json::text_member(update, "sessionUpdate"@);
            let e = update_event(params);
            &&& kind == Some("agent_message_chunk"@) ==> (json::member(update, "content"@)
                matches Some(c) ==> (json::text_member(c, "text"@) matches Some(t) ==> (t.len() > 0
                ==> e == Some(conversation::TurnEventView::TextDelta { text: t }))))
            &&& e matches Some(conversation::TurnEventView::TextDelta { text }) ==> kind == Some(
                "agent_message_chunk"@,
            ) && text.len() > 0
            &&& kind == Some("tool_call"@) ==> (json::text_member(update, "title"@) matches Some(t)
                ==> e == Some(
                conversation::TurnEventView::ToolActivity { tool: "copilot"@, summary: t },
            ))
            &&& kind != Some("agent_message_chunk"@) && kind != Some("tool_call"@) ==> e is None
        }),
{
    reveal_strlit("agent_message_chunk");
    reveal_strlit("tool_call");
    assert("agent_message_chunk"@.len() == 19);
    assert("tool_call"@.len() == 9);
}

/// The reply is made of the pieces in the order in which they came.
pub proof fn law_replies_grow_at_their_end(updates: Seq<JsonModel>, more: Seq<JsonModel>)
    ensures
        streamed_reply(updates + more) == streamed_reply(updates) + streamed_reply(more),
        more.len() == 1 ==> streamed_reply(more) == (match update_event(more[0]) {
            Some(conversation::TurnEventView::TextDelta { text }) => text,
            _ => Seq::empty(),
        }),
    decreases more.len(),
{
    if more.len() == 0 {
        assert(updates + more =~= updates);
        assert(streamed_reply(updates) + streamed_reply(more) =~= streamed_reply(updates));
    } else {
        law_replies_grow_at_their_end(updates, more.drop_last());
        assert((updates + more).drop_last() =~= updates + more.drop_last());
        assert((updates + more).last() == more.last());
        let d = delta_of(update_event(more.last()));
        assert(streamed_reply(updates) + streamed_reply(more.drop_last()) + d =~= streamed_reply(
            updates,
        ) + streamed_reply(more));
        if more.len() == 1 {
            assert(more.drop_last().len() == 0);
            assert(streamed_reply(more) =~= d);
        }
    }
}

/// A response goes to the request with its id: an error as one, whatever else it holds,
/// and else its result. An update goes to the turn, any other notification nowhere.
pub proof fn law_messages_go_where_they_belong(
    id: int,
    result: Option<JsonModel>,
    error: Option<JsonModel>,
    method: Seq<char>,
    params: JsonModel,
)
    ensures
        reaction(IncomingView::Response { id, result, error }) matches ReaderActionView::Resolve {
            id: to,
            payload,
        } && to == id && (error is Some ==> payload is Err) && (error is None && result is Some
            ==> payload == Ok::<JsonModel, Seq<char>>(result->0)) && (error is None && result is None
            ==> payload == Ok::<JsonModel, Seq<char>>(JsonModel::Null)),
        method == "session/update"@ ==> reaction(IncomingView::Notification { method, params }) == (
        ReaderActionView::Forward { params }),
        method != "session/update"@ ==> reaction(IncomingView::Notification { method, params })
            is Ignore,
        reaction(IncomingView::Other) is Ignore,
{
}

/// A process serves only the formation, the model, the tone and the conversation that it
/// was started for, and no more than its share of turns.
pub proof fn law_a_process_serves_one_conversation(
    re: Resident,
    one: TurnRequest,
    other: TurnRequest,
    model: Seq<char>,
    other_model: Seq<char>,
)
    requires
        serves(re, one, model),
    ensures
        other.formation_root@ != one.formation_root@ ==> !serves(re, other, other_model),
        other.tone@ != one.tone@ ==> !serves(re, other, other_model),
        other.conversation_id@ != one.conversation_id@ ==> !serves(re, other, other_model),
        other_model != model ==> !serves(re, other, other_model),
        other.formation_root@ == one.formation_root@ && other.tone@ == one.tone@
            && other.conversation_id@ == one.conversation_id@ ==> serves(re, other, model),
        re.turns < 40,
{
}

/// The prompt ends in the new message, behind what is already known; blank knowledge is
/// none, and nothing else depends on it.
pub proof fn law_prompt_holds_the_message_last(
    turn: TurnRequest,
    bare: TurnRequest,
    first: bool,
    base: Seq<char>,
    c: String,
)
    requires
        turn.injected_context == Some(c),
        bare.injected_context is None,
        turn.message@ == bare.message@,
        turn.tone@ == bare.tone@,
        turn.formation_root@ == bare.formation_root@,
    ensures
        ({
            let tail = "# New message\n\n"@ + text::trimmed(turn.message@);
            let without = copilot_prompt(bare, first, base);
            let head = without.take(without.len() - tail.len());
            &&& without == head + tail
            &&& !first ==> head.len() == 0
            &&& text::trimmed(c@).len() == 0 ==> copilot_prompt(turn, first, base) == without
            &&& text::trimmed(c@).len() > 0 ==> copilot_prompt(turn, first, base) == head
                + "# What you already know\n\n"@ + text::trimmed(c@) + "\n\n"@ + tail
        }),
{
    let tail = "# New message\n\n"@ + text::trimmed(turn.message@);
    let without = copilot_prompt(bare, first, base);
    let opening = if first {
        agent_tone::rendered(base, agent_tone::tone_named(Some(turn.tone@)))
            + "\n\n# Your formation\n\n"@
            + "Read and write notes only inside this folder, using absolute paths under it:\n"@
            + text::trimmed(turn.formation_root@) + "\n\n"@
    } else {
        Seq::empty()
    };
    assert(without =~= opening + tail);
    assert(without.take(without.len() - tail.len()) =~= opening);
    if text::trimmed(c@).len() > 0 {
        assert(copilot_prompt(turn, first, base) =~= opening + "# What you already know\n\n"@
            + text::trimmed(c@) + "\n\n"@ + tail);
    } else {
        assert(copilot_prompt(turn, first, base) =~= opening + tail);
    }
}

/// A model is listed just where it has an id, in its order and under its own name, or
/// under its id where it has none; it is enabled unless it says otherwise.
pub proof fn law_models_are_listed_in_order(list: Seq<JsonModel>, m: JsonModel)
    ensures
        ({
            let before = described_models(list);
            let after = described_models(list.push(m));
            match json::text_member(m, "modelId"@) {
                None => after == before,
                Some(id) => {
                    &&& after.len() == before.len() + 1
                    &&& after.drop_last() == before
                    &&& after.last().model_id == id
                    &&& json::text_member(m, "name"@) matches Some(n) ==> after.last().name == n
                    &&& json::text_member(m, "name"@) is None ==> after.last().name == id
                    &&& after.last().description == json::text_member(m, "description"@)
                    &&& json::member(m, "_meta"@) is None ==> after.last().enabled
                        && after.last().usage is None
                    &&& json::member(m, "_meta"@) matches Some(meta) ==> {
                        &&& after.last().usage == json::text_member(meta, "copilotUsage"@)
                        &&& after.last().enabled <==> json::text_member(
                            meta,
                            "copilotEnablement"@,
                        ) is None || json::text_member(meta, "copilotEnablement"@) == Some(
                            "enabled"@,
                        )
                    }
                },
            }
        }),
{
    assert(list.push(m).drop_last() =~= list);
    let after = described_models(list.push(m));
    if after.len() > described_models(list).len() {
        assert(after.drop_last() =~= described_models(list));
    }
}

/// The program that is taken is the first of the candidates that is there.
pub proof fn law_first_candidate_there_is_taken(candidates: Seq<Seq<char>>, there: Seq<bool>)
    requires
        candidates.len() == there.len(),
    ensures
        match first_there(candidates, there, 0) {
            Some(p) => exists|i: int|
                0 <= i < candidates.len() && there[i] && #[trigger] candidates[i] == p && forall|
                    j: int,
                |
                    0 <= j < i ==> !#[trigger] there[j],
            None => forall|j: int| 0 <= j < there.len() ==> !#[trigger] there[j],
        },
{
    lemma_first_there(candidates, there, 0);
}

proof fn lemma_first_there(candidates: Seq<Seq<char>>, there: Seq<bool>, i: int)
    requires
        candidates.len() == there.len(),
        0 <= i,
    ensures
        match first_there(candidates, there, i) {
            Some(p) => exists|k: int|
                i <= k < candidates.len() && there[k] && #[trigger] candidates[k] == p && forall|
                    j: int,
                |
                    i <= j < k ==> !#[trigger] there[j],
            None => forall|j: int| i <= j < there.len() ==> !#[trigger] there[j],
        },
    decreases candidates.len() - i,
{
    if i < candidates.len() {
        if there[i] {
            assert(candidates[i] == first_there(candidates, there, i)->0);
        } else {
            lemma_first_there(candidates, there, i + 1);
        }
    }
}

/// The server that the program is told of is this one, and works on the formation of the
/// turn, for the message of the turn.
pub proof fn law_server_works_for_the_turn(
    self_exe: Seq<char>,
    formation: Seq<char>,
    source_chat_id: Seq<char>,
    provider: Seq<char>,
    url: Seq<char>,
)
    ensures
        ({
            let m = mcp_config_model(self_exe, formation, source_chat_id, provider, url);
            let server = json::member(json::member(m, "mcpServers"@)->0, "sediment"@)->0;
            let env = json::member(server, "env"@)->0;
            &&& json::text_member(server, "command"@) == Some(self_exe)
            &&& json::text_member(env, "SEDIMENT_FORMATION"@) == Some(formation)
            &&& json::text_member(env, "SEDIMENT_SOURCE_CHAT_ID"@) == Some(source_chat_id)
            &&& json::text_member(env, "SEDIMENT_EMBEDDING_PROVIDER"@) == Some(provider)
            &&& json::text_member(env, "SEDIMENT_OLLAMA_URL"@) == Some(url)
        }),
{
    reveal_strlit("SEDIMENT_FORMATION");
    reveal_strlit("SEDIMENT_SOURCE_CHAT_ID");
    reveal_strlit("SEDIMENT_EMBEDDING_PROVIDER");
    reveal_strlit("SEDIMENT_OLLAMA_URL");
    reveal_strlit("type");
    reveal_strlit("command");
    reveal_strlit("args");
    reveal_strlit("env");
    reveal_strlit("tools");
    assert("SEDIMENT_FORMATION"@.len() == 18);
    assert("SEDIMENT_SOURCE_CHAT_ID"@.len() == 23);
    assert("SEDIMENT_EMBEDDING_PROVIDER"@.len() == 27);
    assert("SEDIMENT_OLLAMA_URL"@.len() == 19);
    assert("type"@.len() == 4);
    assert("command"@.len() == 7);
    assert("args"@.len() == 4);
    assert("env"@.len() == 3);
    assert("tools"@.len() == 5);
}

/// What a message carries is what stands under its own names: the parameters of a request
/// or a notification, the result and the error of a response.
pub proof fn law_messages_carry_their_members(v: JsonModel)
    ensures
        ({
            let method = json::text_member(v, "method"@);
            let id = int_member(v, "id"@);
            &&& method is Some && id is Some ==> shape_of(v) == (IncomingView::Request {
                id: id->0,
                method: method->0,
                params: member_or_null(v, "params"@),
            })
            &&& method is Some && id is None ==> shape_of(v) == (IncomingView::Notification {
                method: method->0,
                params: member_or_null(v, "params"@),
            })
            &&& method is None && id is Some ==> shape_of(v) == (IncomingView::Response {
                id: id->0,
                result: json::member(v, "result"@),
                error: json::member(v, "error"@),
            })
            &&& method is None && id is None ==> shape_of(v) is Other
        }),
        json::member(v, "params"@) matches Some(p) ==> member_or_null(v, "params"@) == p,
        json::member(v, "params"@) is None ==> member_or_null(v, "params"@) is Null,
{
}

} // verus!
