//! The programs that answer: what they are told, and how their output is read.
use sediment::brand::Brand;
use sediment::cancel::CancelRegistry;
use sediment::claude_code::{
    candidates, detect, mcp_config_json, not_installed, parse_auth_status, parse_stream_line, render_turn_prompt,
    summarize_tool_call, timed_out, AssistantMessage, ClaudeCodeEngine, ClaudeTurn, ContentBlock,
    Delta, ParsedAuth, RateLimitInfo, StreamEnvelope, StreamEvent, StreamLine, ToolUseCall,
};
use sediment::conversation::{TranscriptTurn, TurnEvent, TurnRequest, TurnStop};
use sediment::copilot;
use sediment::copilot::{
    classify, first_existing, initialize_msg, mcp_config, ndjson_line, parse_models,
    permission_allow_msg, react_to_line, render_copilot_prompt, request_id, session_cancel_msg,
    session_id_of, session_new_msg, session_prompt_msg, session_update_event, spawn_args,
    unsupported_msg, CopilotEngineHandle, CopilotTurn, Incoming, ReaderAction,
};
use sediment::json::{from_serde, parse, print, Json};

fn brand() -> Brand {
    Brand { name: "Acme".to_string() }
}

fn j(s: &str) -> Json {
    parse(s).unwrap()
}

fn value(j: &Json) -> serde_json::Value {
    serde_json::from_str(&print(j)).unwrap()
}

fn opt(v: &serde_json::Value) -> Option<String> {
    v.as_str().map(str::to_string)
}

fn text(v: &serde_json::Value) -> String {
    opt(v).unwrap_or_default()
}

/// The envelope that a line of output holds.
fn envelope(line: &str) -> Option<StreamEnvelope> {
    let v: serde_json::Value = serde_json::from_str(line).ok()?;
    let event = v.get("event").map(|e| StreamEvent {
        kind: text(&e["type"]),
        delta: e.get("delta").map(|d| Delta { kind: text(&d["type"]), text: opt(&d["text"]) }),
    });
    let rate_limit_info =
        v.get("rate_limit_info").map(|r| RateLimitInfo { status: text(&r["status"]) });
    let message = v.get("message").map(|m| AssistantMessage {
        content: m["content"]
            .as_array()
            .map(|blocks| {
                blocks
                    .iter()
                    .map(|b| ContentBlock {
                        kind: text(&b["type"]),
                        name: opt(&b["name"]),
                        input: b.get("input").map(|i| from_serde(i.clone())),
                    })
                    .collect()
            })
            .unwrap_or_default(),
    });
    Some(StreamEnvelope {
        kind: text(&v["type"]),
        event,
        rate_limit_info,
        message,
        is_error: v["is_error"].as_bool().unwrap_or(false),
        subtype: opt(&v["subtype"]),
        result: opt(&v["result"]),
    })
}

fn line(raw: &str) -> StreamLine {
    parse_stream_line(envelope(raw))
}

fn auth(raw: &str) -> ParsedAuth {
    let v: Option<serde_json::Value> = serde_json::from_str(raw).ok();
    parse_auth_status(v.map(|v| ParsedAuth {
        logged_in: v["loggedIn"].as_bool().unwrap_or(false),
        auth_method: opt(&v["authMethod"]),
        subscription_type: opt(&v["subscriptionType"]),
        email: opt(&v["email"]),
    }))
}

fn request(message: &str, root: &str, chat: &str, context: Option<&str>) -> TurnRequest {
    TurnRequest {
        message: message.to_string(),
        history: vec![],
        formation_root: root.to_string(),
        source_chat_id: chat.to_string(),
        embedding_provider: "ollama".to_string(),
        ollama_url: None,
        injected_context: context.map(str::to_string),
        tone: "warm".to_string(),
        cancel: CancelRegistry::default().register("t"),
        conversation_id: "c1".to_string(),
    }
}

#[test]
fn stream_line_transcript_fixture() {
    let transcript = [
        r#"{"type":"system","subtype":"init","session_id":"s1","tools":[]}"#,
        r#"{"type":"rate_limit_event","rate_limit_info":{"status":"allowed"},"session_id":"s1"}"#,
        r#"{"type":"stream_event","event":{"type":"message_start","message":{"role":"assistant"}},"session_id":"s1"}"#,
        r#"{"type":"stream_event","event":{"type":"content_block_start","index":0,"content_block":{"type":"thinking","thinking":""}},"session_id":"s1"}"#,
        r#"{"type":"stream_event","event":{"type":"content_block_delta","index":0,"delta":{"type":"thinking_delta","thinking":"Let me check the notes."}},"session_id":"s1"}"#,
        r#"{"type":"stream_event","event":{"type":"content_block_stop","index":0},"session_id":"s1"}"#,
        r#"{"type":"stream_event","event":{"type":"content_block_start","index":1,"content_block":{"type":"text","text":""}},"session_id":"s1"}"#,
        r#"{"type":"stream_event","event":{"type":"content_block_delta","index":1,"delta":{"type":"text_delta","text":"Sarah "}},"session_id":"s1"}"#,
        r#"{"type":"stream_event","event":{"type":"content_block_delta","index":1,"delta":{"type":"text_delta","text":"works at Acme."}},"session_id":"s1"}"#,
        r#"{"type":"stream_event","event":{"type":"content_block_stop","index":1},"session_id":"s1"}"#,
        r#"{"type":"stream_event","event":{"type":"message_stop"},"session_id":"s1"}"#,
        r#"{"type":"result","subtype":"success","is_error":false,"result":"Sarah works at Acme.","session_id":"s1","total_cost_usd":0.01}"#,
    ];
    let results: Vec<StreamLine> = transcript.iter().map(|l| line(l)).collect();

    // What the model thinks is not shown.
    assert!(matches!(results[4], StreamLine::Other), "got {:?}", results[4]);
    assert_eq!(results[7], StreamLine::Token("Sarah ".to_string()));
    assert_eq!(results[8], StreamLine::Token("works at Acme.".to_string()));
    assert!(matches!(results[11], StreamLine::Done { is_error: false, .. }));
    if let StreamLine::Done { answer, .. } = &results[11] {
        assert_eq!(answer, "Sarah works at Acme.");
    }
    let tokens: Vec<String> = results
        .into_iter()
        .filter_map(|r| match r {
            StreamLine::Token(t) => Some(t),
            _ => None,
        })
        .collect();
    assert_eq!(tokens, vec!["Sarah ", "works at Acme."]);
}

#[test]
fn stream_line_error_result() {
    let raw = r#"{"type":"result","subtype":"error_during_execution","is_error":true,"result":""}"#;
    assert!(matches!(
        line(raw),
        StreamLine::Done { is_error: true, subtype: Some(_), .. }
    ));
    if let StreamLine::Done { subtype, .. } = line(raw) {
        assert_eq!(subtype.as_deref(), Some("error_during_execution"));
    }
}

#[test]
fn stream_line_rate_limit() {
    let rejected = r#"{"type":"rate_limit_event","rate_limit_info":{"status":"rejected"}}"#;
    assert_eq!(line(rejected), StreamLine::RateLimited);
    let allowed = r#"{"type":"rate_limit_event","rate_limit_info":{"status":"allowed"}}"#;
    assert_eq!(line(allowed), StreamLine::Other);
}

#[test]
fn stream_line_malformed_json_is_other() {
    assert_eq!(line("not json at all"), StreamLine::Other);
    assert_eq!(line(""), StreamLine::Other);
}

#[test]
fn auth_status_logged_in() {
    let parsed = auth(
        r#"{
        "loggedIn": true,
        "authMethod": "acme.ai",
        "apiProvider": "firstParty",
        "email": "user@example.com",
        "orgId": "org_abc",
        "orgName": "Acme",
        "subscriptionType": "max"
    }"#,
    );
    assert!(parsed.logged_in);
    assert_eq!(parsed.auth_method.as_deref(), Some("acme.ai"));
    assert_eq!(parsed.subscription_type.as_deref(), Some("max"));
    assert_eq!(parsed.email.as_deref(), Some("user@example.com"));
}

#[test]
fn auth_status_logged_out() {
    let parsed = auth(r#"{"loggedIn": false}"#);
    assert!(!parsed.logged_in);
    assert!(parsed.auth_method.is_none());
    assert!(parsed.subscription_type.is_none());
    assert!(parsed.email.is_none());
}

#[test]
fn auth_status_invalid_json() {
    assert!(!auth("not json").logged_in);
}

#[test]
fn first_existing_precedence() {
    let candidates: Vec<String> = ["a", "b", "c"].iter().map(|s| s.to_string()).collect();
    let found = first_existing(&candidates, &vec![false, true, true]);
    assert_eq!(found.as_deref(), Some("b"), "the first that is there");
    let found2 = first_existing(&candidates, &vec![true, true, true]);
    assert_eq!(found2.as_deref(), Some("a"), "once it is there");
}

#[test]
fn first_existing_none_when_empty_or_all_missing() {
    assert_eq!(first_existing(&vec![], &vec![]), None);
    let missing = vec!["x".to_string(), "y".to_string()];
    assert_eq!(first_existing(&missing, &vec![false, false]), None);
}

#[test]
fn stream_line_agent_tool_use_fixture() {
    let transcript = [
        r#"{"type":"system","subtype":"init","session_id":"s2","tools":["Read","Edit"]}"#,
        r#"{"type":"stream_event","event":{"type":"message_start","message":{"role":"assistant","content":[]}},"session_id":"s2"}"#,
        r#"{"type":"stream_event","event":{"type":"content_block_start","index":1,"content_block":{"type":"tool_use","id":"toolu_1","name":"Read","input":{}}},"session_id":"s2"}"#,
        r#"{"type":"stream_event","event":{"type":"content_block_delta","index":1,"delta":{"type":"input_json_delta","partial_json":"{\"file_path\":\"probe.txt\"}"}},"session_id":"s2"}"#,
        r#"{"type":"assistant","message":{"role":"assistant","content":[{"type":"tool_use","id":"toolu_1","name":"Read","input":{"file_path":"/f/People/Josh.md"}}]},"session_id":"s2"}"#,
        r#"{"type":"stream_event","event":{"type":"content_block_stop","index":1},"session_id":"s2"}"#,
        r#"{"type":"user","message":{"role":"user","content":[{"tool_use_id":"toolu_1","type":"tool_result","content":"..."}]},"session_id":"s2"}"#,
        r#"{"type":"stream_event","event":{"type":"content_block_delta","index":0,"delta":{"type":"text_delta","text":"Got it."}},"session_id":"s2"}"#,
        r#"{"type":"assistant","message":{"role":"assistant","content":[{"type":"text","text":"Got it."}]},"session_id":"s2"}"#,
        r#"{"type":"result","subtype":"success","is_error":false,"result":"Got it.","session_id":"s2"}"#,
    ];
    let results: Vec<StreamLine> = transcript.iter().map(|l| line(l)).collect();

    assert!(matches!(results[2], StreamLine::Other), "got {:?}", results[2]);
    assert!(matches!(results[3], StreamLine::Other), "got {:?}", results[3]);
    match &results[4] {
        StreamLine::ToolUses(calls) => {
            assert_eq!(calls.len(), 1, "one tool call");
            assert_eq!(calls[0].name, "Read");
            assert_eq!(calls[0].input.get_str("file_path"), Some("/f/People/Josh.md"));
        }
        other => panic!("expected ToolUses, got {other:?}"),
    }
    assert_eq!(results[7], StreamLine::Token("Got it.".to_string()));
    assert!(matches!(results[8], StreamLine::Other), "got {:?}", results[8]);
    assert!(matches!(results[9], StreamLine::Done { is_error: false, .. }));
}

#[test]
fn stream_line_multiple_tool_uses_in_one_message() {
    let raw = r#"{"type":"assistant","message":{"role":"assistant","content":[
        {"type":"thinking","thinking":"plan"},
        {"type":"tool_use","id":"t1","name":"mcp__sediment__find_contradiction","input":{"subject":"Josh","predicate":"works_at","object":"Acme"}},
        {"type":"tool_use","id":"t2","name":"mcp__sediment__record_fact","input":{"subject":"Josh","predicate":"works_at","object":"Cloudflare"}}
    ]},"session_id":"s3"}"#;
    match line(raw) {
        StreamLine::ToolUses(calls) => {
            assert_eq!(calls.len(), 2, "two tool calls, the thinking is passed over");
            assert_eq!(calls[0].name, "mcp__sediment__find_contradiction");
            assert_eq!(calls[1].name, "mcp__sediment__record_fact");
        }
        other => panic!("expected ToolUses, got {other:?}"),
    }
}

#[test]
fn summarize_tool_call_phrasing() {
    let call = |name: &str, input: &str| ToolUseCall { name: name.to_string(), input: j(input) };
    // A tool for files: the file is the detail.
    let read = call("Read", r#"{ "file_path": "/f/People/Josh.md" }"#);
    assert_eq!(summarize_tool_call(&read), "Read /f/People/Josh.md");
    // A served tool: its prefix goes, the subject is the detail.
    let record = call(
        "mcp__sediment__record_fact",
        r#"{ "subject": "Josh", "predicate": "works_at", "object": "Cloudflare" }"#,
    );
    assert_eq!(summarize_tool_call(&record), "record_fact Josh");
    let search = call("mcp__sediment__search_notes", r#"{ "query": "Q3 roadmap", "k": 5 }"#);
    assert_eq!(summarize_tool_call(&search), "search_notes Q3 roadmap");
    // No argument that is shown: the bare name.
    let bare = call("mcp__sediment__related_facts", r#"{ "entity": "Josh" }"#);
    assert_eq!(summarize_tool_call(&bare), "related_facts");
}

#[test]
fn render_turn_prompt_no_history() {
    let p = render_turn_prompt(&request(
        "  Josh moved to Cloudflare.  ",
        "/f",
        "chat_message:1",
        None,
    ));
    assert!(p.contains("# Your formation"));
    assert!(p.contains("/f"), "the formation's path is stated");
    assert!(p.contains("# New message"));
    assert!(p.trim_end().ends_with("Josh moved to Cloudflare."));
    assert!(!p.contains("# Conversation so far"), "no history");
}

#[test]
fn render_turn_prompt_with_history() {
    let mut turn = request("He reports to Devon now.", "/f", "chat_message:2", None);
    turn.history = vec![
        TranscriptTurn {
            role: "user".to_string(),
            content: "Josh works at Cloudflare.".to_string(),
        },
        TranscriptTurn {
            role: "assistant".to_string(),
            content: "Got it — filed under People/Josh.md.".to_string(),
        },
    ];
    let p = render_turn_prompt(&turn);
    assert!(p.contains("# Your formation"));
    assert!(p.contains("# Conversation so far"));
    assert!(p.contains("User: Josh works at Cloudflare."));
    assert!(p.contains("Assistant: Got it — filed under People/Josh.md."));
    assert!(p.contains("# New message"));
    assert!(p.trim_end().ends_with("He reports to Devon now."));
}

#[test]
fn render_turn_prompt_with_injected_context() {
    let with = request(
        "He moved to Stripe.",
        "/f",
        "chat_message:3",
        Some("Josh → People/Josh.md (works_at Cloudflare)"),
    );
    let p = render_turn_prompt(&with);
    assert!(p.contains("# What you already know"));
    assert!(p.contains("Josh → People/Josh.md"));
    assert!(
        p.find("# What you already know") < p.find("# New message"),
        "grounding precedes the new message",
    );
    let without = TurnRequest { injected_context: None, ..with };
    assert!(!render_turn_prompt(&without).contains("# What you already know"));
}

#[test]
fn mcp_config_json_shape() {
    let turn = request("hi", "/Users/x/formation", "chat_message:42", None);
    let raw = mcp_config_json("/Apps/Sediment.app/sediment", &turn);
    let v: serde_json::Value = serde_json::from_str(&raw).expect("valid JSON");
    let server = &v["mcpServers"]["sediment"];
    assert_eq!(server["command"].as_str(), Some("/Apps/Sediment.app/sediment"));
    assert_eq!(server["args"].as_array().map(|a| a.len()), Some(1), "args is [--mcp-stdio]");
    assert_eq!(server["args"][0].as_str(), Some("--mcp-stdio"));
    assert_eq!(server["env"]["SEDIMENT_FORMATION"].as_str(), Some("/Users/x/formation"));
    assert_eq!(server["env"]["SEDIMENT_SOURCE_CHAT_ID"].as_str(), Some("chat_message:42"));
}

#[test]
fn the_program_is_looked_for_at_home_first() {
    assert_eq!(
        candidates(Some("/home/x"), &brand()),
        vec![
            "/home/x/.local/bin/acme",
            "/home/x/.acme/local/acme",
            "/opt/homebrew/bin/acme",
            "/usr/local/bin/acme",
        ]
    );
    assert_eq!(candidates(None, &brand()).len(), 2);
    let none = detect(None, auth("{}"));
    assert!(!none.installed);
    let found = detect(Some("/bin/acme".to_string()), auth(r#"{"loggedIn":true}"#));
    assert!(found.installed && found.logged_in);
}

#[test]
fn a_turn_gathers_the_streamed_text() {
    let mut t = ClaudeTurn::begin();
    assert_eq!(
        t.on_line(StreamLine::Token("Hel".to_string())),
        vec![TurnEvent::TextDelta { text: "Hel".to_string() }]
    );
    t.on_line(StreamLine::Other);
    t.on_line(StreamLine::Token("lo".to_string()));
    let shown = t.on_line(StreamLine::ToolUses(vec![ToolUseCall {
        name: "Read".to_string(),
        input: j(r#"{"file_path":"/f/a.md"}"#),
    }]));
    assert_eq!(
        shown,
        vec![TurnEvent::ToolActivity {
            tool: "Read".to_string(),
            summary: "Read /f/a.md".to_string(),
        }]
    );
    let out = t.resolve(true, "", &brand()).unwrap();
    assert_eq!(out.reply, "Hello");
    assert_eq!(out.stop, TurnStop::Completed);
}

#[test]
fn each_failure_of_a_turn_is_told() {
    let fail = |t: ClaudeTurn, well: bool, err: &str| {
        t.resolve(well, err, &brand()).unwrap_err().message()
    };
    assert_eq!(
        fail(ClaudeTurn::begin(), true, ""),
        "Acme Code exited without finishing the turn — make sure you are signed in (run `acme` in a terminal)."
    );
    assert_eq!(fail(ClaudeTurn::begin(), false, " boom "), "Acme Code exited with an error: boom");
    let mut limited = ClaudeTurn::begin();
    limited.on_line(StreamLine::RateLimited);
    assert_eq!(
        fail(limited, true, ""),
        "Acme usage limit reached. Your Acme subscription's quota is exhausted; it will reset later."
    );
    let mut broken = ClaudeTurn::begin();
    broken.on_line(StreamLine::Done {
        answer: String::new(),
        is_error: true,
        subtype: Some("max_turns".to_string()),
    });
    assert_eq!(
        fail(broken, true, ""),
        "Acme Code reported an error during the turn (subtype: max_turns)."
    );
    let mut empty = ClaudeTurn::begin();
    empty.on_line(StreamLine::Done { answer: String::new(), is_error: false, subtype: None });
    assert_eq!(
        fail(empty, true, ""),
        "Acme Code returned an empty reply — the turn may have been blocked."
    );
    assert_eq!(
        not_installed(&brand()).message(),
        "Acme Code is not installed. Install it from https://acme.com/acme-code."
    );
    assert_eq!(
        timed_out(&brand()).message(),
        "Acme Code did not finish within 300s — the turn was cancelled."
    );
}

#[test]
fn the_final_answer_replaces_the_streamed_text() {
    let mut t = ClaudeTurn::begin();
    t.on_line(StreamLine::Token("draft".to_string()));
    t.on_line(StreamLine::Done { answer: "final".to_string(), is_error: false, subtype: None });
    assert_eq!(t.resolve(true, "", &brand()).unwrap().reply, "final");
    let args = ClaudeCodeEngine::new("opus").args("be brief", "/tmp/mcp.json");
    assert!(args.contains(&"opus".to_string()));
    assert!(args.contains(&"be brief".to_string()));
    assert!(args.contains(&"/tmp/mcp.json".to_string()));
}

#[test]
fn parse_models_reads_available_and_current() {
    let resp = j(
        r#"{
        "sessionId": "x",
        "models": {
            "currentModelId": "gpt-5-mini",
            "availableModels": [
                {"modelId":"auto","name":"Auto","description":"Let Copilot pick the best model"},
                {"modelId":"gpt-5-mini","name":"GPT-5 mini","_meta":{"copilotUsage":"0x","copilotEnablement":"enabled"}},
                {"modelId":"acme-haiku-4.5","name":"Acme Haiku 4.5","_meta":{"copilotUsage":"0.33x","copilotEnablement":"enabled"}}
            ]
        }
    }"#,
    );
    let m = parse_models(&resp);
    assert_eq!(m.current_model_id.as_deref(), Some("gpt-5-mini"));
    assert_eq!(m.available.len(), 3);
    let mini = m.available.iter().find(|x| x.model_id == "gpt-5-mini").expect("present");
    assert_eq!(mini.name, "GPT-5 mini");
    assert_eq!(mini.usage.as_deref(), Some("0x"));
    assert!(mini.enabled);

    // A response without the block gives an empty list.
    let empty = parse_models(&j(r#"{ "sessionId": "x" }"#));
    assert!(empty.available.is_empty());
    assert!(empty.current_model_id.is_none());
}

#[test]
fn ndjson_line_is_compact_and_newline_terminated() {
    let line = ndjson_line(&j(r#"{"a":1,"b":[2,3]}"#));
    assert!(line.ends_with('\n'));
    assert!(!line.trim_end().contains('\n'), "one line");
    assert_eq!(line.trim_end(), r#"{"a":1,"b":[2,3]}"#);
}

#[test]
fn classify_dispatches_by_shape_not_id() {
    match classify(r#"{"jsonrpc":"2.0","id":2,"result":{"sessionId":"s1"}}"#) {
        Incoming::Response { id, result, .. } => {
            assert_eq!(id, 2);
            assert_eq!(result.unwrap().get_str("sessionId"), Some("s1"));
        }
        other => panic!("expected Response, got {other:?}"),
    }
    // A request of theirs may carry an id that we use too.
    match classify(
        r#"{"jsonrpc":"2.0","id":0,"method":"session/request_permission","params":{"options":[]}}"#,
    ) {
        Incoming::Request { id, method, .. } => {
            assert_eq!(id, 0);
            assert_eq!(method, "session/request_permission");
        }
        other => panic!("expected Request, got {other:?}"),
    }
    match classify(r#"{"jsonrpc":"2.0","method":"session/update","params":{}}"#) {
        Incoming::Notification { method, .. } => assert_eq!(method, "session/update"),
        other => panic!("expected Notification, got {other:?}"),
    }
    assert_eq!(classify("[ERROR] a stray log line"), Incoming::Other);
}

#[test]
fn agent_message_chunk_becomes_text_delta_thought_is_ignored() {
    let chunk = j(
        r#"{"sessionId":"s1","update":{
        "sessionUpdate":"agent_message_chunk",
        "content":{"type":"text","text":"READY"}}}"#,
    );
    match session_update_event(&chunk) {
        Some(TurnEvent::TextDelta { text }) => assert_eq!(text, "READY"),
        other => panic!("expected TextDelta, got {other:?}"),
    }
    let thought = j(
        r#"{"update":{"sessionUpdate":"agent_thought_chunk",
        "content":{"type":"text","text":"hmm"}}}"#,
    );
    assert!(session_update_event(&thought).is_none());
}

#[test]
fn permission_reply_picks_allow_always_with_their_id() {
    let req = j(
        r#"{"options":[
        {"optionId":"allow_once","kind":"allow_once","name":"Allow once"},
        {"optionId":"allow_always","kind":"allow_always","name":"Always allow"},
        {"optionId":"reject_once","kind":"reject_once","name":"Deny"}]}"#,
    );
    let reply = value(&permission_allow_msg(0, &req));
    assert_eq!(reply["id"], 0, "the reply carries their id");
    assert_eq!(reply["result"]["outcome"]["optionId"], "allow_always");
}

#[test]
fn builders_are_valid_jsonrpc() {
    assert_eq!(value(&initialize_msg(1))["method"], "initialize");
    assert_eq!(value(&initialize_msg(1))["params"]["protocolVersion"], 1);
    assert_eq!(value(&session_new_msg(2, "/f"))["params"]["cwd"], "/f");
    let p = value(&session_prompt_msg(3, "s1", "hi"));
    assert_eq!(p["params"]["sessionId"], "s1");
    assert_eq!(p["params"]["prompt"][0]["text"], "hi");
    let c = value(&session_cancel_msg("s1"));
    assert_eq!(c["method"], "session/cancel");
    assert!(c.get("id").is_none(), "nobody answers it");
    assert_eq!(request_id(&session_prompt_msg(3, "s1", "hi")).unwrap(), 3);
    assert_eq!(
        request_id(&session_cancel_msg("s1")).unwrap_err().message(),
        "copilot: request missing id"
    );
}

#[test]
fn render_prompt_includes_persona_only_on_first_turn() {
    let base = "You are the conversational agent of a formation.";
    let turn =
        request("Josh joined Stripe.", "/f", "chat_message:1", Some("## Currently in play"));
    let first = render_copilot_prompt(&turn, true, base);
    assert!(first.contains("conversational agent"), "persona on the first turn");
    assert!(first.contains("# What you already know"));
    assert!(first.trim_end().ends_with("Josh joined Stripe."));

    let later = render_copilot_prompt(&turn, false, base);
    assert!(!later.contains("conversational agent"), "and on no other");
    assert!(later.contains("# What you already know"));
}

#[test]
fn requests_of_theirs_are_answered() {
    let ask = r#"{"jsonrpc":"2.0","id":7,"method":"session/request_permission","params":{"options":[]}}"#;
    match react_to_line(ask) {
        ReaderAction::Reply { line } => {
            let v: serde_json::Value = serde_json::from_str(&line).unwrap();
            assert_eq!(v["id"], 7);
            assert!(v.get("result").is_some());
        }
        other => panic!("expected Reply, got {other:?}"),
    }
    match react_to_line(r#"{"jsonrpc":"2.0","id":8,"method":"fs/read_text_file","params":{}}"#) {
        ReaderAction::Reply { line } => {
            let v: serde_json::Value = serde_json::from_str(&line).unwrap();
            assert_eq!(v["id"], 8);
            assert!(v.get("error").is_some());
            assert_eq!(line, ndjson_line(&unsupported_msg(8)));
        }
        other => panic!("expected Reply, got {other:?}"),
    }
    match react_to_line(r#"{"jsonrpc":"2.0","id":3,"result":{"stopReason":"end_turn"}}"#) {
        ReaderAction::Resolve { id, payload } => {
            assert_eq!(id, 3);
            assert_eq!(payload.unwrap().get_str("stopReason"), Some("end_turn"));
        }
        other => panic!("expected Resolve, got {other:?}"),
    }
    assert!(matches!(
        react_to_line(r#"{"jsonrpc":"2.0","method":"session/update","params":{"a":1}}"#),
        ReaderAction::Forward { .. }
    ));
    assert_eq!(react_to_line("log"), ReaderAction::Ignore);
}

#[test]
fn a_session_is_known_by_its_id() {
    assert_eq!(session_id_of(&j(r#"{"sessionId":"s1"}"#)).unwrap(), "s1");
    assert!(session_id_of(&j("{}")).is_err());
    assert_eq!(
        spawn_args("/f", "/f/mcp.json", "gpt-5"),
        vec![
            "--acp",
            "--disable-builtin-mcps",
            "--allow-all-tools",
            "--no-custom-instructions",
            "--add-dir",
            "/f",
            "--additional-mcp-config",
            "@/f/mcp.json",
            "--model",
            "gpt-5",
        ]
    );
    assert_eq!(copilot::default_model(&brand()), "acme-haiku-4.5");
    let cfg = value(&mcp_config("/bin/sediment", "/f", "chat", "ollama", "http://h"));
    let server = &cfg["mcpServers"]["sediment"];
    assert_eq!(server["type"], "local");
    assert_eq!(server["args"][0], "--mcp-stdio");
    assert_eq!(server["env"]["SEDIMENT_OLLAMA_URL"], "http://h");
    assert_eq!(server["tools"][0], "*");
}

#[test]
fn discovery_waits_for_the_session() {
    assert!(copilot::discovery_step("log").is_none());
    assert!(copilot::discovery_step(r#"{"jsonrpc":"2.0","id":1,"result":{}}"#).is_none());
    let models = copilot::discovery_step(
        r#"{"jsonrpc":"2.0","id":2,"result":{"models":{"currentModelId":"m","availableModels":[]}}}"#,
    )
    .unwrap()
    .unwrap();
    assert_eq!(models.current_model_id.as_deref(), Some("m"));
    let failed =
        copilot::discovery_step(r#"{"jsonrpc":"2.0","id":2,"error":{"code":1}}"#).unwrap();
    assert_eq!(failed.unwrap_err().message(), r#"copilot session/new: {"code":1}"#);
}

#[test]
fn a_process_serves_one_conversation() {
    let mut h = CopilotEngineHandle::default();
    let turn = request("hi", "/f", "chat", None);
    assert!(h.needs_new(&turn, "m"));
    h.started(&turn, "m");
    assert!(!h.needs_new(&turn, "m"));
    assert!(h.needs_new(&turn, "other"));
    let base = "persona here";
    assert!(h.prompt(&turn, base).contains(base));
    assert!(!h.prompt(&turn, base).contains(base));

    let mut t = CopilotTurn::begin();
    t.on_update(&j(
        r#"{"update":{"sessionUpdate":"agent_message_chunk","content":{"type":"text","text":"yes"}}}"#,
    ));
    let done = t.responded(Ok(j(r#"{"stopReason":"end_turn"}"#)));
    let (out, shut) = h.finished(done);
    assert_eq!(out.unwrap().reply, "yes");
    assert!(!shut);
    // A stop that is not acknowledged costs the process.
    let (out, shut) = h.finished(Ok(CopilotTurn::begin().interrupted(false)));
    assert_eq!(out.unwrap().stop, TurnStop::Interrupted);
    assert!(shut);
    assert!(h.needs_new(&turn, "m"));
    h.started(&turn, "m");
    let refused = CopilotTurn::begin().responded(Ok(j(r#"{"stopReason":"refusal"}"#)));
    let (out, shut) = h.finished(refused);
    assert_eq!(out.unwrap_err().message(), "copilot refused the request");
    assert!(shut);
    h.started(&turn, "m");
    let failed = CopilotTurn::begin().responded(Err("gone".to_string()));
    assert_eq!(h.finished(failed).0.unwrap_err().message(), "copilot error: gone");
}

#[test]
fn a_login_shell_answers_with_a_path() {
    assert_eq!(copilot::shell_answer(true, "/bin/copilot\n").as_deref(), Some("/bin/copilot"));
    assert_eq!(copilot::shell_answer(true, " \n"), None);
    assert_eq!(copilot::shell_answer(false, "/bin/copilot\n"), None);
    let c = copilot::unix_candidates(Some("/home/x"));
    assert_eq!(c[0], "/home/x/.local/bin/copilot");
    let there = vec![false; c.len()];
    assert_eq!(
        copilot::locate(&c, &there, Some("/bin/copilot".to_string())).as_deref(),
        Some("/bin/copilot")
    );
    assert!(copilot::detect(None).binary_path.is_none());
}
