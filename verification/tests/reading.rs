//! Reading what people and machines write: intents, extractions, models, hosts.
use sediment::brand::Brand;
use sediment::cli_launch::{
    ext_rank, launch_plan, most_launchable, needs_cmd_shim, windows_npm_candidates,
};
use sediment::cloud::{
    anthropic_body, openai_body, parse_anthropic_answer, parse_openai_answer, refused, request,
    AnthropicBlock, AnthropicResponse, CloudConfig, CloudProvider, OpenAiChoice, OpenAiResponse,
};
use sediment::datetime::Timestamp;
use sediment::embedding::EmbeddingProvider;
use sediment::extract_facts::{
    accepted_entities, extract_entities, fact_written, model_missing, plan_facts, require_model,
    run_extract_facts, upserted,
};
use sediment::extraction::{
    default_relation_schema, extraction_of_spans, is_entity_label, model_bootstrap_hint,
    parse_year_start, EntitySpan, ModelPaths, Probability, RelationSchema, RelationSpan,
    RelationSpec,
};
use sediment::hardware::{detect, detect_chip, ram_gb, score_tier, Tier};
use sediment::intent::{classify, Intent};
use sediment::json::{parse, print, Json};
use sediment::llm_extractor::{
    build_prompt, extract_json_object, normalize_entity_type, parse_when, LlmEntity, LlmExtraction,
    LlmRelation,
};
use sediment::paths;

fn p(f: f32) -> Probability {
    Probability { bits: f.to_bits() }
}

fn now() -> Timestamp {
    Timestamp { secs: 1_750_000_000, nanos: 0 }
}

fn text_of(v: &serde_json::Value, key: &str) -> String {
    v[key].as_str().unwrap_or_default().to_string()
}

fn anthropic(raw: &str) -> AnthropicResponse {
    let v: serde_json::Value = serde_json::from_str(raw).unwrap();
    let blocks = v["content"].as_array().unwrap();
    AnthropicResponse {
        content: blocks.iter().map(|b| AnthropicBlock { text: text_of(b, "text") }).collect(),
    }
}

fn openai(raw: &str) -> OpenAiResponse {
    let v: serde_json::Value = serde_json::from_str(raw).unwrap();
    let choices = v["choices"].as_array().unwrap();
    OpenAiResponse {
        choices: choices
            .iter()
            .map(|c| OpenAiChoice { content: text_of(&c["message"], "content") })
            .collect(),
    }
}

fn dto(raw: &str) -> LlmExtraction {
    let v: serde_json::Value = serde_json::from_str(raw).unwrap();
    let opt = |v: &serde_json::Value| v.as_str().map(str::to_string);
    LlmExtraction {
        entities: v["entities"]
            .as_array()
            .unwrap()
            .iter()
            .map(|e| LlmEntity {
                name: text_of(e, "name"),
                entity_type: text_of(e, "type"),
                is_self: e["is_self"].as_bool().unwrap_or(false),
            })
            .collect(),
        relations: v["relations"]
            .as_array()
            .unwrap()
            .iter()
            .map(|r| LlmRelation {
                subject: text_of(r, "subject"),
                predicate: text_of(r, "predicate"),
                object: text_of(r, "object"),
                valid_from: opt(&r["valid_from"]),
                valid_to: opt(&r["valid_to"]),
                current: r["current"].as_bool().unwrap_or(true),
            })
            .collect(),
    }
}

#[test]
fn most_launchable_prefers_exe_then_cmd_over_shim() {
    let out = "C:\\Users\\x\\AppData\\Roaming\\npm\\copilot\n\
               C:\\Users\\x\\AppData\\Roaming\\npm\\copilot.cmd\n\
               C:\\tools\\copilot.exe\n";
    let picked = most_launchable(out).expect("a path");
    assert_eq!(paths::extension(&picked).as_deref(), Some("exe"));

    // No `.exe`: the `.cmd` wins over the bare script.
    let out2 = "C:\\npm\\copilot\nC:\\npm\\copilot.cmd\n";
    let picked2 = most_launchable(out2).expect("a path");
    assert_eq!(paths::extension(&picked2).as_deref(), Some("cmd"));

    assert!(most_launchable("\n  \n").is_none(), "blank output, no path");
}

#[test]
fn a_shim_goes_through_the_command_interpreter() {
    assert_eq!(ext_rank("a.EXE"), 0);
    assert_eq!(ext_rank("a.cmd"), 1);
    assert_eq!(ext_rank("a.bat"), 2);
    assert_eq!(ext_rank("a"), 3);
    assert!(needs_cmd_shim(true, "copilot.cmd"));
    assert!(needs_cmd_shim(true, "copilot"));
    assert!(!needs_cmd_shim(true, "copilot.Exe"));
    assert!(!needs_cmd_shim(false, "copilot.cmd"));
    let plan = launch_plan(true, "c.cmd", &vec!["--acp".to_string()]);
    assert_eq!(plan.program, "cmd");
    assert_eq!(plan.args, vec!["/C", "c.cmd", "--acp"]);
    let plain = launch_plan(false, "/bin/c", &vec!["--acp".to_string()]);
    assert_eq!(plain.program, "/bin/c");
    assert_eq!(plain.args, vec!["--acp"]);
    assert!(windows_npm_candidates(false, Some("C:/u"), "copilot").is_empty());
    let found = windows_npm_candidates(true, Some("C:/u"), "copilot");
    assert!(found.iter().any(|f| f.ends_with("copilot.cmd")));
}

#[test]
fn provider_parse_is_case_insensitive() {
    assert_eq!(CloudProvider::parse("Anthropic"), Some(CloudProvider::Anthropic));
    assert_eq!(CloudProvider::parse("  openai "), Some(CloudProvider::OpenAi));
    assert_eq!(CloudProvider::parse("gemini"), None);
}

#[test]
fn request_bodies_match_each_provider_schema() {
    let a = anthropic_body("acme-3-5-haiku-latest", "hello");
    let body: serde_json::Value = serde_json::from_str(&print(&a)).unwrap();
    assert_eq!(body["model"], "acme-3-5-haiku-latest");
    assert!(body["max_tokens"].is_number(), "max_tokens is required");
    assert_eq!(body["max_tokens"], 1024);
    assert_eq!(body["messages"][0]["role"], "user");
    assert_eq!(body["messages"][0]["content"], "hello");

    let o = openai_body("gpt-4o-mini", "hello");
    let body: serde_json::Value = serde_json::from_str(&print(&o)).unwrap();
    assert_eq!(body["model"], "gpt-4o-mini");
    assert_eq!(body["messages"][0]["content"], "hello");
}

#[test]
fn parses_a_provider_answer_and_rejects_an_empty_one() {
    let a = r#"{"content":[{"type":"text","text":"Sarah works at Acme."}]}"#;
    assert_eq!(parse_anthropic_answer(Ok(anthropic(a))).unwrap(), "Sarah works at Acme.");
    let o = r#"{"choices":[{"message":{"role":"assistant","content":"Hi there."}}]}"#;
    assert_eq!(parse_openai_answer(Ok(openai(o))).unwrap(), "Hi there.");

    // An empty list is a failed turn, not a blank answer.
    assert!(parse_anthropic_answer(Ok(anthropic(r#"{"content":[]}"#))).is_err());
    assert!(parse_openai_answer(Ok(openai(r#"{"choices":[]}"#))).is_err());
}

#[test]
fn requests_carry_the_key() {
    let mut c = CloudConfig {
        provider: CloudProvider::Anthropic,
        api_key: "key".to_string(),
        model: "m".to_string(),
    };
    let r = request(&c, "hi");
    assert_eq!(r.url, "https://api.anthropic.com/v1/messages");
    assert_eq!(
        r.headers,
        vec![
            ("x-api-key".to_string(), "key".to_string()),
            ("anthropic-version".to_string(), "2023-06-01".to_string()),
        ]
    );
    c.provider = CloudProvider::OpenAi;
    let r = request(&c, "hi");
    assert_eq!(r.url, "https://api.openai.com/v1/chat/completions");
    assert_eq!(r.headers, vec![("authorization".to_string(), "Bearer key".to_string())]);
    assert_eq!(r.body, openai_body("m", "hi"));
}

#[test]
fn failed_answers_say_why() {
    let brand = Brand { name: "Acme".to_string() };
    assert_eq!(CloudProvider::Anthropic.default_model(&brand), "acme-3-5-haiku-latest");
    assert_eq!(CloudProvider::OpenAi.default_model(&brand), "gpt-4o-mini");
    let bad = parse_anthropic_answer(Err("eof".to_string())).unwrap_err();
    assert_eq!(bad.message(), "parse Anthropic response: eof");
    let bad = parse_openai_answer(Err("eof".to_string())).unwrap_err();
    assert_eq!(bad.message(), "parse OpenAI response: eof");
    let none = parse_anthropic_answer(Ok(AnthropicResponse { content: vec![] })).unwrap_err();
    assert_eq!(none.message(), "Anthropic response carried no text");
    let none = parse_openai_answer(Ok(OpenAiResponse { choices: vec![] })).unwrap_err();
    assert_eq!(none.message(), "OpenAI response carried no message content");
    let said = refused("429 Too Many Requests", &"x".repeat(400)).message();
    assert!(said.starts_with("cloud provider returned HTTP 429 Too Many Requests: xxx"));
    assert_eq!(said.matches('x').count(), 300);
}

#[test]
fn parses_config_strings_with_default() {
    assert_eq!(EmbeddingProvider::from_config(None), EmbeddingProvider::Ollama);
    assert_eq!(EmbeddingProvider::from_config(Some("ollama")), EmbeddingProvider::Ollama);
    assert_eq!(EmbeddingProvider::from_config(Some("none")), EmbeddingProvider::Keyword);
    assert_eq!(EmbeddingProvider::from_config(Some("keyword")), EmbeddingProvider::Keyword);
    // What is not known falls back to the semantic default.
    assert_eq!(EmbeddingProvider::from_config(Some("banana")), EmbeddingProvider::Ollama);
}

#[test]
fn round_trips_as_str() {
    assert_eq!(EmbeddingProvider::Ollama.as_str(), "ollama");
    assert_eq!(EmbeddingProvider::Keyword.as_str(), "none");
    assert!(EmbeddingProvider::Ollama.is_semantic());
    assert!(!EmbeddingProvider::Keyword.is_semantic());
}

#[test]
fn tier_scoring_matches_spec() {
    assert_eq!(score_tier(64, "Apple M3 Max"), Tier::Pro);
    assert_eq!(score_tier(36, "Apple M3 Pro"), Tier::Standard);
    assert_eq!(score_tier(32, "Intel Core i9"), Tier::Standard);
    assert_eq!(score_tier(16, "Apple M1"), Tier::Lite);
    assert_eq!(score_tier(8, "Apple M1"), Tier::Byok);
}

#[test]
fn the_machine_is_read_off_its_profile() {
    let gib: u64 = 1 << 30;
    assert_eq!(ram_gb(16 * gib), 16);
    assert_eq!(ram_gb(16 * gib - gib / 2), 16);
    assert_eq!(ram_gb(16 * gib - gib / 2 - 1), 15);
    let profile = "Hardware:\n  Model: X\n  Chip: Apple M3 Pro\n";
    assert_eq!(detect_chip(true, Some(profile)), "Apple M3 Pro");
    let intel = "  Processor Name: Quad-Core Intel Core i7\n";
    assert_eq!(detect_chip(true, Some(intel)), "Quad-Core Intel Core i7");
    assert_eq!(detect_chip(true, Some("nothing")), "Mac");
    assert_eq!(detect_chip(true, None), "Unknown Mac");
    assert_eq!(detect_chip(false, Some(profile)), "Unknown CPU");
    let h = detect(64 * gib, true, Some("Chip: Apple M3 MAX"));
    assert_eq!(h.total_ram_gb, 64);
    assert_eq!(h.recommended_tier, Tier::Pro);
    // More memory never lowers the tier.
    let rank = |t: Tier| match t {
        Tier::Byok => 0,
        Tier::Lite => 1,
        Tier::Standard => 2,
        Tier::Pro => 3,
    };
    for gb in 0..80 {
        assert!(rank(score_tier(gb, "Apple M2 Ultra")) <= rank(score_tier(gb + 1, "Apple M2 Ultra")));
    }
}

#[test]
fn question_mark_is_ask() {
    let r = classify("Where does Sarah work?");
    assert_eq!(r.mode, Intent::Ask);
    assert!(f64::from(r.confidence_pct) / 100.0 >= 0.9);
}

#[test]
fn interrogative_opener_is_ask() {
    assert_eq!(classify("who is the CTO of Acme").mode, Intent::Ask);
    assert_eq!(classify("how many projects does John lead").mode, Intent::Ask);
}

#[test]
fn query_imperative_is_ask() {
    assert_eq!(classify("tell me about Sarah").mode, Intent::Ask);
    assert_eq!(classify("list all of John's tasks").mode, Intent::Ask);
}

#[test]
fn declarative_is_write() {
    let r = classify("Sarah is the new CTO at Acme.");
    assert_eq!(r.mode, Intent::Write);
    assert_eq!(classify("John joined Beta Corp last month").mode, Intent::Write);
}

#[test]
fn empty_defaults_to_write_low_confidence() {
    let r = classify("   ");
    assert_eq!(r.mode, Intent::Write);
    assert!(f64::from(r.confidence_pct) / 100.0 < 0.8);
}

#[test]
fn each_signal_has_its_confidence() {
    assert_eq!(classify("really?").confidence_pct, 95);
    assert_eq!(classify("Who is it").confidence_pct, 85);
    assert_eq!(classify("FIND the note").confidence_pct, 80);
    assert_eq!(classify("a plain fact").confidence_pct, 75);
    assert_eq!(classify("").confidence_pct, 50);
    assert_eq!(classify("  Who is it \n"), classify("Who is it"));
    assert_eq!(classify("«ÉTÉ» was warm").mode, Intent::Write);
}

#[test]
fn default_relation_schema_has_expected_predicates() {
    let s = default_relation_schema();
    assert!(s.find("works_at").is_some());
    assert!(s.find("founded").is_some());
    assert!(s.find("located_in").is_some());
    assert!(s.find("attended").is_some());
    assert!(s.find("depends_on").is_some());
    // A person works at an organization, not the other way round.
    let works_at = s.find("works_at").unwrap();
    assert!(works_at.allows_subject("person"));
    assert!(works_at.allows_object("organization"));
    assert!(!works_at.allows_subject("organization"));
    assert!(s.find("advocates_for").is_some());
    assert!(s.find("unheard_of").is_none());
}

#[test]
fn the_last_relation_of_a_name_counts() {
    let relation = |object: &str| RelationSpec {
        predicate: "knows".to_string(),
        subject: "person".to_string(),
        object: object.to_string(),
    };
    let s = RelationSchema { relations: vec![relation("person"), relation("topic")] };
    assert_eq!(s.find("knows").unwrap().object, "topic");
}

#[test]
fn parse_year_start_resolves_a_four_digit_year() {
    let dt = parse_year_start("joined in 2021").expect("year parsed");
    assert_eq!(dt, Timestamp { secs: 1_609_459_200, nanos: 0 });
    assert!(parse_year_start("last March").is_none());
    assert!(parse_year_start("42").is_none(), "two digits are no year");
}

#[test]
fn maps_json_into_extraction_with_tense_and_self() {
    let json = r#"{
      "entities": [
        {"name": "Me", "type": "person", "is_self": true},
        {"name": "Josh", "type": "person", "is_self": false},
        {"name": "Cloudflare", "type": "organization", "is_self": false},
        {"name": "weird", "type": "not-a-real-type", "is_self": false}
      ],
      "relations": [
        {"subject": "Josh", "predicate": "works at", "object": "Cloudflare",
         "valid_from": "2019", "valid_to": null, "current": false},
        {"subject": "Me", "predicate": "attended", "object": "Standup",
         "valid_from": null, "valid_to": null, "current": true}
      ]
    }"#;
    let ex = dto(json).into_extraction(now());

    assert_eq!(ex.entities.len(), 4);
    assert!(ex.entities.iter().any(|e| e.name == "Me" && e.is_self));
    // A type that is not known becomes the catch-all.
    assert_eq!(ex.entities.iter().find(|e| e.name == "weird").unwrap().entity_type, "topic");

    let worked = &ex.relations[0];
    assert_eq!(worked.predicate, "works_at", "the predicate is made a slug");
    assert!(worked.valid_from.is_some(), "the year 2019 is read");
    assert!(worked.valid_to.is_some(), "what is no longer so has an end");
    assert_eq!(worked.valid_to, worked.valid_from, "an end that is not given is the start");

    let attended = &ex.relations[1];
    assert!(attended.valid_to.is_none(), "what is so now has none");
}

#[test]
fn parse_when_handles_years_dates_and_today() {
    assert!(parse_when("2019", now()).is_some());
    assert!(parse_when("2026-05-20", now()).is_some());
    assert!(parse_when("today", now()).is_some());
    assert!(parse_when("sometime soon", now()).is_none());
    assert!(parse_when("", now()).is_none());
}

#[test]
fn dates_are_read_in_each_form() {
    assert_eq!(parse_when("2019", now()), Some(Timestamp { secs: 1_546_300_800, nanos: 0 }));
    assert_eq!(parse_when("2026-05-20", now()), Some(Timestamp { secs: 1_779_235_200, nanos: 0 }));
    assert_eq!(
        parse_when("2026-05-20T01:00:00+01:00", now()),
        Some(Timestamp { secs: 1_779_235_200, nanos: 0 })
    );
    assert_eq!(parse_when("Today", now()), Some(now()));
}

#[test]
fn extract_json_object_unwraps_fences_and_preamble() {
    let obj = r#"{"entities":[],"relations":[]}"#;
    assert_eq!(extract_json_object(obj), obj, "a bare object is unchanged");
    assert_eq!(
        extract_json_object("```json\n{\"entities\":[],\"relations\":[]}\n```"),
        obj,
        "a fenced object is unwrapped",
    );
    assert_eq!(
        extract_json_object("Here is the extraction:\n{\"entities\":[],\"relations\":[]}"),
        obj,
        "leading preamble is stripped",
    );
    assert_eq!(
        extract_json_object("  \n{\"entities\":[],\"relations\":[]}\nThanks!  "),
        obj,
        "trailing prose is stripped",
    );
    // No object at all: the text comes back, trimmed.
    assert_eq!(extract_json_object("  no json here  "), "no json here");
}

#[test]
fn fenced_response_deserializes() {
    let raw = "```json\n{\"entities\":[{\"name\":\"Acme\",\"type\":\"organization\",\
               \"is_self\":false}],\"relations\":[]}\n```";
    let ex = dto(extract_json_object(raw)).into_extraction(now());
    assert_eq!(ex.entities.len(), 1);
    assert_eq!(ex.entities[0].name, "Acme");
}

#[test]
fn relation_with_empty_predicate_is_dropped() {
    let json = r#"{
      "entities": [
        {"name": "A", "type": "person", "is_self": false},
        {"name": "B", "type": "person", "is_self": false}
      ],
      "relations": [
        {"subject": "A", "predicate": "-->", "object": "B", "current": true},
        {"subject": "A", "predicate": "knows", "object": "B", "current": true}
      ]
    }"#;
    let ex = dto(json).into_extraction(now());
    assert_eq!(ex.relations.len(), 1, "only the real predicate survives");
    assert_eq!(ex.relations[0].predicate, "knows");
}

#[test]
fn entity_types_are_known_or_topics() {
    assert_eq!(normalize_entity_type(" Person "), "person");
    assert_eq!(normalize_entity_type("galaxy"), "topic");
    assert!(is_entity_label("organization"));
    assert!(!is_entity_label("galaxy"));
    assert!(build_prompt("Sarah joined Acme").contains("Sarah joined Acme"));
}

fn entity(text: &str, class: &str, probability: f32) -> EntitySpan {
    EntitySpan {
        sequence_idx: 0,
        text: text.to_string(),
        class: class.to_string(),
        probability: p(probability),
    }
}

fn relation(subject: &str, predicate: &str, object: &str, probability: f32) -> RelationSpan {
    RelationSpan {
        sequence_idx: 0,
        predicate: predicate.to_string(),
        subject: subject.to_string(),
        object: object.to_string(),
        probability: p(probability),
    }
}

#[test]
fn spans_below_the_floor_are_passed_over() {
    let entities = vec![entity("Ann", "person", 0.9), entity("Mars", "place", 0.49)];
    let (kept, low) = accepted_entities(&entities);
    assert_eq!(kept.len(), 1);
    assert_eq!(low, 1);
    assert_eq!(kept[0].text, "Ann");
    let rows = vec![entities];
    let all = extract_entities(&rows);
    assert!(all.model_ready);
    assert_eq!(all.spans.len(), 2);
}

#[test]
fn every_relation_is_written_or_counted() {
    let known = vec![
        upserted(entity("Ann", "person", 0.9), "person:ann".to_string(), true),
        upserted(entity("Acme", "organization", 0.8), "organization:acme".to_string(), false),
    ];
    let relations = vec![
        relation("Ann", "works_at", "Acme", 0.7),
        relation("Ann", "works_at", "Nowhere", 0.7),
        relation("Ann", "knows", "Acme", 0.3),
    ];
    let plan = plan_facts(&relations, &known, now(), "chat-1");
    assert_eq!(plan.writes.len(), 1);
    assert_eq!(plan.skipped_unresolved_entity, 1);
    assert_eq!(plan.skipped_low_confidence, 1);
    assert_eq!(plan.writes[0].subject_id, "person:ann");
    assert_eq!(plan.writes[0].object_id, "organization:acme");
    assert_eq!(plan.writes[0].source_chat_id, "chat-1");
    let (low, unresolved) = (plan.skipped_low_confidence, plan.skipped_unresolved_entity);
    let w = plan.writes.into_iter().next().unwrap();
    let f = fact_written(w, "fact:1".to_string());
    assert_eq!(f.fact_id, "fact:1");
    assert_eq!(f.predicate, "works_at");
    assert_eq!(f.confidence, p(0.7));
    let all = run_extract_facts(known, vec![f], 2, low, unresolved);
    assert_eq!(all.entities.len(), 2);
    assert_eq!(all.facts.len(), 1);
    assert_eq!(all.skipped_low_confidence, 3);
    assert_eq!(all.skipped_unresolved_entity, 1);
}

#[test]
fn a_missing_model_says_how_to_get_it() {
    let paths = ModelPaths::under_app_dir("/f/.chat-notes");
    assert!(paths.exist(true, true));
    assert!(!paths.exist(true, false));
    let hint = model_bootstrap_hint(&paths);
    assert!(hint.contains(&paths.root));
    let missing = model_missing(&paths);
    assert!(!missing.model_ready);
    assert_eq!(missing.bootstrap_hint.as_deref(), Some(hint.as_str()));
    assert_eq!(require_model(ModelPaths::under_app_dir("/f/.chat-notes"), false).unwrap_err().message(), hint);
    assert!(require_model(paths, true).is_ok());
}

#[test]
fn probabilities_compare_as_their_numbers_do() {
    for a in [-1.5f32, -0.0, 0.0, 0.25, 0.5, 1.0, f32::INFINITY, f32::NAN] {
        for b in [-1.5f32, -0.0, 0.0, 0.25, 0.5, 1.0, f32::INFINITY, f32::NAN] {
            assert_eq!(p(a).is_less(p(b)), a < b, "{a} and {b}");
        }
    }
}

#[test]
fn spans_become_an_extraction() {
    let entities = vec![entity("Me", "person", 0.9), entity("Acme", "organization", 0.8)];
    let relations = vec![relation("Me", "works_at", "Acme", 0.9)];
    let ex = extraction_of_spans(&entities, &relations);
    assert_eq!(ex.entities.len(), 2);
    assert_eq!(ex.relations.len(), 1);
    assert_eq!(ex.relations[0].valid_to, None);
}

#[test]
fn json_is_read_and_printed() {
    let j = parse(r#"{"b":[1,-2,18446744073709551615,null,true],"a":"x\ny"}"#).unwrap();
    assert_eq!(j.get("a").and_then(Json::as_str), Some("x\ny"));
    let b = j.get("b").and_then(Json::as_array).unwrap();
    assert_eq!(b[0].as_i64(), Some(1));
    assert_eq!(b[1].as_i64(), Some(-2));
    assert_eq!(b[2].as_u64(), Some(u64::MAX));
    assert_eq!(b[2].as_i64(), None);
    assert_eq!(print(&j), r#"{"a":"x\ny","b":[1,-2,18446744073709551615,null,true]}"#);
    assert_eq!(parse("{"), None);
    assert_eq!(print(&parse("1.5").unwrap()), "1.5");
}
