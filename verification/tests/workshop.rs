//! The index, the models, the settings, and the sound of a meeting.
use sediment::asr_model::{
    all_there, asr_dir, asr_file_paths, asr_paths, asr_present, asr_staging_dir,
    check_asr_readiness, file_url, home_dir, import_candidates, import_folder, import_source,
    offline_dir, offline_paths, segmentation_model_path, speaker_dir, speaker_model_path, speaker_url,
};
use sediment::bench::{choose_input, chunk_samples, Bench, BenchInput};
use sediment::brand::Brand;
use sediment::bundled_embed;
use sediment::capture::{mixed_format, Mixer};
use sediment::capture_pipeline::{offset_ms, speaker_of, Pipeline, Segment, Utterance};
use sediment::diarization::Diarizer;
use sediment::extraction::Probability;
use sediment::formation::{
    keeps_entry, reindexes, resolve_in_formation, resolve_new, restore_last, skeleton_dirs,
    walk_notes, FoundFile,
};
use sediment::formation_state::{AppConfig, FormationState};
use sediment::ids::{fresh_id, make_id};
use sediment::indexer::{
    chunk_markdown, holds_tasks, index_formation, needs_index, note_chunks, pass_finished,
    Debouncer, NoteOutcome, CHUNK_MAX_CHARS,
};
use sediment::models::{
    check_model_readiness, download_bundled_model, downloading, fetched, model_base_url,
    ollama_models_dir, pulling, Installed, SearchBackend,
};
use sediment::settings::{
    complete_onboarding, get_agent_tone, get_conversation_engine, get_embedding_provider,
    get_models_dir, get_ollama_url, get_onboarding_state, model_of, set_agent_tone, set_conversation_engine,
    set_embedding_provider, set_models_dir, set_ollama_url, with_scheme,
};

fn list(items: &[&str]) -> Vec<String> {
    items.iter().map(|s| s.to_string()).collect()
}

fn brand() -> Brand {
    Brand { name: "Acme".to_string() }
}

fn score(f: f32) -> Probability {
    Probability { bits: f.to_bits() }
}

#[test]
fn chunk_markdown_splits_on_paragraphs() {
    let chunks = chunk_markdown("First para.\n\nSecond para.\n\nThird para.");
    // All three fit together.
    assert_eq!(chunks.len(), 1);
    assert!(chunks[0].contains("First para."));
    assert!(chunks[0].contains("Third para."));
}

#[test]
fn chunk_markdown_respects_ceiling() {
    let big = "x".repeat(1000);
    let chunks = chunk_markdown(&format!("{big}\n\n{big}"));
    assert_eq!(chunks.len(), 2, "together they exceed the ceiling");
}

#[test]
fn chunk_markdown_hard_splits_huge_paragraph() {
    let huge = "y".repeat(4000);
    let chunks = chunk_markdown(&huge);
    assert!(chunks.len() >= 3);
    assert!(chunks.iter().all(|c| c.len() <= CHUNK_MAX_CHARS));
}

#[test]
fn chunks_end_between_paragraphs() {
    let (a, b, c) = ("a".repeat(700), "b".repeat(700), "c".repeat(700));
    let note = format!("{a}\n\n{b}\n\n{c}");
    let chunks = chunk_markdown(&note);
    assert_eq!(chunks, vec![format!("{a}\n\n{b}"), c]);
    assert_eq!(chunks.join("\n\n"), note);
}

#[test]
fn short_paragraphs_stay_whole_beside_long_ones() {
    let long = "x".repeat(2000);
    let chunks = chunk_markdown(&format!("before\n\n{long}\n\nafter"));
    assert!(chunks.iter().any(|c| c.contains("before")));
    assert!(chunks.iter().any(|c| c.contains("after")));
    assert!(!chunks.iter().any(|c| c.contains(&long)));
}

#[test]
fn chunk_markdown_empty_input_yields_nothing() {
    assert!(chunk_markdown("").is_empty());
    assert!(chunk_markdown("\n\n   \n\n").is_empty());
}

#[test]
fn chunks_hold_all_that_is_written() {
    let note = format!("{}\n\nshort\n\n{}", "é".repeat(2000), "z".repeat(1400));
    let chunks = chunk_markdown(&note);
    assert!(chunks.iter().all(|c| c.len() <= CHUNK_MAX_CHARS));
    let said: String = chunks.concat().chars().filter(|c| !c.is_whitespace()).collect();
    let written: String = note.chars().filter(|c| !c.is_whitespace()).collect();
    assert_eq!(said, written);
    let numbered = note_chunks("A.md", &note);
    assert_eq!(numbered.len(), chunks.len());
    assert!(numbered.iter().enumerate().all(|(i, c)| c.chunk_idx == i && c.text == chunks[i]));
    assert!(holds_tasks("Tasks.md"));
    assert!(!holds_tasks("People/Tasks.md"));
}

#[test]
fn a_flurry_of_edits_counts_once() {
    let mut d = Debouncer::default();
    d.request("A.md", 0);
    d.request("A.md", 1000);
    d.request("B.md", 100);
    assert_eq!(d.tick(1599), list(&[]));
    assert_eq!(d.tick(1600), list(&["B.md"]));
    assert_eq!(d.tick(2499), list(&[]));
    assert_eq!(d.tick(2500), list(&["A.md"]));
    assert_eq!(d.tick(9999), list(&[]));
}

#[test]
fn a_pass_counts_what_it_did() {
    assert!(needs_index(true, 5, Some(5)));
    assert!(!needs_index(false, 5, Some(5)));
    assert!(needs_index(false, 6, Some(5)));
    assert!(needs_index(false, 5, None));
    let r = index_formation(&vec![
        NoteOutcome::Indexed,
        NoteOutcome::Failed,
        NoteOutcome::Indexed,
        NoteOutcome::Skipped,
    ]);
    assert_eq!((r.total, r.indexed, r.skipped, r.failed), (4, 2, 1, 1));
    let p = pass_finished(4);
    assert_eq!((p.done, p.total), (4, 4));
}

#[test]
fn notes_come_latest_first() {
    let found = |path: &str, t: Option<i64>| FoundFile { path: path.to_string(), modified_secs: t };
    let notes = walk_notes(&vec![
        found("old.md", Some(1)),
        found("pic.png", Some(9)),
        found("new.md", Some(5)),
    ]);
    let paths: Vec<&str> = notes.iter().map(|n| n.relative_path.as_str()).collect();
    assert_eq!(paths, vec!["new.md", "old.md"]);
    assert!(!keeps_entry(true, ".chat-notes"));
    assert!(keeps_entry(true, "People"));
    assert!(reindexes("A.md") && !reindexes("A.png"));
}

#[test]
fn paths_stay_in_the_formation() {
    assert_eq!(resolve_in_formation("/f/People/A.md", "/f", false).unwrap(), "/f/People/A.md");
    assert!(resolve_in_formation("/g/A.md", "/f", false).is_err());
    assert!(resolve_in_formation("/f2/A.md", "/f", false).is_err(), "a sibling is outside");
    assert_eq!(resolve_new("/f/People", "/f/People/B.md", false).unwrap(), "/f/People/B.md");
    // On Windows a backslash separates.
    let note = r"\\?\C:\f\People\A.md";
    assert_eq!(resolve_in_formation(note, r"\\?\C:\f", true).unwrap(), note);
    assert!(resolve_in_formation(note, r"\\?\C:\f", false).is_err());
    assert!(resolve_in_formation(r"\\?\C:\f2\A.md", r"\\?\C:\f", true).is_err());
    assert_eq!(
        resolve_new(r"\\?\C:\f\People", r"C:\f\People/B.md", true).unwrap(),
        r"\\?\C:\f\People\B.md"
    );
    assert_eq!(
        resolve_new(r"\\?\C:\f", r"C:\f\B.md", true).unwrap(),
        r"\\?\C:\f\B.md"
    );
}

#[test]
fn the_last_formation_is_restored() {
    assert_eq!(restore_last(Some("/f".to_string()), true), (Some("/f".to_string()), false));
    assert_eq!(restore_last(Some("/f".to_string()), false), (None, true));
    assert_eq!(restore_last(None, true), (None, false));
    assert_eq!(skeleton_dirs("/f").len(), 3);
    let mut s = FormationState::default();
    assert!(s.require().is_err());
    s.set("/f".to_string());
    assert_eq!(s.require().unwrap(), "/f");
    assert_eq!(s.get().as_deref(), Some("/f"));
}

#[test]
fn settings_are_read_back() {
    let mut cfg = AppConfig::default();
    assert_eq!(get_agent_tone(&cfg), "warm");
    set_agent_tone(&mut cfg, " stoic ").unwrap();
    assert_eq!(get_agent_tone(&cfg), "stoic");
    assert!(set_agent_tone(&mut cfg, "grumpy").is_err());
    assert_eq!(get_agent_tone(&cfg), "stoic");

    assert_eq!(get_conversation_engine(&cfg, &brand()).engine, "acme-code");
    set_conversation_engine(&mut cfg, " copilot ", Some(" gpt-5 "), &brand()).unwrap();
    let e = get_conversation_engine(&cfg, &brand());
    assert_eq!(e.engine, "copilot");
    assert_eq!(e.copilot_model.as_deref(), Some("gpt-5"));
    assert_eq!(model_of(&cfg, &brand()), "gpt-5");
    set_conversation_engine(&mut cfg, "acme-code", None, &brand()).unwrap();
    assert_eq!(get_conversation_engine(&cfg, &brand()).engine, "acme-code");
    assert_eq!(model_of(&cfg, &brand()), "sonnet");
    let err = set_conversation_engine(&mut cfg, "other", None, &brand()).unwrap_err();
    assert!(err.message().contains("(expected \"acme-code\" or \"copilot\")"));

    assert_eq!(get_embedding_provider(&cfg), "ollama");
    set_embedding_provider(&mut cfg, "none").unwrap();
    assert_eq!(get_embedding_provider(&cfg), "none");
    assert!(set_embedding_provider(&mut cfg, "banana").is_err());

    set_models_dir(&mut cfg, Some("  /m "));
    assert_eq!(get_models_dir(&cfg).as_deref(), Some("/m"));
    set_models_dir(&mut cfg, Some("   "));
    assert_eq!(get_models_dir(&cfg), None);
    set_ollama_url(&mut cfg, Some(Ok("http://h".to_string()))).unwrap();
    assert_eq!(cfg.ollama_url.as_deref(), Some("http://h"));
    assert_eq!(get_ollama_url(&cfg, None).as_deref(), Some("http://h"));
    assert_eq!(get_ollama_url(&cfg, Some("  ")).as_deref(), Some("http://h"));
    assert_eq!(get_ollama_url(&cfg, Some(" http://forced ")).as_deref(), Some("http://forced"));
    assert!(set_ollama_url(&mut cfg, Some(Err("bad".to_string()))).is_err());
    assert_eq!(with_scheme("dockerhost:11434"), "http://dockerhost:11434");
    assert_eq!(with_scheme("https://h"), "https://h");
    set_ollama_url(&mut cfg, None).unwrap();
    assert_eq!(cfg.ollama_url, None);

    assert!(!get_onboarding_state(&cfg).complete);
    complete_onboarding(&mut cfg);
    assert!(get_onboarding_state(&cfg).complete);
}

#[test]
fn models_are_ready_or_named() {
    let none = Installed { model: false, runtime: false, ollama: false, local: vec![] };
    let keyword = check_model_readiness(SearchBackend::Keyword, &none);
    assert!(keyword.all_present);
    assert!(keyword.requirements.is_empty());
    let ollama = check_model_readiness(SearchBackend::Ollama, &none);
    assert!(!ollama.all_present);
    let with = Installed {
        model: false,
        runtime: false,
        ollama: true,
        local: list(&["nomic-embed-text:latest"]),
    };
    assert!(check_model_readiness(SearchBackend::Ollama, &with).all_present);
    assert_eq!(SearchBackend::from_config(Some("bundled")), SearchBackend::Bundled);
    assert_eq!(SearchBackend::Bundled.as_str(), "bundled");
}

#[test]
fn progress_is_told() {
    let p = pulling("m", "verifying", None, Some(9));
    assert_eq!((p.phase.as_str(), p.completed, p.total, p.done), ("verifying", 0, 9, false));
    let d = downloading("a.onnx", 3, 9);
    assert_eq!(d.phase, "downloading a.onnx");
    let f = fetched("m");
    assert!(f.done && f.phase == "complete");
    let cfg = AppConfig::default();
    assert_eq!(model_base_url(Some("http://mirror/"), &cfg), "http://mirror");
    assert!(model_base_url(None, &cfg).starts_with("https://huggingface.co/"));
    assert_eq!(ollama_models_dir(&cfg), None);
    let files = download_bundled_model("http://mirror", "/s");
    assert!(files.iter().all(|(url, dest)| url.starts_with("http://mirror/") && dest.starts_with("/s/")));
}

#[test]
fn speech_models_have_their_places() {
    assert_eq!(home_dir(Some("/home/x"), None), "/home/x");
    let there = vec![true; 4];
    assert_eq!(asr_file_paths("/home/x").len(), 4);
    assert!(asr_present(&there));
    assert!(!all_there(&vec![true, false]));
    let p = asr_paths("/home/x", &there).unwrap();
    assert_eq!(p.provider, "cpu");
    assert!(p.encoder.starts_with(&asr_dir("/home/x")));
    assert!(asr_paths("/home/x", &vec![true, true, false, true]).is_err());
    assert!(offline_paths("/home/x", &there).unwrap().tokens.starts_with(&offline_dir("/home/x")));
    assert!(speaker_model_path("/home/x", true).unwrap().starts_with(&speaker_dir("/home/x")));
    assert!(speaker_model_path("/home/x", false).is_err());
    assert!(segmentation_model_path("/home/x", false).is_err());
    assert_ne!(asr_staging_dir("/home/x"), asr_dir("/home/x"));
    assert_eq!(speaker_url(Some("http://m/s.onnx")), "http://m/s.onnx");
    assert_eq!(file_url("http://m", "a.onnx"), "http://m/a.onnx");
    assert!(check_asr_readiness(true, true).all_present);
    assert!(!check_asr_readiness(true, false).all_present);
}

#[test]
fn imports_look_one_folder_down() {
    let c = import_candidates("/in", &list(&["/in/one", "/in/two"]), "tokens.txt");
    assert_eq!(c, list(&["/in/tokens.txt", "/in/one/tokens.txt", "/in/two/tokens.txt"]));
    let files = list(&["tokens.txt", "encoder.onnx"]);
    assert_eq!(
        import_source(&c, &vec![false, false, true], "tokens.txt", &files).unwrap(),
        "/in/two/tokens.txt"
    );
    assert_eq!(
        import_source(&c, &vec![false; 3], "tokens.txt", &files).unwrap_err().message(),
        "Model folder is missing tokens.txt. It must contain tokens.txt, encoder.onnx."
    );
    assert_eq!(import_folder("  /in ", true).unwrap(), "/in");
    assert_eq!(import_folder("/in", false).unwrap_err().message(), "Not a folder: /in");
    assert_eq!(
        bundled_embed::import_candidates("/in", "onnx/model.onnx"),
        list(&["/in/onnx/model.onnx", "/in/model.onnx"])
    );
    assert!(bundled_embed::unreadable("config.json", "gone").message().contains("config.json (gone)"));
}

// ---------------------------------------------------------------------------
// Sound
// ---------------------------------------------------------------------------

fn mix(pairs: Vec<(u32, u32)>) -> Vec<f32> {
    pairs
        .into_iter()
        .map(|(a, b)| ((f32::from_bits(a) + f32::from_bits(b)) * 0.5).clamp(-1.0, 1.0))
        .collect()
}

fn bits(samples: &[f32]) -> Vec<u32> {
    samples.iter().map(|s| s.to_bits()).collect()
}

#[test]
fn mixer_is_mic_driven_and_folds_in_loopback() {
    let mut m = Mixer::default();
    m.push_a(&bits(&[1.0, 1.0, 1.0]));
    m.push_b(&bits(&[1.0, 1.0]));
    // The microphone sets the length; the other side is silent where it has nothing.
    assert_eq!(mix(m.drain()), vec![1.0, 1.0, 0.5]);
    m.push_a(&bits(&[0.0]));
    m.push_b(&bits(&[1.0]));
    assert_eq!(mix(m.drain()), vec![0.5]);
}

#[test]
fn the_other_side_waits_for_the_microphone() {
    let mut m = Mixer::default();
    m.push_b(&bits(&[0.5, 0.25]));
    assert!(m.drain().is_empty(), "without the microphone nothing comes out");
    m.push_a(&bits(&[0.0]));
    assert_eq!(mix(m.drain()), vec![0.25]);
    // What piles up is cut from the front.
    m.push_b(&vec![0u32; 80_000]);
    m.push_a(&bits(&[1.0]));
    assert_eq!(mix(m.drain()), vec![0.5]);
    assert_eq!(mixed_format().channels, 1);
    assert_eq!(mixed_format().sample_rate, 16_000);
}

#[test]
fn pipeline_resamples_and_emits_segments() {
    // Three seconds in half-second chunks; a final utterance each second.
    let mut p = Pipeline::new("Unknown speaker 1");
    let mut got: Vec<Segment> = Vec::new();
    for i in 0..6 {
        let heard = if i % 2 == 1 {
            vec![Utterance { text: format!("segment {i}"), is_final: true }]
        } else {
            vec![]
        };
        got.extend(p.accept(8_000, &heard));
    }
    got.extend(p.finish(&vec![]));
    assert!((2..=4).contains(&got.len()), "got {got:?}");
    assert!(got.windows(2).all(|w| w[0].offset_ms <= w[1].offset_ms));
    assert!(got.iter().all(|s| s.speaker == "Unknown speaker 1"));
}

#[test]
fn segments_are_placed_in_time() {
    assert_eq!(offset_ms(16_000), 1000);
    assert_eq!(offset_ms(8), 0);
    let mut p = Pipeline::new("Unknown speaker 1");
    let heard = |text: &str, is_final: bool| Utterance { text: text.to_string(), is_final };
    let out = p.accept(8_000, &vec![heard("hel", false), heard("hello", true)]);
    assert_eq!(
        out,
        vec![Segment {
            offset_ms: 500,
            speaker: "Unknown speaker 1".to_string(),
            text: "hello".to_string(),
        }]
    );
    let rest = p.finish(&vec![heard("bye", false)]);
    assert_eq!(rest.len(), 1);
    assert_eq!(rest[0].offset_ms, 500);
    assert_eq!(speaker_of(Some("Ann".to_string()), "Unknown speaker 1"), "Ann");
    assert_eq!(speaker_of(None, "Unknown speaker 1"), "Unknown speaker 1");
}

#[test]
fn voices_are_told_apart() {
    let mut d = Diarizer::new(&list(&["Ann"]));
    // A voice like none before gets a name of its own.
    let near = d.nearest(&vec![score(0.1)]);
    let a = d.assign_embedding(near, &vec![score(0.1)], false);
    assert!(a.fresh);
    assert_eq!(a.label, "Unknown speaker 1");
    // One that is near a known voice is that voice.
    let scores = vec![score(0.9), score(0.2)];
    let near = d.nearest(&scores);
    let b = d.assign_embedding(near, &scores, false);
    assert_eq!(b.label, "Ann");
    assert!(!b.fresh);
    // Near ties stay with whoever spoke last.
    let tie = vec![score(0.60), score(0.61)];
    let near = d.nearest(&tie);
    assert_eq!(d.assign_embedding(near, &tie, true).label, "Ann");
    // Too short to tell: whoever spoke last.
    assert_eq!(d.assign_silent(), "Ann");
    d.apply_relabels(&vec![("Unknown speaker 1".to_string(), "Bob".to_string())]);
    let scores = vec![score(0.1), score(0.8)];
    let near = d.nearest(&scores);
    assert_eq!(d.assign_embedding(near, &scores, false).label, "Bob");
    let far = vec![score(0.1), score(0.1)];
    let near = d.nearest(&far);
    assert_eq!(d.assign_embedding(near, &far, false).label, "Unknown speaker 2");
    // Where two voices have one name, the first stands for it.
    d.apply_relabels(&vec![("Unknown speaker 2".to_string(), "Bob".to_string())]);
    assert_eq!(d.first_labelled("Bob"), Some(1));
    assert_eq!(d.first_labelled("Ann"), Some(0));
    assert_eq!(d.first_labelled("Unknown speaker 2"), None);
}

#[test]
fn a_bench_run_is_measured() {
    let mut b = Bench::default();
    b.start(100);
    b.record_feed(5, 1600, "", 110);
    b.record_feed(9, 1600, "hel", 130);
    b.record_feed(7, 1600, "hello", 150);
    assert_eq!(b.first_partial(), Some(30));
    assert_eq!(b.compute(), 21);
    assert_eq!(b.samples(), 4800);
    assert_eq!(b.steps(), 3);
    assert_eq!(b.percentile(50), 7);
    assert_eq!(b.percentile(100), 9);
    assert_eq!(chunk_samples(100), 1600);
    assert!(matches!(choose_input(Some("a.wav".to_string()), false), Ok(BenchInput::Wav(_))));
    assert!(matches!(choose_input(None, true), Ok(BenchInput::Mic)));
    assert!(choose_input(None, false).is_err());
}

#[test]
fn ids_are_made_of_time_and_chance() {
    assert_eq!(make_id("turn_", "20260522T101500Z", "ab12cd"), "turn_20260522T101500Z_ab12cd");
    let id = fresh_id("turn_");
    assert!(id.starts_with("turn_20"));
    assert_ne!(id, fresh_id("turn_"));
}
