//! The model that notes are searched with: is it there, and how it is fetched.
use vstd::prelude::*;
use crate::asr_model;
use crate::bundled_embed;
use crate::embedding::EmbeddingProvider;
use crate::embedding;
use crate::formation_state::AppConfig;
use crate::paths;
use crate::text;

verus! {

broadcast use vstd::string::group_string_axioms;

/// The model that Ollama searches notes with.
pub const DEFAULT_EMBED_MODEL: &'static str = "nomic-embed-text";

/// Where the model that is kept on the machine comes from.
pub const DEFAULT_MODEL_BASE_URL: &'static str = "https://huggingface.co/nomic-ai/nomic-embed-text-v1.5/resolve/main";

/// A model that Ollama has.
#[derive(Debug, PartialEq, Eq)]
pub struct ModelSummary {
    pub name: String,
    pub size: u64,
    pub modified_at: String,
}

/// A model that is needed, and whether it is there.
#[derive(Debug, PartialEq, Eq)]
pub struct ModelRequirement {
    /// `embed`.
    pub kind: String,
    pub id: String,
    pub label: String,
    pub size_hint: String,
    pub present: bool,
}

/// Whether notes can be searched.
#[derive(Debug, PartialEq, Eq)]
pub struct ModelReadiness {
    /// `ollama`, `bundled` or `none`.
    pub provider: String,
    pub ollama_installed: bool,
    pub requirements: Vec<ModelRequirement>,
    pub all_present: bool,
}

/// How far a model has been fetched.
#[derive(Debug, PartialEq, Eq)]
pub struct ModelProgress {
    pub model: String,
    pub phase: String,
    pub completed: u64,
    pub total: u64,
    pub done: bool,
}

/// What notes are searched with.
#[derive(Clone, Copy, Debug, PartialEq, Eq, Structural)]
pub enum SearchBackend {
    /// A model that Ollama runs.
    Ollama,
    /// A model that is kept on the machine.
    Bundled,
    /// No model: by their words.
    Keyword,
}

/// What notes are searched with, by the configured name.
pub open spec fn backend_named(value: Option<Seq<char>>) -> SearchBackend {
    if value matches Some(s) && text::trimmed(s) == "bundled"@ {
        SearchBackend::Bundled
    } else {
        match embedding::provider_named(value) {
            EmbeddingProvider::Ollama => SearchBackend::Ollama,
            EmbeddingProvider::Keyword => SearchBackend::Keyword,
        }
    }
}

/// A backend's name.
pub open spec fn backend_text(b: SearchBackend) -> Seq<char> {
    match b {
        SearchBackend::Ollama => "ollama"@,
        SearchBackend::Bundled => "bundled"@,
        SearchBackend::Keyword => "none"@,
    }
}

impl SearchBackend {
    /// What notes are searched with, by the configured name.
    pub fn from_config(value: Option<&str>) -> (r: SearchBackend)
        ensures
            r == backend_named(text::opt_str(value)),
    {
        let bundled = match value {
            Some(s) => text::same(text::trim(s), "bundled"),
            None => false,
        };
        if bundled {
            SearchBackend::Bundled
        } else {
            match EmbeddingProvider::from_config(value) {
                EmbeddingProvider::Ollama => SearchBackend::Ollama,
                EmbeddingProvider::Keyword => SearchBackend::Keyword,
            }
        }
    }

    /// The backend's name.
    pub fn as_str(self) -> (r: &'static str)
        ensures
            r@ == backend_text(self),
    {
        match self {
            SearchBackend::Ollama => "ollama",
            SearchBackend::Bundled => "bundled",
            SearchBackend::Keyword => "none",
        }
    }
}

/// Where Ollama is to keep its models: below the configured folder, or where it
/// likes.
pub fn ollama_models_dir(cfg: &AppConfig) -> (r: Option<String>)
    ensures
        text::opt_text(r) == match cfg.models_dir {
            Some(d) => Some(paths::joined_path(d@, "ollama"@)),
            None => None,
        },
{
    match &cfg.models_dir {
        Some(d) => Some(paths::join(d.as_str(), "ollama")),
        None => None,
    }
}

/// What a requirement says.
pub struct RequirementView {
    pub id: Seq<char>,
    pub label: Seq<char>,
    pub size_hint: Seq<char>,
    pub present: bool,
}

/// What a requirement says; all are of one kind.
pub open spec fn requirement_is(r: ModelRequirement, v: RequirementView) -> bool {
    r.kind@ == "embed"@ && r.id@ == v.id && r.label@ == v.label && r.size_hint@ == v.size_hint
        && r.present == v.present
}

fn requirement(id: &str, label: &str, size_hint: &str, present: bool) -> (r: ModelRequirement)
    ensures
        requirement_is(
            r,
            RequirementView { id: id@, label: label@, size_hint: size_hint@, present },
        ),
{
    ModelRequirement {
        kind: "embed".to_owned(),
        id: id.to_owned(),
        label: label.to_owned(),
        size_hint: size_hint.to_owned(),
        present,
    }
}

/// What is known of the machine.
#[derive(Debug, PartialEq, Eq)]
pub struct Installed {
    /// Whether the model on the machine is there.
    pub model: bool,
    /// Whether what runs it is there.
    pub runtime: bool,
    pub ollama: bool,
    /// The models that Ollama has.
    pub local: Vec<String>,
}

/// Ollama has the model: under its name, or as its latest version.
pub open spec fn has_model(local: Seq<Seq<char>>, name: Seq<char>) -> bool {
    local.contains(name) || local.contains(name + ":latest"@)
}

/// What notes need to be searched with the model on the machine: the model, and
/// what runs it where that is missing.
pub open spec fn bundled_needs(i: Installed) -> Seq<RequirementView> {
    let model = RequirementView {
        id: "nomic-embed-text-v1.5"@,
        label: "On-device embedding model · nomic-embed-text-v1.5"@,
        size_hint: "~0.5 GB"@,
        present: i.model,
    };
    let runtime = RequirementView {
        id: "onnxruntime"@,
        label: "On-device runtime · ONNX Runtime"@,
        size_hint: "~25 MB"@,
        present: false,
    };
    if i.runtime {
        seq![model]
    } else {
        seq![model, runtime]
    }
}

/// What notes need to be searched.
pub open spec fn needs(b: SearchBackend, i: Installed) -> Seq<RequirementView> {
    match b {
        SearchBackend::Keyword => Seq::empty(),
        SearchBackend::Bundled => bundled_needs(i),
        SearchBackend::Ollama => seq![
            RequirementView {
                id: DEFAULT_EMBED_MODEL@,
                label: "Embedding model · nomic-embed-text"@,
                size_hint: "~0.3 GB"@,
                present: has_model(text::texts(i.local@), DEFAULT_EMBED_MODEL@),
            },
        ],
    }
}

/// Whether notes can be searched, with what is configured and what is on the
/// machine. Everything is there exactly if each requirement is.
pub fn check_model_readiness(backend: SearchBackend, installed: &Installed) -> (r: ModelReadiness)
    ensures
        r.provider@ == backend_text(backend),
        r.ollama_installed == (backend == SearchBackend::Ollama && installed.ollama),
        r.requirements@.len() == needs(backend, *installed).len(),
        forall|i: int|
            0 <= i < r.requirements@.len() ==> requirement_is(
                #[trigger] r.requirements@[i],
                needs(backend, *installed)[i],
            ),
        r.all_present == forall|i: int|
            0 <= i < needs(backend, *installed).len() ==> (#[trigger] needs(
                backend,
                *installed,
            )[i]).present,
{
    let provider = backend.as_str().to_owned();
    match backend {
        SearchBackend::Keyword => ModelReadiness {
            provider,
            ollama_installed: false,
            requirements: Vec::new(),
            all_present: true,
        },
        SearchBackend::Bundled => {
            let model = requirement(
                "nomic-embed-text-v1.5",
                "On-device embedding model · nomic-embed-text-v1.5",
                "~0.5 GB",
                installed.model,
            );
            let mut requirements: Vec<ModelRequirement> = vec![model];
            if !installed.runtime {
                requirements.push(
                    requirement("onnxruntime", "On-device runtime · ONNX Runtime", "~25 MB", false),
                );
            }
            let ghost all = needs(backend, *installed);
            proof {
                assert(all[0].present == installed.model);
                if !installed.runtime {
                    assert(!all[1].present);
                }
            }
            ModelReadiness {
                provider,
                ollama_installed: false,
                requirements,
                all_present: installed.model && installed.runtime,
            }
        },
        SearchBackend::Ollama => {
            let latest = "nomic-embed-text:latest";
            proof {
                reveal_strlit("nomic-embed-text");
                reveal_strlit(":latest");
                reveal_strlit("nomic-embed-text:latest");
                assert(latest@ =~= DEFAULT_EMBED_MODEL@ + ":latest"@);
            }
            let there = text::list_has(&installed.local, DEFAULT_EMBED_MODEL) || text::list_has(
                &installed.local,
                latest,
            );
            let one = requirement(
                DEFAULT_EMBED_MODEL,
                "Embedding model · nomic-embed-text",
                "~0.3 GB",
                there,
            );
            let requirements: Vec<ModelRequirement> = vec![one];
            let ghost all = needs(backend, *installed);
            assert(all[0].present == there);
            ModelReadiness {
                provider,
                ollama_installed: installed.ollama,
                requirements,
                all_present: there,
            }
        },
    }
}

/// Where the model on the machine comes from: what `SEDIMENT_MODEL_BASE_URL`
/// says, else what is configured, else the default.
pub fn model_base_url(set: Option<&str>, cfg: &AppConfig) -> (r: String)
    ensures
        r@ == asr_model::base_or(
            text::opt_str(set),
            asr_model::base_or(text::opt_text(cfg.bundled_model_url), DEFAULT_MODEL_BASE_URL@),
        ),
{
    let configured = match &cfg.bundled_model_url {
        Some(u) => asr_model::pick_base(Some(u.as_str()), DEFAULT_MODEL_BASE_URL),
        None => asr_model::pick_base(None, DEFAULT_MODEL_BASE_URL),
    };
    asr_model::pick_base(set, configured.as_str())
}

/// How far Ollama has fetched a model.
pub fn pulling(model: &str, message: &str, completed: Option<u64>, total: Option<u64>) -> (r:
    ModelProgress)
    ensures
        r.model@ == model@,
        r.phase@ == message@,
        r.completed == match completed {
            Some(n) => n,
            None => 0u64,
        },
        r.total == match total {
            Some(n) => n,
            None => 0u64,
        },
        !r.done,
{
    ModelProgress {
        model: model.to_owned(),
        phase: message.to_owned(),
        completed: match completed {
            Some(n) => n,
            None => 0,
        },
        total: match total {
            Some(n) => n,
            None => 0,
        },
        done: false,
    }
}

/// How far a file has been fetched.
pub fn downloading(file: &str, completed: u64, total: u64) -> (r: ModelProgress)
    ensures
        r.model@ == file@,
        r.phase@ == "downloading "@ + file@,
        r.completed == completed,
        r.total == total,
        !r.done,
{
    let mut phase = String::from_str("downloading ");
    phase.append(file);
    ModelProgress { model: file.to_owned(), phase, completed, total, done: false }
}

/// A model that has been fetched.
pub fn fetched(model: &str) -> (r: ModelProgress)
    ensures
        r.model@ == model@,
        r.phase@ == "complete"@,
        r.completed == 0,
        r.total == 0,
        r.done,
{
    ModelProgress {
        model: model.to_owned(),
        phase: "complete".to_owned(),
        completed: 0,
        total: 0,
        done: true,
    }
}

/// The model on the machine, file by file: where each comes from and where it is
/// put together.
pub fn download_bundled_model(base: &str, staging: &str) -> (r: Vec<(String, String)>)
    ensures
        r@.len() == 5,
        forall|i: int|
            0 <= i < 5 ==> (#[trigger] r@[i]).0@ == base@ + "/"@ + bundled_embed::MODEL_FILES[i]@
                && r@[i].1@ == paths::joined_path(staging@, bundled_embed::MODEL_FILES[i]@),
{
    let mut out: Vec<(String, String)> = Vec::new();
    let mut i: usize = 0;
    while i < 5
        invariant
            i <= 5,
            out@.len() == i,
            forall|k: int|
                0 <= k < i ==> (#[trigger] out@[k]).0@ == base@ + "/"@
                    + bundled_embed::MODEL_FILES[k]@ && out@[k].1@ == paths::joined_path(
                    staging@,
                    bundled_embed::MODEL_FILES[k]@,
                ),
        decreases 5 - i,
    {
        let file = bundled_embed::MODEL_FILES[i];
        let pair = (asr_model::file_url(base, file), paths::join(staging, file));
        out.push(pair);
        i += 1;
    }
    out
}

/// Notes searched by their words need no model.
pub proof fn law_keyword_search_is_always_ready(i: Installed)
    ensures
        needs(SearchBackend::Keyword, i).len() == 0,
{
}

/// Notes are searched with what the configuration names, and with Ollama where it names
/// nothing.
pub proof fn law_names_choose_their_backend(s: Seq<char>)
    ensures
        backend_named(Some(s)) == SearchBackend::Bundled <==> text::trimmed(s) == "bundled"@,
        backend_named(Some(s)) == SearchBackend::Keyword <==> text::trimmed(s) == "none"@
            || text::trimmed(s) == "keyword"@,
        backend_named(None) == SearchBackend::Ollama,
{
    reveal_strlit("bundled");
    reveal_strlit("none");
    reveal_strlit("keyword");
    assert("bundled"@[0] == 'b');
    assert("none"@.len() == 4);
    assert("keyword"@[0] == 'k');
}

/// A model is there just where Ollama has it under its name or as its latest version, and
/// the one on the machine just where its files and what runs it are.
pub proof fn law_ready_means_that_the_model_is_there(i: Installed)
    ensures
        ({
            let asked = needs(SearchBackend::Ollama, i);
            &&& asked.len() == 1
            &&& asked[0].present <==> text::texts(i.local@).contains("nomic-embed-text"@)
                || text::texts(i.local@).contains("nomic-embed-text"@ + ":latest"@)
        }),
        ({
            let asked = needs(SearchBackend::Bundled, i);
            (forall|k: int| 0 <= k < asked.len() ==> (#[trigger] asked[k]).present) <==> i.model
                && i.runtime
        }),
{
    let asked = needs(SearchBackend::Bundled, i);
    assert(asked[0].present == i.model);
    if !i.runtime {
        assert(!asked[1].present);
    }
}

/// What is needed is told by its own id, label and size, and whether it is there.
pub proof fn law_requirements_say_what_is_needed(r: ModelRequirement, v: RequirementView)
    ensures
        requirement_is(r, v) ==> r.kind@ == "embed"@,
        requirement_is(r, v) ==> v == (RequirementView {
            id: r.id@,
            label: r.label@,
            size_hint: r.size_hint@,
            present: r.present,
        }),
{
}

} // verus!
