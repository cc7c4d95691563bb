//! The settings: which engine, model, tone and search backend are chosen.
use vstd::prelude::*;
use crate::agent_tone::AgentTone;
use crate::agent_tone;
use crate::brand::Brand;
use crate::claude_code;
use crate::copilot;
use crate::embedding::EmbeddingProvider;
use crate::embedding;
use crate::error::AppError;
use crate::formation_state::AppConfig;
use crate::text;

verus! {

broadcast use vstd::string::group_string_axioms;

/// The text, trimmed, if anything is left of it.
pub open spec fn trimmed_choice(o: Option<Seq<char>>) -> Option<Seq<char>> {
    match o {
        Some(s) => if text::trimmed(s).len() == 0 {
            None
        } else {
            Some(text::trimmed(s))
        },
        None => None,
    }
}

/// The text, trimmed, if anything is left of it.
pub fn trim_choice(o: Option<&str>) -> (r: Option<String>)
    ensures
        text::opt_text(r) == trimmed_choice(text::opt_str(o)),
{
    match o {
        Some(s) => {
            let t = text::trim(s);
            if t.is_empty() {
                None
            } else {
                Some(t.to_owned())
            }
        },
        None => None,
    }
}

/// Sets the models directory; nothing, or white space, clears it.
pub fn set_models_dir(cfg: &mut AppConfig, dir: Option<&str>)
    ensures
        text::opt_text(final(cfg).models_dir) == trimmed_choice(text::opt_str(dir)),
        *final(cfg) == (AppConfig { models_dir: final(cfg).models_dir, ..*old(cfg) }),
{
    cfg.models_dir = trim_choice(dir);
}

/// The models directory, if one is configured.
pub fn get_models_dir(cfg: &AppConfig) -> (r: Option<String>)
    ensures
        text::opt_text(r) == text::opt_text(cfg.models_dir),
{
    copy_choice(&cfg.models_dir)
}

/// The search backend, as the settings show it.
pub fn get_embedding_provider(cfg: &AppConfig) -> (r: String)
    ensures
        r@ == embedding::provider_text(
            embedding::provider_named(text::opt_text(cfg.embedding_provider)),
        ),
{
    let p = match &cfg.embedding_provider {
        Some(s) => EmbeddingProvider::from_config(Some(s.as_str())),
        None => EmbeddingProvider::from_config(None),
    };
    p.as_str().to_owned()
}

/// The name a search backend is kept under.
pub open spec fn provider_setting(s: Seq<char>) -> Option<Seq<char>> {
    let t = text::trimmed(s);
    if t == "ollama"@ {
        Some("ollama"@)
    } else if t == "bundled"@ {
        Some("bundled"@)
    } else if t == "none"@ || t == "keyword"@ {
        Some("none"@)
    } else {
        None
    }
}

/// Chooses the search backend: `ollama`, `bundled` or `none`, for which
/// `keyword` is another name. Any other is refused, and nothing changes.
pub fn set_embedding_provider(cfg: &mut AppConfig, provider: &str) -> (r: Result<(), AppError>)
    ensures
        match provider_setting(provider@) {
            Some(p) => r is Ok && text::opt_text(final(cfg).embedding_provider) == Some(p)
                && *final(cfg) == (AppConfig {
                embedding_provider: final(cfg).embedding_provider,
                ..*old(cfg)
            }),
            None => r is Err && *final(cfg) == *old(cfg) && r->Err_0.text()
                == "unknown embedding provider: "@ + text::trimmed(provider@)
                + " (expected \"ollama\", \"bundled\", or \"none\")"@,
        },
{
    let t = text::trim(provider);
    let normalized = if text::same(t, "ollama") {
        "ollama"
    } else if text::same(t, "bundled") {
        "bundled"
    } else if text::same(t, "none") || text::same(t, "keyword") {
        "none"
    } else {
        let mut m = String::from_str("unknown embedding provider: ");
        m.append(t);
        m.append(" (expected \"ollama\", \"bundled\", or \"none\")");
        return Err(AppError::Other(m));
    };
    cfg.embedding_provider = Some(normalized.to_owned());
    Ok(())
}

/// The endpoint of the Ollama that the user runs, `None` where the local one is
/// used. One that the environment forces takes precedence over the configured one,
/// unless it is blank.
pub fn get_ollama_url(cfg: &AppConfig, forced: Option<&str>) -> (r: Option<String>)
    ensures
        text::opt_text(r) == match text::opt_str(forced) {
            Some(u) if text::trimmed(u).len() > 0 => Some(text::trimmed(u)),
            _ => text::opt_text(cfg.ollama_url),
        },
{
    match forced {
        Some(u) => {
            let t = text::trim(u);
            if !t.is_empty() {
                return Some(t.to_owned());
            }
        },
        None => {},
    }
    match &cfg.ollama_url {
        Some(u) => Some(u.clone()),
        None => None,
    }
}

/// The endpoint with its scheme: `http://` where none is given, so that
/// `dockerhost:11434` is `http://dockerhost:11434`.
pub fn with_scheme(raw: &str) -> (r: String)
    ensures
        r@ == (if text::has_text(raw@, "://"@) {
            raw@
        } else {
            "http://"@ + raw@
        }),
{
    if text::contains(raw, "://") {
        raw.to_owned()
    } else {
        let mut s = String::from_str("http://");
        s.append(raw);
        s
    }
}

/// Keeps the endpoint of an Ollama that the user runs. `None` clears it; what
/// validating the endpoint, with its scheme, found decides otherwise.
pub fn set_ollama_url(cfg: &mut AppConfig, validated: Option<Result<String, String>>) -> (r: Result<
    (),
    AppError,
>)
    ensures
        match validated {
            Some(Err(m)) => r is Err && r->Err_0.text() == m@ && *final(cfg) == *old(cfg),
            Some(Ok(u)) => r is Ok && text::opt_text(final(cfg).ollama_url) == Some(u@)
                && *final(cfg) == (AppConfig { ollama_url: final(cfg).ollama_url, ..*old(cfg) }),
            None => r is Ok && final(cfg).ollama_url is None && *final(cfg) == (AppConfig {
                ollama_url: None,
                ..*old(cfg)
            }),
        },
{
    match validated {
        Some(Err(m)) => Err(AppError::Other(m)),
        Some(Ok(u)) => {
            cfg.ollama_url = Some(u);
            Ok(())
        },
        None => {
            cfg.ollama_url = None;
            Ok(())
        },
    }
}

/// The engine that runs the conversation.
#[derive(Clone, Copy, Debug, PartialEq, Eq, Structural)]
pub enum Engine {
    ClaudeCode,
    Copilot,
}

/// The engine that the configuration names: Copilot where it says so, else the
/// one that is started anew each turn.
pub open spec fn configured_engine(cfg: AppConfig) -> Engine {
    if text::opt_text(cfg.conversation_engine) == Some("copilot"@) {
        Engine::Copilot
    } else {
        Engine::ClaudeCode
    }
}

/// An engine's name.
pub open spec fn engine_text(e: Engine, brand: Brand) -> Seq<char> {
    match e {
        Engine::ClaudeCode => brand.lower() + "-code"@,
        Engine::Copilot => "copilot"@,
    }
}

impl Engine {
    /// The engine's name.
    pub fn label(self, brand: &Brand) -> (r: String)
        ensures
            r@ == engine_text(self, *brand),
    {
        match self {
            Engine::ClaudeCode => brand.before("-code"),
            Engine::Copilot => "copilot".to_owned(),
        }
    }
}

/// The engine that the configuration names.
pub fn engine_of(cfg: &AppConfig) -> (r: Engine)
    ensures
        r == configured_engine(*cfg),
{
    match &cfg.conversation_engine {
        Some(s) => if text::same(s.as_str(), "copilot") {
            Engine::Copilot
        } else {
            Engine::ClaudeCode
        },
        None => Engine::ClaudeCode,
    }
}

/// The model that the configured engine runs on: the one chosen for it, unless
/// that is blank, else its default.
pub open spec fn configured_model(cfg: AppConfig, brand: Brand) -> Seq<char> {
    match configured_engine(cfg) {
        Engine::Copilot => model_or(
            text::opt_text(cfg.copilot_model),
            copilot::default_model_text(brand),
        ),
        Engine::ClaudeCode => model_or(
            text::opt_text(cfg.claude_code_model),
            claude_code::DEFAULT_MODEL@,
        ),
    }
}

/// The chosen model, as it was written, or the default for a blank one.
pub open spec fn model_or(chosen: Option<Seq<char>>, default_model: Seq<char>) -> Seq<char> {
    match chosen {
        Some(m) => if text::trimmed(m).len() == 0 {
            default_model
        } else {
            m
        },
        None => default_model,
    }
}

/// The chosen model, or the default for a blank one.
pub(crate) fn pick_model(chosen: &Option<String>, default_model: &str) -> (r: String)
    ensures
        r@ == model_or(text::opt_text(*chosen), default_model@),
{
    match chosen {
        Some(m) => if text::trim(m.as_str()).is_empty() {
            default_model.to_owned()
        } else {
            m.clone()
        },
        None => default_model.to_owned(),
    }
}

/// The model that the configured engine runs on.
pub fn model_of(cfg: &AppConfig, brand: &Brand) -> (r: String)
    ensures
        r@ == configured_model(*cfg, *brand),
{
    match engine_of(cfg) {
        Engine::Copilot => pick_model(&cfg.copilot_model, copilot::default_model(brand).as_str()),
        Engine::ClaudeCode => pick_model(&cfg.claude_code_model, claude_code::DEFAULT_MODEL),
    }
}

/// The engine's settings, as they are shown.
#[derive(Debug, PartialEq, Eq)]
pub struct ConversationEngineConfig {
    pub engine: String,
    pub claude_code_model: Option<String>,
    pub copilot_model: Option<String>,
}

/// A copy.
pub(crate) fn copy_choice(o: &Option<String>) -> (r: Option<String>)
    ensures
        text::opt_text(r) == text::opt_text(*o),
{
    match o {
        Some(s) => Some(s.clone()),
        None => None,
    }
}

/// The engine's settings.
pub fn get_conversation_engine(cfg: &AppConfig, brand: &Brand) -> (r: ConversationEngineConfig)
    ensures
        r.engine@ == engine_text(configured_engine(*cfg), *brand),
        text::opt_text(r.claude_code_model) == text::opt_text(cfg.claude_code_model),
        text::opt_text(r.copilot_model) == text::opt_text(cfg.copilot_model),
{
    ConversationEngineConfig {
        engine: engine_of(cfg).label(brand),
        claude_code_model: copy_choice(&cfg.claude_code_model),
        copilot_model: copy_choice(&cfg.copilot_model),
    }
}

/// The engine that a name means.
pub open spec fn engine_named(s: Seq<char>, brand: Brand) -> Option<Engine> {
    let t = text::trimmed(s);
    if t == engine_text(Engine::ClaudeCode, brand) {
        Some(Engine::ClaudeCode)
    } else if t == "copilot"@ {
        Some(Engine::Copilot)
    } else {
        None
    }
}

/// Chooses the engine and, for that engine alone, the model; a blank model is
/// the default. Any other engine is refused, and nothing changes.
pub fn set_conversation_engine(
    cfg: &mut AppConfig,
    engine: &str,
    model: Option<&str>,
    brand: &Brand,
) -> (r: Result<(), AppError>)
    ensures
        match engine_named(engine@, *brand) {
            Some(e) => {
                &&& r is Ok
                &&& text::opt_text(final(cfg).conversation_engine) == Some(engine_text(e, *brand))
                &&& match e {
                    Engine::Copilot => text::opt_text(final(cfg).copilot_model) == trimmed_choice(
                        text::opt_str(model),
                    ) && *final(cfg) == (AppConfig {
                        conversation_engine: final(cfg).conversation_engine,
                        copilot_model: final(cfg).copilot_model,
                        ..*old(cfg)
                    }),
                    Engine::ClaudeCode => text::opt_text(final(cfg).claude_code_model)
                        == trimmed_choice(text::opt_str(model)) && *final(cfg) == (AppConfig {
                        conversation_engine: final(cfg).conversation_engine,
                        claude_code_model: final(cfg).claude_code_model,
                        ..*old(cfg)
                    }),
                }
            },
            None => r is Err && *final(cfg) == *old(cfg) && r->Err_0.text()
                == "unknown conversation engine: "@ + text::trimmed(engine@)
                + " (expected \""@ + engine_text(Engine::ClaudeCode, *brand)
                + "\" or \"copilot\")"@,
        },
{
    let t = text::trim(engine);
    let own = Engine::ClaudeCode.label(brand);
    let e = if text::same(t, own.as_str()) {
        Engine::ClaudeCode
    } else if text::same(t, "copilot") {
        Engine::Copilot
    } else {
        let mut m = String::from_str("unknown conversation engine: ");
        m.append(t);
        m.append(" (expected \"");
        m.append(own.as_str());
        m.append("\" or \"copilot\")");
        return Err(AppError::Other(m));
    };
    cfg.conversation_engine = Some(e.label(brand));
    match e {
        Engine::Copilot => {
            cfg.copilot_model = trim_choice(model);
        },
        Engine::ClaudeCode => {
            cfg.claude_code_model = trim_choice(model);
        },
    }
    Ok(())
}

/// The tone, as the settings show it.
pub fn get_agent_tone(cfg: &AppConfig) -> (r: String)
    ensures
        r@ == agent_tone::tone_text(agent_tone::tone_named(text::opt_text(cfg.agent_tone))),
{
    let t = match &cfg.agent_tone {
        Some(s) => AgentTone::from_config(Some(s.as_str())),
        None => AgentTone::from_config(None),
    };
    t.as_str().to_owned()
}

/// A tone's name, if it is one.
pub open spec fn tone_setting(s: Seq<char>) -> Option<Seq<char>> {
    let t = text::trimmed(s);
    if t == "stoic"@ || t == "warm"@ || t == "sassy"@ {
        Some(t)
    } else {
        None
    }
}

/// Chooses the tone: `stoic`, `warm` or `sassy`. Any other is refused, and
/// nothing changes.
pub fn set_agent_tone(cfg: &mut AppConfig, tone: &str) -> (r: Result<(), AppError>)
    ensures
        match tone_setting(tone@) {
            Some(t) => r is Ok && text::opt_text(final(cfg).agent_tone) == Some(t) && *final(cfg)
                == (AppConfig { agent_tone: final(cfg).agent_tone, ..*old(cfg) }),
            None => r is Err && *final(cfg) == *old(cfg) && r->Err_0.text()
                == "unknown agent tone: "@ + text::trimmed(tone@)
                + " (expected \"stoic\", \"warm\", or \"sassy\")"@,
        },
{
    let t = text::trim(tone);
    if text::same(t, "stoic") || text::same(t, "warm") || text::same(t, "sassy") {
        cfg.agent_tone = Some(t.to_owned());
        Ok(())
    } else {
        let mut m = String::from_str("unknown agent tone: ");
        m.append(t);
        m.append(" (expected \"stoic\", \"warm\", or \"sassy\")");
        Err(AppError::Other(m))
    }
}

/// Whether the user has been shown around.
#[derive(Clone, Copy, Debug, PartialEq, Eq, Structural)]
pub struct OnboardingState {
    pub complete: bool,
}

/// Whether the user has been shown around.
pub fn get_onboarding_state(cfg: &AppConfig) -> (r: OnboardingState)
    ensures
        r.complete == cfg.onboarding_complete,
{
    OnboardingState { complete: cfg.onboarding_complete }
}

/// The user has been shown around.
pub fn complete_onboarding(cfg: &mut AppConfig)
    ensures
        *final(cfg) == (AppConfig { onboarding_complete: true, ..*old(cfg) }),
{
    cfg.onboarding_complete = true;
}

/// A tone that was chosen is the tone that is read back.
pub proof fn law_chosen_tone_is_read_back(s: Seq<char>)
    requires
        tone_setting(s) is Some,
    ensures
        agent_tone::tone_text(agent_tone::tone_named(tone_setting(s))) == tone_setting(s)->0,
{
    let t = tone_setting(s)->0;
    text::lemma_trimmed_twice(s);
    reveal_strlit("stoic");
    reveal_strlit("warm");
    reveal_strlit("sassy");
    assert("stoic"@.len() != "warm"@.len());
    assert("sassy"@.len() != "warm"@.len());
    assert("sassy"@[1] != "stoic"@[1]);
}

/// An engine that was chosen is the engine that is read back.
pub proof fn law_chosen_engine_is_read_back(cfg: AppConfig, s: Seq<char>, brand: Brand)
    requires
        engine_named(s, brand) is Some,
        text::opt_text(cfg.conversation_engine) == Some(
            engine_text(engine_named(s, brand)->0, brand),
        ),
    ensures
        configured_engine(cfg) == engine_named(s, brand)->0,
{
    reveal_strlit("-code");
    reveal_strlit("copilot");
    let own = engine_text(Engine::ClaudeCode, brand);
    assert(own.last() == 'e');
    assert("copilot"@.last() == 't');
}

/// What is chosen is kept without the white space around it; nothing but white space
/// chooses nothing.
pub proof fn law_choices_are_kept_trimmed(s: Seq<char>)
    ensures
        trimmed_choice(None) is None,
        text::blank(s) ==> trimmed_choice(Some(s)) is None,
        !text::blank(s) ==> trimmed_choice(Some(s)) == Some(text::trimmed(s)),
        trimmed_choice(trimmed_choice(Some(s))) == trimmed_choice(Some(s)),
{
    text::law_blank_texts_are_trimmed_away(s);
    text::lemma_trimmed_twice(s);
}

/// A search backend is kept under its own name, and what is read back is what was chosen;
/// keyword search goes by two names.
pub proof fn law_chosen_backend_is_read_back(s: Seq<char>)
    ensures
        ({
            let t = text::trimmed(s);
            &&& t == "ollama"@ || t == "bundled"@ || t == "none"@ ==> provider_setting(s) == Some(t)
            &&& t == "keyword"@ ==> provider_setting(s) == Some("none"@)
            &&& t != "ollama"@ && t != "bundled"@ && t != "none"@ && t != "keyword"@
                ==> provider_setting(s) is None
        }),
{
    reveal_strlit("ollama");
    reveal_strlit("bundled");
    reveal_strlit("none");
    reveal_strlit("keyword");
    assert("ollama"@.len() == 6);
    assert("bundled"@[0] == 'b');
    assert("none"@.len() == 4);
    assert("keyword"@[0] == 'k');
}

/// A turn runs on the model chosen for its engine, as it was written, and on the engine's
/// default where none or a blank one was chosen; what was chosen for the other engine
/// does not matter.
pub proof fn law_engines_run_on_their_own_model(cfg: AppConfig, brand: Brand, m: String)
    ensures
        configured_engine(cfg) == Engine::Copilot ==> {
            &&& cfg.copilot_model == Some(m) && text::trimmed(m@).len() > 0 ==> configured_model(
                cfg,
                brand,
            ) == m@
            &&& cfg.copilot_model is None ==> configured_model(cfg, brand)
                == copilot::default_model_text(brand)
        },
        configured_engine(cfg) == Engine::ClaudeCode ==> {
            &&& cfg.claude_code_model == Some(m) && text::trimmed(m@).len() > 0
                ==> configured_model(cfg, brand) == m@
            &&& cfg.claude_code_model is None ==> configured_model(cfg, brand) == "sonnet"@
        },
        cfg.conversation_engine is None ==> configured_engine(cfg) == Engine::ClaudeCode,
        configured_engine(cfg) == Engine::Copilot <==> text::opt_text(cfg.conversation_engine)
            == Some("copilot"@),
{
}

/// An engine is meant by its own name, with or without white space around it, and by no
/// other.
pub proof fn law_names_mean_their_engine(s: Seq<char>, brand: Brand)
    ensures
        engine_named(s, brand) == Some(Engine::ClaudeCode) <==> text::trimmed(s) == brand.lower()
            + "-code"@,
        engine_named(s, brand) == Some(Engine::Copilot) <==> text::trimmed(s) == "copilot"@,
{
    reveal_strlit("-code");
    reveal_strlit("copilot");
    let own = brand.lower() + "-code"@;
    assert(own.last() == 'e');
    assert("copilot"@.last() == 't');
}

/// Each of the three tones can be chosen by its name, and nothing else can.
pub proof fn law_three_tones_can_be_chosen(s: Seq<char>)
    ensures
        text::trimmed(s) == "stoic"@ ==> tone_setting(s) == Some("stoic"@),
        text::trimmed(s) == "warm"@ ==> tone_setting(s) == Some("warm"@),
        text::trimmed(s) == "sassy"@ ==> tone_setting(s) == Some("sassy"@),
        tone_setting(s) matches Some(t) ==> t == text::trimmed(s) && (t == "stoic"@ || t == "warm"@
            || t == "sassy"@),
{
}

} // verus!
