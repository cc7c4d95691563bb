//! Which formation is open, and what is remembered between launches.
use vstd::prelude::*;
use crate::error::AppError;
use crate::text;

verus! {

/// A note of the formation.
#[derive(Debug, PartialEq, Eq)]
pub struct FormationNote {
    pub relative_path: String,
    /// When it was last changed, in seconds since 1970.
    pub modified_secs: i64,
}

/// The formation that is open, if one is.
#[derive(Debug, PartialEq, Eq)]
pub struct FormationState {
    inner: Option<String>,
}

impl View for FormationState {
    type V = Option<Seq<char>>;

    closed spec fn view(&self) -> Option<Seq<char>> {
        text::opt_text(self.inner)
    }
}

impl Default for FormationState {
    fn default() -> (r: FormationState)
        ensures
            r@ is None,
    {
        FormationState { inner: None }
    }
}

impl FormationState {
    /// Opens a formation.
    pub fn set(&mut self, path: String)
        ensures
            final(self)@ == Some(path@),
    {
        self.inner = Some(path);
    }

    /// The formation that is open.
    pub fn get(&self) -> (r: Option<String>)
        ensures
            text::opt_text(r) == self@,
    {
        match &self.inner {
            Some(p) => Some(p.clone()),
            None => None,
        }
    }

    /// The formation that is open, or an error.
    pub fn require(&self) -> (r: Result<String, AppError>)
        ensures
            match r {
                Ok(p) => self@ == Some(p@),
                Err(e) => self@ is None && e.text() == "no formation is open"@,
            },
    {
        match self.get() {
            Some(p) => Ok(p),
            None => Err(AppError::other("no formation is open")),
        }
    }
}

/// What is remembered between launches.
#[derive(Debug, PartialEq, Eq)]
pub struct AppConfig {
    pub last_formation_path: Option<String>,
    pub onboarding_complete: bool,
    /// Where downloaded models go; `None` for Ollama's own place.
    pub models_dir: Option<String>,
    /// The name of the engine; `None` is the one that is started anew each turn.
    pub conversation_engine: Option<String>,
    pub claude_code_model: Option<String>,
    pub copilot_model: Option<String>,
    /// How note search is powered; `None` is `ollama`.
    pub embedding_provider: Option<String>,
    /// `stoic`, `warm` or `sassy`; `None` is `warm`.
    pub agent_tone: Option<String>,
    /// Where the model files are fetched from; `None` is the default host.
    pub bundled_model_url: Option<String>,
    /// An Ollama that the user runs; `None` for the local one.
    pub ollama_url: Option<String>,
}

impl Default for AppConfig {
    fn default() -> (r: AppConfig)
        ensures
            r == (AppConfig {
                last_formation_path: None,
                onboarding_complete: false,
                models_dir: None,
                conversation_engine: None,
                claude_code_model: None,
                copilot_model: None,
                embedding_provider: None,
                agent_tone: None,
                bundled_model_url: None,
                ollama_url: None,
            }),
    {
        AppConfig {
            last_formation_path: None,
            onboarding_complete: false,
            models_dir: None,
            conversation_engine: None,
            claude_code_model: None,
            copilot_model: None,
            embedding_provider: None,
            agent_tone: None,
            bundled_model_url: None,
            ollama_url: None,
        }
    }
}

} // verus!
