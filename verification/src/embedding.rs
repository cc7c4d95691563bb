//! How note search is powered: by a local embedding model, or by keywords alone.
use vstd::prelude::*;
use crate::text;

verus! {

/// The note-search backend the user has chosen.
#[derive(Clone, Copy, Debug, PartialEq, Eq, Structural)]
pub enum EmbeddingProvider {
    /// A local Ollama embedding model: semantic search.
    Ollama,
    /// No embedding model: keyword search.
    Keyword,
}

/// The provider that a config string names, white space aside.
pub open spec fn provider_named(value: Option<Seq<char>>) -> EmbeddingProvider {
    match value {
        Some(s) => if text::trimmed(s) == "none"@ || text::trimmed(s) == "keyword"@ {
            EmbeddingProvider::Keyword
        } else {
            EmbeddingProvider::Ollama
        },
        None => EmbeddingProvider::Ollama,
    }
}

/// The config string of a provider.
pub open spec fn provider_text(p: EmbeddingProvider) -> Seq<char> {
    match p {
        EmbeddingProvider::Ollama => "ollama"@,
        EmbeddingProvider::Keyword => "none"@,
    }
}

impl EmbeddingProvider {
    /// Reads the config string: `none` and `keyword` choose keyword search,
    /// nothing and anything else the default, `Ollama`.
    pub fn from_config(value: Option<&str>) -> (r: EmbeddingProvider)
        ensures
            r == provider_named(text::opt_str(value)),
    {
        match value {
            Some(s) => {
                let t = text::trim(s);
                if text::same(t, "none") || text::same(t, "keyword") {
                    EmbeddingProvider::Keyword
                } else {
                    EmbeddingProvider::Ollama
                }
            },
            None => EmbeddingProvider::Ollama,
        }
    }

    /// The config string.
    pub fn as_str(self) -> (r: &'static str)
        ensures
            r@ == provider_text(self),
    {
        match self {
            EmbeddingProvider::Ollama => "ollama",
            EmbeddingProvider::Keyword => "none",
        }
    }

    /// Whether search uses the embedding model.
    pub fn is_semantic(self) -> (r: bool)
        ensures
            r == (self is Ollama),
    {
        match self {
            EmbeddingProvider::Ollama => true,
            EmbeddingProvider::Keyword => false,
        }
    }
}

/// A provider's config string names that provider.
pub proof fn law_provider_round_trip(p: EmbeddingProvider)
    ensures
        provider_named(Some(provider_text(p))) == p,
{
    reveal_strlit("ollama");
    reveal_strlit("none");
    reveal_strlit("keyword");
    assert(text::trimmed("ollama"@) == "ollama"@);
    assert(text::trimmed("none"@) == "none"@);
    assert("ollama"@.len() != "none"@.len());
    assert("ollama"@.len() != "keyword"@.len());
}

/// Only the two names of keyword search choose it; everything else is searched by
/// meaning.
pub proof fn law_only_its_names_choose_keyword_search(s: Seq<char>)
    ensures
        provider_named(Some(s)) is Keyword <==> text::trimmed(s) == "none"@ || text::trimmed(s)
            == "keyword"@,
        provider_named(None) is Ollama,
{
}

} // verus!
