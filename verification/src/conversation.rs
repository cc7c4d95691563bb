//! What a turn of conversation is made of, whoever runs it.
use tokio_util::sync::CancellationToken;
use vstd::prelude::*;

verus! {

/// One earlier turn of the conversation.
#[derive(Debug, PartialEq, Eq)]
pub struct TranscriptTurn {
    /// `user` or `assistant`.
    pub role: String,
    /// What was said, word for word.
    pub content: String,
}

/// Everything an engine needs to run one turn.
pub struct TurnRequest {
    /// The new message.
    pub message: String,
    /// The turns before it, oldest first.
    pub history: Vec<TranscriptTurn>,
    /// The engine's working directory.
    pub formation_root: String,
    /// The new message's id, the provenance of every fact the turn records.
    pub source_chat_id: String,
    /// The note-search backend, `ollama` or `none`.
    pub embedding_provider: String,
    /// An Ollama endpoint other than the local default.
    pub ollama_url: Option<String>,
    /// What the orchestrator already knows, as one block of markdown.
    pub injected_context: Option<String>,
    /// `stoic`, `warm` or `sassy`; empty for the default.
    pub tone: String,
    /// Tripped when the user interrupts the turn.
    pub cancel: CancellationToken,
    /// The chat session that the turn belongs to.
    pub conversation_id: String,
}

/// Something that happens during a turn.
#[derive(Debug, PartialEq, Eq)]
pub enum TurnEvent {
    /// A piece of the reply.
    TextDelta { text: String },
    /// The agent used a tool.
    ToolActivity { tool: String, summary: String },
}

/// What a [`TurnEvent`] says.
pub enum TurnEventView {
    TextDelta { text: Seq<char> },
    ToolActivity { tool: Seq<char>, summary: Seq<char> },
}

impl View for TurnEvent {
    type V = TurnEventView;

    open spec fn view(&self) -> TurnEventView {
        match self {
            TurnEvent::TextDelta { text } => TurnEventView::TextDelta { text: text@ },
            TurnEvent::ToolActivity { tool, summary } => TurnEventView::ToolActivity {
                tool: tool@,
                summary: summary@,
            },
        }
    }
}

/// The view of an optional event.
pub open spec fn opt_event(o: Option<TurnEvent>) -> Option<TurnEventView> {
    match o {
        Some(e) => Some(e@),
        None => None,
    }
}

/// How a turn stopped.
#[derive(Clone, Copy, Debug, PartialEq, Eq, Structural)]
pub enum TurnStop {
    Completed,
    Interrupted,
}

/// The result of a turn.
#[derive(Debug, PartialEq, Eq)]
pub struct TurnOutcome {
    /// The reply: the final answer of a completed turn, what came before the
    /// stop of an interrupted one.
    pub reply: String,
    pub stop: TurnStop,
}

} // verus!
