//! The tools as a server offers them.
use vstd::prelude::*;
use crate::error::AppError;
use crate::formation;
use crate::json::Json;
use crate::json::JsonModel;
use crate::json;
use crate::paths;

verus! {

/// What a client is told the server is for.
pub const INSTRUCTIONS: &'static str = "Graph-only tools for a Sediment formation: semantic note search, entity and relationship lookup, bi-temporal contradiction checks, and the structured record_* writes. Note files are read and written with the native file tools, not here.";

/// Where the graph is kept.
pub fn memory_dir(formation_root: &str) -> (r: String)
    ensures
        r@ == paths::joined_path(
            paths::joined_path(formation_root@, formation::APP_DIR@),
            "memory"@,
        ),
{
    let app = paths::join(formation_root, formation::APP_DIR);
    paths::join(app.as_str(), "memory")
}

/// What a tool is called with: an object without members where nothing is given.
pub fn call_arguments(given: Option<Json>) -> (r: Json)
    ensures
        r.model() == match given {
            Some(j) => j.model(),
            None => JsonModel::Object(Map::empty()),
        },
{
    match given {
        Some(j) => j,
        None => {
            let none: Vec<(String, Json)> = Vec::new();
            assert(json::members(none@) =~= Map::empty());
            Json::Object(none)
        },
    }
}

/// What a client gets back of a call.
#[derive(Debug, PartialEq, Eq)]
pub struct ToolReply {
    pub text: String,
    /// The answer as a value.
    pub structured: Option<Json>,
    pub is_error: bool,
}

/// What a client gets back: the answer, both as text and as a value, or the error
/// as text. An error is an answer, and never the end of the server.
pub fn tool_reply(result: Result<Json, AppError>) -> (r: ToolReply)
    ensures
        match result {
            Ok(v) => r.text@ == json::compact_text(v.model()) && json::opt_model(r.structured)
                == Some(v.model()) && !r.is_error,
            Err(e) => r.text@ == e.text() && r.structured is None && r.is_error,
        },
{
    match result {
        Ok(v) => ToolReply { text: json::print(&v), structured: Some(v), is_error: false },
        Err(e) => ToolReply { text: e.message(), structured: None, is_error: true },
    }
}

} // verus!
