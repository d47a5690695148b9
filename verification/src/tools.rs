//! What the tools of the agent decide.
use vstd::prelude::*;

pub mod computer_use;
pub mod documents;
pub mod full_access;
pub mod listing_laws;
pub mod memory;
pub mod process_control;
pub mod research_run;
pub mod research_web;
pub mod run_code;
pub mod web;
pub mod web_runs;

verus! {

/// The names of the tools.
pub const ALL_TOOL_NAMES: [&'static str; 13] = [
    "append_to_journal",
    "browse_page",
    "complete_goal",
    "computer_use",
    "fetch",
    "http_request",
    "process_control",
    "rag_ingest",
    "rag_search",
    "read_journal",
    "research_web",
    "run_code",
    "search_web",
];

} // verus!
