//! The decision logic of a coding agent.
pub mod agent_settings;
pub mod assoc;
pub mod base64;
pub mod bytes;
pub mod chunk_laws;
pub mod endpoint_laws;
pub mod goal;
pub mod goal_laws;
pub mod goal_mode_selector;
pub mod hashing;
pub mod images;
pub mod journal_laws;
pub mod json;
pub mod layout;
pub mod message_laws;
pub mod network_agent;
pub mod network_agent_health;
pub mod open_ai_compatible;
pub mod path_laws;
pub mod paths;
pub mod project_memory;
pub mod rag;
pub mod recall_laws;
pub mod repetition_watchdog;
pub mod request;
pub mod retrieval_laws;
pub mod security_rules;
pub mod selection;
pub mod settings_content;
pub mod settings_laws;
pub mod sorting;
pub mod spine_laws;
pub mod summary_laws;
pub mod text;
pub mod text_laws;
pub mod tool_call_laws;
pub mod tool_call_normalization;
pub mod tool_call_smoke;
pub mod tool_call_smoke_modal;
pub mod tool_permissions;
pub mod tool_source_laws;
pub mod tools;
pub mod unleashed_setup;
pub mod web_research;
pub mod worker_pool;
