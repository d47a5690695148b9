//! Looking things up on the web: which addresses may be contacted, how pages are fetched, read
//! and handed to a model, and how a session of several pages is run.
pub mod browser;
pub mod cache;
pub mod challenge_laws;
pub mod config;
pub mod content_laws;
pub mod discovery;
pub mod discovery_laws;
pub mod envelope;
pub mod extract;
pub mod fetch;
pub mod http;
pub mod http_run;
pub mod page_laws;
pub mod page_run;
pub mod policy_laws;
pub mod rate_limit;
pub mod reading;
pub mod reading_laws;
pub mod research_laws;
pub mod run;
pub mod session;
pub mod store;
pub mod url_policy;
