//! How web research is set up.
use crate::agent_settings::WebResearchSettings;
use crate::paths::{join_path, joined};
use crate::web_research::cache::{cache_dir_of, disk_cache_dir};
use vstd::prelude::*;

verus! {

/// A span of time, in milliseconds.
pub type Millis = u128;

/// The configuration of web research while it runs.
#[derive(Debug)]
pub struct WebResearchConfig {
    pub enabled: bool,
    pub max_search_results: usize,
    pub max_snippet_chars: usize,
    pub max_fetch_chars: usize,
    pub max_response_bytes: u64,
    pub max_redirects: u32,
    pub request_timeout: Millis,
    /// For fetching in parallel; pages are fetched one by one.
    pub max_concurrency: usize,
    pub per_host_delay: Millis,
    pub cache_ttl_serp: Millis,
    pub cache_ttl_page: Millis,
    /// Where pages are cached, if they are.
    pub cache_dir: Option<String>,
    pub browser_fallback_enabled: bool,
    /// Where the isolated browser keeps its profile.
    pub browser_profile_dir: Option<String>,
    /// Where downloads go; they are never run.
    pub browser_download_dir: Option<String>,
    pub browser_timeout: Millis,
    pub max_pages: usize,
    pub max_depth: usize,
    pub research_wall_clock: Millis,
}

impl Default for WebResearchConfig {
    fn default() -> (r: Self)
        ensures
            r.enabled,
            r.max_search_results == 5,
            r.max_snippet_chars == 300,
            r.max_fetch_chars == 12_000,
            r.max_response_bytes == 1024 * 1024,
            r.max_redirects == 5,
            r.request_timeout == 15_000,
            r.max_concurrency == 2,
            r.per_host_delay == 1_000,
            r.cache_ttl_serp == 3_600_000,
            r.cache_ttl_page == 604_800_000,
            r.cache_dir is None,
            !r.browser_fallback_enabled,
            r.browser_profile_dir is None,
            r.browser_download_dir is None,
            r.browser_timeout == 45_000,
            r.max_pages == 6,
            r.max_depth == 1,
            r.research_wall_clock == 90_000,
    {
        WebResearchConfig {
            enabled: true,
            max_search_results: 5,
            max_snippet_chars: 300,
            max_fetch_chars: 12_000,
            max_response_bytes: 1024 * 1024,
            max_redirects: 5,
            request_timeout: 15_000,
            max_concurrency: 2,
            per_host_delay: 1_000,
            cache_ttl_serp: 3_600_000,
            cache_ttl_page: 604_800_000,
            cache_dir: None,
            browser_fallback_enabled: false,
            browser_profile_dir: None,
            browser_download_dir: None,
            browser_timeout: 45_000,
            max_pages: 6,
            max_depth: 1,
            research_wall_clock: 90_000,
        }
    }
}

/// Where the isolated browser keeps its profile, and where downloads go.
pub fn browser_data_dirs(data_dir: &str) -> (r: (String, String))
    ensures
        r.0@ == joined(joined(data_dir@, "web_research"@), "browser_profile"@),
        r.1@ == joined(joined(data_dir@, "web_research"@), "download_quarantine"@),
{
    let root = join_path(data_dir, "web_research");
    (
        join_path(root.as_str(), "browser_profile"),
        join_path(root.as_str(), "download_quarantine"),
    )
}

impl WebResearchConfig {
    /// Whether everything but the budgets of a session is as the settings ask for, with its
    /// directories below `data_dir`.
    pub open spec fn serves(&self, research: WebResearchSettings, data_dir: Seq<char>) -> bool {
        let root = joined(data_dir, "web_research"@);
        &&& self.enabled == research.enabled
        &&& self.max_search_results == research.max_search_results
        &&& self.max_snippet_chars == research.max_snippet_chars
        &&& self.max_fetch_chars == research.max_fetch_chars
        &&& self.max_response_bytes == research.max_response_bytes
        &&& self.max_redirects == research.max_redirects
        &&& self.request_timeout == research.request_timeout_ms
        &&& self.max_concurrency == research.max_concurrency
        &&& self.per_host_delay == research.per_host_delay_ms
        &&& self.cache_ttl_serp == research.cache_ttl_serp_secs * 1000
        &&& self.cache_ttl_page == research.cache_ttl_page_secs * 1000
        &&& self.cache_dir matches Some(d) && d@ == cache_dir_of(data_dir)
        &&& self.browser_fallback_enabled == research.browser_fallback_enabled
        &&& self.browser_profile_dir matches Some(d) && d@ == joined(root, "browser_profile"@)
        &&& self.browser_download_dir matches Some(d) && d@ == joined(root, "download_quarantine"@)
        &&& self.browser_timeout == research.browser_timeout_secs * 1000
    }
}

/// The configuration that the settings ask for, with its directories below `data_dir`.
pub fn web_research_config_from_settings(research: &WebResearchSettings, data_dir: &str) -> (r:
    WebResearchConfig)
    ensures
        r.serves(*research, data_dir@),
        r.max_pages == research.max_pages,
        r.max_depth == research.max_depth,
        r.research_wall_clock == research.research_wall_clock_secs * 1000,
{
    let (profile_dir, download_dir) = browser_data_dirs(data_dir);
    WebResearchConfig {
        enabled: research.enabled,
        max_search_results: research.max_search_results,
        max_snippet_chars: research.max_snippet_chars,
        max_fetch_chars: research.max_fetch_chars,
        max_response_bytes: research.max_response_bytes,
        max_redirects: research.max_redirects,
        request_timeout: research.request_timeout_ms as u128,
        max_concurrency: research.max_concurrency,
        per_host_delay: research.per_host_delay_ms as u128,
        cache_ttl_serp: research.cache_ttl_serp_secs as u128 * 1000,
        cache_ttl_page: research.cache_ttl_page_secs as u128 * 1000,
        cache_dir: Some(disk_cache_dir(data_dir)),
        browser_fallback_enabled: research.browser_fallback_enabled,
        browser_profile_dir: Some(profile_dir),
        browser_download_dir: Some(download_dir),
        browser_timeout: research.browser_timeout_secs as u128 * 1000,
        max_pages: research.max_pages,
        max_depth: research.max_depth,
        research_wall_clock: research.research_wall_clock_secs as u128 * 1000,
    }
}

} // verus!
