//! The tool that runs a session of web research.
use crate::agent_settings::WebResearchSettings;
use crate::json::pair_views;
use crate::sorting::is_sorted_set_of;
use crate::text::{
    contains_char, dec, dec_str, ellipsize, ellipsized, first_strs, is_ascii_digit, is_digit, join,
    join_strs, split_char, split_char_str, take_strs, to_chars, trim, trim_str, views,
};
use crate::tools::full_access::ToolPermissionContext;
use crate::web_research::config::{web_research_config_from_settings, WebResearchConfig};
use crate::web_research::session::{
    body_views, digest_text, seed_hosts, DigestView, ResearchBudgets, ResearchDigest,
    ResearchPageBody, ResearchSeed, ResearchSession, ResearchSessionOutcome,
};
use crate::web_research::store::{rag_source, web_rag_source, StoredResearchSession};
use vstd::prelude::*;

verus! {

pub const RESEARCH_WEB_NAME: &'static str = "research_web";

/// How many sessions are listed.
pub const LISTED_SESSIONS: usize = 20;

pub const RESEARCH_DISABLED: &'static str =
    "Web research is disabled (agent.web_research.enabled=false).";

pub const QUERY_REQUIRED: &'static str =
    "query is required unless session_id or list_sessions is set";

pub const BROWSER_NEEDS_FULL_ACCESS: &'static str =
    "Browser fallback is enabled but Unleashed is disabled. Enable Unleashed or set agent.web_research.browser_fallback_enabled=false.";

pub const NO_DOMAINS: &'static str =
    "No usable domain allowlist (SERP hosts empty or all blocked).";

pub const RESEARCH_CANCELLED: &'static str = "Research cancelled by user";

/// What is asked of the tool.
#[derive(Debug)]
pub struct ResearchWebToolInput {
    pub query: String,
    /// The hosts that are allowed; those of what is found, where none are given.
    pub domains: Vec<String>,
    pub max_pages: Option<usize>,
    pub max_depth: Option<usize>,
    pub time_budget_secs: Option<u64>,
    /// A session that is kept and to be gone back to.
    pub session_id: Option<String>,
    /// Only lists the sessions that are kept.
    pub list_sessions: bool,
    /// Keeps the session; it is kept unless this says otherwise.
    pub persist: Option<bool>,
    /// Indexes the pages that are fetched.
    pub ingest_to_rag: bool,
}

/// What the tool gives.
#[derive(Debug)]
pub enum ResearchWebToolOutput {
    Success(ResearchDigest),
    List { content: String },
    Error { error: String },
}

impl ResearchWebToolOutput {
    /// What a model reads of it.
    pub fn into_text(self) -> (r: String)
        ensures
            r@ == match self {
                ResearchWebToolOutput::Success(digest) => digest_text(digest@),
                ResearchWebToolOutput::List { content } => content@,
                ResearchWebToolOutput::Error { error } => error@,
            },
    {
        match self {
            ResearchWebToolOutput::Success(digest) => digest.render_for_model(),
            ResearchWebToolOutput::List { content } => content,
            ResearchWebToolOutput::Error { error } => error,
        }
    }
}

/// How a session is run.
#[derive(Debug, Clone, Copy, PartialEq, Eq, Structural)]
pub struct ResearchPlan {
    pub max_pages: usize,
    pub max_depth: usize,
    pub time_budget_secs: u64,
    pub persist: bool,
}

/// What the tool does.
#[derive(Debug)]
pub enum ResearchRequest {
    /// Lists the sessions that are kept.
    ListSessions,
    /// Goes back to a session that is kept.
    Resume(String),
    /// Runs a session.
    Discover(ResearchPlan),
}

pub open spec fn clamped(n: int, low: int, high: int) -> int {
    if n < low {
        low
    } else if n > high {
        high
    } else {
        n
    }
}

fn clamp_usize(n: usize, low: usize, high: usize) -> (r: usize)
    requires
        low <= high,
    ensures
        r == clamped(n as int, low as int, high as int),
{
    if n < low {
        low
    } else if n > high {
        high
    } else {
        n
    }
}

pub open spec fn chosen<T>(value: Option<T>, default: T) -> T {
    match value {
        Some(v) => v,
        None => default,
    }
}

/// How a session is run that is asked for with these settings.
pub open spec fn plan_of(input: ResearchWebToolInput, settings: WebResearchSettings) -> ResearchPlan {
    ResearchPlan {
        max_pages: clamped(chosen(input.max_pages, settings.max_pages) as int, 1, 12) as usize,
        max_depth: clamped(chosen(input.max_depth, settings.max_depth) as int, 0, 3) as usize,
        time_budget_secs: clamped(
            chosen(input.time_budget_secs, settings.research_wall_clock_secs) as int,
            15,
            300,
        ) as u64,
        persist: chosen(input.persist, true),
    }
}

/// Whether `r` is what the tool does, or why it does nothing.
pub open spec fn is_request(
    r: Result<ResearchRequest, String>,
    input: ResearchWebToolInput,
    settings: WebResearchSettings,
    full_access: bool,
) -> bool {
    if !settings.enabled {
        r matches Err(e) && e@ == RESEARCH_DISABLED@
    } else if input.list_sessions {
        r matches Ok(ResearchRequest::ListSessions)
    } else if let Some(id) = input.session_id {
        r matches Ok(ResearchRequest::Resume(s)) && s@ == id@
    } else if trim(input.query@).len() == 0 {
        r matches Err(e) && e@ == QUERY_REQUIRED@
    } else if settings.browser_fallback_enabled && !full_access {
        r matches Err(e) && e@ == BROWSER_NEEDS_FULL_ACCESS@
    } else {
        r matches Ok(ResearchRequest::Discover(p)) && p == plan_of(input, settings)
    }
}

/// What is asked of a user, and the values by which it can be allowed once and for all.
#[derive(Debug)]
pub struct ResearchPermission {
    pub title: String,
    pub context: ToolPermissionContext,
}

/// By what a session can be allowed: its query, its hosts, and whether its pages are indexed. How
/// far it goes is not among them.
pub open spec fn auth_values(query: Seq<char>, domains: Seq<Seq<char>>, ingest: bool) -> Seq<
    Seq<char>,
> {
    if ingest {
        seq![query] + domains + seq!["ingest_to_rag=1"@]
    } else {
        seq![query] + domains
    }
}

pub fn research_auth_values(query: &str, domains: &Vec<String>, ingest_to_rag: bool) -> (r: Vec<
    String,
>)
    ensures
        views(r@) == auth_values(query@, views(domains@), ingest_to_rag),
{
    let ghost hosts = views(domains@);
    let mut r: Vec<String> = vec![query.to_string()];
    let mut i: usize = 0;
    assert(views(r@) =~= seq![query@] + hosts.take(0));
    while i < domains.len()
        invariant
            i <= domains@.len(),
            hosts == views(domains@),
            views(r@) == seq![query@] + hosts.take(i as int),
        decreases domains@.len() - i,
    {
        let ghost before = views(r@);
        r.push(domains[i].clone());
        assert(views(r@) =~= before.push(domains@[i as int]@));
        assert(seq![query@] + hosts.take(i + 1) =~= before.push(hosts[i as int]));
        i = i + 1;
    }
    assert(hosts.take(domains@.len() as int) =~= hosts);
    if ingest_to_rag {
        let ghost before = views(r@);
        r.push("ingest_to_rag=1".to_string());
        assert(views(r@) =~= before.push("ingest_to_rag=1"@));
        assert(before.push("ingest_to_rag=1"@) =~= auth_values(query@, hosts, true));
    }
    r
}

/// Whether a text is a number of an address: one to three digits, up to 255, with no zero in
/// front.
pub open spec fn is_octet(s: Seq<char>) -> bool {
    &&& 1 <= s.len() <= 3
    &&& forall|i: int| 0 <= i < s.len() ==> is_digit(#[trigger] s[i])
    &&& s.len() > 1 ==> s[0] != '0'
    &&& crate::text::digits_value(s) <= 255
}

/// Whether a text is an address of four numbers.
pub open spec fn is_ipv4_text(s: Seq<char>) -> bool {
    let parts = split_char(s, '.');
    parts.len() == 4 && is_octet(parts[0]) && is_octet(parts[1]) && is_octet(parts[2]) && is_octet(
        parts[3],
    )
}

fn octet(s: &str) -> (r: bool)
    ensures
        r == is_octet(s@),
{
    let v = to_chars(s);
    let n: usize = v.len();
    if n < 1 || n > 3 {
        return false;
    }
    let mut value: u32 = 0;
    let mut i: usize = 0;
    assert(s@.take(0) =~= Seq::<char>::empty());
    while i < n
        invariant
            i <= n,
            n <= 3,
            n == v@.len(),
            v@ == s@,
            forall|j: int| 0 <= j < i ==> is_digit(#[trigger] s@[j]),
            value == crate::text::digits_value(s@.take(i as int)),
            i == 0 ==> value == 0,
            i == 1 ==> value <= 9,
            i == 2 ==> value <= 99,
            i == 3 ==> value <= 999,
        decreases n - i,
    {
        if !is_ascii_digit(v[i]) {
            assert(!is_digit(s@[i as int]));
            return false;
        }
        assert(s@.take(i + 1).drop_last() =~= s@.take(i as int));
        assert(s@.take(i + 1).last() == v@[i as int]);
        let d: u32 = v[i] as u32 - 48;
        value = value * 10 + d;
        i = i + 1;
    }
    assert(s@.take(n as int) =~= s@);
    if n > 1 && v[0] == '0' {
        return false;
    }
    value <= 255
}

fn ipv4_text(s: &str) -> (r: bool)
    ensures
        r == is_ipv4_text(s@),
{
    let parts = split_char_str(s, '.');
    let ghost all = views(parts@);
    assert(all.len() == parts@.len());
    if parts.len() != 4 {
        return false;
    }
    assert(all[0] == parts@[0]@ && all[1] == parts@[1]@ && all[2] == parts@[2]@ && all[3]
        == parts@[3]@);
    octet(parts[0].as_str()) && octet(parts[1].as_str()) && octet(parts[2].as_str()) && octet(
        parts[3].as_str(),
    )
}

/// Whether a domain can be in the list of hosts: it is named, and not numbered.
pub open spec fn is_usable_domain(d: Seq<char>) -> bool {
    !is_ipv4_text(d) && !d.contains(':') && d.contains('.')
}

pub open spec fn usable_domains(domains: Seq<Seq<char>>) -> Seq<Seq<char>>
    decreases domains.len(),
{
    if domains.len() == 0 {
        Seq::empty()
    } else if is_usable_domain(domains.last()) {
        usable_domains(domains.drop_last()).push(domains.last())
    } else {
        usable_domains(domains.drop_last())
    }
}

fn keep_usable(domains: &Vec<String>) -> (r: Vec<String>)
    ensures
        views(r@) == usable_domains(views(domains@)),
{
    let ghost all = views(domains@);
    let mut r: Vec<String> = Vec::new();
    let mut i: usize = 0;
    assert(all.take(0) =~= Seq::<Seq<char>>::empty());
    assert(views(r@) =~= Seq::<Seq<char>>::empty());
    while i < domains.len()
        invariant
            i <= domains@.len(),
            all == views(domains@),
            views(r@) == usable_domains(all.take(i as int)),
        decreases domains@.len() - i,
    {
        let ghost before = views(r@);
        assert(all.take(i + 1).drop_last() =~= all.take(i as int));
        assert(all.take(i + 1).last() == domains@[i as int]@);
        let d = domains[i].as_str();
        if !ipv4_text(d) && !contains_char(d, ':') && contains_char(d, '.') {
            r.push(domains[i].clone());
            assert(views(r@) =~= before.push(domains@[i as int]@));
        }
        i = i + 1;
    }
    assert(all.take(domains@.len() as int) =~= all);
    r
}

/// Why nothing was found.
#[derive(Debug)]
pub enum DiscoveryFailure {
    NotInitialized,
    NotAvailable,
    Failed(String),
}

impl DiscoveryFailure {
    pub open spec fn text(self) -> Seq<char> {
        match self {
            DiscoveryFailure::NotInitialized => "Web search is not initialized."@,
            DiscoveryFailure::NotAvailable => "Web search is not available."@,
            DiscoveryFailure::Failed(e) => "discovery_failed: "@ + e@,
        }
    }

    pub fn message(&self) -> (r: String)
        ensures
            r@ == self.text(),
    {
        match self {
            DiscoveryFailure::NotInitialized => "Web search is not initialized.".to_string(),
            DiscoveryFailure::NotAvailable => "Web search is not available.".to_string(),
            DiscoveryFailure::Failed(e) => {
                let mut r = "discovery_failed: ".to_string();
                r.append(e.as_str());
                r
            },
        }
    }
}

/// Where a session starts from: the pages that were found, and the hosts that are allowed.
#[derive(Debug)]
pub struct ResearchStart {
    pub seeds: Vec<ResearchSeed>,
    pub domains: Vec<String>,
}

/// Whether `seeds` are the first of the pages that were found.
pub open spec fn are_first(
    seeds: Seq<ResearchSeed>,
    found: Seq<ResearchSeed>,
    max: nat,
) -> bool {
    seeds == if found.len() <= max {
        found
    } else {
        found.take(max as int)
    }
}

/// Whether `r` is where a session starts from, or why there is none.
pub open spec fn is_start(
    r: Result<ResearchStart, String>,
    domains: Seq<Seq<char>>,
    found: Seq<ResearchSeed>,
    max_results: nat,
) -> bool {
    if found.len() == 0 || max_results == 0 {
        r matches Err(e) && e@ == "discovery_failed: no search hits"@
    } else {
        exists|seeds: Seq<ResearchSeed>, hosts: Seq<Seq<char>>|
            {
                &&& #[trigger] are_first(seeds, found, max_results)
                &&& #[trigger] is_host_list(hosts, domains, seeds)
                &&& if usable_domains(hosts).len() == 0 {
                    r matches Err(e) && e@ == NO_DOMAINS@
                } else {
                    r matches Ok(s) && s.seeds@ == seeds && views(s.domains@) == usable_domains(
                        hosts,
                    )
                }
            }
    }
}

/// The hosts that were given, or else those of the pages that were found, in order.
pub open spec fn is_host_list(
    hosts: Seq<Seq<char>>,
    domains: Seq<Seq<char>>,
    seeds: Seq<ResearchSeed>,
) -> bool {
    if domains.len() == 0 {
        is_sorted_set_of(hosts, seed_hosts(seeds))
    } else {
        hosts == domains
    }
}

/// What is noted once a session is over: that it could not be kept, and how its pages were
/// indexed.
pub open spec fn closing_text(
    persist_error: Option<Seq<char>>,
    ingest_note: Option<Seq<char>>,
) -> Seq<char> {
    match persist_error {
        Some(e) => match ingest_note {
            Some(n) => "persist_failed: "@ + e + "; "@ + n,
            None => "persist_failed: "@ + e,
        },
        None => match ingest_note {
            Some(n) => n,
            None => Seq::empty(),
        },
    }
}

/// A digest with a note on how it ended, if there is one.
pub open spec fn annotated(digest: DigestView, note: Seq<char>) -> DigestView {
    if note.len() == 0 {
        digest
    } else {
        DigestView { stopped_reason: digest.stopped_reason + " | "@ + note, ..digest }
    }
}

pub struct ResearchWebTool;

impl ResearchWebTool {
    /// What a user sees while the tool starts; `code` is the name of the session or the query,
    /// set as code.
    pub fn initial_title(input: Option<&ResearchWebToolInput>, code: &str) -> (r: String)
        ensures
            r@ == match input {
                Some(i) => if i.list_sessions {
                    "List research sessions"@
                } else if i.session_id is Some {
                    "Resume research "@ + code@
                } else if i.query@.len() > 0 {
                    "Research: "@ + code@
                } else {
                    "Research the web"@
                },
                None => "Research the web"@,
            },
    {
        match input {
            Some(i) => {
                if i.list_sessions {
                    return "List research sessions".to_string();
                }
                if i.session_id.is_some() {
                    let mut r = "Resume research ".to_string();
                    r.append(code);
                    return r;
                }
                if !i.query.as_str().is_empty() {
                    let mut r = "Research: ".to_string();
                    r.append(code);
                    return r;
                }
                "Research the web".to_string()
            },
            None => "Research the web".to_string(),
        }
    }

    /// Decides what the tool does.
    pub fn plan(
        input: &ResearchWebToolInput,
        settings: &WebResearchSettings,
        full_access: bool,
    ) -> (r: Result<ResearchRequest, String>)
        ensures
            is_request(r, *input, *settings, full_access),
    {
        if !settings.enabled {
            return Err(RESEARCH_DISABLED.to_string());
        }
        if input.list_sessions {
            return Ok(ResearchRequest::ListSessions);
        }
        match &input.session_id {
            Some(id) => {
                return Ok(ResearchRequest::Resume(id.clone()));
            },
            None => {},
        }
        if trim_str(input.query.as_str()).as_str().is_empty() {
            return Err(QUERY_REQUIRED.to_string());
        }
        if settings.browser_fallback_enabled && !full_access {
            return Err(BROWSER_NEEDS_FULL_ACCESS.to_string());
        }
        let pages: usize = match input.max_pages {
            Some(n) => n,
            None => settings.max_pages,
        };
        let depth: usize = match input.max_depth {
            Some(n) => n,
            None => settings.max_depth,
        };
        let secs: u64 = match input.time_budget_secs {
            Some(n) => n,
            None => settings.research_wall_clock_secs,
        };
        let persist = match input.persist {
            Some(p) => p,
            None => true,
        };
        Ok(
            ResearchRequest::Discover(
                ResearchPlan {
                    max_pages: clamp_usize(pages, 1, 12),
                    max_depth: clamp_usize(depth, 0, 3),
                    time_budget_secs: if secs < 15 {
                        15
                    } else if secs > 300 {
                        300
                    } else {
                        secs
                    },
                    persist,
                },
            ),
        )
    }

    /// What a user sees while pages are found.
    pub fn discovering_title(query: &str) -> (r: String)
        ensures
            r@ == "Discovering: "@ + ellipsized(query@, 48) + "…"@,
    {
        let mut r = "Discovering: ".to_string();
        r.append(ellipsize(query, 48).as_str());
        r.append("…");
        r
    }

    /// Decides where a session starts from, given the pages that were found.
    pub fn start(domains: &Vec<String>, found: Vec<ResearchSeed>, max_search_results: usize) -> (r:
        Result<ResearchStart, String>)
        ensures
            is_start(r, views(domains@), found@, max_search_results as nat),
    {
        let ghost all = found@;
        let mut seeds = found;
        if seeds.len() > max_search_results {
            seeds.truncate(max_search_results);
        }
        proof {
            assert(all.len() <= max_search_results ==> seeds@ == all);
            assert(all.len() > max_search_results ==> seeds@ =~= all.take(
                max_search_results as int,
            ));
            assert(are_first(seeds@, all, max_search_results as nat));
        }
        if seeds.len() == 0 {
            return Err("discovery_failed: no search hits".to_string());
        }
        assert(views(domains@).len() == domains@.len());
        let hosts: Vec<String> = if domains.len() == 0 {
            ResearchSession::allowlist_from_seeds(&seeds)
        } else {
            crate::text::clone_strs(domains)
        };
        assert(is_host_list(views(hosts@), views(domains@), seeds@));
        let usable = keep_usable(&hosts);
        assert(views(usable@).len() == usable@.len());
        if usable.len() == 0 {
            return Err(NO_DOMAINS.to_string());
        }
        Ok(ResearchStart { seeds, domains: usable })
    }

    /// What a user is asked before the pages are fetched; `code` is the query, set as code.
    pub fn permission(
        query: &str,
        code: &str,
        domains: &Vec<String>,
        plan: &ResearchPlan,
        browser_fallback: bool,
        ingest_to_rag: bool,
    ) -> (r: ResearchPermission)
        ensures
            r.title@ == "Research web for "@ + code@ + " on ["@ + join(
                first_strs(views(domains@), 6),
                ", "@,
            ) + "] (≤"@ + dec(plan.max_pages as nat) + " pages, depth "@ + dec(
                plan.max_depth as nat,
            ) + ", "@ + dec(plan.time_budget_secs as nat) + "s"@ + (if browser_fallback {
                "; may use isolated browser"@
            } else {
                ""@
            }) + (if ingest_to_rag {
                "; will ingest to RAG"@
            } else {
                ""@
            }) + ")"@,
            r.context.tool_name@ == RESEARCH_WEB_NAME@,
            views(r.context.input_values@) == auth_values(query@, views(domains@), ingest_to_rag),
    {
        let mut title = "Research web for ".to_string();
        title.append(code);
        title.append(" on [");
        title.append(join_strs(&take_strs(domains, 6), ", ").as_str());
        title.append("] (≤");
        title.append(dec_str(plan.max_pages as u64).as_str());
        title.append(" pages, depth ");
        title.append(dec_str(plan.max_depth as u64).as_str());
        title.append(", ");
        title.append(dec_str(plan.time_budget_secs).as_str());
        title.append("s");
        title.append(
            if browser_fallback {
                "; may use isolated browser"
            } else {
                ""
            },
        );
        title.append(
            if ingest_to_rag {
                "; will ingest to RAG"
            } else {
                ""
            },
        );
        title.append(")");
        ResearchPermission {
            title,
            context: ToolPermissionContext {
                tool_name: RESEARCH_WEB_NAME.to_string(),
                input_values: research_auth_values(query, domains, ingest_to_rag),
            },
        }
    }

    /// What is said where a user does not allow the session.
    pub fn denied(error: &str) -> (r: String)
        ensures
            r@ == "research_denied_after_discovery: "@ + error@,
    {
        let mut r = "research_denied_after_discovery: ".to_string();
        r.append(error);
        r
    }

    /// What a user sees while the pages are fetched.
    pub fn researching_title(hosts: usize, max_pages: usize) -> (r: String)
        ensures
            r@ == "Researching "@ + dec(hosts as nat) + " host(s), ≤"@ + dec(max_pages as nat)
                + " pages…"@,
    {
        let mut r = "Researching ".to_string();
        r.append(dec_str(hosts as u64).as_str());
        r.append(" host(s), ≤");
        r.append(dec_str(max_pages as u64).as_str());
        r.append(" pages…");
        r
    }

    /// How far a session goes.
    pub fn budgets(plan: &ResearchPlan, settings: &WebResearchSettings) -> (r: ResearchBudgets)
        ensures
            r.max_pages == plan.max_pages,
            r.max_depth == plan.max_depth,
            r.max_download_bytes == if settings.max_response_bytes * 4 > u64::MAX {
                u64::MAX as int
            } else {
                settings.max_response_bytes * 4
            },
            r.wall_clock == plan.time_budget_secs * 1000,
    {
        let bytes: u64 = if settings.max_response_bytes > u64::MAX / 4 {
            u64::MAX
        } else {
            settings.max_response_bytes * 4
        };
        ResearchBudgets {
            max_pages: plan.max_pages,
            max_depth: plan.max_depth,
            max_download_bytes: bytes,
            wall_clock: plan.time_budget_secs as u128 * 1000,
        }
    }

    /// The configuration with which the pages are fetched.
    pub fn config(plan: &ResearchPlan, settings: &WebResearchSettings, data_dir: &str) -> (r:
        WebResearchConfig)
        ensures
            r.max_pages == plan.max_pages,
            r.max_depth == plan.max_depth,
            r.research_wall_clock == plan.time_budget_secs * 1000,
            r.serves(*settings, data_dir@),
    {
        let mut config = web_research_config_from_settings(settings, data_dir);
        config.max_pages = plan.max_pages;
        config.max_depth = plan.max_depth;
        config.research_wall_clock = plan.time_budget_secs as u128 * 1000;
        config
    }

    /// What is kept of a session, and its digest with the name under which it is kept.
    pub fn store(outcome: ResearchSessionOutcome, id: String, now_ms: u64) -> (r: (
        ResearchDigest,
        StoredResearchSession,
    ))
        ensures
            r.0@ == (DigestView { session_id: Some(id@), ..outcome.digest@ }),
            r.1.id@ == id@,
            r.1.created_at_unix_ms == now_ms,
            r.1.updated_at_unix_ms == now_ms,
            r.1.digest@ == r.0@,
            body_views(r.1.pages@) == body_views(outcome.pages@),
    {
        let mut digest = outcome.digest;
        digest.session_id = Some(id.clone());
        let copy = digest.clone();
        (
            digest,
            StoredResearchSession {
                id,
                created_at_unix_ms: now_ms,
                updated_at_unix_ms: now_ms,
                digest: copy,
                pages: outcome.pages,
            },
        )
    }

    /// What is noted once a session is over: that it could not be kept, and how its pages were
    /// indexed.
    pub fn closing_note(persist_error: Option<&str>, ingest_note: Option<&str>) -> (r: String)
        ensures
            r@ == closing_text(
                match persist_error {
                    Some(e) => Some(e@),
                    None => None,
                },
                match ingest_note {
                    Some(n) => Some(n@),
                    None => None,
                },
            ),
    {
        let mut r = String::new();
        match persist_error {
            Some(e) => {
                r.append("persist_failed: ");
                r.append(e);
                assert(r@ =~= "persist_failed: "@ + e@);
                match ingest_note {
                    Some(n) => {
                        r.append("; ");
                        r.append(n);
                    },
                    None => {},
                }
            },
            None => match ingest_note {
                Some(n) => {
                    r.append(n);
                    assert(r@ =~= n@);
                },
                None => {},
            },
        }
        r
    }

    /// The digest with a note on how it ended.
    pub fn annotate(digest: ResearchDigest, note: &str) -> (r: ResearchDigest)
        ensures
            r@ == annotated(digest@, note@),
    {
        let mut digest = digest;
        if !note.is_empty() {
            let mut reason = digest.stopped_reason.clone();
            reason.append(" | ");
            reason.append(note);
            digest.stopped_reason = reason;
        }
        digest
    }

    /// What a user is asked before the pages of a session that was kept are indexed; `code` is its
    /// name, set as code.
    pub fn ingest_permission(stored: &StoredResearchSession, code: &str) -> (r: ResearchPermission)
        ensures
            r.title@ == "Ingest research session "@ + code@ + " into RAG ("@ + dec(
                stored.pages@.len(),
            ) + " page(s))"@,
            r.context.tool_name@ == RESEARCH_WEB_NAME@,
            views(r.context.input_values@) == auth_values(
                stored.digest.query@,
                views(stored.digest.domain_allowlist@),
                true,
            ).push("session_id="@ + stored.id@),
    {
        let mut title = "Ingest research session ".to_string();
        title.append(code);
        title.append(" into RAG (");
        title.append(dec_str(stored.pages.len() as u64).as_str());
        title.append(" page(s))");
        let mut values = research_auth_values(
            stored.digest.query.as_str(),
            &stored.digest.domain_allowlist,
            true,
        );
        let ghost before = views(values@);
        let mut id = "session_id=".to_string();
        id.append(stored.id.as_str());
        let ghost i = id@;
        values.push(id);
        assert(views(values@) =~= before.push(i));
        ResearchPermission {
            title,
            context: ToolPermissionContext {
                tool_name: RESEARCH_WEB_NAME.to_string(),
                input_values: values,
            },
        }
    }

    /// The digest of a session that was kept, with its name and a note.
    pub fn resume(stored: StoredResearchSession, note: &str) -> (r: ResearchDigest)
        ensures
            r@ == annotated(
                (DigestView { session_id: Some(stored.id@), ..stored.digest@ }),
                note@,
            ),
    {
        let mut digest = stored.digest;
        digest.session_id = Some(stored.id);
        Self::annotate(digest, note)
    }

    /// What a user sees of a session that was gone back to; `code` is its name, set as code.
    pub fn resumed_title(code: &str) -> (r: String)
        ensures
            r@ == "Resumed research session "@ + code@,
    {
        let mut r = "Resumed research session ".to_string();
        r.append(code);
        r
    }

    /// What a user sees of a digest.
    pub fn digest_title(digest: &ResearchDigest) -> (r: String)
        ensures
            r@ == "Researched: "@ + dec(digest.pages_fetched as nat) + " page(s), "@
                + digest.stopped_reason@,
    {
        let mut r = "Researched: ".to_string();
        r.append(dec_str(digest.pages_fetched as u64).as_str());
        r.append(" page(s), ");
        r.append(digest.stopped_reason.as_str());
        r
    }

    /// The sources of a digest, as links.
    pub fn source_links(digest: &ResearchDigest) -> (r: Vec<SourceLink>)
        ensures
            link_views(r@) == links_of(digest@),
    {
        let ghost sources = digest@.sources;
        let n: usize = digest.sources.len();
        let mut r: Vec<SourceLink> = Vec::new();
        let mut i: usize = 0;
        assert(sources.take(0) =~= Seq::empty());
        while i < n
            invariant
                i <= n,
                n == digest.sources@.len(),
                sources == digest@.sources,
                r@.len() == i,
                forall|j: int| 0 <= j < i ==> (#[trigger] r@[j])@ == link_of(sources[j]),
            decreases n - i,
        {
            let s = &digest.sources[i];
            assert(sources[i as int] == s@);
            let mut label = "[".to_string();
            label.append(dec_str(s.index as u64).as_str());
            label.append("] ");
            label.append(s.title.as_str());
            assert(views(s.quotes@).len() == s.quotes@.len());
            let description = if s.quotes.len() > 0 {
                assert(views(s.quotes@)[0] == s.quotes@[0]@);
                s.quotes[0].clone()
            } else {
                s.source_id.clone()
            };
            r.push(SourceLink { name: s.title.clone(), url: s.url.clone(), label, description });
            i = i + 1;
        }
        assert(link_views(r@) =~= links_of(digest@));
        r
    }
}

/// A source, as a link.
#[derive(Debug)]
pub struct SourceLink {
    pub name: String,
    pub url: String,
    pub label: String,
    pub description: String,
}

/// A source, as a link, in characters.
pub struct LinkView {
    pub name: Seq<char>,
    pub url: Seq<char>,
    pub label: Seq<char>,
    pub description: Seq<char>,
}

impl View for SourceLink {
    type V = LinkView;

    open spec fn view(&self) -> LinkView {
        LinkView {
            name: self.name@,
            url: self.url@,
            label: self.label@,
            description: self.description@,
        }
    }
}

pub open spec fn link_views(v: Seq<SourceLink>) -> Seq<LinkView> {
    v.map_values(|l: SourceLink| l@)
}

/// A source as a link: with its number, and the first quote from it, if there is one.
pub open spec fn link_of(s: crate::web_research::session::CitationView) -> LinkView {
    LinkView {
        name: s.title,
        url: s.url,
        label: "["@ + dec(s.index as nat) + "] "@ + s.title,
        description: if s.quotes.len() > 0 {
            s.quotes[0]
        } else {
            s.source_id
        },
    }
}

pub open spec fn links_of(d: DigestView) -> Seq<LinkView> {
    d.sources.map_values(|s: crate::web_research::session::CitationView| link_of(s))
}

// ---------------------------------------------------------------------------
// Indexing pages
// ---------------------------------------------------------------------------

/// What is indexed of a page: under which name, and which text. A page without text is not.
pub open spec fn page_document(page: ResearchPageBody) -> Option<(Seq<char>, Seq<char>)> {
    if trim(page.markdown@).len() == 0 {
        None
    } else {
        Some(
            (
                rag_source(page.url@, page.source_id@),
                "# "@ + page.title@ + "\nSource: "@ + page.url@ + "\nMode: "@ + page.fetch_mode@
                    + "\n\n"@ + page.markdown@,
            ),
        )
    }
}

/// What is indexed of a page, if anything is.
pub fn document_of_page(page: &ResearchPageBody) -> (r: Option<(String, String)>)
    ensures
        match r {
            Some((source, text)) => page_document(*page) == Some((source@, text@)),
            None => page_document(*page) is None,
        },
{
    if trim_str(page.markdown.as_str()).as_str().is_empty() {
        return None;
    }
    let source = web_rag_source(page.url.as_str(), page.source_id.as_str());
    let mut text = "# ".to_string();
    text.append(page.title.as_str());
    text.append("\nSource: ");
    text.append(page.url.as_str());
    text.append("\nMode: ");
    text.append(page.fetch_mode.as_str());
    text.append("\n\n");
    text.append(page.markdown.as_str());
    Some((source, text))
}

/// How much has been indexed: how many chunks, and of how many pages or files.
#[derive(Debug, Clone, Copy, PartialEq, Eq, Structural)]
pub struct IngestTally {
    pub chunks: usize,
    pub sources: usize,
}

impl IngestTally {
    pub fn new() -> (r: Self)
        ensures
            r.chunks == 0,
            r.sources == 0,
    {
        IngestTally { chunks: 0, sources: 0 }
    }

    /// Counts a page or file of which so many chunks were indexed; one of which none were does not
    /// count.
    pub fn count(&mut self, chunks: usize)
        requires
            old(self).chunks + chunks <= usize::MAX,
            old(self).sources < usize::MAX,
        ensures
            final(self).chunks == old(self).chunks + chunks,
            final(self).sources == old(self).sources + (if chunks > 0 {
                1int
            } else {
                0int
            }),
    {
        if chunks > 0 {
            self.sources = self.sources + 1;
            self.chunks = self.chunks + chunks;
        }
    }
}

/// What is indexed of pages, in their order.
pub open spec fn page_documents(pages: Seq<ResearchPageBody>) -> Seq<(Seq<char>, Seq<char>)>
    decreases pages.len(),
{
    if pages.len() == 0 {
        Seq::empty()
    } else {
        let before = page_documents(pages.drop_last());
        match page_document(pages.last()) {
            Some(d) => before.push(d),
            None => before,
        }
    }
}

/// The indexing of pages, one at a time.
#[derive(Debug)]
pub struct PageIngest {
    documents: Vec<(String, String)>,
    at: usize,
    tally: IngestTally,
}

impl PageIngest {
    /// What is to be indexed.
    pub closed spec fn documents(&self) -> Seq<(Seq<char>, Seq<char>)> {
        pair_views(self.documents@)
    }

    /// How many of them have been indexed.
    pub closed spec fn at(&self) -> nat {
        self.at as nat
    }

    pub closed spec fn tally(&self) -> IngestTally {
        self.tally
    }

    pub closed spec fn wf(&self) -> bool {
        &&& self.at <= self.documents@.len()
        &&& self.tally.sources <= self.at
    }

    pub fn start(pages: &Vec<ResearchPageBody>) -> (r: Self)
        ensures
            r.wf(),
            r.documents() == page_documents(pages@),
            r.at() == 0,
            r.tally() == (IngestTally { chunks: 0, sources: 0 }),
    {
        let mut documents: Vec<(String, String)> = Vec::new();
        let mut i: usize = 0;
        assert(pages@.take(0) =~= Seq::<ResearchPageBody>::empty());
        assert(pair_views(documents@) =~= Seq::<(Seq<char>, Seq<char>)>::empty());
        while i < pages.len()
            invariant
                i <= pages@.len(),
                pair_views(documents@) == page_documents(pages@.take(i as int)),
            decreases pages@.len() - i,
        {
            let ghost before = pair_views(documents@);
            assert(pages@.take(i + 1).drop_last() =~= pages@.take(i as int));
            match document_of_page(&pages[i]) {
                Some(d) => {
                    let ghost pair = (d.0@, d.1@);
                    documents.push(d);
                    assert(pair_views(documents@) =~= before.push(pair));
                },
                None => {},
            }
            i = i + 1;
        }
        assert(pages@.take(pages@.len() as int) =~= pages@);
        PageIngest { documents, at: 0, tally: IngestTally::new() }
    }

    /// What is indexed next: under which name, and which text.
    pub fn next(&self) -> (r: Option<(&str, &str)>)
        requires
            self.wf(),
        ensures
            match r {
                Some((source, text)) => self.at() < self.documents().len() && self.documents()[
                    self.at() as int
                ] == (source@, text@),
                None => self.at() == self.documents().len(),
            },
    {
        if self.at < self.documents.len() {
            let d = &self.documents[self.at];
            Some((d.0.as_str(), d.1.as_str()))
        } else {
            None
        }
    }

    /// Counts the chunks of what was indexed.
    pub fn record(&mut self, chunks: usize)
        requires
            old(self).wf(),
            old(self).at() < old(self).documents().len(),
            old(self).tally().chunks + chunks <= usize::MAX,
        ensures
            final(self).wf(),
            final(self).documents() == old(self).documents(),
            final(self).at() == old(self).at() + 1,
            final(self).tally().chunks == old(self).tally().chunks + chunks,
            final(self).tally().sources == old(self).tally().sources + (if chunks > 0 {
                1int
            } else {
                0int
            }),
    {
        let n: usize = self.documents.len();
        assert(self.documents().len() == n);
        self.tally.count(chunks);
        self.at = self.at + 1;
    }

    pub fn finish(self) -> (r: IngestTally)
        ensures
            r == self.tally(),
    {
        self.tally
    }
}

/// What is noted of the pages that were indexed; none, where there were none to index.
pub fn ingest_note(tally: Option<&IngestTally>) -> (r: String)
    ensures
        r@ == match tally {
            Some(t) => "rag_ingest: "@ + dec(t.chunks as nat) + " chunk(s) from "@ + dec(
                t.sources as nat,
            ) + " page(s) as source=web:…"@,
            None => "rag_ingest: no fetched pages"@,
        },
{
    match tally {
        Some(t) => {
            let mut r = "rag_ingest: ".to_string();
            r.append(dec_str(t.chunks as u64).as_str());
            r.append(" chunk(s) from ");
            r.append(dec_str(t.sources as u64).as_str());
            r.append(" page(s) as source=web:…");
            r
        },
        None => "rag_ingest: no fetched pages".to_string(),
    }
}

/// What is said of a page that could not be indexed.
pub fn ingest_failed(source: &str, error: &str) -> (r: String)
    ensures
        r@ == "Failed to ingest "@ + source@ + ": "@ + error@,
{
    let mut r = "Failed to ingest ".to_string();
    r.append(source);
    r.append(": ");
    r.append(error);
    r
}

/// A session is run within its bounds, whatever is asked for.
pub proof fn lemma_plans_are_bounded(input: ResearchWebToolInput, settings: WebResearchSettings)
    ensures
        1 <= plan_of(input, settings).max_pages <= 12,
        plan_of(input, settings).max_depth <= 3,
        15 <= plan_of(input, settings).time_budget_secs <= 300,
{
}

/// Each host that is allowed was given, and is named and not numbered.
pub proof fn lemma_usable_domains_are_usable(domains: Seq<Seq<char>>, i: int)
    requires
        0 <= i < usable_domains(domains).len(),
    ensures
        is_usable_domain(usable_domains(domains)[i]),
        domains.contains(usable_domains(domains)[i]),
    decreases domains.len(),
{
    let rest = usable_domains(domains.drop_last());
    if i < rest.len() {
        lemma_usable_domains_are_usable(domains.drop_last(), i);
        let k = choose|k: int|
            0 <= k < domains.drop_last().len() && domains.drop_last()[k] == rest[i];
        assert(domains[k] == rest[i]);
    } else {
        assert(domains[domains.len() - 1] == usable_domains(domains)[i]);
    }
}

} // verus!
