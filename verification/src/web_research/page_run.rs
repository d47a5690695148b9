//! Fetching a page, one step at a time: what is checked, looked up, requested and shown in a
//! browser.
use crate::json::pair_views;
use crate::web_research::cache::CachedPage;
use crate::web_research::config::WebResearchConfig;
use crate::web_research::extract::result_view;
use crate::web_research::fetch::{
    after_browser, cached_page, check_requested, is_judgement, judge_response, page_from_cache,
    requested_url, without_browser, FetchError, FetchOutcome, FetchedPage, HostStanding,
    JudgedResponse, PageVerdict,
};
use crate::web_research::http::{
    is_canonical, research_headers, Method, SafeHttpError, SafeHttpOptions, SafeHttpResponse,
    RESEARCH_ACCEPT,
};
use crate::web_research::url_policy::{
    canonicalize_url, host_to_resolve, name_of, parsed_url, refusal, with_scheme, PolicyRefusal,
    Resolution, Url, UrlParts,
};
use crate::text::opt_text;
use vstd::prelude::*;

verus! {

/// What the fetching of a page waits for.
#[derive(Debug)]
pub enum PageRun {
    /// The host of the page is resolved.
    Checking { requested: Url, has_cache: bool },
    /// The page is looked up in the cache.
    LookingUp { requested: Url },
    /// The page is requested.
    Requesting { requested: Url },
    /// A browser shows the page, for a reason.
    Browsing { reason: String, final_url: Url },
    Done,
}

/// A response that was read: what the elements of its body were turned into, and when.
#[derive(Debug)]
pub struct ReadResponse {
    pub response: SafeHttpResponse,
    pub html: Result<String, String>,
    pub now_ms: u64,
}

#[derive(Debug)]
pub enum PageEvent {
    Resolved(Resolution),
    /// The page as it was cached, if it was and may still be used.
    Cached(Option<CachedPage>),
    Responded(Result<ReadResponse, SafeHttpError>),
    Browsed(Result<FetchedPage, FetchError>),
}

/// What a response means for the host that gave it.
#[derive(Debug)]
pub struct HostNote {
    pub host: Option<String>,
    pub standing: HostStanding,
}

#[derive(Debug)]
pub enum PageAction {
    /// A host is resolved; where there is none, any answer does.
    Resolve { host: Option<String> },
    /// The page is looked up in the cache, under this name.
    LookUp { key: String },
    /// The page is requested from this URL.
    Request { url: String, options: SafeHttpOptions },
    /// A browser shows the page of `requested`, which is at `url`.
    Browse { requested: String, url: String, note: HostNote },
    /// The fetching ends. What is known of the host is noted, and what may be cached is stored.
    Finish {
        result: Result<FetchOutcome, FetchError>,
        note: Option<HostNote>,
        store: Option<CachedPage>,
    },
    /// The event changes nothing.
    Wait,
}

/// Whether `options` are those with which a page is fetched.
pub open spec fn are_page_options(options: SafeHttpOptions, config: WebResearchConfig) -> bool {
    &&& options.method == Method::Get
    &&& pair_views(options.headers@) == seq![
        ("Accept"@, RESEARCH_ACCEPT@),
        ("Accept-Language"@, "en-US,en;q=0.8"@),
    ]
    &&& options.body is None
    &&& options.max_redirects == config.max_redirects
    &&& options.max_response_bytes == config.max_response_bytes
    &&& options.request_timeout == config.request_timeout
}

/// How a page is fetched.
pub fn page_options(config: &WebResearchConfig) -> (r: SafeHttpOptions)
    ensures
        are_page_options(r, *config),
{
    SafeHttpOptions {
        method: Method::Get,
        headers: research_headers(),
        body: None,
        max_redirects: config.max_redirects,
        max_response_bytes: config.max_response_bytes,
        request_timeout: config.request_timeout,
    }
}

/// Whether the fetching has ended with a result, and nothing is noted or stored.
pub open spec fn ends_with(
    after: PageRun,
    action: PageAction,
    result: Result<FetchOutcome, FetchError>,
) -> bool {
    &&& after is Done
    &&& action == PageAction::Finish { result, note: None, store: None }
}

/// Whether the page is requested.
pub open spec fn is_requested(
    after: PageRun,
    action: PageAction,
    requested: Url,
    config: WebResearchConfig,
) -> bool {
    &&& after == PageRun::Requesting { requested }
    &&& action matches PageAction::Request { url, options }
    &&& url@ == requested@.text
    &&& are_page_options(options, config)
}

/// What a failed request means for a page.
pub open spec fn is_from_http(r: FetchError, error: SafeHttpError) -> bool {
    match error {
        SafeHttpError::SsrfBlocked(m) => r == FetchError::SsrfBlocked(m),
        SafeHttpError::Timeout => r is Timeout,
        SafeHttpError::Other(m) => r == FetchError::Other(m),
        _ => r matches FetchError::Other(m) && m@ == error.text(),
    }
}

/// Whether `note` says what a judgement means for the host of a URL.
pub open spec fn is_note(note: HostNote, url: UrlParts, standing: HostStanding) -> bool {
    &&& opt_text(note.host) == url.host_text
    &&& note.standing == standing
}

/// Whether what follows a response that was judged is done.
pub open spec fn follows_judgement(
    judged: JudgedResponse,
    requested: UrlParts,
    final_url: Url,
    config: WebResearchConfig,
    after: PageRun,
    action: PageAction,
) -> bool {
    match judged.verdict {
        Err(e) => {
            &&& after is Done
            &&& action matches PageAction::Finish { result, note: Some(note), store: None }
            &&& result == Err::<FetchOutcome, FetchError>(e)
            &&& is_note(note, final_url@, judged.standing)
        },
        Ok(PageVerdict::Page(page, cached)) => {
            &&& after is Done
            &&& action matches PageAction::Finish { result, note: Some(note), store: Some(store) }
            &&& result == Ok::<FetchOutcome, FetchError>(FetchOutcome::Fetched(page))
            &&& is_note(note, final_url@, judged.standing)
            &&& store == cached
        },
        Ok(PageVerdict::NeedsBrowser(reason)) => if config.browser_fallback_enabled {
            &&& after == PageRun::Browsing { reason, final_url }
            &&& action matches PageAction::Browse { requested: asked, url, note }
            &&& asked@ == requested.text
            &&& url@ == final_url@.text
            &&& is_note(note, final_url@, judged.standing)
        } else {
            &&& after is Done
            &&& action matches PageAction::Finish {
                result: Ok(FetchOutcome::NeedsBrowser { reason: m, url }),
                note: Some(note),
                store: None,
            }
            &&& m == reason
            &&& url@ == final_url@.text
            &&& is_note(note, final_url@, judged.standing)
        },
    }
}

/// Whether one step leads from `before` to `after`.
pub open spec fn page_steps(
    before: PageRun,
    event: PageEvent,
    config: WebResearchConfig,
    after: PageRun,
    action: PageAction,
) -> bool {
    match (before, event) {
        (PageRun::Checking { requested, has_cache }, PageEvent::Resolved(resolution)) => {
            match refusal(requested@, resolution) {
                Some(w) => {
                    &&& after is Done
                    &&& action matches PageAction::Finish {
                        result: Err(FetchError::SsrfBlocked(m)),
                        note: None,
                        store: None,
                    }
                    &&& m@ == w.text()
                },
                None => if has_cache {
                    &&& after == PageRun::LookingUp { requested }
                    &&& action matches PageAction::LookUp { key }
                    &&& exists|canonical: UrlParts| #[trigger]
                        is_canonical(canonical, requested@) && key@ == canonical.text
                } else {
                    is_requested(after, action, requested, config)
                },
            }
        },
        (PageRun::LookingUp { requested }, PageEvent::Cached(None)) => is_requested(
            after,
            action,
            requested,
            config,
        ),
        (PageRun::LookingUp { requested }, PageEvent::Cached(Some(cached))) => {
            &&& after is Done
            &&& action matches PageAction::Finish {
                result: Ok(FetchOutcome::Fetched(page)),
                note: None,
                store: None,
            }
            &&& page@ == cached_page(requested@.text, cached)
        },
        (PageRun::Requesting { requested }, PageEvent::Responded(Err(error))) => {
            &&& after is Done
            &&& action matches PageAction::Finish { result: Err(e), note: None, store: None }
            &&& is_from_http(e, error)
        },
        (PageRun::Requesting { requested }, PageEvent::Responded(Ok(read))) => {
            exists|judged: JudgedResponse|
                {
                    &&& #[trigger] is_judgement(
                        judged,
                        requested@.text,
                        read.response,
                        result_view(read.html),
                        config.max_fetch_chars as nat,
                        read.now_ms,
                    )
                    &&& follows_judgement(
                        judged,
                        requested@,
                        read.response.final_url,
                        config,
                        after,
                        action,
                    )
                }
        },
        (PageRun::Browsing { reason, final_url }, PageEvent::Browsed(result)) => match result {
            Err(FetchError::BrowserUnavailable(e)) => {
                &&& after is Done
                &&& action matches PageAction::Finish {
                    result: Ok(FetchOutcome::NeedsBrowser { reason: m, url }),
                    note: None,
                    store: None,
                }
                &&& m@ == reason@ + "; browser_unavailable: "@ + e@
                &&& url@ == final_url@.text
            },
            Err(e) => ends_with(after, action, Err(e)),
            Ok(page) => ends_with(after, action, Ok(FetchOutcome::Fetched(page))),
        },
        _ => after == before && action is Wait,
    }
}

fn end(result: Result<FetchOutcome, FetchError>) -> (r: (PageRun, PageAction))
    ensures
        ends_with(r.0, r.1, result),
{
    (PageRun::Done, PageAction::Finish { result, note: None, store: None })
}

fn request(requested: Url, config: &WebResearchConfig) -> (r: (PageRun, PageAction))
    ensures
        is_requested(r.0, r.1, requested, *config),
{
    let url = requested.as_str().to_string();
    let options = page_options(config);
    (PageRun::Requesting { requested }, PageAction::Request { url, options })
}

fn follow_judgement(
    judged: JudgedResponse,
    requested: Url,
    final_url: Url,
    config: &WebResearchConfig,
) -> (r: (PageRun, PageAction))
    ensures
        follows_judgement(judged, requested@, final_url, *config, r.0, r.1),
{
    let note = HostNote { host: final_url.host_str(), standing: judged.standing };
    match judged.verdict {
        Err(e) => (
            PageRun::Done,
            PageAction::Finish { result: Err(e), note: Some(note), store: None },
        ),
        Ok(PageVerdict::Page(page, cached)) => (
            PageRun::Done,
            PageAction::Finish {
                result: Ok(FetchOutcome::Fetched(page)),
                note: Some(note),
                store: Some(cached),
            },
        ),
        Ok(PageVerdict::NeedsBrowser(reason)) => {
            if config.browser_fallback_enabled {
                let asked = requested.as_str().to_string();
                let url = final_url.as_str().to_string();
                (
                    PageRun::Browsing { reason, final_url },
                    PageAction::Browse { requested: asked, url, note },
                )
            } else {
                let result = Ok(without_browser(reason, &final_url));
                (PageRun::Done, PageAction::Finish { result, note: Some(note), store: None })
            }
        },
    }
}

impl PageRun {
    /// Sets out for a page; `has_cache` says whether pages are cached.
    pub fn start(raw_url: &str, has_cache: bool) -> (r: (PageRun, PageAction))
        ensures
            match parsed_url(with_scheme(raw_url@)) {
                Err(e) => {
                    &&& r.0 is Done
                    &&& r.1 matches PageAction::Finish {
                        result: Err(FetchError::Policy(m)),
                        note: None,
                        store: None,
                    }
                    &&& m@ == PolicyRefusal::InvalidUrl(e)
                },
                Ok(p) => {
                    &&& r.0 matches PageRun::Checking { requested, has_cache: c }
                    &&& requested@ == p
                    &&& c == has_cache
                    &&& r.1 matches PageAction::Resolve { host }
                    &&& opt_text(host) == name_of(p)
                },
            },
    {
        match requested_url(raw_url) {
            Err(e) => end(Err(e)),
            Ok(requested) => {
                let host = host_to_resolve(&requested);
                (PageRun::Checking { requested, has_cache }, PageAction::Resolve { host })
            },
        }
    }

    pub fn step(self, event: PageEvent, config: &WebResearchConfig) -> (r: (PageRun, PageAction))
        ensures
            page_steps(self, event, *config, r.0, r.1),
    {
        match (self, event) {
            (PageRun::Checking { requested, has_cache }, PageEvent::Resolved(resolution)) => {
                match check_requested(&requested, &resolution) {
                    Err(e) => end(Err(e)),
                    Ok(()) => if has_cache {
                        let canonical = canonicalize_url(&requested);
                        assert(is_canonical(canonical@, requested@));
                        let key = canonical.as_str().to_string();
                        (PageRun::LookingUp { requested }, PageAction::LookUp { key })
                    } else {
                        request(requested, config)
                    },
                }
            },
            (PageRun::LookingUp { requested }, PageEvent::Cached(None)) => request(
                requested,
                config,
            ),
            (PageRun::LookingUp { requested }, PageEvent::Cached(Some(cached))) => {
                end(Ok(FetchOutcome::Fetched(page_from_cache(requested.as_str(), &cached))))
            },
            (PageRun::Requesting { .. }, PageEvent::Responded(Err(error))) => {
                end(Err(FetchError::from_http(error)))
            },
            (PageRun::Requesting { requested }, PageEvent::Responded(Ok(read))) => {
                let judged = judge_response(
                    requested.as_str(),
                    &read.response,
                    &read.html,
                    config.max_fetch_chars,
                    read.now_ms,
                );
                let ghost found = judged;
                let r = follow_judgement(judged, requested, read.response.final_url, config);
                assert(is_judgement(
                    found,
                    requested@.text,
                    read.response,
                    result_view(read.html),
                    config.max_fetch_chars as nat,
                    read.now_ms,
                ));
                r
            },
            (PageRun::Browsing { reason, final_url }, PageEvent::Browsed(result)) => {
                end(after_browser(reason.as_str(), &final_url, result))
            },
            (run, _) => (run, PageAction::Wait),
        }
    }
}

/// A page is looked up or requested only where its URL was found to lead to public addresses, or
/// once that was so.
pub proof fn lemma_only_public_pages_are_requested(
    before: PageRun,
    event: PageEvent,
    config: WebResearchConfig,
    after: PageRun,
    action: PageAction,
)
    requires
        page_steps(before, event, config, after, action),
        action is Request || action is LookUp,
    ensures
        match before {
            PageRun::Checking { requested, .. } => event matches PageEvent::Resolved(resolution)
                && refusal(requested@, resolution) is None,
            _ => before is LookingUp && action is Request,
        },
{
}

/// A browser is used only where the settings allow one.
pub proof fn lemma_pages_are_browsed_where_allowed(
    before: PageRun,
    event: PageEvent,
    config: WebResearchConfig,
    after: PageRun,
    action: PageAction,
)
    requires
        page_steps(before, event, config, after, action),
        action is Browse,
    ensures
        before is Requesting,
        config.browser_fallback_enabled,
{
}

/// A page is cached only where it is what comes of the fetching.
pub proof fn lemma_only_good_pages_are_cached(
    before: PageRun,
    event: PageEvent,
    config: WebResearchConfig,
    after: PageRun,
    action: PageAction,
)
    requires
        page_steps(before, event, config, after, action),
        action matches PageAction::Finish { store: Some(_), .. },
    ensures
        before is Requesting,
        action matches PageAction::Finish { result: Ok(FetchOutcome::Fetched(page)), store: Some(c), .. }
            && c.markdown@ == page@.extracted.markdown && c.content_sha256@
            == page@.content_sha256,
{
}

} // verus!
