//! How the tools that use the web go about their work: what each asks, does and gives, one step at
//! a time.
use crate::agent_settings::WebResearchSettings;
use crate::tools::full_access::FULL_ACCESS_DISABLED;
use crate::tools::web::{
    are_options, asks_about, browse_refusal, follows_fetch, gives_text, method_named, require_text,
    response_report, BrowsePageTool, BrowsePageToolInput, FetchStep, FetchTool, FetchToolInput,
    HttpRequestTool, HttpRequestToolInput, WebPermission, WebSearchToolInput, WebSearchToolOutput,
    WebSearchToolSuccess, BROWSE_CANCELLED, FETCH_CANCELLED, HTTP_REQUEST_NAME, REQUEST_CANCELLED,
    SEARCH_CANCELLED, SEARCH_NOT_AVAILABLE, UNSUPPORTED_METHOD,
};
use crate::web_research::envelope::SearchResult;
use crate::web_research::fetch::{page_output, FetchOutcome, FetchedPage};
use crate::web_research::http::{Method, SafeHttpOptions, SafeHttpResponse};
use crate::web_research::url_policy::{parsed_url, refusal, Resolution, Url};
use vstd::prelude::*;

verus! {

// ---------------------------------------------------------------------------
// Fetching
// ---------------------------------------------------------------------------

/// What the tool that fetches a page waits for.
#[derive(Debug)]
pub enum FetchRun {
    /// A user is asked whether the page may be fetched.
    Asking { url: String, browser_fallback: bool },
    Fetching { browser_fallback: bool },
    /// A user is asked whether a browser may show the page.
    AskingBrowser { url: String },
    Browsing,
    Done,
}

/// What happens while a page is fetched.
#[derive(Debug)]
pub enum FetchEvent {
    /// A user has answered, or why not.
    Answered(Result<(), String>),
    Fetched { outcome: Result<FetchOutcome, String>, full_access: bool },
    Browsed(Result<FetchedPage, String>),
    Cancelled,
}

/// What is done next.
#[derive(Debug)]
pub enum FetchAction {
    AskToFetch { url: String },
    /// The page is fetched, without a browser.
    Fetch { url: String },
    AskToBrowse { url: String },
    /// A browser shows the page.
    Browse { url: String },
    Finish(Result<String, String>),
    /// The event changes nothing.
    Wait,
}

/// Whether one step leads from `before` to `after`, and to an action.
pub open spec fn fetch_steps(
    before: FetchRun,
    event: FetchEvent,
    after: FetchRun,
    action: FetchAction,
) -> bool {
    match (before, event) {
        (FetchRun::Asking { url, browser_fallback }, FetchEvent::Answered(Ok(_))) => {
            &&& after == FetchRun::Fetching { browser_fallback }
            &&& action == FetchAction::Fetch { url }
        },
        (FetchRun::AskingBrowser { url }, FetchEvent::Answered(Ok(_))) => {
            &&& after is Browsing
            &&& action == FetchAction::Browse { url }
        },
        (FetchRun::Asking { .. }, FetchEvent::Answered(Err(e)))
        | (FetchRun::AskingBrowser { .. }, FetchEvent::Answered(Err(e)))
        | (FetchRun::Browsing, FetchEvent::Browsed(Err(e))) => {
            &&& after is Done
            &&& action == FetchAction::Finish(Err(e))
        },
        (FetchRun::Fetching { browser_fallback }, FetchEvent::Fetched { outcome, full_access }) => {
            match action {
                FetchAction::Finish(r) => after is Done && follows_fetch(
                    outcome,
                    browser_fallback,
                    full_access,
                    FetchStep::Finish(r),
                ),
                FetchAction::AskToBrowse { url } => after == (FetchRun::AskingBrowser { url })
                    && follows_fetch(
                    outcome,
                    browser_fallback,
                    full_access,
                    FetchStep::Browse(url),
                ),
                _ => false,
            }
        },
        (FetchRun::Browsing, FetchEvent::Browsed(Ok(page))) => {
            &&& after is Done
            &&& action matches FetchAction::Finish(r)
            &&& gives_text(r, page_output(page@))
        },
        (FetchRun::Asking { .. }, FetchEvent::Cancelled)
        | (FetchRun::Fetching { .. }, FetchEvent::Cancelled)
        | (FetchRun::Browsing, FetchEvent::Cancelled) => {
            &&& after is Done
            &&& action matches FetchAction::Finish(Err(m))
            &&& m@ == FETCH_CANCELLED@
        },
        _ => after == before && action is Wait,
    }
}

impl FetchRun {
    pub fn start(input: FetchToolInput, browser_fallback: bool) -> (r: (FetchRun, FetchAction))
        ensures
            r.0 matches FetchRun::Asking { url, browser_fallback: b } && url@ == input.url@ && b
                == browser_fallback,
            r.1 matches FetchAction::AskToFetch { url } && url@ == input.url@,
    {
        let url = input.url.clone();
        (
            FetchRun::Asking { url: input.url, browser_fallback },
            FetchAction::AskToFetch { url },
        )
    }

    pub fn step(self, event: FetchEvent) -> (r: (FetchRun, FetchAction))
        ensures
            fetch_steps(self, event, r.0, r.1),
    {
        match (self, event) {
            (FetchRun::Asking { url, browser_fallback }, FetchEvent::Answered(Ok(_))) => {
                (FetchRun::Fetching { browser_fallback }, FetchAction::Fetch { url })
            },
            (FetchRun::AskingBrowser { url }, FetchEvent::Answered(Ok(_))) => {
                (FetchRun::Browsing, FetchAction::Browse { url })
            },
            (FetchRun::Asking { .. }, FetchEvent::Answered(Err(e)))
            | (FetchRun::AskingBrowser { .. }, FetchEvent::Answered(Err(e)))
            | (FetchRun::Browsing, FetchEvent::Browsed(Err(e))) => {
                (FetchRun::Done, FetchAction::Finish(Err(e)))
            },
            (
                FetchRun::Fetching { browser_fallback },
                FetchEvent::Fetched { outcome, full_access },
            ) => {
                match FetchTool::after_fetch(outcome, browser_fallback, full_access) {
                    FetchStep::Finish(r) => (FetchRun::Done, FetchAction::Finish(r)),
                    FetchStep::Browse(url) => {
                        let asked = url.clone();
                        (FetchRun::AskingBrowser { url }, FetchAction::AskToBrowse { url: asked })
                    },
                }
            },
            (FetchRun::Browsing, FetchEvent::Browsed(Ok(page))) => {
                (FetchRun::Done, FetchAction::Finish(require_text(page.model_output())))
            },
            (FetchRun::Asking { .. }, FetchEvent::Cancelled)
            | (FetchRun::Fetching { .. }, FetchEvent::Cancelled)
            | (FetchRun::Browsing, FetchEvent::Cancelled) => {
                (FetchRun::Done, FetchAction::Finish(Err(FETCH_CANCELLED.to_string())))
            },
            (run, _) => (run, FetchAction::Wait),
        }
    }
}

/// A page is fetched, or shown in a browser, only right after a user has allowed just that.
pub proof fn lemma_fetching_needs_permission(
    before: FetchRun,
    event: FetchEvent,
    after: FetchRun,
    action: FetchAction,
)
    requires
        fetch_steps(before, event, after, action),
    ensures
        action matches FetchAction::Fetch { url } ==> {
            &&& event matches FetchEvent::Answered(Ok(_))
            &&& before matches FetchRun::Asking { url: asked, .. } && asked == url
        },
        action matches FetchAction::Browse { url } ==> {
            &&& event matches FetchEvent::Answered(Ok(_))
            &&& before == FetchRun::AskingBrowser { url }
        },
{
}

/// What a user refuses is not done: the tool ends with the refusal.
pub proof fn lemma_refused_fetch_ends(
    before: FetchRun,
    reason: String,
    after: FetchRun,
    action: FetchAction,
)
    requires
        before is Asking || before is AskingBrowser,
        fetch_steps(before, FetchEvent::Answered(Err(reason)), after, action),
    ensures
        after is Done,
        action == FetchAction::Finish(Err(reason)),
{
}

/// A user is asked about a browser only where both the settings and full access allow one.
pub proof fn lemma_fetch_browses_with_full_access(
    before: FetchRun,
    event: FetchEvent,
    after: FetchRun,
    action: FetchAction,
)
    requires
        fetch_steps(before, event, after, action),
        action is AskToBrowse,
    ensures
        before == (FetchRun::Fetching { browser_fallback: true }),
        event matches FetchEvent::Fetched { full_access, .. } && full_access,
{
}

/// Nothing is done once the tool has ended.
pub proof fn lemma_fetch_ends_once(event: FetchEvent, after: FetchRun, action: FetchAction)
    requires
        fetch_steps(FetchRun::Done, event, after, action),
    ensures
        after is Done,
        action is Wait,
{
}

// ---------------------------------------------------------------------------
// Browsing
// ---------------------------------------------------------------------------

/// What the tool that shows a page in a browser waits for.
#[derive(Debug)]
pub enum BrowseRun {
    Asking { url: String },
    Browsing,
    Done,
}

#[derive(Debug)]
pub enum BrowseEvent {
    Answered(Result<(), String>),
    Browsed(Result<FetchedPage, String>),
    Cancelled,
}

#[derive(Debug)]
pub enum BrowseAction {
    Ask { url: String },
    Browse { url: String },
    Finish(Result<String, String>),
    Wait,
}

pub open spec fn browse_steps(
    before: BrowseRun,
    event: BrowseEvent,
    after: BrowseRun,
    action: BrowseAction,
) -> bool {
    match (before, event) {
        (BrowseRun::Asking { url }, BrowseEvent::Answered(Ok(_))) => {
            &&& after is Browsing
            &&& action == BrowseAction::Browse { url }
        },
        (BrowseRun::Asking { .. }, BrowseEvent::Answered(Err(e)))
        | (BrowseRun::Browsing, BrowseEvent::Browsed(Err(e))) => {
            &&& after is Done
            &&& action == BrowseAction::Finish(Err(e))
        },
        (BrowseRun::Browsing, BrowseEvent::Browsed(Ok(page))) => {
            &&& after is Done
            &&& action matches BrowseAction::Finish(r)
            &&& gives_text(r, page_output(page@))
        },
        (BrowseRun::Browsing, BrowseEvent::Cancelled) => {
            &&& after is Done
            &&& action matches BrowseAction::Finish(Err(m))
            &&& m@ == BROWSE_CANCELLED@
        },
        _ => after == before && action is Wait,
    }
}

impl BrowseRun {
    pub fn start(
        input: BrowsePageToolInput,
        settings: &WebResearchSettings,
        full_access: bool,
    ) -> (r: (BrowseRun, BrowseAction))
        ensures
            match browse_refusal(settings, full_access) {
                Some(m) => {
                    &&& r.0 is Done
                    &&& r.1 matches BrowseAction::Finish(Err(e))
                    &&& e@ == m
                },
                None => {
                    &&& r.0 == BrowseRun::Asking { url: input.url }
                    &&& r.1 == BrowseAction::Ask { url: input.url }
                },
            },
    {
        match BrowsePageTool::check(settings, full_access) {
            Err(e) => (BrowseRun::Done, BrowseAction::Finish(Err(e))),
            Ok(()) => {
                let url = input.url.clone();
                (BrowseRun::Asking { url: input.url }, BrowseAction::Ask { url })
            },
        }
    }

    pub fn step(self, event: BrowseEvent) -> (r: (BrowseRun, BrowseAction))
        ensures
            browse_steps(self, event, r.0, r.1),
    {
        match (self, event) {
            (BrowseRun::Asking { url }, BrowseEvent::Answered(Ok(_))) => {
                (BrowseRun::Browsing, BrowseAction::Browse { url })
            },
            (BrowseRun::Asking { .. }, BrowseEvent::Answered(Err(e)))
            | (BrowseRun::Browsing, BrowseEvent::Browsed(Err(e))) => {
                (BrowseRun::Done, BrowseAction::Finish(Err(e)))
            },
            (BrowseRun::Browsing, BrowseEvent::Browsed(Ok(page))) => {
                (BrowseRun::Done, BrowseAction::Finish(require_text(page.model_output())))
            },
            (BrowseRun::Browsing, BrowseEvent::Cancelled) => {
                (BrowseRun::Done, BrowseAction::Finish(Err(BROWSE_CANCELLED.to_string())))
            },
            (run, _) => (run, BrowseAction::Wait),
        }
    }
}

/// A browser is used only right after a user has allowed it, and a refusal ends the tool.
pub proof fn lemma_browsing_needs_permission(
    before: BrowseRun,
    event: BrowseEvent,
    after: BrowseRun,
    action: BrowseAction,
)
    requires
        browse_steps(before, event, after, action),
    ensures
        action matches BrowseAction::Browse { url } ==> {
            &&& event matches BrowseEvent::Answered(Ok(_))
            &&& before == BrowseRun::Asking { url }
        },
        before is Asking ==> (event matches BrowseEvent::Answered(Err(e)) ==> action
            == BrowseAction::Finish(Err(e))),
{
}

// ---------------------------------------------------------------------------
// Searching
// ---------------------------------------------------------------------------

/// What the tool that searches the web waits for.
#[derive(Debug)]
pub enum SearchRun {
    Asking { query: String },
    /// The provider of searches is looked up.
    Choosing { query: String },
    Searching { query: String, provider: String },
    Done,
}

#[derive(Debug)]
pub enum SearchEvent {
    Answered(Result<(), String>),
    /// The provider that searches, if there is one.
    Chosen(Option<String>),
    Searched(Result<Vec<SearchResult>, String>),
    Cancelled,
}

#[derive(Debug)]
pub enum SearchAction {
    Ask { query: String },
    Choose,
    Search { query: String },
    Finish(Result<WebSearchToolOutput, WebSearchToolOutput>),
    Wait,
}

/// Whether the tool has ended with an error.
pub open spec fn search_fails(after: SearchRun, action: SearchAction, text: Seq<char>) -> bool {
    &&& after is Done
    &&& action matches SearchAction::Finish(Err(WebSearchToolOutput::Error { error }))
    &&& error@ == text
}

pub open spec fn search_steps(
    before: SearchRun,
    event: SearchEvent,
    after: SearchRun,
    action: SearchAction,
) -> bool {
    match (before, event) {
        (SearchRun::Asking { query }, SearchEvent::Answered(Ok(_))) => {
            &&& after == SearchRun::Choosing { query }
            &&& action is Choose
        },
        (SearchRun::Asking { .. }, SearchEvent::Answered(Err(e)))
        | (SearchRun::Searching { .. }, SearchEvent::Searched(Err(e))) => search_fails(
            after,
            action,
            e@,
        ),
        (SearchRun::Choosing { query }, SearchEvent::Chosen(Some(provider))) => {
            &&& after == SearchRun::Searching { query, provider }
            &&& action == SearchAction::Search { query }
        },
        (SearchRun::Choosing { .. }, SearchEvent::Chosen(None)) => search_fails(
            after,
            action,
            SEARCH_NOT_AVAILABLE@,
        ),
        (SearchRun::Searching { query, provider }, SearchEvent::Searched(Ok(results))) => {
            &&& after is Done
            &&& action == SearchAction::Finish(
                Ok(
                    WebSearchToolOutput::Success(
                        WebSearchToolSuccess { query, provider, results },
                    ),
                ),
            )
        },
        (SearchRun::Searching { .. }, SearchEvent::Cancelled) => search_fails(
            after,
            action,
            SEARCH_CANCELLED@,
        ),
        _ => after == before && action is Wait,
    }
}

impl SearchRun {
    pub fn start(input: WebSearchToolInput) -> (r: (SearchRun, SearchAction))
        ensures
            r.0 == (SearchRun::Asking { query: input.query }),
            r.1 == (SearchAction::Ask { query: input.query }),
    {
        let query = input.query.clone();
        (SearchRun::Asking { query: input.query }, SearchAction::Ask { query })
    }

    pub fn step(self, event: SearchEvent) -> (r: (SearchRun, SearchAction))
        ensures
            search_steps(self, event, r.0, r.1),
    {
        match (self, event) {
            (SearchRun::Asking { query }, SearchEvent::Answered(Ok(_))) => {
                (SearchRun::Choosing { query }, SearchAction::Choose)
            },
            (SearchRun::Asking { .. }, SearchEvent::Answered(Err(error)))
            | (SearchRun::Searching { .. }, SearchEvent::Searched(Err(error))) => {
                (SearchRun::Done, SearchAction::Finish(Err(WebSearchToolOutput::Error { error })))
            },
            (SearchRun::Choosing { query }, SearchEvent::Chosen(Some(provider))) => {
                let searched = query.clone();
                (
                    SearchRun::Searching { query, provider },
                    SearchAction::Search { query: searched },
                )
            },
            (SearchRun::Choosing { .. }, SearchEvent::Chosen(None)) => {
                let error = SEARCH_NOT_AVAILABLE.to_string();
                (SearchRun::Done, SearchAction::Finish(Err(WebSearchToolOutput::Error { error })))
            },
            (SearchRun::Searching { query, provider }, SearchEvent::Searched(Ok(results))) => {
                let success = WebSearchToolSuccess { query, provider, results };
                (SearchRun::Done, SearchAction::Finish(Ok(WebSearchToolOutput::Success(success))))
            },
            (SearchRun::Searching { .. }, SearchEvent::Cancelled) => {
                let error = SEARCH_CANCELLED.to_string();
                (SearchRun::Done, SearchAction::Finish(Err(WebSearchToolOutput::Error { error })))
            },
            (run, _) => (run, SearchAction::Wait),
        }
    }
}

/// Nothing is searched for but what a user was asked about, and only once that was allowed.
pub proof fn lemma_searching_needs_permission(
    before: SearchRun,
    event: SearchEvent,
    after: SearchRun,
    action: SearchAction,
)
    requires
        search_steps(before, event, after, action),
    ensures
        action matches SearchAction::Search { query } ==> before == (SearchRun::Choosing { query }),
        after is Choosing && before !is Choosing ==> before is Asking && (event matches
            SearchEvent::Answered(Ok(_))),
        before is Asking ==> (event matches SearchEvent::Answered(Err(e)) ==> search_fails(
            after,
            action,
            e@,
        )),
{
}

// ---------------------------------------------------------------------------
// Requests
// ---------------------------------------------------------------------------

/// A request that is to be sent.
#[derive(Debug)]
pub struct PendingRequest {
    pub method: Method,
    pub url: Url,
    pub headers: Vec<(String, String)>,
    pub body: Option<String>,
}

/// What the tool that sends requests waits for.
#[derive(Debug)]
pub enum HttpRun {
    /// The host of the request is resolved.
    Resolving(PendingRequest),
    Asking(PendingRequest),
    Sending,
    Done,
}

#[derive(Debug)]
pub enum HttpEvent {
    Resolved(Resolution),
    Answered(Result<(), String>),
    Responded(Result<SafeHttpResponse, String>),
    Cancelled,
}

#[derive(Debug)]
pub enum HttpAction {
    /// The host of this URL is resolved.
    Resolve { url: String },
    Ask(WebPermission),
    Send { url: Url, options: SafeHttpOptions },
    Finish(Result<String, String>),
    Wait,
}

/// Whether a request is sent as it was asked for.
pub open spec fn is_sent(after: HttpRun, action: HttpAction, request: PendingRequest) -> bool {
    &&& after is Sending
    &&& action matches HttpAction::Send { url, options }
    &&& url == request.url
    &&& are_options(options, request.method, request.headers@, request.body)
}

pub open spec fn http_steps(
    before: HttpRun,
    event: HttpEvent,
    after: HttpRun,
    action: HttpAction,
) -> bool {
    match (before, event) {
        (HttpRun::Resolving(request), HttpEvent::Resolved(resolution)) => {
            match refusal(request.url@, resolution) {
                Some(w) => {
                    &&& after is Done
                    &&& action matches HttpAction::Finish(Err(m))
                    &&& m@ == "ssrf_blocked: "@ + w.text()
                },
                None => if request.method == Method::Get {
                    is_sent(after, action, request)
                } else {
                    &&& after == HttpRun::Asking(request)
                    &&& action matches HttpAction::Ask(p)
                    &&& asks_about(
                        p,
                        request.method.text() + " "@ + request.url@.text,
                        HTTP_REQUEST_NAME@,
                        request.url@.text,
                    )
                },
            }
        },
        (HttpRun::Asking(request), HttpEvent::Answered(Ok(_))) => is_sent(after, action, request),
        (HttpRun::Asking(_), HttpEvent::Answered(Err(e)))
        | (HttpRun::Sending, HttpEvent::Responded(Err(e))) => {
            &&& after is Done
            &&& action == HttpAction::Finish(Err(e))
        },
        (HttpRun::Sending, HttpEvent::Responded(Ok(response))) => {
            &&& after is Done
            &&& action matches HttpAction::Finish(Ok(t))
            &&& t@ == response_report(response)
        },
        (HttpRun::Sending, HttpEvent::Cancelled) => {
            &&& after is Done
            &&& action matches HttpAction::Finish(Err(m))
            &&& m@ == REQUEST_CANCELLED@
        },
        _ => after == before && action is Wait,
    }
}

fn send(request: PendingRequest) -> (r: (HttpRun, HttpAction))
    ensures
        is_sent(r.0, r.1, request),
{
    let options = HttpRequestTool::options(request.method, request.headers, request.body);
    (HttpRun::Sending, HttpAction::Send { url: request.url, options })
}

impl HttpRun {
    pub fn start(input: HttpRequestToolInput, enabled: bool) -> (r: (HttpRun, HttpAction))
        ensures
            ({
                let refused = if !enabled {
                    Some(FULL_ACCESS_DISABLED@)
                } else if method_named(input.method@) is None {
                    Some(UNSUPPORTED_METHOD@)
                } else {
                    match parsed_url(input.url@) {
                        Err(e) => Some(e),
                        Ok(_) => None,
                    }
                };
                match refused {
                    Some(m) => {
                        &&& r.0 is Done
                        &&& r.1 matches HttpAction::Finish(Err(e))
                        &&& e@ == m
                    },
                    None => {
                        &&& r.0 matches HttpRun::Resolving(request)
                        &&& Some(request.method) == method_named(input.method@)
                        &&& Ok::<_, Seq<char>>(request.url@) == parsed_url(input.url@)
                        &&& request.headers == input.headers
                        &&& request.body == input.body
                        &&& r.1 matches HttpAction::Resolve { url }
                        &&& url@ == request.url@.text
                    },
                }
            }),
    {
        match HttpRequestTool::parse(&input, enabled) {
            Err(e) => (HttpRun::Done, HttpAction::Finish(Err(e))),
            Ok((method, url)) => {
                let text = url.as_str().to_string();
                let request = PendingRequest {
                    method,
                    url,
                    headers: input.headers,
                    body: input.body,
                };
                (HttpRun::Resolving(request), HttpAction::Resolve { url: text })
            },
        }
    }

    pub fn step(self, event: HttpEvent) -> (r: (HttpRun, HttpAction))
        ensures
            http_steps(self, event, r.0, r.1),
    {
        match (self, event) {
            (HttpRun::Resolving(request), HttpEvent::Resolved(resolution)) => {
                match HttpRequestTool::check(&request.url, &resolution) {
                    Err(e) => (HttpRun::Done, HttpAction::Finish(Err(e))),
                    Ok(()) => match HttpRequestTool::permission(request.method, &request.url) {
                        None => send(request),
                        Some(p) => (HttpRun::Asking(request), HttpAction::Ask(p)),
                    },
                }
            },
            (HttpRun::Asking(request), HttpEvent::Answered(Ok(_))) => send(request),
            (HttpRun::Asking(_), HttpEvent::Answered(Err(e)))
            | (HttpRun::Sending, HttpEvent::Responded(Err(e))) => {
                (HttpRun::Done, HttpAction::Finish(Err(e)))
            },
            (HttpRun::Sending, HttpEvent::Responded(Ok(response))) => {
                (HttpRun::Done, HttpAction::Finish(Ok(HttpRequestTool::response_text(&response))))
            },
            (HttpRun::Sending, HttpEvent::Cancelled) => {
                (HttpRun::Done, HttpAction::Finish(Err(REQUEST_CANCELLED.to_string())))
            },
            (run, _) => (run, HttpAction::Wait),
        }
    }
}

/// A request that may change something is sent only right after a user has allowed it, and any
/// other only once its host is known to be public. A refusal ends the tool.
pub proof fn lemma_sending_needs_permission(
    before: HttpRun,
    event: HttpEvent,
    after: HttpRun,
    action: HttpAction,
)
    requires
        http_steps(before, event, after, action),
    ensures
        action matches HttpAction::Send { url, options } ==> {
            ||| before is Asking && (event matches HttpEvent::Answered(Ok(_)))
            ||| options.method == Method::Get && (event matches HttpEvent::Resolved(resolution)
                && refusal(url@, resolution) is None)
        },
        before is Asking ==> (event matches HttpEvent::Answered(Err(e)) ==> action
            == HttpAction::Finish(Err(e))),
{
}

/// A user is asked only about requests to hosts that are known to be public.
pub proof fn lemma_only_public_requests_are_asked_about(
    before: HttpRun,
    event: HttpEvent,
    after: HttpRun,
    action: HttpAction,
)
    requires
        http_steps(before, event, after, action),
        before !is Asking,
    ensures
        after matches HttpRun::Asking(request) ==> (event matches HttpEvent::Resolved(resolution)
            && refusal(request.url@, resolution) is None),
{
}

} // verus!
