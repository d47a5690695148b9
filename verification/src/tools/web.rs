//! The tools that fetch pages, browse them, search the web and send requests.
use crate::agent_settings::WebResearchSettings;
use crate::bytes::{lossy_text, read_lossy};
use crate::json::pair_views;
use crate::text::{
    dec, dec_str, ellipsize, ellipsized, join, join_strs, str_eq, trim, trim_str, views,
};
use crate::tools::full_access::{ToolPermissionContext, FULL_ACCESS_DISABLED};
use crate::web_research::envelope::{render_search_results_for_model, search_report, SearchResult};
use crate::web_research::fetch::{page_output, FetchOutcome};
use crate::web_research::http::{Method, SafeHttpOptions, SafeHttpResponse};
use crate::web_research::url_policy::{ensure_public_http_url, parsed_url, refusal, Resolution, Url};
use vstd::prelude::*;
use vstd::utf8::encode_utf8;

verus! {

pub const FETCH_NAME: &'static str = "fetch";

pub const BROWSE_PAGE_NAME: &'static str = "browse_page";

pub const SEARCH_WEB_NAME: &'static str = "search_web";

pub const HTTP_REQUEST_NAME: &'static str = "http_request";

pub const NO_TEXT: &'static str = "no textual content found";

pub const FETCH_CANCELLED: &'static str = "Fetch cancelled by user";

pub const BROWSE_CANCELLED: &'static str = "Browse cancelled by user";

pub const SEARCH_CANCELLED: &'static str = "Web search cancelled by user";

pub const SEARCH_NOT_AVAILABLE: &'static str = "Web search is not available.";

pub const REQUEST_CANCELLED: &'static str = "HTTP request cancelled by user.";

/// What a user is asked.
#[derive(Debug)]
pub struct WebPermission {
    pub title: String,
    pub context: ToolPermissionContext,
}

/// Whether `p` asks about one value.
pub open spec fn asks_about(
    p: WebPermission,
    title: Seq<char>,
    tool_name: Seq<char>,
    value: Seq<char>,
) -> bool {
    &&& p.title@ == title
    &&& p.context.tool_name@ == tool_name
    &&& views(p.context.input_values@) == seq![value]
}

fn ask_about(title: String, tool_name: &str, value: &str) -> (r: WebPermission)
    ensures
        asks_about(r, title@, tool_name@, value@),
{
    let values: Vec<String> = vec![value.to_string()];
    assert(views(values@) =~= seq![value@]);
    WebPermission {
        title,
        context: ToolPermissionContext { tool_name: tool_name.to_string(), input_values: values },
    }
}

/// Whether `r` is a text, or says that there is nothing in it.
pub open spec fn gives_text(r: Result<String, String>, text: Seq<char>) -> bool {
    match r {
        Ok(t) => trim(text).len() > 0 && t@ == text,
        Err(e) => trim(text).len() == 0 && e@ == NO_TEXT@,
    }
}

/// A text, if there is anything in it.
pub fn require_text(text: String) -> (r: Result<String, String>)
    ensures
        gives_text(r, text@),
{
    if trim_str(text.as_str()).as_str().is_empty() {
        return Err(NO_TEXT.to_string());
    }
    Ok(text)
}

// ---------------------------------------------------------------------------
// Fetching
// ---------------------------------------------------------------------------

/// What is asked of the tool that fetches a page.
#[derive(Debug)]
pub struct FetchToolInput {
    pub url: String,
}

/// What is done once a page was fetched.
#[derive(Debug)]
pub enum FetchStep {
    /// The tool gives this.
    Finish(Result<String, String>),
    /// A browser is asked to show the page of this URL, if a user allows it.
    Browse(String),
}

/// Whether `r` is what is done once a page was fetched.
pub open spec fn follows_fetch(
    outcome: Result<FetchOutcome, String>,
    browser_fallback: bool,
    full_access: bool,
    r: FetchStep,
) -> bool {
    match outcome {
        Err(e) => r == FetchStep::Finish(Err(e)),
        Ok(FetchOutcome::Fetched(page)) => r matches FetchStep::Finish(f) && gives_text(
            f,
            page_output(page@),
        ),
        Ok(FetchOutcome::NeedsBrowser { reason, url }) => if !browser_fallback {
            r matches FetchStep::Finish(Err(m)) && m@ == "needs_browser: "@ + reason@ + " (url="@
                + url@
                + "). Enable agent.web_research.browser_fallback_enabled and Unleashed to render with the isolated system browser."@
        } else if !full_access {
            r matches FetchStep::Finish(Err(m)) && m@ == "needs_browser: "@ + reason@ + " (url="@
                + url@ + "). Unleashed is required for isolated browser fallback."@
        } else {
            r == FetchStep::Browse(url)
        },
    }
}

pub struct FetchTool;

impl FetchTool {
    /// What a user sees while the tool starts; `escaped` is the URL, set as text.
    pub fn initial_title(escaped: Option<&str>) -> (r: String)
        ensures
            r@ == match escaped {
                Some(u) => "Fetch "@ + u@,
                None => "Fetch URL"@,
            },
    {
        match escaped {
            Some(u) => {
                let mut r = "Fetch ".to_string();
                r.append(u);
                r
            },
            None => "Fetch URL".to_string(),
        }
    }

    /// What a user is asked before a page is fetched; `code` is the URL, set as code.
    pub fn permission(input: &FetchToolInput, code: &str) -> (r: WebPermission)
        ensures
            asks_about(r, "Fetch "@ + code@, FETCH_NAME@, input.url@),
    {
        let mut title = "Fetch ".to_string();
        title.append(code);
        ask_about(title, FETCH_NAME, input.url.as_str())
    }

    /// Decides what is done once a page was fetched. A browser is used only where the settings and
    /// full access allow it.
    pub fn after_fetch(
        outcome: Result<FetchOutcome, String>,
        browser_fallback: bool,
        full_access: bool,
    ) -> (r: FetchStep)
        ensures
            follows_fetch(outcome, browser_fallback, full_access, r),
    {
        match outcome {
            Err(e) => FetchStep::Finish(Err(e)),
            Ok(FetchOutcome::Fetched(page)) => FetchStep::Finish(
                require_text(page.model_output()),
            ),
            Ok(FetchOutcome::NeedsBrowser { reason, url }) => {
                if browser_fallback && full_access {
                    return FetchStep::Browse(url);
                }
                let mut m = "needs_browser: ".to_string();
                m.append(reason.as_str());
                m.append(" (url=");
                m.append(url.as_str());
                if !browser_fallback {
                    m.append(
                        "). Enable agent.web_research.browser_fallback_enabled and Unleashed to render with the isolated system browser.",
                    );
                } else {
                    m.append("). Unleashed is required for isolated browser fallback.");
                }
                FetchStep::Finish(Err(m))
            },
        }
    }

    /// What a user is asked before a browser shows a page that was to be fetched; `code` is its
    /// URL, set as code.
    pub fn browse_permission(url: &str, code: &str) -> (r: WebPermission)
        ensures
            asks_about(
                r,
                "Browse "@ + code@ + " in isolated browser (HTTP extract failed)"@,
                BROWSE_PAGE_NAME@,
                url@,
            ),
    {
        let mut title = "Browse ".to_string();
        title.append(code);
        title.append(" in isolated browser (HTTP extract failed)");
        ask_about(title, BROWSE_PAGE_NAME, url)
    }
}

// ---------------------------------------------------------------------------
// Browsing
// ---------------------------------------------------------------------------

/// What is asked of the tool that shows a page in a browser.
#[derive(Debug)]
pub struct BrowsePageToolInput {
    pub url: String,
}

/// Why a browser may not be used at all, if it may not.
pub open spec fn browse_refusal(settings: &WebResearchSettings, full_access: bool) -> Option<
    Seq<char>,
> {
    if !full_access {
        Some("Unleashed is disabled. Enable it in Settings → AI → Unleashed to use browse_page."@)
    } else if !settings.enabled {
        Some("Web research is disabled (agent.web_research.enabled=false)."@)
    } else if !settings.browser_fallback_enabled {
        Some(
            "Browser fallback is disabled (agent.web_research.browser_fallback_enabled=false)."@,
        )
    } else {
        None
    }
}

pub struct BrowsePageTool;

impl BrowsePageTool {
    /// What a user sees while the tool starts; `escaped` is the URL, set as text.
    pub fn initial_title(escaped: Option<&str>) -> (r: String)
        ensures
            r@ == match escaped {
                Some(u) => "Browse "@ + u@,
                None => "Browse page"@,
            },
    {
        match escaped {
            Some(u) => {
                let mut r = "Browse ".to_string();
                r.append(u);
                r
            },
            None => "Browse page".to_string(),
        }
    }

    /// Whether a browser may be used at all, or why not.
    pub fn check(settings: &WebResearchSettings, full_access: bool) -> (r: Result<(), String>)
        ensures
            match browse_refusal(settings, full_access) {
                Some(m) => r matches Err(e) && e@ == m,
                None => r is Ok,
            },
    {
        if !full_access {
            return Err(
                "Unleashed is disabled. Enable it in Settings → AI → Unleashed to use browse_page.".to_string(),
            );
        }
        if !settings.enabled {
            return Err(
                "Web research is disabled (agent.web_research.enabled=false).".to_string(),
            );
        }
        if !settings.browser_fallback_enabled {
            return Err(
                "Browser fallback is disabled (agent.web_research.browser_fallback_enabled=false).".to_string(),
            );
        }
        Ok(())
    }

    /// What a user is asked before a browser shows a page; `code` is its URL, set as code.
    pub fn permission(input: &BrowsePageToolInput, code: &str) -> (r: WebPermission)
        ensures
            asks_about(
                r,
                "Browse "@ + code@ + " in isolated browser"@,
                BROWSE_PAGE_NAME@,
                input.url@,
            ),
    {
        let mut title = "Browse ".to_string();
        title.append(code);
        title.append(" in isolated browser");
        ask_about(title, BROWSE_PAGE_NAME, input.url.as_str())
    }

    /// What a user sees while a browser shows a page; `escaped` is its URL, set as text.
    pub fn browsing_title(escaped: &str) -> (r: String)
        ensures
            r@ == "Browsing "@ + escaped@ + "…"@,
    {
        let mut r = "Browsing ".to_string();
        r.append(escaped);
        r.append("…");
        r
    }

    /// The URL as it stands in the title while a browser shows its page.
    pub fn title_url(input: &BrowsePageToolInput) -> (r: String)
        ensures
            r@ == ellipsized(input.url@, 48),
    {
        ellipsize(input.url.as_str(), 48)
    }
}

// ---------------------------------------------------------------------------
// Searching
// ---------------------------------------------------------------------------

/// What is asked of the tool that searches the web.
#[derive(Debug)]
pub struct WebSearchToolInput {
    pub query: String,
}

/// What was found.
#[derive(Debug)]
pub struct WebSearchToolSuccess {
    pub query: String,
    pub provider: String,
    pub results: Vec<SearchResult>,
}

/// What the tool that searches the web gives.
#[derive(Debug)]
pub enum WebSearchToolOutput {
    Success(WebSearchToolSuccess),
    /// As it was written in older transcripts.
    LegacySuccess(Vec<SearchResult>),
    Error { error: String },
}

impl WebSearchToolOutput {
    /// What a model reads of it.
    pub fn into_text(self) -> (r: String)
        ensures
            r@ == match self {
                WebSearchToolOutput::Success(s) => search_report(
                    s.provider@,
                    s.query@,
                    s.results@,
                ),
                WebSearchToolOutput::LegacySuccess(results) => search_report(
                    "web"@,
                    ""@,
                    results@,
                ),
                WebSearchToolOutput::Error { error } => error@,
            },
    {
        match self {
            WebSearchToolOutput::Success(s) => render_search_results_for_model(
                s.provider.as_str(),
                s.query.as_str(),
                &s.results,
            ),
            WebSearchToolOutput::LegacySuccess(results) => render_search_results_for_model(
                "web",
                "",
                &results,
            ),
            WebSearchToolOutput::Error { error } => error,
        }
    }
}

pub struct WebSearchTool;

impl WebSearchTool {
    /// What a user is asked before the web is searched; `code` is the query, set as code.
    pub fn permission(input: &WebSearchToolInput, code: &str) -> (r: WebPermission)
        ensures
            asks_about(r, "Search the web for "@ + code@, SEARCH_WEB_NAME@, input.query@),
    {
        let mut title = "Search the web for ".to_string();
        title.append(code);
        ask_about(title, SEARCH_WEB_NAME, input.query.as_str())
    }

    /// What a user sees of what was found.
    pub fn result_title(count: usize) -> (r: String)
        ensures
            r@ == "Searched the web: "@ + (if count == 1 {
                "1 result"@
            } else {
                dec(count as nat) + " results"@
            }),
    {
        let mut r = "Searched the web: ".to_string();
        if count == 1 {
            r.append("1 result");
        } else {
            let mut n = dec_str(count as u64);
            n.append(" results");
            r.append(n.as_str());
        }
        r
    }
}

// ---------------------------------------------------------------------------
// Requests
// ---------------------------------------------------------------------------

/// What is asked of the tool that sends a request.
#[derive(Debug)]
pub struct HttpRequestToolInput {
    pub method: String,
    pub url: String,
    pub headers: Vec<(String, String)>,
    pub body: Option<String>,
}

pub const UNSUPPORTED_METHOD: &'static str =
    "Unsupported HTTP method. Use GET, POST, PUT, PATCH, or DELETE.";

pub const MAX_RESPONSE_BYTES: u64 = 1_048_576;

pub const MAX_REDIRECTS: u32 = 5;

pub const REQUEST_TIMEOUT: u128 = 15_000;

/// A character in upper case, if it is a letter of ASCII.
pub open spec fn upper_char(c: char) -> char {
    if 'a' <= c <= 'z' {
        (c as u32 - 32) as char
    } else {
        c
    }
}

pub open spec fn ascii_upper(s: Seq<char>) -> Seq<char> {
    s.map_values(|c: char| upper_char(c))
}

fn to_upper_char(c: char) -> (r: char)
    ensures
        r == upper_char(c),
{
    match c {
        'a' => 'A',
        'b' => 'B',
        'c' => 'C',
        'd' => 'D',
        'e' => 'E',
        'f' => 'F',
        'g' => 'G',
        'h' => 'H',
        'i' => 'I',
        'j' => 'J',
        'k' => 'K',
        'l' => 'L',
        'm' => 'M',
        'n' => 'N',
        'o' => 'O',
        'p' => 'P',
        'q' => 'Q',
        'r' => 'R',
        's' => 'S',
        't' => 'T',
        'u' => 'U',
        'v' => 'V',
        'w' => 'W',
        'x' => 'X',
        'y' => 'Y',
        'z' => 'Z',
        _ => c,
    }
}

fn ascii_upper_str(s: &str) -> (r: String)
    ensures
        r@ == ascii_upper(s@),
{
    let v = crate::text::to_chars(s);
    let mut r = String::new();
    let mut i: usize = 0;
    assert(r@ =~= ascii_upper(s@).take(0));
    while i < v.len()
        invariant
            i <= v@.len(),
            v@ == s@,
            r@ == ascii_upper(s@).take(i as int),
        decreases v@.len() - i,
    {
        let ghost before = r@;
        r.push(to_upper_char(v[i]));
        assert(ascii_upper(s@).take(i + 1) =~= before.push(upper_char(v@[i as int])));
        i = i + 1;
    }
    assert(r@ =~= ascii_upper(s@));
    r
}

/// The method with this name, in any case. Requests that only ask for a head cannot be sent.
pub open spec fn method_named(name: Seq<char>) -> Option<Method> {
    let n = ascii_upper(name);
    if n == "GET"@ {
        Some(Method::Get)
    } else if n == "POST"@ {
        Some(Method::Post)
    } else if n == "PUT"@ {
        Some(Method::Put)
    } else if n == "PATCH"@ {
        Some(Method::Patch)
    } else if n == "DELETE"@ {
        Some(Method::Delete)
    } else {
        None
    }
}

/// Whether `r` says what is sent, and how far it goes.
pub open spec fn are_options(
    r: SafeHttpOptions,
    method: Method,
    headers: Seq<(String, String)>,
    body: Option<String>,
) -> bool {
    &&& r.method == method
    &&& r.headers@ == headers
    &&& match body {
        Some(text) => r.body matches Some(b) && b@ == encode_utf8(text@),
        None => r.body is None,
    }
    &&& r.max_redirects == MAX_REDIRECTS
    &&& r.max_response_bytes == MAX_RESPONSE_BYTES
    &&& r.request_timeout == REQUEST_TIMEOUT
}

/// What the tool that sends requests gives of a response.
pub open spec fn response_report(response: SafeHttpResponse) -> Seq<char> {
    "HTTP "@ + dec(response.status as nat) + "\n"@ + join(
        header_lines(pair_views(response.headers@)),
        "\n"@,
    ) + "\n\n"@ + lossy_text(response.body@)
}

pub struct HttpRequestTool;

impl HttpRequestTool {
    pub fn initial_title(input: Option<&HttpRequestToolInput>) -> (r: String)
        ensures
            r@ == match input {
                Some(i) => ascii_upper(i.method@) + " "@ + i.url@,
                None => "Send HTTP request"@,
            },
    {
        match input {
            Some(i) => {
                let mut r = ascii_upper_str(i.method.as_str());
                r.append(" ");
                r.append(i.url.as_str());
                r
            },
            None => "Send HTTP request".to_string(),
        }
    }

    /// The method and the URL of a request, or why it is not sent. Whether the URL may be
    /// contacted is not yet checked.
    pub fn parse(input: &HttpRequestToolInput, enabled: bool) -> (r: Result<(Method, Url), String>)
        ensures
            if !enabled {
                r matches Err(e) && e@ == FULL_ACCESS_DISABLED@
            } else {
                match method_named(input.method@) {
                    None => r matches Err(e) && e@ == UNSUPPORTED_METHOD@,
                    Some(m) => match parsed_url(input.url@) {
                        Err(e) => r matches Err(t) && t@ == e,
                        Ok(p) => r matches Ok((method, url)) && method == m && url@ == p,
                    },
                }
            },
    {
        if !enabled {
            return Err(FULL_ACCESS_DISABLED.to_string());
        }
        let upper = ascii_upper_str(input.method.as_str());
        let name = upper.as_str();
        let method = if str_eq(name, "GET") {
            Method::Get
        } else if str_eq(name, "POST") {
            Method::Post
        } else if str_eq(name, "PUT") {
            Method::Put
        } else if str_eq(name, "PATCH") {
            Method::Patch
        } else if str_eq(name, "DELETE") {
            Method::Delete
        } else {
            return Err(UNSUPPORTED_METHOD.to_string());
        };
        match Url::parse(input.url.as_str()) {
            Ok(url) => Ok((method, url)),
            Err(e) => Err(e),
        }
    }

    /// Whether the URL of a request may be contacted, or why not.
    pub fn check(url: &Url, resolution: &Resolution) -> (r: Result<(), String>)
        ensures
            match refusal(url@, *resolution) {
                None => r is Ok,
                Some(w) => r matches Err(e) && e@ == "ssrf_blocked: "@ + w.text(),
            },
    {
        match ensure_public_http_url(url, resolution) {
            Ok(()) => Ok(()),
            Err(e) => {
                let mut m = "ssrf_blocked: ".to_string();
                m.append(e.message().as_str());
                Err(m)
            },
        }
    }

    /// What a user is asked before a request is sent. A request that only fetches is sent without
    /// asking.
    pub fn permission(method: Method, url: &Url) -> (r: Option<WebPermission>)
        ensures
            r is None <==> method == Method::Get,
            r matches Some(p) ==> asks_about(
                p,
                method.text() + " "@ + url@.text,
                HTTP_REQUEST_NAME@,
                url@.text,
            ),
    {
        match method {
            Method::Get => None,
            _ => {
                let mut title = method.name().to_string();
                title.append(" ");
                title.append(url.as_str());
                Some(ask_about(title, HTTP_REQUEST_NAME, url.as_str()))
            },
        }
    }

    /// What is sent, and how far it goes.
    pub fn options(
        method: Method,
        headers: Vec<(String, String)>,
        body: Option<String>,
    ) -> (r: SafeHttpOptions)
        ensures
            are_options(r, method, headers@, body),
    {
        let body = match body {
            Some(text) => Some(text.as_str().as_bytes_vec()),
            None => None,
        };
        SafeHttpOptions {
            method,
            headers,
            body,
            max_redirects: MAX_REDIRECTS,
            max_response_bytes: MAX_RESPONSE_BYTES,
            request_timeout: REQUEST_TIMEOUT,
        }
    }

    /// What the tool gives of a response.
    pub fn response_text(response: &SafeHttpResponse) -> (r: String)
        ensures
            r@ == response_report(*response),
    {
        let ghost all = pair_views(response.headers@);
        let mut lines: Vec<String> = Vec::new();
        let mut i: usize = 0;
        assert(all.take(0) =~= Seq::<(Seq<char>, Seq<char>)>::empty());
        assert(views(lines@) =~= header_lines(all.take(0)));
        while i < response.headers.len()
            invariant
                i <= response.headers@.len(),
                all == pair_views(response.headers@),
                views(lines@) == header_lines(all.take(i as int)),
            decreases response.headers@.len() - i,
        {
            let ghost before = views(lines@);
            let h = &response.headers[i];
            let mut line = h.0.clone();
            line.append(": ");
            line.append(h.1.as_str());
            let ghost l = line@;
            lines.push(line);
            assert(views(lines@) =~= before.push(l));
            assert(all[i as int] == (h.0@, h.1@));
            assert(header_lines(all.take(i + 1)) =~= before.push(l));
            i = i + 1;
        }
        assert(all.take(response.headers@.len() as int) =~= all);
        let mut r = "HTTP ".to_string();
        r.append(dec_str(response.status as u64).as_str());
        r.append("\n");
        r.append(join_strs(&lines, "\n").as_str());
        r.append("\n\n");
        r.append(read_lossy(response.body.as_slice()).as_str());
        r
    }
}

pub open spec fn header_lines(headers: Seq<(Seq<char>, Seq<char>)>) -> Seq<Seq<char>> {
    headers.map_values(|h: (Seq<char>, Seq<char>)| h.0 + ": "@ + h.1)
}

} // verus!
