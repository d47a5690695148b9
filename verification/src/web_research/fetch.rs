//! Fetching pages, over HTTP or with a browser.
use crate::bytes::{lossy_text, read_lossy};
use crate::hashing::sha256_hex;
use crate::text::{
    ascii_lower, ascii_lower_str, byte_prefix, byte_prefix_str, bytes_exceed, contains,
    contains_str, debug_quoted, debug_str, dec, dec_str, first_chars, first_chars_str, opt_text,
    trim, trim_str, utf8_len,
};
use crate::web_research::browser::{BrowserError, BrowserFetchRequest, BrowserFetchResult};
use crate::web_research::cache::CachedPage;
use crate::web_research::config::WebResearchConfig;
use crate::web_research::envelope::{content_sha256, envelope, render_web_envelope};
use crate::web_research::extract::{
    body_text, extract_page_content, first_heading, heading_outline, outline_of, page_of,
    result_view, title_of, ExtractedPage, PageText, MAX_OUTLINE_HEADINGS,
};
use crate::web_research::http::{too_large, too_large_text, SafeHttpError, SafeHttpResponse};
use crate::web_research::url_policy::{
    canonical, canonicalize_url, ensure_public_http_url, normalize_url_string, parsed_url, refusal,
    with_scheme, PolicyRefusal, Resolution, Url, UrlPolicyError,
};
use vstd::prelude::*;

verus! {

/// How a page was fetched.
#[derive(Debug, Clone, Copy, PartialEq, Eq, Structural)]
pub enum FetchMode {
    Http,
    Browser,
}

impl FetchMode {
    pub open spec fn text(self) -> Seq<char> {
        match self {
            FetchMode::Http => "http"@,
            FetchMode::Browser => "browser"@,
        }
    }

    pub fn name(self) -> (r: &'static str)
        ensures
            r@ == self.text(),
    {
        match self {
            FetchMode::Http => "http",
            FetchMode::Browser => "browser",
        }
    }
}

/// Why a page was not fetched.
#[derive(Debug)]
pub enum FetchError {
    Policy(UrlPolicyError),
    SsrfBlocked(String),
    NeedsBrowser(String),
    BrowserUnavailable(String),
    Timeout,
    Other(String),
}

impl FetchError {
    pub open spec fn text(self) -> Seq<char> {
        match self {
            FetchError::Policy(e) => e@.text(),
            FetchError::SsrfBlocked(m) => "ssrf_blocked: "@ + m@,
            FetchError::NeedsBrowser(m) => "needs_browser: "@ + m@,
            FetchError::BrowserUnavailable(m) => "browser_unavailable: "@ + m@,
            FetchError::Timeout => "timeout"@,
            FetchError::Other(m) => m@,
        }
    }

    /// The text that a user sees.
    pub fn message(&self) -> (r: String)
        ensures
            r@ == self.text(),
    {
        match self {
            FetchError::Policy(e) => e.message(),
            FetchError::SsrfBlocked(m) => {
                let mut r = "ssrf_blocked: ".to_string();
                r.append(m.as_str());
                r
            },
            FetchError::NeedsBrowser(m) => {
                let mut r = "needs_browser: ".to_string();
                r.append(m.as_str());
                r
            },
            FetchError::BrowserUnavailable(m) => {
                let mut r = "browser_unavailable: ".to_string();
                r.append(m.as_str());
                r
            },
            FetchError::Timeout => "timeout".to_string(),
            FetchError::Other(m) => m.clone(),
        }
    }

    /// What a failed request means for a page.
    pub fn from_http(error: SafeHttpError) -> (r: FetchError)
        ensures
            match error {
                SafeHttpError::SsrfBlocked(m) => r == FetchError::SsrfBlocked(m),
                SafeHttpError::Timeout => r is Timeout,
                SafeHttpError::Cancelled => r matches FetchError::Other(m) && m@ == "cancelled"@,
                SafeHttpError::ResponseTooLarge(n) => r matches FetchError::Other(m) && m@
                    == too_large_text(n),
                SafeHttpError::Other(m) => r == FetchError::Other(m),
            },
    {
        match error {
            SafeHttpError::SsrfBlocked(m) => FetchError::SsrfBlocked(m),
            SafeHttpError::Timeout => FetchError::Timeout,
            SafeHttpError::Cancelled => FetchError::Other("cancelled".to_string()),
            SafeHttpError::ResponseTooLarge(n) => FetchError::Other(too_large(n)),
            SafeHttpError::Other(m) => FetchError::Other(m),
        }
    }

    /// What a browser that failed means for a page.
    pub fn from_browser(error: BrowserError) -> (r: FetchError)
        ensures
            match error {
                BrowserError::BrowserNotFound => r matches FetchError::BrowserUnavailable(m) && m@
                    == "no system Chrome/Edge binary found"@,
                BrowserError::Cancelled => r matches FetchError::Other(m) && m@
                    == "browser_cancelled"@,
                BrowserError::Timeout => r matches FetchError::Other(m) && m@
                    == "browser_timeout"@,
                BrowserError::Unavailable(m) => r == FetchError::BrowserUnavailable(m),
                BrowserError::Failed(m) => r == FetchError::BrowserUnavailable(m),
            },
    {
        match error {
            BrowserError::BrowserNotFound => FetchError::BrowserUnavailable(
                "no system Chrome/Edge binary found".to_string(),
            ),
            BrowserError::Cancelled => FetchError::Other("browser_cancelled".to_string()),
            BrowserError::Timeout => FetchError::Other("browser_timeout".to_string()),
            BrowserError::Unavailable(m) => FetchError::BrowserUnavailable(m),
            BrowserError::Failed(m) => FetchError::BrowserUnavailable(m),
        }
    }
}

/// A page that was fetched.
#[derive(Debug)]
pub struct FetchedPage {
    pub requested_url: String,
    pub final_url: String,
    pub source_id: String,
    pub retrieved_at_unix_ms: u64,
    pub http_status: u16,
    pub content_type: Option<String>,
    pub fetch_mode: FetchMode,
    pub content_sha256: String,
    pub extracted: ExtractedPage,
}

/// A page that was fetched, in characters.
pub struct FetchedView {
    pub requested_url: Seq<char>,
    pub final_url: Seq<char>,
    pub source_id: Seq<char>,
    pub retrieved_at_unix_ms: u64,
    pub http_status: u16,
    pub content_type: Option<Seq<char>>,
    pub fetch_mode: FetchMode,
    pub content_sha256: Seq<char>,
    pub extracted: PageText,
}

impl View for FetchedPage {
    type V = FetchedView;

    open spec fn view(&self) -> FetchedView {
        FetchedView {
            requested_url: self.requested_url@,
            final_url: self.final_url@,
            source_id: self.source_id@,
            retrieved_at_unix_ms: self.retrieved_at_unix_ms,
            http_status: self.http_status,
            content_type: opt_text(self.content_type),
            fetch_mode: self.fetch_mode,
            content_sha256: self.content_sha256@,
            extracted: self.extracted@,
        }
    }
}

/// What a model reads of a page: its outline, if it has one, and its text.
pub open spec fn page_body(page: PageText) -> Seq<char> {
    if page.outline.len() > 0 {
        "## Outline\n"@ + page.outline + "\n\n"@ + page.markdown
    } else {
        page.markdown
    }
}

pub open spec fn page_output(page: FetchedView) -> Seq<char> {
    envelope(
        page.final_url,
        page.source_id,
        page.extracted.title,
        page.fetch_mode.text(),
        page.extracted.truncated,
        page_body(page.extracted),
    )
}

impl FetchedPage {
    /// The page as a model sees it.
    pub fn model_output(&self) -> (r: String)
        ensures
            r@ == page_output(self@),
    {
        let mut body = String::new();
        if !self.extracted.outline.as_str().is_empty() {
            body.append("## Outline\n");
            body.append(self.extracted.outline.as_str());
            body.append("\n\n");
        }
        body.append(self.extracted.markdown.as_str());
        assert(body@ =~= page_body(self.extracted@));
        let title: Option<&str> = match &self.extracted.title {
            Some(t) => Some(t.as_str()),
            None => None,
        };
        render_web_envelope(
            self.final_url.as_str(),
            self.source_id.as_str(),
            title,
            self.fetch_mode.name(),
            self.extracted.truncated,
            body.as_str(),
        )
    }
}

/// What came of fetching a page.
#[derive(Debug)]
pub enum FetchOutcome {
    Fetched(FetchedPage),
    NeedsBrowser { reason: String, url: String },
}

/// The short form of a fingerprint, by which a source is told apart.
pub open spec fn source_id_of(fingerprint: Seq<char>) -> Seq<char> {
    "web:"@ + byte_prefix(fingerprint, 12)
}

fn source_id(fingerprint: &str) -> (r: String)
    ensures
        r@ == source_id_of(fingerprint@),
{
    let mut r = "web:".to_string();
    r.append(byte_prefix_str(fingerprint, 12).as_str());
    r
}

/// The page that a cached one stands for.
pub open spec fn cached_page(requested_url: Seq<char>, cached: CachedPage) -> FetchedView {
    let outline = outline_of(cached.markdown@, MAX_OUTLINE_HEADINGS as nat);
    FetchedView {
        requested_url,
        final_url: cached.url@,
        source_id: source_id_of(cached.content_sha256@),
        retrieved_at_unix_ms: cached.stored_at_unix_ms,
        http_status: 200,
        content_type: opt_text(cached.content_type),
        fetch_mode: FetchMode::Http,
        content_sha256: cached.content_sha256@,
        extracted: PageText {
            title: title_of(outline),
            markdown: cached.markdown@,
            outline,
            truncated: false,
        },
    }
}

/// Makes a page out of a cached one.
pub fn page_from_cache(requested_url: &str, cached: &CachedPage) -> (r: FetchedPage)
    ensures
        r@ == cached_page(requested_url@, *cached),
{
    let outline = heading_outline(cached.markdown.as_str(), MAX_OUTLINE_HEADINGS);
    let title = first_heading(outline.as_str());
    FetchedPage {
        requested_url: requested_url.to_string(),
        final_url: cached.url.clone(),
        source_id: source_id(cached.content_sha256.as_str()),
        retrieved_at_unix_ms: cached.stored_at_unix_ms,
        http_status: 200,
        content_type: match &cached.content_type {
            Some(t) => Some(t.clone()),
            None => None,
        },
        fetch_mode: FetchMode::Http,
        content_sha256: cached.content_sha256.clone(),
        extracted: ExtractedPage {
            title,
            markdown: cached.markdown.clone(),
            outline,
            truncated: false,
        },
    }
}

/// Whether a page in lower case needs scripts to show anything, or asks a visitor for a proof.
pub open spec fn is_shell(content_type: Option<Seq<char>>, text: Seq<char>, size: nat) -> bool {
    ||| contains(text, "cf-browser-verification"@)
    ||| contains(text, "attention required! | cloudflare"@)
    ||| (contains(text, "enable javascript"@) && contains(text, "<noscript"@) && size < 8_000)
    ||| ((match content_type {
        Some(t) => contains(ascii_lower(t), "html"@),
        None => true,
    }) && size < 1_500 && (contains(text, "id=\"root\""@) || contains(text, "id=\"app\""@)
        || contains(text, "data-reactroot"@)))
}

/// Whether a page needs scripts to show anything, or asks a visitor for a proof.
pub fn looks_like_browser_shell(content_type: Option<&str>, body: &[u8]) -> (r: bool)
    ensures
        r == is_shell(
            match content_type {
                Some(t) => Some(t@),
                None => None,
            },
            ascii_lower(lossy_text(body@)),
            body@.len(),
        ),
{
    let text = ascii_lower_str(read_lossy(body).as_str());
    let t = text.as_str();
    if contains_str(t, "cf-browser-verification") || contains_str(
        t,
        "attention required! | cloudflare",
    ) || (contains_str(t, "enable javascript") && contains_str(t, "<noscript") && body.len()
        < 8_000) {
        return true;
    }
    let is_html = match content_type {
        Some(c) => contains_str(ascii_lower_str(c).as_str(), "html"),
        None => true,
    };
    is_html && body.len() < 1_500 && (contains_str(t, "id=\"root\"") || contains_str(
        t,
        "id=\"app\"",
    ) || contains_str(t, "data-reactroot"))
}

/// Reads the URL of a page that is to be fetched.
pub fn requested_url(raw_url: &str) -> (r: Result<Url, FetchError>)
    ensures
        match parsed_url(with_scheme(raw_url@)) {
            Ok(p) => r matches Ok(u) && u@ == p,
            Err(e) => r matches Err(FetchError::Policy(m)) && m@ == PolicyRefusal::InvalidUrl(e),
        },
{
    match normalize_url_string(raw_url) {
        Ok(u) => Ok(u),
        Err(e) => Err(FetchError::Policy(e)),
    }
}

/// Checks that a page may be fetched.
pub fn check_requested(url: &Url, resolution: &Resolution) -> (r: Result<(), FetchError>)
    ensures
        match refusal(url@, *resolution) {
            None => r is Ok,
            Some(w) => r matches Err(FetchError::SsrfBlocked(m)) && m@ == w.text(),
        },
{
    match ensure_public_http_url(url, resolution) {
        Ok(()) => Ok(()),
        Err(e) => Err(FetchError::SsrfBlocked(e.message())),
    }
}

/// What a response means for the host that gave it.
#[derive(Debug, Clone, Copy, PartialEq, Eq, Structural)]
pub enum HostStanding {
    Penalized,
    Rewarded,
    Unchanged,
}

/// What a response holds: a page, with what is cached of it, or something for a browser.
#[derive(Debug)]
pub enum PageVerdict {
    Page(FetchedPage, CachedPage),
    NeedsBrowser(String),
}

/// What a response was found to be, and what that means for the host.
#[derive(Debug)]
pub struct JudgedResponse {
    pub standing: HostStanding,
    pub verdict: Result<PageVerdict, FetchError>,
}

pub const SHELL_REASON: &'static str = "page looks like a JS shell or challenge page";

pub const THIN_REASON: &'static str = "extracted text was too thin relative to response size";

/// The page that a response holds.
pub open spec fn page_of_response(
    requested: Seq<char>,
    response: SafeHttpResponse,
    page: PageText,
    now_ms: u64,
) -> FetchedView {
    FetchedView {
        requested_url: requested,
        final_url: response.final_url@.text,
        source_id: source_id_of(sha256_hex(response.body@)),
        retrieved_at_unix_ms: now_ms,
        http_status: response.status,
        content_type: opt_text(response.content_type),
        fetch_mode: FetchMode::Http,
        content_sha256: sha256_hex(response.body@),
        extracted: page,
    }
}

/// Whether `cached` is what is kept of a response with this page.
pub open spec fn is_cached_of(
    cached: CachedPage,
    response: SafeHttpResponse,
    page: PageText,
    now_ms: u64,
) -> bool {
    &&& cached.url@ == canonical(response.final_url@).text
    &&& cached.stored_at_unix_ms == now_ms
    &&& opt_text(cached.content_type) == opt_text(response.content_type)
    &&& cached.markdown@ == page.markdown
    &&& cached.content_sha256@ == sha256_hex(response.body@)
}

/// What the body of a response was read as, or why it was not.
pub open spec fn read_response(
    response: SafeHttpResponse,
    html: Result<Seq<char>, Seq<char>>,
    max: nat,
) -> Result<PageText, Seq<char>> {
    match body_text(opt_text(response.content_type), response.body@, html) {
        Err(e) => Err(e),
        Ok(markdown) => page_of(markdown, max),
    }
}

/// Whether `j` is what a response is found to be.
pub open spec fn is_judgement(
    j: JudgedResponse,
    requested: Seq<char>,
    response: SafeHttpResponse,
    html: Result<Seq<char>, Seq<char>>,
    max: nat,
    now_ms: u64,
) -> bool {
    let status = response.status;
    let size = response.body@.len();
    if status < 200 || status >= 300 {
        &&& j.standing == HostStanding::Penalized
        &&& j.verdict matches Err(FetchError::Other(m)) && m@ == "status error "@ + dec(
            status as nat,
        ) + ", response: "@ + debug_quoted(first_chars(lossy_text(response.body@), 400))
    } else if is_shell(
        opt_text(response.content_type),
        ascii_lower(lossy_text(response.body@)),
        size,
    ) {
        &&& j.standing == HostStanding::Penalized
        &&& j.verdict matches Ok(PageVerdict::NeedsBrowser(m)) && m@ == SHELL_REASON@
    } else {
        match read_response(response, html, max) {
            Err(e) => {
                &&& j.standing == HostStanding::Unchanged
                &&& j.verdict matches Err(FetchError::Other(m)) && m@ == e
            },
            Ok(page) => if utf8_len(trim(page.markdown)) < 40 && size > 1_000 {
                &&& j.standing == HostStanding::Penalized
                &&& j.verdict matches Ok(PageVerdict::NeedsBrowser(m)) && m@ == THIN_REASON@
            } else {
                &&& j.standing == HostStanding::Rewarded
                &&& j.verdict matches Ok(PageVerdict::Page(p, c)) && p@ == page_of_response(
                    requested,
                    response,
                    page,
                    now_ms,
                ) && is_cached_of(c, response, page, now_ms)
            },
        }
    }
}

/// Finds out what a response holds. `html` is what the elements of its body were turned into,
/// where it is read as such.
pub fn judge_response(
    requested: &str,
    response: &SafeHttpResponse,
    html: &Result<String, String>,
    max_fetch_chars: usize,
    now_ms: u64,
) -> (r: JudgedResponse)
    ensures
        is_judgement(
            r,
            requested@,
            *response,
            result_view(*html),
            max_fetch_chars as nat,
            now_ms,
        ),
{
    let status: u16 = response.status;
    if status < 200 || status >= 300 {
        let preview = first_chars_str(read_lossy(response.body.as_slice()).as_str(), 400);
        let mut m = "status error ".to_string();
        m.append(dec_str(status as u64).as_str());
        m.append(", response: ");
        m.append(debug_str(preview.as_str()).as_str());
        return JudgedResponse {
            standing: HostStanding::Penalized,
            verdict: Err(FetchError::Other(m)),
        };
    }
    let content_type: Option<&str> = match &response.content_type {
        Some(t) => Some(t.as_str()),
        None => None,
    };
    if looks_like_browser_shell(content_type, response.body.as_slice()) {
        return JudgedResponse {
            standing: HostStanding::Penalized,
            verdict: Ok(PageVerdict::NeedsBrowser(SHELL_REASON.to_string())),
        };
    }
    let extracted = match extract_page_content(
        content_type,
        response.body.as_slice(),
        html,
        max_fetch_chars,
    ) {
        Ok(page) => page,
        Err(e) => {
            return JudgedResponse {
                standing: HostStanding::Unchanged,
                verdict: Err(FetchError::Other(e)),
            };
        },
    };
    if !bytes_exceed(trim_str(extracted.markdown.as_str()).as_str(), 39) && response.body.len()
        > 1_000 {
        return JudgedResponse {
            standing: HostStanding::Penalized,
            verdict: Ok(PageVerdict::NeedsBrowser(THIN_REASON.to_string())),
        };
    }
    let hash = content_sha256(response.body.as_slice());
    let canonical = canonicalize_url(&response.final_url);
    let cached = CachedPage {
        url: canonical.as_str().to_string(),
        stored_at_unix_ms: now_ms,
        content_type: match &response.content_type {
            Some(t) => Some(t.clone()),
            None => None,
        },
        markdown: extracted.markdown.clone(),
        content_sha256: hash.clone(),
    };
    let page = FetchedPage {
        requested_url: requested.to_string(),
        final_url: response.final_url.as_str().to_string(),
        source_id: source_id(hash.as_str()),
        retrieved_at_unix_ms: now_ms,
        http_status: status,
        content_type: match &response.content_type {
            Some(t) => Some(t.clone()),
            None => None,
        },
        fetch_mode: FetchMode::Http,
        content_sha256: hash,
        extracted,
    };
    JudgedResponse {
        standing: HostStanding::Rewarded,
        verdict: Ok(PageVerdict::Page(page, cached)),
    }
}

/// What comes of a page that needs a browser, where none is to be used.
pub fn without_browser(reason: String, url: &Url) -> (r: FetchOutcome)
    ensures
        r matches FetchOutcome::NeedsBrowser { reason: m, url: u } && m == reason && u@
            == url@.text,
{
    FetchOutcome::NeedsBrowser { reason, url: url.as_str().to_string() }
}

/// What comes of a page that needs a browser, once one was used.
pub fn after_browser(
    reason: &str,
    url: &Url,
    result: Result<FetchedPage, FetchError>,
) -> (r: Result<FetchOutcome, FetchError>)
    ensures
        match result {
            Ok(page) => r == Ok::<FetchOutcome, FetchError>(FetchOutcome::Fetched(page)),
            Err(FetchError::BrowserUnavailable(e)) => r matches Ok(
                FetchOutcome::NeedsBrowser { reason: m, url: u },
            ) && m@ == reason@ + "; browser_unavailable: "@ + e@ && u@ == url@.text,
            Err(e) => r == Err::<FetchOutcome, FetchError>(e),
        },
{
    match result {
        Ok(page) => Ok(FetchOutcome::Fetched(page)),
        Err(FetchError::BrowserUnavailable(e)) => {
            let mut m = reason.to_string();
            m.append("; browser_unavailable: ");
            m.append(e.as_str());
            Ok(FetchOutcome::NeedsBrowser { reason: m, url: url.as_str().to_string() })
        },
        Err(e) => Err(e),
    }
}

/// What a browser is asked for, or why it is not.
pub open spec fn is_browser_request(
    r: Result<BrowserFetchRequest, FetchError>,
    config: WebResearchConfig,
    navigate_url: Seq<char>,
    resolution: Resolution,
) -> bool {
    if config.browser_profile_dir is None {
        r matches Err(FetchError::BrowserUnavailable(m)) && m@
            == "browser_profile_dir is not configured"@
    } else if config.browser_download_dir is None {
        r matches Err(FetchError::BrowserUnavailable(m)) && m@
            == "browser_download_dir is not configured"@
    } else {
        match parsed_url(with_scheme(navigate_url)) {
            Err(e) => r matches Err(FetchError::SsrfBlocked(m)) && m@ == PolicyRefusal::InvalidUrl(
                e,
            ).text(),
            Ok(p) => match refusal(p, resolution) {
                Some(w) => r matches Err(FetchError::SsrfBlocked(m)) && m@ == w.text(),
                None => {
                    &&& r matches Ok(q)
                    &&& q.url@ == navigate_url
                    &&& q.profile_dir@ == config.browser_profile_dir->0@
                    &&& q.download_dir@ == config.browser_download_dir->0@
                    &&& q.timeout == config.browser_timeout
                },
            },
        }
    }
}

/// What a browser is asked for. `resolution` is what the host of `navigate_url` was resolved to.
pub fn browser_request(
    config: &WebResearchConfig,
    navigate_url: &str,
    resolution: &Resolution,
) -> (r: Result<BrowserFetchRequest, FetchError>)
    ensures
        is_browser_request(r, *config, navigate_url@, *resolution),
{
    let profile_dir = match &config.browser_profile_dir {
        Some(d) => d.clone(),
        None => {
            return Err(
                FetchError::BrowserUnavailable(
                    "browser_profile_dir is not configured".to_string(),
                ),
            );
        },
    };
    let download_dir = match &config.browser_download_dir {
        Some(d) => d.clone(),
        None => {
            return Err(
                FetchError::BrowserUnavailable(
                    "browser_download_dir is not configured".to_string(),
                ),
            );
        },
    };
    let url = match normalize_url_string(navigate_url) {
        Ok(u) => u,
        Err(e) => {
            return Err(FetchError::SsrfBlocked(e.message()));
        },
    };
    match check_requested(&url, resolution) {
        Ok(()) => {},
        Err(e) => {
            return Err(e);
        },
    }
    Ok(
        BrowserFetchRequest {
            url: navigate_url.to_string(),
            profile_dir,
            download_dir,
            timeout: config.browser_timeout,
        },
    )
}

/// The host whose turn is awaited before a browser goes to a URL.
pub fn browser_host(navigate_url: &str) -> (r: String)
    ensures
        r@ == match parsed_url(navigate_url@) {
            Ok(p) => match p.host_text {
                Some(h) => h,
                None => "browser"@,
            },
            Err(_) => "browser"@,
        },
{
    match Url::parse(navigate_url) {
        Ok(u) => match u.host_str() {
            Some(h) => h,
            None => "browser".to_string(),
        },
        Err(_) => "browser".to_string(),
    }
}

/// The page that a browser showed, or why it is none. `html` is what its elements were turned
/// into.
pub fn page_from_browser(
    requested_url: &str,
    result: &BrowserFetchResult,
    html: &Result<String, String>,
    max_fetch_chars: usize,
    now_ms: u64,
) -> (r: Result<FetchedPage, FetchError>)
    ensures
        match html {
            Err(e) => r matches Err(FetchError::Other(m)) && m@ == e@,
            Ok(markdown) => match page_of(markdown@, max_fetch_chars as nat) {
                Err(e) => r matches Err(FetchError::Other(m)) && m@ == e,
                Ok(page) => r matches Ok(p) && p@ == (FetchedView {
                    requested_url: requested_url@,
                    final_url: result.final_url@,
                    source_id: source_id_of(sha256_hex(result.html@)),
                    retrieved_at_unix_ms: now_ms,
                    http_status: 200,
                    content_type: Some("text/html"@),
                    fetch_mode: FetchMode::Browser,
                    content_sha256: sha256_hex(result.html@),
                    extracted: page,
                }),
            },
        },
{
    proof {
        reveal_strlit("text/html");
        reveal_strlit("text/plain");
        reveal_strlit("application/json");
        let lower = ascii_lower("text/html"@);
        assert(lower[5] == 'h');
        assert(lower[0] == 't');
        if lower.len() >= "text/plain"@.len() {
            assert(lower.take("text/plain"@.len() as int)[5] == 'h');
        }
        if lower.len() >= "application/json"@.len() {
            assert(lower.take("application/json"@.len() as int)[0] == 't');
        }
    }
    let extracted = match extract_page_content(
        Some("text/html"),
        result.html.as_slice(),
        html,
        max_fetch_chars,
    ) {
        Ok(page) => page,
        Err(e) => {
            return Err(FetchError::Other(e));
        },
    };
    let hash = content_sha256(result.html.as_slice());
    Ok(
        FetchedPage {
            requested_url: requested_url.to_string(),
            final_url: result.final_url.clone(),
            source_id: source_id(hash.as_str()),
            retrieved_at_unix_ms: now_ms,
            http_status: 200,
            content_type: Some("text/html".to_string()),
            fetch_mode: FetchMode::Browser,
            content_sha256: hash,
            extracted,
        },
    )
}

/// A page that was cached is read back with its text, its type, its source, its fingerprint and
/// the time at which it was fetched.
pub proof fn lemma_cache_keeps_page(
    requested: Seq<char>,
    response: SafeHttpResponse,
    page: PageText,
    cached: CachedPage,
    now_ms: u64,
)
    requires
        is_cached_of(cached, response, page, now_ms),
    ensures
        cached_page(requested, cached).extracted.markdown == page.markdown,
        cached_page(requested, cached).source_id == page_of_response(
            requested,
            response,
            page,
            now_ms,
        ).source_id,
        cached_page(requested, cached).content_sha256 == sha256_hex(response.body@),
        cached_page(requested, cached).retrieved_at_unix_ms == now_ms,
        cached_page(requested, cached).content_type == opt_text(response.content_type),
{
}

} // verus!
