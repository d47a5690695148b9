//! Requests whose every hop is checked: before a URL is contacted, and before a redirect is
//! followed, it is checked that it leads to a public address.
use crate::text::{dec, dec_str};
use crate::web_research::config::Millis;
use crate::web_research::url_policy::{
    canonicalize_url, ensure_public_http_url, link_target, refusal, PolicyRefusal, Resolution, Url,
    UrlParts,
};
use vstd::prelude::*;

verus! {

/// What is accepted when a page is fetched.
pub const RESEARCH_ACCEPT: &'static str =
    "text/html,application/xhtml+xml,application/json,text/plain;q=0.9";

/// What a request asks for.
#[derive(Debug, Clone, Copy, PartialEq, Eq, Structural)]
pub enum Method {
    Get,
    Head,
    Post,
    Put,
    Patch,
    Delete,
}

impl Method {
    pub open spec fn text(self) -> Seq<char> {
        match self {
            Method::Get => "GET"@,
            Method::Head => "HEAD"@,
            Method::Post => "POST"@,
            Method::Put => "PUT"@,
            Method::Patch => "PATCH"@,
            Method::Delete => "DELETE"@,
        }
    }

    pub fn name(self) -> (r: &'static str)
        ensures
            r@ == self.text(),
    {
        match self {
            Method::Get => "GET",
            Method::Head => "HEAD",
            Method::Post => "POST",
            Method::Put => "PUT",
            Method::Patch => "PATCH",
            Method::Delete => "DELETE",
        }
    }
}

/// Why a request gave no response.
#[derive(Debug)]
pub enum SafeHttpError {
    SsrfBlocked(String),
    Timeout,
    Cancelled,
    ResponseTooLarge(u64),
    Other(String),
}

impl SafeHttpError {
    pub open spec fn text(self) -> Seq<char> {
        match self {
            SafeHttpError::SsrfBlocked(m) => "ssrf_blocked: "@ + m@,
            SafeHttpError::Timeout => "timeout"@,
            SafeHttpError::Cancelled => "cancelled"@,
            SafeHttpError::ResponseTooLarge(n) => too_large_text(n),
            SafeHttpError::Other(m) => m@,
        }
    }

    /// The text that a user sees.
    pub fn message(&self) -> (r: String)
        ensures
            r@ == self.text(),
    {
        match self {
            SafeHttpError::SsrfBlocked(m) => {
                let mut r = "ssrf_blocked: ".to_string();
                r.append(m.as_str());
                r
            },
            SafeHttpError::Timeout => "timeout".to_string(),
            SafeHttpError::Cancelled => "cancelled".to_string(),
            SafeHttpError::ResponseTooLarge(n) => too_large(*n),
            SafeHttpError::Other(m) => m.clone(),
        }
    }
}

pub open spec fn too_large_text(limit: u64) -> Seq<char> {
    "response exceeded max_response_bytes ("@ + dec(limit as nat) + ")"@
}

pub fn too_large(limit: u64) -> (r: String)
    ensures
        r@ == too_large_text(limit),
{
    let mut r = "response exceeded max_response_bytes (".to_string();
    r.append(dec_str(limit).as_str());
    r.append(")");
    r
}

/// What a request asks for, and how far it goes.
#[derive(Debug)]
pub struct SafeHttpOptions {
    pub method: Method,
    pub headers: Vec<(String, String)>,
    pub body: Option<Vec<u8>>,
    pub max_redirects: u32,
    pub max_response_bytes: u64,
    pub request_timeout: Millis,
}

/// The headers with which a page is fetched.
pub fn research_headers() -> (r: Vec<(String, String)>)
    ensures
        crate::json::pair_views(r@) == seq![
            ("Accept"@, RESEARCH_ACCEPT@),
            ("Accept-Language"@, "en-US,en;q=0.8"@),
        ],
{
    let r: Vec<(String, String)> = vec![
        ("Accept".to_string(), RESEARCH_ACCEPT.to_string()),
        ("Accept-Language".to_string(), "en-US,en;q=0.8".to_string()),
    ];
    assert(crate::json::pair_views(r@) =~= seq![
        ("Accept"@, RESEARCH_ACCEPT@),
        ("Accept-Language"@, "en-US,en;q=0.8"@),
    ]);
    r
}

impl Default for SafeHttpOptions {
    fn default() -> (r: Self)
        ensures
            r.method == Method::Get,
            crate::json::pair_views(r.headers@) == seq![
                ("Accept"@, RESEARCH_ACCEPT@),
                ("Accept-Language"@, "en-US,en;q=0.8"@),
            ],
            r.body is None,
            r.max_redirects == 5,
            r.max_response_bytes == 1024 * 1024,
            r.request_timeout == 15_000,
    {
        SafeHttpOptions {
            method: Method::Get,
            headers: research_headers(),
            body: None,
            max_redirects: 5,
            max_response_bytes: 1024 * 1024,
            request_timeout: 15_000,
        }
    }
}

impl SafeHttpOptions {
    /// The same options for fetching a page.
    pub fn for_get(self) -> (r: Self)
        ensures
            r == (SafeHttpOptions { method: Method::Get, body: None, ..self }),
    {
        SafeHttpOptions { method: Method::Get, body: None, ..self }
    }
}

/// A response.
#[derive(Debug)]
pub struct SafeHttpResponse {
    pub status: u16,
    pub content_type: Option<String>,
    pub headers: Vec<(String, String)>,
    pub body: Vec<u8>,
    pub final_url: Url,
}

/// What stands at the head of a response.
#[derive(Debug)]
pub struct ResponseHead {
    pub status: u16,
    pub content_type: Option<String>,
    pub headers: Vec<(String, String)>,
    pub location: Option<String>,
}

/// A request on its way from hop to hop.
#[derive(Debug)]
pub struct SafeHttpRequest {
    pub current: Url,
    pub redirects: u32,
    pub method: Method,
    pub body: Option<Vec<u8>>,
    pub max_redirects: u32,
    pub max_response_bytes: u64,
}

/// Whether `r` succeeds where a URL may be contacted, and else names the reason.
pub open spec fn passes(
    r: Result<(), SafeHttpError>,
    prefix: Seq<char>,
    why: Option<PolicyRefusal>,
) -> bool {
    match why {
        None => r is Ok,
        Some(w) => r matches Err(SafeHttpError::SsrfBlocked(m)) && m@ == prefix + w.text(),
    }
}

fn check_public(url: &Url, resolution: &Resolution, prefix: &str) -> (r: Result<
    (),
    SafeHttpError,
>)
    ensures
        passes(r, prefix@, refusal(url@, *resolution)),
{
    match ensure_public_http_url(url, resolution) {
        Ok(()) => Ok(()),
        Err(e) => {
            let mut m = prefix.to_string();
            m.append(e.message().as_str());
            Err(SafeHttpError::SsrfBlocked(m))
        },
    }
}

/// How a URL is written for caching, read as a URL.
pub open spec fn is_canonical(canonical: UrlParts, url: UrlParts) -> bool {
    canonical == crate::web_research::url_policy::canonical(url)
}

/// Whether a response sends a request elsewhere.
pub open spec fn is_redirection(status: u16) -> bool {
    300 <= status <= 399
}

/// Whether a redirect turns a request into one that only fetches.
pub open spec fn becomes_get(status: u16, method: Method) -> bool {
    status == 303 || ((status == 301 || status == 302) && method != Method::Get && method
        != Method::Head)
}

/// Where a redirect leads, or why it is not followed, before it is checked whether it may be.
pub open spec fn redirect_of(
    base: Seq<char>,
    location: Option<String>,
    redirects: u32,
    max_redirects: u32,
) -> Result<UrlParts, Seq<char>> {
    match location {
        None => Err("redirect missing Location"@),
        Some(l) => match link_target(base, l@) {
            Err(e) => Err(e),
            Ok(target) => if redirects >= max_redirects {
                Err("exceeded max redirects ("@ + dec(max_redirects as nat) + ")"@)
            } else {
                Ok(target)
            },
        },
    }
}

impl SafeHttpRequest {
    /// No more redirects have been followed than may be.
    pub open spec fn wf(&self) -> bool {
        self.redirects <= self.max_redirects
    }

    /// Sets out for a URL.
    pub fn start(url: &Url, options: SafeHttpOptions, resolution: &Resolution) -> (r: Result<
        Self,
        SafeHttpError,
    >)
        ensures
            match refusal(url@, *resolution) {
                Some(w) => r matches Err(SafeHttpError::SsrfBlocked(m)) && m@ == w.text(),
                None => {
                    &&& r matches Ok(q)
                    &&& q.wf()
                    &&& is_canonical(q.current@, url@)
                    &&& q.redirects == 0
                    &&& q.method == options.method
                    &&& q.body == options.body
                    &&& q.max_redirects == options.max_redirects
                    &&& q.max_response_bytes == options.max_response_bytes
                },
            },
    {
        match check_public(url, resolution, "") {
            Ok(()) => {},
            Err(e) => {
                proof {
                    reveal_strlit("");
                    let w = refusal(url@, *resolution)->0;
                    assert(""@ + w.text() =~= w.text());
                }
                return Err(e);
            },
        }
        Ok(
            SafeHttpRequest {
                current: canonicalize_url(url),
                redirects: 0,
                method: options.method,
                body: options.body,
                max_redirects: options.max_redirects,
                max_response_bytes: options.max_response_bytes,
            },
        )
    }

    /// Whether the current URL may be contacted now.
    pub fn check_hop(&self, cancelled: bool, resolution: &Resolution) -> (r: Result<
        (),
        SafeHttpError,
    >)
        ensures
            if cancelled {
                r matches Err(SafeHttpError::Cancelled)
            } else {
                passes(r, Seq::empty(), refusal(self.current@, *resolution))
            },
    {
        if cancelled {
            return Err(SafeHttpError::Cancelled);
        }
        proof {
            reveal_strlit("");
            assert(""@ =~= Seq::<char>::empty());
        }
        check_public(&self.current, resolution, "")
    }

    /// Where a response sends the request, if it does.
    pub fn redirect_target(&self, head: &ResponseHead) -> (r: Result<Option<Url>, SafeHttpError>)
        requires
            self.wf(),
        ensures
            if !is_redirection(head.status) {
                r matches Ok(None)
            } else {
                match redirect_of(
                    self.current@.text,
                    head.location,
                    self.redirects,
                    self.max_redirects,
                ) {
                    Ok(target) => r matches Ok(Some(u)) && u@ == target,
                    Err(e) => r matches Err(SafeHttpError::Other(m)) && m@ == e,
                }
            },
    {
        if head.status < 300 || head.status > 399 {
            return Ok(None);
        }
        let location = match &head.location {
            Some(l) => l,
            None => {
                return Err(SafeHttpError::Other("redirect missing Location".to_string()));
            },
        };
        let next = match self.current.join(location.as_str()) {
            Ok(u) => u,
            Err(e) => {
                return Err(SafeHttpError::Other(e));
            },
        };
        if self.redirects >= self.max_redirects {
            let mut m = "exceeded max redirects (".to_string();
            m.append(dec_str(self.max_redirects as u64).as_str());
            m.append(")");
            return Err(SafeHttpError::Other(m));
        }
        Ok(Some(next))
    }

    /// Follows a redirect, if that is where the request may go.
    pub fn follow(&mut self, next: &Url, status: u16, resolution: &Resolution) -> (r: Result<
        (),
        SafeHttpError,
    >)
        requires
            old(self).wf(),
            old(self).redirects < old(self).max_redirects,
        ensures
            final(self).wf(),
            passes(r, "redirect to blocked URL: "@, refusal(next@, *resolution)),
            final(self).max_redirects == old(self).max_redirects,
            final(self).max_response_bytes == old(self).max_response_bytes,
            r is Err ==> *final(self) == *old(self),
            r is Ok ==> {
                &&& is_canonical(final(self).current@, next@)
                &&& final(self).redirects == old(self).redirects + 1
                &&& if becomes_get(status, old(self).method) {
                    final(self).method == Method::Get && final(self).body is None
                } else {
                    final(self).method == old(self).method && final(self).body == old(self).body
                }
            },
    {
        match check_public(next, resolution, "redirect to blocked URL: ") {
            Ok(()) => {},
            Err(e) => {
                return Err(e);
            },
        }
        let fetches = match self.method {
            Method::Get => true,
            Method::Head => true,
            _ => false,
        };
        if status == 303 || ((status == 301 || status == 302) && !fetches) {
            self.method = Method::Get;
            self.body = None;
        }
        self.redirects = self.redirects + 1;
        self.current = canonicalize_url(next);
        Ok(())
    }

    /// How much of a body is read at most: one byte more than it may hold.
    pub fn read_limit(&self) -> (r: u64)
        requires
            self.max_response_bytes < u64::MAX,
        ensures
            r == self.max_response_bytes + 1,
    {
        self.max_response_bytes + 1
    }

    /// Makes a response out of its head and what was read of its body.
    pub fn accept(self, head: ResponseHead, body: Vec<u8>) -> (r: Result<
        SafeHttpResponse,
        SafeHttpError,
    >)
        ensures
            if body@.len() > self.max_response_bytes {
                r matches Err(SafeHttpError::ResponseTooLarge(n)) && n == self.max_response_bytes
            } else {
                &&& r matches Ok(p)
                &&& p.status == head.status
                &&& p.content_type == head.content_type
                &&& p.headers == head.headers
                &&& p.body == body
                &&& p.final_url == self.current
            },
    {
        if body.len() as u64 > self.max_response_bytes {
            return Err(SafeHttpError::ResponseTooLarge(self.max_response_bytes));
        }
        Ok(
            SafeHttpResponse {
                status: head.status,
                content_type: head.content_type,
                headers: head.headers,
                body,
                final_url: self.current,
            },
        )
    }
}

/// Where a redirect leads, if that may be contacted. `resolution` is what the host of the target
/// was resolved to.
pub fn validate_redirect_target(base: &Url, location: &str, resolution: &Resolution) -> (r: Result<
    Url,
    SafeHttpError,
>)
    ensures
        match link_target(base@.text, location@) {
            Err(e) => r matches Err(SafeHttpError::Other(m)) && m@ == e,
            Ok(next) => match refusal(next, *resolution) {
                Some(w) => r matches Err(SafeHttpError::SsrfBlocked(m)) && m@
                    == "redirect to blocked URL: "@ + w.text(),
                None => r matches Ok(u) && is_canonical(u@, next),
            },
        },
{
    let next = match base.join(location) {
        Ok(u) => u,
        Err(e) => {
            return Err(SafeHttpError::Other(e));
        },
    };
    match check_public(&next, resolution, "redirect to blocked URL: ") {
        Ok(()) => Ok(canonicalize_url(&next)),
        Err(e) => Err(e),
    }
}

} // verus!
