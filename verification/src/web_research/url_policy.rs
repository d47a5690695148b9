//! Which URLs may be contacted, and how they are written.
use crate::text::{
    ascii_lower, ascii_lower_str, ends_with, ends_with_str, eq_ignore_case, eq_ignore_case_str,
    opt_str, opt_text, starts_with, starts_with_str, str_eq, trim, trim_str,
};
use crate::json::{clone_pairs, pair_views};
use vstd::prelude::*;

verus! {

/// An address of the internet protocol: four octets, or eight segments.
#[derive(Clone, Copy, Debug, PartialEq, Eq)]
pub enum IpAddr {
    V4([u8; 4]),
    V6([u16; 8]),
}

/// An address, and how it is written.
#[derive(Debug)]
pub struct Address {
    pub ip: IpAddr,
    pub text: String,
}

impl Clone for Address {
    fn clone(&self) -> (r: Self)
        ensures
            r == *self,
    {
        Address { ip: self.ip, text: self.text.clone() }
    }
}

/// What stands for the host in a URL.
#[derive(Debug)]
pub enum Host {
    Domain(String),
    Ip(Address),
}

impl Clone for Host {
    fn clone(&self) -> (r: Self)
        ensures
            r == *self,
    {
        match self {
            Host::Domain(d) => Host::Domain(d.clone()),
            Host::Ip(a) => Host::Ip(a.clone()),
        }
    }
}

/// What a name was resolved to, or why it was not.
pub type Resolution = Result<Vec<Address>, String>;

/// A host, in characters.
pub enum HostView {
    Domain(Seq<char>),
    Ip(IpAddr, Seq<char>),
}

/// What is read off a URL: how it is written, its scheme, its host and how that is written, and
/// the decoded pairs of its query.
pub struct UrlParts {
    pub text: Seq<char>,
    pub scheme: Seq<char>,
    pub host_text: Option<Seq<char>>,
    pub host: Option<HostView>,
    pub query: Seq<(Seq<char>, Seq<char>)>,
}

/// What `url::Url::parse` reads from a text, or the text of its error.
pub uninterp spec fn parsed_url(text: Seq<char>) -> Result<UrlParts, Seq<char>>;

/// How a URL is written to which `url::Url::join` leads, or the text of the error.
pub uninterp spec fn joined_url(base: Seq<char>, link: Seq<char>) -> Result<Seq<char>, Seq<char>>;

/// How a URL is written once `url::Url::set_host` has been called; nothing where the text is no
/// URL.
pub uninterp spec fn url_with_host(text: Seq<char>, host: Seq<char>) -> Option<Seq<char>>;

/// How a URL is written once `url::Url::set_fragment` has taken its fragment away; nothing where
/// the text is no URL.
pub uninterp spec fn url_without_fragment(text: Seq<char>) -> Option<Seq<char>>;

/// How a URL is written once `url::Url::set_query` has been called; nothing where the text is no
/// URL.
pub uninterp spec fn url_with_query(text: Seq<char>, query: Option<Seq<char>>) -> Option<Seq<char>>;

/// Pairs as `url::form_urlencoded::Serializer` writes them.
pub uninterp spec fn form_encoded(pairs: Seq<(Seq<char>, Seq<char>)>) -> Seq<char>;

/// Whether there is a host, in lower case.
pub open spec fn has_lower_host(p: UrlParts) -> bool {
    p.host_text matches Some(h) && ascii_lower(h) == h
}

pub open spec fn is_web_scheme(scheme: Seq<char>) -> bool {
    scheme == "http"@ || scheme == "https"@
}

/// Whether `p` is read from how it is itself written, and is a URL of the web.
pub open spec fn is_web_url(p: UrlParts) -> bool {
    is_web_scheme(p.scheme) && parsed_url(p.text) == Ok::<UrlParts, Seq<char>>(p)
}

/// Whether nothing in a text begins a fragment.
pub open spec fn has_no_fragment(text: Seq<char>) -> bool {
    !text.contains('#')
}

/// Whether `after` is read as a URL of the web with this query, and of the scheme of `before`.
pub open spec fn is_web_url_with(
    after: Option<Seq<char>>,
    before: UrlParts,
    query: Seq<(Seq<char>, Seq<char>)>,
) -> bool {
    &&& after matches Some(t)
    &&& parsed_url(t) matches Ok(p)
    &&& p.text == t
    &&& p.scheme == before.scheme
    &&& p.query == query
}

impl Host {
    pub open spec fn parts(self) -> HostView {
        match self {
            Host::Domain(d) => HostView::Domain(d@),
            Host::Ip(a) => HostView::Ip(a.ip, a.text@),
        }
    }
}

pub open spec fn host_parts(host: Option<Host>) -> Option<HostView> {
    match host {
        Some(h) => Some(h.parts()),
        None => None,
    }
}

/// An absolute URL.
#[derive(Debug)]
pub struct Url {
    text: String,
    scheme: String,
    host_text: Option<String>,
    host: Option<Host>,
    query: Vec<(String, String)>,
}

/// `url::Url::parse`, and of the URL that it gives `as_str`, `scheme`, `host_str`, `host` and
/// `query_pairs`. The result depends on the text alone. What `as_str` gives of a URL of the web is
/// read again as the same URL: `url::Url::check_invariants` asks this of every URL. Such a URL has a
/// host, and that is in lower case.
#[verifier::external_body]
fn parse_url(text: &str) -> (r: Result<Url, String>)
    ensures
        match r {
            Ok(u) => parsed_url(text@) == Ok::<UrlParts, Seq<char>>(u@) && (is_web_scheme(u@.scheme)
                ==> is_web_url(u@) && has_lower_host(u@)),
            Err(e) => parsed_url(text@) == Err::<UrlParts, Seq<char>>(e@),
        },
{
    let url = url::Url::parse(text).map_err(|error| error.to_string())?;
    Ok(Url {
        text: url.to_string(),
        scheme: url.scheme().to_string(),
        host_text: url.host_str().map(str::to_string),
        host: url.host().map(|host| match host {
            url::Host::Domain(domain) => Host::Domain(domain.to_string()),
            url::Host::Ipv4(ip) => Host::Ip(Address { ip: IpAddr::V4(ip.octets()), text: ip.to_string() }),
            url::Host::Ipv6(ip) => Host::Ip(Address { ip: IpAddr::V6(ip.segments()), text: ip.to_string() }),
        }),
        query: url.query_pairs().into_owned().collect(),
    })
}

/// `url::Url::join` on the URL that is read from `base`. The result depends on the two texts alone.
#[verifier::external_body]
fn join_url(base: &str, link: &str) -> (r: Result<String, String>)
    ensures
        match r {
            Ok(t) => joined_url(base@, link@) == Ok::<Seq<char>, Seq<char>>(t@),
            Err(e) => joined_url(base@, link@) == Err::<Seq<char>, Seq<char>>(e@),
        },
{
    url::Url::parse(base)
        .and_then(|base| base.join(link))
        .map(|url| url.to_string())
        .map_err(|error| error.to_string())
}

/// `url::Url::set_host` on the URL that is read from `text`; where it fails the URL stays as it
/// is. The result depends on the two texts alone. A URL of the web stays one, with its scheme and
/// its query.
#[verifier::external_body]
fn set_url_host(text: &str, host: &str) -> (r: Option<String>)
    ensures
        opt_text(r) == url_with_host(text@, host@),
        parsed_url(text@) matches Ok(p) ==> (is_web_scheme(p.scheme) ==> is_web_url_with(
            opt_text(r),
            p,
            p.query,
        )),
{
    let mut url = url::Url::parse(text).ok()?;
    let _ = url.set_host(Some(host));
    Some(url.to_string())
}

/// `url::Url::set_fragment` with nothing on the URL that is read from `text`. The result depends
/// on the text alone. A URL of the web stays one, with its scheme and its query, and has no fragment
/// then.
#[verifier::external_body]
fn drop_url_fragment(text: &str) -> (r: Option<String>)
    ensures
        opt_text(r) == url_without_fragment(text@),
        parsed_url(text@) matches Ok(p) ==> (is_web_scheme(p.scheme) ==> is_web_url_with(
            opt_text(r),
            p,
            p.query,
        ) && has_no_fragment(opt_text(r)->0)),
{
    let mut url = url::Url::parse(text).ok()?;
    url.set_fragment(None);
    Some(url.to_string())
}

/// `url::Url::set_query` on the URL that is read from `text`. The result depends on the two texts
/// alone. A URL of the web stays one, with its scheme; it has no query where none is given, and
/// where the query is one that `url::form_urlencoded::Serializer` wrote, the pairs are read from it
/// that were written. Where it had no fragment it gets none.
#[verifier::external_body]
fn set_url_query(text: &str, query: Option<&str>) -> (r: Option<String>)
    ensures
        opt_text(r) == url_with_query(text@, opt_str(query)),
        parsed_url(text@) matches Ok(p) ==> (is_web_scheme(p.scheme) && query is None
            ==> is_web_url_with(opt_text(r), p, Seq::empty())),
        parsed_url(text@) matches Ok(p) ==> (forall|pairs: Seq<(Seq<char>, Seq<char>)>|
            is_web_scheme(p.scheme) && opt_str(query) == Some(#[trigger] form_encoded(pairs))
                ==> is_web_url_with(opt_text(r), p, pairs)),
        parsed_url(text@) matches Ok(p) ==> (is_web_scheme(p.scheme) && has_no_fragment(text@)
            ==> r is Some && has_no_fragment(opt_text(r)->0)),
{
    let mut url = url::Url::parse(text).ok()?;
    url.set_query(query);
    Some(url.to_string())
}

/// `url::form_urlencoded::Serializer`: `append_pair` for each pair, then `finish`. The result
/// depends on the pairs alone.
#[verifier::external_body]
fn encode_form(pairs: &Vec<(String, String)>) -> (r: String)
    ensures
        r@ == form_encoded(pair_views(pairs@)),
{
    url::form_urlencoded::Serializer::new(String::new()).extend_pairs(pairs).finish()
}

impl View for Url {
    type V = UrlParts;

    closed spec fn view(&self) -> UrlParts {
        UrlParts {
            text: self.text@,
            scheme: self.scheme@,
            host_text: opt_text(self.host_text),
            host: host_parts(self.host),
            query: pair_views(self.query@),
        }
    }
}

impl Clone for Url {
    fn clone(&self) -> (r: Self)
        ensures
            r@ == self@,
    {
        proof {
            use_type_invariant(self);
        }
        let host = match &self.host {
            Some(h) => Some(h.clone()),
            None => None,
        };
        let query = clone_pairs(&self.query);
        assert(pair_views(query@) == pair_views(self.query@));
        Url {
            text: self.text.clone(),
            scheme: self.scheme.clone(),
            host_text: self.host_str(),
            host,
            query,
        }
    }
}

impl Url {
    #[verifier::type_invariant]
    spec fn inv(self) -> bool {
        is_web_scheme(self@.scheme) ==> is_web_url(self@)
    }

    pub fn parse(text: &str) -> (r: Result<Url, String>)
        ensures
            match r {
                Ok(u) => parsed_url(text@) == Ok::<UrlParts, Seq<char>>(u@),
                Err(e) => parsed_url(text@) == Err::<UrlParts, Seq<char>>(e@),
            },
    {
        parse_url(text)
    }

    pub fn as_str(&self) -> (r: &str)
        ensures
            r@ == self@.text,
    {
        self.text.as_str()
    }

    pub fn scheme(&self) -> (r: &str)
        ensures
            r@ == self@.scheme,
    {
        self.scheme.as_str()
    }

    pub fn host_str(&self) -> (r: Option<String>)
        ensures
            opt_text(r) == self@.host_text,
    {
        match &self.host_text {
            Some(t) => Some(t.clone()),
            None => None,
        }
    }

    /// The domain that stands for the host, if one does.
    pub fn domain(&self) -> (r: Option<String>)
        ensures
            opt_text(r) == match self@.host {
                Some(HostView::Domain(d)) => Some(d),
                _ => None,
            },
    {
        match &self.host {
            Some(Host::Domain(d)) => Some(d.clone()),
            _ => None,
        }
    }

    /// Whether an address stands for the host.
    pub fn is_numbered(&self) -> (r: bool)
        ensures
            r == (self@.host matches Some(HostView::Ip(_, _))),
    {
        match &self.host {
            Some(Host::Ip(_)) => true,
            _ => false,
        }
    }

    /// Where a link on the page of this URL leads.
    pub fn join(&self, link: &str) -> (r: Result<Url, String>)
        ensures
            match link_target(self@.text, link@) {
                Ok(p) => r matches Ok(u) && u@ == p,
                Err(e) => r matches Err(m) && m@ == e,
            },
    {
        match join_url(self.text.as_str(), link) {
            Ok(t) => parse_url(t.as_str()),
            Err(e) => Err(e),
        }
    }
}

/// Where a link leads on the page of a URL, or the text of the error.
pub open spec fn link_target(base: Seq<char>, link: Seq<char>) -> Result<UrlParts, Seq<char>> {
    match joined_url(base, link) {
        Ok(t) => parsed_url(t),
        Err(e) => Err(e),
    }
}

/// Why a URL is not contacted.
#[derive(Debug)]
pub enum UrlPolicyError {
    UnsupportedScheme,
    MissingHost,
    BlockedHost(String),
    ResolveFailed(String, String),
    InvalidUrl(String),
}

/// Why a URL is not contacted, in characters.
pub enum PolicyRefusal {
    UnsupportedScheme,
    MissingHost,
    BlockedHost(Seq<char>),
    ResolveFailed(Seq<char>, Seq<char>),
    InvalidUrl(Seq<char>),
}

impl PolicyRefusal {
    pub open spec fn text(self) -> Seq<char> {
        match self {
            PolicyRefusal::UnsupportedScheme => "only http:// and https:// URLs are supported"@,
            PolicyRefusal::MissingHost => "URL is missing a host"@,
            PolicyRefusal::BlockedHost(h) => "URL points to a blocked host or address: "@ + h,
            PolicyRefusal::ResolveFailed(h, e) => "failed to resolve host "@ + h + ": "@ + e,
            PolicyRefusal::InvalidUrl(e) => "invalid URL: "@ + e,
        }
    }
}

impl View for UrlPolicyError {
    type V = PolicyRefusal;

    open spec fn view(&self) -> PolicyRefusal {
        match *self {
            UrlPolicyError::UnsupportedScheme => PolicyRefusal::UnsupportedScheme,
            UrlPolicyError::MissingHost => PolicyRefusal::MissingHost,
            UrlPolicyError::BlockedHost(h) => PolicyRefusal::BlockedHost(h@),
            UrlPolicyError::ResolveFailed(h, e) => PolicyRefusal::ResolveFailed(h@, e@),
            UrlPolicyError::InvalidUrl(e) => PolicyRefusal::InvalidUrl(e@),
        }
    }
}

impl UrlPolicyError {
    /// The text that a user sees.
    pub fn message(&self) -> (r: String)
        ensures
            r@ == self@.text(),
    {
        match self {
            UrlPolicyError::UnsupportedScheme => {
                "only http:// and https:// URLs are supported".to_string()
            },
            UrlPolicyError::MissingHost => "URL is missing a host".to_string(),
            UrlPolicyError::BlockedHost(h) => {
                let mut r = "URL points to a blocked host or address: ".to_string();
                r.append(h.as_str());
                r
            },
            UrlPolicyError::ResolveFailed(h, e) => {
                let mut r = "failed to resolve host ".to_string();
                r.append(h.as_str());
                r.append(": ");
                r.append(e.as_str());
                r
            },
            UrlPolicyError::InvalidUrl(e) => {
                let mut r = "invalid URL: ".to_string();
                r.append(e.as_str());
                r
            },
        }
    }
}

/// What a user wrote, with a scheme.
pub open spec fn with_scheme(raw: Seq<char>) -> Seq<char> {
    let t = trim(raw);
    if starts_with(t, "https://"@) || starts_with(t, "http://"@) {
        t
    } else {
        "https://"@ + t
    }
}

/// Reads a URL that a user wrote, with or without a scheme.
pub fn normalize_url_string(raw: &str) -> (r: Result<Url, UrlPolicyError>)
    ensures
        match parsed_url(with_scheme(raw@)) {
            Ok(p) => r matches Ok(u) && u@ == p,
            Err(e) => r matches Err(m) && m@ == PolicyRefusal::InvalidUrl(e),
        },
{
    let trimmed = trim_str(raw);
    let text = if starts_with_str(trimmed.as_str(), "https://") || starts_with_str(
        trimmed.as_str(),
        "http://",
    ) {
        trimmed
    } else {
        let mut t = "https://".to_string();
        t.append(trimmed.as_str());
        t
    };
    match Url::parse(text.as_str()) {
        Ok(u) => Ok(u),
        Err(e) => Err(UrlPolicyError::InvalidUrl(e)),
    }
}

/// The parameters that only track where a visitor came from.
pub open spec fn is_tracking(key: Seq<char>) -> bool {
    ||| eq_ignore_case(key, "utm_source"@)
    ||| eq_ignore_case(key, "utm_medium"@)
    ||| eq_ignore_case(key, "utm_campaign"@)
    ||| eq_ignore_case(key, "utm_term"@)
    ||| eq_ignore_case(key, "utm_content"@)
    ||| eq_ignore_case(key, "utm_id"@)
    ||| eq_ignore_case(key, "fbclid"@)
    ||| eq_ignore_case(key, "gclid"@)
    ||| eq_ignore_case(key, "mc_cid"@)
    ||| eq_ignore_case(key, "mc_eid"@)
    ||| eq_ignore_case(key, "msclkid"@)
}

fn is_tracking_param(key: &str) -> (r: bool)
    ensures
        r == is_tracking(key@),
{
    eq_ignore_case_str(key, "utm_source") || eq_ignore_case_str(key, "utm_medium")
        || eq_ignore_case_str(key, "utm_campaign") || eq_ignore_case_str(key, "utm_term")
        || eq_ignore_case_str(key, "utm_content") || eq_ignore_case_str(key, "utm_id")
        || eq_ignore_case_str(key, "fbclid") || eq_ignore_case_str(key, "gclid")
        || eq_ignore_case_str(key, "mc_cid") || eq_ignore_case_str(key, "mc_eid")
        || eq_ignore_case_str(key, "msclkid")
}

/// The pairs that do not only track where a visitor came from.
pub open spec fn kept_pairs(pairs: Seq<(Seq<char>, Seq<char>)>) -> Seq<(Seq<char>, Seq<char>)>
    decreases pairs.len(),
{
    if pairs.len() == 0 {
        Seq::empty()
    } else if is_tracking(pairs.last().0) {
        kept_pairs(pairs.drop_last())
    } else {
        kept_pairs(pairs.drop_last()).push(pairs.last())
    }
}

fn keep_pairs(pairs: &Vec<(String, String)>) -> (r: Vec<(String, String)>)
    ensures
        pair_views(r@) == kept_pairs(pair_views(pairs@)),
{
    let ghost all = pair_views(pairs@);
    let mut r: Vec<(String, String)> = Vec::new();
    let mut i: usize = 0;
    assert(all.take(0) =~= Seq::<(Seq<char>, Seq<char>)>::empty());
    assert(pair_views(r@) =~= Seq::<(Seq<char>, Seq<char>)>::empty());
    while i < pairs.len()
        invariant
            i <= pairs@.len(),
            all == pair_views(pairs@),
            pair_views(r@) == kept_pairs(all.take(i as int)),
        decreases pairs@.len() - i,
    {
        let ghost before = pair_views(r@);
        let p = &pairs[i];
        assert(all.take(i + 1).drop_last() =~= all.take(i as int));
        assert(all.take(i + 1).last() == (p.0@, p.1@));
        if !is_tracking_param(p.0.as_str()) {
            r.push((p.0.clone(), p.1.clone()));
            assert(pair_views(r@) =~= before.push((p.0@, p.1@)));
        }
        i = i + 1;
    }
    assert(all.take(pairs@.len() as int) =~= all);
    r
}

/// Nothing that only tracks is kept, and nothing else is dropped.
pub proof fn lemma_tracking_is_dropped(pairs: Seq<(Seq<char>, Seq<char>)>)
    ensures
        forall|p: (Seq<char>, Seq<char>)|
            #[trigger] kept_pairs(pairs).contains(p) <==> pairs.contains(p) && !is_tracking(p.0),
    decreases pairs.len(),
{
    if pairs.len() > 0 {
        let rest = pairs.drop_last();
        lemma_tracking_is_dropped(rest);
        assert forall|p: (Seq<char>, Seq<char>)| #[trigger]
            kept_pairs(pairs).contains(p) <==> pairs.contains(p) && !is_tracking(p.0) by {
            assert(pairs =~= rest.push(pairs.last()));
            if pairs.contains(p) {
                let i = choose|i: int| 0 <= i < pairs.len() && pairs[i] == p;
                if i < rest.len() {
                    assert(rest[i] == p);
                    assert(rest.contains(p));
                }
            }
            if rest.contains(p) {
                let i = choose|i: int| 0 <= i < rest.len() && rest[i] == p;
                assert(pairs[i] == p);
                assert(pairs.contains(p));
            }
            let kept = kept_pairs(rest);
            if !is_tracking(pairs.last().0) {
                let all = kept_pairs(pairs);
                if kept.contains(p) {
                    let i = choose|i: int| 0 <= i < kept.len() && kept[i] == p;
                    assert(all[i] == p);
                }
                if all.contains(p) {
                    let i = choose|i: int| 0 <= i < all.len() && all[i] == p;
                    if i < kept.len() {
                        assert(kept[i] == p);
                    }
                }
                if p == pairs.last() {
                    assert(all[all.len() - 1] == p);
                    assert(pairs[pairs.len() - 1] == p);
                }
            }
            assert(kept.contains(p) <==> rest.contains(p) && !is_tracking(p.0));
        }
    }
}

/// How a URL is written for caching and for telling URLs apart: its host in lower case, no
/// fragment, and nothing in its query that only tracks.
pub open spec fn canonical_text(parts: UrlParts) -> Option<Seq<char>> {
    let named = match parts.host_text {
        Some(h) => url_with_host(parts.text, ascii_lower(h)),
        None => Some(parts.text),
    };
    let plain = match named {
        Some(t) => url_without_fragment(t),
        None => None,
    };
    let kept = kept_pairs(parts.query);
    match plain {
        Some(t) => url_with_query(
            t,
            if kept.len() == 0 {
                None
            } else {
                Some(form_encoded(kept))
            },
        ),
        None => None,
    }
}

/// A URL as it is told apart from others. One that is not read from how it is written stays as it
/// is.
pub open spec fn canonical(parts: UrlParts) -> UrlParts {
    match canonical_text(parts) {
        Some(t) => match parsed_url(t) {
            Ok(p) => p,
            Err(_) => parts,
        },
        None => parts,
    }
}

fn write_canonical(url: &Url) -> (r: Option<String>)
    ensures
        opt_text(r) == canonical_text(url@),
        is_web_scheme(url@.scheme) ==> is_web_url_with(
            opt_text(r),
            url@,
            kept_pairs(url@.query),
        ) && has_no_fragment(opt_text(r)->0),
{
    proof {
        use_type_invariant(url);
    }
    let named = match &url.host_text {
        Some(h) => match set_url_host(url.text.as_str(), ascii_lower_str(h.as_str()).as_str()) {
            Some(t) => t,
            None => {
                return None;
            },
        },
        None => url.text.clone(),
    };
    let plain = match drop_url_fragment(named.as_str()) {
        Some(t) => t,
        None => {
            return None;
        },
    };
    let pairs = keep_pairs(&url.query);
    assert(pair_views(pairs@).len() == pairs@.len());
    if pairs.len() == 0 {
        assert(kept_pairs(url@.query) =~= Seq::<(Seq<char>, Seq<char>)>::empty());
        set_url_query(plain.as_str(), None)
    } else {
        set_url_query(plain.as_str(), Some(encode_form(&pairs).as_str()))
    }
}

/// Writes a URL as it is told apart from others. A URL of the web then has its host in lower case
/// and no fragment, and holds nothing that only tracks, but all else that was in its query.
pub fn canonicalize_url(url: &Url) -> (r: Url)
    ensures
        r@ == canonical(url@),
        is_web_scheme(url@.scheme) ==> {
            &&& r@.scheme == url@.scheme
            &&& has_lower_host(r@)
            &&& has_no_fragment(r@.text)
            &&& r@.query == kept_pairs(url@.query)
        },
{
    match write_canonical(url) {
        Some(t) => match parse_url(t.as_str()) {
            Ok(u) => u,
            Err(_) => url.clone(),
        },
        None => url.clone(),
    }
}

// ---------------------------------------------------------------------------
// Addresses
// ---------------------------------------------------------------------------

/// Whether an address is one of those that the public internet does not route.
pub open spec fn blocked_v4(a: int, b: int, c: int, d: int) -> bool {
    // Private networks.
    ||| a == 10
    ||| (a == 172 && 16 <= b <= 31)
    ||| (a == 192 && b == 168)
    // The machine itself, its link, and everyone on it.
    ||| a == 127
    ||| (a == 169 && b == 254)
    ||| (a == 255 && b == 255 && c == 255 && d == 255)
    ||| a == 0
    // Groups.
    ||| 224 <= a <= 239
    // Carriers.
    ||| (a == 100 && 64 <= b <= 127)
    // Assignments, documentation and benchmarks.
    ||| (a == 192 && b == 0 && (c == 0 || c == 2))
    ||| (a == 198 && (b == 18 || b == 19))
    ||| (a == 198 && b == 51 && c == 100)
    ||| (a == 203 && b == 0 && c == 113)
}

/// Whether the first `n` segments are zero.
pub open spec fn zero_until(s: Seq<u16>, n: int) -> bool {
    forall|i: int| 0 <= i < n ==> #[trigger] s[i] == 0
}

/// Whether an address stands for one with four octets.
pub open spec fn is_mapped(s: Seq<u16>) -> bool {
    zero_until(s, 5) && s[5] == 0xffff
}

pub open spec fn blocked_v6(s: Seq<u16>) -> bool {
    if is_mapped(s) {
        blocked_v4(
            (s[6] / 256) as int,
            (s[6] % 256) as int,
            (s[7] / 256) as int,
            (s[7] % 256) as int,
        )
    } else {
        // The machine itself, and no address at all.
        ||| (zero_until(s, 7) && s[7] <= 1)
        // Groups.
        ||| 0xff00 <= s[0]
        // Networks that are unique to a site.
        ||| 0xfc00 <= s[0] <= 0xfdff
        // The link.
        ||| 0xfe80 <= s[0] <= 0xfebf
    }
}

pub open spec fn blocked(ip: IpAddr) -> bool {
    match ip {
        IpAddr::V4(o) => blocked_v4(o[0] as int, o[1] as int, o[2] as int, o[3] as int),
        IpAddr::V6(s) => blocked_v6(s@),
    }
}

fn is_blocked_ipv4(a: u8, b: u8, c: u8, d: u8) -> (r: bool)
    ensures
        r == blocked_v4(a as int, b as int, c as int, d as int),
{
    a == 10 || (a == 172 && 16 <= b && b <= 31) || (a == 192 && b == 168) || a == 127 || (a == 169
        && b == 254) || (a == 255 && b == 255 && c == 255 && d == 255) || a == 0 || (224 <= a && a
        <= 239) || (a == 100 && 64 <= b && b <= 127) || (a == 192 && b == 0 && (c == 0 || c == 2))
        || (a == 198 && (b == 18 || b == 19)) || (a == 198 && b == 51 && c == 100) || (a == 203
        && b == 0 && c == 113)
}

fn is_blocked_ipv6(s: &[u16; 8]) -> (r: bool)
    ensures
        r == blocked_v6(s@),
{
    let zeros = s[0] == 0 && s[1] == 0 && s[2] == 0 && s[3] == 0 && s[4] == 0;
    assert(zeros == zero_until(s@, 5)) by {
        assert(zeros == (s@[0] == 0 && s@[1] == 0 && s@[2] == 0 && s@[3] == 0 && s@[4] == 0));
    }
    if zeros && s[5] == 0xffff {
        return is_blocked_ipv4(
            (s[6] / 256) as u8,
            (s[6] % 256) as u8,
            (s[7] / 256) as u8,
            (s[7] % 256) as u8,
        );
    }
    let more = zeros && s[5] == 0 && s[6] == 0;
    assert(more == zero_until(s@, 7)) by {
        assert(zero_until(s@, 7) ==> zero_until(s@, 5) && s@[5] == 0 && s@[6] == 0);
    }
    (more && s[7] <= 1) || 0xff00 <= s[0] || (0xfc00 <= s[0] && s[0] <= 0xfdff) || (0xfe80 <= s[0]
        && s[0] <= 0xfebf)
}

/// Whether an address may not be contacted.
pub fn is_blocked_ip(ip: IpAddr) -> (r: bool)
    ensures
        r == blocked(ip),
{
    match ip {
        IpAddr::V4(o) => is_blocked_ipv4(o[0], o[1], o[2], o[3]),
        IpAddr::V6(s) => is_blocked_ipv6(&s),
    }
}

/// An address that stands for one with four octets is blocked just where that one is.
pub proof fn lemma_mapped_addresses_are_blocked_alike(o: [u8; 4], s: [u16; 8])
    requires
        is_mapped(s@),
        s@[6] == o@[0] * 256 + o@[1],
        s@[7] == o@[2] * 256 + o@[3],
    ensures
        blocked(IpAddr::V6(s)) == blocked(IpAddr::V4(o)),
{
    let (a, b, c, d) = (o@[0] as int, o@[1] as int, o@[2] as int, o@[3] as int);
    assert(s@[6] / 256 == a && s@[6] % 256 == b);
    assert(s@[7] / 256 == c && s@[7] % 256 == d);
}

/// Names that stand for the machine or its network.
pub open spec fn blocked_name(host: Seq<char>) -> bool {
    ||| host == "localhost"@
    ||| ends_with(host, ".localhost"@)
    ||| ends_with(host, ".local"@)
    ||| ends_with(host, ".internal"@)
    ||| host == "metadata.google.internal"@
}

fn is_blocked_hostname(host: &str) -> (r: bool)
    ensures
        r == blocked_name(host@),
{
    str_eq(host, "localhost") || ends_with_str(host, ".localhost") || ends_with_str(host, ".local")
        || ends_with_str(host, ".internal") || str_eq(host, "metadata.google.internal")
}

/// The first address, at `i` or behind it, that is blocked.
pub open spec fn first_blocked(addresses: Seq<Address>, i: int) -> Option<int>
    decreases addresses.len() - i,
{
    if i < 0 || i >= addresses.len() {
        None
    } else if blocked(addresses[i].ip) {
        Some(i)
    } else {
        first_blocked(addresses, i + 1)
    }
}

/// Why a name with this resolution is not contacted, if it is not.
pub open spec fn name_refusal(host: Seq<char>, resolution: Resolution) -> Option<PolicyRefusal> {
    match resolution {
        Err(e) => Some(PolicyRefusal::ResolveFailed(host, e@)),
        Ok(addresses) => match first_blocked(addresses@, 0) {
            Some(i) => Some(
                PolicyRefusal::BlockedHost(host + " -> "@ + addresses@[i].text@),
            ),
            None => if addresses@.len() == 0 {
                Some(PolicyRefusal::ResolveFailed(host, "no addresses"@))
            } else {
                None
            },
        },
    }
}

/// Whether `r` succeeds where nothing is refused, and else says why.
pub open spec fn answers(r: Result<(), UrlPolicyError>, refusal: Option<PolicyRefusal>) -> bool {
    match refusal {
        None => r is Ok,
        Some(why) => r matches Err(e) && e@ == why,
    }
}

fn resolve_and_check_host(host: &str, resolution: &Resolution) -> (r: Result<(), UrlPolicyError>)
    ensures
        answers(r, name_refusal(host@, *resolution)),
{
    let addresses = match resolution {
        Ok(a) => a,
        Err(e) => {
            return Err(UrlPolicyError::ResolveFailed(host.to_string(), e.clone()));
        },
    };
    let mut i: usize = 0;
    while i < addresses.len()
        invariant
            i <= addresses@.len(),
            *resolution == Ok::<Vec<Address>, String>(*addresses),
            first_blocked(addresses@, 0) == first_blocked(addresses@, i as int),
        decreases addresses@.len() - i,
    {
        if is_blocked_ip(addresses[i].ip) {
            let mut text = host.to_string();
            text.append(" -> ");
            text.append(addresses[i].text.as_str());
            return Err(UrlPolicyError::BlockedHost(text));
        }
        i = i + 1;
    }
    if addresses.len() == 0 {
        return Err(
            UrlPolicyError::ResolveFailed(host.to_string(), "no addresses".to_string()),
        );
    }
    Ok(())
}

/// Why a URL is not contacted, if it is not; `resolution` is what its domain was resolved to.
pub open spec fn refusal(parts: UrlParts, resolution: Resolution) -> Option<PolicyRefusal> {
    if parts.scheme != "http"@ && parts.scheme != "https"@ {
        Some(PolicyRefusal::UnsupportedScheme)
    } else {
        match parts.host {
            None => Some(PolicyRefusal::MissingHost),
            Some(HostView::Ip(ip, text)) => if blocked(ip) {
                Some(PolicyRefusal::BlockedHost(text))
            } else {
                None
            },
            Some(HostView::Domain(d)) => if blocked_name(ascii_lower(d)) {
                Some(PolicyRefusal::BlockedHost(ascii_lower(d)))
            } else {
                name_refusal(ascii_lower(d), resolution)
            },
        }
    }
}

/// The name that has to be resolved before it is known whether a URL may be contacted.
pub open spec fn name_of(parts: UrlParts) -> Option<Seq<char>> {
    if parts.scheme != "http"@ && parts.scheme != "https"@ {
        None
    } else {
        match parts.host {
            Some(HostView::Domain(d)) => if blocked_name(ascii_lower(d)) {
                None
            } else {
                Some(ascii_lower(d))
            },
            _ => None,
        }
    }
}

pub fn host_to_resolve(url: &Url) -> (r: Option<String>)
    ensures
        opt_text(r) == name_of(url@),
{
    if !str_eq(url.scheme.as_str(), "http") && !str_eq(url.scheme.as_str(), "https") {
        return None;
    }
    match &url.host {
        Some(Host::Domain(d)) => {
            let name = ascii_lower_str(d.as_str());
            if is_blocked_hostname(name.as_str()) {
                None
            } else {
                Some(name)
            }
        },
        _ => None,
    }
}

/// Checks that a URL may be contacted. `resolution` is what `host_to_resolve` was resolved to;
/// where there is nothing to resolve it does not matter.
pub fn ensure_public_http_url(url: &Url, resolution: &Resolution) -> (r: Result<
    (),
    UrlPolicyError,
>)
    ensures
        answers(r, refusal(url@, *resolution)),
{
    if !str_eq(url.scheme.as_str(), "http") && !str_eq(url.scheme.as_str(), "https") {
        return Err(UrlPolicyError::UnsupportedScheme);
    }
    match &url.host {
        None => Err(UrlPolicyError::MissingHost),
        Some(Host::Ip(a)) => {
            if is_blocked_ip(a.ip) {
                Err(UrlPolicyError::BlockedHost(a.text.clone()))
            } else {
                Ok(())
            }
        },
        Some(Host::Domain(d)) => {
            let name = ascii_lower_str(d.as_str());
            if is_blocked_hostname(name.as_str()) {
                Err(UrlPolicyError::BlockedHost(name))
            } else {
                resolve_and_check_host(name.as_str(), resolution)
            }
        },
    }
}

proof fn lemma_first_blocked(addresses: Seq<Address>, i: int, k: int)
    requires
        0 <= i <= k < addresses.len(),
        first_blocked(addresses, i) is None,
    ensures
        !blocked(addresses[k].ip),
    decreases k - i,
{
    if i < k {
        lemma_first_blocked(addresses, i + 1, k);
    }
}

/// A URL that may be contacted leads to public addresses only: it is fetched over HTTP, and
/// neither the address that stands in it nor any that its name was resolved to is blocked.
pub proof fn lemma_only_public_addresses(parts: UrlParts, resolution: Resolution)
    requires
        refusal(parts, resolution) is None,
    ensures
        parts.scheme == "http"@ || parts.scheme == "https"@,
        parts.host is Some,
        parts.host matches Some(HostView::Ip(ip, _)) ==> !blocked(ip),
        parts.host matches Some(HostView::Domain(_)) ==> (resolution matches Ok(addresses)
            && addresses@.len() > 0 && forall|k: int|
            0 <= k < addresses@.len() ==> !blocked((#[trigger] addresses@[k]).ip)),
{
    if let Some(HostView::Domain(_)) = parts.host {
        let addresses = resolution->Ok_0;
        assert forall|k: int| 0 <= k < addresses@.len() implies !blocked(
            (#[trigger] addresses@[k]).ip,
        ) by {
            lemma_first_blocked(addresses@, 0, k);
        }
    }
}

/// The name that is resolved is the one on which the answer depends: without one, every
/// resolution gives the same answer.
pub proof fn lemma_resolution_matters_for_names_only(parts: UrlParts, a: Resolution, b: Resolution)
    requires
        name_of(parts) is None,
    ensures
        refusal(parts, a) == refusal(parts, b),
{
}

} // verus!
