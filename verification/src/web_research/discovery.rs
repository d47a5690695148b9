//! Finding pages.
use crate::text::{
    ascii_lower, ascii_lower_str, byte_prefix, byte_prefix_str, contains, contains_str,
    find_char_from, find_char_in, find_from, find_in, first_strs, from_chars, join, join_strs,
    lemma_find_bounds, lemma_find_char_bounds, replace, replace_str, starts_with, starts_with_str,
    str_eq, str_views, take_strs, to_chars, views, words, words_str,
};
use vstd::prelude::*;

verus! {

/// A page that was found.
#[derive(Debug)]
pub struct DiscoveryHit {
    pub title: String,
    pub url: String,
    pub snippet: String,
}

/// A page that was found, in characters.
pub struct HitView {
    pub title: Seq<char>,
    pub url: Seq<char>,
    pub snippet: Seq<char>,
}

impl View for DiscoveryHit {
    type V = HitView;

    open spec fn view(&self) -> HitView {
        HitView { title: self.title@, url: self.url@, snippet: self.snippet@ }
    }
}

pub open spec fn hit_views(v: Seq<DiscoveryHit>) -> Seq<HitView> {
    v.map_values(|h: DiscoveryHit| h@)
}

/// How a search went.
#[derive(Debug, Clone, Copy, PartialEq, Eq, Structural)]
pub enum DiscoveryHealth {
    Healthy,
    Empty,
    Challenge,
    SoftBlock,
    ParseError,
}

/// What a search gave.
#[derive(Debug)]
pub struct DiscoveryOutcome {
    pub adapter_id: String,
    pub health: DiscoveryHealth,
    pub hits: Vec<DiscoveryHit>,
    pub detail: Option<String>,
}

impl DiscoveryOutcome {
    /// Whether there is something to go by.
    pub open spec fn usable(self) -> bool {
        self.health == DiscoveryHealth::Healthy && self.hits@.len() > 0
    }

    /// Whether this is what a search gives that no adapter has taken part in.
    pub open spec fn is_nothing(self) -> bool {
        &&& self.adapter_id@ == "none"@
        &&& self.health == DiscoveryHealth::Empty
        &&& self.hits@.len() == 0
        &&& self.detail matches Some(d) && d@ == "no adapters configured"@
    }
}

/// What reads the results of one search engine.
pub trait DiscoveryAdapter {
    /// The name of the adapter.
    fn id(&self) -> (r: &str);

    /// Reads a page of results.
    fn search(&self, query: &str, html: &str) -> (r: DiscoveryOutcome);
}

/// Whether the adapter, asked for its name, may give this one, or may give another.
pub open spec fn may_answer<A: DiscoveryAdapter>(adapter: A, name: Seq<char>, same: bool) -> bool {
    exists|id: &str| #[trigger] call_ensures(A::id, (&adapter,), id) && (id@ == name) == same
}

/// Whether this may be the adapter that is found for a name: the first that gives it when the
/// adapters are asked one after the other; none where each gives another.
pub open spec fn may_be_found<A: DiscoveryAdapter>(
    adapters: Seq<A>,
    name: Seq<char>,
    found: Option<int>,
) -> bool {
    let passed = match found {
        Some(k) => k,
        None => adapters.len() as int,
    };
    &&& forall|j: int| 0 <= j < passed ==> may_answer(#[trigger] adapters[j], name, false)
    &&& found matches Some(k) ==> 0 <= k < adapters.len() && may_answer(adapters[k], name, true)
}

/// Whether the adapter may read this from a page of results.
pub open spec fn may_read<A: DiscoveryAdapter>(
    adapter: A,
    query: &str,
    html: &str,
    outcome: DiscoveryOutcome,
) -> bool {
    call_ensures(A::search, (&adapter, query, html), outcome)
}

/// What becomes of a page of results: the number of the adapter that was found for it and what it
/// read, or nothing where none was found.
pub type PageReading = Option<(int, DiscoveryOutcome)>;

pub open spec fn is_usable(reading: PageReading) -> bool {
    reading matches Some((_, outcome)) && outcome.usable()
}

/// Whether this may become of a page of results.
pub open spec fn is_reading<A: DiscoveryAdapter>(
    adapters: Seq<A>,
    query: &str,
    page: (&str, &str),
    reading: PageReading,
) -> bool {
    match reading {
        Some((k, outcome)) => may_be_found(adapters, page.0@, Some(k)) && may_read(
            adapters[k],
            query,
            page.1,
            outcome,
        ),
        None => may_be_found(adapters, page.0@, None),
    }
}

/// Whether this may become of the pages: page by page, up to the first one that gives something to
/// go by.
pub open spec fn is_run<A: DiscoveryAdapter>(
    adapters: Seq<A>,
    query: &str,
    pages: Seq<(&str, &str)>,
    readings: Seq<PageReading>,
) -> bool {
    &&& readings.len() <= pages.len()
    &&& forall|i: int|
        0 <= i < readings.len() ==> is_reading(adapters, query, pages[i], #[trigger] readings[i])
    &&& forall|i: int| 0 <= i < readings.len() - 1 ==> !is_usable(#[trigger] readings[i])
    &&& readings.len() < pages.len() ==> readings.len() > 0 && is_usable(readings.last())
}

/// What was read last, if anything was.
pub open spec fn last_read(readings: Seq<PageReading>) -> Option<DiscoveryOutcome>
    decreases readings.len(),
{
    if readings.len() == 0 {
        None
    } else {
        match readings.last() {
            Some((_, outcome)) => Some(outcome),
            None => last_read(readings.drop_last()),
        }
    }
}

/// Tries adapters one after the other until one finds something.
pub struct FailoverDiscovery<A: DiscoveryAdapter> {
    adapters: Vec<A>,
}

impl<A: DiscoveryAdapter> FailoverDiscovery<A> {
    pub closed spec fn all(&self) -> Seq<A> {
        self.adapters@
    }

    pub fn new(adapters: Vec<A>) -> (r: Self)
        ensures
            r.all() == adapters@,
    {
        FailoverDiscovery { adapters }
    }

    pub fn adapters(&self) -> (r: &Vec<A>)
        ensures
            r@ == self.all(),
    {
        &self.adapters
    }

    fn find_adapter(&self, name: &str) -> (r: Option<usize>)
        ensures
            may_be_found(
                self.all(),
                name@,
                match r {
                    Some(i) => Some(i as int),
                    None => None,
                },
            ),
            r matches Some(i) ==> i < self.all().len(),
    {
        let mut i: usize = 0;
        while i < self.adapters.len()
            invariant
                i <= self.adapters@.len(),
                forall|j: int|
                    0 <= j < i ==> may_answer(#[trigger] self.adapters@[j], name@, false),
            decreases self.adapters@.len() - i,
        {
            let id = self.adapters[i].id();
            let same = str_eq(id, name);
            assert(may_answer(self.adapters@[i as int], name@, same));
            if same {
                return Some(i);
            }
            i = i + 1;
        }
        None
    }

    /// Reads pages of results, each with the adapter that is named beside it, until one gives
    /// something to go by; else what the last one gave.
    pub fn parse_with_failover(&self, query: &str, pages: &Vec<(&str, &str)>) -> (r:
        DiscoveryOutcome)
        ensures
            exists|readings: Seq<PageReading>|
                {
                    &&& #[trigger] is_run(self.all(), query, pages@, readings)
                    &&& match last_read(readings) {
                        Some(outcome) => r == outcome,
                        None => r.is_nothing(),
                    }
                },
    {
        let mut last = DiscoveryOutcome {
            adapter_id: "none".to_string(),
            health: DiscoveryHealth::Empty,
            hits: Vec::new(),
            detail: Some("no adapters configured".to_string()),
        };
        let ghost mut readings: Seq<PageReading> = Seq::empty();
        let mut i: usize = 0;
        while i < pages.len()
            invariant
                i <= pages@.len(),
                readings.len() == i,
                forall|k: int|
                    0 <= k < i ==> is_reading(
                        self.all(),
                        query,
                        pages@[k],
                        #[trigger] readings[k],
                    ),
                forall|k: int| 0 <= k < i ==> !is_usable(#[trigger] readings[k]),
                match last_read(readings) {
                    Some(outcome) => last == outcome,
                    None => last.is_nothing(),
                },
            decreases pages@.len() - i,
        {
            let ghost earlier = readings;
            match self.find_adapter(pages[i].0) {
                Some(at) => {
                    let outcome = self.adapters[at].search(query, pages[i].1);
                    proof {
                        readings = readings.push(Some((at as int, outcome)));
                        assert(readings.drop_last() =~= earlier);
                        assert(is_reading(self.all(), query, pages@[i as int], readings[i as int]));
                    }
                    let usable = match outcome.health {
                        DiscoveryHealth::Healthy => outcome.hits.len() > 0,
                        _ => false,
                    };
                    if usable {
                        assert(is_run(self.all(), query, pages@, readings));
                        return outcome;
                    }
                    last = outcome;
                },
                None => {
                    proof {
                        readings = readings.push(None);
                        assert(readings.drop_last() =~= earlier);
                    }
                },
            }
            i = i + 1;
        }
        assert(is_run(self.all(), query, pages@, readings));
        last
    }
}

// ---------------------------------------------------------------------------
// Links on a page
// ---------------------------------------------------------------------------

/// `s` without its tags; `inside` says whether it starts within one.
pub open spec fn untagged(s: Seq<char>, inside: bool) -> Seq<char>
    decreases s.len(),
{
    if s.len() == 0 {
        Seq::empty()
    } else if s[0] == '<' {
        untagged(s.skip(1), true)
    } else if s[0] == '>' {
        untagged(s.skip(1), false)
    } else if inside {
        untagged(s.skip(1), true)
    } else {
        seq![s[0]] + untagged(s.skip(1), false)
    }
}

/// A text with the common entities written out.
pub open spec fn unescaped(s: Seq<char>) -> Seq<char> {
    replace(
        replace(
            replace(replace(replace(s, "&amp;"@, "&"@), "&lt;"@, "<"@), "&gt;"@, ">"@),
            "&quot;"@,
            "\""@,
        ),
        "&#39;"@,
        "'"@,
    )
}

/// The text of a piece of a page.
pub open spec fn plain_text(s: Seq<char>) -> Seq<char> {
    unescaped(untagged(s, false))
}

fn html_unescape_basic(input: &str) -> (r: String)
    ensures
        r@ == unescaped(input@),
{
    proof {
        reveal_strlit("&amp;");
        reveal_strlit("&lt;");
        reveal_strlit("&gt;");
        reveal_strlit("&quot;");
        reveal_strlit("&#39;");
    }
    let a = replace_str(input, "&amp;", "&");
    let b = replace_str(a.as_str(), "&lt;", "<");
    let c = replace_str(b.as_str(), "&gt;", ">");
    let d = replace_str(c.as_str(), "&quot;", "\"");
    replace_str(d.as_str(), "&#39;", "'")
}

fn strip_tags(input: &str) -> (r: String)
    ensures
        r@ == plain_text(input@),
{
    let v = to_chars(input);
    let mut out = String::new();
    let mut inside = false;
    let mut i: usize = 0;
    assert(v@.skip(0) =~= input@);
    while i < v.len()
        invariant
            i <= v@.len(),
            out@ + untagged(v@.skip(i as int), inside) == untagged(input@, false),
        decreases v@.len() - i,
    {
        let ghost rest = v@.skip(i as int);
        assert(rest.skip(1) =~= v@.skip(i + 1));
        let c = v[i];
        if c == '<' {
            inside = true;
        } else if c == '>' {
            inside = false;
        } else if !inside {
            let ghost before = out@;
            out.push(c);
            assert(out@ + untagged(rest.skip(1), false) =~= before + (seq![c] + untagged(
                rest.skip(1),
                false,
            )));
        }
        i = i + 1;
    }
    assert(out@ + Seq::<char>::empty() =~= out@);
    html_unescape_basic(out.as_str())
}

/// How many bytes behind a link are read for its title and snippet.
pub const LINK_WINDOW: usize = 400;

/// The page that a link leads to; `end` is where its URL ends.
pub open spec fn hit_at(html: Seq<char>, end: int, url: Seq<char>) -> HitView {
    let text = words(plain_text(byte_prefix(html.skip(end), LINK_WINDOW as nat)));
    let title = join(first_strs(text, 12), " "@);
    HitView {
        title: if title.len() == 0 {
            url
        } else {
            title
        },
        url,
        snippet: join(first_strs(text, 40), " "@),
    }
}

/// Whether a URL is among the found pages.
pub open spec fn has_url(hits: Seq<HitView>, url: Seq<char>) -> bool {
    exists|i: int| 0 <= i < hits.len() && (#[trigger] hits[i]).url == url
}

/// Whether one of the strings stands in a URL.
pub open spec fn holds_any(url: Seq<char>, needles: Seq<Seq<char>>) -> bool {
    exists|i: int| 0 <= i < needles.len() && contains(ascii_lower(url), #[trigger] needles[i])
}

/// Whether a link leads to a page that is not yet found, and not one of the search engine.
pub open spec fn is_wanted(url: Seq<char>, needles: Seq<Seq<char>>, hits: Seq<HitView>) -> bool {
    &&& starts_with(url, "http://"@) || starts_with(url, "https://"@)
    &&& !holds_any(url, needles)
    &&& !has_url(hits, url)
}

/// The found pages and those to which the links from `from` on lead, `max` at most.
pub open spec fn links_from(
    html: Seq<char>,
    from: int,
    needles: Seq<Seq<char>>,
    max: nat,
    hits: Seq<HitView>,
) -> Seq<HitView>
    decreases html.len() - from,
    when 0 <= from
    via links_from_decreases
{
    if hits.len() >= max {
        hits
    } else {
        match find_from(html, "href=\""@, from) {
            None => hits,
            Some(k) => match find_char_from(html, '"', k + 6) {
                None => hits,
                Some(end) => {
                    let url = html.subrange(k + 6, end);
                    links_from(
                        html,
                        end + 1,
                        needles,
                        max,
                        if is_wanted(url, needles, hits) {
                            hits.push(hit_at(html, end, url))
                        } else {
                            hits
                        },
                    )
                },
            },
        }
    }
}

#[via_fn]
proof fn links_from_decreases(
    html: Seq<char>,
    from: int,
    needles: Seq<Seq<char>>,
    max: nat,
    hits: Seq<HitView>,
) {
    lemma_find_bounds(html, "href=\""@, from);
    if let Some(k) = find_from(html, "href=\""@, from) {
        lemma_find_char_bounds(html, '"', k + 6);
    }
}

fn known_url(hits: &Vec<DiscoveryHit>, url: &str) -> (r: bool)
    ensures
        r == has_url(hit_views(hits@), url@),
{
    let ghost all = hit_views(hits@);
    let mut i: usize = 0;
    while i < hits.len()
        invariant
            i <= hits@.len(),
            all == hit_views(hits@),
            forall|j: int| 0 <= j < i ==> (#[trigger] all[j]).url != url@,
        decreases hits@.len() - i,
    {
        assert(all[i as int] == hits@[i as int]@);
        if str_eq(hits[i].url.as_str(), url) {
            return true;
        }
        i = i + 1;
    }
    false
}

fn contains_any(url: &str, needles: &Vec<&'static str>) -> (r: bool)
    ensures
        r == holds_any(url@, str_views(needles@)),
{
    let lower = ascii_lower_str(url);
    let ghost all = str_views(needles@);
    let mut i: usize = 0;
    while i < needles.len()
        invariant
            i <= needles@.len(),
            all == str_views(needles@),
            lower@ == ascii_lower(url@),
            forall|j: int| 0 <= j < i ==> !contains(ascii_lower(url@), #[trigger] all[j]),
        decreases needles@.len() - i,
    {
        assert(all[i as int] == needles@[i as int]@);
        if contains_str(lower.as_str(), needles[i]) {
            return true;
        }
        i = i + 1;
    }
    false
}

fn make_hit(v: &Vec<char>, end: usize, url: String) -> (r: DiscoveryHit)
    requires
        end <= v@.len(),
    ensures
        r@ == hit_at(v@, end as int, url@),
{
    let rest = from_chars(v, end, v.len());
    assert(rest@ =~= v@.skip(end as int));
    let window = byte_prefix_str(rest.as_str(), LINK_WINDOW);
    let text = words_str(strip_tags(window.as_str()).as_str());
    let title = join_strs(&take_strs(&text, 12), " ");
    let snippet = join_strs(&take_strs(&text, 40), " ");
    let title = if title.as_str().is_empty() {
        url.clone()
    } else {
        title
    };
    DiscoveryHit { title, url, snippet }
}

/// The pages to which the links on a page of results lead, each once. Links in which one of
/// `link_contains` stands are passed over.
pub fn extract_result_links(
    html: &str,
    link_contains: &Vec<&'static str>,
    max_results: usize,
) -> (r: Vec<DiscoveryHit>)
    ensures
        hit_views(r@) == links_from(
            html@,
            0,
            str_views(link_contains@),
            max_results as nat,
            Seq::empty(),
        ),
{
    let v = to_chars(html);
    let p = to_chars("href=\"");
    let ghost needles = str_views(link_contains@);
    let ghost wanted = links_from(html@, 0, needles, max_results as nat, Seq::empty());
    proof {
        reveal_strlit("href=\"");
    }
    let mut hits: Vec<DiscoveryHit> = Vec::new();
    let mut from: usize = 0;
    assert(hit_views(hits@) =~= Seq::<HitView>::empty());
    while hits.len() < max_results
        invariant
            v@ == html@,
            p@ == "href=\""@,
            p@.len() == 6,
            needles == str_views(link_contains@),
            from <= v@.len(),
            wanted == links_from(html@, 0, needles, max_results as nat, Seq::empty()),
            links_from(html@, from as int, needles, max_results as nat, hit_views(hits@))
                == wanted,
        decreases v@.len() - from,
    {
        let ghost before = hit_views(hits@);
        let k: usize = match find_in(&v, &p, from) {
            Some(k) => k,
            None => {
                return hits;
            },
        };
        let end: usize = match find_char_in(&v, '"', k + 6) {
            Some(e) => e,
            None => {
                return hits;
            },
        };
        let url = from_chars(&v, k + 6, end);
        let ghost u = url@;
        from = end + 1;
        if (starts_with_str(url.as_str(), "http://") || starts_with_str(url.as_str(), "https://"))
            && !contains_any(url.as_str(), link_contains) && !known_url(&hits, url.as_str()) {
            let hit = make_hit(&v, end, url);
            let ghost h = hit@;
            hits.push(hit);
            assert(hit_views(hits@) =~= before.push(h));
        }
    }
    hits
}

/// Whether a list of found pages is in order: no more than wanted, no URL twice, and only links
/// over HTTP that hold none of the strings.
pub open spec fn in_order(hits: Seq<HitView>, needles: Seq<Seq<char>>, max: nat) -> bool {
    &&& hits.len() <= max
    &&& forall|i: int, j: int| 0 <= i < j < hits.len() ==> hits[i].url != hits[j].url
    &&& forall|i: int|
        0 <= i < hits.len() ==> {
            &&& starts_with((#[trigger] hits[i]).url, "http://"@) || starts_with(
                hits[i].url,
                "https://"@,
            )
            &&& !holds_any(hits[i].url, needles)
        }
}

/// The links that are read off a page are in order.
pub proof fn lemma_links_are_in_order(
    html: Seq<char>,
    from: int,
    needles: Seq<Seq<char>>,
    max: nat,
    hits: Seq<HitView>,
)
    requires
        0 <= from,
        in_order(hits, needles, max),
    ensures
        in_order(links_from(html, from, needles, max, hits), needles, max),
    decreases html.len() - from,
{
    lemma_find_bounds(html, "href=\""@, from);
    if hits.len() < max {
        if let Some(k) = find_from(html, "href=\""@, from) {
            lemma_find_char_bounds(html, '"', k + 6);
            if let Some(end) = find_char_from(html, '"', k + 6) {
                let url = html.subrange(k + 6, end);
                let more = if is_wanted(url, needles, hits) {
                    hits.push(hit_at(html, end, url))
                } else {
                    hits
                };
                lemma_links_are_in_order(html, end + 1, needles, max, more);
            }
        }
    }
}

/// Whether a page in lower case asks a visitor to prove that they are no program.
pub open spec fn asks_for_proof(lower: Seq<char>) -> bool {
    ||| contains(lower, "cf-browser-verification"@)
    ||| contains(lower, "anubis_challenge"@)
    ||| contains(lower, "challenges.cloudflare.com/turnstile"@)
    ||| contains(lower, "id=\"turnstile-widget\""@)
    ||| contains(lower, "unusual traffic"@)
    ||| contains(lower, "enable javascript and cookies"@)
    ||| (contains(lower, "captcha"@) && (contains(lower, "turnstile"@) || contains(lower, "cf-"@)
        || contains(lower, "g-recaptcha"@) || contains(lower, "hcaptcha"@) || contains(
        lower,
        "please solve"@,
    )))
}

/// Whether a page asks a visitor to prove that they are no program. What results say of such
/// pages does not count: only how the page is made.
pub fn looks_like_challenge(html: &str) -> (r: bool)
    ensures
        r == asks_for_proof(ascii_lower(html@)),
{
    let lower = ascii_lower_str(html);
    let l = lower.as_str();
    contains_str(l, "cf-browser-verification") || contains_str(l, "anubis_challenge")
        || contains_str(l, "challenges.cloudflare.com/turnstile") || contains_str(
        l,
        "id=\"turnstile-widget\"",
    ) || contains_str(l, "unusual traffic") || contains_str(l, "enable javascript and cookies") || (
    contains_str(l, "captcha") && (contains_str(l, "turnstile") || contains_str(l, "cf-")
        || contains_str(l, "g-recaptcha") || contains_str(l, "hcaptcha") || contains_str(
        l,
        "please solve",
    )))
}

} // verus!
