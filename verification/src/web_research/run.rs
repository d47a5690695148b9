//! A session of web research while it runs. What the next page is, whether it may be fetched and
//! what is made of it is decided here; fetching it is not.
use crate::sorting::is_sorted_set_of;
use crate::text::{
    byte_len_capped, contains_string, dec, dec_str, ellipsize, ellipsized, trim, trim_str, utf8_len,
    views,
};
use crate::web_research::config::Millis;
use crate::web_research::fetch::{FetchError, FetchOutcome, FetchedPage, FetchedView};
use crate::web_research::reading::{
    claims_of, confidence_of, extract_claims, extract_markdown_links, extract_quotes, links_in,
    quotes_of,
};
use crate::web_research::session::{
    allows, body_views, citation_views, claim_views, seed_hosts, skip_views, url_allowed, BodyView,
    CitationView, ClaimView, DigestView, ResearchBudgets, ResearchCitation, ResearchClaim,
    ResearchDigest, ResearchPageBody, ResearchSeed, ResearchSession, ResearchSessionOutcome,
    ResearchSkip, SkipView,
};
use crate::web_research::url_policy::{
    canonical, canonicalize_url, ensure_public_http_url, link_target, normalize_url_string,
    parsed_url, refusal, with_scheme, PolicyRefusal, Resolution, Url, UrlParts,
};
use vstd::prelude::*;

verus! {

/// How many quotes are taken from a page, and how long they are.
pub const MAX_PAGE_QUOTES: usize = 2;

pub const MAX_QUOTE_CHARS: usize = 220;

/// How many links of a page are followed.
pub const MAX_PAGE_LINKS: usize = 8;

/// How many claims a digest holds.
pub const MAX_CLAIMS: usize = 12;

/// What a page is taken to weigh besides its text.
pub const PAGE_OVERHEAD_BYTES: u64 = 2_048;

/// A page that is to be fetched.
#[derive(Debug)]
pub struct FrontierItem {
    pub url: Url,
    pub title: String,
    pub snippet: String,
    pub depth: usize,
    pub score: i32,
}

/// A page that is to be fetched, in characters.
pub struct ItemView {
    pub url: UrlParts,
    pub title: Seq<char>,
    pub snippet: Seq<char>,
    pub depth: usize,
    pub score: i32,
}

impl View for FrontierItem {
    type V = ItemView;

    open spec fn view(&self) -> ItemView {
        ItemView {
            url: self.url@,
            title: self.title@,
            snippet: self.snippet@,
            depth: self.depth,
            score: self.score,
        }
    }
}

pub open spec fn item_views(v: Seq<FrontierItem>) -> Seq<ItemView> {
    v.map_values(|i: FrontierItem| i@)
}

/// A session while it runs.
#[derive(Debug)]
pub struct ResearchRun {
    query: String,
    allowlist: Vec<String>,
    budgets: ResearchBudgets,
    max_snippet_chars: usize,
    frontier: Vec<FrontierItem>,
    seen: Vec<String>,
    sources: Vec<ResearchCitation>,
    claims: Vec<ResearchClaim>,
    skipped: Vec<ResearchSkip>,
    pages: Vec<ResearchPageBody>,
    pages_fetched: usize,
    bytes_downloaded: u64,
    stopped_reason: String,
}

/// A session while it runs, in characters.
pub struct RunView {
    pub query: Seq<char>,
    pub allowlist: Seq<Seq<char>>,
    pub budgets: ResearchBudgets,
    pub max_snippet_chars: usize,
    /// The pages that are to be fetched.
    pub frontier: Seq<ItemView>,
    /// The URLs that have been come across.
    pub seen: Seq<Seq<char>>,
    pub sources: Seq<CitationView>,
    pub claims: Seq<ClaimView>,
    pub skipped: Seq<SkipView>,
    pub pages: Seq<BodyView>,
    pub pages_fetched: usize,
    pub bytes_downloaded: u64,
    pub stopped_reason: Seq<char>,
}

impl View for ResearchRun {
    type V = RunView;

    closed spec fn view(&self) -> RunView {
        RunView {
            query: self.query@,
            allowlist: views(self.allowlist@),
            budgets: self.budgets,
            max_snippet_chars: self.max_snippet_chars,
            frontier: item_views(self.frontier@),
            seen: views(self.seen@),
            sources: citation_views(self.sources@),
            claims: claim_views(self.claims@),
            skipped: skip_views(self.skipped@),
            pages: body_views(self.pages@),
            pages_fetched: self.pages_fetched,
            bytes_downloaded: self.bytes_downloaded,
            stopped_reason: self.stopped_reason@,
        }
    }
}

// ---------------------------------------------------------------------------
// What happens to a session
// ---------------------------------------------------------------------------

/// Passes over a page.
pub open spec fn skip_page(s: RunView, url: Seq<char>, reason: Seq<char>) -> RunView {
    RunView { skipped: s.skipped.push(SkipView { url, reason }), ..s }
}

/// Comes across a URL.
pub open spec fn see_url(s: RunView, url: Seq<char>) -> RunView {
    RunView { seen: s.seen.push(url), ..s }
}

/// Puts a page among those that are to be fetched.
pub open spec fn add_item(s: RunView, item: ItemView) -> RunView {
    RunView { frontier: s.frontier.push(item), ..s }
}

/// Takes up a page that was found, as the one with this rank.
pub open spec fn take_seed(s: RunView, seed: ResearchSeed, rank: int) -> RunView {
    match parsed_url(with_scheme(seed.url@)) {
        Err(e) => skip_page(
            s,
            seed.url@,
            "invalid_url: "@ + PolicyRefusal::InvalidUrl(e).text(),
        ),
        Ok(p) => {
            let url = canonical(p);
            if s.seen.contains(url.text) {
                s
            } else if !allows(s.allowlist, url) {
                skip_page(see_url(s, url.text), url.text, "outside_domain_allowlist"@)
            } else {
                add_item(
                    see_url(s, url.text),
                    ItemView {
                        url,
                        title: seed.title@,
                        snippet: seed.snippet@,
                        depth: 0,
                        score: (1_000 - rank) as i32,
                    },
                )
            }
        },
    }
}

/// Takes up the pages that were found.
pub open spec fn take_seeds(s: RunView, seeds: Seq<ResearchSeed>) -> RunView
    decreases seeds.len(),
{
    if seeds.len() == 0 {
        s
    } else {
        take_seed(take_seeds(s, seeds.drop_last()), seeds.last(), seeds.len() - 1)
    }
}

/// A session to which nothing has happened yet.
pub open spec fn fresh(session: ResearchSession, allowlist: Seq<Seq<char>>) -> RunView {
    RunView {
        query: session.query@,
        allowlist,
        budgets: session.budgets,
        max_snippet_chars: session.max_snippet_chars,
        frontier: Seq::empty(),
        seen: Seq::empty(),
        sources: Seq::empty(),
        claims: Seq::empty(),
        skipped: Seq::empty(),
        pages: Seq::empty(),
        pages_fetched: 0,
        bytes_downloaded: 0,
        stopped_reason: "completed"@,
    }
}

/// The first of the most promising pages among the first `n`.
pub open spec fn best(frontier: Seq<ItemView>, n: int) -> int
    decreases n,
{
    if n <= 1 {
        0
    } else {
        let b = best(frontier, n - 1);
        if frontier[n - 1].score > frontier[b].score {
            n - 1
        } else {
            b
        }
    }
}

/// The session without the most promising page.
pub open spec fn without_best(s: RunView) -> RunView {
    RunView { frontier: s.frontier.remove(best(s.frontier, s.frontier.len() as int)), ..s }
}

/// Why no further page is fetched, if none is.
pub open spec fn stop_reason(s: RunView, cancelled: bool, elapsed: Millis) -> Option<Seq<char>> {
    if cancelled {
        Some("cancelled"@)
    } else if elapsed >= s.budgets.wall_clock {
        Some("wall_clock_budget"@)
    } else if s.pages_fetched >= s.budgets.max_pages {
        Some("max_pages"@)
    } else if s.bytes_downloaded >= s.budgets.max_download_bytes {
        Some("max_download_bytes"@)
    } else {
        None
    }
}

/// What came of fetching a page, in characters.
pub enum OutcomeView {
    Fetched(FetchedView),
    NeedsBrowser(Seq<char>, Seq<char>),
    Failed(Seq<char>),
}

pub open spec fn outcome_view(outcome: Result<FetchOutcome, FetchError>) -> OutcomeView {
    match outcome {
        Ok(FetchOutcome::Fetched(page)) => OutcomeView::Fetched(page@),
        Ok(FetchOutcome::NeedsBrowser { reason, url }) => OutcomeView::NeedsBrowser(
            reason@,
            url@,
        ),
        Err(e) => OutcomeView::Failed(e.text()),
    }
}

pub open spec fn saturating(n: int) -> u64 {
    if n > u64::MAX {
        u64::MAX
    } else {
        n as u64
    }
}

/// How many bytes a text takes, as far as that can be counted.
pub open spec fn byte_count(text: Seq<char>) -> nat {
    if utf8_len(text) <= usize::MAX {
        utf8_len(text)
    } else {
        usize::MAX as nat
    }
}

/// The title of a page, or else the one under which it was found.
pub open spec fn page_title(page: FetchedView, item: ItemView) -> Seq<char> {
    match page.extracted.title {
        Some(t) => if t.len() > 0 {
            t
        } else {
            item.title
        },
        None => item.title,
    }
}

/// Claims for which the one source stands.
pub open spec fn claims_from(texts: Seq<Seq<char>>, index: usize, confidence: Seq<char>) -> Seq<
    ClaimView,
> {
    texts.map_values(
        |t: Seq<char>| ClaimView { text: t, source_indexes: seq![index], confidence },
    )
}

/// Takes up the text of a page.
pub open spec fn take_page(s: RunView, item: ItemView, page: FetchedView) -> RunView {
    let index = (s.sources.len() + 1) as usize;
    let title = page_title(page, item);
    let markdown = page.extracted.markdown;
    RunView {
        pages_fetched: (s.pages_fetched + 1) as usize,
        bytes_downloaded: saturating(
            saturating(s.bytes_downloaded + byte_count(markdown)) + PAGE_OVERHEAD_BYTES,
        ),
        claims: s.claims + claims_from(
            claims_of(markdown, item.snippet),
            index,
            confidence_of(markdown),
        ),
        sources: s.sources.push(
            CitationView {
                index,
                title,
                url: page.final_url,
                source_id: page.source_id,
                quotes: quotes_of(markdown, MAX_PAGE_QUOTES as nat, MAX_QUOTE_CHARS as nat),
            },
        ),
        pages: s.pages.push(
            BodyView {
                url: page.final_url,
                title,
                source_id: page.source_id,
                markdown,
                fetch_mode: page.fetch_mode.text(),
            },
        ),
        ..s
    }
}

/// Follows a link from a page.
pub open spec fn follow_link(s: RunView, item: ItemView, link: Seq<char>) -> RunView {
    match link_target(item.url.text, link) {
        Err(_) => s,
        Ok(target) => {
            let url = canonical(target);
            if s.seen.contains(url.text) {
                s
            } else if !allows(s.allowlist, url) {
                see_url(s, url.text)
            } else {
                add_item(
                    see_url(s, url.text),
                    ItemView {
                        url,
                        title: Seq::empty(),
                        snippet: Seq::empty(),
                        depth: (item.depth + 1) as usize,
                        score: (100 - item.depth) as i32,
                    },
                )
            }
        },
    }
}

/// Follows links from a page.
pub open spec fn follow_links(s: RunView, item: ItemView, links: Seq<Seq<char>>) -> RunView
    decreases links.len(),
{
    if links.len() == 0 {
        s
    } else {
        follow_link(follow_links(s, item, links.drop_last()), item, links.last())
    }
}

/// Keeps what was said of a page when it was found, for want of the page.
pub open spec fn keep_snippet(s: RunView, item: ItemView, url: Seq<char>) -> RunView {
    if trim(item.snippet).len() == 0 {
        s
    } else {
        let index = (s.sources.len() + 1) as usize;
        RunView {
            claims: s.claims.push(
                ClaimView {
                    text: ellipsized(item.snippet, s.max_snippet_chars as nat),
                    source_indexes: seq![index],
                    confidence: "snippet"@,
                },
            ),
            sources: s.sources.push(
                CitationView {
                    index,
                    title: item.title,
                    url,
                    source_id: "serp:"@ + dec(index as nat),
                    quotes: seq![ellipsized(item.snippet, MAX_QUOTE_CHARS as nat)],
                },
            ),
            ..s
        }
    }
}

/// Takes up what came of fetching a page.
pub open spec fn take_outcome(s: RunView, item: ItemView, outcome: OutcomeView) -> RunView {
    match outcome {
        OutcomeView::Fetched(page) => {
            let taken = take_page(s, item, page);
            if item.depth < s.budgets.max_depth {
                follow_links(
                    taken,
                    item,
                    links_in(page.extracted.markdown, 0, MAX_PAGE_LINKS as nat, Seq::empty()),
                )
            } else {
                taken
            }
        },
        OutcomeView::NeedsBrowser(reason, url) => skip_page(
            keep_snippet(s, item, url),
            url,
            "needs_browser: "@ + reason,
        ),
        OutcomeView::Failed(e) => skip_page(s, item.url.text, e),
    }
}

/// Why a session came to its end.
pub open spec fn end_reason(s: RunView) -> Seq<char> {
    if s.frontier.len() == 0 && s.stopped_reason == "completed"@ && s.pages_fetched == 0 {
        if s.skipped.len() == 0 {
            "no_seeds"@
        } else {
            "no_pages_fetched"@
        }
    } else {
        s.stopped_reason
    }
}

/// What a session found out.
pub open spec fn digest_of(s: RunView) -> DigestView {
    DigestView {
        query: s.query,
        claims: if s.claims.len() <= MAX_CLAIMS {
            s.claims
        } else {
            s.claims.take(MAX_CLAIMS as int)
        },
        sources: s.sources,
        pages_fetched: s.pages_fetched,
        skipped: s.skipped,
        stopped_reason: end_reason(s),
        domain_allowlist: s.allowlist,
        session_id: None,
    }
}

// ---------------------------------------------------------------------------
// What always holds of a session
// ---------------------------------------------------------------------------

/// Whether a session is sound:
/// no more pages have been fetched than may be, and the text of each of them is kept;
/// the sources are numbered from one on, and each claim names one of them;
/// no URL was come across twice, and each page that is to be fetched was come across, has an
/// allowed host, and lies no deeper than pages may.
pub open spec fn sound(s: RunView) -> bool {
    &&& s.pages.len() == s.pages_fetched
    &&& s.pages_fetched <= s.budgets.max_pages
    &&& s.budgets.max_depth <= i32::MAX
    &&& forall|i: int| 0 <= i < s.sources.len() ==> (#[trigger] s.sources[i]).index == i + 1
    &&& forall|i: int|
        0 <= i < s.claims.len() ==> {
            &&& (#[trigger] s.claims[i]).source_indexes.len() == 1
            &&& 1 <= s.claims[i].source_indexes[0] <= s.sources.len()
        }
    &&& s.seen.no_duplicates()
    &&& forall|i: int|
        0 <= i < s.frontier.len() ==> {
            &&& allows(s.allowlist, (#[trigger] s.frontier[i]).url)
            &&& s.seen.contains(s.frontier[i].url.text)
            &&& s.frontier[i].depth <= s.budgets.max_depth
        }
}

proof fn lemma_see_url(s: RunView, url: Seq<char>)
    requires
        sound(s),
        !s.seen.contains(url),
    ensures
        sound(see_url(s, url)),
        see_url(s, url).seen.contains(url),
{
    let t = see_url(s, url);
    assert(t.seen[t.seen.len() - 1] == url);
    assert forall|i: int| 0 <= i < t.frontier.len() implies t.seen.contains(
        (#[trigger] t.frontier[i]).url.text,
    ) by {
        let k = choose|k: int| 0 <= k < s.seen.len() && s.seen[k] == s.frontier[i].url.text;
        assert(t.seen[k] == s.frontier[i].url.text);
    }
    assert(t.seen.no_duplicates()) by {
        assert forall|i: int, j: int|
            0 <= i < t.seen.len() && 0 <= j < t.seen.len() && i != j implies t.seen[i]
            != t.seen[j] by {
            if i < s.seen.len() {
                assert(s.seen.contains(s.seen[i]));
            }
            if j < s.seen.len() {
                assert(s.seen.contains(s.seen[j]));
            }
        }
    }
}

proof fn lemma_add_item(s: RunView, item: ItemView)
    requires
        sound(s),
        allows(s.allowlist, item.url),
        s.seen.contains(item.url.text),
        item.depth <= s.budgets.max_depth,
    ensures
        sound(add_item(s, item)),
{
}

/// A session is sound when it starts.
pub proof fn lemma_seeds_keep_sound(s: RunView, seeds: Seq<ResearchSeed>)
    requires
        sound(s),
    ensures
        sound(take_seeds(s, seeds)),
        take_seeds(s, seeds).allowlist == s.allowlist,
        take_seeds(s, seeds).budgets == s.budgets,
        take_seeds(s, seeds).sources == s.sources,
    decreases seeds.len(),
{
    if seeds.len() > 0 {
        let before = take_seeds(s, seeds.drop_last());
        lemma_seeds_keep_sound(s, seeds.drop_last());
        let seed = seeds.last();
        if let Ok(p) = parsed_url(with_scheme(seed.url@)) {
            let url = canonical(p);
            if !before.seen.contains(url.text) {
                lemma_see_url(before, url.text);
                if allows(before.allowlist, url) {
                    lemma_add_item(
                        see_url(before, url.text),
                        ItemView {
                            url,
                            title: seed.title@,
                            snippet: seed.snippet@,
                            depth: 0,
                            score: (1_000 - (seeds.len() - 1)) as i32,
                        },
                    );
                }
            }
        }
    }
}

proof fn lemma_best_bounds(frontier: Seq<ItemView>, n: int)
    requires
        1 <= n <= frontier.len(),
    ensures
        0 <= best(frontier, n) < n,
        forall|i: int| 0 <= i < n ==> (#[trigger] frontier[i]).score <= frontier[best(frontier, n)].score,
        forall|i: int|
            0 <= i < best(frontier, n) ==> (#[trigger] frontier[i]).score < frontier[best(
                frontier,
                n,
            )].score,
    decreases n,
{
    if n > 1 {
        lemma_best_bounds(frontier, n - 1);
    }
}

/// The page that is fetched next is the first of those that promise the most.
pub proof fn lemma_best_is_first_of_highest(frontier: Seq<ItemView>)
    requires
        frontier.len() > 0,
    ensures
        0 <= best(frontier, frontier.len() as int) < frontier.len(),
        forall|i: int|
            0 <= i < frontier.len() ==> (#[trigger] frontier[i]).score <= frontier[best(
                frontier,
                frontier.len() as int,
            )].score,
        forall|i: int|
            0 <= i < best(frontier, frontier.len() as int) ==> (#[trigger] frontier[i]).score
                < frontier[best(frontier, frontier.len() as int)].score,
{
    lemma_best_bounds(frontier, frontier.len() as int);
}

proof fn lemma_without_best(s: RunView)
    requires
        sound(s),
        s.frontier.len() > 0,
    ensures
        sound(without_best(s)),
{
    lemma_best_bounds(s.frontier, s.frontier.len() as int);
    let b = best(s.frontier, s.frontier.len() as int);
    let t = without_best(s);
    assert forall|i: int| 0 <= i < t.frontier.len() implies {
        &&& allows(t.allowlist, (#[trigger] t.frontier[i]).url)
        &&& t.seen.contains(t.frontier[i].url.text)
        &&& t.frontier[i].depth <= t.budgets.max_depth
    } by {
        let k = if i < b {
            i
        } else {
            i + 1
        };
        assert(t.frontier[i] == s.frontier[k]);
    }
}

proof fn lemma_follow_links(s: RunView, item: ItemView, links: Seq<Seq<char>>)
    requires
        sound(s),
        item.depth < s.budgets.max_depth,
    ensures
        sound(follow_links(s, item, links)),
        follow_links(s, item, links).allowlist == s.allowlist,
        follow_links(s, item, links).budgets == s.budgets,
    decreases links.len(),
{
    if links.len() > 0 {
        let before = follow_links(s, item, links.drop_last());
        lemma_follow_links(s, item, links.drop_last());
        if let Ok(target) = link_target(item.url.text, links.last()) {
            let url = canonical(target);
            if !before.seen.contains(url.text) {
                lemma_see_url(before, url.text);
                if allows(before.allowlist, url) {
                    lemma_add_item(
                        see_url(before, url.text),
                        ItemView {
                            url,
                            title: Seq::empty(),
                            snippet: Seq::empty(),
                            depth: (item.depth + 1) as usize,
                            score: (100 - item.depth) as i32,
                        },
                    );
                }
            }
        }
    }
}

/// A session stays sound, whatever comes of fetching a page.
pub proof fn lemma_outcome_keeps_sound(s: RunView, item: ItemView, outcome: OutcomeView)
    requires
        sound(s),
        s.pages_fetched < s.budgets.max_pages,
        s.sources.len() < usize::MAX,
    ensures
        sound(take_outcome(s, item, outcome)),
        take_outcome(s, item, outcome).allowlist == s.allowlist,
        take_outcome(s, item, outcome).budgets == s.budgets,
{
    match outcome {
        OutcomeView::Fetched(page) => {
            let t = take_page(s, item, page);
            let index = (s.sources.len() + 1) as usize;
            let more = claims_from(
                claims_of(page.extracted.markdown, item.snippet),
                index,
                confidence_of(page.extracted.markdown),
            );
            assert forall|i: int| 0 <= i < t.claims.len() implies {
                &&& (#[trigger] t.claims[i]).source_indexes.len() == 1
                &&& 1 <= t.claims[i].source_indexes[0] <= t.sources.len()
            } by {
                if i < s.claims.len() {
                    assert(t.claims[i] == s.claims[i]);
                } else {
                    assert(t.claims[i] == more[i - s.claims.len()]);
                }
            }
            assert(sound(t));
            if item.depth < s.budgets.max_depth {
                lemma_follow_links(
                    t,
                    item,
                    links_in(page.extracted.markdown, 0, MAX_PAGE_LINKS as nat, Seq::empty()),
                );
            }
        },
        OutcomeView::NeedsBrowser(_, _) => {},
        OutcomeView::Failed(_) => {},
    }
}

/// The digest of a sound session holds to its budget: no more pages than may be fetched, no more
/// claims than it may hold, and each of them names a source that it lists.
pub proof fn lemma_digest_is_sound(s: RunView)
    requires
        sound(s),
    ensures
        digest_of(s).pages_fetched <= s.budgets.max_pages,
        digest_of(s).claims.len() <= MAX_CLAIMS,
        forall|i: int|
            0 <= i < digest_of(s).claims.len() ==> {
                let n = (#[trigger] digest_of(s).claims[i]).source_indexes[0];
                1 <= n <= digest_of(s).sources.len() && digest_of(s).sources[n - 1].index == n
            },
{
    let d = digest_of(s);
    assert forall|i: int| 0 <= i < d.claims.len() implies {
        let n = (#[trigger] d.claims[i]).source_indexes[0];
        1 <= n <= d.sources.len() && d.sources[n - 1].index == n
    } by {
        assert(d.claims[i] == s.claims[i]);
    }
}

// ---------------------------------------------------------------------------
// The session
// ---------------------------------------------------------------------------

impl ResearchRun {
    /// Starts a session from the pages that were found. Where it has no list of hosts, theirs are
    /// allowed.
    pub fn start(session: ResearchSession, seeds: &Vec<ResearchSeed>) -> (r: Self)
        requires
            seeds@.len() <= i32::MAX,
            session.budgets.max_depth <= i32::MAX,
        ensures
            exists|allowlist: Seq<Seq<char>>|
                {
                    &&& r@ == take_seeds(#[trigger] fresh(session, allowlist), seeds@)
                    &&& if session.allowlist@.len() == 0 {
                        is_sorted_set_of(allowlist, seed_hosts(seeds@))
                    } else {
                        allowlist == views(session.allowlist@)
                    }
                },
            sound(r@),
    {
        let ghost given = session;
        let allowlist: Vec<String> = if session.allowlist.len() == 0 {
            ResearchSession::allowlist_from_seeds(seeds)
        } else {
            session.allowlist
        };
        let ghost hosts = views(allowlist@);
        let mut run = ResearchRun {
            query: session.query,
            allowlist,
            budgets: session.budgets,
            max_snippet_chars: session.max_snippet_chars,
            frontier: Vec::new(),
            seen: Vec::new(),
            sources: Vec::new(),
            claims: Vec::new(),
            skipped: Vec::new(),
            pages: Vec::new(),
            pages_fetched: 0,
            bytes_downloaded: 0,
            stopped_reason: "completed".to_string(),
        };
        let ghost start = fresh(given, hosts);
        proof {
            assert(run@.frontier =~= Seq::<ItemView>::empty());
            assert(run@.seen =~= Seq::<Seq<char>>::empty());
            assert(run@.sources =~= Seq::<CitationView>::empty());
            assert(run@.claims =~= Seq::<ClaimView>::empty());
            assert(run@.skipped =~= Seq::<SkipView>::empty());
            assert(run@.pages =~= Seq::<BodyView>::empty());
            assert(run@ == start);
            assert(sound(start));
        }
        let n: usize = seeds.len();
        let mut i: usize = 0;
        assert(seeds@.take(0) =~= Seq::<ResearchSeed>::empty());
        while i < n
            invariant
                i <= n,
                n == seeds@.len(),
                n <= i32::MAX,
                run@ == take_seeds(start, seeds@.take(i as int)),
            decreases n - i,
        {
            assert(seeds@.take(i + 1).drop_last() =~= seeds@.take(i as int));
            assert(seeds@.take(i + 1).last() == seeds@[i as int]);
            run.add_seed(&seeds[i], i);
            i = i + 1;
        }
        assert(seeds@.take(n as int) =~= seeds@);
        proof {
            lemma_seeds_keep_sound(start, seeds@);
        }
        run
    }

    fn add_skip(&mut self, url: String, reason: String)
        ensures
            final(self)@ == skip_page(old(self)@, url@, reason@),
    {
        let ghost before = skip_views(self.skipped@);
        let skip = ResearchSkip { url, reason };
        let ghost s = skip@;
        self.skipped.push(skip);
        assert(skip_views(self.skipped@) =~= before.push(s));
    }

    fn add_seen(&mut self, url: &Url)
        ensures
            final(self)@ == see_url(old(self)@, url@.text),
    {
        let ghost before = views(self.seen@);
        self.seen.push(url.as_str().to_string());
        assert(views(self.seen@) =~= before.push(url@.text));
    }

    fn add_frontier(&mut self, item: FrontierItem)
        ensures
            final(self)@ == add_item(old(self)@, item@),
    {
        let ghost before = item_views(self.frontier@);
        let ghost i = item@;
        self.frontier.push(item);
        assert(item_views(self.frontier@) =~= before.push(i));
    }

    fn add_seed(&mut self, seed: &ResearchSeed, rank: usize)
        requires
            rank < i32::MAX,
        ensures
            final(self)@ == take_seed(old(self)@, *seed, rank as int),
    {
        match normalize_url_string(seed.url.as_str()) {
            Ok(url) => {
                let url = canonicalize_url(&url);
                if contains_string(&self.seen, url.as_str()) {
                    return;
                }
                self.add_seen(&url);
                if !url_allowed(&url, &self.allowlist) {
                    self.add_skip(
                        url.as_str().to_string(),
                        "outside_domain_allowlist".to_string(),
                    );
                    return;
                }
                self.add_frontier(
                    FrontierItem {
                        url,
                        title: seed.title.clone(),
                        snippet: seed.snippet.clone(),
                        depth: 0,
                        score: 1_000 - rank as i32,
                    },
                );
            },
            Err(e) => {
                let mut reason = "invalid_url: ".to_string();
                reason.append(e.message().as_str());
                self.add_skip(seed.url.clone(), reason);
            },
        }
    }

    /// Takes the most promising page, unless there is none left or the session is to stop.
    pub fn next(&mut self, cancelled: bool, elapsed: Millis) -> (r: Option<FrontierItem>)
        requires
            sound(old(self)@),
        ensures
            sound(final(self)@),
            if old(self)@.frontier.len() == 0 {
                r is None && final(self)@ == old(self)@
            } else {
                match stop_reason(old(self)@, cancelled, elapsed) {
                    Some(why) => r is None && final(self)@ == (RunView {
                        stopped_reason: why,
                        ..without_best(old(self)@)
                    }),
                    None => {
                        &&& r matches Some(item)
                        &&& item@ == old(self)@.frontier[best(
                            old(self)@.frontier,
                            old(self)@.frontier.len() as int,
                        )]
                        &&& final(self)@ == without_best(old(self)@)
                        &&& final(self)@.pages_fetched < final(self)@.budgets.max_pages
                    },
                }
            },
    {
        let n: usize = self.frontier.len();
        let ghost all = item_views(self.frontier@);
        assert(all.len() == n);
        if n == 0 {
            return None;
        }
        let ghost before = self@;
        let mut at: usize = 0;
        let mut i: usize = 1;
        while i < n
            invariant
                1 <= i <= n,
                n == self.frontier@.len(),
                at < i,
                all == item_views(self.frontier@),
                at == best(all, i as int),
                self@ == before,
            decreases n - i,
        {
            assert(all[i as int] == self.frontier@[i as int]@);
            assert(all[at as int] == self.frontier@[at as int]@);
            if self.frontier[i].score > self.frontier[at].score {
                at = i;
            }
            i = i + 1;
        }
        let item = self.frontier.remove(at);
        proof {
            assert(item_views(self.frontier@) =~= all.remove(at as int));
            assert(item@ == all[at as int]);
            assert(self@ == without_best(before));
            lemma_without_best(before);
        }
        if cancelled {
            self.stopped_reason = "cancelled".to_string();
            return None;
        }
        if elapsed >= self.budgets.wall_clock {
            self.stopped_reason = "wall_clock_budget".to_string();
            return None;
        }
        if self.pages_fetched >= self.budgets.max_pages {
            self.stopped_reason = "max_pages".to_string();
            return None;
        }
        if self.bytes_downloaded >= self.budgets.max_download_bytes {
            self.stopped_reason = "max_download_bytes".to_string();
            return None;
        }
        Some(item)
    }

    /// Whether a page may be fetched; if not it is passed over. `resolution` is what its host was
    /// resolved to.
    pub fn screen(&mut self, item: &FrontierItem, resolution: &Resolution) -> (r: bool)
        requires
            sound(old(self)@),
        ensures
            sound(final(self)@),
            final(self)@.pages_fetched == old(self)@.pages_fetched,
            r == (refusal(item@.url, *resolution) is None && allows(
                old(self)@.allowlist,
                item@.url,
            )),
            final(self)@ == if refusal(item@.url, *resolution) is Some {
                skip_page(old(self)@, item@.url.text, "ssrf_blocked"@)
            } else if !allows(old(self)@.allowlist, item@.url) {
                skip_page(old(self)@, item@.url.text, "outside_domain_allowlist"@)
            } else {
                old(self)@
            },
    {
        if ensure_public_http_url(&item.url, resolution).is_err() {
            self.add_skip(item.url.as_str().to_string(), "ssrf_blocked".to_string());
            return false;
        }
        if !url_allowed(&item.url, &self.allowlist) {
            self.add_skip(
                item.url.as_str().to_string(),
                "outside_domain_allowlist".to_string(),
            );
            return false;
        }
        true
    }

    /// What a user sees while a page is fetched.
    pub fn progress(&self, item: &FrontierItem) -> (r: String)
        requires
            self@.pages_fetched < self@.budgets.max_pages,
        ensures
            r@ == "Fetching "@ + dec((self@.pages_fetched + 1) as nat) + "/"@ + dec(
                self@.budgets.max_pages as nat,
            ) + ": "@ + item@.url.text,
    {
        let mut r = "Fetching ".to_string();
        r.append(dec_str((self.pages_fetched + 1) as u64).as_str());
        r.append("/");
        r.append(dec_str(self.budgets.max_pages as u64).as_str());
        r.append(": ");
        r.append(item.url.as_str());
        r
    }

    fn add_page(&mut self, item: &FrontierItem, page: &FetchedPage)
        requires
            old(self)@.pages_fetched < old(self)@.budgets.max_pages,
            old(self)@.sources.len() < usize::MAX,
        ensures
            final(self)@ == take_page(old(self)@, item@, page@),
    {
        let ghost before = self@;
        let ghost old_claims = claim_views(self.claims@);
        let ghost old_sources = citation_views(self.sources@);
        let ghost old_pages = body_views(self.pages@);
        assert(old_sources.len() == self.sources@.len());
        let markdown = page.extracted.markdown.as_str();
        let index: usize = self.sources.len() + 1;
        self.pages_fetched = self.pages_fetched + 1;
        let size: usize = byte_len_capped(markdown, usize::MAX);
        self.bytes_downloaded =
        add_capped(add_capped(self.bytes_downloaded, size as u64), PAGE_OVERHEAD_BYTES);
        let title = match &page.extracted.title {
            Some(t) => if t.as_str().is_empty() {
                item.title.clone()
            } else {
                t.clone()
            },
            None => item.title.clone(),
        };
        let (texts, confidence) = extract_claims(markdown, item.snippet.as_str());
        let ghost said = views(texts@);
        let ghost more = claims_from(said, index, confidence@);
        let n: usize = texts.len();
        let ghost started = self@;
        let mut i: usize = 0;
        assert(old_claims + more.take(0) =~= old_claims);
        while i < n
            invariant
                i <= n,
                n == texts@.len(),
                said == views(texts@),
                more == claims_from(said, index, confidence@),
                more.len() == n,
                claim_views(self.claims@) == old_claims + more.take(i as int),
                self@ == (RunView { claims: self@.claims, ..started }),
                self.sources@ == old(self).sources@,
                self.pages@ == old(self).pages@,
            decreases n - i,
        {
            let ghost earlier = claim_views(self.claims@);
            let claim = ResearchClaim {
                text: texts[i].clone(),
                source_indexes: vec![index],
                confidence: confidence.to_string(),
            };
            let ghost c = claim@;
            proof {
                assert(said[i as int] == texts@[i as int]@);
                assert(c.source_indexes =~= seq![index]);
                assert(c == more[i as int]);
            }
            self.claims.push(claim);
            assert(claim_views(self.claims@) =~= earlier.push(c));
            assert(more.take(i + 1) =~= more.take(i as int).push(more[i as int]));
            assert(old_claims + more.take(i + 1) =~= earlier.push(c));
            i = i + 1;
        }
        assert(more.take(n as int) =~= more);
        let source = ResearchCitation {
            index,
            title: title.clone(),
            url: page.final_url.clone(),
            source_id: page.source_id.clone(),
            quotes: extract_quotes(markdown, MAX_PAGE_QUOTES, MAX_QUOTE_CHARS),
        };
        let ghost s = source@;
        self.sources.push(source);
        assert(citation_views(self.sources@) =~= old_sources.push(s));
        let body = ResearchPageBody {
            url: page.final_url.clone(),
            title,
            source_id: page.source_id.clone(),
            markdown: page.extracted.markdown.clone(),
            fetch_mode: page.fetch_mode.name().to_string(),
        };
        let ghost b = body@;
        self.pages.push(body);
        assert(body_views(self.pages@) =~= old_pages.push(b));
        assert(self@ == take_page(before, item@, page@));
    }

    fn add_link(&mut self, item: &FrontierItem, link: &str)
        requires
            item.depth < old(self)@.budgets.max_depth <= i32::MAX,
        ensures
            final(self)@ == follow_link(old(self)@, item@, link@),
            final(self)@.budgets == old(self)@.budgets,
    {
        match item.url.join(link) {
            Ok(url) => {
                let url = canonicalize_url(&url);
                if contains_string(&self.seen, url.as_str()) {
                    return;
                }
                self.add_seen(&url);
                if !url_allowed(&url, &self.allowlist) {
                    return;
                }
                let title = String::new();
                let snippet = String::new();
                assert(title@ =~= Seq::<char>::empty());
                self.add_frontier(
                    FrontierItem {
                        url,
                        title,
                        snippet,
                        depth: item.depth + 1,
                        score: 100 - item.depth as i32,
                    },
                );
            },
            Err(_) => {},
        }
    }

    fn add_links(&mut self, item: &FrontierItem, links: &Vec<String>)
        requires
            item.depth < old(self)@.budgets.max_depth <= i32::MAX,
        ensures
            final(self)@ == follow_links(old(self)@, item@, views(links@)),
    {
        let ghost before = self@;
        let ghost all = views(links@);
        let mut i: usize = 0;
        assert(all.take(0) =~= Seq::<Seq<char>>::empty());
        while i < links.len()
            invariant
                i <= links@.len(),
                all == views(links@),
                self@ == follow_links(before, item@, all.take(i as int)),
                item.depth < self@.budgets.max_depth <= i32::MAX,
            decreases links@.len() - i,
        {
            assert(all.take(i + 1).drop_last() =~= all.take(i as int));
            assert(all.take(i + 1).last() == links@[i as int]@);
            self.add_link(item, links[i].as_str());
            i = i + 1;
        }
        assert(all.take(links@.len() as int) =~= all);
    }

    fn add_snippet(&mut self, item: &FrontierItem, url: &str)
        requires
            old(self)@.sources.len() < usize::MAX,
        ensures
            final(self)@ == keep_snippet(old(self)@, item@, url@),
    {
        if trim_str(item.snippet.as_str()).as_str().is_empty() {
            return;
        }
        let ghost before = self@;
        let ghost old_claims = claim_views(self.claims@);
        let ghost old_sources = citation_views(self.sources@);
        assert(old_sources.len() == self.sources@.len());
        let index: usize = self.sources.len() + 1;
        let claim = ResearchClaim {
            text: ellipsize(item.snippet.as_str(), self.max_snippet_chars),
            source_indexes: vec![index],
            confidence: "snippet".to_string(),
        };
        let ghost c = claim@;
        assert(c.source_indexes =~= seq![index]);
        self.claims.push(claim);
        assert(claim_views(self.claims@) =~= old_claims.push(c));
        let mut source_id = "serp:".to_string();
        source_id.append(dec_str(index as u64).as_str());
        let source = ResearchCitation {
            index,
            title: item.title.clone(),
            url: url.to_string(),
            source_id,
            quotes: vec![ellipsize(item.snippet.as_str(), MAX_QUOTE_CHARS)],
        };
        let ghost s = source@;
        assert(s.quotes =~= seq![ellipsized(item@.snippet, MAX_QUOTE_CHARS as nat)]);
        self.sources.push(source);
        assert(citation_views(self.sources@) =~= old_sources.push(s));
        assert(self@ == keep_snippet(before, item@, url@));
    }

    /// Takes up what came of fetching a page that `next` gave.
    pub fn record(&mut self, item: &FrontierItem, outcome: Result<FetchOutcome, FetchError>)
        requires
            sound(old(self)@),
            old(self)@.pages_fetched < old(self)@.budgets.max_pages,
            old(self)@.sources.len() < usize::MAX,
        ensures
            final(self)@ == take_outcome(old(self)@, item@, outcome_view(outcome)),
            sound(final(self)@),
    {
        proof {
            lemma_outcome_keeps_sound(self@, item@, outcome_view(outcome));
        }
        match outcome {
            Ok(FetchOutcome::Fetched(page)) => {
                self.add_page(item, &page);
                if item.depth < self.budgets.max_depth {
                    let links = extract_markdown_links(
                        page.extracted.markdown.as_str(),
                        MAX_PAGE_LINKS,
                    );
                    self.add_links(item, &links);
                }
            },
            Ok(FetchOutcome::NeedsBrowser { reason, url }) => {
                self.add_snippet(item, url.as_str());
                let mut why = "needs_browser: ".to_string();
                why.append(reason.as_str());
                self.add_skip(url, why);
            },
            Err(e) => {
                self.add_skip(item.url.as_str().to_string(), e.message());
            },
        }
    }

    /// Ends a session.
    pub fn finish(self) -> (r: ResearchSessionOutcome)
        ensures
            r.digest@ == digest_of(self@),
            body_views(r.pages@) == self@.pages,
    {
        let ghost before = self@;
        proof {
            assert(before.frontier.len() == self.frontier@.len());
            assert(before.skipped.len() == self.skipped@.len());
        }
        let mut run = self;
        if run.frontier.len() == 0 && crate::text::str_eq(run.stopped_reason.as_str(), "completed")
            && run.pages_fetched == 0 {
            run.stopped_reason =
            if run.skipped.len() == 0 {
                "no_seeds".to_string()
            } else {
                "no_pages_fetched".to_string()
            };
        }
        let ghost all = claim_views(run.claims@);
        if run.claims.len() > MAX_CLAIMS {
            run.claims.truncate(MAX_CLAIMS);
            assert(claim_views(run.claims@) =~= all.take(MAX_CLAIMS as int));
        }
        assert(all.len() == before.claims.len());
        let digest = ResearchDigest {
            query: run.query,
            claims: run.claims,
            sources: run.sources,
            pages_fetched: run.pages_fetched,
            skipped: run.skipped,
            stopped_reason: run.stopped_reason,
            domain_allowlist: run.allowlist,
            session_id: None,
        };
        assert(digest@ == digest_of(before));
        ResearchSessionOutcome { digest, pages: run.pages }
    }
}

fn add_capped(a: u64, b: u64) -> (r: u64)
    ensures
        r == saturating(a + b),
{
    if a > u64::MAX - b {
        u64::MAX
    } else {
        a + b
    }
}

} // verus!
