//! What a session takes up is fetched in its turn, and what it finds stands in its digest.
use crate::selection::{are_the_wanted, lemma_none_of_none, lemma_one_more};
use crate::text::{dec, ellipsized, ends_with, join, occurs_at, trim};
use crate::web_research::config::Millis;
use crate::web_research::fetch::FetchedView;
use crate::web_research::reading::{claims_of, confidence_of, links_in, quotes_of};
use crate::web_research::run::{
    byte_count, digest_of, follow_links, fresh, keep_snippet, stop_reason, take_outcome, take_page,
    take_seed, take_seeds, ItemView, OutcomeView, RunView,
};
use crate::web_research::session::{
    allows, claim_lines, digest_head, digest_text, lower_domains, marks, quote_lines, skip_lines,
    source_lines, CitationView, ClaimView, DigestView, ResearchSeed, ResearchSession, SkipView,
};
use crate::web_research::url_policy::{
    canonical, link_target, parsed_url, with_scheme, HostView, UrlParts,
};
use vstd::prelude::*;

verus! {

// ---------------------------------------------------------------------------
// The digest as it is written
// ---------------------------------------------------------------------------

/// Whether a text stands somewhere in another.
pub open spec fn stands_in(part: Seq<char>, s: Seq<char>) -> bool {
    exists|k: int| #[trigger] occurs_at(s, part, k)
}

pub proof fn lemma_stands_in_whole(part: Seq<char>, a: Seq<char>, s: Seq<char>, b: Seq<char>)
    requires
        stands_in(part, s),
    ensures
        stands_in(part, a + s + b),
{
    let k = choose|k: int| #[trigger] occurs_at(s, part, k);
    let t = a + s + b;
    let j = a.len() + k;
    assert(t.subrange(j, j + part.len()) =~= s.subrange(k, k + part.len()));
    assert(occurs_at(t, part, j));
}

proof fn lemma_stands_in_front(part: Seq<char>, s: Seq<char>, b: Seq<char>)
    requires
        stands_in(part, s),
    ensures
        stands_in(part, s + b),
{
    lemma_stands_in_whole(part, Seq::empty(), s, b);
    assert(Seq::<char>::empty() + s + b =~= s + b);
}

proof fn lemma_stands_behind(part: Seq<char>, a: Seq<char>, s: Seq<char>)
    requires
        stands_in(part, s),
    ensures
        stands_in(part, a + s),
{
    lemma_stands_in_whole(part, a, s, Seq::empty());
    assert(a + s + Seq::<char>::empty() =~= a + s);
}

pub proof fn lemma_stands_in_itself(part: Seq<char>)
    ensures
        stands_in(part, part),
{
    assert(part.subrange(0, part.len() as int) =~= part);
    assert(occurs_at(part, part, 0));
}

/// How a claim is written: its number, what stands behind it, what it says, and its source.
pub open spec fn written_claim(number: nat, c: ClaimView, source: nat) -> Seq<char> {
    dec(number) + ". ("@ + c.confidence + ") "@ + c.text + " ["@ + dec(source) + "]\n"@
}

/// How a source is written: its number, its title and its URL.
pub open spec fn written_source(s: CitationView) -> Seq<char> {
    "["@ + dec(s.index as nat) + "] "@ + s.title + " — "@ + s.url + "\n"@
}

/// How a quote is written: the number of its source, its own number, and its text.
pub open spec fn written_quote(index: nat, number: nat, quote: Seq<char>) -> Seq<char> {
    "    > ["@ + dec(index) + ":q"@ + dec(number) + "] "@ + quote + "\n"@
}

pub open spec fn written_skip(s: SkipView) -> Seq<char> {
    "- "@ + s.url + " ("@ + s.reason + ")\n"@
}

proof fn lemma_claim_is_written(claims: Seq<ClaimView>, i: int)
    requires
        0 <= i < claims.len(),
        claims[i].source_indexes.len() == 1,
    ensures
        stands_in(
            written_claim((i + 1) as nat, claims[i], claims[i].source_indexes[0] as nat),
            claim_lines(claims),
        ),
    decreases claims.len(),
{
    reveal_strlit(" ");
    reveal_strlit("[");
    reveal_strlit(" [");
    reveal_strlit("]");
    reveal_strlit("\n");
    reveal_strlit("]\n");
    let c = claims.last();
    let before = claim_lines(claims.drop_last());
    let line = dec(claims.len()) + ". ("@ + c.confidence + ") "@ + c.text + " "@ + marks(
        c.source_indexes,
    ) + "\n"@;
    assert(claim_lines(claims) =~= before + line);
    if i < claims.len() - 1 {
        lemma_claim_is_written(claims.drop_last(), i);
        assert(claims.drop_last()[i] == claims[i]);
        lemma_stands_in_front(
            written_claim((i + 1) as nat, claims[i], claims[i].source_indexes[0] as nat),
            before,
            line,
        );
    } else {
        let ids = c.source_indexes;
        assert(ids.drop_last() =~= Seq::empty());
        assert(marks(ids.drop_last()) =~= Seq::empty());
        assert(marks(ids) =~= "["@ + dec(ids[0] as nat) + "]"@);
        assert(line =~= written_claim(claims.len(), c, ids[0] as nat));
        lemma_stands_in_itself(line);
        lemma_stands_behind(line, before, line);
    }
}

proof fn lemma_quote_is_written(index: usize, quotes: Seq<Seq<char>>, i: int)
    requires
        0 <= i < quotes.len(),
    ensures
        stands_in(
            written_quote(index as nat, (i + 1) as nat, quotes[i]),
            quote_lines(index, quotes),
        ),
    decreases quotes.len(),
{
    let before = quote_lines(index, quotes.drop_last());
    let line = written_quote(index as nat, quotes.len(), quotes.last());
    assert(quote_lines(index, quotes) =~= before + line);
    if i < quotes.len() - 1 {
        lemma_quote_is_written(index, quotes.drop_last(), i);
        lemma_stands_in_front(
            written_quote(index as nat, (i + 1) as nat, quotes[i]),
            before,
            line,
        );
    } else {
        lemma_stands_in_itself(line);
        lemma_stands_behind(line, before, line);
    }
}

proof fn lemma_source_is_written(sources: Seq<CitationView>, i: int, q: int)
    requires
        0 <= i < sources.len(),
    ensures
        stands_in(written_source(sources[i]), source_lines(sources)),
        0 <= q < sources[i].quotes.len() ==> stands_in(
            written_quote(sources[i].index as nat, (q + 1) as nat, sources[i].quotes[q]),
            source_lines(sources),
        ),
    decreases sources.len(),
{
    let s = sources.last();
    let before = source_lines(sources.drop_last());
    let line = written_source(s);
    let quotes = quote_lines(s.index, s.quotes);
    assert(source_lines(sources) =~= before + line + quotes);
    let own = written_quote(sources[i].index as nat, (q + 1) as nat, sources[i].quotes[q]);
    if i < sources.len() - 1 {
        lemma_source_is_written(sources.drop_last(), i, q);
        assert(source_lines(sources) =~= before + (line + quotes));
        lemma_stands_in_front(written_source(sources[i]), before, line + quotes);
        if 0 <= q < sources[i].quotes.len() {
            lemma_stands_in_front(own, before, line + quotes);
        }
    } else {
        lemma_stands_in_itself(line);
        lemma_stands_in_whole(line, before, line, quotes);
        if 0 <= q < sources[i].quotes.len() {
            lemma_quote_is_written(s.index, s.quotes, q);
            lemma_stands_behind(own, before + line, quotes);
        }
    }
}

proof fn lemma_skip_is_written(skipped: Seq<SkipView>, i: int)
    requires
        0 <= i < skipped.len(),
    ensures
        stands_in(written_skip(skipped[i]), skip_lines(skipped)),
    decreases skipped.len(),
{
    let before = skip_lines(skipped.drop_last());
    let line = written_skip(skipped.last());
    assert(skip_lines(skipped) =~= before + line);
    if i < skipped.len() - 1 {
        lemma_skip_is_written(skipped.drop_last(), i);
        lemma_stands_in_front(written_skip(skipped[i]), before, line);
    } else {
        lemma_stands_in_itself(line);
        lemma_stands_behind(line, before, line);
    }
}

spec fn claims_part(d: DigestView) -> Seq<char> {
    if d.claims.len() == 0 {
        "(none)\n"@
    } else {
        claim_lines(d.claims)
    }
}

spec fn sources_part(d: DigestView) -> Seq<char> {
    if d.sources.len() == 0 {
        "(none)\n"@
    } else {
        source_lines(d.sources)
    }
}

spec fn skips_part(d: DigestView) -> Seq<char> {
    if d.skipped.len() == 0 {
        Seq::empty()
    } else {
        "\n## Skipped\n"@ + skip_lines(d.skipped)
    }
}

#[verifier::rlimit(40)]
proof fn lemma_parts_of_digest(d: DigestView) -> (r: (Seq<char>, Seq<char>))
    ensures
        digest_text(d) == digest_head(d) + r.0 + claims_part(d) + r.1 + sources_part(d)
            + skips_part(d),
{
    let notice = crate::web_research::session::DIGEST_NOTICE@
        + crate::web_research::session::INGEST_NOTICE@ + "\n## Claims\n"@;
    let head = digest_head(d) + crate::web_research::session::DIGEST_NOTICE@
        + crate::web_research::session::INGEST_NOTICE@ + "\n## Claims\n"@;
    let mid = "\n## Sources\n"@;
    assert(digest_text(d) =~= head + claims_part(d) + mid + sources_part(d) + skips_part(d));
    assert(head =~= digest_head(d) + notice);
    (notice, mid)
}

/// A digest says all that a session found out: each claim with its number and its source, each
/// source with its URL, each of its quotes, and each page that was passed over with the reason.
#[verifier::rlimit(40)]
pub proof fn lemma_digest_says_all(d: DigestView, i: int, q: int)
    ensures
        0 <= i < d.claims.len() && d.claims[i].source_indexes.len() == 1 ==> stands_in(
            written_claim((i + 1) as nat, d.claims[i], d.claims[i].source_indexes[0] as nat),
            digest_text(d),
        ),
        0 <= i < d.sources.len() ==> stands_in(written_source(d.sources[i]), digest_text(d)),
        0 <= i < d.sources.len() && 0 <= q < d.sources[i].quotes.len() ==> stands_in(
            written_quote(d.sources[i].index as nat, (q + 1) as nat, d.sources[i].quotes[q]),
            digest_text(d),
        ),
        0 <= i < d.skipped.len() ==> stands_in(written_skip(d.skipped[i]), digest_text(d)),
{
    let (notice, mid) = lemma_parts_of_digest(d);
    let head = digest_head(d) + notice;
    let c = claims_part(d);
    let s = sources_part(d);
    let k = skips_part(d);
    let text = digest_text(d);
    if 0 <= i < d.claims.len() && d.claims[i].source_indexes.len() == 1 {
        lemma_claim_is_written(d.claims, i);
        let line = written_claim(
            (i + 1) as nat,
            d.claims[i],
            d.claims[i].source_indexes[0] as nat,
        );
        lemma_stands_in_whole(line, head, c, mid + s + k);
        assert(head + c + (mid + s + k) =~= text);
    }
    if 0 <= i < d.sources.len() {
        lemma_source_is_written(d.sources, i, q);
        lemma_stands_in_whole(written_source(d.sources[i]), head + c + mid, s, k);
        if 0 <= q < d.sources[i].quotes.len() {
            lemma_stands_in_whole(
                written_quote(d.sources[i].index as nat, (q + 1) as nat, d.sources[i].quotes[q]),
                head + c + mid,
                s,
                k,
            );
        }
    }
    if 0 <= i < d.skipped.len() {
        lemma_skip_is_written(d.skipped, i);
        let line = written_skip(d.skipped[i]);
        lemma_stands_behind(line, "\n## Skipped\n"@, skip_lines(d.skipped));
        lemma_stands_behind(line, head + c + mid + s, k);
    }
}

/// A digest says what was asked, how many pages were fetched and why the session stopped.
pub proof fn lemma_digest_says_what_was_asked(d: DigestView)
    ensures
        stands_in("Query: "@ + d.query + "\n"@, digest_text(d)),
        stands_in(
            "Pages fetched: "@ + dec(d.pages_fetched as nat) + " | Stopped: "@ + d.stopped_reason
                + "\n"@,
            digest_text(d),
        ),
        d.session_id matches Some(id) ==> stands_in(
            "Session id: `"@ + id + "`\n"@,
            digest_text(d),
        ),
{
    let (title, rest) = lemma_head_parts(d);
    lemma_stands_in_row(title, query_line(d), id_line(d), count_line(d), rest);
}

spec fn query_line(d: DigestView) -> Seq<char> {
    "Query: "@ + d.query + "\n"@
}

spec fn id_line(d: DigestView) -> Seq<char> {
    match d.session_id {
        Some(id) => "Session id: `"@ + id + "`\n"@,
        None => Seq::empty(),
    }
}

spec fn count_line(d: DigestView) -> Seq<char> {
    "Pages fetched: "@ + dec(d.pages_fetched as nat) + " | Stopped: "@ + d.stopped_reason + "\n"@
}

proof fn lemma_stands_in_row(
    a: Seq<char>,
    b: Seq<char>,
    c: Seq<char>,
    d: Seq<char>,
    e: Seq<char>,
)
    ensures
        stands_in(b, a + b + c + d + e),
        stands_in(c, a + b + c + d + e),
        stands_in(d, a + b + c + d + e),
{
    let s = a + b + c + d + e;
    lemma_stands_in_itself(b);
    lemma_stands_in_itself(c);
    lemma_stands_in_itself(d);
    lemma_stands_in_whole(b, a, b, c + d + e);
    assert(a + b + (c + d + e) =~= s);
    lemma_stands_in_whole(c, a + b, c, d + e);
    assert(a + b + c + (d + e) =~= s);
    lemma_stands_in_whole(d, a + b + c, d, e);
}

#[verifier::rlimit(40)]
proof fn lemma_head_parts(d: DigestView) -> (r: (Seq<char>, Seq<char>))
    ensures
        digest_text(d) == r.0 + query_line(d) + id_line(d) + count_line(d) + r.1,
{
    reveal_strlit("# Research digest\nQuery: ");
    reveal_strlit("Query: ");
    let full = "# Research digest\nQuery: "@;
    let title = full.take(full.len() - 7);
    assert(full =~= title + "Query: "@);
    let listed = if d.domain_allowlist.len() > 0 {
        "Domain allowlist: "@ + join(d.domain_allowlist, ", "@) + "\n"@
    } else {
        Seq::empty()
    };
    let rest = lemma_head_of_digest(d);
    assert(full + d.query + "\n"@ =~= title + query_line(d));
    assert(digest_head(d) =~= title + query_line(d) + id_line(d) + count_line(d) + listed);
    assert(digest_text(d) =~= title + query_line(d) + id_line(d) + count_line(d) + (listed + rest));
    (title, listed + rest)
}

proof fn lemma_head_of_digest(d: DigestView) -> (rest: Seq<char>)
    ensures
        digest_text(d) == digest_head(d) + rest,
{
    let (notice, mid) = lemma_parts_of_digest(d);
    let rest = notice + claims_part(d) + mid + sources_part(d) + skips_part(d);
    assert(digest_head(d) + rest =~= digest_head(d) + notice + claims_part(d) + mid + sources_part(
        d,
    ) + skips_part(d));
    rest
}

// ---------------------------------------------------------------------------
// What is taken up
// ---------------------------------------------------------------------------

/// Whether a page is among those that are to be fetched.
pub open spec fn is_to_be_fetched(s: RunView, url: Seq<char>) -> bool {
    exists|i: int| 0 <= i < s.frontier.len() && (#[trigger] s.frontier[i]).url.text == url
}

/// Whether a page was passed over.
pub open spec fn is_passed_over(s: RunView, url: Seq<char>) -> bool {
    exists|i: int| 0 <= i < s.skipped.len() && (#[trigger] s.skipped[i]).url == url
}

/// Whether each URL that was come across is to be fetched, or was passed over.
pub open spec fn is_accounted_for(s: RunView) -> bool {
    forall|i: int|
        0 <= i < s.seen.len() ==> is_to_be_fetched(s, #[trigger] s.seen[i]) || is_passed_over(
            s,
            s.seen[i],
        )
}

proof fn lemma_seed_is_accounted_for(s: RunView, seed: ResearchSeed, rank: int)
    requires
        is_accounted_for(s),
    ensures
        ({
            let t = take_seed(s, seed, rank);
            &&& is_accounted_for(t)
            &&& t.allowlist == s.allowlist
            &&& forall|url: Seq<char>|
                is_to_be_fetched(s, url) ==> #[trigger] is_to_be_fetched(t, url)
            &&& forall|url: Seq<char>| is_passed_over(s, url) ==> #[trigger] is_passed_over(t, url)
            &&& match parsed_url(with_scheme(seed.url@)) {
                Ok(p) => is_to_be_fetched(t, canonical(p).text) || is_passed_over(
                    t,
                    canonical(p).text,
                ),
                Err(_) => is_passed_over(t, seed.url@),
            }
        }),
{
    let t = take_seed(s, seed, rank);
    assert forall|url: Seq<char>| is_to_be_fetched(s, url) implies #[trigger] is_to_be_fetched(
        t,
        url,
    ) by {
        let i = choose|i: int|
            0 <= i < s.frontier.len() && (#[trigger] s.frontier[i]).url.text == url;
        assert(t.frontier[i] == s.frontier[i]);
    }
    assert forall|url: Seq<char>| is_passed_over(s, url) implies #[trigger] is_passed_over(
        t,
        url,
    ) by {
        let i = choose|i: int| 0 <= i < s.skipped.len() && (#[trigger] s.skipped[i]).url == url;
        assert(t.skipped[i] == s.skipped[i]);
    }
    match parsed_url(with_scheme(seed.url@)) {
        Ok(p) => {
            let url = canonical(p);
            if s.seen.contains(url.text) {
                let i = choose|i: int| 0 <= i < s.seen.len() && s.seen[i] == url.text;
                assert(is_to_be_fetched(s, s.seen[i]) || is_passed_over(s, s.seen[i]));
            } else if !allows(s.allowlist, url) {
                assert(t.skipped[s.skipped.len() as int].url == url.text);
                assert(is_passed_over(t, url.text));
            } else {
                assert(t.frontier[s.frontier.len() as int].url == url);
                assert(is_to_be_fetched(t, url.text));
            }
        },
        Err(_) => {
            assert(t.skipped[s.skipped.len() as int].url == seed.url@);
        },
    }
    assert forall|i: int| 0 <= i < t.seen.len() implies is_to_be_fetched(t, #[trigger] t.seen[i])
        || is_passed_over(t, t.seen[i]) by {
        if i < s.seen.len() {
            assert(t.seen[i] == s.seen[i]);
            assert(is_to_be_fetched(s, s.seen[i]) || is_passed_over(s, s.seen[i]));
        }
    }
}

/// No page that was found is lost: each is to be fetched, or was passed over and is reported.
pub proof fn lemma_no_seed_is_lost(
    session: ResearchSession,
    allowlist: Seq<Seq<char>>,
    seeds: Seq<ResearchSeed>,
    i: int,
)
    requires
        0 <= i < seeds.len(),
    ensures
        ({
            let s = take_seeds(fresh(session, allowlist), seeds);
            match parsed_url(with_scheme(seeds[i].url@)) {
                Ok(p) => is_to_be_fetched(s, canonical(p).text) || is_passed_over(
                    s,
                    canonical(p).text,
                ),
                Err(_) => is_passed_over(s, seeds[i].url@),
            }
        }),
{
    lemma_seeds_are_accounted_for(fresh(session, allowlist), seeds, i);
}

proof fn lemma_seeds_are_accounted_for(s: RunView, seeds: Seq<ResearchSeed>, i: int)
    requires
        is_accounted_for(s),
    ensures
        is_accounted_for(take_seeds(s, seeds)),
        take_seeds(s, seeds).allowlist == s.allowlist,
        0 <= i < seeds.len() ==> match parsed_url(with_scheme(seeds[i].url@)) {
            Ok(p) => is_to_be_fetched(take_seeds(s, seeds), canonical(p).text) || is_passed_over(
                take_seeds(s, seeds),
                canonical(p).text,
            ),
            Err(_) => is_passed_over(take_seeds(s, seeds), seeds[i].url@),
        },
    decreases seeds.len(),
{
    if seeds.len() > 0 {
        let before = seeds.drop_last();
        lemma_seeds_are_accounted_for(s, before, i);
        if 0 <= i < before.len() {
            assert(before[i] == seeds[i]);
        }
        lemma_seed_is_accounted_for(take_seeds(s, before), seeds.last(), seeds.len() - 1);
    }
}

/// A page that was found with an allowed host, and is the first with its URL, is to be fetched: with
/// its title and snippet, and before those that were found behind it.
pub proof fn lemma_allowed_seed_is_taken_up(s: RunView, seed: ResearchSeed, rank: int, p: UrlParts)
    requires
        parsed_url(with_scheme(seed.url@)) == Ok::<UrlParts, Seq<char>>(p),
        allows(s.allowlist, canonical(p)),
        !s.seen.contains(canonical(p).text),
        0 <= rank < i32::MAX,
    ensures
        ({
            let t = take_seed(s, seed, rank);
            &&& t.frontier.len() == s.frontier.len() + 1
            &&& t.frontier.last().url == canonical(p)
            &&& t.frontier.last().title == seed.title@
            &&& t.frontier.last().snippet == seed.snippet@
            &&& t.frontier.last().depth == 0
            &&& t.frontier.last().score + rank == 1000
            &&& t.skipped == s.skipped
        }),
{
}

/// Whether a host is allowed: it is one of the allowed ones or lies below one, and is no number.
pub proof fn lemma_allowed_hosts(allowed: Seq<Seq<char>>, parts: UrlParts, host: Seq<char>, i: int)
    requires
        0 <= i < allowed.len(),
        parts.host_text == Some(host),
        crate::text::ascii_lower(host) == host,
    ensures
        parts.host is Some && parts.host->0 is Domain && (host == allowed[i] || ends_with(
            host,
            "."@ + allowed[i],
        )) ==> allows(allowed, parts),
        parts.host matches Some(HostView::Ip(_, _)) ==> !allows(allowed, parts),
        (forall|j: int|
            0 <= j < allowed.len() ==> host != #[trigger] allowed[j] && !ends_with(
                host,
                "."@ + allowed[j],
            )) ==> !allows(allowed, parts),
{
}

// ---------------------------------------------------------------------------
// What comes of a page
// ---------------------------------------------------------------------------

/// A page that was fetched becomes the next source, with its quotes; the claims that it makes follow
/// those made so far and name it; and its text is kept. What was found before stays as it was.
#[verifier::rlimit(40)]
pub proof fn lemma_fetched_page_is_a_source(s: RunView, item: ItemView, page: FetchedView)
    requires
        s.sources.len() < usize::MAX,
        s.pages_fetched < usize::MAX,
    ensures
        ({
            let t = take_outcome(s, item, OutcomeView::Fetched(page));
            let n = s.sources.len() as int;
            let text = page.extracted.markdown;
            &&& t.sources.len() == n + 1
            &&& t.sources.take(n) == s.sources
            &&& t.sources[n].index == n + 1
            &&& t.sources[n].url == page.final_url
            &&& t.sources[n].source_id == page.source_id
            &&& t.sources[n].quotes == quotes_of(text, 2, 220)
            &&& t.sources[n].title == match page.extracted.title {
                Some(title) => if title.len() > 0 {
                    title
                } else {
                    item.title
                },
                None => item.title,
            }
            &&& s.claims.is_prefix_of(t.claims)
            &&& t.claims.len() == s.claims.len() + claims_of(text, item.snippet).len()
            &&& forall|k: int|
                0 <= k < claims_of(text, item.snippet).len() ==> {
                    let c = #[trigger] t.claims[s.claims.len() + k];
                    &&& c.text == claims_of(text, item.snippet)[k]
                    &&& c.source_indexes == seq![(n + 1) as usize]
                    &&& c.confidence == confidence_of(text)
                }
            &&& t.pages.len() == s.pages.len() + 1
            &&& t.pages.last().markdown == text
            &&& t.pages.last().url == page.final_url
            &&& t.pages_fetched == s.pages_fetched + 1
            &&& t.skipped == s.skipped
            &&& t.bytes_downloaded >= s.bytes_downloaded
            &&& s.bytes_downloaded + byte_count(text) + 2048 <= u64::MAX ==> t.bytes_downloaded
                == s.bytes_downloaded + byte_count(text) + 2048
        }),
{
    let taken = take_page(s, item, page);
    let links = links_in(page.extracted.markdown, 0, 8, Seq::empty());
    lemma_links_keep_findings(taken, item, links);
    let t = take_outcome(s, item, OutcomeView::Fetched(page));
    assert(t.sources == taken.sources && t.claims == taken.claims && t.pages == taken.pages);
    assert(t.sources.take(s.sources.len() as int) =~= s.sources);
    assert(s.claims.is_prefix_of(t.claims)) by {
        assert(t.claims.take(s.claims.len() as int) =~= s.claims);
    }
}

proof fn lemma_links_keep_findings(s: RunView, item: ItemView, links: Seq<Seq<char>>)
    ensures
        ({
            let t = follow_links(s, item, links);
            &&& t.sources == s.sources
            &&& t.claims == s.claims
            &&& t.pages == s.pages
            &&& t.pages_fetched == s.pages_fetched
            &&& t.skipped == s.skipped
            &&& t.bytes_downloaded == s.bytes_downloaded
            &&& t.allowlist == s.allowlist
            &&& t.budgets == s.budgets
        }),
    decreases links.len(),
{
    if links.len() > 0 {
        lemma_links_keep_findings(s, item, links.drop_last());
    }
}

/// Whether a page one step further on is to be fetched.
pub open spec fn leads_to(s: RunView, item: ItemView, url: Seq<char>) -> bool {
    exists|k: int|
        0 <= k < s.frontier.len() && (#[trigger] s.frontier[k]).url.text == url
            && s.frontier[k].depth == item.depth + 1
}

/// Whether a link leads to a page, and no link in front of it does.
pub open spec fn is_first_link_to(
    item: ItemView,
    links: Seq<Seq<char>>,
    i: int,
    target: UrlParts,
) -> bool {
    &&& 0 <= i < links.len()
    &&& link_target(item.url.text, links[i]) == Ok::<UrlParts, Seq<char>>(target)
    &&& forall|j: int|
        0 <= j < i ==> (link_target(item.url.text, #[trigger] links[j]) matches Ok(other)
            ==> canonical(other).text != canonical(target).text)
}

/// Where a page may be followed, each of its first eight links to an allowed page that was not come
/// across before leads to a page that is to be fetched.
pub proof fn lemma_links_are_followed(
    s: RunView,
    item: ItemView,
    page: FetchedView,
    i: int,
    target: UrlParts,
)
    requires
        item.depth < s.budgets.max_depth,
        is_first_link_to(
            item,
            links_in(page.extracted.markdown, 0, 8, Seq::empty()),
            i,
            target,
        ),
        allows(s.allowlist, canonical(target)),
        !s.seen.contains(canonical(target).text),
    ensures
        leads_to(
            take_outcome(s, item, OutcomeView::Fetched(page)),
            item,
            canonical(target).text,
        ),
{
    let links = links_in(page.extracted.markdown, 0, 8, Seq::empty());
    let taken = take_page(s, item, page);
    lemma_new_link(taken, item, links, i, target);
}

proof fn lemma_new_link(
    s: RunView,
    item: ItemView,
    links: Seq<Seq<char>>,
    i: int,
    target: UrlParts,
)
    requires
        item.depth < usize::MAX,
        is_first_link_to(item, links, i, target),
        allows(s.allowlist, canonical(target)),
        !s.seen.contains(canonical(target).text),
    ensures
        leads_to(follow_links(s, item, links), item, canonical(target).text),
    decreases links.len(),
{
    let before = links.drop_last();
    let t = follow_links(s, item, before);
    let r = follow_links(s, item, links);
    let url = canonical(target).text;
    lemma_links_keep_findings(s, item, before);
    if i < before.len() {
        assert forall|j: int| 0 <= j < i implies (link_target(item.url.text, #[trigger] before[j]) matches Ok(
            other,
        ) ==> canonical(other).text != url) by {
            assert(before[j] == links[j]);
        }
        lemma_new_link(s, item, before, i, target);
        let k = choose|k: int|
            0 <= k < t.frontier.len() && (#[trigger] t.frontier[k]).url.text == url
                && t.frontier[k].depth == item.depth + 1;
        assert(r.frontier[k] == t.frontier[k]);
    } else {
        lemma_other_links(s, item, before, url);
        assert(r.frontier[t.frontier.len() as int].url.text == url);
    }
}

proof fn lemma_other_links(s: RunView, item: ItemView, links: Seq<Seq<char>>, url: Seq<char>)
    requires
        !s.seen.contains(url),
        forall|j: int|
            0 <= j < links.len() ==> (link_target(item.url.text, #[trigger] links[j]) matches Ok(
                other,
            ) ==> canonical(other).text != url),
    ensures
        !follow_links(s, item, links).seen.contains(url),
    decreases links.len(),
{
    if links.len() > 0 {
        let before = links.drop_last();
        assert forall|j: int| 0 <= j < before.len() implies (link_target(
            item.url.text,
            #[trigger] before[j],
        ) matches Ok(other) ==> canonical(other).text != url) by {
            assert(before[j] == links[j]);
        }
        lemma_other_links(s, item, before, url);
        let t = follow_links(s, item, before);
        let r = follow_links(s, item, links);
        assert(links[links.len() - 1] == links.last());
        if r.seen.contains(url) {
            let k = choose|k: int| 0 <= k < r.seen.len() && r.seen[k] == url;
            if k < t.seen.len() {
                assert(t.seen[k] == url);
            }
        }
    }
}

/// A page that could not be read without a browser stays with what was said of it when it was found,
/// as a source of its own, and is reported.
pub proof fn lemma_unread_page_leaves_its_snippet(
    s: RunView,
    item: ItemView,
    reason: Seq<char>,
    url: Seq<char>,
)
    requires
        s.sources.len() < usize::MAX,
    ensures
        ({
            let t = take_outcome(s, item, OutcomeView::NeedsBrowser(reason, url));
            let n = s.sources.len() as int;
            &&& t.skipped == s.skipped.push(SkipView { url, reason: "needs_browser: "@ + reason })
            &&& t.pages_fetched == s.pages_fetched
            &&& trim(item.snippet).len() == 0 ==> t.sources == s.sources && t.claims == s.claims
            &&& trim(item.snippet).len() > 0 ==> {
                &&& t.sources.len() == n + 1
                &&& t.sources.take(n) == s.sources
                &&& t.sources[n].index == n + 1
                &&& t.sources[n].url == url
                &&& t.sources[n].title == item.title
                &&& t.sources[n].quotes == seq![ellipsized(item.snippet, 220)]
                &&& t.claims.len() == s.claims.len() + 1
                &&& s.claims.is_prefix_of(t.claims)
                &&& t.claims.last().text == ellipsized(item.snippet, s.max_snippet_chars as nat)
                &&& t.claims.last().source_indexes == seq![(n + 1) as usize]
                &&& t.claims.last().confidence == "snippet"@
            }
        }),
{
    let t = keep_snippet(s, item, url);
    assert(t.sources.take(s.sources.len() as int) =~= s.sources);
    assert(t.claims.take(s.claims.len() as int) =~= s.claims);
}

/// A page that could not be fetched is reported with the reason, and changes nothing else.
pub proof fn lemma_failed_page_is_reported(s: RunView, item: ItemView, reason: Seq<char>)
    ensures
        ({
            let t = take_outcome(s, item, OutcomeView::Failed(reason));
            &&& t.skipped == s.skipped.push(SkipView { url: item.url.text, reason })
            &&& t.sources == s.sources
            &&& t.claims == s.claims
            &&& t.pages == s.pages
            &&& t.frontier == s.frontier
            &&& t.pages_fetched == s.pages_fetched
        }),
{
}

/// A session goes on as long as it is not cancelled and none of its budgets is spent.
pub proof fn lemma_session_goes_on_within_its_budgets(
    s: RunView,
    cancelled: bool,
    elapsed: Millis,
)
    ensures
        stop_reason(s, cancelled, elapsed) is None <==> !cancelled && elapsed < s.budgets.wall_clock
            && s.pages_fetched < s.budgets.max_pages && s.bytes_downloaded
            < s.budgets.max_download_bytes,
{
}

/// A digest has all sources of the session, all pages that were passed over, and its first twelve
/// claims.
pub proof fn lemma_digest_has_all_sources(s: RunView)
    ensures
        digest_of(s).query == s.query,
        digest_of(s).sources == s.sources,
        digest_of(s).skipped == s.skipped,
        digest_of(s).pages_fetched == s.pages_fetched,
        digest_of(s).claims.is_prefix_of(s.claims),
        s.claims.len() <= 12 ==> digest_of(s).claims == s.claims,
        s.claims.len() > 12 ==> digest_of(s).claims.len() == 12,
{
    let d = digest_of(s).claims;
    assert(s.claims.take(d.len() as int) =~= d);
}

pub open spec fn is_named() -> spec_fn(Seq<char>) -> bool {
    |domain: Seq<char>| domain.len() > 0
}

pub open spec fn in_small_letters() -> spec_fn(Seq<char>) -> Seq<char> {
    |domain: Seq<char>| crate::text::ascii_lower(domain)
}

/// Every domain that was given is allowed, whatever the case of its letters.
pub proof fn lemma_no_domain_is_lost(domains: Seq<Seq<char>>)
    ensures
        are_the_wanted(lower_domains(domains), domains, is_named(), in_small_letters()),
    decreases domains.len(),
{
    if domains.len() == 0 {
        lemma_none_of_none(is_named(), in_small_letters());
        assert(domains =~= Seq::empty());
    } else {
        let before = domains.drop_last();
        lemma_no_domain_is_lost(before);
        lemma_one_more(
            lower_domains(before),
            before,
            is_named(),
            in_small_letters(),
            domains.last(),
        );
        assert(before.push(domains.last()) =~= domains);
    }
}

pub open spec fn has_a_host() -> spec_fn(ResearchSeed) -> bool {
    |seed: ResearchSeed| crate::web_research::session::seed_host(seed.url@) is Some
}

pub open spec fn its_host() -> spec_fn(ResearchSeed) -> Seq<char> {
    |seed: ResearchSeed| crate::web_research::session::seed_host(seed.url@)->0
}

/// Where no domains are given, the hosts of all pages that were found are allowed.
pub proof fn lemma_hosts_of_all_seeds(seeds: Seq<ResearchSeed>)
    ensures
        are_the_wanted(
            crate::web_research::session::seed_hosts(seeds),
            seeds,
            has_a_host(),
            its_host(),
        ),
    decreases seeds.len(),
{
    if seeds.len() == 0 {
        lemma_none_of_none(has_a_host(), its_host());
        assert(seeds =~= Seq::empty());
    } else {
        let before = seeds.drop_last();
        lemma_hosts_of_all_seeds(before);
        lemma_one_more(
            crate::web_research::session::seed_hosts(before),
            before,
            has_a_host(),
            its_host(),
            seeds.last(),
        );
        assert(before.push(seeds.last()) =~= seeds);
    }
}

} // verus!
