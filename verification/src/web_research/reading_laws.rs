//! What is taken from a page is what stands on it.
use crate::selection::{
    are_the_first, are_the_wanted, lemma_first_of_the_wanted, lemma_first_wanted_is_picked,
    lemma_none_of_none, lemma_one_more, lemma_one_more_in_front,
};
use crate::text::{
    contains, ellipsized, find_char_from, first_strs, is_ws, lemma_not_contained, lines, occurs_at,
    starts_with, trim, without_leading, without_trailing, words,
};
use crate::text_laws::{lemma_find_char_behind, starts_once};
use crate::web_research::reading::{
    bracket_at, heading_claims, is_quotable, is_web_link, line_claims, link_word, links_in,
    page_claims, quotable, quotes_of, url_end,
};
use vstd::prelude::*;

verus! {

/// Whether a text opens or closes a block of code.
pub open spec fn is_fence(t: Seq<char>) -> bool {
    t.len() >= 3 && t[0] == '`' && t[1] == '`' && t[2] == '`'
}

/// Whether a line is one of prose that is long enough to be quoted: no heading, and no code fence.
pub open spec fn is_prose() -> spec_fn(Seq<char>) -> bool {
    |l: Seq<char>| trim(l).len() > 40 && trim(l)[0] != '#' && !is_fence(trim(l))
}

/// A line without the blanks around it, cut to a number of characters.
pub open spec fn cut_to(max: nat) -> spec_fn(Seq<char>) -> Seq<char> {
    |l: Seq<char>| ellipsized(trim(l), max)
}

proof fn lemma_starts(t: Seq<char>)
    ensures
        starts_with(t, "#"@) == (t.len() > 0 && t[0] == '#'),
        starts_with(t, "```"@) == is_fence(t),
        starts_with(t, "|"@) == (t.len() > 0 && t[0] == '|'),
{
    reveal_strlit("#");
    reveal_strlit("|");
    reveal_strlit("```");
    if t.len() > 0 && t[0] == '#' {
        assert(t.take(1) =~= "#"@);
    }
    if starts_with(t, "#"@) {
        assert(t.take(1)[0] == t[0]);
    }
    if t.len() > 0 && t[0] == '|' {
        assert(t.take(1) =~= "|"@);
    }
    if starts_with(t, "|"@) {
        assert(t.take(1)[0] == t[0]);
    }
    if is_fence(t) {
        assert(t.take(3) =~= "```"@);
    }
    if starts_with(t, "```"@) {
        assert(t.take(3)[0] == t[0] && t.take(3)[1] == t[1] && t.take(3)[2] == t[2]);
    }
}

proof fn lemma_quotable_lines(all: Seq<Seq<char>>, max: nat)
    ensures
        are_the_wanted(quotable(all, max), all, is_prose(), cut_to(max)),
    decreases all.len(),
{
    if all.len() == 0 {
        lemma_none_of_none(is_prose(), cut_to(max));
        assert(all =~= Seq::empty());
    } else {
        let before = all.drop_last();
        lemma_quotable_lines(before, max);
        lemma_starts(trim(all.last()));
        lemma_one_more(quotable(before, max), before, is_prose(), cut_to(max), all.last());
        assert(before.push(all.last()) =~= all);
        assert(is_quotable(all.last()) == is_prose()(all.last()));
    }
}

/// The quotes of a page are the first of its lines of prose, in their order, each cut to the limit:
/// as many as are wanted, and fewer only where the page has no other.
pub proof fn lemma_quotes_are_the_first_prose(markdown: Seq<char>, max_quotes: nat, max_chars: nat)
    ensures
        are_the_first(
            quotes_of(markdown, max_quotes, max_chars),
            lines(markdown),
            is_prose(),
            cut_to(max_chars),
            max_quotes,
        ),
{
    lemma_quotable_lines(lines(markdown), max_chars);
    lemma_first_of_the_wanted(
        quotable(lines(markdown), max_chars),
        lines(markdown),
        is_prose(),
        cut_to(max_chars),
        max_quotes,
    );
}

/// A page with a line of prose is quoted, and first by the first of them.
pub proof fn lemma_first_prose_is_quoted(
    markdown: Seq<char>,
    max_quotes: nat,
    max_chars: nat,
    i: int,
)
    requires
        max_quotes > 0,
        0 <= i < lines(markdown).len(),
        is_prose()(lines(markdown)[i]),
        forall|j: int| 0 <= j < i ==> !is_prose()(#[trigger] lines(markdown)[j]),
    ensures
        quotes_of(markdown, max_quotes, max_chars).len() > 0,
        quotes_of(markdown, max_quotes, max_chars)[0] == ellipsized(
            trim(lines(markdown)[i]),
            max_chars,
        ),
{
    lemma_quotes_are_the_first_prose(markdown, max_quotes, max_chars);
    lemma_first_wanted_is_picked(
        quotes_of(markdown, max_quotes, max_chars),
        lines(markdown),
        is_prose(),
        cut_to(max_chars),
        max_quotes,
        i,
    );
}

/// No heading and no code fence is quoted, and no quote is longer than the limit.
pub proof fn lemma_quotes_are_prose(markdown: Seq<char>, max_quotes: nat, max_chars: nat, i: int)
    requires
        0 <= i < quotes_of(markdown, max_quotes, max_chars).len(),
    ensures
        ({
            let q = quotes_of(markdown, max_quotes, max_chars)[i];
            &&& q.len() > 0
            &&& q[0] != '#'
            &&& !is_fence(q)
            &&& max_chars > 0 ==> q.len() <= max_chars
        }),
{
    let all = lines(markdown);
    let r = quotes_of(markdown, max_quotes, max_chars);
    lemma_quotes_are_the_first_prose(markdown, max_quotes, max_chars);
    let at = choose|at: Seq<int>| #[trigger]
        crate::selection::picks(r, all, is_prose(), cut_to(max_chars), at);
    assert(is_prose()(all[at[i]]));
    let t = trim(all[at[i]]);
    let q = ellipsized(t, max_chars);
    assert(r[i] == q);
    if is_fence(q) && t.len() > max_chars {
        assert(t.take(max_chars - 1).push('…')[2] == '`');
    }
}

/// Whether a line is a heading that says something to speak of.
pub open spec fn is_telling_heading() -> spec_fn(Seq<char>) -> bool {
    |l: Seq<char>|
        trim(l).len() > 0 && trim(l)[0] == '#' && trim(without_leading(trim(l), '#')).len() > 8
}

/// What a heading says.
pub open spec fn heading_text() -> spec_fn(Seq<char>) -> Seq<char> {
    |l: Seq<char>| ellipsized(trim(without_leading(trim(l), '#')), 240)
}

/// Whether a line says something to speak of: no row of a table, and no code fence.
pub open spec fn is_telling_line() -> spec_fn(Seq<char>) -> bool {
    |l: Seq<char>| trim(l).len() > 60 && trim(l)[0] != '|' && !is_fence(trim(l))
}

proof fn lemma_claims(all: Seq<Seq<char>>)
    ensures
        are_the_wanted(heading_claims(all), all, is_telling_heading(), heading_text()),
        are_the_wanted(line_claims(all), all, is_telling_line(), cut_to(240)),
    decreases all.len(),
{
    if all.len() == 0 {
        lemma_none_of_none(is_telling_heading(), heading_text());
        lemma_none_of_none(is_telling_line(), cut_to(240));
        assert(all =~= Seq::empty());
    } else {
        let before = all.drop_last();
        lemma_claims(before);
        lemma_starts(trim(all.last()));
        lemma_one_more(
            heading_claims(before),
            before,
            is_telling_heading(),
            heading_text(),
            all.last(),
        );
        lemma_one_more(line_claims(before), before, is_telling_line(), cut_to(240), all.last());
        assert(before.push(all.last()) =~= all);
    }
}

/// The claims of a page are what its telling headings say and then what its telling lines say, all
/// of them and in their order, but no more than three.
pub proof fn lemma_claims_are_what_a_page_says(markdown: Seq<char>)
    ensures
        exists|headings: Seq<Seq<char>>, others: Seq<Seq<char>>|
            {
                &&& #[trigger] are_the_wanted(
                    headings,
                    lines(markdown),
                    is_telling_heading(),
                    heading_text(),
                )
                &&& #[trigger] are_the_wanted(
                    others,
                    lines(markdown),
                    is_telling_line(),
                    cut_to(240),
                )
                &&& page_claims(markdown) == if headings.len() + others.len() <= 3 {
                    headings + others
                } else {
                    (headings + others).take(3)
                }
            },
{
    let all = lines(markdown);
    lemma_claims(all);
    assert(are_the_wanted(heading_claims(all), all, is_telling_heading(), heading_text()));
    assert(are_the_wanted(line_claims(all), all, is_telling_line(), cut_to(240)));
}

/// A link as it stands on a page, behind something that is none: in brackets, or as it is, with the
/// character that ends it.
pub ghost enum PageLink {
    Bracket { gap: Seq<char>, inside: Seq<char> },
    Bare { gap: Seq<char>, url: Seq<char>, stop: char },
}

/// Whether a text holds no link, nor the beginning of one.
pub open spec fn is_linkless(s: Seq<char>) -> bool {
    !s.contains(']') && !contains(s, "http://"@) && !contains(s, "https://"@)
}

pub open spec fn is_over_http(url: Seq<char>) -> bool {
    starts_with(url, "http://"@) || starts_with(url, "https://"@)
}

/// Whether a character ends a URL.
pub open spec fn is_stop(c: char) -> bool {
    is_ws(c) || c == ')' || c == ']' || c == '"' || c == '\''
}

impl PageLink {
    pub open spec fn text(self) -> Seq<char> {
        match self {
            PageLink::Bracket { gap, inside } => gap + "]("@ + inside + ")"@,
            PageLink::Bare { gap, url, stop } => gap + url + seq![stop],
        }
    }

    pub open spec fn is_clear(self) -> bool {
        match self {
            PageLink::Bracket { gap, inside } => is_linkless(gap) && !inside.contains(')'),
            PageLink::Bare { gap, url, stop } => {
                &&& is_linkless(gap)
                &&& is_over_http(url)
                &&& forall|i: int| 0 <= i < url.len() ==> !is_stop(#[trigger] url[i])
                &&& is_stop(stop)
                &&& stop != ']'
            },
        }
    }

    /// Where the link leads: the first word in its brackets, or what stands there without the
    /// punctuation at its end.
    pub open spec fn target(self) -> Seq<char> {
        match self {
            PageLink::Bracket { gap: _, inside } => if words(trim(inside)).len() > 0 {
                words(trim(inside))[0]
            } else {
                trim(inside)
            },
            PageLink::Bare { gap: _, url, stop: _ } => without_trailing(url, seq!['.', ',', ';']),
        }
    }
}

/// Links that lead somewhere over HTTP.
pub open spec fn leads_over_http() -> spec_fn(PageLink) -> bool {
    |l: PageLink| l is Bare || is_over_http(l.target())
}

pub open spec fn target_of() -> spec_fn(PageLink) -> Seq<char> {
    |l: PageLink| l.target()
}

pub open spec fn page_of(links: Seq<PageLink>) -> Seq<char>
    decreases links.len(),
{
    if links.len() == 0 {
        Seq::empty()
    } else {
        links[0].text() + page_of(links.skip(1))
    }
}

pub open spec fn links_are_clear(links: Seq<PageLink>) -> bool {
    forall|i: int| 0 <= i < links.len() ==> (#[trigger] links[i]).is_clear()
}

spec fn targets(links: Seq<PageLink>) -> Seq<Seq<char>>
    decreases links.len(),
{
    if links.len() == 0 {
        Seq::empty()
    } else if leads_over_http()(links[0]) {
        seq![links[0].target()] + targets(links.skip(1))
    } else {
        targets(links.skip(1))
    }
}

proof fn lemma_targets(links: Seq<PageLink>)
    ensures
        are_the_wanted(targets(links), links, leads_over_http(), target_of()),
    decreases links.len(),
{
    if links.len() == 0 {
        lemma_none_of_none(leads_over_http(), target_of());
        assert(links =~= Seq::empty());
    } else {
        let rest = links.skip(1);
        lemma_targets(rest);
        lemma_one_more_in_front(targets(rest), rest, leads_over_http(), target_of(), links[0]);
        assert(seq![links[0]] + rest =~= links);
    }
}

proof fn lemma_schemes()
    ensures
        starts_once("http://"@),
        starts_once("https://"@),
        "http://"@[0] == 'h',
        "https://"@[0] == 'h',
        "http://"@.len() == 7,
        "https://"@.len() == 8,
        "]("@ == seq![']', '('],
        ")"@ == seq![')'],
        !"http://"@.contains(']'),
        !"https://"@.contains(']'),
        forall|i: int| 0 <= i < 7 ==> !is_stop(#[trigger] "http://"@[i]),
        forall|i: int| 0 <= i < 8 ==> !is_stop(#[trigger] "https://"@[i]),
{
    reveal_strlit("http://");
    reveal_strlit("https://");
    reveal_strlit("](");
    reveal_strlit(")");
    assert("]("@ =~= seq![']', '(']);
    assert(")"@ =~= seq![')']);
}

/// A scheme that does not stand in a gap does not begin in it either, where what follows begins
/// with a scheme, or with what is in none.
proof fn lemma_no_scheme_begins(s: Seq<char>, p: Seq<char>, b: int, gap: Seq<char>, k: int)
    requires
        starts_once(p),
        p[0] == 'h',
        0 <= b <= k < b + gap.len(),
        b + gap.len() <= s.len(),
        s.subrange(b, b + gap.len()) == gap,
        !contains(gap, p),
        b + gap.len() == s.len() || s[b + gap.len()] == 'h' || !p.contains(s[b + gap.len()]),
    ensures
        !starts_with(s.skip(k), p),
{
    let e = b + gap.len();
    if starts_with(s.skip(k), p) {
        assert(s.skip(k).take(p.len() as int) =~= s.subrange(k, k + p.len()));
        if k + p.len() <= e {
            assert(gap.subrange(k - b, k - b + p.len()) =~= s.subrange(k, k + p.len()));
            assert(occurs_at(gap, p, k - b));
            lemma_not_contained(gap, p);
        } else {
            assert(s.subrange(k, k + p.len())[e - k] == s[e]);
            assert(p[e - k] == s[e]);
            assert(p.contains(p[e - k]));
        }
    }
}

spec fn begins_no_link(s: Seq<char>, k: int) -> bool {
    s[k] != ']' && !is_web_link(s.skip(k))
}

proof fn lemma_gap_is_passed(s: Seq<char>, i: int, j: int, max: nat, found: Seq<Seq<char>>)
    requires
        0 <= i <= j <= s.len(),
        forall|k: int| i <= k < j ==> #[trigger] begins_no_link(s, k),
    ensures
        links_in(s, i, max, found) == links_in(s, j, max, found),
    decreases j - i,
{
    if i < j {
        assert(begins_no_link(s, i));
        if i + 1 < s.len() && found.len() < max {
            lemma_gap_is_passed(s, i + 1, j, max, found);
        }
    }
}

proof fn lemma_linkless_is_passed(
    before: Seq<char>,
    gap: Seq<char>,
    after: Seq<char>,
    max: nat,
    found: Seq<Seq<char>>,
)
    requires
        is_linkless(gap),
        after.len() == 0 || after[0] == 'h' || after[0] == ']',
    ensures
        links_in(before + gap + after, before.len() as int, max, found) == links_in(
            before + gap + after,
            (before.len() + gap.len()) as int,
            max,
            found,
        ),
{
    lemma_schemes();
    let s = before + gap + after;
    let b = before.len() as int;
    let e = b + gap.len();
    assert(s.subrange(b, e) =~= gap);
    assert forall|k: int| b <= k < e implies #[trigger] begins_no_link(s, k) by {
        assert(s[k] == gap[k - b]);
        if after.len() > 0 {
            assert(s[e] == after[0]);
        }
        lemma_no_scheme_begins(s, "http://"@, b, gap, k);
        lemma_no_scheme_begins(s, "https://"@, b, gap, k);
    }
    lemma_gap_is_passed(s, b, e, max, found);
}

proof fn lemma_url_ends(s: Seq<char>, i: int, j: int)
    requires
        0 <= i <= j < s.len(),
        is_stop(s[j]),
        forall|k: int| i <= k < j ==> !is_stop(#[trigger] s[k]),
    ensures
        url_end(s, i) == j,
    decreases j - i,
{
    if i < j {
        assert(!is_stop(s[i]));
        lemma_url_ends(s, i + 1, j);
    }
}

proof fn lemma_link_is_read(
    before: Seq<char>,
    link: PageLink,
    after: Seq<char>,
    max: nat,
    found: Seq<Seq<char>>,
)
    requires
        link.is_clear(),
        found.len() < max,
    ensures
        links_in(before + link.text() + after, before.len() as int, max, found) == links_in(
            before + link.text() + after,
            (before.len() + link.text().len()) as int,
            max,
            if leads_over_http()(link) {
                found.push(link.target())
            } else {
                found
            },
        ),
{
    lemma_schemes();
    let s = before + link.text() + after;
    match link {
        PageLink::Bracket { gap, inside } => {
            let rest = "]("@ + inside + ")"@ + after;
            assert(s =~= before + gap + rest);
            lemma_linkless_is_passed(before, gap, rest, max, found);
            let i = (before.len() + gap.len()) as int;
            let head = before + gap + "]("@;
            lemma_find_char_behind(head, inside, ')', after);
            assert(s =~= head + inside + seq![')'] + after);
            let end = i + 2 + inside.len();
            assert(s[i] == ']' && s[i + 1] == '(');
            assert(find_char_from(s, ')', i + 2) == Some(end));
            assert(bracket_at(s, i) == Some(end));
            assert(s.subrange(i + 2, end) =~= inside);
            assert(link_word(inside) == link.target());
        },
        PageLink::Bare { gap, url, stop } => {
            let rest = url + seq![stop] + after;
            assert(url[0] == 'h') by {
                if starts_with(url, "http://"@) {
                    assert(url.take(7)[0] == url[0]);
                } else {
                    assert(url.take(8)[0] == url[0]);
                }
            }
            assert(s =~= before + gap + rest);
            lemma_linkless_is_passed(before, gap, rest, max, found);
            let i = (before.len() + gap.len()) as int;
            let end = i + url.len();
            assert(s[i] == 'h');
            assert(is_web_link(s.skip(i))) by {
                if starts_with(url, "http://"@) {
                    assert(s.skip(i).take(7) =~= url.take(7));
                } else {
                    assert(s.skip(i).take(8) =~= url.take(8));
                }
            }
            assert(s[end] == stop);
            assert forall|k: int| i <= k < end implies !is_stop(#[trigger] s[k]) by {
                assert(s[k] == url[k - i]);
            }
            lemma_url_ends(s, i, end);
            assert(s.subrange(i, end) =~= url);
            let more = found.push(link.target());
            assert(links_in(s, i, max, found) == links_in(s, end, max, more));
            assert(!is_web_link(s.skip(end))) by {
                let t = s.skip(end);
                assert(t[0] == stop);
                if starts_with(t, "http://"@) {
                    assert(t.take(7)[0] == stop);
                } else if starts_with(t, "https://"@) {
                    assert(t.take(8)[0] == stop);
                }
            }
            assert(begins_no_link(s, end));
            lemma_gap_is_passed(s, end, end + 1, max, more);
        },
    }
}

proof fn lemma_full_list_stays(s: Seq<char>, i: int, max: nat, found: Seq<Seq<char>>)
    requires
        0 <= i,
        found.len() >= max,
    ensures
        links_in(s, i, max, found) == found,
{
}

proof fn lemma_links_are_read(
    before: Seq<char>,
    links: Seq<PageLink>,
    tail: Seq<char>,
    max: nat,
    found: Seq<Seq<char>>,
)
    requires
        links_are_clear(links),
        is_linkless(tail),
        found.len() <= max,
    ensures
        links_in(before + page_of(links) + tail, before.len() as int, max, found) == first_strs(
            found + targets(links),
            max,
        ),
    decreases links.len(),
{
    let s = before + page_of(links) + tail;
    if found.len() == max {
        lemma_full_list_stays(s, before.len() as int, max, found);
        assert(first_strs(found + targets(links), max) =~= found);
    } else if links.len() == 0 {
        assert(s =~= before + tail + Seq::<char>::empty());
        lemma_linkless_is_passed(before, tail, Seq::empty(), max, found);
        assert(first_strs(found + targets(links), max) =~= found);
    } else {
        let link = links[0];
        let rest = links.skip(1);
        let after = page_of(rest) + tail;
        assert(link.is_clear());
        assert(s =~= before + link.text() + after);
        lemma_link_is_read(before, link, after, max, found);
        assert(links_are_clear(rest)) by {
            assert forall|i: int| 0 <= i < rest.len() implies (#[trigger] rest[i]).is_clear() by {
                assert(rest[i] == links[i + 1]);
            }
        }
        let more = if leads_over_http()(link) {
            found.push(link.target())
        } else {
            found
        };
        let done = before + link.text();
        lemma_links_are_read(done, rest, tail, max, more);
        assert(done + page_of(rest) + tail =~= s);
        assert(more + targets(rest) =~= found + targets(links));
    }
}

/// No link of a page is lost: what is read are the first of those that lead somewhere over HTTP, in
/// brackets or as they are, in their order, as many as are wanted.
pub proof fn lemma_no_link_is_lost(links: Seq<PageLink>, tail: Seq<char>, max: nat)
    requires
        links_are_clear(links),
        is_linkless(tail),
    ensures
        are_the_first(
            links_in(page_of(links) + tail, 0, max, Seq::empty()),
            links,
            leads_over_http(),
            target_of(),
            max,
        ),
{
    let none = Seq::<Seq<char>>::empty();
    lemma_links_are_read(Seq::empty(), links, tail, max, none);
    assert(Seq::<char>::empty() + page_of(links) + tail =~= page_of(links) + tail);
    assert(none + targets(links) =~= targets(links));
    lemma_targets(links);
    lemma_first_of_the_wanted(targets(links), links, leads_over_http(), target_of(), max);
}

} // verus!
