//! What is read off a page of results is what stands on it.
use crate::selection::are_places;
use crate::text::{
    ascii_lower, byte_prefix, contains, find, find_char_from, find_from, first_strs, join,
    lemma_byte_prefix, lemma_find_bounds, lemma_utf8_len_push, lemma_utf8_len_take, replace,
    starts_with, utf8_len, words,
};
use crate::text_laws::{
    lemma_find_behind, lemma_find_char_behind, lemma_find_no_more, starts_once,
};
use crate::web_research::discovery::{
    has_url, hit_at, holds_any, is_wanted, links_from, unescaped, untagged, HitView,
};
use vstd::prelude::*;

verus! {

/// A link as it stands on a page, behind something that is none.
pub ghost struct WrittenLink {
    pub gap: Seq<char>,
    pub url: Seq<char>,
}

impl WrittenLink {
    pub open spec fn text(self) -> Seq<char> {
        self.gap + "href=\""@ + self.url + "\""@
    }

    pub open spec fn is_clear(self) -> bool {
        !contains(self.gap, "href=\""@) && !self.url.contains('"')
    }

    /// Whether the link leads somewhere over HTTP, and none of the strings stands in it.
    pub open spec fn is_result(self, needles: Seq<Seq<char>>) -> bool {
        &&& starts_with(self.url, "http://"@) || starts_with(self.url, "https://"@)
        &&& forall|i: int|
            0 <= i < needles.len() ==> !contains(ascii_lower(self.url), #[trigger] needles[i])
    }
}

pub open spec fn result_page(links: Seq<WrittenLink>) -> Seq<char>
    decreases links.len(),
{
    if links.len() == 0 {
        Seq::empty()
    } else {
        links[0].text() + result_page(links.skip(1))
    }
}

pub open spec fn links_are_clear(links: Seq<WrittenLink>) -> bool {
    forall|i: int| 0 <= i < links.len() ==> (#[trigger] links[i]).is_clear()
}

/// Whether the hits are links of the page, in their order, at these places.
pub open spec fn stand_at(hits: Seq<HitView>, links: Seq<WrittenLink>, at: Seq<int>) -> bool {
    &&& hits.len() == at.len()
    &&& are_places(at, links.len())
    &&& forall|k: int| 0 <= k < at.len() ==> hits[k].url == links[#[trigger] at[k]].url
}

/// Whether one of the hits leads to this URL.
pub open spec fn leads_to(hits: Seq<HitView>, url: Seq<char>) -> bool {
    exists|k: int| 0 <= k < hits.len() && (#[trigger] hits[k]).url == url
}

/// Whether the hits are the results among the links, in their order: every result is one, unless
/// as many as are wanted stand in front of it.
pub open spec fn are_results(
    hits: Seq<HitView>,
    links: Seq<WrittenLink>,
    needles: Seq<Seq<char>>,
    max: nat,
) -> bool {
    &&& hits.len() <= max
    &&& exists|at: Seq<int>|
        {
            &&& #[trigger] stand_at(hits, links, at)
            &&& forall|k: int|
                0 <= k < at.len() ==> links[#[trigger] at[k]].is_result(needles)
            &&& forall|i: int|
                0 <= i < links.len() && (#[trigger] links[i]).is_result(needles) ==> leads_to(
                    hits,
                    links[i].url,
                ) || (hits.len() == max && forall|k: int|
                    0 <= k < at.len() ==> #[trigger] at[k] < i)
        }
}

proof fn lemma_href()
    ensures
        starts_once("href=\""@),
        "href=\""@.len() == 6,
        "\""@ == seq!['"'],
{
    reveal_strlit("href=\"");
    reveal_strlit("\"");
    assert("\""@ =~= seq!['"']);
}

proof fn lemma_wanted(url: Seq<char>, gap: Seq<char>, needles: Seq<Seq<char>>, hits: Seq<HitView>)
    ensures
        is_wanted(url, needles, hits) == ((WrittenLink { gap, url }).is_result(needles)
            && !leads_to(hits, url)),
        has_url(hits, url) == leads_to(hits, url),
{
    if holds_any(url, needles) {
        let i = choose|i: int|
            0 <= i < needles.len() && contains(ascii_lower(url), #[trigger] needles[i]);
        assert(contains(ascii_lower(url), needles[i]));
    }
}

/// One link more is taken in if it is a result that is not among the hits.
proof fn lemma_one_link_more(
    hits: Seq<HitView>,
    links: Seq<WrittenLink>,
    needles: Seq<Seq<char>>,
    max: nat,
    link: WrittenLink,
    hit: HitView,
)
    requires
        are_results(hits, links, needles, max),
        hits.len() < max,
        hit.url == link.url,
    ensures
        are_results(
            if link.is_result(needles) && !leads_to(hits, link.url) {
                hits.push(hit)
            } else {
                hits
            },
            links.push(link),
            needles,
            max,
        ),
{
    let at = choose|at: Seq<int>|
        {
            &&& #[trigger] stand_at(hits, links, at)
            &&& forall|k: int|
                0 <= k < at.len() ==> links[#[trigger] at[k]].is_result(needles)
            &&& forall|i: int|
                0 <= i < links.len() && (#[trigger] links[i]).is_result(needles) ==> leads_to(
                    hits,
                    links[i].url,
                ) || (hits.len() == max && forall|k: int|
                    0 <= k < at.len() ==> #[trigger] at[k] < i)
        };
    let more = links.push(link);
    let n = links.len() as int;
    if link.is_result(needles) && !leads_to(hits, link.url) {
        let r = hits.push(hit);
        let places = at.push(n);
        assert(stand_at(r, more, places)) by {
            assert forall|k: int| 0 <= k < places.len() implies r[k].url == more[
                #[trigger] places[k]].url by {
                if k < at.len() {
                    assert(places[k] == at[k]);
                }
            }
        }
        assert forall|k: int| 0 <= k < places.len() implies more[#[trigger] places[k]].is_result(
            needles,
        ) by {
            if k < at.len() {
                assert(places[k] == at[k]);
                assert(links[at[k]].is_result(needles));
            }
        }
        assert forall|i: int| 0 <= i < more.len() && (#[trigger] more[i]).is_result(needles) implies
            leads_to(r, more[i].url) by {
            if i < n {
                assert(more[i] == links[i]);
                let k = choose|k: int|
                    0 <= k < hits.len() && (#[trigger] hits[k]).url == links[i].url;
                assert(r[k].url == more[i].url);
            } else {
                assert(r[hits.len() as int].url == more[i].url);
            }
        }
    } else {
        assert(stand_at(hits, more, at)) by {
            assert forall|k: int| 0 <= k < at.len() implies hits[k].url == more[
                #[trigger] at[k]].url by {
                assert(more[at[k]] == links[at[k]]);
            }
        }
        assert forall|k: int| 0 <= k < at.len() implies more[#[trigger] at[k]].is_result(
            needles,
        ) by {
            assert(links[at[k]].is_result(needles));
        }
        assert forall|i: int| 0 <= i < more.len() && (#[trigger] more[i]).is_result(needles) implies
            leads_to(hits, more[i].url) by {
            if i < n {
                assert(more[i] == links[i]);
            }
        }
    }
}

/// Where as many are found as are wanted, links that follow change nothing.
proof fn lemma_full_stays(
    hits: Seq<HitView>,
    links: Seq<WrittenLink>,
    rest: Seq<WrittenLink>,
    needles: Seq<Seq<char>>,
    max: nat,
)
    requires
        are_results(hits, links, needles, max),
        hits.len() == max,
    ensures
        are_results(hits, links + rest, needles, max),
{
    let at = choose|at: Seq<int>|
        {
            &&& #[trigger] stand_at(hits, links, at)
            &&& forall|k: int|
                0 <= k < at.len() ==> links[#[trigger] at[k]].is_result(needles)
            &&& forall|i: int|
                0 <= i < links.len() && (#[trigger] links[i]).is_result(needles) ==> leads_to(
                    hits,
                    links[i].url,
                ) || (hits.len() == max && forall|k: int|
                    0 <= k < at.len() ==> #[trigger] at[k] < i)
        };
    let all = links + rest;
    assert(stand_at(hits, all, at)) by {
        assert forall|k: int| 0 <= k < at.len() implies hits[k].url == all[#[trigger] at[k]].url by {
            assert(all[at[k]] == links[at[k]]);
        }
    }
    assert forall|k: int| 0 <= k < at.len() implies all[#[trigger] at[k]].is_result(needles) by {
        assert(links[at[k]].is_result(needles));
    }
    assert forall|i: int| 0 <= i < all.len() && (#[trigger] all[i]).is_result(needles) implies
        leads_to(hits, all[i].url) || (hits.len() == max && forall|k: int|
        0 <= k < at.len() ==> #[trigger] at[k] < i) by {
        if i < links.len() {
            assert(all[i] == links[i]);
        }
    }
}

proof fn lemma_first_link_is_read(
    before: Seq<char>,
    link: WrittenLink,
    after: Seq<char>,
    needles: Seq<Seq<char>>,
    max: nat,
    hits: Seq<HitView>,
)
    requires
        link.is_clear(),
        hits.len() < max,
    ensures
        ({
            let page = before + link.text() + after;
            let end = before.len() + link.text().len() - 1;
            links_from(page, before.len() as int, needles, max, hits) == links_from(
                page,
                end + 1,
                needles,
                max,
                if link.is_result(needles) && !leads_to(hits, link.url) {
                    hits.push(hit_at(page, end, link.url))
                } else {
                    hits
                },
            )
        }),
{
    lemma_href();
    let page = before + link.text() + after;
    let open = "href=\""@;
    lemma_find_behind(before, link.gap, open, link.url + "\""@ + after);
    assert(page =~= before + link.gap + open + (link.url + "\""@ + after));
    let head = before + link.gap + open;
    lemma_find_char_behind(head, link.url, '"', after);
    assert(page =~= head + link.url + seq!['"'] + after);
    let k = (before.len() + link.gap.len()) as int;
    let end = k + 6 + link.url.len();
    assert(find_from(page, open, before.len() as int) == Some(k));
    assert(find_char_from(page, '"', k + 6) == Some(end));
    assert(page.subrange(k + 6, end) =~= link.url);
    lemma_wanted(link.url, link.gap, needles, hits);
}

proof fn lemma_results_are_read(
    before: Seq<char>,
    done: Seq<WrittenLink>,
    links: Seq<WrittenLink>,
    tail: Seq<char>,
    needles: Seq<Seq<char>>,
    max: nat,
    hits: Seq<HitView>,
)
    requires
        links_are_clear(links),
        !contains(tail, "href=\""@),
        are_results(hits, done, needles, max),
    ensures
        are_results(
            links_from(
                before + result_page(links) + tail,
                before.len() as int,
                needles,
                max,
                hits,
            ),
            done + links,
            needles,
            max,
        ),
    decreases links.len(),
{
    let page = before + result_page(links) + tail;
    if hits.len() == max {
        lemma_full_stays(hits, done, links, needles, max);
    } else if links.len() == 0 {
        assert(page =~= before + tail);
        lemma_find_no_more(before, tail, "href=\""@);
        assert(done + links =~= done);
    } else {
        let link = links[0];
        let rest = links.skip(1);
        let after = result_page(rest) + tail;
        assert(link.is_clear());
        assert(page =~= before + link.text() + after);
        lemma_first_link_is_read(before, link, after, needles, max, hits);
        let end = before.len() + link.text().len() - 1;
        let hit = hit_at(page, end, link.url);
        lemma_one_link_more(hits, done, needles, max, link, hit);
        let more = if link.is_result(needles) && !leads_to(hits, link.url) {
            hits.push(hit)
        } else {
            hits
        };
        assert(links_are_clear(rest)) by {
            assert forall|i: int| 0 <= i < rest.len() implies (#[trigger] rest[i]).is_clear() by {
                assert(rest[i] == links[i + 1]);
            }
        }
        let passed = before + link.text();
        lemma_results_are_read(passed, done.push(link), rest, tail, needles, max, more);
        assert(passed + result_page(rest) + tail =~= page);
        assert(done.push(link) + rest =~= done + links);
    }
}

/// No result is lost: each URL over HTTP in a link of the page that holds none of the strings is
/// the URL of a hit, unless as many hits as are wanted stand in front of it; and the hits come in
/// the order of the page.
pub proof fn lemma_no_result_is_lost(
    links: Seq<WrittenLink>,
    tail: Seq<char>,
    needles: Seq<Seq<char>>,
    max: nat,
)
    requires
        links_are_clear(links),
        !contains(tail, "href=\""@),
    ensures
        are_results(
            links_from(result_page(links) + tail, 0, needles, max, Seq::empty()),
            links,
            needles,
            max,
        ),
{
    let none = Seq::<HitView>::empty();
    let no_links = Seq::<WrittenLink>::empty();
    assert(stand_at(none, no_links, Seq::empty()));
    assert(are_results(none, no_links, needles, max));
    lemma_results_are_read(Seq::empty(), no_links, links, tail, needles, max, none);
    assert(Seq::<char>::empty() + result_page(links) + tail =~= result_page(links) + tail);
    assert(no_links + links =~= links);
}

/// Whether a text holds no tag, nor the beginning or end of one.
pub open spec fn is_tagless(s: Seq<char>) -> bool {
    !s.contains('<') && !s.contains('>')
}

/// A tag is dropped, and what stands around it is kept.
pub proof fn lemma_tags_are_dropped(a: Seq<char>, tag: Seq<char>, b: Seq<char>)
    requires
        is_tagless(a),
        is_tagless(tag),
    ensures
        untagged(a + seq!['<'] + tag + seq!['>'] + b, false) == a + untagged(b, false),
        untagged(a, false) == a,
{
    let rest = tag + seq!['>'] + b;
    lemma_tagless_stays(a, seq!['<'] + rest);
    assert(a + seq!['<'] + tag + seq!['>'] + b =~= a + (seq!['<'] + rest));
    assert((seq!['<'] + rest).skip(1) =~= rest);
    lemma_inside_is_dropped(tag, b);
    lemma_tagless_stays(a, Seq::empty());
    assert(a + Seq::<char>::empty() =~= a);
}

proof fn lemma_tagless_stays(a: Seq<char>, b: Seq<char>)
    requires
        is_tagless(a),
    ensures
        untagged(a + b, false) == a + untagged(b, false),
    decreases a.len(),
{
    if a.len() == 0 {
        assert(a + b =~= b);
        assert(a + untagged(b, false) =~= untagged(b, false));
    } else {
        assert(a.contains(a[0]));
        assert(is_tagless(a.skip(1))) by {
            assert forall|c: char| a.skip(1).contains(c) implies a.contains(c) by {
                let k = choose|k: int| 0 <= k < a.skip(1).len() && a.skip(1)[k] == c;
                assert(a[k + 1] == c);
            }
        }
        lemma_tagless_stays(a.skip(1), b);
        assert((a + b).skip(1) =~= a.skip(1) + b);
        assert(seq![a[0]] + (a.skip(1) + untagged(b, false)) =~= a + untagged(b, false));
    }
}

proof fn lemma_inside_is_dropped(tag: Seq<char>, b: Seq<char>)
    requires
        is_tagless(tag),
    ensures
        untagged(tag + seq!['>'] + b, true) == untagged(b, false),
    decreases tag.len(),
{
    let s = tag + seq!['>'] + b;
    if tag.len() == 0 {
        assert(s[0] == '>');
        assert(s.skip(1) =~= b);
    } else {
        assert(tag.contains(tag[0]));
        assert(is_tagless(tag.skip(1))) by {
            assert forall|c: char| tag.skip(1).contains(c) implies tag.contains(c) by {
                let k = choose|k: int| 0 <= k < tag.skip(1).len() && tag.skip(1)[k] == c;
                assert(tag[k + 1] == c);
            }
        }
        lemma_inside_is_dropped(tag.skip(1), b);
        assert(s.skip(1) =~= tag.skip(1) + seq!['>'] + b);
    }
}

proof fn lemma_short_prefix(s: Seq<char>, max: nat)
    requires
        utf8_len(s) <= max,
    ensures
        byte_prefix(s, max) == s,
{
    lemma_byte_prefix(s, max);
    let n = byte_prefix(s, max).len() as int;
    if n < s.len() {
        lemma_utf8_len_push(s.take(n), s[n]);
        assert(s.take(n).push(s[n]) =~= s.take(n + 1));
        lemma_utf8_len_take(s, n + 1);
    } else {
        assert(s.take(n) =~= s);
    }
}

proof fn lemma_nothing_to_replace(s: Seq<char>, from: Seq<char>, to: Seq<char>)
    requires
        from.len() > 0,
        from[0] == '&',
        !s.contains('&'),
    ensures
        replace(s, from, to) == s,
{
    lemma_find_bounds(s, from, 0);
    if let Some(k) = find(s, from) {
        assert(s.subrange(k, k + from.len())[0] == s[k]);
        assert(s.contains(s[k]));
    }
}

proof fn lemma_plain_stays(s: Seq<char>)
    requires
        !s.contains('&'),
    ensures
        unescaped(s) == s,
{
    reveal_strlit("&amp;");
    reveal_strlit("&lt;");
    reveal_strlit("&gt;");
    reveal_strlit("&quot;");
    reveal_strlit("&#39;");
    lemma_nothing_to_replace(s, "&amp;"@, "&"@);
    lemma_nothing_to_replace(s, "&lt;"@, "<"@);
    lemma_nothing_to_replace(s, "&gt;"@, ">"@);
    lemma_nothing_to_replace(s, "&quot;"@, "\""@);
    lemma_nothing_to_replace(s, "&#39;"@, "'"@);
}

/// The title of a hit is made of the words of its link, twelve at most, and its snippet of the same
/// words, forty at most; a link without a word has its URL for a title. The quote that ends the URL
/// counts as a part of the text behind it.
pub proof fn lemma_hit_has_the_words_of_its_link(
    before: Seq<char>,
    url: Seq<char>,
    text: Seq<char>,
    tag: Seq<char>,
)
    requires
        is_tagless(text),
        is_tagless(tag),
        !text.contains('&'),
        utf8_len(seq!['"', '>'] + text + seq!['<'] + tag + seq!['>']) <= 400,
    ensures
        ({
            let page = before + (seq!['"', '>'] + text + seq!['<'] + tag + seq!['>']);
            let hit = hit_at(page, before.len() as int, url);
            let said = words(seq!['"'] + text);
            &&& hit.url == url
            &&& hit.snippet == join(first_strs(said, 40), " "@)
            &&& hit.title == if join(first_strs(said, 12), " "@).len() > 0 {
                join(first_strs(said, 12), " "@)
            } else {
                url
            }
        }),
{
    let rest = seq!['"', '>'] + text + seq!['<'] + tag + seq!['>'];
    let page = before + rest;
    assert(page.skip(before.len() as int) =~= rest);
    lemma_short_prefix(rest, 400);
    let none = Seq::<char>::empty();
    lemma_tags_are_dropped(text, tag, none);
    let body = text + seq!['<'] + tag + seq!['>'];
    assert(body =~= text + seq!['<'] + tag + seq!['>'] + none);
    assert(untagged(body, false) =~= text);
    assert(rest[0] == '"' && rest[1] == '>');
    assert(rest.skip(1)[0] == '>');
    assert(rest.skip(1).skip(1) =~= body);
    assert(untagged(rest.skip(1), false) == text);
    assert(untagged(rest, false) == seq!['"'] + text);
    assert(!(seq!['"'] + text).contains('&')) by {
        if (seq!['"'] + text).contains('&') {
            let k = choose|k: int|
                0 <= k < (seq!['"'] + text).len() && (seq!['"'] + text)[k] == '&';
            assert(text[k - 1] == '&');
        }
    }
    lemma_plain_stays(seq!['"'] + text);
}

} // verus!
