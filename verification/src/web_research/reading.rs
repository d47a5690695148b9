//! What is taken from the text of a page: quotes, claims, and links to other pages.
use crate::text::{
    ellipsize, ellipsized, find_char_from, find_char_in, first_strs, from_chars, is_whitespace,
    is_ws, lemma_find_char_bounds, lines, lines_str, stands_at, starts_with, starts_with_str,
    strip_prefix_str, take_strs, to_chars, trim, trim_str, views, without_leading,
    without_leading_str, without_trailing, words, words_str,
};
use vstd::prelude::*;

verus! {

/// How many claims are taken from one page.
pub const MAX_PAGE_CLAIMS: usize = 3;

/// How long a claim is.
pub const MAX_CLAIM_CHARS: usize = 240;

/// Whether a line can be quoted.
pub open spec fn is_quotable(line: Seq<char>) -> bool {
    let t = trim(line);
    &&& t.len() > 40
    &&& !starts_with(t, "#"@)
    &&& !starts_with(t, "```"@)
}

/// What the lines that can be quoted say.
pub open spec fn quotable(all: Seq<Seq<char>>, max_chars: nat) -> Seq<Seq<char>>
    decreases all.len(),
{
    if all.len() == 0 {
        Seq::empty()
    } else {
        let before = quotable(all.drop_last(), max_chars);
        if is_quotable(all.last()) {
            before.push(ellipsized(trim(all.last()), max_chars))
        } else {
            before
        }
    }
}

/// The quotes that are taken from a page.
pub open spec fn quotes_of(markdown: Seq<char>, max_quotes: nat, max_chars: nat) -> Seq<Seq<char>> {
    first_strs(quotable(lines(markdown), max_chars), max_quotes)
}

/// The first lines of a page that say something.
pub fn extract_quotes(markdown: &str, max_quotes: usize, max_chars: usize) -> (r: Vec<String>)
    ensures
        views(r@) == quotes_of(markdown@, max_quotes as nat, max_chars as nat),
{
    let text = lines_str(markdown);
    let ghost all = views(text@);
    let mut found: Vec<String> = Vec::new();
    let mut i: usize = 0;
    assert(all.take(0) =~= Seq::<Seq<char>>::empty());
    assert(views(found@) =~= Seq::<Seq<char>>::empty());
    while i < text.len()
        invariant
            i <= text@.len(),
            all == views(text@),
            views(found@) == quotable(all.take(i as int), max_chars as nat),
        decreases text@.len() - i,
    {
        let ghost before = views(found@);
        assert(all.take(i + 1).drop_last() =~= all.take(i as int));
        assert(all.take(i + 1).last() == text@[i as int]@);
        let t = trim_str(text[i].as_str());
        let chars = to_chars(t.as_str());
        if chars.len() > 40 && !starts_with_str(t.as_str(), "#") && !starts_with_str(
            t.as_str(),
            "```",
        ) {
            let q = ellipsize(t.as_str(), max_chars);
            let ghost quote = q@;
            found.push(q);
            assert(views(found@) =~= before.push(quote));
        }
        i = i + 1;
    }
    assert(all.take(text@.len() as int) =~= all);
    take_strs(&found, max_quotes)
}

/// What a heading says, if it says anything to speak of.
pub open spec fn heading_claim(line: Seq<char>) -> Option<Seq<char>> {
    let t = trim(line);
    if starts_with(t, "#"@) {
        let text = trim(without_leading(t.skip(1), '#'));
        if text.len() > 8 {
            Some(ellipsized(text, MAX_CLAIM_CHARS as nat))
        } else {
            None
        }
    } else {
        None
    }
}

/// What a line says, if it says anything to speak of.
pub open spec fn line_claim(line: Seq<char>) -> Option<Seq<char>> {
    let t = trim(line);
    if t.len() > 60 && !starts_with(t, "|"@) && !starts_with(t, "```"@) {
        Some(ellipsized(t, MAX_CLAIM_CHARS as nat))
    } else {
        None
    }
}

/// What the headings say.
pub open spec fn heading_claims(all: Seq<Seq<char>>) -> Seq<Seq<char>>
    decreases all.len(),
{
    if all.len() == 0 {
        Seq::empty()
    } else {
        match heading_claim(all.last()) {
            Some(c) => heading_claims(all.drop_last()).push(c),
            None => heading_claims(all.drop_last()),
        }
    }
}

/// What the lines say.
pub open spec fn line_claims(all: Seq<Seq<char>>) -> Seq<Seq<char>>
    decreases all.len(),
{
    if all.len() == 0 {
        Seq::empty()
    } else {
        match line_claim(all.last()) {
            Some(c) => line_claims(all.drop_last()).push(c),
            None => line_claims(all.drop_last()),
        }
    }
}

/// What the text of a page says: what its headings say, then what its lines say, a few at most.
pub open spec fn page_claims(markdown: Seq<char>) -> Seq<Seq<char>> {
    let all = lines(markdown);
    first_strs(heading_claims(all) + line_claims(all), MAX_PAGE_CLAIMS as nat)
}

/// What stands behind what a page says: its text, or only what was said when it was found.
pub open spec fn confidence_of(markdown: Seq<char>) -> Seq<char> {
    if page_claims(markdown).len() > 0 {
        "fetched"@
    } else {
        "snippet"@
    }
}

/// What a page says: what its text says; where that is nothing, what was said when it was found.
pub open spec fn claims_of(markdown: Seq<char>, snippet: Seq<char>) -> Seq<Seq<char>> {
    let said = page_claims(markdown);
    if said.len() == 0 && trim(snippet).len() > 0 {
        seq![ellipsized(snippet, MAX_CLAIM_CHARS as nat)]
    } else {
        said
    }
}

fn read_heading_claim(line: &str) -> (r: Option<String>)
    ensures
        match r {
            Some(c) => heading_claim(line@) == Some(c@),
            None => heading_claim(line@) is None,
        },
{
    proof {
        reveal_strlit("#");
    }
    let t = trim_str(line);
    match strip_prefix_str(t.as_str(), "#") {
        Some(rest) => {
            let text = trim_str(without_leading_str(rest.as_str(), '#').as_str());
            if to_chars(text.as_str()).len() > 8 {
                Some(ellipsize(text.as_str(), MAX_CLAIM_CHARS))
            } else {
                None
            }
        },
        None => None,
    }
}

fn read_line_claim(line: &str) -> (r: Option<String>)
    ensures
        match r {
            Some(c) => line_claim(line@) == Some(c@),
            None => line_claim(line@) is None,
        },
{
    let t = trim_str(line);
    if to_chars(t.as_str()).len() > 60 && !starts_with_str(t.as_str(), "|") && !starts_with_str(
        t.as_str(),
        "```",
    ) {
        Some(ellipsize(t.as_str(), MAX_CLAIM_CHARS))
    } else {
        None
    }
}

/// What a page says, and what stands behind it; `snippet` is what was said when it was found.
pub fn extract_claims(markdown: &str, snippet: &str) -> (r: (Vec<String>, &'static str))
    ensures
        views(r.0@) == claims_of(markdown@, snippet@),
        r.1@ == confidence_of(markdown@),
{
    let text = lines_str(markdown);
    let n: usize = text.len();
    let ghost all = views(text@);
    let mut found: Vec<String> = Vec::new();
    let mut i: usize = 0;
    assert(all.take(0) =~= Seq::<Seq<char>>::empty());
    assert(views(found@) =~= Seq::<Seq<char>>::empty());
    while i < n
        invariant
            i <= n,
            n == text@.len(),
            all == views(text@),
            views(found@) == heading_claims(all.take(i as int)),
        decreases n - i,
    {
        let ghost before = views(found@);
        assert(all.take(i + 1).drop_last() =~= all.take(i as int));
        assert(all.take(i + 1).last() == text@[i as int]@);
        match read_heading_claim(text[i].as_str()) {
            Some(c) => {
                let ghost claim = c@;
                found.push(c);
                assert(views(found@) =~= before.push(claim));
            },
            None => {},
        }
        i = i + 1;
    }
    assert(all.take(n as int) =~= all);
    let ghost headings = views(found@);
    i = 0;
    assert(headings + line_claims(all.take(0)) =~= headings);
    while i < n
        invariant
            i <= n,
            n == text@.len(),
            all == views(text@),
            views(found@) == headings + line_claims(all.take(i as int)),
        decreases n - i,
    {
        let ghost before = views(found@);
        assert(all.take(i + 1).drop_last() =~= all.take(i as int));
        assert(all.take(i + 1).last() == text@[i as int]@);
        match read_line_claim(text[i].as_str()) {
            Some(c) => {
                let ghost claim = c@;
                found.push(c);
                assert(views(found@) =~= before.push(claim));
                assert(before.push(claim) =~= headings + line_claims(all.take(i as int)).push(
                    claim,
                ));
            },
            None => {},
        }
        i = i + 1;
    }
    assert(all.take(n as int) =~= all);
    let mut r = take_strs(&found, MAX_PAGE_CLAIMS);
    assert(views(r@).len() == r@.len());
    if r.len() > 0 {
        return (r, "fetched");
    }
    if !trim_str(snippet).as_str().is_empty() {
        r.push(ellipsize(snippet, MAX_CLAIM_CHARS));
        assert(views(r@) =~= seq![ellipsized(snippet@, MAX_CLAIM_CHARS as nat)]);
    }
    (r, "snippet")
}

/// A page makes no more claims than are taken from one, and each of them is short.
pub proof fn lemma_claims_are_few_and_short(markdown: Seq<char>, snippet: Seq<char>)
    ensures
        claims_of(markdown, snippet).len() <= MAX_PAGE_CLAIMS,
        forall|i: int|
            0 <= i < claims_of(markdown, snippet).len() ==> (#[trigger] claims_of(
                markdown,
                snippet,
            )[i]).len() <= MAX_CLAIM_CHARS,
{
    let all = lines(markdown);
    lemma_short(all);
    let both = heading_claims(all) + line_claims(all);
    let claims = claims_of(markdown, snippet);
    assert forall|i: int| 0 <= i < claims.len() implies (#[trigger] claims[i]).len()
        <= MAX_CLAIM_CHARS by {
        if first_strs(both, MAX_PAGE_CLAIMS as nat).len() > 0 {
            assert(claims[i] == both[i]);
            if i < heading_claims(all).len() {
                assert(both[i] == heading_claims(all)[i]);
            } else {
                assert(both[i] == line_claims(all)[i - heading_claims(all).len()]);
            }
        }
    }
}

proof fn lemma_short(all: Seq<Seq<char>>)
    ensures
        forall|i: int|
            0 <= i < heading_claims(all).len() ==> (#[trigger] heading_claims(all)[i]).len()
                <= MAX_CLAIM_CHARS,
        forall|i: int|
            0 <= i < line_claims(all).len() ==> (#[trigger] line_claims(all)[i]).len()
                <= MAX_CLAIM_CHARS,
    decreases all.len(),
{
    if all.len() > 0 {
        lemma_short(all.drop_last());
        let h = heading_claims(all);
        let l = line_claims(all);
        assert forall|i: int| 0 <= i < h.len() implies (#[trigger] h[i]).len()
            <= MAX_CLAIM_CHARS by {
            if i < heading_claims(all.drop_last()).len() {
                assert(h[i] == heading_claims(all.drop_last())[i]);
            }
        }
        assert forall|i: int| 0 <= i < l.len() implies (#[trigger] l[i]).len()
            <= MAX_CLAIM_CHARS by {
            if i < line_claims(all.drop_last()).len() {
                assert(l[i] == line_claims(all.drop_last())[i]);
            }
        }
    }
}

// ---------------------------------------------------------------------------
// Links
// ---------------------------------------------------------------------------

/// Whether a text is a URL over HTTP.
pub open spec fn is_web_link(s: Seq<char>) -> bool {
    starts_with(s, "http://"@) || starts_with(s, "https://"@)
}

/// What stands in the brackets of a link: its first word.
pub open spec fn link_word(s: Seq<char>) -> Seq<char> {
    let all = words(trim(s));
    if all.len() > 0 {
        all[0]
    } else {
        trim(s)
    }
}

/// Whether a character ends a URL that stands in a text.
pub open spec fn ends_url(c: char) -> bool {
    is_ws(c) || c == ')' || c == ']' || c == '"' || c == '\''
}

/// Where a URL ends that stands in a text, at `i` or behind it.
pub open spec fn url_end(s: Seq<char>, i: int) -> int
    decreases s.len() - i,
{
    if i < 0 || i >= s.len() || ends_url(s[i]) {
        i
    } else {
        url_end(s, i + 1)
    }
}

/// A link in brackets that starts at `i`, if one does: where its bracket closes.
pub open spec fn bracket_at(s: Seq<char>, i: int) -> Option<int> {
    if s[i] == ']' && s[i + 1] == '(' {
        find_char_from(s, ')', i + 2)
    } else {
        None
    }
}

/// The found links, and those that stand in a text from `i` on.
pub open spec fn links_in(s: Seq<char>, i: int, max: nat, found: Seq<Seq<char>>) -> Seq<Seq<char>>
    decreases s.len() - i,
    when 0 <= i
    via links_in_decreases
{
    if i + 1 >= s.len() || found.len() >= max {
        found
    } else {
        match bracket_at(s, i) {
            Some(end) => {
                let link = link_word(s.subrange(i + 2, end));
                links_in(
                    s,
                    end + 1,
                    max,
                    if is_web_link(link) {
                        found.push(link)
                    } else {
                        found
                    },
                )
            },
            None => if is_web_link(s.skip(i)) {
                let end = url_end(s, i);
                links_in(
                    s,
                    end,
                    max,
                    found.push(without_trailing(s.subrange(i, end), seq!['.', ',', ';'])),
                )
            } else {
                links_in(s, i + 1, max, found)
            },
        }
    }
}

#[via_fn]
proof fn links_in_decreases(s: Seq<char>, i: int, max: nat, found: Seq<Seq<char>>) {
    lemma_find_char_bounds(s, ')', i + 2);
    lemma_url_end(s, i);
    if i < s.len() && is_web_link(s.skip(i)) {
        lemma_web_link_starts(s, i);
    }
}

proof fn lemma_web_link_starts(s: Seq<char>, i: int)
    requires
        0 <= i < s.len(),
        is_web_link(s.skip(i)),
    ensures
        s[i] == 'h',
        !ends_url(s[i]),
{
    reveal_strlit("http://");
    reveal_strlit("https://");
    let rest = s.skip(i);
    if starts_with(rest, "http://"@) {
        assert(rest.take(7)[0] == 'h');
    } else {
        assert(rest.take(8)[0] == 'h');
    }
    assert(rest[0] == s[i]);
}

proof fn lemma_url_end(s: Seq<char>, i: int)
    ensures
        i <= url_end(s, i),
        0 <= i <= s.len() ==> url_end(s, i) <= s.len(),
        0 <= i < s.len() && !ends_url(s[i]) ==> i < url_end(s, i),
    decreases s.len() - i,
{
    if 0 <= i < s.len() && !ends_url(s[i]) {
        lemma_url_end(s, i + 1);
    }
}

fn find_url_end(v: &Vec<char>, from: usize) -> (r: usize)
    requires
        from <= v@.len(),
    ensures
        r == url_end(v@, from as int),
        from <= r <= v@.len(),
{
    let mut i: usize = from;
    while i < v.len()
        invariant
            from <= i <= v@.len(),
            url_end(v@, i as int) == url_end(v@, from as int),
        decreases v@.len() - i,
    {
        let c = v[i];
        if is_whitespace(c) || c == ')' || c == ']' || c == '"' || c == '\'' {
            return i;
        }
        i = i + 1;
    }
    i
}

fn bare_url(v: &Vec<char>, from: usize, to: usize) -> (r: String)
    requires
        from <= to <= v@.len(),
    ensures
        r@ == without_trailing(v@.subrange(from as int, to as int), seq!['.', ',', ';']),
{
    let ghost cs = seq!['.', ',', ';'];
    let mut end: usize = to;
    while end > from && (v[end - 1] == '.' || v[end - 1] == ',' || v[end - 1] == ';')
        invariant
            from <= end <= to <= v@.len(),
            cs == seq!['.', ',', ';'],
            without_trailing(v@.subrange(from as int, end as int), cs) == without_trailing(
                v@.subrange(from as int, to as int),
                cs,
            ),
        decreases end,
    {
        let ghost s = v@.subrange(from as int, end as int);
        assert(s.last() == v@[end - 1]);
        assert(cs[0] == '.' && cs[1] == ',' && cs[2] == ';');
        assert(cs.contains(s.last()));
        assert(s.drop_last() =~= v@.subrange(from as int, end - 1));
        end = end - 1;
    }
    proof {
        let s = v@.subrange(from as int, end as int);
        if s.len() > 0 && cs.contains(s.last()) {
            let k = choose|k: int| 0 <= k < cs.len() && cs[k] == s.last();
            assert(k == 0 || k == 1 || k == 2);
        }
    }
    from_chars(v, from, end)
}

/// The links that stand in a text, in brackets or as they are, `max_links` at most.
pub fn extract_markdown_links(markdown: &str, max_links: usize) -> (r: Vec<String>)
    ensures
        views(r@) == links_in(markdown@, 0, max_links as nat, Seq::empty()),
{
    let v = to_chars(markdown);
    let n: usize = v.len();
    let http = to_chars("http://");
    let https = to_chars("https://");
    let ghost wanted = links_in(markdown@, 0, max_links as nat, Seq::empty());
    proof {
        reveal_strlit("http://");
        reveal_strlit("https://");
    }
    let mut links: Vec<String> = Vec::new();
    let mut i: usize = 0;
    assert(views(links@) =~= Seq::<Seq<char>>::empty());
    while i < n && n - i > 1 && links.len() < max_links
        invariant
            v@ == markdown@,
            n == v@.len(),
            i <= n,
            http@ == "http://"@,
            https@ == "https://"@,
            http@.len() == 7,
            https@.len() == 8,
            wanted == links_in(markdown@, 0, max_links as nat, Seq::empty()),
            links_in(v@, i as int, max_links as nat, views(links@)) == wanted,
        decreases n - i,
    {
        let ghost before = views(links@);
        assert(before.len() == links@.len());
        let bracket: Option<usize> = if v[i] == ']' && v[i + 1] == '(' {
            find_char_in(&v, ')', i + 2)
        } else {
            None
        };
        match bracket {
            Some(end) => {
                let inside = trim_str(from_chars(&v, i + 2, end).as_str());
                let mut all = words_str(inside.as_str());
                let ghost ws = views(all@);
                assert(ws.len() == all@.len());
                let link = if all.len() > 0 {
                    assert(ws[0] == all@[0]@);
                    all[0].clone()
                } else {
                    inside
                };
                let ghost l = link@;
                assert(l == link_word(v@.subrange(i + 2, end as int)));
                if starts_with_str(link.as_str(), "http://") || starts_with_str(
                    link.as_str(),
                    "https://",
                ) {
                    links.push(link);
                    assert(views(links@) =~= before.push(l));
                }
                i = end + 1;
            },
            None => {
                let web = stands_at(&v, i, &https) || stands_at(&v, i, &http);
                proof {
                    let rest = v@.skip(i as int);
                    if i + 8 <= n {
                        assert(rest.take(8) =~= v@.subrange(i as int, i + 8));
                    }
                    if i + 7 <= n {
                        assert(rest.take(7) =~= v@.subrange(i as int, i + 7));
                    }
                    assert(web == is_web_link(rest));
                }
                if web {
                    proof {
                        lemma_web_link_starts(v@, i as int);
                        lemma_url_end(v@, i as int);
                    }
                    let end: usize = find_url_end(&v, i);
                    let link = bare_url(&v, i, end);
                    let ghost l = link@;
                    links.push(link);
                    assert(views(links@) =~= before.push(l));
                    i = end;
                } else {
                    i = i + 1;
                }
            },
        }
    }
    links
}

/// No more links are taken from a page than are wanted.
pub proof fn lemma_links_are_few(s: Seq<char>, i: int, max: nat, found: Seq<Seq<char>>)
    requires
        0 <= i,
        found.len() <= max,
    ensures
        links_in(s, i, max, found).len() <= max,
    decreases s.len() - i,
{
    lemma_find_char_bounds(s, ')', i + 2);
    if i + 1 < s.len() && found.len() < max {
        lemma_url_end(s, i);
        match bracket_at(s, i) {
            Some(end) => {
                let link = link_word(s.subrange(i + 2, end));
                lemma_links_are_few(
                    s,
                    end + 1,
                    max,
                    if is_web_link(link) {
                        found.push(link)
                    } else {
                        found
                    },
                );
            },
            None => {
                if is_web_link(s.skip(i)) {
                    lemma_web_link_starts(s, i);
                    let end = url_end(s, i);
                    lemma_links_are_few(
                        s,
                        end,
                        max,
                        found.push(without_trailing(s.subrange(i, end), seq!['.', ',', ';'])),
                    );
                } else {
                    lemma_links_are_few(s, i + 1, max, found);
                }
            },
        }
    }
}

} // verus!
