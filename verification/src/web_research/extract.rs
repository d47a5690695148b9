//! What is read from a page.
use crate::bytes::read_utf8;
use crate::json::{pretty_json, pretty_printed};
use crate::text::{
    ascii_lower, ascii_lower_str, bytes_exceed, contains, contains_str, from_chars, join, join_strs,
    lines, lines_str, opt_str, rfind, rfind_in, starts_with, starts_with_str, strip_prefix_str,
    to_chars, trim, trim_str, utf8_len, views, without_leading, without_leading_str,
};
use vstd::prelude::*;
use vstd::utf8::{decode_utf8, valid_utf8};

verus! {

pub const TRUNCATION_MARK: &'static str =
    "\n\n[truncated: page content exceeded model budget; use outline/headings or fetch a more specific URL]\n";

/// How many headings the outline of a page holds at most.
pub const MAX_OUTLINE_HEADINGS: usize = 24;

/// The text of a page.
#[derive(Debug)]
pub struct ExtractedPage {
    pub title: Option<String>,
    pub markdown: String,
    pub outline: String,
    pub truncated: bool,
}

impl Clone for ExtractedPage {
    fn clone(&self) -> (r: Self)
        ensures
            r == *self,
    {
        ExtractedPage {
            title: match &self.title {
                Some(t) => Some(t.clone()),
                None => None,
            },
            markdown: self.markdown.clone(),
            outline: self.outline.clone(),
            truncated: self.truncated,
        }
    }
}

/// The text of a page, in characters.
pub struct PageText {
    pub title: Option<Seq<char>>,
    pub markdown: Seq<char>,
    pub outline: Seq<char>,
    pub truncated: bool,
}

impl View for ExtractedPage {
    type V = PageText;

    open spec fn view(&self) -> PageText {
        PageText {
            title: match self.title {
                Some(t) => Some(t@),
                None => None,
            },
            markdown: self.markdown@,
            outline: self.outline@,
            truncated: self.truncated,
        }
    }
}

/// How the body of a response is read.
#[derive(Debug, Clone, Copy, PartialEq, Eq, Structural)]
pub enum ContentType {
    Html,
    Plaintext,
    Json,
}

pub open spec fn content_type_of(header: Option<Seq<char>>) -> ContentType {
    match header {
        None => ContentType::Html,
        Some(h) => if starts_with(ascii_lower(h), "text/plain"@) {
            ContentType::Plaintext
        } else if starts_with(ascii_lower(h), "application/json"@) {
            ContentType::Json
        } else {
            ContentType::Html
        },
    }
}

/// How a body with this header is read.
pub fn classify_content_type(header: Option<&str>) -> (r: ContentType)
    ensures
        r == content_type_of(opt_str(header)),
{
    match header {
        None => ContentType::Html,
        Some(h) => {
            let lower = ascii_lower_str(h);
            if starts_with_str(lower.as_str(), "text/plain") {
                ContentType::Plaintext
            } else if starts_with_str(lower.as_str(), "application/json") {
                ContentType::Json
            } else {
                ContentType::Html
            }
        },
    }
}

/// What takes care of the elements of a page.
#[derive(Debug, Clone, Copy, PartialEq, Eq, Structural)]
pub enum HtmlHandler {
    WebpageChrome,
    Paragraph,
    Heading,
    List,
    Table,
    StyledText,
    WikipediaChrome,
    WikipediaInfobox,
    WikipediaCode,
    Code,
}

pub open spec fn handlers_for(url: Seq<char>) -> Seq<HtmlHandler> {
    let common = seq![
        HtmlHandler::WebpageChrome,
        HtmlHandler::Paragraph,
        HtmlHandler::Heading,
        HtmlHandler::List,
        HtmlHandler::Table,
        HtmlHandler::StyledText,
    ];
    if contains(url, "wikipedia.org"@) {
        common + seq![
            HtmlHandler::WikipediaChrome,
            HtmlHandler::WikipediaInfobox,
            HtmlHandler::WikipediaCode,
        ]
    } else {
        common + seq![HtmlHandler::Code]
    }
}

/// What takes care of the elements of the page of a URL, in this order.
pub fn html_handlers(url: &str) -> (r: Vec<HtmlHandler>)
    ensures
        r@ == handlers_for(url@),
{
    let mut r: Vec<HtmlHandler> = vec![
        HtmlHandler::WebpageChrome,
        HtmlHandler::Paragraph,
        HtmlHandler::Heading,
        HtmlHandler::List,
        HtmlHandler::Table,
        HtmlHandler::StyledText,
    ];
    if contains_str(url, "wikipedia.org") {
        r.push(HtmlHandler::WikipediaChrome);
        r.push(HtmlHandler::WikipediaInfobox);
        r.push(HtmlHandler::WikipediaCode);
    } else {
        r.push(HtmlHandler::Code);
    }
    assert(r@ =~= handlers_for(url@));
    r
}

/// Whether a line is a heading.
pub open spec fn is_heading(line: Seq<char>) -> bool {
    starts_with(trim(line), "#"@)
}

/// The headings among the lines, as many as are wanted.
pub open spec fn headings(all: Seq<Seq<char>>, max: nat) -> Seq<Seq<char>>
    decreases all.len(),
{
    if all.len() == 0 {
        Seq::empty()
    } else {
        let before = headings(all.drop_last(), max);
        if is_heading(all.last()) && (before.len() < max || before.len() == 0) {
            before.push(trim(all.last()))
        } else {
            before
        }
    }
}

/// The headings of a text, one a line. At least one is kept, even where none is wanted.
pub open spec fn outline_of(markdown: Seq<char>, max: nat) -> Seq<char> {
    join(headings(lines(markdown), max), "\n"@)
}

proof fn lemma_enough_headings(all: Seq<Seq<char>>, i: int, max: nat)
    requires
        0 <= i <= all.len(),
        headings(all.take(i), max).len() > 0,
        headings(all.take(i), max).len() >= max,
    ensures
        headings(all, max) == headings(all.take(i), max),
    decreases all.len() - i,
{
    if i < all.len() {
        assert(all.take(i + 1).drop_last() =~= all.take(i));
        lemma_enough_headings(all, i + 1, max);
    } else {
        assert(all.take(i) =~= all);
    }
}

pub fn heading_outline(markdown: &str, max_headings: usize) -> (r: String)
    ensures
        r@ == outline_of(markdown@, max_headings as nat),
{
    let text = lines_str(markdown);
    let ghost all = views(text@);
    let ghost max = max_headings as nat;
    let mut found: Vec<String> = Vec::new();
    let mut i: usize = 0;
    assert(all.take(0) =~= Seq::<Seq<char>>::empty());
    assert(views(found@) =~= Seq::<Seq<char>>::empty());
    while i < text.len()
        invariant
            i <= text@.len(),
            all == views(text@),
            all == lines(markdown@),
            max == max_headings,
            views(found@) == headings(all.take(i as int), max),
            found@.len() == 0 || found@.len() < max,
        decreases text@.len() - i,
    {
        let ghost before = views(found@);
        assert(all.take(i + 1).drop_last() =~= all.take(i as int));
        assert(all.take(i + 1).last() == text@[i as int]@);
        let trimmed = trim_str(text[i].as_str());
        if starts_with_str(trimmed.as_str(), "#") {
            let ghost t = trimmed@;
            found.push(trimmed);
            assert(views(found@) =~= before.push(t));
            if found.len() >= max_headings {
                proof {
                    lemma_enough_headings(all, i + 1, max);
                }
                return join_strs(&found, "\n");
            }
        }
        i = i + 1;
    }
    assert(all.take(text@.len() as int) =~= all);
    join_strs(&found, "\n")
}

/// The title that a line gives, if it is a heading with one.
pub open spec fn heading_title(line: Seq<char>) -> Option<Seq<char>> {
    let t = trim(line);
    if starts_with(t, "#"@) {
        let title = trim(without_leading(t.skip(1), '#'));
        if title.len() > 0 {
            Some(title)
        } else {
            None
        }
    } else {
        None
    }
}

/// The first title that a line gives, from the `i`-th line on.
pub open spec fn first_title(all: Seq<Seq<char>>, i: int) -> Option<Seq<char>>
    decreases all.len() - i,
{
    if i < 0 || i >= all.len() {
        None
    } else {
        match heading_title(all[i]) {
            Some(t) => Some(t),
            None => first_title(all, i + 1),
        }
    }
}

/// The title of a text: what its first heading says.
pub open spec fn title_of(markdown: Seq<char>) -> Option<Seq<char>> {
    first_title(lines(markdown), 0)
}

pub fn first_heading(markdown: &str) -> (r: Option<String>)
    ensures
        match r {
            Some(t) => title_of(markdown@) == Some(t@),
            None => title_of(markdown@) is None,
        },
{
    let text = lines_str(markdown);
    let ghost all = views(text@);
    let mut i: usize = 0;
    while i < text.len()
        invariant
            i <= text@.len(),
            all == views(text@),
            all == lines(markdown@),
            first_title(all, i as int) == first_title(all, 0),
        decreases text@.len() - i,
    {
        assert(all[i as int] == text@[i as int]@);
        proof {
            reveal_strlit("#");
        }
        let trimmed = trim_str(text[i].as_str());
        match strip_prefix_str(trimmed.as_str(), "#") {
            Some(rest) => {
                let title = trim_str(without_leading_str(rest.as_str(), '#').as_str());
                if !title.as_str().is_empty() {
                    return Some(title);
                }
            },
            None => {},
        }
        i = i + 1;
    }
    None
}

/// A text that is too long, cut off: behind its last paragraph where that leaves more than half
/// of it, counted in bytes.
pub open spec fn cut_text(text: Seq<char>, max: nat) -> Seq<char> {
    let head = text.take(max as int);
    match rfind(head, "\n\n"@) {
        Some(k) => if utf8_len(head.take(k)) > max / 2 {
            head.take(k)
        } else {
            head
        },
        None => head,
    }
}

/// The part of a text that a model sees. A limit of nothing is no limit.
pub open spec fn model_text(text: Seq<char>, max: nat) -> Seq<char> {
    if max == 0 || text.len() <= max {
        text
    } else {
        cut_text(text, max) + TRUNCATION_MARK@
    }
}

pub fn truncate_for_model(text: &str, max_chars: usize) -> (r: (String, bool))
    ensures
        r.0@ == model_text(text@, max_chars as nat),
        r.1 == (max_chars > 0 && text@.len() > max_chars),
{
    let v = to_chars(text);
    if max_chars == 0 || v.len() <= max_chars {
        return (text.to_string(), false);
    }
    let mut head = from_chars(&v, 0, max_chars);
    assert(head@ =~= text@.take(max_chars as int));
    let w = to_chars(head.as_str());
    let p = to_chars("\n\n");
    match rfind_in(&w, &p) {
        Some(k) => {
            let before = from_chars(&w, 0, k);
            assert(before@ =~= head@.take(k as int));
            if bytes_exceed(before.as_str(), max_chars / 2) {
                head = before;
            }
        },
        None => {},
    }
    head.append(TRUNCATION_MARK);
    (head, true)
}

/// A model never sees more of a page than its limit and the mark that says so, and what it sees
/// is how the page starts.
pub proof fn lemma_model_text_is_bounded(text: Seq<char>, max: nat)
    requires
        max > 0,
    ensures
        model_text(text, max).len() <= max + TRUNCATION_MARK@.len(),
        text.len() <= max ==> model_text(text, max) == text,
        text.len() > max ==> starts_with(text, cut_text(text, max)),
{
    if text.len() > max {
        let head = text.take(max as int);
        lemma_rfind_bounds(head, "\n\n"@, head.len() as int);
        let c = cut_text(text, max);
        assert(text.take(c.len() as int) =~= c);
    }
}

pub proof fn lemma_rfind_bounds(s: Seq<char>, p: Seq<char>, i: int)
    ensures
        crate::text::rfind_from(s, p, i) matches Some(k) ==> 0 <= k && k + p.len() <= s.len(),
    decreases i + 1,
{
    if i >= 0 {
        lemma_rfind_bounds(s, p, i - 1);
    }
}

/// What the body of a response says, or why that cannot be told. `html` is what its elements were
/// turned into, where it is read as such.
pub open spec fn body_text(
    header: Option<Seq<char>>,
    body: Seq<u8>,
    html: Result<Seq<char>, Seq<char>>,
) -> Result<Seq<char>, Seq<char>> {
    match content_type_of(header) {
        ContentType::Html => html,
        ContentType::Plaintext => if valid_utf8(body) {
            Ok(decode_utf8(body))
        } else {
            Err("response body was not valid UTF-8"@)
        },
        ContentType::Json => match pretty_printed(body) {
            Some(json) => Ok("```json\n"@ + json + "\n```"@),
            None => Err("failed to parse JSON response"@),
        },
    }
}

/// The page that a text makes, or why it makes none.
pub open spec fn page_of(markdown: Seq<char>, max: nat) -> Result<PageText, Seq<char>> {
    if trim(markdown).len() == 0 {
        Err("no textual content found"@)
    } else {
        let outline = outline_of(markdown, MAX_OUTLINE_HEADINGS as nat);
        let shown = model_text(markdown, max);
        Ok(
            PageText {
                title: match title_of(shown) {
                    Some(t) => Some(t),
                    None => title_of(outline),
                },
                markdown: shown,
                outline,
                truncated: max > 0 && markdown.len() > max,
            },
        )
    }
}

/// Makes a page out of its text.
pub fn page_from_markdown(markdown: &str, max_chars: usize) -> (r: Result<ExtractedPage, String>)
    ensures
        match page_of(markdown@, max_chars as nat) {
            Ok(p) => r matches Ok(page) && page@ == p,
            Err(e) => r matches Err(m) && m@ == e,
        },
{
    if trim_str(markdown).as_str().is_empty() {
        return Err("no textual content found".to_string());
    }
    let outline = heading_outline(markdown, MAX_OUTLINE_HEADINGS);
    let (shown, truncated) = truncate_for_model(markdown, max_chars);
    let title = match first_heading(shown.as_str()) {
        Some(t) => Some(t),
        None => first_heading(outline.as_str()),
    };
    Ok(ExtractedPage { title, markdown: shown, outline, truncated })
}

pub open spec fn result_view(r: Result<String, String>) -> Result<Seq<char>, Seq<char>> {
    match r {
        Ok(t) => Ok(t@),
        Err(e) => Err(e@),
    }
}

/// Reads the body of a response. `html` is what its elements were turned into, which matters only
/// where `classify_content_type` says so.
pub fn extract_page_content(
    content_type_header: Option<&str>,
    body: &[u8],
    html: &Result<String, String>,
    max_chars: usize,
) -> (r: Result<ExtractedPage, String>)
    ensures
        match body_text(opt_str(content_type_header), body@, result_view(*html)) {
            Err(e) => r matches Err(m) && m@ == e,
            Ok(markdown) => match page_of(markdown, max_chars as nat) {
                Ok(p) => r matches Ok(page) && page@ == p,
                Err(e) => r matches Err(m) && m@ == e,
            },
        },
{
    let markdown = match classify_content_type(content_type_header) {
        ContentType::Html => match html {
            Ok(t) => t.clone(),
            Err(e) => {
                return Err(e.clone());
            },
        },
        ContentType::Plaintext => match read_utf8(body) {
            Some(t) => t,
            None => {
                return Err("response body was not valid UTF-8".to_string());
            },
        },
        ContentType::Json => match pretty_json(body) {
            Some(json) => {
                let mut t = "```json\n".to_string();
                t.append(json.as_str());
                t.append("\n```");
                t
            },
            None => {
                return Err("failed to parse JSON response".to_string());
            },
        },
    };
    page_from_markdown(markdown.as_str(), max_chars)
}

} // verus!
