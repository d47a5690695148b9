//! Tool calls that a model wrote into its prose instead of making them.
use crate::json::{
    entry, find_entry, fix_streamed_json, json_entries, json_object_of, json_string,
    object_of_strings, pair_views, parse_entries, parse_json, parse_string, parsed_json,
    repaired_json,
};
use crate::text::{
    contains_string, ends_with, find_char_from, find_char_in, find_from, find_in, from_chars,
    lemma_find_bounds, lemma_find_char_bounds, opt_text, split_by, split_str, starts_with,
    starts_with_str, str_eq, strip_prefix_str, strip_suffix_str, to_chars, trim, trim_start,
    trim_start_str, trim_str, views, words, words_str,
};
use vstd::prelude::*;

verus! {

/// A tool call that was found in prose. The input is JSON, written compactly.
#[derive(Debug, PartialEq, Eq)]
pub struct ExtractedToolCall {
    pub name: String,
    pub input: String,
    pub raw_input: String,
}

impl Clone for ExtractedToolCall {
    fn clone(&self) -> (r: Self)
        ensures
            r == *self,
    {
        ExtractedToolCall {
            name: self.name.clone(),
            input: self.input.clone(),
            raw_input: self.raw_input.clone(),
        }
    }
}

/// A tool call, as its characters.
pub struct CallView {
    pub name: Seq<char>,
    pub input: Seq<char>,
    pub raw_input: Seq<char>,
}

impl View for ExtractedToolCall {
    type V = CallView;

    open spec fn view(&self) -> CallView {
        CallView { name: self.name@, input: self.input@, raw_input: self.raw_input@ }
    }
}

pub open spec fn call_views(v: Seq<ExtractedToolCall>) -> Seq<CallView> {
    v.map_values(|c: ExtractedToolCall| c@)
}

// ---------------------------------------------------------------------------
// Arguments
// ---------------------------------------------------------------------------

/// The value of arguments: no text stands for no arguments.
pub open spec fn arguments_value(arguments: Seq<char>) -> Result<Seq<char>, Seq<char>> {
    if arguments.len() == 0 {
        Ok("{}"@)
    } else {
        parsed_json(arguments)
    }
}

/// The value of arguments, repaired where they cannot be read as they are.
pub open spec fn lenient_value(arguments: Seq<char>) -> Result<Seq<char>, Seq<char>> {
    match arguments_value(arguments) {
        Ok(v) => Ok(v),
        Err(_) => arguments_value(repaired_json(arguments)),
    }
}

pub open spec fn result_view(r: Result<String, String>) -> Result<Seq<char>, Seq<char>> {
    match r {
        Ok(v) => Ok(v@),
        Err(e) => Err(e@),
    }
}

pub fn normalize_tool_arguments(arguments: &str) -> (r: Result<String, String>)
    ensures
        result_view(r) == arguments_value(arguments@),
{
    if arguments.is_empty() {
        Ok("{}".to_string())
    } else {
        parse_json(arguments)
    }
}

pub fn normalize_tool_arguments_lenient(arguments: &str) -> (r: Result<String, String>)
    ensures
        result_view(r) == lenient_value(arguments@),
{
    match normalize_tool_arguments(arguments) {
        Ok(v) => Ok(v),
        Err(_) => normalize_tool_arguments(fix_streamed_json(arguments).as_str()),
    }
}

/// What stands for the arguments of a call.
pub enum Arguments {
    /// Nothing.
    Missing,
    /// A JSON value, written compactly.
    Json(String),
    /// A text, with what was read from it.
    Text { raw: String, value: Result<String, String> },
}

pub enum ArgumentsView {
    Missing,
    Json(Seq<char>),
    Text { raw: Seq<char>, value: Result<Seq<char>, Seq<char>> },
}

impl View for Arguments {
    type V = ArgumentsView;

    open spec fn view(&self) -> ArgumentsView {
        match *self {
            Arguments::Missing => ArgumentsView::Missing,
            Arguments::Json(v) => ArgumentsView::Json(v@),
            Arguments::Text { raw, value } => ArgumentsView::Text {
                raw: raw@,
                value: result_view(value),
            },
        }
    }
}

/// Whether a tool of that name may be called; where no tools are known, any may.
pub open spec fn is_known(name: Seq<char>, known: Seq<Seq<char>>) -> bool {
    known.len() == 0 || known.contains(name)
}

fn is_known_tool(name: &str, known_tools: &Vec<String>) -> (r: bool)
    ensures
        r == is_known(name@, views(known_tools@)),
{
    assert(views(known_tools@).len() == known_tools@.len());
    known_tools.len() == 0 || contains_string(known_tools, name)
}

/// The call of a known tool with these arguments.
pub open spec fn call_of(
    name: Option<Seq<char>>,
    known: Seq<Seq<char>>,
    arguments: ArgumentsView,
) -> Option<CallView> {
    match name {
        Some(name) if is_known(name, known) => Some(
            match arguments {
                ArgumentsView::Missing => CallView { name, input: "{}"@, raw_input: "{}"@ },
                ArgumentsView::Json(v) => CallView { name, input: v, raw_input: v },
                ArgumentsView::Text { raw, value } => CallView {
                    name,
                    input: match value {
                        Ok(v) => v,
                        Err(_) => "{}"@,
                    },
                    raw_input: raw,
                },
            },
        ),
        _ => None,
    }
}

pub open spec fn option_view(c: Option<ExtractedToolCall>) -> Option<CallView> {
    match c {
        Some(c) => Some(c@),
        None => None,
    }
}

pub fn build_call(name: Option<String>, known_tools: &Vec<String>, arguments: Arguments) -> (r:
    Option<ExtractedToolCall>)
    ensures
        option_view(r) == call_of(opt_text(name), views(known_tools@), arguments@),
{
    match name {
        Some(name) => {
            if !is_known_tool(name.as_str(), known_tools) {
                return None;
            }
            let (input, raw_input) = match arguments {
                Arguments::Missing => ("{}".to_string(), "{}".to_string()),
                Arguments::Json(v) => (v.clone(), v),
                Arguments::Text { raw, value } => (
                    match value {
                        Ok(v) => v,
                        Err(_) => "{}".to_string(),
                    },
                    raw,
                ),
            };
            Some(ExtractedToolCall { name, input, raw_input })
        },
        None => None,
    }
}

/// The value of the first of the two keys that the object has.
pub open spec fn first_entry(
    entries: Seq<(Seq<char>, Seq<char>)>,
    first: Seq<char>,
    second: Seq<char>,
) -> Option<Seq<char>> {
    match entry(entries, first, 0) {
        Some(v) => Some(v),
        None => entry(entries, second, 0),
    }
}

/// The name that an object gives to a call.
pub open spec fn object_name(entries: Seq<(Seq<char>, Seq<char>)>) -> Option<Seq<char>> {
    match first_entry(entries, "name"@, "tool"@) {
        Some(v) => json_string(v),
        None => None,
    }
}

/// The arguments that an object gives to a call.
pub open spec fn object_arguments(entries: Seq<(Seq<char>, Seq<char>)>) -> ArgumentsView {
    let value = match first_entry(entries, "arguments"@, "parameters"@) {
        Some(v) => Some(v),
        None => first_entry(entries, "input"@, "args"@),
    };
    match value {
        Some(v) => match json_string(v) {
            Some(raw) => ArgumentsView::Text { raw, value: lenient_value(raw) },
            None => ArgumentsView::Json(v),
        },
        None => ArgumentsView::Missing,
    }
}

/// The call that a JSON object describes.
pub open spec fn object_call(value: Seq<char>, known: Seq<Seq<char>>) -> Option<CallView> {
    match json_entries(value) {
        Some(entries) => call_of(object_name(entries), known, object_arguments(entries)),
        None => None,
    }
}

/// The call that a JSON text describes, by itself or under the key of a function.
pub open spec fn text_call(json: Seq<char>, known: Seq<Seq<char>>) -> Option<CallView> {
    let value = match parsed_json(json) {
        Ok(v) => Some(v),
        Err(_) => match parsed_json(repaired_json(json)) {
            Ok(v) => Some(v),
            Err(_) => None,
        },
    };
    match value {
        Some(v) => match object_call(v, known) {
            Some(call) => Some(call),
            None => match json_entries(v) {
                Some(entries) => match entry(entries, "function"@, 0) {
                    Some(f) => object_call(f, known),
                    None => None,
                },
                None => None,
            },
        },
        None => None,
    }
}

fn find_first(entries: &Vec<(String, String)>, first: &str, second: &str) -> (r: Option<String>)
    ensures
        opt_text(r) == first_entry(pair_views(entries@), first@, second@),
{
    match find_entry(entries, first) {
        Some(v) => Some(v),
        None => find_entry(entries, second),
    }
}

fn tool_call_from_object(value: &str, known_tools: &Vec<String>) -> (r: Option<ExtractedToolCall>)
    ensures
        option_view(r) == object_call(value@, views(known_tools@)),
{
    let entries = match parse_entries(value) {
        Some(entries) => entries,
        None => {
            return None;
        },
    };
    let name = match find_first(&entries, "name", "tool") {
        Some(v) => parse_string(v.as_str()),
        None => None,
    };
    let found = match find_first(&entries, "arguments", "parameters") {
        Some(v) => Some(v),
        None => find_first(&entries, "input", "args"),
    };
    let arguments = match found {
        Some(v) => match parse_string(v.as_str()) {
            Some(raw) => {
                let value = normalize_tool_arguments_lenient(raw.as_str());
                Arguments::Text { raw, value }
            },
            None => Arguments::Json(v),
        },
        None => Arguments::Missing,
    };
    build_call(name, known_tools, arguments)
}

fn parse_tool_call_value(json: &str, known_tools: &Vec<String>) -> (r: Option<ExtractedToolCall>)
    ensures
        option_view(r) == text_call(json@, views(known_tools@)),
{
    let value = match parse_json(json) {
        Ok(v) => v,
        Err(_) => match parse_json(fix_streamed_json(json).as_str()) {
            Ok(v) => v,
            Err(_) => {
                return None;
            },
        },
    };
    match tool_call_from_object(value.as_str(), known_tools) {
        Some(call) => Some(call),
        None => match parse_entries(value.as_str()) {
            Some(entries) => match find_entry(&entries, "function") {
                Some(f) => tool_call_from_object(f.as_str(), known_tools),
                None => None,
            },
            None => None,
        },
    }
}

// ---------------------------------------------------------------------------
// JSON in prose
// ---------------------------------------------------------------------------

/// The JSON in the pieces between code fences.
pub open spec fn fenced(pieces: Seq<Seq<char>>) -> Seq<Seq<char>>
    decreases pieces.len(),
{
    if pieces.len() == 0 {
        Seq::empty()
    } else {
        let before = fenced(pieces.drop_last());
        let body = fence_body(pieces.last());
        if starts_with(body, "{"@) || starts_with(body, "["@) {
            before.push(body)
        } else {
            before
        }
    }
}

/// What stands in a fenced piece, without the word that says that it is JSON.
pub open spec fn fence_body(piece: Seq<char>) -> Seq<char> {
    let t = trim(piece);
    if starts_with(t, "json"@) {
        trim(t.skip("json"@.len() as int))
    } else {
        trim(t)
    }
}

/// Where the object ends that is being read: at `i`, this many braces are open, and the place is
/// inside a string or not, behind a backslash in it or not.
pub open spec fn object_end(
    s: Seq<char>,
    i: int,
    depth: int,
    in_string: bool,
    escape: bool,
) -> Option<int>
    decreases s.len() - i,
{
    if i < 0 || i >= s.len() {
        None
    } else if in_string {
        if escape {
            object_end(s, i + 1, depth, true, false)
        } else if s[i] == '\\' {
            object_end(s, i + 1, depth, true, true)
        } else {
            object_end(s, i + 1, depth, s[i] != '"', false)
        }
    } else if s[i] == '"' {
        object_end(s, i + 1, depth, true, escape)
    } else if s[i] == '{' {
        object_end(s, i + 1, depth + 1, false, escape)
    } else if s[i] == '}' {
        if depth <= 0 {
            None
        } else if depth == 1 {
            Some(i)
        } else {
            object_end(s, i + 1, depth - 1, false, escape)
        }
    } else {
        object_end(s, i + 1, depth, false, escape)
    }
}

proof fn lemma_object_end_bounds(s: Seq<char>, i: int, depth: int, in_string: bool, escape: bool)
    requires
        0 <= i,
    ensures
        object_end(s, i, depth, in_string, escape) matches Some(e) ==> i <= e < s.len() && s[e]
            == '}',
    decreases s.len() - i,
{
    if i < s.len() {
        if in_string {
            if escape {
                lemma_object_end_bounds(s, i + 1, depth, true, false);
            } else if s[i] == '\\' {
                lemma_object_end_bounds(s, i + 1, depth, true, true);
            } else {
                lemma_object_end_bounds(s, i + 1, depth, s[i] != '"', false);
            }
        } else if s[i] == '"' {
            lemma_object_end_bounds(s, i + 1, depth, true, escape);
        } else if s[i] == '{' {
            lemma_object_end_bounds(s, i + 1, depth + 1, false, escape);
        } else if s[i] == '}' {
            lemma_object_end_bounds(s, i + 1, depth - 1, false, escape);
        } else {
            lemma_object_end_bounds(s, i + 1, depth, false, escape);
        }
    }
}

/// The objects with balanced braces from `i` on, none inside another.
pub open spec fn balanced_objects(s: Seq<char>, i: int) -> Seq<Seq<char>>
    decreases s.len() - i,
    via balanced_objects_decreases
{
    if i < 0 || i >= s.len() {
        Seq::empty()
    } else {
        match object_end(s, i, 0, false, false) {
            Some(e) if s[i] == '{' => seq![s.subrange(i, e + 1)] + balanced_objects(s, e + 1),
            _ => balanced_objects(s, i + 1),
        }
    }
}

#[via_fn]
proof fn balanced_objects_decreases(s: Seq<char>, i: int) {
    if i >= 0 {
        lemma_object_end_bounds(s, i, 0, false, false);
    }
}

pub open spec fn json_candidates(text: Seq<char>) -> Seq<Seq<char>> {
    fenced(split_str(text, "```"@)) + balanced_objects(text, 0)
}

fn find_json_object_end(v: &Vec<char>, start: usize) -> (r: Option<usize>)
    requires
        start < v@.len(),
    ensures
        match r {
            Some(e) => start <= e < v@.len() && object_end(v@, start as int, 0, false, false)
                == Some(e as int),
            None => object_end(v@, start as int, 0, false, false) is None,
        },
{
    let n: usize = v.len();
    let mut depth: usize = 0;
    let mut in_string = false;
    let mut escape = false;
    let mut i: usize = start;
    while i < n
        invariant
            n == v@.len(),
            start <= i <= n,
            depth <= i - start,
            object_end(v@, i as int, depth as int, in_string, escape) == object_end(
                v@,
                start as int,
                0,
                false,
                false,
            ),
        decreases n - i,
    {
        let c = v[i];
        if in_string {
            if escape {
                escape = false;
            } else if c == '\\' {
                escape = true;
            } else if c == '"' {
                in_string = false;
            }
        } else if c == '"' {
            in_string = true;
        } else if c == '{' {
            depth = depth + 1;
        } else if c == '}' {
            if depth == 0 {
                return None;
            }
            depth = depth - 1;
            if depth == 0 {
                return Some(i);
            }
        }
        i = i + 1;
    }
    None
}

pub fn find_balanced_json_objects(text: &str) -> (r: Vec<String>)
    ensures
        views(r@) == balanced_objects(text@, 0),
{
    let v = to_chars(text);
    let n: usize = v.len();
    let mut r: Vec<String> = Vec::new();
    let mut i: usize = 0;
    assert(views(r@) + balanced_objects(text@, 0) =~= balanced_objects(text@, 0));
    while i < n
        invariant
            v@ == text@,
            n == v@.len(),
            i <= n,
            views(r@) + balanced_objects(text@, i as int) == balanced_objects(text@, 0),
        decreases n - i,
    {
        let ghost before = views(r@);
        let end = if v[i] == '{' {
            find_json_object_end(&v, i)
        } else {
            None
        };
        match end {
            Some(e) => {
                let object = from_chars(&v, i, e + 1);
                let ghost o = object@;
                r.push(object);
                assert(views(r@) =~= before.push(o));
                assert(before + (seq![o] + balanced_objects(text@, e + 1)) =~= views(r@)
                    + balanced_objects(text@, e + 1));
                i = e + 1;
            },
            None => {
                i = i + 1;
            },
        }
    }
    assert(views(r@) + Seq::<Seq<char>>::empty() =~= views(r@));
    r
}

pub fn extract_json_candidates(text: &str) -> (r: Vec<String>)
    ensures
        views(r@) == json_candidates(text@),
{
    proof {
        reveal_strlit("```");
    }
    let pieces = split_by(text, "```");
    let mut r: Vec<String> = Vec::new();
    let mut i: usize = 0;
    assert(views(pieces@).take(0) =~= Seq::<Seq<char>>::empty());
    assert(views(r@) =~= Seq::<Seq<char>>::empty());
    while i < pieces.len()
        invariant
            i <= pieces@.len(),
            views(r@) == fenced(views(pieces@).take(i as int)),
        decreases pieces@.len() - i,
    {
        let ghost before = views(r@);
        assert(views(pieces@).take(i + 1).drop_last() =~= views(pieces@).take(i as int));
        assert(views(pieces@).take(i + 1).last() == pieces@[i as int]@);
        let trimmed = trim_str(pieces[i].as_str());
        let body = match strip_prefix_str(trimmed.as_str(), "json") {
            Some(rest) => trim_str(rest.as_str()),
            None => trim_str(trimmed.as_str()),
        };
        if starts_with_str(body.as_str(), "{") || starts_with_str(body.as_str(), "[") {
            let ghost b = body@;
            r.push(body);
            assert(views(r@) =~= before.push(b));
        }
        i = i + 1;
    }
    assert(views(pieces@).take(pieces@.len() as int) =~= views(pieces@));
    let ghost fences = views(r@);
    let mut objects = find_balanced_json_objects(text);
    let ghost found = views(objects@);
    r.append(&mut objects);
    assert(views(r@) =~= fences + found);
    r
}

// ---------------------------------------------------------------------------
// Functions with parameters
// ---------------------------------------------------------------------------

/// What stands between an opening and its closing tag: the opening ends with an angle bracket at
/// `name_end`, and the closing tag stands at `close`.
pub struct Element {
    pub name_end: int,
    pub close: int,
}

/// The element whose opening starts at `open` with `opening` characters.
pub open spec fn element_at(
    s: Seq<char>,
    open: int,
    opening: nat,
    closing: Seq<char>,
) -> Option<Element> {
    match find_char_from(s, '>', open + opening) {
        Some(g) => match find_from(s, closing, g + 1) {
            Some(c) => Some(Element { name_end: g, close: c }),
            None => None,
        },
        None => None,
    }
}

/// The parameters in the body of a call, from `from` on.
pub open spec fn parameters(body: Seq<char>, from: int) -> Seq<(Seq<char>, Seq<char>)>
    decreases body.len() - from,
    via parameters_decreases
{
    match find_from(body, "<parameter="@, from) {
        Some(o) => match element_at(body, o, "<parameter="@.len(), "</parameter>"@) {
            Some(e) => seq![
                (
                    trim(body.subrange(o + "<parameter="@.len(), e.name_end)),
                    trim(body.subrange(e.name_end + 1, e.close)),
                ),
            ] + parameters(body, e.close + "</parameter>"@.len()),
            None => Seq::empty(),
        },
        None => Seq::empty(),
    }
}

proof fn lemma_element_bounds(s: Seq<char>, open: int, opening: nat, closing: Seq<char>)
    requires
        0 <= open,
    ensures
        element_at(s, open, opening, closing) matches Some(e) ==> open + opening <= e.name_end
            < e.close && e.close + closing.len() <= s.len(),
{
    lemma_find_char_bounds(s, '>', open + opening);
    match find_char_from(s, '>', open + opening) {
        Some(g) => {
            lemma_find_bounds(s, closing, g + 1);
        },
        None => {},
    }
}

#[via_fn]
proof fn parameters_decreases(body: Seq<char>, from: int) {
    if from >= 0 {
        reveal_strlit("</parameter>");
        lemma_find_bounds(body, "<parameter="@, from);
        match find_from(body, "<parameter="@, from) {
            Some(o) => {
                lemma_element_bounds(body, o, "<parameter="@.len(), "</parameter>"@);
            },
            None => {},
        }
    }
}

/// The calls that are written as functions with parameters, from `from` on.
pub open spec fn function_calls(s: Seq<char>, known: Seq<Seq<char>>, from: int) -> Seq<CallView>
    decreases s.len() - from,
    via function_calls_decreases
{
    match find_from(s, "<function="@, from) {
        Some(o) => match find_char_from(s, '>', o + "<function="@.len()) {
            Some(g) => {
                let name = trim(s.subrange(o + "<function="@.len(), g));
                if name.len() == 0 {
                    function_calls(s, known, o + 1)
                } else {
                    match find_from(s, "</function>"@, g + 1) {
                        Some(c) => {
                            let input = json_object_of(parameters(s.subrange(g + 1, c), 0));
                            let rest = function_calls(s, known, c + "</function>"@.len());
                            if is_known(name, known) {
                                seq![CallView { name, input, raw_input: input }] + rest
                            } else {
                                rest
                            }
                        },
                        None => Seq::empty(),
                    }
                }
            },
            None => Seq::empty(),
        },
        None => Seq::empty(),
    }
}

#[via_fn]
proof fn function_calls_decreases(s: Seq<char>, known: Seq<Seq<char>>, from: int) {
    if from >= 0 {
        reveal_strlit("<function=");
        reveal_strlit("</function>");
        lemma_find_bounds(s, "<function="@, from);
        match find_from(s, "<function="@, from) {
            Some(o) => {
                lemma_find_char_bounds(s, '>', o + "<function="@.len());
                match find_char_from(s, '>', o + "<function="@.len()) {
                    Some(g) => {
                        lemma_find_bounds(s, "</function>"@, g + 1);
                    },
                    None => {},
                }
            },
            None => {},
        }
    }
}

fn extract_parameters(body: &Vec<char>) -> (r: Vec<(String, String)>)
    ensures
        pair_views(r@) == parameters(body@, 0),
{
    proof {
        reveal_strlit("<parameter=");
        reveal_strlit("</parameter>");
    }
    let opening = to_chars("<parameter=");
    let closing = to_chars("</parameter>");
    let n: usize = body.len();
    let mut r: Vec<(String, String)> = Vec::new();
    let mut from: usize = 0;
    assert(pair_views(r@) + parameters(body@, 0) =~= parameters(body@, 0));
    loop
        invariant
            n == body@.len(),
            from <= n,
            opening@ == "<parameter="@,
            closing@ == "</parameter>"@,
            opening@.len() == 11,
            closing@.len() == 12,
            pair_views(r@) + parameters(body@, from as int) == parameters(body@, 0),
        decreases n - from,
    {
        let ghost before = pair_views(r@);
        match find_in(body, &opening, from) {
            Some(o) => {
                let name_start: usize = o + opening.len();
                match find_char_in(body, '>', name_start) {
                    Some(g) => {
                        match find_in(body, &closing, g + 1) {
                            Some(c) => {
                                let name = trim_str(from_chars(body, name_start, g).as_str());
                                let value = trim_str(from_chars(body, g + 1, c).as_str());
                                let ghost p = (name@, value@);
                                let next: usize = c + closing.len();
                                r.push((name, value));
                                assert(pair_views(r@) =~= before.push(p));
                                assert(before + (seq![p] + parameters(body@, next as int))
                                    =~= pair_views(r@) + parameters(body@, next as int));
                                from = next;
                            },
                            None => {
                                assert(before + Seq::<(Seq<char>, Seq<char>)>::empty() =~= before);
                                return r;
                            },
                        }
                    },
                    None => {
                        assert(before + Seq::<(Seq<char>, Seq<char>)>::empty() =~= before);
                        return r;
                    },
                }
            },
            None => {
                assert(before + Seq::<(Seq<char>, Seq<char>)>::empty() =~= before);
                return r;
            },
        }
    }
}

/// The calls that are written as `<function=...>` with `<parameter=...>` elements.
pub fn extract_function_parameter_calls(text: &str, known_tools: &Vec<String>) -> (r: Vec<
    ExtractedToolCall,
>)
    ensures
        call_views(r@) == function_calls(text@, views(known_tools@), 0),
{
    proof {
        reveal_strlit("<function=");
        reveal_strlit("</function>");
    }
    let v = to_chars(text);
    let opening = to_chars("<function=");
    let closing = to_chars("</function>");
    let n: usize = v.len();
    let ghost known = views(known_tools@);
    let mut r: Vec<ExtractedToolCall> = Vec::new();
    let mut from: usize = 0;
    assert(call_views(r@) + function_calls(v@, known, 0) =~= function_calls(v@, known, 0));
    loop
        invariant
            v@ == text@,
            n == v@.len(),
            from <= n,
            known == views(known_tools@),
            opening@ == "<function="@,
            closing@ == "</function>"@,
            opening@.len() == 10,
            closing@.len() == 11,
            call_views(r@) + function_calls(v@, known, from as int) == function_calls(v@, known, 0),
        decreases n - from,
    {
        let ghost before = call_views(r@);
        let open = match find_in(&v, &opening, from) {
            Some(o) => o,
            None => {
                assert(before + Seq::<CallView>::empty() =~= before);
                return r;
            },
        };
        let name_start: usize = open + opening.len();
        let name_end = match find_char_in(&v, '>', name_start) {
            Some(g) => g,
            None => {
                assert(before + Seq::<CallView>::empty() =~= before);
                return r;
            },
        };
        let name = trim_str(from_chars(&v, name_start, name_end).as_str());
        if name.as_str().is_empty() {
            from = open + 1;
        } else {
            let close = match find_in(&v, &closing, name_end + 1) {
                Some(c) => c,
                None => {
                    assert(before + Seq::<CallView>::empty() =~= before);
                    return r;
                },
            };
            let next: usize = close + closing.len();
            if is_known_tool(name.as_str(), known_tools) {
                let body = to_chars(from_chars(&v, name_end + 1, close).as_str());
                let input = object_of_strings(&extract_parameters(&body));
                let call = ExtractedToolCall { name, input: input.clone(), raw_input: input };
                let ghost c = call@;
                r.push(call);
                assert(call_views(r@) =~= before.push(c));
                assert(before + (seq![c] + function_calls(v@, known, next as int)) =~= call_views(
                    r@,
                ) + function_calls(v@, known, next as int));
            }
            from = next;
        }
    }
}

// ---------------------------------------------------------------------------
// Elements
// ---------------------------------------------------------------------------

/// The value of a name attribute, in double or single quotes.
pub open spec fn name_attribute(part: Seq<char>) -> Option<Seq<char>> {
    let d = "name=\""@;
    let q = "name='"@;
    if starts_with(part, d) && ends_with(part.skip(d.len() as int), "\""@) {
        Some(part.skip(d.len() as int).take(part.len() - d.len() - "\""@.len()))
    } else if starts_with(part, q) && ends_with(part.skip(q.len() as int), "'"@) {
        Some(part.skip(q.len() as int).take(part.len() - q.len() - "'"@.len()))
    } else {
        None
    }
}

/// The value of the first name attribute among the parts; nothing is an empty name.
pub open spec fn first_name(parts: Seq<Seq<char>>, i: int) -> Seq<char>
    decreases parts.len() - i,
{
    if i < 0 || i >= parts.len() {
        Seq::empty()
    } else {
        match name_attribute(parts[i]) {
            Some(name) => name,
            None => first_name(parts, i + 1),
        }
    }
}

fn attribute_value(part: &str, prefix: &str, suffix: &str) -> (r: Option<String>)
    ensures
        r is Some <==> starts_with(part@, prefix@) && ends_with(
            part@.skip(prefix@.len() as int),
            suffix@,
        ),
        r matches Some(v) ==> v@ == part@.skip(prefix@.len() as int).take(
            part@.len() - prefix@.len() - suffix@.len(),
        ),
{
    match strip_prefix_str(part, prefix) {
        Some(rest) => strip_suffix_str(rest.as_str(), suffix),
        None => None,
    }
}

pub fn parse_xml_name_attr(header: &str) -> (r: String)
    ensures
        r@ == first_name(words(header@), 0),
{
    let parts = words_str(header);
    let ghost all = views(parts@);
    let mut i: usize = 0;
    while i < parts.len()
        invariant
            i <= parts@.len(),
            all == views(parts@),
            all == words(header@),
            first_name(all, i as int) == first_name(all, 0),
        decreases parts@.len() - i,
    {
        assert(all[i as int] == parts@[i as int]@);
        match attribute_value(parts[i].as_str(), "name=\"", "\"") {
            Some(v) => {
                return v;
            },
            None => {},
        }
        match attribute_value(parts[i].as_str(), "name='", "'") {
            Some(v) => {
                return v;
            },
            None => {},
        }
        i = i + 1;
    }
    String::new()
}

/// An element that stands for a call: its name attribute, whether it holds JSON, and what it
/// holds.
#[derive(Debug)]
pub struct XmlBlock {
    pub name: String,
    pub is_json: bool,
    pub inner: String,
}

pub struct BlockView {
    pub name: Seq<char>,
    pub is_json: bool,
    pub inner: Seq<char>,
}

impl View for XmlBlock {
    type V = BlockView;

    open spec fn view(&self) -> BlockView {
        BlockView { name: self.name@, is_json: self.is_json, inner: self.inner@ }
    }
}

pub open spec fn block_views(v: Seq<XmlBlock>) -> Seq<BlockView> {
    v.map_values(|b: XmlBlock| b@)
}

/// The elements with these tags, from `from` on.
pub open spec fn blocks(s: Seq<char>, open: Seq<char>, close: Seq<char>, from: int) -> Seq<
    BlockView,
>
    decreases s.len() - from,
    when close.len() > 0
    via blocks_decreases
{
    match find_from(s, open, from) {
        Some(o) => match element_at(s, o, open.len(), close) {
            Some(e) => {
                let inner = s.subrange(e.name_end + 1, e.close);
                seq![
                    BlockView {
                        name: first_name(words(s.subrange(o + open.len(), e.name_end)), 0),
                        is_json: starts_with(trim_start(inner), "{"@),
                        inner: trim(inner),
                    },
                ] + blocks(s, open, close, e.close + close.len())
            },
            None => Seq::empty(),
        },
        None => Seq::empty(),
    }
}

#[via_fn]
proof fn blocks_decreases(s: Seq<char>, open: Seq<char>, close: Seq<char>, from: int) {
    if from >= 0 {
        lemma_find_bounds(s, open, from);
        match find_from(s, open, from) {
            Some(o) => {
                lemma_element_bounds(s, o, open.len(), close);
            },
            None => {},
        }
    }
}

pub fn extract_xml_blocks(text: &str, tag: &str) -> (r: Vec<XmlBlock>)
    ensures
        block_views(r@) == blocks(text@, "<"@ + tag@, "</"@ + tag@ + ">"@, 0),
{
    let mut open_text = "<".to_string();
    open_text.append(tag);
    let mut close_text = "</".to_string();
    close_text.append(tag);
    close_text.append(">");
    proof {
        reveal_strlit("</");
        reveal_strlit("<");
        reveal_strlit(">");
    }
    let v = to_chars(text);
    let open = to_chars(open_text.as_str());
    let close = to_chars(close_text.as_str());
    let n: usize = v.len();
    let mut r: Vec<XmlBlock> = Vec::new();
    let mut from: usize = 0;
    assert(block_views(r@) + blocks(v@, open@, close@, 0) =~= blocks(v@, open@, close@, 0));
    loop
        invariant
            v@ == text@,
            n == v@.len(),
            from <= n,
            open@ == "<"@ + tag@,
            close@ == "</"@ + tag@ + ">"@,
            close@.len() > 0,
            block_views(r@) + blocks(v@, open@, close@, from as int) == blocks(
                v@,
                open@,
                close@,
                0,
            ),
        decreases n - from,
    {
        let ghost before = block_views(r@);
        let at = match find_in(&v, &open, from) {
            Some(o) => o,
            None => {
                assert(before + Seq::<BlockView>::empty() =~= before);
                return r;
            },
        };
        let header_start: usize = at + open.len();
        let header_end = match find_char_in(&v, '>', header_start) {
            Some(g) => g,
            None => {
                assert(before + Seq::<BlockView>::empty() =~= before);
                return r;
            },
        };
        let close_at = match find_in(&v, &close, header_end + 1) {
            Some(c) => c,
            None => {
                assert(before + Seq::<BlockView>::empty() =~= before);
                return r;
            },
        };
        let name = parse_xml_name_attr(from_chars(&v, header_start, header_end).as_str());
        let inner = from_chars(&v, header_end + 1, close_at);
        let block = XmlBlock {
            name,
            is_json: starts_with_str(trim_start_str(inner.as_str()).as_str(), "{"),
            inner: trim_str(inner.as_str()),
        };
        let ghost b = block@;
        let next: usize = close_at + close.len();
        r.push(block);
        assert(block_views(r@) =~= before.push(b));
        assert(before + (seq![b] + blocks(v@, open@, close@, next as int)) =~= block_views(r@)
            + blocks(v@, open@, close@, next as int));
        from = next;
    }
}

/// The call that an element stands for: the one that the JSON in it describes, or the one that
/// it names.
pub open spec fn block_call(b: BlockView, known: Seq<Seq<char>>) -> Option<CallView> {
    let described = if b.name.len() == 0 && b.is_json {
        text_call(b.inner, known)
    } else {
        None
    };
    let name = if b.name.len() > 0 {
        b.name
    } else if b.is_json {
        Seq::empty()
    } else {
        b.inner
    };
    let raw = if b.is_json {
        b.inner
    } else {
        "{}"@
    };
    match described {
        Some(call) => Some(call),
        None => if name.len() > 0 {
            call_of(
                Some(name),
                known,
                ArgumentsView::Text { raw, value: lenient_value(raw) },
            )
        } else {
            None
        },
    }
}

/// The calls that the elements stand for.
pub open spec fn block_calls(bs: Seq<BlockView>, known: Seq<Seq<char>>) -> Seq<CallView>
    decreases bs.len(),
{
    if bs.len() == 0 {
        Seq::empty()
    } else {
        let before = block_calls(bs.drop_last(), known);
        match block_call(bs.last(), known) {
            Some(call) => before.push(call),
            None => before,
        }
    }
}

pub open spec fn xml_blocks(text: Seq<char>) -> Seq<BlockView> {
    blocks(text, "<"@ + "tool_call"@, "</"@ + "tool_call"@ + ">"@, 0) + blocks(
        text,
        "<"@ + "function_call"@,
        "</"@ + "function_call"@ + ">"@,
        0,
    )
}

fn call_from_block(b: &XmlBlock, known_tools: &Vec<String>) -> (r: Option<ExtractedToolCall>)
    ensures
        option_view(r) == block_call(b@, views(known_tools@)),
{
    if b.name.as_str().is_empty() && b.is_json {
        match parse_tool_call_value(b.inner.as_str(), known_tools) {
            Some(call) => {
                return Some(call);
            },
            None => {},
        }
    }
    let name = if !b.name.as_str().is_empty() {
        b.name.clone()
    } else if b.is_json {
        String::new()
    } else {
        b.inner.clone()
    };
    if name.as_str().is_empty() {
        return None;
    }
    let raw = if b.is_json {
        b.inner.clone()
    } else {
        "{}".to_string()
    };
    let value = normalize_tool_arguments_lenient(raw.as_str());
    build_call(Some(name), known_tools, Arguments::Text { raw, value })
}

fn extract_xml_tool_calls(text: &str, known_tools: &Vec<String>) -> (r: Vec<ExtractedToolCall>)
    ensures
        call_views(r@) == block_calls(xml_blocks(text@), views(known_tools@)),
{
    let mut all = extract_xml_blocks(text, "tool_call");
    let ghost first = block_views(all@);
    let mut more = extract_xml_blocks(text, "function_call");
    let ghost second = block_views(more@);
    all.append(&mut more);
    let ghost bs = block_views(all@);
    assert(bs =~= first + second);
    let ghost known = views(known_tools@);
    let mut r: Vec<ExtractedToolCall> = Vec::new();
    let mut i: usize = 0;
    assert(bs.take(0) =~= Seq::<BlockView>::empty());
    assert(call_views(r@) =~= Seq::<CallView>::empty());
    while i < all.len()
        invariant
            i <= all@.len(),
            bs == block_views(all@),
            known == views(known_tools@),
            call_views(r@) == block_calls(bs.take(i as int), known),
        decreases all@.len() - i,
    {
        let ghost before = call_views(r@);
        assert(bs.take(i + 1).drop_last() =~= bs.take(i as int));
        assert(bs.take(i + 1).last() == all@[i as int]@);
        match call_from_block(&all[i], known_tools) {
            Some(call) => {
                let ghost c = call@;
                r.push(call);
                assert(call_views(r@) =~= before.push(c));
            },
            None => {},
        }
        i = i + 1;
    }
    assert(bs.take(all@.len() as int) =~= bs);
    r
}

// ---------------------------------------------------------------------------
// All of it
// ---------------------------------------------------------------------------

/// The calls that the JSON texts describe.
pub open spec fn json_calls(texts: Seq<Seq<char>>, known: Seq<Seq<char>>) -> Seq<CallView>
    decreases texts.len(),
{
    if texts.len() == 0 {
        Seq::empty()
    } else {
        let before = json_calls(texts.drop_last(), known);
        match text_call(texts.last(), known) {
            Some(call) => before.push(call),
            None => before,
        }
    }
}

/// By what two calls are the same.
pub open spec fn call_key(c: CallView) -> Seq<char> {
    c.name + ":"@ + c.raw_input
}

pub open spec fn has_call(calls: Seq<CallView>, key: Seq<char>) -> bool {
    exists|i: int| 0 <= i < calls.len() && call_key(#[trigger] calls[i]) == key
}

/// The calls, each once.
pub open spec fn distinct_calls(calls: Seq<CallView>) -> Seq<CallView>
    decreases calls.len(),
{
    if calls.len() == 0 {
        Seq::empty()
    } else {
        let before = distinct_calls(calls.drop_last());
        if has_call(before, call_key(calls.last())) {
            before
        } else {
            before.push(calls.last())
        }
    }
}

/// All calls in a text, in JSON, as functions with parameters and as elements, each once.
pub open spec fn embedded_calls(text: Seq<char>, known: Seq<Seq<char>>) -> Seq<CallView> {
    distinct_calls(
        json_calls(json_candidates(text), known) + function_calls(text, known, 0) + block_calls(
            xml_blocks(text),
            known,
        ),
    )
}

fn key_of(c: &ExtractedToolCall) -> (r: String)
    ensures
        r@ == call_key(c@),
{
    let mut r = c.name.clone();
    r.append(":");
    r.append(c.raw_input.as_str());
    r
}

fn call_is_among(calls: &Vec<ExtractedToolCall>, key: &str) -> (r: bool)
    ensures
        r == has_call(call_views(calls@), key@),
{
    let ghost all = call_views(calls@);
    let mut i: usize = 0;
    while i < calls.len()
        invariant
            i <= calls@.len(),
            all == call_views(calls@),
            forall|j: int| 0 <= j < i ==> call_key(#[trigger] all[j]) != key@,
        decreases calls@.len() - i,
    {
        assert(all[i as int] == calls@[i as int]@);
        if str_eq(key_of(&calls[i]).as_str(), key) {
            return true;
        }
        i = i + 1;
    }
    false
}

fn dedupe_calls(calls: &Vec<ExtractedToolCall>) -> (r: Vec<ExtractedToolCall>)
    ensures
        call_views(r@) == distinct_calls(call_views(calls@)),
{
    let ghost all = call_views(calls@);
    let mut r: Vec<ExtractedToolCall> = Vec::new();
    let mut i: usize = 0;
    assert(all.take(0) =~= Seq::<CallView>::empty());
    assert(call_views(r@) =~= Seq::<CallView>::empty());
    while i < calls.len()
        invariant
            i <= calls@.len(),
            all == call_views(calls@),
            call_views(r@) == distinct_calls(all.take(i as int)),
        decreases calls@.len() - i,
    {
        let ghost before = call_views(r@);
        assert(all.take(i + 1).drop_last() =~= all.take(i as int));
        assert(all.take(i + 1).last() == calls@[i as int]@);
        if !call_is_among(&r, key_of(&calls[i]).as_str()) {
            r.push(calls[i].clone());
            assert(call_views(r@) =~= before.push(calls@[i as int]@));
        }
        i = i + 1;
    }
    assert(all.take(calls@.len() as int) =~= all);
    r
}

/// The calls in a text, of known tools where some are known.
pub fn extract_tool_calls_from_text(text: &str, known_tools: &Vec<String>) -> (r: Vec<
    ExtractedToolCall,
>)
    ensures
        call_views(r@) == embedded_calls(text@, views(known_tools@)),
{
    let ghost known = views(known_tools@);
    let candidates = extract_json_candidates(text);
    let mut calls: Vec<ExtractedToolCall> = Vec::new();
    let mut i: usize = 0;
    assert(views(candidates@).take(0) =~= Seq::<Seq<char>>::empty());
    assert(call_views(calls@) =~= Seq::<CallView>::empty());
    while i < candidates.len()
        invariant
            i <= candidates@.len(),
            known == views(known_tools@),
            call_views(calls@) == json_calls(views(candidates@).take(i as int), known),
        decreases candidates@.len() - i,
    {
        let ghost before = call_views(calls@);
        assert(views(candidates@).take(i + 1).drop_last() =~= views(candidates@).take(i as int));
        assert(views(candidates@).take(i + 1).last() == candidates@[i as int]@);
        match parse_tool_call_value(candidates[i].as_str(), known_tools) {
            Some(call) => {
                let ghost c = call@;
                calls.push(call);
                assert(call_views(calls@) =~= before.push(c));
            },
            None => {},
        }
        i = i + 1;
    }
    assert(views(candidates@).take(candidates@.len() as int) =~= views(candidates@));
    let ghost a = call_views(calls@);
    let mut functions = extract_function_parameter_calls(text, known_tools);
    let ghost b = call_views(functions@);
    calls.append(&mut functions);
    assert(call_views(calls@) =~= a + b);
    let mut elements = extract_xml_tool_calls(text, known_tools);
    let ghost c = call_views(elements@);
    calls.append(&mut elements);
    assert(call_views(calls@) =~= a + b + c);
    dedupe_calls(&calls)
}

/// No call is found twice in one text.
pub proof fn lemma_embedded_calls_are_distinct(text: Seq<char>, known: Seq<Seq<char>>)
    ensures
        forall|i: int, j: int|
            0 <= i < j < embedded_calls(text, known).len() ==> call_key(
                #[trigger] embedded_calls(text, known)[i],
            ) != call_key(#[trigger] embedded_calls(text, known)[j]),
{
    lemma_distinct(
        json_calls(json_candidates(text), known) + function_calls(text, known, 0) + block_calls(
            xml_blocks(text),
            known,
        ),
    );
}

proof fn lemma_distinct(calls: Seq<CallView>)
    ensures
        forall|i: int, j: int|
            0 <= i < j < distinct_calls(calls).len() ==> call_key(
                #[trigger] distinct_calls(calls)[i],
            ) != call_key(#[trigger] distinct_calls(calls)[j]),
    decreases calls.len(),
{
    if calls.len() > 0 {
        lemma_distinct(calls.drop_last());
        let before = distinct_calls(calls.drop_last());
        let after = distinct_calls(calls);
        assert forall|i: int, j: int| 0 <= i < j < after.len() implies call_key(
            #[trigger] after[i],
        ) != call_key(#[trigger] after[j]) by {
            if j < before.len() {
                assert(after[i] == before[i] && after[j] == before[j]);
            } else {
                assert(after[i] == before[i]);
            }
        }
    }
}

/// Where tools are known, only they are found.
pub proof fn lemma_embedded_calls_are_known(text: Seq<char>, known: Seq<Seq<char>>)
    requires
        known.len() > 0,
    ensures
        forall|i: int|
            0 <= i < embedded_calls(text, known).len() ==> known.contains(
                (#[trigger] embedded_calls(text, known)[i]).name,
            ),
{
    let a = json_calls(json_candidates(text), known);
    let b = function_calls(text, known, 0);
    let c = block_calls(xml_blocks(text), known);
    lemma_json_calls_known(json_candidates(text), known);
    lemma_function_calls_known(text, known, 0);
    lemma_block_calls_known(xml_blocks(text), known);
    lemma_distinct_from(a + b + c, known);
}

spec fn all_known(calls: Seq<CallView>, known: Seq<Seq<char>>) -> bool {
    forall|i: int| 0 <= i < calls.len() ==> known.contains((#[trigger] calls[i]).name)
}

proof fn lemma_json_calls_known(texts: Seq<Seq<char>>, known: Seq<Seq<char>>)
    requires
        known.len() > 0,
    ensures
        all_known(json_calls(texts, known), known),
    decreases texts.len(),
{
    if texts.len() > 0 {
        lemma_json_calls_known(texts.drop_last(), known);
    }
}

proof fn lemma_block_calls_known(bs: Seq<BlockView>, known: Seq<Seq<char>>)
    requires
        known.len() > 0,
    ensures
        all_known(block_calls(bs, known), known),
    decreases bs.len(),
{
    if bs.len() > 0 {
        lemma_block_calls_known(bs.drop_last(), known);
    }
}

proof fn lemma_function_calls_known(s: Seq<char>, known: Seq<Seq<char>>, from: int)
    requires
        known.len() > 0,
        0 <= from,
    ensures
        all_known(function_calls(s, known, from), known),
    decreases s.len() - from,
{
    reveal_strlit("<function=");
    reveal_strlit("</function>");
    lemma_find_bounds(s, "<function="@, from);
    match find_from(s, "<function="@, from) {
        Some(o) => {
            lemma_find_char_bounds(s, '>', o + "<function="@.len());
            match find_char_from(s, '>', o + "<function="@.len()) {
                Some(g) => {
                    if trim(s.subrange(o + "<function="@.len(), g)).len() == 0 {
                        lemma_function_calls_known(s, known, o + 1);
                    } else {
                        lemma_find_bounds(s, "</function>"@, g + 1);
                        match find_from(s, "</function>"@, g + 1) {
                            Some(c) => {
                                lemma_function_calls_known(s, known, c + "</function>"@.len());
                            },
                            None => {},
                        }
                    }
                },
                None => {},
            }
        },
        None => {},
    }
}

proof fn lemma_distinct_from(calls: Seq<CallView>, known: Seq<Seq<char>>)
    requires
        all_known(calls, known),
    ensures
        all_known(distinct_calls(calls), known),
    decreases calls.len(),
{
    if calls.len() > 0 {
        assert(all_known(calls.drop_last(), known)) by {
            assert forall|i: int| 0 <= i < calls.drop_last().len() implies known.contains(
                (#[trigger] calls.drop_last()[i]).name,
            ) by {
                assert(calls.drop_last()[i] == calls[i]);
            }
        }
        lemma_distinct_from(calls.drop_last(), known);
        assert(known.contains(calls[calls.len() - 1].name));
    }
}

/// The call that was meant where a model wrote it into the name of the tool.
pub open spec fn repaired_call(name: Seq<char>, raw_arguments: Seq<char>) -> Option<CallView> {
    let combined = name + raw_arguments;
    let functions = function_calls(combined, Seq::empty(), 0);
    let all = embedded_calls(combined, Seq::empty());
    if functions.len() > 0 {
        Some(functions[0])
    } else if all.len() > 0 {
        Some(all[0])
    } else {
        None
    }
}

fn first_call(calls: &Vec<ExtractedToolCall>) -> (r: Option<ExtractedToolCall>)
    ensures
        option_view(r) == if call_views(calls@).len() > 0 {
            Some(call_views(calls@)[0])
        } else {
            None
        },
{
    if calls.len() > 0 {
        Some(calls[0].clone())
    } else {
        None
    }
}

pub fn repair_malformed_tool_use(name: &str, raw_arguments: &str) -> (r: Option<ExtractedToolCall>)
    ensures
        option_view(r) == repaired_call(name@, raw_arguments@),
{
    let mut combined = name.to_string();
    combined.append(raw_arguments);
    let any: Vec<String> = Vec::new();
    assert(views(any@) =~= Seq::<Seq<char>>::empty());
    match first_call(&extract_function_parameter_calls(combined.as_str(), &any)) {
        Some(call) => Some(call),
        None => first_call(&extract_tool_calls_from_text(combined.as_str(), &any)),
    }
}

} // verus!
