//! Where in a text the calls of a model stand: JSON in prose and in fences, and elements.
use crate::json::{entry, json_entries, json_string};
use crate::selection::{are_the_wanted, lemma_none_of_none, lemma_one_more};
use crate::text::{contains, find_from, split_str, starts_with, trim, trim_start, words};
use crate::text_laws::{lemma_find_behind, lemma_find_no_more, starts_once};
use crate::tool_call_laws::lemma_element_is_found;
use crate::tool_call_normalization::{
    balanced_objects, block_call, block_calls, blocks, element_at, fence_body, fenced, first_name,
    json_calls, json_candidates, lenient_value, name_attribute, object_call, object_end, text_call,
    xml_blocks, BlockView, CallView, Element,
};
use vstd::prelude::*;

verus! {

// ---------------------------------------------------------------------------
// Objects in prose
// ---------------------------------------------------------------------------

/// A character in a string: one that stands for itself, or one behind a backslash.
pub ghost enum StringChar {
    Plain(char),
    Escaped(char),
}

impl StringChar {
    pub open spec fn text(self) -> Seq<char> {
        match self {
            StringChar::Plain(c) => seq![c],
            StringChar::Escaped(c) => seq!['\\', c],
        }
    }

    pub open spec fn is_clear(self) -> bool {
        self matches StringChar::Plain(c) ==> c != '"' && c != '\\'
    }
}

pub open spec fn string_text(cs: Seq<StringChar>) -> Seq<char>
    decreases cs.len(),
{
    if cs.len() == 0 {
        Seq::empty()
    } else {
        cs[0].text() + string_text(cs.skip(1))
    }
}

pub open spec fn string_is_clear(cs: Seq<StringChar>) -> bool {
    forall|i: int| 0 <= i < cs.len() ==> (#[trigger] cs[i]).is_clear()
}

/// A token between the braces of an object, as far as braces go.
pub ghost enum Token {
    Other(char),
    Quoted(Seq<StringChar>),
    Open,
    Close,
}

impl Token {
    pub open spec fn text(self) -> Seq<char> {
        match self {
            Token::Other(c) => seq![c],
            Token::Quoted(cs) => seq!['"'] + string_text(cs) + seq!['"'],
            Token::Open => seq!['{'],
            Token::Close => seq!['}'],
        }
    }

    pub open spec fn is_clear(self) -> bool {
        match self {
            Token::Other(c) => c != '"' && c != '{' && c != '}',
            Token::Quoted(cs) => string_is_clear(cs),
            _ => true,
        }
    }

    /// By how much a token changes the number of open braces.
    pub open spec fn weight(self) -> int {
        match self {
            Token::Open => 1,
            Token::Close => -1,
            _ => 0,
        }
    }
}

pub open spec fn token_text(ts: Seq<Token>) -> Seq<char>
    decreases ts.len(),
{
    if ts.len() == 0 {
        Seq::empty()
    } else {
        ts[0].text() + token_text(ts.skip(1))
    }
}

/// How many braces are open behind the tokens.
pub open spec fn open_braces(ts: Seq<Token>) -> int
    decreases ts.len(),
{
    if ts.len() == 0 {
        0
    } else {
        open_braces(ts.drop_last()) + ts.last().weight()
    }
}

/// Whether these tokens are an object: the first one opens a brace that the last one closes, and no
/// one before it.
pub open spec fn is_object(ts: Seq<Token>) -> bool {
    &&& ts.len() > 0
    &&& ts[0] == Token::Open
    &&& open_braces(ts) == 0
    &&& forall|i: int| 0 < i < ts.len() ==> open_braces(#[trigger] ts.take(i)) > 0
    &&& forall|i: int| 0 <= i < ts.len() ==> (#[trigger] ts[i]).is_clear()
}

proof fn lemma_string_is_passed(
    before: Seq<char>,
    cs: Seq<StringChar>,
    rest: Seq<char>,
    depth: int,
)
    requires
        string_is_clear(cs),
    ensures
        object_end(
            before + string_text(cs) + seq!['"'] + rest,
            before.len() as int,
            depth,
            true,
            false,
        ) == object_end(
            before + string_text(cs) + seq!['"'] + rest,
            (before.len() + string_text(cs).len()) as int + 1,
            depth,
            false,
            false,
        ),
    decreases cs.len(),
{
    let s = before + string_text(cs) + seq!['"'] + rest;
    let i = before.len() as int;
    if cs.len() == 0 {
        assert(s[i] == '"');
    } else {
        let c = cs[0];
        let more = cs.skip(1);
        assert(c.is_clear());
        let done = before + c.text();
        assert(string_is_clear(more)) by {
            assert forall|k: int| 0 <= k < more.len() implies (#[trigger] more[k]).is_clear() by {
                assert(more[k] == cs[k + 1]);
            }
        }
        lemma_string_is_passed(done, more, rest, depth);
        assert(done + string_text(more) + seq!['"'] + rest =~= s);
        match c {
            StringChar::Plain(x) => {
                assert(s[i] == x);
            },
            StringChar::Escaped(x) => {
                assert(s[i] == '\\');
                assert(object_end(s, i + 1, depth, true, true) == object_end(
                    s,
                    i + 2,
                    depth,
                    true,
                    false,
                ));
            },
        }
    }
}

proof fn lemma_token_is_passed(before: Seq<char>, t: Token, rest: Seq<char>, depth: int)
    requires
        t.is_clear(),
        depth >= 0,
        t == Token::Close ==> depth > 0,
    ensures
        ({
            let s = before + t.text() + rest;
            let i = before.len() as int;
            object_end(s, i, depth, false, false) == if t == Token::Close && depth == 1 {
                Some(i)
            } else {
                object_end(s, i + t.text().len(), depth + t.weight(), false, false)
            }
        }),
{
    let s = before + t.text() + rest;
    let i = before.len() as int;
    assert(s[i] == t.text()[0]);
    if let Token::Quoted(cs) = t {
        let head = before + seq!['"'];
        lemma_string_is_passed(head, cs, rest, depth);
        assert(head + string_text(cs) + seq!['"'] + rest =~= s);
    }
}

proof fn lemma_braces_of_rest(ts: Seq<Token>, n: int)
    requires
        0 < n <= ts.len(),
    ensures
        open_braces(ts.take(n)) == ts[0].weight() + open_braces(ts.skip(1).take(n - 1)),
    decreases n,
{
    let a = ts.take(n);
    let b = ts.skip(1).take(n - 1);
    assert(a.drop_last() =~= ts.take(n - 1));
    if n == 1 {
        assert(ts.take(0) =~= Seq::empty());
        assert(b =~= Seq::empty());
    } else {
        lemma_braces_of_rest(ts, n - 1);
        assert(b.drop_last() =~= ts.skip(1).take(n - 2));
        assert(b.last() == a.last());
    }
}

#[verifier::rlimit(40)]
proof fn lemma_object_ends(before: Seq<char>, ts: Seq<Token>, rest: Seq<char>, depth: int)
    requires
        ts.len() > 0,
        depth >= 0,
        depth == 0 ==> ts[0] == Token::Open && ts.len() > 1,
        depth + open_braces(ts) == 0,
        forall|i: int| 0 < i < ts.len() ==> depth + open_braces(#[trigger] ts.take(i)) > 0,
        forall|i: int| 0 <= i < ts.len() ==> (#[trigger] ts[i]).is_clear(),
    ensures
        object_end(before + token_text(ts) + rest, before.len() as int, depth, false, false)
            == Some(before.len() + token_text(ts).len() - 1),
    decreases ts.len(),
{
    let s = before + token_text(ts) + rest;
    let t = ts[0];
    let more = ts.skip(1);
    let done = before + t.text();
    assert(t.is_clear());
    assert(ts.take(ts.len() as int) =~= ts);
    assert(more.take(more.len() as int) =~= more);
    lemma_braces_of_rest(ts, ts.len() as int);
    lemma_token_is_passed(before, t, token_text(more) + rest, depth);
    assert(before + t.text() + (token_text(more) + rest) =~= s);
    assert(done + token_text(more) + rest =~= s);
    if ts.len() == 1 {
        assert(more =~= Seq::empty());
        assert(t == Token::Close && depth == 1);
        assert(token_text(more) =~= Seq::empty());
    } else {
        let d = depth + t.weight();
        lemma_braces_of_rest(ts, 1);
        assert(more.take(0) =~= Seq::empty());
        assert(depth + open_braces(ts.take(1)) > 0);
        assert(d > 0);
        assert forall|i: int| 0 < i < more.len() implies d + open_braces(#[trigger] more.take(i))
            > 0 by {
            lemma_braces_of_rest(ts, i + 1);
            assert(ts.take(i + 1) == ts.take(i + 1));
        }
        assert forall|i: int| 0 <= i < more.len() implies (#[trigger] more[i]).is_clear() by {
            assert(more[i] == ts[i + 1]);
        }
        lemma_object_ends(done, more, rest, d);
    }
}

/// An object in prose, and what is written in front of it.
pub ghost struct WrittenObject {
    pub gap: Seq<char>,
    pub tokens: Seq<Token>,
}

impl WrittenObject {
    pub open spec fn json(self) -> Seq<char> {
        token_text(self.tokens)
    }

    pub open spec fn text(self) -> Seq<char> {
        self.gap + self.json()
    }

    pub open spec fn is_clear(self) -> bool {
        !self.gap.contains('{') && is_object(self.tokens)
    }
}

pub open spec fn object_text(os: Seq<WrittenObject>) -> Seq<char>
    decreases os.len(),
{
    if os.len() == 0 {
        Seq::empty()
    } else {
        os[0].text() + object_text(os.skip(1))
    }
}

pub open spec fn objects_are_clear(os: Seq<WrittenObject>) -> bool {
    forall|i: int| 0 <= i < os.len() ==> (#[trigger] os[i]).is_clear()
}

pub open spec fn json_of(os: Seq<WrittenObject>) -> Seq<Seq<char>> {
    os.map_values(|o: WrittenObject| o.json())
}

proof fn lemma_gap_is_passed(before: Seq<char>, gap: Seq<char>, rest: Seq<char>)
    requires
        !gap.contains('{'),
    ensures
        balanced_objects(before + gap + rest, before.len() as int) == balanced_objects(
            before + gap + rest,
            (before.len() + gap.len()) as int,
        ),
    decreases gap.len(),
{
    if gap.len() > 0 {
        let s = before + gap + rest;
        assert(gap.contains(gap[0]));
        assert(s[before.len() as int] == gap[0]);
        let done = before.push(gap[0]);
        let more = gap.skip(1);
        assert(!more.contains('{')) by {
            if more.contains('{') {
                let k = choose|k: int| 0 <= k < more.len() && more[k] == '{';
                assert(gap[k + 1] == '{');
            }
        }
        lemma_gap_is_passed(done, more, rest);
        assert(done + more + rest =~= s);
    }
}

#[verifier::rlimit(40)]
proof fn lemma_objects_are_found(before: Seq<char>, os: Seq<WrittenObject>, tail: Seq<char>)
    requires
        objects_are_clear(os),
        !tail.contains('{'),
    ensures
        balanced_objects(before + object_text(os) + tail, before.len() as int) == json_of(os),
    decreases os.len(),
{
    let s = before + object_text(os) + tail;
    if os.len() == 0 {
        lemma_gap_is_passed(before, tail, Seq::empty());
        assert(before + tail + Seq::empty() =~= s);
        assert(json_of(os) =~= Seq::empty());
    } else {
        let o = os[0];
        let more = os.skip(1);
        let after = object_text(more) + tail;
        assert(o.is_clear());
        lemma_gap_is_passed(before, o.gap, o.json() + after);
        assert(before + o.gap + (o.json() + after) =~= s);
        let head = before + o.gap;
        let at = head.len() as int;
        assert(o.tokens.len() > 1) by {
            if o.tokens.len() == 1 {
                assert(o.tokens.drop_last() =~= Seq::empty());
                assert(open_braces(o.tokens.drop_last()) == 0);
                assert(o.tokens.last() == o.tokens[0]);
            }
        }
        assert forall|i: int| 0 < i < o.tokens.len() implies 0 + open_braces(
            #[trigger] o.tokens.take(i),
        ) > 0 by {}
        lemma_object_ends(head, o.tokens, after, 0);
        assert(head + o.json() + after =~= s);
        let e = at + o.json().len() - 1;
        assert(o.json()[0] == '{') by {
            assert(o.json() == o.tokens[0].text() + token_text(o.tokens.skip(1)));
        }
        assert(s[at] == o.json()[0]);
        assert(s.subrange(at, e + 1) =~= o.json());
        let done = head + o.json();
        assert(objects_are_clear(more)) by {
            assert forall|i: int| 0 <= i < more.len() implies (#[trigger] more[i]).is_clear() by {
                assert(more[i] == os[i + 1]);
            }
        }
        lemma_objects_are_found(done, more, tail);
        assert(done + object_text(more) + tail =~= s);
        assert(json_of(os) =~= seq![o.json()] + json_of(more));
    }
}

/// Every JSON object in prose is found, whole and in its order, whatever braces its strings hold.
pub proof fn lemma_no_object_is_lost(os: Seq<WrittenObject>, tail: Seq<char>)
    requires
        objects_are_clear(os),
        !tail.contains('{'),
    ensures
        balanced_objects(object_text(os) + tail, 0) == json_of(os),
        forall|i: int|
            0 <= i < os.len() ==> json_candidates(object_text(os) + tail).contains(
                (#[trigger] os[i]).json(),
            ),
{
    lemma_objects_are_found(Seq::empty(), os, tail);
    let text = object_text(os) + tail;
    assert(Seq::<char>::empty() + object_text(os) + tail =~= text);
    let front = fenced(split_str(text, "```"@));
    assert forall|i: int| 0 <= i < os.len() implies json_candidates(text).contains(
        (#[trigger] os[i]).json(),
    ) by {
        assert(json_of(os)[i] == os[i].json());
        assert(json_candidates(text)[front.len() + i] == os[i].json());
    }
}

// ---------------------------------------------------------------------------
// Fences and what is described in them
// ---------------------------------------------------------------------------

/// Pieces that hold an object or an array.
pub open spec fn holds_json() -> spec_fn(Seq<char>) -> bool {
    |piece: Seq<char>|
        fence_body(piece).len() > 0 && (fence_body(piece)[0] == '{' || fence_body(piece)[0] == '[')
}

pub open spec fn body_of() -> spec_fn(Seq<char>) -> Seq<char> {
    |piece: Seq<char>| fence_body(piece)
}

/// Of the pieces between fences all that hold JSON are read, in their order.
pub proof fn lemma_no_fence_is_lost(pieces: Seq<Seq<char>>)
    ensures
        are_the_wanted(fenced(pieces), pieces, holds_json(), body_of()),
    decreases pieces.len(),
{
    reveal_strlit("{");
    reveal_strlit("[");
    if pieces.len() == 0 {
        lemma_none_of_none(holds_json(), body_of());
        assert(pieces =~= Seq::empty());
    } else {
        let before = pieces.drop_last();
        lemma_no_fence_is_lost(before);
        lemma_one_more(fenced(before), before, holds_json(), body_of(), pieces.last());
        assert(before.push(pieces.last()) =~= pieces);
        let body = fence_body(pieces.last());
        lemma_starts_with_char(body, '{', "{"@);
        lemma_starts_with_char(body, '[', "["@);
    }
}

proof fn lemma_starts_with_char(s: Seq<char>, c: char, p: Seq<char>)
    requires
        p.len() == 1,
        p[0] == c,
    ensures
        starts_with(s, p) == (s.len() > 0 && s[0] == c),
{
    if s.len() > 0 {
        assert(s.take(1)[0] == s[0]);
        if s[0] == c {
            assert(s.take(1) =~= p);
        }
    }
}

/// The word that says that a fence holds JSON is no part of what it holds.
pub proof fn lemma_fence_says_what_it_holds(body: Seq<char>)
    requires
        body.len() > 0,
        trim(body) == body,
        !starts_with(body, "json"@),
    ensures
        fence_body(body) == body,
        fence_body("json\n"@ + body) == body,
        fence_body("json\n"@ + body + "\n"@) == body,
{
    reveal_strlit("json");
    reveal_strlit("json\n");
    reveal_strlit("\n");
    crate::recall_laws::lemma_solid_ends(body);
    let a = "json\n"@ + body;
    let b = a + "\n"@;
    let fed = "\n"@ + body;
    assert(a.take(4) =~= "json"@ && a.skip(4) =~= fed);
    assert(a[0] == 'j');
    assert(trim(a) == a) by {
        assert(a.last() == body.last());
        crate::recall_laws::lemma_solid_is_trimmed(a);
    }
    assert(trim(fed) == body) by {
        assert(fed.skip(1) =~= body);
        assert(fed[0] == '\n');
        assert(trim_start(fed) == trim_start(body));
    }
    assert(trim(b) == a) by {
        assert(b[0] == 'j');
        assert(trim_start(b) == b);
        assert(b.last() == '\n');
        assert(b.drop_last() =~= a);
        assert(crate::text::trim_end(b) == crate::text::trim_end(a));
    }
}

pub open spec fn describes_a_call(known: Seq<Seq<char>>) -> spec_fn(Seq<char>) -> bool {
    |json: Seq<char>| text_call(json, known) is Some
}

pub open spec fn described_call(known: Seq<Seq<char>>) -> spec_fn(Seq<char>) -> CallView {
    |json: Seq<char>| text_call(json, known)->0
}

/// Each JSON text that describes a call gives one.
pub proof fn lemma_no_described_call_is_lost(texts: Seq<Seq<char>>, known: Seq<Seq<char>>)
    ensures
        are_the_wanted(
            json_calls(texts, known),
            texts,
            describes_a_call(known),
            described_call(known),
        ),
    decreases texts.len(),
{
    let wanted = describes_a_call(known);
    let of = described_call(known);
    if texts.len() == 0 {
        lemma_none_of_none(wanted, of);
        assert(texts =~= Seq::empty());
    } else {
        let before = texts.drop_last();
        lemma_no_described_call_is_lost(before, known);
        lemma_one_more(json_calls(before, known), before, wanted, of, texts.last());
        assert(before.push(texts.last()) =~= texts);
    }
}

pub open spec fn stands_for_a_call(known: Seq<Seq<char>>) -> spec_fn(BlockView) -> bool {
    |b: BlockView| block_call(b, known) is Some
}

pub open spec fn call_stood_for(known: Seq<Seq<char>>) -> spec_fn(BlockView) -> CallView {
    |b: BlockView| block_call(b, known)->0
}

/// Each element that stands for a call gives one.
pub proof fn lemma_no_element_is_passed_over(bs: Seq<BlockView>, known: Seq<Seq<char>>)
    ensures
        are_the_wanted(block_calls(bs, known), bs, stands_for_a_call(known), call_stood_for(known)),
    decreases bs.len(),
{
    let wanted = stands_for_a_call(known);
    let of = call_stood_for(known);
    if bs.len() == 0 {
        lemma_none_of_none(wanted, of);
        assert(bs =~= Seq::empty());
    } else {
        let before = bs.drop_last();
        lemma_no_element_is_passed_over(before, known);
        lemma_one_more(block_calls(before, known), before, wanted, of, bs.last());
        assert(before.push(bs.last()) =~= bs);
    }
}

/// Whether an object has this value under this key, and nothing else under it before.
pub open spec fn has_entry(
    entries: Seq<(Seq<char>, Seq<char>)>,
    key: Seq<char>,
    value: Seq<char>,
) -> bool {
    exists|i: int|
        0 <= i < entries.len() && #[trigger] entries[i] == (key, value) && forall|j: int|
            0 <= j < i ==> (#[trigger] entries[j]).0 != key
}

pub open spec fn lacks(entries: Seq<(Seq<char>, Seq<char>)>, key: Seq<char>) -> bool {
    forall|j: int| 0 <= j < entries.len() ==> (#[trigger] entries[j]).0 != key
}

proof fn lemma_entry_from(
    entries: Seq<(Seq<char>, Seq<char>)>,
    key: Seq<char>,
    i: int,
    at: int,
)
    requires
        0 <= i <= at < entries.len(),
        entries[at].0 == key,
        forall|j: int| 0 <= j < at ==> (#[trigger] entries[j]).0 != key,
    ensures
        entry(entries, key, i) == Some(entries[at].1),
    decreases at - i,
{
    if i < at {
        assert(entries[i].0 != key);
        lemma_entry_from(entries, key, i + 1, at);
    }
}

proof fn lemma_no_entry_from(entries: Seq<(Seq<char>, Seq<char>)>, key: Seq<char>, i: int)
    requires
        0 <= i,
        lacks(entries, key),
    ensures
        entry(entries, key, i) is None,
    decreases entries.len() - i,
{
    if i < entries.len() {
        assert(entries[i].0 != key);
        lemma_no_entry_from(entries, key, i + 1);
    }
}

proof fn lemma_entry_is_found(
    entries: Seq<(Seq<char>, Seq<char>)>,
    key: Seq<char>,
    value: Seq<char>,
)
    ensures
        has_entry(entries, key, value) ==> entry(entries, key, 0) == Some(value),
        lacks(entries, key) ==> entry(entries, key, 0) is None,
{
    if has_entry(entries, key, value) {
        let i = choose|i: int|
            0 <= i < entries.len() && #[trigger] entries[i] == (key, value) && forall|j: int|
                0 <= j < i ==> (#[trigger] entries[j]).0 != key;
        lemma_entry_from(entries, key, 0, i);
    }
    if lacks(entries, key) {
        lemma_no_entry_from(entries, key, 0);
    }
}

/// Whether an object has its arguments under this key: the first one it has of `arguments`,
/// `parameters`, `input` and `args`.
pub open spec fn has_arguments_under(
    entries: Seq<(Seq<char>, Seq<char>)>,
    key: Seq<char>,
    value: Seq<char>,
) -> bool {
    &&& has_entry(entries, key, value)
    &&& {
        ||| key == "arguments"@
        ||| key == "parameters"@ && lacks(entries, "arguments"@)
        ||| key == "input"@ && lacks(entries, "arguments"@) && lacks(entries, "parameters"@)
        ||| key == "args"@ && lacks(entries, "arguments"@) && lacks(entries, "parameters"@)
            && lacks(entries, "input"@)
    }
}

/// An object describes the call of the tool that it names, under `name` or else under `tool`, with
/// the arguments that it gives, or with none. Arguments in a string are read from it.
pub proof fn lemma_object_describes_its_call(
    value: Seq<char>,
    entries: Seq<(Seq<char>, Seq<char>)>,
    known: Seq<Seq<char>>,
    name_value: Seq<char>,
    name: Seq<char>,
    key: Seq<char>,
    arguments: Seq<char>,
)
    requires
        json_entries(value) == Some(entries),
        has_entry(entries, "name"@, name_value) || (lacks(entries, "name"@) && has_entry(
            entries,
            "tool"@,
            name_value,
        )),
        json_string(name_value) == Some(name),
        known.len() == 0 || known.contains(name),
    ensures
        object_call(value, known) matches Some(call) && {
            &&& call.name == name
            &&& has_arguments_under(entries, key, arguments) && json_string(arguments) is None
                ==> call.input == arguments && call.raw_input == arguments
            &&& has_arguments_under(entries, key, arguments) && json_string(arguments) is Some
                ==> call.raw_input == json_string(arguments)->0 && (lenient_value(
                call.raw_input,
            ) matches Ok(v) ==> call.input == v)
            &&& lacks(entries, "arguments"@) && lacks(entries, "parameters"@) && lacks(
                entries,
                "input"@,
            ) && lacks(entries, "args"@) ==> call.input == "{}"@ && call.raw_input == "{}"@
        },
{
    lemma_entry_is_found(entries, "name"@, name_value);
    lemma_entry_is_found(entries, "tool"@, name_value);
    lemma_entry_is_found(entries, "arguments"@, arguments);
    lemma_entry_is_found(entries, "parameters"@, arguments);
    lemma_entry_is_found(entries, "input"@, arguments);
    lemma_entry_is_found(entries, "args"@, arguments);
}

// ---------------------------------------------------------------------------
// Elements
// ---------------------------------------------------------------------------

/// An element as a model writes it, and what it writes in front of it.
pub ghost struct WrittenElement {
    pub gap: Seq<char>,
    pub header: Seq<char>,
    pub inner: Seq<char>,
}

impl WrittenElement {
    pub open spec fn text(self, open: Seq<char>, close: Seq<char>) -> Seq<char> {
        self.gap + open + self.header + ">"@ + self.inner + close
    }

    pub open spec fn is_clear(self, open: Seq<char>, close: Seq<char>) -> bool {
        &&& !contains(self.gap, open)
        &&& !self.header.contains('>')
        &&& !contains(self.inner, close)
    }

    pub open spec fn meant(self) -> BlockView {
        BlockView {
            name: first_name(words(self.header), 0),
            is_json: trim_start(self.inner).len() > 0 && trim_start(self.inner)[0] == '{',
            inner: trim(self.inner),
        }
    }
}

pub open spec fn element_text(
    es: Seq<WrittenElement>,
    open: Seq<char>,
    close: Seq<char>,
) -> Seq<char>
    decreases es.len(),
{
    if es.len() == 0 {
        Seq::empty()
    } else {
        es[0].text(open, close) + element_text(es.skip(1), open, close)
    }
}

pub open spec fn elements_are_clear(
    es: Seq<WrittenElement>,
    open: Seq<char>,
    close: Seq<char>,
) -> bool {
    forall|i: int| 0 <= i < es.len() ==> (#[trigger] es[i]).is_clear(open, close)
}

pub open spec fn meant_blocks(es: Seq<WrittenElement>) -> Seq<BlockView> {
    es.map_values(|e: WrittenElement| e.meant())
}

#[verifier::rlimit(40)]
proof fn lemma_first_element_is_read(
    before: Seq<char>,
    e: WrittenElement,
    open: Seq<char>,
    close: Seq<char>,
    after: Seq<char>,
)
    requires
        starts_once(open),
        starts_once(close),
        e.is_clear(open, close),
    ensures
        ({
            let s = before + e.text(open, close) + after;
            blocks(s, open, close, before.len() as int) == seq![e.meant()] + blocks(
                s,
                open,
                close,
                (before.len() + e.text(open, close).len()) as int,
            )
        }),
{
    reveal_strlit(">");
    reveal_strlit("{");
    let s = before + e.text(open, close) + after;
    assert(">"@ =~= seq!['>']);
    lemma_find_behind(before, e.gap, open, e.header + ">"@ + e.inner + close + after);
    assert(s =~= before + e.gap + open + (e.header + ">"@ + e.inner + close + after));
    let head = before + e.gap + open;
    lemma_element_is_found(head, e.header, e.inner, close, after, open.len());
    assert(s =~= head + e.header + seq!['>'] + e.inner + close + after);
    let o = (before.len() + e.gap.len()) as int;
    let g = (head.len() + e.header.len()) as int;
    let c = g + 1 + e.inner.len();
    assert(find_from(s, open, before.len() as int) == Some(o));
    assert(element_at(s, o, open.len(), close) == Some(Element { name_end: g, close: c }));
    assert(s.subrange(o + open.len(), g) =~= e.header);
    assert(s.subrange(g + 1, c) =~= e.inner);
    lemma_starts_with_char(trim_start(e.inner), '{', "{"@);
}

proof fn lemma_elements_are_read(
    before: Seq<char>,
    es: Seq<WrittenElement>,
    open: Seq<char>,
    close: Seq<char>,
    tail: Seq<char>,
)
    requires
        starts_once(open),
        starts_once(close),
        elements_are_clear(es, open, close),
        !contains(tail, open),
    ensures
        blocks(before + element_text(es, open, close) + tail, open, close, before.len() as int)
            == meant_blocks(es),
    decreases es.len(),
{
    let s = before + element_text(es, open, close) + tail;
    if es.len() == 0 {
        assert(s =~= before + tail);
        lemma_find_no_more(before, tail, open);
        assert(meant_blocks(es) =~= Seq::empty());
    } else {
        let e = es[0];
        let more = es.skip(1);
        let after = element_text(more, open, close) + tail;
        let done = before + e.text(open, close);
        assert(e.is_clear(open, close));
        lemma_first_element_is_read(before, e, open, close, after);
        assert(before + e.text(open, close) + after =~= s);
        assert(elements_are_clear(more, open, close)) by {
            assert forall|i: int| 0 <= i < more.len() implies (#[trigger] more[i]).is_clear(
                open,
                close,
            ) by {
                assert(more[i] == es[i + 1]);
            }
        }
        lemma_elements_are_read(done, more, open, close, tail);
        assert(done + element_text(more, open, close) + tail =~= s);
        assert(meant_blocks(es) =~= seq![e.meant()] + meant_blocks(more));
    }
}

/// Every element with the tag is read, in its order: the name that its header gives, and what it
/// holds without the blanks around it.
pub proof fn lemma_no_element_is_lost(es: Seq<WrittenElement>, tail: Seq<char>)
    ensures
        elements_are_clear(es, "<tool_call"@, "</tool_call>"@) && !contains(tail, "<tool_call"@)
            ==> ({
            let text = element_text(es, "<tool_call"@, "</tool_call>"@) + tail;
            meant_blocks(es).is_prefix_of(xml_blocks(text))
        }),
        elements_are_clear(es, "<function_call"@, "</function_call>"@) && !contains(
            tail,
            "<function_call"@,
        ) ==> ({
            let text = element_text(es, "<function_call"@, "</function_call>"@) + tail;
            meant_blocks(es).is_suffix_of(xml_blocks(text))
        }),
{
    reveal_strlit("<");
    reveal_strlit("</");
    reveal_strlit(">");
    reveal_strlit("tool_call");
    reveal_strlit("function_call");
    reveal_strlit("<tool_call");
    reveal_strlit("</tool_call>");
    reveal_strlit("<function_call");
    reveal_strlit("</function_call>");
    assert("<"@ + "tool_call"@ =~= "<tool_call"@);
    assert("</"@ + "tool_call"@ + ">"@ =~= "</tool_call>"@);
    assert("<"@ + "function_call"@ =~= "<function_call"@);
    assert("</"@ + "function_call"@ + ">"@ =~= "</function_call>"@);
    let nothing = Seq::<char>::empty();
    if elements_are_clear(es, "<tool_call"@, "</tool_call>"@) && !contains(tail, "<tool_call"@) {
        let text = element_text(es, "<tool_call"@, "</tool_call>"@);
        lemma_elements_are_read(nothing, es, "<tool_call"@, "</tool_call>"@, tail);
        assert(nothing + text + tail =~= text + tail);
        assert(meant_blocks(es) =~= xml_blocks(text + tail).take(es.len() as int));
    }
    if elements_are_clear(es, "<function_call"@, "</function_call>"@) && !contains(
        tail,
        "<function_call"@,
    ) {
        let text = element_text(es, "<function_call"@, "</function_call>"@);
        lemma_elements_are_read(nothing, es, "<function_call"@, "</function_call>"@, tail);
        assert(nothing + text + tail =~= text + tail);
        let all = xml_blocks(text + tail);
        assert(meant_blocks(es) =~= all.skip(all.len() - es.len()));
    }
}

/// The name of an element is what stands between the quotes of the first name attribute.
pub proof fn lemma_name_stands_in_quotes(parts: Seq<Seq<char>>, i: int, name: Seq<char>)
    requires
        0 <= i < parts.len(),
        parts[i] == "name=\""@ + name + "\""@ || parts[i] == "name='"@ + name + "'"@,
        forall|j: int| 0 <= j < i ==> !starts_with(#[trigger] parts[j], "name="@),
    ensures
        first_name(parts, 0) == name,
{
    lemma_names_in_front(parts, 0, i, name);
}

proof fn lemma_names_in_front(parts: Seq<Seq<char>>, k: int, i: int, name: Seq<char>)
    requires
        0 <= k <= i < parts.len(),
        parts[i] == "name=\""@ + name + "\""@ || parts[i] == "name='"@ + name + "'"@,
        forall|j: int| 0 <= j < i ==> !starts_with(#[trigger] parts[j], "name="@),
    ensures
        first_name(parts, k) == name,
    decreases i - k,
{
    reveal_strlit("name=");
    reveal_strlit("name=\"");
    reveal_strlit("name='");
    reveal_strlit("\"");
    reveal_strlit("'");
    let p = parts[k];
    if k < i {
        assert(!starts_with(p, "name="@));
        if p.len() >= 6 {
            assert(p.take(6).take(5) =~= p.take(5));
            assert("name=\""@.take(5) =~= "name="@);
            assert("name='"@.take(5) =~= "name="@);
        }
        assert(name_attribute(p) is None);
        lemma_names_in_front(parts, k + 1, i, name);
    } else if p == "name=\""@ + name + "\""@ {
        assert(p.take(6) =~= "name=\""@);
        assert(p.skip(6) =~= name + "\""@);
        assert(p.skip(6).skip(p.skip(6).len() - 1) =~= "\""@);
        assert(p.skip(6).take(p.len() - 7) =~= name);
    } else {
        assert(p[5] == '\'');
        assert(p.take(6) =~= "name='"@);
        assert(p.take(6)[5] == '\'');
        assert(p.skip(6) =~= name + "'"@);
        assert(p.skip(6).skip(p.skip(6).len() - 1) =~= "'"@);
        assert(p.skip(6).take(p.len() - 7) =~= name);
    }
}

} // verus!
