//! Calls that a model wrote into its prose are recovered as they were meant.
use crate::json::json_object_of;
use crate::selection::{
    are_the_wanted, lemma_first_of_the_wanted, lemma_first_wanted_is_picked, lemma_none_of_none,
    lemma_one_more_in_front, lemma_some_are_wanted,
};
use crate::text::{contains, find_char_from, find_from, trim};
use crate::text_laws::{
    lemma_find_behind, lemma_find_char_behind, lemma_find_no_more, starts_once,
};
use crate::tool_call_normalization::{
    block_calls, call_key, distinct_calls, element_at, embedded_calls, function_calls, has_call,
    json_calls, json_candidates, parameters, repaired_call, xml_blocks, CallView, Element,
};
use vstd::prelude::*;

verus! {

/// A parameter as a model writes it, and what it writes in front of it.
pub ghost struct WrittenParameter {
    pub gap: Seq<char>,
    pub name: Seq<char>,
    pub value: Seq<char>,
}

impl WrittenParameter {
    pub open spec fn text(self) -> Seq<char> {
        self.gap + "<parameter="@ + self.name + ">"@ + self.value + "</parameter>"@
    }

    /// Whether the tags in the text are those of the parameter alone.
    pub open spec fn is_clear(self) -> bool {
        &&& !contains(self.gap, "<parameter="@)
        &&& !self.name.contains('>')
        &&& !contains(self.value, "</parameter>"@)
    }
}

/// Parameters one behind the other.
pub open spec fn parameter_text(ps: Seq<WrittenParameter>) -> Seq<char>
    decreases ps.len(),
{
    if ps.len() == 0 {
        Seq::empty()
    } else {
        ps[0].text() + parameter_text(ps.skip(1))
    }
}

pub open spec fn are_clear(ps: Seq<WrittenParameter>) -> bool {
    forall|i: int| 0 <= i < ps.len() ==> (#[trigger] ps[i]).is_clear()
}

/// The names and values of parameters, without the blanks around them.
pub open spec fn meant(ps: Seq<WrittenParameter>) -> Seq<(Seq<char>, Seq<char>)> {
    ps.map_values(|p: WrittenParameter| (trim(p.name), trim(p.value)))
}

proof fn lemma_tags()
    ensures
        starts_once("<parameter="@),
        starts_once("</parameter>"@),
        starts_once("<function="@),
        starts_once("</function>"@),
        ">"@ == seq!['>'],
{
    reveal_strlit("<parameter=");
    reveal_strlit("</parameter>");
    reveal_strlit("<function=");
    reveal_strlit("</function>");
    reveal_strlit(">");
    assert(">"@ =~= seq!['>']);
}

pub proof fn lemma_element_is_found(
    before: Seq<char>,
    name: Seq<char>,
    value: Seq<char>,
    closing: Seq<char>,
    after: Seq<char>,
    opening: nat,
)
    requires
        before.len() >= opening,
        !name.contains('>'),
        !contains(value, closing),
        starts_once(closing),
    ensures
        element_at(
            before + name + seq!['>'] + value + closing + after,
            before.len() - opening,
            opening,
            closing,
        ) == Some(
            Element {
                name_end: (before.len() + name.len()) as int,
                close: (before.len() + name.len() + 1 + value.len()) as int,
            },
        ),
{
    let s = before + name + seq!['>'] + value + closing + after;
    lemma_find_char_behind(before, name, '>', value + closing + after);
    assert(s =~= before + name + seq!['>'] + (value + closing + after));
    let head = before + name + seq!['>'];
    lemma_find_behind(head, value, closing, after);
    assert(s =~= head + value + closing + after);
}

#[verifier::rlimit(40)]
proof fn lemma_parameters_are_read(
    before: Seq<char>,
    ps: Seq<WrittenParameter>,
    tail: Seq<char>,
)
    requires
        are_clear(ps),
        !contains(tail, "<parameter="@),
    ensures
        parameters(before + parameter_text(ps) + tail, before.len() as int) == meant(ps),
    decreases ps.len(),
{
    lemma_tags();
    let s = before + parameter_text(ps) + tail;
    if ps.len() == 0 {
        assert(s =~= before + tail);
        lemma_find_no_more(before, tail, "<parameter="@);
        assert(meant(ps) =~= Seq::empty());
    } else {
        let p = ps[0];
        let rest = ps.skip(1);
        let open = "<parameter="@;
        let close = "</parameter>"@;
        let after = parameter_text(rest) + tail;
        assert(p.is_clear());
        lemma_find_behind(before, p.gap, open, p.name + ">"@ + p.value + close + after);
        assert(s =~= before + p.gap + open + (p.name + ">"@ + p.value + close + after));
        let head = before + p.gap + open;
        lemma_element_is_found(head, p.name, p.value, close, after, open.len());
        assert(s =~= head + p.name + seq!['>'] + p.value + close + after);
        let o = (before.len() + p.gap.len()) as int;
        let g = (head.len() + p.name.len()) as int;
        let c = g + 1 + p.value.len();
        assert(find_from(s, open, before.len() as int) == Some(o));
        assert(element_at(s, o, open.len(), close) == Some(Element { name_end: g, close: c }));
        assert(s.subrange(o + open.len(), g) =~= p.name);
        assert(s.subrange(g + 1, c) =~= p.value);
        let done = before + p.text();
        assert(are_clear(rest)) by {
            assert forall|i: int| 0 <= i < rest.len() implies (#[trigger] rest[i]).is_clear() by {
                assert(rest[i] == ps[i + 1]);
            }
        }
        lemma_parameters_are_read(done, rest, tail);
        assert(done + parameter_text(rest) + tail =~= s);
        assert(done.len() == c + close.len());
        assert(parameters(s, before.len() as int) == seq![(trim(p.name), trim(p.value))] + meant(
            rest,
        ));
        assert(meant(ps) =~= seq![(trim(p.name), trim(p.value))] + meant(rest));
    }
}

/// No parameter of a call is lost: what is read are the names and values of all parameters that
/// were written, in their order, without the blanks around them. A value may hold anything but its
/// own closing tag.
pub proof fn lemma_no_parameter_is_lost(ps: Seq<WrittenParameter>, tail: Seq<char>)
    requires
        are_clear(ps),
        !contains(tail, "<parameter="@),
    ensures
        parameters(parameter_text(ps) + tail, 0) == meant(ps),
{
    lemma_parameters_are_read(Seq::empty(), ps, tail);
    assert(Seq::<char>::empty() + parameter_text(ps) + tail =~= parameter_text(ps) + tail);
}

/// A call as a model writes it: what it writes in front of it, the name, the parameters, and what
/// it writes between them and the end.
pub ghost struct WrittenCall {
    pub gap: Seq<char>,
    pub name: Seq<char>,
    pub parameters: Seq<WrittenParameter>,
    pub tail: Seq<char>,
}

impl WrittenCall {
    pub open spec fn body(self) -> Seq<char> {
        parameter_text(self.parameters) + self.tail
    }

    pub open spec fn text(self) -> Seq<char> {
        self.gap + "<function="@ + self.name + ">"@ + self.body() + "</function>"@
    }

    /// Whether the call has a name, and the tags in the text are those of the call alone.
    pub open spec fn is_clear(self) -> bool {
        &&& !contains(self.gap, "<function="@)
        &&& !self.name.contains('>')
        &&& trim(self.name).len() > 0
        &&& are_clear(self.parameters)
        &&& !contains(self.tail, "<parameter="@)
        &&& !contains(self.body(), "</function>"@)
    }

    /// The call that is meant.
    pub open spec fn meant(self) -> CallView {
        let input = json_object_of(meant(self.parameters));
        CallView { name: trim(self.name), input, raw_input: input }
    }
}

/// Calls one behind the other.
pub open spec fn call_text(calls: Seq<WrittenCall>) -> Seq<char>
    decreases calls.len(),
{
    if calls.len() == 0 {
        Seq::empty()
    } else {
        calls[0].text() + call_text(calls.skip(1))
    }
}

pub open spec fn calls_are_clear(calls: Seq<WrittenCall>) -> bool {
    forall|i: int| 0 <= i < calls.len() ==> (#[trigger] calls[i]).is_clear()
}

/// Whether a call is one of a tool that may be called.
pub open spec fn may_be_called(known: Seq<Seq<char>>) -> spec_fn(WrittenCall) -> bool {
    |c: WrittenCall| known.len() == 0 || known.contains(trim(c.name))
}

pub open spec fn meant_call() -> spec_fn(WrittenCall) -> CallView {
    |c: WrittenCall| c.meant()
}

#[verifier::rlimit(40)]
proof fn lemma_first_call_is_read(
    before: Seq<char>,
    c: WrittenCall,
    after: Seq<char>,
    known: Seq<Seq<char>>,
)
    requires
        c.is_clear(),
    ensures
        function_calls(before + c.text() + after, known, before.len() as int) == (if may_be_called(
            known,
        )(c) {
            seq![c.meant()]
        } else {
            Seq::empty()
        }) + function_calls(
            before + c.text() + after,
            known,
            (before.len() + c.text().len()) as int,
        ),
{
    lemma_tags();
    let open = "<function="@;
    let close = "</function>"@;
    let body = c.body();
    let s = before + c.text() + after;
    lemma_find_behind(before, c.gap, open, c.name + ">"@ + body + close + after);
    assert(s =~= before + c.gap + open + (c.name + ">"@ + body + close + after));
    let head = before + c.gap + open;
    lemma_element_is_found(head, c.name, body, close, after, open.len());
    assert(s =~= head + c.name + seq!['>'] + body + close + after);
    let o = (before.len() + c.gap.len()) as int;
    let g = (head.len() + c.name.len()) as int;
    let e = g + 1 + body.len();
    assert(find_from(s, open, before.len() as int) == Some(o));
    assert(element_at(s, o, open.len(), close) == Some(Element { name_end: g, close: e }));
    assert(find_char_from(s, '>', o + open.len()) == Some(g));
    assert(find_from(s, close, g + 1) == Some(e));
    assert(s.subrange(o + open.len(), g) =~= c.name);
    assert(s.subrange(g + 1, e) =~= body);
    lemma_no_parameter_is_lost(c.parameters, c.tail);
    let rest = function_calls(s, known, e + close.len());
    assert(before.len() + c.text().len() == e + close.len());
    assert(Seq::<CallView>::empty() + rest =~= rest);
}

#[verifier::rlimit(40)]
proof fn lemma_calls_are_read(
    before: Seq<char>,
    calls: Seq<WrittenCall>,
    tail: Seq<char>,
    known: Seq<Seq<char>>,
)
    requires
        calls_are_clear(calls),
        !contains(tail, "<function="@),
    ensures
        are_the_wanted(
            function_calls(before + call_text(calls) + tail, known, before.len() as int),
            calls,
            may_be_called(known),
            meant_call(),
        ),
    decreases calls.len(),
{
    let s = before + call_text(calls) + tail;
    let wanted = may_be_called(known);
    let of = meant_call();
    if calls.len() == 0 {
        assert(s =~= before + tail);
        lemma_find_no_more(before, tail, "<function="@);
        lemma_none_of_none(wanted, of);
        assert(calls =~= Seq::empty());
    } else {
        let c = calls[0];
        let rest = calls.skip(1);
        let after = call_text(rest) + tail;
        let done = before + c.text();
        assert(c.is_clear());
        lemma_first_call_is_read(before, c, after, known);
        assert(s =~= before + c.text() + after);
        assert(calls_are_clear(rest)) by {
            assert forall|i: int| 0 <= i < rest.len() implies (#[trigger] rest[i]).is_clear() by {
                assert(rest[i] == calls[i + 1]);
            }
        }
        lemma_calls_are_read(done, rest, tail, known);
        assert(done + call_text(rest) + tail =~= s);
        let later = function_calls(s, known, done.len() as int);
        lemma_one_more_in_front(later, rest, wanted, of, c);
        assert(seq![c] + rest =~= calls);
        assert(Seq::<CallView>::empty() + later =~= later);
    }
}

/// No call of a tool is lost: what is read of a text with any number of calls in it are all those
/// of tools that may be called, in their order, each with all its parameters.
pub proof fn lemma_no_call_is_lost(
    calls: Seq<WrittenCall>,
    tail: Seq<char>,
    known: Seq<Seq<char>>,
)
    requires
        calls_are_clear(calls),
        !contains(tail, "<function="@),
    ensures
        are_the_wanted(
            function_calls(call_text(calls) + tail, known, 0),
            calls,
            may_be_called(known),
            meant_call(),
        ),
{
    lemma_calls_are_read(Seq::empty(), calls, tail, known);
    assert(Seq::<char>::empty() + call_text(calls) + tail =~= call_text(calls) + tail);
}

proof fn lemma_distinct_keeps(calls: Seq<CallView>, i: int)
    requires
        0 <= i < calls.len(),
    ensures
        has_call(distinct_calls(calls), call_key(calls[i])),
    decreases calls.len(),
{
    let before = distinct_calls(calls.drop_last());
    let key = call_key(calls[i]);
    if i < calls.len() - 1 {
        lemma_distinct_keeps(calls.drop_last(), i);
        let j = choose|j: int| 0 <= j < before.len() && call_key(#[trigger] before[j]) == key;
        assert(distinct_calls(calls)[j] == before[j]);
    } else if !has_call(before, key) {
        assert(distinct_calls(calls)[before.len() as int] == calls[i]);
    }
}

/// Whether a call, by its name and what it is called with, is among others.
pub open spec fn is_among(call: CallView, all: Seq<CallView>) -> bool {
    exists|j: int|
        0 <= j < all.len() && (#[trigger] all[j]).name + ":"@ + all[j].raw_input == call.name
            + ":"@ + call.raw_input
}

/// However a call is written, as JSON, as a function with parameters or as an element, it is among
/// those that a text holds.
pub proof fn lemma_every_call_is_taken_in(text: Seq<char>, known: Seq<Seq<char>>)
    ensures
        forall|i: int|
            0 <= i < json_calls(json_candidates(text), known).len() ==> is_among(
                #[trigger] json_calls(json_candidates(text), known)[i],
                embedded_calls(text, known),
            ),
        forall|i: int|
            0 <= i < function_calls(text, known, 0).len() ==> is_among(
                #[trigger] function_calls(text, known, 0)[i],
                embedded_calls(text, known),
            ),
        forall|i: int|
            0 <= i < block_calls(xml_blocks(text), known).len() ==> is_among(
                #[trigger] block_calls(xml_blocks(text), known)[i],
                embedded_calls(text, known),
            ),
{
    let a = json_calls(json_candidates(text), known);
    let b = function_calls(text, known, 0);
    let c = block_calls(xml_blocks(text), known);
    let all = a + b + c;
    let r = embedded_calls(text, known);
    assert(r == distinct_calls(all));
    assert forall|k: int| 0 <= k < all.len() implies is_among(#[trigger] all[k], r) by {
        lemma_distinct_keeps(all, k);
        let j = choose|j: int|
            0 <= j < r.len() && call_key(#[trigger] r[j]) == call_key(all[k]);
        assert(r[j].name + ":"@ + r[j].raw_input == all[k].name + ":"@ + all[k].raw_input);
    }
    assert forall|i: int| 0 <= i < a.len() implies is_among(#[trigger] a[i], r) by {
        assert(all[i] == a[i]);
    }
    assert forall|i: int| 0 <= i < b.len() implies is_among(#[trigger] b[i], r) by {
        assert(all[a.len() + i] == b[i]);
    }
    assert forall|i: int| 0 <= i < c.len() implies is_among(#[trigger] c[i], r) by {
        assert(all[a.len() + b.len() + i] == c[i]);
    }
}

/// Where a model wrote a call into the name of a tool, it is the first call there that is meant, with
/// all its parameters.
pub proof fn lemma_call_in_a_name_is_recovered(
    name: Seq<char>,
    raw_arguments: Seq<char>,
    calls: Seq<WrittenCall>,
    tail: Seq<char>,
)
    requires
        calls_are_clear(calls),
        calls.len() > 0,
        !contains(tail, "<function="@),
        name + raw_arguments == call_text(calls) + tail,
    ensures
        repaired_call(name, raw_arguments) == Some(calls[0].meant()),
{
    let known = Seq::<Seq<char>>::empty();
    let found = function_calls(call_text(calls) + tail, known, 0);
    lemma_no_call_is_lost(calls, tail, known);
    lemma_first_of_the_wanted(found, calls, may_be_called(known), meant_call(), 1);
    assert(may_be_called(known)(calls[0]));
    lemma_some_are_wanted(found, calls, may_be_called(known), meant_call());
    let first = if found.len() <= 1 {
        found
    } else {
        found.take(1)
    };
    lemma_first_wanted_is_picked(first, calls, may_be_called(known), meant_call(), 1, 0);
}

} // verus!
