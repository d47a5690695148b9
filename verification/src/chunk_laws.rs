//! How a text is cut into chunks.
use crate::rag::{
    byte_slice, char_at_byte, chunk_end, chunk_limit, chunk_step, chunked, chunks_from,
    cuts_cleanly, last_space, lemma_char_at_byte, lemma_chunk_end, lemma_offsets_order,
    lemma_slice_len, next_start,
};
use crate::selection::{are_the_wanted, lemma_none_of_none, lemma_one_more_in_front};
use crate::text::{lemma_utf8_len_add, trim, utf8_len};
use vstd::prelude::*;

verus! {

/// A piece of a text, from the `first` character to before the `last`.
pub ghost struct Cut {
    pub first: int,
    pub last: int,
}

/// The byte at which the `i`-th character of a text starts.
pub open spec fn byte_of(t: Seq<char>, i: int) -> int {
    utf8_len(t.take(i)) as int
}

/// Whether the `i`-th character of a text is a blank that starts at one of these bytes.
pub open spec fn is_blank_between(t: Seq<char>, from: int, to: int, i: int) -> bool {
    0 <= i < t.len() && t[i] == ' ' && from <= byte_of(t, i) < to
}

/// Whether a piece ends where it should: with the text, where it reaches so far; else before the
/// last blank in its second part, and where that holds none, as late as it may.
pub open spec fn ends_well(t: Seq<char>, chunk_size: int, overlap: int, cut: Cut) -> bool {
    let start = byte_of(t, cut.first);
    let limit = start + chunk_size;
    let from = start + (if chunk_size - overlap > 1 {
        chunk_size - overlap
    } else {
        1
    }) / 2;
    if limit >= utf8_len(t) {
        cut.last == t.len()
    } else {
        &&& is_blank_between(t, from, limit, cut.last) || byte_of(t, cut.last) == limit
        &&& forall|i: int| #[trigger]
            is_blank_between(t, from, limit, i) ==> is_blank_between(t, from, limit, cut.last) && i
                <= cut.last
    }
}

/// Whether a piece that is cut from a text is one of its pieces, no larger than a chunk may be.
pub open spec fn is_cut(t: Seq<char>, chunk_size: int, overlap: int, cut: Cut) -> bool {
    &&& 0 <= cut.first <= cut.last <= t.len()
    &&& byte_of(t, cut.last) - byte_of(t, cut.first) <= chunk_size
    &&& ends_well(t, chunk_size, overlap, cut)
}

/// Whether the second piece starts `overlap` bytes before the end of the first.
pub open spec fn overlaps(t: Seq<char>, overlap: int, cut: Cut, next: Cut) -> bool {
    let end = byte_of(t, cut.last);
    byte_of(t, next.first) == if end > overlap {
        end - overlap
    } else {
        end
    }
}

/// Whether the pieces take in a text from byte `start` to its end, each overlapping the next.
pub open spec fn are_cuts(
    t: Seq<char>,
    chunk_size: int,
    overlap: int,
    start: int,
    cuts: Seq<Cut>,
) -> bool {
    &&& cuts.len() > 0
    &&& byte_of(t, cuts[0].first) == start
    &&& cuts.last().last == t.len()
    &&& forall|k: int| 0 <= k < cuts.len() ==> is_cut(t, chunk_size, overlap, #[trigger] cuts[k])
    &&& forall|k: int|
        0 <= k < cuts.len() - 1 ==> overlaps(t, overlap, #[trigger] cuts[k], cuts[k + 1])
}

/// Whether a piece is more than blanks.
pub open spec fn says_something(t: Seq<char>) -> spec_fn(Cut) -> bool {
    |c: Cut| trim(t.subrange(c.first, c.last)).len() > 0
}

pub open spec fn trimmed_piece(t: Seq<char>) -> spec_fn(Cut) -> Seq<char> {
    |c: Cut| trim(t.subrange(c.first, c.last))
}

proof fn lemma_last_space_is_last(s: Seq<char>)
    ensures
        match last_space(s) {
            Some(k) => 0 <= k < s.len() && s[k] == ' ' && forall|i: int|
                k < i < s.len() ==> #[trigger] s[i] != ' ',
            None => forall|i: int| 0 <= i < s.len() ==> #[trigger] s[i] != ' ',
        },
    decreases s.len(),
{
    if s.len() > 0 && s.last() != ' ' {
        lemma_last_space_is_last(s.drop_last());
        assert forall|i: int| 0 <= i < s.len() - 1 implies #[trigger] s[i] == s.drop_last()[i] by {}
    }
}

proof fn lemma_offsets_strict(t: Seq<char>, i: int, j: int)
    requires
        0 <= i < j <= t.len(),
    ensures
        byte_of(t, i) < byte_of(t, j),
{
    if byte_of(t, j) <= byte_of(t, i) {
        lemma_offsets_order(t, j, i);
    }
}

/// Blanks between two bytes are those of what stands between them.
proof fn lemma_blanks_between(t: Seq<char>, a: int, b: int, i: int)
    requires
        0 <= a <= b <= t.len(),
    ensures
        is_blank_between(t, byte_of(t, a), byte_of(t, b), i) <==> a <= i < b && t.subrange(a, b)[i
            - a] == ' ',
{
    if 0 <= i < a {
        lemma_offsets_strict(t, i, a);
    }
    if a < i <= t.len() {
        lemma_offsets_strict(t, a, i);
    }
    if b < i <= t.len() {
        lemma_offsets_strict(t, b, i);
    }
    if 0 <= i < b {
        lemma_offsets_strict(t, i, b);
    }
}

proof fn lemma_cut_before_blank(t: Seq<char>, a: int, b: int) -> (last: int)
    requires
        0 <= a <= b <= t.len(),
    ensures
        match last_space(t.subrange(a, b)) {
            Some(k) => last == a + k && byte_of(t, last) == byte_of(t, a) + utf8_len(
                t.subrange(a, b).take(k),
            ) && is_blank_between(t, byte_of(t, a), byte_of(t, b), last),
            None => last == b,
        },
        0 <= last <= t.len(),
        forall|i: int| #[trigger]
            is_blank_between(t, byte_of(t, a), byte_of(t, b), i) ==> is_blank_between(
                t,
                byte_of(t, a),
                byte_of(t, b),
                last,
            ) && i <= last,
{
    let part = t.subrange(a, b);
    lemma_last_space_is_last(part);
    let last = match last_space(part) {
        Some(k) => a + k,
        None => b,
    };
    if let Some(k) = last_space(part) {
        lemma_utf8_len_add(t.take(a), part.take(k));
        assert(t.take(a) + part.take(k) =~= t.take(a + k));
        lemma_blanks_between(t, a, b, last);
    }
    assert forall|i: int| #[trigger]
        is_blank_between(t, byte_of(t, a), byte_of(t, b), i) implies is_blank_between(
        t,
        byte_of(t, a),
        byte_of(t, b),
        last,
    ) && i <= last by {
        lemma_blanks_between(t, a, b, i);
        assert(part[i - a] == ' ');
    }
    last
}

/// The piece that a chunk is cut from, by its characters.
#[verifier::spinoff_prover]
#[verifier::rlimit(40)]
proof fn lemma_cut(t: Seq<char>, chunk_size: int, overlap: int, start: int) -> (cut: Cut)
    requires
        0 < chunk_size,
        0 <= overlap,
        0 <= start < utf8_len(t),
        cuts_cleanly(t, chunk_size, overlap, start),
    ensures
        is_cut(t, chunk_size, overlap, cut),
        byte_of(t, cut.first) == start,
        byte_of(t, cut.last) == chunk_end(t, chunk_size, overlap, start),
        byte_slice(t, start, chunk_end(t, chunk_size, overlap, start)) == t.subrange(
            cut.first,
            cut.last,
        ),
{
    let end = chunk_end(t, chunk_size, overlap, start);
    lemma_chunk_end(t, chunk_size, overlap, start);
    lemma_slice_len(t, start, end);
    let first = char_at_byte(t, start);
    let limit = chunk_limit(t, chunk_size, start);
    let from = start + chunk_step(chunk_size, overlap) / 2;
    if limit < utf8_len(t) {
        lemma_slice_len(t, from, limit);
        let a = char_at_byte(t, from);
        let b = char_at_byte(t, limit);
        let last = lemma_cut_before_blank(t, a, b);
        assert(byte_of(t, a) == from && byte_of(t, b) == limit);
        assert(byte_of(t, last) == end);
        lemma_char_at_byte(t, last);
        Cut { first, last }
    } else {
        assert(t.take(t.len() as int) =~= t);
        lemma_char_at_byte(t, t.len() as int);
        Cut { first, last: t.len() as int }
    }
}

#[verifier::spinoff_prover]
#[verifier::rlimit(40)]
proof fn lemma_cut_in_front(
    t: Seq<char>,
    chunk_size: int,
    overlap: int,
    cut: Cut,
    later: Seq<Cut>,
    next: int,
)
    requires
        is_cut(t, chunk_size, overlap, cut),
        are_cuts(t, chunk_size, overlap, next, later),
        next == next_start(overlap, byte_of(t, cut.last)),
    ensures
        are_cuts(t, chunk_size, overlap, byte_of(t, cut.first), seq![cut] + later),
{
    let cuts = seq![cut] + later;
    assert(cuts.last() == later.last());
    assert forall|k: int| 0 <= k < cuts.len() implies is_cut(
        t,
        chunk_size,
        overlap,
        #[trigger] cuts[k],
    ) by {
        if k > 0 {
            assert(cuts[k] == later[k - 1]);
        }
    }
    assert forall|k: int| 0 <= k < cuts.len() - 1 implies overlaps(
        t,
        overlap,
        #[trigger] cuts[k],
        cuts[k + 1],
    ) by {
        assert(cuts[k + 1] == later[k]);
        if k > 0 {
            assert(cuts[k] == later[k - 1]);
            assert(overlaps(t, overlap, later[k - 1], later[k - 1 + 1]));
        }
    }
}

#[verifier::spinoff_prover]
#[verifier::rlimit(40)]
proof fn lemma_chunks_are_cut(
    t: Seq<char>,
    chunk_size: int,
    overlap: int,
    start: int,
    steps: nat,
) -> (cuts: Seq<Cut>)
    requires
        0 < chunk_size,
        0 <= overlap,
        0 <= start < utf8_len(t),
        chunks_from(t, chunk_size, overlap, start, steps) is Some,
    ensures
        are_cuts(t, chunk_size, overlap, start, cuts),
        are_the_wanted(
            chunks_from(t, chunk_size, overlap, start, steps)->0,
            cuts,
            says_something(t),
            trimmed_piece(t),
        ),
    decreases steps,
{
    let end = chunk_end(t, chunk_size, overlap, start);
    let piece = trim(byte_slice(t, start, end));
    let cut = lemma_cut(t, chunk_size, overlap, start);
    assert(t.take(t.len() as int) =~= t);
    let wanted = says_something(t);
    let of = trimmed_piece(t);
    let nothing = Seq::<Seq<char>>::empty();
    if end >= utf8_len(t) {
        if cut.last < t.len() {
            lemma_offsets_strict(t, cut.last, t.len() as int);
        }
        let none = Seq::<Cut>::empty();
        lemma_none_of_none(wanted, of);
        lemma_one_more_in_front(nothing, none, wanted, of, cut);
        let cuts = seq![cut];
        assert(cuts =~= seq![cut] + none);
        assert(seq![piece] + nothing =~= seq![piece]);
        cuts
    } else {
        let next = next_start(overlap, end);
        lemma_chunk_end(t, chunk_size, overlap, start);
        let later = lemma_chunks_are_cut(t, chunk_size, overlap, next, (steps - 1) as nat);
        let rest = chunks_from(t, chunk_size, overlap, next, (steps - 1) as nat)->0;
        lemma_one_more_in_front(rest, later, wanted, of, cut);
        lemma_cut_in_front(t, chunk_size, overlap, cut, later, next);
        assert(nothing + rest =~= rest);
        seq![cut] + later
    }
}

/// The chunks of a text are what its pieces say. The pieces begin with the text and end with it,
/// each but the last ends before a blank where there is one to end at, and each begins `overlap`
/// bytes before the end of the one in front of it.
pub proof fn lemma_chunks_overlap(text: Seq<char>, chunk_size: int, overlap: int)
    requires
        0 < chunk_size,
        0 <= overlap,
        trim(text).len() > 0,
        chunked(text, chunk_size, overlap) is Some,
    ensures
        exists|cuts: Seq<Cut>|
            {
                &&& #[trigger] are_cuts(trim(text), chunk_size, overlap, 0, cuts)
                &&& are_the_wanted(
                    chunked(text, chunk_size, overlap)->0,
                    cuts,
                    says_something(trim(text)),
                    trimmed_piece(trim(text)),
                )
            },
{
    let t = trim(text);
    assert(utf8_len(t) > 0) by {
        lemma_offsets_strict(t, 0, t.len() as int);
        assert(t.take(t.len() as int) =~= t);
    }
    let cuts = lemma_chunks_are_cut(t, chunk_size, overlap, 0, utf8_len(t) + 1);
    assert(are_cuts(t, chunk_size, overlap, 0, cuts));
}

/// What two pieces in a row have in common is the last `overlap` bytes of the first.
#[verifier::spinoff_prover]
#[verifier::rlimit(40)]
pub proof fn lemma_overlap_is_shared(
    t: Seq<char>,
    chunk_size: int,
    overlap: int,
    cuts: Seq<Cut>,
    k: int,
)
    requires
        0 <= overlap,
        are_cuts(t, chunk_size, overlap, 0, cuts),
        0 <= k < cuts.len() - 1,
        byte_of(t, cuts[k].last) > overlap,
    ensures
        cuts[k + 1].first <= cuts[k].last,
        utf8_len(t.subrange(cuts[k + 1].first, cuts[k].last)) == overlap,
{
    let cut = cuts[k];
    let next = cuts[k + 1];
    assert(is_cut(t, chunk_size, overlap, cut) && is_cut(t, chunk_size, overlap, next) && overlaps(
        t,
        overlap,
        cut,
        next,
    ));
    lemma_shared_bytes(t, overlap, cut, next);
}

proof fn lemma_shared_bytes(t: Seq<char>, overlap: int, cut: Cut, next: Cut)
    requires
        0 <= overlap < byte_of(t, cut.last),
        0 <= cut.last <= t.len(),
        0 <= next.first <= t.len(),
        overlaps(t, overlap, cut, next),
    ensures
        next.first <= cut.last,
        utf8_len(t.subrange(next.first, cut.last)) == overlap,
{
    let a = next.first;
    let b = cut.last;
    lemma_offsets_order(t, a, b);
    lemma_utf8_len_add(t.take(a), t.subrange(a, b));
    assert(t.take(a) + t.subrange(a, b) =~= t.take(b));
}

} // verus!
