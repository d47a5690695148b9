//! How texts are found, cut and joined: what becomes of a text that was put together from parts.
use crate::text::{
    ascii_lower, contains, find, find_char, find_char_from, find_from, is_ws, join,
    lemma_find_bounds, lemma_find_char_bounds, lemma_not_contained, lemma_trim_end_last,
    lemma_trim_end_prefix, lemma_trim_start_first, lines, occurs_at, replace, split_char, trim,
    trim_end, trim_start, word_len, words,
};
use vstd::prelude::*;

verus! {

/// Whether a text cannot overlap itself: its first character stands nowhere else in it.
pub open spec fn starts_once(p: Seq<char>) -> bool {
    p.len() > 0 && forall|i: int| 0 < i < p.len() ==> #[trigger] p[i] != p[0]
}

pub proof fn lemma_find_next(s: Seq<char>, p: Seq<char>, i: int, k: int)
    requires
        0 <= i <= k,
        occurs_at(s, p, k),
        forall|j: int| i <= j < k ==> !#[trigger] occurs_at(s, p, j),
    ensures
        find_from(s, p, i) == Some(k),
    decreases k - i,
{
    if i < k {
        assert(!occurs_at(s, p, i));
        lemma_find_next(s, p, i + 1, k);
    }
}

/// What is put behind a text that does not hold it is found behind it.
pub proof fn lemma_find_behind(before: Seq<char>, gap: Seq<char>, p: Seq<char>, after: Seq<char>)
    requires
        starts_once(p),
        !contains(gap, p),
    ensures
        find_from(before + gap + p + after, p, before.len() as int) == Some(
            (before.len() + gap.len()) as int,
        ),
{
    let s = before + gap + p + after;
    let b = before.len() as int;
    let k = b + gap.len();
    assert(s.subrange(k, k + p.len()) =~= p);
    lemma_not_contained(gap, p);
    assert forall|j: int| b <= j < k implies !#[trigger] occurs_at(s, p, j) by {
        if occurs_at(s, p, j) {
            if j + p.len() <= k {
                assert(gap.subrange(j - b, j - b + p.len()) =~= s.subrange(j, j + p.len()));
                assert(occurs_at(gap, p, j - b));
            } else {
                assert(s.subrange(j, j + p.len())[k - j] == s[k]);
                assert(s[k] == p[0]);
                assert(p[k - j] != p[0]);
            }
        }
    }
    lemma_find_next(s, p, b, k);
}

/// What stands in no part behind a place is not found from there on.
pub proof fn lemma_find_no_more(before: Seq<char>, tail: Seq<char>, p: Seq<char>)
    requires
        !contains(tail, p),
    ensures
        find_from(before + tail, p, before.len() as int) is None,
{
    let s = before + tail;
    let b = before.len() as int;
    lemma_find_bounds(s, p, b);
    lemma_not_contained(tail, p);
    if let Some(k) = find_from(s, p, b) {
        assert(tail.subrange(k - b, k - b + p.len()) =~= s.subrange(k, k + p.len()));
        assert(occurs_at(tail, p, k - b));
    }
}

pub proof fn lemma_find_char_behind(before: Seq<char>, gap: Seq<char>, c: char, after: Seq<char>)
    requires
        !gap.contains(c),
    ensures
        find_char_from(before + gap + seq![c] + after, c, before.len() as int) == Some(
            (before.len() + gap.len()) as int,
        ),
{
    let s = before + gap + seq![c] + after;
    let b = before.len() as int;
    let k = b + gap.len();
    lemma_find_char_bounds(s, c, b);
    assert(s[k] == c);
    assert forall|j: int| b <= j < k implies s[j] != c by {
        assert(s[j] == gap[j - b]);
    }
}

/// A text is found where it first stands, and not found only where it stands nowhere.
pub proof fn lemma_found_first(s: Seq<char>, p: Seq<char>)
    ensures
        match find(s, p) {
            Some(k) => occurs_at(s, p, k) && forall|j: int| j < k ==> !#[trigger] occurs_at(s, p, j),
            None => forall|j: int| !#[trigger] occurs_at(s, p, j),
        },
{
    lemma_find_bounds(s, p, 0);
    lemma_not_contained(s, p);
    if let Some(k) = find(s, p) {
        assert forall|j: int| j < k implies !#[trigger] occurs_at(s, p, j) by {
            if occurs_at(s, p, j) {
                lemma_not_past(s, p, 0, j);
            }
        }
    }
}

proof fn lemma_not_past(s: Seq<char>, p: Seq<char>, i: int, j: int)
    requires
        0 <= i <= j,
        occurs_at(s, p, j),
    ensures
        find_from(s, p, i) matches Some(k) && k <= j,
    decreases j - i,
{
    if s.subrange(i, i + p.len()) != p {
        lemma_not_past(s, p, i + 1, j);
    }
}

/// Trimming takes whitespace away at both ends, all of it and nothing else.
pub proof fn lemma_trim_takes_blanks_only(s: Seq<char>)
    ensures
        exists|i: int, j: int|
            0 <= i <= j <= s.len() && trim(s) == #[trigger] s.subrange(i, j) && (forall|k: int|
                0 <= k < i || j <= k < s.len() ==> is_ws(#[trigger] s[k])) && (i < j ==> !is_ws(s[i])
                && !is_ws(s[j - 1])),
{
    let t = trim_start(s);
    let i = s.len() - t.len();
    lemma_blanks_in_front(s);
    lemma_blanks_behind(t);
    lemma_trim_start_first(s);
    lemma_trim_end_prefix(t);
    lemma_trim_end_last(t);
    let j = i + trim(s).len();
    assert(s.subrange(i, j) =~= trim(s));
    assert forall|k: int| 0 <= k < i || j <= k < s.len() implies is_ws(#[trigger] s[k]) by {
        if k >= j {
            assert(t[k - i] == s[k]);
        }
    }
    if i < j {
        assert(s[i] == t[0]);
        assert(s[j - 1] == trim(s).last());
    }
}

proof fn lemma_blanks_in_front(s: Seq<char>)
    ensures
        trim_start(s).len() <= s.len(),
        trim_start(s) == s.skip(s.len() - trim_start(s).len()),
        forall|k: int| 0 <= k < s.len() - trim_start(s).len() ==> is_ws(#[trigger] s[k]),
    decreases s.len(),
{
    if s.len() > 0 && is_ws(s[0]) {
        lemma_blanks_in_front(s.skip(1));
        assert forall|k: int| 0 <= k < s.len() - trim_start(s).len() implies is_ws(
            #[trigger] s[k],
        ) by {
            if k > 0 {
                assert(s[k] == s.skip(1)[k - 1]);
            }
        }
    }
}

proof fn lemma_blanks_behind(s: Seq<char>)
    ensures
        trim_end(s).len() <= s.len(),
        forall|k: int| trim_end(s).len() <= k < s.len() ==> is_ws(#[trigger] s[k]),
    decreases s.len(),
{
    if s.len() > 0 && is_ws(s.last()) {
        lemma_blanks_behind(s.drop_last());
        assert forall|k: int| trim_end(s).len() <= k < s.len() implies is_ws(#[trigger] s[k]) by {
            if k < s.len() - 1 {
                assert(s[k] == s.drop_last()[k]);
            }
        }
    }
}

pub proof fn lemma_char_behind(a: Seq<char>, c: char, b: Seq<char>)
    requires
        !a.contains(c),
    ensures
        find_char(a + seq![c] + b, c) == Some(a.len() as int),
{
    lemma_find_char_behind(Seq::empty(), a, c, b);
    assert(Seq::<char>::empty() + a + seq![c] + b =~= a + seq![c] + b);
}

/// A line ends at its line feed, or at the carriage return in front of that; the last one ends
/// with the text.
pub proof fn lemma_lines_are_cut_at_feeds(line: Seq<char>, rest: Seq<char>)
    requires
        !line.contains('\n'),
    ensures
        line.len() > 0 ==> lines(line) == seq![line],
        !(line.len() > 0 && line.last() == '\r') ==> lines(line + seq!['\n'] + rest) == seq![line]
            + lines(rest),
        lines(line + seq!['\r', '\n'] + rest) == seq![line] + lines(rest),
{
    crate::text::lemma_find_char_absent(line, '\n', 0);
    let s = line + seq!['\n'] + rest;
    lemma_char_behind(line, '\n', rest);
    assert(s.take(line.len() as int) =~= line);
    assert(s.skip(line.len() as int + 1) =~= rest);
    let ended = line.push('\r');
    assert(!ended.contains('\n'));
    lemma_char_behind(ended, '\n', rest);
    let t = ended + seq!['\n'] + rest;
    assert(t =~= line + seq!['\r', '\n'] + rest);
    assert(t.take(ended.len() as int) =~= ended);
    assert(t.skip(ended.len() as int + 1) =~= rest);
    assert(ended.drop_last() =~= line);
}

/// A text is split at every separator, and nowhere else.
pub proof fn lemma_pieces_are_cut_at_separators(piece: Seq<char>, c: char, rest: Seq<char>)
    requires
        !piece.contains(c),
    ensures
        split_char(piece, c) == seq![piece],
        split_char(piece + seq![c] + rest, c) == seq![piece] + split_char(rest, c),
{
    crate::text::lemma_find_char_absent(piece, c, 0);
    let s = piece + seq![c] + rest;
    lemma_char_behind(piece, c, rest);
    assert(s.take(piece.len() as int) =~= piece);
    assert(s.skip(piece.len() as int + 1) =~= rest);
}

/// A word is what stands between whitespace.
pub proof fn lemma_words_are_cut_at_blanks(word: Seq<char>, c: char, rest: Seq<char>)
    requires
        word.len() > 0,
        forall|i: int| 0 <= i < word.len() ==> !is_ws(#[trigger] word[i]),
        is_ws(c),
    ensures
        words(Seq::empty()) == Seq::<Seq<char>>::empty(),
        words(seq![c] + rest) == words(rest),
        words(word) == seq![word],
        words(word + seq![c] + rest) == seq![word] + words(rest),
{
    assert((seq![c] + rest).skip(1) =~= rest);
    assert(trim_start(seq![c] + rest) == trim_start(rest));
    lemma_word_ends(word, Seq::empty());
    assert(word + Seq::<char>::empty() =~= word);
    assert(word.skip(word.len() as int) =~= Seq::<char>::empty());
    assert(word.take(word.len() as int) =~= word);
    let s = word + seq![c] + rest;
    lemma_word_ends(word, seq![c] + rest);
    assert(word + (seq![c] + rest) =~= s);
    assert(s[0] == word[0]);
    assert(s.skip(word.len() as int) =~= seq![c] + rest);
    assert(s.take(word.len() as int) =~= word);
}

proof fn lemma_word_ends(word: Seq<char>, rest: Seq<char>)
    requires
        forall|i: int| 0 <= i < word.len() ==> !is_ws(#[trigger] word[i]),
        rest.len() > 0 ==> is_ws(rest[0]),
    ensures
        word_len(word + rest) == word.len(),
    decreases word.len(),
{
    if word.len() > 0 {
        assert((word + rest).skip(1) =~= word.skip(1) + rest);
        assert forall|i: int| 0 <= i < word.skip(1).len() implies !is_ws(
            #[trigger] word.skip(1)[i],
        ) by {
            assert(word.skip(1)[i] == word[i + 1]);
        }
        lemma_word_ends(word.skip(1), rest);
    } else {
        assert(word + rest =~= rest);
    }
}

/// Joined parts stand one behind the other, with the separator between any two.
pub proof fn lemma_joined_parts(parts: Seq<Seq<char>>, part: Seq<char>, sep: Seq<char>)
    ensures
        join(Seq::empty(), sep) == Seq::<char>::empty(),
        join(seq![part], sep) == part,
        parts.len() > 0 ==> join(parts.push(part), sep) == join(parts, sep) + sep + part,
{
    assert(parts.push(part).drop_last() =~= parts);
}

/// Every occurrence is replaced, and the rest is kept.
pub proof fn lemma_replaced_parts(
    before: Seq<char>,
    from: Seq<char>,
    to: Seq<char>,
    rest: Seq<char>,
)
    requires
        from.len() > 0,
        !contains(before, from),
        forall|j: int| j < before.len() ==> !#[trigger] occurs_at(before + from + rest, from, j),
    ensures
        replace(before, from, to) == before,
        replace(before + from + rest, from, to) == before + to + replace(rest, from, to),
{
    let s = before + from + rest;
    let k = before.len() as int;
    assert(s.subrange(k, k + from.len()) =~= from);
    assert(occurs_at(s, from, k));
    lemma_find_next(s, from, 0, k);
    assert(s.take(k) =~= before);
    assert(s.skip(k + from.len()) =~= rest);
}

/// Letters from A to Z are made small; any other character stays what it is.
pub proof fn lemma_lower_letters(s: Seq<char>)
    ensures
        ascii_lower(s).len() == s.len(),
        forall|i: int|
            0 <= i < s.len() ==> (if 'A' <= s[i] <= 'Z' {
                #[trigger] ascii_lower(s)[i] as u32 == s[i] as u32 - 'A' as u32 + 'a' as u32
            } else {
                ascii_lower(s)[i] == s[i]
            }),
{
}

} // verus!
