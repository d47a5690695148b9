//! What is found in an index, and what is put into it.
use crate::rag::{comparable, dotted_extension, indexed_extensions, is_indexed, vector_for};
use crate::selection::{are_the_wanted, lemma_none_of_none, lemma_one_more};
use crate::sorting::{desc_before, is_desc_order};
use crate::text::rfind_from;
use vstd::prelude::*;

verus! {

/// The numbers below `n`.
pub open spec fn numbers(n: nat) -> Seq<int> {
    Seq::new(n, |i: int| i)
}

pub open spec fn has_length(lengths: Seq<usize>, length: usize) -> spec_fn(int) -> bool {
    |i: int| lengths[i] == length
}

pub open spec fn as_number() -> spec_fn(int) -> usize {
    |i: int| i as usize
}

/// A query is compared with every row whose vector has its length, and with no other.
pub proof fn lemma_no_comparable_row_is_lost(lengths: Seq<usize>, query: usize)
    ensures
        are_the_wanted(
            comparable(lengths, query),
            numbers(lengths.len()),
            has_length(lengths, query),
            as_number(),
        ),
{
    lemma_comparable_rows(lengths, query, lengths.len() as int);
    assert(lengths.take(lengths.len() as int) =~= lengths);
}

proof fn lemma_comparable_rows(lengths: Seq<usize>, query: usize, n: int)
    requires
        0 <= n <= lengths.len(),
    ensures
        are_the_wanted(
            comparable(lengths.take(n), query),
            numbers(n as nat),
            has_length(lengths, query),
            as_number(),
        ),
    decreases n,
{
    let wanted = has_length(lengths, query);
    if n == 0 {
        lemma_none_of_none(wanted, as_number());
        assert(numbers(0) =~= Seq::empty());
        assert(comparable(lengths.take(0), query) =~= Seq::empty());
    } else {
        lemma_comparable_rows(lengths, query, n - 1);
        assert(lengths.take(n).drop_last() =~= lengths.take(n - 1));
        lemma_one_more(
            comparable(lengths.take(n - 1), query),
            numbers((n - 1) as nat),
            wanted,
            as_number(),
            n - 1,
        );
        assert(numbers((n - 1) as nat).push(n - 1) =~= numbers(n as nat));
    }
}

/// The first hits are the best: none that is left out has a higher key than one that is taken, and
/// those that are taken come in the order of falling keys.
pub proof fn lemma_hits_are_the_best(keys: Seq<u64>, order: Seq<usize>, k: int)
    requires
        is_desc_order(keys, order),
        0 <= k <= order.len(),
    ensures
        forall|i: int, j: int|
            0 <= i < k && k <= j < order.len() ==> keys[#[trigger] order[i] as int]
                >= keys[#[trigger] order[j] as int],
        forall|i: int, j: int|
            0 <= i < j < k ==> keys[#[trigger] order[i] as int] >= keys[#[trigger] order[j] as int],
        forall|i: int, j: int|
            0 <= i < j < order.len() ==> #[trigger] order[i] != #[trigger] order[j],
{
    assert forall|i: int, j: int| 0 <= i < j < order.len() implies keys[#[trigger] order[i] as int]
        >= keys[#[trigger] order[j] as int] && order[i] != order[j] by {
        assert(desc_before(keys, order[i] as int, order[j] as int));
    }
}

/// A text gets the vector that the answer gives under its number, the last one where there are
/// several; and no other.
pub proof fn lemma_vector_stands_under_its_number<T>(items: Seq<(usize, Vec<T>)>, i: int)
    requires
        0 <= i < items.len(),
        forall|j: int| i < j < items.len() ==> (#[trigger] items[j]).0 != items[i].0,
    ensures
        vector_for(items, items[i].0 as int) == items[i].1@,
    decreases items.len(),
{
    if i < items.len() - 1 {
        assert(items[items.len() - 1].0 != items[i].0);
        let before = items.drop_last();
        assert forall|j: int| i < j < before.len() implies (#[trigger] before[j]).0
            != before[i].0 by {
            assert(before[j] == items[j]);
        }
        lemma_vector_stands_under_its_number(before, i);
    }
}

/// A text that the answer does not name gets none.
pub proof fn lemma_unnamed_text_has_no_vector<T>(items: Seq<(usize, Vec<T>)>, index: int)
    requires
        forall|j: int| 0 <= j < items.len() ==> (#[trigger] items[j]).0 != index,
    ensures
        vector_for(items, index) == Seq::<T>::empty(),
    decreases items.len(),
{
    if items.len() > 0 {
        assert(items[items.len() - 1].0 != index);
        let before = items.drop_last();
        assert forall|j: int| 0 <= j < before.len() implies (#[trigger] before[j]).0 != index by {
            assert(before[j] == items[j]);
        }
        lemma_unnamed_text_has_no_vector(before, index);
    }
}

/// The ending of a file name begins at its last dot, unless the name begins with that.
pub proof fn lemma_ending_begins_at_the_last_dot(stem: Seq<char>, ending: Seq<char>)
    requires
        !ending.contains('.'),
    ensures
        stem.len() > 0 ==> dotted_extension(stem + seq!['.'] + ending) == Some(
            seq!['.'] + ending,
        ),
        dotted_extension(seq!['.'] + ending) is None,
        dotted_extension(ending) is None,
{
    reveal_strlit(".");
    let name = stem + seq!['.'] + ending;
    assert(name =~= stem + (seq!['.'] + ending));
    lemma_last_dot(stem, ending, name.len() as int);
    assert(name.skip(stem.len() as int) =~= seq!['.'] + ending);
    let hidden = seq!['.'] + ending;
    assert(Seq::<char>::empty() + seq!['.'] + ending =~= hidden);
    lemma_last_dot(Seq::empty(), ending, hidden.len() as int);
    lemma_no_dot(ending, ending.len() as int);
}

proof fn lemma_last_dot(stem: Seq<char>, ending: Seq<char>, i: int)
    requires
        !ending.contains('.'),
        stem.len() <= i <= stem.len() + 1 + ending.len(),
    ensures
        rfind_from(stem + seq!['.'] + ending, "."@, i) == Some(stem.len() as int),
    decreases i,
{
    reveal_strlit(".");
    let s = stem + seq!['.'] + ending;
    if i == stem.len() {
        assert(s.subrange(i, i + 1) =~= "."@);
    } else {
        if i < s.len() {
            assert(s[i] == ending[i - stem.len() - 1]);
            assert(s.subrange(i, i + 1)[0] == s[i]);
        }
        lemma_last_dot(stem, ending, i - 1);
    }
}

proof fn lemma_no_dot(s: Seq<char>, i: int)
    requires
        !s.contains('.'),
        i <= s.len(),
    ensures
        rfind_from(s, "."@, i) is None,
    decreases i + 1,
{
    reveal_strlit(".");
    if i >= 0 {
        if i < s.len() {
            assert(s.subrange(i, i + 1)[0] == s[i]);
        }
        lemma_no_dot(s, i - 1);
    }
}

/// A file is indexed by the ending of its name: each of these is, and it makes no difference in which
/// directory the file is.
pub proof fn lemma_files_are_indexed_by_their_ending(path: Seq<char>, stem: Seq<char>)
    requires
        crate::paths::segments(path).len() > 0,
        stem.len() > 0,
    ensures
        crate::paths::segments(path).last() == stem + ".md"@ ==> is_indexed(path),
        crate::paths::segments(path).last() == stem + ".txt"@ ==> is_indexed(path),
        crate::paths::segments(path).last() == stem + ".rs"@ ==> is_indexed(path),
        crate::paths::segments(path).last() == stem + ".py"@ ==> is_indexed(path),
        crate::paths::segments(path).last() == stem + ".json"@ ==> is_indexed(path),
        !stem.contains('.') && crate::paths::segments(path).last() == stem ==> !is_indexed(path),
{
    reveal_strlit(".md");
    reveal_strlit(".txt");
    reveal_strlit(".rs");
    reveal_strlit(".py");
    reveal_strlit(".json");
    let all = indexed_extensions();
    lemma_known_ending(stem, seq!['m', 'd'], ".md"@);
    lemma_known_ending(stem, seq!['t', 'x', 't'], ".txt"@);
    lemma_known_ending(stem, seq!['r', 's'], ".rs"@);
    lemma_known_ending(stem, seq!['p', 'y'], ".py"@);
    lemma_known_ending(stem, seq!['j', 's', 'o', 'n'], ".json"@);
    assert(all.contains(all[0]) && all.contains(all[1]) && all.contains(all[3]) && all.contains(
        all[4],
    ) && all.contains(all[6]));
    if !stem.contains('.') {
        lemma_ending_begins_at_the_last_dot(stem, stem);
    }
}

proof fn lemma_known_ending(stem: Seq<char>, letters: Seq<char>, ending: Seq<char>)
    requires
        stem.len() > 0,
        !letters.contains('.'),
        ending =~= seq!['.'] + letters,
    ensures
        dotted_extension(stem + ending) == Some(ending),
{
    lemma_ending_begins_at_the_last_dot(stem, letters);
    assert(stem + seq!['.'] + letters =~= stem + ending);
}

} // verus!
