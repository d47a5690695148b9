//! Sorting strings and paths.
use crate::paths::{components, path_components};
use crate::text::{contains_string, str_eq, to_chars, views};
use vstd::prelude::*;

verus! {

/// Whether `a` comes before `b`, or is `b`, when strings are ordered by their characters.
pub open spec fn lex_le(a: Seq<char>, b: Seq<char>) -> bool
    decreases a.len(),
{
    if a.len() == 0 {
        true
    } else if b.len() == 0 {
        false
    } else if a[0] != b[0] {
        a[0] < b[0]
    } else {
        lex_le(a.skip(1), b.skip(1))
    }
}

/// Each string comes before the next one, or is the same.
pub open spec fn is_sorted(s: Seq<Seq<char>>) -> bool {
    forall|i: int, j: int| 0 <= i <= j < s.len() ==> lex_le(#[trigger] s[i], #[trigger] s[j])
}

pub proof fn lemma_lex_total(a: Seq<char>, b: Seq<char>)
    ensures
        lex_le(a, a),
        lex_le(a, b) || lex_le(b, a),
        lex_le(a, b) && lex_le(b, a) ==> a == b,
    decreases a.len(),
{
    if a.len() > 0 {
        lemma_lex_total(a.skip(1), a.skip(1));
    }
    if a.len() > 0 && b.len() > 0 {
        if a[0] == b[0] {
            lemma_lex_total(a.skip(1), b.skip(1));
            if lex_le(a, b) && lex_le(b, a) {
                assert(a =~= seq![a[0]] + a.skip(1));
                assert(b =~= seq![b[0]] + b.skip(1));
            }
        }
    } else if lex_le(a, b) && lex_le(b, a) {
        assert(a =~= b);
    }
}

pub proof fn lemma_lex_transitive(a: Seq<char>, b: Seq<char>, c: Seq<char>)
    requires
        lex_le(a, b),
        lex_le(b, c),
    ensures
        lex_le(a, c),
    decreases a.len(),
{
    if a.len() > 0 && b.len() > 0 && c.len() > 0 && a[0] == b[0] && b[0] == c[0] {
        lemma_lex_transitive(a.skip(1), b.skip(1), c.skip(1));
    }
}

pub fn lex_le_str(a: &str, b: &str) -> (r: bool)
    ensures
        r == lex_le(a@, b@),
{
    let v = to_chars(a);
    let w = to_chars(b);
    let mut i: usize = 0;
    assert(v@.skip(0) =~= a@);
    assert(w@.skip(0) =~= b@);
    loop
        invariant
            i <= v@.len(),
            i <= w@.len(),
            lex_le(v@.skip(i as int), w@.skip(i as int)) == lex_le(a@, b@),
        decreases v@.len() - i,
    {
        if i == v.len() {
            return true;
        }
        if i == w.len() {
            return false;
        }
        assert(v@.skip(i as int)[0] == v@[i as int]);
        assert(w@.skip(i as int)[0] == w@[i as int]);
        if v[i] != w[i] {
            return v[i] < w[i];
        }
        assert(v@.skip(i as int).skip(1) =~= v@.skip(i + 1));
        assert(w@.skip(i as int).skip(1) =~= w@.skip(i + 1));
        i = i + 1;
    }
}

proof fn lemma_insert_to_multiset(s: Seq<Seq<char>>, at: int, x: Seq<char>)
    requires
        0 <= at <= s.len(),
    ensures
        s.insert(at, x).to_multiset() == s.to_multiset().insert(x),
{
    let t = s.insert(at, x);
    t.to_multiset_ensures();
    assert(t.remove(at) =~= s);
    assert(t[at] == x);
    assert(t.contains(x));
    assert(t.to_multiset() =~= t.to_multiset().remove(x).insert(x));
}

/// Sorts strings by their characters.
pub fn sort_strs(v: &Vec<String>) -> (r: Vec<String>)
    ensures
        is_sorted(views(r@)),
        views(r@).to_multiset() == views(v@).to_multiset(),
{
    let mut r: Vec<String> = Vec::new();
    let mut i: usize = 0;
    assert(views(r@) =~= views(v@).take(0));
    while i < v.len()
        invariant
            i <= v@.len(),
            is_sorted(views(r@)),
            views(r@).to_multiset() == views(v@).take(i as int).to_multiset(),
        decreases v@.len() - i,
    {
        let ghost before = views(r@);
        let ghost x = v@[i as int]@;
        let at = insertion_point(&r, v[i].as_str());
        r.insert(at, v[i].clone());
        proof {
            assert(views(r@) =~= before.insert(at as int, x));
            lemma_insert_to_multiset(before, at as int, x);
            let done = views(v@).take(i as int);
            assert(views(v@).take(i + 1) =~= done.push(x));
            done.to_multiset_ensures();
            before.to_multiset_ensures();
            assert(done.push(x).to_multiset() =~= done.to_multiset().insert(x));
            assert(is_sorted(before.insert(at as int, x))) by {
                let after = before.insert(at as int, x);
                assert forall|j: int, k: int| 0 <= j <= k < after.len() implies lex_le(
                    #[trigger] after[j],
                    #[trigger] after[k],
                ) by {
                    lemma_lex_total(after[j], after[k]);
                    if j < at && k == at {
                        assert(after[j] == before[j]);
                    } else if j == at && k > at {
                        assert(after[k] == before[k - 1]);
                        if k - 1 > at {
                            assert(lex_le(before[at as int], before[k - 1]));
                            lemma_lex_transitive(x, before[at as int], before[k - 1]);
                        }
                    } else if j < at && k > at {
                        assert(after[j] == before[j] && after[k] == before[k - 1]);
                    } else if k < at {
                        assert(after[j] == before[j] && after[k] == before[k]);
                    } else if j > at {
                        assert(after[j] == before[j - 1] && after[k] == before[k - 1]);
                    }
                }
            }
        }
        i = i + 1;
    }
    assert(views(v@).take(v@.len() as int) =~= views(v@));
    r
}

/// Where `s` belongs among the sorted strings: behind those that do not come after it.
fn insertion_point(v: &Vec<String>, s: &str) -> (at: usize)
    requires
        is_sorted(views(v@)),
    ensures
        at <= v@.len(),
        forall|j: int| 0 <= j < at ==> lex_le(#[trigger] views(v@)[j], s@),
        at < v@.len() ==> lex_le(s@, views(v@)[at as int]),
{
    let mut at: usize = 0;
    while at < v.len() && lex_le_str(v[at].as_str(), s)
        invariant
            at <= v@.len(),
            forall|j: int| 0 <= j < at ==> lex_le(#[trigger] views(v@)[j], s@),
        decreases v@.len() - at,
    {
        assert(views(v@)[at as int] == v@[at as int]@);
        at = at + 1;
    }
    proof {
        if at < v@.len() {
            assert(views(v@)[at as int] == v@[at as int]@);
            lemma_lex_total(v@[at as int]@, s@);
        }
    }
    at
}

/// Whether the item at `a` comes before the one at `b` when items are ordered by falling keys,
/// and items with one key stay in the order that they have.
pub open spec fn desc_before(keys: Seq<u64>, a: int, b: int) -> bool {
    keys[a] > keys[b] || (keys[a] == keys[b] && a < b)
}

/// Whether `order` lists the items in the order of falling keys, each of them once.
pub open spec fn is_desc_order(keys: Seq<u64>, order: Seq<usize>) -> bool {
    &&& order.len() == keys.len()
    &&& forall|i: int| 0 <= i < order.len() ==> #[trigger] order[i] < keys.len()
    &&& forall|i: int, j: int|
        0 <= i < j < order.len() ==> desc_before(
            keys,
            #[trigger] order[i] as int,
            #[trigger] order[j] as int,
        )
}

/// The order of items by falling keys.
pub fn order_desc(keys: &Vec<u64>) -> (order: Vec<usize>)
    ensures
        is_desc_order(keys@, order@),
{
    let mut order: Vec<usize> = Vec::new();
    let mut n: usize = 0;
    while n < keys.len()
        invariant
            n <= keys@.len(),
            order@.len() == n,
            forall|i: int| 0 <= i < n ==> #[trigger] order@[i] < n,
            forall|i: int, j: int|
                0 <= i < j < n ==> desc_before(
                    keys@,
                    #[trigger] order@[i] as int,
                    #[trigger] order@[j] as int,
                ),
        decreases keys@.len() - n,
    {
        let key: u64 = keys[n];
        let mut at: usize = 0;
        while at < n && keys[order[at]] >= key
            invariant
                at <= n,
                n < keys@.len(),
                order@.len() == n,
                forall|i: int| 0 <= i < n ==> #[trigger] order@[i] < n,
                forall|i: int| 0 <= i < at ==> keys@[#[trigger] order@[i] as int] >= key,
            decreases n - at,
        {
            at = at + 1;
        }
        let ghost before = order@;
        order.insert(at, n);
        proof {
            let after = order@;
            assert forall|i: int, j: int| 0 <= i < j < n + 1 implies desc_before(
                keys@,
                #[trigger] after[i] as int,
                #[trigger] after[j] as int,
            ) by {
                if j < at {
                    assert(after[i] == before[i] && after[j] == before[j]);
                } else if j == at {
                    assert(after[i] == before[i]);
                } else if i < at {
                    assert(after[i] == before[i] && after[j] == before[j - 1]);
                } else if i == at {
                    assert(after[j] == before[j - 1]);
                    if at < j - 1 {
                        assert(desc_before(keys@, before[at as int] as int, before[j - 1] as int));
                    }
                } else {
                    assert(after[i] == before[i - 1] && after[j] == before[j - 1]);
                }
            }
        }
        n = n + 1;
    }
    order
}

/// There is one such order.
pub proof fn lemma_desc_order_is_unique(keys: Seq<u64>, a: Seq<usize>, b: Seq<usize>)
    requires
        is_desc_order(keys, a),
        is_desc_order(keys, b),
    ensures
        a == b,
{
    lemma_desc_order_from(keys, a, b, 0);
    assert(a =~= b);
}

proof fn lemma_desc_order_from(keys: Seq<u64>, a: Seq<usize>, b: Seq<usize>, k: int)
    requires
        is_desc_order(keys, a),
        is_desc_order(keys, b),
        0 <= k <= a.len(),
        forall|i: int| 0 <= i < k ==> a[i] == b[i],
    ensures
        forall|i: int| 0 <= i < a.len() ==> a[i] == b[i],
    decreases a.len() - k,
{
    if k < a.len() {
        lemma_lists_all(keys, a, b[k]);
        lemma_lists_all(keys, b, a[k]);
        let i = choose|i: int| 0 <= i < a.len() && a[i] == b[k];
        let j = choose|j: int| 0 <= j < b.len() && b[j] == a[k];
        if i < k {
            assert(desc_before(keys, b[i] as int, b[k] as int));
        }
        if j < k {
            assert(desc_before(keys, a[j] as int, a[k] as int));
        }
        if i > k {
            assert(desc_before(keys, a[k] as int, a[i] as int));
            if j > k {
                assert(desc_before(keys, b[k] as int, b[j] as int));
            }
        }
        assert(a[k] == b[k]);
        lemma_desc_order_from(keys, a, b, k + 1);
    }
}

proof fn lemma_lists_all(keys: Seq<u64>, a: Seq<usize>, x: usize)
    requires
        is_desc_order(keys, a),
        x < keys.len(),
    ensures
        exists|i: int| 0 <= i < a.len() && a[i] == x,
{
    if forall|i: int| 0 <= i < a.len() ==> a[i] != x {
        let all = vstd::set_lib::set_int_range(0, keys.len() as int);
        let listed = a.map_values(|i: usize| i as int);
        assert(listed.no_duplicates()) by {
            assert forall|i: int, j: int|
                0 <= i < listed.len() && 0 <= j < listed.len() && i != j implies listed[i]
                != listed[j] by {
                if i < j {
                    assert(desc_before(keys, a[i] as int, a[j] as int));
                } else {
                    assert(desc_before(keys, a[j] as int, a[i] as int));
                }
            }
        }
        listed.unique_seq_to_set();
        vstd::set_lib::lemma_int_range(0, keys.len() as int);
        let rest = all.remove(x as int);
        assert(listed.to_set().subset_of(rest)) by {
            assert forall|v: int| listed.to_set().contains(v) implies rest.contains(v) by {
                let i = choose|i: int| 0 <= i < listed.len() && listed[i] == v;
                assert(a[i] < keys.len());
            }
        }
        vstd::set_lib::lemma_len_subset(listed.to_set(), rest);
    }
}

/// Whether `r` lists the strings in order, each of them once.
pub open spec fn is_sorted_set_of(r: Seq<Seq<char>>, v: Seq<Seq<char>>) -> bool {
    &&& is_sorted(r)
    &&& r.no_duplicates()
    &&& forall|x: Seq<char>| #[trigger] r.contains(x) <==> v.contains(x)
}

proof fn lemma_same_multiset(a: Seq<Seq<char>>, b: Seq<Seq<char>>)
    requires
        a.to_multiset() == b.to_multiset(),
        a.no_duplicates(),
    ensures
        b.no_duplicates(),
        forall|x: Seq<char>| #[trigger] b.contains(x) <==> a.contains(x),
{
    broadcast use vstd::seq_lib::group_to_multiset_ensures;

    a.lemma_multiset_has_no_duplicates();
    assert forall|x: Seq<char>| #[trigger] b.contains(x) <==> a.contains(x) by {
        assert(a.to_multiset().count(x) == b.to_multiset().count(x));
        a.to_multiset_ensures();
        b.to_multiset_ensures();
        assert(a.contains(x) <==> a.to_multiset().count(x) > 0);
        assert(b.contains(x) <==> b.to_multiset().count(x) > 0);
    }
    b.lemma_multiset_has_no_duplicates_conv();
}

/// The strings in order, each of them once.
pub fn sorted_set(v: &Vec<String>) -> (r: Vec<String>)
    ensures
        is_sorted_set_of(views(r@), views(v@)),
{
    let ghost all = views(v@);
    let mut distinct: Vec<String> = Vec::new();
    let mut i: usize = 0;
    while i < v.len()
        invariant
            i <= v@.len(),
            all == views(v@),
            views(distinct@).no_duplicates(),
            forall|x: Seq<char>|
                #[trigger] views(distinct@).contains(x) <==> all.take(i as int).contains(x),
        decreases v@.len() - i,
    {
        let ghost before = views(distinct@);
        let ghost s = v@[i as int]@;
        assert(all.take(i + 1) =~= all.take(i as int).push(s));
        let known = contains_string(&distinct, v[i].as_str());
        if !known {
            distinct.push(v[i].clone());
            assert(views(distinct@) =~= before.push(s));
        }
        proof {
            let after = views(distinct@);
            let seen = all.take(i as int);
            let now = all.take(i + 1);
            assert forall|x: Seq<char>| #[trigger] after.contains(x) <==> now.contains(x) by {
                assert(now.contains(x) <==> seen.contains(x) || x == s) by {
                    if seen.contains(x) {
                        let k = choose|k: int| 0 <= k < seen.len() && seen[k] == x;
                        assert(now[k] == x);
                    }
                    if x == s {
                        assert(now[now.len() - 1] == x);
                    }
                    if now.contains(x) && x != s {
                        let k = choose|k: int| 0 <= k < now.len() && now[k] == x;
                        assert(seen[k] == x);
                    }
                }
                if !known {
                    if before.contains(x) {
                        let k = choose|k: int| 0 <= k < before.len() && before[k] == x;
                        assert(after[k] == x);
                    }
                    if x == s {
                        assert(after[after.len() - 1] == x);
                    }
                    if after.contains(x) && x != s {
                        let k = choose|k: int| 0 <= k < after.len() && after[k] == x;
                        assert(before[k] == x);
                    }
                }
                assert(before.contains(x) <==> seen.contains(x));
            }
        }
        i = i + 1;
    }
    assert(all.take(v@.len() as int) =~= all);
    let r = sort_strs(&distinct);
    proof {
        lemma_same_multiset(views(distinct@), views(r@));
    }
    r
}

// ---------------------------------------------------------------------------
// Paths
// ---------------------------------------------------------------------------

/// Whether a path of the names `a` comes before one of the names `b`, or is the same, when paths
/// are ordered name by name.
pub open spec fn names_le(a: Seq<Seq<char>>, b: Seq<Seq<char>>) -> bool
    decreases a.len(),
{
    if a.len() == 0 {
        true
    } else if b.len() == 0 {
        false
    } else if a[0] != b[0] {
        lex_le(a[0], b[0])
    } else {
        names_le(a.skip(1), b.skip(1))
    }
}

/// Whether the path `a` comes before `b`, or is the same.
pub open spec fn path_le(a: Seq<char>, b: Seq<char>) -> bool {
    names_le(components(a), components(b))
}

/// Each path comes before the next one, or is the same.
pub open spec fn are_paths_sorted(s: Seq<Seq<char>>) -> bool {
    forall|i: int, j: int| 0 <= i <= j < s.len() ==> path_le(#[trigger] s[i], #[trigger] s[j])
}

proof fn lemma_names_total(a: Seq<Seq<char>>, b: Seq<Seq<char>>)
    ensures
        names_le(a, a),
        names_le(a, b) || names_le(b, a),
    decreases a.len(),
{
    if a.len() > 0 {
        lemma_names_total(a.skip(1), a.skip(1));
    }
    if a.len() > 0 && b.len() > 0 {
        lemma_lex_total(a[0], b[0]);
        if a[0] == b[0] {
            lemma_names_total(a.skip(1), b.skip(1));
        }
    }
}

proof fn lemma_names_transitive(a: Seq<Seq<char>>, b: Seq<Seq<char>>, c: Seq<Seq<char>>)
    requires
        names_le(a, b),
        names_le(b, c),
    ensures
        names_le(a, c),
    decreases a.len(),
{
    if a.len() > 0 && b.len() > 0 && c.len() > 0 {
        if a[0] == b[0] && b[0] == c[0] {
            lemma_names_transitive(a.skip(1), b.skip(1), c.skip(1));
        } else if a[0] != b[0] && b[0] != c[0] {
            lemma_lex_total(a[0], b[0]);
            lemma_lex_transitive(a[0], b[0], c[0]);
        }
    }
}

fn names_le_strs(a: &Vec<String>, b: &Vec<String>) -> (r: bool)
    ensures
        r == names_le(views(a@), views(b@)),
{
    let ghost v = views(a@);
    let ghost w = views(b@);
    let mut i: usize = 0;
    assert(v.skip(0) =~= v);
    assert(w.skip(0) =~= w);
    loop
        invariant
            i <= a@.len(),
            i <= b@.len(),
            v == views(a@),
            w == views(b@),
            names_le(v.skip(i as int), w.skip(i as int)) == names_le(v, w),
        decreases a@.len() - i,
    {
        if i == a.len() {
            return true;
        }
        if i == b.len() {
            return false;
        }
        assert(v.skip(i as int)[0] == a@[i as int]@);
        assert(w.skip(i as int)[0] == b@[i as int]@);
        if !str_eq(a[i].as_str(), b[i].as_str()) {
            return lex_le_str(a[i].as_str(), b[i].as_str());
        }
        assert(v.skip(i as int).skip(1) =~= v.skip(i + 1));
        assert(w.skip(i as int).skip(1) =~= w.skip(i + 1));
        i = i + 1;
    }
}

fn path_le_str(a: &str, b: &str) -> (r: bool)
    ensures
        r == path_le(a@, b@),
{
    names_le_strs(&path_components(a), &path_components(b))
}

/// Where a path belongs among the sorted ones: behind those that do not come after it.
fn path_insertion_point(v: &Vec<String>, s: &str) -> (at: usize)
    requires
        are_paths_sorted(views(v@)),
    ensures
        at <= v@.len(),
        forall|j: int| 0 <= j < at ==> path_le(#[trigger] views(v@)[j], s@),
        at < v@.len() ==> path_le(s@, views(v@)[at as int]),
{
    let mut at: usize = 0;
    while at < v.len() && path_le_str(v[at].as_str(), s)
        invariant
            at <= v@.len(),
            forall|j: int| 0 <= j < at ==> path_le(#[trigger] views(v@)[j], s@),
        decreases v@.len() - at,
    {
        assert(views(v@)[at as int] == v@[at as int]@);
        at = at + 1;
    }
    proof {
        if at < v@.len() {
            assert(views(v@)[at as int] == v@[at as int]@);
            lemma_names_total(components(v@[at as int]@), components(s@));
        }
    }
    at
}

proof fn lemma_path_inserted(before: Seq<Seq<char>>, at: int, x: Seq<char>)
    requires
        are_paths_sorted(before),
        0 <= at <= before.len(),
        forall|j: int| 0 <= j < at ==> path_le(#[trigger] before[j], x),
        at < before.len() ==> path_le(x, before[at]),
    ensures
        are_paths_sorted(before.insert(at, x)),
{
    let after = before.insert(at, x);
    assert forall|j: int, k: int| 0 <= j <= k < after.len() implies path_le(
        #[trigger] after[j],
        #[trigger] after[k],
    ) by {
        lemma_names_total(components(after[j]), components(after[k]));
        if j < at && k == at {
            assert(after[j] == before[j]);
        } else if j == at && k > at {
            assert(after[k] == before[k - 1]);
            if k - 1 > at {
                assert(path_le(before[at], before[k - 1]));
                lemma_names_transitive(
                    components(x),
                    components(before[at]),
                    components(before[k - 1]),
                );
            }
        } else if j < at && k > at {
            assert(after[j] == before[j] && after[k] == before[k - 1]);
        } else if k < at {
            assert(after[j] == before[j] && after[k] == before[k]);
        } else if j > at {
            assert(after[j] == before[j - 1] && after[k] == before[k - 1]);
        }
    }
}

/// Sorts paths name by name.
pub fn sort_paths(v: &Vec<String>) -> (r: Vec<String>)
    ensures
        are_paths_sorted(views(r@)),
        views(r@).to_multiset() == views(v@).to_multiset(),
{
    let mut r: Vec<String> = Vec::new();
    let mut i: usize = 0;
    assert(views(r@) =~= views(v@).take(0));
    while i < v.len()
        invariant
            i <= v@.len(),
            are_paths_sorted(views(r@)),
            views(r@).to_multiset() == views(v@).take(i as int).to_multiset(),
        decreases v@.len() - i,
    {
        let ghost before = views(r@);
        let ghost x = v@[i as int]@;
        let at = path_insertion_point(&r, v[i].as_str());
        r.insert(at, v[i].clone());
        proof {
            assert(views(r@) =~= before.insert(at as int, x));
            lemma_insert_to_multiset(before, at as int, x);
            lemma_path_inserted(before, at as int, x);
            let done = views(v@).take(i as int);
            assert(views(v@).take(i + 1) =~= done.push(x));
            done.to_multiset_ensures();
            assert(done.push(x).to_multiset() =~= done.to_multiset().insert(x));
        }
        i = i + 1;
    }
    assert(views(v@).take(v@.len() as int) =~= views(v@));
    r
}

} // verus!
