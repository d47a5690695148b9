//! What it means to pick some items of a list: those that are wanted, in their order, all of them
//! or no more than a number.
use vstd::prelude::*;

verus! {

/// Places in a list of `n` items, from front to back.
pub open spec fn are_places(at: Seq<int>, n: nat) -> bool {
    &&& forall|k: int| 0 <= k < at.len() ==> 0 <= #[trigger] at[k] < n
    &&& forall|j: int, k: int| 0 <= j < k < at.len() ==> #[trigger] at[j] < #[trigger] at[k]
}

/// Whether `r` is what becomes of the items at these places, all of them wanted.
pub open spec fn picks<A, B>(
    r: Seq<B>,
    all: Seq<A>,
    wanted: spec_fn(A) -> bool,
    of: spec_fn(A) -> B,
    at: Seq<int>,
) -> bool {
    &&& r.len() == at.len()
    &&& are_places(at, all.len())
    &&& forall|k: int|
        0 <= k < at.len() ==> wanted(all[#[trigger] at[k]]) && r[k] == of(all[at[k]])
}

/// Whether `r` is what becomes of the wanted items: all of them, and in their order.
pub open spec fn are_the_wanted<A, B>(
    r: Seq<B>,
    all: Seq<A>,
    wanted: spec_fn(A) -> bool,
    of: spec_fn(A) -> B,
) -> bool {
    exists|at: Seq<int>| #[trigger]
        picks(r, all, wanted, of, at) && forall|i: int|
            0 <= i < all.len() && wanted(#[trigger] all[i]) ==> at.contains(i)
}

/// Whether `r` is what becomes of the first of the wanted items: `max` at most, and fewer only
/// where no other is wanted.
pub open spec fn are_the_first<A, B>(
    r: Seq<B>,
    all: Seq<A>,
    wanted: spec_fn(A) -> bool,
    of: spec_fn(A) -> B,
    max: nat,
) -> bool {
    &&& r.len() <= max
    &&& exists|at: Seq<int>| #[trigger]
        picks(r, all, wanted, of, at) && forall|i: int|
            0 <= i < all.len() && wanted(#[trigger] all[i]) && !at.contains(i) ==> r.len() == max
                && forall|k: int| 0 <= k < at.len() ==> #[trigger] at[k] < i
}

/// Whether `r` is what becomes of the last of the wanted items, in their order: `max` at most, and
/// fewer only where no other is wanted.
pub open spec fn are_the_last<A, B>(
    r: Seq<B>,
    all: Seq<A>,
    wanted: spec_fn(A) -> bool,
    of: spec_fn(A) -> B,
    max: nat,
) -> bool {
    &&& r.len() <= max
    &&& exists|at: Seq<int>| #[trigger]
        picks(r, all, wanted, of, at) && forall|i: int|
            0 <= i < all.len() && wanted(#[trigger] all[i]) && !at.contains(i) ==> r.len() == max
                && forall|k: int| 0 <= k < at.len() ==> i < #[trigger] at[k]
}

pub proof fn lemma_none_of_none<A, B>(wanted: spec_fn(A) -> bool, of: spec_fn(A) -> B)
    ensures
        are_the_wanted(Seq::<B>::empty(), Seq::<A>::empty(), wanted, of),
{
    assert(picks(Seq::<B>::empty(), Seq::<A>::empty(), wanted, of, Seq::empty()));
}

/// One item more is picked if it is wanted.
pub proof fn lemma_one_more<A, B>(
    r: Seq<B>,
    all: Seq<A>,
    wanted: spec_fn(A) -> bool,
    of: spec_fn(A) -> B,
    item: A,
)
    requires
        are_the_wanted(r, all, wanted, of),
    ensures
        wanted(item) ==> are_the_wanted(r.push(of(item)), all.push(item), wanted, of),
        !wanted(item) ==> are_the_wanted(r, all.push(item), wanted, of),
{
    let at = choose|at: Seq<int>| #[trigger]
        picks(r, all, wanted, of, at) && forall|i: int|
            0 <= i < all.len() && wanted(#[trigger] all[i]) ==> at.contains(i);
    let more = all.push(item);
    let n = all.len() as int;
    if wanted(item) {
        let places = at.push(n);
        assert(picks(r.push(of(item)), more, wanted, of, places));
        assert forall|i: int| 0 <= i < more.len() && wanted(#[trigger] more[i]) implies
            places.contains(i) by {
            if i < n {
                assert(more[i] == all[i]);
                let k = choose|k: int| 0 <= k < at.len() && at[k] == i;
                assert(places[k] == i);
            } else {
                assert(places[at.len() as int] == i);
            }
        }
    } else {
        assert(picks(r, more, wanted, of, at));
        assert forall|i: int| 0 <= i < more.len() && wanted(#[trigger] more[i]) implies
            at.contains(i) by {
            if i < n {
                assert(more[i] == all[i]);
            }
        }
    }
}

/// One item more in front is picked if it is wanted.
pub proof fn lemma_one_more_in_front<A, B>(
    r: Seq<B>,
    all: Seq<A>,
    wanted: spec_fn(A) -> bool,
    of: spec_fn(A) -> B,
    item: A,
)
    requires
        are_the_wanted(r, all, wanted, of),
    ensures
        wanted(item) ==> are_the_wanted(seq![of(item)] + r, seq![item] + all, wanted, of),
        !wanted(item) ==> are_the_wanted(r, seq![item] + all, wanted, of),
{
    let at = choose|at: Seq<int>| #[trigger]
        picks(r, all, wanted, of, at) && forall|i: int|
            0 <= i < all.len() && wanted(#[trigger] all[i]) ==> at.contains(i);
    let more = seq![item] + all;
    let later = Seq::new(at.len(), |k: int| at[k] + 1);
    let places = if wanted(item) {
        seq![0int] + later
    } else {
        later
    };
    let result = if wanted(item) {
        seq![of(item)] + r
    } else {
        r
    };
    let d = places.len() - at.len();
    assert(picks(result, more, wanted, of, places)) by {
        assert forall|k: int| 0 <= k < places.len() implies wanted(more[#[trigger] places[k]])
            && result[k] == of(more[places[k]]) by {
            if k >= d {
                assert(places[k] == at[k - d] + 1);
                assert(more[places[k]] == all[at[k - d]]);
            }
        }
        assert forall|k: int| 0 <= k < places.len() implies 0 <= #[trigger] places[k]
            < more.len() by {
            if k >= d {
                assert(places[k] == at[k - d] + 1);
            }
        }
        assert forall|j: int, k: int| 0 <= j < k < places.len() implies #[trigger] places[j]
            < #[trigger] places[k] by {
            assert(places[k] == at[k - d] + 1);
            if j >= d {
                assert(places[j] == at[j - d] + 1);
            }
        }
    }
    assert forall|i: int| 0 <= i < more.len() && wanted(#[trigger] more[i]) implies
        places.contains(i) by {
        if i > 0 {
            assert(more[i] == all[i - 1]);
            let k = choose|k: int| 0 <= k < at.len() && at[k] == i - 1;
            assert(places[k + d] == i);
        } else {
            assert(places[0] == 0);
        }
    }
}

/// The first of all that are wanted.
pub proof fn lemma_first_of_the_wanted<A, B>(
    r: Seq<B>,
    all: Seq<A>,
    wanted: spec_fn(A) -> bool,
    of: spec_fn(A) -> B,
    max: nat,
)
    requires
        are_the_wanted(r, all, wanted, of),
    ensures
        r.len() <= max ==> are_the_first(r, all, wanted, of, max),
        r.len() > max ==> are_the_first(r.take(max as int), all, wanted, of, max),
{
    let at = choose|at: Seq<int>| #[trigger]
        picks(r, all, wanted, of, at) && forall|i: int|
            0 <= i < all.len() && wanted(#[trigger] all[i]) ==> at.contains(i);
    if r.len() > max {
        let places = at.take(max as int);
        assert(picks(r.take(max as int), all, wanted, of, places));
        assert forall|i: int|
            0 <= i < all.len() && wanted(#[trigger] all[i]) && !places.contains(i) implies (forall|
            k: int,
        | 0 <= k < places.len() ==> #[trigger] places[k] < i) by {
            let j = choose|j: int| 0 <= j < at.len() && at[j] == i;
            if j < max {
                assert(places[j] == i);
            }
            assert forall|k: int| 0 <= k < places.len() implies #[trigger] places[k] < i by {
                assert(places[k] == at[k]);
                assert(at[k] < at[j]);
            }
        }
    }
}

/// The last of all that are wanted.
pub proof fn lemma_last_of_the_wanted<A, B>(
    r: Seq<B>,
    all: Seq<A>,
    wanted: spec_fn(A) -> bool,
    of: spec_fn(A) -> B,
    max: nat,
)
    requires
        are_the_wanted(r, all, wanted, of),
    ensures
        r.len() <= max ==> are_the_last(r, all, wanted, of, max),
        r.len() > max ==> are_the_last(r.skip(r.len() - max), all, wanted, of, max),
{
    let at = choose|at: Seq<int>| #[trigger]
        picks(r, all, wanted, of, at) && forall|i: int|
            0 <= i < all.len() && wanted(#[trigger] all[i]) ==> at.contains(i);
    if r.len() > max {
        let d = r.len() - max;
        let places = at.skip(d);
        assert(picks(r.skip(d), all, wanted, of, places)) by {
            assert forall|k: int| 0 <= k < places.len() implies wanted(all[#[trigger] places[k]])
                && r.skip(d)[k] == of(all[places[k]]) by {
                assert(places[k] == at[k + d]);
            }
            assert forall|k: int| 0 <= k < places.len() implies 0 <= #[trigger] places[k]
                < all.len() by {
                assert(places[k] == at[k + d]);
            }
            assert forall|j: int, k: int| 0 <= j < k < places.len() implies #[trigger] places[j]
                < #[trigger] places[k] by {
                assert(at[j + d] < at[k + d]);
            }
        }
        assert forall|i: int|
            0 <= i < all.len() && wanted(#[trigger] all[i]) && !places.contains(i) implies (forall|
            k: int,
        | 0 <= k < places.len() ==> i < #[trigger] places[k]) by {
            let j = choose|j: int| 0 <= j < at.len() && at[j] == i;
            if j >= d {
                assert(places[j - d] == i);
            }
            assert forall|k: int| 0 <= k < places.len() implies i < #[trigger] places[k] by {
                assert(places[k] == at[k + d]);
                assert(at[j] < at[k + d]);
            }
        }
    }
}

/// The first item that is wanted is the first that is picked.
pub proof fn lemma_first_wanted_is_picked<A, B>(
    r: Seq<B>,
    all: Seq<A>,
    wanted: spec_fn(A) -> bool,
    of: spec_fn(A) -> B,
    max: nat,
    i: int,
)
    requires
        are_the_first(r, all, wanted, of, max),
        max > 0,
        0 <= i < all.len(),
        wanted(all[i]),
        forall|j: int| 0 <= j < i ==> !wanted(#[trigger] all[j]),
    ensures
        r.len() > 0,
        r[0] == of(all[i]),
{
    let at = choose|at: Seq<int>| #[trigger]
        picks(r, all, wanted, of, at) && forall|i: int|
            0 <= i < all.len() && wanted(#[trigger] all[i]) && !at.contains(i) ==> r.len() == max
                && forall|k: int| 0 <= k < at.len() ==> #[trigger] at[k] < i;
    if !at.contains(i) {
        assert(at[0] < i);
        assert(!wanted(all[at[0]]));
    } else {
        let k = choose|k: int| 0 <= k < at.len() && at[k] == i;
        assert(at[0] <= i);
        assert(wanted(all[at[0]]));
    }
}

/// The last item that is wanted is the last that is picked.
pub proof fn lemma_last_wanted_is_picked<A, B>(
    r: Seq<B>,
    all: Seq<A>,
    wanted: spec_fn(A) -> bool,
    of: spec_fn(A) -> B,
    max: nat,
    i: int,
)
    requires
        are_the_last(r, all, wanted, of, max),
        max > 0,
        0 <= i < all.len(),
        wanted(all[i]),
        forall|j: int| i < j < all.len() ==> !wanted(#[trigger] all[j]),
    ensures
        r.len() > 0,
        r.last() == of(all[i]),
{
    let at = choose|at: Seq<int>| #[trigger]
        picks(r, all, wanted, of, at) && forall|i: int|
            0 <= i < all.len() && wanted(#[trigger] all[i]) && !at.contains(i) ==> r.len() == max
                && forall|k: int| 0 <= k < at.len() ==> i < #[trigger] at[k];
    let n = at.len() - 1;
    if !at.contains(i) {
        assert(i < at[n]);
        assert(!wanted(all[at[n]]));
    } else {
        let k = choose|k: int| 0 <= k < at.len() && at[k] == i;
        assert(i <= at[n]);
        assert(wanted(all[at[n]]));
    }
}

/// Something is picked if and only if something is wanted.
pub proof fn lemma_some_are_wanted<A, B>(
    r: Seq<B>,
    all: Seq<A>,
    wanted: spec_fn(A) -> bool,
    of: spec_fn(A) -> B,
)
    requires
        are_the_wanted(r, all, wanted, of),
    ensures
        r.len() > 0 <==> exists|i: int| 0 <= i < all.len() && #[trigger] wanted(all[i]),
{
    let at = choose|at: Seq<int>| #[trigger]
        picks(r, all, wanted, of, at) && forall|i: int|
            0 <= i < all.len() && wanted(#[trigger] all[i]) ==> at.contains(i);
    if r.len() > 0 {
        assert(wanted(all[at[0]]));
    }
}

} // verus!
