//! Equivalence of game states: two states are equivalent when they hold the same bottles,
//! in any order.
use vstd::prelude::*;
use vstd::multiset::Multiset;

use super::gamestate_trait::{BottleView, GameState, apply_pour, bottle_view, bottles_view, pour_check, state_view};
use super::pour_def::Pour;
use crate::bottle::Bottle;

verus! {

broadcast use {
    vstd::multiset::group_multiset_axioms,
    vstd::seq_lib::to_multiset_build,
    vstd::seq_lib::to_multiset_remove,
    vstd::seq_lib::to_multiset_len,
    vstd::seq_lib::to_multiset_contains,
};

/// Two sequences of bottle models hold the same bottles, in any order
pub open spec fn views_equivalent(a: Seq<BottleView>, b: Seq<BottleView>) -> bool {
    a.to_multiset() == b.to_multiset()
}

/// Sequences with the same multiset hold the same elements
pub proof fn lemma_same_elements<A>(a: Seq<A>, b: Seq<A>)
    requires
        a.to_multiset() == b.to_multiset(),
    ensures
        forall|x: A| a.contains(x) == b.contains(x),
{
    assert forall|x: A| a.contains(x) == b.contains(x) by {
        vstd::seq_lib::to_multiset_contains(a, x);
        vstd::seq_lib::to_multiset_contains(b, x);
    }
}

/// Whether two bottles have the same capacity and the same units
pub fn same_bottle<B: Bottle>(a: &B, b: &B) -> (r: bool)
    requires
        a.inv(),
        b.inv(),
    ensures
        r == (bottle_view(*a) == bottle_view(*b)),
{
    proof {
        a.lemma_inv();
        b.lemma_inv();
    }
    if a.capacity() != b.capacity() {
        return false;
    }
    let la = match a.get_top_content_idx() {
        Some(i) => i + 1,
        None => 0,
    };
    let lb = match b.get_top_content_idx() {
        Some(i) => i + 1,
        None => 0,
    };
    if la != lb {
        return false;
    }
    let mut i: usize = 0;
    while i < la
        invariant
            a.inv(),
            b.inv(),
            la == a.units().len(),
            lb == b.units().len(),
            la == lb,
            i <= la,
            a.units().take(i as int) == b.units().take(i as int),
        decreases la - i,
    {
        let ua = a.sample_content_at(i);
        let ub = b.sample_content_at(i);
        let eq = match (ua, ub) {
            (Some(x), Some(y)) => x == y,
            _ => false,
        };
        if !eq {
            return false;
        }
        assert(a.units().take(i + 1) =~= a.units().take(i as int).push(a.units()[i as int]));
        assert(b.units().take(i + 1) =~= b.units().take(i as int).push(b.units()[i as int]));
        i = i + 1;
    }
    assert(a.units().take(la as int) =~= a.units());
    assert(b.units().take(lb as int) =~= b.units());
    true
}

/// Whether two sequences of bottles hold the same bottles, in any order
pub fn bottles_equivalent<B: Bottle>(a: &[B], b: &[B]) -> (r: bool)
    requires
        forall|i: int| 0 <= i < a@.len() ==> #[trigger] a@[i].inv(),
        forall|i: int| 0 <= i < b@.len() ==> #[trigger] b@[i].inv(),
    ensures
        r == views_equivalent(bottles_view(a@), bottles_view(b@)),
{
    let ghost av = bottles_view(a@);
    let ghost bv = bottles_view(b@);
    if a.len() != b.len() {
        assert(av.to_multiset().len() != bv.to_multiset().len());
        return false;
    }
    // indices of the bottles of `b` not matched yet
    let mut remaining: Vec<usize> = Vec::new();
    let mut k: usize = 0;
    while k < b.len()
        invariant
            k <= b@.len(),
            remaining@.len() == k,
            forall|j: int| 0 <= j < k ==> remaining@[j] == j,
        decreases b@.len() - k,
    {
        remaining.push(k);
        k = k + 1;
    }
    let ghost rem_view = |r: Seq<usize>| r.map_values(|j: usize| bv[j as int]);
    assert(rem_view(remaining@) =~= bv);
    let mut i: usize = 0;
    while i < a.len()
        invariant
            a@.len() == b@.len(),
            av == bottles_view(a@),
            bv == bottles_view(b@),
            forall|j: int| 0 <= j < a@.len() ==> #[trigger] a@[j].inv(),
            forall|j: int| 0 <= j < b@.len() ==> #[trigger] b@[j].inv(),
            i <= a@.len(),
            remaining@.len() + i == a@.len(),
            forall|j: int| 0 <= j < remaining@.len() ==> #[trigger] remaining@[j] < b@.len(),
            rem_view == (|r: Seq<usize>| r.map_values(|j: usize| bv[j as int])),
            av.take(i as int).to_multiset().add(rem_view(remaining@).to_multiset()) == bv.to_multiset(),
        decreases a@.len() - i,
    {
        let mut found: Option<usize> = None;
        let mut j: usize = 0;
        while j < remaining.len()
            invariant_except_break
                found is None,
            invariant
                i < a@.len(),
                forall|x: int| 0 <= x < a@.len() ==> #[trigger] a@[x].inv(),
                forall|x: int| 0 <= x < b@.len() ==> #[trigger] b@[x].inv(),
                forall|x: int| 0 <= x < remaining@.len() ==> #[trigger] remaining@[x] < b@.len(),
                j <= remaining@.len(),
                forall|x: int|
                    0 <= x < j ==> bottle_view(b@[remaining@[x] as int]) != bottle_view(a@[i as int]),
            ensures
                found matches Some(x) ==> x < remaining@.len() && bottle_view(b@[remaining@[x as int] as int])
                    == bottle_view(a@[i as int]),
                found is None ==> forall|x: int|
                    0 <= x < remaining@.len() ==> bottle_view(b@[remaining@[x] as int]) != bottle_view(
                        a@[i as int],
                    ),
            decreases remaining@.len() - j,
        {
            if same_bottle(&a[i], &b[remaining[j]]) {
                found = Some(j);
                break;
            }
            j = j + 1;
        }
        let ghost rv = rem_view(remaining@);
        assert(av.take(i + 1) =~= av.take(i as int).push(av[i as int]));
        match found {
            None => {
                // a[i] is not among the remaining bottles of b, so the multisets differ
                proof {
                    assert(!rv.contains(av[i as int])) by {
                        if rv.contains(av[i as int]) {
                            let x = choose|x: int| 0 <= x < rv.len() && rv[x] == av[i as int];
                            assert(rv[x] == bv[remaining@[x] as int]);
                        }
                    }
                    let rest = av.skip(i as int);
                    assert(av =~= av.take(i as int) + rest);
                    vstd::seq_lib::lemma_multiset_commutative(av.take(i as int), rest);
                    if av.to_multiset() == bv.to_multiset() {
                        assert forall|x: BottleView| rest.to_multiset().count(x) == rv.to_multiset().count(x) by {
                            assert(av.to_multiset().count(x) == bv.to_multiset().count(x));
                        }
                        assert(rest.to_multiset() =~= rv.to_multiset());
                        assert(rest[0] == av[i as int]);
                        assert(rest.contains(av[i as int]));
                        vstd::seq_lib::to_multiset_contains(rest, av[i as int]);
                        vstd::seq_lib::to_multiset_contains(rv, av[i as int]);
                    }
                }
                return false;
            },
            Some(x) => {
                proof {
                    assert(rv[x as int] == av[i as int]);
                    assert(rem_view(remaining@.remove(x as int)) =~= rv.remove(x as int));
                }
                remaining.remove(x);
            },
        }
        i = i + 1;
    }
    assert(av.take(i as int) =~= av);
    assert(rem_view(remaining@) =~= Seq::<BottleView>::empty());
    assert(rem_view(remaining@).to_multiset() =~= Multiset::<BottleView>::empty());
    assert(av.take(i as int).to_multiset().add(Multiset::<BottleView>::empty()) =~= av.to_multiset());
    assert(av.to_multiset() == bv.to_multiset());
    true
}

/// Whether two game states hold the same bottles, in any order
pub fn states_equivalent<G: GameState>(a: &G, b: &G) -> (r: bool)
    requires
        forall|i: int| 0 <= i < a.bottles().len() ==> #[trigger] a.bottles()[i].inv(),
        forall|i: int| 0 <= i < b.bottles().len() ==> #[trigger] b.bottles()[i].inv(),
    ensures
        r == views_equivalent(state_view(*a), state_view(*b)),
{
    bottles_equivalent(a.get_bottles(), b.get_bottles())
}

/// `b` holds the elements of `a` rearranged: element `i` of `a` is element `perm[i]` of `b`,
/// and no two elements of `a` go to the same place
pub open spec fn perm_rel<A>(a: Seq<A>, b: Seq<A>, perm: Seq<int>) -> bool {
    &&& a.len() == b.len()
    &&& perm.len() == a.len()
    &&& forall|i: int| 0 <= i < a.len() ==> 0 <= #[trigger] perm[i] < b.len() && b[perm[i]] == a[i]
    &&& forall|i: int, j: int| 0 <= i < j < a.len() ==> #[trigger] perm[i] != #[trigger] perm[j]
}

/// Sequences with the same elements, counted with multiplicity, are rearrangements of each other
pub proof fn lemma_perm_of<A>(a: Seq<A>, b: Seq<A>) -> (perm: Seq<int>)
    requires
        a.to_multiset() == b.to_multiset(),
    ensures
        perm_rel(a, b, perm),
    decreases a.len(),
{
    vstd::seq_lib::to_multiset_len(a);
    vstd::seq_lib::to_multiset_len(b);
    if a.len() == 0 {
        Seq::empty()
    } else {
        let x = a.last();
        let a1 = a.drop_last();
        assert(a1.push(x) =~= a);
        vstd::seq_lib::to_multiset_build(a1, x);
        vstd::seq_lib::to_multiset_contains(b, x);
        assert(a.to_multiset().count(x) > 0);
        assert(b.contains(x));
        let j = choose|j: int| 0 <= j < b.len() && b[j] == x;
        let b1 = b.remove(j);
        vstd::seq_lib::to_multiset_remove(b, j);
        assert(a1.to_multiset() =~= b1.to_multiset());
        let p1 = lemma_perm_of(a1, b1);
        let perm = Seq::new(a.len(), |i: int| if i == a.len() - 1 { j } else if p1[i] < j { p1[i] } else { p1[i] + 1 });
        assert forall|i: int| 0 <= i < a.len() implies 0 <= #[trigger] perm[i] < b.len() && b[perm[i]] == a[i] by {
            if i < a.len() - 1 {
                assert(a1[i] == a[i]);
                assert(b1[p1[i]] == a1[i]);
            }
        }
        assert forall|i: int, k: int| 0 <= i < k < a.len() implies #[trigger] perm[i] != #[trigger] perm[k] by {
            if k < a.len() - 1 {
                assert(p1[i] != p1[k]);
            }
        }
        perm
    }
}

/// Rearrangements of each other hold the same elements, counted with multiplicity
pub proof fn lemma_perm_multiset<A>(a: Seq<A>, b: Seq<A>, perm: Seq<int>)
    requires
        perm_rel(a, b, perm),
    ensures
        a.to_multiset() == b.to_multiset(),
    decreases a.len(),
{
    if a.len() == 0 {
        assert(a =~= Seq::<A>::empty());
        assert(b =~= Seq::<A>::empty());
    } else {
        let n = a.len();
        let x = a.last();
        let a1 = a.drop_last();
        let j = perm[n - 1];
        let b1 = b.remove(j);
        let p1 = Seq::new((n - 1) as nat, |i: int| if perm[i] < j { perm[i] } else { perm[i] - 1 });
        assert forall|i: int| 0 <= i < a1.len() implies 0 <= #[trigger] p1[i] < b1.len() && b1[p1[i]] == a1[i] by {
            assert(perm[i] != perm[n - 1]);
            assert(b[perm[i]] == a[i]);
        }
        assert forall|i: int, k: int| 0 <= i < k < a1.len() implies #[trigger] p1[i] != #[trigger] p1[k] by {
            assert(perm[i] != perm[k]);
            assert(perm[i] != perm[n - 1]);
            assert(perm[k] != perm[n - 1]);
        }
        lemma_perm_multiset(a1, b1, p1);
        assert(a1.push(x) =~= a);
        vstd::seq_lib::to_multiset_build(a1, x);
        vstd::seq_lib::to_multiset_remove(b, j);
        assert(b[j] == x);
        vstd::seq_lib::to_multiset_contains(b, x);
        assert(b.to_multiset() =~= b1.to_multiset().insert(x));
    }
}

/// Where an index of `a` goes in a rearrangement; indices out of range stay as they are
pub open spec fn moved_index(perm: Seq<int>, x: int) -> int {
    if 0 <= x < perm.len() {
        perm[x]
    } else {
        x
    }
}

/// The pour of a rearranged game state that pours between the same bottles as `p`
pub open spec fn moved_pour(perm: Seq<int>, p: Pour) -> Pour {
    Pour {
        source_bottle_index: moved_index(perm, p.source_bottle_index as int) as usize,
        dest_bottle_index: moved_index(perm, p.dest_bottle_index as int) as usize,
    }
}

/// A pour between two bottles is possible in a game state exactly when it is possible between
/// the same bottles of a rearrangement of it, and the results are rearranged the same way
pub proof fn lemma_pour_moved(a: Seq<BottleView>, b: Seq<BottleView>, perm: Seq<int>, p: Pour)
    requires
        perm_rel(a, b, perm),
        a.len() <= usize::MAX,
    ensures
        pour_check(b, moved_pour(perm, p).source_bottle_index as int, moved_pour(perm, p).dest_bottle_index as int)
            == pour_check(a, p.source_bottle_index as int, p.dest_bottle_index as int),
        pour_check(a, p.source_bottle_index as int, p.dest_bottle_index as int) is Ok ==> perm_rel(
            apply_pour(a, p.source_bottle_index as int, p.dest_bottle_index as int),
            apply_pour(b, moved_pour(perm, p).source_bottle_index as int, moved_pour(perm, p).dest_bottle_index as int),
            perm,
        ),
{
    let s = p.source_bottle_index as int;
    let d = p.dest_bottle_index as int;
    let ms = moved_index(perm, s);
    let md = moved_index(perm, d);
    assert(moved_pour(perm, p).source_bottle_index as int == ms);
    assert(moved_pour(perm, p).dest_bottle_index as int == md);
    if 0 <= s < a.len() && 0 <= d < a.len() && s != d {
        if s < d {
            assert(perm[s] != perm[d]);
        } else {
            assert(perm[d] != perm[s]);
        }
        assert(b[ms] == a[s]);
        assert(b[md] == a[d]);
        if pour_check(a, s, d) is Ok {
            let a2 = apply_pour(a, s, d);
            let b2 = apply_pour(b, ms, md);
            assert forall|i: int| 0 <= i < a2.len() implies 0 <= #[trigger] perm[i] < b2.len() && b2[perm[i]] == a2[i] by {
                if i != s && i != d {
                    if i < s {
                        assert(perm[i] != perm[s]);
                    } else {
                        assert(perm[s] != perm[i]);
                    }
                    if i < d {
                        assert(perm[i] != perm[d]);
                    } else {
                        assert(perm[d] != perm[i]);
                    }
                }
            }
        }
    }
}

} // verus!
