//! The space a search for solutions goes through is finite: pours keep the number of bottles
//! and their capacities, so every game state reachable from a given one belongs to a finite set.
use vstd::prelude::*;

use crate::colored_water::{PartialColoredWaterUnit, lemma_color_index_inverse, partial_at, partial_index};
use crate::gamestate::{BottleView, same_shape};

verus! {

broadcast use vstd::set::group_set_axioms;

/// Every possibly unknown unit
pub open spec fn all_units() -> Set<PartialColoredWaterUnit> {
    Set::new(|u: PartialColoredWaterUnit| true)
}

/// The sequences of at most `n` elements, all taken from `alpha`
pub open spec fn seqs_upto<X>(alpha: Set<X>, n: nat) -> Set<Seq<X>> {
    Set::new(|s: Seq<X>| s.len() <= n && forall|i: int| 0 <= i < s.len() ==> #[trigger] alpha.contains(s[i]))
}

/// The bottle models whose capacity is one of `caps` and which hold no more units than that
pub open spec fn bottle_space(caps: Set<nat>) -> Set<BottleView> {
    caps.map(|c: nat| seqs_upto(all_units(), c).map(|u: Seq<PartialColoredWaterUnit>| (c, u))).flatten()
}

/// The capacities of the bottles of a game state model
pub open spec fn caps_of(v: Seq<BottleView>) -> Set<nat> {
    v.map_values(|b: BottleView| b.0).to_set()
}

/// Every game state model with the shape of `v`, whose bottles hold no more than their capacity,
/// is in this set
pub open spec fn state_space(v: Seq<BottleView>) -> Set<Seq<BottleView>> {
    seqs_upto(bottle_space(caps_of(v)), v.len())
}

/// A bottle model holds no more units than its capacity
pub open spec fn within_caps(v: Seq<BottleView>) -> bool {
    forall|i: int| 0 <= i < v.len() ==> #[trigger] v[i].1.len() <= v[i].0
}

/// There are finitely many possibly unknown units
pub proof fn lemma_all_units_finite()
    ensures
        all_units().finite(),
{
    let s = Seq::new(13, |i: int| partial_at(i));
    assert forall|u: PartialColoredWaterUnit| all_units().contains(u) <==> s.to_set().contains(u) by {
        let k = partial_index(u) as int;
        match u {
            PartialColoredWaterUnit::UnknownColor => {},
            PartialColoredWaterUnit::Color(c) => {
                lemma_color_index_inverse(c);
            },
        }
        assert(s[k] == u);
        assert(s.contains(u));
    }
    assert(all_units() =~= s.to_set());
    vstd::seq_lib::seq_to_set_is_finite(s);
}

/// There are finitely many short sequences over a finite alphabet
pub proof fn lemma_seqs_upto_finite<X>(alpha: Set<X>, n: nat)
    requires
        alpha.finite(),
    ensures
        seqs_upto(alpha, n).finite(),
    decreases n,
{
    if n == 0 {
        assert forall|s: Seq<X>| seqs_upto(alpha, 0).contains(s) <==> set![Seq::<X>::empty()].contains(s) by {
            if s.len() == 0 {
                assert(s =~= Seq::<X>::empty());
            }
        }
        assert(seqs_upto(alpha, 0) =~= set![Seq::<X>::empty()]);
    } else {
        let shorter = seqs_upto(alpha, (n - 1) as nat);
        lemma_seqs_upto_finite(alpha, (n - 1) as nat);
        let ext = |s: Seq<X>| alpha.map(|a: X| s.push(a));
        let longer = shorter.map(ext);
        shorter.lemma_map_finite(ext);
        assert forall|t: Set<Seq<X>>| longer.contains(t) implies #[trigger] t.finite() by {
            let s = choose|s: Seq<X>| shorter.contains(s) && ext(s) == t;
            alpha.lemma_map_finite(|a: X| s.push(a));
        }
        longer.lemma_flatten_finite();
        let all = shorter.union(longer.flatten());
        assert forall|s: Seq<X>| seqs_upto(alpha, n).contains(s) implies all.contains(s) by {
            if s.len() < n {
                assert(shorter.contains(s));
            } else {
                let init = s.drop_last();
                assert(shorter.contains(init));
                assert(alpha.contains(s.last()));
                assert(init.push(s.last()) =~= s);
                assert(ext(init).contains(s));
                assert(longer.contains(ext(init)));
            }
        }
        vstd::set_lib::lemma_len_subset(seqs_upto(alpha, n), all);
    }
}

/// There are finitely many bottle models with capacities taken from a finite set
pub proof fn lemma_bottle_space_finite(caps: Set<nat>)
    requires
        caps.finite(),
    ensures
        bottle_space(caps).finite(),
{
    let inner = |c: nat| seqs_upto(all_units(), c).map(|u: Seq<PartialColoredWaterUnit>| (c, u));
    let outer = caps.map(inner);
    caps.lemma_map_finite(inner);
    lemma_all_units_finite();
    assert forall|t: Set<BottleView>| outer.contains(t) implies #[trigger] t.finite() by {
        let c = choose|c: nat| caps.contains(c) && inner(c) == t;
        lemma_seqs_upto_finite(all_units(), c);
        seqs_upto(all_units(), c).lemma_map_finite(|u: Seq<PartialColoredWaterUnit>| (c, u));
    }
    outer.lemma_flatten_finite();
}

/// The game state models with the shape of a given one are finitely many
pub proof fn lemma_state_space_finite(v: Seq<BottleView>)
    ensures
        state_space(v).finite(),
{
    vstd::seq_lib::seq_to_set_is_finite(v.map_values(|b: BottleView| b.0));
    lemma_bottle_space_finite(caps_of(v));
    lemma_seqs_upto_finite(bottle_space(caps_of(v)), v.len());
}

/// A model with the shape of `base`, whose bottles hold no more than their capacities, is in
/// the state space of `base`
pub proof fn lemma_in_state_space(base: Seq<BottleView>, w: Seq<BottleView>)
    requires
        same_shape(base, w),
        within_caps(w),
    ensures
        state_space(base).contains(w),
{
    let caps = caps_of(base);
    let inner = |c: nat| seqs_upto(all_units(), c).map(|u: Seq<PartialColoredWaterUnit>| (c, u));
    assert forall|i: int| 0 <= i < w.len() implies #[trigger] bottle_space(caps).contains(w[i]) by {
        let c = w[i].0;
        assert(base.map_values(|b: BottleView| b.0)[i] == c);
        assert(base.map_values(|b: BottleView| b.0).contains(c));
        assert(caps.contains(c));
        assert(seqs_upto(all_units(), c).contains(w[i].1));
        assert(inner(c).contains((c, w[i].1)));
        assert(caps.map(inner).contains(inner(c)));
    }
}

/// Distinct models of a space are no more than its size
pub proof fn lemma_distinct_within(space: Set<Seq<BottleView>>, vs: Seq<Seq<BottleView>>)
    requires
        space.finite(),
        vs.no_duplicates(),
        forall|i: int| 0 <= i < vs.len() ==> #[trigger] space.contains(vs[i]),
    ensures
        vs.len() <= space.len(),
{
    vs.unique_seq_to_set();
    assert forall|w: Seq<BottleView>| vs.to_set().contains(w) implies space.contains(w) by {
        let i = choose|i: int| 0 <= i < vs.len() && vs[i] == w;
    }
    vstd::set_lib::lemma_len_subset(vs.to_set(), space);
}

} // verus!
