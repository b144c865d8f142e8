//! The units a game state holds, counted with multiplicity, and how pours keep them.
use vstd::prelude::*;
use vstd::multiset::Multiset;

use super::gamestate_trait::{
    BottleView, GameState, apply_pour, bottles_wf, lemma_apply_pour_shape, pour_check, run_pours, same_shape,
    state_view,
};
use super::pour_def::PourError;
use crate::bottle::{Bottle, color_units, lemma_top_run, out_run, pour_out_amount, poured_color, top_run_len};
use crate::colored_water::{PartialColoredWaterUnit, color_index, partial_at, partial_index, lemma_color_index_inverse};

verus! {

broadcast use vstd::multiset::group_multiset_axioms;

/// Every unit of every bottle of a game state model, counted with multiplicity
pub open spec fn state_units(v: Seq<BottleView>) -> Multiset<PartialColoredWaterUnit>
    decreases v.len(),
{
    if v.len() == 0 {
        Multiset::empty()
    } else {
        state_units(v.drop_last()).add(v.last().1.to_multiset())
    }
}

/// Replacing one bottle replaces its units in the units of the game state
proof fn lemma_state_units_update(v: Seq<BottleView>, i: int, b: BottleView)
    requires
        0 <= i < v.len(),
    ensures
        state_units(v.update(i, b)).add(v[i].1.to_multiset()) == state_units(v).add(b.1.to_multiset()),
    decreases v.len(),
{
    let w = v.update(i, b);
    assert(state_units(w) == state_units(w.drop_last()).add(w.last().1.to_multiset()));
    assert(state_units(v) == state_units(v.drop_last()).add(v.last().1.to_multiset()));
    if i == v.len() - 1 {
        assert(w.drop_last() =~= v.drop_last());
        assert(w.last() == b);
        assert(v[i] == v.last());
        assert(state_units(w.drop_last()) == state_units(v.drop_last()));
        assert forall|x: PartialColoredWaterUnit| #[trigger] state_units(w).add(v[i].1.to_multiset()).count(x)
            == state_units(v).add(b.1.to_multiset()).count(x) by {}
    } else {
        assert(w.drop_last() =~= v.drop_last().update(i, b));
        assert(w.last() == v.last());
        lemma_state_units_update(v.drop_last(), i, b);
        assert(v.drop_last()[i] == v[i]);
        let lhs = state_units(v.drop_last().update(i, b)).add(v[i].1.to_multiset());
        let rhs = state_units(v.drop_last()).add(b.1.to_multiset());
        assert(lhs == rhs);
        assert forall|x: PartialColoredWaterUnit| #[trigger] state_units(w).add(v[i].1.to_multiset()).count(x)
            == state_units(v).add(b.1.to_multiset()).count(x) by {
            assert(lhs.count(x) == rhs.count(x));
        }
    }
}

/// A pour moves units between two bottles: the units of the game state stay the same
pub proof fn lemma_pour_keeps_units(v: Seq<BottleView>, src: int, dst: int)
    requires
        pour_check(v, src, dst) is Ok,
    ensures
        state_units(apply_pour(v, src, dst)) == state_units(v),
{
    let s = v[src].1;
    let d = v[dst].1;
    let amount = pour_out_amount(s, d, v[dst].0);
    let c = poured_color(s);
    let kept = s.take(s.len() - amount);
    let moved = s.skip(s.len() - amount);
    let v1 = v.update(src, (v[src].0, kept));
    let newd = d + color_units(c, amount);
    lemma_top_run(s);
    assert(moved =~= color_units(c, amount)) by {
        assert forall|k: int| 0 <= k < amount implies moved[k] == PartialColoredWaterUnit::Color(c) by {
            assert(moved[k] == s[s.len() - amount + k]);
        }
    }
    assert(s =~= kept + moved);
    vstd::seq_lib::lemma_multiset_commutative(kept, moved);
    vstd::seq_lib::lemma_multiset_commutative(d, color_units(c, amount));
    lemma_state_units_update(v, src, (v[src].0, kept));
    assert(v1[dst] == v[dst]);
    lemma_state_units_update(v1, dst, (v[dst].0, newd));
    assert(apply_pour(v, src, dst) == v1.update(dst, (v[dst].0, newd)));
    let v2 = v1.update(dst, (v[dst].0, newd));
    assert(s.to_multiset() == kept.to_multiset().add(moved.to_multiset()));
    assert(newd.to_multiset() == d.to_multiset().add(moved.to_multiset()));
    assert(state_units(v1).add(s.to_multiset()) == state_units(v).add(kept.to_multiset()));
    assert(state_units(v2).add(d.to_multiset()) == state_units(v1).add(newd.to_multiset()));
    assert forall|x: PartialColoredWaterUnit| #[trigger] state_units(v2).count(x) == state_units(v).count(x) by {
        assert(state_units(v1).add(s.to_multiset()).count(x) == state_units(v).add(kept.to_multiset()).count(x));
        assert(state_units(v2).add(d.to_multiset()).count(x) == state_units(v1).add(newd.to_multiset()).count(x));
    }
    assert(state_units(apply_pour(v, src, dst)) =~= state_units(v));
}

/// Running pours keeps the bottles, their capacities and the units of the game state
pub proof fn lemma_run_pours_keeps(v: Seq<BottleView>, pours: Seq<crate::gamestate::Pour>)
    ensures
        run_pours(v, pours) matches Ok(w) ==> state_units(w) == state_units(v) && same_shape(v, w),
    decreases pours.len(),
{
    if pours.len() > 0 {
        let p = pours[0];
        let s = p.source_bottle_index as int;
        let d = p.dest_bottle_index as int;
        if pour_check(v, s, d) is Ok {
            lemma_pour_keeps_units(v, s, d);
            lemma_apply_pour_shape(v, s, d);
            lemma_run_pours_keeps(apply_pour(v, s, d), pours.drop_first());
            if run_pours(v, pours) is Ok {
                let w = run_pours(v, pours)->Ok_0;
                let mid = apply_pour(v, s, d);
                assert forall|i: int| 0 <= i < v.len() implies #[trigger] v[i].0 == w[i].0 by {
                    assert(v[i].0 == mid[i].0);
                }
            }
        }
    }
}

/// The number of units of each kind a game state holds, in the order of [partial_index]:
/// element 0 counts the units of unknown color, element `k + 1` the units of the color at
/// position `k`
pub fn count_units<G: GameState>(g: &G) -> (r: Vec<usize>)
    requires
        bottles_wf(g.bottles()),
        state_units(state_view(*g)).len() <= usize::MAX,
    ensures
        r@.len() == 13,
        forall|k: int| 0 <= k < 13 ==> #[trigger] r@[k] == state_units(state_view(*g)).count(partial_at(k)),
{
    let ghost v = state_view(*g);
    let bottles = g.get_bottles();
    let mut counts: Vec<usize> = Vec::new();
    let mut k: usize = 0;
    while k < 13
        invariant
            k <= 13,
            counts@.len() == k,
            forall|j: int| 0 <= j < k ==> #[trigger] counts@[j] == 0,
        decreases 13 - k,
    {
        counts.push(0);
        k = k + 1;
    }
    proof {
        assert forall|i: int| 0 <= i <= v.len() implies #[trigger] state_units(v.take(i)).len() <= state_units(v).len() by {
            lemma_state_units_prefix(v, i);
        }
    }
    let mut i: usize = 0;
    while i < bottles.len()
        invariant
            v == state_view(*g),
            bottles@ == g.bottles(),
            bottles_wf(g.bottles()),
            state_units(v).len() <= usize::MAX,
            i <= v.len(),
            counts@.len() == 13,
            forall|j: int| 0 <= j < 13 ==> #[trigger] counts@[j] == state_units(v.take(i as int)).count(partial_at(j)),
            forall|t: int| 0 <= t <= v.len() ==> #[trigger] state_units(v.take(t)).len() <= state_units(v).len(),
        decreases v.len() - i,
    {
        let bottle = &bottles[i];
        assert(bottles@[i as int].inv());
        proof {
            bottle.lemma_inv();
        }
        let ghost units = bottle.units();
        let ghost prior = state_units(v.take(i as int));
        assert(v[i as int].1 == units);
        let cap = bottle.capacity();
        proof {
            assert(v.take(i + 1).drop_last() =~= v.take(i as int));
            assert(v.take(i + 1).last() == v[i as int]);
            assert(state_units(v.take(i + 1)) == prior.add(units.to_multiset()));
            assert(units.take(0) =~= Seq::<PartialColoredWaterUnit>::empty());
            vstd::seq_lib::to_multiset_len(units.take(0));
            assert(state_units(v.take(i + 1)).len() <= state_units(v).len());
        }
        let mut idx: usize = 0;
        while idx < cap
            invariant
                v == state_view(*g),
                bottle.inv(),
                units == bottle.units(),
                units.len() <= cap,
                cap == bottle.bcap(),
                idx <= cap,
                counts@.len() == 13,
                state_units(v.take(i as int + 1)).len() <= usize::MAX,
                state_units(v.take(i as int + 1)) == prior.add(units.to_multiset()),
                forall|j: int|
                    0 <= j < 13 ==> #[trigger] counts@[j] == prior.count(partial_at(j)) + units.take(
                        if idx <= units.len() { idx as int } else { units.len() as int },
                    ).to_multiset().count(partial_at(j)),
            decreases cap - idx,
        {
            let ghost upto = if idx <= units.len() { idx as int } else { units.len() as int };
            match bottle.sample_content_at(idx) {
                Some(u) => {
                    let slot: usize = match u {
                        PartialColoredWaterUnit::UnknownColor => 0,
                        PartialColoredWaterUnit::Color(c) => c.ordinal() as usize + 1,
                    };
                    proof {
                        assert(slot == partial_index(u));
                        match u {
                            PartialColoredWaterUnit::UnknownColor => {},
                            PartialColoredWaterUnit::Color(c) => {
                                lemma_color_index_inverse(c);
                            },
                        }
                        assert(partial_at(slot as int) == u);
                        assert(units.take(idx + 1) =~= units.take(idx as int).push(u));
                        vstd::seq_lib::to_multiset_build(units.take(idx as int), u);
                        lemma_take_multiset_le(units, idx + 1);
                        assert(counts@[slot as int] + 1 <= state_units(v.take(i as int + 1)).count(u)) by {
                            assert(units.to_multiset().count(u) >= units.take(idx + 1).to_multiset().count(u));
                        }
                        assert(state_units(v.take(i as int + 1)).count(u) <= state_units(v.take(i as int + 1)).len());
                    }
                    let current = counts[slot];
                    counts.set(slot, current + 1);
                    proof {
                        assert forall|j: int| 0 <= j < 13 implies #[trigger] counts@[j] == prior.count(partial_at(j))
                            + units.take(idx + 1).to_multiset().count(partial_at(j)) by {
                            if j != slot as int {
                                assert(partial_at(j) != u) by {
                                    lemma_partial_at_injective(j, slot as int);
                                }
                            }
                        }
                    }
                },
                None => {
                    assert(units.take(upto) == units.take(if idx + 1 <= units.len() { idx + 1 } else { units.len() as int }));
                },
            }
            idx = idx + 1;
        }
        proof {
            assert(units.take(units.len() as int) =~= units);
            assert(v.take(i + 1).drop_last() =~= v.take(i as int));
            assert(v.take(i + 1).last() == v[i as int]);
        }
        i = i + 1;
    }
    proof {
        assert(v.take(v.len() as int) =~= v);
    }
    counts
}

/// Positions of the order of [partial_index] give distinct units
proof fn lemma_partial_at_injective(a: int, b: int)
    requires
        0 <= a < 13,
        0 <= b < 13,
        a != b,
    ensures
        partial_at(a) != partial_at(b),
{
}

/// The units of the first bottles of a game state are among the units of the game state
proof fn lemma_state_units_prefix(v: Seq<BottleView>, i: int)
    requires
        0 <= i <= v.len(),
    ensures
        state_units(v.take(i)).len() <= state_units(v).len(),
    decreases v.len() - i,
{
    if i < v.len() {
        lemma_state_units_prefix(v, i + 1);
        assert(v.take(i + 1).drop_last() =~= v.take(i));
    } else {
        assert(v.take(i) =~= v);
    }
}

/// The units of the start of a sequence are among its units
proof fn lemma_take_multiset_le(s: Seq<PartialColoredWaterUnit>, n: int)
    requires
        0 <= n <= s.len(),
    ensures
        forall|u: PartialColoredWaterUnit| #[trigger] s.take(n).to_multiset().count(u) <= s.to_multiset().count(u),
{
    assert(s =~= s.take(n) + s.skip(n));
    vstd::seq_lib::lemma_multiset_commutative(s.take(n), s.skip(n));
}

} // verus!
