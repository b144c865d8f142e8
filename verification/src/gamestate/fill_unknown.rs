//! Giving the units of unknown color of a [PartialGameState] the colors of an arrangement of
//! the missing units, which turns it into a [KnownGameState].
use vstd::prelude::*;
use vstd::multiset::Multiset;

use super::gamestate_trait::{BottleView, bottle_view, bottles_view, bottles_wf};
use super::known_gamestate::KnownGameState;
use super::partial_gamestate::PartialGameState;
use super::unit_counts::state_units;
use crate::bottle::{Bottle, BottleSampleResult, KnownBottle, PartialBottle, fillable, known_units, unknown_units};
use crate::colored_water::{ColoredWaterUnit, PartialColoredWaterUnit};
use crate::solution::unknown_count;

verus! {

broadcast use vstd::multiset::group_multiset_axioms;

/// The number of units of unknown color among `units`
pub open spec fn unknown_in(units: Seq<PartialColoredWaterUnit>) -> nat
    decreases units.len(),
{
    if units.len() == 0 {
        0
    } else {
        unknown_in(units.drop_last()) + if units.last() is UnknownColor {
            1nat
        } else {
            0nat
        }
    }
}

/// The units of a bottle once its units of unknown color, which lie at the bottom, take their
/// colors from `perm` starting at `offset`: the topmost unknown unit takes `perm[offset]`,
/// the one below it `perm[offset + 1]`, and so on down to the bottom
pub open spec fn filled_units(
    units: Seq<PartialColoredWaterUnit>,
    perm: Seq<ColoredWaterUnit>,
    offset: int,
) -> Seq<PartialColoredWaterUnit> {
    Seq::new(
        units.len(),
        |j: int|
            if units[j] is UnknownColor {
                PartialColoredWaterUnit::Color(perm[offset + unknown_in(units) - 1 - j])
            } else {
                units[j]
            },
    )
}

/// A game state once its units of unknown color take their colors from `perm`, bottle after
/// bottle: the unknown units of bottle `i` take the colors that follow those given to the
/// bottles before it
pub open spec fn filled_state(v: Seq<BottleView>, perm: Seq<ColoredWaterUnit>) -> Seq<BottleView> {
    Seq::new(v.len(), |i: int| (v[i].0, filled_units(v[i].1, perm, unknown_count(v.take(i)) as int)))
}

/// Counting units of unknown color one by one counts them with multiplicity
proof fn lemma_unknown_in_multiset(units: Seq<PartialColoredWaterUnit>)
    ensures
        unknown_in(units) == units.to_multiset().count(PartialColoredWaterUnit::UnknownColor),
    decreases units.len(),
{
    if units.len() == 0 {
        vstd::seq_lib::to_multiset_len(units);
    } else {
        lemma_unknown_in_multiset(units.drop_last());
        assert(units =~= units.drop_last().push(units.last()));
        vstd::seq_lib::to_multiset_build(units.drop_last(), units.last());
    }
}

/// A bottle of `k` unknown units below known content has `k` units of unknown color
pub proof fn lemma_unknown_in_partial(k: nat, c: Seq<ColoredWaterUnit>)
    ensures
        unknown_in(unknown_units(k) + known_units(c)) == k,
    decreases k + c.len(),
{
    let s = unknown_units(k) + known_units(c);
    if c.len() > 0 {
        assert(s.drop_last() =~= unknown_units(k) + known_units(c.drop_last()));
        lemma_unknown_in_partial(k, c.drop_last());
    } else if k > 0 {
        assert(s.drop_last() =~= unknown_units((k - 1) as nat) + known_units(c));
        lemma_unknown_in_partial((k - 1) as nat, c);
    } else {
        assert(s =~= Seq::<PartialColoredWaterUnit>::empty());
    }
}

/// The colors the `k` unknown units of a bottle take from `perm` starting at `offset`, bottom first
pub open spec fn taken_colors(k: nat, perm: Seq<ColoredWaterUnit>, offset: int) -> Seq<ColoredWaterUnit> {
    Seq::new(k, |j: int| perm[offset + k - 1 - j])
}

/// Filling a bottle of `k` unknown units below known content `c` puts the taken colors below `c`
proof fn lemma_filled_partial(k: nat, c: Seq<ColoredWaterUnit>, perm: Seq<ColoredWaterUnit>, offset: int)
    ensures
        filled_units(unknown_units(k) + known_units(c), perm, offset) == known_units(
            taken_colors(k, perm, offset) + c,
        ),
{
    lemma_unknown_in_partial(k, c);
    assert(filled_units(unknown_units(k) + known_units(c), perm, offset) =~= known_units(
        taken_colors(k, perm, offset) + c,
    ));
}

/// A partial bottle whose units are `m` unknown units below known content `x` has exactly that
/// unknown count and that known content
pub proof fn lemma_partial_parts<const C: usize>(b: PartialBottle<C>, m: nat, x: Seq<ColoredWaterUnit>)
    requires
        b.units() == unknown_units(m) + known_units(x),
    ensures
        b.unknown_v() == m,
        b.known_v() == x,
{
    b.lemma_units();
    let u = b.units();
    if b.unknown_v() < m {
        assert(u[b.unknown_v() as int] == PartialColoredWaterUnit::UnknownColor);
    }
    if b.unknown_v() > m {
        assert(u[m as int] == PartialColoredWaterUnit::UnknownColor);
    }
    assert(b.known_v().len() == x.len());
    assert forall|j: int| 0 <= j < x.len() implies b.known_v()[j] == x[j] by {
        assert(u[m + j] == PartialColoredWaterUnit::Color(x[j]));
    }
    assert(b.known_v() =~= x);
}

/// Gives the `k` units of unknown color of `b` the colors `perm[offset..offset + k]`, from the
/// top down, as [PartialBottle::try_set_color] allows: the topmost unknown unit becomes known first.
fn fill_unknowns<const C: usize>(b: &mut PartialBottle<C>, perm: &Vec<ColoredWaterUnit>, offset: usize)
    requires
        old(b).wf(),
        old(b).cap_v() <= C,
        offset + old(b).unknown_v() <= perm@.len(),
    ensures
        final(b).wf(),
        final(b).cap_v() == old(b).cap_v(),
        final(b).unknown_v() == 0,
        final(b).units() == known_units(taken_colors(old(b).unknown_v(), perm@, offset as int) + old(b).known_v()),
{
    let ghost k = old(b).unknown_v();
    let ghost known0 = old(b).known_v();
    let ghost cap = old(b).cap_v();
    proof {
        b.lemma_units();
        b.lemma_wf();
    }
    let k_exec = b.get_unknown_count();
    let perm_len = perm.len();
    let mut t: usize = b.capacity();
    assert(b.units() == unknown_units(k) + known_units(
        Seq::new((k - k) as nat, |j: int| perm@[offset + k - 1 - k - j]) + known0,
    )) by {
        assert(Seq::new((k - k) as nat, |j: int| perm@[offset + k - 1 - k - j]) + known0 =~= known0);
    }
    while t > 0
        invariant
            b.wf(),
            b.cap_v() == cap,
            cap <= C,
            k + known0.len() <= cap,
            k_exec == k,
            perm_len == perm@.len(),
            offset + k <= perm@.len(),
            t <= cap,
            b.units() == unknown_units(if t < k { t as nat } else { k }) + known_units(
                Seq::new(
                    (k - (if t < k { t as nat } else { k })) as nat,
                    |j: int| perm@[offset + k - 1 - (if t < k { t as nat } else { k }) - j],
                ) + known0,
            ),
        decreases t,
    {
        let ghost m: nat = if t < k { t as nat } else { k };
        let ghost x = Seq::new((k - m) as nat, |j: int| perm@[offset + k - 1 - m - j]) + known0;
        proof {
            lemma_partial_parts(*b, m, x);
            b.lemma_units();
        }
        t = t - 1;
        if b.sample_at(t) == BottleSampleResult::UnknownColor {
            assert(t as nat + 1 == m) by {
                if t as nat >= m {
                    if t < b.units().len() {
                        assert(b.units()[t as int] == PartialColoredWaterUnit::Color(x[t - m]));
                    }
                }
            }
            assert(m <= k);
            assert(offset + k <= perm@.len());
            let above: usize = k_exec - 1 - t;
            assert(offset + above < perm@.len());
            let color = perm[offset + above];
            let ghost before = b.units();
            let r = b.try_set_color(t, Some(PartialColoredWaterUnit::Color(color)));
            assert(r is Ok);
            proof {
                let m2: nat = (m - 1) as nat;
                let x2 = Seq::new((k - m2) as nat, |j: int| perm@[offset + k - 1 - m2 - j]) + known0;
                assert(x2 =~= seq![color] + x);
                assert(b.units() =~= unknown_units(m2) + known_units(x2));
            }
        } else {
            assert(t as nat >= m) by {
                if (t as nat) < m {
                    assert(b.units()[t as int] == PartialColoredWaterUnit::UnknownColor);
                }
            }
        }
    }
    proof {
        lemma_partial_parts(*b, 0, Seq::new(k, |j: int| perm@[offset + k - 1 - 0 - j]) + known0);
        assert(Seq::new(k, |j: int| perm@[offset + k - 1 - 0 - j]) =~= taken_colors(k, perm@, offset as int));
    }
}

/// The units of unknown color of the first `i + 1` bottles are those of the first `i` and those
/// of bottle `i`
proof fn lemma_unknown_count_step(v: Seq<BottleView>, i: int)
    requires
        0 <= i < v.len(),
    ensures
        unknown_count(v.take(i + 1)) == unknown_count(v.take(i)) + unknown_in(v[i].1),
{
    assert(v.take(i + 1).drop_last() =~= v.take(i));
    assert(v.take(i + 1).last() == v[i]);
    lemma_unknown_in_multiset(v[i].1);
}

/// The first bottles of a game state hold at most as many units of unknown color as all of them
proof fn lemma_unknown_count_prefix(v: Seq<BottleView>, i: int)
    requires
        0 <= i <= v.len(),
    ensures
        unknown_count(v.take(i)) <= unknown_count(v),
    decreases v.len() - i,
{
    if i < v.len() {
        lemma_unknown_count_prefix(v, i + 1);
        assert(v.take(i + 1).drop_last() =~= v.take(i));
    } else {
        assert(v.take(i) =~= v);
    }
}

/// The units of known color of a multiset of units: every unit of unknown color dropped
pub open spec fn known_part(m: Multiset<PartialColoredWaterUnit>) -> Multiset<PartialColoredWaterUnit> {
    m.update(PartialColoredWaterUnit::UnknownColor, 0)
}

/// The colors a bottle's unknown units take are those of `perm[offset..offset + k]`, reversed
proof fn lemma_taken_multiset(k: nat, perm: Seq<ColoredWaterUnit>, offset: int)
    requires
        0 <= offset,
        offset + k <= perm.len(),
    ensures
        known_units(taken_colors(k, perm, offset)).to_multiset() == known_units(
            perm.subrange(offset, offset + k),
        ).to_multiset(),
{
    let sub = known_units(perm.subrange(offset, offset + k));
    assert(known_units(taken_colors(k, perm, offset)) =~= sub.reverse());
    sub.lemma_reverse_to_multiset();
}

/// Filling the unknown units of one bottle trades them for units of the taken colors
proof fn lemma_filled_bottle_multiset(
    k: nat,
    c: Seq<ColoredWaterUnit>,
    perm: Seq<ColoredWaterUnit>,
    offset: int,
)
    requires
        0 <= offset,
        offset + k <= perm.len(),
    ensures
        filled_units(unknown_units(k) + known_units(c), perm, offset).to_multiset() == known_part(
            (unknown_units(k) + known_units(c)).to_multiset(),
        ).add(known_units(perm.subrange(offset, offset + k)).to_multiset()),
{
    broadcast use vstd::seq_lib::lemma_multiset_commutative;
    broadcast use vstd::multiset::lemma_update_same, vstd::multiset::lemma_update_different;

    lemma_filled_partial(k, c, perm, offset);
    let taken = taken_colors(k, perm, offset);
    assert(known_units(taken + c) =~= known_units(taken) + known_units(c));
    lemma_taken_multiset(k, perm, offset);
    let kc = known_units(c).to_multiset();
    let uk = unknown_units(k).to_multiset();
    let sub = known_units(perm.subrange(offset, offset + k)).to_multiset();
    assert(kc.count(PartialColoredWaterUnit::UnknownColor) == 0) by {
        if kc.count(PartialColoredWaterUnit::UnknownColor) > 0 {
            vstd::seq_lib::to_multiset_contains(known_units(c), PartialColoredWaterUnit::UnknownColor);
            let j = choose|j: int| 0 <= j < known_units(c).len() && known_units(c)[j]
                == PartialColoredWaterUnit::UnknownColor;
            assert(known_units(c)[j] is Color);
        }
    }
    assert forall|x: PartialColoredWaterUnit| x is Color implies #[trigger] uk.count(x) == 0 by {
        if uk.count(x) > 0 {
            vstd::seq_lib::to_multiset_contains(unknown_units(k), x);
        }
    }
    assert forall|x: PartialColoredWaterUnit| #[trigger] known_part(uk.add(kc)).add(sub).count(x)
        == kc.add(sub).count(x) by {
        if x is UnknownColor {
            assert(sub.count(x) == 0) by {
                if sub.count(x) > 0 {
                    vstd::seq_lib::to_multiset_contains(known_units(perm.subrange(offset, offset + k)), x);
                }
            }
        }
    }
    assert(known_part(uk.add(kc)).add(sub) =~= sub.add(kc));
}

/// Collapsing a game state keeps its bottles and their capacities, keeps every unit of known
/// color where it is, and leaves no unit of unknown color
pub proof fn lemma_collapse_keeps_known<const MAX_BCOUNT: usize, const B_MAX_CAP: usize>(
    gs: PartialGameState<MAX_BCOUNT, B_MAX_CAP>,
    perm: Seq<ColoredWaterUnit>,
)
    requires
        bottles_wf(gs.bottles@),
        perm.len() >= unknown_count(bottles_view(gs.bottles@)),
    ensures
        ({
            let v = bottles_view(gs.bottles@);
            let w = filled_state(v, perm);
            &&& w.len() == v.len()
            &&& forall|i: int| 0 <= i < v.len() ==> (#[trigger] w[i]).0 == v[i].0 && w[i].1.len() == v[i].1.len()
            &&& forall|i: int, j: int|
                0 <= i < v.len() && 0 <= j < v[i].1.len() ==> (#[trigger] w[i].1[j]) is Color
            &&& forall|i: int, j: int|
                0 <= i < v.len() && 0 <= j < v[i].1.len() && (#[trigger] v[i].1[j]) is Color ==> w[i].1[j]
                    == v[i].1[j]
        }),
{
}

/// Collapsing a game state with as many colors as it has units of unknown color trades those
/// units for one unit of each of the colors: the units of known color stay, counted with
/// multiplicity
pub proof fn lemma_collapse_units<const MAX_BCOUNT: usize, const B_MAX_CAP: usize>(
    gs: PartialGameState<MAX_BCOUNT, B_MAX_CAP>,
    perm: Seq<ColoredWaterUnit>,
)
    requires
        bottles_wf(gs.bottles@),
        perm.len() == unknown_count(bottles_view(gs.bottles@)),
    ensures
        state_units(filled_state(bottles_view(gs.bottles@), perm)) == known_part(
            state_units(bottles_view(gs.bottles@)),
        ).add(known_units(perm).to_multiset()),
{
    let v = bottles_view(gs.bottles@);
    assert forall|i: int| 0 <= i < v.len() implies #[trigger] split_below(v[i].1) by {
        let b = gs.bottles@[i];
        assert(b.inv());
        b.lemma_units();
        assert(v[i].1 == unknown_units(b.unknown_v()) + known_units(b.known_v()));
    }
    lemma_filled_state_units(v, perm);
    assert(perm.take(perm.len() as int) =~= perm);
}

/// The units of a bottle lie with all those of unknown color below those of known color
pub open spec fn split_below(units: Seq<PartialColoredWaterUnit>) -> bool {
    exists|k: nat, c: Seq<ColoredWaterUnit>| units == unknown_units(k) + known_units(c)
}

/// [lemma_collapse_units] over game state models, bottle by bottle
proof fn lemma_filled_state_units(v: Seq<BottleView>, perm: Seq<ColoredWaterUnit>)
    requires
        forall|i: int| 0 <= i < v.len() ==> #[trigger] split_below(v[i].1),
        perm.len() >= unknown_count(v),
    ensures
        state_units(filled_state(v, perm)) == known_part(state_units(v)).add(
            known_units(perm.take(unknown_count(v) as int)).to_multiset(),
        ),
    decreases v.len(),
{
    broadcast use vstd::seq_lib::lemma_multiset_commutative;
    broadcast use vstd::multiset::lemma_update_same, vstd::multiset::lemma_update_different;

    let w = filled_state(v, perm);
    if v.len() == 0 {
        assert(state_units(w) == Multiset::<PartialColoredWaterUnit>::empty());
        assert(known_units(perm.take(0)) =~= Seq::<PartialColoredWaterUnit>::empty());
        assert(state_units(v) == Multiset::<PartialColoredWaterUnit>::empty());
        vstd::seq_lib::to_multiset_len(known_units(perm.take(0)));
        vstd::multiset::lemma_multiset_empty_len(known_units(perm.take(0)).to_multiset());
        assert(known_part(state_units(v)).add(known_units(perm.take(0)).to_multiset()) =~= Multiset::<
            PartialColoredWaterUnit,
        >::empty());
    } else {
        let n = v.len() - 1;
        let u = v.drop_last();
        assert(split_below(v[n].1));
        let (k, c) = choose|k: nat, c: Seq<ColoredWaterUnit>| v[n].1 == unknown_units(k) + known_units(c);
        lemma_unknown_in_partial(k, c);
        lemma_unknown_count_step(v, n);
        assert(v.take(n) =~= u);
        assert(v.take(n + 1) =~= v);
        let uc = unknown_count(u);
        assert forall|i: int| 0 <= i < u.len() implies #[trigger] split_below(u[i].1) by {
            assert(split_below(v[i].1));
        }
        lemma_filled_state_units(u, perm);
        assert(w.drop_last() =~= filled_state(u, perm)) by {
            assert forall|i: int| 0 <= i < u.len() implies w.drop_last()[i] == filled_state(u, perm)[i] by {
                assert(u.take(i) =~= v.take(i));
            }
        }
        assert(w.last() == (v[n].0, filled_units(v[n].1, perm, uc as int)));
        lemma_filled_bottle_multiset(k, c, perm, uc as int);
        let a = state_units(u);
        let m0 = v[n].1.to_multiset();
        let tu = known_units(perm.take(uc as int)).to_multiset();
        let sub = known_units(perm.subrange(uc as int, (uc + k) as int)).to_multiset();
        assert(known_units(perm.take((uc + k) as int)) =~= known_units(perm.take(uc as int)) + known_units(
            perm.subrange(uc as int, (uc + k) as int),
        ));
        assert(state_units(w) == state_units(w.drop_last()).add(w.last().1.to_multiset()));
        assert(state_units(v) == a.add(m0));
        assert forall|x: PartialColoredWaterUnit| #[trigger] state_units(w).count(x) == known_part(
            a.add(m0),
        ).add(tu.add(sub)).count(x) by {}
        assert(state_units(w) =~= known_part(state_units(v)).add(
            known_units(perm.take(unknown_count(v) as int)).to_multiset(),
        ));
    }
}

/// Combines a [PartialGameState] and an arrangement of the colors of its units of unknown color
/// into a [KnownGameState].
///
/// The bottles are filled in order; within a bottle the unknown units are given colors from
/// the top one down, each taking the next color of `permutable` (see [filled_state]).
/// `permutable` must hold at least one color for each unit of unknown color, as the units
/// [to_permutable](super::to_permutable) generates do, in any order; colors beyond those needed
/// are left unused.
pub fn permutation_as_known<const MAX_BCOUNT: usize, const B_MAX_CAP: usize>(
    gs: PartialGameState<MAX_BCOUNT, B_MAX_CAP>,
    permutable: Vec<ColoredWaterUnit>,
) -> (r: KnownGameState<MAX_BCOUNT, B_MAX_CAP>)
    requires
        bottles_wf(gs.bottles@),
        permutable@.len() >= unknown_count(bottles_view(gs.bottles@)),
    ensures
        bottles_wf(r.bottles@),
        bottles_view(r.bottles@) == filled_state(bottles_view(gs.bottles@), permutable@),
{
    let ghost src = gs.bottles@;
    let ghost v = bottles_view(src);
    let ghost filled = filled_state(v, permutable@);
    // the number of units of unknown color
    let perm_len = permutable.len();
    let mut end: usize = 0;
    let mut i: usize = 0;
    while i < gs.bottles.len()
        invariant
            src == gs.bottles@,
            v == bottles_view(src),
            bottles_wf(src),
            i <= src.len(),
            end == unknown_count(v.take(i as int)),
            unknown_count(v) <= permutable@.len(),
            perm_len == permutable@.len(),
        decreases src.len() - i,
    {
        proof {
            assert(src[i as int].inv());
            src[i as int].lemma_units();
            assert(v[i as int] == bottle_view(src[i as int]));
            lemma_unknown_in_partial(src[i as int].unknown_v(), src[i as int].known_v());
            lemma_unknown_count_step(v, i as int);
            lemma_unknown_count_prefix(v, i + 1);
        }
        end = end + gs.bottles[i].get_unknown_count();
        i = i + 1;
    }
    assert(v.take(v.len() as int) =~= v);
    let mut source = gs.bottles;
    let mut rev: Vec<KnownBottle<B_MAX_CAP>> = Vec::new();
    while source.len() > 0
        invariant
            bottles_wf(src),
            v == bottles_view(src),
            filled == filled_state(v, permutable@),
            src.len() == source@.len() + rev@.len(),
            forall|j: int| 0 <= j < source@.len() ==> #[trigger] source@[j] == src[j],
            end == unknown_count(v.take(source@.len() as int)),
            end <= permutable@.len(),
            forall|j: int|
                0 <= j < rev@.len() ==> #[trigger] bottle_view(rev@[j]) == filled[src.len() - 1 - j]
                    && rev@[j].inv() && fillable(rev@[j]),
        decreases source@.len(),
    {
        let mut b = source.pop().unwrap();
        let ghost i = source@.len() as int;
        assert(b == src[i]);
        assert(src[i].inv() && fillable(src[i]));
        let k = b.get_unknown_count();
        proof {
            b.lemma_units();
            assert(v[i] == bottle_view(src[i]));
            lemma_unknown_in_partial(k as nat, b.known_v());
            lemma_unknown_count_step(v, i);
            lemma_filled_partial(k as nat, b.known_v(), permutable@, (end - k) as int);
        }
        let offset = end - k;
        fill_unknowns(&mut b, &permutable, offset);
        assert(bottle_view(b) == filled[i]);
        match KnownBottle::try_from_partial(b) {
            Ok(known) => {
                rev.push(known);
            },
            Err(_) => {
                assert(false);
            },
        }
        end = offset;
    }
    let mut bottles: Vec<KnownBottle<B_MAX_CAP>> = Vec::new();
    while rev.len() > 0
        invariant
            src.len() == bottles@.len() + rev@.len(),
            filled.len() == src.len(),
            forall|j: int|
                0 <= j < rev@.len() ==> #[trigger] bottle_view(rev@[j]) == filled[src.len() - 1 - j]
                    && rev@[j].inv() && fillable(rev@[j]),
            forall|j: int|
                0 <= j < bottles@.len() ==> #[trigger] bottle_view(bottles@[j]) == filled[j]
                    && bottles@[j].inv() && fillable(bottles@[j]),
        decreases rev@.len(),
    {
        let b = rev.pop().unwrap();
        bottles.push(b);
    }
    let r = KnownGameState { bottles };
    assert(bottles_view(r.bottles@) =~= filled);
    assert forall|j: int| 0 <= j < r.bottles@.len() implies #[trigger] r.bottles@[j].inv() && fillable(
        r.bottles@[j],
    ) by {
        assert(bottle_view(r.bottles@[j]) == filled[j]);
    }
    r
}

} // verus!
