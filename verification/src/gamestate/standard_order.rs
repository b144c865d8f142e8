//! The standard order of game states of known bottles: their bottles put in the standard order
//! of bottles, then compared bottle after bottle.
use vstd::prelude::*;
use vstd::multiset::Multiset;

use super::equivalence::views_equivalent;
use super::gamestate_trait::{BottleView, bottle_view, bottles_view, bottles_wf};
use super::known_gamestate::KnownGameState;
use crate::bottle::{Comparison, KnownBottle, bottle_order, known_units, lemma_bottle_order};
use crate::colored_water::{ColoredWaterUnit, PartialColoredWaterUnit};

verus! {

broadcast use vstd::multiset::group_multiset_axioms;

/// The color of a unit, taken as `Red` for a unit of unknown color
pub open spec fn unit_color(u: PartialColoredWaterUnit) -> ColoredWaterUnit {
    match u {
        PartialColoredWaterUnit::Color(c) => c,
        PartialColoredWaterUnit::UnknownColor => ColoredWaterUnit::Red,
    }
}

/// The colors of the units of a bottle model
pub open spec fn view_colors(units: Seq<PartialColoredWaterUnit>) -> Seq<ColoredWaterUnit> {
    units.map_values(|u: PartialColoredWaterUnit| unit_color(u))
}

/// Every unit of the bottle model has a known color
pub open spec fn known_view(a: BottleView) -> bool {
    forall|j: int| 0 <= j < a.1.len() ==> (#[trigger] a.1[j]) is Color
}

/// The standard order of bottles (see [bottle_order]) on bottle models
pub open spec fn view_order(a: BottleView, b: BottleView) -> Comparison {
    bottle_order(a.0, view_colors(a.1), b.0, view_colors(b.1))
}

/// `x` put into `t` right before the first bottle it is less than
pub open spec fn insert_in_order(t: Seq<BottleView>, x: BottleView) -> Seq<BottleView>
    decreases t.len(),
{
    if t.len() == 0 {
        seq![x]
    } else if view_order(x, t[0]) == Comparison::Less {
        seq![x] + t
    } else {
        seq![t[0]] + insert_in_order(t.drop_first(), x)
    }
}

/// The bottles of a game state model in the standard order of bottles
pub open spec fn standard_order(v: Seq<BottleView>) -> Seq<BottleView>
    decreases v.len(),
{
    if v.len() == 0 {
        Seq::empty()
    } else {
        insert_in_order(standard_order(v.drop_last()), v.last())
    }
}

/// Two sequences of bottle models compared bottle after bottle; a sequence that is a proper
/// start of the other is the lesser one
pub open spec fn views_order(a: Seq<BottleView>, b: Seq<BottleView>) -> Comparison
    decreases a.len(),
{
    if a.len() == 0 {
        if b.len() == 0 {
            Comparison::Equal
        } else {
            Comparison::Less
        }
    } else if b.len() == 0 {
        Comparison::Greater
    } else if view_order(a[0], b[0]) == Comparison::Equal {
        views_order(a.drop_first(), b.drop_first())
    } else {
        view_order(a[0], b[0])
    }
}

/// The standard order of game states: their bottles in the standard order, compared bottle
/// after bottle
pub open spec fn state_order(a: Seq<BottleView>, b: Seq<BottleView>) -> Comparison {
    views_order(standard_order(a), standard_order(b))
}

/// `x` does not come after `y`
pub open spec fn not_after(x: BottleView, y: BottleView) -> bool {
    view_order(x, y) != Comparison::Greater
}

/// The bottle models are in the standard order
pub open spec fn in_order(s: Seq<BottleView>) -> bool {
    forall|i: int, j: int| 0 <= i < j < s.len() ==> not_after(#[trigger] s[i], #[trigger] s[j])
}

/// Every bottle model has only units of known color
pub open spec fn all_known(s: Seq<BottleView>) -> bool {
    forall|i: int| 0 <= i < s.len() ==> known_view(#[trigger] s[i])
}

/// The order of bottle models is the order of bottles: equal only for equal models (of known
/// units), swapping them swaps less and greater, and less than is transitive
proof fn lemma_view_order(a: BottleView, b: BottleView, c: BottleView)
    ensures
        known_view(a) && known_view(b) ==> (view_order(a, b) == Comparison::Equal <==> a == b),
        view_order(a, b) == Comparison::Less <==> view_order(b, a) == Comparison::Greater,
        view_order(a, b) == Comparison::Less && view_order(b, c) == Comparison::Less ==> view_order(a, c)
            == Comparison::Less,
        not_after(a, b) && not_after(b, c) ==> not_after(a, c),
{
    lemma_bottle_order(a.0, view_colors(a.1), b.0, view_colors(b.1), c.0, view_colors(c.1));
    lemma_bottle_order(b.0, view_colors(b.1), c.0, view_colors(c.1), a.0, view_colors(a.1));
    lemma_bottle_order(a.0, view_colors(a.1), c.0, view_colors(c.1), b.0, view_colors(b.1));
    lemma_bottle_order(c.0, view_colors(c.1), b.0, view_colors(b.1), a.0, view_colors(a.1));
    lemma_bottle_order(b.0, view_colors(b.1), a.0, view_colors(a.1), c.0, view_colors(c.1));
    lemma_bottle_order(c.0, view_colors(c.1), a.0, view_colors(a.1), b.0, view_colors(b.1));
    if known_view(a) && known_view(b) && view_order(a, b) == Comparison::Equal {
        assert forall|j: int| 0 <= j < a.1.len() implies a.1[j] == b.1[j] by {
            assert(view_colors(a.1)[j] == view_colors(b.1)[j]);
        }
        assert(a.1 =~= b.1);
    }
}

/// Putting a bottle model in adds it to the models, counted with multiplicity
proof fn lemma_insert_multiset(t: Seq<BottleView>, x: BottleView)
    ensures
        insert_in_order(t, x).to_multiset() == t.to_multiset().insert(x),
        insert_in_order(t, x).len() == t.len() + 1,
    decreases t.len(),
{
    broadcast use vstd::seq_lib::lemma_multiset_commutative;

    assert(seq![x].to_multiset() =~= Multiset::<BottleView>::empty().insert(x)) by {
        vstd::seq_lib::to_multiset_build(Seq::<BottleView>::empty(), x);
        assert(Seq::<BottleView>::empty().push(x) =~= seq![x]);
        vstd::seq_lib::to_multiset_len(Seq::<BottleView>::empty());
        vstd::multiset::lemma_multiset_empty_len(Seq::<BottleView>::empty().to_multiset());
    }
    if t.len() == 0 {
        vstd::seq_lib::to_multiset_len(t);
        vstd::multiset::lemma_multiset_empty_len(t.to_multiset());
    } else if view_order(x, t[0]) == Comparison::Less {
        assert(insert_in_order(t, x).to_multiset() =~= t.to_multiset().insert(x));
    } else {
        let rest = t.drop_first();
        lemma_insert_multiset(rest, x);
        assert(t =~= seq![t[0]] + rest);
        assert(seq![t[0]].to_multiset() =~= Multiset::<BottleView>::empty().insert(t[0])) by {
            vstd::seq_lib::to_multiset_build(Seq::<BottleView>::empty(), t[0]);
            assert(Seq::<BottleView>::empty().push(t[0]) =~= seq![t[0]]);
            vstd::seq_lib::to_multiset_len(Seq::<BottleView>::empty());
            vstd::multiset::lemma_multiset_empty_len(Seq::<BottleView>::empty().to_multiset());
        }
        assert(insert_in_order(t, x).to_multiset() =~= t.to_multiset().insert(x));
    }
}

/// The bottle models in the standard order are the bottle models, counted with multiplicity
proof fn lemma_standard_multiset(v: Seq<BottleView>)
    ensures
        standard_order(v).to_multiset() == v.to_multiset(),
        standard_order(v).len() == v.len(),
    decreases v.len(),
{
    if v.len() == 0 {
        assert(standard_order(v) =~= v);
    } else {
        lemma_standard_multiset(v.drop_last());
        lemma_insert_multiset(standard_order(v.drop_last()), v.last());
        assert(v =~= v.drop_last().push(v.last()));
        vstd::seq_lib::to_multiset_build(v.drop_last(), v.last());
    }
}

/// A bottle model is among those of a sequence exactly when the sequence's multiset counts it
proof fn lemma_contains_count(s: Seq<BottleView>, y: BottleView)
    ensures
        s.contains(y) <==> s.to_multiset().count(y) > 0,
{
    vstd::seq_lib::to_multiset_contains(s, y);
}

/// Putting a bottle model into models in the standard order keeps them in it
proof fn lemma_insert_in_order(t: Seq<BottleView>, x: BottleView)
    requires
        in_order(t),
    ensures
        in_order(insert_in_order(t, x)),
    decreases t.len(),
{
    let r = insert_in_order(t, x);
    if t.len() == 0 {
    } else if view_order(x, t[0]) == Comparison::Less {
        assert forall|i: int, j: int| 0 <= i < j < r.len() implies not_after(#[trigger] r[i], #[trigger] r[j]) by {
            if i == 0 {
                if j > 1 {
                    assert(not_after(t[0], t[j - 1]));
                    lemma_view_order(x, t[0], t[j - 1]);
                }
            } else {
                assert(not_after(t[i - 1], t[j - 1]));
            }
        }
    } else {
        let rest = t.drop_first();
        assert forall|i: int, j: int| 0 <= i < j < rest.len() implies not_after(#[trigger] rest[i], #[trigger] rest[j]) by {
            assert(not_after(t[i + 1], t[j + 1]));
        }
        lemma_insert_in_order(rest, x);
        let r2 = insert_in_order(rest, x);
        lemma_insert_multiset(rest, x);
        lemma_view_order(x, t[0], x);
        assert forall|i: int, j: int| 0 <= i < j < r.len() implies not_after(#[trigger] r[i], #[trigger] r[j]) by {
            if i == 0 {
                let y = r2[j - 1];
                assert(r2.contains(y));
                lemma_contains_count(r2, y);
                if y != x {
                    lemma_contains_count(rest, y);
                    let k = choose|k: int| 0 <= k < rest.len() && rest[k] == y;
                    assert(not_after(t[0], t[k + 1]));
                }
            } else {
                assert(r[i] == r2[i - 1] && r[j] == r2[j - 1]);
            }
        }
    }
}

/// The bottle models in the standard order are in it
proof fn lemma_standard_in_order(v: Seq<BottleView>)
    ensures
        in_order(standard_order(v)),
    decreases v.len(),
{
    if v.len() > 0 {
        lemma_standard_in_order(v.drop_last());
        lemma_insert_in_order(standard_order(v.drop_last()), v.last());
    }
}

/// Models with the same multiset, all known, hold the same models
proof fn lemma_all_known_multiset(a: Seq<BottleView>, b: Seq<BottleView>)
    requires
        a.to_multiset() == b.to_multiset(),
        all_known(a),
    ensures
        all_known(b),
{
    assert forall|i: int| 0 <= i < b.len() implies known_view(#[trigger] b[i]) by {
        assert(b.contains(b[i]));
        lemma_contains_count(b, b[i]);
        lemma_contains_count(a, b[i]);
        let k = choose|k: int| 0 <= k < a.len() && a[k] == b[i];
        assert(known_view(a[k]));
    }
}

/// Two sequences of known bottle models in the standard order with the same multiset are equal
proof fn lemma_in_order_unique(s1: Seq<BottleView>, s2: Seq<BottleView>)
    requires
        in_order(s1),
        in_order(s2),
        all_known(s1),
        s1.to_multiset() == s2.to_multiset(),
    ensures
        s1 == s2,
    decreases s1.len(),
{
    vstd::seq_lib::to_multiset_len(s1);
    vstd::seq_lib::to_multiset_len(s2);
    if s1.len() == 0 {
        assert(s1 =~= s2);
    } else {
        lemma_all_known_multiset(s1, s2);
        let a = s1[0];
        let b = s2[0];
        assert(s1.contains(a));
        lemma_contains_count(s1, a);
        lemma_contains_count(s2, a);
        assert(s2.contains(b));
        lemma_contains_count(s2, b);
        lemma_contains_count(s1, b);
        let ka = choose|k: int| 0 <= k < s2.len() && s2[k] == a;
        let kb = choose|k: int| 0 <= k < s1.len() && s1[k] == b;
        lemma_view_order(a, a, a);
        lemma_view_order(b, b, b);
        if ka > 0 {
            assert(not_after(s2[0], s2[ka]));
        }
        if kb > 0 {
            assert(not_after(s1[0], s1[kb]));
        }
        lemma_view_order(a, b, a);
        assert(a == b);
        let t1 = s1.drop_first();
        let t2 = s2.drop_first();
        assert(s1 =~= t1.insert(0, a));
        assert(s2 =~= t2.insert(0, a));
        vstd::seq_lib::to_multiset_insert(t1, 0, a);
        vstd::seq_lib::to_multiset_insert(t2, 0, a);
        assert(t1.to_multiset() =~= t2.to_multiset()) by {
            assert(s1.to_multiset() == t1.to_multiset().insert(a));
            assert(s2.to_multiset() == t2.to_multiset().insert(a));
            assert forall|y: BottleView| #[trigger] t1.to_multiset().count(y) == t2.to_multiset().count(y) by {
                assert(s1.to_multiset().count(y) == s2.to_multiset().count(y));
                assert(t1.to_multiset().insert(a).count(y) == t1.to_multiset().count(y) + if y == a {
                    1int
                } else {
                    0int
                });
                assert(t2.to_multiset().insert(a).count(y) == t2.to_multiset().count(y) + if y == a {
                    1int
                } else {
                    0int
                });
            }
        }
        assert forall|i: int, j: int| 0 <= i < j < t1.len() implies not_after(#[trigger] t1[i], #[trigger] t1[j]) by {
            assert(not_after(s1[i + 1], s1[j + 1]));
        }
        assert forall|i: int, j: int| 0 <= i < j < t2.len() implies not_after(#[trigger] t2[i], #[trigger] t2[j]) by {
            assert(not_after(s2[i + 1], s2[j + 1]));
        }
        assert forall|i: int| 0 <= i < t1.len() implies known_view(#[trigger] t1[i]) by {
            assert(known_view(s1[i + 1]));
        }
        lemma_in_order_unique(t1, t2);
        assert(s1 =~= s2);
    }
}

/// Comparing sequences of known bottle models bottle after bottle: equal exactly for equal
/// sequences, and swapping them swaps less and greater
proof fn lemma_views_order(a: Seq<BottleView>, b: Seq<BottleView>)
    ensures
        all_known(a) && all_known(b) ==> (views_order(a, b) == Comparison::Equal <==> a == b),
        views_order(a, b) == Comparison::Less <==> views_order(b, a) == Comparison::Greater,
    decreases a.len(),
{
    if a.len() > 0 && b.len() > 0 {
        lemma_view_order(a[0], b[0], a[0]);
        lemma_view_order(b[0], a[0], b[0]);
        let ta = a.drop_first();
        let tb = b.drop_first();
        lemma_views_order(ta, tb);
        if all_known(a) && all_known(b) {
            assert(known_view(a[0]) && known_view(b[0]));
            assert(all_known(ta)) by {
                assert forall|i: int| 0 <= i < ta.len() implies known_view(#[trigger] ta[i]) by {
                    assert(known_view(a[i + 1]));
                }
            }
            assert(all_known(tb)) by {
                assert forall|i: int| 0 <= i < tb.len() implies known_view(#[trigger] tb[i]) by {
                    assert(known_view(b[i + 1]));
                }
            }
            if a == b {
                assert(ta == tb);
            }
            if a[0] == b[0] && ta == tb {
                assert forall|i: int| 0 <= i < a.len() implies a[i] == b[i] by {
                    if i > 0 {
                        assert(ta[i - 1] == tb[i - 1]);
                    }
                }
                assert(a =~= b);
            }
        }
    } else if a.len() == 0 && b.len() == 0 {
        assert(a =~= b);
    }
}

/// The standard order of game states orders them: two game states of known bottles are equal in
/// it exactly when they are equivalent (the same bottles, in any order), and swapping them swaps
/// less and greater
pub proof fn lemma_state_order(a: Seq<BottleView>, b: Seq<BottleView>)
    requires
        all_known(a),
        all_known(b),
    ensures
        state_order(a, b) == Comparison::Equal <==> views_equivalent(a, b),
        state_order(a, b) == Comparison::Less <==> state_order(b, a) == Comparison::Greater,
{
    let sa = standard_order(a);
    let sb = standard_order(b);
    lemma_standard_multiset(a);
    lemma_standard_multiset(b);
    lemma_standard_in_order(a);
    lemma_standard_in_order(b);
    lemma_all_known_multiset(a, sa);
    lemma_all_known_multiset(b, sb);
    lemma_views_order(sa, sb);
    if views_equivalent(a, b) {
        lemma_in_order_unique(sa, sb);
    }
}

/// The standard order of game states on game states of known bottles: two of them are equal in
/// it exactly when they are equivalent (the same bottles, in any order), and swapping them swaps
/// less and greater
pub proof fn lemma_known_state_order<const MAX_BCOUNT: usize, const B_MAX_CAP: usize>(
    a: KnownGameState<MAX_BCOUNT, B_MAX_CAP>,
    b: KnownGameState<MAX_BCOUNT, B_MAX_CAP>,
)
    ensures
        state_order(bottles_view(a.bottles@), bottles_view(b.bottles@)) == Comparison::Equal <==> views_equivalent(
            bottles_view(a.bottles@),
            bottles_view(b.bottles@),
        ),
        state_order(bottles_view(a.bottles@), bottles_view(b.bottles@)) == Comparison::Less <==> state_order(
            bottles_view(b.bottles@),
            bottles_view(a.bottles@),
        ) == Comparison::Greater,
{
    let va = bottles_view(a.bottles@);
    let vb = bottles_view(b.bottles@);
    assert forall|i: int| 0 <= i < va.len() implies known_view(#[trigger] va[i]) by {
        assert(va[i] == bottle_view(a.bottles@[i]));
        assert forall|j: int| 0 <= j < va[i].1.len() implies (#[trigger] va[i].1[j]) is Color by {
            assert(va[i].1 == known_units(a.bottles@[i].content_v()));
        }
    }
    assert forall|i: int| 0 <= i < vb.len() implies known_view(#[trigger] vb[i]) by {
        assert(vb[i] == bottle_view(b.bottles@[i]));
        assert forall|j: int| 0 <= j < vb[i].1.len() implies (#[trigger] vb[i].1[j]) is Color by {
            assert(vb[i].1 == known_units(b.bottles@[i].content_v()));
        }
    }
    lemma_state_order(va, vb);
}

/// Putting `x` in right before the first model it is less than is putting it at `p`, when no
/// model before `p` is greater than it and the one at `p`, if any, is greater
proof fn lemma_insert_at(t: Seq<BottleView>, x: BottleView, p: int)
    requires
        0 <= p <= t.len(),
        forall|q: int| 0 <= q < p ==> view_order(x, #[trigger] t[q]) != Comparison::Less,
        p < t.len() ==> view_order(x, t[p]) == Comparison::Less,
    ensures
        insert_in_order(t, x) == t.insert(p, x),
    decreases t.len(),
{
    if t.len() > 0 {
        if p == 0 {
            assert(insert_in_order(t, x) =~= t.insert(p, x));
        } else {
            let rest = t.drop_first();
            assert forall|q: int| 0 <= q < p - 1 implies view_order(x, #[trigger] rest[q]) != Comparison::Less by {
                assert(rest[q] == t[q + 1]);
            }
            lemma_insert_at(rest, x, p - 1);
            assert(insert_in_order(t, x) =~= t.insert(p, x));
        }
    } else {
        assert(insert_in_order(t, x) =~= t.insert(p, x));
    }
}

/// The colors of known units are those units' colors
proof fn lemma_view_colors_known(c: Seq<ColoredWaterUnit>)
    ensures
        view_colors(known_units(c)) == c,
{
    assert(view_colors(known_units(c)) =~= c);
}

/// The models of the bottles at positions `idx`, in that order
pub open spec fn views_at(v: Seq<BottleView>, idx: Seq<usize>) -> Seq<BottleView> {
    Seq::new(idx.len(), |k: int| v[idx[k] as int])
}

impl<const MAX_BCOUNT: usize, const B_MAX_CAP: usize> KnownGameState<MAX_BCOUNT, B_MAX_CAP> {
    /// The positions of the bottles, in the standard order of the bottles
    fn standard_positions(&self) -> (r: Vec<usize>)
        requires
            bottles_wf(self.bottles@),
        ensures
            forall|k: int| 0 <= k < r@.len() ==> #[trigger] r@[k] < self.bottles@.len(),
            views_at(bottles_view(self.bottles@), r@) == standard_order(bottles_view(self.bottles@)),
    {
        let ghost v = bottles_view(self.bottles@);
        let n = self.bottles.len();
        let mut idx: Vec<usize> = Vec::new();
        let mut i: usize = 0;
        assert(v.take(0) =~= Seq::<BottleView>::empty());
        assert(views_at(v, idx@) =~= Seq::<BottleView>::empty());
        while i < n
            invariant
                v == bottles_view(self.bottles@),
                n == v.len(),
                i <= n,
                forall|k: int| 0 <= k < idx@.len() ==> #[trigger] idx@[k] < i,
                views_at(v, idx@) == standard_order(v.take(i as int)),
            decreases n - i,
        {
            let ghost t = views_at(v, idx@);
            let mut p: usize = 0;
            while p < idx.len() && self.bottles[i].compare(&self.bottles[idx[p]]) != Comparison::Less
                invariant
                    v == bottles_view(self.bottles@),
                    n == v.len(),
                    i < n,
                    forall|k: int| 0 <= k < idx@.len() ==> #[trigger] idx@[k] < i,
                    t == views_at(v, idx@),
                    p <= idx@.len(),
                    forall|q: int| 0 <= q < p ==> view_order(v[i as int], #[trigger] t[q]) != Comparison::Less,
                decreases idx@.len() - p,
            {
                proof {
                    lemma_view_colors_known(self.bottles@[i as int].content_v());
                    lemma_view_colors_known(self.bottles@[idx@[p as int] as int].content_v());
                    assert(t[p as int] == v[idx@[p as int] as int]);
                }
                p = p + 1;
            }
            proof {
                if p < idx@.len() {
                    lemma_view_colors_known(self.bottles@[i as int].content_v());
                    lemma_view_colors_known(self.bottles@[idx@[p as int] as int].content_v());
                    assert(t[p as int] == v[idx@[p as int] as int]);
                }
                lemma_insert_at(t, v[i as int], p as int);
                assert(v.take(i + 1).drop_last() =~= v.take(i as int));
                assert(v.take(i + 1).last() == v[i as int]);
            }
            idx.insert(p, i);
            proof {
                assert(views_at(v, idx@) =~= t.insert(p as int, v[i as int]));
            }
            i = i + 1;
        }
        assert(v.take(n as int) =~= v);
        idx
    }

    /// Where this game state stands against `other` in the standard order of game states: both
    /// sets of bottles put in the standard order of bottles (see [KnownBottle::compare]), then
    /// compared bottle after bottle, a game state whose bottles are those of the other's first
    /// bottles being the lesser one. Game states of the same bottles in any order are equal in it.
    pub fn compare(&self, other: &Self) -> (r: Comparison)
        requires
            bottles_wf(self.bottles@),
            bottles_wf(other.bottles@),
        ensures
            r == state_order(bottles_view(self.bottles@), bottles_view(other.bottles@)),
    {
        let ghost va = bottles_view(self.bottles@);
        let ghost vb = bottles_view(other.bottles@);
        let ia = self.standard_positions();
        let ib = other.standard_positions();
        let ghost sa = views_at(va, ia@);
        let ghost sb = views_at(vb, ib@);
        let mut k: usize = 0;
        assert(sa.skip(0) =~= sa);
        assert(sb.skip(0) =~= sb);
        while k < ia.len() && k < ib.len()
            invariant
                sa == views_at(va, ia@),
                sb == views_at(vb, ib@),
                va == bottles_view(self.bottles@),
                vb == bottles_view(other.bottles@),
                forall|j: int| 0 <= j < ia@.len() ==> #[trigger] ia@[j] < self.bottles@.len(),
                forall|j: int| 0 <= j < ib@.len() ==> #[trigger] ib@[j] < other.bottles@.len(),
                k <= ia@.len(),
                k <= ib@.len(),
                views_order(sa, sb) == views_order(sa.skip(k as int), sb.skip(k as int)),
                sa == standard_order(va),
                sb == standard_order(vb),
            decreases ia@.len() - k,
        {
            let c = self.bottles[ia[k]].compare(&other.bottles[ib[k]]);
            proof {
                lemma_view_colors_known(self.bottles@[ia@[k as int] as int].content_v());
                lemma_view_colors_known(other.bottles@[ib@[k as int] as int].content_v());
                assert(sa.skip(k as int)[0] == sa[k as int]);
                assert(sb.skip(k as int)[0] == sb[k as int]);
                assert(sa[k as int] == va[ia@[k as int] as int]);
                assert(sb[k as int] == vb[ib@[k as int] as int]);
                assert(va[ia@[k as int] as int] == bottle_view(self.bottles@[ia@[k as int] as int]));
                assert(vb[ib@[k as int] as int] == bottle_view(other.bottles@[ib@[k as int] as int]));
                assert(c == view_order(sa[k as int], sb[k as int]));
                assert(sa.skip(k as int).drop_first() =~= sa.skip(k + 1));
                assert(sb.skip(k as int).drop_first() =~= sb.skip(k + 1));
            }
            match c {
                Comparison::Equal => {},
                _ => {
                    assert(sa.skip(k as int).len() > 0 && sb.skip(k as int).len() > 0);
                    assert(views_order(sa.skip(k as int), sb.skip(k as int)) == c);
                    return c;
                },
            }
            k = k + 1;
        }
        if k < ia.len() {
            Comparison::Greater
        } else if k < ib.len() {
            Comparison::Less
        } else {
            Comparison::Equal
        }
    }
}

} // verus!
