//! Demystification of [PartialGameState]s: choosing the pours that bring a unit of unknown
//! color to the top of a bottle, where its color can be revealed, while avoiding dead ends.
//!
//! Odds are kept as exact fractions of integers.
use vstd::prelude::*;

use super::solution_state::{first_solves, solves};
use super::{Solution, find_many_solutions};
use crate::bottle::{Bottle, PartialBottle, top_unit};
use crate::colored_water::{ColoredWaterUnit, PartialColoredWaterUnit, color_at, partial_at};
use crate::gamestate::{
    BottleView, GameState, PartialGameState, Pour, bottle_view, bottles_view, bottles_wf, copy_state, count_units,
    has_unknown_top, lemma_run_pours_keeps, lemma_wf_pour_fits, partial_solved, run_pours, same_shape,
    state_finish_estimate, state_units, state_view, views_equivalent,
};

verus! {

/// Some sequence of pours solves a game state with model `v`
pub open spec fn solvable(v: Seq<BottleView>) -> bool {
    exists|pours: Seq<Pour>| #[trigger] run_pours(v, pours) matches Ok(w) && partial_solved(w)
}

/// The number of units of the color at position `c` in a game state
pub open spec fn known_count(v: Seq<BottleView>, c: int) -> nat {
    state_units(v).count(PartialColoredWaterUnit::Color(color_at(c)))
}

/// The number of units of unknown color in a game state
pub open spec fn unknown_count(v: Seq<BottleView>) -> nat {
    state_units(v).count(PartialColoredWaterUnit::UnknownColor)
}

/// The capacity of the largest bottle of a game state, or 0 if it has no bottles
pub open spec fn largest_cap(v: Seq<BottleView>) -> nat
    decreases v.len(),
{
    if v.len() == 0 {
        0
    } else if largest_cap(v.drop_last()) >= v.last().0 {
        largest_cap(v.drop_last())
    } else {
        v.last().0
    }
}

/// How many units of unknown color are assumed to be of a color that appears `known` times,
/// when every color is assumed to have `full` units
pub open spec fn missing_share(known: nat, full: nat) -> nat {
    if known >= full {
        0
    } else {
        (full - known) as nat
    }
}

/// The colors seen in a game state, each with the number of units of unknown color assumed to
/// be of that color; [None] for colors not seen
pub open spec fn seen_shares(v: Seq<BottleView>) -> Seq<Option<nat>> {
    Seq::new(
        12,
        |c: int|
            if known_count(v, c) > 0 {
                Some(missing_share(known_count(v, c), largest_cap(v)))
            } else {
                None
            },
    )
}

/// The sum of the shares given
pub open spec fn share_sum(s: Seq<Option<nat>>) -> nat
    decreases s.len(),
{
    if s.len() == 0 {
        0
    } else {
        share_sum(s.drop_last()) + match s.last() {
            Some(n) => n,
            None => 0,
        }
    }
}

/// Give colors not seen yet, from position `k` on and in order, `full` units of unknown color
/// each, as long as the shares sum to less than `unknown`; returns the shares and their sum
pub open spec fn fill_shares(s: Seq<Option<nat>>, full: nat, unknown: nat, k: int, sum: nat) -> (Seq<Option<nat>>, nat)
    decreases 12 - k,
{
    if k >= 12 || sum >= unknown {
        (s, sum)
    } else if s[k] is Some {
        fill_shares(s, full, unknown, k + 1, sum)
    } else {
        fill_shares(s.update(k, Some(full)), full, unknown, k + 1, sum + full)
    }
}

/// The number of units of unknown color assumed to be of each color, [None] for colors assumed
/// not to be in the game state, and their sum
pub open spec fn color_shares(v: Seq<BottleView>) -> (Seq<Option<nat>>, nat) {
    fill_shares(seen_shares(v), largest_cap(v), unknown_count(v), 0, share_sum(seen_shares(v)))
}

/// The shares of the colors account for every unit of unknown color exactly
pub open spec fn shares_consistent(v: Seq<BottleView>) -> bool {
    color_shares(v).1 == unknown_count(v)
}

/// The share of a color as a number, 0 for colors assumed not to be in the game state
pub open spec fn share_value(s: Option<nat>) -> nat {
    match s {
        Some(n) => n,
        None => 0,
    }
}

/// The index of the first bottle at or after `i` with a unit of unknown color on top
pub open spec fn first_unknown_top(v: Seq<BottleView>, i: int) -> Option<int>
    decreases v.len() - i,
{
    if i < 0 || i >= v.len() {
        None
    } else if top_unit(v[i].1) == Some(PartialColoredWaterUnit::UnknownColor) {
        Some(i)
    } else {
        first_unknown_top(v, i + 1)
    }
}

/// The game state with the top unit of bottle `b` set to the color at position `c`
pub open spec fn with_top_color(v: Seq<BottleView>, b: int, c: int) -> Seq<BottleView> {
    v.update(b, (v[b].0, v[b].1.update(v[b].1.len() - 1, PartialColoredWaterUnit::Color(color_at(c)))))
}

/// The sum of the shares of the colors at positions below `k` whose color, set on the top unit
/// of bottle `b`, leaves a solvable game state
pub open spec fn success_weight(v: Seq<BottleView>, b: int, shares: Seq<nat>, k: int) -> nat
    decreases k,
{
    if k <= 0 {
        0
    } else {
        success_weight(v, b, shares, k - 1) + if shares[k - 1] > 0 && solvable(with_top_color(v, b, k - 1)) {
            shares[k - 1]
        } else {
            0
        }
    }
}

/// What [rate_success_chance] gives for a game state: the chance, as numerator and denominator,
/// that its first unit of unknown color on top turns out to be of a color that leaves it solvable
pub open spec fn success_chance(v: Seq<BottleView>) -> (nat, nat) {
    match first_unknown_top(v, 0) {
        None => (1, 1),
        Some(b) => (
            success_weight(v, b, Seq::new(12, |c: int| share_value(color_shares(v).0[c])), 12),
            unknown_count(v),
        ),
    }
}

/// The score of a candidate: `⌊estimate · (2 − num / den)⌋`, at most `usize::MAX`. A chance of
/// success of 1 leaves the estimate of pours as it is; a chance of 0 doubles it.
pub open spec fn demystify_score(estimate: nat, num: nat, den: nat) -> nat {
    let penalty = (estimate * num + den - 1) / den as int;
    let s = if 2 * estimate >= penalty {
        (2 * estimate - penalty) as nat
    } else {
        0
    };
    if s <= usize::MAX {
        s
    } else {
        usize::MAX as nat
    }
}

/// Counting the units of a game state does not depend on the game state beyond its units
proof fn lemma_shares_depend_on_units(a: Seq<BottleView>, b: Seq<BottleView>)
    requires
        state_units(a) == state_units(b),
        largest_cap(a) == largest_cap(b),
    ensures
        color_shares(a) == color_shares(b),
        unknown_count(a) == unknown_count(b),
{
    assert(seen_shares(a) =~= seen_shares(b));
}

/// Bottles with the same capacities have the same largest capacity
proof fn lemma_largest_cap_shape(a: Seq<BottleView>, b: Seq<BottleView>)
    requires
        same_shape(a, b),
    ensures
        largest_cap(a) == largest_cap(b),
    decreases a.len(),
{
    if a.len() > 0 {
        assert(same_shape(a.drop_last(), b.drop_last()));
        lemma_largest_cap_shape(a.drop_last(), b.drop_last());
    }
}

/// Statistics regarding confidence in [try_demystify_next_step]'s result
#[derive(Debug, Clone, Copy, PartialEq, Eq)]
pub struct DemystifyNextStepStats {
    /// The number of possible [Solution]s that were evaluated
    pub solutions_checked: usize,
    /// The smallest score found from any of the [Solution]s checked; i.e., the score of the
    /// returned [Solution]
    pub min_finished_estimate: usize,
    /// The number of possible [Solution]s that had the smallest score
    pub equal_solution_count: usize,
}

impl Default for DemystifyNextStepStats {
    fn default() -> (r: Self)
        ensures
            r.solutions_checked == 0,
            r.min_finished_estimate == 0,
            r.equal_solution_count == 0,
    {
        DemystifyNextStepStats { solutions_checked: 0, min_finished_estimate: 0, equal_solution_count: 0 }
    }
}

/// The shares of the colors in the units of unknown color (see [color_shares]), as numbers
fn share_values<const MAX_BCOUNT: usize, const B_MAX_CAP: usize>(
    gamestate_to_rate: &PartialGameState<MAX_BCOUNT, B_MAX_CAP>,
) -> (r: Vec<usize>)
    requires
        bottles_wf(gamestate_to_rate.bottles@),
        state_units(bottles_view(gamestate_to_rate.bottles@)).len() <= usize::MAX,
    ensures
        r@.len() == 12,
        forall|c: int| 0 <= c < 12 ==> #[trigger] r@[c] == share_value(color_shares(bottles_view(gamestate_to_rate.bottles@)).0[c]),
{
    let ghost v = bottles_view(gamestate_to_rate.bottles@);
    let counts = count_units(gamestate_to_rate);
    let unknown_unit_count = counts[0];
    // the largest capacity
    let mut largest_cap_seen: usize = 0;
    let mut i: usize = 0;
    while i < gamestate_to_rate.bottles.len()
        invariant
            v == bottles_view(gamestate_to_rate.bottles@),
            i <= v.len(),
            largest_cap_seen == largest_cap(v.take(i as int)),
        decreases v.len() - i,
    {
        let cap = gamestate_to_rate.bottles[i].get_capacity();
        proof {
            assert(v.take(i + 1).drop_last() =~= v.take(i as int));
            assert(v.take(i + 1).last() == v[i as int]);
        }
        if cap > largest_cap_seen {
            largest_cap_seen = cap;
        }
        i = i + 1;
    }
    assert(v.take(i as int) =~= v);
    // the shares of the colors seen
    let mut shares: Vec<Option<usize>> = Vec::new();
    let mut sum: u128 = 0;
    let mut c: usize = 0;
    while c < 12
        invariant
            counts@.len() == 13,
            forall|k: int| 0 <= k < 13 ==> #[trigger] counts@[k] == state_units(v).count(partial_at(k)),
            largest_cap_seen == largest_cap(v),
            c <= 12,
            shares@.len() == c,
            forall|k: int|
                0 <= k < c ==> #[trigger] shares@[k] == (match seen_shares(v)[k] {
                    Some(n) => Some(n as usize),
                    None => None,
                }),
            sum == share_sum(seen_shares(v).take(c as int)),
            sum <= c * usize::MAX,
        decreases 12 - c,
    {
        let known = counts[c + 1];
        assert(partial_at(c + 1) == PartialColoredWaterUnit::Color(color_at(c as int)));
        proof {
            assert(seen_shares(v).take(c + 1).drop_last() =~= seen_shares(v).take(c as int));
        }
        if known > 0 {
            let share = if known >= largest_cap_seen {
                0
            } else {
                largest_cap_seen - known
            };
            shares.push(Some(share));
            sum = sum + share as u128;
        } else {
            shares.push(None);
        }
        c = c + 1;
    }
    assert(seen_shares(v).take(12) =~= seen_shares(v));
    proof {
        let initial = Seq::new(12, |j: int| match shares@[j] {
            Some(n) => Some(n as nat),
            None => None,
        });
        assert forall|j: int| 0 <= j < 12 implies #[trigger] initial[j] == seen_shares(v)[j] by {
            assert(shares@[j] == (match seen_shares(v)[j] {
                Some(n) => Some(n as usize),
                None => None,
            }));
        }
        assert(initial =~= seen_shares(v));
    }
    // colors not seen make up for the units of unknown color not accounted for yet
    let mut k: usize = 0;
    while k < 12 && sum < unknown_unit_count as u128
        invariant
            largest_cap_seen == largest_cap(v),
            unknown_unit_count == unknown_count(v),
            k <= 12,
            shares@.len() == 12,
            sum <= 24 * usize::MAX,
            fill_shares(
                Seq::new(12, |j: int| match shares@[j] {
                    Some(n) => Some(n as nat),
                    None => None,
                }),
                largest_cap(v),
                unknown_count(v),
                k as int,
                sum as nat,
            ) == color_shares(v),
        decreases 12 - k,
    {
        let ghost before = Seq::new(12, |j: int| match shares@[j] {
            Some(n) => Some(n as nat),
            None => None,
        });
        if shares[k].is_none() {
            shares.set(k, Some(largest_cap_seen));
            sum = sum + largest_cap_seen as u128;
            proof {
                let after = Seq::new(12, |j: int| match shares@[j] {
                    Some(n) => Some(n as nat),
                    None => None,
                });
                assert(after =~= before.update(k as int, Some(largest_cap(v))));
            }
        } else {
            proof {
                let after = Seq::new(12, |j: int| match shares@[j] {
                    Some(n) => Some(n as nat),
                    None => None,
                });
                assert(after =~= before);
            }
        }
        k = k + 1;
    }
    proof {
        let final_shares = Seq::new(12, |x: int| match shares@[x] {
            Some(n) => Some(n as nat),
            None => None,
        });
        assert(fill_shares(final_shares, largest_cap(v), unknown_count(v), k as int, sum as nat) == (
            final_shares,
            sum as nat,
        ));
    }
    let mut r: Vec<usize> = Vec::new();
    let mut j: usize = 0;
    while j < 12
        invariant
            j <= 12,
            shares@.len() == 12,
            r@.len() == j,
            fill_shares(
                Seq::new(12, |x: int| match shares@[x] {
                    Some(n) => Some(n as nat),
                    None => None,
                }),
                largest_cap(v),
                unknown_count(v),
                k as int,
                sum as nat,
            ) == color_shares(v),
            k >= 12 || sum >= unknown_count(v),
            forall|x: int| 0 <= x < j ==> #[trigger] r@[x] == share_value(color_shares(v).0[x]),
        decreases 12 - j,
    {
        let value = match shares[j] {
            Some(n) => n,
            None => 0,
        };
        r.push(value);
        j = j + 1;
    }
    r
}

/// Given a game state, determine how many of its units of unknown color are assumed to be of
/// each color, based on how many appearances each color has; element `c` is for the color at
/// position `c`, and the shares sum to the number of units of unknown color.
///
/// Every color is assumed to have as many units as the largest bottle holds. If all units of a
/// color are unknown, colors not seen are assumed to be present, in order, until the units of
/// unknown color are accounted for; the shares must then account for them exactly (see
/// [shares_consistent]), as they do in every game state a game can be in.
pub fn rate_color_probabilities<const MAX_BCOUNT: usize, const B_MAX_CAP: usize>(
    gamestate_to_rate: &PartialGameState<MAX_BCOUNT, B_MAX_CAP>,
) -> (r: Vec<usize>)
    requires
        bottles_wf(gamestate_to_rate.bottles@),
        state_units(bottles_view(gamestate_to_rate.bottles@)).len() <= usize::MAX,
        shares_consistent(bottles_view(gamestate_to_rate.bottles@)),
    ensures
        r@.len() == 12,
        forall|c: int| 0 <= c < 12 ==> #[trigger] r@[c] == share_value(color_shares(bottles_view(gamestate_to_rate.bottles@)).0[c]),
        count_sum(r@) == unknown_count(bottles_view(gamestate_to_rate.bottles@)),
{
    let r = share_values(gamestate_to_rate);
    proof {
        let v = bottles_view(gamestate_to_rate.bottles@);
        lemma_shares_sum(v);
        lemma_count_sum_shares(r@, color_shares(v).0);
    }
    r
}

/// Whether the shares of the colors account for every unit of unknown color exactly (see
/// [shares_consistent]), as they do in every game state the game can be in
pub fn shares_are_consistent<const MAX_BCOUNT: usize, const B_MAX_CAP: usize>(
    gs: &PartialGameState<MAX_BCOUNT, B_MAX_CAP>,
) -> (r: bool)
    requires
        bottles_wf(gs.bottles@),
        state_units(bottles_view(gs.bottles@)).len() <= usize::MAX,
    ensures
        r == shares_consistent(bottles_view(gs.bottles@)),
{
    let ghost v = bottles_view(gs.bottles@);
    let shares = share_values(gs);
    let counts = count_units(gs);
    let ghost s = color_shares(v).0;
    proof {
        assert(partial_at(0) == PartialColoredWaterUnit::UnknownColor);
        lemma_fill_sum(seen_shares(v), largest_cap(v), unknown_count(v), 0, share_sum(seen_shares(v)));
        assert(s.take(0) =~= Seq::<Option<nat>>::empty());
    }
    let mut total: u128 = 0;
    let mut c: usize = 0;
    while c < 12
        invariant
            shares@.len() == 12,
            s.len() == 12,
            forall|x: int| 0 <= x < 12 ==> #[trigger] shares@[x] == share_value(s[x]),
            c <= 12,
            total == share_sum(s.take(c as int)),
            total <= c * usize::MAX,
        decreases 12 - c,
    {
        proof {
            assert(s.take(c + 1).drop_last() =~= s.take(c as int));
        }
        total = total + shares[c] as u128;
        c = c + 1;
    }
    proof {
        assert(s.take(12) =~= s);
    }
    total == counts[0] as u128
}

/// Giving a share to a color without one adds it to the sum of the shares
proof fn lemma_share_sum_update(s: Seq<Option<nat>>, k: int, x: nat)
    requires
        0 <= k < s.len(),
        s[k] is None,
    ensures
        share_sum(s.update(k, Some(x))) == share_sum(s) + x,
    decreases s.len(),
{
    let t = s.update(k, Some(x));
    if k == s.len() - 1 {
        assert(t.drop_last() =~= s.drop_last());
    } else {
        assert(t.drop_last() =~= s.drop_last().update(k, Some(x)));
        lemma_share_sum_update(s.drop_last(), k, x);
    }
}

/// The sum of a sequence of counts
pub open spec fn count_sum(s: Seq<usize>) -> nat
    decreases s.len(),
{
    if s.len() == 0 {
        0
    } else {
        count_sum(s.drop_last()) + s.last() as nat
    }
}

/// Summing the values of shares sums the shares
proof fn lemma_count_sum_shares(r: Seq<usize>, s: Seq<Option<nat>>)
    requires
        r.len() == s.len(),
        forall|c: int| 0 <= c < r.len() ==> #[trigger] r[c] == share_value(s[c]),
    ensures
        count_sum(r) == share_sum(s),
    decreases r.len(),
{
    if r.len() > 0 {
        lemma_count_sum_shares(r.drop_last(), s.drop_last());
    }
}

/// Where the shares of the colors account for every unit of unknown color, they add up to the
/// number of units of unknown color: the chances of the colors, each share over that number, add
/// up to exactly one
pub proof fn lemma_shares_sum(v: Seq<BottleView>)
    requires
        shares_consistent(v),
    ensures
        share_sum(color_shares(v).0) == unknown_count(v),
        color_shares(v).0.len() == 12,
{
    lemma_fill_sum(seen_shares(v), largest_cap(v), unknown_count(v), 0, share_sum(seen_shares(v)));
}

/// Filling in shares keeps track of their sum
pub proof fn lemma_fill_sum(s: Seq<Option<nat>>, full: nat, unknown: nat, k: int, sum: nat)
    requires
        s.len() == 12,
        sum == share_sum(s),
        0 <= k,
    ensures
        fill_shares(s, full, unknown, k, sum).1 == share_sum(fill_shares(s, full, unknown, k, sum).0),
        fill_shares(s, full, unknown, k, sum).0.len() == 12,
    decreases 12 - k,
{
    if k >= 12 || sum >= unknown {
    } else if s[k] is Some {
        lemma_fill_sum(s, full, unknown, k + 1, sum);
    } else {
        lemma_share_sum_update(s, k, full);
        lemma_fill_sum(s.update(k, Some(full)), full, unknown, k + 1, sum + full);
    }
}

/// The weight of the colors that leave a solvable state is at most the sum of their shares
proof fn lemma_weight_le(v: Seq<BottleView>, b: int, s: Seq<Option<nat>>, k: int)
    requires
        0 <= k <= s.len(),
    ensures
        success_weight(v, b, Seq::new(s.len(), |c: int| share_value(s[c])), k) <= share_sum(s.take(k)),
    decreases k,
{
    if k > 0 {
        lemma_weight_le(v, b, s, k - 1);
        assert(s.take(k).drop_last() =~= s.take(k - 1));
    }
}

/// The units of a bottle are among the units of the game state
proof fn lemma_units_of_bottle(v: Seq<BottleView>, b: int, x: PartialColoredWaterUnit)
    requires
        0 <= b < v.len(),
    ensures
        v[b].1.to_multiset().count(x) <= state_units(v).count(x),
    decreases v.len(),
{
    if b < v.len() - 1 {
        lemma_units_of_bottle(v.drop_last(), b, x);
    }
}

/// Rate how likely it is for a partial game state to be possible to progress from, by setting
/// its first unit of unknown color on top to each color in turn and checking whether a
/// solution exists. The chance is returned as a numerator and a denominator.
///
/// Each color weighs its share of the units of unknown color (see [rate_color_probabilities]).
/// A game state with no unit of unknown color on top has a chance of 1.
pub fn rate_success_chance<const MAX_BCOUNT: usize, const B_MAX_CAP: usize>(
    gamestate_to_rate: &PartialGameState<MAX_BCOUNT, B_MAX_CAP>,
) -> (r: (usize, usize))
    requires
        bottles_wf(gamestate_to_rate.bottles@),
        state_units(bottles_view(gamestate_to_rate.bottles@)).len() <= usize::MAX,
        has_unknown_top(bottles_view(gamestate_to_rate.bottles@)) ==> shares_consistent(
            bottles_view(gamestate_to_rate.bottles@),
        ),
    ensures
        r.0 == success_chance(bottles_view(gamestate_to_rate.bottles@)).0,
        r.1 == success_chance(bottles_view(gamestate_to_rate.bottles@)).1,
        r.0 <= r.1,
        0 < r.1,
{
    let ghost v = bottles_view(gamestate_to_rate.bottles@);
    let bottle_count = gamestate_to_rate.bottles.len();
    let mut b: usize = 0;
    while b < bottle_count
        invariant
            v == bottles_view(gamestate_to_rate.bottles@),
            bottles_wf(gamestate_to_rate.bottles@),
            bottle_count == v.len(),
            b <= bottle_count,
            first_unknown_top(v, 0) == first_unknown_top(v, b as int),
        ensures
            first_unknown_top(v, 0) == first_unknown_top(v, b as int),
            b <= bottle_count,
            b < bottle_count ==> top_unit(v[b as int].1) == Some(PartialColoredWaterUnit::UnknownColor),
        decreases bottle_count - b,
    {
        assert(gamestate_to_rate.bottles@[b as int].inv());
        if gamestate_to_rate.bottles[b].get_top_color() == Some(PartialColoredWaterUnit::UnknownColor) {
            break;
        }
        b = b + 1;
    }
    if b >= bottle_count {
        return (1, 1);
    }
    assert(first_unknown_top(v, 0) == Some(b as int));
    assert(top_unit(v[b as int].1) == Some(PartialColoredWaterUnit::UnknownColor));
    assert(has_unknown_top(v));
    let shares = rate_color_probabilities(gamestate_to_rate);
    let counts = count_units(gamestate_to_rate);
    let den = counts[0];
    let ghost share_seq = Seq::new(12, |c: int| share_value(color_shares(v).0[c]));
    let ghost units = v[b as int].1;
    assert(gamestate_to_rate.bottles@[b as int].inv());
    proof {
        gamestate_to_rate.bottles@[b as int].lemma_inv();
        gamestate_to_rate.bottles@[b as int].lemma_units();
        assert(partial_at(0) == PartialColoredWaterUnit::UnknownColor);
        vstd::seq_lib::to_multiset_contains(units, PartialColoredWaterUnit::UnknownColor);
        assert(units[units.len() - 1] == PartialColoredWaterUnit::UnknownColor);
        assert(units.contains(PartialColoredWaterUnit::UnknownColor));
        lemma_units_of_bottle(v, b as int, PartialColoredWaterUnit::UnknownColor);
        lemma_fill_sum(seen_shares(v), largest_cap(v), unknown_count(v), 0, share_sum(seen_shares(v)));
        assert(seen_shares(v).len() == 12);
        lemma_weight_le(v, b as int, color_shares(v).0, 12);
        assert(color_shares(v).0.take(12) =~= color_shares(v).0);
        assert(Seq::new(color_shares(v).0.len(), |c: int| share_value(color_shares(v).0[c])) =~= share_seq);
    }
    let top_idx = gamestate_to_rate.bottles[b].get_top_content_idx().unwrap();
    let mut num: usize = 0;
    let mut c: usize = 0;
    while c < 12
        invariant
            v == bottles_view(gamestate_to_rate.bottles@),
            bottles_wf(gamestate_to_rate.bottles@),
            b < v.len(),
            units == v[b as int].1,
            units.len() > 0,
            units.last() == PartialColoredWaterUnit::UnknownColor,
            top_idx == units.len() - 1,
            shares@.len() == 12,
            forall|x: int| 0 <= x < 12 ==> #[trigger] shares@[x] == share_seq[x],
            share_seq == Seq::new(12, |x: int| share_value(color_shares(v).0[x])),
            success_weight(v, b as int, share_seq, 12) <= den,
            c <= 12,
            num == success_weight(v, b as int, share_seq, c as int),
        decreases 12 - c,
    {
        proof {
            lemma_weight_mono(v, b as int, share_seq, c + 1, 12);
        }
        if shares[c] > 0 {
            let color = ColoredWaterUnit::from_ordinal(c).unwrap();
            let mut sim = copy_state(gamestate_to_rate);
            assert(sim.bottles@[b as int].inv());
            let mut bottle = sim.bottles[b].duplicate();
            proof {
                bottle.lemma_units();
                bottle.lemma_wf();
                bottle.lemma_fillable_set_fits(top_idx as int, Some(PartialColoredWaterUnit::Color(color)));
            }
            let set_result = bottle.try_set_color(top_idx, Some(PartialColoredWaterUnit::Color(color)));
            proof {
                assert(set_result is Ok);
            }
            let ghost before_set = sim.bottles@;
            sim.bottles.set(b, bottle);
            proof {
                assert(bottles_view(sim.bottles@) =~= with_top_color(v, b as int, c as int));
                assert forall|i: int| 0 <= i < sim.bottles@.len() implies #[trigger] sim.bottles@[i].inv()
                    && crate::bottle::fillable(sim.bottles@[i]) by {
                    if i != b as int {
                        assert(sim.bottles@[i] == before_set[i]);
                    } else {
                        assert(sim.bottles@[i] == bottle);
                        assert(bottle.inv());
                        assert(bottle.bcap() == before_set[i].bcap());
                        assert(before_set[i].inv() && crate::bottle::fillable(before_set[i]));
                    }
                }
            }
            let found = Solution::try_new(&sim, 0);
            proof {
                let w = with_top_color(v, b as int, c as int);
                assert(state_view(sim) == w);
                if found is Some {
                    let sol = found->Some_0;
                    assert(solves::<PartialGameState<MAX_BCOUNT, B_MAX_CAP>>(w, sol.pours_view()));
                    assert(run_pours(w, sol.pours_view()) matches Ok(end) && partial_solved(end));
                    assert(solvable(w));
                } else {
                    {
                        assert forall|p: Seq<Pour>| !(#[trigger] run_pours(w, p) matches Ok(end) && partial_solved(end)) by {
                            assert(!solves::<PartialGameState<MAX_BCOUNT, B_MAX_CAP>>(w, p));
                        }
                    }
                }
            }
            if found.is_some() {
                num = num + shares[c];
            }
        }
        c = c + 1;
    }
    (num, den)
}

/// The weight only grows with the colors considered
proof fn lemma_weight_mono(v: Seq<BottleView>, b: int, shares: Seq<nat>, k: int, l: int)
    requires
        0 <= k <= l,
    ensures
        success_weight(v, b, shares, k) <= success_weight(v, b, shares, l),
    decreases l - k,
{
    if k < l {
        lemma_weight_mono(v, b, shares, k, l - 1);
    }
}

/// When every color with a share at positions below `k` leaves a solvable state, the weight is
/// the sum of those shares
proof fn lemma_weight_all_solvable(v: Seq<BottleView>, b: int, s: Seq<Option<nat>>, k: int)
    requires
        0 <= k <= s.len(),
        forall|c: int| 0 <= c < k && share_value(s[c]) > 0 ==> solvable(#[trigger] with_top_color(v, b, c)),
    ensures
        success_weight(v, b, Seq::new(s.len(), |c: int| share_value(s[c])), k) == share_sum(s.take(k)),
    decreases k,
{
    if k > 0 {
        lemma_weight_all_solvable(v, b, s, k - 1);
        assert(s.take(k).drop_last() =~= s.take(k - 1));
        if share_value(s[k - 1]) > 0 {
            assert(solvable(with_top_color(v, b, k - 1)));
        }
    }
}

/// When no color with a share at positions below `k` leaves a solvable state, the weight is 0
proof fn lemma_weight_none_solvable(v: Seq<BottleView>, b: int, shares: Seq<nat>, k: int)
    requires
        0 <= k <= shares.len(),
        forall|c: int| 0 <= c < k && shares[c] > 0 ==> !solvable(#[trigger] with_top_color(v, b, c)),
    ensures
        success_weight(v, b, shares, k) == 0,
    decreases k,
{
    if k > 0 {
        lemma_weight_none_solvable(v, b, shares, k - 1);
        if shares[k - 1] > 0 {
            assert(!solvable(with_top_color(v, b, k - 1)));
        }
    }
}

/// A color below `k` that leaves a solvable state adds its whole share to the weight
proof fn lemma_weight_counts_solvable(v: Seq<BottleView>, b: int, shares: Seq<nat>, k: int, c: int)
    requires
        0 <= c < k <= shares.len(),
        shares[c] > 0,
        solvable(with_top_color(v, b, c)),
    ensures
        success_weight(v, b, shares, k) >= shares[c],
    decreases k,
{
    if c < k - 1 {
        lemma_weight_counts_solvable(v, b, shares, k - 1, c);
    }
}

/// A color below `k` that leaves an unsolvable state adds nothing: the weight stays below the
/// sum of the shares by at least its share
proof fn lemma_weight_skips_unsolvable(v: Seq<BottleView>, b: int, s: Seq<Option<nat>>, k: int, c: int)
    requires
        0 <= c < k <= s.len(),
        !solvable(with_top_color(v, b, c)),
    ensures
        success_weight(v, b, Seq::new(s.len(), |x: int| share_value(s[x])), k) + share_value(s[c]) <= share_sum(
            s.take(k),
        ),
    decreases k,
{
    assert(s.take(k).drop_last() =~= s.take(k - 1));
    if c < k - 1 {
        lemma_weight_skips_unsolvable(v, b, s, k - 1, c);
    } else {
        lemma_weight_le(v, b, s, k - 1);
    }
}

/// The chance of success of a game state whose first unit of unknown color on top is in bottle
/// `b` counts exactly the colors that, set on that unit, leave a solvable game state:
/// - when every color the unit could be (with a share above 0) leaves a solvable state, the
///   chance is 1 (the numerator equals the denominator);
/// - when none does, the chance is 0;
/// - each color that could be there and leaves a solvable state adds at least its share to the
///   numerator, and each color that leaves an unsolvable state keeps the numerator at least its
///   share below the denominator.
pub proof fn lemma_success_chance_counts_solvable(v: Seq<BottleView>, b: int)
    requires
        first_unknown_top(v, 0) == Some(b),
        shares_consistent(v),
    ensures
        (forall|c: int| 0 <= c < 12 && share_value(color_shares(v).0[c]) > 0 ==> solvable(
            #[trigger] with_top_color(v, b, c),
        )) ==> success_chance(v).0 == success_chance(v).1,
        (forall|c: int| 0 <= c < 12 && share_value(color_shares(v).0[c]) > 0 ==> !solvable(
            #[trigger] with_top_color(v, b, c),
        )) ==> success_chance(v).0 == 0,
        forall|c: int|
            0 <= c < 12 && share_value(color_shares(v).0[c]) > 0 && solvable(#[trigger] with_top_color(v, b, c))
                ==> success_chance(v).0 >= share_value(color_shares(v).0[c]),
        forall|c: int|
            0 <= c < 12 && !solvable(#[trigger] with_top_color(v, b, c)) ==> success_chance(v).0 + share_value(
                color_shares(v).0[c],
            ) <= success_chance(v).1,
{
    let s = color_shares(v).0;
    let sh = Seq::new(12, |c: int| share_value(color_shares(v).0[c]));
    lemma_fill_sum(seen_shares(v), largest_cap(v), unknown_count(v), 0, share_sum(seen_shares(v)));
    assert(seen_shares(v).len() == 12);
    assert(s.len() == 12);
    assert(Seq::new(s.len(), |c: int| share_value(s[c])) =~= sh);
    assert(s.take(12) =~= s);
    assert(success_chance(v).0 == success_weight(v, b, sh, 12));
    assert(success_chance(v).1 == share_sum(s));
    if forall|c: int| 0 <= c < 12 && share_value(color_shares(v).0[c]) > 0 ==> solvable(
        #[trigger] with_top_color(v, b, c),
    ) {
        lemma_weight_all_solvable(v, b, s, 12);
    }
    if forall|c: int| 0 <= c < 12 && share_value(color_shares(v).0[c]) > 0 ==> !solvable(
        #[trigger] with_top_color(v, b, c),
    ) {
        assert forall|c: int| 0 <= c < 12 && sh[c] > 0 implies !solvable(#[trigger] with_top_color(v, b, c)) by {
            assert(share_value(color_shares(v).0[c]) > 0);
        }
        lemma_weight_none_solvable(v, b, sh, 12);
    }
    assert forall|c: int|
        0 <= c < 12 && share_value(color_shares(v).0[c]) > 0 && solvable(#[trigger] with_top_color(v, b, c))
            implies success_chance(v).0 >= share_value(color_shares(v).0[c]) by {
        lemma_weight_counts_solvable(v, b, sh, 12, c);
    }
    assert forall|c: int| 0 <= c < 12 && !solvable(#[trigger] with_top_color(v, b, c)) implies success_chance(v).0
        + share_value(color_shares(v).0[c]) <= success_chance(v).1 by {
        lemma_weight_skips_unsolvable(v, b, s, 12, c);
    }
}

/// The score of a candidate against its chance of success `num / den`: with success certain
/// (`num == den`) it is the estimate of pours, with success impossible (`num == 0`) twice that
/// estimate (both at most `usize::MAX`), and for a fixed estimate it never grows as the chance
/// grows, so that of two candidates with equal estimates the likelier to succeed is preferred.
pub proof fn lemma_score_by_chance(estimate: nat, num1: nat, num2: nat, den: nat)
    requires
        0 < den,
        num1 <= num2 <= den,
    ensures
        demystify_score(estimate, den, den) == if estimate <= usize::MAX {
            estimate
        } else {
            usize::MAX as nat
        },
        demystify_score(estimate, 0, den) == if 2 * estimate <= usize::MAX {
            2 * estimate
        } else {
            usize::MAX as nat
        },
        demystify_score(estimate, num2, den) <= demystify_score(estimate, num1, den),
{
    let d = den as int;
    let e = estimate as int;
    vstd::arithmetic::div_mod::lemma_fundamental_div_mod_converse(e * d + d - 1, d, e, d - 1);
    vstd::arithmetic::div_mod::lemma_basic_div(d - 1, d);
    assert(estimate * 0 == 0);
    vstd::arithmetic::mul::lemma_mul_inequality(num1 as int, num2 as int, e);
    assert(e * num1 == num1 * e) by (nonlinear_arith);
    assert(e * num2 == num2 * e) by (nonlinear_arith);
    vstd::arithmetic::div_mod::lemma_div_is_ordered(e * num1 + d - 1, e * num2 + d - 1, d);
}

/// The estimate of pours a game state needs to be finished, at most `usize::MAX`
pub open spec fn capped_estimate(w: Seq<BottleView>) -> nat {
    if state_finish_estimate(w) <= usize::MAX {
        state_finish_estimate(w) as nat
    } else {
        usize::MAX as nat
    }
}

/// The score of a candidate sequence of pours for a game state with model `v`: the estimate of
/// pours its end needs to be finished, raised as its chance of success falls
pub open spec fn candidate_score(v: Seq<BottleView>, pours: Seq<Pour>) -> nat {
    match run_pours(v, pours) {
        Ok(w) => demystify_score(capped_estimate(w), success_chance(w).0, success_chance(w).1),
        Err(_) => 0,
    }
}

/// Going through `scores` from position `k`: the position of the first smallest score below
/// `min`, the smallest score, and how many scores equal it
pub open spec fn pick_best(scores: Seq<nat>, k: int, min: nat, best: Option<int>, equal: nat) -> (Option<int>, nat, nat)
    decreases scores.len() - k,
{
    if k < 0 || k >= scores.len() {
        (best, min, equal)
    } else if scores[k] < min {
        pick_best(scores, k + 1, scores[k], Some(k), 1)
    } else if scores[k] == min {
        pick_best(scores, k + 1, min, best, equal + 1)
    } else {
        pick_best(scores, k + 1, min, best, equal)
    }
}

/// The scores of candidate solutions
pub open spec fn candidate_scores<'a, const MAX_BCOUNT: usize, const B_MAX_CAP: usize>(
    v: Seq<BottleView>,
    candidates: Seq<Solution<'a, PartialGameState<MAX_BCOUNT, B_MAX_CAP>>>,
) -> Seq<nat> {
    Seq::new(candidates.len(), |j: int| candidate_score(v, candidates[j].pours_view()))
}

/// What a candidate's end state is, and that it keeps what counting units needs
proof fn lemma_end_state<const MAX_BCOUNT: usize, const B_MAX_CAP: usize>(v: Seq<BottleView>, pours: Seq<Pour>)
    requires
        run_pours(v, pours) is Ok,
        unknown_count(v) > 0 ==> shares_consistent(v),
    ensures
        state_units(run_pours(v, pours)->Ok_0) == state_units(v),
        has_unknown_top(run_pours(v, pours)->Ok_0) ==> shares_consistent(run_pours(v, pours)->Ok_0),
{
    let w = run_pours(v, pours)->Ok_0;
    lemma_run_pours_keeps(v, pours);
    lemma_largest_cap_shape(v, w);
    lemma_shares_depend_on_units(v, w);
    if has_unknown_top(w) {
        let i = choose|i: int| 0 <= i < w.len() && #[trigger] top_unit(w[i].1) == Some(PartialColoredWaterUnit::UnknownColor);
        let u = w[i].1;
        assert(u[u.len() - 1] == PartialColoredWaterUnit::UnknownColor);
        assert(u.contains(PartialColoredWaterUnit::UnknownColor));
        vstd::seq_lib::to_multiset_contains(u, PartialColoredWaterUnit::UnknownColor);
        lemma_units_of_bottle(w, i, PartialColoredWaterUnit::UnknownColor);
    }
}

/// Out of candidate solutions of a game state, pick the first one with the smallest score
/// below `usize::MAX`, along with statistics: how many candidates there were, the smallest
/// score, and how many candidates have it
pub fn choose_best_solution<'a, const MAX_BCOUNT: usize, const B_MAX_CAP: usize>(
    gamestate_to_solve: &'a PartialGameState<MAX_BCOUNT, B_MAX_CAP>,
    candidates: Vec<Solution<'a, PartialGameState<MAX_BCOUNT, B_MAX_CAP>>>,
) -> (r: Option<(Solution<'a, PartialGameState<MAX_BCOUNT, B_MAX_CAP>>, DemystifyNextStepStats)>)
    requires
        bottles_wf(gamestate_to_solve.bottles@),
        2 * B_MAX_CAP <= usize::MAX,
        state_units(bottles_view(gamestate_to_solve.bottles@)).len() <= usize::MAX,
        unknown_count(bottles_view(gamestate_to_solve.bottles@)) > 0 && candidates@.len() > 0 ==> shares_consistent(
            bottles_view(gamestate_to_solve.bottles@),
        ),
        forall|k: int| 0 <= k < candidates@.len() ==> #[trigger] candidates@[k].base() == *gamestate_to_solve
            && candidates@[k].valid(),
    ensures
        ({
            let picked = pick_best(
                candidate_scores(bottles_view(gamestate_to_solve.bottles@), candidates@),
                0,
                usize::MAX as nat,
                None,
                0,
            );
            match picked.0 {
                None => r is None,
                Some(k) => r matches Some((s, stats)) && s == candidates@[k] && stats.solutions_checked
                    == candidates@.len() && stats.min_finished_estimate == picked.1
                    && stats.equal_solution_count == picked.2,
            }
        }),
{
    let ghost v = bottles_view(gamestate_to_solve.bottles@);
    let ghost scores = candidate_scores(v, candidates@);
    let ghost all = candidates@;
    let solutions_checked = candidates.len();
    let mut remaining = candidates;
    let mut min_pours_estimate: usize = usize::MAX;
    let mut min_scoring_solution: Option<Solution<'a, PartialGameState<MAX_BCOUNT, B_MAX_CAP>>> = None;
    let ghost mut best: Option<int> = None;
    let mut equal_solution_count: usize = 0;
    let mut k: usize = 0;
    while remaining.len() > 0
        invariant
            v == bottles_view(gamestate_to_solve.bottles@),
            bottles_wf(gamestate_to_solve.bottles@),
            2 * B_MAX_CAP <= usize::MAX,
            state_units(v).len() <= usize::MAX,
            unknown_count(v) > 0 && all.len() > 0 ==> shares_consistent(v),
            scores == candidate_scores(v, all),
            solutions_checked == all.len(),
            k + remaining@.len() == all.len(),
            forall|j: int| 0 <= j < remaining@.len() ==> #[trigger] remaining@[j] == all[k + j],
            forall|j: int| 0 <= j < all.len() ==> #[trigger] all[j].base() == *gamestate_to_solve && all[j].valid(),
            equal_solution_count <= k,
            pick_best(scores, k as int, min_pours_estimate as nat, best, equal_solution_count as nat) == pick_best(
                scores,
                0,
                usize::MAX as nat,
                None,
                0,
            ),
            best matches Some(b) ==> 0 <= b < k && min_scoring_solution == Some(all[b]),
            best is None ==> min_scoring_solution is None,
        decreases remaining@.len(),
    {
        let possible_solution = remaining.remove(0);
        assert(possible_solution == all[k as int]);
        let ghost pours = possible_solution.pours_view();
        assert(all[k as int].valid());
        assert(state_view(*gamestate_to_solve) == v);
        assert(run_pours(v, pours) is Ok);
        // the state the candidate leads to
        let mut working_gs = copy_state(gamestate_to_solve);
        let ghost mut done: nat = 0;
        proof {
            lemma_end_state::<MAX_BCOUNT, B_MAX_CAP>(v, pours);
            crate::gamestate::lemma_run_pours_append(v, pours.take(0), pours);
            assert(pours.take(0) =~= Seq::<Pour>::empty());
        }
        proof {
            assert(pours.skip(0) =~= pours);
            assert(bottles_view(working_gs.bottles@) == v);
        }
        {
            let pour_list = possible_solution.get_pours();
            let mut i: usize = 0;
            while i < pour_list.len()
                invariant
                    pour_list@ == pours,
                    i <= pours.len(),
                    bottles_wf(working_gs.bottles@),
                    run_pours(v, pours) is Ok,
                    run_pours(v, pours) == run_pours(bottles_view(working_gs.bottles@), pours.skip(i as int)),
                decreases pours.len() - i,
            {
                let pour = pour_list[i];
                proof {
                    lemma_wf_pour_fits(working_gs.bottles@, pour.source_bottle_index as int, pour.dest_bottle_index as int);
                    assert(pours.skip(i as int)[0] == pour);
                    assert(pours.skip(i as int).drop_first() =~= pours.skip(i + 1));
                }
                match pour.try_apply(&working_gs) {
                    Ok(next_gs) => {
                        proof {
                            assert forall|j: int| 0 <= j < working_gs.bottles@.len() implies #[trigger] crate::bottle::fillable(
                                working_gs.bottles@[j],
                            ) by {
                                assert(working_gs.bottles@[j].inv());
                            }
                        }
                        working_gs = next_gs;
                    },
                    Err(_) => {
                        proof {
                            assert(false);
                        }
                    },
                }
                i = i + 1;
            }
            proof {
                assert(pours.skip(pours.len() as int) =~= Seq::<Pour>::empty());
            }
        }
        let ghost w = bottles_view(working_gs.bottles@);
        assert(run_pours(v, pours) == Ok::<_, crate::gamestate::PourError>(w));
        let base_score = working_gs.pours_to_finish_estimate();
        let (num, den) = rate_success_chance(&working_gs);
        // the estimate, raised in proportion to the chance of a dead end: multiplied by 1 when
        // the chance of success is 1, and by 2 when it is 0
        proof {
            assert(base_score as u128 * num as u128 <= 0xffff_ffff_ffff_ffffu128 * 0xffff_ffff_ffff_ffffu128) by (nonlinear_arith)
                requires
                    base_score <= 0xffff_ffff_ffff_ffffu64,
                    num <= 0xffff_ffff_ffff_ffffu64,
            {}
        }
        let product: u128 = base_score as u128 * num as u128;
        let penalty: u128 = (product + den as u128 - 1) / den as u128;
        let doubled: u128 = 2 * base_score as u128;
        let raw: u128 = if doubled >= penalty {
            doubled - penalty
        } else {
            0
        };
        let score: usize = if raw <= usize::MAX as u128 {
            raw as usize
        } else {
            usize::MAX
        };
        assert(score == scores[k as int]);
        if score < min_pours_estimate {
            min_pours_estimate = score;
            min_scoring_solution = Some(possible_solution);
            proof {
                best = Some(k as int);
            }
            equal_solution_count = 1;
        } else if score == min_pours_estimate {
            equal_solution_count = equal_solution_count + 1;
        }
        k = k + 1;
    }
    match min_scoring_solution {
        Some(s) => Some(
            (
                s,
                DemystifyNextStepStats {
                    solutions_checked,
                    min_finished_estimate: min_pours_estimate,
                    equal_solution_count,
                },
            ),
        ),
        None => None,
    }
}

/// The candidate solutions of a demystification step: up to 1000 solutions of the game state,
/// the first of them a shortest one, none only when there is no solution, and, when fewer than
/// 1000, one reaching a state equivalent to that of every sequence of pours that first solves it
pub open spec fn demystify_candidates<'a, const MAX_BCOUNT: usize, const B_MAX_CAP: usize>(
    cs: Seq<Solution<'a, PartialGameState<MAX_BCOUNT, B_MAX_CAP>>>,
    g: PartialGameState<MAX_BCOUNT, B_MAX_CAP>,
) -> bool {
    &&& cs.len() <= 1000
    &&& forall|k: int| 0 <= k < cs.len() ==> #[trigger] crate::solution::found_solution(cs[k], g, 0)
    &&& cs.len() == 0 ==> forall|pours: Seq<Pour>|
        !#[trigger] solves::<PartialGameState<MAX_BCOUNT, B_MAX_CAP>>(state_view(g), pours)
    &&& cs.len() > 0 ==> forall|pours: Seq<Pour>|
        #[trigger] solves::<PartialGameState<MAX_BCOUNT, B_MAX_CAP>>(state_view(g), pours) ==> cs[0].pours_view().len()
            <= pours.len()
    &&& cs.len() < 1000 ==> forall|pours: Seq<Pour>|
        #[trigger] first_solves::<PartialGameState<MAX_BCOUNT, B_MAX_CAP>>(state_view(g), pours) ==> exists|k: int|
            0 <= k < cs.len() && views_equivalent(
                run_pours(state_view(g), cs[k].pours_view())->Ok_0,
                run_pours(state_view(g), pours)->Ok_0,
            )
}

/// `r` is what picking the best scoring of the candidate solutions `cs` of a game state with
/// model `v` gives: the first of those with the smallest score below `usize::MAX`, with how many
/// candidates there were and how many share that score
pub open spec fn best_of<'a, const MAX_BCOUNT: usize, const B_MAX_CAP: usize>(
    v: Seq<BottleView>,
    cs: Seq<Solution<'a, PartialGameState<MAX_BCOUNT, B_MAX_CAP>>>,
    r: Option<(Solution<'a, PartialGameState<MAX_BCOUNT, B_MAX_CAP>>, DemystifyNextStepStats)>,
) -> bool {
    let picked = pick_best(candidate_scores(v, cs), 0, usize::MAX as nat, None, 0);
    match picked.0 {
        None => r is None,
        Some(k) => r matches Some((s, stats)) && s == cs[k] && stats.solutions_checked == cs.len()
            && stats.min_finished_estimate == picked.1 && stats.equal_solution_count == picked.2,
    }
}

/// Try to find a [Solution] for the given [PartialGameState] that leads to revealing a new unit
/// of unknown color, while rating the candidates to try and avoid dead ends.
///
/// Up to 1000 candidate solutions are found (see [find_many_solutions]), and the one picked by
/// [choose_best_solution] is returned along with statistics on the choice. Returns [None] when
/// no solution exists.
pub fn try_demystify_next_step<'a, const MAX_BCOUNT: usize, const B_MAX_CAP: usize>(
    gamestate_to_solve: &'a PartialGameState<MAX_BCOUNT, B_MAX_CAP>,
) -> (r: Option<(Solution<'a, PartialGameState<MAX_BCOUNT, B_MAX_CAP>>, DemystifyNextStepStats)>)
    requires
        bottles_wf(gamestate_to_solve.bottles@),
        2 * B_MAX_CAP <= usize::MAX,
        state_units(bottles_view(gamestate_to_solve.bottles@)).len() <= usize::MAX,
        unknown_count(bottles_view(gamestate_to_solve.bottles@)) > 0 && solvable(
            bottles_view(gamestate_to_solve.bottles@),
        ) ==> shares_consistent(bottles_view(gamestate_to_solve.bottles@)),
    ensures
        !solvable(bottles_view(gamestate_to_solve.bottles@)) ==> r is None,
        r matches Some((s, stats)) ==> s.base() == *gamestate_to_solve && s.valid() && 1 <= stats.solutions_checked
            <= 1000 && stats.min_finished_estimate == candidate_score(
            bottles_view(gamestate_to_solve.bottles@),
            s.pours_view(),
        ) && stats.min_finished_estimate < usize::MAX && 1 <= stats.equal_solution_count <= stats.solutions_checked,
        r is None && solvable(bottles_view(gamestate_to_solve.bottles@)) ==> exists|pours: Seq<Pour>|
            #[trigger] solves::<PartialGameState<MAX_BCOUNT, B_MAX_CAP>>(bottles_view(gamestate_to_solve.bottles@), pours)
                && candidate_score(bottles_view(gamestate_to_solve.bottles@), pours) >= usize::MAX,
        exists|cs: Seq<Solution<'a, PartialGameState<MAX_BCOUNT, B_MAX_CAP>>>|
            #[trigger] demystify_candidates(cs, *gamestate_to_solve) && best_of(
                bottles_view(gamestate_to_solve.bottles@),
                cs,
                r,
            ),
{
    let possible_solutions = find_many_solutions(gamestate_to_solve, 0, 1000);
    let ghost candidates = possible_solutions@;
    proof {
        let v = bottles_view(gamestate_to_solve.bottles@);
        if !solvable(v) && candidates.len() > 0 {
            assert(crate::solution::found_solution(candidates[0], *gamestate_to_solve, 0));
            let p = candidates[0].pours_view();
            assert(run_pours(v, p) matches Ok(w) && partial_solved(w));
        }
        assert forall|k: int| 0 <= k < candidates.len() implies #[trigger] candidates[k].base() == *gamestate_to_solve
            && candidates[k].valid() by {
            assert(crate::solution::found_solution(candidates[k], *gamestate_to_solve, 0));
        }
    }
    let r = choose_best_solution(gamestate_to_solve, possible_solutions);
    proof {
        let v = bottles_view(gamestate_to_solve.bottles@);
        let scores = candidate_scores(v, candidates);
        lemma_pick_best(scores, 0, usize::MAX as nat, None, 0);
        if r is None && solvable(v) {
            let p = choose|p: Seq<Pour>| #[trigger] run_pours(v, p) matches Ok(w) && partial_solved(w);
            assert(state_view(*gamestate_to_solve) == v);
            assert(solves::<PartialGameState<MAX_BCOUNT, B_MAX_CAP>>(state_view(*gamestate_to_solve), p));
            assert(candidates.len() > 0);
            lemma_pick_best_none(scores, 0, usize::MAX as nat, 0);
            assert(crate::solution::found_solution(candidates[0], *gamestate_to_solve, 0));
            assert(scores[0] >= usize::MAX);
            assert(solves::<PartialGameState<MAX_BCOUNT, B_MAX_CAP>>(v, candidates[0].pours_view()));
        }
        assert(state_view(*gamestate_to_solve) == v);
        assert(demystify_candidates(candidates, *gamestate_to_solve));
        assert(best_of(v, candidates, r));
    }
    r
}

/// When nothing is picked, no score from position `k` on is below `min`
proof fn lemma_pick_best_none(scores: Seq<nat>, k: int, min: nat, equal: nat)
    requires
        0 <= k,
        pick_best(scores, k, min, None, equal).0 is None,
    ensures
        forall|j: int| k <= j < scores.len() ==> scores[j] >= min,
    decreases scores.len() - k,
{
    if k < scores.len() {
        if scores[k] < min {
            lemma_pick_best_some(scores, k + 1, scores[k], k, 1);
        } else if scores[k] == min {
            lemma_pick_best_none(scores, k + 1, min, equal + 1);
        } else {
            lemma_pick_best_none(scores, k + 1, min, equal);
        }
    }
}

/// Once something is picked, something stays picked
proof fn lemma_pick_best_some(scores: Seq<nat>, k: int, min: nat, b: int, equal: nat)
    ensures
        pick_best(scores, k, min, Some(b), equal).0 is Some,
    decreases scores.len() - k,
{
    if 0 <= k < scores.len() {
        if scores[k] < min {
            lemma_pick_best_some(scores, k + 1, scores[k], k, 1);
        } else if scores[k] == min {
            lemma_pick_best_some(scores, k + 1, min, b, equal + 1);
        } else {
            lemma_pick_best_some(scores, k + 1, min, b, equal);
        }
    }
}

/// What [pick_best] gives: a position whose score is the smallest, below the starting minimum,
/// and a count of equal scores between 1 and the number of scores
proof fn lemma_pick_best(scores: Seq<nat>, k: int, min: nat, best: Option<int>, equal: nat)
    requires
        0 <= k <= scores.len(),
        best matches Some(b) ==> 0 <= b < k && scores[b] == min && 1 <= equal <= k,
        best is None ==> equal <= k,
    ensures
        ({
            let picked = pick_best(scores, k, min, best, equal);
            &&& picked.1 <= min
            &&& picked.0 matches Some(b) ==> 0 <= b < scores.len() && scores[b] == picked.1 && picked.1 < min
                || (best == Some(b) && picked.1 == min)
            &&& picked.0 matches Some(b) ==> 1 <= picked.2 <= scores.len()
        }),
    decreases scores.len() - k,
{
    if k < scores.len() {
        if scores[k] < min {
            lemma_pick_best(scores, k + 1, scores[k], Some(k), 1);
        } else if scores[k] == min {
            lemma_pick_best(scores, k + 1, min, best, equal + 1);
        } else {
            lemma_pick_best(scores, k + 1, min, best, equal);
        }
    }
}

} // verus!
