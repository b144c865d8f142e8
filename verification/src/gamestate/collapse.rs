//! "Collapsing" (as in "wave function collapse") a [PartialGameState] into the
//! [KnownGameState]s it could be: the units of unknown color are given the colors that are
//! missing from the game state, in every arrangement or in random ones.
use vstd::prelude::*;

use super::gamestate_trait::{BottleView, GameState, bottle_view, bottles_view, bottles_wf};
use super::known_gamestate::KnownGameState;
use super::partial_gamestate::PartialGameState;
use super::unit_counts::{count_units, state_units};
use crate::bottle::{Bottle, BottleSampleResult, PartialBottle, fillable};
use crate::colored_water::{ColoredWaterUnit, PartialColoredWaterUnit, color_at, partial_at};
use crate::solution::{fill_shares, share_sum, share_value, known_count, unknown_count};

verus! {

broadcast use vstd::multiset::group_multiset_axioms;

/// `n!`
pub open spec fn fact(n: nat) -> nat
    decreases n,
{
    if n == 0 {
        1
    } else {
        n * fact((n - 1) as nat)
    }
}

/// Factorials are at least 1
proof fn lemma_fact_pos(n: nat)
    ensures
        fact(n) >= 1,
    decreases n,
{
    if n > 0 {
        lemma_fact_pos((n - 1) as nat);
        assert(n * fact((n - 1) as nat) >= 1) by (nonlinear_arith)
            requires
                n >= 1,
                fact((n - 1) as nat) >= 1,
        {}
    }
}

/// Factorials grow with their argument, and are at least 1
proof fn lemma_fact_mono(a: nat, b: nat)
    requires
        a <= b,
    ensures
        1 <= fact(a) <= fact(b),
    decreases b,
{
    if a < b {
        lemma_fact_mono(a, (b - 1) as nat);
        lemma_fact_pos((b - 1) as nat);
        assert(fact(b) == b * fact((b - 1) as nat));
        assert(b * fact((b - 1) as nat) >= fact((b - 1) as nat)) by (nonlinear_arith)
            requires
                b >= 1,
        {}
    } else {
        lemma_fact_pos(a);
    }
}

/// The largest factorial that fits a u128
proof fn lemma_fact_34()
    ensures
        fact(34) == 295232799039604140847618609643520000000nat,
{
    assert(fact(0) == 1);
    assert(fact(1) == 1nat);
    assert(fact(2) == 2nat);
    assert(fact(3) == 6nat);
    assert(fact(4) == 24nat);
    assert(fact(5) == 120nat);
    assert(fact(6) == 720nat);
    assert(fact(7) == 5040nat);
    assert(fact(8) == 40320nat);
    assert(fact(9) == 362880nat);
    assert(fact(10) == 3628800nat);
    assert(fact(11) == 39916800nat);
    assert(fact(12) == 479001600nat);
    assert(fact(13) == 6227020800nat);
    assert(fact(14) == 87178291200nat);
    assert(fact(15) == 1307674368000nat);
    assert(fact(16) == 20922789888000nat);
    assert(fact(17) == 355687428096000nat);
    assert(fact(18) == 6402373705728000nat);
    assert(fact(19) == 121645100408832000nat);
    assert(fact(20) == 2432902008176640000nat);
    assert(fact(21) == 51090942171709440000nat);
    assert(fact(22) == 1124000727777607680000nat);
    assert(fact(23) == 25852016738884976640000nat);
    assert(fact(24) == 620448401733239439360000nat);
    assert(fact(25) == 15511210043330985984000000nat);
    assert(fact(26) == 403291461126605635584000000nat);
    assert(fact(27) == 10888869450418352160768000000nat);
    assert(fact(28) == 304888344611713860501504000000nat);
    assert(fact(29) == 8841761993739701954543616000000nat);
    assert(fact(30) == 265252859812191058636308480000000nat);
    assert(fact(31) == 8222838654177922817725562880000000nat);
    assert(fact(32) == 263130836933693530167218012160000000nat);
    assert(fact(33) == 8683317618811886495518194401280000000nat);
    assert(fact(34) == 295232799039604140847618609643520000000nat);
}

/// Returns `n!` if the value fits inside a u128 (that is, `n! < 2^128`), which is the case
/// for `n` up to 34. Otherwise returns [None].
pub fn factorial(n: usize) -> (r: Option<u128>)
    ensures
        n < 35 ==> (r matches Some(x) && x == fact(n as nat)),
        n >= 35 ==> r is None,
{
    if n >= 35 {
        return None;
    }
    proof {
        lemma_fact_34();
        lemma_fact_mono(n as nat, 34);
    }
    let mut acc: u128 = 1;
    let mut i: usize = 0;
    while i < n
        invariant
            i <= n < 35,
            acc == fact(i as nat),
            fact(n as nat) <= 295232799039604140847618609643520000000nat,
        decreases n - i,
    {
        proof {
            lemma_fact_mono((i + 1) as nat, n as nat);
            assert(fact((i + 1) as nat) == (i + 1) * fact(i as nat));
            assert(acc * (i + 1) == fact((i + 1) as nat)) by (nonlinear_arith)
                requires
                    acc == fact(i as nat),
                    fact((i + 1) as nat) == (i + 1) * fact(i as nat),
            {}
        }
        acc = acc * (i as u128 + 1);
        i = i + 1;
    }
    Some(acc)
}

/// Every bottle of a game state has the capacity of the first one
pub open spec fn uniform_caps(v: Seq<BottleView>) -> bool {
    forall|i: int| 0 <= i < v.len() ==> #[trigger] v[i].0 == v[0].0
}

/// The colors seen in a game state whose bottles all have capacity `cap`, each with the number
/// of its units that must be among the units of unknown color; [None] for colors not seen
pub open spec fn permutable_seen(v: Seq<BottleView>, cap: nat) -> Seq<Option<nat>> {
    Seq::new(
        12,
        |c: int|
            if known_count(v, c) > 0 {
                Some((cap - known_count(v, c)) as nat)
            } else {
                None
            },
    )
}

/// The number of units of unknown color that are of each color, when every color has `cap`
/// units and colors not seen are taken in order until every unit is accounted for
pub open spec fn permutable_shares(v: Seq<BottleView>, cap: nat) -> (Seq<Option<nat>>, nat) {
    fill_shares(permutable_seen(v, cap), cap, unknown_count(v), 0, share_sum(permutable_seen(v, cap)))
}

/// No color has more units than a bottle holds, and the colors' shares of the units of unknown
/// color (see [permutable_shares]) account for every one of them exactly
pub open spec fn permutable_fits(v: Seq<BottleView>) -> bool {
    &&& forall|c: int| 0 <= c < 12 ==> #[trigger] known_count(v, c) <= v[0].0
    &&& permutable_shares(v, v[0].0).1 == unknown_count(v)
}

/// No share exceeds the sum of the shares
proof fn lemma_share_le_sum(s: Seq<Option<nat>>, c: int)
    requires
        0 <= c < s.len(),
    ensures
        share_value(s[c]) <= share_sum(s),
    decreases s.len(),
{
    if c < s.len() - 1 {
        lemma_share_le_sum(s.drop_last(), c);
    }
}

/// How many units of each color are among the units of unknown color (see [permutable_shares])
pub open spec fn permutable_values(v: Seq<BottleView>) -> Seq<nat> {
    Seq::new(12, |c: int| share_value(permutable_shares(v, v[0].0).0[c]))
}

/// `values[c]` units of the color at position `c`, for each `c` below `k`, color after color
pub open spec fn units_in_order(values: Seq<nat>, k: int) -> Seq<ColoredWaterUnit>
    decreases k,
{
    if k <= 0 {
        Seq::empty()
    } else {
        units_in_order(values, k - 1) + Seq::new(values[k - 1], |i: int| color_at(k - 1))
    }
}

/// The units of unknown color of a game state whose bottles share one capacity, as the colors
/// they could be: for each color in order, as many of its units as are missing
pub open spec fn permutable_units(v: Seq<BottleView>) -> Seq<ColoredWaterUnit> {
    units_in_order(permutable_values(v), 12)
}

/// The units of the first `k` colors are as many as the sum of their shares
proof fn lemma_units_in_order_len(shares: Seq<Option<nat>>, k: int)
    requires
        0 <= k <= shares.len(),
    ensures
        units_in_order(Seq::new(shares.len(), |c: int| share_value(shares[c])), k).len() == share_sum(
            shares.take(k),
        ),
    decreases k,
{
    if k > 0 {
        lemma_units_in_order_len(shares, k - 1);
        assert(shares.take(k).drop_last() =~= shares.take(k - 1));
    } else {
        assert(shares.take(0) =~= Seq::<Option<nat>>::empty());
    }
}

/// There are as many units of unknown color's colors as the shares of the colors add up to
pub proof fn lemma_permutable_units_len(v: Seq<BottleView>)
    ensures
        permutable_units(v).len() == permutable_shares(v, v[0].0).1,
{
    let cap = v[0].0;
    let shares = permutable_shares(v, cap).0;
    crate::solution::lemma_fill_sum(permutable_seen(v, cap), cap, unknown_count(v), 0, share_sum(permutable_seen(v, cap)));
    lemma_units_in_order_len(shares, 12);
    assert(shares.take(12) =~= shares);
    assert(permutable_values(v) =~= Seq::new(shares.len(), |c: int| share_value(shares[c])));
}

/// The product of the factorials of `s[k..]` times `acc`, or [None] once it exceeds `u128::MAX`
pub open spec fn checked_fact_product(s: Seq<nat>, k: int, acc: nat) -> Option<nat>
    decreases s.len() - k,
{
    if k < 0 || k >= s.len() {
        Some(acc)
    } else if acc * fact(s[k]) > u128::MAX {
        None
    } else {
        checked_fact_product(s, k + 1, acc * fact(s[k]))
    }
}

/// The number of distinct arrangements of `total` units of which `s[c]` are of color `c`:
/// `total! / (s[0]! · s[1]! · …)`, when `total` is below 35 and the denominator fits a u128
pub open spec fn arrangement_count(s: Seq<nat>, total: nat) -> Option<nat> {
    if total < 35 {
        match checked_fact_product(s, 0, 1) {
            Some(d) => Some(fact(total) / d),
            None => None,
        }
    } else {
        None
    }
}

/// Generates the units of unknown color of a [PartialGameState], as the colors they could be,
/// alongside the number of distinct arrangements of those units (if it can be computed).
///
/// There are as many units of each color as are missing from the game state, each color having
/// as many units as the first bottle holds. The units can then be rearranged to generate the
/// possible [KnownGameState]s of the game state (see [permutation_as_known]).
///
/// The number of arrangements is `n! / (a! · b! · …)`, where `n` is the number of units of
/// unknown color and `a`, `b`, … the numbers of units of each color; it is given as long as
/// there are fewer than 35 units of unknown color.
///
/// Returns [None] if the bottles have varying capacities, as it then cannot be determined how
/// many units each color has. A game state without bottles gives no units, which have exactly
/// one arrangement.
pub fn to_permutable<const MAX_BCOUNT: usize, const B_MAX_CAP: usize>(
    gs: &PartialGameState<MAX_BCOUNT, B_MAX_CAP>,
) -> (r: Option<(Vec<ColoredWaterUnit>, Option<u128>)>)
    requires
        bottles_wf(gs.bottles@),
        state_units(bottles_view(gs.bottles@)).len() <= usize::MAX,
        gs.bottles@.len() > 0 && uniform_caps(bottles_view(gs.bottles@)) ==> permutable_fits(
            bottles_view(gs.bottles@),
        ),
    ensures
        ({
            let v = bottles_view(gs.bottles@);
            if v.len() == 0 {
                r matches Some((units, count)) && units@.len() == 0 && count == Some(1u128)
            } else if !uniform_caps(v) {
                r is None
            } else {
                r matches Some((units, count)) && units@ == permutable_units(v) && (match count {
                    Some(n) => arrangement_count(permutable_values(v), unknown_count(v)) == Some(n as nat),
                    None => arrangement_count(permutable_values(v), unknown_count(v)) is None,
                })
            }
        }),
{
    let ghost v = bottles_view(gs.bottles@);
    if gs.bottles.len() == 0 {
        return Some((Vec::new(), Some(1)));
    }
    let count_per_color = gs.bottles[0].get_capacity();
    assert(v[0] == bottle_view(gs.bottles@[0]));
    let mut i: usize = 0;
    while i < gs.bottles.len()
        invariant
            v == bottles_view(gs.bottles@),
            v.len() > 0,
            count_per_color == v[0].0,
            i <= v.len(),
            forall|j: int| 0 <= j < i ==> #[trigger] v[j].0 == v[0].0,
        decreases v.len() - i,
    {
        assert(v[i as int] == bottle_view(gs.bottles@[i as int]));
        if gs.bottles[i].get_capacity() != count_per_color {
            assert(v[i as int].0 != v[0].0);
            return None;
        }
        i = i + 1;
    }
    assert(uniform_caps(v));
    let counts = count_units(gs);
    let total_unknown_units = counts[0];
    assert(partial_at(0) == PartialColoredWaterUnit::UnknownColor);
    let ghost cap = count_per_color as nat;
    // the colors seen, and how many of their units are unknown
    let mut shares: Vec<Option<usize>> = Vec::new();
    let mut sum: u128 = 0;
    let mut c: usize = 0;
    while c < 12
        invariant
            counts@.len() == 13,
            forall|k: int| 0 <= k < 13 ==> #[trigger] counts@[k] == state_units(v).count(partial_at(k)),
            permutable_fits(v),
            cap == v[0].0,
            count_per_color == cap,
            c <= 12,
            shares@.len() == c,
            forall|k: int|
                0 <= k < c ==> #[trigger] shares@[k] == (match permutable_seen(v, cap)[k] {
                    Some(n) => Some(n as usize),
                    None => None,
                }),
            sum == share_sum(permutable_seen(v, cap).take(c as int)),
            sum <= c * usize::MAX,
        decreases 12 - c,
    {
        let known = counts[c + 1];
        assert(partial_at(c + 1) == PartialColoredWaterUnit::Color(color_at(c as int)));
        assert(known_count(v, c as int) <= cap);
        proof {
            assert(permutable_seen(v, cap).take(c + 1).drop_last() =~= permutable_seen(v, cap).take(c as int));
        }
        if known > 0 {
            let missing = count_per_color - known;
            shares.push(Some(missing));
            sum = sum + missing as u128;
        } else {
            shares.push(None);
        }
        c = c + 1;
    }
    assert(permutable_seen(v, cap).take(12) =~= permutable_seen(v, cap));
    proof {
        let initial = Seq::new(12, |j: int| match shares@[j] {
            Some(n) => Some(n as nat),
            None => None,
        });
        assert forall|j: int| 0 <= j < 12 implies #[trigger] initial[j] == permutable_seen(v, cap)[j] by {
            assert(shares@[j] == (match permutable_seen(v, cap)[j] {
                Some(n) => Some(n as usize),
                None => None,
            }));
        }
        assert(initial =~= permutable_seen(v, cap));
        crate::solution::lemma_fill_sum(permutable_seen(v, cap), cap, unknown_count(v), 0, share_sum(permutable_seen(v, cap)));
    }
    // colors not seen make up for the units of unknown color not accounted for yet
    let mut k: usize = 0;
    while k < 12 && sum < total_unknown_units as u128
        invariant
            count_per_color == cap,
            total_unknown_units == unknown_count(v),
            k <= 12,
            shares@.len() == 12,
            sum <= 24 * usize::MAX,
            fill_shares(
                Seq::new(12, |j: int| match shares@[j] {
                    Some(n) => Some(n as nat),
                    None => None,
                }),
                cap,
                unknown_count(v),
                k as int,
                sum as nat,
            ) == permutable_shares(v, cap),
        decreases 12 - k,
    {
        let ghost before = Seq::new(12, |j: int| match shares@[j] {
            Some(n) => Some(n as nat),
            None => None,
        });
        if shares[k].is_none() {
            shares.set(k, Some(count_per_color));
            sum = sum + count_per_color as u128;
            proof {
                let after = Seq::new(12, |j: int| match shares@[j] {
                    Some(n) => Some(n as nat),
                    None => None,
                });
                assert(after =~= before.update(k as int, Some(cap)));
            }
        } else {
            proof {
                let after = Seq::new(12, |j: int| match shares@[j] {
                    Some(n) => Some(n as nat),
                    None => None,
                });
                assert(after =~= before);
            }
        }
        k = k + 1;
    }
    let ghost final_shares = Seq::new(12, |x: int| match shares@[x] {
        Some(n) => Some(n as nat),
        None => None,
    });
    proof {
        assert(fill_shares(final_shares, cap, unknown_count(v), k as int, sum as nat) == (final_shares, sum as nat));
        assert(final_shares == permutable_shares(v, cap).0);
    }
    let ghost values = Seq::new(12, |c: int| share_value(permutable_shares(v, cap).0[c]));
    // the number of distinct arrangements
    let permutation_count: Option<u128> = if total_unknown_units < 35 {
        proof {
            // no color has more units among those of unknown color than there are
            assert forall|c: int| 0 <= c < 12 implies #[trigger] values[c] < 35 by {
                lemma_share_le_sum(final_shares, c);
            }
        }
        let mut denominator: Option<u128> = Some(1);
        let mut j: usize = 0;
        while j < 12 && denominator.is_some()
            invariant
                j <= 12,
                shares@.len() == 12,
                final_shares == Seq::new(12, |x: int| match shares@[x] {
                    Some(n) => Some(n as nat),
                    None => None,
                }),
                values == Seq::new(12, |c: int| share_value(final_shares[c])),
                forall|c: int| 0 <= c < 12 ==> #[trigger] values[c] < 35,
                total_unknown_units < 35,
                match denominator {
                    Some(d) => checked_fact_product(values, j as int, d as nat) == checked_fact_product(values, 0, 1),
                    None => checked_fact_product(values, 0, 1) is None,
                },
            decreases 12 - j,
        {
            let d = denominator.unwrap();
            let missing: usize = match shares[j] {
                Some(m) => m,
                None => 0,
            };
            proof {
                assert(values[j as int] == missing as nat);
            }
            let this_count_factorial = factorial(missing).unwrap();
            let next = d.checked_mul(this_count_factorial);
            proof {
                assert(values.len() == 12);
                if next is None {
                    assert(d as nat * fact(values[j as int]) > u128::MAX);
                    assert(checked_fact_product(values, j as int, d as nat) is None);
                } else {
                    assert(checked_fact_product(values, j as int, d as nat) == checked_fact_product(
                        values,
                        j + 1,
                        d as nat * fact(values[j as int]),
                    ));
                }
            }
            denominator = next;
            j = j + 1;
        }
        proof {
            if denominator is Some && j >= 12 {
                assert(checked_fact_product(values, 12, denominator->Some_0 as nat) == Some(denominator->Some_0 as nat));
            }
        }
        match denominator {
            Some(d) => {
                proof {
                    lemma_fact_mono(0, 0);
                    assert(d >= 1) by {
                        lemma_product_positive(values, 0, 1);
                    }
                }
                let total = factorial(total_unknown_units).unwrap();
                Some(total / d)
            },
            None => None,
        }
    } else {
        None
    };
    // the units, color after color
    let mut out_vec: Vec<ColoredWaterUnit> = Vec::new();
    let mut c2: usize = 0;
    while c2 < 12
        invariant
            c2 <= 12,
            shares@.len() == 12,
            final_shares == Seq::new(12, |x: int| match shares@[x] {
                Some(n) => Some(n as nat),
                None => None,
            }),
            values == Seq::new(12, |c: int| share_value(final_shares[c])),
            out_vec@ == units_in_order(values, c2 as int),
        decreases 12 - c2,
    {
        let color = ColoredWaterUnit::from_ordinal(c2).unwrap();
        let missing = match shares[c2] {
            Some(n) => n,
            None => 0,
        };
        let ghost prior = out_vec@;
        let mut n: usize = 0;
        while n < missing
            invariant
                n <= missing,
                color == color_at(c2 as int),
                c2 < 12,
                missing == values[c2 as int],
                out_vec@ == prior + Seq::new(n as nat, |i: int| color_at(c2 as int)),
            decreases missing - n,
        {
            out_vec.push(color);
            assert(out_vec@ =~= prior + Seq::new((n + 1) as nat, |i: int| color_at(c2 as int)));
            n = n + 1;
        }
        c2 = c2 + 1;
    }
    proof {
        assert(values =~= permutable_values(v));
    }
    Some((out_vec, permutation_count))
}

/// A product of factorials is at least its starting value
proof fn lemma_product_positive(s: Seq<nat>, k: int, acc: nat)
    requires
        0 <= k,
        acc >= 1,
    ensures
        checked_fact_product(s, k, acc) matches Some(d) ==> d >= 1,
    decreases s.len() - k,
{
    if k < s.len() && acc * fact(s[k]) <= u128::MAX {
        lemma_fact_mono(0, s[k]);
        assert(acc * fact(s[k]) >= 1) by (nonlinear_arith)
            requires
                acc >= 1,
                fact(s[k]) >= 1,
        {}
        lemma_product_positive(s, k + 1, acc * fact(s[k]));
    }
}

} // verus!
