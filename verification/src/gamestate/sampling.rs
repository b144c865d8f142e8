//! Collapsing a [PartialGameState] into [KnownGameState]s: every distinct one it could be, or
//! random ones, drawn one at a time.
use vstd::prelude::*;
use vstd::multiset::Multiset;

use itertools::Itertools;
use rand::seq::SliceRandom;

use super::collapse::{arrangement_count, lemma_permutable_units_len, permutable_fits, permutable_shares, permutable_units, permutable_values, to_permutable, uniform_caps};
use super::fill_unknown::{filled_state, permutation_as_known};
use super::equivalence::views_equivalent;
use super::gamestate_trait::{BottleView, bottle_view, bottles_view, bottles_wf, copy_state, state_view};
use super::known_gamestate::KnownGameState;
use super::partial_gamestate::PartialGameState;
use super::unit_counts::state_units;
use crate::bottle::{Bottle, KnownBottle, known_units};
use crate::colored_water::{ColoredWaterUnit, copy_units};
use crate::solution::unknown_count;

verus! {

broadcast use vstd::seq_lib::to_multiset_len;

#[verifier::external_type_specification]
#[verifier::external_body]
pub struct ExThreadRng(rand::rngs::ThreadRng);

/// [rand::rng]: a handle to the random number generator of the current thread.
///
/// Nothing is claimed of the generator. The call only panics where the operating system cannot
/// seed it, which no input can rule out.
#[verifier::external_body]
fn thread_rng() -> (r: rand::rngs::ThreadRng) {
    rand::rng()
}

/// [SliceRandom::shuffle] on a list of units: rearranges them in place, in an order drawn at
/// random. The contract claims only what holds of every outcome: the list holds the same units
/// with the same multiplicities.
#[verifier::external_body]
fn shuffle_units(units: &mut Vec<ColoredWaterUnit>, rng: &mut rand::rngs::ThreadRng)
    ensures
        final(units)@.to_multiset() == old(units)@.to_multiset(),
{
    units.shuffle(rng);
}

/// The arrangements of `units`, one for each ordering of their positions, in the order in which
/// [Itertools::permutations] produces them
pub uninterp spec fn unit_permutations(units: Seq<ColoredWaterUnit>) -> Seq<Seq<ColoredWaterUnit>>;

/// [Itertools::permutations] of all the units: one arrangement for each ordering of their
/// positions, so that equal units give equal arrangements more than once.
///
/// As its documentation states, each result holds the same units with the same multiplicities,
/// and every ordering of the positions is produced, so every arrangement of the units is among
/// the results (the one ordering of no units gives the empty arrangement). The order in which
/// they come is left unsaid: it is named [unit_permutations].
#[verifier::external_body]
fn all_permutations(units: &Vec<ColoredWaterUnit>) -> (r: Vec<Vec<ColoredWaterUnit>>)
    ensures
        r@.map_values(|p: Vec<ColoredWaterUnit>| p@) == unit_permutations(units@),
        forall|i: int| 0 <= i < r@.len() ==> (#[trigger] r@[i])@.to_multiset() == units@.to_multiset(),
        forall|p: Seq<ColoredWaterUnit>|
            #![trigger p.to_multiset()]
            p.to_multiset() == units@.to_multiset() ==> exists|i: int| 0 <= i < r@.len() && r@[i]@ == p,
{
    units.iter().copied().permutations(units.len()).collect()
}

/// The lists of `s` in order, each one equal to an earlier one left out
pub open spec fn first_occurrences(s: Seq<Seq<ColoredWaterUnit>>) -> Seq<Seq<ColoredWaterUnit>>
    decreases s.len(),
{
    if s.len() == 0 {
        Seq::empty()
    } else {
        let d = first_occurrences(s.drop_last());
        if d.contains(s.last()) {
            d
        } else {
            d.push(s.last())
        }
    }
}

/// [Itertools::unique] on lists of units: as its documentation states, the lists in the order in
/// which they come, each one equal to an earlier one left out.
#[verifier::external_body]
fn unique_lists(lists: Vec<Vec<ColoredWaterUnit>>) -> (r: Vec<Vec<ColoredWaterUnit>>)
    ensures
        r@.map_values(|p: Vec<ColoredWaterUnit>| p@) == first_occurrences(
            lists@.map_values(|p: Vec<ColoredWaterUnit>| p@),
        ),
{
    lists.into_iter().unique().collect()
}

/// Leaving out repeated lists keeps every list once
pub proof fn lemma_first_occurrences(s: Seq<Seq<ColoredWaterUnit>>)
    ensures
        forall|x: Seq<ColoredWaterUnit>| first_occurrences(s).contains(x) <==> s.contains(x),
        forall|i: int, j: int|
            0 <= i < j < first_occurrences(s).len() ==> #[trigger] first_occurrences(s)[i]
                != #[trigger] first_occurrences(s)[j],
    decreases s.len(),
{
    if s.len() > 0 {
        let t = s.drop_last();
        lemma_first_occurrences(t);
        let d = first_occurrences(t);
        assert forall|x: Seq<ColoredWaterUnit>| first_occurrences(s).contains(x) <==> s.contains(x) by {
            if s.contains(x) && x != s.last() {
                let k = choose|k: int| 0 <= k < s.len() && s[k] == x;
                assert(t.contains(x)) by {
                    assert(t[k] == x);
                }
            }
            if t.contains(x) {
                let k = choose|k: int| 0 <= k < t.len() && t[k] == x;
                assert(s[k] == x);
            }
            if !d.contains(s.last()) && first_occurrences(s).contains(x) && x != s.last() {
                let k = choose|k: int| 0 <= k < first_occurrences(s).len() && first_occurrences(s)[k] == x;
                assert(d[k] == x);
            }
            if !d.contains(s.last()) && x == s.last() {
                assert(first_occurrences(s)[d.len() as int] == x);
            }
            if !d.contains(s.last()) && d.contains(x) {
                let k = choose|k: int| 0 <= k < d.len() && d[k] == x;
                assert(first_occurrences(s)[k] == x);
            }
            assert(s[s.len() - 1] == s.last());
        }
    }
}

/// `w` is a known game state `v` could be: the units of unknown color of `v` given the colors of
/// some arrangement of `units` (see [filled_state])
pub open spec fn collapse_of(v: Seq<BottleView>, units: Multiset<ColoredWaterUnit>, w: Seq<BottleView>) -> bool {
    exists|p: Seq<ColoredWaterUnit>| #[trigger] p.to_multiset() == units && w == filled_state(v, p)
}

/// A game state whose bottles share one capacity can be collapsed when the colors it could hold
/// fit it as [permutable_fits] says
pub open spec fn collapsible(v: Seq<BottleView>) -> bool {
    v.len() > 0 && uniform_caps(v) ==> permutable_fits(v)
}

/// An endless source of random arrangements of a list of units
pub struct BasicShuffleIter {
    permutable: Vec<ColoredWaterUnit>,
    rng: rand::rngs::ThreadRng,
}

impl BasicShuffleIter {
    /// The units that are rearranged
    pub closed spec fn units(&self) -> Multiset<ColoredWaterUnit> {
        self.permutable@.to_multiset()
    }

    /// Creates a source of random arrangements of `permutable`
    pub fn new(permutable: Vec<ColoredWaterUnit>) -> (r: Self)
        ensures
            r.units() == permutable@.to_multiset(),
    {
        BasicShuffleIter { permutable, rng: thread_rng() }
    }

    /// Another random arrangement of the units; there always is one
    pub fn next(&mut self) -> (r: Option<Vec<ColoredWaterUnit>>)
        ensures
            final(self).units() == old(self).units(),
            r matches Some(p) && p@.to_multiset() == old(self).units(),
    {
        shuffle_units(&mut self.permutable, &mut self.rng);
        Some(copy_units(self.permutable.as_slice()))
    }
}

/// An endless source of random [KnownGameState]s a [PartialGameState] could be
pub struct RandomCollapse<const MAX_BCOUNT: usize, const B_MAX_CAP: usize> {
    gs: PartialGameState<MAX_BCOUNT, B_MAX_CAP>,
    shuffle: BasicShuffleIter,
}

impl<const MAX_BCOUNT: usize, const B_MAX_CAP: usize> RandomCollapse<MAX_BCOUNT, B_MAX_CAP> {
    /// The game state that is collapsed
    pub closed spec fn state(&self) -> Seq<BottleView> {
        bottles_view(self.gs.bottles@)
    }

    /// The colors its units of unknown color are given, in some arrangement
    pub closed spec fn units(&self) -> Multiset<ColoredWaterUnit> {
        self.shuffle.units()
    }

    /// The game state is well formed and there are enough colors for its units of unknown color
    pub closed spec fn wf(&self) -> bool {
        &&& bottles_wf(self.gs.bottles@)
        &&& self.shuffle.units().len() >= unknown_count(bottles_view(self.gs.bottles@))
    }

    /// Another random [KnownGameState] the game state could be; there always is one, though it
    /// may repeat an earlier one
    pub fn next(&mut self) -> (r: Option<KnownGameState<MAX_BCOUNT, B_MAX_CAP>>)
        requires
            old(self).wf(),
        ensures
            final(self).wf(),
            final(self).state() == old(self).state(),
            final(self).units() == old(self).units(),
            r matches Some(k) && bottles_wf(k.bottles@) && collapse_of(
                old(self).state(),
                old(self).units(),
                bottles_view(k.bottles@),
            ),
    {
        let permutation = self.shuffle.next().unwrap();
        let gs = copy_state(&self.gs);
        let known = permutation_as_known(gs, permutation);
        assert(permutation@.to_multiset() == self.units());
        Some(known)
    }
}

impl<const MAX_BCOUNT: usize, const B_MAX_CAP: usize> PartialGameState<MAX_BCOUNT, B_MAX_CAP> {
    /// Tries to return a source of random [KnownGameState]s this game state could be.
    ///
    /// The source never ends, and generates possible [KnownGameState]s for as long as asked to.
    /// It's useful for collecting a representative sample of possible states when the number of
    /// possible states is too large to consider. It may produce duplicates, and nothing
    /// guarantees that every possible state is eventually generated.
    ///
    /// If the number of possible states is low (few units of unknown color), consider
    /// [PartialGameState::collapse_all] instead, which gives every possible state.
    ///
    /// Fails if the bottles have varying capacities.
    pub fn collapse_random_sample(&self) -> (r: Option<RandomCollapse<MAX_BCOUNT, B_MAX_CAP>>)
        requires
            bottles_wf(self.bottles@),
            state_units(bottles_view(self.bottles@)).len() <= usize::MAX,
            collapsible(bottles_view(self.bottles@)),
        ensures
            ({
                let v = bottles_view(self.bottles@);
                if v.len() > 0 && !uniform_caps(v) {
                    r is None
                } else {
                    r matches Some(s) && s.wf() && s.state() == v && s.units() == (if v.len() == 0 {
                        Multiset::empty()
                    } else {
                        permutable_units(v).to_multiset()
                    })
                }
            }),
    {
        match to_permutable(self) {
            Some((permutable, _)) => {
                proof {
                    lemma_permutable_units_len(bottles_view(self.bottles@));
                }
                let gs = copy_state(self);
                let shuffle = BasicShuffleIter::new(permutable);
                proof {
                    let v = bottles_view(self.bottles@);
                    if v.len() == 0 {
                        vstd::multiset::lemma_multiset_empty_len(shuffle.units());
                    }
                }
                Some(RandomCollapse { gs, shuffle })
            },
            None => None,
        }
    }

    /// Tries to return every distinct [KnownGameState] this game state could be.
    ///
    /// The states come in a very specific order (that of the arrangements of the units of
    /// unknown color, see [unit_permutations]), which makes a prefix of them a poor sample.
    /// The number of states grows roughly factorially with the number of units of unknown
    /// color; to collect a representative sample when there are many, use
    /// [PartialGameState::collapse_random_sample].
    ///
    /// Fails if the bottles have varying capacities.
    pub fn collapse_all(&self) -> (r: Option<Vec<KnownGameState<MAX_BCOUNT, B_MAX_CAP>>>)
        requires
            bottles_wf(self.bottles@),
            state_units(bottles_view(self.bottles@)).len() <= usize::MAX,
            collapsible(bottles_view(self.bottles@)),
        ensures
            ({
                let v = bottles_view(self.bottles@);
                let units = collapse_unit_seq(v);
                if v.len() > 0 && !uniform_caps(v) {
                    r is None
                } else {
                    let arrangements = first_occurrences(unit_permutations(units));
                    &&& r matches Some(all) && all@.len() == arrangements.len() && forall|i: int|
                        0 <= i < all@.len() ==> bottles_wf((#[trigger] all@[i]).bottles@) && bottles_view(
                            all@[i].bottles@,
                        ) == filled_state(v, arrangements[i])
                    &&& forall|i: int, j: int|
                        0 <= i < j < arrangements.len() ==> #[trigger] arrangements[i] != #[trigger] arrangements[j]
                    &&& forall|i: int|
                        0 <= i < arrangements.len() ==> (#[trigger] arrangements[i]).to_multiset() == units.to_multiset()
                    &&& forall|p: Seq<ColoredWaterUnit>|
                        #![trigger p.to_multiset()]
                        p.to_multiset() == units.to_multiset() ==> arrangements.contains(p)
                }
            }),
    {
        let ghost v = bottles_view(self.bottles@);
        match to_permutable(self) {
            Some((permutable, _)) => {
                proof {
                    lemma_permutable_units_len(v);
                    if v.len() == 0 {
                        assert(permutable@ =~= Seq::<ColoredWaterUnit>::empty());
                    }
                }
                let perms = all_permutations(&permutable);
                let ghost ps = unit_permutations(permutable@);
                let arrangements = unique_lists(perms);
                let ghost names = first_occurrences(ps);
                assert(arrangements@.len() == names.len());
                proof {
                    lemma_first_occurrences(ps);
                    assert forall|j: int| 0 <= j < names.len() implies (#[trigger] names[j]).to_multiset()
                        == permutable@.to_multiset() by {
                        assert(names.contains(names[j]));
                        assert(ps.contains(names[j]));
                        let k = choose|k: int| 0 <= k < ps.len() && ps[k] == names[j];
                        assert(perms@.map_values(|p: Vec<ColoredWaterUnit>| p@)[k] == perms@[k]@);
                    }
                    assert forall|p: Seq<ColoredWaterUnit>| #[trigger] p.to_multiset() == permutable@.to_multiset()
                        implies names.contains(p) by {
                        let k = choose|k: int| 0 <= k < perms@.len() && perms@[k]@ == p;
                        assert(perms@.map_values(|q: Vec<ColoredWaterUnit>| q@)[k] == perms@[k]@);
                        assert(ps[k] == p);
                        assert(ps.contains(p));
                    }
                    assert forall|j: int| 0 <= j < arrangements@.len() implies (#[trigger] arrangements@[j])@.to_multiset()
                        == permutable@.to_multiset() by {
                        assert(arrangements@.map_values(|q: Vec<ColoredWaterUnit>| q@)[j] == arrangements@[j]@);
                    }
                }
                let mut out: Vec<KnownGameState<MAX_BCOUNT, B_MAX_CAP>> = Vec::new();
                let mut i: usize = 0;
                while i < arrangements.len()
                    invariant
                        v == bottles_view(self.bottles@),
                        bottles_wf(self.bottles@),
                        permutable@.len() >= unknown_count(v),
                        arrangements@.map_values(|p: Vec<ColoredWaterUnit>| p@) == names,
                        forall|j: int|
                            0 <= j < arrangements@.len() ==> (#[trigger] arrangements@[j])@.to_multiset()
                                == permutable@.to_multiset(),
                        i <= arrangements@.len(),
                        out@.len() == i,
                        forall|j: int|
                            0 <= j < i ==> bottles_wf((#[trigger] out@[j]).bottles@) && bottles_view(
                                out@[j].bottles@,
                            ) == filled_state(v, names[j]),
                    decreases arrangements@.len() - i,
                {
                    let gs = copy_state(self);
                    let arrangement = copy_units(arrangements[i].as_slice());
                    assert(arrangement@ == names[i as int]);
                    proof {
                        vstd::seq_lib::to_multiset_len(arrangement@);
                        vstd::seq_lib::to_multiset_len(permutable@);
                    }
                    let known = permutation_as_known(gs, arrangement);
                    out.push(known);
                    i = i + 1;
                }
                Some(out)
            },
            None => None,
        }
    }
}

/// No two of the game states are equivalent (the same bottles, in any order)
pub open spec fn all_distinct(s: Seq<Seq<BottleView>>) -> bool {
    forall|i: int, j: int| 0 <= i < j < s.len() ==> !views_equivalent(#[trigger] s[i], #[trigger] s[j])
}

/// One of the game states is equivalent to `w`
pub open spec fn has_equivalent(s: Seq<Seq<BottleView>>, w: Seq<BottleView>) -> bool {
    exists|j: int| 0 <= j < s.len() && views_equivalent(#[trigger] s[j], w)
}

/// The number of distinct arrangements of the units of unknown color of a game state whose
/// bottles share one capacity, when it can be computed (see [arrangement_count])
pub open spec fn collapse_arrangements(v: Seq<BottleView>) -> Option<nat> {
    if v.len() == 0 {
        Some(1)
    } else {
        arrangement_count(permutable_values(v), unknown_count(v))
    }
}

/// How many distinct states [PartialGameState::collapse_search] looks for: `max_count`, or
/// the number of arrangements when it is known to be smaller
pub open spec fn collapse_target(max_count: nat, arrangements: Option<nat>) -> nat {
    match arrangements {
        Some(n) => if n <= usize::MAX && n < max_count {
            n
        } else {
            max_count
        },
        None => max_count,
    }
}

/// The models of a sequence of game states of known bottles
pub open spec fn states_views<const MAX_BCOUNT: usize, const B_MAX_CAP: usize>(
    s: Seq<KnownGameState<MAX_BCOUNT, B_MAX_CAP>>,
) -> Seq<Seq<BottleView>> {
    s.map_values(|k: KnownGameState<MAX_BCOUNT, B_MAX_CAP>| bottles_view(k.bottles@))
}

/// After how many draws [PartialGameState::collapse_search] gives up, since it cannot be sure
/// that as many distinct states as it looks for exist (arrangements that differ can give
/// equivalent states): four per state looked for when the number of arrangements is not known;
/// when it is, sixteen per arrangement and per state looked for, up to `u128::MAX`
pub open spec fn collapse_draw_limit(max_count: nat, arrangements: Option<nat>) -> nat {
    match arrangements {
        Some(n) => if 16 * (n + max_count) > u128::MAX {
            u128::MAX as nat
        } else {
            16 * (n + max_count)
        },
        None => 4 * max_count,
    }
}

/// The units of unknown color of a game state, as the colors they could be, in the order
/// [to_permutable] gives them
pub open spec fn collapse_unit_seq(v: Seq<BottleView>) -> Seq<ColoredWaterUnit> {
    if v.len() == 0 {
        Seq::empty()
    } else {
        permutable_units(v)
    }
}

/// The colors the units of unknown color of a game state are given when it is collapsed
pub open spec fn collapse_units(v: Seq<BottleView>) -> Multiset<ColoredWaterUnit> {
    if v.len() == 0 {
        Multiset::empty()
    } else {
        permutable_units(v).to_multiset()
    }
}

/// The search for up to a number of distinct [KnownGameState]s a [PartialGameState] could be:
/// random states are drawn one at a time and kept when they are new.
///
/// The search is finished once it has found as many distinct states as it looks for, or once it
/// has made as many draws as it may (see [collapse_draw_limit]).
pub struct CollapseSearch<const MAX_BCOUNT: usize, const B_MAX_CAP: usize> {
    source: RandomCollapse<MAX_BCOUNT, B_MAX_CAP>,
    found: Vec<KnownGameState<MAX_BCOUNT, B_MAX_CAP>>,
    target: usize,
    draw_limit: u128,
    draws: u128,
    finished: bool,
}

impl<const MAX_BCOUNT: usize, const B_MAX_CAP: usize> CollapseSearch<MAX_BCOUNT, B_MAX_CAP> {
    /// The game state that is collapsed
    pub closed spec fn state(&self) -> Seq<BottleView> {
        self.source.state()
    }

    /// The colors its units of unknown color are given, in some arrangement
    pub closed spec fn units(&self) -> Multiset<ColoredWaterUnit> {
        self.source.units()
    }

    /// The distinct states found so far, in the order they were found
    pub closed spec fn found_views(&self) -> Seq<Seq<BottleView>> {
        self.found@.map_values(|k: KnownGameState<MAX_BCOUNT, B_MAX_CAP>| bottles_view(k.bottles@))
    }

    /// How many distinct states the search looks for
    pub closed spec fn target(&self) -> nat {
        self.target as nat
    }

    /// After how many draws the search gives up
    pub closed spec fn draw_limit(&self) -> nat {
        self.draw_limit as nat
    }

    /// How many states have been drawn
    pub closed spec fn draws(&self) -> nat {
        self.draws as nat
    }

    /// Whether the search is over
    pub closed spec fn is_finished(&self) -> bool {
        self.finished
    }

    /// The states found are distinct states the game state could be, and the search is over
    /// exactly when it has found enough of them or used up its draws, once it has drawn one
    pub closed spec fn wf(&self) -> bool {
        &&& self.source.wf()
        &&& forall|i: int| 0 <= i < self.found@.len() ==> bottles_wf((#[trigger] self.found@[i]).bottles@)
        &&& forall|i: int|
            0 <= i < self.found@.len() ==> collapse_of(
                self.state(),
                self.units(),
                bottles_view((#[trigger] self.found@[i]).bottles@),
            )
        &&& all_distinct(self.found_views())
        &&& self.draws <= self.draw_limit || (self.draws == 1 && self.draw_limit == 0)
        &&& self.finished ==> (self.found@.len() >= self.target || self.draws >= self.draw_limit)
        &&& !self.finished ==> (self.draws < self.draw_limit || self.draws == 0)
    }

    /// How many distinct states the search looks for
    pub fn target_count(&self) -> (r: usize)
        ensures
            r == self.target(),
    {
        self.target
    }

    /// Whether the search is over
    pub fn finished(&self) -> (r: bool)
        ensures
            r == self.is_finished(),
    {
        self.finished
    }

    /// Draws one more random state, keeps it if it was not found yet, and tells whether the
    /// search is now over: it is once it has found as many distinct states as it looks for, or
    /// has used up its draws.
    pub fn step(&mut self) -> (r: bool)
        requires
            old(self).wf(),
            !old(self).is_finished(),
        ensures
            final(self).wf(),
            final(self).state() == old(self).state(),
            final(self).units() == old(self).units(),
            final(self).target() == old(self).target(),
            final(self).draw_limit() == old(self).draw_limit(),
            final(self).draws() == old(self).draws() + 1,
            exists|w: Seq<BottleView>|
                #![trigger collapse_of(old(self).state(), old(self).units(), w)]
                collapse_of(old(self).state(), old(self).units(), w) && final(self).found_views() == if has_equivalent(old(self).found_views(), w) {
                    old(self).found_views()
                } else {
                    old(self).found_views().push(w)
                },
            final(self).is_finished() == (final(self).found_views().len() >= final(self).target()
                || final(self).draws() >= final(self).draw_limit()),
            r == final(self).is_finished(),
    {
        let ghost old_found = self.found_views();
        let state = self.source.next().unwrap();
        let ghost w = bottles_view(state.bottles@);
        let mut seen = false;
        let mut i: usize = 0;
        while i < self.found.len()
            invariant
                i <= self.found@.len(),
                old_found == self.found@.map_values(
                    |k: KnownGameState<MAX_BCOUNT, B_MAX_CAP>| bottles_view(k.bottles@),
                ),
                w == bottles_view(state.bottles@),
                forall|j: int| 0 <= j < self.found@.len() ==> bottles_wf((#[trigger] self.found@[j]).bottles@),
                bottles_wf(state.bottles@),
                seen == exists|j: int| 0 <= j < i && views_equivalent(#[trigger] old_found[j], w),
            decreases self.found@.len() - i,
        {
            if self.found[i].equivalent(&state) {
                assert(views_equivalent(old_found[i as int], w));
                seen = true;
            }
            i = i + 1;
        }
        assert(collapse_of(old(self).state(), old(self).units(), w));
        if !seen {
            self.found.push(state);
            proof {
                assert(self.found_views() =~= old_found.push(w));
            }
        } else {
            assert(self.found_views() =~= old_found);
        }
        self.draws = self.draws + 1;
        self.finished = self.found.len() >= self.target || self.draws >= self.draw_limit;
        self.finished
    }

    /// The distinct states found, in the order they were found
    pub fn into_found(self) -> (r: Vec<KnownGameState<MAX_BCOUNT, B_MAX_CAP>>)
        requires
            self.wf(),
        ensures
            r@.map_values(|k: KnownGameState<MAX_BCOUNT, B_MAX_CAP>| bottles_view(k.bottles@)) == self.found_views(),
            forall|i: int| 0 <= i < r@.len() ==> bottles_wf((#[trigger] r@[i]).bottles@),
    {
        self.found
    }
}

impl<const MAX_BCOUNT: usize, const B_MAX_CAP: usize> PartialGameState<MAX_BCOUNT, B_MAX_CAP> {
    /// Tries to start the search for up to `max_count` distinct [KnownGameState]s this game
    /// state could be (see [CollapseSearch]).
    ///
    /// When the number of arrangements of the units of unknown color is known and smaller than
    /// `max_count`, the search looks for that many states instead, so that it can end. When it
    /// is not known, the search gives up after `4 * max_count` draws (see [collapse_draw_limit]).
    ///
    /// Fails if the bottles have varying capacities.
    pub fn collapse_search(&self, max_count: usize) -> (r: Option<CollapseSearch<MAX_BCOUNT, B_MAX_CAP>>)
        requires
            bottles_wf(self.bottles@),
            state_units(bottles_view(self.bottles@)).len() <= usize::MAX,
            collapsible(bottles_view(self.bottles@)),
        ensures
            ({
                let v = bottles_view(self.bottles@);
                if v.len() > 0 && !uniform_caps(v) {
                    r is None
                } else {
                    r matches Some(s) && s.wf() && !s.is_finished() && s.state() == v && s.units()
                        == collapse_units(v) && s.found_views().len() == 0 && s.target() == collapse_target(
                        max_count as nat,
                        collapse_arrangements(v),
                    ) && s.draws() == 0 && s.draw_limit() == collapse_draw_limit(
                        max_count as nat,
                        collapse_arrangements(v),
                    )
                }
            }),
    {
        let ghost v = bottles_view(self.bottles@);
        let count = match to_permutable(self) {
            Some((_, count)) => count,
            None => {
                return None;
            },
        };
        let source = self.collapse_random_sample().unwrap();
        let (target, draw_limit): (usize, u128) = match count {
            Some(n) => {
                let per = n.saturating_add(max_count as u128);
                let limit = match per.checked_mul(16) {
                    Some(l) => l,
                    None => u128::MAX,
                };
                if n < max_count as u128 {
                    (n as usize, limit)
                } else {
                    (max_count, limit)
                }
            },
            None => (max_count, 4 * max_count as u128),
        };
        let found: Vec<KnownGameState<MAX_BCOUNT, B_MAX_CAP>> = Vec::new();
        let search = CollapseSearch { source, found, target, draw_limit, draws: 0, finished: false };
        assert(search.found_views() =~= Seq::<Seq<BottleView>>::empty());
        assert(search.wf());
        assert(search.state() == v);
        assert(count == match collapse_arrangements(v) {
            Some(n) => Some(n as u128),
            None => None,
        });
        assert(search.target() == collapse_target(max_count as nat, collapse_arrangements(v)));
        Some(search)
    }

    /// Tries to create and return up to `max_count` distinct [KnownGameState]s this game state
    /// could be, drawn at random: all of them when there are no more than `max_count`.
    ///
    /// Runs a [CollapseSearch] (see [PartialGameState::collapse_search]) to its end; no two of
    /// the states returned are equivalent, and there are never more than `max_count` of them.
    /// When the number of arrangements of the units of unknown color is known and the search
    /// ends short of its target (after sixteen draws per arrangement and per state looked for,
    /// see [collapse_draw_limit], as when arrangements that differ give equivalent states), the
    /// states still missing are taken in turn from [PartialGameState::collapse_all], so that the
    /// result holds `max_count` states or every state there is. When that number is not known,
    /// the search gives up after `4 * max_count` draws.
    ///
    /// Fails if the bottles have varying capacities.
    pub fn collapse(&self, max_count: usize) -> (r: Option<Vec<KnownGameState<MAX_BCOUNT, B_MAX_CAP>>>)
        requires
            bottles_wf(self.bottles@),
            state_units(bottles_view(self.bottles@)).len() <= usize::MAX,
            collapsible(bottles_view(self.bottles@)),
        ensures
            ({
                let v = bottles_view(self.bottles@);
                let target = collapse_target(max_count as nat, collapse_arrangements(v));
                if v.len() > 0 && !uniform_caps(v) {
                    r is None
                } else {
                    r matches Some(found) && {
                        let fv = found@.map_values(
                            |k: KnownGameState<MAX_BCOUNT, B_MAX_CAP>| bottles_view(k.bottles@),
                        );
                        &&& forall|i: int| 0 <= i < found@.len() ==> bottles_wf((#[trigger] found@[i]).bottles@)
                        &&& forall|i: int| 0 <= i < fv.len() ==> collapse_of(v, collapse_units(v), #[trigger] fv[i])
                        &&& all_distinct(fv)
                        &&& fv.len() <= max_count
                        &&& max_count > 0 ==> fv.len() >= 1
                        &&& collapse_arrangements(v) is Some ==> fv.len() >= target || forall|w: Seq<BottleView>|
                            #[trigger] collapse_of(v, collapse_units(v), w) ==> has_equivalent(fv, w)
                    }
                }
            }),
    {
        let ghost v = bottles_view(self.bottles@);
        let counted = match to_permutable(self) {
            Some((_, count)) => count.is_some(),
            None => {
                return None;
            },
        };
        let mut search = match self.collapse_search(max_count) {
            Some(s) => s,
            None => {
                return None;
            },
        };
        if max_count == 0 {
            let none: Vec<KnownGameState<MAX_BCOUNT, B_MAX_CAP>> = Vec::new();
            assert(none@.map_values(|k: KnownGameState<MAX_BCOUNT, B_MAX_CAP>| bottles_view(k.bottles@))
                =~= Seq::<Seq<BottleView>>::empty());
            return Some(none);
        }
        let ghost t = search.target();
        let ghost l = search.draw_limit();
        let target = search.target_count();
        while !search.finished()
            invariant
                search.wf(),
                search.state() == v,
                search.units() == collapse_units(v),
                search.target() == t,
                search.draw_limit() == l,
                search.draws() == 0 ==> search.found_views().len() == 0 && !search.is_finished(),
                search.draws() > 0 ==> search.found_views().len() >= 1,
                search.draws() > 0 && !search.is_finished() ==> search.found_views().len() < t,
                search.found_views().len() <= (if t == 0 {
                    1
                } else {
                    t
                }),
            decreases l + 1 - search.draws(),
        {
            search.step();
        }
        let mut found = search.into_found();
        let ghost units = collapse_units(v);
        proof {
            let fv = states_views(found@);
            assert forall|i: int| 0 <= i < fv.len() implies collapse_of(v, units, #[trigger] fv[i]) by {
                assert(fv[i] == bottles_view(found@[i].bottles@));
            }
        }
        assert(found@.len() >= 1);
        if found.len() < target && counted {
            // the draws ran out: take the states still missing from every state there is
            let all = match self.collapse_all() {
                Some(all) => all,
                None => {
                    return None;
                },
            };
            let ghost units_seq = collapse_unit_seq(v);
            let ghost arrangements = first_occurrences(unit_permutations(units_seq));
            let ghost av = states_views(all@);
            proof {
                vstd::seq_lib::to_multiset_len(units_seq);
                assert(units == units_seq.to_multiset());
                assert(all@.len() == arrangements.len());
                assert forall|j: int| 0 <= j < av.len() implies collapse_of(v, units, #[trigger] av[j]) by {
                    assert(av[j] == bottles_view(all@[j].bottles@));
                    assert(arrangements[j].to_multiset() == units_seq.to_multiset());
                }
            }
            let mut i: usize = 0;
            while i < all.len() && found.len() < target
                invariant
                    av == states_views(all@),
                    forall|j: int| 0 <= j < all@.len() ==> bottles_wf((#[trigger] all@[j]).bottles@),
                    forall|j: int| 0 <= j < av.len() ==> collapse_of(v, units, #[trigger] av[j]),
                    i <= all@.len(),
                    target <= max_count,
                    forall|j: int| 0 <= j < found@.len() ==> bottles_wf((#[trigger] found@[j]).bottles@),
                    forall|j: int|
                        0 <= j < found@.len() ==> collapse_of(
                            v,
                            units,
                            #[trigger] states_views(found@)[j],
                        ),
                    all_distinct(states_views(found@)),
                    found@.len() <= target,
                    found@.len() >= 1,
                    forall|j: int|
                        0 <= j < i ==> has_equivalent(
                            states_views(found@),
                            #[trigger] av[j],
                        ),
                decreases all@.len() - i,
            {
                let ghost before = states_views(found@);
                let ghost old_found = found@;
                assert(av[i as int] == bottles_view(all@[i as int].bottles@));
                if !crate::solution::contains_equivalent(&found, &all[i]) {
                    let copy = copy_state(&all[i]);
                    found.push(copy);
                    proof {
                        let after = states_views(found@);
                        assert(after =~= before.push(av[i as int]));
                        assert forall|j: int| 0 <= j <= i implies has_equivalent(after, #[trigger] av[j]) by {
                            if j < i {
                                let k = choose|k: int| 0 <= k < before.len() && views_equivalent(#[trigger] before[k], av[j]);
                                assert(after[k] == before[k]);
                            } else {
                                assert(views_equivalent(after[before.len() as int], av[j]));
                            }
                        }
                        assert forall|a: int, b: int| 0 <= a < b < after.len() implies !views_equivalent(
                            #[trigger] after[a],
                            #[trigger] after[b],
                        ) by {
                            if b == before.len() {
                                assert(after[a] == before[a]);
                                assert(state_view(old_found[a]) == before[a]);
                                assert(state_view(all@[i as int]) == av[i as int]);
                                assert(!views_equivalent(state_view(old_found[a]), state_view(all@[i as int])));
                                assert(after[b] == av[i as int]);
                            } else {
                                assert(after[a] == before[a] && after[b] == before[b]);
                            }
                        }
                        assert forall|j: int| 0 <= j < found@.len() implies bottles_wf((#[trigger] found@[j]).bottles@) by {
                            if j < before.len() {
                                assert(found@[j] == old_found[j]);
                            }
                        }
                    }
                } else {
                    proof {
                        let k = choose|k: int|
                            0 <= k < found@.len() && views_equivalent(state_view(found@[k]), state_view(all@[i as int]));
                        assert(before[k] == state_view(found@[k]));
                    }
                }
                i = i + 1;
            }
            proof {
                let fv = states_views(found@);
                if found@.len() < target {
                    assert forall|w: Seq<BottleView>| #[trigger] collapse_of(v, units, w) implies has_equivalent(fv, w) by {
                        let p = choose|p: Seq<ColoredWaterUnit>| #[trigger] p.to_multiset() == units && w == filled_state(v, p);
                        assert(p.to_multiset() == units_seq.to_multiset());
                        assert(arrangements.contains(p));
                        let j = choose|j: int| 0 <= j < arrangements.len() && arrangements[j] == p;
                        assert(av[j] == bottles_view(all@[j].bottles@));
                        assert(av[j] == w);
                    }
                }
            }
        }
        Some(found)
    }
}

} // verus!
