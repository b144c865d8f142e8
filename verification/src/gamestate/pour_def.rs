//! Pours between the bottles of a game state: [Pour], which may or may not be possible,
//! and [ValidPour], which is known to be possible.
use vstd::prelude::*;

use super::gamestate_trait::{
    BottleView, GameState, apply_pour, bottles_view, bottles_wf, next_valid_pour, pour_check, state_view,
};
use crate::bottle::{
    Bottle, PourOutError, fillable, pour_out_amount, pour_out_result, test_pour_out, try_pour_out,
};

verus! {

/// Reasons creating a [ValidPour] or running [Pour::try_apply] may fail
#[derive(Debug, Clone, Copy, PartialEq, Eq, Structural)]
pub enum PourError {
    /// A provided bottle index doesn't point to a bottle within the given game state;
    /// may be the source, destination, or both.
    MissingBottle,
    /// The two provided bottle indices are identical.
    SameBottle,
    /// This pour, if carried out, would lead to a [PourOutError] of the provided type.
    InvalidPour(PourOutError),
}

impl From<PourOutError> for PourError {
    fn from(value: PourOutError) -> (r: Self) {
        PourError::InvalidPour(value)
    }
}

impl vstd::std_specs::convert::FromSpecImpl<PourOutError> for PourError {
    open spec fn obeys_from_spec() -> bool {
        true
    }

    open spec fn from_spec(v: PourOutError) -> Self {
        PourError::InvalidPour(v)
    }
}

/// Every bottle of the sequence is well formed
pub open spec fn bottles_inv<B: Bottle>(bs: Seq<B>) -> bool {
    forall|i: int| 0 <= i < bs.len() ==> #[trigger] bs[i].inv()
}

/// Whether pouring from bottle `src` into bottle `dst` stays within the storage of `dst`
pub open spec fn pour_fits_storage<B: Bottle>(bs: Seq<B>, src: int, dst: int) -> bool {
    pour_check(bottles_view(bs), src, dst) is Ok ==> bs[dst].units().len() + pour_out_amount(
        bs[src].units(),
        bs[dst].units(),
        bs[dst].bcap(),
    ) <= bs[dst].storage_cap()
}

/// In a well-formed game state every pour stays within the storage of its destination
pub proof fn lemma_wf_pour_fits<B: Bottle>(bs: Seq<B>, src: int, dst: int)
    requires
        bottles_wf(bs),
    ensures
        bottles_inv(bs),
        pour_fits_storage(bs, src, dst),
{
    if pour_check(bottles_view(bs), src, dst) is Ok {
        assert(bs[dst].inv());
        bs[dst].lemma_inv();
        assert(fillable(bs[dst]));
    }
}

/// Pouring between bottles of a well-formed state keeps it well formed
pub open spec fn fillable_kept<B: Bottle>(before: Seq<B>, after: Seq<B>) -> bool {
    (forall|i: int| 0 <= i < before.len() ==> #[trigger] fillable(before[i])) ==> (forall|i: int|
        0 <= i < after.len() ==> #[trigger] fillable(after[i]))
}

/// The operation of pouring content from one bottle into another within the same game state.
///
/// A ValidPour is always possible: [ValidPour::apply] never fails.
pub struct ValidPour<'a, G: GameState> {
    /// the game state this ValidPour applies to
    source_gamestate: &'a G,
    /// the source bottle's index within the game state
    source_bottle_index: usize,
    /// the dest bottle's index within the game state
    dest_bottle_index: usize,
}

impl<'a, G: GameState> ValidPour<'a, G> {
    /// The game state this pour applies to
    pub closed spec fn state(&self) -> G {
        *self.source_gamestate
    }

    /// The index of the source bottle
    pub closed spec fn src(&self) -> int {
        self.source_bottle_index as int
    }

    /// The index of the destination bottle
    pub closed spec fn dst(&self) -> int {
        self.dest_bottle_index as int
    }

    /// This pour is possible in its game state, whose bottles are well formed
    pub open spec fn valid(&self) -> bool {
        &&& bottles_inv(self.state().bottles())
        &&& pour_check(state_view(self.state()), self.src(), self.dst()) is Ok
    }

    /// Try to create a new [ValidPour]
    pub fn try_new(source_gamestate: &'a G, source_bottle_index: usize, dest_bottle_index: usize) -> (r: Result<
        Self,
        PourError,
    >)
        requires
            bottles_inv(source_gamestate.bottles()),
        ensures
            match r {
                Ok(p) => p.valid() && p.state() == *source_gamestate && p.src() == source_bottle_index
                    && p.dst() == dest_bottle_index,
                Err(e) => pour_check(
                    state_view(*source_gamestate),
                    source_bottle_index as int,
                    dest_bottle_index as int,
                ) == Err::<(), PourError>(e),
            },
            pour_check(
                state_view(*source_gamestate),
                source_bottle_index as int,
                dest_bottle_index as int,
            ) is Ok ==> r is Ok,
    {
        if source_bottle_index == dest_bottle_index {
            return Err(PourError::SameBottle);
        }
        let bottles = source_gamestate.get_bottles();
        if source_bottle_index >= bottles.len() || dest_bottle_index >= bottles.len() {
            return Err(PourError::MissingBottle);
        }
        let source_bottle = &bottles[source_bottle_index];
        let dest_bottle = &bottles[dest_bottle_index];
        match test_pour_out(source_bottle, dest_bottle) {
            Ok(()) => Ok(ValidPour { source_gamestate, source_bottle_index, dest_bottle_index }),
            Err(e) => Err(PourError::InvalidPour(e)),
        }
    }

    /// Create a new game state that is the result of applying this ValidPour to the source game state
    pub fn apply(&self) -> (r: G)
        requires
            self.valid(),
            pour_fits_storage(self.state().bottles(), self.src(), self.dst()),
        ensures
            state_view(r) == apply_pour(state_view(self.state()), self.src(), self.dst()),
            bottles_inv(r.bottles()),
            fillable_kept(self.state().bottles(), r.bottles()),
    {
        let bottles = self.source_gamestate.get_bottles();
        let ghost bs = bottles@;
        let ghost v = bottles_view(bs);
        let src = self.source_bottle_index;
        let dst = self.dest_bottle_index;
        let mut new_bottles: Vec<G::BottleT> = Vec::new();
        let mut k: usize = 0;
        while k < bottles.len()
            invariant
                bs == bottles@,
                bottles_inv(bs),
                k <= bs.len(),
                new_bottles@.len() == k,
                forall|i: int|
                    0 <= i < k ==> #[trigger] new_bottles@[i].inv() && new_bottles@[i].units()
                        == bs[i].units() && new_bottles@[i].bcap() == bs[i].bcap()
                        && new_bottles@[i].storage_cap() == bs[i].storage_cap(),
            decreases bs.len() - k,
        {
            new_bottles.push(bottles[k].duplicate());
            k = k + 1;
        }
        let mut s = bottles[src].duplicate();
        let mut d = bottles[dst].duplicate();
        let ghost s0 = s;
        let ghost d0 = d;
        let res = try_pour_out(&mut s, &mut d);
        assert(res is Ok);
        let ghost amount = pour_out_amount(bs[src as int].units(), bs[dst as int].units(), bs[dst as int].bcap());
        let ghost nb0 = new_bottles@;
        new_bottles.set(src, s);
        new_bottles.set(dst, d);
        let ghost nb = new_bottles@;
        assert(nb == nb0.update(src as int, s).update(dst as int, d));
        assert(s0.units() == bs[src as int].units() && s0.bcap() == bs[src as int].bcap());
        assert(d0.units() == bs[dst as int].units() && d0.bcap() == bs[dst as int].bcap());
        let r = G::from_bottles(new_bottles);
        let ghost expected = apply_pour(v, src as int, dst as int);
        assert(r.bottles() == nb);
        assert forall|i: int| 0 <= i < nb.len() implies #[trigger] bottles_view(nb)[i] == expected[i] by {
            assert(bottles_view(nb)[i] == crate::gamestate::bottle_view(nb[i]));
            assert(v[i] == crate::gamestate::bottle_view(bs[i]));
            if i == dst as int {
                assert(nb[i] == d);
                assert(crate::gamestate::bottle_view(d) == expected[i]);
            } else if i == src as int {
                assert(nb[i] == s);
                assert(crate::gamestate::bottle_view(s) == expected[i]);
            } else {
                assert(nb[i] == nb0[i]);
                assert(nb0[i].inv());
                assert(crate::gamestate::bottle_view(nb0[i]) == v[i]);
            }
        }
        assert(bottles_view(nb) =~= expected);
        assert(state_view(r) == bottles_view(nb));
        assert forall|i: int| 0 <= i < nb.len() implies #[trigger] nb[i].inv() by {
            if i == dst as int {
                assert(nb[i] == d);
            } else if i == src as int {
                assert(nb[i] == s);
            }
        }
        assert((forall|i: int| 0 <= i < bs.len() ==> #[trigger] fillable(bs[i])) ==> (forall|i: int|
            0 <= i < nb.len() ==> #[trigger] fillable(nb[i]))) by {
            if forall|i: int| 0 <= i < bs.len() ==> #[trigger] fillable(bs[i]) {
                assert(fillable(bs[src as int]));
                assert(fillable(bs[dst as int]));
                assert forall|i: int| 0 <= i < nb.len() implies #[trigger] fillable(nb[i]) by {
                    assert(fillable(bs[i]));
                    if i == dst as int {
                        assert(nb[i] == d);
                        assert(fillable(d0));
                    } else if i == src as int {
                        assert(nb[i] == s);
                        assert(fillable(s0));
                    } else {
                        assert(nb[i] == nb0[i]);
                        assert(nb0[i].inv());
                    }
                }
            }
        }
        r
    }

    /// The game state this pour applies to
    pub fn get_source_gamestate(&self) -> (r: &G)
        ensures
            *r == self.state(),
    {
        self.source_gamestate
    }

    /// The index of the source bottle
    pub fn get_source_index(&self) -> (r: usize)
        ensures
            r == self.src(),
    {
        self.source_bottle_index
    }

    /// The source bottle
    pub fn get_source(&self) -> (r: &G::BottleT)
        requires
            self.valid(),
        ensures
            *r == self.state().bottles()[self.src()],
    {
        let bottles = self.source_gamestate.get_bottles();
        &bottles[self.source_bottle_index]
    }

    /// The index of the destination bottle
    pub fn get_dest_index(&self) -> (r: usize)
        ensures
            r == self.dst(),
    {
        self.dest_bottle_index
    }

    /// The destination bottle
    pub fn get_dest(&self) -> (r: &G::BottleT)
        requires
            self.valid(),
        ensures
            *r == self.state().bottles()[self.dst()],
    {
        let bottles = self.source_gamestate.get_bottles();
        &bottles[self.dest_bottle_index]
    }
}

/// An iterator over all [ValidPour]s you could apply to a given game state, ordered by source
/// index first and destination index second
pub struct ValidPourIter<'a, G: GameState> {
    source_gamestate: &'a G,
    current_from_index: usize,
    current_to_index: usize,
}

impl<'a, G: GameState> ValidPourIter<'a, G> {
    /// The game state this iterator goes through
    pub closed spec fn state(&self) -> G {
        *self.source_gamestate
    }

    /// The position from which the next pour is searched: source index and destination index
    pub closed spec fn position(&self) -> (int, int) {
        (self.current_from_index as int, self.current_to_index as int)
    }

    /// An iterator over the pours of `source_gamestate`, starting at the first one
    pub fn new(source_gamestate: &'a G) -> (r: Self)
        ensures
            r.state() == *source_gamestate,
            r.position() == (0int, 0int),
    {
        Self { source_gamestate, current_from_index: 0, current_to_index: 0 }
    }

    /// The next possible pour at or after the current position, if any
    pub fn next(&mut self) -> (r: Option<ValidPour<'a, G>>)
        requires
            bottles_inv(old(self).state().bottles()),
        ensures
            final(self).state() == old(self).state(),
            match next_valid_pour(state_view(old(self).state()), old(self).position().0, old(self).position().1) {
                Some((a, b)) => r matches Some(p) && p.valid() && p.state() == old(self).state()
                    && p.src() == a && p.dst() == b && final(self).position() == (a, b + 1),
                None => r is None && final(self).position().0 == old(self).position().0,
            },
    {
        let bottles = self.source_gamestate.get_bottles();
        let n = bottles.len();
        let ghost v = state_view(*self.source_gamestate);
        let ghost start = (self.current_from_index as int, self.current_to_index as int);
        let mut from_index = self.current_from_index;
        while from_index < n
            invariant
                n == v.len(),
                v == state_view(*self.source_gamestate),
                self.source_gamestate == old(self).source_gamestate,
                self.current_from_index == old(self).current_from_index,
                bottles_inv(self.source_gamestate.bottles()),
                start == old(self).position(),
                start.0 <= from_index,
                from_index == start.0 ==> self.current_to_index == start.1,
                from_index > start.0 ==> self.current_to_index == 0,
                next_valid_pour(v, start.0, start.1) == next_valid_pour(
                    v,
                    from_index as int,
                    self.current_to_index as int,
                ),
            decreases n - from_index,
        {
            let mut to_index = self.current_to_index;
            while to_index < n
                invariant
                    n == v.len(),
                    v == state_view(*self.source_gamestate),
                    self.source_gamestate == old(self).source_gamestate,
                    self.current_from_index == old(self).current_from_index,
                    bottles_inv(self.source_gamestate.bottles()),
                    start == old(self).position(),
                    start.0 <= from_index < n,
                    from_index == start.0 ==> self.current_to_index == start.1,
                    from_index > start.0 ==> self.current_to_index == 0,
                    self.current_to_index <= to_index || to_index >= n,
                    next_valid_pour(v, start.0, start.1) == next_valid_pour(
                        v,
                        from_index as int,
                        to_index as int,
                    ),
                decreases n - to_index,
            {
                match ValidPour::try_new(self.source_gamestate, from_index, to_index) {
                    Ok(pour) => {
                        self.current_from_index = from_index;
                        self.current_to_index = to_index + 1;
                        return Some(pour);
                    },
                    Err(_) => {},
                }
                to_index = to_index + 1;
            }
            self.current_to_index = 0;
            from_index = from_index + 1;
        }
        None
    }
}

/// The operation of pouring content from one bottle into another within a hypothetical game
/// state that may or may not yet exist.
///
/// Similar to [ValidPour], but does not hold a reference to a specific game state. It is
/// therefore not guaranteed to be valid, but can be created before the game state it is meant
/// to apply to exists.
#[derive(Debug, Clone, Copy, PartialEq, Eq, Hash, Structural)]
pub struct Pour {
    /// The source bottle's index within a game state
    pub source_bottle_index: usize,
    /// The dest bottle's index within a game state
    pub dest_bottle_index: usize,
}

impl Pour {
    /// Attempt to create a [ValidPour] from this Pour in combination with a game state
    pub fn try_into_valid<'a, G: GameState>(&self, source_gamestate: &'a G) -> (r: Result<ValidPour<'a, G>, PourError>)
        requires
            bottles_inv(source_gamestate.bottles()),
        ensures
            match r {
                Ok(p) => p.valid() && p.state() == *source_gamestate && p.src()
                    == self.source_bottle_index && p.dst() == self.dest_bottle_index,
                Err(e) => pour_check(
                    state_view(*source_gamestate),
                    self.source_bottle_index as int,
                    self.dest_bottle_index as int,
                ) == Err::<(), PourError>(e),
            },
            pour_check(
                state_view(*source_gamestate),
                self.source_bottle_index as int,
                self.dest_bottle_index as int,
            ) is Ok ==> r is Ok,
    {
        ValidPour::try_new(source_gamestate, self.source_bottle_index, self.dest_bottle_index)
    }

    /// Attempt to create a new game state that is the result of applying this Pour to the
    /// given game state
    pub fn try_apply<G: GameState>(&self, source_gamestate: &G) -> (r: Result<G, PourError>)
        requires
            bottles_inv(source_gamestate.bottles()),
            pour_fits_storage(
                source_gamestate.bottles(),
                self.source_bottle_index as int,
                self.dest_bottle_index as int,
            ),
        ensures
            match r {
                Ok(g) => pour_check(
                    state_view(*source_gamestate),
                    self.source_bottle_index as int,
                    self.dest_bottle_index as int,
                ) is Ok && state_view(g) == apply_pour(
                    state_view(*source_gamestate),
                    self.source_bottle_index as int,
                    self.dest_bottle_index as int,
                ) && bottles_inv(g.bottles()) && fillable_kept(source_gamestate.bottles(), g.bottles()),
                Err(e) => pour_check(
                    state_view(*source_gamestate),
                    self.source_bottle_index as int,
                    self.dest_bottle_index as int,
                ) == Err::<(), PourError>(e),
            },
    {
        let valid_pour = match self.try_into_valid(source_gamestate) {
            Ok(p) => p,
            Err(e) => {
                return Err(e);
            },
        };
        Ok(valid_pour.apply())
    }

    /// The pour a [ValidPour] stands for
    pub fn from_valid<G: GameState>(value: &ValidPour<'_, G>) -> (r: Pour)
        ensures
            r.source_bottle_index == value.src(),
            r.dest_bottle_index == value.dst(),
    {
        Pour {
            source_bottle_index: value.get_source_index(),
            dest_bottle_index: value.get_dest_index(),
        }
    }
}

} // verus!
