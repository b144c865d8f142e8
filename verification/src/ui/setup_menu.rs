//! The setup menu: entering a game state bottle by bottle, or, for one specific bottle, the
//! colors revealed in it.
use vstd::prelude::*;

use super::keys::{ExitRequest, Key, KeyInput, is_exit_chord, pressed_or_held};
use super::unit_cycle::{cycle_choice, cycle_unit, lemma_choice_some};
use crate::bottle::{Bottle, PartialBottle, units_after_set};
use crate::gamestate::{BottleView, PartialGameState, bottle_view, bottles_view, bottles_wf, lemma_unknown_in_partial, unknown_in};

verus! {

/// Data used for the 'specific bottle' mode of the setup menu
#[derive(Debug, Clone, Copy, PartialEq, Eq, Structural)]
pub struct SpecificBottleData {
    /// The index of the bottle within the game state
    pub bottle_idx: usize,
    /// The number of unknown color units in the specific bottle when the setup menu first
    /// started; used to restrict what units can be edited.
    pub original_unknown_count: usize,
}

/// The cursor position in the setup menu
#[derive(Debug, Clone, Copy, PartialEq, Eq, Structural)]
pub enum SetupCursorState {
    /// User is editing the number of bottles
    Count,
    /// User is editing the capacity of the bottle at index `b_idx`
    Capacity { b_idx: usize },
    /// User is editing the unit at index `c_idx` of the bottle at index `b_idx`
    Content { b_idx: usize, c_idx: usize },
    /// User is hovering over the 'Solve' option
    Solve,
    /// User is hovering over the 'Save' option
    Save,
}

/// What the program around the menu does after a key
#[derive(Debug, Clone, Copy, PartialEq, Eq, Structural)]
pub enum SetupAction {
    /// Keep showing the menu
    Stay,
    /// The game state is confirmed: leave the menu with it
    Confirm,
    /// Run the save menu on the game state, then report where it was saved with
    /// [SetupMenuState::set_saved_path]
    Save,
}

/// What the setup menu shows: the bottles, the cursor, and whether the screen must be cleared
pub type SetupModel = (Seq<BottleView>, SetupCursorState, bool);

/// The cursor is on a unit that may not be edited while a specific bottle is set: another
/// bottle, or a unit at `limit` or above
pub open spec fn blocked(sp: Option<SpecificBottleData>, b_idx: usize, c_idx: usize, limit: int) -> bool {
    sp matches Some(d) && (b_idx != d.bottle_idx || c_idx >= limit)
}

/// The cursor of a specific bottle: its topmost unit of unknown color
pub open spec fn specific_cursor(d: SpecificBottleData) -> SetupCursorState {
    SetupCursorState::Content {
        b_idx: d.bottle_idx,
        c_idx: if d.original_unknown_count > 0 {
            (d.original_unknown_count - 1) as usize
        } else {
            0
        },
    }
}

/// The bottles once the unit at `c` of bottle `b` is cycled forward or backward to the next
/// value that can be set there (see [cycle_choice])
pub open spec fn cycled_content(v: Seq<BottleView>, b: int, c: int, forward: bool, skip_none: bool) -> Seq<
    BottleView,
> {
    let units = v[b].1;
    let k = unknown_in(units);
    let start = if c < units.len() {
        Some(units[c])
    } else {
        None
    };
    v.update(
        b,
        (v[b].0, units_after_set(units, c, cycle_choice(k, (units.len() - k) as nat, v[b].0, c, start, forward, skip_none, 1))),
    )
}

/// Right (without Shift): adds a bottle, selects the next bottle, cycles the selected unit
/// forward, or moves from 'Solve' to 'Save'
pub open spec fn right_step(m: SetupModel, sp: Option<SpecificBottleData>, max_bcount: nat) -> SetupModel {
    let (v, cur, clr) = m;
    match cur {
        SetupCursorState::Count => if sp is None && v.len() < max_bcount {
            (v.push((4, Seq::empty())), cur, true)
        } else {
            m
        },
        SetupCursorState::Capacity { b_idx } => if sp is None && b_idx + 1 < v.len() {
            (v, SetupCursorState::Capacity { b_idx: (b_idx + 1) as usize }, clr)
        } else {
            m
        },
        SetupCursorState::Content { b_idx, c_idx } => if blocked(
            sp,
            b_idx,
            c_idx,
            sp->0.original_unknown_count as int,
        ) {
            m
        } else {
            (cycled_content(v, b_idx as int, c_idx as int, true, sp is Some), cur, clr)
        },
        SetupCursorState::Solve => (v, SetupCursorState::Save, clr),
        SetupCursorState::Save => m,
    }
}

/// Left (without Shift): removes a bottle, selects the previous bottle, cycles the selected
/// unit backward, or moves from 'Save' to 'Solve'
pub open spec fn left_step(m: SetupModel, sp: Option<SpecificBottleData>) -> SetupModel {
    let (v, cur, clr) = m;
    match cur {
        SetupCursorState::Count => if sp is None && v.len() > 0 {
            (v.drop_last(), cur, true)
        } else {
            m
        },
        SetupCursorState::Capacity { b_idx } => if sp is None {
            (v, SetupCursorState::Capacity { b_idx: if b_idx > 0 { (b_idx - 1) as usize } else { 0 } }, clr)
        } else {
            m
        },
        SetupCursorState::Content { b_idx, c_idx } => if blocked(
            sp,
            b_idx,
            c_idx,
            sp->0.original_unknown_count as int,
        ) {
            m
        } else {
            (cycled_content(v, b_idx as int, c_idx as int, false, sp is Some), cur, clr)
        },
        SetupCursorState::Save => (v, SetupCursorState::Solve, clr),
        SetupCursorState::Solve => m,
    }
}

/// The index of a unit to select in bottle `b`: `c`, or just above the top unit if that is lower
pub open spec fn clamp_unit(v: Seq<BottleView>, b: int, c: usize) -> usize {
    if c <= v[b].1.len() {
        c
    } else {
        v[b].1.len() as usize
    }
}

/// Shift+Right: selects the next bottle, keeping the selected unit where it can; otherwise as Right
pub open spec fn shift_right_step(m: SetupModel, sp: Option<SpecificBottleData>, max_bcount: nat) -> SetupModel {
    let (v, cur, clr) = m;
    if sp is Some {
        right_step(m, sp, max_bcount)
    } else {
        match cur {
            SetupCursorState::Capacity { b_idx } => if b_idx + 1 < v.len() {
                (v, SetupCursorState::Capacity { b_idx: (b_idx + 1) as usize }, clr)
            } else {
                m
            },
            SetupCursorState::Content { b_idx, c_idx } => if b_idx + 1 < v.len() {
                (
                    v,
                    SetupCursorState::Content {
                        b_idx: (b_idx + 1) as usize,
                        c_idx: clamp_unit(v, b_idx + 1, c_idx),
                    },
                    clr,
                )
            } else {
                m
            },
            _ => right_step(m, sp, max_bcount),
        }
    }
}

/// Shift+Left: selects the previous bottle, keeping the selected unit where it can; otherwise as Left
pub open spec fn shift_left_step(m: SetupModel, sp: Option<SpecificBottleData>) -> SetupModel {
    let (v, cur, clr) = m;
    if sp is Some {
        left_step(m, sp)
    } else {
        match cur {
            SetupCursorState::Capacity { b_idx } => (
                v,
                SetupCursorState::Capacity { b_idx: if b_idx > 0 { (b_idx - 1) as usize } else { 0 } },
                clr,
            ),
            SetupCursorState::Content { b_idx, c_idx } => {
                let nb: usize = if b_idx > 0 { (b_idx - 1) as usize } else { 0 };
                if nb < v.len() {
                    (v, SetupCursorState::Content { b_idx: nb, c_idx: clamp_unit(v, nb as int, c_idx) }, clr)
                } else {
                    m
                }
            },
            _ => left_step(m, sp),
        }
    }
}

/// Up: adds one to the capacity of the selected bottle, or selects the unit above
pub open spec fn up_step(m: SetupModel, sp: Option<SpecificBottleData>, max_cap: nat) -> SetupModel {
    let (v, cur, clr) = m;
    match cur {
        SetupCursorState::Capacity { b_idx } => if sp is None && b_idx < v.len() && v[b_idx as int].0 + 1
            <= max_cap {
            (v.update(b_idx as int, (v[b_idx as int].0 + 1, v[b_idx as int].1)), cur, true)
        } else {
            m
        },
        SetupCursorState::Content { b_idx, c_idx } => if blocked(
            sp,
            b_idx,
            c_idx,
            sp->0.original_unknown_count - 1,
        ) || b_idx >= v.len() {
            m
        } else if c_idx + 1 < v[b_idx as int].0 && c_idx < v[b_idx as int].1.len() {
            (v, SetupCursorState::Content { b_idx, c_idx: (c_idx + 1) as usize }, clr)
        } else {
            m
        },
        _ => m,
    }
}

/// Down: takes one from the capacity of the selected bottle (keeping at least 1), or selects
/// the unit below
pub open spec fn down_step(m: SetupModel, sp: Option<SpecificBottleData>) -> SetupModel {
    let (v, cur, clr) = m;
    match cur {
        SetupCursorState::Capacity { b_idx } => if sp is None && b_idx < v.len() && v[b_idx as int].0 >= 2 {
            let nc = (v[b_idx as int].0 - 1) as nat;
            let units = v[b_idx as int].1;
            (
                v.update(
                    b_idx as int,
                    (nc, units.take(if units.len() <= nc { units.len() as int } else { nc as int })),
                ),
                cur,
                true,
            )
        } else {
            m
        },
        SetupCursorState::Content { b_idx, c_idx } => if blocked(
            sp,
            b_idx,
            c_idx,
            sp->0.original_unknown_count as int,
        ) {
            m
        } else {
            (v, SetupCursorState::Content { b_idx, c_idx: if c_idx > 0 { (c_idx - 1) as usize } else { 0 } }, clr)
        },
        _ => m,
    }
}

/// Enter: moves on from the bottle count to the capacities, from a capacity to the content,
/// from the content to 'Solve'; on 'Solve' it confirms, on 'Save' it saves
pub open spec fn enter_step(m: SetupModel, sp: Option<SpecificBottleData>) -> (SetupModel, SetupAction) {
    let (v, cur, clr) = m;
    match cur {
        SetupCursorState::Count => if sp is None {
            (
                (v, if v.len() == 0 { SetupCursorState::Solve } else { SetupCursorState::Capacity { b_idx: 0 } }, clr),
                SetupAction::Stay,
            )
        } else {
            (m, SetupAction::Stay)
        },
        SetupCursorState::Capacity { b_idx } => if sp is None {
            ((v, SetupCursorState::Content { b_idx, c_idx: 0 }, clr), SetupAction::Stay)
        } else {
            (m, SetupAction::Stay)
        },
        SetupCursorState::Content { .. } => ((v, SetupCursorState::Solve, clr), SetupAction::Stay),
        SetupCursorState::Solve => (m, SetupAction::Confirm),
        SetupCursorState::Save => (m, SetupAction::Save),
    }
}

/// Esc: goes back a level; on the bottle count it asks to leave the program
pub open spec fn esc_step(m: SetupModel, sp: Option<SpecificBottleData>) -> (SetupModel, Result<SetupAction, ExitRequest>) {
    let (v, cur, clr) = m;
    match cur {
        SetupCursorState::Count => if sp is None {
            (m, Err(ExitRequest))
        } else {
            (m, Ok(SetupAction::Stay))
        },
        SetupCursorState::Capacity { .. } => if sp is None {
            ((v, SetupCursorState::Count, clr), Ok(SetupAction::Stay))
        } else {
            (m, Ok(SetupAction::Stay))
        },
        SetupCursorState::Content { b_idx, .. } => if sp is None {
            ((v, SetupCursorState::Capacity { b_idx }, clr), Ok(SetupAction::Stay))
        } else {
            (m, Ok(SetupAction::Stay))
        },
        SetupCursorState::Solve => (
            (
                v,
                match sp {
                    Some(d) => specific_cursor(d),
                    None => if v.len() == 0 {
                        SetupCursorState::Count
                    } else {
                        SetupCursorState::Content { b_idx: 0, c_idx: 0 }
                    },
                },
                clr,
            ),
            Ok(SetupAction::Stay),
        ),
        SetupCursorState::Save => (m, Ok(SetupAction::Stay)),
    }
}

/// What a key other than Control+C does to the setup menu, before the cursor is brought back
/// to the specific bottle
pub open spec fn setup_key_step(
    m: SetupModel,
    sp: Option<SpecificBottleData>,
    key: KeyInput,
    max_bcount: nat,
    max_cap: nat,
) -> (SetupModel, Result<SetupAction, ExitRequest>) {
    if !pressed_or_held(key) {
        (m, Ok(SetupAction::Stay))
    } else {
        match key.key {
            Key::Right => (
                if key.shift {
                    shift_right_step(m, sp, max_bcount)
                } else {
                    right_step(m, sp, max_bcount)
                },
                Ok(SetupAction::Stay),
            ),
            Key::Left => (
                if key.shift {
                    shift_left_step(m, sp)
                } else {
                    left_step(m, sp)
                },
                Ok(SetupAction::Stay),
            ),
            Key::Up => (up_step(m, sp, max_cap), Ok(SetupAction::Stay)),
            Key::Down => (down_step(m, sp), Ok(SetupAction::Stay)),
            Key::Enter => {
                let (m2, a) = enter_step(m, sp);
                (m2, Ok(a))
            },
            Key::Esc => esc_step(m, sp),
            _ => (m, Ok(SetupAction::Stay)),
        }
    }
}

/// On the bottle count, with no specific bottle set, Right adds a bottle of capacity 4 at the
/// end (while there is room for one) and Left removes the last bottle, keeping the others as
/// they were; so Left right after Right gives back the bottles there were.
pub proof fn lemma_count_right_left(
    m: SetupModel,
    left: KeyInput,
    right: KeyInput,
    max_bcount: nat,
    max_cap: nat,
)
    requires
        m.1 == SetupCursorState::Count,
        pressed_or_held(left),
        left.key == Key::Left,
        !left.shift,
        pressed_or_held(right),
        right.key == Key::Right,
        !right.shift,
    ensures
        m.0.len() > 0 ==> setup_key_step(m, None, left, max_bcount, max_cap).0.0 == m.0.take(m.0.len() - 1),
        m.0.len() > 0 ==> setup_key_step(m, None, left, max_bcount, max_cap).0.1 == SetupCursorState::Count,
        m.0.len() < max_bcount ==> setup_key_step(m, None, right, max_bcount, max_cap).0.0 == m.0.push(
            (4, Seq::empty()),
        ),
        m.0.len() < max_bcount ==> setup_key_step(
            setup_key_step(m, None, right, max_bcount, max_cap).0,
            None,
            left,
            max_bcount,
            max_cap,
        ).0.0 == m.0,
{
    assert(m.0.drop_last() =~= m.0.take(m.0.len() - 1));
    assert(m.0.push((4, Seq::empty())).drop_last() =~= m.0);
}

/// Whether a key adds a bottle (of capacity 4) to the game state being set up: Right, with or
/// without Shift, on the bottle count when no specific bottle is set
pub open spec fn adds_bottle(cur: SetupCursorState, sp: Option<SpecificBottleData>, key: KeyInput) -> bool {
    &&& pressed_or_held(key)
    &&& !is_exit_chord(key)
    &&& key.key == Key::Right
    &&& cur == SetupCursorState::Count
    &&& sp is None
}

/// With a specific bottle set, a cursor anywhere but on its editable units is brought back to
/// its topmost unit of unknown color
pub open spec fn fix_cursor(cur: SetupCursorState, sp: Option<SpecificBottleData>) -> SetupCursorState {
    match sp {
        Some(d) => match cur {
            SetupCursorState::Capacity { .. } | SetupCursorState::Count => specific_cursor(d),
            SetupCursorState::Content { b_idx, c_idx } => if b_idx != d.bottle_idx || c_idx
                >= d.original_unknown_count {
                specific_cursor(d)
            } else {
                cur
            },
            _ => cur,
        },
        None => cur,
    }
}

/// The state of the setup menu
pub struct SetupMenuState<const MAX_BCOUNT: usize, const B_MAX_CAP: usize> {
    pub gs: PartialGameState<MAX_BCOUNT, B_MAX_CAP>,
    c_state: SetupCursorState,
    file_saved_path: Option<String>,
    specific_bottle_data: Option<SpecificBottleData>,
    needs_screen_clear: bool,
}

impl<const MAX_BCOUNT: usize, const B_MAX_CAP: usize> SetupMenuState<MAX_BCOUNT, B_MAX_CAP> {
    /// The game state being set up
    pub closed spec fn state(&self) -> PartialGameState<MAX_BCOUNT, B_MAX_CAP> {
        self.gs
    }

    /// The cursor position
    pub closed spec fn cursor(&self) -> SetupCursorState {
        self.c_state
    }

    /// The specific bottle being edited, if any
    pub closed spec fn specific(&self) -> Option<SpecificBottleData> {
        self.specific_bottle_data
    }

    /// Where the game state was last saved, shown until the next key press
    pub closed spec fn saved_path(&self) -> Option<Seq<char>> {
        match self.file_saved_path {
            Some(p) => Some(p@),
            None => None,
        }
    }

    /// Whether the screen must be cleared before the menu is drawn again
    pub closed spec fn needs_clear(&self) -> bool {
        self.needs_screen_clear
    }

    /// What the menu shows
    pub open spec fn model(&self) -> SetupModel {
        (bottles_view(self.state().bottles@), self.cursor(), self.needs_clear())
    }

    /// The bottles are well formed and fit the game state, the cursor points into them, and a
    /// specific bottle, if set, still holds the units that can be edited
    pub open spec fn wf(&self) -> bool {
        let v = bottles_view(self.state().bottles@);
        &&& bottles_wf(self.state().bottles@)
        &&& v.len() <= MAX_BCOUNT
        &&& self.cursor() matches SetupCursorState::Capacity { b_idx } ==> b_idx < v.len()
        &&& self.cursor() matches SetupCursorState::Content { b_idx, c_idx } ==> b_idx < v.len() && c_idx
            <= v[b_idx as int].1.len()
        &&& self.specific() matches Some(d) ==> d.bottle_idx < v.len() && 0 < d.original_unknown_count
            <= v[d.bottle_idx as int].1.len()
    }

    /// A setup menu for `initial_gamestate` (an empty game state if there is none).
    ///
    /// With a specific bottle index that points to a bottle of the game state with units of
    /// unknown color, the menu only lets the user set the colors of those units, starting with
    /// the topmost one. Otherwise the cursor starts on 'Solve' when a game state is given, and on
    /// the number of bottles when none is.
    pub fn new(
        initial_gamestate: Option<PartialGameState<MAX_BCOUNT, B_MAX_CAP>>,
        specific_bottle_idx: Option<usize>,
    ) -> (r: Self)
        requires
            initial_gamestate matches Some(g) ==> bottles_wf(g.bottles@) && g.bottles@.len() <= MAX_BCOUNT,
        ensures
            r.wf(),
            r.saved_path() is None,
            r.needs_clear(),
            match initial_gamestate {
                Some(g) => bottles_view(r.state().bottles@) == bottles_view(g.bottles@) && (match specific_bottle_idx {
                    Some(i) if i < g.bottles@.len() && g.bottles@[i as int].unknown_v() > 0 => r.specific()
                        == Some(
                        SpecificBottleData {
                            bottle_idx: i,
                            original_unknown_count: g.bottles@[i as int].unknown_v() as usize,
                        },
                    ) && r.cursor() == specific_cursor(r.specific()->0),
                    _ => r.specific() is None && r.cursor() == SetupCursorState::Solve,
                }),
                None => r.state().bottles@.len() == 0 && r.specific() is None && r.cursor() == SetupCursorState::Count,
            },
    {
        let specific_bottle_data = match (&initial_gamestate, specific_bottle_idx) {
            (Some(gs), Some(idx)) => {
                if idx < gs.bottles.len() {
                    let count = gs.bottles[idx].get_unknown_count();
                    if count > 0 {
                        Some(SpecificBottleData { bottle_idx: idx, original_unknown_count: count })
                    } else {
                        None
                    }
                } else {
                    None
                }
            },
            _ => None,
        };
        let c_state = match &specific_bottle_data {
            Some(d) => SetupCursorState::Content { b_idx: d.bottle_idx, c_idx: d.original_unknown_count - 1 },
            None => if initial_gamestate.is_some() {
                SetupCursorState::Solve
            } else {
                SetupCursorState::Count
            },
        };
        let gs = match initial_gamestate {
            Some(g) => g,
            None => PartialGameState { bottles: Vec::new() },
        };
        proof {
            if let Some(d) = specific_bottle_data {
                let b = gs.bottles@[d.bottle_idx as int];
                assert(b.inv());
                b.lemma_units();
                assert(bottles_view(gs.bottles@)[d.bottle_idx as int] == bottle_view(b));
            }
        }
        SetupMenuState { gs, c_state, file_saved_path: None, specific_bottle_data, needs_screen_clear: true }
    }

    /// The cursor position
    pub fn cursor_state(&self) -> (r: SetupCursorState)
        ensures
            r == self.cursor(),
    {
        self.c_state
    }

    /// Whether a specific bottle is being edited
    pub fn has_specific_bottle(&self) -> (r: bool)
        ensures
            r == self.specific() is Some,
    {
        self.specific_bottle_data.is_some()
    }

    /// Where the game state was last saved, if it was saved since the last key press
    pub fn file_saved_path(&self) -> (r: &Option<String>)
        ensures
            match *r {
                Some(p) => self.saved_path() == Some(p@),
                None => self.saved_path() is None,
            },
    {
        &self.file_saved_path
    }

    /// Whether the screen must be cleared before the menu is drawn again; the flag is reset,
    /// so a second call in a row answers `false`
    pub fn take_needs_screen_clear(&mut self) -> (r: bool)
        ensures
            r == old(self).needs_clear(),
            !final(self).needs_clear(),
            final(self).state() == old(self).state(),
            final(self).cursor() == old(self).cursor(),
            final(self).specific() == old(self).specific(),
            final(self).saved_path() == old(self).saved_path(),
    {
        let r = self.needs_screen_clear;
        self.needs_screen_clear = false;
        r
    }

    /// Records where the save menu saved the game state ([None] when it was left without
    /// saving); the screen is to be cleared
    pub fn set_saved_path(&mut self, path: Option<String>)
        ensures
            final(self).saved_path() == (match path {
                Some(p) => Some(p@),
                None => None,
            }),
            final(self).needs_clear(),
            final(self).state() == old(self).state(),
            final(self).cursor() == old(self).cursor(),
            final(self).specific() == old(self).specific(),
    {
        self.file_saved_path = path;
        self.needs_screen_clear = true;
    }

    /// Handles Right without Shift
    fn handle_cursor_right(&mut self)
        requires
            old(self).wf(),
            B_MAX_CAP >= 4 || !(old(self).cursor() == SetupCursorState::Count && old(self).specific() is None),
        ensures
            final(self).wf(),
            final(self).model() == right_step(old(self).model(), old(self).specific(), MAX_BCOUNT as nat),
            final(self).specific() == old(self).specific(),
            final(self).saved_path() == old(self).saved_path(),
    {
        let ghost v = bottles_view(self.gs.bottles@);
        match self.c_state {
            SetupCursorState::Count => {
                if self.specific_bottle_data.is_none() && self.gs.bottles.len() < MAX_BCOUNT {
                    match PartialBottle::try_new(4, 0) {
                        Ok(b) => {
                            proof {
                                b.lemma_units();
                                assert(b.units() =~= Seq::<crate::colored_water::PartialColoredWaterUnit>::empty());
                            }
                            self.gs.bottles.push(b);
                            self.needs_screen_clear = true;
                            proof {
                                assert(bottles_view(self.gs.bottles@) =~= v.push((4, Seq::empty())));
                            }
                        },
                        Err(_) => {
                            assert(false);
                        },
                    }
                }
            },
            SetupCursorState::Capacity { b_idx } => {
                if self.specific_bottle_data.is_none() && b_idx + 1 < self.gs.bottles.len() {
                    self.c_state = SetupCursorState::Capacity { b_idx: b_idx + 1 };
                }
            },
            SetupCursorState::Content { b_idx, c_idx } => {
                let is_blocked = match &self.specific_bottle_data {
                    Some(d) => b_idx != d.bottle_idx || c_idx >= d.original_unknown_count,
                    None => false,
                };
                if !is_blocked {
                    self.cycle_selected(b_idx, c_idx, true);
                }
            },
            SetupCursorState::Solve => {
                self.c_state = SetupCursorState::Save;
            },
            SetupCursorState::Save => {},
        }
    }

    /// Handles Left without Shift
    fn handle_cursor_left(&mut self)
        requires
            old(self).wf(),
        ensures
            final(self).wf(),
            final(self).model() == left_step(old(self).model(), old(self).specific()),
            final(self).specific() == old(self).specific(),
            final(self).saved_path() == old(self).saved_path(),
    {
        let ghost v = bottles_view(self.gs.bottles@);
        match self.c_state {
            SetupCursorState::Count => {
                if self.specific_bottle_data.is_none() && self.gs.bottles.len() > 0 {
                    self.gs.bottles.pop();
                    self.needs_screen_clear = true;
                    proof {
                        assert(bottles_view(self.gs.bottles@) =~= v.drop_last());
                    }
                }
            },
            SetupCursorState::Capacity { b_idx } => {
                if self.specific_bottle_data.is_none() {
                    self.c_state = SetupCursorState::Capacity { b_idx: if b_idx > 0 { b_idx - 1 } else { 0 } };
                }
            },
            SetupCursorState::Content { b_idx, c_idx } => {
                let is_blocked = match &self.specific_bottle_data {
                    Some(d) => b_idx != d.bottle_idx || c_idx >= d.original_unknown_count,
                    None => false,
                };
                if !is_blocked {
                    self.cycle_selected(b_idx, c_idx, false);
                }
            },
            SetupCursorState::Save => {
                self.c_state = SetupCursorState::Solve;
            },
            SetupCursorState::Solve => {},
        }
    }

    /// The index just above the top unit of bottle `b_idx`
    fn unit_count(&self, b_idx: usize) -> (r: usize)
        requires
            self.wf(),
            b_idx < self.state().bottles@.len(),
        ensures
            r == bottles_view(self.state().bottles@)[b_idx as int].1.len(),
    {
        let bottle = &self.gs.bottles[b_idx];
        proof {
            assert(self.gs.bottles@[b_idx as int].inv());
            bottle.lemma_inv();
            assert(bottles_view(self.gs.bottles@)[b_idx as int] == bottle_view(*bottle));
        }
        match bottle.get_top_content_idx() {
            Some(i) => i + 1,
            None => 0,
        }
    }

    /// Handles Right with Shift
    fn handle_cursor_shift_right(&mut self)
        requires
            old(self).wf(),
            B_MAX_CAP >= 4 || !(old(self).cursor() == SetupCursorState::Count && old(self).specific() is None),
        ensures
            final(self).wf(),
            final(self).model() == shift_right_step(old(self).model(), old(self).specific(), MAX_BCOUNT as nat),
            final(self).specific() == old(self).specific(),
            final(self).saved_path() == old(self).saved_path(),
    {
        if self.specific_bottle_data.is_some() {
            self.handle_cursor_right();
            return;
        }
        match self.c_state {
            SetupCursorState::Capacity { b_idx } => {
                if b_idx + 1 < self.gs.bottles.len() {
                    self.c_state = SetupCursorState::Capacity { b_idx: b_idx + 1 };
                }
            },
            SetupCursorState::Content { b_idx, c_idx } => {
                if b_idx + 1 < self.gs.bottles.len() {
                    let top = self.unit_count(b_idx + 1);
                    let new_c_idx = if c_idx <= top { c_idx } else { top };
                    self.c_state = SetupCursorState::Content { b_idx: b_idx + 1, c_idx: new_c_idx };
                }
            },
            _ => {
                self.handle_cursor_right();
            },
        }
    }

    /// Handles Left with Shift
    fn handle_cursor_shift_left(&mut self)
        requires
            old(self).wf(),
        ensures
            final(self).wf(),
            final(self).model() == shift_left_step(old(self).model(), old(self).specific()),
            final(self).specific() == old(self).specific(),
            final(self).saved_path() == old(self).saved_path(),
    {
        if self.specific_bottle_data.is_some() {
            self.handle_cursor_left();
            return;
        }
        match self.c_state {
            SetupCursorState::Capacity { b_idx } => {
                self.c_state = SetupCursorState::Capacity { b_idx: if b_idx > 0 { b_idx - 1 } else { 0 } };
            },
            SetupCursorState::Content { b_idx, c_idx } => {
                let new_b_idx = if b_idx > 0 { b_idx - 1 } else { 0 };
                if new_b_idx < self.gs.bottles.len() {
                    let top = self.unit_count(new_b_idx);
                    let new_c_idx = if c_idx <= top { c_idx } else { top };
                    self.c_state = SetupCursorState::Content { b_idx: new_b_idx, c_idx: new_c_idx };
                }
            },
            _ => {
                self.handle_cursor_left();
            },
        }
    }

    /// Handles Up
    fn handle_cursor_up(&mut self)
        requires
            old(self).wf(),
        ensures
            final(self).wf(),
            final(self).model() == up_step(old(self).model(), old(self).specific(), B_MAX_CAP as nat),
            final(self).specific() == old(self).specific(),
            final(self).saved_path() == old(self).saved_path(),
    {
        let ghost v = bottles_view(self.gs.bottles@);
        let ghost bs = self.gs.bottles@;
        assert(bottles_wf(bs));
        match self.c_state {
            SetupCursorState::Capacity { b_idx } => {
                if self.specific_bottle_data.is_none() && b_idx < self.gs.bottles.len() {
                    proof {
                        assert(0 <= b_idx < bs.len());
                        assert(bs == self.gs.bottles@);
                        assert(bs[b_idx as int].inv());
                        assert(crate::bottle::fillable(bs[b_idx as int]));
                        bs[b_idx as int].lemma_inv();
                        assert(v[b_idx as int] == bottle_view(bs[b_idx as int]));
                        bs[b_idx as int].lemma_units();
                    }
                    let cap = self.gs.bottles[b_idx].get_capacity();
                    if cap < B_MAX_CAP {
                        let r = self.gs.bottles[b_idx].resize_in_place(cap + 1);
                        self.needs_screen_clear = true;
                        proof {
                            let nb = self.gs.bottles@[b_idx as int];
                            assert(self.gs.bottles@ == bs.update(b_idx as int, nb));
                            assert(nb.units() =~= bs[b_idx as int].units());
                            assert(bottles_view(self.gs.bottles@) =~= v.update(
                                b_idx as int,
                                (v[b_idx as int].0 + 1, v[b_idx as int].1),
                            ));
                            assert forall|i: int| 0 <= i < self.gs.bottles@.len() implies #[trigger] self.gs.bottles@[i].inv()
                                && crate::bottle::fillable(self.gs.bottles@[i]) by {
                                if i != b_idx {
                                    assert(self.gs.bottles@[i] == bs[i]);
                                }
                            }
                        }
                    }
                }
            },
            SetupCursorState::Content { b_idx, c_idx } => {
                let is_blocked = match &self.specific_bottle_data {
                    Some(d) => b_idx != d.bottle_idx || c_idx >= (if d.original_unknown_count > 0 {
                        d.original_unknown_count - 1
                    } else {
                        0
                    }),
                    None => false,
                };
                if !is_blocked && b_idx < self.gs.bottles.len() {
                    proof {
                        assert(bs[b_idx as int].inv());
                        assert(crate::bottle::fillable(bs[b_idx as int]));
                        bs[b_idx as int].lemma_inv();
                        assert(v[b_idx as int] == bottle_view(bs[b_idx as int]));
                        bs[b_idx as int].lemma_units();
                        bs[b_idx as int].lemma_wf();
                    }
                    let cap = self.gs.bottles[b_idx].get_capacity();
                    let top = self.unit_count(b_idx);
                    if c_idx < top && c_idx + 1 < cap {
                        self.c_state = SetupCursorState::Content { b_idx, c_idx: c_idx + 1 };
                    }
                }
            },
            _ => {},
        }
    }

    /// Handles Down
    fn handle_cursor_down(&mut self)
        requires
            old(self).wf(),
        ensures
            final(self).wf(),
            final(self).model() == down_step(old(self).model(), old(self).specific()),
            final(self).specific() == old(self).specific(),
            final(self).saved_path() == old(self).saved_path(),
    {
        let ghost v = bottles_view(self.gs.bottles@);
        let ghost bs = self.gs.bottles@;
        assert(bottles_wf(bs));
        match self.c_state {
            SetupCursorState::Capacity { b_idx } => {
                if self.specific_bottle_data.is_none() && b_idx < self.gs.bottles.len() {
                    proof {
                        assert(bs[b_idx as int].inv());
                        assert(crate::bottle::fillable(bs[b_idx as int]));
                        bs[b_idx as int].lemma_inv();
                        assert(v[b_idx as int] == bottle_view(bs[b_idx as int]));
                        bs[b_idx as int].lemma_units();
                    }
                    let cap = self.gs.bottles[b_idx].get_capacity();
                    let new_capacity = if cap > 0 { cap - 1 } else { 0 };
                    if new_capacity >= 1 {
                        let r = self.gs.bottles[b_idx].resize_in_place(new_capacity);
                        self.needs_screen_clear = true;
                        proof {
                            let nb = self.gs.bottles@[b_idx as int];
                            assert(self.gs.bottles@ == bs.update(b_idx as int, nb));
                            assert(bottles_view(self.gs.bottles@) =~= down_step(
                                (v, self.c_state, old(self).needs_clear()),
                                None,
                            ).0);
                            assert forall|i: int| 0 <= i < self.gs.bottles@.len() implies #[trigger] self.gs.bottles@[i].inv()
                                && crate::bottle::fillable(self.gs.bottles@[i]) by {
                                if i != b_idx {
                                    assert(self.gs.bottles@[i] == bs[i]);
                                }
                            }
                        }
                    }
                }
            },
            SetupCursorState::Content { b_idx, c_idx } => {
                let is_blocked = match &self.specific_bottle_data {
                    Some(d) => b_idx != d.bottle_idx || c_idx >= d.original_unknown_count,
                    None => false,
                };
                if !is_blocked {
                    self.c_state = SetupCursorState::Content { b_idx, c_idx: if c_idx > 0 { c_idx - 1 } else { 0 } };
                }
            },
            _ => {},
        }
    }

    /// Handles Enter
    fn handle_enter(&mut self) -> (r: SetupAction)
        requires
            old(self).wf(),
        ensures
            final(self).wf(),
            (final(self).model(), r) == enter_step(old(self).model(), old(self).specific()),
            final(self).specific() == old(self).specific(),
            final(self).saved_path() == old(self).saved_path(),
    {
        match self.c_state {
            SetupCursorState::Count => {
                if self.specific_bottle_data.is_none() {
                    self.c_state = if self.gs.bottles.len() == 0 {
                        SetupCursorState::Solve
                    } else {
                        SetupCursorState::Capacity { b_idx: 0 }
                    };
                }
                SetupAction::Stay
            },
            SetupCursorState::Capacity { b_idx } => {
                if self.specific_bottle_data.is_none() {
                    self.c_state = SetupCursorState::Content { b_idx, c_idx: 0 };
                }
                SetupAction::Stay
            },
            SetupCursorState::Content { .. } => {
                self.c_state = SetupCursorState::Solve;
                SetupAction::Stay
            },
            SetupCursorState::Solve => SetupAction::Confirm,
            SetupCursorState::Save => SetupAction::Save,
        }
    }

    /// Handles Esc
    fn handle_esc(&mut self) -> (r: Result<SetupAction, ExitRequest>)
        requires
            old(self).wf(),
        ensures
            final(self).wf(),
            (final(self).model(), r) == esc_step(old(self).model(), old(self).specific()),
            final(self).specific() == old(self).specific(),
            final(self).saved_path() == old(self).saved_path(),
    {
        match self.c_state {
            SetupCursorState::Count => {
                if self.specific_bottle_data.is_none() {
                    return Err(ExitRequest);
                }
            },
            SetupCursorState::Capacity { .. } => {
                if self.specific_bottle_data.is_none() {
                    self.c_state = SetupCursorState::Count;
                }
            },
            SetupCursorState::Content { b_idx, .. } => {
                if self.specific_bottle_data.is_none() {
                    self.c_state = SetupCursorState::Capacity { b_idx };
                }
            },
            SetupCursorState::Solve => {
                self.c_state = match &self.specific_bottle_data {
                    Some(d) => SetupCursorState::Content {
                        b_idx: d.bottle_idx,
                        c_idx: if d.original_unknown_count > 0 { d.original_unknown_count - 1 } else { 0 },
                    },
                    None => if self.gs.bottles.len() == 0 {
                        SetupCursorState::Count
                    } else {
                        SetupCursorState::Content { b_idx: 0, c_idx: 0 }
                    },
                };
            },
            SetupCursorState::Save => {},
        }
        Ok(SetupAction::Stay)
    }

    /// Handles a key event.
    ///
    /// Any key going down first hides the path the game state was last saved to. Control+C asks
    /// to leave the program. Otherwise the arrows, Enter and Esc act as [setup_key_step] says,
    /// and with a specific bottle set the cursor is then brought back to its editable units.
    pub fn handle_key(&mut self, key: KeyInput) -> (r: Result<SetupAction, ExitRequest>)
        requires
            old(self).wf(),
            B_MAX_CAP >= 4 || !adds_bottle(old(self).cursor(), old(self).specific(), key),
        ensures
            final(self).wf(),
            final(self).specific() == old(self).specific(),
            ({
                let cleared = key.kind == super::keys::KeyKind::Press && old(self).saved_path() is Some;
                let m0 = (old(self).model().0, old(self).model().1, old(self).model().2 || cleared);
                let (m1, res) = setup_key_step(m0, old(self).specific(), key, MAX_BCOUNT as nat, B_MAX_CAP as nat);
                &&& final(self).saved_path() == if cleared {
                    None
                } else {
                    old(self).saved_path()
                }
                &&& if is_exit_chord(key) {
                    r == Err::<SetupAction, _>(ExitRequest) && final(self).model() == m0
                } else {
                    r == res && final(self).model() == (m1.0, fix_cursor(m1.1, old(self).specific()), m1.2)
                }
            }),
    {
        if key.kind == super::keys::KeyKind::Press && self.file_saved_path.is_some() {
            self.file_saved_path = None;
            self.needs_screen_clear = true;
        }
        if key.is_exit_chord() {
            return Err(ExitRequest);
        }
        let retval = if key.pressed_or_held() {
            match key.key {
                Key::Right => {
                    if key.shift {
                        self.handle_cursor_shift_right();
                    } else {
                        self.handle_cursor_right();
                    }
                    Ok(SetupAction::Stay)
                },
                Key::Left => {
                    if key.shift {
                        self.handle_cursor_shift_left();
                    } else {
                        self.handle_cursor_left();
                    }
                    Ok(SetupAction::Stay)
                },
                Key::Up => {
                    self.handle_cursor_up();
                    Ok(SetupAction::Stay)
                },
                Key::Down => {
                    self.handle_cursor_down();
                    Ok(SetupAction::Stay)
                },
                Key::Enter => Ok(self.handle_enter()),
                Key::Esc => self.handle_esc(),
                _ => Ok(SetupAction::Stay),
            }
        } else {
            Ok(SetupAction::Stay)
        };
        if let Some(d) = &self.specific_bottle_data {
            let reset = match self.c_state {
                SetupCursorState::Capacity { .. } | SetupCursorState::Count => true,
                SetupCursorState::Content { b_idx, c_idx } => b_idx != d.bottle_idx || c_idx
                    >= d.original_unknown_count,
                _ => false,
            };
            if reset {
                self.c_state = SetupCursorState::Content {
                    b_idx: d.bottle_idx,
                    c_idx: if d.original_unknown_count > 0 { d.original_unknown_count - 1 } else { 0 },
                };
            }
        }
        retval
    }

    /// Cycles the unit under a content cursor forward or backward, unless it may not be edited
    fn cycle_selected(&mut self, b_idx: usize, c_idx: usize, forward: bool)
        requires
            old(self).wf(),
            old(self).cursor() == (SetupCursorState::Content { b_idx, c_idx }),
            !blocked(old(self).specific(), b_idx, c_idx, old(self).specific()->0.original_unknown_count as int),
        ensures
            final(self).wf(),
            final(self).model() == (
                cycled_content(old(self).model().0, b_idx as int, c_idx as int, forward, old(self).specific() is Some),
                old(self).cursor(),
                old(self).needs_clear(),
            ),
            final(self).specific() == old(self).specific(),
            final(self).saved_path() == old(self).saved_path(),
    {
        let ghost v = bottles_view(self.gs.bottles@);
        let ghost bs = self.gs.bottles@;
        let skip_none = self.specific_bottle_data.is_some();
        proof {
            assert(bs[b_idx as int].inv() && crate::bottle::fillable(bs[b_idx as int]));
            assert(v[b_idx as int] == bottle_view(bs[b_idx as int]));
            bs[b_idx as int].lemma_units();
            lemma_unknown_in_partial(bs[b_idx as int].unknown_v(), bs[b_idx as int].known_v());
        }
        cycle_unit(&mut self.gs.bottles[b_idx], c_idx, forward, skip_none);
        proof {
            let nb = self.gs.bottles@[b_idx as int];
            assert(self.gs.bottles@ == bs.update(b_idx as int, nb));
            assert(bottles_view(self.gs.bottles@) =~= cycled_content(v, b_idx as int, c_idx as int, forward, skip_none));
            assert forall|i: int| 0 <= i < self.gs.bottles@.len() implies #[trigger] self.gs.bottles@[i].inv()
                && crate::bottle::fillable(self.gs.bottles@[i]) by {
                if i != b_idx {
                    assert(self.gs.bottles@[i] == bs[i]);
                }
            }
            nb.lemma_units();
            let units = v[b_idx as int].1;
            let k = unknown_in(units);
            let start = if c_idx < units.len() { Some(units[c_idx as int]) } else { None };
            if skip_none {
                lemma_choice_some(k, (units.len() - k) as nat, v[b_idx as int].0, c_idx as int, start, forward, 1);
            }
        }
    }
}

} // verus!
