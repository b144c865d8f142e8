//! What the drawing of a game state shows, cell by cell: each bottle is a column, drawn from
//! the row above the tallest bottle down to the bottom row.
use vstd::prelude::*;

use crate::bottle::{Bottle, BottleSampleResult, sample_of};
use crate::colored_water::ColoredWaterUnit;
use crate::gamestate::{BottleView, GameState, Pour, bottle_view, bottles_view, bottles_wf};
use crate::solution::largest_cap;

verus! {

/// What one cell of the drawing of a game state shows
#[derive(Debug, Clone, Copy, PartialEq, Eq, Structural)]
pub enum DisplayCell {
    /// Nothing is drawn and the cursor stays where it is
    Nothing,
    /// The cursor moves right one column, leaving the cell as it was
    Skip,
    /// The marker above the bottle a pour came from
    From,
    /// The marker above the bottle a pour went to
    To,
    /// A unit of known color
    Known { color: ColoredWaterUnit, selected: bool },
    /// A unit of unknown color
    Unknown { selected: bool },
    /// Room for a unit, with nothing in it
    Empty { selected: bool },
}

/// Whether the cell of bottle `bottle_idx` at `row` is selected: the selection names the bottle,
/// and either no unit or the unit at that row
pub open spec fn cell_selected(selected: Option<(usize, Option<usize>)>, bottle_idx: int, row: int) -> bool {
    match selected {
        Some((b, r)) => b == bottle_idx && match r {
            Some(r) => r == row,
            None => true,
        },
        None => false,
    }
}

/// What the drawing shows for bottle `b`, at index `bottle_idx` of the game state, at `row`:
/// above the bottle, the marker of the pour when the bottle is its source or destination (only
/// the row just above it); inside it, the unit or room there
pub open spec fn display_cell(
    b: BottleView,
    bottle_idx: int,
    row: int,
    selected: Option<(usize, Option<usize>)>,
    pour: Option<Pour>,
) -> DisplayCell {
    let sel = cell_selected(selected, bottle_idx, row);
    if b.0 < row + 1 {
        match pour {
            Some(p) => if b.0 == row {
                if bottle_idx == p.source_bottle_index {
                    DisplayCell::From
                } else if bottle_idx == p.dest_bottle_index {
                    DisplayCell::To
                } else {
                    DisplayCell::Skip
                }
            } else {
                DisplayCell::Nothing
            },
            None => DisplayCell::Skip,
        }
    } else {
        match sample_of(b.1, b.0, row) {
            BottleSampleResult::KnownColor(c) => DisplayCell::Known { color: c, selected: sel },
            BottleSampleResult::UnknownColor => DisplayCell::Unknown { selected: sel },
            BottleSampleResult::Empty => DisplayCell::Empty { selected: sel },
            BottleSampleResult::OutOfBounds => DisplayCell::Skip,
        }
    }
}

/// How many rows the drawing of some bottles has: one above the tallest, plus its height; none
/// when there are no bottles (or the height is the largest `usize`)
pub open spec fn display_row_count(v: Seq<BottleView>) -> nat {
    if v.len() == 0 || largest_cap(v) >= usize::MAX {
        0
    } else {
        largest_cap(v) + 1
    }
}

/// The largest capacity is that of one of the bottles, and no bottle is larger
proof fn lemma_largest_cap(v: Seq<BottleView>)
    ensures
        forall|i: int| 0 <= i < v.len() ==> #[trigger] v[i].0 <= largest_cap(v),
        v.len() > 0 ==> exists|i: int| 0 <= i < v.len() && v[i].0 == largest_cap(v),
    decreases v.len(),
{
    if v.len() > 0 {
        lemma_largest_cap(v.drop_last());
        assert forall|i: int| 0 <= i < v.len() implies #[trigger] v[i].0 <= largest_cap(v) by {
            if i < v.len() - 1 {
                assert(v[i] == v.drop_last()[i]);
            }
        }
        if largest_cap(v.drop_last()) >= v.last().0 && v.len() > 1 {
            let i = choose|i: int| 0 <= i < v.drop_last().len() && v.drop_last()[i].0 == largest_cap(v.drop_last());
            assert(v[i] == v.drop_last()[i]);
        } else {
            assert(v[v.len() - 1] == v.last());
        }
    }
}

/// The cells of the drawing of the bottles `start..end` of a game state, row after row from the
/// top down; within a row, bottle after bottle.
pub fn display_rows<G: GameState>(
    gs: &G,
    start: usize,
    end: usize,
    selected: Option<(usize, Option<usize>)>,
    pour: Option<Pour>,
) -> (r: Vec<Vec<DisplayCell>>)
    requires
        bottles_wf(gs.bottles()),
        start <= end <= gs.bottles().len(),
    ensures
        ({
            let v = bottles_view(gs.bottles());
            let n = display_row_count(v.subrange(start as int, end as int));
            &&& r@.len() == n
            &&& forall|i: int| 0 <= i < n ==> (#[trigger] r@[i])@.len() == end - start
            &&& forall|i: int, j: int|
                0 <= i < n && 0 <= j < end - start ==> (#[trigger] r@[i]@[j]) == display_cell(
                    v[start + j],
                    start + j,
                    n - 1 - i,
                    selected,
                    pour,
                )
        }),
{
    let bottles = gs.get_bottles();
    let ghost v = bottles_view(gs.bottles());
    let ghost range = v.subrange(start as int, end as int);
    // the largest capacity among the bottles of the range
    let mut max_cap: usize = 0;
    let mut k: usize = start;
    proof {
        assert(range.take(0) =~= Seq::<BottleView>::empty());
    }
    while k < end
        invariant
            bottles@ == gs.bottles(),
            v == bottles_view(gs.bottles()),
            bottles_wf(gs.bottles()),
            range == v.subrange(start as int, end as int),
            start <= k <= end <= v.len(),
            max_cap == largest_cap(range.take(k - start)),
        decreases end - k,
    {
        proof {
            assert(bottles@[k as int].inv());
            bottles@[k as int].lemma_inv();
            assert(v[k as int] == bottle_view(bottles@[k as int]));
            assert(range.take(k + 1 - start).drop_last() =~= range.take(k - start));
        }
        let cap = bottles[k].capacity();
        if cap > max_cap {
            max_cap = cap;
        }
        k = k + 1;
    }
    proof {
        assert(range.take(end - start) =~= range);
    }
    let mut rows: Vec<Vec<DisplayCell>> = Vec::new();
    if start == end || max_cap == usize::MAX {
        return rows;
    }
    let row_count = max_cap + 1;
    let mut row = row_count;
    while row > 0
        invariant
            bottles@ == gs.bottles(),
            v == bottles_view(gs.bottles()),
            bottles_wf(gs.bottles()),
            start < end <= v.len(),
            row_count == display_row_count(v.subrange(start as int, end as int)),
            row <= row_count,
            rows@.len() == row_count - row,
            forall|i: int| 0 <= i < rows@.len() ==> (#[trigger] rows@[i])@.len() == end - start,
            forall|i: int, j: int|
                0 <= i < rows@.len() && 0 <= j < end - start ==> (#[trigger] rows@[i]@[j]) == display_cell(
                    v[start + j],
                    start + j,
                    row_count - 1 - i,
                    selected,
                    pour,
                ),
        decreases row,
    {
        row = row - 1;
        let mut cells: Vec<DisplayCell> = Vec::new();
        let mut b: usize = start;
        while b < end
            invariant
                bottles@ == gs.bottles(),
                v == bottles_view(gs.bottles()),
                bottles_wf(gs.bottles()),
                start <= b <= end <= v.len(),
                row < row_count,
                cells@.len() == b - start,
                forall|j: int| 0 <= j < cells@.len() ==> #[trigger] cells@[j] == display_cell(
                    v[start + j],
                    start + j,
                    row as int,
                    selected,
                    pour,
                ),
            decreases end - b,
        {
            let bottle = &bottles[b];
            proof {
                assert(bottles@[b as int].inv());
                bottle.lemma_inv();
                assert(v[b as int] == bottle_view(*bottle));
            }
            let is_selected = match selected {
                Some((sel_b, sel_r)) => sel_b == b && match sel_r {
                    Some(r) => r == row,
                    None => true,
                },
                None => false,
            };
            let cap = bottle.capacity();
            let cell = if cap < row + 1 {
                match pour {
                    Some(p) => if cap == row {
                        if b == p.source_bottle_index {
                            DisplayCell::From
                        } else if b == p.dest_bottle_index {
                            DisplayCell::To
                        } else {
                            DisplayCell::Skip
                        }
                    } else {
                        DisplayCell::Nothing
                    },
                    None => DisplayCell::Skip,
                }
            } else {
                match bottle.sample_at(row) {
                    BottleSampleResult::KnownColor(c) => DisplayCell::Known { color: c, selected: is_selected },
                    BottleSampleResult::UnknownColor => DisplayCell::Unknown { selected: is_selected },
                    BottleSampleResult::Empty => DisplayCell::Empty { selected: is_selected },
                    BottleSampleResult::OutOfBounds => DisplayCell::Skip,
                }
            };
            cells.push(cell);
            b = b + 1;
        }
        rows.push(cells);
    }
    rows
}

/// The ranges of bottle indices `(start, end)` the bottles are drawn in when they are split over
/// `row_count` rows of drawings: each range but the last holds `len / row_count` bottles,
/// rounded up, and the last holds the rest; one row holds every bottle
pub open spec fn row_length(len: nat, row_count: nat) -> nat {
    if row_count <= 1 {
        len
    } else {
        ((len + row_count - 1) / row_count as int) as nat
    }
}

/// Splits `len` bottles into the ranges of the rows they are drawn on: row `k` draws the
/// bottles from `k * row_length` up to the next multiple, or to the last bottle. There is
/// always at least one row.
pub fn row_ranges(len: usize, row_count: usize) -> (r: Vec<(usize, usize)>)
    requires
        row_count > 0,
        len <= usize::MAX / 2,
    ensures
        r@.len() > 0,
        forall|k: int| 0 <= k < r@.len() ==> (#[trigger] r@[k]).0 == k * row_length(len as nat, row_count as nat)
            && r@[k].1 == if (k + 1) * row_length(len as nat, row_count as nat) <= len {
                (k + 1) * row_length(len as nat, row_count as nat)
            } else {
                len as int
            },
        forall|k: int| 0 < k < r@.len() ==> (#[trigger] r@[k]).0 < len,
        r@.last().1 == len,
{
    let length: usize = if row_count == 1 {
        len
    } else {
        len / row_count + if len % row_count == 0 { 0 } else { 1 }
    };
    let ghost rl = row_length(len as nat, row_count as nat);
    proof {
        if row_count > 1 {
            assert(length == rl) by (nonlinear_arith)
                requires
                    row_count > 1,
                    length == len / row_count + if len % row_count == 0 { 0int } else { 1int },
                    rl == ((len + row_count - 1) / row_count as int) as nat,
            {}
            assert(length <= len) by (nonlinear_arith)
                requires
                    row_count > 1,
                    length == len / row_count + if len % row_count == 0 { 0int } else { 1int },
            {}
            assert(len > 0 ==> length >= 1) by (nonlinear_arith)
                requires
                    row_count > 1,
                    length == len / row_count + if len % row_count == 0 { 0int } else { 1int },
            {}
        }
    }
    let mut out: Vec<(usize, usize)> = Vec::new();
    let mut range_start: usize = 0;
    let mut range_end: usize = length;
    proof {
        assert(0 * rl == 0) by (nonlinear_arith);
    }
    loop
        invariant_except_break
            range_start == out@.len() * rl,
            range_end == range_start + rl,
            out@.len() > 0 ==> range_start < len,
        invariant
            length == rl,
            rl <= len <= usize::MAX / 2,
            len > 0 ==> rl >= 1,
            forall|k: int| 0 <= k < out@.len() ==> (#[trigger] out@[k]).0 == k * rl && out@[k].1 == if (k + 1) * rl
                <= len {
                (k + 1) * rl
            } else {
                len as int
            },
            forall|k: int| 0 < k < out@.len() ==> (#[trigger] out@[k]).0 < len,
        ensures
            out@.len() > 0,
            forall|k: int| 0 <= k < out@.len() ==> (#[trigger] out@[k]).0 == k * rl && out@[k].1 == if (k + 1) * rl
                <= len {
                (k + 1) * rl
            } else {
                len as int
            },
            forall|k: int| 0 < k < out@.len() ==> (#[trigger] out@[k]).0 < len,
            out@.last().1 == len,
        decreases len + rl - range_start,
    {
        let end = if range_end <= len { range_end } else { len };
        let ghost k = out@.len();
        proof {
            assert((k + 1) * rl == k * rl + rl) by (nonlinear_arith);
        }
        out.push((range_start, end));
        range_start = range_end;
        proof {
            assert(range_start == out@.len() * rl) by (nonlinear_arith)
                requires
                    range_start == k * rl + rl,
                    out@.len() == k + 1,
            {}
        }
        if range_start < len {
            range_end = range_end + length;
        } else {
            break;
        }
    }
    out
}

} // verus!
