//! The plant grid: a row-major toroidal byte grid of `W x H` cells.

use vstd::prelude::*;

use crate::config::{H, N_CELLS, SCALE, W};
use crate::geom::Pos;
use crate::util::wrap_i;

verus! {

/// Index of the cell at column `x`, row `y`, both taken modulo the grid size.
pub open spec fn cell_at(x: int, y: int) -> int {
    (y % (H as int)) * (W as int) + x % (W as int)
}

/// Index of the cell that holds the point `p`.
pub open spec fn cell_of(p: Pos) -> int {
    cell_at(p.x as int / (SCALE as int), p.y as int / (SCALE as int))
}

/// `cell_at` always names a cell of the grid.
pub proof fn lemma_cell_at_bounds(x: int, y: int)
    ensures
        0 <= cell_at(x, y) < N_CELLS,
{
    let a = y % (H as int);
    let b = x % (W as int);
    assert(0 <= a < H && 0 <= b < W);
    assert(a * W + b < N_CELLS) by (nonlinear_arith)
        requires
            0 <= a < H,
            0 <= b < W,
    ;
    assert(a * W + b >= 0) by (nonlinear_arith)
        requires
            0 <= a,
            0 <= b,
    ;
}

/// Index of the cell at column `x`, row `y`, wrapped onto the grid.
pub fn cell_index(x: i32, y: i32) -> (r: usize)
    ensures
        r == cell_at(x as int, y as int),
        r < N_CELLS,
{
    let xx = wrap_i(x, W);
    let yy = wrap_i(y, H);
    proof {
        lemma_cell_at_bounds(x as int, y as int);
    }
    (yy * W + xx) as usize
}

/// Index of the cell that holds `p`.
pub fn cell_index_of(p: Pos) -> (r: usize)
    requires
        p.valid(),
    ensures
        r == cell_of(p),
        r < N_CELLS,
{
    cell_index(p.x / SCALE, p.y / SCALE)
}

/// Column offset of neighbour number `t` of the 5 x 5 block, scanned row by row.
pub open spec fn off_x(t: int) -> int {
    t % 5 - 2
}

/// Row offset of neighbour number `t` of the 5 x 5 block, scanned row by row.
pub open spec fn off_y(t: int) -> int {
    t / 5 - 2
}

/// Attraction of neighbour `t` of the cell holding `p`: its plant value less six
/// times its squared distance.
pub open spec fn plant_score(plants: Seq<u8>, p: Pos, t: int) -> int {
    let cx = p.x as int / (SCALE as int);
    let cy = p.y as int / (SCALE as int);
    plants[cell_at(cx + off_x(t), cy + off_y(t))] as int - 6 * (off_x(t) * off_x(t) + off_y(t)
        * off_y(t))
}

/// `t` names one of the 24 neighbours (number 12 is the centre).
pub open spec fn is_neighbour(t: int) -> bool {
    0 <= t < 25 && t != 12
}

/// The offset toward food: the neighbour of highest score, the first in scan
/// order among equals.
pub open spec fn best_plant_ok(plants: Seq<u8>, p: Pos, r: (i32, i32)) -> bool {
    exists|t: int|
        {
            &&& is_neighbour(t)
            &&& r.0 == off_x(t) && r.1 == off_y(t)
            &&& forall|u: int| is_neighbour(u) ==> #[trigger] plant_score(plants, p, u) <= plant_score(plants, p, t)
            &&& forall|u: int| is_neighbour(u) && u < t ==> #[trigger] plant_score(plants, p, u) < plant_score(plants, p, t)
        }
}

/// Offset, in cells, of the most attractive neighbour of the cell holding `p`.
pub fn best_plant_dir(p: Pos, plants: &Vec<u8>) -> (r: (i32, i32))
    requires
        p.valid(),
        plants@.len() == N_CELLS,
    ensures
        best_plant_ok(plants@, p, r),
        -2 <= r.0 <= 2,
        -2 <= r.1 <= 2,
{
    let cx = p.x / SCALE;
    let cy = p.y / SCALE;
    let mut best: i32 = i32::MIN;
    let mut bestv: (i32, i32) = (0, 0);
    let ghost mut found: int = -1;
    let mut t: i32 = 0;
    while t < 25
        invariant
            0 <= t <= 25,
            cx == p.x as int / (SCALE as int),
            cy == p.y as int / (SCALE as int),
            0 <= cx < W,
            0 <= cy < H,
            plants@.len() == N_CELLS,
            -2 <= bestv.0 <= 2,
            -2 <= bestv.1 <= 2,
            found == -1 <==> t == 0,
            found == -1 ==> best == i32::MIN,
            found != -1 ==> {
                &&& is_neighbour(found)
                &&& found < t
                &&& best == plant_score(plants@, p, found)
                &&& bestv.0 == off_x(found) && bestv.1 == off_y(found)
                &&& forall|u: int| is_neighbour(u) && u < t ==> #[trigger] plant_score(plants@, p, u) <= best
                &&& forall|u: int| is_neighbour(u) && u < found ==> #[trigger] plant_score(plants@, p, u) < best
            },
        decreases 25 - t,
    {
        if t != 12 {
            let dx = t % 5 - 2;
            let dy = t / 5 - 2;
            assert(0 <= dx * dx <= 4 && 0 <= dy * dy <= 4) by (nonlinear_arith)
                requires
                    -2 <= dx <= 2,
                    -2 <= dy <= 2,
            ;
            let i = cell_index(cx + dx, cy + dy);
            let v = plants[i] as i32 - (dx * dx + dy * dy) * 6;
            assert(v == plant_score(plants@, p, t as int));
            assert(v >= -48);
            if v > best {
                best = v;
                bestv = (dx, dy);
                proof {
                    found = t as int;
                }
            }
        }
        t += 1;
    }
    bestv
}

/// Starting biomass of a cell from a draw `r` in `[0, 1000)`: below 550 the
/// cell is sparse, `r * 255 / 1000`; otherwise dense, `180 + extra`.
pub open spec fn spec_initial_plant(r: u32, extra: u32) -> int {
    if r < 550 {
        r * 255 / 1000
    } else {
        180 + extra
    }
}

/// Starting biomass of a cell.
pub fn initial_plant(r: u32, extra: u32) -> (v: u8)
    requires
        r < 1000,
        extra < 75,
    ensures
        v == spec_initial_plant(r, extra),
        v <= 140 || 180 <= v < 255,
{
    if r < 550 {
        (r * 255 / 1000) as u8
    } else {
        (180 + extra) as u8
    }
}

/// A cell after the growth pass: grown by `grow` plus its jitter, capped at 255.
pub open spec fn spec_grow_cell(v: u8, grow: u8, jitter: u8) -> u8 {
    if v + grow + jitter > 255 {
        255
    } else {
        (v + grow + jitter) as u8
    }
}

/// Grows one cell by `grow + jitter`, saturating at 255.
pub fn grow_cell(v: u8, grow: u8, jitter: u8) -> (r: u8)
    ensures
        r == spec_grow_cell(v, grow, jitter),
{
    let s: u32 = v as u32 + grow as u32 + jitter as u32;
    if s > 255 {
        255
    } else {
        s as u8
    }
}

/// The growth pass with given jitters: cell `i` grows by `grow + jitter[i]`,
/// saturating at 255.
pub fn grow_pass(plants: &mut Vec<u8>, grow: u8, jitter: &Vec<u8>)
    requires
        jitter@.len() == old(plants)@.len(),
    ensures
        final(plants)@.len() == old(plants)@.len(),
        forall|i: int|
            0 <= i < old(plants)@.len() ==> #[trigger] final(plants)@[i] == spec_grow_cell(
                old(plants)@[i],
                grow,
                jitter@[i],
            ),
{
    let n = plants.len();
    let mut i: usize = 0;
    while i < n
        invariant
            n == old(plants)@.len(),
            plants@.len() == n,
            jitter@.len() == n,
            i <= n,
            forall|k: int|
                0 <= k < i ==> #[trigger] plants@[k] == spec_grow_cell(old(plants)@[k], grow, jitter@[k]),
            forall|k: int| i <= k < n ==> #[trigger] plants@[k] == old(plants)@[k],
        decreases n - i,
    {
        let v = grow_cell(plants[i], grow, jitter[i]);
        plants.set(i, v);
        i += 1;
    }
}

/// A spread trial starts only from a cell at least this dense.
pub const SPREAD_SOURCE_MIN: u8 = 110;

/// A spread trial seeds only a cell sparser than this.
pub const SPREAD_TARGET_MAX: u8 = 60;

/// Biomass a successful spread trial adds to its target.
pub const SPREAD_GAIN: u8 = 45;

/// The target cell of a spread trial whose chance draw, uniform in
/// `[0, PROB_DEN)`, came out `u`: a sparse cell gains `SPREAD_GAIN` when the
/// draw falls below the spread chance `spread`.
pub open spec fn spec_spread_into(v: u8, u: u32, spread: u32) -> u8 {
    if v < SPREAD_TARGET_MAX && u < spread {
        (v + SPREAD_GAIN) as u8
    } else {
        v
    }
}

/// Seeds a sparse target cell when the chance draw `u` falls below `spread`.
pub fn spread_into(v: u8, u: u32, spread: u32) -> (r: u8)
    ensures
        r == spec_spread_into(v, u, spread),
{
    if v < SPREAD_TARGET_MAX && u < spread {
        v + SPREAD_GAIN
    } else {
        v
    }
}

/// Biomass a herbivore takes from a cell holding `avail`.
pub open spec fn spec_bite(avail: u8) -> u8 {
    if avail < 16 {
        avail
    } else {
        16
    }
}

} // verus!
