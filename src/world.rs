//! The world: plant grid, herbivores, predators and the id counter, with the
//! per-tick update and the read-only queries of the driver.

use vstd::prelude::*;

use crate::config::{
    Counts, Deltas, SimSettings, TrackKind, TrackTarget, N_CELLS, PROB_DEN, SCALE,
    SPAN_X, SPAN_Y, W, H,
};
use crate::geom::{
    advance, advanced_along, chase_dir, chase_ok, flee_dir, flee_ok, heading, is_first_nearest,
    nearest_within, none_within,
    spec_dist_sq, spec_toroid_vec, toroid_dist_sq, toroid_vec, Pos, DIR_MAX,
};
use crate::grid::{
    best_plant_ok, best_plant_dir, cell_index, cell_index_of, grow_pass, initial_plant, spread_into, spec_grow_cell,
};
use crate::population::{
    bred_from, bred_pass, floor_pass, population_floor, reproduce, survivors, survivors_of, BreedRule,
};
use crate::rng::draw_below;
use crate::util::wrap_coord;

verus! {

/// A mobile individual of either species.
#[derive(Clone, Copy, Debug, PartialEq, Eq, Structural)]
pub struct Agent {
    /// Unique for the life of the process; never reused.
    pub id: u32,
    /// Current position.
    pub p: Pos,
    /// Position before the last move, kept for interpolated display.
    pub pp: Pos,
    /// Energy in energy units; the agent dies when it is not positive.
    pub e: i32,
    /// Ticks survived, saturating.
    pub age: u32,
}

impl Agent {
    /// Both positions lie on the torus.
    pub open spec fn valid(self) -> bool {
        self.p.valid() && self.pp.valid()
    }
}

/// Every agent of `s` lies on the torus.
pub open spec fn all_valid(s: Seq<Agent>) -> bool {
    forall|i: int| 0 <= i < s.len() ==> (#[trigger] s[i]).valid()
}

/// No two agents of `s` share an id.
pub open spec fn distinct_ids(s: Seq<Agent>) -> bool {
    forall|i: int, j: int| 0 <= i < s.len() && 0 <= j < s.len() && i != j ==> #[trigger] s[i].id != #[trigger] s[j].id
}

/// Every id of `s` is below `bound`.
pub open spec fn ids_below(s: Seq<Agent>, bound: int) -> bool {
    forall|i: int| 0 <= i < s.len() ==> (#[trigger] s[i]).id < bound
}

/// No agent of `a` shares an id with an agent of `b`.
pub open spec fn disjoint_ids(a: Seq<Agent>, b: Seq<Agent>) -> bool {
    forall|i: int, j: int| 0 <= i < a.len() && 0 <= j < b.len() ==> #[trigger] a[i].id != #[trigger] b[j].id
}

/// An energy value clamped into the range of `i32`.
pub open spec fn sat_energy(v: int) -> i32 {
    if v > i32::MAX {
        i32::MAX
    } else if v < i32::MIN {
        i32::MIN
    } else {
        v as i32
    }
}

/// Adds `d` to an energy, saturating.
fn add_energy(e: i32, d: i64) -> (r: i32)
    requires
        -0x1_0000_0000 <= d <= 0x1_0000_0000,
    ensures
        r == sat_energy(e + d),
{
    let v: i64 = e as i64 + d;
    if v > i32::MAX as i64 {
        i32::MAX
    } else if v < i32::MIN as i64 {
        i32::MIN
    } else {
        v as i32
    }
}

/// The grid `g` after the growth pass with the given jitters.
pub open spec fn grown(g: Seq<u8>, grow: u8, jitter: Seq<u8>) -> Seq<u8> {
    Seq::new(g.len(), |i: int| spec_grow_cell(g[i], grow, jitter[i]))
}

/// Grid `g2` is `g` after a successful spread from the dense cell `(x, y)` to
/// its sparse neighbour at offset `(dx, dy)`.
pub open spec fn spreads_from(g: Seq<u8>, g2: Seq<u8>, x: int, y: int, dx: int, dy: int) -> bool {
    let j = crate::grid::cell_at(x + dx, y + dy);
    &&& 0 <= x < W && 0 <= y < H
    &&& -1 <= dx <= 1 && -1 <= dy <= 1 && (dx != 0 || dy != 0)
    &&& g[crate::grid::cell_at(x, y)] >= crate::grid::SPREAD_SOURCE_MIN
    &&& g[j] < crate::grid::SPREAD_TARGET_MAX
    &&& g2 == g.update(j, (g[j] + crate::grid::SPREAD_GAIN) as u8)
}

/// One spread trial turns `g` into `g2`: either nothing changes, or (with a
/// non-zero spread chance) a dense cell seeds a sparse neighbour.
pub open spec fn spread_trial(g: Seq<u8>, g2: Seq<u8>, spread: u32) -> bool {
    ||| g2 == g
    ||| (spread > 0 && exists|x: int, y: int, dx: int, dy: int| #[trigger] spreads_from(g, g2, x, y, dx, dy))
}

/// An upper bound on a cell's value after one grid update from `v`: growth
/// with a jitter of 1, or 104, the most a spread can leave in a sparse cell.
pub open spec fn grown_max(v: u8, grow: u8) -> int {
    let g = spec_grow_cell(v, grow, 1);
    if g > 104 {
        g as int
    } else {
        104
    }
}

/// Positions of the agents of `s`, in order.
pub open spec fn positions_of(s: Seq<Agent>) -> Seq<Pos> {
    s.map_values(|a: Agent| a.p)
}

/// Sum of the plant values of `s`.
pub open spec fn plant_sum(s: Seq<u8>) -> int
    decreases s.len(),
{
    if s.len() == 0 {
        0
    } else {
        plant_sum(s.drop_last()) + s.last()
    }
}

/// Sum of the energies of `s`.
pub open spec fn energy_sum(s: Seq<Agent>) -> int
    decreases s.len(),
{
    if s.len() == 0 {
        0
    } else {
        energy_sum(s.drop_last()) + s.last().e
    }
}

/// Mean energy of `s`, rounded toward zero; 0 for an empty population.
pub open spec fn mean_energy(s: Seq<Agent>) -> int {
    if s.len() == 0 {
        0
    } else {
        crate::geom::div_toward_zero(energy_sum(s), s.len() as int)
    }
}

/// Radius, in position units, within which a click picks an agent.
pub const PICK_RADIUS: u32 = 1250;

/// The result of picking at `q`: the nearest agent closer than `PICK_RADIUS`,
/// herbivores scanned before predators; of equally near agents the first found.
pub open spec fn pick_ok(herbs: Seq<Agent>, preds: Seq<Agent>, q: Pos, r: Option<TrackTarget>) -> bool {
    let hp = positions_of(herbs);
    let pp = positions_of(preds);
    let rad = PICK_RADIUS as int;
    match r {
        None => none_within(q, hp, rad) && none_within(q, pp, rad),
        Some(t) => match t.kind {
            TrackKind::Herb => exists|k: int|
                {
                    &&& is_first_nearest(q, hp, rad, k)
                    &&& herbs[k].id == t.id
                    &&& forall|j: int| 0 <= j < pp.len() ==> spec_dist_sq(q, hp[k]) <= #[trigger] spec_dist_sq(q, pp[j])
                },
            TrackKind::Pred => exists|k: int|
                {
                    &&& is_first_nearest(q, pp, rad, k)
                    &&& preds[k].id == t.id
                    &&& forall|j: int| 0 <= j < hp.len() ==> spec_dist_sq(q, pp[k]) < #[trigger] spec_dist_sq(q, hp[j])
                },
        },
    }
}

/// The inspection record of agent `a` of species `kind`.
pub open spec fn snapshot(kind: TrackKind, a: Agent) -> TrackedInfo {
    TrackedInfo { kind, id: a.id, e: a.e, age: a.age, p: a.p }
}

/// The result of looking up `t` in population `s`: the first agent with that id,
/// or none when no agent has it.
pub open spec fn tracked_ok(s: Seq<Agent>, t: TrackTarget, r: Option<TrackedInfo>) -> bool {
    match r {
        None => forall|k: int| 0 <= k < s.len() ==> (#[trigger] s[k]).id != t.id,
        Some(info) => exists|k: int| first_with_id(s, t.id, k) && info == snapshot(t.kind, s[k]),
    }
}

/// `k` is the first index of an agent of `s` with id `id`.
pub open spec fn first_with_id(s: Seq<Agent>, id: u32, k: int) -> bool {
    0 <= k < s.len() && s[k].id == id && forall|j: int| 0 <= j < k ==> (#[trigger] s[j]).id != id
}

/// Display position of `a` a fraction `alpha / 1000` of the way through its last
/// move, along the shortest path on the torus.
pub open spec fn spec_interp(a: Agent, alpha: int) -> Pos {
    let v = spec_toroid_vec(a.pp, a.p);
    Pos {
        x: ((a.pp.x + crate::geom::div_toward_zero(v.0 * alpha, 1000)) % (SPAN_X as int)) as i32,
        y: ((a.pp.y + crate::geom::div_toward_zero(v.1 * alpha, 1000)) % (SPAN_Y as int)) as i32,
    }
}

/// One interpolated coordinate offset: `v * alpha / 1000`, rounded toward zero.
fn interp_component(v: i64, alpha: u32) -> (r: i64)
    requires
        -60000 <= v <= 60000,
        alpha <= 1000,
    ensures
        r == crate::geom::div_toward_zero(v * alpha, 1000),
        -60000 <= r <= 60000,
{
    assert(-60_000_000 <= v * alpha <= 60_000_000) by (nonlinear_arith)
        requires
            -60000 <= v <= 60000,
            alpha <= 1000,
    ;
    if v >= 0 {
        v * alpha as i64 / 1000
    } else {
        assert(v * alpha == -((-v) * alpha)) by (nonlinear_arith);
        -((-v) * alpha as i64 / 1000)
    }
}

/// Display position of an agent between its previous and current position,
/// `alpha / 1000` of the way along the shortest path.
pub fn interp_agent(a: &Agent, alpha: u32) -> (r: Pos)
    requires
        a.valid(),
        alpha <= 1000,
    ensures
        r == spec_interp(*a, alpha as int),
        r.valid(),
{
    let (dx, dy) = toroid_vec(a.pp, a.p);
    Pos {
        x: wrap_coord(a.pp.x as i64 + interp_component(dx, alpha), SPAN_X),
        y: wrap_coord(a.pp.y as i64 + interp_component(dy, alpha), SPAN_Y),
    }
}

/// `to` is `from` moved `speed` units along `d`, or along one of the 32
/// headings when `d` is zero.
pub open spec fn moves_along(from: Pos, to: Pos, d: (int, int), speed: int) -> bool {
    if d == (0int, 0int) {
        exists|k: int| 0 <= k < 32 && #[trigger] advanced_along(from, to, crate::geom::spec_heading(k), speed)
    } else {
        advanced_along(from, to, (d.0 as i64, d.1 as i64), speed)
    }
}

/// A herbivore at `from` moves to `to`: its heading combines the offset toward
/// food on grid `g`, the flee vector from the predators at `preds` and a jitter
/// of at most 0.175 cells per axis.
pub open spec fn heads_for_food(from: Pos, to: Pos, g: Seq<u8>, preds: Seq<Pos>, speed: int) -> bool {
    exists|base: (i32, i32), flee: (i64, i64), j: (i64, i64)|
        best_plant_ok(g, from, base) && flee_ok(from, preds, flee) && -175 <= j.0 <= 175 && -175 <= j.1
            <= 175 && #[trigger] moves_along(from, to, spec_herb_heading(base, flee, j), speed)
}

/// Herbivore `a` becomes `b` in one tick, seeing grid `g` and predators `preds`;
/// its bite turns `g` into `g2`.
pub open spec fn herb_tick(a: Agent, b: Agent, g: Seq<u8>, g2: Seq<u8>, preds: Seq<Pos>, set: SimSettings) -> bool {
    let paid = sat_energy(a.e - set.herb_met);
    let c = crate::grid::cell_of(b.p);
    let take = crate::grid::spec_bite(g[c]);
    &&& b.id == a.id
    &&& b.pp == a.p
    &&& b.age == next_age(a.age)
    &&& b.p.valid()
    &&& heads_for_food(a.p, b.p, g, preds, set.herb_speed as int)
    &&& g2 == g.update(c, (g[c] - take) as u8)
    &&& b.e == sat_energy(paid + take * GAIN_PER_PLANT)
}

/// `s` with element `i` replaced by the last one and the last one dropped.
pub open spec fn swap_removed(s: Seq<Agent>, i: int) -> Seq<Agent> {
    s.update(i, s.last()).drop_last()
}

/// Predator heading before normalisation: the chase vector plus the jitter.
pub open spec fn chase_heading(chase: (i64, i64), j: (i64, i64)) -> (int, int) {
    (chase.0 + j.0, chase.1 + j.1)
}

/// A predator at `from` moves to `to`: its heading is the chase vector toward
/// the herbivores at `herbs` plus a jitter of at most 0.11 cells per axis.
pub open spec fn hunts(from: Pos, to: Pos, herbs: Seq<Pos>, speed: int) -> bool {
    exists|chase: (i64, i64), j: (i64, i64)|
        chase_ok(from, herbs, chase) && -110 <= j.0 <= 110 && -110 <= j.1 <= 110
            && #[trigger] moves_along(from, to, chase_heading(chase, j), speed)
}

/// Predator `a` becomes `b` in one tick while the herbivores go from `h` to
/// `h2`: it moves, then captures the nearest herbivore closer than the capture
/// radius, if any, which is swap-removed.
pub open spec fn pred_tick(a: Agent, b: Agent, h: Seq<Agent>, h2: Seq<Agent>, set: SimSettings) -> bool {
    let paid = sat_energy(a.e - set.pred_met);
    let hp = positions_of(h);
    &&& b.id == a.id
    &&& b.pp == a.p
    &&& b.age == next_age(a.age)
    &&& b.p.valid()
    &&& hunts(a.p, b.p, hp, set.pred_speed as int)
    &&& if none_within(b.p, hp, set.eat_radius as int) {
        h2 == h && b.e == paid
    } else {
        exists|hi: int|
            is_first_nearest(b.p, hp, set.eat_radius as int, hi) && h2 == swap_removed(h, hi) && b.e
                == sat_energy(paid + GAIN_PER_CAPTURE)
    }
}

/// Over one tick, each population changes by its births less its deaths, as
/// long as the counts fit in `u32`.
pub proof fn lemma_tick_balance(w: World, new: World, set: SimSettings, d: Deltas)
    requires
        w.tick(new, set, d),
        w.herbs@.len() + new.herbs@.len() <= u32::MAX,
        w.preds@.len() + new.preds@.len() <= u32::MAX,
    ensures
        new.herbs@.len() == w.herbs@.len() + d.herb_birth - d.herb_death,
        new.preds@.len() == w.preds@.len() + d.pred_birth - d.pred_death,
{
    let (w1, w2, w3, eaten) = choose|w1: World, w2: World, w3: World, eaten: u32|
        {
            &&& #[trigger] w.plants_tick(w1, set)
            &&& #[trigger] w1.preds_tick(w2, set, eaten)
            &&& #[trigger] w2.herbs_tick(w3, set)
            &&& #[trigger] w3.cleanup_tick(new, eaten, d)
        };
    w3.herbs@.lemma_filter_len(|a: Agent| a.e > 0);
    w3.preds@.lemma_filter_len(|a: Agent| a.e > 0);
}

/// Number of agents of `s` standing in cell `c`.
pub open spec fn count_in_cell(s: Seq<Agent>, c: int) -> int
    decreases s.len(),
{
    if s.len() == 0 {
        0
    } else {
        count_in_cell(s.drop_last(), c) + if crate::grid::cell_of(s.last().p) == c {
            1int
        } else {
            0int
        }
    }
}

/// Biomass `v` after `k` bites of up to 16 units each.
pub open spec fn grazed(v: int, k: int) -> int {
    if v < 16 * k {
        0
    } else {
        v - 16 * k
    }
}

/// Every agent of `after` carries the id of an agent of `before`, or an id of
/// at least `first`.
pub open spec fn kept_or_fresh(before: Seq<Agent>, after: Seq<Agent>, first: int) -> bool {
    forall|k: int|
        0 <= k < after.len() ==> (#[trigger] after[k]).id >= first || exists|j: int|
            0 <= j < before.len() && before[j].id == after[k].id
}

/// Age after one more tick.
pub open spec fn next_age(a: u32) -> u32 {
    if a == u32::MAX {
        a
    } else {
        (a + 1) as u32
    }
}

/// The simulation state.
pub struct World {
    /// Plant biomass, one byte per cell, row-major.
    pub plants: Vec<u8>,
    pub herbs: Vec<Agent>,
    pub preds: Vec<Agent>,
    /// The id the next spawned agent receives.
    pub next_id: u32,
}

/// Snapshot of one agent for inspection.
#[derive(Clone, Copy, Debug, PartialEq, Eq, Structural)]
pub struct TrackedInfo {
    pub kind: TrackKind,
    pub id: u32,
    pub e: i32,
    pub age: u32,
    pub p: Pos,
}

/// A uniformly random point of the torus.
fn random_pos(rng: &mut rand::rngs::StdRng) -> (r: Pos)
    ensures
        r.valid(),
{
    let x = draw_below(rng, SPAN_X as u32);
    let y = draw_below(rng, SPAN_Y as u32);
    Pos { x: x as i32, y: y as i32 }
}

/// `d` itself when it is non-zero, otherwise one of the 32 evenly spaced headings
/// drawn uniformly, so that an agent never stalls.
fn heading_or_random(rng: &mut rand::rngs::StdRng, d: (i64, i64)) -> (r: (i64, i64))
    requires
        -DIR_MAX <= d.0 <= DIR_MAX,
        -DIR_MAX <= d.1 <= DIR_MAX,
    ensures
        d != (0i64, 0i64) ==> r == d,
        d == (0i64, 0i64) ==> exists|k: int| 0 <= k < 32 && r == crate::geom::spec_heading(k),
        r != (0i64, 0i64),
        -DIR_MAX <= r.0 <= DIR_MAX,
        -DIR_MAX <= r.1 <= DIR_MAX,
{
    if d.0 == 0 && d.1 == 0 {
        let k = draw_below(rng, crate::geom::N_HEADINGS);
        let r = heading(k);
        assert(r == crate::geom::spec_heading(k as int));
        r
    } else {
        d
    }
}

/// Weight of the flee vector in a herbivore's heading: 1.15, rounded toward zero.
pub open spec fn spec_flee_weight(v: int) -> int {
    crate::geom::div_toward_zero(v * 115, 100)
}

/// The combined herbivore heading, before normalisation: the offset toward food
/// (in cells), the weighted flee vector and the jitter.
pub open spec fn spec_herb_heading(base: (i32, i32), flee: (i64, i64), jitter: (i64, i64)) -> (int, int) {
    (
        base.0 * SCALE + spec_flee_weight(flee.0 as int) + jitter.0,
        base.1 * SCALE + spec_flee_weight(flee.1 as int) + jitter.1,
    )
}

/// Scales one flee component by 1.15, rounding toward zero.
fn flee_weight(v: i64) -> (r: i64)
    requires
        -60000 <= v <= 60000,
    ensures
        r == spec_flee_weight(v as int),
        -69000 <= r <= 69000,
{
    if v >= 0 {
        v * 115 / 100
    } else {
        -((-v) * 115 / 100)
    }
}

/// Herbivore heading from the offset toward food, the flee vector and the jitter.
pub fn herb_heading(base: (i32, i32), flee: (i64, i64), jitter: (i64, i64)) -> (r: (i64, i64))
    requires
        -2 <= base.0 <= 2,
        -2 <= base.1 <= 2,
        -60000 <= flee.0 <= 60000,
        -60000 <= flee.1 <= 60000,
        -1000 <= jitter.0 <= 1000,
        -1000 <= jitter.1 <= 1000,
    ensures
        r.0 == spec_herb_heading(base, flee, jitter).0,
        r.1 == spec_herb_heading(base, flee, jitter).1,
        -DIR_MAX <= r.0 <= DIR_MAX,
        -DIR_MAX <= r.1 <= DIR_MAX,
{
    (
        base.0 as i64 * SCALE as i64 + flee_weight(flee.0) + jitter.0,
        base.1 as i64 * SCALE as i64 + flee_weight(flee.1) + jitter.1,
    )
}

/// A jitter component drawn uniformly from `[-half, half]`.
fn draw_jitter(rng: &mut rand::rngs::StdRng, half: u32) -> (r: i64)
    requires
        half <= 1000,
    ensures
        -(half as int) <= r <= half,
{
    draw_below(rng, 2 * half + 1) as i64 - half as i64
}

/// Energy gained per unit of plant biomass eaten.
pub const GAIN_PER_PLANT: i64 = 2200;

/// Energy a predator gains from one capture.
pub const GAIN_PER_CAPTURE: i64 = 850000;

/// A herbivore eats at the cell it stands on: it takes up to 16 units of
/// biomass and gains `GAIN_PER_PLANT` energy per unit taken.
pub fn graze(plants: &mut Vec<u8>, h: &mut Agent)
    requires
        old(plants)@.len() == N_CELLS,
        old(h).p.valid(),
    ensures
        ({
            let c = crate::grid::cell_of(old(h).p);
            let take = crate::grid::spec_bite(old(plants)@[c]);
            &&& final(plants)@ == old(plants)@.update(c, (old(plants)@[c] - take) as u8)
            &&& *final(h) == Agent { e: sat_energy(old(h).e + take * GAIN_PER_PLANT), ..*old(h) }
        }),
{
    let c = cell_index_of(h.p);
    let avail = plants[c];
    let take: u8 = if avail < 16 { avail } else { 16 };
    plants.set(c, avail - take);
    h.e = add_energy(h.e, take as i64 * GAIN_PER_PLANT);
}

/// How herbivores reproduce: above 2.2 energy, with chance 0.10, keeping 62%
/// of their energy; offspring land within 0.45 cells and start with 1.0.
pub open spec fn spec_herb_rule() -> BreedRule {
    BreedRule { min_energy: 2_200_000, chance: 100, keep_pct: 62, jitter: 450, child_e: 1_000_000 }
}

/// How predators reproduce: above 2.7 energy, with chance 0.08, keeping 64% of
/// their energy; offspring land within 0.4 cells and start with 1.2.
pub open spec fn spec_pred_rule() -> BreedRule {
    BreedRule { min_energy: 2_700_000, chance: 80, keep_pct: 64, jitter: 400, child_e: 1_200_000 }
}

fn herb_rule() -> (r: BreedRule)
    ensures
        r == spec_herb_rule(),
        r.wf(),
{
    BreedRule { min_energy: 2_200_000, chance: 100, keep_pct: 62, jitter: 450, child_e: 1_000_000 }
}

fn pred_rule() -> (r: BreedRule)
    ensures
        r == spec_pred_rule(),
        r.wf(),
{
    BreedRule { min_energy: 2_700_000, chance: 80, keep_pct: 64, jitter: 400, child_e: 1_200_000 }
}

/// A count clamped to `u32`.
pub open spec fn sat_u32(v: int) -> int {
    if v > u32::MAX {
        u32::MAX as int
    } else {
        v
    }
}

fn count_u32(n: usize) -> (r: u32)
    ensures
        r == sat_u32(n as int),
{
    if n > u32::MAX as usize {
        u32::MAX
    } else {
        n as u32
    }
}

/// The agents of `s` from index `from` on were spawned this tick: their ids lie
/// in `[lo, hi)` and increase with their index, and they carry one of the two
/// starting energies `e1`, `e2`.
pub open spec fn spawned(s: Seq<Agent>, from: int, lo: int, hi: int, e1: i32, e2: i32) -> bool {
    &&& forall|k: int| from <= k < s.len() ==> lo <= (#[trigger] s[k]).id < hi
    &&& forall|k: int| from <= k < s.len() ==> (#[trigger] s[k]).age == 0 && s[k].pp == s[k].p
    &&& forall|k: int| from <= k < s.len() ==> (#[trigger] s[k]).e == e1 || s[k].e == e2
    &&& forall|k: int, l: int| from <= k < l < s.len() ==> #[trigger] s[k].id < #[trigger] s[l].id
}

impl World {
    /// The grid has one byte per cell and every agent lies on the torus.
    pub open spec fn wf(&self) -> bool {
        &&& self.plants@.len() == N_CELLS
        &&& all_valid(self.herbs@)
        &&& all_valid(self.preds@)
    }

    /// Ids are unique over both populations and all below `next_id`.
    pub open spec fn ids_ok(&self) -> bool {
        &&& distinct_ids(self.herbs@)
        &&& distinct_ids(self.preds@)
        &&& disjoint_ids(self.herbs@, self.preds@)
        &&& ids_below(self.herbs@, self.next_id as int)
        &&& ids_below(self.preds@, self.next_id as int)
    }

    /// Grid update of a tick turns `self` into `new`: the growth pass with some
    /// jitters of 0 or 1, then `N_CELLS / 6` spread trials.
    pub open spec fn plants_tick(self, new: World, set: SimSettings) -> bool {
        &&& new.herbs@ == self.herbs@
        &&& new.preds@ == self.preds@
        &&& new.next_id == self.next_id
        &&& exists|jitter: Seq<u8>, trials: Seq<Seq<u8>>|
            {
                &&& jitter.len() == N_CELLS
                &&& forall|k: int| 0 <= k < N_CELLS ==> #[trigger] jitter[k] <= 1
                &&& trials.len() == N_CELLS / 6 + 1
                &&& trials[0] == grown(self.plants@, set.plant_grow, jitter)
                &&& trials.last() == new.plants@
                &&& forall|t: int|
                    0 <= t < N_CELLS / 6 ==> spread_trial(#[trigger] trials[t], trials[t + 1], set.plant_spread)
            }
    }

    /// Predator update of a tick turns `self` into `new`, capturing `eaten`
    /// herbivores (saturating): predator `k` sees the herbivores `herds[k]` left
    /// by the predators before it.
    pub open spec fn preds_tick(self, new: World, set: SimSettings, eaten: u32) -> bool {
        &&& new.plants@ == self.plants@
        &&& new.next_id == self.next_id
        &&& new.herbs@.len() <= self.herbs@.len()
        &&& eaten == sat_u32(self.herbs@.len() - new.herbs@.len())
        &&& new.preds@.len() == self.preds@.len()
        &&& exists|herds: Seq<Seq<Agent>>|
            {
                &&& herds.len() == self.preds@.len() + 1
                &&& herds[0] == self.herbs@
                &&& herds.last() == new.herbs@
                &&& forall|k: int|
                    0 <= k < self.preds@.len() ==> pred_tick(
                        self.preds@[k],
                        #[trigger] new.preds@[k],
                        herds[k],
                        herds[k + 1],
                        set,
                    )
            }
    }

    /// Herbivore update of a tick turns `self` into `new`: herbivore `k` sees
    /// the grid `grids[k]` left by the herbivores before it.
    pub open spec fn herbs_tick(self, new: World, set: SimSettings) -> bool {
        &&& new.preds@ == self.preds@
        &&& new.next_id == self.next_id
        &&& new.herbs@.len() == self.herbs@.len()
        &&& exists|grids: Seq<Seq<u8>>|
            {
                &&& grids.len() == self.herbs@.len() + 1
                &&& grids[0] == self.plants@
                &&& grids.last() == new.plants@
                &&& forall|k: int|
                    0 <= k < self.herbs@.len() ==> herb_tick(
                        self.herbs@[k],
                        #[trigger] new.herbs@[k],
                        grids[k],
                        grids[k + 1],
                        positions_of(self.preds@),
                        set,
                    )
            }
    }

    /// End of a tick turns `self` into `new` and reports `d`: the survivors
    /// keep their order and may have given birth; newborns and reseeded agents
    /// follow them with fresh, increasing ids.
    pub open spec fn cleanup_tick(self, new: World, eaten: u32, d: Deltas) -> bool {
        let sh = survivors_of(self.herbs@);
        let sp = survivors_of(self.preds@);
        &&& new.plants@ == self.plants@
        &&& new.next_id >= self.next_id
        &&& new.next_id == self.next_id + (new.herbs@.len() - sh.len()) + (new.preds@.len() - sp.len())
        &&& exists|hb: Seq<Agent>, pb: Seq<Agent>| #[trigger] self.births(new, sh, sp, hb, pb)
        &&& new.herbs@.len() >= sh.len()
        &&& new.preds@.len() >= sp.len()
        &&& forall|k: int| 0 <= k < sh.len() ==> bred_from(sh[k], #[trigger] new.herbs@[k], spec_herb_rule())
        &&& forall|k: int| 0 <= k < sp.len() ==> bred_from(sp[k], #[trigger] new.preds@[k], spec_pred_rule())
        &&& spawned(new.herbs@, sh.len() as int, self.next_id as int, new.next_id as int, 1_000_000, 1_400_000)
        &&& spawned(new.preds@, sp.len() as int, self.next_id as int, new.next_id as int, 1_200_000, 1_800_000)
        &&& d.herb_death == sat_u32(sat_u32(self.herbs@.len() - sh.len()) + eaten)
        &&& d.pred_death == sat_u32(self.preds@.len() - sp.len())
        &&& d.herb_birth == sat_u32(new.herbs@.len() - sh.len())
        &&& d.pred_birth == sat_u32(new.preds@.len() - sp.len())
    }

    /// The births of a tick, through `hb` and `pb`, the populations after the
    /// reproduction passes: herbivore offspring take the first fresh ids, then
    /// predator offspring, then reseeded herbivores, then reseeded predators.
    /// The floors (20 herbivores, 6 predators) look at the populations after
    /// reproduction.
    pub open spec fn births(self, new: World, sh: Seq<Agent>, sp: Seq<Agent>, hb: Seq<Agent>, pb: Seq<Agent>) -> bool {
        let n0 = self.next_id as int;
        let n1 = n0 + (hb.len() - sh.len());
        let n2 = n1 + (pb.len() - sp.len());
        let n3 = n2 + (new.herbs@.len() - hb.len());
        &&& bred_pass(sh, hb, n0, spec_herb_rule())
        &&& bred_pass(sp, pb, n1, spec_pred_rule())
        &&& floor_pass(hb, new.herbs@, 20, 18, 1_400_000, n2)
        &&& floor_pass(pb, new.preds@, 6, 5, 1_800_000, n3)
    }

    /// One tick turns `self` into `new` and reports `d`: grid, predators,
    /// herbivores, then deaths and births, through intermediate worlds.
    pub open spec fn tick(self, new: World, set: SimSettings, d: Deltas) -> bool {
        exists|w1: World, w2: World, w3: World, eaten: u32|
            {
                &&& #[trigger] self.plants_tick(w1, set)
                &&& #[trigger] w1.preds_tick(w2, set, eaten)
                &&& #[trigger] w2.herbs_tick(w3, set)
                &&& #[trigger] w3.cleanup_tick(new, eaten, d)
            }
    }

    /// A fresh world: a random plant grid and `init_herbs` herbivores followed by
    /// `init_preds` predators at random positions, numbered from 1.
    pub fn new(rng: &mut rand::rngs::StdRng, set: SimSettings) -> (r: World)
        requires
            set.init_herbs as int + set.init_preds as int + 1 <= u32::MAX,
        ensures
            r.wf(),
            r.ids_ok(),
            r.herbs@.len() == set.init_herbs,
            r.preds@.len() == set.init_preds,
            r.next_id == 1 + set.init_herbs + set.init_preds,
            forall|i: int| 0 <= i < r.plants@.len() ==> #[trigger] r.plants@[i] <= 140 || 180 <= r.plants@[i] < 255,
            forall|i: int|
                0 <= i < r.herbs@.len() ==> {
                    &&& (#[trigger] r.herbs@[i]).id == i + 1
                    &&& r.herbs@[i].p.valid()
                    &&& r.herbs@[i].pp == r.herbs@[i].p
                    &&& r.herbs@[i].age == 0
                    &&& 1_200_000 <= r.herbs@[i].e < 1_800_000
                },
            forall|i: int|
                0 <= i < r.preds@.len() ==> {
                    &&& (#[trigger] r.preds@[i]).id == i + 1 + set.init_herbs
                    &&& r.preds@[i].p.valid()
                    &&& r.preds@[i].pp == r.preds@[i].p
                    &&& r.preds@[i].age == 0
                    &&& 1_600_000 <= r.preds@[i].e < 2_400_000
                },
    {
        let mut plants: Vec<u8> = Vec::new();
        let mut i: usize = 0;
        while i < N_CELLS
            invariant
                i <= N_CELLS,
                plants@.len() == i,
                forall|k: int| 0 <= k < i ==> #[trigger] plants@[k] <= 140 || 180 <= plants@[k] < 255,
            decreases N_CELLS - i,
        {
            let r = draw_below(rng, PROB_DEN);
            let extra = if r < 550 { 0 } else { draw_below(rng, 75) };
            plants.push(initial_plant(r, extra));
            i += 1;
        }

        let mut next_id: u32 = 1;
        let mut herbs: Vec<Agent> = Vec::new();
        let mut k: u32 = 0;
        while k < set.init_herbs
            invariant
                k <= set.init_herbs,
                set.init_herbs as int + set.init_preds as int + 1 <= u32::MAX,
                herbs@.len() == k,
                next_id == k + 1,
                all_valid(herbs@),
                forall|j: int|
                    0 <= j < herbs@.len() ==> {
                        &&& (#[trigger] herbs@[j]).id == j + 1
                        &&& herbs@[j].pp == herbs@[j].p
                        &&& herbs@[j].age == 0
                        &&& 1_200_000 <= herbs@[j].e < 1_800_000
                    },
            decreases set.init_herbs - k,
        {
            let p = random_pos(rng);
            let e = 1_200_000 + draw_below(rng, 600_000) as i32;
            herbs.push(Agent { id: next_id, p, pp: p, e, age: 0 });
            next_id += 1;
            k += 1;
        }

        let mut preds: Vec<Agent> = Vec::new();
        k = 0;
        while k < set.init_preds
            invariant
                k <= set.init_preds,
                set.init_herbs as int + set.init_preds as int + 1 <= u32::MAX,
                preds@.len() == k,
                next_id == k + 1 + set.init_herbs,
                all_valid(preds@),
                forall|j: int|
                    0 <= j < preds@.len() ==> {
                        &&& (#[trigger] preds@[j]).id == j + 1 + set.init_herbs
                        &&& preds@[j].pp == preds@[j].p
                        &&& preds@[j].age == 0
                        &&& 1_600_000 <= preds@[j].e < 2_400_000
                    },
            decreases set.init_preds - k,
        {
            let p = random_pos(rng);
            let e = 1_600_000 + draw_below(rng, 800_000) as i32;
            preds.push(Agent { id: next_id, p, pp: p, e, age: 0 });
            next_id += 1;
            k += 1;
        }
        World { plants, herbs, preds, next_id }
    }

    /// Positions of all agents of a population, in order.
    fn positions(agents: &Vec<Agent>) -> (r: Vec<Pos>)
        requires
            all_valid(agents@),
        ensures
            r@ == positions_of(agents@),
            r@.len() == agents@.len(),
            forall|k: int| 0 <= k < r@.len() ==> #[trigger] r@[k] == agents@[k].p,
            forall|k: int| 0 <= k < r@.len() ==> (#[trigger] r@[k]).valid(),
    {
        let mut r: Vec<Pos> = Vec::new();
        let mut i: usize = 0;
        while i < agents.len()
            invariant
                i <= agents@.len(),
                all_valid(agents@),
                r@.len() == i,
                forall|k: int| 0 <= k < i ==> #[trigger] r@[k] == agents@[k].p,
            decreases agents@.len() - i,
        {
            r.push(agents[i].p);
            i += 1;
        }
        assert(r@ =~= positions_of(agents@));
        r
    }

    /// Herbivore update of one tick. Each herbivore, in order, pays its
    /// metabolic cost, ages, heads toward food and away from the nearest
    /// predator within eight cells (plus jitter), moves `herb_speed` units and
    /// grazes the cell it lands on. `grids[k]` in the contract is the grid that
    /// herbivore `k` sees, after the herbivores before it have grazed.
    pub fn herbs_step(&mut self, rng: &mut rand::rngs::StdRng, set: SimSettings)
        requires
            old(self).wf(),
        ensures
            final(self).wf(),
            old(self).herbs_tick(*final(self), set),
            forall|c: int|
                0 <= c < N_CELLS ==> #[trigger] final(self).plants@[c] == grazed(
                    old(self).plants@[c] as int,
                    count_in_cell(final(self).herbs@, c),
                ),
            forall|c: int| 0 <= c < N_CELLS ==> #[trigger] final(self).plants@[c] <= old(self).plants@[c],
            old(self).ids_ok() ==> final(self).ids_ok(),
    {
        let preds_pos = World::positions(&self.preds);
        let n = self.herbs.len();
        let ghost mut grids: Seq<Seq<u8>> = seq![self.plants@];
        let mut i: usize = 0;
        while i < n
            invariant
                i <= n,
                n == old(self).herbs@.len(),
                self.wf(),
                self.herbs@.len() == n,
                self.preds@ == old(self).preds@,
                self.next_id == old(self).next_id,
                preds_pos@ == positions_of(old(self).preds@),
                forall|k: int| 0 <= k < preds_pos@.len() ==> (#[trigger] preds_pos@[k]).valid(),
                forall|k: int| i <= k < n ==> #[trigger] self.herbs@[k] == old(self).herbs@[k],
                grids.len() == i + 1,
                grids[0] == old(self).plants@,
                grids.last() == self.plants@,
                forall|k: int|
                    0 <= k < i ==> herb_tick(
                        old(self).herbs@[k],
                        #[trigger] self.herbs@[k],
                        grids[k],
                        grids[k + 1],
                        preds_pos@,
                        set,
                    ),
                forall|c: int| 0 <= c < N_CELLS ==> #[trigger] self.plants@[c] <= old(self).plants@[c],
                forall|c: int|
                    0 <= c < N_CELLS ==> #[trigger] self.plants@[c] == grazed(
                        old(self).plants@[c] as int,
                        count_in_cell(self.herbs@.subrange(0, i as int), c),
                    ),
            decreases n - i,
        {
            let ghost a = self.herbs@[i as int];
            let ghost prefix = self.herbs@.subrange(0, i as int);
            let ghost g = self.plants@;
            let mut h = self.herbs[i];
            h.pp = h.p;
            h.e = add_energy(h.e, -(set.herb_met as i64));
            h.age = h.age.saturating_add(1);
            let base = best_plant_dir(h.p, &self.plants);
            let flee = flee_dir(h.p, &preds_pos);
            let jx = draw_jitter(rng, 175);
            let jy = draw_jitter(rng, 175);
            let d = herb_heading(base, flee, (jx, jy));
            let dir = heading_or_random(rng, d);
            h.p = advance(h.p, dir, set.herb_speed);
            proof {
                let hd = spec_herb_heading(base, flee, (jx, jy));
                assert(hd == (d.0 as int, d.1 as int));
                if d == (0i64, 0i64) {
                    let k = choose|k: int| 0 <= k < 32 && dir == crate::geom::spec_heading(k);
                    assert(advanced_along(a.p, h.p, crate::geom::spec_heading(k), set.herb_speed as int));
                }
                assert(moves_along(a.p, h.p, hd, set.herb_speed as int));
                assert(heads_for_food(a.p, h.p, g, preds_pos@, set.herb_speed as int));
            }
            graze(&mut self.plants, &mut h);
            self.herbs.set(i, h);
            proof {
                let q = self.herbs@.subrange(0, i + 1);
                assert(q.drop_last() =~= prefix);
                assert(q.last() == h);
                let ci = crate::grid::cell_of(h.p);
                assert forall|c: int| 0 <= c < N_CELLS implies #[trigger] self.plants@[c] == grazed(
                    old(self).plants@[c] as int,
                    count_in_cell(q, c),
                ) by {
                    assert(count_in_cell(q, c) == count_in_cell(prefix, c) + if ci == c {
                        1int
                    } else {
                        0int
                    });
                }
            }
            proof {
                grids = grids.push(self.plants@);
                assert(herb_tick(a, h, g, self.plants@, preds_pos@, set));
                assert forall|k: int| 0 <= k < i + 1 implies herb_tick(
                    old(self).herbs@[k],
                    #[trigger] self.herbs@[k],
                    grids[k],
                    grids[k + 1],
                    preds_pos@,
                    set,
                ) by {
                    if k < i {
                        assert(grids[k] == grids.drop_last()[k]);
                        assert(grids[k + 1] == grids.drop_last()[k + 1]);
                    }
                }
            }
            i += 1;
        }
        assert(self.herbs@.subrange(0, n as int) =~= self.herbs@);
        assert(old(self).ids_ok() ==> self.ids_ok()) by {
            if old(self).ids_ok() {
                assert(forall|k: int| 0 <= k < n ==> (#[trigger] self.herbs@[k]).id == old(self).herbs@[k].id);
            }
        }
    }

    /// Predator update of one tick; returns the number of herbivores captured
    /// (saturating at `u32::MAX`). Each predator, in order, pays its metabolic
    /// cost, ages, heads toward the nearest herbivore within eighteen cells
    /// (plus jitter) and moves `pred_speed` units; it then captures the nearest
    /// herbivore closer than `eat_radius`, which leaves the population at once
    /// by swap-removal, and gains `GAIN_PER_CAPTURE` energy.
    pub fn preds_step(&mut self, rng: &mut rand::rngs::StdRng, set: SimSettings) -> (eaten: u32)
        requires
            old(self).wf(),
        ensures
            final(self).wf(),
            old(self).preds_tick(*final(self), set, eaten),
            forall|k: int|
                0 <= k < final(self).herbs@.len() ==> exists|j: int|
                    0 <= j < old(self).herbs@.len() && #[trigger] final(self).herbs@[k] == old(self).herbs@[j],
            old(self).ids_ok() ==> final(self).ids_ok(),
    {
        let mut herb_pos = World::positions(&self.herbs);
        let ghost mut src: Seq<int> = Seq::new(self.herbs@.len(), |k: int| k);
        let ghost mut herds: Seq<Seq<Agent>> = seq![self.herbs@];
        let mut eaten: u32 = 0;
        let n = self.preds.len();
        let mut pi: usize = 0;
        while pi < n
            invariant
                pi <= n,
                n == old(self).preds@.len(),
                self.wf(),
                self.plants@ == old(self).plants@,
                self.next_id == old(self).next_id,
                self.preds@.len() == n,
                herb_pos@ == positions_of(self.herbs@),
                forall|k: int| 0 <= k < herb_pos@.len() ==> (#[trigger] herb_pos@[k]).valid(),
                self.herbs@.len() <= old(self).herbs@.len(),
                eaten as int == if old(self).herbs@.len() - self.herbs@.len() > u32::MAX {
                    u32::MAX as int
                } else {
                    old(self).herbs@.len() - self.herbs@.len()
                },
                src.len() == self.herbs@.len(),
                forall|k: int|
                    0 <= k < src.len() ==> 0 <= #[trigger] src[k] < old(self).herbs@.len()
                        && self.herbs@[k] == old(self).herbs@[src[k]],
                forall|k: int, l: int| 0 <= k < src.len() && 0 <= l < src.len() && k != l ==> #[trigger] src[k] != #[trigger] src[l],
                forall|k: int| pi <= k < n ==> #[trigger] self.preds@[k] == old(self).preds@[k],
                herds.len() == pi + 1,
                herds[0] == old(self).herbs@,
                herds.last() == self.herbs@,
                forall|k: int|
                    0 <= k < pi ==> pred_tick(
                        old(self).preds@[k],
                        #[trigger] self.preds@[k],
                        herds[k],
                        herds[k + 1],
                        set,
                    ),
            decreases n - pi,
        {
            let ghost a = self.preds@[pi as int];
            let ghost h = self.herbs@;
            let mut p = self.preds[pi];
            p.pp = p.p;
            p.e = add_energy(p.e, -(set.pred_met as i64));
            p.age = p.age.saturating_add(1);
            let ghost paid = p.e;
            let chase = chase_dir(p.p, &herb_pos);
            let jx = draw_jitter(rng, 110);
            let jy = draw_jitter(rng, 110);
            let d = (chase.0 + jx, chase.1 + jy);
            let dir = heading_or_random(rng, d);
            p.p = advance(p.p, dir, set.pred_speed);
            proof {
                if d == (0i64, 0i64) {
                    let k = choose|k: int| 0 <= k < 32 && dir == crate::geom::spec_heading(k);
                    assert(advanced_along(a.p, p.p, crate::geom::spec_heading(k), set.pred_speed as int));
                }
                assert(moves_along(a.p, p.p, chase_heading(chase, (jx, jy)), set.pred_speed as int));
                assert(hunts(a.p, p.p, positions_of(h), set.pred_speed as int));
            }
            if let Some(hi) = nearest_within(p.p, &herb_pos, set.eat_radius) {
                let ghost last = self.herbs@.len() - 1;
                self.herbs.swap_remove(hi);
                herb_pos.swap_remove(hi);
                proof {
                    src = src.update(hi as int, src[last]).drop_last();
                    assert(herb_pos@ =~= positions_of(self.herbs@));
                    assert(self.herbs@ == swap_removed(h, hi as int));
                }
                p.e = add_energy(p.e, GAIN_PER_CAPTURE);
                if eaten < u32::MAX {
                    eaten += 1;
                }
            }
            self.preds.set(pi, p);
            proof {
                herds = herds.push(self.herbs@);
                assert(pred_tick(a, p, h, self.herbs@, set));
                assert forall|k: int| 0 <= k < pi + 1 implies pred_tick(
                    old(self).preds@[k],
                    #[trigger] self.preds@[k],
                    herds[k],
                    herds[k + 1],
                    set,
                ) by {
                    if k < pi {
                        assert(herds[k] == herds.drop_last()[k]);
                        assert(herds[k + 1] == herds.drop_last()[k + 1]);
                    }
                }
            }
            pi += 1;
        }
        assert forall|k: int| 0 <= k < self.herbs@.len() implies exists|j: int|
            0 <= j < old(self).herbs@.len() && #[trigger] self.herbs@[k] == old(self).herbs@[j] by {
            assert(0 <= src[k] < old(self).herbs@.len() && self.herbs@[k] == old(self).herbs@[src[k]]);
        }
        assert(old(self).ids_ok() ==> self.ids_ok()) by {
            if old(self).ids_ok() {
                assert forall|k: int, l: int|
                    0 <= k < self.herbs@.len() && 0 <= l < self.herbs@.len() && k != l implies
                    #[trigger] self.herbs@[k].id != #[trigger] self.herbs@[l].id by {
                    assert(src[k] != src[l]);
                    assert(self.herbs@[k] == old(self).herbs@[src[k]]);
                    assert(self.herbs@[l] == old(self).herbs@[src[l]]);
                }
                assert forall|k: int, l: int|
                    0 <= k < self.herbs@.len() && 0 <= l < self.preds@.len() implies
                    #[trigger] self.herbs@[k].id != #[trigger] self.preds@[l].id by {
                    assert(self.herbs@[k] == old(self).herbs@[src[k]]);
                    assert(self.preds@[l].id == old(self).preds@[l].id);
                }
                assert forall|k: int, l: int|
                    0 <= k < self.preds@.len() && 0 <= l < self.preds@.len() && k != l implies
                    #[trigger] self.preds@[k].id != #[trigger] self.preds@[l].id by {
                    assert(self.preds@[k].id == old(self).preds@[k].id);
                    assert(self.preds@[l].id == old(self).preds@[l].id);
                }
                assert forall|k: int| 0 <= k < self.herbs@.len() implies (#[trigger] self.herbs@[k]).id
                    < self.next_id by {
                    assert(self.herbs@[k] == old(self).herbs@[src[k]]);
                }
                assert forall|k: int| 0 <= k < self.preds@.len() implies (#[trigger] self.preds@[k]).id
                    < self.next_id by {
                    assert(self.preds@[k].id == old(self).preds@[k].id);
                }
            }
        }
        eaten
    }

    /// One tick: grid update, then predators, then herbivores, then deaths,
    /// births and the population floor. `dt_us` is the driver's step length;
    /// motion and metabolism are per tick and do not depend on it.
    pub fn step(&mut self, rng: &mut rand::rngs::StdRng, set: SimSettings, dt_us: u32) -> (d: Deltas)
        requires
            old(self).wf(),
        ensures
            old(self).tick(*final(self), set, d),
            final(self).wf(),
            forall|k: int|
                0 <= k < final(self).herbs@.len() ==> (#[trigger] final(self).herbs@[k]).p.valid()
                    && final(self).herbs@[k].pp.valid(),
            forall|k: int|
                0 <= k < final(self).preds@.len() ==> (#[trigger] final(self).preds@[k]).p.valid()
                    && final(self).preds@[k].pp.valid(),
            kept_or_fresh(old(self).herbs@, final(self).herbs@, old(self).next_id as int),
            kept_or_fresh(old(self).preds@, final(self).preds@, old(self).next_id as int),
            final(self).next_id >= old(self).next_id,
            forall|k: int| 0 <= k < final(self).herbs@.len() ==> (#[trigger] final(self).herbs@[k]).e > 0,
            forall|k: int| 0 <= k < final(self).preds@.len() ==> (#[trigger] final(self).preds@[k]).e > 0,
            old(self).ids_ok() ==> final(self).ids_ok(),
    {
        self.plants_step(rng, set);
        let ghost w1 = *self;
        let eaten = self.preds_step(rng, set);
        let ghost w2 = *self;
        self.herbs_step(rng, set);
        let ghost w3 = *self;
        let d = self.cleanup_repro(rng, set, eaten);
        assert(w3.cleanup_tick(*self, eaten, d));
        let ghost w0 = *old(self);
        let ghost n = w0.next_id as int;
        assert forall|k: int| 0 <= k < self.herbs@.len() implies (#[trigger] self.herbs@[k]).id >= n
            || exists|j: int| 0 <= j < w0.herbs@.len() && w0.herbs@[j].id == self.herbs@[k].id by {
            if self.herbs@[k].id < n {
                let j3 = choose|j: int| 0 <= j < w3.herbs@.len() && w3.herbs@[j].id == self.herbs@[k].id;
                assert(w3.herbs@[j3].id == w2.herbs@[j3].id);
                let j2 = choose|j: int| 0 <= j < w1.herbs@.len() && #[trigger] w2.herbs@[j3] == w1.herbs@[j];
                assert(w0.herbs@[j2].id == self.herbs@[k].id);
            }
        }
        assert forall|k: int| 0 <= k < self.preds@.len() implies (#[trigger] self.preds@[k]).id >= n
            || exists|j: int| 0 <= j < w0.preds@.len() && w0.preds@[j].id == self.preds@[k].id by {
            if self.preds@[k].id < n {
                let j3 = choose|j: int| 0 <= j < w3.preds@.len() && w3.preds@[j].id == self.preds@[k].id;
                assert(w3.preds@[j3].id == w1.preds@[j3].id);
                assert(w0.preds@[j3].id == self.preds@[k].id);
            }
        }
        d
    }

    /// End of a tick: starvation deaths, reproduction and the population floor.
    /// Agents with energy at most 0 are removed (the rest keep their order);
    /// survivors may reproduce (see `spec_herb_rule`, `spec_pred_rule`); then a
    /// population below its floor (20 herbivores, 6 predators) is reseeded with
    /// chance 0.25 (herbivores: 18 at energy 1.4) or 0.20 (predators: 5 at
    /// energy 1.8). Newborns get fresh ids while ids remain. `eaten` counts the
    /// herbivores captured earlier in the tick.
    pub fn cleanup_repro(&mut self, rng: &mut rand::rngs::StdRng, set: SimSettings, eaten: u32) -> (d: Deltas)
        requires
            old(self).wf(),
        ensures
            final(self).wf(),
            old(self).cleanup_tick(*final(self), eaten, d),
            kept_or_fresh(old(self).herbs@, final(self).herbs@, old(self).next_id as int),
            kept_or_fresh(old(self).preds@, final(self).preds@, old(self).next_id as int),
            forall|k: int| 0 <= k < final(self).herbs@.len() ==> (#[trigger] final(self).herbs@[k]).e > 0,
            forall|k: int| 0 <= k < final(self).preds@.len() ==> (#[trigger] final(self).preds@[k]).e > 0,
            old(self).ids_ok() ==> final(self).ids_ok(),
    {
        let herb_before = self.herbs.len();
        let pred_before = self.preds.len();
        let mut herbs = survivors(&self.herbs);
        let mut preds = survivors(&self.preds);
        let herb_after = herbs.len();
        let pred_after = preds.len();
        let ghost sh = herbs@;
        let ghost sp = preds@;

        let mut next_id = self.next_id;
        let ghost n0 = next_id as int;
        reproduce(&mut herbs, &mut next_id, rng, herb_rule());
        let ghost n1 = next_id as int;
        let ghost h1 = herbs@.len() as int;
        let ghost hb = herbs@;
        reproduce(&mut preds, &mut next_id, rng, pred_rule());
        let ghost n2 = next_id as int;
        let ghost p1 = preds@.len() as int;
        let ghost pb = preds@;
        population_floor(&mut herbs, &mut next_id, rng, 20, 250, 18, 1_400_000);
        let ghost n3 = next_id as int;
        population_floor(&mut preds, &mut next_id, rng, 6, 200, 5, 1_800_000);
        let ghost n4 = next_id as int;
        let herb_birth = count_u32(herbs.len() - herb_after);
        let pred_birth = count_u32(preds.len() - pred_after);
        let herb_death = count_u32(herb_before - herb_after).saturating_add(eaten);
        let pred_death = count_u32(pred_before - pred_after);

        proof {
            let fh = herbs@;
            let fp = preds@;
            assert forall|k: int| sh.len() <= k < fh.len() implies n0 <= (#[trigger] fh[k]).id < n4 by {
                if k < h1 {
                    assert(fh[k].id == n0 + (k - sh.len()));
                } else {
                    assert(fh[k].id == n2 + (k - h1));
                }
            }
            assert forall|k: int| sp.len() <= k < fp.len() implies n0 <= (#[trigger] fp[k]).id < n4 by {
                if k < p1 {
                    assert(fp[k].id == n1 + (k - sp.len()));
                } else {
                    assert(fp[k].id == n3 + (k - p1));
                }
            }
            assert forall|k: int, l: int| sh.len() <= k < l < fh.len() implies #[trigger] fh[k].id < #[trigger] fh[l].id by {
                if l < h1 {
                } else if k < h1 {
                    assert(fh[k].id < n1);
                } else {
                }
            }
            assert forall|k: int, l: int| sp.len() <= k < l < fp.len() implies #[trigger] fp[k].id < #[trigger] fp[l].id by {
                if l < p1 {
                } else if k < p1 {
                    assert(fp[k].id < n2);
                } else {
                }
            }
            if old(self).ids_ok() {
                assert forall|k: int, l: int| 0 <= k < fh.len() && 0 <= l < fh.len() && k != l implies
                    #[trigger] fh[k].id != #[trigger] fh[l].id by {
                    if k < sh.len() && l < sh.len() {
                        assert(fh[k].id == sh[k].id && fh[l].id == sh[l].id);
                    } else if k < sh.len() {
                        assert(fh[k].id == sh[k].id);
                        let j = choose|j: int| 0 <= j < old(self).herbs@.len() && sh[k] == old(self).herbs@[j];
                        assert(old(self).herbs@[j].id < n0);
                    } else if l < sh.len() {
                        assert(fh[l].id == sh[l].id);
                        let j = choose|j: int| 0 <= j < old(self).herbs@.len() && sh[l] == old(self).herbs@[j];
                        assert(old(self).herbs@[j].id < n0);
                    }
                }
                assert forall|k: int, l: int| 0 <= k < fp.len() && 0 <= l < fp.len() && k != l implies
                    #[trigger] fp[k].id != #[trigger] fp[l].id by {
                    if k < sp.len() && l < sp.len() {
                        assert(fp[k].id == sp[k].id && fp[l].id == sp[l].id);
                    } else if k < sp.len() {
                        assert(fp[k].id == sp[k].id);
                        let j = choose|j: int| 0 <= j < old(self).preds@.len() && sp[k] == old(self).preds@[j];
                        assert(old(self).preds@[j].id < n0);
                    } else if l < sp.len() {
                        assert(fp[l].id == sp[l].id);
                        let j = choose|j: int| 0 <= j < old(self).preds@.len() && sp[l] == old(self).preds@[j];
                        assert(old(self).preds@[j].id < n0);
                    }
                }
                assert forall|k: int, l: int| 0 <= k < fh.len() && 0 <= l < fp.len() implies
                    #[trigger] fh[k].id != #[trigger] fp[l].id by {
                    if k < sh.len() && l < sp.len() {
                        assert(fh[k].id == sh[k].id && fp[l].id == sp[l].id);
                        let j = choose|j: int| 0 <= j < old(self).herbs@.len() && sh[k] == old(self).herbs@[j];
                        let i = choose|i: int| 0 <= i < old(self).preds@.len() && sp[l] == old(self).preds@[i];
                        assert(old(self).herbs@[j].id != old(self).preds@[i].id);
                    } else if k < sh.len() {
                        assert(fh[k].id == sh[k].id);
                        let j = choose|j: int| 0 <= j < old(self).herbs@.len() && sh[k] == old(self).herbs@[j];
                        assert(old(self).herbs@[j].id < n0);
                    } else if l < sp.len() {
                        assert(fp[l].id == sp[l].id);
                        let i = choose|i: int| 0 <= i < old(self).preds@.len() && sp[l] == old(self).preds@[i];
                        assert(old(self).preds@[i].id < n0);
                    } else {
                        // the four spawn batches take disjoint id ranges
                        if k < h1 {
                            assert(n0 <= fh[k].id < n1);
                        } else {
                            assert(n2 <= fh[k].id < n3);
                        }
                        if l < p1 {
                            assert(n1 <= fp[l].id < n2);
                        } else {
                            assert(n3 <= fp[l].id < n4);
                        }
                    }
                }
                assert forall|k: int| 0 <= k < fh.len() implies (#[trigger] fh[k]).id < n4 by {
                    if k < sh.len() {
                        assert(fh[k].id == sh[k].id);
                        let j = choose|j: int| 0 <= j < old(self).herbs@.len() && sh[k] == old(self).herbs@[j];
                        assert(old(self).herbs@[j].id < n0);
                    }
                }
                assert forall|k: int| 0 <= k < fp.len() implies (#[trigger] fp[k]).id < n4 by {
                    if k < sp.len() {
                        assert(fp[k].id == sp[k].id);
                        let j = choose|j: int| 0 <= j < old(self).preds@.len() && sp[k] == old(self).preds@[j];
                        assert(old(self).preds@[j].id < n0);
                    }
                }
            }
        }
        self.herbs = herbs;
        self.preds = preds;
        self.next_id = next_id;
        assert(old(self).births(*self, sh, sp, hb, pb));
        assert forall|k: int| 0 <= k < self.herbs@.len() implies (#[trigger] self.herbs@[k]).id >= n0
            || exists|j: int| 0 <= j < old(self).herbs@.len() && old(self).herbs@[j].id == self.herbs@[k].id by {
            if k < sh.len() {
                assert(bred_from(sh[k], self.herbs@[k], spec_herb_rule()));
                let j = choose|j: int| 0 <= j < old(self).herbs@.len() && sh[k] == old(self).herbs@[j];
                assert(old(self).herbs@[j].id == self.herbs@[k].id);
            }
        }
        assert forall|k: int| 0 <= k < self.preds@.len() implies (#[trigger] self.preds@[k]).id >= n0
            || exists|j: int| 0 <= j < old(self).preds@.len() && old(self).preds@[j].id == self.preds@[k].id by {
            if k < sp.len() {
                assert(bred_from(sp[k], self.preds@[k], spec_pred_rule()));
                let j = choose|j: int| 0 <= j < old(self).preds@.len() && sp[k] == old(self).preds@[j];
                assert(old(self).preds@[j].id == self.preds@[k].id);
            }
        }
        Deltas { herb_birth, herb_death, pred_birth, pred_death }
    }

    /// The population of the given species.
    pub open spec fn population(&self, kind: TrackKind) -> Seq<Agent> {
        match kind {
            TrackKind::Herb => self.herbs@,
            TrackKind::Pred => self.preds@,
        }
    }

    /// Aggregate snapshot: mean plant fraction in parts per million, population
    /// sizes and mean energies.
    pub fn counts(&self) -> (r: Counts)
        requires
            self.wf(),
        ensures
            r.plants_avg == plant_sum(self.plants@) * 1_000_000 / (N_CELLS * 255),
            r.herbs == sat_u32(self.herbs@.len() as int),
            r.preds == sat_u32(self.preds@.len() as int),
            r.herb_e_avg == mean_energy(self.herbs@),
            r.pred_e_avg == mean_energy(self.preds@),
    {
        let mut s: u64 = 0;
        let mut i: usize = 0;
        while i < self.plants.len()
            invariant
                i <= self.plants@.len(),
                self.plants@.len() == N_CELLS,
                s == plant_sum(self.plants@.subrange(0, i as int)),
                s <= 255 * i,
            decreases self.plants@.len() - i,
        {
            proof {
                assert(self.plants@.subrange(0, i + 1).drop_last() =~= self.plants@.subrange(0, i as int));
            }
            s = s + self.plants[i] as u64;
            i += 1;
        }
        assert(self.plants@.subrange(0, N_CELLS as int) =~= self.plants@);
        assert(s * 1_000_000 / (N_CELLS * 255) <= 1_000_000) by (nonlinear_arith)
            requires
                s <= 255 * N_CELLS,
        ;
        let plants_avg = (s * 1_000_000 / (N_CELLS as u64 * 255)) as u32;
        Counts {
            plants_avg,
            herbs: count_u32(self.herbs.len()),
            preds: count_u32(self.preds.len()),
            herb_e_avg: World::mean_e(&self.herbs),
            pred_e_avg: World::mean_e(&self.preds),
        }
    }

    /// Mean energy of a population, rounded toward zero; 0 when it is empty.
    fn mean_e(agents: &Vec<Agent>) -> (r: i32)
        ensures
            r == mean_energy(agents@),
    {
        let n = agents.len();
        if n == 0 {
            return 0;
        }
        let mut s: i128 = 0;
        let mut i: usize = 0;
        while i < n
            invariant
                i <= n,
                n == agents@.len(),
                s == energy_sum(agents@.subrange(0, i as int)),
                i * (i32::MIN as int) <= s <= i * (i32::MAX as int),
            decreases n - i,
        {
            proof {
                assert(agents@.subrange(0, i + 1).drop_last() =~= agents@.subrange(0, i as int));
            }
            s = s + agents[i].e as i128;
            i += 1;
        }
        assert(agents@.subrange(0, n as int) =~= agents@);
        let q: i128 = if s >= 0 { s / n as i128 } else { -((-s) / n as i128) };
        assert(i32::MIN <= q <= i32::MAX) by (nonlinear_arith)
            requires
                n > 0,
                n * (i32::MIN as int) <= s <= n * (i32::MAX as int),
                s >= 0 ==> q == s as int / (n as int),
                s < 0 ==> q == -((-s) / (n as int)),
        {
            if s >= 0 {
                assert(s as int / (n as int) <= i32::MAX);
            } else {
                assert((-s) / (n as int) <= -(i32::MIN as int));
            }
        }
        q as i32
    }

    /// The agent of the given species and id, if it is alive.
    pub fn tracked_info(&self, t: TrackTarget) -> (r: Option<TrackedInfo>)
        ensures
            tracked_ok(self.population(t.kind), t, r),
    {
        let agents = match t.kind {
            TrackKind::Herb => &self.herbs,
            TrackKind::Pred => &self.preds,
        };
        assert(agents@ == self.population(t.kind));
        let mut i: usize = 0;
        while i < agents.len()
            invariant
                i <= agents@.len(),
                agents@ == self.population(t.kind),
                forall|k: int| 0 <= k < i ==> (#[trigger] agents@[k]).id != t.id,
            decreases agents@.len() - i,
        {
            let a = agents[i];
            if a.id == t.id {
                assert(first_with_id(agents@, t.id, i as int));
                assert(agents@[i as int].id == t.id);
                let info = TrackedInfo { kind: t.kind, id: a.id, e: a.e, age: a.age, p: a.p };
                assert(info == snapshot(t.kind, agents@[i as int]));
                assert(tracked_ok(agents@, t, Some(info)));
                return Some(info);
            }
            i += 1;
        }
        None
    }

    /// The agent nearest to `q` within `PICK_RADIUS`, for point-and-click
    /// inspection.
    pub fn pick_target(&self, q: Pos) -> (r: Option<TrackTarget>)
        requires
            self.wf(),
            q.valid(),
        ensures
            pick_ok(self.herbs@, self.preds@, q, r),
    {
        let hp = World::positions(&self.herbs);
        let pp = World::positions(&self.preds);
        let h = nearest_within(q, &hp, PICK_RADIUS);
        let p = nearest_within(q, &pp, PICK_RADIUS);
        match (h, p) {
            (None, None) => None,
            (Some(k), None) => {
                assert(is_first_nearest(q, hp@, PICK_RADIUS as int, k as int));
                Some(TrackTarget { kind: TrackKind::Herb, id: self.herbs[k].id })
            },
            (None, Some(k)) => {
                assert(is_first_nearest(q, pp@, PICK_RADIUS as int, k as int));
                Some(TrackTarget { kind: TrackKind::Pred, id: self.preds[k].id })
            },
            (Some(kh), Some(kp)) => {
                let dh = toroid_dist_sq(q, hp[kh]);
                let dp = toroid_dist_sq(q, pp[kp]);
                if dp < dh {
                    assert(is_first_nearest(q, pp@, PICK_RADIUS as int, kp as int));
                    Some(TrackTarget { kind: TrackKind::Pred, id: self.preds[kp].id })
                } else {
                    assert(is_first_nearest(q, hp@, PICK_RADIUS as int, kh as int));
                    Some(TrackTarget { kind: TrackKind::Herb, id: self.herbs[kh].id })
                }
            },
        }
    }

    /// Grid update of one tick: every cell grows by `plant_grow` plus a random
    /// jitter of 0 or 1 (saturating at 255), then `N_CELLS / 6` spread trials
    /// may each add 45 to a sparse cell next to a dense one.
    pub fn plants_step(&mut self, rng: &mut rand::rngs::StdRng, set: SimSettings)
        requires
            old(self).wf(),
        ensures
            final(self).wf(),
            old(self).plants_tick(*final(self), set),
            forall|i: int|
                0 <= i < N_CELLS ==> spec_grow_cell(old(self).plants@[i], set.plant_grow, 0)
                    <= #[trigger] final(self).plants@[i] <= grown_max(old(self).plants@[i], set.plant_grow),
    {
        let mut jitter: Vec<u8> = Vec::new();
        let mut i: usize = 0;
        while i < N_CELLS
            invariant
                i <= N_CELLS,
                jitter@.len() == i,
                forall|k: int| 0 <= k < i ==> #[trigger] jitter@[k] <= 1,
            decreases N_CELLS - i,
        {
            jitter.push(draw_below(rng, 2) as u8);
            i += 1;
        }
        let ghost before = self.plants@;
        grow_pass(&mut self.plants, set.plant_grow, &jitter);
        assert(self.plants@ =~= grown(before, set.plant_grow, jitter@));
        let ghost mut trials: Seq<Seq<u8>> = seq![self.plants@];

        let tries: usize = N_CELLS / 6;
        let mut t: usize = 0;
        while t < tries
            invariant
                t <= tries,
                self.wf(),
                self.herbs@ == old(self).herbs@,
                self.preds@ == old(self).preds@,
                self.next_id == old(self).next_id,
                before == old(self).plants@,
                forall|k: int|
                    0 <= k < N_CELLS ==> spec_grow_cell(before[k], set.plant_grow, 0)
                        <= #[trigger] self.plants@[k] <= grown_max(before[k], set.plant_grow),
                tries == N_CELLS / 6,
                jitter@.len() == N_CELLS,
                forall|k: int| 0 <= k < N_CELLS ==> #[trigger] jitter@[k] <= 1,
                trials.len() == t + 1,
                trials[0] == grown(before, set.plant_grow, jitter@),
                trials.last() == self.plants@,
                forall|u: int| 0 <= u < t ==> spread_trial(#[trigger] trials[u], trials[u + 1], set.plant_spread),
            decreases tries - t,
        {
            let ghost g = self.plants@;
            let x = draw_below(rng, W as u32) as i32;
            let y = draw_below(rng, H as u32) as i32;
            let src = cell_index(x, y);
            if self.plants[src] >= crate::grid::SPREAD_SOURCE_MIN {
                let dx = draw_below(rng, 3) as i32 - 1;
                let dy = draw_below(rng, 3) as i32 - 1;
                if dx != 0 || dy != 0 {
                    let j = cell_index(x + dx, y + dy);
                    let v = self.plants[j];
                    if v < crate::grid::SPREAD_TARGET_MAX {
                        let u = draw_below(rng, PROB_DEN);
                        self.plants.set(j, spread_into(v, u, set.plant_spread));
                        proof {
                            if u < set.plant_spread {
                                assert(spreads_from(g, self.plants@, x as int, y as int, dx as int, dy as int));
                            } else {
                                assert(self.plants@ =~= g);
                            }
                        }
                    }
                }
            }
            proof {
                trials = trials.push(self.plants@);
                assert forall|u: int| 0 <= u < t + 1 implies spread_trial(
                    #[trigger] trials[u],
                    trials[u + 1],
                    set.plant_spread,
                ) by {
                    if u < t {
                        assert(trials[u] == trials.drop_last()[u]);
                        assert(trials[u + 1] == trials.drop_last()[u + 1]);
                    }
                }
            }
            t += 1;
        }
    }
}

} // verus!
