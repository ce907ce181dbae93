//! Points on the torus, wrapped displacements and nearest-point queries.

use vstd::prelude::*;

use crate::config::{SCALE, SPAN_X, SPAN_Y};
use crate::util::{isqrt, is_isqrt, wrap_coord};

verus! {

/// A point of the torus, in position units.
#[derive(Clone, Copy, Debug, PartialEq, Eq, Structural)]
pub struct Pos {
    pub x: i32,
    pub y: i32,
}

impl Pos {
    /// The point lies in `[0, SPAN_X) x [0, SPAN_Y)`.
    pub open spec fn valid(self) -> bool {
        0 <= self.x < SPAN_X && 0 <= self.y < SPAN_Y
    }
}

/// A displacement `d` brought into `[-span/2, span/2]` by one lap of the torus.
pub open spec fn wrap_delta(d: int, span: int) -> int {
    if d > span / 2 {
        d - span
    } else if d < -(span / 2) {
        d + span
    } else {
        d
    }
}

/// The shortest displacement from `a` to `b` on the torus.
pub open spec fn spec_toroid_vec(a: Pos, b: Pos) -> (int, int) {
    (wrap_delta(b.x - a.x, SPAN_X as int), wrap_delta(b.y - a.y, SPAN_Y as int))
}

/// Squared toroidal distance between `a` and `b`.
pub open spec fn spec_dist_sq(a: Pos, b: Pos) -> int {
    let v = spec_toroid_vec(a, b);
    v.0 * v.0 + v.1 * v.1
}

/// Shortest displacement from `a` to `b` on the torus.
pub fn toroid_vec(a: Pos, b: Pos) -> (r: (i64, i64))
    requires
        a.valid(),
        b.valid(),
    ensures
        r.0 == spec_toroid_vec(a, b).0,
        r.1 == spec_toroid_vec(a, b).1,
        -60000 <= r.0 <= 60000,
        -40000 <= r.1 <= 40000,
{
    let mut dx: i64 = b.x as i64 - a.x as i64;
    let mut dy: i64 = b.y as i64 - a.y as i64;
    if dx > (SPAN_X / 2) as i64 {
        dx -= SPAN_X as i64;
    }
    if dx < -((SPAN_X / 2) as i64) {
        dx += SPAN_X as i64;
    }
    if dy > (SPAN_Y / 2) as i64 {
        dy -= SPAN_Y as i64;
    }
    if dy < -((SPAN_Y / 2) as i64) {
        dy += SPAN_Y as i64;
    }
    (dx, dy)
}

/// Squared toroidal distance between two points.
pub fn toroid_dist_sq(a: Pos, b: Pos) -> (r: u64)
    requires
        a.valid(),
        b.valid(),
    ensures
        r == spec_dist_sq(a, b),
        r <= 5_200_000_000,
{
    let (dx, dy) = toroid_vec(a, b);
    assert(0 <= dx * dx <= 3_600_000_000 && 0 <= dy * dy <= 1_600_000_000) by (nonlinear_arith)
        requires
            -60000 <= dx <= 60000,
            -40000 <= dy <= 40000,
    ;
    (dx * dx + dy * dy) as u64
}

/// Toroidal distance between two points in position units, rounded down.
pub fn toroid_dist(a: Pos, b: Pos) -> (r: u64)
    requires
        a.valid(),
        b.valid(),
    ensures
        is_isqrt(spec_dist_sq(a, b), r as int),
{
    isqrt(toroid_dist_sq(a, b))
}

/// The toroidal distance is symmetric, and unchanged when both points are
/// moved by a whole lap of the torus in either direction.
pub proof fn lemma_toroid_dist_laws(a: Pos, b: Pos)
    requires
        a.valid(),
        b.valid(),
    ensures
        spec_dist_sq(a, b) == spec_dist_sq(b, a),
        spec_dist_sq(Pos { x: (a.x + SPAN_X) as i32, y: a.y }, Pos { x: (b.x + SPAN_X) as i32, y: b.y })
            == spec_dist_sq(a, b),
        spec_dist_sq(Pos { x: a.x, y: (a.y + SPAN_Y) as i32 }, Pos { x: b.x, y: (b.y + SPAN_Y) as i32 })
            == spec_dist_sq(a, b),
        forall|r: int| is_isqrt(spec_dist_sq(a, b), r) <==> is_isqrt(spec_dist_sq(b, a), r),
{
    let u = spec_toroid_vec(a, b);
    let v = spec_toroid_vec(b, a);
    assert(v.0 == -u.0 && v.1 == -u.1);
    assert(v.0 * v.0 == u.0 * u.0 && v.1 * v.1 == u.1 * u.1) by (nonlinear_arith)
        requires
            v.0 == -u.0,
            v.1 == -u.1,
    ;
}

/// `k` is the first index of a point nearest to `p` among `pts`, and that point
/// lies closer than `radius`.
pub open spec fn is_first_nearest(p: Pos, pts: Seq<Pos>, radius: int, k: int) -> bool {
    &&& 0 <= k < pts.len()
    &&& spec_dist_sq(p, pts[k]) < radius * radius
    &&& forall|j: int| 0 <= j < pts.len() ==> spec_dist_sq(p, pts[k]) <= #[trigger] spec_dist_sq(p, pts[j])
    &&& forall|j: int| 0 <= j < k ==> spec_dist_sq(p, pts[k]) < #[trigger] spec_dist_sq(p, pts[j])
}

/// No point of `pts` lies closer to `p` than `radius`.
pub open spec fn none_within(p: Pos, pts: Seq<Pos>, radius: int) -> bool {
    forall|j: int| 0 <= j < pts.len() ==> #[trigger] spec_dist_sq(p, pts[j]) >= radius * radius
}

/// Index of the point of `pts` nearest to `p` and closer than `radius`; of equally
/// near points, the first.
pub fn nearest_within(p: Pos, pts: &Vec<Pos>, radius: u32) -> (r: Option<usize>)
    requires
        p.valid(),
        forall|j: int| 0 <= j < pts@.len() ==> (#[trigger] pts@[j]).valid(),
    ensures
        r is None <==> none_within(p, pts@, radius as int),
        r matches Some(k) ==> is_first_nearest(p, pts@, radius as int, k as int),
{
    assert((radius as u64) * (radius as u64) <= u64::MAX) by (nonlinear_arith)
        requires
            radius <= u32::MAX,
    ;
    let r2: u64 = (radius as u64) * (radius as u64);
    let mut best: Option<usize> = None;
    let mut bestd: u64 = r2;
    let mut i: usize = 0;
    while i < pts.len()
        invariant
            i <= pts@.len(),
            p.valid(),
            forall|j: int| 0 <= j < pts@.len() ==> (#[trigger] pts@[j]).valid(),
            r2 == radius as int * radius as int,
            best is None ==> bestd == r2,
            best is None ==> forall|j: int| 0 <= j < i ==> #[trigger] spec_dist_sq(p, pts@[j]) >= r2,
            best matches Some(k) ==> {
                &&& k < i
                &&& bestd == spec_dist_sq(p, pts@[k as int])
                &&& bestd < r2
                &&& forall|j: int| 0 <= j < i ==> bestd <= #[trigger] spec_dist_sq(p, pts@[j])
                &&& forall|j: int| 0 <= j < k ==> bestd < #[trigger] spec_dist_sq(p, pts@[j])
            },
        decreases pts@.len() - i,
    {
        let d = toroid_dist_sq(p, pts[i]);
        if d < bestd {
            bestd = d;
            best = Some(i);
        }
        i += 1;
    }
    best
}

/// Direction away from the nearest predator, when one is closer than eight cells.
pub open spec fn flee_ok(p: Pos, preds: Seq<Pos>, r: (i64, i64)) -> bool {
    if none_within(p, preds, 8 * SCALE as int) {
        r == (0i64, 0i64)
    } else {
        exists|k: int|
            is_first_nearest(p, preds, 8 * SCALE as int, k) && r.0 == spec_toroid_vec(preds[k], p).0
                && r.1 == spec_toroid_vec(preds[k], p).1
    }
}

/// Displacement from the nearest predator to `p`, or zero when none is within
/// eight cells.
pub fn flee_dir(p: Pos, preds: &Vec<Pos>) -> (r: (i64, i64))
    requires
        p.valid(),
        forall|j: int| 0 <= j < preds@.len() ==> (#[trigger] preds@[j]).valid(),
    ensures
        flee_ok(p, preds@, r),
        -60000 <= r.0 <= 60000,
        -40000 <= r.1 <= 40000,
{
    match nearest_within(p, preds, (8 * SCALE) as u32) {
        Some(k) => toroid_vec(preds[k], p),
        None => (0, 0),
    }
}

/// Direction toward the nearest herbivore, when one is closer than eighteen cells.
pub open spec fn chase_ok(p: Pos, herbs: Seq<Pos>, r: (i64, i64)) -> bool {
    if none_within(p, herbs, 18 * SCALE as int) {
        r == (0i64, 0i64)
    } else {
        exists|k: int|
            is_first_nearest(p, herbs, 18 * SCALE as int, k) && r.0 == spec_toroid_vec(p, herbs[k]).0
                && r.1 == spec_toroid_vec(p, herbs[k]).1
    }
}

/// Displacement from `p` to the nearest herbivore, or zero when none is within
/// eighteen cells.
pub fn chase_dir(p: Pos, herbs: &Vec<Pos>) -> (r: (i64, i64))
    requires
        p.valid(),
        forall|j: int| 0 <= j < herbs@.len() ==> (#[trigger] herbs@[j]).valid(),
    ensures
        chase_ok(p, herbs@, r),
        -60000 <= r.0 <= 60000,
        -40000 <= r.1 <= 40000,
{
    match nearest_within(p, herbs, (18 * SCALE) as u32) {
        Some(k) => toroid_vec(p, herbs[k]),
        None => (0, 0),
    }
}

/// Number of headings a stalled agent picks from.
pub const N_HEADINGS: u32 = 32;

/// The 32 headings spaced evenly around the circle, from the positive x axis
/// toward the positive y axis, each about one cell long (components rounded to
/// the nearest position unit).
pub open spec fn headings() -> Seq<(i64, i64)> {
    seq![(1000i64, 0i64), (981i64, 195i64), (924i64, 383i64), (831i64, 556i64), (707i64, 707i64), (556i64, 831i64), (383i64, 924i64), (195i64, 981i64), (0i64, 1000i64), (-195i64, 981i64), (-383i64, 924i64), (-556i64, 831i64), (-707i64, 707i64), (-831i64, 556i64), (-924i64, 383i64), (-981i64, 195i64), (-1000i64, 0i64), (-981i64, -195i64), (-924i64, -383i64), (-831i64, -556i64), (-707i64, -707i64), (-556i64, -831i64), (-383i64, -924i64), (-195i64, -981i64), (0i64, -1000i64), (195i64, -981i64), (383i64, -924i64), (556i64, -831i64), (707i64, -707i64), (831i64, -556i64), (924i64, -383i64), (981i64, -195i64)]
}

/// Heading number `k` of `headings`.
pub open spec fn spec_heading(k: int) -> (i64, i64) {
    headings()[k]
}

/// Heading number `k`.
pub fn heading(k: u32) -> (r: (i64, i64))
    requires
        k < N_HEADINGS,
    ensures
        r == spec_heading(k as int),
{
    let table: [(i64, i64); 32] = [(1000i64, 0i64), (981i64, 195i64), (924i64, 383i64), (831i64, 556i64), (707i64, 707i64), (556i64, 831i64), (383i64, 924i64), (195i64, 981i64), (0i64, 1000i64), (-195i64, 981i64), (-383i64, 924i64), (-556i64, 831i64), (-707i64, 707i64), (-831i64, 556i64), (-924i64, 383i64), (-981i64, 195i64), (-1000i64, 0i64), (-981i64, -195i64), (-924i64, -383i64), (-831i64, -556i64), (-707i64, -707i64), (-556i64, -831i64), (-383i64, -924i64), (-195i64, -981i64), (0i64, -1000i64), (195i64, -981i64), (383i64, -924i64), (556i64, -831i64), (707i64, -707i64), (831i64, -556i64), (924i64, -383i64), (981i64, -195i64)];
    assert(table@ =~= headings());
    table[k as usize]
}

/// `a / b` rounded toward zero, for `b > 0`.
pub open spec fn div_toward_zero(a: int, b: int) -> int {
    if a >= 0 {
        a / b
    } else {
        -((-a) / b)
    }
}

/// Largest direction component that `advance` accepts.
pub const DIR_MAX: i64 = 100_000;

/// Factor by which `advance` enlarges a direction before measuring it, so that
/// rounding its length down changes the step by a negligible fraction.
pub const FINE: i64 = 16384;

/// Where `p` lands after moving `speed` units along `d`: `d` is scaled to length
/// `speed` (its length rounded down, each component rounded toward zero), and
/// the result wraps around the torus.
pub open spec fn spec_advance(p: Pos, d: (i64, i64), speed: int, len: int) -> Pos {
    Pos {
        x: ((p.x + div_toward_zero(d.0 * speed, len)) % (SPAN_X as int)) as i32,
        y: ((p.y + div_toward_zero(d.1 * speed, len)) % (SPAN_Y as int)) as i32,
    }
}

/// `len` is the length of `d`, rounded down.
pub open spec fn is_len(d: (i64, i64), len: int) -> bool {
    is_isqrt(d.0 * d.0 + d.1 * d.1, len)
}

/// `d` enlarged by `FINE`.
pub open spec fn fine(d: (i64, i64)) -> (i64, i64) {
    ((d.0 * FINE) as i64, (d.1 * FINE) as i64)
}

/// `to` is `from` moved `speed` units along `d`.
pub open spec fn advanced_along(from: Pos, to: Pos, d: (i64, i64), speed: int) -> bool {
    exists|len: int| is_len(fine(d), len) && len > 0 && to == spec_advance(from, fine(d), speed, len)
}

/// One component of a move: `c * speed / len` rounded toward zero.
fn scale_component(c: i64, speed: u32, len: u64) -> (r: i64)
    requires
        -DIR_MAX * FINE <= c <= DIR_MAX * FINE,
        c * c <= len * len,
        len > 0,
    ensures
        r == div_toward_zero(c * speed, len as int),
        -(speed as int) <= r <= speed,
{
    let mag: u64 = if c >= 0 { c as u64 } else { (-c) as u64 };
    assert(mag * mag == c * c) by (nonlinear_arith)
        requires
            mag == c || mag == -c,
    ;
    assert(mag * speed <= DIR_MAX * FINE * u32::MAX) by (nonlinear_arith)
        requires
            0 <= mag <= DIR_MAX * FINE,
            speed <= u32::MAX,
    ;
    assert(mag <= len) by (nonlinear_arith)
        requires
            mag * mag <= len * len,
            len > 0,
    ;
    let prod: u128 = (mag as u128) * (speed as u128);
    let q: u128 = prod / (len as u128);
    assert(q <= speed) by (nonlinear_arith)
        requires
            prod == mag * speed,
            q as int == prod as int / len as int,
            mag <= len,
            len > 0,
    ;
    if c >= 0 {
        q as i64
    } else {
        assert((c * speed) == -(mag * speed)) by (nonlinear_arith)
            requires
                mag == -c,
        ;
        -(q as i64)
    }
}

/// Moves `p` by `speed` units along the non-zero direction `d`, wrapping around
/// the torus. The step is `d` scaled to length `speed`, measured on `fine(d)`.
pub fn advance(p: Pos, d: (i64, i64), speed: u32) -> (r: Pos)
    requires
        p.valid(),
        d != (0i64, 0i64),
        -DIR_MAX <= d.0 <= DIR_MAX,
        -DIR_MAX <= d.1 <= DIR_MAX,
    ensures
        r.valid(),
        advanced_along(p, r, d, speed as int),
{
    let dx = d.0 * FINE;
    let dy = d.1 * FINE;
    assert(fine(d) == (dx, dy));
    assert(dx * dx <= (DIR_MAX * FINE) * (DIR_MAX * FINE) && dy * dy <= (DIR_MAX * FINE) * (DIR_MAX * FINE))
        by (nonlinear_arith)
        requires
            -DIR_MAX * FINE <= dx <= DIR_MAX * FINE,
            -DIR_MAX * FINE <= dy <= DIR_MAX * FINE,
    ;
    assert(dx * dx + dy * dy > 0) by (nonlinear_arith)
        requires
            dx != 0 || dy != 0,
    ;
    let n: u64 = (dx * dx + dy * dy) as u64;
    let len = isqrt(n);
    assert(len > 0) by (nonlinear_arith)
        requires
            n > 0,
            n < (len + 1) * (len + 1),
            len >= 0,
    ;
    assert(dx * dx <= len * len && dy * dy <= len * len) by (nonlinear_arith)
        requires
            n == dx * dx + dy * dy,
            len * len <= n,
            n < (len + 1) * (len + 1),
            len >= 0,
    {
        // an integer whose square is at most n has magnitude at most len
        if dx * dx > len * len {
            let m = if dx >= 0 { dx as int } else { -dx };
            assert(m * m == dx * dx);
            assert(m > len);
            assert(m >= len + 1);
            assert(m * m >= (len + 1) * (len + 1));
        }
        if dy * dy > len * len {
            let m = if dy >= 0 { dy as int } else { -dy };
            assert(m * m == dy * dy);
            assert(m >= len + 1);
            assert(m * m >= (len + 1) * (len + 1));
        }
    }
    let sx = scale_component(dx, speed, len);
    let sy = scale_component(dy, speed, len);
    let r = Pos { x: wrap_coord(p.x as i64 + sx, SPAN_X), y: wrap_coord(p.y as i64 + sy, SPAN_Y) };
    assert(is_len(fine(d), len as int));
    assert(r == spec_advance(p, fine(d), speed as int, len as int));
    r
}

} // verus!
