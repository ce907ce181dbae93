//! State of the interactive driver that is not drawing: the recent history of
//! counts, the event log, the settings editor and the fixed-step clock.

use vstd::prelude::*;

use crate::config::{Counts, Deltas, SimSettings, SimTuning};

verus! {

/// Counts and deltas recorded after one displayed frame.
#[derive(Clone, Copy, Debug, PartialEq, Eq, Structural)]
pub struct Sample {
    pub step: u64,
    pub counts: Counts,
    pub deltas: Deltas,
}

/// The most recent samples, oldest first, at most `cap` of them.
pub struct StatsHistory {
    cap: usize,
    samples: Vec<Sample>,
}

/// Number of samples a history keeps.
pub const HISTORY_CAP: usize = 520;

/// The last `cap` elements of `s` (all of them when there are fewer).
pub open spec fn keep_last<A>(s: Seq<A>, cap: int) -> Seq<A> {
    if s.len() > cap {
        s.subrange(s.len() - cap, s.len() as int)
    } else {
        s
    }
}

/// `m` is the largest of `floor` and the values `f(s[k])`.
pub open spec fn is_max_of(s: Seq<Sample>, f: spec_fn(Sample) -> int, floor: int, m: int) -> bool {
    &&& m >= floor
    &&& forall|k: int| 0 <= k < s.len() ==> m >= f(#[trigger] s[k])
    &&& (m == floor || exists|k: int| 0 <= k < s.len() && m == f(#[trigger] s[k]))
}

/// Largest value of one series of `s`, or `floor` if that is larger.
fn max_series(s: &Vec<Sample>, sel: u8, floor: i64) -> (r: i64)
    requires
        sel < 4,
    ensures
        is_max_of(s@, |x: Sample| series(x, sel), floor as int, r as int),
{
    let mut m = floor;
    let mut i: usize = 0;
    while i < s.len()
        invariant
            i <= s@.len(),
            sel < 4,
            is_max_of(s@.subrange(0, i as int), |x: Sample| series(x, sel), floor as int, m as int),
        decreases s@.len() - i,
    {
        let x = s[i];
        let v: i64 = if sel == 0 {
            x.counts.herbs as i64
        } else if sel == 1 {
            x.counts.preds as i64
        } else if sel == 2 {
            x.counts.herb_e_avg as i64
        } else {
            x.counts.pred_e_avg as i64
        };
        assert(v == series(x, sel));
        let ghost old_m = m;
        if v > m {
            m = v;
        }
        proof {
            let p = s@.subrange(0, i as int);
            let q = s@.subrange(0, i + 1);
            assert(q[i as int] == x);
            assert forall|k: int| 0 <= k < q.len() implies m >= series(#[trigger] q[k], sel) by {
                if k < i {
                    assert(q[k] == p[k]);
                }
            }
            if m != floor {
                if m == v {
                    assert(m == series(q[i as int], sel));
                } else {
                    let k = choose|k: int| 0 <= k < p.len() && old_m == series(#[trigger] p[k], sel);
                    assert(q[k] == p[k]);
                }
            }
        }
        i += 1;
    }
    assert(s@.subrange(0, s@.len() as int) =~= s@);
    m
}

/// Series `sel` of a sample: herbivores, predators, herbivore energy, predator
/// energy.
pub open spec fn series(x: Sample, sel: u8) -> int {
    if sel == 0 {
        x.counts.herbs as int
    } else if sel == 1 {
        x.counts.preds as int
    } else if sel == 2 {
        x.counts.herb_e_avg as int
    } else {
        x.counts.pred_e_avg as int
    }
}

impl StatsHistory {
    pub closed spec fn view_samples(&self) -> Seq<Sample> {
        self.samples@
    }

    pub closed spec fn capacity(&self) -> int {
        self.cap as int
    }

    /// An empty history that keeps `HISTORY_CAP` samples.
    pub fn new() -> (r: StatsHistory)
        ensures
            r.view_samples() == Seq::<Sample>::empty(),
            r.capacity() == HISTORY_CAP,
    {
        StatsHistory { cap: HISTORY_CAP, samples: Vec::new() }
    }

    /// Records a sample, dropping the oldest beyond the capacity.
    pub fn push(&mut self, s: u64, c: Counts, d: Deltas)
        requires
            old(self).view_samples().len() <= old(self).capacity(),
        ensures
            final(self).capacity() == old(self).capacity(),
            final(self).view_samples() == keep_last(
                old(self).view_samples().push(Sample { step: s, counts: c, deltas: d }),
                old(self).capacity(),
            ),
    {
        self.samples.push(Sample { step: s, counts: c, deltas: d });
        if self.samples.len() > self.cap {
            let ghost before = self.samples@;
            self.samples.remove(0);
            assert(self.samples@ =~= before.subrange(before.len() - self.cap, before.len() as int));
        }
    }

    /// Number of samples held.
    pub fn len(&self) -> (r: usize)
        ensures
            r == self.view_samples().len(),
    {
        self.samples.len()
    }

    /// The samples, oldest first.
    pub fn samples(&self) -> (r: &Vec<Sample>)
        ensures
            r@ == self.view_samples(),
    {
        &self.samples
    }

    /// Largest population of either species in the history, at least 1.
    pub fn max_agents_recent(&self) -> (r: u32)
        ensures
            r >= 1,
            forall|k: int|
                0 <= k < self.view_samples().len() ==> r >= (#[trigger] self.view_samples()[k]).counts.herbs
                    && r >= self.view_samples()[k].counts.preds,
            r == 1 || exists|k: int|
                0 <= k < self.view_samples().len() && (r == (#[trigger] self.view_samples()[k]).counts.herbs
                    || r == self.view_samples()[k].counts.preds),
    {
        let a = max_series(&self.samples, 0, 1);
        let b = max_series(&self.samples, 1, 1);
        let r = if a > b { a } else { b };
        proof {
            let s = self.samples@;
            assert forall|k: int| 0 <= k < s.len() implies r >= (#[trigger] s[k]).counts.herbs && r
                >= s[k].counts.preds by {
                assert(a >= series(s[k], 0));
                assert(b >= series(s[k], 1));
            }
            if r != 1 {
                if r == a {
                    let k = choose|k: int| 0 <= k < s.len() && a == series(#[trigger] s[k], 0);
                    assert(r == self.view_samples()[k].counts.herbs);
                } else {
                    let k = choose|k: int| 0 <= k < s.len() && b == series(#[trigger] s[k], 1);
                    assert(r == self.view_samples()[k].counts.preds);
                }
            }
        }
        r as u32
    }

    /// Largest mean energy of either species in the history, at least 0.1
    /// (in energy units).
    pub fn max_energy_recent(&self) -> (r: i32)
        ensures
            r >= 100_000,
            forall|k: int|
                0 <= k < self.view_samples().len() ==> r >= (#[trigger] self.view_samples()[k]).counts.herb_e_avg
                    && r >= self.view_samples()[k].counts.pred_e_avg,
            r == 100_000 || exists|k: int|
                0 <= k < self.view_samples().len() && (r == (#[trigger] self.view_samples()[k]).counts.herb_e_avg
                    || r == self.view_samples()[k].counts.pred_e_avg),
    {
        let a = max_series(&self.samples, 2, 100_000);
        let b = max_series(&self.samples, 3, 100_000);
        let r = if a > b { a } else { b };
        proof {
            let s = self.samples@;
            assert forall|k: int| 0 <= k < s.len() implies r >= (#[trigger] s[k]).counts.herb_e_avg && r
                >= s[k].counts.pred_e_avg by {
                assert(a >= series(s[k], 2));
                assert(b >= series(s[k], 3));
            }
            if r != 100_000 {
                if r == a {
                    let k = choose|k: int| 0 <= k < s.len() && a == series(#[trigger] s[k], 2);
                    assert(r == self.view_samples()[k].counts.herb_e_avg);
                } else {
                    let k = choose|k: int| 0 <= k < s.len() && b == series(#[trigger] s[k], 3);
                    assert(r == self.view_samples()[k].counts.pred_e_avg);
                }
            }
        }
        r as i32
    }

    /// Largest birth or death count of either species in the history, at least 1.
    pub fn max_flow_recent(&self) -> (r: u32)
        ensures
            r >= 1,
            forall|k: int|
                0 <= k < self.view_samples().len() ==> flow_max(#[trigger] self.view_samples()[k]) <= r,
            r == 1 || exists|k: int|
                0 <= k < self.view_samples().len() && r == flow_max(#[trigger] self.view_samples()[k]),
    {
        let mut m: u32 = 1;
        let mut i: usize = 0;
        while i < self.samples.len()
            invariant
                i <= self.samples@.len(),
                m >= 1,
                forall|k: int| 0 <= k < i ==> flow_max(#[trigger] self.samples@[k]) <= m,
                m == 1 || exists|k: int| 0 <= k < i && m == flow_max(#[trigger] self.samples@[k]),
            decreases self.samples@.len() - i,
        {
            let d = self.samples[i].deltas;
            let mut f = d.herb_birth;
            if d.herb_death > f {
                f = d.herb_death;
            }
            if d.pred_birth > f {
                f = d.pred_birth;
            }
            if d.pred_death > f {
                f = d.pred_death;
            }
            assert(f == flow_max(self.samples@[i as int]));
            if f > m {
                m = f;
            }
            i += 1;
        }
        proof {
            if m != 1 {
                let k = choose|k: int| 0 <= k < i && m == flow_max(#[trigger] self.samples@[k]);
                assert(m == flow_max(self.view_samples()[k]));
            }
        }
        m
    }
}

/// Editor and log state of the driver.
pub struct UiState {
    /// Selected row of the settings editor.
    pub sel: usize,
    /// Event messages, newest first.
    pub log: Vec<String>,
    /// Most messages kept.
    pub log_cap: usize,
    /// Kind of the last event reported (0: none).
    pub last_tag: u8,
    /// Digits typed for a seed.
    pub seed_buf: String,
}

/// The first `cap` elements of `s` (all of them when there are fewer).
pub open spec fn keep_first<A>(s: Seq<A>, cap: int) -> Seq<A> {
    if s.len() > cap {
        s.subrange(0, cap)
    } else {
        s
    }
}

impl UiState {
    /// Row 0 selected, an empty log of capacity 10, no event, no seed digits.
    pub fn new() -> (r: UiState)
        ensures
            r.sel == 0,
            r.log@.len() == 0,
            r.log_cap == 10,
            r.last_tag == 0,
            r.seed_buf@.len() == 0,
    {
        UiState { sel: 0, log: Vec::new(), log_cap: 10, last_tag: 0, seed_buf: String::new() }
    }

    /// Puts a message at the front of the log, dropping the oldest beyond the
    /// capacity.
    pub fn log_push(&mut self, s: String)
        ensures
            final(self).log@ == keep_first(seq![s].add(old(self).log@), old(self).log_cap as int),
            final(self).sel == old(self).sel,
            final(self).log_cap == old(self).log_cap,
            final(self).last_tag == old(self).last_tag,
            final(self).seed_buf == old(self).seed_buf,
    {
        let ghost before = self.log@;
        self.log.insert(0, s);
        assert(self.log@ =~= seq![s].add(before));
        if self.log.len() > self.log_cap {
            self.log.truncate(self.log_cap);
            assert(self.log@ =~= keep_first(seq![s].add(before), self.log_cap as int));
        }
    }
}

/// Kind of event a snapshot shows: 1 herbivores extinct, 2 predators extinct,
/// 3 plants above 82% cover, 4 plants below 18% cover, 0 none.
pub open spec fn event_tag(c: Counts) -> u8 {
    if c.herbs == 0 {
        1
    } else if c.preds == 0 {
        2
    } else if c.plants_avg > 820_000 {
        3
    } else if c.plants_avg < 180_000 {
        4
    } else {
        0
    }
}

/// Message reported for event kind `tag`.
pub open spec fn event_text(tag: u8) -> Seq<char> {
    if tag == 1 {
        "herb extinction"@
    } else if tag == 2 {
        "pred extinction"@
    } else if tag == 3 {
        "plant bloom"@
    } else {
        "plant crash"@
    }
}

fn event_message(tag: u8) -> (r: String)
    requires
        1 <= tag <= 4,
    ensures
        r@ == event_text(tag),
{
    if tag == 1 {
        String::from_str("herb extinction")
    } else if tag == 2 {
        String::from_str("pred extinction")
    } else if tag == 3 {
        String::from_str("plant bloom")
    } else {
        String::from_str("plant crash")
    }
}

/// Logs an event when the snapshot shows one that differs from the last one
/// reported, and remembers its kind.
pub fn tick_events(ui: &mut UiState, c: Counts, d: Deltas)
    ensures
        final(ui).last_tag == event_tag(c),
        final(ui).log_cap == old(ui).log_cap,
        final(ui).sel == old(ui).sel,
        final(ui).seed_buf == old(ui).seed_buf,
        ({
            let tag = event_tag(c);
            if tag != 0 && tag != old(ui).last_tag {
                exists|msg: String|
                    msg@ == event_text(tag) && final(ui).log@ == keep_first(
                        #[trigger] seq![msg].add(old(ui).log@),
                        old(ui).log_cap as int,
                    )
            } else {
                final(ui).log@ == old(ui).log@
            }
        }),
{
    let tag: u8 = if c.herbs == 0 {
        1
    } else if c.preds == 0 {
        2
    } else if c.plants_avg > 820_000 {
        3
    } else if c.plants_avg < 180_000 {
        4
    } else {
        0
    };
    if tag != 0 && tag != ui.last_tag {
        let msg = event_message(tag);
        let ghost m = msg;
        ui.log_push(msg);
        assert(m@ == event_text(tag) && ui.log@ == keep_first(seq![m].add(old(ui).log@), old(ui).log_cap as int));
    }
    ui.last_tag = tag;
}

/// `v` moved by `step` in the given direction and clamped into `[lo, hi]`.
pub open spec fn adjusted(v: int, step: int, up: bool, lo: int, hi: int) -> int {
    let t = if up { v + step } else { v - step };
    if t < lo {
        lo
    } else if t > hi {
        hi
    } else {
        t
    }
}

fn adjust_u32(v: u32, step: u32, up: bool, lo: u32, hi: u32) -> (r: u32)
    requires
        lo <= hi,
    ensures
        r == adjusted(v as int, step as int, up, lo as int, hi as int),
{
    let t: i64 = if up { v as i64 + step as i64 } else { v as i64 - step as i64 };
    if t < lo as i64 {
        lo
    } else if t > hi as i64 {
        hi
    } else {
        t as u32
    }
}

/// Settings editor: row `idx` (0 to 8, in the field order of `SimSettings`) is
/// moved one step up or down and kept within its range.
pub fn apply_home_adjust(set: &mut SimSettings, idx: usize, up: bool)
    ensures
        ({
            let o = *old(set);
            let n = *final(set);
            if idx == 0 {
                n == (SimSettings { init_herbs: adjusted(o.init_herbs as int, 20, up, 0, 12000) as u32, ..o })
            } else if idx == 1 {
                n == (SimSettings { init_preds: adjusted(o.init_preds as int, 2, up, 0, 3000) as u32, ..o })
            } else if idx == 2 {
                n == (SimSettings { plant_grow: adjusted(o.plant_grow as int, 1, up, 0, 12) as u8, ..o })
            } else if idx == 3 {
                n == (SimSettings { plant_spread: adjusted(o.plant_spread as int, 30, up, 0, 950) as u32, ..o })
            } else if idx == 4 {
                n == (SimSettings { herb_speed: adjusted(o.herb_speed as int, 20, up, 40, 700) as u32, ..o })
            } else if idx == 5 {
                n == (SimSettings { pred_speed: adjusted(o.pred_speed as int, 20, up, 40, 850) as u32, ..o })
            } else if idx == 6 {
                n == (SimSettings { herb_met: adjusted(o.herb_met as int, 2000, up, 1000, 60000) as u32, ..o })
            } else if idx == 7 {
                n == (SimSettings { pred_met: adjusted(o.pred_met as int, 2000, up, 1000, 80000) as u32, ..o })
            } else if idx == 8 {
                n == (SimSettings { eat_radius: adjusted(o.eat_radius as int, 50, up, 150, 2000) as u32, ..o })
            } else {
                n == o
            }
        }),
{
    if idx == 0 {
        set.init_herbs = adjust_u32(set.init_herbs, 20, up, 0, 12000);
    } else if idx == 1 {
        set.init_preds = adjust_u32(set.init_preds, 2, up, 0, 3000);
    } else if idx == 2 {
        set.plant_grow = adjust_u32(set.plant_grow as u32, 1, up, 0, 12) as u8;
    } else if idx == 3 {
        set.plant_spread = adjust_u32(set.plant_spread, 30, up, 0, 950);
    } else if idx == 4 {
        set.herb_speed = adjust_u32(set.herb_speed, 20, up, 40, 700);
    } else if idx == 5 {
        set.pred_speed = adjust_u32(set.pred_speed, 20, up, 40, 850);
    } else if idx == 6 {
        set.herb_met = adjust_u32(set.herb_met, 2000, up, 1000, 60000);
    } else if idx == 7 {
        set.pred_met = adjust_u32(set.pred_met, 2000, up, 1000, 80000);
    } else if idx == 8 {
        set.eat_radius = adjust_u32(set.eat_radius, 50, up, 150, 2000);
    }
}

/// Fixed-step clock: with `acc_us` microseconds accumulated, the number of
/// steps to run this frame (one per whole step length, at most
/// `max_steps_per_frame`) and the time left over.
pub fn steps_due(t: SimTuning, acc_us: u64) -> (r: (u32, u64))
    requires
        t.fixed_dt_us > 0,
    ensures
        r.0 == (if acc_us as int / (t.fixed_dt_us as int) < t.max_steps_per_frame {
            acc_us as int / (t.fixed_dt_us as int)
        } else {
            t.max_steps_per_frame as int
        }),
        r.1 == acc_us - r.0 * t.fixed_dt_us,
{
    let mut acc = acc_us;
    let mut n: u32 = 0;
    while acc >= t.fixed_dt_us as u64 && n < t.max_steps_per_frame
        invariant
            t.fixed_dt_us > 0,
            n <= t.max_steps_per_frame,
            acc == acc_us - n * t.fixed_dt_us,
            acc >= 0,
        decreases acc,
    {
        assert((n + 1) * t.fixed_dt_us == n * t.fixed_dt_us + t.fixed_dt_us) by (nonlinear_arith);
        acc -= t.fixed_dt_us as u64;
        n += 1;
    }
    proof {
        let dt = t.fixed_dt_us as int;
        let q = acc_us as int / dt;
        vstd::arithmetic::div_mod::lemma_fundamental_div_mod(acc_us as int, dt);
        if n < t.max_steps_per_frame {
            // the loop stopped because less than a step is left
            assert(acc < dt);
            vstd::arithmetic::div_mod::lemma_fundamental_div_mod_converse(acc_us as int, dt, n as int, acc as int);
        } else {
            assert(q >= n) by (nonlinear_arith)
                requires
                    acc_us == n * dt + acc,
                    acc >= 0,
                    dt > 0,
                    q == acc_us as int / dt,
            {
                vstd::arithmetic::div_mod::lemma_div_is_ordered(n * dt, acc_us as int, dt);
                vstd::arithmetic::div_mod::lemma_div_multiples_vanish(n as int, dt);
            }
        }
    }
    (n, acc)
}

/// Expected load of a run, for the settings screen.
#[derive(Clone, Copy, Debug, PartialEq, Eq, Structural)]
pub enum PerfClass {
    Smooth,
    Fine,
    Heavy,
}

/// Estimated cost of one tick: every herbivore-predator pair plus eight units
/// per grid cell.
pub open spec fn tick_cost(set: SimSettings) -> int {
    set.init_herbs * set.init_preds + 8 * crate::config::N_CELLS
}

/// Classifies the settings by estimated tick cost against the number of
/// hardware threads (at least one): smooth up to 220000 per thread, fine up
/// to 520000, heavy beyond.
pub fn perf_label(set: SimSettings, cpu_threads: usize) -> (r: PerfClass)
    ensures
        ({
            let t = if cpu_threads == 0 { 1 } else { cpu_threads as int };
            &&& (r == PerfClass::Smooth) == (tick_cost(set) <= 220_000 * t)
            &&& (r == PerfClass::Fine) == (220_000 * t < tick_cost(set) <= 520_000 * t)
            &&& (r == PerfClass::Heavy) == (tick_cost(set) > 520_000 * t)
        }),
{
    assert(set.init_herbs * set.init_preds <= u32::MAX * u32::MAX) by (nonlinear_arith)
        requires
            set.init_herbs <= u32::MAX,
            set.init_preds <= u32::MAX,
    ;
    let est: u128 = set.init_herbs as u128 * set.init_preds as u128 + 8 * crate::config::N_CELLS as u128;
    let t: u128 = if cpu_threads == 0 { 1 } else { cpu_threads as u128 };
    if est <= 220_000 * t {
        PerfClass::Smooth
    } else if est <= 520_000 * t {
        PerfClass::Fine
    } else {
        PerfClass::Heavy
    }
}

/// Largest of the four birth and death counts of a sample.
pub open spec fn flow_max(x: Sample) -> u32 {
    let d = x.deltas;
    let a = if d.herb_death > d.herb_birth { d.herb_death } else { d.herb_birth };
    let b = if d.pred_birth > a { d.pred_birth } else { a };
    if d.pred_death > b { d.pred_death } else { b }
}

} // verus!
