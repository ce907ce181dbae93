//! Starvation, reproduction and the population floor, on one population at a
//! time.

use vstd::prelude::*;

use crate::config::{PROB_DEN, SPAN_X, SPAN_Y};
use crate::geom::Pos;
use crate::rng::draw_below;
use crate::util::wrap_coord;
use crate::world::{all_valid, distinct_ids, Agent};

verus! {

/// The agents of `s` whose energy is positive, in their order.
pub open spec fn survivors_of(s: Seq<Agent>) -> Seq<Agent> {
    s.filter(|a: Agent| a.e > 0)
}

/// Drops every agent whose energy is not positive, keeping the order of the rest.
pub fn survivors(v: &Vec<Agent>) -> (r: Vec<Agent>)
    ensures
        r@ == survivors_of(v@),
        forall|k: int| 0 <= k < r@.len() ==> (#[trigger] r@[k]).e > 0,
        forall|k: int| 0 <= k < r@.len() ==> exists|j: int| 0 <= j < v@.len() && #[trigger] r@[k] == v@[j],
        distinct_ids(v@) ==> distinct_ids(r@),
        all_valid(v@) ==> all_valid(r@),
{
    let mut r: Vec<Agent> = Vec::new();
    let ghost mut src: Seq<int> = Seq::empty();
    let mut i: usize = 0;
    while i < v.len()
        invariant
            i <= v@.len(),
            r@ == survivors_of(v@.subrange(0, i as int)),
            src.len() == r@.len(),
            forall|k: int| 0 <= k < src.len() ==> 0 <= #[trigger] src[k] < i && r@[k] == v@[src[k]],
            forall|k: int, l: int| 0 <= k < l < src.len() ==> #[trigger] src[k] < #[trigger] src[l],
            forall|k: int| 0 <= k < r@.len() ==> (#[trigger] r@[k]).e > 0,
        decreases v@.len() - i,
    {
        let a = v[i];
        proof {
            let s = v@.subrange(0, i + 1);
            assert(s.drop_last() =~= v@.subrange(0, i as int));
            assert(s.last() == a);
            reveal(Seq::filter);
        }
        if a.e > 0 {
            r.push(a);
            proof {
                src = src.push(i as int);
            }
        }
        i += 1;
    }
    assert(v@.subrange(0, v@.len() as int) =~= v@);
    assert forall|k: int| 0 <= k < r@.len() implies exists|j: int| 0 <= j < v@.len() && #[trigger] r@[k] == v@[j] by {
        assert(r@[k] == v@[src[k]]);
    }
    assert(distinct_ids(v@) ==> distinct_ids(r@)) by {
        if distinct_ids(v@) {
            assert forall|k: int, l: int| 0 <= k < r@.len() && 0 <= l < r@.len() && k != l implies
                #[trigger] r@[k].id != #[trigger] r@[l].id by {
                if k < l {
                    assert(src[k] < src[l]);
                } else {
                    assert(src[l] < src[k]);
                }
                assert(r@[k] == v@[src[k]] && r@[l] == v@[src[l]]);
            }
        }
    }
    assert(all_valid(v@) ==> all_valid(r@)) by {
        if all_valid(v@) {
            assert forall|k: int| 0 <= k < r@.len() implies (#[trigger] r@[k]).valid() by {
                assert(r@[k] == v@[src[k]]);
            }
        }
    }
    r
}

/// Parent energy after giving birth: `keep_pct` percent of `e`, rounded down.
pub open spec fn spec_after_birth(e: i32, keep_pct: i64) -> i32 {
    (e * keep_pct / 100) as i32
}

/// Offspring of `parent` with id `id`, placed at the parent's position moved by
/// `jitter` and wrapped; the parent keeps `keep_pct` percent of its energy.
pub fn give_birth(parent: &mut Agent, jitter: (i64, i64), id: u32, keep_pct: i64, child_e: i32) -> (child: Agent)
    requires
        old(parent).p.valid(),
        old(parent).e > 0,
        0 < keep_pct <= 100,
        -1000 <= jitter.0 <= 1000,
        -1000 <= jitter.1 <= 1000,
    ensures
        *final(parent) == (Agent { e: spec_after_birth(old(parent).e, keep_pct), ..*old(parent) }),
        child.id == id,
        child.p == (Pos {
            x: ((old(parent).p.x + jitter.0) % (SPAN_X as int)) as i32,
            y: ((old(parent).p.y + jitter.1) % (SPAN_Y as int)) as i32,
        }),
        child.pp == child.p,
        child.p.valid(),
        child.e == child_e,
        child.age == 0,
{
    assert(0 <= parent.e * keep_pct / 100 <= parent.e) by (nonlinear_arith)
        requires
            parent.e > 0,
            0 < keep_pct <= 100,
    ;
    parent.e = (parent.e as i64 * keep_pct / 100) as i32;
    let np = Pos {
        x: wrap_coord(parent.p.x as i64 + jitter.0, SPAN_X),
        y: wrap_coord(parent.p.y as i64 + jitter.1, SPAN_Y),
    };
    Agent { id, p: np, pp: np, e: child_e, age: 0 }
}

/// How one species reproduces.
#[derive(Clone, Copy, Debug, PartialEq, Eq, Structural)]
pub struct BreedRule {
    /// A parent needs more energy than this.
    pub min_energy: i32,
    /// Chance of a birth, in parts of `PROB_DEN`, for a parent that qualifies.
    pub chance: u32,
    /// Percent of its energy a parent keeps.
    pub keep_pct: i64,
    /// Half-width of the offspring's placement jitter, in position units.
    pub jitter: u32,
    /// Energy of the offspring.
    pub child_e: i32,
}

impl BreedRule {
    pub open spec fn wf(self) -> bool {
        &&& self.min_energy >= 100
        &&& 0 < self.keep_pct <= 100
        &&& self.jitter <= 500
        &&& self.child_e > 0
    }
}

/// Agent `b` is agent `a` after possibly giving birth under `rule`.
pub open spec fn bred_from(a: Agent, b: Agent, rule: BreedRule) -> bool {
    ||| b == a
    ||| (a.e > rule.min_energy && b == (Agent { e: spec_after_birth(a.e, rule.keep_pct), ..a }))
}

/// The agents of `s` from index `from` on are newborns numbered consecutively
/// from `first`, with energy `e`, age 0 and no previous move.
pub open spec fn newborns(s: Seq<Agent>, from: int, first: int, e: i32) -> bool {
    forall|k: int|
        from <= k < s.len() ==> {
            &&& (#[trigger] s[k]).id == first + (k - from)
            &&& s[k].e == e
            &&& s[k].age == 0
            &&& s[k].pp == s[k].p
        }
}

/// `child` is an offspring of `parent` under `rule`: at the parent's position
/// moved by at most `rule.jitter` units per axis and wrapped, with the rule's
/// starting energy, age 0 and no previous move.
pub open spec fn child_of(parent: Agent, child: Agent, rule: BreedRule) -> bool {
    &&& child.e == rule.child_e
    &&& child.age == 0
    &&& child.pp == child.p
    &&& exists|jx: int, jy: int|
        -rule.jitter <= jx <= rule.jitter && -rule.jitter <= jy <= rule.jitter && #[trigger] jittered(
            parent.p,
            jx,
            jy,
        ) == child.p
}

/// `p` moved by `(jx, jy)` and wrapped onto the torus.
pub open spec fn jittered(p: Pos, jx: int, jy: int) -> Pos {
    Pos { x: ((p.x + jx) % (SPAN_X as int)) as i32, y: ((p.y + jy) % (SPAN_Y as int)) as i32 }
}

/// `after` is `before` after a reproduction pass under `rule` whose newborns
/// are numbered from `first`: the agents at the increasing indices `parents`
/// had more than `rule.min_energy`, kept `rule.keep_pct` percent of it and each
/// gave one offspring, appended in the order of their parents; every other
/// agent is unchanged.
pub open spec fn bred_pass(before: Seq<Agent>, after: Seq<Agent>, first: int, rule: BreedRule) -> bool {
    exists|parents: Seq<int>|
        {
            &&& after.len() == before.len() + parents.len()
            &&& forall|k: int, l: int| 0 <= k < l < parents.len() ==> #[trigger] parents[k] < #[trigger] parents[l]
            &&& forall|k: int|
                0 <= k < parents.len() ==> bred_at(before, after, #[trigger] parents[k], before.len() + k, first + k, rule)
            &&& forall|j: int| 0 <= j < before.len() && !parents.contains(j) ==> #[trigger] after[j] == before[j]
        }
}

/// Agent `j` of `before` gave birth under `rule`: `after` holds it with its
/// reduced energy, and its offspring, numbered `id`, at index `c`.
pub open spec fn bred_at(before: Seq<Agent>, after: Seq<Agent>, j: int, c: int, id: int, rule: BreedRule) -> bool {
    &&& 0 <= j < before.len()
    &&& before[j].e > rule.min_energy
    &&& after[j] == (Agent { e: spec_after_birth(before[j].e, rule.keep_pct), ..before[j] })
    &&& child_of(before[j], after[c], rule)
    &&& after[c].id == id
}

/// Whether an agent with energy `e` gives birth under `rule` when its chance
/// draw, uniform in `[0, PROB_DEN)`, came out `u`.
pub fn breeds(e: i32, u: u32, rule: BreedRule) -> (r: bool)
    ensures
        r == (e > rule.min_energy && u < rule.chance),
{
    e > rule.min_energy && u < rule.chance
}

/// Reproduction pass over one population: each agent with more than
/// `min_energy` gives birth with probability `chance / PROB_DEN`, as long as ids
/// remain; the offspring are appended in the order of their parents.
pub fn reproduce(agents: &mut Vec<Agent>, next_id: &mut u32, rng: &mut rand::rngs::StdRng, rule: BreedRule)
    requires
        rule.wf(),
        all_valid(old(agents)@),
        forall|k: int| 0 <= k < old(agents)@.len() ==> (#[trigger] old(agents)@[k]).e > 0,
    ensures
        all_valid(final(agents)@),
        final(agents)@.len() >= old(agents)@.len(),
        *final(next_id) == *old(next_id) + (final(agents)@.len() - old(agents)@.len()),
        forall|k: int| 0 <= k < final(agents)@.len() ==> (#[trigger] final(agents)@[k]).e > 0,
        forall|k: int|
            0 <= k < old(agents)@.len() ==> bred_from(old(agents)@[k], #[trigger] final(agents)@[k], rule),
        newborns(final(agents)@, old(agents)@.len() as int, *old(next_id) as int, rule.child_e),
        bred_pass(old(agents)@, final(agents)@, *old(next_id) as int, rule),
{
    let n = agents.len();
    let mut born: Vec<Agent> = Vec::new();
    let ghost mut parents: Seq<int> = Seq::empty();
    let mut i: usize = 0;
    while i < n
        invariant
            i <= n,
            n == old(agents)@.len(),
            agents@.len() == n,
            rule.wf(),
            all_valid(agents@),
            all_valid(born@),
            *next_id == *old(next_id) + born@.len(),
            forall|k: int| 0 <= k < n ==> (#[trigger] agents@[k]).e > 0,
            forall|k: int| 0 <= k < born@.len() ==> (#[trigger] born@[k]).e > 0,
            forall|k: int| 0 <= k < n ==> bred_from(old(agents)@[k], #[trigger] agents@[k], rule),
            forall|k: int| i <= k < n ==> #[trigger] agents@[k] == old(agents)@[k],
            newborns(born@, 0, *old(next_id) as int, rule.child_e),
            parents.len() == born@.len(),
            forall|k: int, l: int| 0 <= k < l < parents.len() ==> #[trigger] parents[k] < #[trigger] parents[l],
            forall|k: int| 0 <= k < parents.len() ==> #[trigger] parents[k] < i,
            forall|k: int|
                0 <= k < parents.len() ==> bred_at(
                    old(agents)@,
                    agents@ + born@,
                    #[trigger] parents[k],
                    n + k,
                    *old(next_id) + k,
                    rule,
                ),
            forall|j: int| 0 <= j < n && !parents.contains(j) ==> #[trigger] agents@[j] == old(agents)@[j],
        decreases n - i,
    {
        let mut a = agents[i];
        let bred = if a.e > rule.min_energy {
            let u = draw_below(rng, PROB_DEN);
            breeds(a.e, u, rule)
        } else {
            false
        };
        if bred && *next_id < u32::MAX {
            let jx = draw_below(rng, 2 * rule.jitter + 1) as i64 - rule.jitter as i64;
            let jy = draw_below(rng, 2 * rule.jitter + 1) as i64 - rule.jitter as i64;
            let ghost e0 = a.e as int;
            let child = give_birth(&mut a, (jx, jy), *next_id, rule.keep_pct, rule.child_e);
            assert(1 <= e0 * rule.keep_pct / 100 <= e0) by (nonlinear_arith)
                requires
                    e0 > rule.min_energy >= 100,
                    0 < rule.keep_pct <= 100,
            ;
            assert(jittered(old(agents)@[i as int].p, jx as int, jy as int) == child.p);
            assert(child_of(old(agents)@[i as int], child, rule));
            *next_id = *next_id + 1;
            born.push(child);
            agents.set(i, a);
            proof {
                let before_push = parents;
                parents = parents.push(i as int);
                assert(parents[parents.len() - 1] == i);
                assert forall|j: int| 0 <= j < n && !parents.contains(j) implies #[trigger] agents@[j]
                    == old(agents)@[j] by {
                    if before_push.contains(j) {
                        let k = choose|k: int| 0 <= k < before_push.len() && before_push[k] == j;
                        assert(parents[k] == j);
                    }
                }
            }
        }
        i += 1;
    }
    let ghost before_append = agents@;
    agents.append(&mut born);
    proof {
        let b = old(agents)@;
        let f = agents@;
        assert forall|j: int| 0 <= j < b.len() && !parents.contains(j) implies #[trigger] f[j] == b[j] by {
            assert(f[j] == before_append[j]);
        }
        assert(bred_pass(b, f, *old(next_id) as int, rule));
    }
}

/// Number of agents a reseed of `count` adds when ids start at `first`: all of
/// them, or as many as ids remain below `u32::MAX`.
pub open spec fn min_added(count: int, first: int) -> int {
    if first + count <= u32::MAX {
        count
    } else {
        u32::MAX - first
    }
}

/// `after` is `before` after the extinction floor: nothing changes at or above
/// `floor` agents; below it, either nothing changes or `count` agents (as many
/// as ids allow) numbered from `first` are appended with energy `e`.
pub open spec fn floor_pass(before: Seq<Agent>, after: Seq<Agent>, floor: int, count: int, e: i32, first: int) -> bool {
    &&& after.len() >= before.len()
    &&& forall|k: int| 0 <= k < before.len() ==> #[trigger] after[k] == before[k]
    &&& before.len() >= floor ==> after.len() == before.len()
    &&& (after.len() == before.len() || after.len() - before.len() == min_added(count, first))
    &&& newborns(after, before.len() as int, first, e)
}

/// Population floor: appends `count` agents at random positions with energy `e`,
/// as long as ids remain.
pub fn reseed(agents: &mut Vec<Agent>, next_id: &mut u32, rng: &mut rand::rngs::StdRng, count: u32, e: i32)
    requires
        all_valid(old(agents)@),
        e > 0,
    ensures
        all_valid(final(agents)@),
        final(agents)@.len() >= old(agents)@.len(),
        final(agents)@.len() <= old(agents)@.len() + count,
        *final(next_id) == *old(next_id) + (final(agents)@.len() - old(agents)@.len()),
        forall|k: int| 0 <= k < old(agents)@.len() ==> #[trigger] final(agents)@[k] == old(agents)@[k],
        newborns(final(agents)@, old(agents)@.len() as int, *old(next_id) as int, e),
        final(agents)@.len() - old(agents)@.len() == min_added(count as int, *old(next_id) as int),
{
    let mut c: u32 = 0;
    while c < count && *next_id < u32::MAX
        invariant
            c <= count,
            all_valid(agents@),
            agents@.len() == old(agents)@.len() + c,
            *next_id == *old(next_id) + c,
            forall|k: int| 0 <= k < old(agents)@.len() ==> #[trigger] agents@[k] == old(agents)@[k],
            newborns(agents@, old(agents)@.len() as int, *old(next_id) as int, e),
        decreases count - c,
    {
        let x = draw_below(rng, SPAN_X as u32);
        let y = draw_below(rng, SPAN_Y as u32);
        let p = Pos { x: x as i32, y: y as i32 };
        agents.push(Agent { id: *next_id, p, pp: p, e, age: 0 });
        *next_id = *next_id + 1;
        c += 1;
    }
}

/// Whether a population of `len` agents is reseeded under a floor of `floor`
/// agents and a chance of `num` in `PROB_DEN`, when the floor's draw, uniform in
/// `[0, PROB_DEN)`, came out `u`.
pub fn reseed_due(len: usize, floor: usize, u: u32, num: u32) -> (r: bool)
    ensures
        r == (len < floor && u < num),
{
    len < floor && u < num
}

/// Extinction floor: when fewer than `floor` agents remain, with chance
/// `num / PROB_DEN`, `count` agents are added at random positions with energy
/// `e` (as long as ids remain). Returns whether the floor was applied.
pub fn population_floor(
    agents: &mut Vec<Agent>,
    next_id: &mut u32,
    rng: &mut rand::rngs::StdRng,
    floor: usize,
    num: u32,
    count: u32,
    e: i32,
) -> (applied: bool)
    requires
        all_valid(old(agents)@),
        e > 0,
    ensures
        all_valid(final(agents)@),
        applied ==> old(agents)@.len() < floor,
        old(agents)@.len() < floor && num >= PROB_DEN ==> applied,
        num == 0 ==> !applied,
        !applied ==> final(agents)@ == old(agents)@ && *final(next_id) == *old(next_id),
        applied ==> final(agents)@.len() - old(agents)@.len() == min_added(count as int, *old(next_id) as int),
        final(agents)@.len() >= old(agents)@.len(),
        final(agents)@.len() <= old(agents)@.len() + count,
        *final(next_id) == *old(next_id) + (final(agents)@.len() - old(agents)@.len()),
        forall|k: int| 0 <= k < old(agents)@.len() ==> #[trigger] final(agents)@[k] == old(agents)@[k],
        newborns(final(agents)@, old(agents)@.len() as int, *old(next_id) as int, e),
        floor_pass(old(agents)@, final(agents)@, floor as int, count as int, e, *old(next_id) as int),
{
    let due = if agents.len() < floor {
        let u = draw_below(rng, PROB_DEN);
        reseed_due(agents.len(), floor, u, num)
    } else {
        false
    };
    if due {
        reseed(agents, next_id, rng, count, e);
        true
    } else {
        assert(newborns(agents@, agents@.len() as int, *next_id as int, e));
        false
    }
}

} // verus!
