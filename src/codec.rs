//! The binary save format: a little-endian record of the settings and the whole
//! world, with no padding.
//!
//! ```text
//! magic "ECO3" | width: i32 | height: i32
//! settings: init_herbs u32, init_preds u32, plant_grow u8, plant_spread u32,
//!           herb_speed u32, pred_speed u32, herb_met u32, pred_met u32,
//!           eat_radius u32
//! next_id: u32 | grid_len: u32 | grid_len bytes
//! herb_count: u32 | herb_count agents | pred_count: u32 | pred_count agents
//! agent = id u32, x i32, y i32, prev_x i32, prev_y i32, energy i32, age u32
//! ```
//!
//! The fields that are fractional in the model (the spread chance, speeds,
//! metabolic costs, the capture radius, positions and energies) are stored as
//! the fixed-point integers the library holds them in, four bytes each, not as
//! IEEE `f32` values: an image that stores them as floats does not decode to
//! the same world. Loading also rejects an agent that lies off the torus.

use vstd::bytes::{
    lemma_auto_spec_u32_to_from_le_bytes, spec_u32_from_le_bytes, spec_u32_to_le_bytes,
    u32_from_le_bytes, u32_to_le_bytes,
};
use vstd::prelude::*;
use vstd::slice::slice_subrange;

use crate::config::{SimSettings, H, N_CELLS, W};
use crate::geom::Pos;
use crate::world::{all_valid, Agent, World};

verus! {

/// The four magic bytes, "ECO3".
pub open spec fn magic() -> Seq<u8> {
    seq![0x45u8, 0x43u8, 0x4fu8, 0x33u8]
}

/// Little-endian bytes of `v`.
pub open spec fn le32(v: u32) -> Seq<u8> {
    spec_u32_to_le_bytes(v)
}

/// Bytes of a settings record.
pub open spec fn settings_bytes(s: SimSettings) -> Seq<u8> {
    le32(s.init_herbs) + le32(s.init_preds) + seq![s.plant_grow] + le32(s.plant_spread) + le32(
        s.herb_speed,
    ) + le32(s.pred_speed) + le32(s.herb_met) + le32(s.pred_met) + le32(s.eat_radius)
}

/// Bytes of one agent record.
pub open spec fn agent_bytes(a: Agent) -> Seq<u8> {
    le32(a.id) + le32(a.p.x as u32) + le32(a.p.y as u32) + le32(a.pp.x as u32) + le32(a.pp.y as u32)
        + le32(a.e as u32) + le32(a.age)
}

/// Bytes of a sequence of agent records.
pub open spec fn agents_bytes(s: Seq<Agent>) -> Seq<u8>
    decreases s.len(),
{
    if s.len() == 0 {
        Seq::empty()
    } else {
        agents_bytes(s.drop_last()) + agent_bytes(s.last())
    }
}

/// The save image of a world with grid `plants`, populations `herbs` and
/// `preds` and id counter `next_id`, under settings `s`.
pub open spec fn encoded(plants: Seq<u8>, herbs: Seq<Agent>, preds: Seq<Agent>, next_id: u32, s: SimSettings) -> Seq<u8> {
    magic() + le32(W as u32) + le32(H as u32) + settings_bytes(s) + le32(next_id) + le32(
        plants.len() as u32,
    ) + plants + le32(herbs.len() as u32) + agents_bytes(herbs) + le32(preds.len() as u32)
        + agents_bytes(preds)
}

/// Offset of the grid bytes.
pub const GRID_AT: usize = 53;

/// Offset of the first herbivore record.
pub const HERBS_AT: usize = 9657;

/// Size of an agent record.
pub const AGENT_LEN: usize = 28;

/// The `u32` stored little-endian at offset `o` of `b`.
pub open spec fn rd32(b: Seq<u8>, o: int) -> u32 {
    spec_u32_from_le_bytes(b.subrange(o, o + 4))
}

/// The agent record stored at offset `o` of `b`.
pub open spec fn rd_agent(b: Seq<u8>, o: int) -> Agent {
    Agent {
        id: rd32(b, o),
        p: Pos { x: rd32(b, o + 4) as i32, y: rd32(b, o + 8) as i32 },
        pp: Pos { x: rd32(b, o + 12) as i32, y: rd32(b, o + 16) as i32 },
        e: rd32(b, o + 20) as i32,
        age: rd32(b, o + 24),
    }
}

/// The settings record stored at offset 12 of `b`.
pub open spec fn rd_settings(b: Seq<u8>) -> SimSettings {
    SimSettings {
        init_herbs: rd32(b, 12),
        init_preds: rd32(b, 16),
        plant_grow: b[20],
        plant_spread: rd32(b, 21),
        herb_speed: rd32(b, 25),
        pred_speed: rd32(b, 29),
        herb_met: rd32(b, 33),
        pred_met: rd32(b, 37),
        eat_radius: rd32(b, 41),
    }
}

/// The `n` agent records stored from offset `o` of `b`.
pub open spec fn rd_agents(b: Seq<u8>, o: int, n: nat) -> Seq<Agent> {
    Seq::new(n, |k: int| rd_agent(b, o + AGENT_LEN * k))
}

/// Offset of the predator count, after `hn` herbivore records.
pub open spec fn preds_count_at(hn: int) -> int {
    HERBS_AT + AGENT_LEN * hn
}

/// What a save image holds: grid, herbivores, predators, id counter and
/// settings. There is none when the magic or the stored grid dimensions differ,
/// the image ends early, or an agent lies off the torus; bytes after the last
/// record are ignored.
pub open spec fn spec_decode(b: Seq<u8>) -> Option<(Seq<u8>, Seq<Agent>, Seq<Agent>, u32, SimSettings)> {
    if b.len() < HERBS_AT || b.subrange(0, 4) != magic() || rd32(b, 4) != W as u32 || rd32(b, 8)
        != H as u32 || rd32(b, 49) != N_CELLS as u32 {
        None
    } else {
        let hn = rd32(b, 9653);
        let pc = preds_count_at(hn as int);
        if b.len() < pc + 4 {
            None
        } else {
            let pn = rd32(b, pc);
            let end = pc + 4 + AGENT_LEN * pn;
            let herbs = rd_agents(b, HERBS_AT as int, hn as nat);
            let preds = rd_agents(b, pc + 4, pn as nat);
            if b.len() < end || !all_valid(herbs) || !all_valid(preds) {
                None
            } else {
                Some((b.subrange(GRID_AT as int, GRID_AT + N_CELLS), herbs, preds, rd32(b, 45), rd_settings(b)))
            }
        }
    }
}

fn read_u32(b: &[u8], o: usize) -> (r: u32)
    requires
        o + 4 <= b@.len(),
    ensures
        r == rd32(b@, o as int),
{
    let _len = b.len();
    u32_from_le_bytes(slice_subrange(b, o, o + 4))
}

fn read_agent(b: &[u8], o: usize) -> (r: Agent)
    requires
        o + AGENT_LEN <= b@.len(),
    ensures
        r == rd_agent(b@, o as int),
{
    let _len = b.len();
    Agent {
        id: read_u32(b, o),
        p: Pos { x: as_i32(read_u32(b, o + 4)), y: as_i32(read_u32(b, o + 8)) },
        pp: Pos { x: as_i32(read_u32(b, o + 12)), y: as_i32(read_u32(b, o + 16)) },
        e: as_i32(read_u32(b, o + 20)),
        age: read_u32(b, o + 24),
    }
}

/// Reinterprets the bits of `v` as a signed value.
fn as_i32(v: u32) -> (r: i32)
    ensures
        r == v as i32,
{
    #[verifier::truncate]
    (v as i32)
}

/// Reads `n` agent records from offset `o`; none when one lies off the torus.
fn read_agents(b: &[u8], o: usize, n: usize) -> (r: Option<Vec<Agent>>)
    requires
        o + AGENT_LEN * n <= b@.len(),
    ensures
        match r {
            Some(v) => v@ == rd_agents(b@, o as int, n as nat) && all_valid(v@),
            None => !all_valid(rd_agents(b@, o as int, n as nat)),
        },
{
    let _len = b.len();
    let mut v: Vec<Agent> = Vec::new();
    let mut i: usize = 0;
    while i < n
        invariant
            i <= n,
            o + AGENT_LEN * n <= b@.len(),
            b@.len() <= usize::MAX,
            v@ =~= rd_agents(b@, o as int, i as nat),
            all_valid(v@),
        decreases n - i,
    {
        assert(o + AGENT_LEN * i + AGENT_LEN <= b@.len()) by (nonlinear_arith)
            requires
                i < n,
                o + AGENT_LEN * n <= b@.len(),
        ;
        let a = read_agent(b, o + AGENT_LEN * i);
        if !(a.p.x >= 0 && a.p.x < crate::config::SPAN_X && a.p.y >= 0 && a.p.y < crate::config::SPAN_Y
            && a.pp.x >= 0 && a.pp.x < crate::config::SPAN_X && a.pp.y >= 0 && a.pp.y
            < crate::config::SPAN_Y) {
            assert(rd_agents(b@, o as int, n as nat)[i as int] == a);
            return None;
        }
        v.push(a);
        i += 1;
    }
    Some(v)
}

/// An agent record is 28 bytes, its fields in order, four bytes each.
pub proof fn lemma_agent_bytes(a: Agent)
    ensures
        agent_bytes(a).len() == AGENT_LEN,
        forall|j: int| 0 <= j < 4 ==> #[trigger] agent_bytes(a)[j] == le32(a.id)[j],
        forall|j: int| 0 <= j < 4 ==> #[trigger] agent_bytes(a)[4 + j] == le32(a.p.x as u32)[j],
        forall|j: int| 0 <= j < 4 ==> #[trigger] agent_bytes(a)[8 + j] == le32(a.p.y as u32)[j],
        forall|j: int| 0 <= j < 4 ==> #[trigger] agent_bytes(a)[12 + j] == le32(a.pp.x as u32)[j],
        forall|j: int| 0 <= j < 4 ==> #[trigger] agent_bytes(a)[16 + j] == le32(a.pp.y as u32)[j],
        forall|j: int| 0 <= j < 4 ==> #[trigger] agent_bytes(a)[20 + j] == le32(a.e as u32)[j],
        forall|j: int| 0 <= j < 4 ==> #[trigger] agent_bytes(a)[24 + j] == le32(a.age)[j],
{
    lemma_auto_spec_u32_to_from_le_bytes();
}

/// The records of `s` are laid end to end, record `k` at offset `28 k`.
pub proof fn lemma_agents_bytes(s: Seq<Agent>)
    ensures
        agents_bytes(s).len() == AGENT_LEN * s.len(),
        forall|k: int, j: int|
            0 <= k < s.len() && 0 <= j < AGENT_LEN ==> #[trigger] agents_bytes(s)[AGENT_LEN * k + j]
                == agent_bytes(s[k])[j],
    decreases s.len(),
{
    if s.len() > 0 {
        let t = s.drop_last();
        lemma_agents_bytes(t);
        lemma_agent_bytes(s.last());
        assert forall|k: int, j: int| 0 <= k < s.len() && 0 <= j < AGENT_LEN implies #[trigger] agents_bytes(
            s,
        )[AGENT_LEN * k + j] == agent_bytes(s[k])[j] by {
            assert(AGENT_LEN * k + j < AGENT_LEN * t.len() <==> k < t.len()) by (nonlinear_arith)
                requires
                    0 <= j < AGENT_LEN,
                    0 <= k,
            ;
            if k < t.len() {
                assert(s[k] == t[k]);
            } else {
                assert(k == t.len());
            }
        }
    }
}

/// A signed value survives the round trip through its bits.
pub proof fn lemma_i32_bits(x: i32)
    ensures
        (x as u32) as i32 == x,
{
    assert((x as u32) as i32 == x) by (bit_vector);
}

/// The `u32` read at `o` is `v` when the four bytes there are those of `v`.
pub proof fn lemma_rd32(b: Seq<u8>, o: int, v: u32)
    requires
        0 <= o,
        o + 4 <= b.len(),
        forall|j: int| 0 <= j < 4 ==> b[o + j] == #[trigger] le32(v)[j],
    ensures
        rd32(b, o) == v,
{
    lemma_auto_spec_u32_to_from_le_bytes();
    assert(b.subrange(o, o + 4) =~= le32(v)) by {
        assert forall|j: int| 0 <= j < 4 implies b.subrange(o, o + 4)[j] == le32(v)[j] by {
            assert(b[o + j] == le32(v)[j]);
        }
    }
}

/// The records of `s`, stored at offset `o` of `b`, read back as `s`.
pub proof fn lemma_rd_agents(b: Seq<u8>, o: int, s: Seq<Agent>)
    requires
        0 <= o,
        o + AGENT_LEN * s.len() <= b.len(),
        forall|i: int| 0 <= i < AGENT_LEN * s.len() ==> b[o + i] == #[trigger] agents_bytes(s)[i],
    ensures
        rd_agents(b, o, s.len()) == s,
{
    lemma_agents_bytes(s);
    assert forall|k: int| 0 <= k < s.len() implies #[trigger] rd_agents(b, o, s.len())[k] == s[k] by {
        let a = s[k];
        let at = o + AGENT_LEN * k;
        lemma_agent_bytes(a);
        assert(AGENT_LEN * k + AGENT_LEN <= AGENT_LEN * s.len()) by (nonlinear_arith)
            requires
                0 <= k < s.len(),
        ;
        assert forall|f: int, j: int| 0 <= f < 7 && 0 <= j < 4 implies b[at + 4 * f + j]
            == #[trigger] agent_bytes(a)[4 * f + j] by {
            assert(b[o + (AGENT_LEN * k + (4 * f + j))] == agents_bytes(s)[AGENT_LEN * k + (4 * f + j)]);
        }
        assert forall|j: int| 0 <= j < 4 implies b[at + j] == #[trigger] le32(a.id)[j] by {
            assert(b[at + 4 * 0 + j] == agent_bytes(a)[4 * 0 + j]);
        }
        lemma_rd32(b, at, a.id);
        assert forall|j: int| 0 <= j < 4 implies b[at + 4 + j] == #[trigger] le32(a.p.x as u32)[j] by {
            assert(b[at + 4 * 1 + j] == agent_bytes(a)[4 * 1 + j]);
        }
        lemma_rd32(b, at + 4, a.p.x as u32);
        assert forall|j: int| 0 <= j < 4 implies b[at + 8 + j] == #[trigger] le32(a.p.y as u32)[j] by {
            assert(b[at + 4 * 2 + j] == agent_bytes(a)[4 * 2 + j]);
        }
        lemma_rd32(b, at + 8, a.p.y as u32);
        assert forall|j: int| 0 <= j < 4 implies b[at + 12 + j] == #[trigger] le32(a.pp.x as u32)[j] by {
            assert(b[at + 4 * 3 + j] == agent_bytes(a)[4 * 3 + j]);
        }
        lemma_rd32(b, at + 12, a.pp.x as u32);
        assert forall|j: int| 0 <= j < 4 implies b[at + 16 + j] == #[trigger] le32(a.pp.y as u32)[j] by {
            assert(b[at + 4 * 4 + j] == agent_bytes(a)[4 * 4 + j]);
        }
        lemma_rd32(b, at + 16, a.pp.y as u32);
        assert forall|j: int| 0 <= j < 4 implies b[at + 20 + j] == #[trigger] le32(a.e as u32)[j] by {
            assert(b[at + 4 * 5 + j] == agent_bytes(a)[4 * 5 + j]);
        }
        lemma_rd32(b, at + 20, a.e as u32);
        assert forall|j: int| 0 <= j < 4 implies b[at + 24 + j] == #[trigger] le32(a.age)[j] by {
            assert(b[at + 4 * 6 + j] == agent_bytes(a)[4 * 6 + j]);
        }
        lemma_rd32(b, at + 24, a.age);
        lemma_i32_bits(a.p.x);
        lemma_i32_bits(a.p.y);
        lemma_i32_bits(a.pp.x);
        lemma_i32_bits(a.pp.y);
        lemma_i32_bits(a.e);
        assert(rd_agent(b, at) == a);
    }
    assert(rd_agents(b, o, s.len()) =~= s);
}

/// Saving then loading gives back the same grid, the same agents in the same
/// order, the same id counter and the same settings, for any population sizes
/// the format can count.
pub proof fn lemma_save_load_round_trip(
    plants: Seq<u8>,
    herbs: Seq<Agent>,
    preds: Seq<Agent>,
    next_id: u32,
    s: SimSettings,
)
    requires
        plants.len() == N_CELLS,
        all_valid(herbs),
        all_valid(preds),
        herbs.len() <= u32::MAX,
        preds.len() <= u32::MAX,
    ensures
        spec_decode(encoded(plants, herbs, preds, next_id, s)) == Some((plants, herbs, preds, next_id, s)),
{
    lemma_auto_spec_u32_to_from_le_bytes();
    lemma_agents_bytes(herbs);
    lemma_agents_bytes(preds);
    let hn = herbs.len() as u32;
    let pn = preds.len() as u32;
    let st = settings_bytes(s);
    assert(st.len() == 33);
    let h0 = magic() + le32(W as u32) + le32(H as u32) + st + le32(next_id) + le32(N_CELLS as u32);
    assert(h0.len() == GRID_AT);
    let h1 = h0 + plants + le32(hn);
    assert(h1.len() == HERBS_AT);
    let hb = agents_bytes(herbs);
    let h2 = h1 + hb + le32(pn);
    let pc = preds_count_at(hn as int);
    assert(h2.len() == pc + 4);
    let pb = agents_bytes(preds);
    let b = h2 + pb;
    assert(b == encoded(plants, herbs, preds, next_id, s));

    // the header
    assert(b.subrange(0, 4) =~= magic());
    assert forall|j: int| 0 <= j < 4 implies b[4 + j] == #[trigger] le32(W as u32)[j] by {}
    lemma_rd32(b, 4, W as u32);
    assert forall|j: int| 0 <= j < 4 implies b[8 + j] == #[trigger] le32(H as u32)[j] by {}
    lemma_rd32(b, 8, H as u32);
    assert forall|j: int| 0 <= j < 4 implies b[45 + j] == #[trigger] le32(next_id)[j] by {}
    lemma_rd32(b, 45, next_id);
    assert forall|j: int| 0 <= j < 4 implies b[49 + j] == #[trigger] le32(N_CELLS as u32)[j] by {}
    lemma_rd32(b, 49, N_CELLS as u32);
    assert forall|j: int| 0 <= j < 33 implies b[12 + j] == #[trigger] st[j] by {}
    assert forall|j: int| 0 <= j < 4 implies b[12 + j] == #[trigger] le32(s.init_herbs)[j] by {
        assert(b[12 + j] == st[j]);
    }
    lemma_rd32(b, 12, s.init_herbs);
    assert forall|j: int| 0 <= j < 4 implies b[16 + j] == #[trigger] le32(s.init_preds)[j] by {
        assert(b[12 + (4 + j)] == st[4 + j]);
    }
    lemma_rd32(b, 16, s.init_preds);
    assert(b[20] == st[8]);
    assert forall|j: int| 0 <= j < 4 implies b[21 + j] == #[trigger] le32(s.plant_spread)[j] by {
        assert(b[12 + (9 + j)] == st[9 + j]);
    }
    lemma_rd32(b, 21, s.plant_spread);
    assert forall|j: int| 0 <= j < 4 implies b[25 + j] == #[trigger] le32(s.herb_speed)[j] by {
        assert(b[12 + (13 + j)] == st[13 + j]);
    }
    lemma_rd32(b, 25, s.herb_speed);
    assert forall|j: int| 0 <= j < 4 implies b[29 + j] == #[trigger] le32(s.pred_speed)[j] by {
        assert(b[12 + (17 + j)] == st[17 + j]);
    }
    lemma_rd32(b, 29, s.pred_speed);
    assert forall|j: int| 0 <= j < 4 implies b[33 + j] == #[trigger] le32(s.herb_met)[j] by {
        assert(b[12 + (21 + j)] == st[21 + j]);
    }
    lemma_rd32(b, 33, s.herb_met);
    assert forall|j: int| 0 <= j < 4 implies b[37 + j] == #[trigger] le32(s.pred_met)[j] by {
        assert(b[12 + (25 + j)] == st[25 + j]);
    }
    lemma_rd32(b, 37, s.pred_met);
    assert forall|j: int| 0 <= j < 4 implies b[41 + j] == #[trigger] le32(s.eat_radius)[j] by {
        assert(b[12 + (29 + j)] == st[29 + j]);
    }
    lemma_rd32(b, 41, s.eat_radius);
    assert(rd_settings(b) == s);

    // the grid
    assert(b.subrange(GRID_AT as int, GRID_AT + N_CELLS) =~= plants);

    // the populations
    assert forall|j: int| 0 <= j < 4 implies b[9653 + j] == #[trigger] le32(hn)[j] by {}
    lemma_rd32(b, 9653, hn);
    assert forall|i: int| 0 <= i < AGENT_LEN * herbs.len() implies b[HERBS_AT + i] == #[trigger] hb[i] by {}
    lemma_rd_agents(b, HERBS_AT as int, herbs);
    assert forall|j: int| 0 <= j < 4 implies b[pc + j] == #[trigger] le32(pn)[j] by {}
    lemma_rd32(b, pc, pn);
    assert forall|i: int| 0 <= i < AGENT_LEN * preds.len() implies b[pc + 4 + i] == #[trigger] pb[i] by {}
    lemma_rd_agents(b, pc + 4, preds);
}

fn push_u32(out: &mut Vec<u8>, v: u32)
    ensures
        final(out)@ == old(out)@ + le32(v),
{
    let mut b = u32_to_le_bytes(v);
    out.append(&mut b);
}

fn push_agent(out: &mut Vec<u8>, a: &Agent)
    ensures
        final(out)@ == old(out)@ + agent_bytes(*a),
{
    let ghost start = out@;
    push_u32(out, a.id);
    push_u32(out, a.p.x as u32);
    push_u32(out, a.p.y as u32);
    push_u32(out, a.pp.x as u32);
    push_u32(out, a.pp.y as u32);
    push_u32(out, a.e as u32);
    push_u32(out, a.age);
    assert(out@ =~= start + agent_bytes(*a));
}

fn push_agents(out: &mut Vec<u8>, agents: &Vec<Agent>)
    ensures
        final(out)@ == old(out)@ + agents_bytes(agents@),
{
    let mut i: usize = 0;
    while i < agents.len()
        invariant
            i <= agents@.len(),
            out@ == old(out)@ + agents_bytes(agents@.subrange(0, i as int)),
        decreases agents@.len() - i,
    {
        proof {
            let s = agents@.subrange(0, i + 1);
            assert(s.drop_last() =~= agents@.subrange(0, i as int));
            assert(s.last() == agents@[i as int]);
        }
        push_agent(out, &agents[i]);
        proof {
            let s = agents@.subrange(0, i + 1);
            assert(out@ =~= old(out)@ + agents_bytes(s));
        }
        i += 1;
    }
    assert(agents@.subrange(0, agents@.len() as int) =~= agents@);
}

impl World {
    /// The save image of this world under settings `set`.
    pub fn encode(&self, set: SimSettings) -> (r: Vec<u8>)
        requires
            self.plants@.len() <= u32::MAX,
            self.herbs@.len() <= u32::MAX,
            self.preds@.len() <= u32::MAX,
        ensures
            r@ == encoded(self.plants@, self.herbs@, self.preds@, self.next_id, set),
    {
        let mut out: Vec<u8> = Vec::new();
        out.push(0x45u8);
        out.push(0x43u8);
        out.push(0x4fu8);
        out.push(0x33u8);
        assert(out@ =~= magic());
        push_u32(&mut out, W as u32);
        push_u32(&mut out, H as u32);
        let ghost head = out@;
        push_u32(&mut out, set.init_herbs);
        push_u32(&mut out, set.init_preds);
        out.push(set.plant_grow);
        push_u32(&mut out, set.plant_spread);
        push_u32(&mut out, set.herb_speed);
        push_u32(&mut out, set.pred_speed);
        push_u32(&mut out, set.herb_met);
        push_u32(&mut out, set.pred_met);
        push_u32(&mut out, set.eat_radius);
        assert(out@ =~= head + settings_bytes(set));
        push_u32(&mut out, self.next_id);
        push_u32(&mut out, self.plants.len() as u32);
        let mut grid = self.plants.clone();
        out.append(&mut grid);
        push_u32(&mut out, self.herbs.len() as u32);
        push_agents(&mut out, &self.herbs);
        push_u32(&mut out, self.preds.len() as u32);
        push_agents(&mut out, &self.preds);
        out
    }

    /// The world and settings held by a save image (see `spec_decode`).
    pub fn decode(b: &[u8]) -> (r: Option<(World, SimSettings)>)
        ensures
            match r {
                Some((w, s)) => spec_decode(b@) == Some((w.plants@, w.herbs@, w.preds@, w.next_id, s)),
                None => spec_decode(b@) is None,
            },
            r matches Some((w, s)) ==> w.wf(),
    {
        if b.len() < HERBS_AT {
            return None;
        }
        if !(b[0] == 0x45u8 && b[1] == 0x43u8 && b[2] == 0x4fu8 && b[3] == 0x33u8) {
            assert(b@.subrange(0, 4) != magic()) by {
                if b@.subrange(0, 4) == magic() {
                    assert(b@.subrange(0, 4)[0] == b@[0]);
                    assert(b@.subrange(0, 4)[1] == b@[1]);
                    assert(b@.subrange(0, 4)[2] == b@[2]);
                    assert(b@.subrange(0, 4)[3] == b@[3]);
                }
            }
            return None;
        }
        assert(b@.subrange(0, 4) =~= magic());
        if read_u32(b, 4) != W as u32 || read_u32(b, 8) != H as u32 || read_u32(b, 49) != N_CELLS as u32 {
            return None;
        }
        let set = SimSettings {
            init_herbs: read_u32(b, 12),
            init_preds: read_u32(b, 16),
            plant_grow: b[20],
            plant_spread: read_u32(b, 21),
            herb_speed: read_u32(b, 25),
            pred_speed: read_u32(b, 29),
            herb_met: read_u32(b, 33),
            pred_met: read_u32(b, 37),
            eat_radius: read_u32(b, 41),
        };
        let next_id = read_u32(b, 45);
        let hn = read_u32(b, 9653);
        let pc: u64 = HERBS_AT as u64 + AGENT_LEN as u64 * hn as u64;
        if (b.len() as u64) < pc + 4 {
            return None;
        }
        let pn = read_u32(b, pc as usize);
        let end: u64 = pc + 4 + AGENT_LEN as u64 * pn as u64;
        if (b.len() as u64) < end {
            return None;
        }
        let herbs = match read_agents(b, HERBS_AT, hn as usize) {
            Some(v) => v,
            None => {
                return None;
            },
        };
        let preds = match read_agents(b, pc as usize + 4, pn as usize) {
            Some(v) => v,
            None => {
                return None;
            },
        };
        let plants = vstd::slice::slice_to_vec(slice_subrange(b, GRID_AT, GRID_AT + N_CELLS));
        let w = World { plants, herbs, preds, next_id };
        assert(set == rd_settings(b@));
        Some((w, set))
    }
}

} // verus!
