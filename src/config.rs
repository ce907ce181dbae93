//! World dimensions, fixed-point scales, the settings snapshot and the small
//! records that the simulation hands to its driver.
//!
//! Everything that is fractional in the model is held as a fixed-point integer:
//! - a position or a distance in units of `1 / SCALE` of a cell;
//! - an energy in units of `1 / ENERGY_UNIT`;
//! - a probability in parts of `PROB_DEN`.

use vstd::prelude::*;

verus! {

/// Grid width in cells.
pub const W: i32 = 120;

/// Grid height in cells.
pub const H: i32 = 80;

/// Position units per cell.
pub const SCALE: i32 = 1000;

/// Width of the torus in position units.
pub const SPAN_X: i32 = 120000;

/// Height of the torus in position units.
pub const SPAN_Y: i32 = 80000;

/// Number of grid cells.
pub const N_CELLS: usize = 9600;

/// Energy units per unit of energy.
pub const ENERGY_UNIT: i32 = 1000000;

/// Denominator of every probability.
pub const PROB_DEN: u32 = 1000;

/// Configuration snapshot, owned by the driver and passed by value into every
/// world operation; the world never changes it.
#[derive(Clone, Copy, Debug, PartialEq, Eq, Structural)]
pub struct SimSettings {
    /// Herbivores placed by a fresh world.
    pub init_herbs: u32,
    /// Predators placed by a fresh world.
    pub init_preds: u32,
    /// Plant biomass added to every cell per tick.
    pub plant_grow: u8,
    /// Chance, in parts of `PROB_DEN`, that a spread trial seeds its target.
    pub plant_spread: u32,
    /// Herbivore movement per tick, in position units.
    pub herb_speed: u32,
    /// Predator movement per tick, in position units.
    pub pred_speed: u32,
    /// Herbivore metabolic cost per tick, in energy units.
    pub herb_met: u32,
    /// Predator metabolic cost per tick, in energy units.
    pub pred_met: u32,
    /// Capture radius of a predator, in position units.
    pub eat_radius: u32,
}

impl SimSettings {
    /// The settings a new session starts from.
    pub open spec fn spec_default() -> SimSettings {
        SimSettings {
            init_herbs: 900,
            init_preds: 40,
            plant_grow: 5,
            plant_spread: 300,
            herb_speed: 220,
            pred_speed: 320,
            herb_met: 14000,
            pred_met: 20000,
            eat_radius: 750,
        }
    }
}

impl Default for SimSettings {
    fn default() -> (r: SimSettings)
        ensures
            r == SimSettings::spec_default(),
    {
        SimSettings {
            init_herbs: 900,
            init_preds: 40,
            plant_grow: 5,
            plant_spread: 300,
            herb_speed: 220,
            pred_speed: 320,
            herb_met: 14000,
            pred_met: 20000,
            eat_radius: 750,
        }
    }
}

/// Timing of the driver's fixed-step loop.
#[derive(Clone, Copy, Debug, PartialEq, Eq, Structural)]
pub struct SimTuning {
    /// Length of one simulation step, in microseconds.
    pub fixed_dt_us: u32,
    /// Most steps run for one displayed frame.
    pub max_steps_per_frame: u32,
}

impl Default for SimTuning {
    fn default() -> (r: SimTuning)
        ensures
            r.fixed_dt_us == 16667,
            r.max_steps_per_frame == 8,
    {
        SimTuning { fixed_dt_us: 16667, max_steps_per_frame: 8 }
    }
}

/// Screen the driver is showing.
#[derive(Clone, Copy, Debug, PartialEq, Eq, Structural)]
pub enum SimMode {
    Home,
    Running,
    Paused,
}

/// Aggregate snapshot of a world.
#[derive(Clone, Copy, Debug, PartialEq, Eq, Structural)]
pub struct Counts {
    /// Mean plant fraction of the grid, in parts per million.
    pub plants_avg: u32,
    pub herbs: u32,
    pub preds: u32,
    /// Mean herbivore energy, in energy units (0 with no herbivore).
    pub herb_e_avg: i32,
    /// Mean predator energy, in energy units (0 with no predator).
    pub pred_e_avg: i32,
}

/// Births and deaths of one tick.
#[derive(Clone, Copy, Debug, PartialEq, Eq, Structural)]
pub struct Deltas {
    pub herb_birth: u32,
    pub herb_death: u32,
    pub pred_birth: u32,
    pub pred_death: u32,
}

/// Species of an agent.
#[derive(Clone, Copy, Debug, PartialEq, Eq, Structural)]
pub enum TrackKind {
    Herb,
    Pred,
}

/// An agent named by species and id.
#[derive(Clone, Copy, Debug, PartialEq, Eq, Structural)]
pub struct TrackTarget {
    pub kind: TrackKind,
    pub id: u32,
}

} // verus!
