use ecosim::config::{Counts, Deltas, SimSettings, SimTuning};
use ecosim::ui::{apply_home_adjust, perf_label, steps_due, tick_events, PerfClass, StatsHistory, UiState, HISTORY_CAP};
use ecosim::util::gen_seed;
use rand::rngs::StdRng;
use rand::SeedableRng;

fn counts(herbs: u32, preds: u32, plants_avg: u32) -> Counts {
    Counts { plants_avg, herbs, preds, herb_e_avg: 1_000_000, pred_e_avg: 2_000_000 }
}

fn deltas(hb: u32, hd: u32, pb: u32, pd: u32) -> Deltas {
    Deltas { herb_birth: hb, herb_death: hd, pred_birth: pb, pred_death: pd }
}

#[test]
fn history_keeps_the_latest_samples() {
    let mut h = StatsHistory::new();
    assert_eq!(h.len(), 0);
    assert_eq!(h.max_agents_recent(), 1);
    assert_eq!(h.max_flow_recent(), 1);
    assert_eq!(h.max_energy_recent(), 100_000);
    for s in 0..(HISTORY_CAP as u64 + 3) {
        h.push(s, counts(s as u32, 3, 500_000), deltas(0, s as u32 % 7, 0, 0));
    }
    assert_eq!(h.len(), HISTORY_CAP);
    assert_eq!(h.samples()[0].step, 3);
    assert_eq!(h.samples()[HISTORY_CAP - 1].step, HISTORY_CAP as u64 + 2);
    assert_eq!(h.max_agents_recent(), HISTORY_CAP as u32 + 2);
    assert_eq!(h.max_flow_recent(), 6);
    assert_eq!(h.max_energy_recent(), 2_000_000);
}

#[test]
fn log_keeps_ten_newest_first() {
    let mut ui = UiState::new();
    assert_eq!((ui.sel, ui.log_cap, ui.last_tag), (0, 10, 0));
    for i in 0..12 {
        ui.log_push(format!("m{}", i));
    }
    assert_eq!(ui.log.len(), 10);
    assert_eq!(ui.log[0], "m11");
    assert_eq!(ui.log[9], "m2");
}

#[test]
fn events_are_logged_once_per_change() {
    let mut ui = UiState::new();
    tick_events(&mut ui, counts(0, 5, 500_000), deltas(0, 0, 0, 0));
    assert_eq!(ui.log, vec!["herb extinction".to_string()]);
    assert_eq!(ui.last_tag, 1);
    tick_events(&mut ui, counts(0, 5, 500_000), deltas(0, 0, 0, 0));
    assert_eq!(ui.log.len(), 1);
    tick_events(&mut ui, counts(10, 0, 500_000), deltas(0, 0, 0, 0));
    assert_eq!(ui.log[0], "pred extinction");
    tick_events(&mut ui, counts(10, 5, 900_000), deltas(0, 0, 0, 0));
    assert_eq!(ui.log[0], "plant bloom");
    tick_events(&mut ui, counts(10, 5, 100_000), deltas(0, 0, 0, 0));
    assert_eq!(ui.log[0], "plant crash");
    tick_events(&mut ui, counts(10, 5, 500_000), deltas(0, 0, 0, 0));
    assert_eq!(ui.last_tag, 0);
    assert_eq!(ui.log.len(), 4);
}

#[test]
fn editor_steps_and_clamps() {
    let mut s = SimSettings::default();
    apply_home_adjust(&mut s, 0, true);
    assert_eq!(s.init_herbs, 920);
    apply_home_adjust(&mut s, 1, false);
    assert_eq!(s.init_preds, 38);
    s.plant_grow = 12;
    apply_home_adjust(&mut s, 2, true);
    assert_eq!(s.plant_grow, 12);
    apply_home_adjust(&mut s, 3, true);
    assert_eq!(s.plant_spread, 330);
    s.herb_speed = 50;
    apply_home_adjust(&mut s, 4, false);
    assert_eq!(s.herb_speed, 40);
    apply_home_adjust(&mut s, 8, true);
    assert_eq!(s.eat_radius, 800);
    let before = s;
    apply_home_adjust(&mut s, 9, true);
    assert_eq!(s, before);
    s.init_herbs = 0;
    apply_home_adjust(&mut s, 0, false);
    assert_eq!(s.init_herbs, 0);
}

#[test]
fn fixed_step_clock_runs_whole_steps() {
    let t = SimTuning::default();
    assert_eq!((t.fixed_dt_us, t.max_steps_per_frame), (16667, 8));
    assert_eq!(steps_due(t, 0), (0, 0));
    assert_eq!(steps_due(t, 16666), (0, 16666));
    assert_eq!(steps_due(t, 50_000), (2, 16_666));
    assert_eq!(steps_due(t, 1_000_000), (8, 1_000_000 - 8 * 16667));
}

#[test]
fn seeds_from_the_clock_vary_with_threads() {
    let a = gen_seed(1);
    let b = gen_seed(1);
    let c = gen_seed(2);
    assert!(a != 0 || b != 0 || c != 0);
}

#[test]
fn load_estimate_scales_with_threads() {
    let light = SimSettings { init_herbs: 100, init_preds: 10, ..SimSettings::default() };
    assert_eq!(perf_label(light, 1), PerfClass::Smooth);
    let mid = SimSettings { init_herbs: 900, init_preds: 400, ..SimSettings::default() };
    assert_eq!(perf_label(mid, 1), PerfClass::Fine);
    assert_eq!(perf_label(mid, 2), PerfClass::Smooth);
    let heavy = SimSettings { init_herbs: 12000, init_preds: 3000, ..SimSettings::default() };
    assert_eq!(perf_label(heavy, 0), PerfClass::Heavy);
    assert_eq!(perf_label(heavy, 64), PerfClass::Heavy);
}

#[test]
fn events_with_an_empty_log_capacity() {
    let mut ui = UiState::new();
    ui.log_cap = 0;
    tick_events(&mut ui, counts(0, 5, 500_000), deltas(0, 0, 0, 0));
    assert!(ui.log.is_empty());
    assert_eq!(ui.last_tag, 1);
}
