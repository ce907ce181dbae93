use std::collections::HashSet;

use ecosim::config::{SimSettings, TrackKind, TrackTarget, N_CELLS, SPAN_X, SPAN_Y};
use ecosim::geom::Pos;
use ecosim::grid::{best_plant_dir, cell_index, grow_cell, grow_pass, initial_plant, spread_into};
use ecosim::population::{breeds, BreedRule, give_birth, population_floor, reseed, reseed_due, survivors};
use ecosim::world::{graze, herb_heading, interp_agent, Agent, World};
use rand::rngs::StdRng;
use rand::SeedableRng;

fn agent(id: u32, x: i32, y: i32, e: i32) -> Agent {
    let p = Pos { x, y };
    Agent { id, p, pp: p, e, age: 0 }
}

fn world(herbs: Vec<Agent>, preds: Vec<Agent>, next_id: u32) -> World {
    World { plants: vec![0u8; N_CELLS], herbs, preds, next_id }
}

fn settings(herbs: u32, preds: u32) -> SimSettings {
    SimSettings { init_herbs: herbs, init_preds: preds, ..SimSettings::default() }
}

fn all_ids(w: &World) -> Vec<u32> {
    w.herbs.iter().chain(w.preds.iter()).map(|a| a.id).collect()
}

fn on_torus(p: Pos) -> bool {
    p.x >= 0 && p.x < SPAN_X && p.y >= 0 && p.y < SPAN_Y
}

#[test]
fn default_settings_are_the_documented_ones() {
    let s = SimSettings::default();
    assert_eq!((s.init_herbs, s.init_preds, s.plant_grow), (900, 40, 5));
    assert_eq!((s.plant_spread, s.herb_speed, s.pred_speed), (300, 220, 320));
    assert_eq!((s.herb_met, s.pred_met, s.eat_radius), (14000, 20000, 750));
}

#[test]
fn new_world_numbers_agents_from_one() {
    let mut rng = StdRng::seed_from_u64(7);
    let w = World::new(&mut rng, settings(30, 5));
    assert_eq!(w.plants.len(), N_CELLS);
    assert_eq!(w.herbs.len(), 30);
    assert_eq!(w.preds.len(), 5);
    assert_eq!(w.next_id, 36);
    let ids = all_ids(&w);
    assert_eq!(ids, (1..=35).collect::<Vec<u32>>());
    for a in w.herbs.iter() {
        assert!(on_torus(a.p) && a.pp == a.p && a.age == 0);
        assert!(a.e >= 1_200_000 && a.e < 1_800_000);
    }
    for a in w.preds.iter() {
        assert!(on_torus(a.p));
        assert!(a.e >= 1_600_000 && a.e < 2_400_000);
    }
    for &v in w.plants.iter() {
        assert!(v <= 140 || (180..255).contains(&v));
    }
}

#[test]
fn same_seed_same_run() {
    let set = settings(300, 20);
    let mut r1 = StdRng::seed_from_u64(2024);
    let mut r2 = StdRng::seed_from_u64(2024);
    let mut w1 = World::new(&mut r1, set);
    let mut w2 = World::new(&mut r2, set);
    for _ in 0..60 {
        let d1 = w1.step(&mut r1, set, 16667);
        let d2 = w2.step(&mut r2, set, 16667);
        assert_eq!(d1, d2);
    }
    assert_eq!(w1.encode(set), w2.encode(set));
}

#[test]
fn positions_stay_on_the_torus() {
    let set = settings(400, 30);
    let mut rng = StdRng::seed_from_u64(11);
    let mut w = World::new(&mut rng, set);
    for _ in 0..120 {
        w.step(&mut rng, set, 16667);
        assert_eq!(w.plants.len(), N_CELLS);
        for a in w.herbs.iter().chain(w.preds.iter()) {
            assert!(on_torus(a.p) && on_torus(a.pp));
        }
    }
}

#[test]
fn no_survivor_has_spent_energy() {
    let set = SimSettings { herb_met: 300_000, pred_met: 300_000, ..settings(200, 20) };
    let mut rng = StdRng::seed_from_u64(5);
    let mut w = World::new(&mut rng, set);
    for _ in 0..30 {
        w.step(&mut rng, set, 16667);
        for a in w.herbs.iter().chain(w.preds.iter()) {
            assert!(a.e > 0);
        }
    }
}

#[test]
fn ids_are_unique_and_increase() {
    let set = settings(300, 30);
    let mut rng = StdRng::seed_from_u64(99);
    let mut w = World::new(&mut rng, set);
    let mut seen: HashSet<u32> = all_ids(&w).into_iter().collect();
    for _ in 0..200 {
        let before = w.next_id;
        w.step(&mut rng, set, 16667);
        let ids = all_ids(&w);
        let unique: HashSet<u32> = ids.iter().copied().collect();
        assert_eq!(unique.len(), ids.len());
        let mut fresh: Vec<u32> = ids.iter().copied().filter(|id| !seen.contains(id)).collect();
        for id in fresh.iter() {
            assert!(*id >= before && *id < w.next_id);
        }
        fresh.sort();
        seen.extend(fresh);
        assert!(w.next_id >= before);
    }
}

#[test]
fn save_then_load_gives_the_same_world() {
    let set = settings(2500, 100);
    let mut rng = StdRng::seed_from_u64(3);
    let mut w = World::new(&mut rng, set);
    for _ in 0..5 {
        w.step(&mut rng, set, 16667);
    }
    let bytes = w.encode(set);
    let (back, s2) = World::decode(&bytes).expect("image decodes");
    assert_eq!(s2, set);
    assert_eq!(back.plants, w.plants);
    assert_eq!(back.herbs, w.herbs);
    assert_eq!(back.preds, w.preds);
    assert_eq!(back.next_id, w.next_id);
}

#[test]
fn save_then_load_small_populations() {
    let set = SimSettings::default();
    let empty = world(Vec::new(), Vec::new(), 1);
    let bytes = empty.encode(set);
    assert_eq!(bytes.len(), 9661);
    assert_eq!(&bytes[0..4], b"ECO3");
    let (back, _) = World::decode(&bytes).unwrap();
    assert!(back.herbs.is_empty() && back.preds.is_empty() && back.next_id == 1);

    let one = world(vec![agent(4, 119_999, 79_999, -5)], Vec::new(), 9);
    let bytes = one.encode(set);
    assert_eq!(bytes.len(), 9661 + 28);
    let (back, _) = World::decode(&bytes).unwrap();
    assert_eq!(back.herbs, one.herbs);
    assert_eq!(back.next_id, 9);
}

#[test]
fn load_rejects_bad_images() {
    let set = SimSettings::default();
    let w = world(vec![agent(1, 10, 10, 100)], vec![agent(2, 20, 20, 100)], 3);
    let good = w.encode(set);
    assert!(World::decode(&good).is_some());

    let mut bad_magic = good.clone();
    bad_magic[3] = b'4';
    assert!(World::decode(&bad_magic).is_none());

    let mut bad_width = good.clone();
    bad_width[4] = 121;
    assert!(World::decode(&bad_width).is_none());

    let truncated = &good[..good.len() - 1];
    assert!(World::decode(truncated).is_none());
    assert!(World::decode(&good[..100]).is_none());

    let off_torus = world(vec![agent(1, SPAN_X, 0, 100)], Vec::new(), 2);
    assert!(World::decode(&off_torus.encode(set)).is_none());

    let mut longer = good.clone();
    longer.push(0);
    assert!(World::decode(&longer).is_some());
}

#[test]
fn reseeding_revives_an_empty_herbivore_population() {
    let set = settings(0, 10);
    let mut rng = StdRng::seed_from_u64(42);
    let mut w = World::new(&mut rng, set);
    assert_eq!(w.herbs.len(), 0);
    let mut ticks = 0;
    while w.herbs.is_empty() && ticks < 200 {
        let d = w.step(&mut rng, set, 16667);
        ticks += 1;
        if !w.herbs.is_empty() {
            assert!(d.herb_birth >= 18);
        }
    }
    assert!(!w.herbs.is_empty());
    let fresh = w.herbs.iter().filter(|a| a.e == 1_400_000 && a.age == 0).count();
    assert_eq!(fresh, 18);
}

#[test]
fn growth_pass_adds_exactly_grow_with_zero_jitter() {
    let mut grid = vec![0u8; 4];
    grow_pass(&mut grid, 5, &vec![0u8; 4]);
    assert_eq!(grid, vec![5u8; 4]);
    let mut grid = vec![0u8, 100, 250, 255];
    grow_pass(&mut grid, 5, &vec![1u8, 0, 1, 0]);
    assert_eq!(grid, vec![6u8, 105, 255, 255]);
}

#[test]
fn grow_cell_saturates() {
    assert_eq!(grow_cell(0, 5, 0), 5);
    assert_eq!(grow_cell(0, 5, 1), 6);
    assert_eq!(grow_cell(250, 5, 1), 255);
    assert_eq!(grow_cell(255, 255, 1), 255);
}

#[test]
fn spread_only_seeds_sparse_cells_on_a_hit() {
    assert_eq!(spread_into(10, 0, 300), 55);
    assert_eq!(spread_into(59, 299, 300), 104);
    assert_eq!(spread_into(59, 300, 300), 59);
    assert_eq!(spread_into(60, 0, 300), 60);
    assert_eq!(spread_into(10, 0, 0), 10);
}

#[test]
fn cell_index_wraps() {
    assert_eq!(cell_index(0, 0), 0);
    assert_eq!(cell_index(-1, 0), 119);
    assert_eq!(cell_index(0, -1), 79 * 120);
    assert_eq!(cell_index(121, 81), 120 + 1);
}

#[test]
fn best_plant_dir_prefers_dense_near_cells() {
    let mut plants = vec![0u8; N_CELLS];
    let p = Pos { x: 5500, y: 5500 };
    // on bare ground the nearest cells score highest; the first of them wins
    assert_eq!(best_plant_dir(p, &plants), (0, -1));
    plants[cell_index(6, 5)] = 100;
    assert_eq!(best_plant_dir(p, &plants), (1, 0));
    plants[cell_index(4, 5)] = 100;
    assert_eq!(best_plant_dir(p, &plants), (-1, 0));
    plants[cell_index(7, 7)] = 160;
    assert_eq!(best_plant_dir(p, &plants), (2, 2));
    // the block wraps around the torus edge
    let mut plants = vec![0u8; N_CELLS];
    plants[cell_index(119, 79)] = 50;
    assert_eq!(best_plant_dir(Pos { x: 500, y: 500 }, &plants), (-1, -1));
}

#[test]
fn grazing_takes_up_to_sixteen() {
    let mut plants = vec![0u8; N_CELLS];
    plants[0] = 10;
    let mut h = agent(1, 0, 0, 1000);
    graze(&mut plants, &mut h);
    assert_eq!(plants[0], 0);
    assert_eq!(h.e, 1000 + 10 * 2200);
    plants[cell_index(3, 2)] = 200;
    let mut h = agent(2, 3500, 2999, 0);
    graze(&mut plants, &mut h);
    assert_eq!(plants[cell_index(3, 2)], 184);
    assert_eq!(h.e, 16 * 2200);
}

#[test]
fn herb_heading_combines_its_parts() {
    assert_eq!(herb_heading((1, 0), (1000, -1000), (5, -5)), (2155, -1155));
    assert_eq!(herb_heading((0, 0), (0, 0), (0, 0)), (0, 0));
    assert_eq!(herb_heading((-2, 2), (7, -7), (0, 0)), (-1992, 1992));
}

#[test]
fn birth_splits_energy_and_places_the_child() {
    let mut parent = agent(3, 119_800, 100, 3_000_000);
    let child = give_birth(&mut parent, (450, -450), 77, 62, 1_000_000);
    assert_eq!(parent.e, 1_860_000);
    assert_eq!(child.id, 77);
    assert_eq!(child.p, Pos { x: 250, y: 79_650 });
    assert_eq!(child.pp, child.p);
    assert_eq!((child.e, child.age), (1_000_000, 0));
}

#[test]
fn survivors_keep_order() {
    let v = vec![agent(1, 0, 0, 5), agent(2, 0, 0, 0), agent(3, 0, 0, -4), agent(4, 0, 0, 1)];
    let s = survivors(&v);
    assert_eq!(s.iter().map(|a| a.id).collect::<Vec<u32>>(), vec![1, 4]);
}

#[test]
fn cleanup_removes_the_starved_and_counts_deaths() {
    let mut rng = StdRng::seed_from_u64(1);
    let herbs: Vec<Agent> = (0..30).map(|i| agent(i + 1, 1000 * i as i32, 0, if i % 3 == 0 { 0 } else { 1_000_000 })).collect();
    let preds: Vec<Agent> = (0..8).map(|i| agent(100 + i, 0, 1000 * i as i32, if i < 2 { -1 } else { 1_000_000 })).collect();
    let mut w = world(herbs, preds, 200);
    let d = w.cleanup_repro(&mut rng, SimSettings::default(), 4);
    assert_eq!(d.herb_death, 10 + 4);
    assert_eq!(d.pred_death, 2);
    assert_eq!(d.herb_birth as usize, w.herbs.len() - 20);
    assert_eq!(d.pred_birth as usize, w.preds.len() - 6);
    assert!(w.herbs.iter().chain(w.preds.iter()).all(|a| a.e > 0));
    assert_eq!(w.herbs[0].id, 2);
}

#[test]
fn well_fed_agents_may_breed() {
    let mut rng = StdRng::seed_from_u64(8);
    let herbs: Vec<Agent> = (0..200).map(|i| agent(i + 1, 500 * i as i32, 700, 3_000_000)).collect();
    let mut w = world(herbs, Vec::new(), 1000);
    let d = w.cleanup_repro(&mut rng, SimSettings::default(), 0);
    assert!(d.herb_birth > 0);
    let parents = w.herbs[..200].iter().filter(|a| a.e == 1_860_000).count();
    let children = w.herbs[200..].iter().filter(|a| a.e == 1_000_000).count();
    assert_eq!(parents, children);
    assert_eq!(w.next_id as usize, 1000 + w.herbs.len() - 200 + w.preds.len());
}

#[test]
fn predators_capture_within_reach() {
    let mut rng = StdRng::seed_from_u64(12);
    let set = SimSettings { eat_radius: 2000, pred_speed: 1, ..SimSettings::default() };
    let herbs = vec![agent(1, 10_000, 10_000, 1_000_000), agent(2, 50_000, 50_000, 1_000_000)];
    let preds = vec![agent(3, 10_500, 10_000, 1_000_000)];
    let mut w = world(herbs, preds, 4);
    let eaten = w.preds_step(&mut rng, set);
    assert_eq!(eaten, 1);
    assert_eq!(w.herbs.len(), 1);
    assert_eq!(w.herbs[0].id, 2);
    assert_eq!(w.preds[0].e, 1_000_000 - 20_000 + 850_000);
    assert_eq!(w.preds[0].age, 1);
    assert_eq!(w.preds[0].pp, Pos { x: 10_500, y: 10_000 });
}

#[test]
fn herbivores_pay_and_age() {
    let mut rng = StdRng::seed_from_u64(13);
    let set = SimSettings::default();
    let mut w = world(vec![agent(1, 30_000, 30_000, 1_000_000)], Vec::new(), 2);
    w.herbs_step(&mut rng, set);
    let h = w.herbs[0];
    assert_eq!(h.age, 1);
    assert_eq!(h.pp, Pos { x: 30_000, y: 30_000 });
    assert_eq!(h.e, 1_000_000 - 14_000);
    let moved = ((h.p.x - 30_000) as i64).pow(2) + ((h.p.y - 30_000) as i64).pow(2);
    assert!(moved <= 220 * 220 && moved >= 200 * 200);
}

#[test]
fn counts_average_the_world() {
    let mut w = world(vec![agent(1, 0, 0, 1_000_000), agent(2, 0, 0, 2_000_001)], Vec::new(), 3);
    w.plants = vec![255u8; N_CELLS];
    let c = w.counts();
    assert_eq!(c.plants_avg, 1_000_000);
    assert_eq!((c.herbs, c.preds), (2, 0));
    assert_eq!(c.herb_e_avg, 1_500_000);
    assert_eq!(c.pred_e_avg, 0);
    w.plants = vec![0u8; N_CELLS];
    w.plants[0] = 255;
    assert_eq!(w.counts().plants_avg, 104);
}

#[test]
fn tracked_info_finds_live_agents_only() {
    let w = world(vec![agent(5, 100, 200, 42)], vec![agent(6, 300, 400, 43)], 7);
    let h = w.tracked_info(TrackTarget { kind: TrackKind::Herb, id: 5 }).unwrap();
    assert_eq!((h.id, h.e, h.p), (5, 42, Pos { x: 100, y: 200 }));
    assert!(w.tracked_info(TrackTarget { kind: TrackKind::Herb, id: 6 }).is_none());
    let p = w.tracked_info(TrackTarget { kind: TrackKind::Pred, id: 6 }).unwrap();
    assert_eq!(p.kind, TrackKind::Pred);
}

#[test]
fn pick_target_prefers_the_nearest_and_herbivores_on_ties() {
    let w = world(
        vec![agent(1, 1000, 0, 1), agent(2, 0, 900, 1)],
        vec![agent(3, 0, 119_100 % SPAN_Y, 1), agent(4, 500, 0, 1)],
        5,
    );
    assert_eq!(w.pick_target(Pos { x: 0, y: 0 }), Some(TrackTarget { kind: TrackKind::Pred, id: 4 }));
    let tie = world(vec![agent(1, 600, 0, 1)], vec![agent(2, 0, 600, 1)], 3);
    assert_eq!(tie.pick_target(Pos { x: 0, y: 0 }), Some(TrackTarget { kind: TrackKind::Herb, id: 1 }));
    assert_eq!(tie.pick_target(Pos { x: 50_000, y: 50_000 }), None);
}

#[test]
fn interpolation_follows_the_short_path() {
    let a = Agent { id: 1, p: Pos { x: 500, y: 0 }, pp: Pos { x: 119_500, y: 0 }, e: 1, age: 0 };
    assert_eq!(interp_agent(&a, 0), Pos { x: 119_500, y: 0 });
    assert_eq!(interp_agent(&a, 500), Pos { x: 0, y: 0 });
    assert_eq!(interp_agent(&a, 1000), Pos { x: 500, y: 0 });
}

#[test]
fn initial_plants_are_sparse_or_dense() {
    assert_eq!(initial_plant(0, 0), 0);
    assert_eq!(initial_plant(549, 0), 139);
    assert_eq!(initial_plant(550, 0), 180);
    assert_eq!(initial_plant(999, 74), 254);
}

#[test]
fn floor_reseeds_only_a_small_population() {
    let mut rng = StdRng::seed_from_u64(21);
    let mut small = vec![agent(1, 0, 0, 5)];
    let mut next_id = 2u32;
    assert!(population_floor(&mut small, &mut next_id, &mut rng, 20, 1000, 18, 1_400_000));
    assert_eq!(small.len(), 19);
    assert_eq!(next_id, 20);
    assert_eq!(small[18].id, 19);
    assert!(small[1..].iter().all(|a| a.e == 1_400_000 && a.age == 0 && on_torus(a.p)));

    let mut big: Vec<Agent> = (0..20).map(|i| agent(i + 1, 0, 0, 5)).collect();
    let mut next_id = 21u32;
    assert!(!population_floor(&mut big, &mut next_id, &mut rng, 20, 1000, 18, 1_400_000));
    assert_eq!((big.len(), next_id), (20, 21));

    let mut none: Vec<Agent> = Vec::new();
    let mut next_id = 1u32;
    assert!(!population_floor(&mut none, &mut next_id, &mut rng, 20, 0, 18, 1_400_000));
    assert!(none.is_empty());
}

#[test]
fn spawning_stops_when_ids_run_out() {
    let mut rng = StdRng::seed_from_u64(22);
    let mut v: Vec<Agent> = Vec::new();
    let mut next_id = u32::MAX - 2;
    reseed(&mut v, &mut next_id, &mut rng, 5, 1);
    assert_eq!(v.len(), 2);
    assert_eq!(next_id, u32::MAX);
    assert_eq!((v[0].id, v[1].id), (u32::MAX - 2, u32::MAX - 1));
}

#[test]
fn deltas_balance_the_populations() {
    let set = settings(500, 40);
    let mut rng = StdRng::seed_from_u64(77);
    let mut w = World::new(&mut rng, set);
    for _ in 0..80 {
        let (h0, p0) = (w.herbs.len() as i64, w.preds.len() as i64);
        let d = w.step(&mut rng, set, 16667);
        assert_eq!(w.herbs.len() as i64, h0 + d.herb_birth as i64 - d.herb_death as i64);
        assert_eq!(w.preds.len() as i64, p0 + d.pred_birth as i64 - d.pred_death as i64);
    }
}

#[test]
fn grazing_totals_per_cell() {
    let mut rng = StdRng::seed_from_u64(31);
    let set = SimSettings { herb_speed: 1, ..SimSettings::default() };
    let herbs: Vec<Agent> = (0..3).map(|i| agent(i + 1, 50_500, 50_500, 1_000_000)).collect();
    let mut w = world(herbs, Vec::new(), 4);
    let c = cell_index(50, 50);
    w.plants[c] = 40;
    w.herbs_step(&mut rng, set);
    assert!(w.herbs.iter().all(|h| cell_index(h.p.x / 1000, h.p.y / 1000) == c));
    assert_eq!(w.plants[c], 0);
    let gained: i32 = w.herbs.iter().map(|h| h.e - (1_000_000 - 14_000)).sum();
    assert_eq!(gained, 40 * 2200);
}

#[test]
fn decisions_follow_their_draws() {
    let rule = BreedRule { min_energy: 2_200_000, chance: 100, keep_pct: 62, jitter: 450, child_e: 1_000_000 };
    assert!(breeds(2_200_001, 99, rule));
    assert!(!breeds(2_200_001, 100, rule));
    assert!(!breeds(2_200_000, 0, rule));
    assert!(reseed_due(19, 20, 249, 250));
    assert!(!reseed_due(19, 20, 250, 250));
    assert!(!reseed_due(20, 20, 0, 250));
    assert!(reseed_due(5, 6, 199, 200));
    assert!(!reseed_due(6, 6, 0, 200));
}
