use ecosim::config::{SPAN_X, SPAN_Y};
use ecosim::geom::{advance, chase_dir, flee_dir, heading, nearest_within, toroid_dist, toroid_dist_sq, toroid_vec, Pos};
use ecosim::util::{fmt_compact, isqrt, mix_seed, wrap_coord, wrap_i};

fn pos(x: i32, y: i32) -> Pos {
    Pos { x, y }
}

#[test]
fn wrap_i_takes_euclidean_remainder() {
    assert_eq!(wrap_i(5, 120), 5);
    assert_eq!(wrap_i(120, 120), 0);
    assert_eq!(wrap_i(-1, 120), 119);
    assert_eq!(wrap_i(-120, 120), 0);
    assert_eq!(wrap_i(i32::MIN, 120), 112);
    assert_eq!(wrap_i(i32::MAX, 80), i32::MAX % 80);
}

#[test]
fn wrap_coord_handles_wide_values() {
    assert_eq!(wrap_coord(-220, SPAN_X), 119780);
    assert_eq!(wrap_coord(4_000_000_000, SPAN_Y), (4_000_000_000i64 % 80000) as i32);
}

#[test]
fn isqrt_rounds_down() {
    assert_eq!(isqrt(0), 0);
    assert_eq!(isqrt(15), 3);
    assert_eq!(isqrt(16), 4);
    assert_eq!(isqrt(25_000_000), 5000);
    assert_eq!(isqrt(u64::MAX), 4_294_967_295);
}

#[test]
fn toroid_vec_takes_the_short_way_round() {
    assert_eq!(toroid_vec(pos(0, 0), pos(119_000, 0)), (-1000, 0));
    assert_eq!(toroid_vec(pos(119_000, 0), pos(0, 0)), (1000, 0));
    assert_eq!(toroid_vec(pos(0, 0), pos(0, 79_500)), (0, -500));
    assert_eq!(toroid_vec(pos(0, 0), pos(60_000, 40_000)), (60_000, 40_000));
}

#[test]
fn toroid_distance_is_symmetric_and_lap_invariant() {
    let pairs = [
        (pos(0, 0), pos(3000, 4000)),
        (pos(119_500, 100), pos(200, 79_900)),
        (pos(60_000, 0), pos(0, 40_000)),
        (pos(1234, 5678), pos(91_011, 12_131)),
    ];
    for (a, b) in pairs {
        assert_eq!(toroid_dist(a, b), toroid_dist(b, a));
        assert_eq!(toroid_dist_sq(a, b), toroid_dist_sq(b, a));
    }
    assert_eq!(toroid_dist(pos(0, 0), pos(3000, 4000)), 5000);
    assert_eq!(toroid_dist(pos(119_500, 100), pos(200, 79_900)), 728);
    // moving both points a whole lap leaves the displacement unchanged
    let (a, b) = (pos(1000, 2000), pos(118_000, 78_000));
    let d = toroid_vec(a, b);
    assert_eq!(d, (-3000, -4000));
    let shifted = ((b.x as i64 + SPAN_X as i64) - (a.x as i64 + SPAN_X as i64), b.y as i64 - a.y as i64);
    assert_eq!(shifted, (b.x as i64 - a.x as i64, b.y as i64 - a.y as i64));
}

#[test]
fn nearest_within_keeps_the_first_of_equals() {
    let pts = vec![pos(2000, 0), pos(0, 1000), pos(1000, 0), pos(119_000, 0)];
    assert_eq!(nearest_within(pos(0, 0), &pts, 5000), Some(1));
    assert_eq!(nearest_within(pos(0, 0), &pts, 1000), None);
    assert_eq!(nearest_within(pos(0, 0), &pts, 1001), Some(1));
    assert_eq!(nearest_within(pos(0, 0), &Vec::new(), 5000), None);
}

#[test]
fn flee_and_chase_respect_their_ranges() {
    let others = vec![pos(3000, 0), pos(20_000, 0)];
    assert_eq!(flee_dir(pos(0, 0), &others), (-3000, 0));
    assert_eq!(chase_dir(pos(0, 0), &others), (3000, 0));
    let far = vec![pos(9000, 0)];
    assert_eq!(flee_dir(pos(0, 0), &far), (0, 0));
    assert_eq!(chase_dir(pos(0, 0), &far), (9000, 0));
    let farther = vec![pos(18_000, 0)];
    assert_eq!(chase_dir(pos(0, 0), &farther), (0, 0));
}

#[test]
fn advance_scales_to_speed_and_wraps() {
    assert_eq!(advance(pos(0, 0), (3000, 4000), 500), pos(300, 400));
    assert_eq!(advance(pos(0, 0), (-1000, 0), 220), pos(119_780, 0));
    assert_eq!(advance(pos(100, 79_900), (0, 7), 320), pos(100, 220));
    assert_eq!(advance(pos(5000, 5000), heading(4), 1000), pos(5707, 5707));
}

#[test]
fn headings_are_evenly_spaced() {
    assert_eq!(heading(0), (1000, 0));
    assert_eq!(heading(1), (981, 195));
    assert_eq!(heading(4), (707, 707));
    assert_eq!(heading(8), (0, 1000));
    assert_eq!(heading(16), (-1000, 0));
    assert_eq!(heading(24), (0, -1000));
    assert_eq!(heading(31), (981, -195));
    for k in 0..32 {
        let (x, y) = heading(k);
        let len2 = x * x + y * y;
        assert!((998_000..=1_002_000).contains(&len2), "k = {}", k);
    }
}

#[test]
fn mix_seed_matches_the_formula() {
    assert_eq!(mix_seed(0, 0), 0xD1B5_4A32_D192_ED03);
    let b = 12u64.wrapping_mul(0x9E37_79B9_7F4A_7C15);
    assert_eq!(mix_seed(987_654_321, 12), 987_654_321 ^ b.rotate_left(17) ^ 0xD1B5_4A32_D192_ED03);
}

#[test]
fn fmt_compact_renders_counts() {
    assert_eq!(fmt_compact(0), "0");
    assert_eq!(fmt_compact(999), "999");
    assert_eq!(fmt_compact(1000), "1.0k");
    assert_eq!(fmt_compact(1234), "1.2k");
    assert_eq!(fmt_compact(1150), "1.1k");
    assert_eq!(fmt_compact(1250), "1.2k");
    assert_eq!(fmt_compact(1750), "1.8k");
    assert_eq!(fmt_compact(1_150_000), "1.1m");
    assert_eq!(fmt_compact(12_345), "12.3k");
    assert_eq!(fmt_compact(999_999), "1000.0k");
    assert_eq!(fmt_compact(1_000_000), "1.0m");
    assert_eq!(fmt_compact(4_560_000), "4.6m");
    assert_eq!(fmt_compact(u64::MAX), "18446744073709.6m");
}

fn as_floats(n: u64) -> String {
    if n >= 1_000_000 {
        format!("{:.1}m", (n as f64) / 1_000_000.0)
    } else if n >= 1_000 {
        format!("{:.1}k", (n as f64) / 1_000.0)
    } else {
        n.to_string()
    }
}

#[test]
fn fmt_compact_matches_double_rendering() {
    for n in 0..200_000u64 {
        assert_eq!(fmt_compact(n), as_floats(n), "n = {}", n);
    }
    for n in (200_000..3_000_000u64).step_by(50) {
        assert_eq!(fmt_compact(n), as_floats(n), "n = {}", n);
    }
    let mut n: u64 = 1_000_000;
    while n < u64::MAX / 3 {
        for d in [0u64, 1, 49_999, 50_000, 50_001, 99_999] {
            assert_eq!(fmt_compact(n + d), as_floats(n + d), "n = {}", n + d);
        }
        n = n * 3 + 7;
    }
    for n in [u64::MAX, u64::MAX - 1, 1 << 53, (1 << 53) + 1, (1 << 60) + 50_000, 9_007_199_254_740_993] {
        assert_eq!(fmt_compact(n), as_floats(n), "n = {}", n);
    }
}
