use raycast::utils::distance_squared;
use raycast::{cast, cast_wide, Barrier, Ray, RayFail, RayHit};

fn ray(a: (i16, i16), b: (i16, i16)) -> Ray {
    Ray::new(a, b)
}

fn bar(a: (i16, i16), b: (i16, i16)) -> Barrier {
    Barrier::new(a, b)
}

/// Checks that `h` is the point `(x_num / den, y_num / den)` at squared
/// distance `d_num / (den * den)`.
fn assert_hit(h: &RayHit, x_num: i64, y_num: i64, den: i64, d_num: i128) {
    assert!(h.scale > 0);
    assert_eq!(h.position.0 * den, x_num * h.scale);
    assert_eq!(h.position.1 * den, y_num * h.scale);
    let s = h.scale as i128;
    assert_eq!(h.distance_squared * (den as i128) * (den as i128), d_num * s * s);
}

#[test]
fn parallel_identical_direction() {
    let r = cast(&ray((0, 0), (10, 0)), &bar((0, 5), (10, 5)));
    assert_eq!(r.unwrap_err(), RayFail::Parallel);
}

#[test]
fn boundary_endpoint_counts_as_hit() {
    let h = cast(&ray((0, 0), (5, 5)), &bar((5, 5), (10, 0))).unwrap();
    assert_hit(&h, 5, 5, 1, 50);
    let d = (h.distance_squared as f64).sqrt() / h.scale as f64;
    assert!((d - 50f64.sqrt()).abs() < 1e-9);
}

#[test]
fn ray_end_on_barrier_end_point() {
    let h = cast(&ray((0, 0), (4, 0)), &bar((4, 3), (4, 0))).unwrap();
    assert_hit(&h, 4, 0, 1, 16);
}

#[test]
fn offset_parallel_barrier_is_not_hit() {
    let r = cast(&ray((0, 0), (1, 0)), &bar((0, 5), (1, 5)));
    assert_eq!(r.unwrap_err(), RayFail::Parallel);
}

#[test]
fn out_of_range_barrier_is_no_hit() {
    let r = cast(&ray((0, 0), (1, 0)), &bar((10, 10), (20, 20)));
    assert_eq!(r.unwrap_err(), RayFail::NoHit);
}

#[test]
fn ray_too_short_is_no_hit() {
    let r = cast(&ray((0, 0), (4, 0)), &bar((5, -1), (5, 1)));
    assert_eq!(r.unwrap_err(), RayFail::NoHit);
}

#[test]
fn crossing_diagonals_hit_in_the_middle() {
    let h = cast(&ray((0, 0), (10, 10)), &bar((0, 10), (10, 0))).unwrap();
    assert_hit(&h, 5, 5, 1, 50);
}

#[test]
fn fractional_hit_point_is_exact() {
    let h = cast(&ray((0, 0), (3, 0)), &bar((1, -1), (2, 1))).unwrap();
    assert_hit(&h, 3, 0, 2, 9);
}

#[test]
fn hit_lies_on_both_segments() {
    let (r, b) = (ray((1, 2), (7, -3)), bar((0, -4), (6, 5)));
    let h = cast(&r, &b).unwrap();
    let s = h.scale as i128;
    let (px, py) = (h.position.0 as i128, h.position.1 as i128);
    for (a, e) in [((1i128, 2i128), (6i128, -5i128)), ((0, -4), (6, 9))] {
        let w = (px - s * a.0, py - s * a.1);
        assert_eq!(w.0 * e.1 - w.1 * e.0, 0);
        let dot = w.0 * e.0 + w.1 * e.1;
        assert!(0 <= dot && dot <= s * (e.0 * e.0 + e.1 * e.1));
    }
}

#[test]
fn extreme_coordinates_do_not_overflow() {
    let h = cast(
        &ray((-32768, -32768), (32767, 32767)),
        &bar((-32768, 32767), (32767, -32768)),
    )
    .unwrap();
    assert_hit(&h, -1, -1, 2, 2 * 65535 * 65535);
}

#[test]
fn cast_is_deterministic() {
    let (r, b) = (ray((0, 0), (9, 4)), bar((3, -2), (5, 6)));
    let h1 = cast(&r, &b).unwrap();
    let h2 = cast(&r, &b).unwrap();
    assert_eq!(h1.position, h2.position);
    assert_eq!(h1.scale, h2.scale);
    assert_eq!(h1.distance_squared, h2.distance_squared);
    let m = (ray((0, 0), (1, 0)), bar((10, 10), (20, 20)));
    assert_eq!(cast(&m.0, &m.1).unwrap_err(), cast(&m.0, &m.1).unwrap_err());
}

#[test]
fn point_ray_off_barrier_is_no_hit() {
    let r = cast(&ray((3, 3), (3, 3)), &bar((0, 0), (10, 0)));
    assert_eq!(r.unwrap_err(), RayFail::NoHit);
}

#[test]
fn point_ray_on_line_beyond_barrier_is_no_hit() {
    let r = cast(&ray((12, 0), (12, 0)), &bar((0, 0), (10, 0)));
    assert_eq!(r.unwrap_err(), RayFail::NoHit);
}

#[test]
fn point_ray_on_barrier_hits_at_distance_zero() {
    let h = cast(&ray((4, 0), (4, 0)), &bar((0, 0), (10, 0))).unwrap();
    assert_eq!(h.position, (4, 0));
    assert_eq!(h.scale, 1);
    assert_eq!(h.distance_squared, 0);
}

#[test]
fn degenerate_barrier_is_parallel() {
    let r = cast(&ray((0, 0), (10, 0)), &bar((5, 0), (5, 0)));
    assert_eq!(r.unwrap_err(), RayFail::Parallel);
}

#[test]
fn nearest_of_many() {
    let bars = [bar((5, -1), (5, 1)), bar((2, -1), (2, 1))];
    let h = cast_wide(&ray((0, 0), (10, 0)), &bars).unwrap();
    assert_hit(&h, 2, 0, 1, 4);
}

#[test]
fn nearest_equal_distance_goes_to_first_barrier() {
    let bars = [bar((3, -1), (3, 1)), bar((3, -2), (3, 2))];
    let h = cast_wide(&ray((0, 0), (10, 0)), &bars).unwrap();
    assert_hit(&h, 3, 0, 1, 9);
    assert_eq!(h.scale, 20);
    let bars = [bar((3, -2), (3, 2)), bar((3, -1), (3, 1))];
    assert_eq!(cast_wide(&ray((0, 0), (10, 0)), &bars).unwrap().scale, 40);
}

#[test]
fn wide_skips_missed_and_parallel_barriers() {
    let bars = [
        bar((0, 5), (10, 5)),
        bar((7, -3), (7, 3)),
        bar((20, -1), (20, 1)),
        bar((1, 1), (4, -2)),
    ];
    let h = cast_wide(&ray((0, 0), (10, 0)), &bars).unwrap();
    assert_hit(&h, 2, 0, 1, 4);
}

#[test]
fn wide_with_no_hit_reports_no_hit() {
    let bars = [bar((0, 5), (10, 5)), bar((20, -1), (20, 1))];
    let r = cast_wide(&ray((0, 0), (10, 0)), &bars);
    assert_eq!(r.unwrap_err(), RayFail::NoHit);
}

#[test]
fn wide_single_barrier_matches_cast() {
    let (r, b) = (ray((-3, 4), (8, -1)), bar((0, -5), (2, 9)));
    let h1 = cast(&r, &b).unwrap();
    let h2 = cast_wide(&r, &[b]).unwrap();
    assert_eq!(h1.position, h2.position);
    assert_eq!(h1.scale, h2.scale);
    assert_eq!(h1.distance_squared, h2.distance_squared);
}

#[test]
fn distance_squared_of_points() {
    assert_eq!(distance_squared((1, 2), (4, 6)), 25);
    assert_eq!(distance_squared((4, 6), (1, 2)), 25);
    assert_eq!(distance_squared((-7, 3), (-7, 3)), 0);
}

#[test]
fn ray_from_direction() {
    let r = Ray::from_direction((1, 1), (2, 0), 3).unwrap();
    assert_eq!(r.position, (1, 1));
    assert_eq!(r.end_position, (7, 1));
    let z = Ray::from_direction((5, 5), (1, -1), 0).unwrap();
    assert_eq!(z.end_position, (5, 5));
    assert!(Ray::from_direction((30000, 0), (1, 0), 3000).is_none());
    assert!(Ray::from_direction((0, 0), (0, -2), 20000).is_none());
}

#[test]
fn constructors_keep_their_points() {
    let r = Ray::new((1, 2), (3, 4));
    assert_eq!((r.position, r.end_position), ((1, 2), (3, 4)));
    let b = Barrier::new((5, 6), (7, 8));
    assert_eq!(b.positions, ((5, 6), (7, 8)));
}
