use hitscan::physics::{check_collision, AA_Hitbox, HitSpan, Hitray, Ray3, Vec3i};

fn vec3(x: i32, y: i32, z: i32) -> Vec3i {
    Vec3i { x, y, z }
}

fn hitbox(origin: Vec3i, extent: Vec3i) -> AA_Hitbox {
    AA_Hitbox { origin, extent }
}

fn ray(origin: Vec3i, direction: Vec3i) -> Hitray {
    Hitray(Ray3 { origin, direction })
}

#[test]
fn minmax_corners() {
    let b = hitbox(vec3(-2, 3, 5), vec3(4, 0, 7));
    let (lo, hi) = b.get_minmax();
    assert_eq!(lo, vec3(-2, 3, 5));
    assert_eq!(hi, vec3(2, 3, 12));
}

#[test]
fn origin_inside_box_span_contains_zero() {
    // Ray origin strictly inside the box: a hit whose span contains
    // distance zero, whatever the direction.
    let b = hitbox(vec3(0, 0, 0), vec3(10, 10, 10));
    let r = ray(vec3(5, 5, 5), vec3(1, 2, 3));
    match check_collision(&b, &r) {
        Some(HitSpan::Span { entry, exit }) => {
            assert!(entry.num <= 0, "entry must be at most zero");
            assert!(exit.num >= 0, "exit must be at least zero");
        }
        other => panic!("expected a bounded span, got {:?}", other),
    }
}

#[test]
fn entry_distance_example() {
    // Box with origin (0,0,0) and extent (5,5,5); ray from (21,5,6) along
    // (-1,0,0): entry distance 16, exit distance 21.
    let b = hitbox(vec3(0, 0, 0), vec3(5, 5, 5));
    let r = ray(vec3(21, 5, 6), vec3(-1, 0, 0));
    match check_collision(&b, &r) {
        Some(HitSpan::Span { entry, exit }) => {
            assert!(entry.eq_int(16), "entry must be exactly 16, got {:?}", entry);
            assert!(exit.eq_int(21), "exit must be exactly 21, got {:?}", exit);
            assert_eq!(entry.num, 16);
            assert_eq!(entry.den, 1);
            assert_eq!(exit.num, 21);
            assert_eq!(exit.den, 1);
        }
        other => panic!("expected a bounded span, got {:?}", other),
    }
}

#[test]
fn ray_pointing_away_keeps_backward_span() {
    // A ray pointing directly away from a box whose backward extension
    // passes through it: the bare slab test reports the interval behind
    // the origin (it accepts negative distances by design).
    let b = hitbox(vec3(0, 0, 0), vec3(2, 2, 2));
    let r = ray(vec3(10, 1, 1), vec3(1, 0, 0));
    match check_collision(&b, &r) {
        Some(HitSpan::Span { entry, exit }) => {
            assert!(entry.eq_int(-10));
            assert!(exit.eq_int(-8));
        }
        other => panic!("expected a bounded span, got {:?}", other),
    }
}

#[test]
fn disjoint_axis_intervals_miss() {
    // Two constrained axes whose distance intervals do not overlap: a miss.
    let b = hitbox(vec3(0, 0, 0), vec3(2, 2, 2));
    let r = ray(vec3(10, 1, 1), vec3(1, 1, 0));
    assert_eq!(check_collision(&b, &r), None);
}

#[test]
fn parallel_axis_outside_is_not_rejected() {
    // The ray is outside the box on the z axis but parallel to it: the
    // parallel axis imposes no constraint, so a hit is still reported —
    // the documented approximation.
    let b = hitbox(vec3(0, 0, 0), vec3(1, 1, 1));
    let r = ray(vec3(0, 0, 5), vec3(1, 0, 0));
    assert!(check_collision(&b, &r).is_some());
}

#[test]
fn zero_direction_reports_whole_line() {
    let b = hitbox(vec3(0, 0, 0), vec3(1, 1, 1));
    let r = ray(vec3(100, 100, 100), vec3(0, 0, 0));
    assert_eq!(check_collision(&b, &r), Some(HitSpan::Whole));
}

#[test]
fn fractional_entry_distance_is_exact() {
    // Direction of length 3 on x: distances come out as exact thirds.
    let b = hitbox(vec3(1, 0, 0), vec3(1, 2, 2));
    let r = ray(vec3(0, 1, 1), vec3(3, 0, 0));
    match check_collision(&b, &r) {
        Some(HitSpan::Span { entry, exit }) => {
            // entry = 1/3, exit = 2/3
            assert_eq!(entry.num * 3, entry.den);
            assert_eq!(exit.num * 3, 2 * exit.den);
        }
        other => panic!("expected a bounded span, got {:?}", other),
    }
}
