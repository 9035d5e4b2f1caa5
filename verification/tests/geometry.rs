use raidory::geometry::{collide, isqrt, step_for, Position, Size};

#[test]
fn isqrt_is_the_whole_part_of_the_root() {
    assert_eq!(isqrt(0), 0);
    assert_eq!(isqrt(1), 1);
    assert_eq!(isqrt(3), 1);
    assert_eq!(isqrt(4), 2);
    assert_eq!(isqrt(24), 4);
    assert_eq!(isqrt(25), 5);
    assert_eq!(isqrt(1_000_000), 1000);
    assert_eq!(isqrt(u128::MAX), u64::MAX);
}

#[test]
fn distance_squared_is_euclidean() {
    let a = Position::new(0, 0);
    let b = Position::new(3, -4);
    assert_eq!(a.distance_squared(&b), 25);
    assert_eq!(b.distance_squared(&a), 25);
    let far = Position::new(i32::MAX, i32::MAX);
    let near = Position::new(i32::MIN, i32::MIN);
    let side: u128 = u32::MAX as u128;
    assert_eq!(far.distance_squared(&near), 2 * side * side);
}

#[test]
fn range_includes_its_border() {
    let a = Position::new(0, 0);
    assert!(a.is_within(&Position::new(3, 4), 5));
    assert!(!a.is_within(&Position::new(3, 4), 4));
    assert!(a.is_within(&Position::new(0, 0), 0));
}

#[test]
fn step_length_is_speed_times_time() {
    // 200 units a second for a sixtieth of a second.
    assert_eq!(step_for(200, 16_667), 3);
    assert_eq!(step_for(200, 1_000_000), 200);
    assert_eq!(step_for(1000, 500_000), 500);
    assert_eq!(step_for(0, 1_000_000), 0);
    assert_eq!(step_for(u32::MAX, u64::MAX), u32::MAX);
}

#[test]
fn step_toward_follows_the_normalised_direction() {
    let from = Position::new(0, 0);
    assert_eq!(from.step_toward(&Position::new(30, 40), 10), Position::new(6, 8));
    assert_eq!(from.step_toward(&Position::new(-30, 40), 10), Position::new(-6, 8));
    assert_eq!(from.step_toward(&Position::new(100, 0), 7), Position::new(7, 0));
    // The whole part of 10 / sqrt(2).
    assert_eq!(from.step_toward(&Position::new(1, 1), 10), Position::new(7, 7));
}

#[test]
fn step_toward_its_own_place_goes_nowhere() {
    let from = Position::new(12, -7);
    assert_eq!(from.step_toward(&from, 1000), from);
}

#[test]
fn step_stops_at_the_edge_of_the_plane() {
    let from = Position::new(i32::MAX - 1, 0);
    assert_eq!(from.step_toward(&Position::new(i32::MAX, 0), 50), Position::new(i32::MAX, 0));
    let low = Position::new(i32::MIN + 1, 5);
    assert_eq!(low.displace(-1, 0, 9), Position::new(i32::MIN, 5));
}

#[test]
fn boxes_that_touch_do_not_overlap() {
    let size = Size { width: 10, height: 10 };
    let a = Position::new(0, 0);
    assert!(collide(&a, &size, &Position::new(9, 0), &size));
    assert!(!collide(&a, &size, &Position::new(10, 0), &size));
    assert!(collide(&a, &size, &Position::new(-9, 9), &size));
    assert!(!collide(&a, &size, &Position::new(0, -10), &size));
    // A box of odd width reaches half a unit further.
    let odd = Size { width: 11, height: 11 };
    assert!(collide(&a, &odd, &Position::new(10, 0), &size));
}
