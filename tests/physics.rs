use duck_server::physics::{
    collect_bread, fall_step, intersects, isqrt, Vec3, BREAD_FLOOR, DROP_HEIGHT,
};

fn at(x: i32, y: i32, z: i32) -> Vec3 {
    Vec3 { x, y, z }
}

#[test]
fn isqrt_exact_values() {
    assert_eq!(isqrt(0), 0);
    assert_eq!(isqrt(1), 1);
    assert_eq!(isqrt(15), 3);
    assert_eq!(isqrt(16), 4);
    assert_eq!(isqrt(1_000_000_000_000), 1_000_000);
    assert_eq!(isqrt(6_000_000), 2449);
}

#[test]
fn bread_at_drop_height_falls_by_gravity_alone() {
    // v = 0 at the drop height; 0.5 * 5 * 0.05^2 = 0.00625 units = 6 thousandths.
    assert_eq!(fall_step(DROP_HEIGHT, 50), 9994);
}

#[test]
fn bread_speed_is_rebuilt_from_distance_fallen() {
    // sqrt(6 * 10^6) = 2449, times 50 ms over 10^4 = 12, plus 6 from gravity.
    assert_eq!(fall_step(9994, 50), 9976);
}

#[test]
fn bread_never_falls_below_floor() {
    assert_eq!(fall_step(150, 1000), BREAD_FLOOR);
    assert_eq!(fall_step(DROP_HEIGHT, 2_000_000), BREAD_FLOOR);
    assert_eq!(fall_step(BREAD_FLOOR, 50), BREAD_FLOOR);
    let mut y = DROP_HEIGHT;
    for _ in 0..200 {
        y = fall_step(y, 50);
        assert!(y >= BREAD_FLOOR);
    }
    assert_eq!(y, BREAD_FLOOR);
}

#[test]
fn zero_step_keeps_height() {
    assert_eq!(fall_step(5000, 0), 5000);
}

#[test]
fn boxes_touch_up_to_the_sum_of_half_extents() {
    let duck = at(0, 100, 0);
    assert!(intersects(&duck, &at(0, 800, 0)));
    assert!(!intersects(&duck, &at(0, 801, 0)));
    assert!(intersects(&duck, &at(-700, 100, 700)));
    assert!(!intersects(&duck, &at(-701, 100, 0)));
    assert!(!intersects(&duck, &at(0, 100, 701)));
}

#[test]
fn collecting_removes_only_touched_bread_in_order() {
    let duck = at(0, 0, 0);
    let mut breads = vec![at(0, 0, 0), at(5000, 0, 0), at(100, 200, -300), at(0, 0, 9000)];
    let eaten = collect_bread(&duck, &mut breads);
    assert_eq!(eaten, 2);
    assert_eq!(breads, vec![at(5000, 0, 0), at(0, 0, 9000)]);
}

#[test]
fn collecting_from_nothing_eats_nothing() {
    let mut breads: Vec<Vec3> = Vec::new();
    assert_eq!(collect_bread(&at(0, 0, 0), &mut breads), 0);
    assert!(breads.is_empty());
}
