use deli_cat_essen::moving_target::{isqrt, Point, Target, DEFAULT_SPEED};

#[test]
fn new_target_rests_at_origin() {
    let t = Target::new();
    assert!(t.is_active());
    assert_eq!(t.get_pos_no_offset(), Point::zero());
    assert_eq!(t.speed, DEFAULT_SPEED);
    assert!(!t.breath);
}

#[test]
fn first_target_is_placed_at_once() {
    let mut t = Target::new();
    t.set_target(Point::new(500, 700));
    assert!(t.is_active());
    assert_eq!(t.get_pos_no_offset(), Point::new(500, 700));
}

#[test]
fn later_target_is_approached() {
    let mut t = Target::new_with_speed(1000, Point::new(100, 0));
    t.set_target(Point::new(10100, 0));
    assert!(!t.is_active());
    t.update(1000);
    assert_eq!(t.get_pos_no_offset(), Point::new(1100, 0));
    assert_eq!(t.get_target(), Point::new(10100, 0));
}

#[test]
fn diagonal_step_follows_the_unit_vector() {
    let mut t = Target::new_with_speed(1000, Point::new(100, 100));
    t.set_target(Point::new(400, 500));
    t.update(100);
    assert_eq!(t.get_pos_no_offset(), Point::new(160, 180));
}

#[test]
fn backwards_step_moves_toward_smaller_coordinates() {
    let mut t = Target::new_with_speed(1000, Point::new(400, 500));
    t.set_target(Point::new(100, 100));
    t.update(100);
    assert_eq!(t.get_pos_no_offset(), Point::new(340, 420));
}

#[test]
fn snaps_when_within_one_step() {
    let mut t = Target::new_with_speed(1000, Point::new(100, 100));
    t.set_target(Point::new(600, 100));
    t.update(500);
    assert!(t.is_active());
    assert_eq!(t.get_pos_no_offset(), Point::new(600, 100));
}

#[test]
fn snaps_when_under_a_hundredth_of_the_speed() {
    let mut t = Target::new_with_speed(1000, Point::new(100, 100));
    t.set_target(Point::new(109, 100));
    t.update(0);
    assert!(t.is_active());
}

#[test]
fn zero_time_step_does_not_move_far_targets() {
    let mut t = Target::new_with_speed(1000, Point::new(100, 100));
    t.set_target(Point::new(5000, 100));
    t.update(0);
    assert_eq!(t.get_pos_no_offset(), Point::new(100, 100));
}

#[test]
fn settled_target_does_not_move() {
    let mut t = Target::new_with_speed(1000, Point::new(30, 40));
    t.update(1000);
    assert_eq!(t.get_pos_no_offset(), Point::new(30, 40));
}

#[test]
fn breathing_accumulates_only_when_enabled() {
    let mut t = Target::new();
    t.breath_update(50);
    assert_eq!(t.breath_time(), 0);
    t.breath = true;
    t.breath_update(50);
    t.breath_update(25);
    assert_eq!(t.breath_time(), 75);
}

#[test]
fn integer_square_roots() {
    assert_eq!(isqrt(0), 0);
    assert_eq!(isqrt(1), 1);
    assert_eq!(isqrt(15), 3);
    assert_eq!(isqrt(16), 4);
    assert_eq!(isqrt(250_000), 500);
    assert_eq!(isqrt(2 * 0xffff_ffff_u128 * 0xffff_ffff_u128), 6_074_000_998);
}
