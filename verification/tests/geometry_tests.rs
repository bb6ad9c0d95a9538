use inkcore::geometry::{
    aabb_ceil, aabb_translate, ceil_to_grid, checked_rescale, floor_to_grid, Aabb, Vec2, UNIT,
};

fn boxed(x0: i32, y0: i32, x1: i32, y1: i32) -> Aabb {
    Aabb::new(Vec2::new(x0, y0), Vec2::new(x1, y1))
}

#[test]
fn unit_is_a_thousand_steps() {
    assert_eq!(UNIT, 1000);
}

#[test]
fn merge_is_the_least_box_around_both() {
    let a = boxed(0, 0, 10, 10);
    let b = boxed(-5, 3, 4, 20);
    assert_eq!(a.merged(&b), boxed(-5, 0, 10, 20));
    let mut c = a;
    c.merge(&b);
    assert_eq!(c, boxed(-5, 0, 10, 20));
}

#[test]
fn merge_is_commutative() {
    let a = boxed(0, 0, 10, 10);
    let b = boxed(-5, 3, 4, 20);
    assert_eq!(a.merged(&b), b.merged(&a));
}

#[test]
fn merge_is_idempotent() {
    let a = boxed(-7, 2, 10, 11);
    assert_eq!(a.merged(&a), a);
}

#[test]
fn merge_is_associative() {
    let a = boxed(0, 0, 10, 10);
    let b = boxed(-5, 3, 4, 20);
    let c = boxed(8, -9, 30, 1);
    assert_eq!(a.merged(&b).merged(&c), a.merged(&b.merged(&c)));
    assert_eq!(a.merged(&b).merged(&c), boxed(-5, -9, 30, 20));
}

#[test]
fn ceil_grows_outward_to_the_grid() {
    let b = boxed(-1, 1, 999, 1001);
    assert_eq!(aabb_ceil(b), boxed(-1000, 0, 1000, 2000));
}

#[test]
fn ceil_is_idempotent_and_contains_its_box() {
    let b = boxed(-2500, 1499, 10, 3001);
    let once = aabb_ceil(b);
    assert!(once.contains(&b));
    assert_eq!(aabb_ceil(once), once);
    assert_eq!(once, boxed(-3000, 1000, 1000, 4000));
}

#[test]
fn ceil_leaves_a_box_on_the_grid_alone() {
    let b = boxed(-3000, 0, 2000, 5000);
    assert!(b.can_ceil());
    assert_eq!(aabb_ceil(b), b);
}

#[test]
fn ceil_does_not_fit_at_the_end_of_the_range() {
    assert!(!boxed(0, 0, i32::MAX, 0).can_ceil());
    assert!(!boxed(i32::MIN, 0, 0, 0).can_ceil());
    assert!(boxed(-2147483000, 0, 2147483000, 0).can_ceil());
}

#[test]
fn grid_lines_around_negative_coordinates() {
    assert_eq!(floor_to_grid(-1), -1000);
    assert_eq!(floor_to_grid(-1000), -1000);
    assert_eq!(floor_to_grid(1999), 1000);
    assert_eq!(ceil_to_grid(-1), 0);
    assert_eq!(ceil_to_grid(1), 1000);
    assert_eq!(ceil_to_grid(-1001), -1000);
    assert_eq!(ceil_to_grid(2000), 2000);
    assert_eq!(floor_to_grid(i64::MAX), 9223372036854775000);
    assert_eq!(ceil_to_grid(i64::MIN), -9223372036854775000);
    assert_eq!(floor_to_grid(-9223372036854775000), -9223372036854775000);
    assert_eq!(ceil_to_grid(9223372036854775000), 9223372036854775000);
}

#[test]
fn translate_shifts_both_corners() {
    let b = boxed(0, 0, 10, 10);
    assert_eq!(aabb_translate(b, Vec2::new(5, -7)), boxed(5, -7, 15, 3));
    assert_eq!(aabb_translate(b, Vec2::zero()), b);
}

#[test]
fn translate_fits_only_inside_the_range() {
    let b = boxed(0, 0, 10, 10);
    assert!(b.can_translate(Vec2::new(i32::MAX - 10, 0)));
    assert!(!b.can_translate(Vec2::new(i32::MAX - 9, 0)));
    assert!(!Vec2::new(i32::MIN, 0).can_translate(Vec2::new(-1, 0)));
    assert_eq!(Vec2::new(1, 2).translate(Vec2::new(3, 4)), Vec2::new(4, 6));
}

#[test]
fn containment_and_intersection() {
    let a = boxed(0, 0, 10, 10);
    assert!(a.contains(&boxed(0, 0, 10, 10)));
    assert!(a.contains(&boxed(2, 3, 4, 5)));
    assert!(!a.contains(&boxed(2, 3, 11, 5)));
    assert!(a.contains_point(&Vec2::new(10, 0)));
    assert!(!a.contains_point(&Vec2::new(11, 0)));
    assert!(a.intersects(&boxed(10, 10, 20, 20)));
    assert!(!a.intersects(&boxed(11, 0, 20, 10)));
}

#[test]
fn validity_and_size() {
    assert!(boxed(3, 3, 3, 3).is_valid());
    assert!(!boxed(4, 3, 3, 3).is_valid());
    let b = boxed(i32::MIN, -5, i32::MAX, 7);
    assert_eq!(b.width(), 4294967295);
    assert_eq!(b.height(), 12);
    assert_eq!(Aabb::point(Vec2::new(4, 5)), boxed(4, 5, 4, 5));
}

#[test]
fn loosened_grows_every_side() {
    assert_eq!(boxed(0, 0, 10, 10).loosened(3), Some(boxed(-3, -3, 13, 13)));
    assert_eq!(boxed(i32::MIN, 0, 10, 10).loosened(1), None);
    assert_eq!(boxed(0, 0, 10, i32::MAX).loosened(1), None);
}

#[test]
fn rescale_sends_corners_to_corners() {
    assert_eq!(checked_rescale(-1000, -1000, 11000, 0, 20000), Some(0));
    assert_eq!(checked_rescale(11000, -1000, 11000, 0, 20000), Some(20000));
}

#[test]
fn rescale_rounds_down() {
    assert_eq!(checked_rescale(0, -1000, 11000, 0, 20000), Some(1666));
    assert_eq!(checked_rescale(10000, -1000, 11000, 0, 20000), Some(18333));
    // a point left of the source box lands left of the target box
    assert_eq!(checked_rescale(-2, 0, 3, 0, 1), Some(-1));
    assert_eq!(checked_rescale(-3, 0, 3, 0, 1), Some(-1));
    assert_eq!(checked_rescale(-4, 0, 3, 0, 1), Some(-2));
}

#[test]
fn rescale_from_a_box_without_extent_only_shifts() {
    assert_eq!(checked_rescale(7, 5, 5, 100, 900), Some(102));
    assert_eq!(checked_rescale(5, 5, 5, 100, 900), Some(100));
    // a source interval that runs backwards has no extent either
    assert_eq!(checked_rescale(7, 5, 4, 100, 900), Some(102));
}

#[test]
fn rescale_onto_a_box_without_extent_collapses() {
    assert_eq!(checked_rescale(7, 0, 10, 50, 50), Some(50));
}

#[test]
fn rescale_onto_a_box_with_swapped_corners_mirrors() {
    assert_eq!(checked_rescale(0, 0, 10, 100, 0), Some(100));
    assert_eq!(checked_rescale(10, 0, 10, 100, 0), Some(0));
    assert_eq!(checked_rescale(3, 0, 10, 100, 0), Some(70));
    assert_eq!(checked_rescale(0, 0, 3, i32::MAX, i32::MIN), Some(i32::MAX));
    assert_eq!(checked_rescale(3, 0, 3, i32::MAX, i32::MIN), Some(i32::MIN));
}

#[test]
fn rescale_reports_what_leaves_the_range() {
    assert_eq!(checked_rescale(i32::MAX, 0, 1, 0, 2), None);
    assert_eq!(checked_rescale(i32::MAX, 0, 0, 1, 1), None);
    assert_eq!(checked_rescale(i32::MIN, i32::MIN, i32::MAX, i32::MIN, i32::MAX), Some(i32::MIN));
    assert_eq!(checked_rescale(i32::MAX, i32::MIN, i32::MAX, i32::MIN, i32::MAX), Some(i32::MAX));
}

#[test]
fn points_rescale_axis_by_axis() {
    let src = boxed(0, 0, 10, 20);
    let dst = boxed(100, 100, 120, 110);
    let p = Vec2::new(5, 10);
    assert!(p.can_rescale(&src, &dst));
    assert_eq!(p.rescale(&src, &dst), Vec2::new(110, 105));
    assert!(!Vec2::new(i32::MAX, 0).can_rescale(&src, &dst));
}
