use slabclip::plane::aabb::Aabb;
use slabclip::plane::segment::Segment;
use slabclip::plane::{Point, Vector};

fn unit_box() -> Aabb {
    Aabb::new(Point::new(-1000, -1000), Point::new(1000, 1000))
}

#[test]
fn new_keeps_the_corners() {
    let b = Aabb::new(Point::new(1, 2), Point::new(3, 4));
    assert_eq!(b.mins, Point { x: 1, y: 2 });
    assert_eq!(b.maxs, Point { x: 3, y: 4 });
}

#[test]
fn new_does_not_validate() {
    let b = Aabb::new(Point::new(5, 5), Point::new(-5, -5));
    assert_eq!(b.mins, Point::new(5, 5));
    assert_eq!(b.maxs, Point::new(-5, -5));
}

#[test]
fn new_invalid_spans_the_lattice() {
    let b = Aabb::new_invalid();
    assert_eq!(b.mins, Point::new(i32::MIN, i32::MIN));
    assert_eq!(b.maxs, Point::new(i32::MAX, i32::MAX));
}

#[test]
fn new_invalid_is_identity_of_intersection() {
    let b = Aabb::new(Point::new(-7, 3), Point::new(20, 40));
    assert_eq!(Aabb::new_invalid().intersection(&b), Some(b));
    assert_eq!(b.intersection(&Aabb::new_invalid()), Some(b));
    assert!(Aabb::new_invalid().contains(&b));
}

#[test]
fn extents_of_the_whole_lattice_do_not_wrap() {
    let e = Aabb::new_invalid().extents();
    assert_eq!(e, Vector::new(4294967295, 4294967295));
}

#[test]
fn overlapping_boxes_intersect_both_ways() {
    let a = unit_box();
    let b = Aabb::new(Point::new(0, 0), Point::new(2000, 2000));
    assert!(a.intersects(&b));
    assert!(b.intersects(&a));
}

#[test]
fn disjoint_boxes_do_not_intersect() {
    let a = unit_box();
    let b = Aabb::new(Point::new(1500, -1000), Point::new(2500, 1000));
    assert!(!a.intersects(&b));
    assert!(!b.intersects(&a));
    assert_eq!(a.intersection(&b), None);
}

#[test]
fn touching_boxes_do_not_intersect_but_have_an_intersection() {
    let a = Aabb::new(Point::new(0, 0), Point::new(1000, 1000));
    let b = Aabb::new(Point::new(1000, 0), Point::new(2000, 1000));
    assert!(!a.intersects(&b));
    let c = a.intersection(&b).unwrap();
    assert_eq!(c, Aabb::new(Point::new(1000, 0), Point::new(1000, 1000)));
    assert_eq!(c.extents().x, 0);
    assert_eq!(c.extents().y, 1000);
}

#[test]
fn touching_from_the_high_side_passes_the_one_sided_test() {
    let a = Aabb::new(Point::new(0, 0), Point::new(1000, 1000));
    let b = Aabb::new(Point::new(1000, 0), Point::new(2000, 1000));
    assert!(b.intersects(&a));
    assert!(!a.intersects(&b));
}

#[test]
fn touching_on_the_second_axis() {
    let a = Aabb::new(Point::new(0, 0), Point::new(1000, 1000));
    let b = Aabb::new(Point::new(0, 1000), Point::new(1000, 3000));
    assert!(!a.intersects(&b));
    let c = a.intersection(&b).unwrap();
    assert_eq!(c.extents(), Vector::new(1000, 0));
}

#[test]
fn intersection_takes_inner_corners() {
    let a = Aabb::new(Point::new(-10, -20), Point::new(30, 40));
    let b = Aabb::new(Point::new(0, -50), Point::new(100, 10));
    let c = a.intersection(&b).unwrap();
    assert_eq!(c, Aabb::new(Point::new(0, -20), Point::new(30, 10)));
    assert_eq!(b.intersection(&a), Some(c));
}

#[test]
fn intersection_lies_in_both() {
    let a = Aabb::new(Point::new(-10, -20), Point::new(30, 40));
    let b = Aabb::new(Point::new(0, -50), Point::new(100, 10));
    let c = a.intersection(&b).unwrap();
    assert!(a.contains(&c));
    assert!(b.contains(&c));
}

#[test]
fn intersection_fails_on_the_second_axis_alone() {
    let a = Aabb::new(Point::new(0, 0), Point::new(10, 10));
    let b = Aabb::new(Point::new(5, 11), Point::new(15, 20));
    assert_eq!(a.intersection(&b), None);
}

#[test]
fn contains_is_reflexive_and_antisymmetric() {
    let a = Aabb::new(Point::new(-3, 4), Point::new(9, 12));
    let inner = Aabb::new(Point::new(-3, 5), Point::new(8, 12));
    assert!(a.contains(&a));
    assert!(a.contains(&inner));
    assert!(!inner.contains(&a));
    let same = Aabb::new(Point::new(-3, 4), Point::new(9, 12));
    assert!(a.contains(&same) && same.contains(&a));
    assert_eq!(a, same);
}

#[test]
fn contains_rejects_a_box_that_sticks_out() {
    let a = Aabb::new(Point::new(0, 0), Point::new(10, 10));
    assert!(!a.contains(&Aabb::new(Point::new(-1, 0), Point::new(10, 10))));
    assert!(!a.contains(&Aabb::new(Point::new(0, -1), Point::new(10, 10))));
    assert!(!a.contains(&Aabb::new(Point::new(0, 0), Point::new(11, 10))));
    assert!(!a.contains(&Aabb::new(Point::new(0, 0), Point::new(10, 11))));
}

#[test]
fn center_is_the_midpoint() {
    let a = Aabb::new(Point::new(-1000, 2000), Point::new(3000, 6000));
    assert_eq!(a.center(), Point::new(1000, 4000));
}

#[test]
fn center_rounds_down() {
    let a = Aabb::new(Point::new(0, -4), Point::new(3, -1));
    assert_eq!(a.center(), Point::new(1, -3));
    let whole = Aabb::new_invalid();
    assert_eq!(whole.center(), Point::new(-1, -1));
}

#[test]
fn extents_and_half_extents() {
    let a = Aabb::new(Point::new(-1000, 2000), Point::new(3000, 6001));
    assert_eq!(a.extents(), Vector::new(4000, 4001));
    assert_eq!(a.half_extents(), Vector::new(2000, 2000));
}

#[test]
fn half_extents_doubled_is_within_one_unit_of_extents() {
    let a = Aabb::new(Point::new(-7, 13), Point::new(20, 40));
    let e = a.extents();
    let h = a.half_extents();
    assert_eq!(e, Vector::new(27, 27));
    assert_eq!(h, Vector::new(13, 13));
    assert!(e.x - 2 * h.x == 1 && e.y - 2 * h.y == 1);
    let even = Aabb::new(Point::new(-8, 10), Point::new(20, 40));
    assert_eq!(even.half_extents().x * 2, even.extents().x);
    assert_eq!(even.half_extents().y * 2, even.extents().y);
}

#[test]
fn half_extents_of_reversed_corners_round_down() {
    let a = Aabb::new(Point::new(3, 0), Point::new(0, 0));
    assert_eq!(a.extents(), Vector::new(-3, 0));
    assert_eq!(a.half_extents(), Vector::new(-2, 0));
}

#[test]
fn segment_new_keeps_the_endpoints() {
    let s = Segment::new(Point::new(1, 2), Point::new(3, 4));
    assert_eq!(s.a, Point::new(1, 2));
    assert_eq!(s.b, Point::new(3, 4));
}

#[test]
fn point_get_reads_by_axis() {
    let p = Point::new(7, -9);
    assert_eq!(p.get(0), 7);
    assert_eq!(p.get(1), -9);
    let v = Vector::new(70, -90);
    assert_eq!(v.get(0), 70);
    assert_eq!(v.get(1), -90);
    let far = Point::new(i32::MAX, i32::MIN);
    assert_eq!(p.displacement_to(&far), Vector::new(2147483640, -2147483639));
}
