use slabclip::solid::aabb::Aabb;
use slabclip::solid::{Point, Vector};

fn cube() -> Aabb {
    Aabb::new(Point::new(-1000, -1000, -1000), Point::new(1000, 1000, 1000))
}

#[test]
fn solid_new_keeps_the_corners() {
    let b = Aabb::new(Point::new(1, 2, 3), Point::new(4, 5, 6));
    assert_eq!(b.mins, Point { x: 1, y: 2, z: 3 });
    assert_eq!(b.maxs, Point { x: 4, y: 5, z: 6 });
}

#[test]
fn solid_new_invalid_spans_the_lattice() {
    let b = Aabb::new_invalid();
    assert_eq!(b.mins, Point::new(i32::MIN, i32::MIN, i32::MIN));
    assert_eq!(b.maxs, Point::new(i32::MAX, i32::MAX, i32::MAX));
    assert_eq!(b.extents(), Vector::new(4294967295, 4294967295, 4294967295));
    assert_eq!(b.intersection(&cube()), Some(cube()));
    assert!(b.contains(&cube()));
}

#[test]
fn solid_overlapping_boxes_intersect() {
    let b = Aabb::new(Point::new(0, 0, 0), Point::new(2000, 2000, 2000));
    assert!(cube().intersects(&b));
    assert!(b.intersects(&cube()));
}

#[test]
fn solid_boxes_apart_on_the_third_axis_do_not_intersect() {
    let above = Aabb::new(Point::new(-1000, -1000, 1500), Point::new(1000, 1000, 2500));
    assert!(!cube().intersects(&above));
    assert!(!above.intersects(&cube()));
    assert_eq!(cube().intersection(&above), None);
}

#[test]
fn solid_touching_boxes_do_not_intersect_but_have_an_intersection() {
    let above = Aabb::new(Point::new(-1000, -1000, 1000), Point::new(1000, 1000, 2000));
    assert!(!cube().intersects(&above));
    let face = cube().intersection(&above).unwrap();
    assert_eq!(face, Aabb::new(Point::new(-1000, -1000, 1000), Point::new(1000, 1000, 1000)));
    assert_eq!(face.extents(), Vector::new(2000, 2000, 0));
    assert!(above.intersects(&cube()));
}

#[test]
fn solid_intersection_takes_inner_corners() {
    let a = Aabb::new(Point::new(-10, -20, -30), Point::new(30, 40, 50));
    let b = Aabb::new(Point::new(0, -50, 10), Point::new(100, 10, 20));
    let c = a.intersection(&b).unwrap();
    assert_eq!(c, Aabb::new(Point::new(0, -20, 10), Point::new(30, 10, 20)));
    assert_eq!(b.intersection(&a), Some(c));
    assert!(a.contains(&c));
    assert!(b.contains(&c));
}

#[test]
fn solid_intersection_fails_on_each_axis_alone() {
    let a = Aabb::new(Point::new(0, 0, 0), Point::new(10, 10, 10));
    assert_eq!(a.intersection(&Aabb::new(Point::new(11, 0, 0), Point::new(20, 10, 10))), None);
    assert_eq!(a.intersection(&Aabb::new(Point::new(0, 11, 0), Point::new(10, 20, 10))), None);
    assert_eq!(a.intersection(&Aabb::new(Point::new(0, 0, 11), Point::new(10, 10, 20))), None);
}

#[test]
fn solid_contains_looks_at_every_axis() {
    let a = cube();
    assert!(a.contains(&a));
    assert!(a.contains(&Aabb::new(Point::new(-1, -1, -1), Point::new(1, 1, 1))));
    assert!(!a.contains(&Aabb::new(Point::new(-1, -1, -1001), Point::new(1, 1, 1))));
    assert!(!a.contains(&Aabb::new(Point::new(-1, -1, -1), Point::new(1, 1, 1001))));
    assert!(!a.contains(&Aabb::new(Point::new(-1001, -1, -1), Point::new(1, 1, 1))));
    assert!(!a.contains(&Aabb::new(Point::new(-1, -1, -1), Point::new(1, 1001, 1))));
}

#[test]
fn solid_contains_is_antisymmetric() {
    let a = Aabb::new(Point::new(-3, 4, 5), Point::new(9, 12, 13));
    let b = Aabb::new(Point::new(-3, 4, 5), Point::new(9, 12, 13));
    assert!(a.contains(&b) && b.contains(&a));
    assert_eq!(a, b);
}

#[test]
fn solid_center_and_extents() {
    let a = Aabb::new(Point::new(-1000, 2000, 1), Point::new(3000, 6001, 4));
    assert_eq!(a.center(), Point::new(1000, 4000, 2));
    assert_eq!(a.extents(), Vector::new(4000, 4001, 3));
    assert_eq!(a.half_extents(), Vector::new(2000, 2000, 1));
    assert_eq!(Aabb::new_invalid().center(), Point::new(-1, -1, -1));
}

#[test]
fn solid_half_extents_doubled_is_within_one_unit_of_extents() {
    let a = Aabb::new(Point::new(-7, 13, 0), Point::new(20, 41, 1));
    let e = a.extents();
    let h = a.half_extents();
    assert_eq!((e.x - 2 * h.x, e.y - 2 * h.y, e.z - 2 * h.z), (1, 0, 1));
}

#[test]
fn solid_point_get_reads_by_axis() {
    let p = Point::new(7, -9, 11);
    assert_eq!((p.get(0), p.get(1), p.get(2)), (7, -9, 11));
    let v = Vector::new(70, -90, 110);
    assert_eq!((v.get(0), v.get(1), v.get(2)), (70, -90, 110));
    assert_eq!(p.displacement_to(&Point::new(0, 0, 0)), Vector::new(-7, 9, -11));
}
