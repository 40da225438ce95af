use slabclip::plane::aabb::{clip_aabb_line, Aabb, Normal};
use slabclip::plane::segment::Segment;
use slabclip::plane::slab::PARALLEL_EPSILON;
use slabclip::plane::{Point, Vector};
use slabclip::scalar::{Ratio, UNITS_PER_ONE};

const ONE: i32 = UNITS_PER_ONE;

fn square() -> Aabb {
    Aabb::new(Point::new(-ONE, -ONE), Point::new(ONE, ONE))
}

fn ratio(num: i64, den: u64) -> Ratio {
    Ratio { num, den }
}

fn value(r: &Ratio) -> f64 {
    r.num as f64 / r.den as f64
}

#[test]
fn epsilon_is_a_hundredth_of_a_unit() {
    assert_eq!(PARALLEL_EPSILON * 100, UNITS_PER_ONE as i64);
}

#[test]
fn line_through_the_box_along_the_first_axis() {
    let hit = clip_aabb_line(&square(), &Point::new(-2 * ONE, 0), &Vector::new(1000, 0));
    let (near, far) = hit.unwrap();
    assert_eq!(near, (ratio(1000, 1000), Normal::Axis { axis: 0, positive: false }, 1));
    assert_eq!(far, (ratio(3000, 1000), Normal::Axis { axis: 0, positive: true }, 1));
    assert_eq!(value(&near.0), 1.0);
    assert_eq!(value(&far.0), 3.0);
}

#[test]
fn line_through_the_box_against_the_first_axis() {
    let hit = clip_aabb_line(&square(), &Point::new(2 * ONE, 0), &Vector::new(-1000, 0));
    let (near, far) = hit.unwrap();
    assert_eq!(near, (ratio(1000, 1000), Normal::Axis { axis: 0, positive: true }, -1));
    assert_eq!(far, (ratio(3000, 1000), Normal::Axis { axis: 0, positive: false }, -1));
}

#[test]
fn line_through_the_box_along_the_second_axis() {
    let hit = clip_aabb_line(&square(), &Point::new(0, -3 * ONE), &Vector::new(0, 2000));
    let (near, far) = hit.unwrap();
    assert_eq!(near, (ratio(2000, 2000), Normal::Axis { axis: 1, positive: false }, 2));
    assert_eq!(far, (ratio(4000, 2000), Normal::Axis { axis: 1, positive: true }, 2));
}

#[test]
fn line_through_the_box_against_the_second_axis() {
    let hit = clip_aabb_line(&square(), &Point::new(0, 3 * ONE), &Vector::new(0, -2000));
    let (near, far) = hit.unwrap();
    assert_eq!(near, (ratio(2000, 2000), Normal::Axis { axis: 1, positive: true }, -2));
    assert_eq!(far, (ratio(4000, 2000), Normal::Axis { axis: 1, positive: false }, -2));
}

#[test]
fn line_through_two_corners_is_tied_at_both_hits() {
    let hit = clip_aabb_line(&square(), &Point::new(-2 * ONE, -2 * ONE), &Vector::new(1000, 1000));
    let (near, far) = hit.unwrap();
    assert_eq!(near, (ratio(1000, 1000), Normal::Reverse, 1));
    assert_eq!(far, (ratio(3000, 1000), Normal::Reverse, 1));
}

#[test]
fn tie_is_found_between_different_fractions() {
    let aabb = Aabb::new(Point::new(-1000, -500), Point::new(1000, 1000));
    let hit = clip_aabb_line(&aabb, &Point::new(-2000, -1000), &Vector::new(1000, 500));
    let (near, far) = hit.unwrap();
    assert_eq!(near, (ratio(1000, 1000), Normal::Reverse, 1));
    assert_eq!(far, (ratio(3000, 1000), Normal::Axis { axis: 0, positive: true }, 1));
}

#[test]
fn tie_at_the_exit_only() {
    let hit = clip_aabb_line(&square(), &Point::new(-1500, -4000), &Vector::new(1000, 2000));
    let (near, far) = hit.unwrap();
    assert_eq!(near, (ratio(3000, 2000), Normal::Axis { axis: 1, positive: false }, 2));
    assert_eq!(far, (ratio(2500, 1000), Normal::Reverse, 1));
}

#[test]
fn tie_at_the_entry_only() {
    let aabb = Aabb::new(Point::new(-1000, -1000), Point::new(1000, 2000));
    let hit = clip_aabb_line(&aabb, &Point::new(-2000, -2000), &Vector::new(1000, 1000));
    let (near, far) = hit.unwrap();
    assert_eq!(near.1, Normal::Reverse);
    assert_eq!(far, (ratio(3000, 1000), Normal::Axis { axis: 0, positive: true }, 1));
}

#[test]
fn later_axis_takes_over_the_near_hit() {
    let hit = clip_aabb_line(&square(), &Point::new(-1500, -4000), &Vector::new(1000, 2500));
    let (near, far) = hit.unwrap();
    assert_eq!(near, (ratio(3000, 2500), Normal::Axis { axis: 1, positive: false }, 2));
    assert_eq!(far, (ratio(5000, 2500), Normal::Axis { axis: 1, positive: true }, 2));
    let hit = clip_aabb_line(&square(), &Point::new(-1500, -3000), &Vector::new(1000, 1000));
    let (near, far) = hit.unwrap();
    assert_eq!(near, (ratio(2000, 1000), Normal::Axis { axis: 1, positive: false }, 2));
    assert_eq!(far, (ratio(2500, 1000), Normal::Axis { axis: 0, positive: true }, 1));
}

#[test]
fn origin_inside_gives_a_negative_entry() {
    let hit = clip_aabb_line(&square(), &Point::new(0, 0), &Vector::new(1000, 0));
    let (near, far) = hit.unwrap();
    assert_eq!(near, (ratio(-1000, 1000), Normal::Axis { axis: 0, positive: false }, 1));
    assert_eq!(far, (ratio(1000, 1000), Normal::Axis { axis: 0, positive: true }, 1));
}

#[test]
fn box_behind_the_origin_is_missed() {
    assert_eq!(clip_aabb_line(&square(), &Point::new(2 * ONE, 0), &Vector::new(1000, 0)), None);
}

#[test]
fn origin_outside_and_direction_pointing_away_is_missed() {
    let b = square();
    assert_eq!(clip_aabb_line(&b, &Point::new(-2000, 0), &Vector::new(-1000, 300)), None);
    assert_eq!(clip_aabb_line(&b, &Point::new(0, 2000), &Vector::new(300, 1000)), None);
    assert_eq!(clip_aabb_line(&b, &Point::new(1001, 0), &Vector::new(10, -1000)), None);
    assert_eq!(clip_aabb_line(&b, &Point::new(0, -1001), &Vector::new(1000, -10)), None);
}

#[test]
fn parallel_line_beside_the_box_is_missed() {
    assert_eq!(clip_aabb_line(&square(), &Point::new(-2000, 2000), &Vector::new(1000, 0)), None);
    assert_eq!(clip_aabb_line(&square(), &Point::new(-1001, -5000), &Vector::new(0, 1000)), None);
}

#[test]
fn parallel_line_on_a_face_is_kept() {
    let hit = clip_aabb_line(&square(), &Point::new(-2000, 1000), &Vector::new(1000, 0));
    let (near, far) = hit.unwrap();
    assert_eq!(near.2, 1);
    assert_eq!(far.2, 1);
    assert_eq!((value(&near.0), value(&far.0)), (1.0, 3.0));
}

#[test]
fn slabs_that_do_not_overlap_in_time_are_missed() {
    assert_eq!(
        clip_aabb_line(&square(), &Point::new(-2000, -5000), &Vector::new(1000, 1000)),
        None
    );
}

#[test]
fn component_below_epsilon_counts_as_parallel() {
    let b = square();
    let origin = Point::new(1001, -2000);
    assert_eq!(clip_aabb_line(&b, &origin, &Vector::new(-9, 1000)), None);
    assert_eq!(clip_aabb_line(&b, &origin, &Vector::new(9, 1000)), None);
    let (near, far) = clip_aabb_line(&b, &origin, &Vector::new(-10, 1000)).unwrap();
    assert_eq!(near, (ratio(1000, 1000), Normal::Axis { axis: 1, positive: false }, 2));
    assert_eq!(far, (ratio(3000, 1000), Normal::Axis { axis: 1, positive: true }, 2));
}

#[test]
fn component_below_epsilon_inside_the_slab_is_ignored() {
    let (near, far) =
        clip_aabb_line(&square(), &Point::new(999, -2000), &Vector::new(9, 1000)).unwrap();
    assert_eq!(near, (ratio(1000, 1000), Normal::Axis { axis: 1, positive: false }, 2));
    assert_eq!(far, (ratio(3000, 1000), Normal::Axis { axis: 1, positive: true }, 2));
}

#[test]
fn resting_line_in_the_box_crosses_no_face() {
    let hit = clip_aabb_line(&square(), &Point::new(0, 0), &Vector::new(0, 0));
    let (near, far) = hit.unwrap();
    assert_eq!(near, (Ratio::lowest(), Normal::Zero, 0));
    assert_eq!(far, (Ratio::highest(), Normal::Zero, 0));
    assert_eq!(clip_aabb_line(&square(), &Point::new(2000, 0), &Vector::new(5, -5)), None);
}

#[test]
fn whole_lattice_box_is_hit_from_anywhere() {
    let all = Aabb::new_invalid();
    let (near, far) = clip_aabb_line(&all, &Point::new(0, 0), &Vector::new(1000, 0)).unwrap();
    assert_eq!(near, (ratio(i32::MIN as i64, 1000), Normal::Axis { axis: 0, positive: false }, 1));
    assert_eq!(far, (ratio(i32::MAX as i64, 1000), Normal::Axis { axis: 0, positive: true }, 1));
}

#[test]
fn extreme_direction_does_not_overflow() {
    let all = Aabb::new_invalid();
    let origin = Point::new(i32::MAX, i32::MIN);
    let (near, far) = clip_aabb_line(&all, &origin, &Vector::new(i64::MIN, i64::MAX)).unwrap();
    assert_eq!(near, (ratio(0, 1 << 63), Normal::Reverse, -1));
    assert_eq!(far.2, -1);
    assert_eq!(far.0, ratio(4294967295, 1 << 63));
    assert_eq!(far.1, Normal::Axis { axis: 0, positive: false });
}

#[test]
fn reversed_corners_flip_on_a_forward_line() {
    let odd = Aabb::new(Point::new(1000, -1000), Point::new(-1000, 1000));
    let (near, far) = clip_aabb_line(&odd, &Point::new(-2000, 0), &Vector::new(1000, 0)).unwrap();
    assert_eq!(near, (ratio(1000, 1000), Normal::Axis { axis: 0, positive: true }, -1));
    assert_eq!(far, (ratio(3000, 1000), Normal::Axis { axis: 0, positive: false }, -1));
}

#[test]
fn segment_through_the_box_is_cut_at_both_faces() {
    let s = square().clip_segment(Point::new(-2000, 0), Point::new(2000, 0)).unwrap();
    assert_eq!(s, Segment::new(Point::new(-1000, 0), Point::new(1000, 0)));
}

#[test]
fn segment_starting_inside_keeps_its_start() {
    let s = square().clip_segment(Point::new(0, 0), Point::new(2000, 0)).unwrap();
    assert_eq!(s.a, Point::new(0, 0));
    assert_eq!(s.b, Point::new(1000, 0));
}

#[test]
fn segment_ending_inside_keeps_its_end() {
    let s = square().clip_segment(Point::new(-2000, 0), Point::new(0, 0)).unwrap();
    assert_eq!(s.a, Point::new(-1000, 0));
    assert_eq!(s.b, Point::new(0, 0));
}

#[test]
fn segment_inside_is_kept_whole() {
    let s = square().clip_segment(Point::new(-500, 250), Point::new(700, -900)).unwrap();
    assert_eq!(s, Segment::new(Point::new(-500, 250), Point::new(700, -900)));
}

#[test]
fn segment_beside_the_box_is_dropped() {
    assert_eq!(square().clip_segment(Point::new(-2000, 2000), Point::new(2000, 2000)), None);
    assert_eq!(square().clip_segment(Point::new(-2000, 0), Point::new(0, 4001)), None);
}

#[test]
fn segment_leading_away_from_the_box_is_dropped() {
    assert_eq!(square().clip_segment(Point::new(2000, 0), Point::new(3000, 0)), None);
    assert_eq!(square().clip_segment(Point::new(0, -1500), Point::new(500, -3000)), None);
}

#[test]
fn segment_stopping_short_of_the_box_collapses_to_its_end() {
    let s = square().clip_segment(Point::new(-5000, 0), Point::new(-3000, 0)).unwrap();
    assert_eq!(s, Segment::new(Point::new(-3000, 0), Point::new(-3000, 0)));
}

#[test]
fn cut_point_is_rounded_down_to_the_lattice() {
    let s = square().clip_segment(Point::new(0, 0), Point::new(3000, 1000)).unwrap();
    assert_eq!(s.a, Point::new(0, 0));
    assert_eq!(s.b, Point::new(1000, 333));
    let t = square().clip_segment(Point::new(0, 0), Point::new(3000, -1000)).unwrap();
    assert_eq!(t.b, Point::new(1000, -334));
    let u = square().clip_segment(Point::new(-3000, 1000), Point::new(0, 0)).unwrap();
    assert_eq!(u.a, Point::new(-1000, 333));
    assert_eq!(u.b, Point::new(0, 0));
}

#[test]
fn segment_through_a_corner() {
    let s = square().clip_segment(Point::new(-2000, -2000), Point::new(2000, 2000)).unwrap();
    assert_eq!(s, Segment::new(Point::new(-1000, -1000), Point::new(1000, 1000)));
}

#[test]
fn resting_segment_in_the_box_is_kept() {
    let p = Point::new(10, -20);
    assert_eq!(square().clip_segment(p, p), Some(Segment::new(p, p)));
    let q = Point::new(1001, 0);
    assert_eq!(square().clip_segment(q, q), None);
}

#[test]
fn segment_across_the_whole_lattice() {
    let pa = Point::new(i32::MIN, i32::MIN);
    let pb = Point::new(i32::MAX, i32::MAX);
    let s = square().clip_segment(pa, pb).unwrap();
    assert_eq!(s, Segment::new(Point::new(-1000, -1000), Point::new(1000, 1000)));
    let whole = Aabb::new_invalid().clip_segment(pa, pb).unwrap();
    assert_eq!(whole, Segment::new(pa, pb));
}

#[test]
fn advanced_rounds_each_coordinate_down() {
    let p = Point::new(10, 10);
    let d = Vector::new(7, -7);
    assert_eq!(p.advanced(&d, &ratio(1, 2)), Point::new(13, 6));
    assert_eq!(p.advanced(&d, &ratio(0, 5)), p);
    assert_eq!(p.advanced(&d, &ratio(5, 5)), Point::new(17, 3));
}
