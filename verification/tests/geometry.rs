use shapesys::frac::Frac;
use shapesys::geom::{div, mid, Point, Shape};

fn pt(x: i64, y: i64) -> Point {
    Point::new(Frac::from_int(x), Frac::from_int(y))
}

#[test]
fn frac_value_equality() {
    assert!(Frac::new(10, 2).same_value(&Frac::from_int(5)));
    assert!(Frac::new(1, 2).same_value(&Frac::new(2, 4)));
    assert!(!Frac::new(1, 2).same_value(&Frac::new(2, 3)));
    assert!(Frac::new(-3, 2).same_value(&Frac::new(-6, 4)));
}

#[test]
fn midpoint_of_segment() {
    // the midpoint of (0,0) and (10,0) is (5,0)
    let m = mid(&pt(0, 0), &pt(10, 0)).unwrap();
    assert!(m.x.same_value(&Frac::from_int(5)));
    assert!(m.y.same_value(&Frac::from_int(0)));
}

#[test]
fn midpoint_overflow_is_reported() {
    let big = pt(i64::MAX, 0);
    assert!(mid(&big, &big).is_none());
}

#[test]
fn division_points_of_segment() {
    // the two points dividing (0,0)..(9,0) into three equal parts
    let first = div(&pt(0, 0), &pt(9, 0), 1, 3).unwrap();
    let second = div(&pt(0, 0), &pt(9, 0), 2, 3).unwrap();
    assert!(first.x.same_value(&Frac::from_int(3)));
    assert!(first.y.same_value(&Frac::from_int(0)));
    assert!(second.x.same_value(&Frac::from_int(6)));
    assert!(second.y.same_value(&Frac::from_int(0)));
}

#[test]
fn division_is_directed() {
    // interpolation runs from the first point to the second
    let p = div(&pt(9, 0), &pt(0, 0), 1, 3).unwrap();
    assert!(p.x.same_value(&Frac::from_int(6)));
}

#[test]
fn centroid_of_unit_square() {
    let sq = Shape::new(vec![pt(0, 0), pt(0, 1), pt(1, 1), pt(1, 0)]);
    assert_eq!(sq.gons(), 4);
    let c = sq.center().unwrap();
    assert!(c.x.same_value(&Frac::new(1, 2)));
    assert!(c.y.same_value(&Frac::new(1, 2)));
}

#[test]
fn centroid_of_single_point() {
    let s = Shape::new(vec![pt(7, -3)]);
    let c = s.center().unwrap();
    assert!(c.x.same_value(&Frac::from_int(7)));
    assert!(c.y.same_value(&Frac::from_int(-3)));
}

#[test]
fn shape_points_are_kept_in_order() {
    let s = Shape::new(vec![pt(1, 2), pt(3, 4), pt(5, 6)]);
    assert_eq!(s.gons(), 3);
    assert_eq!(s.point(0), pt(1, 2));
    assert_eq!(s.point(2), pt(5, 6));
    assert_eq!(s.points().len(), 3);
    let t = s.clone();
    assert_eq!(s.points(), t.points());
}
