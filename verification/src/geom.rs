//! Geometry primitives: points with exact fractional coordinates, and
//! polygons ("shapes") as ordered, cyclic sequences of points.

use vstd::prelude::*;

use crate::frac::{
    frac_mid, frac_scale, frac_sub, frac_add, spec_frac_add, spec_frac_mid, spec_frac_scale,
    spec_frac_sub, Frac,
};

verus! {

/// A 2D point; a value type with no identity.
#[derive(Clone, Copy, Debug, PartialEq, Eq, Structural)]
pub struct Point {
    pub x: Frac,
    pub y: Frac,
}

impl Point {
    /// Both coordinates are well-formed fractions.
    pub open spec fn spec_wf(self) -> bool {
        self.x.spec_wf() && self.y.spec_wf()
    }

    pub fn new(x: Frac, y: Frac) -> (r: Point)
        ensures
            r == (Point { x, y }),
    {
        Point { x, y }
    }

    /// The origin.
    pub fn zero() -> (r: Point)
        ensures
            r == spec_zero_point(),
    {
        Point { x: Frac { num: 0, den: 1 }, y: Frac { num: 0, den: 1 } }
    }

    /// Whether two points denote the same position.
    pub fn same_value(&self, other: &Point) -> (r: bool)
        ensures
            r == (self.x.spec_same_value(other.x) && self.y.spec_same_value(other.y)),
    {
        self.x.same_value(&other.x) && self.y.same_value(&other.y)
    }
}

pub open spec fn spec_zero_point() -> Point {
    Point { x: Frac { num: 0, den: 1 }, y: Frac { num: 0, den: 1 } }
}

/// The midpoint of two points, when its coordinates fit in `i64`.
pub open spec fn spec_mid(f: Point, s: Point) -> Option<Point> {
    match (spec_frac_mid(f.x, s.x), spec_frac_mid(f.y, s.y)) {
        (Some(x), Some(y)) => Some(Point { x, y }),
        _ => None,
    }
}

/// The arithmetic midpoint of two points.
pub fn mid(f: &Point, s: &Point) -> (r: Option<Point>)
    requires
        f.spec_wf(),
        s.spec_wf(),
    ensures
        r == spec_mid(*f, *s),
        r matches Some(p) ==> p.spec_wf(),
{
    match (frac_mid(&f.x, &s.x), frac_mid(&f.y, &s.y)) {
        (Some(x), Some(y)) => Some(Point { x, y }),
        _ => None,
    }
}

/// The sum of two points, coordinate by coordinate.
pub open spec fn spec_point_add(a: Point, b: Point) -> Option<Point> {
    match (spec_frac_add(a.x, b.x), spec_frac_add(a.y, b.y)) {
        (Some(x), Some(y)) => Some(Point { x, y }),
        _ => None,
    }
}

fn point_add(a: &Point, b: &Point) -> (r: Option<Point>)
    requires
        a.spec_wf(),
        b.spec_wf(),
    ensures
        r == spec_point_add(*a, *b),
        r matches Some(p) ==> p.spec_wf(),
{
    match (frac_add(&a.x, &b.x), frac_add(&a.y, &b.y)) {
        (Some(x), Some(y)) => Some(Point { x, y }),
        _ => None,
    }
}

/// `v` as an `i64`, when it fits.
pub open spec fn spec_usize_to_i64(v: usize) -> Option<i64> {
    if v <= i64::MAX {
        Some(v as i64)
    } else {
        None
    }
}

fn usize_to_i64(v: usize) -> (r: Option<i64>)
    ensures
        r == spec_usize_to_i64(v),
{
    if (v as u64) <= (i64::MAX as u64) {
        Some(v as i64)
    } else {
        None
    }
}

/// One fractional coordinate of the point dividing the directed segment
/// from `f` to `s` at offset `of / n`: `f + (s - f) * (of / n)`.
pub open spec fn spec_frac_interp(f: Frac, s: Frac, of: i64, n: i64) -> Option<Frac> {
    match spec_frac_sub(s, f) {
        Some(d) => match spec_frac_scale(d, of, n) {
            Some(sc) => spec_frac_add(sc, f),
            _ => None,
        },
        _ => None,
    }
}

fn frac_interp(f: &Frac, s: &Frac, of: i64, n: i64) -> (r: Option<Frac>)
    requires
        f.spec_wf(),
        s.spec_wf(),
        n >= 1,
    ensures
        r == spec_frac_interp(*f, *s, of, n),
        r matches Some(v) ==> v.spec_wf(),
{
    match frac_sub(s, f) {
        Some(d) => match frac_scale(&d, of, n) {
            Some(sc) => frac_add(&sc, f),
            _ => None,
        },
        _ => None,
    }
}

/// The point dividing the directed segment from `f` to `s` into `n` equal
/// parts, at fractional offset `of / n` from `f`. `None` when the offsets
/// do not fit in `i64` or a coordinate overflows.
pub open spec fn spec_div(f: Point, s: Point, of: usize, n: usize) -> Option<Point> {
    match (spec_usize_to_i64(of), spec_usize_to_i64(n)) {
        (Some(o), Some(m)) => match (
            spec_frac_interp(f.x, s.x, o, m),
            spec_frac_interp(f.y, s.y, o, m),
        ) {
            (Some(x), Some(y)) => Some(Point { x, y }),
            _ => None,
        },
        _ => None,
    }
}

/// The division point `f + (s - f) * (of / n)`.
pub fn div(f: &Point, s: &Point, of: usize, n: usize) -> (r: Option<Point>)
    requires
        f.spec_wf(),
        s.spec_wf(),
        n >= 1,
    ensures
        r == spec_div(*f, *s, of, n),
        r matches Some(p) ==> p.spec_wf(),
{
    match (usize_to_i64(of), usize_to_i64(n)) {
        (Some(o), Some(m)) => match (frac_interp(&f.x, &s.x, o, m), frac_interp(&f.y, &s.y, o, m)) {
            (Some(x), Some(y)) => Some(Point { x, y }),
            _ => None,
        },
        _ => None,
    }
}

/// A polygon: an ordered, cyclic sequence of points. The last point is
/// adjacent to the first; the invariant is a non-empty sequence.
#[derive(Debug)]
pub struct Shape {
    points: Vec<Point>,
}

impl View for Shape {
    type V = Seq<Point>;

    closed spec fn view(&self) -> Seq<Point> {
        self.points@
    }
}

impl Clone for Shape {
    fn clone(&self) -> (r: Shape)
        ensures
            r@ == self@,
    {
        Shape { points: self.points.clone() }
    }
}

/// All points of a sequence are well-formed.
pub open spec fn spec_points_wf(s: Seq<Point>) -> bool {
    forall|i: int| 0 <= i < s.len() ==> #[trigger] s[i].spec_wf()
}

/// The running sum of a sequence of points, `None` as soon as a
/// coordinate overflows.
pub open spec fn spec_sum_points(s: Seq<Point>) -> Option<Point>
    decreases s.len(),
{
    if s.len() == 0 {
        Some(spec_zero_point())
    } else {
        match spec_sum_points(s.drop_last()) {
            Some(acc) => spec_point_add(acc, s.last()),
            _ => None,
        }
    }
}

/// The centroid: the arithmetic mean of all points of the sequence.
pub open spec fn spec_center(s: Seq<Point>) -> Option<Point> {
    match spec_sum_points(s) {
        Some(total) => {
            if s.len() <= i64::MAX {
                match (
                    spec_frac_scale(total.x, 1, s.len() as i64),
                    spec_frac_scale(total.y, 1, s.len() as i64),
                ) {
                    (Some(x), Some(y)) => Some(Point { x, y }),
                    _ => None,
                }
            } else {
                None
            }
        },
        _ => None,
    }
}

/// A failed sum over a prefix fails over the whole sequence.
proof fn lemma_sum_prefix_none(s: Seq<Point>, i: int)
    requires
        0 <= i <= s.len(),
        spec_sum_points(s.take(i)) is None,
    ensures
        spec_sum_points(s) is None,
    decreases s.len() - i,
{
    if i == s.len() {
        assert(s.take(i) =~= s);
    } else {
        assert(s.take(i + 1).drop_last() =~= s.take(i));
        lemma_sum_prefix_none(s, i + 1);
    }
}

impl Shape {
    /// The invariant of a shape: at least one point, all well-formed.
    pub open spec fn spec_wf(self) -> bool {
        self@.len() >= 1 && spec_points_wf(self@)
    }

    /// A shape from its cyclic vertex list.
    pub fn new(points: Vec<Point>) -> (r: Shape)
        requires
            points@.len() >= 1,
            spec_points_wf(points@),
        ensures
            r@ == points@,
            r.spec_wf(),
    {
        Shape { points }
    }

    /// The vertex count of the polygon.
    pub fn gons(&self) -> (r: usize)
        ensures
            r == self@.len(),
    {
        self.points.len()
    }

    /// The `i`-th point, in cyclic order.
    pub fn point(&self, i: usize) -> (r: Point)
        requires
            i < self@.len(),
        ensures
            r == self@[i as int],
    {
        self.points[i]
    }

    /// All points, in cyclic order.
    pub fn points(&self) -> (r: &Vec<Point>)
        ensures
            r@ == self@,
    {
        &self.points
    }

    /// The centroid of the polygon: the mean of its points.
    pub fn center(&self) -> (r: Option<Point>)
        requires
            self.spec_wf(),
        ensures
            r == spec_center(self@),
            r matches Some(p) ==> p.spec_wf(),
    {
        let n = self.points.len();
        let mut acc = Point::zero();
        let mut i: usize = 0;
        while i < n
            invariant
                n == self@.len(),
                0 <= i <= n,
                self.spec_wf(),
                Some(acc) == spec_sum_points(self@.take(i as int)),
                acc.spec_wf(),
            decreases n - i,
        {
            assert(self@.take(i + 1).drop_last() =~= self@.take(i as int));
            match point_add(&acc, &self.points[i]) {
                Some(a) => {
                    acc = a;
                },
                None => {
                    proof {
                        lemma_sum_prefix_none(self@, i + 1);
                    }
                    return None;
                },
            }
            i = i + 1;
        }
        assert(self@.take(n as int) =~= self@);
        let m = match usize_to_i64(n) {
            Some(m) => m,
            None => {
                return None;
            },
        };
        match (frac_scale(&acc.x, 1, m), frac_scale(&acc.y, 1, m)) {
            (Some(x), Some(y)) => Some(Point { x, y }),
            _ => None,
        }
    }
}

} // verus!
