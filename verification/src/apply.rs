//! Coordinate resolution and rule application.
//!
//! Applying a rule to a polygon of matching vertex count binds every
//! symbol of the production to a point: the vertex symbols to the
//! polygon's points in cyclic order, the derived symbols to midpoints or
//! division points of their neighbouring vertices, and the centroid symbol
//! to the mean of all points. Each right-hand-side sequence then becomes
//! one derived polygon; the terminal sequence, if any, is reported
//! separately so the driver can render it instead of rewriting it again.

use vstd::prelude::*;

use crate::geom::{div, mid, spec_center, spec_div, spec_mid, Point, Shape};
use crate::rule::{spec_count_verts, spec_is_letter, spec_rule_wf, Rule, RuleV};
use crate::symbols::{is_mid, is_vertex, spec_is_mid, spec_is_vertex, CENTER};

verus! {

/// The vertex bindings after scanning the first `i` LHS positions: the
/// `k`-th vertex symbol takes the polygon's `k`-th point; a later binding
/// of the same symbol wins; symbols beyond the polygon's points stay
/// unbound.
pub open spec fn spec_vert_map(lhs: Seq<u8>, pts: Seq<Point>, i: int) -> Map<u8, Point>
    decreases i,
{
    if i <= 0 {
        Map::empty()
    } else {
        let m = spec_vert_map(lhs, pts, i - 1);
        let c = lhs[i - 1];
        let k = spec_count_verts(lhs.take(i - 1));
        if spec_is_vertex(c) && k < pts.len() {
            m.insert(c, pts[k as int])
        } else {
            m
        }
    }
}

/// The position of the nearest vertex symbol strictly before `i`.
pub open spec fn spec_prev_vert(lhs: Seq<u8>, i: int) -> int
    decreases i,
{
    if i <= 0 {
        -1
    } else if spec_is_vertex(lhs[i - 1]) {
        i - 1
    } else {
        spec_prev_vert(lhs, i - 1)
    }
}

/// The position of the nearest vertex symbol at or after `i`.
pub open spec fn spec_next_vert(lhs: Seq<u8>, i: int) -> int
    decreases lhs.len() - i,
{
    if i < 0 || i >= lhs.len() {
        lhs.len() as int
    } else if spec_is_vertex(lhs[i]) {
        i
    } else {
        spec_next_vert(lhs, i + 1)
    }
}

/// The point a derived symbol at LHS position `p` resolves to.
///
/// In bisection mode it is the midpoint of the points bound to the two
/// neighbouring positions; in group-division mode, the `j`-th of `k`
/// symbols between the bounding vertices `f` and `s` divides the directed
/// segment from `f` to `s` at offset `j / (k + 1)`.
pub open spec fn spec_mid_value(r: RuleV, vm: Map<u8, Point>, p: int) -> Option<Point> {
    if r.uniform_gaps {
        spec_mid(vm[r.lhs[p - 1]], vm[r.lhs[p + 1]])
    } else {
        let f = spec_prev_vert(r.lhs, p);
        let s = spec_next_vert(r.lhs, p + 1);
        spec_div(vm[r.lhs[f]], vm[r.lhs[s]], (p - f) as usize, (s - f) as usize)
    }
}

/// The symbol table after resolving the derived symbols of the first `i`
/// LHS positions, `None` as soon as a coordinate overflows.
pub open spec fn spec_mids(r: RuleV, vm: Map<u8, Point>, i: int) -> Option<Map<u8, Point>>
    decreases i,
{
    if i <= 0 {
        Some(vm)
    } else {
        match spec_mids(r, vm, i - 1) {
            Some(m) => {
                let c = r.lhs[i - 1];
                if spec_is_mid(c) {
                    match spec_mid_value(r, vm, i - 1) {
                        Some(p) => Some(m.insert(c, p)),
                        None => None,
                    }
                } else {
                    Some(m)
                }
            },
            None => None,
        }
    }
}

/// The full symbol table of one application: vertices, then derived
/// symbols, then the centroid if the rule uses it.
pub open spec fn spec_table(r: RuleV, pts: Seq<Point>) -> Option<Map<u8, Point>> {
    let vm = spec_vert_map(r.lhs, pts, r.lhs.len() as int);
    match spec_mids(r, vm, r.lhs.len() as int) {
        Some(m) => {
            if r.uses_center {
                match spec_center(pts) {
                    Some(c) => Some(m.insert(CENTER, c)),
                    None => None,
                }
            } else {
                Some(m)
            }
        },
        None => None,
    }
}

/// One output polygon: the sequence's symbols, resolved in order.
pub open spec fn spec_build_shape(syms: Seq<u8>, m: Map<u8, Point>) -> Seq<Point> {
    syms.map(|j: int, c: u8| m[c])
}

/// What applying a rule yields: the carried polygons in right-hand-side
/// order, and separately the terminal polygon if one sequence reproduces
/// the matched polygon verbatim. `None` when a coordinate overflows.
pub open spec fn spec_rule_apply(r: RuleV, pts: Seq<Point>) -> Option<
    (Seq<Seq<Point>>, Option<Seq<Point>>),
> {
    match spec_table(r, pts) {
        Some(m) => {
            let shapes = r.rhs.map(|i: int, syms: Seq<u8>| spec_build_shape(syms, m));
            match r.terminal {
                Some(t) => Some((shapes.remove(t), Some(shapes[t]))),
                None => Some((shapes, None)),
            }
        },
        None => None,
    }
}

/// An exec symbol table: entry `c` holds the point bound to symbol `c`.
pub open spec fn spec_table_matches(t: Seq<Option<Point>>, m: Map<u8, Point>) -> bool {
    t.len() == 256 && forall|c: u8|
        #![trigger t[c as int]]
        t[c as int] == if m.dom().contains(c) {
            Some(m[c])
        } else {
            None::<Point>
        }
}

/// Every bound point of an exec symbol table is well-formed.
pub open spec fn spec_table_wf(t: Seq<Option<Point>>) -> bool {
    forall|c: int| 0 <= c < t.len() ==> (#[trigger] t[c] matches Some(p) ==> p.spec_wf())
}

/// The vertex count never falls along a prefix.
proof fn lemma_count_mono(s: Seq<u8>, i: int, j: int)
    requires
        0 <= i <= j <= s.len(),
    ensures
        spec_count_verts(s.take(i)) <= spec_count_verts(s.take(j)),
    decreases j - i,
{
    if i < j {
        lemma_count_mono(s, i, j - 1);
        assert(s.take(j).drop_last() =~= s.take(j - 1));
    }
}

/// The whole sequence is its own full prefix.
proof fn lemma_count_full(s: Seq<u8>)
    ensures
        spec_count_verts(s.take(s.len() as int)) == spec_count_verts(s),
{
    assert(s.take(s.len() as int) =~= s);
}

/// A vertex symbol bound at position `j` stays bound.
proof fn lemma_vert_map_contains(lhs: Seq<u8>, pts: Seq<Point>, j: int, i: int)
    requires
        0 <= j < i <= lhs.len(),
        spec_is_vertex(lhs[j]),
        spec_count_verts(lhs.take(j)) < pts.len(),
    ensures
        spec_vert_map(lhs, pts, i).dom().contains(lhs[j]),
    decreases i,
{
    if i == j + 1 {
    } else {
        lemma_vert_map_contains(lhs, pts, j, i - 1);
    }
}

/// Every binding of the vertex map is a vertex symbol bound to one of the
/// polygon's points.
proof fn lemma_vert_map_values(lhs: Seq<u8>, pts: Seq<Point>, i: int)
    requires
        i <= lhs.len(),
    ensures
        forall|c: u8| spec_vert_map(lhs, pts, i).dom().contains(c) ==> spec_is_vertex(c) && exists|
            k: int,
        | 0 <= k < pts.len() && spec_vert_map(lhs, pts, i)[c] == pts[k],
    decreases i,
{
    if i > 0 {
        lemma_vert_map_values(lhs, pts, i - 1);
        let m = spec_vert_map(lhs, pts, i - 1);
        let c = lhs[i - 1];
        let k = spec_count_verts(lhs.take(i - 1));
        if spec_is_vertex(c) && k < pts.len() {
            assert forall|c2: u8| spec_vert_map(lhs, pts, i).dom().contains(c2) implies spec_is_vertex(
                c2,
            ) && exists|k2: int|
                0 <= k2 < pts.len() && spec_vert_map(lhs, pts, i)[c2] == pts[k2] by {
                if c2 == c {
                    assert(spec_vert_map(lhs, pts, i)[c2] == pts[k as int]);
                } else {
                    assert(m.dom().contains(c2));
                }
            }
        }
    }
}

/// Every vertex symbol of a well-formed rule's LHS is bound: interior
/// occurrences are bound directly, and the sentinel repeats the first
/// symbol, which is bound first.
proof fn lemma_vert_cover(r: RuleV, pts: Seq<Point>, j: int)
    requires
        spec_rule_wf(r),
        pts.len() == r.gons,
        0 <= j < r.lhs.len(),
        spec_is_vertex(r.lhs[j]),
    ensures
        spec_vert_map(r.lhs, pts, r.lhs.len() as int).dom().contains(r.lhs[j]),
{
    let lhs = r.lhs;
    let n = lhs.len() as int;
    lemma_count_full(lhs);
    if spec_count_verts(lhs.take(j)) < pts.len() {
        lemma_vert_map_contains(lhs, pts, j, n);
    } else {
        // the count up to `j` already equals the vertex count of the
        // polygon, so `j` must be the sentinel position
        assert(lhs.take(j + 1).drop_last() =~= lhs.take(j));
        lemma_count_mono(lhs, j + 1, n);
        assert(spec_count_verts(lhs.take(j)) + 1 <= r.gons + 1);
        assert(spec_count_verts(lhs.take(j)) == r.gons);
        if j < n - 1 {
            assert(spec_is_vertex(lhs[n - 1]));
            assert(lhs.take(n - 1 + 1).drop_last() =~= lhs.take(n - 1));
            lemma_count_mono(lhs, j + 1, n - 1);
            assert(false);
        }
        // j == n - 1: the sentinel equals the first symbol
        assert(lhs[j] == lhs[0]);
        assert(lhs.take(0) =~= Seq::<u8>::empty());
        assert(r.gons >= 1);
        lemma_vert_map_contains(lhs, pts, 0, n);
    }
}

/// Resolving derived symbols does not touch vertex bindings.
proof fn lemma_mids_preserve_verts(r: RuleV, vm: Map<u8, Point>, i: int)
    requires
        spec_mids(r, vm, i) is Some,
    ensures
        forall|c: u8|
            spec_is_vertex(c) ==> (#[trigger] spec_mids(r, vm, i).unwrap().dom().contains(c)
                <==> vm.dom().contains(c)),
        forall|c: u8|
            spec_is_vertex(c) && vm.dom().contains(c) ==> #[trigger] spec_mids(
                r,
                vm,
                i,
            ).unwrap()[c] == vm[c],
    decreases i,
{
    if i > 0 {
        lemma_mids_preserve_verts(r, vm, i - 1);
    }
}

/// A resolved table stays resolved on every prefix.
proof fn lemma_mids_prefix_some(r: RuleV, vm: Map<u8, Point>, i: int, j: int)
    requires
        0 <= j <= i,
        spec_mids(r, vm, i) is Some,
    ensures
        spec_mids(r, vm, j) is Some,
    decreases i - j,
{
    if j < i {
        assert(spec_mids(r, vm, i - 1) is Some);
        lemma_mids_prefix_some(r, vm, i - 1, j);
    }
}

/// A derived symbol at position `p` is bound once position `p` has been
/// scanned, and stays bound.
proof fn lemma_mids_contains(r: RuleV, vm: Map<u8, Point>, p: int, i: int)
    requires
        0 <= p < i,
        spec_is_mid(r.lhs[p]),
        spec_mids(r, vm, i) is Some,
    ensures
        spec_mids(r, vm, i).unwrap().dom().contains(r.lhs[p]),
    decreases i,
{
    if i == p + 1 {
        lemma_mids_prefix_some(r, vm, i, p);
    } else {
        lemma_mids_prefix_some(r, vm, i, i - 1);
        lemma_mids_contains(r, vm, p, i - 1);
    }
}

/// The nearest vertex before a position of a well-formed LHS: it exists
/// because the LHS starts with a vertex.
proof fn lemma_prev_vert(lhs: Seq<u8>, i: int)
    requires
        0 < i <= lhs.len(),
        lhs.len() > 0,
        spec_is_vertex(lhs[0]),
    ensures
        0 <= spec_prev_vert(lhs, i) < i,
        spec_is_vertex(lhs[spec_prev_vert(lhs, i)]),
    decreases i,
{
    if !spec_is_vertex(lhs[i - 1]) {
        lemma_prev_vert(lhs, i - 1);
    }
}

/// The nearest vertex at or after a position of a well-formed LHS: it
/// exists because the LHS ends with the sentinel vertex.
proof fn lemma_next_vert(lhs: Seq<u8>, i: int)
    requires
        0 <= i <= lhs.len() - 1,
        spec_is_vertex(lhs[lhs.len() - 1]),
    ensures
        i <= spec_next_vert(lhs, i) <= lhs.len() - 1,
        spec_is_vertex(lhs[spec_next_vert(lhs, i)]),
    decreases lhs.len() - i,
{
    if !spec_is_vertex(lhs[i]) {
        lemma_next_vert(lhs, i + 1);
    }
}

/// The point bound to a symbol of an exec symbol table.
fn read_point(table: &Vec<Option<Point>>, sym: u8, Ghost(m): Ghost<Map<u8, Point>>) -> (r: Point)
    requires
        spec_table_matches(table@, m),
        spec_table_wf(table@),
        m.dom().contains(sym),
    ensures
        r == m[sym],
        r.spec_wf(),
{
    match table[sym as usize] {
        Some(p) => p,
        None => vstd::pervasive::unreached(),
    }
}

impl Rule {
    /// Resolve the symbol table for one application.
    fn resolve(&self, shape: &Shape) -> (r: Option<Vec<Option<Point>>>)
        requires
            self.spec_wf(),
            shape.spec_wf(),
            shape@.len() == self@.gons,
        ensures
            r is Some <==> spec_table(self@, shape@) is Some,
            r matches Some(t) ==> spec_table_matches(t@, spec_table(self@, shape@).unwrap())
                && spec_table_wf(t@),
    {
        let n = self.lhs.len();
        let npts = shape.gons();
        let mut table: Vec<Option<Point>> = Vec::new();
        let mut z: usize = 0;
        while z < 256
            invariant
                table@.len() == z,
                z <= 256,
                forall|c: int| 0 <= c < z ==> table@[c] is None,
            decreases 256 - z,
        {
            table.push(None);
            z = z + 1;
        }
        assert(spec_table_matches(table@, spec_vert_map(self@.lhs, shape@, 0)));
        // vertex symbols take the polygon's points, in cyclic order
        let mut k: usize = 0;
        let mut p: usize = 0;
        while p < n
            invariant
                n == self@.lhs.len(),
                npts == shape@.len(),
                self.spec_wf(),
                shape.spec_wf(),
                shape@.len() == self@.gons,
                0 <= p <= n,
                spec_table_matches(table@, spec_vert_map(self@.lhs, shape@, p as int)),
                spec_table_wf(table@),
                k == if spec_count_verts(self@.lhs.take(p as int)) < npts {
                    spec_count_verts(self@.lhs.take(p as int))
                } else {
                    npts as nat
                },
            decreases n - p,
        {
            proof {
                assert(self@.lhs.take(p + 1).drop_last() =~= self@.lhs.take(p as int));
                lemma_count_mono(self@.lhs, p as int, p + 1);
            }
            let ghost prev = spec_vert_map(self@.lhs, shape@, p as int);
            let c = self.lhs[p];
            if is_vertex(c) && k < npts {
                table.set(c as usize, Some(shape.point(k)));
                k = k + 1;
                proof {
                    assert(spec_vert_map(self@.lhs, shape@, p + 1) =~= prev.insert(
                        self@.lhs[p as int],
                        shape@[spec_count_verts(self@.lhs.take(p as int)) as int],
                    ));
                }
            } else {
                proof {
                    if spec_count_verts(self@.lhs.take(p as int)) < npts {
                        assert(k < npts);
                    }
                    assert(spec_vert_map(self@.lhs, shape@, p + 1) == prev);
                }
            }
            p = p + 1;
        }
        let ghost vm = spec_vert_map(self@.lhs, shape@, n as int);
        // derived symbols: midpoints or division points of the vertices
        // bounding them
        let mut f: usize = 0;
        p = 0;
        while p < n
            invariant
                n == self@.lhs.len(),
                npts == shape@.len(),
                self.spec_wf(),
                shape.spec_wf(),
                shape@.len() == self@.gons,
                0 <= p <= n,
                vm == spec_vert_map(self@.lhs, shape@, n as int),
                spec_mids(self@, vm, p as int) matches Some(m) && spec_table_matches(table@, m),
                spec_table_wf(table@),
                p > 0 ==> f as int == spec_prev_vert(self@.lhs, p as int) && f < p,
            decreases n - p,
        {
            let ghost m = spec_mids(self@, vm, p as int).unwrap();
            let c = self.lhs[p];
            if is_mid(c) {
                proof {
                    assert(p >= 1) by {
                        if p == 0 {
                            assert(spec_is_vertex(self@.lhs[0]));
                        }
                    }
                    assert(p + 1 <= n - 1) by {
                        assert(self@.lhs.last() == self@.lhs[0]);
                        assert(spec_is_vertex(self@.lhs[n - 1]));
                    }
                    lemma_mids_preserve_verts(self@, vm, p as int);
                }
                let val: Option<Point>;
                if self.uniform_gaps {
                    proof {
                        assert(spec_is_letter(self@.lhs[p - 1]));
                        assert(!(spec_is_mid(self@.lhs[p - 1]) && spec_is_mid(self@.lhs[p as int])));
                        assert(spec_is_vertex(self@.lhs[p - 1]));
                        assert(!(spec_is_mid(self@.lhs[p as int]) && spec_is_mid(
                            self@.lhs[p + 1],
                        )));
                        assert(spec_is_letter(self@.lhs[p + 1]));
                        assert(spec_is_vertex(self@.lhs[p + 1]));
                        lemma_vert_cover(self@, shape@, p - 1);
                        lemma_vert_cover(self@, shape@, p + 1);
                        lemma_vert_map_values(self@.lhs, shape@, n as int);
                    }
                    let a = read_point(&table, self.lhs[p - 1], Ghost(m));
                    let b = read_point(&table, self.lhs[p + 1], Ghost(m));
                    val = mid(&a, &b);
                } else {
                    proof {
                        lemma_prev_vert(self@.lhs, p as int);
                        lemma_next_vert(self@.lhs, p + 1);
                        lemma_vert_cover(self@, shape@, f as int);
                        lemma_vert_map_values(self@.lhs, shape@, n as int);
                    }
                    let s = Self::next_vertex_from(&self.lhs, p + 1);
                    proof {
                        lemma_vert_cover(self@, shape@, s as int);
                    }
                    let a = read_point(&table, self.lhs[f], Ghost(m));
                    let b = read_point(&table, self.lhs[s], Ghost(m));
                    val = div(&a, &b, p - f, s - f);
                }
                assert(val == spec_mid_value(self@, vm, p as int));
                match val {
                    Some(v) => {
                        let ghost prev_t = table@;
                        table.set(c as usize, Some(v));
                        proof {
                            assert(spec_mids(self@, vm, p + 1) == Some(
                                m.insert(self@.lhs[p as int], v),
                            ));
                        }
                    },
                    None => {
                        proof {
                            assert(spec_mids(self@, vm, p + 1) is None);
                            if spec_mids(self@, vm, n as int) is Some {
                                lemma_mids_prefix_some(self@, vm, n as int, p + 1);
                            }
                        }
                        return None;
                    },
                }
            } else {
                proof {
                    assert(spec_is_letter(self@.lhs[p as int]));
                    assert(spec_is_vertex(self@.lhs[p as int]));
                    assert(spec_mids(self@, vm, p + 1) == Some(m));
                }
                f = p;
            }
            p = p + 1;
        }
        // the centroid, when the rule references it
        let ghost mids_m = spec_mids(self@, vm, n as int).unwrap();
        if self.uses_center {
            match shape.center() {
                Some(cp) => {
                    table.set(CENTER as usize, Some(cp));
                    proof {
                        assert(spec_table(self@, shape@) == Some(mids_m.insert(CENTER, cp)));
                    }
                },
                None => {
                    return None;
                },
            }
        }
        Some(table)
    }

    /// The first vertex symbol at or after position `j`.
    fn next_vertex_from(lhs: &Vec<u8>, j: usize) -> (r: usize)
        requires
            lhs@.len() >= 1,
            j <= lhs@.len() - 1,
            spec_is_vertex(lhs@.last()),
        ensures
            r as int == spec_next_vert(lhs@, j as int),
            j <= r < lhs@.len(),
            spec_is_vertex(lhs@[r as int]),
    {
        let n = lhs.len();
        let mut k: usize = j;
        while !is_vertex(lhs[k])
            invariant
                n == lhs@.len(),
                j <= k <= n - 1,
                spec_is_vertex(lhs@.last()),
                spec_next_vert(lhs@, j as int) == spec_next_vert(lhs@, k as int),
            decreases lhs@.len() - k,
        {
            proof {
                assert(k < n - 1) by {
                    if k == n - 1 {
                        assert(spec_is_vertex(lhs@[k as int]));
                    }
                }
            }
            k = k + 1;
        }
        k
    }

    /// Apply this rule to a polygon whose vertex count equals the rule's.
    ///
    /// Returns the carried polygons, in right-hand-side order, and the
    /// terminal polygon separately if one sequence reproduces the matched
    /// polygon verbatim. Returns `None` when a coordinate overflows.
    pub fn apply(&self, shape: &Shape) -> (r: Option<(Vec<Shape>, Option<Shape>)>)
        requires
            self.spec_wf(),
            shape.spec_wf(),
            shape@.len() == self@.gons,
        ensures
            r is Some <==> spec_rule_apply(self@, shape@) is Some,
            r matches Some(out) ==> ({
                let so = spec_rule_apply(self@, shape@).unwrap();
                &&& out.0@.map_values(|s: Shape| s@) == so.0
                &&& (out.1 is Some <==> so.1 is Some)
                &&& (out.1 matches Some(sh) ==> so.1 == Some(sh@) && sh.spec_wf())
                &&& forall|i: int| 0 <= i < out.0@.len() ==> (#[trigger] out.0@[i]).spec_wf()
            }),
    {
        let table = match self.resolve(shape) {
            Some(t) => t,
            None => {
                return None;
            },
        };
        let ghost m = spec_table(self@, shape@).unwrap();
        proof {
            lemma_table_covers(self@, shape@);
        }
        let ghost shapes = self@.rhs.map(|i: int, syms: Seq<u8>| spec_build_shape(syms, m));
        let mut carried: Vec<Shape> = Vec::new();
        let mut term: Option<Shape> = None;
        let nr = self.rhs.len();
        let mut i: usize = 0;
        while i < nr
            invariant
                nr == self@.rhs.len(),
                self.spec_wf(),
                shape.spec_wf(),
                shape@.len() == self@.gons,
                spec_table(self@, shape@) == Some(m),
                spec_table_matches(table@, m),
                spec_table_wf(table@),
                spec_covers(self@, m),
                shapes == self@.rhs.map(|i: int, syms: Seq<u8>| spec_build_shape(syms, m)),
                0 <= i <= nr,
                match self@.terminal {
                    Some(t) => {
                        if t < i {
                            &&& carried@.map_values(|s: Shape| s@) == shapes.take(i as int).remove(
                                t,
                            )
                            &&& term matches Some(sh) && sh@ == shapes[t] && sh.spec_wf()
                        } else {
                            carried@.map_values(|s: Shape| s@) == shapes.take(i as int) && term
                                is None
                        }
                    },
                    None => carried@.map_values(|s: Shape| s@) == shapes.take(i as int) && term
                        is None,
                },
                forall|q: int| 0 <= q < carried@.len() ==> (#[trigger] carried@[q]).spec_wf(),
            decreases nr - i,
        {
            let sh = self.build_shape(i, &table, Ghost(m));
            assert(sh@ == shapes[i as int]);
            let ghost prev_carried = carried@;
            let is_term = match self.terminal {
                Some(t) => t == i,
                None => false,
            };
            if is_term {
                term = Some(sh);
            } else {
                carried.push(sh);
            }
            proof {
                let cviews = carried@.map_values(|s: Shape| s@);
                let pviews = prev_carried.map_values(|s: Shape| s@);
                if !is_term {
                    assert(cviews =~= pviews.push(shapes[i as int]));
                }
                match self@.terminal {
                    Some(t) => {
                        if t < i {
                            assert(shapes.take(i + 1).remove(t) =~= shapes.take(i as int).remove(
                                t,
                            ).push(shapes[i as int]));
                        } else if t == i {
                            assert(shapes.take(i + 1).remove(t) =~= shapes.take(i as int));
                        } else {
                            assert(shapes.take(i + 1) =~= shapes.take(i as int).push(
                                shapes[i as int],
                            ));
                        }
                    },
                    None => {
                        assert(shapes.take(i + 1) =~= shapes.take(i as int).push(
                            shapes[i as int],
                        ));
                    },
                }
            }
            i = i + 1;
        }
        proof {
            assert(shapes.take(nr as int) =~= shapes);
        }
        Some((carried, term))
    }

    /// Build the `i`-th derived polygon by resolving its symbols.
    fn build_shape(&self, i: usize, table: &Vec<Option<Point>>, Ghost(m): Ghost<Map<u8, Point>>) -> (r:
        Shape)
        requires
            self.spec_wf(),
            0 <= i < self@.rhs.len(),
            spec_table_matches(table@, m),
            spec_table_wf(table@),
            spec_covers(self@, m),
        ensures
            r@ == spec_build_shape(self@.rhs[i as int], m),
            r.spec_wf(),
    {
        let syms = &self.rhs[i];
        let ns = syms.len();
        let mut pts: Vec<Point> = Vec::new();
        let mut j: usize = 0;
        while j < ns
            invariant
                ns == self@.rhs[i as int].len(),
                self.spec_wf(),
                0 <= i < self@.rhs.len(),
                syms@ == self@.rhs[i as int],
                spec_table_matches(table@, m),
                spec_table_wf(table@),
                spec_covers(self@, m),
                0 <= j <= ns,
                pts@ == spec_build_shape(self@.rhs[i as int].take(j as int), m),
                forall|q: int| 0 <= q < pts@.len() ==> (#[trigger] pts@[q]).spec_wf(),
            decreases ns - j,
        {
            assert(m.dom().contains(syms@[j as int]));
            let pt = read_point(table, syms[j], Ghost(m));
            pts.push(pt);
            proof {
                assert(spec_build_shape(self@.rhs[i as int].take(j + 1), m) =~= spec_build_shape(
                    self@.rhs[i as int].take(j as int),
                    m,
                ).push(m[self@.rhs[i as int][j as int]]));
            }
            j = j + 1;
        }
        proof {
            assert(self@.rhs[i as int].take(ns as int) =~= self@.rhs[i as int]);
            assert(self@.rhs[i as int].len() >= 1);
        }
        Shape::new(pts)
    }
}

/// Every symbol of every right-hand-side sequence is bound in `m`.
pub open spec fn spec_covers(r: RuleV, m: Map<u8, Point>) -> bool {
    forall|i: int, j: int|
        0 <= i < r.rhs.len() && 0 <= j < r.rhs[i].len() ==> m.dom().contains(
            #[trigger] r.rhs[i][j],
        )
}

/// A resolved symbol table binds every right-hand-side symbol: vertex
/// symbols through the vertex bindings, derived symbols through the scan,
/// and the centroid symbol when the rule uses it.
pub proof fn lemma_table_covers(r: RuleV, pts: Seq<Point>)
    requires
        spec_rule_wf(r),
        pts.len() == r.gons,
        spec_table(r, pts) is Some,
    ensures
        spec_covers(r, spec_table(r, pts).unwrap()),
{
    let lhs = r.lhs;
    let n = lhs.len() as int;
    let vm = spec_vert_map(lhs, pts, n);
    let mm = spec_mids(r, vm, n).unwrap();
    let m = spec_table(r, pts).unwrap();
    assert forall|i: int, j: int|
        0 <= i < r.rhs.len() && 0 <= j < r.rhs[i].len() implies m.dom().contains(
        #[trigger] r.rhs[i][j],
    ) by {
        let b = r.rhs[i][j];
        if b == CENTER {
            assert(r.rhs[i].contains(b));
            assert(r.uses_center);
        } else {
            assert(lhs.contains(b));
            let w = choose|w: int| 0 <= w < lhs.len() && lhs[w] == b;
            assert(spec_is_letter(lhs[w]));
            if spec_is_vertex(b) {
                lemma_vert_cover(r, pts, w);
                lemma_mids_preserve_verts(r, vm, n);
            } else {
                lemma_mids_contains(r, vm, w, n);
            }
            assert(mm.dom().contains(b));
        }
    }
}

} // verus!
