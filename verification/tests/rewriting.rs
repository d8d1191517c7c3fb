use shapesys::frac::Frac;
use shapesys::geom::{Point, Shape};
use shapesys::grammar::Grammar;
use shapesys::rule::{Rule, RuleErr};

fn pt(x: i64, y: i64) -> Point {
    Point::new(Frac::from_int(x), Frac::from_int(y))
}

fn same_point(p: &Point, x: i64, y: i64) -> bool {
    p.x.same_value(&Frac::from_int(x)) && p.y.same_value(&Frac::from_int(y))
}

#[test]
fn bisection_resolves_midpoint() {
    // the derived symbol between two vertices resolves to their midpoint
    let rule = Rule::new(b"AaB>a").unwrap();
    let shape = Shape::new(vec![pt(0, 0), pt(10, 0)]);
    let (carried, terminal) = rule.apply(&shape).unwrap();
    assert!(terminal.is_none());
    assert_eq!(carried.len(), 1);
    let out = carried[0].points();
    assert_eq!(out.len(), 1);
    assert!(same_point(&out[0], 5, 0));
}

#[test]
fn group_division_resolves_run() {
    // a run of two derived symbols divides the segment into three parts
    let rule = Rule::new(b"AabB>ab").unwrap();
    let shape = Shape::new(vec![pt(0, 0), pt(9, 0)]);
    let (carried, terminal) = rule.apply(&shape).unwrap();
    assert!(terminal.is_none());
    assert_eq!(carried.len(), 1);
    let out = carried[0].points();
    assert_eq!(out.len(), 2);
    assert!(same_point(&out[0], 3, 0));
    assert!(same_point(&out[1], 6, 0));
}

#[test]
fn centroid_resolves_to_mean() {
    let rule = Rule::new(b"ABCD>.").unwrap();
    let square = Shape::new(vec![pt(0, 0), pt(0, 1), pt(1, 1), pt(1, 0)]);
    let (carried, terminal) = rule.apply(&square).unwrap();
    assert!(terminal.is_none());
    assert_eq!(carried.len(), 1);
    let out = carried[0].points();
    assert_eq!(out.len(), 1);
    assert!(out[0].x.same_value(&Frac::new(1, 2)));
    assert!(out[0].y.same_value(&Frac::new(1, 2)));
}

#[test]
fn terminal_output_is_diverted() {
    // the right-hand side reproduces the polygon verbatim: nothing is
    // carried forward, one render-ready polygon equal to the input
    let rule = Rule::new(b"AB>AB").unwrap();
    let shape = Shape::new(vec![pt(2, 3), pt(4, 5)]);
    let (carried, terminal) = rule.apply(&shape).unwrap();
    assert_eq!(carried.len(), 0);
    let t = terminal.unwrap();
    assert_eq!(t.points(), shape.points());
}

#[test]
fn apply_reports_overflow() {
    let rule = Rule::new(b"AaB>a").unwrap();
    let shape = Shape::new(vec![pt(i64::MAX, 0), pt(i64::MAX, 0)]);
    assert!(rule.apply(&shape).is_none());
}

#[test]
fn grammar_rejects_shared_gon_count() {
    // two rules for two-vertex polygons: dispatch would be ambiguous
    let e = match Grammar::new(b"AB>A;CD>D") {
        Err(e) => e,
        Ok(_) => panic!("expected a rejection"),
    };
    assert_eq!(e.err, RuleErr::NonUniqueRule);
    assert_eq!(e.src, b"CD>D".to_vec());
}

#[test]
fn grammar_accepts_distinct_gon_counts() {
    assert!(Grammar::new(b"AB>A;ABC>AB;ABCD>.").is_ok());
}

#[test]
fn grammar_propagates_rule_errors() {
    let e = match Grammar::new(b"AB>A;aB>AB") {
        Err(e) => e,
        Ok(_) => panic!("expected a rejection"),
    };
    assert_eq!(e.err, RuleErr::NonVertexStart);
    assert_eq!(e.src, b"aB>AB".to_vec());
}

#[test]
fn dispatch_without_rule_is_identity() {
    // no rule matches a triangle: it passes through unchanged
    let g = Grammar::new(b"AB>AB").unwrap();
    let tri = Shape::new(vec![pt(0, 0), pt(1, 0), pt(0, 1)]);
    let (carried, terminal) = g.apply(&tri).unwrap();
    assert!(terminal.is_none());
    assert_eq!(carried.len(), 1);
    assert_eq!(carried[0].points(), tri.points());
}

#[test]
fn unmatched_shape_is_fixed_point_of_next() {
    let g = Grammar::new(b"AB>AB").unwrap();
    let tri = Shape::new(vec![pt(0, 0), pt(1, 0), pt(0, 1)]);
    let mut state = vec![tri];
    for _ in 0..7 {
        let (carried, terminal) = g.next(&state).unwrap();
        assert!(terminal.is_empty());
        assert_eq!(carried.len(), 1);
        assert_eq!(carried[0].points(), state[0].points());
        state = carried;
    }
}

#[test]
fn next_concatenates_in_input_order() {
    let g = Grammar::new(b"AaB>Aa,aB").unwrap();
    let seg = Shape::new(vec![pt(0, 0), pt(10, 0)]);
    let (carried, terminal) = g.next(&vec![seg]).unwrap();
    assert!(terminal.is_empty());
    assert_eq!(carried.len(), 2);
    assert!(same_point(&carried[0].points()[0], 0, 0));
    assert!(same_point(&carried[0].points()[1], 5, 0));
    assert!(same_point(&carried[1].points()[0], 5, 0));
    assert!(same_point(&carried[1].points()[1], 10, 0));
}

#[test]
fn iterate_runs_fixed_generations() {
    // each generation splits every segment in two
    let g = Grammar::new(b"AaB>Aa,aB").unwrap();
    let seg = Shape::new(vec![pt(0, 0), pt(16, 0)]);
    let (fin, terms) = g.iterate(&vec![seg], 3).unwrap();
    assert!(terms.is_empty());
    assert_eq!(fin.len(), 8);
    assert!(same_point(&fin[0].points()[0], 0, 0));
    assert!(same_point(&fin[0].points()[1], 2, 0));
    assert!(same_point(&fin[7].points()[1], 16, 0));
}

#[test]
fn iterate_collects_terminals() {
    // the reproducing rule diverts its output in the first generation
    let g = Grammar::new(b"AB>AB").unwrap();
    let seg = Shape::new(vec![pt(1, 1), pt(2, 2)]);
    let (fin, terms) = g.iterate(&vec![seg], 5).unwrap();
    assert_eq!(fin.len(), 0);
    assert_eq!(terms.len(), 1);
    assert!(same_point(&terms[0].points()[0], 1, 1));
    assert!(same_point(&terms[0].points()[1], 2, 2));
}

#[test]
fn iterate_depth_zero_is_identity() {
    let g = Grammar::new(b"AB>AB").unwrap();
    let seg = Shape::new(vec![pt(0, 0), pt(1, 0)]);
    let (fin, terms) = g.iterate(&vec![seg], 0).unwrap();
    assert_eq!(fin.len(), 1);
    assert!(terms.is_empty());
}

#[test]
fn serialize_joins_rule_sources() {
    let g = Grammar::new(b"AB>A,B;ABC>AB").unwrap();
    assert_eq!(g.serialize(), b"AB>A,B;ABC>AB".to_vec());
}

#[test]
fn parse_serialize_parse_round_trip() {
    // parse(serialize(parse(text))) == parse(text), structurally
    let text = b"AaB>Aa,aB,AB;ABCb>.,AB";
    let g1 = Grammar::new(text).unwrap();
    let ser = g1.serialize();
    assert_eq!(ser, text.to_vec());
    let g2 = Grammar::new(&ser).unwrap();
    let r1 = g1.rules();
    let r2 = g2.rules();
    assert_eq!(r1.len(), r2.len());
    for (a, b) in r1.iter().zip(r2.iter()) {
        assert_eq!(a.lhs, b.lhs);
        assert_eq!(a.rhs, b.rhs);
        assert_eq!(a.gons, b.gons);
        assert_eq!(a.terminal, b.terminal);
        assert_eq!(a.uses_center, b.uses_center);
        assert_eq!(a.uniform_gaps, b.uniform_gaps);
        assert_eq!(a.src, b.src);
    }
    assert_eq!(g2.serialize(), ser);
}

#[test]
fn sentinel_closes_the_cycle() {
    // c sits between C and the wrap-around copy of A: the sentinel makes
    // the last-to-first gap an interior gap
    let g = Grammar::new(b"AaBbCc>Aac,aBb,cbC").unwrap();
    let tri = Shape::new(vec![pt(0, 0), pt(4, 0), pt(0, 4)]);
    let (carried, terminal) = g.apply(&tri).unwrap();
    assert!(terminal.is_none());
    assert_eq!(carried.len(), 3);
    // corner at A with the midpoints of AB and CA
    let first = carried[0].points();
    assert!(same_point(&first[0], 0, 0));
    assert!(same_point(&first[1], 2, 0));
    assert!(same_point(&first[2], 0, 2));
    // corner at B with the midpoints of AB and BC
    let second = carried[1].points();
    assert!(same_point(&second[0], 2, 0));
    assert!(same_point(&second[1], 4, 0));
    assert!(same_point(&second[2], 2, 2));
    // corner at C with the midpoints of CA and BC
    let third = carried[2].points();
    assert!(same_point(&third[0], 0, 2));
    assert!(same_point(&third[1], 2, 2));
    assert!(same_point(&third[2], 0, 4));
}

#[test]
fn center_combines_with_vertices() {
    let rule = Rule::new(b"ABCD>AB.,CD.").unwrap();
    let square = Shape::new(vec![pt(0, 0), pt(0, 2), pt(2, 2), pt(2, 0)]);
    let (carried, terminal) = rule.apply(&square).unwrap();
    assert!(terminal.is_none());
    assert_eq!(carried.len(), 2);
    let first = carried[0].points();
    assert!(same_point(&first[0], 0, 0));
    assert!(same_point(&first[1], 0, 2));
    assert!(same_point(&first[2], 1, 1));
    let second = carried[1].points();
    assert!(same_point(&second[0], 2, 2));
    assert!(same_point(&second[1], 2, 0));
    assert!(same_point(&second[2], 1, 1));
}

#[test]
fn repeated_vertex_symbol_takes_last_binding() {
    // the same vertex symbol bound twice: the later point wins everywhere
    let rule = Rule::new(b"ABA>AB").unwrap();
    let tri = Shape::new(vec![pt(1, 0), pt(2, 0), pt(3, 0)]);
    let (carried, _) = rule.apply(&tri).unwrap();
    let out = carried[0].points();
    assert!(same_point(&out[0], 3, 0));
    assert!(same_point(&out[1], 2, 0));
}
