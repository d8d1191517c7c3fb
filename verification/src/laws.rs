//! Laws of the rewriting system, stated and proved once and for all:
//! the parse/serialize round trip, the terminal short-circuit, and the
//! fixed point of unmatched polygons.

use vstd::prelude::*;

use crate::apply::{spec_mids, spec_rule_apply, spec_table, spec_vert_map};
use crate::geom::Point;
use crate::grammar::{
    lemma_find_rule_props, spec_find_rule, spec_grammar_apply, spec_grammar_new, spec_iterate,
    spec_next, spec_parse_rules, spec_serialize,
};
use crate::rule::{
    lemma_first_illegal_none, spec_count_verts, spec_find_terminal, spec_first_illegal,
    spec_first_nonletter, spec_first_undeclared, spec_first_undeclared_in, spec_nonempty,
    spec_parse_rule, RuleV,
};
use crate::symbols::{spec_is_legal, GRAMMAR_SEPA, RHS_SEPA, RULE_SEPA, UPPER_A};
use crate::text::{lemma_split_join, lemma_split_len, spec_join, spec_split};

verus! {

/// Each parsed rule keeps its own source text: the rules of a parsed
/// grammar carry, in order, exactly the parts the text split into.
proof fn lemma_parse_rules_srcs(parts: Seq<Seq<u8>>)
    requires
        spec_parse_rules(parts) is Ok,
    ensures
        spec_parse_rules(parts)->Ok_0.len() == parts.len(),
        forall|i: int|
            0 <= i < parts.len() ==> spec_parse_rule(#[trigger] parts[i]) == Ok::<RuleV, crate::rule::RuleErr>(
                spec_parse_rules(parts)->Ok_0[i],
            ) && spec_parse_rules(parts)->Ok_0[i].src == parts[i],
    decreases parts.len(),
{
    if parts.len() > 0 {
        lemma_parse_rules_srcs(parts.drop_last());
        assert forall|i: int|
            0 <= i < parts.len() implies spec_parse_rule(#[trigger] parts[i]) == Ok::<RuleV, crate::rule::RuleErr>(
            spec_parse_rules(parts)->Ok_0[i],
        ) && spec_parse_rules(parts)->Ok_0[i].src == parts[i] by {
            if i < parts.len() - 1 {
                assert(parts.drop_last()[i] == parts[i]);
            }
        }
    }
}

/// The parse/serialize round trip: for every text whose parse succeeds,
/// parsing the serialized form of the parsed grammar yields the very same
/// rules — same left- and right-hand sides, same flags, same sources.
pub proof fn lemma_parse_serialize_round_trip(text: Seq<u8>)
    requires
        spec_grammar_new(text) is Ok,
    ensures
        spec_grammar_new(spec_serialize(spec_grammar_new(text)->Ok_0)) == spec_grammar_new(
            text,
        ),
{
    let parts = spec_split(text, GRAMMAR_SEPA);
    let rs = spec_grammar_new(text)->Ok_0;
    assert(spec_parse_rules(parts) == Ok::<Seq<RuleV>, (crate::rule::RuleErr, Seq<u8>)>(rs));
    lemma_parse_rules_srcs(parts);
    let srcs = rs.map_values(|r: RuleV| r.src);
    assert(srcs =~= parts);
    // a rule source never holds the grammar separator: it parsed, so all
    // its bytes are in the alphabet, and `;` is not
    assert forall|i: int| 0 <= i < parts.len() implies !(#[trigger] parts[i]).contains(
        GRAMMAR_SEPA,
    ) by {
        assert(spec_parse_rule(parts[i]) is Ok);
        assert(spec_first_illegal(parts[i]) is None);
        lemma_first_illegal_none(parts[i]);
        if parts[i].contains(GRAMMAR_SEPA) {
            let w = choose|w: int| 0 <= w < parts[i].len() && parts[i][w] == GRAMMAR_SEPA;
            assert(spec_is_legal(parts[i][w]));
            assert(false);
        }
    }
    lemma_split_len(text, GRAMMAR_SEPA);
    lemma_split_join(parts, GRAMMAR_SEPA);
    assert(spec_serialize(rs) == spec_join(parts, GRAMMAR_SEPA));
    assert(spec_split(spec_serialize(rs), GRAMMAR_SEPA) == parts);
}

/// The terminal short-circuit: the rule `AB>AB`, whose single
/// right-hand-side sequence reproduces the left-hand side exactly, applied
/// to any two-vertex polygon carries nothing forward and reports exactly
/// one terminal polygon, equal to the input.
pub proof fn lemma_terminal_short_circuit(pts: Seq<Point>)
    requires
        pts.len() == 2,
    ensures
        spec_parse_rule(spec_reproduction_src()) is Ok,
        spec_rule_apply(spec_parse_rule(spec_reproduction_src())->Ok_0, pts) == Some(
            (Seq::<Seq<Point>>::empty(), Some(pts)),
        ),
{
    let rv = lemma_parse_reproduction();
    let lhs = rv.lhs;
    // the vertex bindings: A to the first point, B to the second; the
    // sentinel occurrence of A binds nothing new
    assert(lhs.take(0) =~= Seq::<u8>::empty());
    assert(lhs.take(1) =~= seq![UPPER_A]);
    assert(lhs.take(2) =~= seq![UPPER_A, 66u8]);
    assert(spec_count_verts(lhs.take(0)) == 0);
    assert(spec_count_verts(lhs.take(1)) == 1) by {
        assert(lhs.take(1).drop_last() =~= Seq::<u8>::empty());
    }
    assert(spec_count_verts(lhs.take(2)) == 2) by {
        assert(lhs.take(2).drop_last() =~= lhs.take(1));
    }
    let vm = spec_vert_map(lhs, pts, 3);
    assert(spec_vert_map(lhs, pts, 0) =~= Map::<u8, Point>::empty());
    assert(spec_vert_map(lhs, pts, 1) =~= Map::<u8, Point>::empty().insert(UPPER_A, pts[0]));
    assert(spec_vert_map(lhs, pts, 2) =~= Map::<u8, Point>::empty().insert(UPPER_A, pts[0]).insert(
        66u8,
        pts[1],
    ));
    assert(vm =~= Map::<u8, Point>::empty().insert(UPPER_A, pts[0]).insert(66u8, pts[1]));
    // no derived symbols, no centroid: the table is the vertex bindings
    assert(spec_mids(rv, vm, 0) == Some(vm));
    assert(spec_mids(rv, vm, 1) == Some(vm));
    assert(spec_mids(rv, vm, 2) == Some(vm));
    assert(spec_mids(rv, vm, 3) == Some(vm));
    assert(spec_table(rv, pts) == Some(vm));
    // the single sequence rebuilds the input polygon
    let shapes = rv.rhs.map(|i: int, syms: Seq<u8>| crate::apply::spec_build_shape(syms, vm));
    assert(shapes.len() == 1);
    assert(shapes[0] =~= pts) by {
        assert(crate::apply::spec_build_shape(rv.rhs[0], vm).len() == 2);
        assert(crate::apply::spec_build_shape(rv.rhs[0], vm)[0] == vm[UPPER_A]);
        assert(crate::apply::spec_build_shape(rv.rhs[0], vm)[1] == vm[66u8]);
    }
    assert(shapes.remove(0) =~= Seq::<Seq<Point>>::empty());
    assert(spec_rule_apply(rv, pts) == Some((shapes.remove(0), Some(shapes[0]))));
}

/// The production whose right-hand side reproduces its left-hand side.
pub open spec fn spec_reproduction_src() -> Seq<u8> {
    seq![UPPER_A, 66u8, RULE_SEPA, UPPER_A, 66u8]
}

/// Parsing `AB>AB` succeeds, with one right-hand-side sequence, marked
/// terminal.
proof fn lemma_parse_reproduction() -> (rv: RuleV)
    ensures
        spec_parse_rule(spec_reproduction_src()) == Ok::<RuleV, crate::rule::RuleErr>(rv),
        rv == (RuleV {
            uniform_gaps: true,
            uses_center: false,
            gons: 2,
            terminal: Some(0),
            lhs: seq![UPPER_A, 66u8, UPPER_A],
            rhs: seq![seq![UPPER_A, 66u8]],
            src: spec_reproduction_src(),
        }),
{
    let t0 = spec_reproduction_src();
    let t1 = seq![66u8, RULE_SEPA, UPPER_A, 66u8];
    let t2 = seq![RULE_SEPA, UPPER_A, 66u8];
    let ab = seq![UPPER_A, 66u8];
    let b = seq![66u8];
    let e = Seq::<u8>::empty();
    assert(t0.skip(1) =~= t1);
    assert(t1.skip(1) =~= t2);
    assert(t2.skip(1) =~= ab);
    assert(ab.skip(1) =~= b);
    assert(b.skip(1) =~= e);
    // the whole text is inside the alphabet
    assert(spec_first_illegal(e) is None);
    assert(spec_first_illegal(b) is None);
    assert(spec_first_illegal(ab) is None);
    assert(spec_first_illegal(t2) is None);
    assert(spec_first_illegal(t1) is None);
    assert(spec_first_illegal(t0) is None);
    // the text splits into the two sides on `>`
    assert(spec_split(e, RULE_SEPA) =~~= seq![e]);
    assert(spec_split(b, RULE_SEPA) =~~= seq![b]);
    assert(spec_split(ab, RULE_SEPA) =~~= seq![ab]);
    assert(spec_split(t2, RULE_SEPA) =~~= seq![e, ab]);
    assert(spec_split(t1, RULE_SEPA) =~~= seq![b, ab]);
    assert(spec_split(t0, RULE_SEPA) =~~= seq![ab, ab]);
    // the right half is one sequence
    assert(spec_split(e, RHS_SEPA) =~~= seq![e]);
    assert(spec_split(b, RHS_SEPA) =~~= seq![b]);
    assert(spec_split(ab, RHS_SEPA) =~~= seq![ab]);
    let rhsv = spec_nonempty(seq![ab]);
    assert(seq![ab].drop_last() =~= Seq::<Seq<u8>>::empty());
    assert(spec_nonempty(Seq::<Seq<u8>>::empty()) =~= Seq::<Seq<u8>>::empty());
    assert(seq![ab].last() == ab);
    assert(rhsv =~~= seq![ab]);
    // the left half holds letters only
    assert(spec_first_nonletter(e) is None);
    assert(spec_first_nonletter(b) is None);
    assert(spec_first_nonletter(ab) is None);
    // every right-hand-side symbol is declared on the left
    assert(ab.contains(UPPER_A)) by {
        assert(ab[0] == UPPER_A);
    }
    assert(ab.contains(66u8)) by {
        assert(ab[1] == 66u8);
    }
    assert(spec_first_undeclared_in(ab, e) is None);
    assert(spec_first_undeclared_in(ab, b) is None);
    assert(spec_first_undeclared_in(ab, ab) is None);
    assert(spec_first_undeclared(ab, seq![ab].skip(1)) is None) by {
        assert(seq![ab].skip(1) =~= Seq::<Seq<u8>>::empty());
    }
    assert(spec_first_undeclared(ab, rhsv) is None);
    // no centroid reference
    assert(!crate::rule::spec_rhs_uses_center(rhsv)) by {
        if crate::rule::spec_rhs_uses_center(rhsv) {
            let i = choose|i: int|
                0 <= i < rhsv.len() && #[trigger] rhsv[i].contains(crate::symbols::CENTER);
            let w = choose|w: int|
                0 <= w < rhsv[i].len() && rhsv[i][w] == crate::symbols::CENTER;
        }
    }
    // two vertex symbols
    assert(spec_count_verts(ab) == 2) by {
        assert(ab.drop_last() =~= seq![UPPER_A]);
        assert(seq![UPPER_A].drop_last() =~= e);
        assert(spec_count_verts(e) == 0);
        assert(spec_count_verts(seq![UPPER_A]) == 1);
    }
    // the single sequence reproduces the polygon: it is the terminal one
    assert(crate::rule::spec_all_verts(ab));
    assert(spec_find_terminal(rhsv, 2, 0) == Some(0int));
    assert(crate::rule::spec_uniform(ab));
    assert(ab.push(UPPER_A) =~= seq![UPPER_A, 66u8, UPPER_A]);
    let rv = RuleV {
        uniform_gaps: true,
        uses_center: false,
        gons: 2,
        terminal: Some(0),
        lhs: seq![UPPER_A, 66u8, UPPER_A],
        rhs: rhsv,
        src: t0,
    };
    assert(spec_parse_rule(t0) == Ok::<RuleV, crate::rule::RuleErr>(rv));
    assert(rv.rhs =~~= seq![seq![UPPER_A, 66u8]]);
    rv
}

/// A polygon whose vertex count no rule of the grammar matches passes
/// through dispatch unchanged, and remains unchanged — with no terminal
/// output — through any number of further generations: it is a permanent
/// fixed point of the rewrite system.
pub proof fn lemma_unmatched_fixed_point(g: Seq<RuleV>, pts: Seq<Point>, d: nat)
    requires
        forall|i: int| 0 <= i < g.len() ==> (#[trigger] g[i]).gons != pts.len(),
    ensures
        spec_grammar_apply(g, pts) == Some((seq![pts], None::<Seq<Point>>)),
        spec_iterate(g, seq![pts], d) == Some((seq![pts], Seq::<Seq<Point>>::empty())),
    decreases d,
{
    lemma_find_rule_props(g, pts.len(), 0);
    if spec_find_rule(g, pts.len(), 0) is Some {
        let k = spec_find_rule(g, pts.len(), 0).unwrap();
        assert(g[k].gons == pts.len());
        assert(false);
    }
    // one generation keeps the collection exactly
    let ss = seq![pts];
    assert(ss.drop_last() =~= Seq::<Seq<Point>>::empty());
    assert(ss.last() == pts);
    assert(spec_next(g, ss) == Some((seq![pts], Seq::<Seq<Point>>::empty()))) by {
        assert(spec_next(g, Seq::<Seq<Point>>::empty()) == Some(
            (Seq::<Seq<Point>>::empty(), Seq::<Seq<Point>>::empty()),
        ));
        assert(Seq::<Seq<Point>>::empty() + seq![pts] =~= seq![pts]);
        assert(Seq::<Seq<Point>>::empty() + Seq::<Seq<Point>>::empty() =~= Seq::<
            Seq<Point>,
        >::empty());
    }
    if d > 0 {
        lemma_unmatched_fixed_point(g, pts, (d - 1) as nat);
        assert(Seq::<Seq<Point>>::empty() + Seq::<Seq<Point>>::empty() =~= Seq::<
            Seq<Point>,
        >::empty());
    }
}

} // verus!
