use shapesys::rule::{Rule, RuleErr};
use shapesys::symbols::{is_center, is_legal, is_mid, is_rhs_sepa, is_rule_sepa, is_vertex};

#[test]
fn symbol_classes() {
    assert!(is_vertex(b'A'));
    assert!(is_vertex(b'Z'));
    assert!(!is_vertex(b'a'));
    assert!(is_mid(b'a'));
    assert!(is_mid(b'z'));
    assert!(!is_mid(b'A'));
    assert!(is_center(b'.'));
    assert!(is_rhs_sepa(b','));
    assert!(is_rule_sepa(b'>'));
    assert!(is_legal(b'Q'));
    assert!(is_legal(b'q'));
    assert!(is_legal(b'.'));
    assert!(is_legal(b','));
    assert!(is_legal(b'>'));
    assert!(!is_legal(b';'));
    assert!(!is_legal(b' '));
    assert!(!is_legal(b'1'));
}

#[test]
fn parse_simple_rule() {
    let rule = Rule::new(b"AaB>Aa,aB").unwrap();
    assert_eq!(rule.vertices(), 2);
    assert_eq!(rule.gons, 2);
    // the stored LHS carries the sentinel copy of the first symbol
    assert_eq!(rule.lhs, b"AaBA".to_vec());
    assert_eq!(rule.rhs, vec![b"Aa".to_vec(), b"aB".to_vec()]);
    assert!(rule.uniform_gaps);
    assert!(!rule.uses_center);
    assert_eq!(rule.terminal, None);
    assert_eq!(rule.src, b"AaB>Aa,aB".to_vec());
}

#[test]
fn parse_terminal_index() {
    let rule = Rule::new(b"AB>AB").unwrap();
    assert_eq!(rule.terminal, Some(0));
    assert_eq!(rule.lhs, b"ABA".to_vec());
    assert_eq!(rule.rhs, vec![b"AB".to_vec()]);
}

#[test]
fn parse_terminal_first_match() {
    let rule = Rule::new(b"ABC>AB,BCA,CAB").unwrap();
    // the first sequence of three vertex symbols is the terminal one
    assert_eq!(rule.terminal, Some(1));
    assert_eq!(rule.gons, 3);
}

#[test]
fn parse_group_mode() {
    let rule = Rule::new(b"AabB>ab").unwrap();
    assert!(!rule.uniform_gaps);
    assert_eq!(rule.gons, 2);
}

#[test]
fn parse_center_flag() {
    let rule = Rule::new(b"ABCD>.").unwrap();
    assert!(rule.uses_center);
    assert_eq!(rule.gons, 4);
    assert_eq!(rule.terminal, None);
}

#[test]
fn reject_illegal_byte() {
    let e = Rule::new(b"A1>A").unwrap_err();
    assert_eq!(e.err, RuleErr::UnknownSymbol { sym: b'1' });
    assert_eq!(e.src, b"A1>A".to_vec());
}

#[test]
fn reject_undeclared_rhs_symbol() {
    let e = Rule::new(b"AB>C").unwrap_err();
    assert_eq!(e.err, RuleErr::UnknownSymbol { sym: b'C' });
}

#[test]
fn reject_missing_separator() {
    let e = Rule::new(b"AB").unwrap_err();
    assert_eq!(e.err, RuleErr::NoSeparator);
    let e = Rule::new(b"").unwrap_err();
    assert_eq!(e.err, RuleErr::NoSeparator);
}

#[test]
fn reject_multiple_separators() {
    let e = Rule::new(b"AB>AB>CD").unwrap_err();
    assert_eq!(e.err, RuleErr::MultipleSeparators);
}

#[test]
fn reject_non_vertex_start() {
    let e = Rule::new(b"aB>AB").unwrap_err();
    assert_eq!(e.err, RuleErr::NonVertexStart);
}

#[test]
fn reject_point_segmentation() {
    let e = Rule::new(b"Ab>A").unwrap_err();
    assert_eq!(e.err, RuleErr::PointSegmentation);
}

#[test]
fn reject_empty_center() {
    // a centroid with no vertices at all to average
    let e = Rule::new(b">.").unwrap_err();
    assert_eq!(e.err, RuleErr::EmptyCenter);
}

#[test]
fn accept_center_of_single_vertex() {
    // one vertex suffices to average
    let rule = Rule::new(b"A>.").unwrap();
    assert!(rule.uses_center);
    assert_eq!(rule.gons, 1);
}

#[test]
fn accept_empty_rhs() {
    // a legal production whose outputs are all discarded
    let rule = Rule::new(b"AB>").unwrap();
    assert_eq!(rule.rhs.len(), 0);
    assert_eq!(rule.terminal, None);
}

#[test]
fn accept_mid_between_vertices() {
    assert!(Rule::new(b"AbB>AB").is_ok());
}

#[test]
fn reject_separator_symbols_inside_lhs() {
    // the left-hand side is built from letters alone
    let e = Rule::new(b"A.B>A").unwrap_err();
    assert_eq!(e.err, RuleErr::UnknownSymbol { sym: b'.' });
    let e = Rule::new(b"A,B>A").unwrap_err();
    assert_eq!(e.err, RuleErr::UnknownSymbol { sym: b',' });
}

#[test]
fn reject_reports_first_offender() {
    let e = Rule::new(b"A1B2>A").unwrap_err();
    assert_eq!(e.err, RuleErr::UnknownSymbol { sym: b'1' });
}
