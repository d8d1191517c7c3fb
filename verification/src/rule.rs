//! One production of the grammar: parsing and validation.
//!
//! A production `LHS > RHS` maps a polygon whose vertex count equals the
//! number of uppercase symbols in the LHS to one derived polygon per
//! comma-separated RHS sequence. Parsing validates the production and
//! appends a sentinel copy of the first LHS symbol, so that the cyclic
//! "last vertex to first vertex" gap is handled like every interior gap.

use vstd::prelude::*;

use crate::symbols::{
    is_center, is_legal, is_mid, is_vertex, spec_is_center, spec_is_legal, spec_is_mid,
    spec_is_vertex, CENTER, RHS_SEPA, RULE_SEPA,
};
use crate::text::{spec_split, spec_views, split_bytes};

verus! {

/// Why a production or a rule set was rejected.
#[derive(Clone, Copy, Debug, PartialEq, Eq, Structural)]
pub enum RuleErr {
    /// A byte outside the legal alphabet, or an RHS symbol that the LHS
    /// does not declare.
    UnknownSymbol { sym: u8 },
    /// A rule for fewer than two vertices declares subdivision symbols.
    PointSegmentation,
    /// The centroid is referenced but there are no vertices to average.
    EmptyCenter,
    /// The LHS does not begin with a vertex symbol.
    NonVertexStart,
    /// No `>` separator.
    NoSeparator,
    /// More than one `>` separator.
    MultipleSeparators,
    /// Two rules of one grammar share a vertex count.
    NonUniqueRule,
}

/// A rejection, together with the offending source text.
#[derive(Debug)]
pub struct ParseErr {
    pub err: RuleErr,
    pub src: Vec<u8>,
}

/// One validated production.
///
/// `lhs` holds the left-hand side with the sentinel appended; `rhs` holds
/// the non-empty right-hand-side sequences. `gons` is the number of
/// uppercase symbols of the original left-hand side and the dispatch key.
#[derive(Debug)]
pub struct Rule {
    pub uniform_gaps: bool,
    pub uses_center: bool,
    pub gons: usize,
    pub terminal: Option<usize>,
    pub lhs: Vec<u8>,
    pub rhs: Vec<Vec<u8>>,
    pub src: Vec<u8>,
}

/// The mathematical model of a rule.
pub struct RuleV {
    pub uniform_gaps: bool,
    pub uses_center: bool,
    pub gons: nat,
    pub terminal: Option<int>,
    pub lhs: Seq<u8>,
    pub rhs: Seq<Seq<u8>>,
    pub src: Seq<u8>,
}

impl View for Rule {
    type V = RuleV;

    open spec fn view(&self) -> RuleV {
        RuleV {
            uniform_gaps: self.uniform_gaps,
            uses_center: self.uses_center,
            gons: self.gons as nat,
            terminal: match self.terminal {
                Some(t) => Some(t as int),
                None => None,
            },
            lhs: self.lhs@,
            rhs: spec_views(self.rhs@),
            src: self.src@,
        }
    }
}

/// A letter: a vertex or a derived-point symbol.
pub open spec fn spec_is_letter(c: u8) -> bool {
    spec_is_vertex(c) || spec_is_mid(c)
}

/// The number of vertex symbols of `s`.
pub open spec fn spec_count_verts(s: Seq<u8>) -> nat
    decreases s.len(),
{
    if s.len() == 0 {
        0
    } else {
        spec_count_verts(s.drop_last()) + if spec_is_vertex(s.last()) {
            1nat
        } else {
            0nat
        }
    }
}

/// The first byte of `s` outside the legal alphabet.
pub open spec fn spec_first_illegal(s: Seq<u8>) -> Option<u8>
    decreases s.len(),
{
    if s.len() == 0 {
        None
    } else if !spec_is_legal(s[0]) {
        Some(s[0])
    } else {
        spec_first_illegal(s.skip(1))
    }
}

/// The first byte of `s` that is not a letter.
pub open spec fn spec_first_nonletter(s: Seq<u8>) -> Option<u8>
    decreases s.len(),
{
    if s.len() == 0 {
        None
    } else if !spec_is_letter(s[0]) {
        Some(s[0])
    } else {
        spec_first_nonletter(s.skip(1))
    }
}

/// The first byte of `part` that the LHS does not declare and that is not
/// the centroid symbol.
pub open spec fn spec_first_undeclared_in(lhs: Seq<u8>, part: Seq<u8>) -> Option<u8>
    decreases part.len(),
{
    if part.len() == 0 {
        None
    } else if !(lhs.contains(part[0]) || spec_is_center(part[0])) {
        Some(part[0])
    } else {
        spec_first_undeclared_in(lhs, part.skip(1))
    }
}

/// The first undeclared byte over all RHS sequences, in order.
pub open spec fn spec_first_undeclared(lhs: Seq<u8>, parts: Seq<Seq<u8>>) -> Option<u8>
    decreases parts.len(),
{
    if parts.len() == 0 {
        None
    } else {
        match spec_first_undeclared_in(lhs, parts[0]) {
            Some(b) => Some(b),
            None => spec_first_undeclared(lhs, parts.skip(1)),
        }
    }
}

/// The non-empty sequences among `ps`, in order.
pub open spec fn spec_nonempty(ps: Seq<Seq<u8>>) -> Seq<Seq<u8>>
    decreases ps.len(),
{
    if ps.len() == 0 {
        Seq::empty()
    } else {
        let rest = spec_nonempty(ps.drop_last());
        if ps.last().len() > 0 {
            rest.push(ps.last())
        } else {
            rest
        }
    }
}

/// Whether some RHS sequence references the centroid.
pub open spec fn spec_rhs_uses_center(parts: Seq<Seq<u8>>) -> bool {
    exists|i: int| 0 <= i < parts.len() && #[trigger] parts[i].contains(CENTER)
}

/// No two consecutive LHS symbols are both derived-point symbols.
pub open spec fn spec_uniform(lhs: Seq<u8>) -> bool {
    forall|i: int|
        0 <= i < lhs.len() - 1 ==> !(spec_is_mid(#[trigger] lhs[i]) && spec_is_mid(lhs[i + 1]))
}

/// All symbols of `s` are vertex symbols.
pub open spec fn spec_all_verts(s: Seq<u8>) -> bool {
    forall|i: int| 0 <= i < s.len() ==> spec_is_vertex(#[trigger] s[i])
}

/// The first RHS sequence, from position `i` on, that reproduces the
/// original polygon verbatim: `gons` symbols, all vertices.
pub open spec fn spec_find_terminal(parts: Seq<Seq<u8>>, gons: nat, i: int) -> Option<int>
    decreases parts.len() - i,
{
    if i < 0 || i >= parts.len() {
        None
    } else if parts[i].len() == gons && spec_all_verts(parts[i]) {
        Some(i)
    } else {
        spec_find_terminal(parts, gons, i + 1)
    }
}

/// What parsing one production yields: a rule model, or the first
/// rejection in validation order.
///
/// Validation order: the whole text is checked against the alphabet; the
/// text must hold exactly one `>`; the LHS may hold letters only and must
/// start with a vertex symbol; every RHS symbol must be declared on the
/// LHS or be the centroid; a rule for fewer than two vertices may not
/// subdivide; the centroid needs at least one vertex. The stored LHS gets
/// a sentinel copy of its first symbol appended.
pub open spec fn spec_parse_rule(src: Seq<u8>) -> Result<RuleV, RuleErr> {
    match spec_first_illegal(src) {
        Some(b) => Err(RuleErr::UnknownSymbol { sym: b }),
        None => {
            let halves = spec_split(src, RULE_SEPA);
            if halves.len() < 2 {
                Err(RuleErr::NoSeparator)
            } else if halves.len() > 2 {
                Err(RuleErr::MultipleSeparators)
            } else {
                let lhs = halves[0];
                let rhsv = spec_nonempty(spec_split(halves[1], RHS_SEPA));
                match spec_first_nonletter(lhs) {
                    Some(b) => Err(RuleErr::UnknownSymbol { sym: b }),
                    None => if lhs.len() > 0 && !spec_is_vertex(lhs[0]) {
                        Err(RuleErr::NonVertexStart)
                    } else {
                        match spec_first_undeclared(lhs, rhsv) {
                        Some(b) => Err(RuleErr::UnknownSymbol { sym: b }),
                        None => {
                            let gons = spec_count_verts(lhs);
                            let uses_center = spec_rhs_uses_center(rhsv);
                            if gons < 2 && lhs.len() != gons {
                                Err(RuleErr::PointSegmentation)
                            } else if gons == 0 && uses_center {
                                Err(RuleErr::EmptyCenter)
                            } else {
                                Ok(RuleV {
                                    uniform_gaps: spec_uniform(lhs),
                                    uses_center,
                                    gons,
                                    terminal: spec_find_terminal(rhsv, gons, 0),
                                    lhs: if lhs.len() > 0 {
                                        lhs.push(lhs[0])
                                    } else {
                                        lhs
                                    },
                                    rhs: rhsv,
                                    src,
                                })
                            }
                        },
                    }
                    },
                }
            }
        },
    }
}

/// The invariant of a parsed rule, as coordinate resolution relies on it.
pub open spec fn spec_rule_wf(r: RuleV) -> bool {
    &&& forall|i: int| 0 <= i < r.lhs.len() ==> spec_is_letter(#[trigger] r.lhs[i])
    &&& r.lhs.len() > 0 ==> spec_is_vertex(r.lhs[0]) && r.lhs.last() == r.lhs[0] && r.lhs.len()
        >= 2
    &&& spec_count_verts(r.lhs) == r.gons + if r.lhs.len() > 0 {
        1int
    } else {
        0int
    }
    &&& (r.gons == 0 <==> r.lhs.len() == 0)
    &&& r.uniform_gaps ==> spec_uniform(r.lhs)
    &&& forall|i: int| 0 <= i < r.rhs.len() ==> #[trigger] r.rhs[i].len() >= 1
    &&& forall|i: int, j: int|
        0 <= i < r.rhs.len() && 0 <= j < r.rhs[i].len() ==> r.lhs.contains(#[trigger] r.rhs[i][j])
            || r.rhs[i][j] == CENTER
    &&& (exists|i: int| 0 <= i < r.rhs.len() && #[trigger] r.rhs[i].contains(CENTER))
        ==> r.uses_center
    &&& r.uses_center ==> r.gons >= 1
    &&& r.terminal matches Some(t) ==> t < r.rhs.len()
}

/// A found terminal index lies inside the right-hand side.
proof fn lemma_find_terminal_in_range(parts: Seq<Seq<u8>>, gons: nat, i: int)
    ensures
        spec_find_terminal(parts, gons, i) matches Some(t) ==> i <= t < parts.len(),
    decreases parts.len() - i,
{
    if 0 <= i < parts.len() {
        lemma_find_terminal_in_range(parts, gons, i + 1);
    }
}

/// A clean scan means every byte is legal.
pub proof fn lemma_first_illegal_none(s: Seq<u8>)
    ensures
        spec_first_illegal(s) is None ==> forall|i: int|
            0 <= i < s.len() ==> spec_is_legal(#[trigger] s[i]),
    decreases s.len(),
{
    if s.len() > 0 {
        lemma_first_illegal_none(s.skip(1));
        if spec_first_illegal(s) is None {
            assert forall|i: int| 0 <= i < s.len() implies spec_is_legal(#[trigger] s[i]) by {
                if i > 0 {
                    assert(s.skip(1)[i - 1] == s[i]);
                }
            }
        }
    }
}

/// A clean scan means every LHS byte is a letter.
proof fn lemma_first_nonletter_none(s: Seq<u8>)
    ensures
        spec_first_nonletter(s) is None ==> forall|i: int|
            0 <= i < s.len() ==> spec_is_letter(#[trigger] s[i]),
    decreases s.len(),
{
    if s.len() > 0 {
        lemma_first_nonletter_none(s.skip(1));
        if spec_first_nonletter(s) is None {
            assert forall|i: int| 0 <= i < s.len() implies spec_is_letter(#[trigger] s[i]) by {
                if i > 0 {
                    assert(s.skip(1)[i - 1] == s[i]);
                }
            }
        }
    }
}

/// A clean scan means every byte of the sequence is declared.
proof fn lemma_first_undeclared_in_none(lhs: Seq<u8>, part: Seq<u8>)
    ensures
        spec_first_undeclared_in(lhs, part) is None ==> forall|j: int|
            0 <= j < part.len() ==> lhs.contains(#[trigger] part[j]) || part[j] == CENTER,
    decreases part.len(),
{
    if part.len() > 0 {
        lemma_first_undeclared_in_none(lhs, part.skip(1));
        if spec_first_undeclared_in(lhs, part) is None {
            assert forall|j: int|
                0 <= j < part.len() implies lhs.contains(#[trigger] part[j]) || part[j]
                == CENTER by {
                if j > 0 {
                    assert(part.skip(1)[j - 1] == part[j]);
                }
            }
        }
    }
}

/// A clean scan means every byte of every sequence is declared.
proof fn lemma_first_undeclared_none(lhs: Seq<u8>, parts: Seq<Seq<u8>>)
    ensures
        spec_first_undeclared(lhs, parts) is None ==> forall|i: int, j: int|
            0 <= i < parts.len() && 0 <= j < parts[i].len() ==> lhs.contains(
                #[trigger] parts[i][j],
            ) || parts[i][j] == CENTER,
    decreases parts.len(),
{
    if parts.len() > 0 {
        lemma_first_undeclared_none(lhs, parts.skip(1));
        lemma_first_undeclared_in_none(lhs, parts[0]);
        if spec_first_undeclared(lhs, parts) is None {
            assert forall|i: int, j: int|
                0 <= i < parts.len() && 0 <= j < parts[i].len() implies lhs.contains(
                #[trigger] parts[i][j],
            ) || parts[i][j] == CENTER by {
                if i > 0 {
                    assert(parts.skip(1)[i - 1] == parts[i]);
                }
            }
        }
    }
}

/// The dropped sequences are exactly the empty ones.
proof fn lemma_nonempty_parts(ps: Seq<Seq<u8>>)
    ensures
        forall|i: int|
            0 <= i < spec_nonempty(ps).len() ==> (#[trigger] spec_nonempty(ps)[i]).len() >= 1
                && ps.contains(spec_nonempty(ps)[i]),
    decreases ps.len(),
{
    if ps.len() > 0 {
        lemma_nonempty_parts(ps.drop_last());
        assert forall|i: int|
            0 <= i < spec_nonempty(ps).len() implies (#[trigger] spec_nonempty(ps)[i]).len() >= 1
            && ps.contains(spec_nonempty(ps)[i]) by {
            let rest = spec_nonempty(ps.drop_last());
            if i < rest.len() {
                assert(spec_nonempty(ps)[i] == rest[i]);
                assert(rest[i].len() >= 1 && ps.drop_last().contains(rest[i]));
                let w = choose|w: int|
                    0 <= w < ps.drop_last().len() && ps.drop_last()[w] == rest[i];
                assert(ps[w] == rest[i]);
            } else {
                assert(ps[ps.len() - 1] == ps.last());
            }
        }
    }
}

/// A sequence holds at least as many symbols as vertex symbols.
pub proof fn lemma_count_le_len(s: Seq<u8>)
    ensures
        spec_count_verts(s) <= s.len(),
    decreases s.len(),
{
    if s.len() > 0 {
        lemma_count_le_len(s.drop_last());
    }
}

/// Appending the sentinel raises the vertex count by one.
proof fn lemma_count_verts_push(s: Seq<u8>, c: u8)
    requires
        spec_is_vertex(c),
    ensures
        spec_count_verts(s.push(c)) == spec_count_verts(s) + 1,
{
    assert(s.push(c).drop_last() =~= s);
    assert(s.push(c).last() == c);
}

/// A parsed rule satisfies the resolution invariant.
pub proof fn lemma_parse_rule_wf(src: Seq<u8>)
    requires
        spec_parse_rule(src) is Ok,
    ensures
        spec_rule_wf(spec_parse_rule(src)->Ok_0),
{
    let halves = spec_split(src, RULE_SEPA);
    let lhs = halves[0];
    let rhsv = spec_nonempty(spec_split(halves[1], RHS_SEPA));
    let r = spec_parse_rule(src)->Ok_0;
    lemma_first_nonletter_none(lhs);
    lemma_first_undeclared_none(lhs, rhsv);
    lemma_nonempty_parts(spec_split(halves[1], RHS_SEPA));
    lemma_find_terminal_in_range(rhsv, r.gons, 0);
    if lhs.len() > 0 {
        lemma_count_verts_push(lhs, lhs[0]);
        assert(r.lhs == lhs.push(lhs[0]));
        assert(forall|i: int|
            0 <= i < lhs.len() ==> #[trigger] r.lhs[i] == lhs[i] && spec_is_letter(lhs[i]));
        assert(r.lhs.last() == lhs[0]);
        assert(spec_is_letter(r.lhs[r.lhs.len() - 1]));
        // membership in the original LHS carries to the stored LHS
        assert forall|i: int, j: int|
            0 <= i < r.rhs.len() && 0 <= j < r.rhs[i].len() implies r.lhs.contains(
            #[trigger] r.rhs[i][j],
        ) || r.rhs[i][j] == CENTER by {
            if lhs.contains(r.rhs[i][j]) {
                let w = choose|w: int| 0 <= w < lhs.len() && lhs[w] == r.rhs[i][j];
                assert(r.lhs[w] == r.rhs[i][j]);
            }
        }
        // the sentinel is a vertex, so uniformity carries to the stored LHS
        if r.uniform_gaps {
            assert forall|i: int|
                0 <= i < r.lhs.len() - 1 implies !(spec_is_mid(#[trigger] r.lhs[i]) && spec_is_mid(
                r.lhs[i + 1],
            )) by {
                if i + 1 < lhs.len() {
                    assert(spec_uniform(lhs));
                    assert(!(spec_is_mid(lhs[i]) && spec_is_mid(lhs[i + 1])));
                } else {
                    assert(r.lhs[i + 1] == lhs[0]);
                }
            }
        }
    } else {
        assert(r.lhs == lhs);
    }
}

/// Whether `s` holds the byte `c`.
pub fn contains_byte(s: &[u8], c: u8) -> (r: bool)
    ensures
        r == s@.contains(c),
{
    let mut i: usize = 0;
    while i < s.len()
        invariant
            0 <= i <= s@.len(),
            forall|j: int| 0 <= j < i ==> s@[j] != c,
        decreases s@.len() - i,
    {
        if s[i] == c {
            return true;
        }
        i = i + 1;
    }
    proof {
        if s@.contains(c) {
            let j = choose|j: int| 0 <= j < s@.len() && s@[j] == c;
        }
    }
    false
}

impl Rule {
    /// The rule's own invariant.
    pub open spec fn spec_wf(&self) -> bool {
        spec_rule_wf(self@)
    }

    /// The vertex count this rule dispatches on.
    pub fn vertices(&self) -> (r: usize)
        ensures
            r as nat == self@.gons,
    {
        self.gons
    }

    /// Parse and validate one production.
    pub fn new(src: &[u8]) -> (r: Result<Rule, ParseErr>)
        ensures
            match r {
                Ok(rule) => spec_parse_rule(src@) == Ok::<RuleV, RuleErr>(rule@) && rule.spec_wf()
                    && rule@.src == src@,
                Err(e) => spec_parse_rule(src@) == Err::<RuleV, RuleErr>(e.err) && e.src@ == src@,
            },
    {
        // the whole text must stay inside the alphabet
        match Self::scan_illegal(src) {
            Some(b) => {
                return Err(ParseErr {
                    err: RuleErr::UnknownSymbol { sym: b },
                    src: vstd::slice::slice_to_vec(src),
                });
            },
            None => {},
        }
        // exactly one separator
        let mut halves = split_bytes(src, RULE_SEPA);
        if halves.len() < 2 {
            return Err(ParseErr { err: RuleErr::NoSeparator, src: vstd::slice::slice_to_vec(src) });
        }
        if halves.len() > 2 {
            return Err(
                ParseErr { err: RuleErr::MultipleSeparators, src: vstd::slice::slice_to_vec(src) },
            );
        }
        let rhs_raw = halves.remove(1);
        let lhs_raw = halves.remove(0);
        proof {
            assert(lhs_raw@ == spec_split(src@, RULE_SEPA)[0]);
            assert(rhs_raw@ == spec_split(src@, RULE_SEPA)[1]);
        }
        // the LHS holds letters only
        match Self::scan_nonletter(lhs_raw.as_slice()) {
            Some(b) => {
                return Err(ParseErr {
                    err: RuleErr::UnknownSymbol { sym: b },
                    src: vstd::slice::slice_to_vec(src),
                });
            },
            None => {},
        }
        // the LHS starts with a vertex symbol
        if lhs_raw.len() > 0 && !is_vertex(lhs_raw[0]) {
            return Err(
                ParseErr { err: RuleErr::NonVertexStart, src: vstd::slice::slice_to_vec(src) },
            );
        }
        // the non-empty RHS sequences
        let parts = split_bytes(rhs_raw.as_slice(), RHS_SEPA);
        let mut rhsv: Vec<Vec<u8>> = Vec::new();
        let mut i: usize = 0;
        while i < parts.len()
            invariant
                0 <= i <= parts@.len(),
                spec_views(rhsv@) == spec_nonempty(spec_views(parts@).take(i as int)),
            decreases parts@.len() - i,
        {
            proof {
                assert(spec_views(parts@).take(i + 1).drop_last() =~= spec_views(parts@).take(
                    i as int,
                ));
                assert(spec_views(parts@).take(i + 1).last() == parts@[i as int]@);
            }
            if parts[i].len() > 0 {
                let ghost prev = rhsv@;
                let part = parts[i].clone();
                assert(part@ == parts@[i as int]@);
                rhsv.push(part);
                proof {
                    assert(spec_views(rhsv@) =~= spec_views(prev).push(parts@[i as int]@));
                }
            }
            i = i + 1;
        }
        proof {
            assert(spec_views(parts@).take(parts@.len() as int) =~= spec_views(parts@));
        }
        // every RHS symbol is declared on the LHS or is the centroid
        match Self::scan_undeclared(lhs_raw.as_slice(), &rhsv) {
            Some(b) => {
                return Err(ParseErr {
                    err: RuleErr::UnknownSymbol { sym: b },
                    src: vstd::slice::slice_to_vec(src),
                });
            },
            None => {},
        }
        let gons = Self::count_verts(lhs_raw.as_slice());
        let uses_center = Self::scan_center(&rhsv);
        if gons < 2 && lhs_raw.len() != gons {
            return Err(
                ParseErr { err: RuleErr::PointSegmentation, src: vstd::slice::slice_to_vec(src) },
            );
        }
        if gons == 0 && uses_center {
            return Err(ParseErr { err: RuleErr::EmptyCenter, src: vstd::slice::slice_to_vec(src) });
        }
        let uniform_gaps = Self::scan_uniform(lhs_raw.as_slice());
        let terminal = Self::find_terminal(&rhsv, gons);
        // the sentinel: the cyclic wrap-around gap becomes an interior gap
        let mut lhs = lhs_raw;
        if lhs.len() > 0 {
            let c0 = lhs[0];
            lhs.push(c0);
        }
        let rule = Rule {
            uniform_gaps,
            uses_center,
            gons,
            terminal,
            lhs,
            rhs: rhsv,
            src: vstd::slice::slice_to_vec(src),
        };
        proof {
            assert(spec_parse_rule(src@) == Ok::<RuleV, RuleErr>(rule@));
            lemma_parse_rule_wf(src@);
        }
        Ok(rule)
    }

    /// The first byte outside the alphabet.
    fn scan_illegal(s: &[u8]) -> (r: Option<u8>)
        ensures
            r == spec_first_illegal(s@),
    {
        let mut i: usize = 0;
        proof {
            assert(s@.skip(0) =~= s@);
        }
        while i < s.len()
            invariant
                0 <= i <= s@.len(),
                spec_first_illegal(s@) == spec_first_illegal(s@.skip(i as int)),
                forall|j: int| 0 <= j < i ==> spec_is_legal(#[trigger] s@[j]),
            decreases s@.len() - i,
        {
            proof {
                assert(s@.skip(i as int)[0] == s@[i as int]);
                assert(s@.skip(i as int).skip(1) =~= s@.skip(i + 1));
            }
            if !is_legal(s[i]) {
                return Some(s[i]);
            }
            i = i + 1;
        }
        proof {
            assert(s@.skip(i as int) =~= Seq::<u8>::empty());
        }
        None
    }

    /// The first byte that is not a letter.
    fn scan_nonletter(s: &[u8]) -> (r: Option<u8>)
        ensures
            r == spec_first_nonletter(s@),
    {
        let mut i: usize = 0;
        proof {
            assert(s@.skip(0) =~= s@);
        }
        while i < s.len()
            invariant
                0 <= i <= s@.len(),
                spec_first_nonletter(s@) == spec_first_nonletter(s@.skip(i as int)),
            decreases s@.len() - i,
        {
            proof {
                assert(s@.skip(i as int)[0] == s@[i as int]);
                assert(s@.skip(i as int).skip(1) =~= s@.skip(i + 1));
            }
            if !(is_vertex(s[i]) || is_mid(s[i])) {
                return Some(s[i]);
            }
            i = i + 1;
        }
        proof {
            assert(s@.skip(i as int) =~= Seq::<u8>::empty());
        }
        None
    }

    /// The first byte of `part` that `lhs` does not declare.
    fn scan_undeclared_in(lhs: &[u8], part: &[u8]) -> (r: Option<u8>)
        ensures
            r == spec_first_undeclared_in(lhs@, part@),
    {
        let mut j: usize = 0;
        proof {
            assert(part@.skip(0) =~= part@);
        }
        while j < part.len()
            invariant
                0 <= j <= part@.len(),
                spec_first_undeclared_in(lhs@, part@) == spec_first_undeclared_in(
                    lhs@,
                    part@.skip(j as int),
                ),
            decreases part@.len() - j,
        {
            proof {
                assert(part@.skip(j as int)[0] == part@[j as int]);
                assert(part@.skip(j as int).skip(1) =~= part@.skip(j + 1));
            }
            if !(contains_byte(lhs, part[j]) || is_center(part[j])) {
                return Some(part[j]);
            }
            j = j + 1;
        }
        proof {
            assert(part@.skip(j as int) =~= Seq::<u8>::empty());
        }
        None
    }

    /// The first undeclared byte over all RHS sequences.
    fn scan_undeclared(lhs: &[u8], parts: &Vec<Vec<u8>>) -> (r: Option<u8>)
        ensures
            r == spec_first_undeclared(lhs@, spec_views(parts@)),
    {
        let ghost pv = spec_views(parts@);
        let mut i: usize = 0;
        proof {
            assert(pv.skip(0) =~= pv);
        }
        while i < parts.len()
            invariant
                0 <= i <= parts@.len(),
                pv == spec_views(parts@),
                spec_first_undeclared(lhs@, pv) == spec_first_undeclared(
                    lhs@,
                    pv.skip(i as int),
                ),
            decreases parts@.len() - i,
        {
            proof {
                assert(pv.skip(i as int)[0] == pv[i as int]);
                assert(pv.skip(i as int).skip(1) =~= pv.skip(i + 1));
            }
            match Self::scan_undeclared_in(lhs, parts[i].as_slice()) {
                Some(b) => {
                    return Some(b);
                },
                None => {},
            }
            i = i + 1;
        }
        proof {
            assert(pv.skip(i as int) =~= Seq::<Seq<u8>>::empty());
        }
        None
    }

    /// Whether some RHS sequence references the centroid.
    fn scan_center(parts: &Vec<Vec<u8>>) -> (r: bool)
        ensures
            r == spec_rhs_uses_center(spec_views(parts@)),
    {
        let ghost pv = spec_views(parts@);
        let mut i: usize = 0;
        while i < parts.len()
            invariant
                0 <= i <= parts@.len(),
                pv == spec_views(parts@),
                forall|k: int| 0 <= k < i ==> !#[trigger] pv[k].contains(CENTER),
            decreases parts@.len() - i,
        {
            if contains_byte(parts[i].as_slice(), CENTER) {
                assert(pv[i as int].contains(CENTER));
                return true;
            }
            i = i + 1;
        }
        false
    }

    /// The vertex count of the left-hand side.
    fn count_verts(s: &[u8]) -> (r: usize)
        ensures
            r == spec_count_verts(s@),
    {
        let mut i: usize = 0;
        let mut n: usize = 0;
        while i < s.len()
            invariant
                0 <= i <= s@.len(),
                n == spec_count_verts(s@.take(i as int)),
                n <= i,
            decreases s@.len() - i,
        {
            proof {
                assert(s@.take(i + 1).drop_last() =~= s@.take(i as int));
                assert(s@.take(i + 1).last() == s@[i as int]);
            }
            if is_vertex(s[i]) {
                n = n + 1;
            }
            i = i + 1;
        }
        proof {
            assert(s@.take(i as int) =~= s@);
        }
        n
    }

    /// Whether no two consecutive symbols are both derived-point symbols.
    fn scan_uniform(s: &[u8]) -> (r: bool)
        ensures
            r == spec_uniform(s@),
    {
        if s.len() < 2 {
            return true;
        }
        let mut i: usize = 0;
        while i < s.len() - 1
            invariant
                s@.len() >= 2,
                0 <= i <= s@.len() - 1,
                forall|j: int|
                    0 <= j < i ==> !(spec_is_mid(#[trigger] s@[j]) && spec_is_mid(s@[j + 1])),
            decreases s@.len() - i,
        {
            if is_mid(s[i]) && is_mid(s[i + 1]) {
                return false;
            }
            i = i + 1;
        }
        true
    }

    /// The first RHS sequence that reproduces the polygon verbatim.
    fn find_terminal(parts: &Vec<Vec<u8>>, gons: usize) -> (r: Option<usize>)
        ensures
            r matches Some(t) ==> spec_find_terminal(spec_views(parts@), gons as nat, 0) == Some(t as int),
            r is None ==> spec_find_terminal(spec_views(parts@), gons as nat, 0) is None,
    {
        let ghost pv = spec_views(parts@);
        let mut i: usize = 0;
        while i < parts.len()
            invariant
                0 <= i <= parts@.len(),
                pv == spec_views(parts@),
                spec_find_terminal(pv, gons as nat, 0) == spec_find_terminal(pv, gons as nat, i as int),
            decreases parts@.len() - i,
        {
            if parts[i].len() == gons && Self::all_verts(parts[i].as_slice()) {
                return Some(i);
            }
            i = i + 1;
        }
        None
    }

    /// Whether every symbol is a vertex symbol.
    fn all_verts(s: &[u8]) -> (r: bool)
        ensures
            r == spec_all_verts(s@),
    {
        let mut i: usize = 0;
        while i < s.len()
            invariant
                0 <= i <= s@.len(),
                forall|j: int| 0 <= j < i ==> spec_is_vertex(#[trigger] s@[j]),
            decreases s@.len() - i,
        {
            if !is_vertex(s[i]) {
                return false;
            }
            i = i + 1;
        }
        true
    }
}

} // verus!
