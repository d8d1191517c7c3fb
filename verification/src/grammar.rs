//! A grammar: an injective mapping from vertex count to rule.
//!
//! At most one rule may target a given polygon size, so dispatch is
//! unambiguous. A polygon with no matching rule passes through unchanged: it
//! is a permanent fixed point of the rewrite system. The generation loop
//! applies the grammar to every polygon of the current collection and
//! carries the results forward a fixed number of times, diverting terminal
//! outputs as they arise.

use vstd::prelude::*;

use crate::apply::spec_rule_apply;
use crate::geom::{Point, Shape};
use crate::rule::{spec_parse_rule, spec_rule_wf, ParseErr, Rule, RuleErr, RuleV};
use crate::symbols::GRAMMAR_SEPA;
use crate::text::{spec_join, spec_split, spec_views, split_bytes};

verus! {

/// What a dispatch map holds: its key-value pairs.
pub uninterp spec fn vm_entries(m: vec_map::VecMap<usize>) -> Map<usize, usize>;

#[verifier::external_type_specification]
#[verifier::external_body]
#[verifier::reject_recursive_types(V)]
pub struct ExVecMap<V>(vec_map::VecMap<V>);

/// Relies on vec_map::VecMap::new: the fresh map holds no pairs.
#[verifier::external_body]
fn vm_new() -> (r: vec_map::VecMap<usize>)
    ensures
        vm_entries(r).dom() == Set::<usize>::empty(),
{
    vec_map::VecMap::new()
}

/// Relies on vec_map::VecMap::insert: the pair is added, replacing and
/// returning the value the key had before. A key of `usize::MAX` would
/// overflow the backing vector's length.
#[verifier::external_body]
fn vm_insert(m: &mut vec_map::VecMap<usize>, key: usize, value: usize) -> (r: Option<usize>)
    requires
        key < usize::MAX,
    ensures
        vm_entries(*final(m)) == vm_entries(*old(m)).insert(key, value),
        r == if vm_entries(*old(m)).dom().contains(key) {
            Some(vm_entries(*old(m))[key])
        } else {
            None::<usize>
        },
{
    m.insert(key, value)
}

/// Relies on vec_map::VecMap::get: the value the key maps to, if any.
#[verifier::external_body]
fn vm_get(m: &vec_map::VecMap<usize>, key: usize) -> (r: Option<usize>)
    ensures
        r == if vm_entries(*m).dom().contains(key) {
            Some(vm_entries(*m)[key])
        } else {
            None::<usize>
        },
{
    m.get(key).copied()
}

/// No two rules share a vertex count.
pub open spec fn spec_unique_gons(g: Seq<RuleV>) -> bool {
    forall|i: int, j: int|
        0 <= i < j < g.len() ==> (#[trigger] g[i]).gons != (#[trigger] g[j]).gons
}

/// Whether some earlier rule shares rule `j`'s vertex count.
pub open spec fn spec_dup_before(g: Seq<RuleV>, j: int) -> bool {
    exists|i: int| 0 <= i < j && (#[trigger] g[i]).gons == g[j].gons
}

/// The first rule that collides with an earlier one, from position `j` on.
pub open spec fn spec_first_dup(g: Seq<RuleV>, j: int) -> Option<int>
    decreases g.len() - j,
{
    if j < 0 || j >= g.len() {
        None
    } else if spec_dup_before(g, j) {
        Some(j)
    } else {
        spec_first_dup(g, j + 1)
    }
}

/// Construction fails exactly when two rules share a vertex count.
pub proof fn lemma_unique_iff_no_dup(g: Seq<RuleV>)
    ensures
        spec_first_dup(g, 0) is None <==> spec_unique_gons(g),
{
    lemma_no_dup_from(g, 0);
    if spec_unique_gons(g) {
        lemma_unique_no_dup_from(g, 0);
    }
}

proof fn lemma_no_dup_from(g: Seq<RuleV>, j: int)
    requires
        0 <= j <= g.len(),
    ensures
        spec_first_dup(g, j) is None ==> forall|i: int, k: int|
            0 <= i < k < g.len() && k >= j ==> (#[trigger] g[i]).gons != (#[trigger] g[k]).gons,
    decreases g.len() - j,
{
    if j < g.len() {
        lemma_no_dup_from(g, j + 1);
        if spec_first_dup(g, j) is None {
            assert forall|i: int, k: int|
                0 <= i < k < g.len() && k >= j implies (#[trigger] g[i]).gons != (
            #[trigger] g[k]).gons by {
                if k == j {
                    assert(!spec_dup_before(g, j));
                }
            }
        }
    }
}

proof fn lemma_unique_no_dup_from(g: Seq<RuleV>, j: int)
    requires
        0 <= j <= g.len(),
        spec_unique_gons(g),
    ensures
        spec_first_dup(g, j) is None,
    decreases g.len() - j,
{
    if j < g.len() {
        assert(!spec_dup_before(g, j)) by {
            if spec_dup_before(g, j) {
                let i = choose|i: int| 0 <= i < j && (#[trigger] g[i]).gons == g[j].gons;
            }
        }
        lemma_unique_no_dup_from(g, j + 1);
    }
}

/// The rules a grammar text denotes, or its first rejection: the text
/// splits on `;` and every part must parse.
pub open spec fn spec_parse_rules(parts: Seq<Seq<u8>>) -> Result<Seq<RuleV>, (RuleErr, Seq<u8>)>
    decreases parts.len(),
{
    if parts.len() == 0 {
        Ok(Seq::empty())
    } else {
        match spec_parse_rules(parts.drop_last()) {
            Ok(rs) => match spec_parse_rule(parts.last()) {
                Ok(r) => Ok(rs.push(r)),
                Err(e) => Err((e, parts.last())),
            },
            Err(e) => Err(e),
        }
    }
}

/// What a grammar text denotes: its rules in text order, or the first
/// rejection, where a shared vertex count carries the later rule's source.
pub open spec fn spec_grammar_new(src: Seq<u8>) -> Result<Seq<RuleV>, (RuleErr, Seq<u8>)> {
    match spec_parse_rules(spec_split(src, GRAMMAR_SEPA)) {
        Ok(rs) => match spec_first_dup(rs, 0) {
            Some(j) => Err((RuleErr::NonUniqueRule, rs[j].src)),
            None => Ok(rs),
        },
        Err(e) => Err(e),
    }
}

/// The serialized form: the rule sources joined with `;`, in rule order.
pub open spec fn spec_serialize(g: Seq<RuleV>) -> Seq<u8> {
    spec_join(g.map_values(|r: RuleV| r.src), GRAMMAR_SEPA)
}

/// The first rule whose vertex count is `n`, from position `i` on.
pub open spec fn spec_find_rule(g: Seq<RuleV>, n: nat, i: int) -> Option<int>
    decreases g.len() - i,
{
    if i < 0 || i >= g.len() {
        None
    } else if g[i].gons == n {
        Some(i)
    } else {
        spec_find_rule(g, n, i + 1)
    }
}

/// What dispatching one polygon yields: the matching rule's application,
/// or the polygon unchanged when no rule matches its vertex count.
pub open spec fn spec_grammar_apply(g: Seq<RuleV>, pts: Seq<Point>) -> Option<
    (Seq<Seq<Point>>, Option<Seq<Point>>),
> {
    match spec_find_rule(g, pts.len(), 0) {
        Some(i) => spec_rule_apply(g[i], pts),
        None => Some((seq![pts], None)),
    }
}

/// One generation: every polygon dispatched, the carried outputs
/// concatenated in input order, the terminal outputs likewise.
pub open spec fn spec_next(g: Seq<RuleV>, ss: Seq<Seq<Point>>) -> Option<
    (Seq<Seq<Point>>, Seq<Seq<Point>>),
>
    decreases ss.len(),
{
    if ss.len() == 0 {
        Some((Seq::empty(), Seq::empty()))
    } else {
        match spec_next(g, ss.drop_last()) {
            Some(acc) => match spec_grammar_apply(g, ss.last()) {
                Some(out) => Some(
                    (
                        acc.0 + out.0,
                        acc.1 + match out.1 {
                            Some(t) => seq![t],
                            None => Seq::empty(),
                        },
                    ),
                ),
                None => None,
            },
            None => None,
        }
    }
}

/// `d` generations: the final collection, and every terminal output in
/// the order it arose.
pub open spec fn spec_iterate(g: Seq<RuleV>, ss: Seq<Seq<Point>>, d: nat) -> Option<
    (Seq<Seq<Point>>, Seq<Seq<Point>>),
>
    decreases d,
{
    if d == 0 {
        Some((ss, Seq::empty()))
    } else {
        match spec_next(g, ss) {
            Some(out) => match spec_iterate(g, out.0, (d - 1) as nat) {
                Some(fin) => Some((fin.0, out.1 + fin.1)),
                None => None,
            },
            None => None,
        }
    }
}

/// Where a rule with vertex count `n` stands, nothing before it matches.
pub proof fn lemma_find_rule_props(g: Seq<RuleV>, n: nat, i: int)
    requires
        0 <= i <= g.len(),
    ensures
        spec_find_rule(g, n, i) matches Some(k) ==> i <= k < g.len() && g[k].gons == n,
        spec_find_rule(g, n, i) is None ==> forall|l: int|
            i <= l < g.len() ==> (#[trigger] g[l]).gons != n,
    decreases g.len() - i,
{
    if i < g.len() {
        lemma_find_rule_props(g, n, i + 1);
    }
}

/// With pairwise-distinct vertex counts, the rule found for `n` is the
/// rule that has `n`.
proof fn lemma_find_rule_unique(g: Seq<RuleV>, n: nat, j: int)
    requires
        spec_unique_gons(g),
        0 <= j < g.len(),
        g[j].gons == n,
    ensures
        spec_find_rule(g, n, 0) == Some(j),
{
    lemma_find_rule_props(g, n, 0);
    if spec_find_rule(g, n, 0) is None {
        assert(g[j].gons != n);
        assert(false);
    }
    let k = spec_find_rule(g, n, 0).unwrap();
    if k != j {
        assert(g[k].gons == g[j].gons);
        assert(false);
    }
}

/// The views of a vector of shapes.
pub open spec fn spec_shape_views(v: Seq<Shape>) -> Seq<Seq<Point>> {
    v.map_values(|s: Shape| s@)
}

/// All shapes of a sequence satisfy the shape invariant.
pub open spec fn spec_shapes_wf(v: Seq<Shape>) -> bool {
    forall|i: int| 0 <= i < v.len() ==> (#[trigger] v[i]).spec_wf()
}

/// A failed generation on a prefix fails on the whole collection.
proof fn lemma_next_prefix_none(g: Seq<RuleV>, ss: Seq<Seq<Point>>, i: int)
    requires
        0 <= i <= ss.len(),
        spec_next(g, ss.take(i)) is None,
    ensures
        spec_next(g, ss) is None,
    decreases ss.len() - i,
{
    if i == ss.len() {
        assert(ss.take(i) =~= ss);
    } else {
        assert(ss.take(i + 1).drop_last() =~= ss.take(i));
        lemma_next_prefix_none(g, ss, i + 1);
    }
}

/// An injective mapping from vertex count to rule.
pub struct Grammar {
    rules: Vec<Rule>,
    pmap: vec_map::VecMap<usize>,
}

impl View for Grammar {
    type V = Seq<RuleV>;

    closed spec fn view(&self) -> Seq<RuleV> {
        self.rules@.map_values(|r: Rule| r@)
    }
}

impl Grammar {
    /// The grammar invariant: well-formed rules with pairwise-distinct
    /// vertex counts, and a dispatch map that indexes them exactly.
    pub closed spec fn spec_wf(&self) -> bool {
        &&& forall|i: int| 0 <= i < self@.len() ==> spec_rule_wf(#[trigger] self@[i])
        &&& spec_unique_gons(self@)
        &&& forall|i: int|
            0 <= i < self.rules@.len() ==> vm_entries(self.pmap).dom().contains(
                (#[trigger] self.rules@[i]).gons,
            ) && vm_entries(self.pmap)[self.rules@[i].gons] == i as usize
        &&& forall|k: usize|
            #[trigger] vm_entries(self.pmap).dom().contains(k) ==> vm_entries(self.pmap)[k]
                < self.rules@.len() && self.rules@[vm_entries(self.pmap)[k] as int].gons == k
    }

    /// Build a grammar from parsed rules; two rules sharing a vertex
    /// count are rejected, the later one named in the error.
    pub fn from_rules(rules: Vec<Rule>) -> (r: Result<Grammar, ParseErr>)
        requires
            forall|i: int| 0 <= i < rules@.len() ==> (#[trigger] rules@[i]).spec_wf(),
        ensures
            r is Ok <==> spec_first_dup(rules@.map_values(|x: Rule| x@), 0) is None,
            r matches Ok(g) ==> g@ == rules@.map_values(|x: Rule| x@) && g.spec_wf(),
            r matches Err(e) ==> ({
                let v = rules@.map_values(|x: Rule| x@);
                &&& e.err == RuleErr::NonUniqueRule
                &&& spec_first_dup(v, 0) matches Some(j) && e.src@ == v[j].src
            }),
    {
        let ghost v = rules@.map_values(|x: Rule| x@);
        let n = rules.len();
        let mut j: usize = 1;
        while j < n
            invariant
                n == rules@.len(),
                v == rules@.map_values(|x: Rule| x@),
                1 <= j || n == 0,
                j <= n || (n == 0 && j == 1),
                spec_first_dup(v, 0) == spec_first_dup(v, j as int),
            decreases n - j,
        {
            let mut i: usize = 0;
            while i < j
                invariant
                    n == rules@.len(),
                    v == rules@.map_values(|x: Rule| x@),
                    0 <= i <= j < n,
                    spec_first_dup(v, 0) == spec_first_dup(v, j as int),
                    forall|l: int| 0 <= l < i ==> v[l].gons != v[j as int].gons,
                decreases j - i,
            {
                if rules[i].vertices() == rules[j].vertices() {
                    proof {
                        assert(v[i as int] == rules@[i as int]@);
                        assert(v[j as int] == rules@[j as int]@);
                        assert(v[i as int].gons == v[j as int].gons);
                        assert(spec_dup_before(v, j as int));
                        assert(spec_first_dup(v, j as int) == Some(j as int));
                    }
                    let src = vstd::slice::slice_to_vec(rules[j].src.as_slice());
                    assert(src@ == v[j as int].src);
                    return Err(ParseErr { err: RuleErr::NonUniqueRule, src });
                }
                i = i + 1;
            }
            proof {
                assert(!spec_dup_before(v, j as int)) by {
                    if spec_dup_before(v, j as int) {
                        let w = choose|w: int|
                            0 <= w < j && (#[trigger] v[w]).gons == v[j as int].gons;
                    }
                }
            }
            j = j + 1;
        }
        proof {
            if n > 0 {
                assert(spec_first_dup(v, n as int) is None);
            } else {
                assert(spec_first_dup(v, 0) is None);
            }
            lemma_unique_iff_no_dup(v);
        }
        // the dispatch map: vertex count to rule index
        let mut pmap = vm_new();
        let mut i: usize = 0;
        while i < n
            invariant
                n == rules@.len(),
                v == rules@.map_values(|x: Rule| x@),
                forall|l: int| 0 <= l < n ==> (#[trigger] rules@[l]).spec_wf(),
                spec_unique_gons(v),
                0 <= i <= n,
                forall|l: int|
                    0 <= l < i ==> vm_entries(pmap).dom().contains(
                        (#[trigger] rules@[l]).gons,
                    ) && vm_entries(pmap)[rules@[l].gons] == l as usize,
                forall|k: usize|
                    #[trigger] vm_entries(pmap).dom().contains(k) ==> vm_entries(pmap)[k] < i
                        && rules@[vm_entries(pmap)[k] as int].gons == k,
            decreases n - i,
        {
            let g = rules[i].vertices();
            let ll = rules[i].lhs.len();
            proof {
                crate::rule::lemma_count_le_len(rules@[i as int]@.lhs);
                if ll > 0 {
                    assert(g as nat + 1 <= ll as nat);
                } else {
                    assert(g as nat == 0);
                }
                assert(g < usize::MAX);
            }
            let ghost prev = vm_entries(pmap);
            vm_insert(&mut pmap, g, i);
            proof {
                assert forall|k: usize| #[trigger]
                    vm_entries(pmap).dom().contains(k) implies vm_entries(pmap)[k] < i + 1
                    && rules@[vm_entries(pmap)[k] as int].gons == k by {
                    if k != g {
                        assert(prev.dom().contains(k));
                    }
                }
                assert forall|l: int|
                    0 <= l < i + 1 implies vm_entries(pmap).dom().contains(
                    (#[trigger] rules@[l]).gons,
                ) && vm_entries(pmap)[rules@[l].gons] == l as usize by {
                    if l < i {
                        assert(v[l].gons != v[i as int].gons);
                        assert(rules@[l].gons != g);
                    }
                }
            }
            i = i + 1;
        }
        let g = Grammar { rules, pmap };
        assert(g@ =~= v);
        Ok(g)
    }

    /// Parse a grammar text: `;`-separated productions, each validated,
    /// with pairwise-distinct vertex counts.
    pub fn new(src: &[u8]) -> (r: Result<Grammar, ParseErr>)
        ensures
            match r {
                Ok(g) => spec_grammar_new(src@) == Ok::<Seq<RuleV>, (RuleErr, Seq<u8>)>(g@)
                    && g.spec_wf(),
                Err(e) => spec_grammar_new(src@) matches Err(p) && p.0 == e.err && p.1 == e.src@,
            },
    {
        let parts = split_bytes(src, GRAMMAR_SEPA);
        let ghost pv = spec_views(parts@);
        let mut rules: Vec<Rule> = Vec::new();
        let mut i: usize = 0;
        proof {
            assert(pv.take(0) =~= Seq::<Seq<u8>>::empty());
            assert(rules@.map_values(|x: Rule| x@) =~= Seq::<RuleV>::empty());
        }
        while i < parts.len()
            invariant
                pv == spec_views(parts@),
                pv == spec_split(src@, GRAMMAR_SEPA),
                0 <= i <= parts@.len(),
                spec_parse_rules(pv.take(i as int)) == Ok::<Seq<RuleV>, (RuleErr, Seq<u8>)>(
                    rules@.map_values(|x: Rule| x@),
                ),
                forall|l: int| 0 <= l < rules@.len() ==> (#[trigger] rules@[l]).spec_wf(),
            decreases parts@.len() - i,
        {
            proof {
                assert(pv.take(i + 1).drop_last() =~= pv.take(i as int));
                assert(pv.take(i + 1).last() == parts@[i as int]@);
            }
            let ghost prev = rules@.map_values(|x: Rule| x@);
            match Rule::new(parts[i].as_slice()) {
                Ok(rule) => {
                    rules.push(rule);
                    proof {
                        assert(rules@.map_values(|x: Rule| x@) =~= prev.push(
                            rules@.last()@,
                        ));
                    }
                },
                Err(e) => {
                    proof {
                        assert(spec_parse_rules(pv.take(i + 1)) == Err::<
                            Seq<RuleV>,
                            (RuleErr, Seq<u8>),
                        >((e.err, parts@[i as int]@)));
                        lemma_parse_rules_err(pv, i + 1);
                    }
                    return Err(e);
                },
            }
            i = i + 1;
        }
        proof {
            assert(pv.take(parts@.len() as int) =~= pv);
        }
        Self::from_rules(rules)
    }

    /// The rules, in the order the text gave them.
    pub fn rules(&self) -> (r: &Vec<Rule>)
        ensures
            r@.map_values(|x: Rule| x@) == self@,
    {
        &self.rules
    }

    /// The serialized text: the rule sources joined with `;`.
    pub fn serialize(&self) -> (r: Vec<u8>)
        ensures
            r@ == spec_serialize(self@),
    {
        let ghost srcs = self@.map_values(|r: RuleV| r.src);
        let mut out: Vec<u8> = Vec::new();
        let n = self.rules.len();
        if n == 0 {
            assert(srcs =~= Seq::<Seq<u8>>::empty());
            return out;
        }
        let mut i: usize = 0;
        while i < n
            invariant
                n == self.rules@.len(),
                srcs == self@.map_values(|r: RuleV| r.src),
                0 <= i <= n,
                out@ == spec_join(srcs.take(i as int), GRAMMAR_SEPA),
            decreases n - i,
        {
            proof {
                crate::text::lemma_join_push(srcs.take(i as int), srcs[i as int], GRAMMAR_SEPA);
                assert(srcs.take(i + 1) =~= srcs.take(i as int).push(srcs[i as int]));
            }
            if i > 0 {
                out.push(GRAMMAR_SEPA);
            }
            let ghost before = out@;
            let mut j: usize = 0;
            let src_len = self.rules[i].src.len();
            while j < src_len
                invariant
                    n == self.rules@.len(),
                    srcs == self@.map_values(|r: RuleV| r.src),
                    0 <= i < n,
                    src_len == self.rules@[i as int].src@.len(),
                    0 <= j <= src_len,
                    out@ == before + srcs[i as int].take(j as int),
                decreases src_len - j,
            {
                out.push(self.rules[i].src[j]);
                proof {
                    assert(before + srcs[i as int].take(j + 1) =~= (before + srcs[i as int].take(
                        j as int,
                    )).push(srcs[i as int][j as int]));
                }
                j = j + 1;
            }
            proof {
                assert(srcs[i as int].take(src_len as int) =~= srcs[i as int]);
                if i > 0 {
                    assert(out@ =~= spec_join(srcs.take(i as int), GRAMMAR_SEPA) + seq![
                        GRAMMAR_SEPA,
                    ] + srcs[i as int]);
                } else {
                    assert(srcs.take(0) =~= Seq::<Seq<u8>>::empty());
                    assert(out@ =~= srcs[0]);
                }
            }
            i = i + 1;
        }
        proof {
            assert(srcs.take(n as int) =~= srcs);
        }
        out
    }

    /// Dispatch one polygon: the matching rule's application, or the
    /// polygon unchanged when no rule matches its vertex count.
    pub fn apply(&self, shape: &Shape) -> (r: Option<(Vec<Shape>, Option<Shape>)>)
        requires
            self.spec_wf(),
            shape.spec_wf(),
        ensures
            r is Some <==> spec_grammar_apply(self@, shape@) is Some,
            r matches Some(out) ==> ({
                let so = spec_grammar_apply(self@, shape@).unwrap();
                &&& spec_shape_views(out.0@) == so.0
                &&& (out.1 is Some <==> so.1 is Some)
                &&& (out.1 matches Some(sh) ==> so.1 == Some(sh@) && sh.spec_wf())
                &&& spec_shapes_wf(out.0@)
            }),
    {
        let n = shape.gons();
        match vm_get(&self.pmap, n) {
            Some(idx) => {
                proof {
                    lemma_find_rule_unique(self@, n as nat, vm_entries(self.pmap)[n] as int);
                }
                let rule = &self.rules[idx];
                assert(rule@ == self@[idx as int]);
                rule.apply(shape)
            },
            None => {
                proof {
                    lemma_find_rule_props(self@, n as nat, 0);
                    let fr = spec_find_rule(self@, n as nat, 0);
                    if fr is Some {
                        let k = fr.unwrap();
                        assert(self.rules@[k].gons == n);
                        assert(vm_entries(self.pmap).dom().contains(n));
                        assert(false);
                    }
                }
                let copy = shape.clone();
                let out = vec![copy];
                proof {
                    assert(spec_shape_views(out@) =~= seq![shape@]);
                }
                Some((out, None))
            },
        }
    }

    /// One generation: dispatch every polygon and concatenate the
    /// results, preserving input order.
    pub fn next(&self, state: &Vec<Shape>) -> (r: Option<(Vec<Shape>, Vec<Shape>)>)
        requires
            self.spec_wf(),
            spec_shapes_wf(state@),
        ensures
            r is Some <==> spec_next(self@, spec_shape_views(state@)) is Some,
            r matches Some(out) ==> ({
                let so = spec_next(self@, spec_shape_views(state@)).unwrap();
                &&& spec_shape_views(out.0@) == so.0
                &&& spec_shape_views(out.1@) == so.1
                &&& spec_shapes_wf(out.0@)
                &&& spec_shapes_wf(out.1@)
            }),
    {
        let ghost sv = spec_shape_views(state@);
        let mut carried: Vec<Shape> = Vec::new();
        let mut terminal: Vec<Shape> = Vec::new();
        let n = state.len();
        let mut i: usize = 0;
        while i < n
            invariant
                n == state@.len(),
                sv == spec_shape_views(state@),
                self.spec_wf(),
                spec_shapes_wf(state@),
                0 <= i <= n,
                spec_next(self@, sv.take(i as int)) == Some(
                    (spec_shape_views(carried@), spec_shape_views(terminal@)),
                ),
                spec_shapes_wf(carried@),
                spec_shapes_wf(terminal@),
            decreases n - i,
        {
            proof {
                assert(sv.take(i + 1).drop_last() =~= sv.take(i as int));
                assert(sv.take(i + 1).last() == state@[i as int]@);
            }
            let ghost prev_c = carried@;
            let ghost prev_t = terminal@;
            match self.apply(&state[i]) {
                Some(out) => {
                    let (mut c, t) = out;
                    let ghost c_views = spec_shape_views(c@);
                    carried.append(&mut c);
                    proof {
                        assert(spec_shape_views(carried@) =~= spec_shape_views(prev_c) + c_views);
                    }
                    match t {
                        Some(sh) => {
                            terminal.push(sh);
                            proof {
                                assert(spec_shape_views(terminal@) =~= spec_shape_views(
                                    prev_t,
                                ).push(terminal@.last()@));
                            }
                        },
                        None => {
                            proof {
                                assert(spec_shape_views(terminal@) + Seq::<Seq<Point>>::empty()
                                    =~= spec_shape_views(terminal@));
                            }
                        },
                    }
                },
                None => {
                    proof {
                        lemma_next_prefix_none(self@, sv, i + 1);
                    }
                    return None;
                },
            }
            i = i + 1;
        }
        proof {
            assert(sv.take(n as int) =~= sv);
        }
        Some((carried, terminal))
    }

    /// Apply the grammar `depth` times, starting from `state`. Returns the
    /// final collection and every terminal polygon, in the order they
    /// arose. Polygons diverted as terminal at any generation are not part
    /// of the final collection.
    pub fn iterate(&self, state: &Vec<Shape>, depth: u8) -> (r: Option<(Vec<Shape>, Vec<Shape>)>)
        requires
            self.spec_wf(),
            spec_shapes_wf(state@),
        ensures
            r is Some <==> spec_iterate(self@, spec_shape_views(state@), depth as nat) is Some,
            r matches Some(out) ==> ({
                let so = spec_iterate(self@, spec_shape_views(state@), depth as nat).unwrap();
                &&& spec_shape_views(out.0@) == so.0
                &&& spec_shape_views(out.1@) == so.1
                &&& spec_shapes_wf(out.0@)
                &&& spec_shapes_wf(out.1@)
            }),
    {
        let ghost sv0 = spec_shape_views(state@);
        let mut current = clone_shapes(state);
        let mut terms: Vec<Shape> = Vec::new();
        let mut d: u8 = 0;
        proof {
            assert(spec_shape_views(terms@) =~= Seq::<Seq<Point>>::empty());
            match spec_iterate(self@, spec_shape_views(current@), depth as nat) {
                Some(fin) => {
                    assert(spec_shape_views(terms@) + fin.1 =~= fin.1);
                },
                None => {},
            }
        }
        while d < depth
            invariant
                self.spec_wf(),
                sv0 == spec_shape_views(state@),
                0 <= d <= depth,
                spec_shapes_wf(current@),
                spec_shapes_wf(terms@),
                spec_iterate(self@, sv0, depth as nat) == (match spec_iterate(
                    self@,
                    spec_shape_views(current@),
                    (depth - d) as nat,
                ) {
                    Some(fin) => Some(
                        (fin.0, spec_shape_views(terms@) + fin.1),
                    ),
                    None => None::<(Seq<Seq<Point>>, Seq<Seq<Point>>)>,
                }),
            decreases depth - d,
        {
            let ghost cur_v = spec_shape_views(current@);
            let ghost rem = (depth - d) as nat;
            match self.next(&current) {
                Some(out) => {
                    let (c, mut t) = out;
                    let ghost t_views = spec_shape_views(t@);
                    let ghost prev_terms = terms@;
                    terms.append(&mut t);
                    current = c;
                    proof {
                        assert(spec_shape_views(terms@) =~= spec_shape_views(prev_terms)
                            + t_views);
                        let nx = spec_next(self@, cur_v).unwrap();
                        let it = spec_iterate(self@, spec_shape_views(current@), (rem - 1) as nat);
                        if it is Some {
                            let fin = it.unwrap();
                            assert(spec_shape_views(prev_terms) + (nx.1 + fin.1) =~= (
                            spec_shape_views(prev_terms) + nx.1) + fin.1);
                        }
                    }
                },
                None => {
                    return None;
                },
            }
            d = d + 1;
        }
        proof {
            let cv = spec_shape_views(current@);
            assert(spec_iterate(self@, cv, 0) == Some((cv, Seq::<Seq<Point>>::empty())));
            assert(spec_shape_views(terms@) + Seq::<Seq<Point>>::empty() =~= spec_shape_views(
                terms@,
            ));
        }
        Some((current, terms))
    }
}

/// An error among the first `i` parts rejects the whole text.
proof fn lemma_parse_rules_err(parts: Seq<Seq<u8>>, i: int)
    requires
        0 <= i <= parts.len(),
        spec_parse_rules(parts.take(i)) is Err,
    ensures
        spec_parse_rules(parts) is Err && spec_parse_rules(parts) == spec_parse_rules(
            parts.take(i),
        ),
    decreases parts.len() - i,
{
    if i == parts.len() {
        assert(parts.take(i) =~= parts);
    } else {
        assert(parts.take(i + 1).drop_last() =~= parts.take(i));
        lemma_parse_rules_err(parts, i + 1);
    }
}

/// A copy of a shape collection.
fn clone_shapes(v: &Vec<Shape>) -> (r: Vec<Shape>)
    ensures
        spec_shape_views(r@) == spec_shape_views(v@),
        spec_shapes_wf(v@) ==> spec_shapes_wf(r@),
{
    let mut r: Vec<Shape> = Vec::new();
    let mut i: usize = 0;
    while i < v.len()
        invariant
            0 <= i <= v@.len(),
            r@.len() == i,
            forall|j: int| 0 <= j < i ==> (#[trigger] r@[j])@ == v@[j]@,
        decreases v@.len() - i,
    {
        r.push(v[i].clone());
        i = i + 1;
    }
    proof {
        assert(spec_shape_views(r@) =~= spec_shape_views(v@));
        if spec_shapes_wf(v@) {
            assert forall|j: int| 0 <= j < r@.len() implies (#[trigger] r@[j]).spec_wf() by {
                assert(v@[j].spec_wf());
            }
        }
    }
    r
}

} // verus!
