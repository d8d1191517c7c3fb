//! Splitting and joining byte sequences on a separator byte.
//!
//! A production splits on `>` and its right-hand side on `,`; a grammar
//! splits on `;` and serializes by joining the rule sources with `;` again.

use vstd::prelude::*;

verus! {

/// The parts of `s` between occurrences of `sep`. Splitting the empty
/// sequence gives one empty part; every separator starts a new part.
pub open spec fn spec_split(s: Seq<u8>, sep: u8) -> Seq<Seq<u8>>
    decreases s.len(),
{
    if s.len() == 0 {
        seq![Seq::<u8>::empty()]
    } else {
        let rest = spec_split(s.skip(1), sep);
        if s[0] == sep {
            seq![Seq::<u8>::empty()] + rest
        } else {
            seq![seq![s[0]] + rest[0]] + rest.skip(1)
        }
    }
}

/// The parts joined back, with `sep` between adjacent parts.
pub open spec fn spec_join(ps: Seq<Seq<u8>>, sep: u8) -> Seq<u8>
    decreases ps.len(),
{
    if ps.len() == 0 {
        Seq::<u8>::empty()
    } else if ps.len() == 1 {
        ps[0]
    } else {
        ps[0] + seq![sep] + spec_join(ps.skip(1), sep)
    }
}

/// A split has at least one part.
pub proof fn lemma_split_len(s: Seq<u8>, sep: u8)
    ensures
        spec_split(s, sep).len() >= 1,
    decreases s.len(),
{
    if s.len() > 0 {
        lemma_split_len(s.skip(1), sep);
    }
}

/// Appending one byte extends the last part, or opens a fresh one when the
/// byte is the separator.
pub proof fn lemma_split_push(s: Seq<u8>, sep: u8, c: u8)
    ensures
        c == sep ==> spec_split(s.push(c), sep) == spec_split(s, sep).push(Seq::<u8>::empty()),
        c != sep ==> spec_split(s.push(c), sep) == spec_split(s, sep).update(
            spec_split(s, sep).len() - 1,
            spec_split(s, sep).last().push(c),
        ),
    decreases s.len(),
{
    reveal_with_fuel(spec_split, 3);
    lemma_split_len(s, sep);
    if s.len() == 0 {
        assert(s.push(c).skip(1) =~= Seq::<u8>::empty());
        assert(spec_split(Seq::<u8>::empty(), sep) == seq![Seq::<u8>::empty()]);
        if c == sep {
            assert(spec_split(s.push(c), sep) =~~= spec_split(s, sep).push(Seq::<u8>::empty()));
        } else {
            assert(spec_split(s.push(c), sep) =~~= spec_split(s, sep).update(
                spec_split(s, sep).len() - 1,
                spec_split(s, sep).last().push(c),
            ));
        }
    } else {
        let sp = s.push(c);
        assert(sp[0] == s[0]);
        assert(sp.skip(1) =~= s.skip(1).push(c));
        lemma_split_push(s.skip(1), sep, c);
        lemma_split_len(s.skip(1), sep);
        let rest = spec_split(s.skip(1), sep);
        if c == sep {
            assert(spec_split(sp, sep) =~~= spec_split(s, sep).push(Seq::<u8>::empty()));
        } else {
            assert(spec_split(sp, sep) =~~= spec_split(s, sep).update(
                spec_split(s, sep).len() - 1,
                spec_split(s, sep).last().push(c),
            ));
        }
    }
}

/// A sequence without the separator splits into itself alone.
pub proof fn lemma_split_whole(a: Seq<u8>, sep: u8)
    requires
        !a.contains(sep),
    ensures
        spec_split(a, sep) == seq![a],
    decreases a.len(),
{
    if a.len() == 0 {
        assert(spec_split(a, sep) =~~= seq![a]);
    } else {
        assert(a[0] != sep) by {
            if a[0] == sep {
                assert(a.contains(sep));
            }
        }
        assert(!a.skip(1).contains(sep)) by {
            if a.skip(1).contains(sep) {
                let i = choose|i: int| 0 <= i < a.skip(1).len() && a.skip(1)[i] == sep;
                assert(a[i + 1] == sep);
                assert(a.contains(sep));
            }
        }
        lemma_split_whole(a.skip(1), sep);
        assert(spec_split(a, sep) =~~= seq![a]);
    }
}

/// A separator after a separator-free prefix cuts exactly there.
pub proof fn lemma_split_prefix(a: Seq<u8>, t: Seq<u8>, sep: u8)
    requires
        !a.contains(sep),
    ensures
        spec_split(a + seq![sep] + t, sep) == seq![a] + spec_split(t, sep),
    decreases a.len(),
{
    let s = a + seq![sep] + t;
    if a.len() == 0 {
        assert(s[0] == sep);
        assert(s.skip(1) =~= t);
        assert(spec_split(s, sep) =~~= seq![a] + spec_split(t, sep));
    } else {
        assert(s[0] == a[0]);
        assert(a[0] != sep) by {
            if a[0] == sep {
                assert(a.contains(sep));
            }
        }
        assert(!a.skip(1).contains(sep)) by {
            if a.skip(1).contains(sep) {
                let i = choose|i: int| 0 <= i < a.skip(1).len() && a.skip(1)[i] == sep;
                assert(a[i + 1] == sep);
                assert(a.contains(sep));
            }
        }
        assert(s.skip(1) =~= a.skip(1) + seq![sep] + t);
        lemma_split_prefix(a.skip(1), t, sep);
        lemma_split_len(t, sep);
        assert(spec_split(s, sep) =~~= seq![a] + spec_split(t, sep));
    }
}

/// Splitting undoes joining, for separator-free parts.
pub proof fn lemma_split_join(ps: Seq<Seq<u8>>, sep: u8)
    requires
        ps.len() >= 1,
        forall|i: int| 0 <= i < ps.len() ==> !#[trigger] ps[i].contains(sep),
    ensures
        spec_split(spec_join(ps, sep), sep) == ps,
    decreases ps.len(),
{
    if ps.len() == 1 {
        lemma_split_whole(ps[0], sep);
        assert(spec_split(spec_join(ps, sep), sep) =~~= ps);
    } else {
        lemma_split_join(ps.skip(1), sep);
        lemma_split_prefix(ps[0], spec_join(ps.skip(1), sep), sep);
        assert(spec_split(spec_join(ps, sep), sep) =~~= ps);
    }
}

/// The views of a vector of byte vectors.
pub open spec fn spec_views(v: Seq<Vec<u8>>) -> Seq<Seq<u8>> {
    v.map_values(|x: Vec<u8>| x@)
}

/// `s` split on `sep`.
pub fn split_bytes(s: &[u8], sep: u8) -> (r: Vec<Vec<u8>>)
    ensures
        spec_views(r@) == spec_split(s@, sep),
        r@.len() >= 1,
{
    let mut done: Vec<Vec<u8>> = Vec::new();
    let mut cur: Vec<u8> = Vec::new();
    let mut i: usize = 0;
    while i < s.len()
        invariant
            0 <= i <= s@.len(),
            spec_split(s@.take(i as int), sep) == spec_views(done@).push(cur@),
        decreases s@.len() - i,
    {
        let c = s[i];
        proof {
            lemma_split_push(s@.take(i as int), sep, s@[i as int]);
            assert(s@.take(i + 1) =~= s@.take(i as int).push(s@[i as int]));
        }
        if c == sep {
            let ghost prev_done = done@;
            done.push(cur);
            cur = Vec::new();
            proof {
                assert(spec_views(done@) =~= spec_views(prev_done).push(done@.last()@));
                assert(spec_split(s@.take(i + 1), sep) =~= spec_views(done@).push(cur@));
            }
        } else {
            let ghost prev_cur = cur@;
            cur.push(c);
            proof {
                assert(spec_views(done@).push(prev_cur).update(
                    spec_views(done@).push(prev_cur).len() - 1,
                    prev_cur.push(c),
                ) =~= spec_views(done@).push(cur@));
            }
        }
        i = i + 1;
    }
    proof {
        assert(s@.take(i as int) =~= s@);
    }
    let ghost prev_done = done@;
    done.push(cur);
    proof {
        assert(spec_views(done@) =~= spec_views(prev_done).push(done@.last()@));
    }
    done
}

/// Joining grows by a separator and the new part.
pub proof fn lemma_join_push(ps: Seq<Seq<u8>>, p: Seq<u8>, sep: u8)
    ensures
        ps.len() == 0 ==> spec_join(ps.push(p), sep) == p,
        ps.len() >= 1 ==> spec_join(ps.push(p), sep) == spec_join(ps, sep) + seq![sep] + p,
    decreases ps.len(),
{
    if ps.len() == 0 {
        assert(ps.push(p)[0] =~= p);
    } else if ps.len() == 1 {
        assert(ps.push(p).skip(1) =~= seq![p]);
        assert(spec_join(seq![p], sep) == p);
        assert(spec_join(ps.push(p), sep) =~= ps[0] + seq![sep] + p);
    } else {
        lemma_join_push(ps.skip(1), p, sep);
        assert(ps.push(p).skip(1) =~= ps.skip(1).push(p));
        assert(spec_join(ps.push(p), sep) =~= spec_join(ps, sep) + seq![sep] + p);
    }
}

} // verus!
