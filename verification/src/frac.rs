//! Exact fractional scalars.
//!
//! Coordinates are fractions of machine integers. Midpoints, subdivision
//! points and centroids are means and affine interpolations, so every
//! coordinate this library ever produces is rational in the input
//! coordinates; keeping them as fractions makes the geometry exact. Results
//! are not reduced; each operation checks that its products and sums fit in
//! `i64` and reports failure with `None` otherwise.

use vstd::prelude::*;

verus! {

/// A fraction `num / den`. A well-formed fraction has `den >= 1`; value
/// equality is cross-multiplication, not field equality.
#[derive(Clone, Copy, Debug, PartialEq, Eq, Structural)]
pub struct Frac {
    pub num: i64,
    pub den: i64,
}

impl Frac {
    /// The invariant of a fraction: a positive denominator.
    pub open spec fn spec_wf(self) -> bool {
        self.den >= 1
    }

    /// The integer `n`, as a fraction.
    pub fn from_int(n: i64) -> (r: Frac)
        ensures
            r == (Frac { num: n, den: 1i64 }),
            r.spec_wf(),
    {
        Frac { num: n, den: 1 }
    }

    /// A fraction from a numerator and a denominator.
    pub fn new(num: i64, den: i64) -> (r: Frac)
        requires
            den >= 1,
        ensures
            r == (Frac { num, den }),
            r.spec_wf(),
    {
        Frac { num, den }
    }

    /// Whether two fractions denote the same rational number.
    pub open spec fn spec_same_value(self, other: Frac) -> bool {
        self.num * other.den == other.num * self.den
    }

    /// Whether two fractions denote the same rational number.
    pub fn same_value(&self, other: &Frac) -> (r: bool)
        ensures
            r == self.spec_same_value(*other),
    {
        proof {
            lemma_i64_product_fits_i128(self.num as int, other.den as int);
            lemma_i64_product_fits_i128(other.num as int, self.den as int);
        }
        let l: i128 = (self.num as i128) * (other.den as i128);
        let q: i128 = (other.num as i128) * (self.den as i128);
        l == q
    }
}

/// The product of two `i64` values fits in an `i128`.
pub proof fn lemma_i64_product_fits_i128(a: int, b: int)
    requires
        i64::MIN <= a <= i64::MAX,
        i64::MIN <= b <= i64::MAX,
    ensures
        i128::MIN <= a * b <= i128::MAX,
{
    assert(i128::MIN <= a * b <= i128::MAX) by (nonlinear_arith)
        requires
            i64::MIN <= a <= i64::MAX,
            i64::MIN <= b <= i64::MAX;
}

/// The sum of two well-formed fractions, when every intermediate value
/// fits in `i64`.
pub open spec fn spec_frac_add(a: Frac, b: Frac) -> Option<Frac> {
    match (a.num.checked_mul(b.den), b.num.checked_mul(a.den), a.den.checked_mul(b.den)) {
        (Some(n1), Some(n2), Some(den)) => match n1.checked_add(n2) {
            Some(num) => Some(Frac { num, den }),
            _ => None,
        },
        _ => None,
    }
}

/// The difference of two well-formed fractions, when every intermediate
/// value fits in `i64`.
pub open spec fn spec_frac_sub(a: Frac, b: Frac) -> Option<Frac> {
    match (a.num.checked_mul(b.den), b.num.checked_mul(a.den), a.den.checked_mul(b.den)) {
        (Some(n1), Some(n2), Some(den)) => match n1.checked_sub(n2) {
            Some(num) => Some(Frac { num, den }),
            _ => None,
        },
        _ => None,
    }
}

/// A fraction multiplied by the ratio `of / n`, when every intermediate
/// value fits in `i64`.
pub open spec fn spec_frac_scale(a: Frac, of: i64, n: i64) -> Option<Frac> {
    match (a.num.checked_mul(of), a.den.checked_mul(n)) {
        (Some(num), Some(den)) => Some(Frac { num, den }),
        _ => None,
    }
}

/// The arithmetic mean of two well-formed fractions, when every
/// intermediate value fits in `i64`.
pub open spec fn spec_frac_mid(a: Frac, b: Frac) -> Option<Frac> {
    match spec_frac_add(a, b) {
        Some(s) => match s.den.checked_mul(2) {
            Some(den) => Some(Frac { num: s.num, den }),
            _ => None,
        },
        _ => None,
    }
}

/// Well-formedness carries through the checked operations: their
/// denominators are products of positive factors.
pub proof fn lemma_pos_product(a: int, b: int)
    requires
        a >= 1,
        b >= 1,
    ensures
        a * b >= 1,
{
    assert(a * b >= 1) by (nonlinear_arith)
        requires
            a >= 1,
            b >= 1;
}

pub fn frac_add(a: &Frac, b: &Frac) -> (r: Option<Frac>)
    requires
        a.spec_wf(),
        b.spec_wf(),
    ensures
        r == spec_frac_add(*a, *b),
        r matches Some(f) ==> f.spec_wf(),
{
    match (a.num.checked_mul(b.den), b.num.checked_mul(a.den), a.den.checked_mul(b.den)) {
        (Some(n1), Some(n2), Some(den)) => match n1.checked_add(n2) {
            Some(num) => {
                proof {
                    lemma_pos_product(a.den as int, b.den as int);
                }
                Some(Frac { num, den })
            },
            _ => None,
        },
        _ => None,
    }
}

pub fn frac_sub(a: &Frac, b: &Frac) -> (r: Option<Frac>)
    requires
        a.spec_wf(),
        b.spec_wf(),
    ensures
        r == spec_frac_sub(*a, *b),
        r matches Some(f) ==> f.spec_wf(),
{
    match (a.num.checked_mul(b.den), b.num.checked_mul(a.den), a.den.checked_mul(b.den)) {
        (Some(n1), Some(n2), Some(den)) => match n1.checked_sub(n2) {
            Some(num) => {
                proof {
                    lemma_pos_product(a.den as int, b.den as int);
                }
                Some(Frac { num, den })
            },
            _ => None,
        },
        _ => None,
    }
}

pub fn frac_scale(a: &Frac, of: i64, n: i64) -> (r: Option<Frac>)
    requires
        a.spec_wf(),
        n >= 1,
    ensures
        r == spec_frac_scale(*a, of, n),
        r matches Some(f) ==> f.spec_wf(),
{
    match (a.num.checked_mul(of), a.den.checked_mul(n)) {
        (Some(num), Some(den)) => {
            proof {
                lemma_pos_product(a.den as int, n as int);
            }
            Some(Frac { num, den })
        },
        _ => None,
    }
}

pub fn frac_mid(a: &Frac, b: &Frac) -> (r: Option<Frac>)
    requires
        a.spec_wf(),
        b.spec_wf(),
    ensures
        r == spec_frac_mid(*a, *b),
        r matches Some(f) ==> f.spec_wf(),
{
    match frac_add(a, b) {
        Some(s) => match s.den.checked_mul(2) {
            Some(den) => Some(Frac { num: s.num, den }),
            _ => None,
        },
        _ => None,
    }
}

} // verus!
