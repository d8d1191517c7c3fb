//! The symbol alphabet of the grammar.
//!
//! A production is a sequence of bytes: uppercase letters stand for the
//! vertices of the matched polygon, lowercase letters for derived points
//! introduced between them, `.` for the centroid, `,` separates the
//! right-hand-side sequences and `>` separates the two sides.

use vstd::prelude::*;

verus! {

/// ASCII `A`.
pub const UPPER_A: u8 = 65;

/// ASCII `Z`.
pub const UPPER_Z: u8 = 90;

/// ASCII `a`.
pub const LOWER_A: u8 = 97;

/// ASCII `z`.
pub const LOWER_Z: u8 = 122;

/// ASCII `.`, the centroid symbol.
pub const CENTER: u8 = 46;

/// ASCII `,`, the separator between right-hand-side sequences.
pub const RHS_SEPA: u8 = 44;

/// ASCII `>`, the separator between the two sides of a production.
pub const RULE_SEPA: u8 = 62;

/// ASCII `;`, the separator between the rules of a grammar.
pub const GRAMMAR_SEPA: u8 = 59;

/// An uppercase letter: a vertex of the matched polygon.
pub open spec fn spec_is_vertex(c: u8) -> bool {
    UPPER_A <= c <= UPPER_Z
}

/// A lowercase letter: a derived (subdivision) point.
pub open spec fn spec_is_mid(c: u8) -> bool {
    LOWER_A <= c <= LOWER_Z
}

/// The centroid symbol.
pub open spec fn spec_is_center(c: u8) -> bool {
    c == CENTER
}

/// The separator between right-hand-side sequences.
pub open spec fn spec_is_rhs_sepa(c: u8) -> bool {
    c == RHS_SEPA
}

/// The separator between the two sides of a production.
pub open spec fn spec_is_rule_sepa(c: u8) -> bool {
    c == RULE_SEPA
}

/// A byte of the legal alphabet.
pub open spec fn spec_is_legal(c: u8) -> bool {
    ||| spec_is_vertex(c)
    ||| spec_is_mid(c)
    ||| spec_is_center(c)
    ||| spec_is_rhs_sepa(c)
    ||| spec_is_rule_sepa(c)
}

pub fn is_vertex(c: u8) -> (r: bool)
    ensures
        r == spec_is_vertex(c),
{
    UPPER_A <= c && c <= UPPER_Z
}

pub fn is_mid(c: u8) -> (r: bool)
    ensures
        r == spec_is_mid(c),
{
    LOWER_A <= c && c <= LOWER_Z
}

pub fn is_center(c: u8) -> (r: bool)
    ensures
        r == spec_is_center(c),
{
    c == CENTER
}

pub fn is_rhs_sepa(c: u8) -> (r: bool)
    ensures
        r == spec_is_rhs_sepa(c),
{
    c == RHS_SEPA
}

pub fn is_rule_sepa(c: u8) -> (r: bool)
    ensures
        r == spec_is_rule_sepa(c),
{
    c == RULE_SEPA
}

pub fn is_legal(c: u8) -> (r: bool)
    ensures
        r == spec_is_legal(c),
{
    is_vertex(c) || is_mid(c) || is_center(c) || is_rhs_sepa(c) || is_rule_sepa(c)
}

} // verus!
