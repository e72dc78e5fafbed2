//! What the scaling algorithm asks of a numeric type.

use vstd::prelude::*;

verus! {

/// A numeric type that amounts can be given in: it has the constants 1000 and
/// 1024, a test for the sign, negation, the comparison `>=` and division by
/// one of the two constants.
///
/// Each operation has a specification function that says what it computes,
/// and the scaling algorithm is specified over those functions alone.
pub trait Amounts: Copy + Sized {
    /// The constant representing 1000, for decimal prefixes.
    spec fn num_1000_spec() -> Self;

    /// The constant representing 1024, for binary prefixes.
    spec fn num_1024_spec() -> Self;

    /// Whether the sign of this number is negative. A zero with a negative
    /// sign counts as negative.
    spec fn is_negative_spec(self) -> bool;

    /// This number with the opposite sign.
    spec fn neg_spec(self) -> Self;

    /// Whether this number is greater than or equal to `other`.
    spec fn ge_spec(self, other: Self) -> bool;

    /// This number divided by `rhs`.
    spec fn div_spec(self, rhs: Self) -> Self;

    /// Negation flips the sign, and doing it twice gives the number back.
    proof fn lemma_neg_flips_sign(a: Self)
        ensures
            a.neg_spec().is_negative_spec() == !a.is_negative_spec(),
            a.neg_spec().neg_spec() == a,
    ;

    /// The constant representing 1000, for decimal prefixes.
    fn num_1000() -> (k: Self)
        ensures
            k == Self::num_1000_spec(),
    ;

    /// The constant representing 1024, for binary prefixes.
    fn num_1024() -> (k: Self)
        ensures
            k == Self::num_1024_spec(),
    ;

    /// Whether this number is negative.
    fn is_negative(self) -> (b: bool)
        ensures
            b == self.is_negative_spec(),
    ;

    /// This number with the opposite sign.
    fn neg(self) -> (r: Self)
        ensures
            r == self.neg_spec(),
    ;

    /// Whether this number is greater than or equal to `other`.
    fn ge(self, other: Self) -> (b: bool)
        ensures
            b == self.ge_spec(other),
    ;

    /// This number divided by `rhs`, which is one of the two constants and
    /// not greater than this number.
    fn div(self, rhs: Self) -> (q: Self)
        requires
            rhs == Self::num_1000_spec() || rhs == Self::num_1024_spec(),
            self.ge_spec(rhs),
        ensures
            q == self.div_spec(rhs),
    ;
}

} // verus!
