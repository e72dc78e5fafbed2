//! Binary floating-point numbers as their three fields, and their order.
//!
//! The model of a number is its magnitude counted in units of the smallest
//! positive number of its format. Every finite number is a whole count of
//! such units, so the model needs no fractions.

use crate::rounding::round_significant;
use vstd::arithmetic::power2::{
    lemma2_to64, lemma2_to64_rest, lemma_pow2_adds, lemma_pow2_pos,
    lemma_pow2_strictly_increases, lemma_pow2_unfold, pow2,
};
use vstd::prelude::*;

verus! {

/// One of the two interchange formats.
#[derive(Clone, Copy, PartialEq, Eq, Debug)]
pub enum Format {
    /// Single precision: 8 bits of exponent, 23 bits of fraction.
    Binary32,
    /// Double precision: 11 bits of exponent, 52 bits of fraction.
    Binary64,
}

impl Format {
    /// The width of the fraction field.
    pub open spec fn fraction_bits(self) -> nat {
        match self {
            Format::Binary32 => 23,
            Format::Binary64 => 52,
        }
    }

    /// The exponent field of the infinities and of what is not a number.
    pub open spec fn max_exponent(self) -> nat {
        match self {
            Format::Binary32 => 255,
            Format::Binary64 => 2047,
        }
    }

    /// The exponent field of the numbers from 1 up to 2.
    pub open spec fn bias(self) -> nat {
        match self {
            Format::Binary32 => 127,
            Format::Binary64 => 1023,
        }
    }

    /// The number of significant bits.
    pub open spec fn precision(self) -> nat {
        self.fraction_bits() + 1
    }

    /// The bit that stands in front of the fraction of a normal number.
    pub open spec fn hidden_bit(self) -> nat {
        pow2(self.fraction_bits())
    }

    /// The magnitude of the number 1.
    pub open spec fn one(self) -> nat {
        pow2(self.fraction_bits()) * pow2((self.bias() - 1) as nat)
    }

    /// The fields of the number 1000.
    pub open spec fn thousand(self) -> Parts {
        match self {
            Format::Binary32 => Parts { negative: false, exponent: 136, fraction: 0x7A_0000 },
            Format::Binary64 => Parts {
                negative: false,
                exponent: 1032,
                fraction: 0xF_4000_0000_0000,
            },
        }
    }

    /// The fields of the number 1024.
    pub open spec fn thousand_twenty_four(self) -> Parts {
        match self {
            Format::Binary32 => Parts { negative: false, exponent: 137, fraction: 0 },
            Format::Binary64 => Parts { negative: false, exponent: 1033, fraction: 0 },
        }
    }

    /// The fields of 1000 for the divisor 1000, those of 1024 for any other.
    pub open spec fn base(self, divisor: nat) -> Parts {
        if divisor == 1000 {
            self.thousand()
        } else {
            self.thousand_twenty_four()
        }
    }

    /// The hidden bit as a number.
    pub fn hidden(self) -> (h: u64)
        ensures
            h == self.hidden_bit(),
    {
        proof {
            lemma2_to64();
            lemma2_to64_rest();
        }
        match self {
            Format::Binary32 => 0x80_0000,
            Format::Binary64 => 0x10_0000_0000_0000,
        }
    }

    /// The exponent field of the infinities and of what is not a number.
    pub fn top_exponent(self) -> (e: u32)
        ensures
            e == self.max_exponent(),
    {
        match self {
            Format::Binary32 => 255,
            Format::Binary64 => 2047,
        }
    }
}

/// The fields of a binary floating-point number.
#[derive(Clone, Copy, PartialEq, Eq, Debug)]
pub struct Parts {
    /// The sign bit.
    pub negative: bool,
    /// The exponent field, as stored.
    pub exponent: u32,
    /// The fraction field.
    pub fraction: u64,
}

impl Parts {
    /// Whether the fields fit the format.
    pub open spec fn valid(self, fmt: Format) -> bool {
        self.exponent <= fmt.max_exponent() && self.fraction < fmt.hidden_bit()
    }

    /// Whether these are the fields of something that is not a number.
    pub open spec fn is_nan(self, fmt: Format) -> bool {
        self.exponent == fmt.max_exponent() && self.fraction != 0
    }

    /// Whether these are the fields of an infinity.
    pub open spec fn is_infinite(self, fmt: Format) -> bool {
        self.exponent == fmt.max_exponent() && self.fraction == 0
    }

    /// Whether these are the fields of a finite number.
    pub open spec fn is_finite(self, fmt: Format) -> bool {
        self.exponent < fmt.max_exponent()
    }

    /// The magnitude of a finite number, in units of the smallest positive
    /// number of the format. For an infinity this is a count beyond that of
    /// every finite number.
    pub open spec fn magnitude(self, fmt: Format) -> nat {
        if self.exponent == 0 {
            self.fraction as nat
        } else {
            ((fmt.hidden_bit() + self.fraction) * pow2((self.exponent - 1) as nat)) as nat
        }
    }

    /// The magnitude with the sign.
    pub open spec fn signed(self, fmt: Format) -> int {
        if self.negative {
            -(self.magnitude(fmt) as int)
        } else {
            self.magnitude(fmt) as int
        }
    }

    /// Whether this number is greater than or equal to `other`. Nothing
    /// compares with what is not a number, and the two zeros are equal.
    pub open spec fn at_least_spec(self, other: Parts, fmt: Format) -> bool {
        !self.is_nan(fmt) && !other.is_nan(fmt) && self.signed(fmt) >= other.signed(fmt)
    }

    /// The finite number with the given sign and magnitude, where the format
    /// has one.
    pub open spec fn finite(negative: bool, magnitude: nat, fmt: Format) -> Parts {
        choose|p: Parts|
            p.valid(fmt) && p.is_finite(fmt) && p.negative == negative && p.magnitude(fmt)
                == magnitude
    }

    /// The quotient of this number by `rhs`, rounded to the nearest number of
    /// the format, to the one with the even fraction in case of a tie. This
    /// is the quotient of two finite numbers, the divisor not zero, where the
    /// format has the rounded quotient; and that of an infinity by a finite
    /// number.
    pub open spec fn quotient(self, rhs: Parts, fmt: Format) -> Parts {
        let negative = self.negative != rhs.negative;
        if self.is_infinite(fmt) {
            Parts { negative, exponent: self.exponent, fraction: self.fraction }
        } else {
            Parts::finite(
                negative,
                round_significant(
                    self.magnitude(fmt) * fmt.one(),
                    rhs.magnitude(fmt),
                    fmt.precision(),
                ),
                fmt,
            )
        }
    }
}

/// Of two numbers, the one with the smaller exponent field, or with the same
/// exponent field and the smaller fraction, has the smaller magnitude.
pub proof fn lemma_magnitude_increases(a: Parts, b: Parts, fmt: Format)
    requires
        a.valid(fmt),
        b.valid(fmt),
        a.exponent < b.exponent || (a.exponent == b.exponent && a.fraction < b.fraction),
    ensures
        a.magnitude(fmt) < b.magnitude(fmt),
{
    let h = fmt.hidden_bit();
    lemma_pow2_pos(fmt.fraction_bits());
    if a.exponent == b.exponent {
        if a.exponent > 0 {
            let s = pow2((a.exponent - 1) as nat);
            lemma_pow2_pos((a.exponent - 1) as nat);
            assert((h + a.fraction) * s < (h + b.fraction) * s) by (nonlinear_arith)
                requires
                    a.fraction < b.fraction,
                    s > 0,
            ;
        }
    } else {
        let sb = pow2((b.exponent - 1) as nat);
        lemma_pow2_pos((b.exponent - 1) as nat);
        assert(h * sb <= (h + b.fraction) * sb) by (nonlinear_arith)
            requires
                sb > 0,
                h > 0,
        ;
        if a.exponent == 0 {
            assert(h <= h * sb) by (nonlinear_arith)
                requires
                    sb > 0,
                    h > 0,
            ;
        } else {
            let sa = pow2((a.exponent - 1) as nat);
            lemma_pow2_pos((a.exponent - 1) as nat);
            assert((h + a.fraction) * sa < (2 * h) * sa) by (nonlinear_arith)
                requires
                    a.fraction < h,
                    sa > 0,
            ;
            lemma_pow2_unfold(a.exponent as nat);
            assert((2 * h) * sa == h * (2 * sa)) by (nonlinear_arith);
            if a.exponent < b.exponent - 1 {
                lemma_pow2_strictly_increases(a.exponent as nat, (b.exponent - 1) as nat);
            }
            assert(h * pow2(a.exponent as nat) <= h * sb) by (nonlinear_arith)
                requires
                    pow2(a.exponent as nat) <= sb,
                    h > 0,
            ;
        }
    }
}

/// Two numbers of the same sign and magnitude have the same fields.
pub proof fn lemma_magnitude_unique(p: Parts, q: Parts, fmt: Format)
    requires
        p.valid(fmt),
        q.valid(fmt),
        p.negative == q.negative,
        p.magnitude(fmt) == q.magnitude(fmt),
    ensures
        p == q,
{
    if p.exponent < q.exponent || (p.exponent == q.exponent && p.fraction < q.fraction) {
        lemma_magnitude_increases(p, q, fmt);
    }
    if q.exponent < p.exponent || (q.exponent == p.exponent && q.fraction < p.fraction) {
        lemma_magnitude_increases(q, p, fmt);
    }
}

/// The magnitude of 1 is positive, and a number has at least that magnitude
/// if and only if its exponent field is at least the bias.
pub proof fn lemma_magnitude_of_one(a: Parts, fmt: Format)
    requires
        a.valid(fmt),
    ensures
        fmt.one() > 0,
        fmt.one() >= pow2((fmt.precision() - 1) as nat),
        a.magnitude(fmt) >= fmt.one() <==> a.exponent >= fmt.bias(),
{
    let h = fmt.hidden_bit();
    let x = pow2((fmt.bias() - 1) as nat);
    lemma_pow2_pos(fmt.fraction_bits());
    lemma_pow2_pos((fmt.bias() - 1) as nat);
    assert(h * x >= h) by (nonlinear_arith)
        requires
            h > 0,
            x > 0,
    ;
    let one = Parts { negative: false, exponent: fmt.bias() as u32, fraction: 0 };
    assert(one.magnitude(fmt) == fmt.one());
    if a.exponent < fmt.bias() {
        lemma_magnitude_increases(a, one, fmt);
    } else if a.exponent > fmt.bias() || a.fraction > 0 {
        lemma_magnitude_increases(one, a, fmt);
    }
}

/// The magnitude of 1000 is a thousand times that of 1, and the magnitude of
/// 1024 is 1024 times that of 1.
pub proof fn lemma_magnitude_of_bases(fmt: Format)
    ensures
        fmt.thousand().valid(fmt),
        fmt.thousand_twenty_four().valid(fmt),
        fmt.thousand().magnitude(fmt) == 1000 * fmt.one(),
        fmt.thousand_twenty_four().magnitude(fmt) == 1024 * fmt.one(),
{
    lemma2_to64();
    lemma2_to64_rest();
    let b = (fmt.bias() - 1) as nat;
    let x = pow2(b);
    lemma_pow2_adds(9, b);
    lemma_pow2_adds(10, b);
    let h = fmt.hidden_bit();
    let k = fmt.thousand();
    assert(h + k.fraction == 1000 * (h / 512));
    assert((k.exponent - 1) as nat == 9 + b);
    assert((1000 * (h / 512)) * (512 * x) == 1000 * (h * x)) by (nonlinear_arith)
        requires
            h == 512 * (h / 512),
    ;
    let m = fmt.thousand_twenty_four();
    assert((m.exponent - 1) as nat == 10 + b);
    assert(h * (1024 * x) == 1024 * (h * x)) by (nonlinear_arith);
}

/// Whether `a` is greater than or equal to `b`.
pub fn at_least(a: Parts, b: Parts, fmt: Format) -> (r: bool)
    requires
        a.valid(fmt),
        b.valid(fmt),
    ensures
        r == a.at_least_spec(b, fmt),
{
    let top = fmt.top_exponent();
    if (a.exponent == top && a.fraction != 0) || (b.exponent == top && b.fraction != 0) {
        return false;
    }
    let above = a.exponent > b.exponent || (a.exponent == b.exponent && a.fraction > b.fraction);
    let below = a.exponent < b.exponent || (a.exponent == b.exponent && a.fraction < b.fraction);
    proof {
        if above {
            lemma_magnitude_increases(b, a, fmt);
        }
        if below {
            lemma_magnitude_increases(a, b, fmt);
        }
        let zero = Parts { negative: false, exponent: 0, fraction: 0 };
        lemma_pow2_pos(fmt.fraction_bits());
        if a.exponent != 0 || a.fraction != 0 {
            lemma_magnitude_increases(zero, a, fmt);
        }
        if b.exponent != 0 || b.fraction != 0 {
            lemma_magnitude_increases(zero, b, fmt);
        }
    }
    if a.negative {
        if b.negative {
            !above
        } else {
            // a number with the sign bit reaches one without it only where
            // both are zero
            a.exponent == 0 && a.fraction == 0 && b.exponent == 0 && b.fraction == 0
        }
    } else {
        if b.negative {
            true
        } else {
            !below
        }
    }
}

} // verus!
