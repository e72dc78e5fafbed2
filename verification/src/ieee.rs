//! Amounts held as the bit patterns of binary floating-point numbers.

use crate::amounts::Amounts;
use crate::division::divide;
use crate::parts::{at_least, lemma_magnitude_of_bases, lemma_magnitude_of_one, Format, Parts};
use vstd::prelude::*;

verus! {

/// A type whose values are the bit patterns of one binary floating-point
/// format. Such a type is an amount: see the impl of `Amounts` below.
pub trait Ieee: Copy + Sized {
    /// The format of the bit patterns.
    spec fn format() -> Format;

    /// The three fields of this bit pattern.
    spec fn parts(self) -> Parts;

    /// The bit pattern with the given fields.
    spec fn of_parts(p: Parts) -> Self;

    /// The fields of a bit pattern fit the format and give the pattern back.
    proof fn lemma_parts(x: Self)
        ensures
            x.parts().valid(Self::format()),
            Self::of_parts(x.parts()) == x,
    ;

    /// Fields that fit the format are the fields of their bit pattern.
    proof fn lemma_of_parts(p: Parts)
        requires
            p.valid(Self::format()),
        ensures
            Self::of_parts(p).parts() == p,
    ;

    /// The format of the bit patterns.
    fn layout() -> (fmt: Format)
        ensures
            fmt == Self::format(),
    ;

    /// Takes the bit pattern apart.
    fn unpack(self) -> (p: Parts)
        ensures
            p == self.parts(),
    ;

    /// Puts a bit pattern together.
    fn pack(p: Parts) -> (x: Self)
        requires
            p.valid(Self::format()),
        ensures
            x == Self::of_parts(p),
    ;
}

/// The fields of a number with the sign bit flipped.
pub open spec fn negated(p: Parts) -> Parts {
    Parts { negative: !p.negative, exponent: p.exponent, fraction: p.fraction }
}

impl<T: Ieee> Amounts for T {
    open spec fn num_1000_spec() -> Self {
        T::of_parts(T::format().thousand())
    }

    open spec fn num_1024_spec() -> Self {
        T::of_parts(T::format().thousand_twenty_four())
    }

    open spec fn is_negative_spec(self) -> bool {
        self.parts().negative
    }

    open spec fn neg_spec(self) -> Self {
        T::of_parts(negated(self.parts()))
    }

    open spec fn ge_spec(self, other: Self) -> bool {
        self.parts().at_least_spec(other.parts(), T::format())
    }

    open spec fn div_spec(self, rhs: Self) -> Self {
        T::of_parts(self.parts().quotient(rhs.parts(), T::format()))
    }

    proof fn lemma_neg_flips_sign(a: Self) {
        T::lemma_parts(a);
        T::lemma_of_parts(negated(a.parts()));
    }

    fn num_1000() -> (k: Self) {
        proof {
            lemma_magnitude_of_bases(T::format());
        }
        match T::layout() {
            Format::Binary32 => T::pack(
                Parts { negative: false, exponent: 136, fraction: 0x7A_0000 },
            ),
            Format::Binary64 => T::pack(
                Parts { negative: false, exponent: 1032, fraction: 0xF_4000_0000_0000 },
            ),
        }
    }

    fn num_1024() -> (k: Self) {
        proof {
            lemma_magnitude_of_bases(T::format());
        }
        match T::layout() {
            Format::Binary32 => T::pack(Parts { negative: false, exponent: 137, fraction: 0 }),
            Format::Binary64 => T::pack(Parts { negative: false, exponent: 1033, fraction: 0 }),
        }
    }

    fn is_negative(self) -> (b: bool) {
        self.unpack().negative
    }

    fn neg(self) -> (r: Self) {
        let p = self.unpack();
        proof {
            T::lemma_parts(self);
        }
        T::pack(Parts { negative: !p.negative, exponent: p.exponent, fraction: p.fraction })
    }

    fn ge(self, other: Self) -> (b: bool) {
        proof {
            T::lemma_parts(self);
            T::lemma_parts(other);
        }
        at_least(self.unpack(), other.unpack(), T::layout())
    }

    fn div(self, rhs: Self) -> (q: Self) {
        let fmt = T::layout();
        let a = self.unpack();
        let k = rhs.unpack();
        let divisor: u64 = if k.fraction == 0 {
            1024
        } else {
            1000
        };
        proof {
            T::lemma_parts(self);
            lemma_magnitude_of_bases(fmt);
            T::lemma_of_parts(fmt.thousand());
            T::lemma_of_parts(fmt.thousand_twenty_four());
            lemma_magnitude_of_one(a, fmt);
        }
        let r = divide(a, divisor, fmt);
        T::pack(r)
    }
}

} // verus!
