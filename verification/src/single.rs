//! Single-precision amounts.

use crate::ieee::Ieee;
use crate::parts::{Format, Parts};
use vstd::arithmetic::power2::lemma2_to64;
use vstd::prelude::*;

verus! {

/// A single-precision number, held as its 32 bits: the sign in the highest
/// bit, then 8 bits of exponent, then 23 bits of fraction.
#[derive(Clone, Copy, PartialEq, Eq, Debug)]
pub struct Single {
    pub bits: u32,
}

impl Single {
    /// The number with the given bits.
    pub fn from_bits(bits: u32) -> (x: Self)
        ensures
            x.bits == bits,
    {
        Single { bits }
    }

    /// The bits of this number.
    pub fn to_bits(self) -> (bits: u32)
        ensures
            bits == self.bits,
    {
        self.bits
    }
}

impl Ieee for Single {
    open spec fn format() -> Format {
        Format::Binary32
    }

    open spec fn parts(self) -> Parts {
        Parts {
            negative: self.bits >= 0x8000_0000,
            exponent: ((self.bits / 0x80_0000) % 0x100) as u32,
            fraction: (self.bits % 0x80_0000) as u64,
        }
    }

    open spec fn of_parts(p: Parts) -> Self {
        Single {
            bits: ((if p.negative {
                0x8000_0000u32
            } else {
                0
            }) + p.exponent * 0x80_0000 + p.fraction) as u32,
        }
    }

    proof fn lemma_parts(x: Self) {
        lemma2_to64();
    }

    proof fn lemma_of_parts(p: Parts) {
        lemma2_to64();
    }

    fn layout() -> (fmt: Format) {
        Format::Binary32
    }

    fn unpack(self) -> (p: Parts) {
        let bits: u32 = self.bits;
        assert((bits >> 31 == 1) == (bits >= 0x8000_0000)) by (bit_vector);
        assert((bits >> 23) & 0xff == (bits / 0x80_0000) % 0x100) by (bit_vector);
        assert(bits & 0x7F_FFFF == bits % 0x80_0000) by (bit_vector);
        Parts {
            negative: bits >> 31 == 1,
            exponent: (bits >> 23) & 0xff,
            fraction: (bits & 0x7F_FFFF) as u64,
        }
    }

    fn pack(p: Parts) -> (x: Self) {
        proof {
            lemma2_to64();
        }
        let sign: u32 = if p.negative {
            0x8000_0000
        } else {
            0
        };
        let exponent: u32 = p.exponent;
        let fraction: u32 = p.fraction as u32;
        assert(exponent < 0x100 && fraction < 0x80_0000 && (sign == 0 || sign == 0x8000_0000)
            ==> sign | (exponent << 23) | fraction == sign + exponent * 0x80_0000 + fraction)
            by (bit_vector);
        Single { bits: sign | (exponent << 23) | fraction }
    }
}

} // verus!
