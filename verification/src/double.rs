//! Double-precision amounts.

use crate::ieee::Ieee;
use crate::parts::{Format, Parts};
use vstd::arithmetic::power2::lemma2_to64_rest;
use vstd::prelude::*;

verus! {

/// A double-precision number, held as its 64 bits: the sign in the highest
/// bit, then 11 bits of exponent, then 52 bits of fraction.
#[derive(Clone, Copy, PartialEq, Eq, Debug)]
pub struct Double {
    pub bits: u64,
}

impl Double {
    /// The number with the given bits.
    pub fn from_bits(bits: u64) -> (x: Self)
        ensures
            x.bits == bits,
    {
        Double { bits }
    }

    /// The bits of this number.
    pub fn to_bits(self) -> (bits: u64)
        ensures
            bits == self.bits,
    {
        self.bits
    }
}

impl Ieee for Double {
    open spec fn format() -> Format {
        Format::Binary64
    }

    open spec fn parts(self) -> Parts {
        Parts {
            negative: self.bits >= 0x8000_0000_0000_0000,
            exponent: ((self.bits / 0x10_0000_0000_0000) % 0x800) as u32,
            fraction: self.bits % 0x10_0000_0000_0000,
        }
    }

    open spec fn of_parts(p: Parts) -> Self {
        Double {
            bits: ((if p.negative {
                0x8000_0000_0000_0000u64
            } else {
                0
            }) + p.exponent * 0x10_0000_0000_0000 + p.fraction) as u64,
        }
    }

    proof fn lemma_parts(x: Self) {
        lemma2_to64_rest();
    }

    proof fn lemma_of_parts(p: Parts) {
        lemma2_to64_rest();
    }

    fn layout() -> (fmt: Format) {
        Format::Binary64
    }

    fn unpack(self) -> (p: Parts) {
        let bits: u64 = self.bits;
        assert((bits >> 63 == 1) == (bits >= 0x8000_0000_0000_0000)) by (bit_vector);
        assert((bits >> 52) & 0x7ff == (bits / 0x10_0000_0000_0000) % 0x800) by (bit_vector);
        assert(bits & 0xF_FFFF_FFFF_FFFF == bits % 0x10_0000_0000_0000) by (bit_vector);
        Parts {
            negative: bits >> 63 == 1,
            exponent: ((bits >> 52) & 0x7ff) as u32,
            fraction: bits & 0xF_FFFF_FFFF_FFFF,
        }
    }

    fn pack(p: Parts) -> (x: Self) {
        proof {
            lemma2_to64_rest();
        }
        let sign: u64 = if p.negative {
            0x8000_0000_0000_0000
        } else {
            0
        };
        let exponent: u64 = p.exponent as u64;
        let fraction: u64 = p.fraction;
        assert(exponent < 0x800 && fraction < 0x10_0000_0000_0000 && (sign == 0 || sign
            == 0x8000_0000_0000_0000) ==> sign | (exponent << 52) | fraction == sign + exponent
            * 0x10_0000_0000_0000 + fraction) by (bit_vector);
        Double { bits: sign | (exponent << 52) | fraction }
    }
}

} // verus!
