//! This is a library for formatting numbers with numeric prefixes, such as
//! turning "3000 metres" into "3 kilometres", or "8705 bytes" into "8.5 KiB".
//!
//! # Usage
//!
//! The function `NumberPrefix::decimal` returns either a pair of the
//! resulting number and its prefix, or a notice that the number was too small
//! to have any prefix applied to it. The number 8542 comes back as
//! `Prefixed(Kilo, 8.542)`: it was divided by 1000 once, so it gets the first
//! decimal prefix. The number 705 is under 1000 and comes back as
//! `Standalone(705)`. Values without a prefix often need to be special-cased
//! when they are printed, which is why the two cases are kept apart.
//!
//! `NumberPrefix::binary` does the same with the binary prefixes, which use
//! the number 1024 as the multiplier: 8542 comes back as
//! `Prefixed(Kibi, 8.341796875)`.
//!
//! The trait `PrefixNames` gives the symbol of a prefix and its name in three
//! cases.
//!
//! # Amounts
//!
//! An amount is a value of a type with the trait `Amounts`. The two such
//! types of this library are `Single` and `Double`: single-precision and
//! double-precision numbers, held as their bits. `Double::from_bits` takes
//! the bits that the standard library's `to_bits` gives for a
//! double-precision number, and `Double::to_bits` gives them back for its
//! `from_bits`.
//!
//! The library compares and divides such numbers by its own integer
//! arithmetic on the three fields of the bits. Division rounds to the nearest
//! number of the format, to the one with the even fraction in case of a tie.
//!
//! # What is proved
//!
//! Every function has a contract, and Verus proves that the function meets
//! it and that it does not panic or overflow. The contracts of `decimal` and
//! `binary` say which prefix and which value come back, for every amount.
//! Beyond the contracts, these laws are proved:
//!
//! - an amount and its negation get the same prefix and values that differ
//!   in the sign alone (`scale::lemma_sign_symmetry`);
//! - a finite amount stands alone if and only if it is below the base
//!   (`laws::lemma_threshold`);
//! - the value beside a prefix is at least 1, and below the base unless the
//!   prefix is the largest (`laws::lemma_value_in_range`);
//! - the value times the power of the base gives the amount back, up to
//!   rounding (`laws::lemma_round_trip`);
//! - what is not a number stands alone, and an infinity gets the largest
//!   prefix (`laws::lemma_not_finite`);
//! - the rounding of a quotient is exact where it can be, and nearest
//!   otherwise (`rounding::lemma_round_significant_exact`,
//!   `rounding::lemma_round_significant_nearest`);
//! - the four forms of a prefix's name agree (`prefix::lemma_names_agree`).

pub mod amounts;
pub mod division;
pub mod double;
pub mod ieee;
pub mod laws;
pub mod parts;
pub mod prefix;
pub mod rounding;
pub mod scale;
pub mod single;

pub use crate::amounts::Amounts;
pub use crate::double::Double;
pub use crate::ieee::Ieee;
pub use crate::parts::{Format, Parts};
pub use crate::prefix::Prefix;
pub use crate::prefix::Prefix::{
    Exa, Exbi, Gibi, Giga, Kibi, Kilo, Mega, Mibi, Pebi, Peta, Tebi, Tera, Yobi, Yotta, Zebi,
    Zetta,
};
pub use crate::prefix::PrefixNames;
pub use crate::scale::NumberPrefix;
pub use crate::scale::NumberPrefix::{Prefixed, Standalone};
pub use crate::single::Single;
