//! Choosing the prefix for an amount.

use crate::amounts::Amounts;
use crate::prefix::{binary_prefixes, decimal_prefixes, Prefix};
use vstd::prelude::*;

verus! {

/// The result of trying to apply a prefix to a floating-point value.
#[derive(PartialEq, Eq, Clone, Debug)]
pub enum NumberPrefix<F> {
    /// A **standalone** value is returned when the number is too small to
    /// have any prefixes applied to it. This is commonly a special case, so
    /// is handled separately.
    Standalone(F),
    /// A **prefixed** value *is* large enough for prefixes. This holds the
    /// prefix, as well as the resulting value.
    Prefixed(Prefix, F),
}

/// How many times `amount` is divided by `kilo` until it is no longer
/// greater than or equal to `kilo`, with at most `limit` divisions.
pub open spec fn steps<F: Amounts>(amount: F, kilo: F, limit: nat) -> nat
    decreases limit,
{
    if limit > 0 && amount.ge_spec(kilo) {
        1 + steps(amount.div_spec(kilo), kilo, (limit - 1) as nat)
    } else {
        0
    }
}

/// What is left of `amount` after the divisions that `steps` counts.
pub open spec fn reduced<F: Amounts>(amount: F, kilo: F, limit: nat) -> F
    decreases limit,
{
    if limit > 0 && amount.ge_spec(kilo) {
        reduced(amount.div_spec(kilo), kilo, (limit - 1) as nat)
    } else {
        amount
    }
}

/// `amount` without its sign.
pub open spec fn unsigned<F: Amounts>(amount: F) -> F {
    if amount.is_negative_spec() {
        amount.neg_spec()
    } else {
        amount
    }
}

/// `magnitude` with the sign of `amount`, where `magnitude` has no sign.
pub open spec fn with_sign_of<F: Amounts>(magnitude: F, amount: F) -> F {
    if amount.is_negative_spec() {
        magnitude.neg_spec()
    } else {
        magnitude
    }
}

impl<F: Amounts> NumberPrefix<F> {
    /// This result with the opposite sign on its value.
    pub open spec fn neg_spec(self) -> Self {
        match self {
            NumberPrefix::Standalone(value) => NumberPrefix::Standalone(value.neg_spec()),
            NumberPrefix::Prefixed(prefix, value) => NumberPrefix::Prefixed(
                prefix,
                value.neg_spec(),
            ),
        }
    }

    /// The scaled form of `amount` for the multiplier `kilo` and the family
    /// `prefixes`, which lists eight prefixes from the smallest up: the
    /// amount is taken without its sign, divided by `kilo` while it is at
    /// least `kilo` and fewer than eight divisions were made, and gets its
    /// sign back. No division leaves it standalone; `n` divisions give it
    /// the `n`-th prefix.
    pub open spec fn format_number_spec(amount: F, kilo: F, prefixes: Seq<Prefix>) -> Self {
        let count = steps(unsigned(amount), kilo, 8);
        let value = with_sign_of(reduced(unsigned(amount), kilo, 8), amount);
        if count == 0 {
            NumberPrefix::Standalone(value)
        } else {
            NumberPrefix::Prefixed(prefixes[count - 1], value)
        }
    }

    /// The scaled form of `amount` with decimal prefixes.
    pub open spec fn decimal_spec(amount: F) -> Self {
        Self::format_number_spec(amount, F::num_1000_spec(), decimal_prefixes())
    }

    /// The scaled form of `amount` with binary prefixes.
    pub open spec fn binary_spec(amount: F) -> Self {
        Self::format_number_spec(amount, F::num_1024_spec(), binary_prefixes())
    }

    /// Formats the given floating-point number using **decimal** prefixes.
    pub fn decimal(amount: F) -> (result: Self)
        ensures
            result == Self::decimal_spec(amount),
    {
        let prefixes = [
            Prefix::Kilo,
            Prefix::Mega,
            Prefix::Giga,
            Prefix::Tera,
            Prefix::Peta,
            Prefix::Exa,
            Prefix::Zetta,
            Prefix::Yotta,
        ];
        assert(prefixes@ =~= decimal_prefixes());
        Self::format_number(amount, F::num_1000(), prefixes)
    }

    /// Formats the given floating-point number using **binary** prefixes.
    pub fn binary(amount: F) -> (result: Self)
        ensures
            result == Self::binary_spec(amount),
    {
        let prefixes = [
            Prefix::Kibi,
            Prefix::Mibi,
            Prefix::Gibi,
            Prefix::Tebi,
            Prefix::Pebi,
            Prefix::Exbi,
            Prefix::Zebi,
            Prefix::Yobi,
        ];
        assert(prefixes@ =~= binary_prefixes());
        Self::format_number(amount, F::num_1024(), prefixes)
    }

    fn format_number(amount: F, kilo: F, prefixes: [Prefix; 8]) -> (result: Self)
        requires
            kilo == F::num_1000_spec() || kilo == F::num_1024_spec(),
        ensures
            result == Self::format_number_spec(amount, kilo, prefixes@),
    {
        // For negative numbers, flip it to positive, do the processing, then
        // flip it back to negative again afterwards.
        let was_negative = amount.is_negative();
        let ghost start = unsigned(amount);
        let mut amount = if was_negative {
            amount.neg()
        } else {
            amount
        };

        let mut prefix: usize = 0;
        while amount.ge(kilo) && prefix < 8
            invariant
                prefix <= 8,
                kilo == F::num_1000_spec() || kilo == F::num_1024_spec(),
                steps(start, kilo, 8) == prefix + steps(amount, kilo, (8 - prefix) as nat),
                reduced(start, kilo, 8) == reduced(amount, kilo, (8 - prefix) as nat),
            decreases 8 - prefix,
        {
            amount = amount.div(kilo);
            prefix += 1;
        }

        if was_negative {
            amount = amount.neg();
        }
        if prefix == 0 {
            NumberPrefix::Standalone(amount)
        } else {
            NumberPrefix::Prefixed(prefixes[prefix - 1], amount)
        }
    }
}

/// An amount and its negation get the same prefix, or both none, and values
/// that differ in nothing but the sign.
pub proof fn lemma_sign_symmetry<F: Amounts>(amount: F)
    ensures
        NumberPrefix::<F>::decimal_spec(amount.neg_spec()) == NumberPrefix::<F>::decimal_spec(
            amount,
        ).neg_spec(),
        NumberPrefix::<F>::binary_spec(amount.neg_spec()) == NumberPrefix::<F>::binary_spec(
            amount,
        ).neg_spec(),
{
    lemma_format_sign_symmetry(amount, F::num_1000_spec(), decimal_prefixes());
    lemma_format_sign_symmetry(amount, F::num_1024_spec(), binary_prefixes());
}

/// Sign symmetry for any multiplier and any family of prefixes.
pub proof fn lemma_format_sign_symmetry<F: Amounts>(amount: F, kilo: F, prefixes: Seq<Prefix>)
    ensures
        NumberPrefix::<F>::format_number_spec(amount.neg_spec(), kilo, prefixes)
            == NumberPrefix::<F>::format_number_spec(amount, kilo, prefixes).neg_spec(),
{
    F::lemma_neg_flips_sign(amount);
    // both amounts have the same magnitude, so both are reduced alike
    assert(unsigned(amount.neg_spec()) == unsigned(amount));
    F::lemma_neg_flips_sign(reduced(unsigned(amount), kilo, 8));
}

} // verus!
