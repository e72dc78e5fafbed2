//! What scaling promises of amounts that are binary floating-point numbers.

use crate::amounts::Amounts;
use crate::division::lemma_quotient_by_base;
use crate::ieee::{negated, Ieee};
use crate::parts::{lemma_magnitude_increases, lemma_magnitude_of_bases, lemma_magnitude_of_one};
use crate::prefix::{lemma_rank_in_family, Prefix};
use crate::rounding::lemma_round_significant_error;
use crate::scale::{reduced, steps, unsigned, NumberPrefix};
use vstd::arithmetic::div_mod::{lemma_div_by_multiple, lemma_div_is_ordered};
use vstd::arithmetic::power::{lemma_pow0, lemma_pow_positive, pow};
use vstd::arithmetic::power2::{lemma2_to64, lemma_pow2_pos, lemma_pow2_strictly_increases, pow2};
use vstd::prelude::*;

verus! {

/// The magnitude of `x`, in units of the smallest positive number of its
/// format.
pub open spec fn magnitude<T: Ieee>(x: T) -> nat {
    x.parts().magnitude(T::format())
}

/// Whether `x` is a finite number.
pub open spec fn is_finite<T: Ieee>(x: T) -> bool {
    x.parts().is_finite(T::format())
}

/// The magnitude of the number 1.
pub open spec fn one<T: Ieee>() -> nat {
    T::format().one()
}

/// Whether `scaled * base^rank` is `amount` up to `rank` roundings to `p`
/// significant bits: with `u = 2^-p`, the product lies between
/// `amount / (1 + u)^rank` and `amount / (1 - u)^rank`.
pub open spec fn within_rounding(amount: nat, scaled: nat, base: nat, rank: nat, p: nat) -> bool {
    let restored = scaled * pow(base as int, rank);
    &&& pow(pow2(p) - 1, rank) * restored <= pow(pow2(p) as int, rank) * amount
    &&& pow(pow2(p) as int, rank) * amount <= pow(pow2(p) as int + 1, rank) * restored
}

/// One more division keeps the restored product within rounding: if `y` is
/// `x / base` rounded with a relative error of at most `2^-p`, and `scaled`
/// comes from `y` by `rank` divisions, it comes from `x` by `rank + 1`.
proof fn lemma_within_rounding_step(x: nat, y: nat, scaled: nat, base: nat, rank: nat, p: nat)
    requires
        p > 0,
        within_rounding(y, scaled, base, rank, p),
        pow2(p) * (y * base - x) <= y * base,
        pow2(p) * (x - y * base) <= y * base,
    ensures
        within_rounding(x, scaled, base, rank + 1, p),
{
    let u = pow2(p) as int;
    let c = base as int;
    let low = pow(u - 1, rank);
    let mid = pow(u, rank);
    let high = pow(u + 1, rank);
    let restored = scaled * pow(c, rank);
    lemma_pow2_pos(p);
    lemma_pow2_strictly_increases(0, p);
    lemma2_to64();
    lemma_pow_positive(u - 1, rank);
    lemma_pow_positive(u, rank);
    lemma_pow_positive(u + 1, rank);
    assert(pow(u - 1, rank + 1) == (u - 1) * low && pow(u, rank + 1) == u * mid && pow(
        u + 1,
        rank + 1,
    ) == (u + 1) * high && pow(c, rank + 1) == c * pow(c, rank)) by {
        reveal(pow);
    }
    assert(scaled * (c * pow(c, rank)) == c * restored) by (nonlinear_arith)
        requires
            restored == scaled * pow(c, rank),
    ;
    let yc = y * c;
    // (u - 1) * low * (c * restored) <= u * mid * x
    assert(((u - 1) * low) * (c * restored) <= (u * mid) * x) by (nonlinear_arith)
        requires
            low * restored <= mid * y,
            u * (yc - x) <= yc,
            yc == y * c,
            u >= 1,
            c >= 0,
            mid >= 0,
            low >= 0,
    {
        assert(((u - 1) * c) * (low * restored) <= ((u - 1) * c) * (mid * y));
        assert(((u - 1) * c) * (mid * y) == mid * ((u - 1) * yc));
        assert(mid * ((u - 1) * yc) <= mid * (u * x));
    }
    // u * mid * x <= (u + 1) * high * (c * restored)
    assert((u * mid) * x <= ((u + 1) * high) * (c * restored)) by (nonlinear_arith)
        requires
            mid * y <= high * restored,
            u * (x - yc) <= yc,
            yc == y * c,
            u >= 1,
            c >= 0,
            mid >= 0,
            high >= 0,
    {
        assert(mid * (u * x) <= mid * ((u + 1) * yc));
        assert(mid * ((u + 1) * yc) == ((u + 1) * c) * (mid * y));
        assert(((u + 1) * c) * (mid * y) <= ((u + 1) * c) * (high * restored));
    }
}

/// What the divisions make of a finite amount without a sign.
proof fn lemma_reduced<T: Ieee>(a: T, divisor: nat, limit: nat)
    requires
        is_finite(a),
        !a.parts().negative,
        divisor == 1000 || divisor == 1024,
    ensures
        ({
            let kilo = T::of_parts(T::format().base(divisor));
            let n = steps(a, kilo, limit);
            let v = reduced(a, kilo, limit);
            &&& n <= limit
            &&& is_finite(v)
            &&& !v.parts().negative
            &&& (n == 0) == (limit == 0 || magnitude(a) < divisor * one::<T>())
            &&& n == 0 ==> v == a
            &&& n > 0 ==> magnitude(v) >= one::<T>()
            &&& n < limit ==> magnitude(v) < divisor * one::<T>()
            &&& within_rounding(magnitude(a), magnitude(v), divisor, n, T::format().precision())
        }),
    decreases limit,
{
    let fmt = T::format();
    let p = fmt.precision();
    let kilo = T::of_parts(fmt.base(divisor));
    T::lemma_parts(a);
    lemma_magnitude_of_bases(fmt);
    T::lemma_of_parts(fmt.base(divisor));
    lemma_magnitude_of_one(a.parts(), fmt);
    assert(a.ge_spec(kilo) == (magnitude(a) >= divisor * one::<T>()));
    if limit > 0 && a.ge_spec(kilo) {
        let q = a.div_spec(kilo);
        lemma_quotient_by_base(a.parts(), divisor, fmt);
        T::lemma_of_parts(a.parts().quotient(fmt.base(divisor), fmt));
        lemma_magnitude_of_one(q.parts(), fmt);
        lemma_reduced(q, divisor, (limit - 1) as nat);
        let x = magnitude(a);
        let y = magnitude(q);
        assert(x / divisor >= pow2((p - 1) as nat)) by {
            lemma_div_is_ordered(
                (divisor * one::<T>()) as int,
                x as int,
                divisor as int,
            );
            lemma_div_by_multiple(one::<T>() as int, divisor as int);
            assert(divisor * one::<T>() == one::<T>() * divisor) by (nonlinear_arith);
        }
        lemma_round_significant_error(x, divisor, p);
        let n = steps(q, kilo, (limit - 1) as nat);
        let v = reduced(q, kilo, (limit - 1) as nat);
        lemma_within_rounding_step(x, y, magnitude(v), divisor, n, p);
    } else {
        lemma_pow0(pow2(p) - 1);
        lemma_pow0(pow2(p) as int);
        lemma_pow0(pow2(p) as int + 1);
        lemma_pow0(divisor as int);
    }
}

/// Flipping the sign changes neither the magnitude nor whether the number is
/// finite.
proof fn lemma_neg_keeps_magnitude<T: Ieee>(x: T)
    ensures
        magnitude(x.neg_spec()) == magnitude(x),
        is_finite(x.neg_spec()) == is_finite(x),
        x.neg_spec().is_negative_spec() == !x.is_negative_spec(),
        x.neg_spec().neg_spec() == x,
{
    T::lemma_parts(x);
    T::lemma_of_parts(negated(x.parts()));
    T::lemma_neg_flips_sign(x);
}

/// What scaling by `base` makes of a finite `amount`.
spec fn well_scaled<T: Ieee>(amount: T, result: NumberPrefix<T>, base: nat) -> bool {
    match result {
        NumberPrefix::Standalone(value) => {
            &&& magnitude(amount) < base * one::<T>()
            &&& value == amount
        },
        NumberPrefix::Prefixed(prefix, value) => {
            &&& magnitude(amount) >= base * one::<T>()
            &&& prefix.base() == base
            &&& is_finite(value)
            &&& value.is_negative_spec() == amount.is_negative_spec()
            &&& magnitude(value) >= one::<T>()
            &&& prefix.rank() < 8 ==> magnitude(value) < base * one::<T>()
            &&& within_rounding(
                magnitude(amount),
                magnitude(value),
                base,
                prefix.rank(),
                T::format().precision(),
            )
        },
    }
}

/// Scaling a finite amount by one of the two bases.
proof fn lemma_scaling<T: Ieee>(amount: T, base: nat)
    requires
        is_finite(amount),
        base == 1000 || base == 1024,
    ensures
        base == 1000 ==> well_scaled(amount, NumberPrefix::<T>::decimal_spec(amount), base),
        base == 1024 ==> well_scaled(amount, NumberPrefix::<T>::binary_spec(amount), base),
{
    let kilo = T::of_parts(T::format().base(base));
    let start = unsigned(amount);
    lemma_neg_keeps_magnitude(amount);
    lemma_reduced(start, base, 8);
    let n = steps(start, kilo, 8);
    let v = reduced(start, kilo, 8);
    lemma_neg_keeps_magnitude(v);
    if n > 0 {
        lemma_rank_in_family(n);
    }
}

/// The threshold belongs to the scaled side: a finite amount stands alone if
/// and only if its magnitude is below the base, and then it comes back as it
/// went in.
pub proof fn lemma_threshold<T: Ieee>(amount: T)
    requires
        is_finite(amount),
    ensures
        NumberPrefix::<T>::decimal_spec(amount) == NumberPrefix::Standalone(amount)
            <==> magnitude(amount) < 1000 * one::<T>(),
        NumberPrefix::<T>::decimal_spec(amount) is Prefixed <==> magnitude(amount) >= 1000
            * one::<T>(),
        NumberPrefix::<T>::binary_spec(amount) == NumberPrefix::Standalone(amount) <==> magnitude(
            amount,
        ) < 1024 * one::<T>(),
        NumberPrefix::<T>::binary_spec(amount) is Prefixed <==> magnitude(amount) >= 1024
            * one::<T>(),
{
    lemma_scaling(amount, 1000);
    lemma_scaling(amount, 1024);
}

/// The value beside a prefix is a finite number with the sign of the amount
/// and a magnitude from 1 up to the base, the base left out; only at the
/// largest prefix it may be the base or more. The prefix is of the family
/// that was asked for.
pub proof fn lemma_value_in_range<T: Ieee>(amount: T)
    requires
        is_finite(amount),
    ensures
        NumberPrefix::<T>::decimal_spec(amount) matches NumberPrefix::Prefixed(prefix, value)
            ==> ({
            &&& !prefix.is_binary()
            &&& is_finite(value)
            &&& value.is_negative_spec() == amount.is_negative_spec()
            &&& magnitude(value) >= one::<T>()
            &&& prefix.rank() < 8 ==> magnitude(value) < 1000 * one::<T>()
        }),
        NumberPrefix::<T>::binary_spec(amount) matches NumberPrefix::Prefixed(prefix, value)
            ==> ({
            &&& prefix.is_binary()
            &&& is_finite(value)
            &&& value.is_negative_spec() == amount.is_negative_spec()
            &&& magnitude(value) >= one::<T>()
            &&& prefix.rank() < 8 ==> magnitude(value) < 1024 * one::<T>()
        }),
{
    lemma_scaling(amount, 1000);
    lemma_scaling(amount, 1024);
}

/// The value beside a prefix, times the base to the power of the prefix's
/// rank, is the amount again up to rounding: each of the divisions rounded
/// once, to the precision of the format.
pub proof fn lemma_round_trip<T: Ieee>(amount: T)
    requires
        is_finite(amount),
    ensures
        NumberPrefix::<T>::decimal_spec(amount) matches NumberPrefix::Prefixed(prefix, value)
            ==> within_rounding(
            magnitude(amount),
            magnitude(value),
            1000,
            prefix.rank(),
            T::format().precision(),
        ),
        NumberPrefix::<T>::binary_spec(amount) matches NumberPrefix::Prefixed(prefix, value)
            ==> within_rounding(
            magnitude(amount),
            magnitude(value),
            1024,
            prefix.rank(),
            T::format().precision(),
        ),
{
    lemma_scaling(amount, 1000);
    lemma_scaling(amount, 1024);
}

/// An infinity without a sign is divided as often as the limit allows, and
/// stays what it is.
proof fn lemma_reduced_infinity<T: Ieee>(a: T, divisor: nat, limit: nat)
    requires
        a.parts().is_infinite(T::format()),
        !a.parts().negative,
        divisor == 1000 || divisor == 1024,
    ensures
        steps(a, T::of_parts(T::format().base(divisor)), limit) == limit,
        reduced(a, T::of_parts(T::format().base(divisor)), limit) == a,
    decreases limit,
{
    let fmt = T::format();
    let kilo = T::of_parts(fmt.base(divisor));
    if limit > 0 {
        T::lemma_parts(a);
        lemma_magnitude_of_bases(fmt);
        T::lemma_of_parts(fmt.base(divisor));
        lemma_magnitude_increases(fmt.base(divisor), a.parts(), fmt);
        assert(a.ge_spec(kilo));
        assert(a.parts().quotient(fmt.base(divisor), fmt) == a.parts());
        assert(a.div_spec(kilo) == a);
        lemma_reduced_infinity(a, divisor, (limit - 1) as nat);
    }
}

/// Of the amounts that are not finite, what is not a number stands alone and
/// an infinity gets the largest prefix; both come back as they went in.
pub proof fn lemma_not_finite<T: Ieee>(amount: T)
    requires
        !is_finite(amount),
    ensures
        amount.parts().is_nan(T::format()) ==> NumberPrefix::<T>::decimal_spec(amount)
            == NumberPrefix::Standalone(amount) && NumberPrefix::<T>::binary_spec(amount)
            == NumberPrefix::Standalone(amount),
        amount.parts().is_infinite(T::format()) ==> NumberPrefix::<T>::decimal_spec(amount)
            == NumberPrefix::Prefixed(Prefix::Yotta, amount) && NumberPrefix::<T>::binary_spec(
            amount,
        ) == NumberPrefix::Prefixed(Prefix::Yobi, amount),
{
    let start = unsigned(amount);
    T::lemma_parts(amount);
    lemma_neg_keeps_magnitude(amount);
    T::lemma_of_parts(negated(amount.parts()));
    if amount.parts().is_infinite(T::format()) {
        lemma_reduced_infinity(start, 1000, 8);
        lemma_reduced_infinity(start, 1024, 8);
    }
}

} // verus!
