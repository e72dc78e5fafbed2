//! Division of a binary floating-point number by 1000 or 1024.

use crate::parts::{
    lemma_magnitude_increases, lemma_magnitude_of_bases, lemma_magnitude_of_one,
    lemma_magnitude_unique, Format, Parts,
};
use crate::rounding::{
    lemma_round_half_even_parts, lemma_round_half_even_scale, lemma_round_significant_at,
    lemma_round_significant_scale, round_significant,
};
use vstd::arithmetic::div_mod::{lemma_fundamental_div_mod, lemma_fundamental_div_mod_converse};
use vstd::arithmetic::power2::{
    lemma2_to64, lemma2_to64_rest, lemma_pow2_adds, lemma_pow2_pos, lemma_pow2_unfold, pow2,
};
use vstd::prelude::*;

verus! {

/// Divides `a`, which is at least `divisor`, by `divisor`, which is 1000 or
/// 1024, and rounds the quotient to the nearest number of the format. An
/// infinity stays what it is.
pub fn divide(a: Parts, divisor: u64, fmt: Format) -> (q: Parts)
    requires
        a.valid(fmt),
        !a.negative,
        !a.is_nan(fmt),
        divisor == 1000 || divisor == 1024,
        a.magnitude(fmt) >= divisor * fmt.one(),
    ensures
        q == a.quotient(fmt.base(divisor as nat), fmt),
        q.valid(fmt),
{
    if a.exponent == fmt.top_exponent() {
        return a;
    }
    let hidden = fmt.hidden();
    proof {
        lemma2_to64();
        lemma2_to64_rest();
        lemma_pow2_pos(fmt.fraction_bits());
        assert(512 * fmt.one() <= divisor * fmt.one()) by (nonlinear_arith)
            requires
                512 <= divisor,
        ;
        lemma_exponent_of_large(a, fmt);
    }
    // eleven more bits than the significand has, so that the quotient has
    // one or two bits more than it needs
    let significand: u64 = hidden + a.fraction;
    let numerator: u64 = significand * 2048;
    let wide: u64 = numerator / divisor;
    let drop: u32 = if wide >= 4 * hidden {
        2
    } else {
        1
    };
    let step: u64 = if drop == 2 {
        divisor * 4
    } else {
        divisor * 2
    };
    let whole: u64 = numerator / step;
    let rest: u64 = numerator % step;
    proof {
        lemma_quotient_bits(numerator as nat, divisor as nat, hidden as nat);
        lemma_no_tie(significand as nat, divisor as nat, step as nat);
    }
    // the rest is never half of the step, so no tie has to be broken
    let up = 2 * rest > step;
    let rounded: u64 = if up {
        whole + 1
    } else {
        whole
    };
    let carry = rounded == 2 * hidden;
    let q = if carry {
        Parts { negative: false, exponent: a.exponent - 11 + drop + 1, fraction: 0 }
    } else {
        Parts { negative: false, exponent: a.exponent - 11 + drop, fraction: rounded - hidden }
    };
    proof {
        lemma_fundamental_div_mod(numerator as int, step as int);
        assert(numerator == whole * step + rest) by (nonlinear_arith)
            requires
                numerator == step * whole + rest,
        ;
        lemma_divide_rounds(a, divisor as nat, fmt, drop as nat, whole as nat, rest as nat);
        let t = (a.exponent - 12 + drop) as nat;
        let s = pow2(t);
        if carry {
            lemma_pow2_unfold(t + 1);
            assert(hidden * (2 * s) == (2 * hidden) * s) by (nonlinear_arith);
        }
        lemma_quotient_by_base(a, divisor as nat, fmt);
        lemma_magnitude_unique(a.quotient(fmt.base(divisor as nat), fmt), q, fmt);
    }
    q
}

/// A number that is at least 512 has an exponent field that is at least 9
/// above the bias.
pub proof fn lemma_exponent_of_large(a: Parts, fmt: Format)
    requires
        a.valid(fmt),
        a.magnitude(fmt) >= 512 * fmt.one(),
    ensures
        a.exponent >= fmt.bias() + 9,
{
    if a.exponent < fmt.bias() + 9 {
        let h = fmt.hidden_bit();
        lemma_pow2_pos(fmt.fraction_bits());
        let edge = Parts { negative: false, exponent: (fmt.bias() + 9) as u32, fraction: 0 };
        lemma2_to64();
        lemma2_to64_rest();
        lemma_magnitude_increases(a, edge, fmt);
        let b = (fmt.bias() - 1) as nat;
        lemma_pow2_adds(9, b);
        assert((edge.exponent - 1) as nat == 9 + b);
        assert(h * (512 * pow2(b)) == 512 * (h * pow2(b))) by (nonlinear_arith);
    }
}

/// A multiple of 2048 never lies halfway between two multiples of the step:
/// the rest of its division by the step is not half of the step. For the
/// divisor 1024 the step is 2048; for the divisor 1000 it is 2000 or 4000.
proof fn lemma_no_tie(significand: nat, divisor: nat, step: nat)
    requires
        (divisor == 1024 && step == 2048) || (divisor == 1000 && (step == 2000 || step == 4000)),
    ensures
        2 * ((significand * 2048) % step) != step,
{
    let n = significand * 2048;
    if step == 2048 {
        assert(n % 2048 == 0);
    } else if step == 2000 {
        // a rest of 1000 would make the numerator an odd multiple of 8
        assert(n % 2000 == 1000 ==> n % 16 != 0) by {
            if n % 2000 == 1000 {
                assert(n == 2000 * (n / 2000) + 1000);
            }
        }
        assert(n % 16 == 0);
    } else {
        // a rest of 2000 would make it an odd multiple of 16
        assert(n % 4000 == 2000 ==> n % 32 != 0) by {
            if n % 4000 == 2000 {
                assert(n == 4000 * (n / 4000) + 2000);
            }
        }
        assert(n % 32 == 0);
    }
}

/// A numerator of twelve bits more than `h` has, divided by 1000 or 1024,
/// gives a quotient of two or three bits more than `h` has.
proof fn lemma_quotient_bits(numerator: nat, divisor: nat, h: nat)
    requires
        divisor == 1000 || divisor == 1024,
        2048 * h <= numerator < 4096 * h,
    ensures
        2 * h <= numerator / divisor < 8 * h,
        numerator / divisor >= 4 * h ==> h <= numerator / (divisor * 4) < 2 * h,
        numerator / divisor < 4 * h ==> h <= numerator / (divisor * 2) < 2 * h,
{
    if divisor == 1000 {
        assert(2 * h <= numerator / 1000 < 8 * h);
        assert(numerator / 1000 >= 4 * h ==> h <= numerator / 4000 < 2 * h);
        assert(numerator / 1000 < 4 * h ==> h <= numerator / 2000 < 2 * h);
    } else {
        assert(2 * h <= numerator / 1024 < 8 * h);
        assert(numerator / 1024 >= 4 * h ==> h <= numerator / 4096 < 2 * h);
        assert(numerator / 1024 < 4 * h ==> h <= numerator / 2048 < 2 * h);
    }
}

/// The arithmetic of `divide`: with the significand of `a` shifted left by
/// eleven bits and divided by `divisor * 2^drop`, where the whole part of
/// that quotient has as many bits as the significand, rounding the whole
/// part by the rest rounds the quotient of the magnitudes.
proof fn lemma_divide_rounds(a: Parts, divisor: nat, fmt: Format, drop: nat, whole: nat, rest: nat)
    requires
        a.valid(fmt),
        a.is_finite(fmt),
        a.exponent >= 12,
        divisor > 0,
        drop <= 2,
        (fmt.hidden_bit() + a.fraction) * 2048 == whole * (divisor * pow2(drop)) + rest,
        rest < divisor * pow2(drop),
        fmt.hidden_bit() <= whole < 2 * fmt.hidden_bit(),
    ensures
        round_significant(a.magnitude(fmt), divisor, fmt.precision()) == (if 2 * rest
            < divisor * pow2(drop) || (2 * rest == divisor * pow2(drop) && whole % 2 == 0) {
            whole
        } else {
            whole + 1
        }) * pow2((a.exponent - 12 + drop) as nat),
{
    let m: nat = fmt.hidden_bit() + a.fraction as nat;
    let e = (a.exponent - 1) as nat;
    let low = (e - 11) as nat;
    let s = pow2(low);
    let step: nat = divisor * pow2(drop);
    let n: nat = m * 2048;
    let t = low + drop;
    lemma2_to64();
    lemma_pow2_pos(low);
    lemma_pow2_pos(drop);
    lemma_pow2_adds(11, low);
    lemma_pow2_adds(drop, low);
    assert(step > 0) by (nonlinear_arith)
        requires
            step == divisor * pow2(drop),
            divisor > 0,
            pow2(drop) > 0,
    ;
    // the magnitude and the divisor at the step 2^t, both scaled by s
    assert(a.magnitude(fmt) == n * s) by (nonlinear_arith)
        requires
            a.magnitude(fmt) == m * pow2(e),
            pow2(e) == 2048 * s,
            n == m * 2048,
    ;
    assert(divisor * pow2(t) == step * s) by (nonlinear_arith)
        requires
            pow2(t) == pow2(drop) * s,
            step == divisor * pow2(drop),
    ;
    lemma_round_half_even_scale(n, step, s);
    lemma_fundamental_div_mod_converse(
        n as int,
        step as int,
        whole as int,
        rest as int,
    );
    assert(fmt.hidden_bit() == pow2((fmt.precision() - 1) as nat));
    lemma_pow2_unfold(fmt.precision());
    lemma_round_significant_at(a.magnitude(fmt), divisor, fmt.precision(), t);
    lemma_round_half_even_parts(n, step, whole, rest);
}

/// A finite number that is at least `divisor`, which is 1000 or 1024, has a
/// rounded quotient by it in the format, and that quotient is at least 1.
pub proof fn lemma_quotient_of_large(a: Parts, divisor: nat, fmt: Format) -> (q: Parts)
    requires
        a.valid(fmt),
        a.is_finite(fmt),
        divisor == 1000 || divisor == 1024,
        a.magnitude(fmt) >= divisor * fmt.one(),
    ensures
        q.valid(fmt),
        q.is_finite(fmt),
        !q.negative,
        q.exponent >= fmt.bias(),
        q.magnitude(fmt) == round_significant(a.magnitude(fmt), divisor, fmt.precision()),
{
    let h = fmt.hidden_bit();
    lemma2_to64();
    lemma2_to64_rest();
    lemma_magnitude_of_one(a, fmt);
    assert(512 * fmt.one() <= divisor * fmt.one()) by (nonlinear_arith)
        requires
            512 <= divisor,
    ;
    lemma_exponent_of_large(a, fmt);
    let m: nat = h + a.fraction as nat;
    let n: nat = m * 2048;
    let wide = n / divisor;
    lemma_quotient_bits(n, divisor, h);
    if a.exponent == fmt.bias() + 9 {
        // below 1024, so the divisor is 1000, and the quotient is below 2
        let x = pow2((fmt.bias() - 1) as nat);
        lemma_pow2_pos((fmt.bias() - 1) as nat);
        lemma_pow2_adds(9, (fmt.bias() - 1) as nat);
        assert((a.exponent - 1) as nat == 9 + (fmt.bias() - 1) as nat);
        assert(m * 512 >= divisor * h) by (nonlinear_arith)
            requires
                m * (512 * x) >= divisor * (h * x),
                x > 0,
        ;
        assert(wide >= 4 * h);
    }
    let drop: nat = if wide >= 4 * h {
        2
    } else {
        1
    };
    let step: nat = divisor * pow2(drop);
    let whole = n / step;
    let rest = n % step;
    lemma_fundamental_div_mod(n as int, step as int);
    assert(n == whole * step + rest) by (nonlinear_arith)
        requires
            n == step * whole + rest,
    ;
    lemma_divide_rounds(a, divisor, fmt, drop, whole, rest);
    let rounded = if 2 * rest < step || (2 * rest == step && whole % 2 == 0) {
        whole
    } else {
        whole + 1
    };
    let t = (a.exponent - 12 + drop) as nat;
    if rounded == 2 * h {
        lemma_pow2_unfold(t + 1);
        assert(h * (2 * pow2(t)) == (2 * h) * pow2(t)) by (nonlinear_arith);
        Parts { negative: false, exponent: (t + 2) as u32, fraction: 0 }
    } else {
        Parts { negative: false, exponent: (t + 1) as u32, fraction: (rounded - h) as u64 }
    }
}

/// What the quotient of a finite number without a sign by 1000 or 1024 is,
/// where the number is at least the divisor.
pub proof fn lemma_quotient_by_base(a: Parts, divisor: nat, fmt: Format)
    requires
        a.valid(fmt),
        a.is_finite(fmt),
        !a.negative,
        divisor == 1000 || divisor == 1024,
        a.magnitude(fmt) >= divisor * fmt.one(),
    ensures
        a.quotient(fmt.base(divisor), fmt).valid(fmt),
        a.quotient(fmt.base(divisor), fmt).is_finite(fmt),
        !a.quotient(fmt.base(divisor), fmt).negative,
        a.quotient(fmt.base(divisor), fmt).exponent >= fmt.bias(),
        a.quotient(fmt.base(divisor), fmt).magnitude(fmt) == round_significant(
            a.magnitude(fmt),
            divisor,
            fmt.precision(),
        ),
{
    let q = lemma_quotient_of_large(a, divisor, fmt);
    lemma_magnitude_of_bases(fmt);
    lemma_magnitude_of_one(a, fmt);
    lemma_round_significant_scale(
        a.magnitude(fmt),
        divisor,
        fmt.one(),
        fmt.precision(),
    );
    let c = a.quotient(fmt.base(divisor), fmt);
    lemma_magnitude_unique(c, q, fmt);
}

} // verus!
