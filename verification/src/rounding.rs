//! Rounding a quotient of natural numbers to a number of significant bits.

use vstd::arithmetic::div_mod::{
    lemma_div_by_multiple, lemma_div_denominator, lemma_div_is_ordered,
    lemma_fundamental_div_mod, lemma_fundamental_div_mod_converse,
};
use vstd::arithmetic::power2::{
    lemma2_to64, lemma_pow2_adds, lemma_pow2_pos, lemma_pow2_strictly_increases,
    lemma_pow2_unfold, pow2,
};
use vstd::prelude::*;

verus! {

/// The whole number nearest to `n / d`; where two are equally near, the even
/// one. Meant for `d > 0`.
pub open spec fn round_half_even(n: nat, d: nat) -> nat {
    let q = n / d;
    let r = n % d;
    if 2 * r < d || (2 * r == d && q % 2 == 0) {
        q
    } else {
        q + 1
    }
}

/// How many of its low bits `q` has to lose to fit in `p` bits.
pub open spec fn excess_bits(q: nat, p: nat) -> nat
    decreases q,
{
    if q < pow2(p) {
        0
    } else {
        proof {
            lemma_pow2_pos(p);
        }
        1 + excess_bits(q / 2, p)
    }
}

/// `n / d` rounded to `p` significant bits, but never finer than to a whole
/// number: the multiple of `2^j` nearest to `n / d`, the even multiple in
/// case of a tie, where `j` counts the bits that the whole part of `n / d`
/// has beyond `p`. Meant for `d > 0`.
pub open spec fn round_significant(n: nat, d: nat, p: nat) -> nat {
    let j = excess_bits(n / d, p);
    round_half_even(n, d * pow2(j)) * pow2(j)
}

/// How far `a` and `b` are apart.
pub open spec fn distance(a: nat, b: nat) -> nat {
    if a >= b {
        (a - b) as nat
    } else {
        (b - a) as nat
    }
}

/// With `n == q * d + r` and `r < d`, rounding `n / d` looks at `q` and `r`
/// alone.
pub proof fn lemma_round_half_even_parts(n: nat, d: nat, q: nat, r: nat)
    requires
        n == q * d + r,
        r < d,
    ensures
        round_half_even(n, d) == (if 2 * r < d || (2 * r == d && q % 2 == 0) {
            q
        } else {
            q + 1
        }),
{
    lemma_fundamental_div_mod_converse(n as int, d as int, q as int, r as int);
}

/// The rounded quotient is at most half a unit away from the exact one.
pub proof fn lemma_round_half_even_error(n: nat, d: nat)
    requires
        d > 0,
    ensures
        2 * (round_half_even(n, d) * d - n) <= d,
        2 * (n - round_half_even(n, d) * d) <= d,
{
    let q = n / d;
    let r = n % d;
    lemma_fundamental_div_mod(n as int, d as int);
    assert(n == q * d + r) by (nonlinear_arith)
        requires
            n == d * q + r,
    ;
    assert((q + 1) * d == q * d + d) by (nonlinear_arith);
}

/// Multiplying numerator and denominator by the same number changes neither
/// the quotient nor its rounding.
pub proof fn lemma_round_half_even_scale(n: nat, d: nat, s: nat)
    requires
        d > 0,
        s > 0,
    ensures
        (n * s) / (d * s) == n / d,
        round_half_even(n * s, d * s) == round_half_even(n, d),
{
    let q = n / d;
    let r = n % d;
    lemma_fundamental_div_mod(n as int, d as int);
    assert(n * s == q * (d * s) + r * s) by (nonlinear_arith)
        requires
            n == d * q + r,
    ;
    assert(r * s < d * s) by (nonlinear_arith)
        requires
            r < d,
            s > 0,
    ;
    lemma_fundamental_div_mod_converse(
        (n * s) as int,
        (d * s) as int,
        q as int,
        (r * s) as int,
    );
    assert(2 * (r * s) < d * s <==> 2 * r < d) by (nonlinear_arith)
        requires
            s > 0,
    ;
    assert(2 * (r * s) == d * s <==> 2 * r == d) by (nonlinear_arith)
        requires
            s > 0,
    ;
}

/// A number below `2^(p + j)`, and for `j > 0` not below `2^(p + j - 1)`, has
/// `j` bits beyond `p`.
pub proof fn lemma_excess_bits(q: nat, p: nat, j: nat)
    requires
        q < pow2(p + j),
        j > 0 ==> q >= pow2((p + j - 1) as nat),
    ensures
        excess_bits(q, p) == j,
    decreases j,
{
    if j > 0 {
        lemma_pow2_unfold(p + j);
        if j > 1 {
            lemma_pow2_unfold((p + j - 1) as nat);
        }
        if p + j - 1 > p {
            lemma_pow2_strictly_increases(p, (p + j - 1) as nat);
        }
        lemma_excess_bits(q / 2, p, (j - 1) as nat);
    }
}

/// What `excess_bits` says of the size of `q`.
pub proof fn lemma_excess_bits_range(q: nat, p: nat)
    ensures
        q < pow2(p + excess_bits(q, p)),
        excess_bits(q, p) > 0 ==> q >= pow2((p + excess_bits(q, p) - 1) as nat),
    decreases q,
{
    if q >= pow2(p) {
        lemma_pow2_pos(p);
        let j = excess_bits(q / 2, p);
        lemma_excess_bits_range(q / 2, p);
        lemma_pow2_unfold(p + j + 1);
        if j > 0 {
            lemma_pow2_unfold(p + j);
        }
    }
}

/// Where the whole part `q` of `n / (d * 2^j)` fits in `p` bits, and for
/// `j > 0` needs all of them, `n / d` is rounded at the step `2^j`.
pub proof fn lemma_round_significant_at(n: nat, d: nat, p: nat, j: nat)
    requires
        d > 0,
        n / (d * pow2(j)) < pow2(p),
        j > 0 ==> n / (d * pow2(j)) >= pow2((p - 1) as nat),
        p > 0,
    ensures
        round_significant(n, d, p) == round_half_even(n, d * pow2(j)) * pow2(j),
{
    let x = n / d;
    let s = pow2(j);
    lemma_pow2_pos(j);
    lemma_div_denominator(n as int, d as int, s as int);
    let q = x / s;
    assert(q == n / (d * s));
    lemma_fundamental_div_mod(x as int, s as int);
    let r = x % s;
    assert(x == q * s + r) by (nonlinear_arith)
        requires
            x == s * q + r,
    ;
    // x < (q + 1) * 2^j <= 2^p * 2^j
    assert(x < pow2(p) * s) by (nonlinear_arith)
        requires
            x == q * s + r,
            r < s,
            q < pow2(p),
    ;
    lemma_pow2_adds(p, j);
    if j > 0 {
        assert(x >= pow2((p - 1) as nat) * s) by (nonlinear_arith)
            requires
                x == q * s + r,
                q >= pow2((p - 1) as nat),
        ;
        lemma_pow2_adds((p - 1) as nat, j);
        assert((p - 1) as nat + j == (p + j - 1) as nat);
    }
    lemma_excess_bits(x, p, j);
}

/// Multiplying numerator and denominator by the same number does not change
/// the rounded quotient.
pub proof fn lemma_round_significant_scale(n: nat, d: nat, s: nat, p: nat)
    requires
        d > 0,
        s > 0,
    ensures
        round_significant(n * s, d * s, p) == round_significant(n, d, p),
{
    lemma_round_half_even_scale(n, d, s);
    let j = excess_bits(n / d, p);
    lemma_pow2_pos(j);
    assert(d * pow2(j) > 0) by (nonlinear_arith)
        requires
            d > 0,
            pow2(j) > 0,
    ;
    lemma_round_half_even_scale(n, d * pow2(j), s);
    assert((d * s) * pow2(j) == (d * pow2(j)) * s) by (nonlinear_arith);
}

/// A quotient that needs all `p` bits is rounded with a relative error of at
/// most `2^-p`, taken of the rounded value.
pub proof fn lemma_round_significant_error(n: nat, d: nat, p: nat)
    requires
        d > 0,
        p > 0,
        n / d >= pow2((p - 1) as nat),
    ensures
        pow2(p) * (round_significant(n, d, p) * d - n) <= round_significant(n, d, p) * d,
        pow2(p) * (n - round_significant(n, d, p) * d) <= round_significant(n, d, p) * d,
{
    let x = n / d;
    let j = excess_bits(x, p);
    let s = pow2(j);
    let big = d * s;
    let w = round_half_even(n, big);
    let half = pow2((p - 1) as nat);
    lemma_pow2_pos(j);
    lemma_pow2_unfold(p);
    assert(big > 0) by (nonlinear_arith)
        requires
            big == d * s,
            d > 0,
            s > 0,
    ;
    // the whole part of n / (d * 2^j) needs all p bits
    lemma_excess_bits_range(x, p);
    lemma_div_denominator(n as int, d as int, s as int);
    let q = n / big;
    assert(q == x / s);
    assert(q >= half) by {
        if j > 0 {
            lemma_pow2_adds((p - 1) as nat, j);
            assert((p - 1) as nat + j == (p + j - 1) as nat);
            lemma_div_is_ordered((half * s) as int, x as int, s as int);
            lemma_div_by_multiple(half as int, s as int);
        } else {
            assert(s == 1) by {
                lemma2_to64();
            }
        }
    }
    assert(w >= q);
    lemma_round_half_even_error(n, big);
    assert(round_significant(n, d, p) * d == w * big) by (nonlinear_arith)
        requires
            round_significant(n, d, p) == w * s,
            big == d * s,
    ;
    assert(half * big <= w * big) by (nonlinear_arith)
        requires
            half <= w,
    ;
    assert(pow2(p) * (w * big - n) <= w * big) by (nonlinear_arith)
        requires
            pow2(p) == 2 * half,
            2 * (w * big - n) <= big,
            half * big <= w * big,
    ;
    assert(pow2(p) * (n - w * big) <= w * big) by (nonlinear_arith)
        requires
            pow2(p) == 2 * half,
            2 * (n - w * big) <= big,
            half * big <= w * big,
    ;
}

/// A quotient that has no more than `p` significant bits is not changed by
/// the rounding.
pub proof fn lemma_round_significant_exact(m: nat, i: nat, d: nat, p: nat)
    requires
        d > 0,
        m < pow2(p),
    ensures
        round_significant(m * pow2(i) * d, d, p) == m * pow2(i),
{
    let x = m * pow2(i);
    let n = x * d;
    lemma_div_by_multiple(x as int, d as int);
    let j = excess_bits(x, p);
    lemma_excess_bits_range(x, p);
    lemma_pow2_adds(p, i);
    lemma_pow2_pos(i);
    assert(x < pow2(p + i)) by (nonlinear_arith)
        requires
            x == m * pow2(i),
            m < pow2(p),
            pow2(i) > 0,
            pow2(p + i) == pow2(p) * pow2(i),
    ;
    if j > i {
        if p + j - 1 > p + i {
            lemma_pow2_strictly_increases(p + i, (p + j - 1) as nat);
        }
        assert(false);
    }
    let k = (i - j) as nat;
    lemma_pow2_adds(k, j);
    lemma_pow2_pos(j);
    let big = d * pow2(j);
    let whole = m * pow2(k);
    assert(big > 0) by (nonlinear_arith)
        requires
            big == d * pow2(j),
            d > 0,
            pow2(j) > 0,
    ;
    assert(n == whole * big + 0 && whole * pow2(j) == x) by (nonlinear_arith)
        requires
            n == x * d,
            x == m * pow2(i),
            pow2(i) == pow2(k) * pow2(j),
            big == d * pow2(j),
            whole == m * pow2(k),
    ;
    lemma_round_half_even_parts(n, big, whole, 0);
}

/// No number of at most `p` significant bits is nearer to `n / d` than the
/// rounded quotient is. Such a number is written `m * 2^i` with `m` below
/// `2^p`.
pub proof fn lemma_round_significant_nearest(n: nat, d: nat, p: nat, m: nat, i: nat)
    requires
        d > 0,
        p > 0,
        m < pow2(p),
    ensures
        distance(round_significant(n, d, p) * d, n) <= distance(m * pow2(i) * d, n),
{
    let x = n / d;
    let j = excess_bits(x, p);
    let s = pow2(j);
    let big = d * s;
    let w = round_half_even(n, big);
    let q = n / big;
    let rest = n % big;
    let r = m * pow2(i);
    lemma_pow2_pos(j);
    lemma_pow2_pos(i);
    assert(big > 0) by (nonlinear_arith)
        requires
            big == d * s,
            d > 0,
            s > 0,
    ;
    lemma_fundamental_div_mod(n as int, big as int);
    assert(n == q * big + rest) by (nonlinear_arith)
        requires
            n == big * q + rest,
    ;
    lemma_round_half_even_parts(n, big, q, rest);
    assert(round_significant(n, d, p) * d == w * big) by (nonlinear_arith)
        requires
            round_significant(n, d, p) == w * s,
            big == d * s,
    ;
    assert((q + 1) * big == q * big + big) by (nonlinear_arith);
    assert(distance(w * big, n) <= rest && distance(w * big, n) <= big - rest);
    if i >= j {
        // a multiple of 2^j: at or below the lower neighbour, or at or above
        // the upper one
        let k = (i - j) as nat;
        lemma_pow2_adds(k, j);
        let t = m * pow2(k);
        assert(r * d == t * big) by (nonlinear_arith)
            requires
                r == m * pow2(i),
                pow2(i) == pow2(k) * s,
                big == d * s,
                t == m * pow2(k),
        ;
        if t <= q {
            assert(t * big <= q * big) by (nonlinear_arith)
                requires
                    t <= q,
            ;
        } else {
            assert(t * big >= (q + 1) * big) by (nonlinear_arith)
                requires
                    t >= q + 1,
            ;
        }
    } else {
        // finer than 2^j, so below every number that needs all p bits at
        // that step, and the lower neighbour is one
        let half = pow2((p - 1) as nat);
        lemma_pow2_unfold(p);
        lemma_excess_bits_range(x, p);
        lemma_div_denominator(n as int, d as int, s as int);
        lemma_pow2_adds((p - 1) as nat, j);
        assert((p - 1) as nat + j == (p + j - 1) as nat);
        lemma_div_is_ordered((half * s) as int, x as int, s as int);
        lemma_div_by_multiple(half as int, s as int);
        assert(q >= half);
        let k = (j - 1 - i) as nat;
        lemma_pow2_adds(k, i);
        lemma_pow2_unfold(j);
        lemma_pow2_pos(k);
        assert(r < half * s) by (nonlinear_arith)
            requires
                r == m * pow2(i),
                m < 2 * half,
                s == 2 * pow2((j - 1) as nat),
                pow2((j - 1) as nat) == pow2(k) * pow2(i),
                pow2(k) >= 1,
                pow2(i) > 0,
        ;
        assert(r * d < q * big) by (nonlinear_arith)
            requires
                r < half * s,
                half <= q,
                big == d * s,
                d > 0,
        ;
    }
}

} // verus!
