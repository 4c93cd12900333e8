//! Single-precision numbers, as the hardware rounds them, in whole units of some
//! power of two.

use vstd::prelude::*;

verus! {

/// `n / d` to the nearest integer, halves to the even one.
pub open spec fn rounded(n: int, d: int) -> int {
    let q = n / d;
    let r = n % d;
    if 2 * r > d || (2 * r == d && q % 2 == 1) {
        q + 1
    } else {
        q
    }
}

/// Computes [`rounded`].
pub fn round_div(n: u128, d: u128) -> (r: u128)
    requires
        0 < d <= 0x4000_0000_0000_0000_0000_0000_0000_0000,
    ensures
        r == rounded(n as int, d as int),
{
    let q: u128 = n / d;
    let rest: u128 = n % d;
    if 2 * rest > d || (2 * rest == d && q % 2 == 1) {
        proof {
            if q == u128::MAX {
                assert(n == q * d + rest) by (nonlinear_arith)
                    requires
                        q == n / d,
                        rest == n % d,
                        d > 0,
                ;
                assert(q * d >= q) by (nonlinear_arith)
                    requires
                        d >= 1,
                        q >= 0,
                ;
            }
        }
        q + 1
    } else {
        q
    }
}

/// The number of 24 binary digits that is nearest to `num / den`, ties to the
/// even one: what single-precision arithmetic makes of a quotient, as long as
/// numbers below 2^23 units do not occur, other than zero and whole ones.
pub open spec fn single(num: int, den: int) -> int
    decreases num - den,
    when den > 0
{
    if num < den * 0x100_0000 {
        rounded(num, den)
    } else {
        2 * single(num, 2 * den)
    }
}

/// 2^(24 + j).
pub open spec fn digits_and(j: nat) -> int
    decreases j,
{
    if j == 0 {
        0x100_0000
    } else {
        2 * digits_and((j - 1) as nat)
    }
}

proof fn lemma_rounded(n: int, d: int)
    requires
        d > 0,
        n >= 0,
    ensures
        0 <= rounded(n, d),
        n / d <= rounded(n, d) <= n / d + 1,
        2 * rounded(n, d) * d <= 2 * n + d,
        2 * rounded(n, d) * d >= 2 * n - d,
{
    let q = n / d;
    let r = n % d;
    assert(n == q * d + r && 0 <= r < d && q >= 0) by (nonlinear_arith)
        requires
            q == n / d,
            r == n % d,
            d > 0,
            n >= 0,
    ;
    let t = rounded(n, d);
    if t == q {
        assert(2 * t * d == 2 * (q * d)) by (nonlinear_arith)
            requires
                t == q,
        ;
    } else {
        assert(2 * t * d == 2 * (q * d) + 2 * d) by (nonlinear_arith)
            requires
                t == q + 1,
        ;
    }
}

/// Rounding does not step over a power of two.
pub proof fn lemma_single_bound(num: int, den: int, j: nat)
    requires
        0 <= num <= den * digits_and(j),
        den > 0,
    ensures
        0 <= single(num, den) <= digits_and(j),
    decreases num - den,
{
    lemma_digits_and(j);
    if num < den * 0x100_0000 {
        lemma_rounded(num, den);
        let t = rounded(num, den);
        assert(t <= 0x100_0000) by (nonlinear_arith)
            requires
                2 * t * den <= 2 * num + den,
                num < den * 0x100_0000,
                den > 0,
        ;
    } else if j == 0 {
        let half = 2 * den;
        assert(digits_and(0) == 0x100_0000);
        assert(num < half * 0x100_0000);
        assert(single(num, half) == rounded(num, half));
        assert(rounded(num, half) == 0x80_0000) by {
            assert(num / half == 0x80_0000 && num % half == 0) by (nonlinear_arith)
                requires
                    num == half * 0x80_0000,
                    half > 0,
            ;
        }
    } else {
        let half = 2 * den;
        let k = (j - 1) as nat;
        assert(num <= half * digits_and(k)) by (nonlinear_arith)
            requires
                num <= den * digits_and(j),
                digits_and(j) == 2 * digits_and(k),
                half == 2 * den,
        ;
        lemma_single_bound(num, half, k);
    }
}

proof fn lemma_digits_and(j: nat)
    ensures
        digits_and(j) >= 0x100_0000,
    decreases j,
{
    if j > 0 {
        lemma_digits_and((j - 1) as nat);
    }
}

/// Nothing rounds to nothing.
pub proof fn lemma_single_zero(den: int)
    requires
        den > 0,
    ensures
        single(0, den) == 0,
{
    assert(0int / den == 0 && 0int % den == 0) by (nonlinear_arith)
        requires
            den > 0,
    ;
}

pub proof fn lemma_single_not_negative(num: int, den: int)
    requires
        0 <= num,
        0 < den,
    ensures
        single(num, den) >= 0,
    decreases num - den,
{
    if num < den * 0x100_0000 {
        lemma_rounded(num, den);
    } else {
        lemma_single_not_negative(num, 2 * den);
    }
}

/// What is at least one unit does not round to nothing.
pub proof fn lemma_single_positive(num: int, den: int)
    requires
        0 < den <= num,
    ensures
        single(num, den) >= 1,
    decreases num - den,
{
    if num < den * 0x100_0000 {
        assert(num / den >= 1) by (nonlinear_arith)
            requires
                0 < den <= num,
        ;
    } else {
        lemma_single_positive(num, 2 * den);
    }
}

/// A number so large that `d` is less than half its last digit does not change
/// when `d` is added.
pub proof fn lemma_single_absorbs(d: int)
    requires
        0 <= d <= 0x20_0000_0000,
    ensures
        single(0x4000_0000_0000_0000 + d, 1) == 0x4000_0000_0000_0000,
{
    let x = 0x4000_0000_0000_0000 + d;
    reveal_with_fuel(single, 41);
    let v: int = 0x80_0000_0000;
    assert(x / v == 0x80_0000 && x % v == d) by (nonlinear_arith)
        requires
            x == v * 0x80_0000 + d,
            0 <= d < v,
            v == 0x80_0000_0000,
    ;
    assert(rounded(x, v) == 0x80_0000);
}

/// Computes [`single`].
pub fn to_single(num: u128, den: u128) -> (r: u128)
    requires
        0 < den <= 0x1_0000_0000_0000_0000,
        num <= 0x1000_0000_0000_0000_0000_0000_0000,
    ensures
        r == single(num as int, den as int),
{
    let mut d: u128 = den;
    let mut scale: u128 = 1;
    while num >= d * 0x100_0000
        invariant
            0 < den <= 0x1_0000_0000_0000_0000,
            num <= 0x1000_0000_0000_0000_0000_0000_0000,
            d == den * scale,
            1 <= scale,
            0 < d,
            d * 0x80_0000 <= num || d == den,
            single(num as int, den as int) == scale * single(num as int, d as int),
        decreases num - d,
    {
        assert(scale <= d) by (nonlinear_arith)
            requires
                d == den * scale,
                den >= 1,
                scale >= 1,
        ;
        proof {
            let s = single(num as int, 2 * d as int);
            assert(scale * (2 * s) == (2 * scale) * s) by (nonlinear_arith);
            assert(2 * d == den * (2 * scale)) by (nonlinear_arith)
                requires
                    d == den * scale,
            ;
        }
        d = 2 * d;
        scale = 2 * scale;
    }
    let t: u128 = round_div(num, d);
    proof {
        lemma_rounded(num as int, d as int);
        assert(scale <= d) by (nonlinear_arith)
            requires
                d == den * scale,
                den >= 1,
                scale >= 1,
        ;
        assert(t <= 0x100_0000) by (nonlinear_arith)
            requires
                2 * t * d <= 2 * num + d,
                num < d * 0x100_0000,
                d > 0,
        ;
        assert(t * scale <= 0x100_0000 * scale) by (nonlinear_arith)
            requires
                t <= 0x100_0000,
                scale >= 1,
        ;
        assert(scale * t == t * scale) by (nonlinear_arith);
    }
    t * scale
}

} // verus!
