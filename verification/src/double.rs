//! Double-precision numbers, given by their bits, and how the hardware compares
//! and subtracts them.

use crate::single::{round_div, rounded};
use vstd::arithmetic::power2::{lemma2_to64, lemma2_to64_rest, lemma_pow2_unfold, pow2};
use vstd::prelude::*;

verus! {

/// The bit of the sign. Alone it is a zero with a sign.
pub const SIGN: u64 = 0x8000_0000_0000_0000;

pub const INFINITY: u64 = 0x7ff0_0000_0000_0000;

/// One of the patterns that are no number.
pub const QUIET_NAN: u64 = 0x7ff8_0000_0000_0000;

/// How far the bits of a number are from those of its double.
pub const DOUBLING: u64 = 0x10_0000_0000_0000;

// ---------------------------------------------------------------------------
// What the bits say

/// The bits without the sign.
pub open spec fn unsigned(bits: u64) -> int {
    bits as int % SIGN as int
}

pub open spec fn is_nan(bits: u64) -> bool {
    unsigned(bits) > INFINITY
}

pub open spec fn is_infinite(bits: u64) -> bool {
    unsigned(bits) == INFINITY
}

/// The size of the number with the bits `m`, in units of the least one that there
/// is: the first 2^53 patterns count the units, and from there on each 2^52
/// patterns double the number.
pub open spec fn magnitude(m: int) -> int
    decreases m,
{
    if m < 0x20_0000_0000_0000 {
        m
    } else {
        2 * magnitude(m - DOUBLING)
    }
}

/// The number that the bits stand for, in the same units. Infinity is beyond all
/// others.
pub open spec fn amount(bits: u64) -> int {
    if bits < SIGN {
        magnitude(bits as int)
    } else {
        -magnitude(bits - SIGN)
    }
}

/// `a` is more than `b`. A pattern that is no number is not more, nor less, than
/// anything.
pub open spec fn more(a: u64, b: u64) -> bool {
    !is_nan(a) && !is_nan(b) && amount(a) > amount(b)
}

pub proof fn lemma_magnitude(m: int, n: int)
    requires
        0 <= m <= n,
    ensures
        m <= magnitude(m) <= magnitude(n),
        m < n ==> magnitude(m) < magnitude(n),
    decreases n,
{
    if m >= 0x20_0000_0000_0000 {
        lemma_magnitude(m - DOUBLING, n - DOUBLING);
    } else if n >= 0x20_0000_0000_0000 {
        lemma_magnitude(n - DOUBLING, n - DOUBLING);
    }
}

/// Sizes are ordered as their bits are.
pub proof fn lemma_magnitudes_ordered(m: int, n: int)
    requires
        0 <= m,
        0 <= n,
    ensures
        magnitude(m) < magnitude(n) <==> m < n,
        magnitude(m) == magnitude(n) <==> m == n,
        magnitude(m) >= m,
{
    if m <= n {
        lemma_magnitude(m, n);
    } else {
        lemma_magnitude(n, m);
        lemma_magnitude(m, m);
    }
}

pub fn is_more(a: u64, b: u64) -> (r: bool)
    ensures
        r == more(a, b),
{
    let p: u64 = a % SIGN;
    let q: u64 = b % SIGN;
    if p > INFINITY || q > INFINITY {
        return false;
    }
    proof {
        lemma_magnitudes_ordered(p as int, q as int);
        lemma_magnitudes_ordered(q as int, p as int);
        lemma_magnitudes_ordered(0, p as int);
        lemma_magnitudes_ordered(0, q as int);
    }
    if a < SIGN {
        if b < SIGN {
            p > q
        } else {
            p > 0 || q > 0
        }
    } else {
        b >= SIGN && p < q
    }
}

// ---------------------------------------------------------------------------
// Rounding

/// The bits of the number that is nearest to `num / den`, ties to the even one,
/// as if there were no greatest number.
pub open spec fn nearest(num: int, den: int) -> int
    decreases num - den,
    when den > 0
{
    if num < den * 0x20_0000_0000_0000 {
        rounded(num, den)
    } else {
        nearest(num, 2 * den) + DOUBLING
    }
}

/// What is too large is infinite.
pub open spec fn capped(m: int) -> u64 {
    if m > INFINITY {
        INFINITY
    } else {
        m as u64
    }
}

pub open spec fn opposite(bits: u64) -> u64 {
    if bits < SIGN {
        (bits + SIGN) as u64
    } else {
        (bits - SIGN) as u64
    }
}

/// `a - b`: the nearest number to the difference.
pub open spec fn minus(a: u64, b: u64) -> u64 {
    let n = amount(a) - amount(b);
    if is_nan(a) || is_nan(b) || (is_infinite(a) && a == b) {
        QUIET_NAN
    } else if is_infinite(a) {
        a
    } else if is_infinite(b) {
        opposite(b)
    } else if n > 0 {
        capped(nearest(n, 1))
    } else if n < 0 {
        (SIGN + capped(nearest(-n, 1))) as u64
    } else if a == SIGN && b == 0 {
        SIGN
    } else {
        0
    }
}

proof fn lemma_rounded_twice(n: int, d: int)
    requires
        n >= 0,
        d > 0,
    ensures
        rounded(2 * n, 2 * d) == rounded(n, d),
{
    let q = n / d;
    let r = n % d;
    assert(n == q * d + r && 0 <= r < d) by (nonlinear_arith)
        requires
            q == n / d,
            r == n % d,
            d > 0,
            n >= 0,
    ;
    assert(2 * n == q * (2 * d) + 2 * r) by (nonlinear_arith)
        requires
            n == q * d + r,
    ;
    lemma_divided(2 * n, 2 * d, q, 2 * r);
}

/// The one quotient and remainder.
proof fn lemma_divided(n: int, d: int, q: int, r: int)
    requires
        n == q * d + r,
        0 <= r < d,
    ensures
        n / d == q,
        n % d == r,
{
    vstd::arithmetic::div_mod::lemma_fundamental_div_mod_converse(n, d, q, r);
}

proof fn lemma_nearest_twice(n: int, d: int)
    requires
        n >= 0,
        d > 0,
    ensures
        nearest(2 * n, 2 * d) == nearest(n, d),
    decreases n - d,
{
    if n < d * 0x20_0000_0000_0000 {
        lemma_rounded_twice(n, d);
    } else {
        lemma_nearest_twice(n, 2 * d);
    }
}

/// The bits of twice a number.
pub open spec fn doubled(m: int) -> int {
    if m < DOUBLING {
        2 * m
    } else {
        m + DOUBLING
    }
}

proof fn lemma_whole(n: int)
    requires
        n >= 0,
    ensures
        rounded(n, 1) == n,
{
    lemma_divided(n, 1, n, 0);
}

proof fn lemma_nearest_positive(n: int, d: int)
    requires
        n >= 0,
        d > 0,
    ensures
        nearest(n, d) >= 0,
    decreases n - d,
{
    if n < d * 0x20_0000_0000_0000 {
        assert(n / d >= 0) by (nonlinear_arith)
            requires
                n >= 0,
                d > 0,
        ;
    } else {
        lemma_nearest_positive(n, 2 * d);
    }
}

/// Rounding keeps to scale.
proof fn lemma_nearest_of_double(n: int)
    requires
        n >= 0,
    ensures
        nearest(2 * n, 1) == doubled(nearest(n, 1)),
{
    lemma_whole(n);
    lemma_whole(2 * n);
    if n >= DOUBLING {
        lemma_nearest_twice(n, 1);
        lemma_nearest_positive(n, 2);
    }
}

/// How many units the last digit of a number counts.
spec fn last_digit(m: int) -> int
    decreases m,
{
    if m < 0x20_0000_0000_0000 {
        1
    } else {
        2 * last_digit(m - DOUBLING)
    }
}

proof fn lemma_last_digit(m: int, n: int)
    requires
        m <= n,
    ensures
        1 <= last_digit(m) <= last_digit(n),
    decreases n,
{
    if m >= 0x20_0000_0000_0000 {
        lemma_last_digit(m - DOUBLING, n - DOUBLING);
    } else if n >= 0x20_0000_0000_0000 {
        lemma_last_digit(n - DOUBLING, n - DOUBLING);
    }
}

/// A number has 53 digits.
proof fn lemma_digits(m: int)
    requires
        m >= DOUBLING,
    ensures
        magnitude(m) >= DOUBLING * last_digit(m),
        last_digit(m) >= 1,
    decreases m,
{
    if m >= 0x20_0000_0000_0000 {
        lemma_digits(m - DOUBLING);
    }
}

/// What is added below half the last digit does not show.
proof fn lemma_plus_absorbed(m: int, t: int, d: int)
    requires
        m >= DOUBLING,
        d > 0,
        0 <= 2 * t < d * last_digit(m),
    ensures
        nearest(magnitude(m) * d + t, d) == m,
    decreases m,
{
    let num = magnitude(m) * d + t;
    if m < 0x20_0000_0000_0000 {
        assert(m * d + t < d * 0x20_0000_0000_0000) by (nonlinear_arith)
            requires
                m <= 0x20_0000_0000_0000 - 1,
                t < d,
                d > 0,
        ;
        lemma_divided(num, d, m, t);
    } else {
        let less = m - DOUBLING;
        assert(num == magnitude(less) * (2 * d) + t) by (nonlinear_arith)
            requires
                num == magnitude(m) * d + t,
                magnitude(m) == 2 * magnitude(less),
        ;
        assert(d * last_digit(m) == (2 * d) * last_digit(less)) by (nonlinear_arith)
            requires
                last_digit(m) == 2 * last_digit(less),
        ;
        lemma_plus_absorbed(less, t, 2 * d);
        lemma_magnitude(less, less);
        assert(num >= d * 0x20_0000_0000_0000) by (nonlinear_arith)
            requires
                num == magnitude(less) * (2 * d) + t,
                magnitude(less) >= 0x10_0000_0000_0000,
                t >= 0,
                d > 0,
        ;
    }
}

/// What is taken away below a quarter of the last digit does not show.
proof fn lemma_minus_absorbed(m: int, t: int, d: int)
    requires
        m >= DOUBLING,
        d > 0,
        0 < 4 * t < d * last_digit(m),
    ensures
        nearest(magnitude(m) * d - t, d) == m,
    decreases m,
{
    let num = magnitude(m) * d - t;
    if m <= 0x20_0000_0000_0000 {
        if m == 0x20_0000_0000_0000 {
            assert(magnitude(m - DOUBLING) == m - DOUBLING);
            assert(last_digit(m - DOUBLING) == 1);
        }
        assert(magnitude(m) == m);
        assert(2 * t < d) by (nonlinear_arith)
            requires
                4 * t < d * last_digit(m),
                last_digit(m) == 1 || last_digit(m) == 2,
                d > 0,
        ;
        assert(num == (m - 1) * d + (d - t)) by (nonlinear_arith)
            requires
                num == m * d - t,
        ;
        assert(num < d * 0x20_0000_0000_0000) by (nonlinear_arith)
            requires
                num == m * d - t,
                m <= 0x20_0000_0000_0000,
                t > 0,
                d > 0,
        ;
        lemma_divided(num, d, m - 1, d - t);
    } else {
        let less = m - DOUBLING;
        let unit = last_digit(less);
        assert(num == magnitude(less) * (2 * d) - t) by (nonlinear_arith)
            requires
                num == magnitude(m) * d - t,
                magnitude(m) == 2 * magnitude(less),
        ;
        assert(d * last_digit(m) == (2 * d) * unit) by (nonlinear_arith)
            requires
                last_digit(m) == 2 * unit,
        ;
        lemma_minus_absorbed(less, t, 2 * d);
        lemma_digits(less);
        assert(num >= d * 0x20_0000_0000_0000) by {
            if less < 0x20_0000_0000_0000 {
                assert(magnitude(less) == less && unit == 1);
                assert((2 * d) * unit == 2 * d) by (nonlinear_arith)
                    requires
                        unit == 1,
                ;
                assert(num >= d * 0x20_0000_0000_0000) by (nonlinear_arith)
                    requires
                        num == less * (2 * d) - t,
                        less >= 0x10_0000_0000_0000 + 1,
                        4 * t < 2 * d,
                        d > 0,
                ;
            } else {
                lemma_last_digit(less - DOUBLING, less - DOUBLING);
                assert(unit >= 2);
                assert(num >= d * 0x20_0000_0000_0000) by (nonlinear_arith)
                    requires
                        num == magnitude(less) * (2 * d) - t,
                        magnitude(less) >= 0x10_0000_0000_0000 * unit,
                        4 * t < (2 * d) * unit,
                        unit >= 2,
                        d > 0,
                ;
            }
        }
    }
}

/// Computes [`nearest`] of a whole number.
fn to_nearest(n: u128) -> (r: u64)
    requires
        n <= 0x1_0000_0000_0000_0000_0000_0000_0000,
    ensures
        r == nearest(n as int, 1),
        r <= 0x1000_0000_0000_0000,
{
    let mut d: u128 = 1;
    let mut steps: u64 = 0;
    proof {
        lemma2_to64();
    }
    while n >= d * 0x20_0000_0000_0000
        invariant
            n <= 0x1_0000_0000_0000_0000_0000_0000_0000,
            d == pow2(steps as nat),
            1 <= d <= 0x1000_0000_0000_0000,
            steps <= 60,
            nearest(n as int, 1) == nearest(n as int, d as int) + steps * DOUBLING,
        decreases n - d,
    {
        proof {
            lemma2_to64_rest();
            if steps == 60 {
                assert(pow2(60) == 0x1000_0000_0000_0000);
            }
            lemma_pow2_unfold((steps + 1) as nat);
        }
        d = 2 * d;
        steps = steps + 1;
    }
    let t: u128 = round_div(n, d);
    proof {
        assert(n as int / d as int <= 0x20_0000_0000_0000 - 1) by (nonlinear_arith)
            requires
                n < d * 0x20_0000_0000_0000,
                d > 0,
                n >= 0,
        ;
    }
    t as u64 + steps * DOUBLING
}

/// Computes [`magnitude`] of a number that is not too large.
fn to_magnitude(m: u64) -> (r: u128)
    requires
        m < 60 * DOUBLING,
    ensures
        r == magnitude(m as int),
        r <= 0x8000_0000_0000_0000_0000_0000_0000,
{
    proof {
        assert(magnitude(60 * DOUBLING) == 0x8000_0000_0000_0000_0000_0000_0000) by {
            reveal_with_fuel(magnitude, 61);
        }
        lemma_magnitude(m as int, 60 * DOUBLING);
    }
    let mut rest: u64 = m;
    let mut scale: u128 = 1;
    while rest >= 0x20_0000_0000_0000
        invariant
            1 <= scale,
            scale * magnitude(rest as int) == magnitude(m as int),
            magnitude(m as int) <= 0x8000_0000_0000_0000_0000_0000_0000,
        decreases rest,
    {
        proof {
            let less = magnitude(rest - DOUBLING);
            lemma_magnitude(rest - DOUBLING, rest - DOUBLING);
            assert(scale * (2 * less) == (2 * scale) * less) by (nonlinear_arith);
            assert(2 * scale <= (2 * scale) * less) by (nonlinear_arith)
                requires
                    less >= 1,
                    scale >= 1,
            ;
        }
        rest = rest - DOUBLING;
        scale = 2 * scale;
    }
    scale * rest as u128
}

/// The sum or the difference of two sizes, each doubled `k` times.
spec fn combined(large: int, small: int, add_up: bool, k: int) -> int {
    if add_up {
        magnitude(large + k * DOUBLING) + magnitude(small + k * DOUBLING)
    } else {
        magnitude(large + k * DOUBLING) - magnitude(small + k * DOUBLING)
    }
}

proof fn lemma_combined(large: int, small: int, add_up: bool, k: int)
    requires
        DOUBLING <= small <= large,
        k >= 0,
    ensures
        nearest(combined(large, small, add_up, k + 1), 1) == doubled(
            nearest(combined(large, small, add_up, k), 1),
        ),
{
    let a = large + k * DOUBLING;
    let b = small + k * DOUBLING;
    assert(large + (k + 1) * DOUBLING == a + DOUBLING);
    assert(small + (k + 1) * DOUBLING == b + DOUBLING);
    assert(magnitude(a + DOUBLING) == 2 * magnitude(a));
    assert(magnitude(b + DOUBLING) == 2 * magnitude(b));
    lemma_magnitude(b, a);
    lemma_nearest_of_double(combined(large, small, add_up, k));
}

/// Once a number has all its digits, each doubling moves its bits on.
proof fn lemma_scaled(large: int, small: int, add_up: bool, k: int, n: int)
    requires
        DOUBLING <= small <= large,
        0 <= k <= n,
        nearest(combined(large, small, add_up, k), 1) >= DOUBLING,
    ensures
        nearest(combined(large, small, add_up, n), 1) == nearest(combined(large, small, add_up, k), 1) + (n
            - k) * DOUBLING,
    decreases n - k,
{
    if k < n {
        lemma_combined(large, small, add_up, k);
        lemma_scaled(large, small, add_up, k + 1, n);
    }
}

/// The bits of the sum, or of the difference, of two sizes.
fn combine(p: u64, q: u64, add_up: bool) -> (r: u64)
    requires
        q <= p < INFINITY,
    ensures
        r == capped(
            nearest(
                if add_up {
                    magnitude(p as int) + magnitude(q as int)
                } else {
                    magnitude(p as int) - magnitude(q as int)
                },
                1,
            ),
        ),
        r <= INFINITY,
{
    proof {
        lemma_magnitude(q as int, p as int);
    }
    // Both are brought down by as many doublings as the smaller one has.
    let down: u64 = if q < 0x20_0000_0000_0000 {
        0
    } else {
        q / DOUBLING - 1
    };
    let small: u64 = q - down * DOUBLING;
    let large: u64 = p - down * DOUBLING;
    assert(small < 0x20_0000_0000_0000);
    assert(down > 0 ==> small >= DOUBLING);
    let mut m: u64 = if large >= 60 * DOUBLING {
        proof {
            assert(last_digit(60 * DOUBLING) == 0x800_0000_0000_0000) by {
                reveal_with_fuel(last_digit, 61);
            }
            lemma_last_digit(60 * DOUBLING, large as int);
            assert(magnitude(large as int) * 1 == magnitude(large as int));
            if add_up || small == 0 {
                lemma_plus_absorbed(large as int, small as int, 1);
            } else {
                lemma_minus_absorbed(large as int, small as int, 1);
            }
        }
        large
    } else {
        proof {
            lemma_magnitude(small as int, large as int);
        }
        if add_up {
            to_nearest(to_magnitude(large) + small as u128)
        } else {
            to_nearest(to_magnitude(large) - small as u128)
        }
    };
    let mut up: u64 = 0;
    while up < down && m < DOUBLING
        invariant
            up <= down <= 2047,
            small <= large,
            down > 0 ==> small >= DOUBLING,
            m <= large + 0x1000_0000_0000_0000,
            m == nearest(combined(large as int, small as int, add_up, up as int), 1),
        decreases down - up,
    {
        proof {
            lemma_combined(large as int, small as int, add_up, up as int);
        }
        m = 2 * m;
        up = up + 1;
    }
    if up < down {
        proof {
            lemma_scaled(large as int, small as int, add_up, up as int, down as int);
        }
        m = m + (down - up) * DOUBLING;
    }
    if m > INFINITY {
        INFINITY
    } else {
        m
    }
}

/// The other way round the difference has the other sign and the same size.
pub proof fn lemma_minus_swapped(a: u64, b: u64)
    ensures
        is_nan(minus(a, b)) == is_nan(minus(b, a)),
        unsigned(minus(a, b)) == unsigned(minus(b, a)),
{
    let n = amount(a) - amount(b);
    if n > 0 {
        lemma_nearest_positive(n, 1);
    } else {
        lemma_nearest_positive(-n, 1);
    }
}

/// Subtracts as the hardware does.
pub fn subtract(a: u64, b: u64) -> (r: u64)
    ensures
        r == minus(a, b),
{
    let p: u64 = a % SIGN;
    let q: u64 = b % SIGN;
    if p > INFINITY || q > INFINITY || (p == INFINITY && a == b) {
        return QUIET_NAN;
    }
    if p == INFINITY {
        return a;
    }
    if q == INFINITY {
        return if b < SIGN {
            b + SIGN
        } else {
            b - SIGN
        };
    }
    proof {
        lemma_magnitudes_ordered(p as int, q as int);
        lemma_magnitudes_ordered(q as int, p as int);
        lemma_magnitudes_ordered(0, p as int);
        lemma_magnitudes_ordered(0, q as int);
        lemma_whole(0);
    }
    let negative: bool = a >= SIGN;
    let add_up: bool = negative != (b >= SIGN);
    if add_up {
        let m: u64 = if p < q {
            combine(q, p, true)
        } else {
            combine(p, q, true)
        };
        if negative {
            SIGN + m
        } else {
            m
        }
    } else if p == q {
        0
    } else if p < q {
        let m: u64 = combine(q, p, false);
        if negative {
            m
        } else {
            SIGN + m
        }
    } else {
        let m: u64 = combine(p, q, false);
        if negative {
            SIGN + m
        } else {
            m
        }
    }
}

} // verus!
