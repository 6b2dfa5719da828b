//! Fixed-point numeric primitives for the analysis pipeline.
//!
//! Amplitude-like quantities carry six decimal places (`AMP_SCALE`
//! microunits). The cosine and logarithm here are fixed-point
//! approximations; their spec functions are the exact mathematical
//! definitions of what the executable code computes, so every caller's
//! contract pins the result bit for bit.

use vstd::prelude::*;

verus! {

use crate::AMP_SCALE;
use vstd::arithmetic::power2::pow2;

/// One full turn, in microradians (2 * pi * 1e6, truncated).
pub const TWO_PI_MICRO: i64 = 6_283_185;

/// Half a turn, in microradians.
pub const PI_MICRO: i64 = 3_141_592;

/// A quarter turn, in microradians.
pub const HALF_PI_MICRO: i64 = 1_570_796;

/// Truncating (round-toward-zero) division, the semantics of Rust's `/`
/// on signed integers, for a positive divisor.
pub open spec fn div_trunc(a: int, b: int) -> int
    recommends
        b > 0,
{
    if a >= 0 {
        a / b
    } else {
        -((-a) / b)
    }
}

/// The integer square root: the greatest `r` with `r * r <= n`.
pub open spec fn spec_sqrt(n: nat) -> nat
    decreases n,
{
    if n == 0 {
        0
    } else {
        let r = spec_sqrt((n - 1) as nat);
        if (r + 1) * (r + 1) <= n {
            r + 1
        } else {
            r
        }
    }
}

pub proof fn lemma_sqrt_bracket(n: nat)
    ensures
        spec_sqrt(n) * spec_sqrt(n) <= n,
        n < (spec_sqrt(n) + 1) * (spec_sqrt(n) + 1),
    decreases n,
{
    let s = spec_sqrt(n);
    if n == 0 {
        assert(s == 0);
        assert(s * s <= n && n < (s + 1) * (s + 1)) by (nonlinear_arith)
            requires
                s == 0,
                n == 0,
        ;
    } else {
        lemma_sqrt_bracket((n - 1) as nat);
        let r = spec_sqrt((n - 1) as nat);
        assert(r * r <= n - 1);
        assert(n - 1 < (r + 1) * (r + 1));
        if (r + 1) * (r + 1) <= n {
            assert(s == r + 1);
            assert(n == (r + 1) * (r + 1));
            assert(s * s <= n);
            assert(n < (s + 1) * (s + 1)) by (nonlinear_arith)
                requires
                    s == r + 1,
                    n == (r + 1) * (r + 1),
            ;
        } else {
            assert(s == r);
            assert(s * s <= n);
            assert(n < (s + 1) * (s + 1));
        }
    }
}

pub proof fn lemma_sqrt_unique(r: nat, n: nat)
    requires
        r * r <= n,
        n < (r + 1) * (r + 1),
    ensures
        r == spec_sqrt(n),
{
    lemma_sqrt_bracket(n);
    let s = spec_sqrt(n);
    if r < s {
        assert((r + 1) * (r + 1) <= s * s) by (nonlinear_arith)
            requires
                r + 1 <= s,
        ;
    }
    if s < r {
        assert((s + 1) * (s + 1) <= r * r) by (nonlinear_arith)
            requires
                s + 1 <= r,
        ;
    }
}

/// Multiplying within bounds stays within the product of the bounds.
pub proof fn lemma_mul_le(a: int, b: int, c: int, d: int)
    requires
        0 <= a <= c,
        0 <= b <= d,
    ensures
        0 <= a * b <= c * d,
{
    assert(0 <= a * b <= c * d) by (nonlinear_arith)
        requires
            0 <= a <= c,
            0 <= b <= d,
    ;
}

/// Division of a bounded nonnegative value is bounded by the divided bound.
pub proof fn lemma_div_le(a: int, b: int, d: int)
    requires
        0 <= a <= b,
        0 < d,
    ensures
        0 <= a / d <= b / d,
{
    vstd::arithmetic::div_mod::lemma_div_is_ordered(a, b, d);
    vstd::arithmetic::div_mod::lemma_div_pos_is_pos(a, d);
}

/// `2^64`, an upper bound on the square root of any `u128`.
pub const SQRT_HI: u128 = 0x1_0000_0000_0000_0000;

/// Binary-search integer square root over the full `u128` range.
pub fn isqrt(x: u128) -> (r: u128)
    ensures
        r as nat == spec_sqrt(x as nat),
        (r as nat) * (r as nat) <= x as nat,
        (x as nat) < (r as nat + 1) * (r as nat + 1),
{
    let mut lo: u128 = 0;
    let mut hi: u128 = if x < SQRT_HI {
        x + 1
    } else {
        SQRT_HI
    };
    proof {
        assert((x as nat) < (hi as nat) * (hi as nat)) by (nonlinear_arith)
            requires
                x < SQRT_HI ==> hi == x + 1,
                x >= SQRT_HI ==> hi == SQRT_HI,
                hi as nat >= 1,
                (SQRT_HI as nat) * (SQRT_HI as nat) > u128::MAX as nat,
                x <= u128::MAX,
        ;
    }
    while hi - lo > 1
        invariant
            lo < hi,
            (lo as nat) * (lo as nat) <= x as nat,
            (x as nat) < (hi as nat) * (hi as nat),
            hi <= SQRT_HI,
        decreases hi - lo,
    {
        let mid: u128 = lo + (hi - lo) / 2;
        proof {
            assert((mid as nat) * (mid as nat) < (SQRT_HI as nat) * (SQRT_HI as nat))
                by (nonlinear_arith)
                requires
                    mid < SQRT_HI,
            ;
        }
        if mid * mid <= x {
            lo = mid;
        } else {
            hi = mid;
        }
    }
    proof {
        lemma_sqrt_unique(lo as nat, x as nat);
    }
    lo
}

/// Fixed-point cosine on `[0, pi/2]`, by a truncated Taylor series in
/// microradians; result in microunits, clamped to `[-AMP_SCALE, AMP_SCALE]`.
pub open spec fn spec_cos_taylor(x: int) -> int
    recommends
        0 <= x <= HALF_PI_MICRO,
{
    let x2 = x * x / 1_000_000;
    let t2 = x2 / 2;
    let t4 = x2 * x2 / 1_000_000 / 24;
    let t6 = x2 * x2 / 1_000_000 * x2 / 1_000_000 / 720;
    let c = 1_000_000 - t2 + t4 - t6;
    if c > 1_000_000 {
        1_000_000
    } else if c < -1_000_000 {
        -1_000_000
    } else {
        c
    }
}

/// `cos(2 * pi * i / n)` in microunits, for `0 <= i <= n`, reduced by the
/// symmetry `cos(2 pi (n - i) / n) == cos(2 pi i / n)` to a quarter wave.
pub open spec fn spec_cos_frac(i: int, n: int) -> int
    recommends
        0 <= i <= n,
        n >= 1,
{
    let j = if 2 * i > n {
        n - i
    } else {
        i
    };
    let phase = TWO_PI_MICRO * j / n;
    if phase > HALF_PI_MICRO {
        -spec_cos_taylor(PI_MICRO - phase)
    } else {
        spec_cos_taylor(phase)
    }
}

fn cos_taylor(x: i64) -> (c: i64)
    requires
        0 <= x <= HALF_PI_MICRO,
    ensures
        c == spec_cos_taylor(x as int),
        -AMP_SCALE <= c <= AMP_SCALE,
{
    proof {
        lemma_mul_le(x as int, x as int, HALF_PI_MICRO as int, HALF_PI_MICRO as int);
    }
    let x2: i64 = x * x / 1_000_000;
    proof {
        lemma_div_le((x as int) * (x as int), 2_467_400_073_616, 1_000_000);
        lemma_mul_le(x2 as int, x2 as int, 2_467_400, 2_467_400);
    }
    let t2: i64 = x2 / 2;
    let q4: i64 = x2 * x2 / 1_000_000;
    proof {
        lemma_div_le((x2 as int) * (x2 as int), 6_088_062_760_000, 1_000_000);
        lemma_mul_le(q4 as int, x2 as int, 6_088_062, 2_467_400);
    }
    let t4: i64 = q4 / 24;
    let t6: i64 = q4 * x2 / 1_000_000 / 720;
    proof {
        lemma_div_le(q4 as int, 6_088_062, 24);
        lemma_div_le((q4 as int) * (x2 as int), 15_021_684_178_800, 1_000_000);
        lemma_div_le((q4 as int) * (x2 as int) / 1_000_000, 15_021_684, 720);
        lemma_div_le(x2 as int, 2_467_400, 2);
    }
    let c: i64 = 1_000_000 - t2 + t4 - t6;
    if c > 1_000_000 {
        1_000_000
    } else if c < -1_000_000 {
        -1_000_000
    } else {
        c
    }
}

/// `cos(2 * pi * i / n)` in microunits.
pub fn cos_frac(i: usize, n: usize) -> (c: i64)
    requires
        i <= n,
        n >= 1,
    ensures
        c == spec_cos_frac(i as int, n as int),
        -AMP_SCALE <= c <= AMP_SCALE,
{
    let j: usize = if i > n - i {
        n - i
    } else {
        i
    };
    proof {
        assert(2 * (i as int) > n as int ==> j == n - i);
        assert(2 * (i as int) <= n as int ==> j == i);
        assert(2 * (j as int) <= n as int);
        assert((TWO_PI_MICRO as int) * (j as int) >= 0) by (nonlinear_arith)
            requires
                j >= 0,
        ;
        assert((TWO_PI_MICRO as int) * (j as int) < (n as int) * (PI_MICRO as int + 1))
            by (nonlinear_arith)
            requires
                2 * (j as int) <= n as int,
                n >= 1,
                j >= 0,
                TWO_PI_MICRO == 6_283_185,
                PI_MICRO == 3_141_592,
        ;
        vstd::arithmetic::div_mod::lemma_multiply_divide_lt(
            (TWO_PI_MICRO as int) * (j as int),
            n as int,
            PI_MICRO as int + 1,
        );
        vstd::arithmetic::div_mod::lemma_div_pos_is_pos(
            (TWO_PI_MICRO as int) * (j as int),
            n as int,
        );
    }
    let phase: i64 = ((TWO_PI_MICRO as i128) * (j as i128) / (n as i128)) as i64;
    if phase > HALF_PI_MICRO {
        -cos_taylor(PI_MICRO - phase)
    } else {
        cos_taylor(phase)
    }
}

pub proof fn lemma_cos_frac_bounds(i: int, n: int)
    requires
        0 <= i <= n,
        n >= 1,
    ensures
        -1_000_000 <= spec_cos_frac(i, n) <= 1_000_000,
{
}

/// Hann weight at index `i` of a window of `size` samples, in microunits:
/// `0.5 * (1 - cos(2 pi i / (size - 1)))`. A window of one sample weighs
/// that sample fully.
pub open spec fn spec_hann_weight(i: int, size: int) -> int
    recommends
        0 <= i < size,
{
    if size < 2 {
        1_000_000
    } else {
        (1_000_000 - spec_cos_frac(i, size - 1)) / 2
    }
}

pub proof fn lemma_hann_weight_bounds(i: int, size: int)
    requires
        0 <= i < size,
    ensures
        0 <= spec_hann_weight(i, size) <= 1_000_000,
{
    if size >= 2 {
        lemma_cos_frac_bounds(i, size - 1);
    }
}

/// The Hann analysis window, tapering to zero at both ends.
pub fn hann_window(size: usize) -> (w: Vec<i64>)
    ensures
        w@.len() == size,
        forall|i: int| 0 <= i < size ==> w@[i] == spec_hann_weight(i, size as int),
{
    let mut w: Vec<i64> = Vec::new();
    if size < 2 {
        if size == 1 {
            w.push(1_000_000);
        }
        return w;
    }
    let mut i: usize = 0;
    while i < size
        invariant
            size >= 2,
            i <= size,
            w@.len() == i,
            forall|j: int| 0 <= j < i ==> w@[j] == spec_hann_weight(j, size as int),
        decreases size - i,
    {
        let c: i64 = cos_frac(i, size - 1);
        w.push((1_000_000 - c) / 2);
        i = i + 1;
    }
    w
}

/// Number of halvings that bring `v` below `2.0` (in microunits).
pub open spec fn ln_shift(v: int) -> nat
    decreases v,
{
    if v < 2_000_000 {
        0
    } else {
        (1 + ln_shift(v / 2)) as nat
    }
}

/// The mantissa left over after `ln_shift(v)` halvings.
pub open spec fn ln_mant(v: int) -> int
    decreases v,
{
    if v < 2_000_000 {
        v
    } else {
        ln_mant(v / 2)
    }
}

pub proof fn lemma_ln_mant_range(v: int)
    requires
        v >= 1_000_000,
    ensures
        1_000_000 <= ln_mant(v) < 2_000_000,
    decreases v,
{
    if v >= 2_000_000 {
        lemma_ln_mant_range(v / 2);
    }
}

pub proof fn lemma_ln_shift_le(v: int, p: nat)
    requires
        v < 2_000_000 * pow2(p),
    ensures
        ln_shift(v) <= p,
    decreases v,
{
    if v >= 2_000_000 {
        if p == 0 {
            assert(pow2(0) == 1) by {
                vstd::arithmetic::power2::lemma2_to64();
            };
            assert(false);
        }
        vstd::arithmetic::power2::lemma_pow2_unfold(p);
        vstd::arithmetic::power2::lemma_pow2_pos((p - 1) as nat);
        assert(v < 2 * (2_000_000 * pow2((p - 1) as nat)));
        vstd::arithmetic::div_mod::lemma_multiply_divide_lt(
            v,
            2,
            2_000_000 * (pow2((p - 1) as nat) as int),
        );
        lemma_ln_shift_le(v / 2, (p - 1) as nat);
    }
}

/// The fixed-point form of `ln(1 + a) / 10` for a nonnegative microunit
/// amplitude `a`: binary range reduction, then the `artanh` series for the
/// mantissa. `693_147` is `ln 2` in microunits.
pub open spec fn spec_compress(a: int) -> int {
    let v = 1_000_000 + a;
    let m = ln_mant(v);
    let k = ln_shift(v) as int;
    let z = (m - 1_000_000) * 1_000_000 / (m + 1_000_000);
    let z2 = z * z / 1_000_000;
    let z3 = z * z2 / 1_000_000;
    let z5 = z3 * z2 / 1_000_000;
    let lnm = 2 * (z + z3 / 3 + z5 / 5);
    (k * 693_147 + lnm) / 10
}

/// `ln(1 + a) / 10` in microunits, the logarithmic compression applied to
/// band energies.
pub fn compress_energy(a: i64) -> (r: i64)
    requires
        0 <= a <= 1_000_000_000_000,
    ensures
        r == spec_compress(a as int),
        0 <= r <= 2_900_000,
{
    let v: i64 = 1_000_000 + a;
    proof {
        vstd::arithmetic::power2::lemma2_to64();
        vstd::arithmetic::power2::lemma2_to64_rest();
        lemma_ln_shift_le(v as int, 40);
        lemma_ln_mant_range(v as int);
    }
    let mut m: i64 = v;
    let mut k: i64 = 0;
    while m >= 2_000_000
        invariant
            1_000_000 <= m <= v,
            v <= 1_000_001_000_000,
            ln_mant(m as int) == ln_mant(v as int),
            ln_shift(m as int) + k == ln_shift(v as int),
            ln_shift(v as int) <= 40,
            0 <= k,
        decreases m,
    {
        proof {
            assert(ln_mant(m as int) == ln_mant((m as int) / 2));
            assert(ln_shift(m as int) == 1 + ln_shift((m as int) / 2));
        }
        m = m / 2;
        k = k + 1;
    }
    proof {
        assert(ln_mant(m as int) == m as int);
        assert(ln_shift(m as int) == 0);
        assert(k <= 40);
        lemma_mul_le((m - 1_000_000) as int, 1_000_000, 1_000_000, 1_000_000);
        assert((m as int - 1_000_000) * 1_000_000 < (m as int + 1_000_000) * 500_000)
            by (nonlinear_arith)
            requires
                1_000_000 <= m < 2_000_000,
        ;
        vstd::arithmetic::div_mod::lemma_multiply_divide_lt(
            (m as int - 1_000_000) * 1_000_000,
            m as int + 1_000_000,
            500_000,
        );
        vstd::arithmetic::div_mod::lemma_div_pos_is_pos(
            (m as int - 1_000_000) * 1_000_000,
            m as int + 1_000_000,
        );
    }
    let z: i64 = (m - 1_000_000) * 1_000_000 / (m + 1_000_000);
    proof {
        lemma_mul_le(z as int, z as int, 500_000, 500_000);
    }
    let z2: i64 = z * z / 1_000_000;
    proof {
        lemma_div_le((z as int) * (z as int), 250_000_000_000, 1_000_000);
        lemma_mul_le(z as int, z2 as int, 500_000, 250_000);
    }
    let z3: i64 = z * z2 / 1_000_000;
    proof {
        lemma_div_le((z as int) * (z2 as int), 125_000_000_000, 1_000_000);
        lemma_mul_le(z3 as int, z2 as int, 125_000, 250_000);
    }
    let z5: i64 = z3 * z2 / 1_000_000;
    proof {
        lemma_div_le((z3 as int) * (z2 as int), 31_250_000_000, 1_000_000);
        lemma_div_le(z3 as int, 125_000, 3);
        lemma_div_le(z5 as int, 31_250, 5);
    }
    let lnm: i64 = 2 * (z + z3 / 3 + z5 / 5);
    proof {
        lemma_mul_le(k as int, 693_147, 40, 693_147);
        lemma_div_le((k as int) * 693_147 + lnm as int, 28_825_880int, 10);
    }
    let r: i64 = (k * 693_147 + lnm) / 10;
    r
}


pub proof fn lemma_cos_frac_symmetric(i: int, n: int)
    requires
        0 <= i <= n,
        n >= 1,
    ensures
        spec_cos_frac(i, n) == spec_cos_frac(n - i, n),
{
}

/// The Hann window is zero at both ends.
pub proof fn lemma_hann_window_ends(size: int)
    requires
        size >= 2,
    ensures
        spec_hann_weight(0, size) == 0,
        spec_hann_weight(size - 1, size) == 0,
{
    let n = size - 1;
    vstd::arithmetic::div_mod::lemma_div_of0(n);
    assert(TWO_PI_MICRO * 0 == 0) by (nonlinear_arith);
    assert(spec_cos_taylor(0) == 1_000_000) by {
        vstd::arithmetic::div_mod::lemma_div_of0(1_000_000);
        vstd::arithmetic::div_mod::lemma_div_of0(2);
        vstd::arithmetic::div_mod::lemma_div_of0(24);
        vstd::arithmetic::div_mod::lemma_div_of0(720);
        assert(0 * 0 == 0) by (nonlinear_arith);
    };
    assert(spec_cos_frac(0, n) == 1_000_000);
    lemma_cos_frac_symmetric(0, n);
}

/// The Hann window is symmetric about its center.
pub proof fn lemma_hann_window_symmetric(i: int, size: int)
    requires
        0 <= i < size,
        size >= 2,
    ensures
        spec_hann_weight(i, size) == spec_hann_weight(size - 1 - i, size),
{
    lemma_cos_frac_symmetric(i, size - 1);
}

/// An odd-sized Hann window reaches exactly `1.0` at its center.
pub proof fn lemma_hann_window_center(size: int)
    requires
        size >= 3,
        size % 2 == 1,
    ensures
        spec_hann_weight((size - 1) / 2, size) == 1_000_000,
{
    let n = size - 1;
    let m = n / 2;
    vstd::arithmetic::div_mod::lemma_fundamental_div_mod(n, 2);
    assert(n == 2 * m);
    assert(m >= 1);
    let i = (size - 1) / 2;
    assert(i == m);
    assert(!(2 * i > n));
    assert(TWO_PI_MICRO * m == n * PI_MICRO + m) by (nonlinear_arith)
        requires
            n == 2 * m,
            TWO_PI_MICRO == 6_283_185,
            PI_MICRO == 3_141_592,
    ;
    vstd::arithmetic::div_mod::lemma_div_multiples_vanish_fancy(PI_MICRO as int, m, n);
    assert(TWO_PI_MICRO * m / n == PI_MICRO);
    assert(spec_cos_taylor(0) == 1_000_000) by {
        vstd::arithmetic::div_mod::lemma_div_of0(1_000_000);
        vstd::arithmetic::div_mod::lemma_div_of0(2);
        vstd::arithmetic::div_mod::lemma_div_of0(24);
        vstd::arithmetic::div_mod::lemma_div_of0(720);
        assert(0 * 0 == 0) by (nonlinear_arith);
    };
    assert(spec_cos_frac(i, n) == -1_000_000);
}


/// On `[0, 0.448799]` radians the fixed-point cosine stays above
/// `0.899279`: the quadratic term is at most `0.100710` and the sixth-order
/// correction at most `0.000011`.
proof fn lemma_cos_taylor_near_one(x: int)
    requires
        0 <= x <= 448_799,
    ensures
        spec_cos_taylor(x) >= 899_279,
{
    lemma_mul_le(x, x, 448_799, 448_799);
    let x2 = x * x / 1_000_000;
    lemma_div_le(x * x, 201_420_542_401, 1_000_000);
    lemma_div_le(x2, 201_420, 2);
    lemma_mul_le(x2, x2, 201_420, 201_420);
    let q4 = x2 * x2 / 1_000_000;
    lemma_div_le(x2 * x2, 40_570_016_400, 1_000_000);
    lemma_div_le(q4, 40_570, 24);
    lemma_mul_le(q4, x2, 40_570, 201_420);
    lemma_div_le(q4 * x2, 8_171_609_400, 1_000_000);
    lemma_div_le(q4 * x2 / 1_000_000, 8_171, 720);
}

/// An even-sized Hann window of at least eight samples stands above `0.9`
/// at its two middle samples (which are equal by symmetry): together with
/// the `1.0` upper bound, its maximum is approximately one. Even windows
/// have no exact center; the middle weights approach `1.0` as the size
/// grows.
pub proof fn lemma_hann_window_near_center_even(size: int)
    requires
        size % 2 == 0,
        8 <= size <= 65536,
    ensures
        spec_hann_weight(size / 2, size) > 900_000,
{
    let n = size - 1;
    vstd::arithmetic::div_mod::lemma_fundamental_div_mod(size, 2);
    let i = size / 2;
    assert(size == 2 * i);
    assert(n == 2 * i - 1);
    assert(2 * i > n);
    let j = n - i;
    assert(n == 2 * j + 1);
    assert(4 <= i && j == i - 1 && 3 <= j && 7 <= n <= 65535);
    // The reduced phase: TWO_PI * j == PI * n - (PI - j), and the
    // remainder PI - j lies in (0, 448_799 * n], so the quotient is
    // between PI - 448_799 and PI.
    assert(TWO_PI_MICRO * j == PI_MICRO * n - (PI_MICRO - j)) by (nonlinear_arith)
        requires
            n == 2 * j + 1,
            TWO_PI_MICRO == 6_283_185,
            PI_MICRO == 3_141_592,
    ;
    assert((PI_MICRO as int - 448_799) * n == PI_MICRO * n - 448_799 * n) by (nonlinear_arith);
    assert(448_799 * n >= 448_799 * 7) by (nonlinear_arith)
        requires
            n >= 7,
    ;
    assert(TWO_PI_MICRO * j >= (PI_MICRO as int - 448_799) * n);
    vstd::arithmetic::div_mod::lemma_div_is_ordered(
        (PI_MICRO as int - 448_799) * n,
        TWO_PI_MICRO * j,
        n,
    );
    assert(((PI_MICRO as int - 448_799) * n) == n * (PI_MICRO as int - 448_799))
        by (nonlinear_arith);
    vstd::arithmetic::div_mod::lemma_div_multiples_vanish(PI_MICRO as int - 448_799, n);
    assert(TWO_PI_MICRO * j / n >= PI_MICRO - 448_799);
    assert(TWO_PI_MICRO * j < n * (PI_MICRO as int + 1)) by (nonlinear_arith)
        requires
            TWO_PI_MICRO * j == PI_MICRO * n - (PI_MICRO - j),
            j < PI_MICRO,
            n >= 1,
    ;
    vstd::arithmetic::div_mod::lemma_multiply_divide_lt(
        TWO_PI_MICRO * j,
        n,
        PI_MICRO as int + 1,
    );
    let phase = TWO_PI_MICRO * j / n;
    assert(PI_MICRO - 448_799 <= phase <= PI_MICRO);
    assert(phase > HALF_PI_MICRO);
    let x = PI_MICRO - phase;
    assert(0 <= x <= 448_799);
    lemma_cos_taylor_near_one(x);
    assert(spec_cos_frac(i, n) == -spec_cos_taylor(x));
    assert(spec_cos_frac(i, n) <= -899_279);
    vstd::arithmetic::div_mod::lemma_div_is_ordered(
        1_899_279,
        1_000_000 - spec_cos_frac(i, n),
        2,
    );
    assert(spec_hann_weight(i, size) >= 949_639);
}

} // verus!
