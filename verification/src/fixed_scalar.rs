//! The deterministic 64-bit fixed-point scalar (32 integer bits, 32
//! fractional bits) that all simulation arithmetic runs on.
//!
//! A value is a signed 64-bit bit pattern `raw`, read as `raw / 2^32`.
//! Every operation saturates to the representable extrema instead of
//! wrapping, so that all peers agree bit-for-bit on overflowing inputs.

use vstd::prelude::*;

verus! {

use vstd::math::abs;

/// Number of fractional bits' scale: 2^32.
pub const SCALE: i64 = 0x1_0000_0000;

/// Clamp a mathematical integer into the `i64` range.
pub open spec fn clamp_i64(v: int) -> int {
    if v > i64::MAX as int {
        i64::MAX as int
    } else if v < i64::MIN as int {
        i64::MIN as int
    } else {
        v
    }
}

/// Saturating addition on raw bit patterns.
pub open spec fn sat_add_bits(a: int, b: int) -> int {
    clamp_i64(a + b)
}

/// Saturating subtraction on raw bit patterns.
pub open spec fn sat_sub_bits(a: int, b: int) -> int {
    clamp_i64(a - b)
}

/// Saturating fixed-point multiplication on raw bit patterns: the full
/// product is rescaled by 2^32, rounding toward negative infinity, then
/// clamped. (`/` on `int` rounds toward negative infinity for a positive
/// divisor.)
pub open spec fn sat_mul_bits(a: int, b: int) -> int {
    clamp_i64((a * b) / 0x1_0000_0000)
}

/// Quotient of `a / b` rounded toward zero, as hardware signed division does.
pub open spec fn div_trunc(a: int, b: int) -> int
    recommends
        b != 0,
{
    let q = (abs(a) / abs(b)) as int;
    if (a < 0) != (b < 0) {
        -q
    } else {
        q
    }
}

/// Saturating fixed-point division on raw bit patterns: the dividend is
/// rescaled by 2^32, divided rounding toward zero, then clamped.
pub open spec fn sat_div_bits(a: int, b: int) -> int
    recommends
        b != 0,
{
    clamp_i64(div_trunc(a * 0x1_0000_0000, b))
}

/// `r` is the floor of the square root of `n`.
pub open spec fn is_floor_sqrt(n: int, r: int) -> bool {
    0 <= r && r * r <= n && n < (r + 1) * (r + 1)
}

/// The floor of the square root of `n` (meaningful for `n >= 0`;
/// `lemma_sqrt_floor_exists` discharges the `choose`).
pub open spec fn sqrt_floor(n: int) -> int {
    choose|r: int| is_floor_sqrt(n, r)
}

/// `r` is the floor of the cube root of `n`.
pub open spec fn is_floor_cbrt(n: int, r: int) -> bool {
    0 <= r && r * r * r <= n && n < (r + 1) * (r + 1) * (r + 1)
}

/// The floor of the cube root of `n` (meaningful for `n >= 0`;
/// `lemma_cbrt_floor_exists` discharges the `choose`).
pub open spec fn cbrt_floor(n: int) -> int {
    choose|r: int| is_floor_cbrt(n, r)
}

pub proof fn lemma_sqrt_floor_exists(n: int)
    requires
        n >= 0,
    ensures
        is_floor_sqrt(n, sqrt_floor(n)),
    decreases n,
{
    if n == 0 {
        assert(is_floor_sqrt(0, 0));
    } else {
        lemma_sqrt_floor_exists(n - 1);
        let r = sqrt_floor(n - 1);
        if (r + 1) * (r + 1) <= n {
            // n - 1 < (r + 1)^2 <= n forces n == (r + 1)^2.
            assert((r + 2) * (r + 2) > (r + 1) * (r + 1)) by (nonlinear_arith)
                requires r >= 0;
            assert(is_floor_sqrt(n, r + 1));
        } else {
            assert(is_floor_sqrt(n, r));
        }
    }
}

pub proof fn lemma_cbrt_floor_exists(n: int)
    requires
        n >= 0,
    ensures
        is_floor_cbrt(n, cbrt_floor(n)),
    decreases n,
{
    if n == 0 {
        assert(is_floor_cbrt(0, 0));
    } else {
        lemma_cbrt_floor_exists(n - 1);
        let r = cbrt_floor(n - 1);
        if (r + 1) * (r + 1) * (r + 1) <= n {
            assert((r + 2) * (r + 2) * (r + 2) > (r + 1) * (r + 1) * (r + 1)) by (nonlinear_arith)
                requires r >= 0;
            assert(is_floor_cbrt(n, r + 1));
        } else {
            assert(is_floor_cbrt(n, r));
        }
    }
}

/// The floor cube root is unique, so any witness equals `cbrt_floor`.
pub proof fn lemma_cbrt_witness(n: int, r: int)
    requires
        n >= 0,
        is_floor_cbrt(n, r),
    ensures
        r == cbrt_floor(n),
{
    lemma_cbrt_floor_exists(n);
    let c = cbrt_floor(n);
    assert(r == c) by (nonlinear_arith)
        requires
            0 <= r && r * r * r <= n && n < (r + 1) * (r + 1) * (r + 1),
            0 <= c && c * c * c <= n && n < (c + 1) * (c + 1) * (c + 1);
}

/// Relies on `fixed::types::I32F32::saturating_add`, which saturates the
/// sum of the raw bit patterns (`from_bits(a.to_bits().saturating_add(b.to_bits()))`).
#[verifier::external_body]
fn raw_sat_add(a: i64, b: i64) -> (r: i64)
    ensures
        r as int == sat_add_bits(a as int, b as int),
{
    fixed::types::I32F32::from_bits(a).saturating_add(fixed::types::I32F32::from_bits(b)).to_bits()
}

/// Relies on `fixed::types::I32F32::saturating_sub`, which saturates the
/// difference of the raw bit patterns.
#[verifier::external_body]
fn raw_sat_sub(a: i64, b: i64) -> (r: i64)
    ensures
        r as int == sat_sub_bits(a as int, b as int),
{
    fixed::types::I32F32::from_bits(a).saturating_sub(fixed::types::I32F32::from_bits(b)).to_bits()
}

/// Relies on `fixed::types::I32F32::saturating_mul`: the 128-bit product of
/// the raw bits is shifted right by 32 (an arithmetic shift, so rounding is
/// toward negative infinity) and clamped to the `i64` range on overflow.
#[verifier::external_body]
fn raw_sat_mul(a: i64, b: i64) -> (r: i64)
    ensures
        r as int == sat_mul_bits(a as int, b as int),
{
    fixed::types::I32F32::from_bits(a).saturating_mul(fixed::types::I32F32::from_bits(b)).to_bits()
}

/// Relies on `fixed::types::I32F32::saturating_div`: the dividend bits are
/// widened and shifted left by 32, divided by the divisor bits with 128-bit
/// signed division (rounding toward zero), and clamped to the `i64` range.
/// Panics on a zero divisor, so that input is excluded.
#[verifier::external_body]
fn raw_sat_div(a: i64, b: i64) -> (r: i64)
    requires
        b != 0,
    ensures
        r as int == sat_div_bits(a as int, b as int),
{
    fixed::types::I32F32::from_bits(a).saturating_div(fixed::types::I32F32::from_bits(b)).to_bits()
}

/// Relies on `fixed_sqrt::FixedSqrt::sqrt` for `I32F32` (32 fractional bits,
/// an even count): it computes the floor integer square root of the raw bits
/// (via the `integer-sqrt` crate) and shifts it left by 16. Panics on a
/// negative input, so those are excluded.
#[verifier::external_body]
fn raw_sqrt(a: i64) -> (r: i64)
    requires
        a >= 0,
    ensures
        r as int == 0x10000 * sqrt_floor(a as int),
{
    fixed_sqrt::FixedSqrt::sqrt(fixed::types::I32F32::from_bits(a)).to_bits()
}

/// Whether `mid^3 <= n`, decided without overflowing 128-bit arithmetic by
/// comparing `mid` against `n / mid^2`.
fn cube_le(mid: u128, n: u128) -> (r: bool)
    requires
        1 <= mid < 0x1_0000_0000_0000u128,
    ensures
        r == (mid * mid * mid <= n),
{
    proof {
        assert(1 <= (mid as int) * (mid as int) < 0x1_0000_0000_0000_0000_0000_0000)
            by (nonlinear_arith)
            requires 1 <= (mid as int) && (mid as int) < 0x1_0000_0000_0000;
    }
    let m2: u128 = mid * mid;
    let q: u128 = n / m2;
    proof {
        let midi = mid as int;
        let m2i = m2 as int;
        let ni = n as int;
        vstd::arithmetic::div_mod::lemma_fundamental_div_mod(ni, m2i);
        if midi <= ni / m2i {
            // mid * m2 <= (n / m2) * m2 <= n
            assert(midi * m2i <= (ni / m2i) * m2i) by (nonlinear_arith)
                requires midi <= ni / m2i, m2i > 0;
            assert(m2i * (ni / m2i) <= ni);
            assert(midi * m2i == midi * midi * midi) by (nonlinear_arith)
                requires m2i == midi * midi;
        } else {
            // if mid^3 <= n then mid == (mid * m2) / m2 <= n / m2
            if midi * midi * midi <= ni {
                assert(midi * m2i == midi * midi * midi) by (nonlinear_arith)
                    requires m2i == midi * midi;
                vstd::arithmetic::div_mod::lemma_div_is_ordered(midi * m2i, ni, m2i);
                vstd::arithmetic::div_mod::lemma_div_multiples_vanish(midi, m2i);
                assert(midi * m2i == m2i * midi) by (nonlinear_arith);
                assert(midi <= ni / m2i);
            }
        }
    }
    mid <= q
}

/// Floor cube root of a 128-bit integer below 2^127, by binary search.
pub fn cbrt_u128(n: u128) -> (r: u128)
    requires
        n < 0x8000_0000_0000_0000_0000_0000_0000_0000u128,
    ensures
        r as int == cbrt_floor(n as int),
        r < 0x8000_0000_0000u128,
{
    let mut lo: u128 = 0;
    let mut hi: u128 = 0x8000_0000_0000u128;  // 2^47; (2^47)^3 = 2^141 > n
    proof {
        assert((0x8000_0000_0000u128 as int) * (0x8000_0000_0000u128 as int) * (
        0x8000_0000_0000u128 as int) == 0x2000_0000_0000_0000_0000_0000_0000_0000_0000)
            by (nonlinear_arith);
    }
    while lo + 1 < hi
        invariant
            lo < hi <= 0x8000_0000_0000u128,
            (lo as int) * (lo as int) * (lo as int) <= n as int,
            (n as int) < (hi as int) * (hi as int) * (hi as int),
            n < 0x8000_0000_0000_0000_0000_0000_0000_0000u128,
        decreases hi - lo,
    {
        let mid: u128 = lo + (hi - lo) / 2;
        if cube_le(mid, n) {
            lo = mid;
        } else {
            hi = mid;
        }
    }
    proof {
        lemma_cbrt_witness(n as int, lo as int);
    }
    lo
}

/// A deterministic saturating fixed-point scalar: `raw / 2^32`.
#[derive(Clone, Copy, Debug, PartialEq, Eq, Structural, PartialOrd, Ord)]
pub struct FixedScalar {
    pub raw: i64,
}

impl FixedScalar {
    /// The raw bit pattern as a mathematical integer.
    pub open spec fn bits(self) -> int {
        self.raw as int
    }

    pub open spec fn spec_from_int(i: int) -> FixedScalar {
        FixedScalar { raw: (i * 0x1_0000_0000) as i64 }
    }

    /// Reinterpret a raw 64-bit pattern as a scalar.
    pub fn from_raw(raw: i64) -> (r: FixedScalar)
        ensures
            r.raw == raw,
    {
        FixedScalar { raw }
    }

    /// The raw 64-bit pattern of this scalar.
    pub fn to_raw(self) -> (r: i64)
        ensures
            r == self.raw,
    {
        self.raw
    }

    /// The scalar for a small integer.
    pub fn from_int(i: i32) -> (r: FixedScalar)
        ensures
            r.bits() == i as int * 0x1_0000_0000,
            r == Self::spec_from_int(i as int),
    {
        FixedScalar { raw: (i as i64) * SCALE }
    }

    pub fn zero() -> (r: FixedScalar)
        ensures
            r.bits() == 0,
    {
        FixedScalar { raw: 0 }
    }

    pub fn sat_add(self, rhs: FixedScalar) -> (r: FixedScalar)
        ensures
            r.bits() == sat_add_bits(self.bits(), rhs.bits()),
    {
        FixedScalar { raw: raw_sat_add(self.raw, rhs.raw) }
    }

    pub fn sat_sub(self, rhs: FixedScalar) -> (r: FixedScalar)
        ensures
            r.bits() == sat_sub_bits(self.bits(), rhs.bits()),
    {
        FixedScalar { raw: raw_sat_sub(self.raw, rhs.raw) }
    }

    pub fn sat_mul(self, rhs: FixedScalar) -> (r: FixedScalar)
        ensures
            r.bits() == sat_mul_bits(self.bits(), rhs.bits()),
    {
        FixedScalar { raw: raw_sat_mul(self.raw, rhs.raw) }
    }

    pub fn sat_div(self, rhs: FixedScalar) -> (r: FixedScalar)
        requires
            rhs.bits() != 0,
        ensures
            r.bits() == sat_div_bits(self.bits(), rhs.bits()),
    {
        FixedScalar { raw: raw_sat_div(self.raw, rhs.raw) }
    }

    /// Fixed-point square root: floor integer square root of the raw bits,
    /// shifted into place. Defined for non-negative scalars.
    pub fn sqrt(self) -> (r: FixedScalar)
        requires
            self.bits() >= 0,
        ensures
            r.bits() == 0x10000 * sqrt_floor(self.bits()),
    {
        FixedScalar { raw: raw_sqrt(self.raw) }
    }

    pub fn is_zero(self) -> (r: bool)
        ensures
            r == (self.bits() == 0),
    {
        self.raw == 0
    }

    pub fn lte(self, rhs: FixedScalar) -> (r: bool)
        ensures
            r == (self.bits() <= rhs.bits()),
    {
        self.raw <= rhs.raw
    }

    pub fn lt(self, rhs: FixedScalar) -> (r: bool)
        ensures
            r == (self.bits() < rhs.bits()),
    {
        self.raw < rhs.raw
    }

    pub fn gt_zero(self) -> (r: bool)
        ensures
            r == (self.bits() > 0),
    {
        self.raw > 0
    }
}

} // verus!
