//! Gravitating bodies: radius from mass, collision predicate, and the
//! pairwise gravitational force, all in saturating fixed-point arithmetic.

use vstd::prelude::*;
use crate::fixed_scalar::{
    FixedScalar, sat_add_bits, sat_sub_bits, sat_mul_bits, sat_div_bits, sqrt_floor, cbrt_floor,
    div_trunc, cbrt_u128,
};

verus! {

use vstd::math::abs;

/// Raw bits of the fixed-point constant 1 (`2^32`): the density divisor and
/// the integration tick.
pub const ONE_BITS: i64 = 0x1_0000_0000;

/// Raw bits of the fixed-point constant 3.
pub const THREE_BITS: i64 = 0x3_0000_0000;

/// Raw bits of the gravitational constant 0.1, rounded to the nearest
/// representable value.
pub const G_BITS: i64 = 429496730;

/// Raw bits of 4*pi (from the 64-bit float value), rounded to the nearest
/// representable value.
pub const FOUR_PI_BITS: i64 = 53972150818;

/// A two-component fixed-point vector.
#[derive(Clone, Copy, Debug, PartialEq, Eq, Structural)]
pub struct Vec2 {
    pub x: FixedScalar,
    pub y: FixedScalar,
}

impl Vec2 {
    pub fn new(x: FixedScalar, y: FixedScalar) -> (r: Vec2)
        ensures
            r.x == x && r.y == y,
    {
        Vec2 { x, y }
    }

    pub fn zero() -> (r: Vec2)
        ensures
            r.x.bits() == 0 && r.y.bits() == 0,
    {
        Vec2 { x: FixedScalar::from_raw(0), y: FixedScalar::from_raw(0) }
    }
}

/// One gravitating body. `id` is unique within its simulation and is
/// assigned by the simulation's own monotonic counter.
#[derive(Clone, Copy, Debug, PartialEq, Eq, Structural)]
pub struct Body {
    pub id: u64,
    pub position: Vec2,
    pub velocity: Vec2,
    pub acceleration: Vec2,
    pub mass: FixedScalar,
}

/// Saturating squared distance between two positions, on raw bits.
pub open spec fn spec_dist2(ax: int, ay: int, bx: int, by: int) -> int {
    let dx = sat_sub_bits(bx, ax);
    let dy = sat_sub_bits(by, ay);
    sat_add_bits(sat_mul_bits(dx, dx), sat_mul_bits(dy, dy))
}

/// The scaled radicand `volume * 3 / (4*pi)` on raw bits.
pub open spec fn spec_radius_arg(mass: int) -> int {
    sat_div_bits(sat_mul_bits(sat_div_bits(mass, ONE_BITS as int), THREE_BITS as int),
        FOUR_PI_BITS as int)
}

/// Radius bits: the floor cube root of `radius_arg << 64`, which lands the
/// cube root of a `2^32`-scaled value back on the `2^32` scale.
pub open spec fn spec_radius_bits(mass: int) -> int
    recommends
        mass > 0,
{
    cbrt_floor(spec_radius_arg(mass) * 0x1_0000_0000_0000_0000)
}

/// Two bodies touch when the squared distance between their positions is at
/// most the saturated square of the sum of their radii.
pub open spec fn spec_collides(a: Body, b: Body) -> bool {
    let d = spec_dist2(a.position.x.bits(), a.position.y.bits(), b.position.x.bits(),
        b.position.y.bits());
    let r = sat_add_bits(spec_radius_bits(a.mass.bits()), spec_radius_bits(b.mass.bits()));
    d <= sat_mul_bits(r, r)
}

/// The gravitational pull of a body of mass `mb` at `(bx, by)` on a unit
/// point at `(ax, ay)`: `G * mb * diff / |diff|^3`, with a zero vector when
/// the saturated magnitude or its saturated cube rounds to zero.
pub open spec fn spec_force(ax: int, ay: int, bx: int, by: int, mb: int) -> (int, int) {
    let dx = sat_sub_bits(bx, ax);
    let dy = sat_sub_bits(by, ay);
    let mag2 = sat_add_bits(sat_mul_bits(dx, dx), sat_mul_bits(dy, dy));
    let r = 0x10000 * sqrt_floor(mag2);
    if r == 0 {
        (0, 0)
    } else {
        let r3 = sat_mul_bits(sat_mul_bits(r, r), r);
        if r3 == 0 {
            (0, 0)
        } else {
            (sat_div_bits(sat_mul_bits(sat_mul_bits(dx, G_BITS as int), mb), r3),
            sat_div_bits(sat_mul_bits(sat_mul_bits(dy, G_BITS as int), mb), r3))
        }
    }
}

pub proof fn lemma_sat_mul_nonneg(a: int, b: int)
    requires
        a >= 0,
        b >= 0,
    ensures
        sat_mul_bits(a, b) >= 0,
{
    assert(a * b >= 0) by (nonlinear_arith)
        requires a >= 0 && b >= 0;
    assert(a * b / 0x1_0000_0000 >= 0) by {
        vstd::arithmetic::div_mod::lemma_div_is_ordered(0, a * b, 0x1_0000_0000);
    }
}

pub proof fn lemma_sat_square_nonneg(a: int)
    ensures
        sat_mul_bits(a, a) >= 0,
{
    assert(a * a >= 0) by (nonlinear_arith);
    assert(a * a / 0x1_0000_0000 >= 0) by {
        vstd::arithmetic::div_mod::lemma_div_is_ordered(0, a * a, 0x1_0000_0000);
    }
}

pub proof fn lemma_sat_div_nonneg(a: int, b: int)
    requires
        a >= 0,
        b > 0,
    ensures
        sat_div_bits(a, b) >= 0,
{
    assert(a * 0x1_0000_0000 >= 0);
    assert(div_trunc(a * 0x1_0000_0000, b) >= 0);
}

pub proof fn lemma_sat_div_one(a: int)
    requires
        i64::MIN as int <= a <= i64::MAX as int,
    ensures
        sat_div_bits(a, ONE_BITS as int) == a,
{
    let s = a * 0x1_0000_0000;
    if a >= 0 {
        assert(s >= 0) by (nonlinear_arith)
            requires a >= 0 && s == a * 0x1_0000_0000;
        assert(abs(s) == s && abs(a) == a);
        assert(s / 0x1_0000_0000 == a) by {
            vstd::arithmetic::div_mod::lemma_div_multiples_vanish(a, 0x1_0000_0000);
            assert(0x1_0000_0000 * a == a * 0x1_0000_0000) by (nonlinear_arith);
        }
    } else {
        assert(s < 0) by (nonlinear_arith)
            requires a < 0 && s == a * 0x1_0000_0000;
        assert(abs(s) == -s && abs(a) == -a);
        assert(-s == (-a) * 0x1_0000_0000) by (nonlinear_arith)
            requires s == a * 0x1_0000_0000;
        assert((-s) / 0x1_0000_0000 == -a) by {
            vstd::arithmetic::div_mod::lemma_div_multiples_vanish(-a, 0x1_0000_0000);
            assert(0x1_0000_0000 * (-a) == (-a) * 0x1_0000_0000) by (nonlinear_arith);
        }
    }
    assert(div_trunc(s, ONE_BITS as int) == a);
}

impl Body {
    /// A fresh body at rest at the given position.
    pub fn new(id: u64, x: FixedScalar, y: FixedScalar, mass: FixedScalar) -> (r: Body)
        ensures
            r.id == id,
            r.position.x == x,
            r.position.y == y,
            r.velocity.x.bits() == 0,
            r.velocity.y.bits() == 0,
            r.acceleration.x.bits() == 0,
            r.acceleration.y.bits() == 0,
            r.mass == mass,
    {
        Body { id, position: Vec2::new(x, y), velocity: Vec2::zero(), acceleration: Vec2::zero(), mass }
    }

    /// Volume under unit density: exactly the mass.
    pub fn volume(&self) -> (r: FixedScalar)
        ensures
            r.bits() == sat_div_bits(self.mass.bits(), ONE_BITS as int),
            r.bits() == self.mass.bits(),
    {
        proof {
            lemma_sat_div_one(self.mass.bits());
        }
        self.mass.sat_div(FixedScalar::from_raw(ONE_BITS))
    }

    /// Radius of the sphere of this body's volume: `cbrt(volume * 3 / (4*pi))`.
    pub fn radius(&self) -> (r: FixedScalar)
        requires
            self.mass.bits() > 0,
        ensures
            r.bits() == spec_radius_bits(self.mass.bits()),
            r.bits() >= 0,
    {
        let vol = self.volume();
        let scaled = vol.sat_mul(FixedScalar::from_raw(THREE_BITS));
        let arg = scaled.sat_div(FixedScalar::from_raw(FOUR_PI_BITS));
        proof {
            lemma_sat_mul_nonneg(vol.bits(), THREE_BITS as int);
            lemma_sat_div_nonneg(scaled.bits(), FOUR_PI_BITS as int);
        }
        let n: u128 = (arg.raw as u128) * 0x1_0000_0000_0000_0000u128;
        let c = cbrt_u128(n);
        FixedScalar::from_raw(c as i64)
    }

    /// The collision predicate from the specification's detection phase.
    pub fn collides_with(&self, other: &Body) -> (r: bool)
        requires
            self.mass.bits() > 0,
            other.mass.bits() > 0,
        ensures
            r == spec_collides(*self, *other),
    {
        let d = distance_squared(&self.position, &other.position);
        let rsum = self.radius().sat_add(other.radius());
        d.lte(rsum.sat_mul(rsum))
    }

    /// Gravitational acceleration contributed by `other`.
    pub fn force_from(&self, other: &Body) -> (r: Vec2)
        ensures
            (r.x.bits(), r.y.bits()) == spec_force(self.position.x.bits(), self.position.y.bits(),
                other.position.x.bits(), other.position.y.bits(), other.mass.bits()),
    {
        let dx = other.position.x.sat_sub(self.position.x);
        let dy = other.position.y.sat_sub(self.position.y);
        let xx = dx.sat_mul(dx);
        let yy = dy.sat_mul(dy);
        proof {
            lemma_sat_square_nonneg(dx.bits());
            lemma_sat_square_nonneg(dy.bits());
        }
        let mag2 = xx.sat_add(yy);
        let r = mag2.sqrt();
        if r.is_zero() {
            Vec2::zero()
        } else {
            proof {
                crate::fixed_scalar::lemma_sqrt_floor_exists(mag2.bits());
                lemma_sat_square_nonneg(r.bits());
                lemma_sat_mul_nonneg(sat_mul_bits(r.bits(), r.bits()), r.bits());
            }
            let r3 = r.sat_mul(r).sat_mul(r);
            if r3.is_zero() {
                Vec2::zero()
            } else {
                let g = FixedScalar::from_raw(G_BITS);
                let fx = dx.sat_mul(g).sat_mul(other.mass).sat_div(r3);
                let fy = dy.sat_mul(g).sat_mul(other.mass).sat_div(r3);
                Vec2::new(fx, fy)
            }
        }
    }
}

/// Saturating squared distance between two points.
pub fn distance_squared(p1: &Vec2, p2: &Vec2) -> (r: FixedScalar)
    ensures
        r.bits() == spec_dist2(p1.x.bits(), p1.y.bits(), p2.x.bits(), p2.y.bits()),
        r.bits() >= 0,
{
    let dx = p2.x.sat_sub(p1.x);
    let dy = p2.y.sat_sub(p1.y);
    proof {
        lemma_sat_square_nonneg(dx.bits());
        lemma_sat_square_nonneg(dy.bits());
    }
    dx.sat_mul(dx).sat_add(dy.sat_mul(dy))
}

} // verus!
