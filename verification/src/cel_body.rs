//! Celestial bodies and the three-component vectors they move in.
//!
//! A body is a flat record: kinematic state as vectors of `SciFloat`
//! components, a mass and radius spanning arbitrary orders of
//! magnitude, and presentation data (color, light flag) that the
//! simulation carries through untouched.

use vstd::prelude::*;
use crate::sci_float::SciFloat;
use crate::sci_float::abs_val;
use crate::sci_float::max_i;

verus! {

/// Largest exponent magnitude a vector component may carry into the
/// vector operations; a quarter of the scalar limit, so that products
/// of two components stay within the scalar operations' bounds.
pub const VEC_EXP_LIMIT: i64 = 250_000_000_000_000;

/// A three-component vector of scientific-notation scalars.
#[derive(Clone, Copy, Debug, PartialEq, Eq, Structural)]
pub struct Vec3 {
    pub x: SciFloat,
    pub y: SciFloat,
    pub z: SciFloat,
}

impl Vec3 {
    /// All three components are normalized.
    pub open spec fn wf(self) -> bool {
        self.x.wf() && self.y.wf() && self.z.wf()
    }

    /// The largest exponent magnitude among the components.
    pub open spec fn max_abs_exp(self) -> int {
        max_i(
            abs_val(self.x.exp as int),
            max_i(abs_val(self.y.exp as int), abs_val(self.z.exp as int)),
        )
    }

    /// Component exponents small enough for the vector operations.
    pub open spec fn exp_ok(self) -> bool {
        self.max_abs_exp() <= VEC_EXP_LIMIT
    }

    /// Component-wise negation.
    pub open spec fn neg_spec(v: Vec3) -> Vec3 {
        Vec3 {
            x: SciFloat::neg_spec(v.x),
            y: SciFloat::neg_spec(v.y),
            z: SciFloat::neg_spec(v.z),
        }
    }

    /// Component-wise sum.
    pub open spec fn add_spec(a: Vec3, b: Vec3) -> Vec3 {
        Vec3 {
            x: SciFloat::add_val(a.x, b.x),
            y: SciFloat::add_val(a.y, b.y),
            z: SciFloat::add_val(a.z, b.z),
        }
    }

    /// Component-wise difference.
    pub open spec fn sub_spec(a: Vec3, b: Vec3) -> Vec3 {
        Vec3 {
            x: SciFloat::sub_val(a.x, b.x),
            y: SciFloat::sub_val(a.y, b.y),
            z: SciFloat::sub_val(a.z, b.z),
        }
    }

    /// Every component scaled by `s`.
    pub open spec fn scale_spec(v: Vec3, s: SciFloat) -> Vec3 {
        Vec3 {
            x: SciFloat::mul_val(v.x, s),
            y: SciFloat::mul_val(v.y, s),
            z: SciFloat::mul_val(v.z, s),
        }
    }

    /// Every component divided by `s`.
    pub open spec fn div_scalar_spec(v: Vec3, s: SciFloat) -> Vec3 {
        Vec3 {
            x: SciFloat::div_val(v.x, s),
            y: SciFloat::div_val(v.y, s),
            z: SciFloat::div_val(v.z, s),
        }
    }

    /// The squared length `x*x + y*y + z*z`.
    pub open spec fn len_sq_spec(v: Vec3) -> SciFloat {
        SciFloat::add_val(
            SciFloat::add_val(
                SciFloat::mul_val(v.x, v.x),
                SciFloat::mul_val(v.y, v.y),
            ),
            SciFloat::mul_val(v.z, v.z),
        )
    }

    /// The zero vector.
    pub fn zero() -> (r: Vec3)
        ensures
            r.x.mantissa == 0 && r.x.exp == 0,
            r.y.mantissa == 0 && r.y.exp == 0,
            r.z.mantissa == 0 && r.z.exp == 0,
            r.wf(),
            r.max_abs_exp() == 0,
    {
        Vec3 {
            x: SciFloat::zero(),
            y: SciFloat::zero(),
            z: SciFloat::zero(),
        }
    }

    /// Component-wise vector addition.
    pub fn add(self, rhs: Vec3) -> (r: Vec3)
        requires
            self.wf(),
            rhs.wf(),
            self.exp_ok(),
            rhs.exp_ok(),
        ensures
            r == Vec3::add_spec(self, rhs),
            r.wf(),
            r.max_abs_exp() <= max_i(self.max_abs_exp(), rhs.max_abs_exp()) + 6,
    {
        Vec3 { x: self.x.add(rhs.x), y: self.y.add(rhs.y), z: self.z.add(rhs.z) }
    }

    /// Component-wise vector subtraction.
    pub fn sub(self, rhs: Vec3) -> (r: Vec3)
        requires
            self.wf(),
            rhs.wf(),
            self.exp_ok(),
            rhs.exp_ok(),
        ensures
            r == Vec3::sub_spec(self, rhs),
            r.wf(),
            r.max_abs_exp() <= max_i(self.max_abs_exp(), rhs.max_abs_exp()) + 6,
    {
        Vec3 { x: self.x.sub(rhs.x), y: self.y.sub(rhs.y), z: self.z.sub(rhs.z) }
    }

    /// Scales every component by `s`.
    pub fn scale(self, s: SciFloat) -> (r: Vec3)
        requires
            self.wf(),
            s.wf(),
            self.exp_ok(),
            s.exp_small(),
            abs_val(s.exp as int) <= VEC_EXP_LIMIT,
        ensures
            r == Vec3::scale_spec(self, s),
            r.wf(),
            r.max_abs_exp() <= self.max_abs_exp() + abs_val(s.exp as int) + 1,
    {
        Vec3 { x: self.x.mul(s), y: self.y.mul(s), z: self.z.mul(s) }
    }

    /// Divides every component by the non-zero scalar `s`.
    pub fn div_scalar(self, s: SciFloat) -> (r: Vec3)
        requires
            self.wf(),
            s.wf(),
            s.mantissa != 0,
            self.exp_ok(),
            s.exp_small(),
            abs_val(s.exp as int) <= VEC_EXP_LIMIT,
        ensures
            r == Vec3::div_scalar_spec(self, s),
            r.wf(),
            r.max_abs_exp() <= self.max_abs_exp() + abs_val(s.exp as int) + 1,
    {
        Vec3 { x: self.x.div(s), y: self.y.div(s), z: self.z.div(s) }
    }

    /// The squared length of the vector; never negative.
    pub fn length_squared(self) -> (r: SciFloat)
        requires
            self.wf(),
            self.exp_ok(),
        ensures
            r == Vec3::len_sq_spec(self),
            r.wf(),
            r.mantissa >= 0,
            abs_val(r.exp as int) <= 2 * self.max_abs_exp() + 25,
    {
        let xx = self.x.mul(self.x);
        let yy = self.y.mul(self.y);
        let zz = self.z.mul(self.z);
        proof {
            lemma_square_nonneg(self.x.mantissa as int);
            lemma_square_nonneg(self.y.mantissa as int);
            lemma_square_nonneg(self.z.mantissa as int);
        }
        let s = xx.add(yy);
        proof {
            lemma_sum_nonneg_mantissa(xx, yy);
        }
        let t = s.add(zz);
        proof {
            lemma_sum_nonneg_mantissa(s, zz);
        }
        t
    }
}

/// Largest exponent magnitude allowed on the state of a body handed
/// to the simulation; generous, and far inside the vector limit so a
/// whole tick of arithmetic can never overflow an exponent.
pub const BODY_EXP_LIMIT: i64 = 1_000_000_000;

/// An RGBA color, passed through the simulation untouched.
#[derive(Clone, Copy, Debug, PartialEq, Eq, Structural)]
pub struct Color {
    pub red: u8,
    pub green: u8,
    pub blue: u8,
    pub alpha: u8,
}

/// A velocity vector.
#[derive(Clone, Copy, Debug, PartialEq, Eq, Structural)]
pub struct Velocity(pub Vec3);

/// An acceleration vector.
#[derive(Clone, Copy, Debug, PartialEq, Eq, Structural)]
pub struct Acceleration(pub Vec3);

/// A mass.
#[derive(Clone, Copy, Debug, PartialEq, Eq, Structural)]
pub struct Mass(pub SciFloat);

/// A radius.
#[derive(Clone, Copy, Debug, PartialEq, Eq, Structural)]
pub struct Radius(pub SciFloat);

/// Whether the body emits light.
#[derive(Clone, Copy, Debug, PartialEq, Eq, Structural)]
pub struct Light(pub bool);

/// Marks a body whose position the integrator advances.
#[derive(Clone, Copy, Debug, PartialEq, Eq, Structural)]
pub struct UpdatePosition;

/// A display name.
#[derive(Debug)]
pub struct NameTag(pub String);

/// The per-body data fields, grouped as they arrive from the loader.
#[derive(Clone, Copy, Debug, PartialEq, Eq, Structural)]
pub struct CelBodyDataBundle {
    pub velocity: Velocity,
    pub acceleration: Acceleration,
    pub mass: Mass,
    pub radius: Radius,
    pub color: Color,
    pub light: Light,
}

/// Initial conditions for one body, as plain values; an external
/// loader fills one of these per body.
#[derive(Clone, Copy, Debug, PartialEq, Eq, Structural)]
pub struct BodyBuilder {
    pub position: Vec3,
    pub radius: SciFloat,
    pub color: Color,
    pub light: bool,
    pub velocity: Vec3,
    pub acceleration: Vec3,
    pub mass: SciFloat,
}

impl BodyBuilder {
    /// Every numeric field is normalized.
    pub open spec fn wf(self) -> bool {
        self.position.wf() && self.velocity.wf() && self.acceleration.wf()
            && self.radius.wf() && self.mass.wf()
    }

    /// Every exponent is within the body limit.
    pub open spec fn exps_ok(self) -> bool {
        self.position.max_abs_exp() <= BODY_EXP_LIMIT && self.velocity.max_abs_exp()
            <= BODY_EXP_LIMIT && self.acceleration.max_abs_exp() <= BODY_EXP_LIMIT
            && abs_val(self.radius.exp as int) <= BODY_EXP_LIMIT && abs_val(
            self.mass.exp as int,
        ) <= BODY_EXP_LIMIT
    }
}

/// One simulated body: kinematic state, mass, size, and the
/// presentation data carried through unchanged.
#[derive(Clone, Copy, Debug, PartialEq, Eq, Structural)]
pub struct CelBody {
    pub position: Vec3,
    pub velocity: Vec3,
    pub acceleration: Vec3,
    pub mass: SciFloat,
    pub radius: SciFloat,
    pub density: SciFloat,
    pub color: Color,
    pub light: bool,
}

impl CelBody {
    /// Every numeric field is normalized.
    pub open spec fn wf(self) -> bool {
        self.position.wf() && self.velocity.wf() && self.acceleration.wf()
            && self.mass.wf() && self.radius.wf() && self.density.wf()
    }

    /// Position and mass exponents are within the body limit; these
    /// are the fields the force pass reads.
    pub open spec fn force_inputs_ok(self) -> bool {
        self.position.max_abs_exp() <= BODY_EXP_LIMIT && abs_val(self.mass.exp as int)
            <= BODY_EXP_LIMIT
    }
}

/// The volume-style bulk `(4/3) * pi * radius^3` attached to each
/// body at construction.
pub open spec fn density_spec(radius: SciFloat) -> SciFloat {
    SciFloat::mul_val(
        SciFloat::mul_val(
            SciFloat::div_val(
                SciFloat { mantissa: 4_000_000, exp: 0 },
                SciFloat { mantissa: 3_000_000, exp: 0 },
            ),
            SciFloat { mantissa: 3_141_593, exp: 0 },
        ),
        SciFloat::mul_val(SciFloat::mul_val(radius, radius), radius),
    )
}

/// Builds the simulation's body records from loaded initial
/// conditions: every field is taken over as supplied, and the derived
/// bulk `(4/3) * pi * radius^3` is computed once here.
pub fn init_cel_bodies(builders: &Vec<BodyBuilder>) -> (r: Vec<CelBody>)
    requires
        forall|i: int|
            0 <= i < builders@.len() ==> (#[trigger] builders@[i]).wf()
                && builders@[i].exps_ok(),
    ensures
        r@.len() == builders@.len(),
        forall|i: int|
            0 <= i < builders@.len() ==> {
                let b = #[trigger] r@[i];
                let s = builders@[i];
                b.position == s.position && b.velocity == s.velocity
                    && b.acceleration == s.acceleration && b.mass == s.mass
                    && b.radius == s.radius && b.color == s.color && b.light == s.light
                    && b.density == density_spec(s.radius) && b.wf()
            },
{
    let mut out: Vec<CelBody> = Vec::new();
    let n = builders.len();
    let mut i: usize = 0;
    while i < n
        invariant
            n == builders@.len(),
            i <= n,
            out@.len() == i as int,
            forall|k: int|
                0 <= k < builders@.len() ==> (#[trigger] builders@[k]).wf()
                    && builders@[k].exps_ok(),
            forall|k: int|
                0 <= k < i as int ==> {
                    let b = #[trigger] out@[k];
                    let s = builders@[k];
                    b.position == s.position && b.velocity == s.velocity
                        && b.acceleration == s.acceleration && b.mass == s.mass
                        && b.radius == s.radius && b.color == s.color && b.light
                        == s.light && b.density == density_spec(s.radius) && b.wf()
                },
        decreases n - i,
    {
        let s = &builders[i];
        let four = SciFloat { mantissa: 4_000_000, exp: 0 };
        let three = SciFloat { mantissa: 3_000_000, exp: 0 };
        let pi = SciFloat { mantissa: 3_141_593, exp: 0 };
        let four_thirds = four.div(three);
        let shape = four_thirds.mul(pi);
        let r3 = s.radius.mul(s.radius).mul(s.radius);
        let density = shape.mul(r3);
        let body = CelBody {
            position: s.position,
            velocity: s.velocity,
            acceleration: s.acceleration,
            mass: s.mass,
            radius: s.radius,
            density,
            color: s.color,
            light: s.light,
        };
        out.push(body);
        i = i + 1;
    }
    out
}

/// The square of any integer is non-negative.
proof fn lemma_square_nonneg(x: int)
    ensures
        x * x >= 0,
{
    assert(x * x >= 0) by (nonlinear_arith);
}

/// The sum of two values with non-negative mantissas has a
/// non-negative mantissa.
proof fn lemma_sum_nonneg_mantissa(a: SciFloat, b: SciFloat)
    requires
        a.wf(),
        b.wf(),
        a.mantissa >= 0,
        b.mantissa >= 0,
    ensures
        SciFloat::add_spec(a, b).0 >= 0,
{
    let (hm, he, lm, d) = if a.exp >= b.exp {
        (a.mantissa as int, a.exp as int, b.mantissa as int, (a.exp - b.exp) as nat)
    } else {
        (b.mantissa as int, b.exp as int, a.mantissa as int, (b.exp - a.exp) as nat)
    };
    crate::sci_float::lemma_shift_keeps_sign(lm, d);
    let s = hm + crate::sci_float::trunc_div(lm, crate::sci_float::pow10(d));
    crate::sci_float::lemma_norm_keeps_sign(s, he);
}

} // verus!
