//! The simulation tick: pairwise gravity, then semi-implicit Euler
//! integration.
//!
//! One tick first recomputes every body's acceleration from scratch
//! by summing the gravitational pull of every other body against a
//! single consistent position snapshot, and only then advances
//! velocities and positions.  The squared distance between a pair is
//! clamped to a small positive floor, so coincident bodies yield a
//! finite force instead of a division by zero.

use vstd::prelude::*;
use crate::cel_body::BODY_EXP_LIMIT;
use crate::cel_body::CelBody;
use crate::cel_body::Vec3;
use crate::sci_float::SciFloat;
use crate::sci_float::abs_val;
use crate::sci_float::lemma_ltv_shape;

verus! {

/// The gravitational constant `6.67430e-11`.
pub open spec fn g_spec() -> SciFloat {
    SciFloat { mantissa: 6_674_300, exp: -11i64 }
}

/// The gravitational constant as a value.
pub fn grav_const() -> (r: SciFloat)
    ensures
        r == g_spec(),
        r.wf(),
{
    SciFloat { mantissa: 6_674_300, exp: -11i64 }
}

/// The floor `1.0e-11` put under every squared distance, guarding
/// the force law's singularity at zero separation.
pub open spec fn min_dist_sq_spec() -> SciFloat {
    SciFloat { mantissa: 1_000_000, exp: -11i64 }
}

/// The squared-distance floor as a value.
pub fn min_dist_sq() -> (r: SciFloat)
    ensures
        r == min_dist_sq_spec(),
        r.wf(),
{
    SciFloat { mantissa: 1_000_000, exp: -11i64 }
}

/// The zero vector.
pub open spec fn zero_vec() -> Vec3 {
    Vec3 {
        x: SciFloat { mantissa: 0, exp: 0 },
        y: SciFloat { mantissa: 0, exp: 0 },
        z: SciFloat { mantissa: 0, exp: 0 },
    }
}

/// The clamped squared distance between two bodies: the squared
/// length of their displacement, or the floor, whichever is larger.
pub open spec fn dist_sq_spec(b1: CelBody, b2: CelBody) -> SciFloat {
    SciFloat::max_v(
        Vec3::len_sq_spec(Vec3::sub_spec(b2.position, b1.position)),
        min_dist_sq_spec(),
    )
}

/// The scalar force magnitude `G * m1 * m2 / d^2` for one ordered
/// pair, with the mass product taken first so that the magnitude is
/// symmetric in the two bodies.
pub open spec fn force_magnitude_spec(b1: CelBody, b2: CelBody) -> SciFloat {
    SciFloat::div_val(
        SciFloat::mul_val(SciFloat::mul_val(b1.mass, b2.mass), g_spec()),
        dist_sq_spec(b1, b2),
    )
}

/// The force vector body `b2` exerts on body `b1`: the force
/// magnitude along the unit displacement vector toward `b2`.
pub open spec fn force_on_from(b1: CelBody, b2: CelBody) -> Vec3 {
    let dir = Vec3::sub_spec(b2.position, b1.position);
    let len = SciFloat::sqrt_val(dist_sq_spec(b1, b2));
    Vec3::scale_spec(Vec3::div_scalar_spec(dir, len), force_magnitude_spec(b1, b2))
}

/// The sum of the forces on body `i` from the bodies before index
/// `j`, skipping `i` itself.
pub open spec fn net_force(bs: Seq<CelBody>, i: int, j: int) -> Vec3
    decreases j,
{
    if j <= 0 {
        zero_vec()
    } else if j - 1 == i {
        net_force(bs, i, j - 1)
    } else {
        Vec3::add_spec(net_force(bs, i, j - 1), force_on_from(bs[i], bs[j - 1]))
    }
}

/// The acceleration of body `i` for this tick: its whole net force
/// divided by its own mass.
pub open spec fn accel_spec(bs: Seq<CelBody>, i: int) -> Vec3 {
    Vec3::div_scalar_spec(net_force(bs, i, bs.len() as int), bs[i].mass)
}

/// Computes the force one body exerts on another.
fn force_between(b1: &CelBody, b2: &CelBody) -> (f: Vec3)
    requires
        b1.wf(),
        b2.wf(),
        b1.force_inputs_ok(),
        b2.force_inputs_ok(),
    ensures
        f == force_on_from(*b1, *b2),
        f.wf(),
        f.max_abs_exp() <= 7 * BODY_EXP_LIMIT + 97,
{
    let dir = b2.position.sub(b1.position);
    let d2r = dir.length_squared();
    let md = min_dist_sq();
    let d2 = d2r.max_val(md);
    proof {
        lemma_ltv_shape(d2r, md);
    }
    let len = d2.sqrt();
    let fm = b1.mass.mul(b2.mass).mul(grav_const()).div(d2);
    let dirn = dir.div_scalar(len);
    dirn.scale(fm)
}

/// The force pass: recomputes every body's acceleration from the
/// current snapshot of positions and masses, leaving every other
/// field untouched.  For each ordered pair of distinct bodies the
/// pairwise force is accumulated, and each body's accumulated force
/// is then divided by its own mass.
pub fn gravity(bodies: &mut Vec<CelBody>)
    requires
        old(bodies)@.len() <= 1_000_000_000,
        forall|i: int|
            0 <= i < old(bodies)@.len() ==> (#[trigger] old(bodies)@[i]).wf() && old(
                bodies,
            )@[i].force_inputs_ok() && old(bodies)@[i].mass.mantissa != 0,
    ensures
        final(bodies)@.len() == old(bodies)@.len(),
        forall|i: int|
            0 <= i < old(bodies)@.len() ==> {
                let nb = #[trigger] final(bodies)@[i];
                let ob = old(bodies)@[i];
                nb.position == ob.position && nb.velocity == ob.velocity && nb.mass
                    == ob.mass && nb.radius == ob.radius && nb.density == ob.density
                    && nb.color == ob.color && nb.light == ob.light && nb.acceleration
                    == accel_spec(old(bodies)@, i) && nb.wf()
                    && nb.acceleration.max_abs_exp() <= 20_000_000_000
            },
{
    let n = bodies.len();
    let mut forces: Vec<Vec3> = Vec::new();
    let mut i: usize = 0;
    while i < n
        invariant
            bodies@ == old(bodies)@,
            n == bodies@.len(),
            n <= 1_000_000_000,
            i <= n,
            forces@.len() == i as int,
            forall|k: int|
                0 <= k < n as int ==> (#[trigger] bodies@[k]).wf()
                    && bodies@[k].force_inputs_ok() && bodies@[k].mass.mantissa != 0,
            forall|k: int|
                0 <= k < i as int ==> (#[trigger] forces@[k]) == net_force(
                    bodies@,
                    k,
                    n as int,
                ) && forces@[k].wf() && forces@[k].max_abs_exp() <= 7 * BODY_EXP_LIMIT
                    + 97 + 6 * (n as int),
        decreases n - i,
    {
        let mut acc = Vec3::zero();
        let mut j: usize = 0;
        while j < n
            invariant
                bodies@ == old(bodies)@,
                n == bodies@.len(),
                n <= 1_000_000_000,
                i < n,
                j <= n,
                forall|k: int|
                    0 <= k < n as int ==> (#[trigger] bodies@[k]).wf()
                        && bodies@[k].force_inputs_ok() && bodies@[k].mass.mantissa
                        != 0,
                acc == net_force(bodies@, i as int, j as int),
                acc.wf(),
                acc.max_abs_exp() <= 7 * BODY_EXP_LIMIT + 97 + 6 * (j as int),
            decreases n - j,
        {
            if i != j {
                let f = force_between(&bodies[i], &bodies[j]);
                acc = acc.add(f);
            }
            j = j + 1;
        }
        forces.push(acc);
        i = i + 1;
    }
    let mut i: usize = 0;
    while i < n
        invariant
            n == bodies@.len(),
            n as int == old(bodies)@.len(),
            n <= 1_000_000_000,
            i <= n,
            forces@.len() == n as int,
            forall|k: int|
                i as int <= k < n as int ==> (#[trigger] bodies@[k]) == old(
                    bodies,
                )@[k],
            forall|k: int|
                0 <= k < n as int ==> (#[trigger] old(bodies)@[k]).wf() && old(
                    bodies,
                )@[k].force_inputs_ok() && old(bodies)@[k].mass.mantissa != 0,
            forall|k: int|
                0 <= k < n as int ==> (#[trigger] forces@[k]) == net_force(
                    old(bodies)@,
                    k,
                    n as int,
                ) && forces@[k].wf() && forces@[k].max_abs_exp() <= 7 * BODY_EXP_LIMIT
                    + 97 + 6 * (n as int),
            forall|k: int|
                0 <= k < i as int ==> {
                    let nb = #[trigger] bodies@[k];
                    let ob = old(bodies)@[k];
                    nb.position == ob.position && nb.velocity == ob.velocity && nb.mass
                        == ob.mass && nb.radius == ob.radius && nb.density
                        == ob.density && nb.color == ob.color && nb.light == ob.light
                        && nb.acceleration == accel_spec(old(bodies)@, k) && nb.wf()
                        && nb.acceleration.max_abs_exp() <= 20_000_000_000
                },
        decreases n - i,
    {
        let a = forces[i].div_scalar(bodies[i].mass);
        let mut b = bodies[i];
        b.acceleration = a;
        bodies.set(i, b);
        i = i + 1;
    }
}

/// What one body becomes under one semi-implicit Euler step: the
/// velocity is advanced first, and the position then moves with the
/// already-updated velocity.
pub open spec fn integrate_spec(b: CelBody, dt: SciFloat) -> CelBody {
    let v2 = Vec3::add_spec(b.velocity, Vec3::scale_spec(b.acceleration, dt));
    let p2 = Vec3::add_spec(b.position, Vec3::scale_spec(v2, dt));
    CelBody {
        position: p2,
        velocity: v2,
        acceleration: b.acceleration,
        mass: b.mass,
        radius: b.radius,
        density: b.density,
        color: b.color,
        light: b.light,
    }
}

/// The integration pass: advances every body by `velocity +=
/// acceleration * dt` and then `position += velocity * dt`, in that
/// order, using the freshly updated velocity for the position move.
/// The acceleration is left untouched.
pub fn update_position(bodies: &mut Vec<CelBody>, dt: SciFloat)
    requires
        dt.wf(),
        abs_val(dt.exp as int) <= BODY_EXP_LIMIT,
        forall|i: int|
            0 <= i < old(bodies)@.len() ==> (#[trigger] old(bodies)@[i]).wf() && old(
                bodies,
            )@[i].position.max_abs_exp() <= 100 * BODY_EXP_LIMIT && old(
                bodies,
            )@[i].velocity.max_abs_exp() <= 100 * BODY_EXP_LIMIT && old(
                bodies,
            )@[i].acceleration.max_abs_exp() <= 100 * BODY_EXP_LIMIT,
    ensures
        final(bodies)@.len() == old(bodies)@.len(),
        forall|i: int|
            0 <= i < old(bodies)@.len() ==> (#[trigger] final(bodies)@[i])
                == integrate_spec(old(bodies)@[i], dt),
        forall|i: int|
            0 <= i < old(bodies)@.len() ==> (#[trigger] final(bodies)@[i]).wf()
                && final(bodies)@[i].position.max_abs_exp() <= 102 * BODY_EXP_LIMIT
                + 14 && final(bodies)@[i].velocity.max_abs_exp() <= 102
                * BODY_EXP_LIMIT + 14,
    {
    let n = bodies.len();
    let mut i: usize = 0;
    while i < n
        invariant
            n == bodies@.len(),
            n as int == old(bodies)@.len(),
            i <= n,
            dt.wf(),
            abs_val(dt.exp as int) <= BODY_EXP_LIMIT,
            forall|k: int|
                0 <= k < n as int ==> (#[trigger] old(bodies)@[k]).wf() && old(
                    bodies,
                )@[k].position.max_abs_exp() <= 100 * BODY_EXP_LIMIT && old(
                    bodies,
                )@[k].velocity.max_abs_exp() <= 100 * BODY_EXP_LIMIT && old(
                    bodies,
                )@[k].acceleration.max_abs_exp() <= 100 * BODY_EXP_LIMIT,
            forall|k: int|
                i as int <= k < n as int ==> (#[trigger] bodies@[k]) == old(
                    bodies,
                )@[k],
            forall|k: int|
                0 <= k < i as int ==> (#[trigger] bodies@[k]) == integrate_spec(
                    old(bodies)@[k],
                    dt,
                ),
            forall|k: int|
                0 <= k < i as int ==> (#[trigger] bodies@[k]).wf()
                    && bodies@[k].position.max_abs_exp() <= 102 * BODY_EXP_LIMIT + 14
                    && bodies@[k].velocity.max_abs_exp() <= 102 * BODY_EXP_LIMIT + 14,
        decreases n - i,
    {
        let mut b = bodies[i];
        let v2 = b.velocity.add(b.acceleration.scale(dt));
        let p2 = b.position.add(v2.scale(dt));
        b.velocity = v2;
        b.position = p2;
        bodies.set(i, b);
        i = i + 1;
    }
}

/// One whole tick, run only when `active` is set: the force pass for
/// every body completes before the integration pass begins, so each
/// body's force sum reflects every peer against one consistent
/// position snapshot.  An inactive tick changes nothing.
pub fn simulation_step(bodies: &mut Vec<CelBody>, dt: SciFloat, active: bool)
    requires
        old(bodies)@.len() <= 1_000_000_000,
        dt.wf(),
        abs_val(dt.exp as int) <= BODY_EXP_LIMIT,
        forall|i: int|
            0 <= i < old(bodies)@.len() ==> (#[trigger] old(bodies)@[i]).wf() && old(
                bodies,
            )@[i].force_inputs_ok() && old(bodies)@[i].mass.mantissa != 0 && old(
                bodies,
            )@[i].velocity.max_abs_exp() <= 100 * BODY_EXP_LIMIT && old(
                bodies,
            )@[i].acceleration.max_abs_exp() <= 100 * BODY_EXP_LIMIT,
    ensures
        final(bodies)@.len() == old(bodies)@.len(),
        !active ==> final(bodies)@ == old(bodies)@,
        active ==> forall|i: int|
            0 <= i < old(bodies)@.len() ==> {
                let mid = CelBody {
                    position: old(bodies)@[i].position,
                    velocity: old(bodies)@[i].velocity,
                    acceleration: accel_spec(old(bodies)@, i),
                    mass: old(bodies)@[i].mass,
                    radius: old(bodies)@[i].radius,
                    density: old(bodies)@[i].density,
                    color: old(bodies)@[i].color,
                    light: old(bodies)@[i].light,
                };
                (#[trigger] final(bodies)@[i]) == integrate_spec(mid, dt)
                    && final(bodies)@[i].wf()
            },
{
    if active {
        gravity(bodies);
        update_position(bodies, dt);
    }
}

/// A zero time slice is a valid no-op tick: integrating any
/// well-formed body over `dt = 0` returns it exactly unchanged.
pub proof fn lemma_zero_dt_noop(b: CelBody)
    requires
        b.wf(),
    ensures
        integrate_spec(b, SciFloat { mantissa: 0, exp: 0 }) == b,
{
    let z = SciFloat { mantissa: 0, exp: 0 };
    lemma_scale_by_zero(b.acceleration.x, z);
    lemma_scale_by_zero(b.acceleration.y, z);
    lemma_scale_by_zero(b.acceleration.z, z);
    assert(Vec3::add_spec(b.velocity, Vec3::scale_spec(b.acceleration, z))
        == b.velocity);
    lemma_scale_by_zero(b.velocity.x, z);
    lemma_scale_by_zero(b.velocity.y, z);
    lemma_scale_by_zero(b.velocity.z, z);
}

/// Multiplying by zero gives canonical zero, and adding that zero to
/// a well-formed value gives the value back.
proof fn lemma_scale_by_zero(c: SciFloat, z: SciFloat)
    requires
        z.mantissa == 0,
        z.exp == 0,
    ensures
        SciFloat::mul_val(c, z) == z,
        c.wf() ==> SciFloat::add_val(c, SciFloat::mul_val(c, z)) == c,
{
    assert(c.mantissa * z.mantissa == 0) by (nonlinear_arith)
        requires
            z.mantissa == 0i64,
    ;
    crate::sci_float::lemma_trunc_div_props(0, crate::sci_float::SCALE as int);
}

/// Newton's third law: the scalar force magnitude computed on one
/// body from another equals the magnitude computed the other way
/// around, and the whole force vector one body receives from the
/// other is the exact negation of the force the other receives from
/// it.
pub proof fn lemma_force_symmetry(b1: CelBody, b2: CelBody)
    requires
        b1.wf(),
        b2.wf(),
    ensures
        force_magnitude_spec(b1, b2) == force_magnitude_spec(b2, b1),
        force_on_from(b2, b1) == Vec3::neg_spec(force_on_from(b1, b2)),
{
    let d12 = Vec3::sub_spec(b2.position, b1.position);
    let d21 = Vec3::sub_spec(b1.position, b2.position);
    crate::sci_float::lemma_sub_antisym(b2.position.x, b1.position.x);
    crate::sci_float::lemma_sub_antisym(b2.position.y, b1.position.y);
    crate::sci_float::lemma_sub_antisym(b2.position.z, b1.position.z);
    lemma_sub_pair_in_range(b2.position.x, b1.position.x);
    lemma_sub_pair_in_range(b2.position.y, b1.position.y);
    lemma_sub_pair_in_range(b2.position.z, b1.position.z);
    assert(d12 == Vec3::neg_spec(d21));
    assert(d21 == Vec3::neg_spec(d12));
    lemma_square_of_neg(d21.x);
    lemma_square_of_neg(d21.y);
    lemma_square_of_neg(d21.z);
    assert(Vec3::len_sq_spec(d12) == Vec3::len_sq_spec(d21));
    assert(SciFloat::mul_val(b1.mass, b2.mass) == SciFloat::mul_val(b2.mass, b1.mass));
    let d2v = dist_sq_spec(b1, b2);
    assert(dist_sq_spec(b2, b1) == d2v);
    lemma_sub_val_wf(b2.position.x, b1.position.x);
    lemma_sub_val_wf(b2.position.y, b1.position.y);
    lemma_sub_val_wf(b2.position.z, b1.position.z);
    lemma_sub_val_wf(b1.position.x, b2.position.x);
    lemma_sub_val_wf(b1.position.y, b2.position.y);
    lemma_sub_val_wf(b1.position.z, b2.position.z);
    crate::sci_float::lemma_mul_val_wf(d12.x, d12.x);
    crate::sci_float::lemma_mul_val_wf(d12.y, d12.y);
    crate::sci_float::lemma_mul_val_wf(d12.z, d12.z);
    let xx = SciFloat::mul_val(d12.x, d12.x);
    let yy = SciFloat::mul_val(d12.y, d12.y);
    let zz = SciFloat::mul_val(d12.z, d12.z);
    crate::sci_float::lemma_add_val_wf(xx, yy);
    crate::sci_float::lemma_add_val_wf(SciFloat::add_val(xx, yy), zz);
    let lensq = Vec3::len_sq_spec(d12);
    let md = min_dist_sq_spec();
    lemma_ltv_shape(lensq, md);
    assert(d2v.wf() && d2v.mantissa > 0);
    crate::sci_float::lemma_sqrt_val_wf(d2v);
    let len = SciFloat::sqrt_val(d2v);
    crate::sci_float::lemma_mul_val_wf(b1.mass, b2.mass);
    crate::sci_float::lemma_mul_val_wf(
        SciFloat::mul_val(b1.mass, b2.mass),
        g_spec(),
    );
    crate::sci_float::lemma_div_val_wf(
        SciFloat::mul_val(SciFloat::mul_val(b1.mass, b2.mass), g_spec()),
        d2v,
    );
    lemma_component_antisym(d12.x, d21.x, len, b1, b2);
    lemma_component_antisym(d12.y, d21.y, len, b1, b2);
    lemma_component_antisym(d12.z, d21.z, len, b1, b2);
}

/// The difference of two well-formed values is a well-formed value.
proof fn lemma_sub_val_wf(a: SciFloat, b: SciFloat)
    requires
        a.wf(),
        b.wf(),
    ensures
        SciFloat::sub_val(a, b).wf(),
{
    let nb = SciFloat::neg_spec(b);
    assert(nb.wf());
    crate::sci_float::lemma_add_val_wf(a, nb);
    assert(SciFloat::sub_val(a, b) == SciFloat::add_val(a, nb));
}

/// One component of the force pair: the component the second body
/// receives is the negation of the component the first receives.
proof fn lemma_component_antisym(
    c12: SciFloat,
    c21: SciFloat,
    len: SciFloat,
    b1: CelBody,
    b2: CelBody,
)
    requires
        c12.wf(),
        c21 == SciFloat::neg_spec(c12),
        len.wf(),
        len.mantissa > 0,
        b1.mass.wf(),
        b2.mass.wf(),
        force_magnitude_spec(b1, b2) == force_magnitude_spec(b2, b1),
        force_magnitude_spec(b1, b2).wf(),
    ensures
        SciFloat::mul_val(
            SciFloat::div_val(c21, len),
            force_magnitude_spec(b2, b1),
        ) == SciFloat::neg_spec(
            SciFloat::mul_val(SciFloat::div_val(c12, len), force_magnitude_spec(b1, b2)),
        ),
{
    let fm = force_magnitude_spec(b1, b2);
    crate::sci_float::lemma_div_neg_left(c12, len);
    crate::sci_float::lemma_div_val_wf(c12, len);
    let dn12 = SciFloat::div_val(c12, len);
    let dn21 = SciFloat::div_val(c21, len);
    assert(dn21 == SciFloat::neg_spec(dn12));
    crate::sci_float::lemma_mul_neg_left(dn12, fm);
    crate::sci_float::lemma_mul_val_wf(dn12, fm);
}

/// The normalized difference of two well-formed values stays inside
/// the mantissa range, both ways around.
proof fn lemma_sub_pair_in_range(a: SciFloat, b: SciFloat)
    requires
        a.wf(),
        b.wf(),
    ensures
        -10 * crate::sci_float::SCALE < SciFloat::sub_spec(a, b).0 < 10
            * crate::sci_float::SCALE,
        -10 * crate::sci_float::SCALE < SciFloat::sub_spec(b, a).0 < 10
            * crate::sci_float::SCALE,
{
    lemma_sub_one_in_range(a, b);
    lemma_sub_one_in_range(b, a);
}

proof fn lemma_sub_one_in_range(a: SciFloat, b: SciFloat)
    requires
        a.wf(),
        b.wf(),
    ensures
        -10 * crate::sci_float::SCALE < SciFloat::sub_spec(a, b).0 < 10
            * crate::sci_float::SCALE,
{
    let nb = SciFloat::neg_spec(b);
    let (mh, eh, ml, d) = if a.exp >= nb.exp {
        (a.mantissa as int, a.exp as int, nb.mantissa as int, (a.exp - nb.exp) as nat)
    } else {
        (nb.mantissa as int, nb.exp as int, a.mantissa as int, (nb.exp - a.exp) as nat)
    };
    crate::sci_float::lemma_shift_keeps_sign(ml, d);
    let s = mh + crate::sci_float::trunc_div(ml, crate::sci_float::pow10(d));
    if s != 0 {
        crate::sci_float::lemma_pow10_19();
        assert(abs_val(s) < 20 * crate::sci_float::SCALE);
        crate::sci_float::lemma_norm_props(s, eh);
    }
}

/// Squaring ignores the sign of the mantissa.
proof fn lemma_square_of_neg(c: SciFloat)
    requires
        -10 * crate::sci_float::SCALE < c.mantissa < 10 * crate::sci_float::SCALE,
    ensures
        SciFloat::mul_val(SciFloat::neg_spec(c), SciFloat::neg_spec(c))
            == SciFloat::mul_val(c, c),
{
    let nc = SciFloat::neg_spec(c);
    assert(nc.mantissa as int == -(c.mantissa as int));
    assert((nc.mantissa as int) * (nc.mantissa as int) == (c.mantissa as int) * (
    c.mantissa as int)) by (nonlinear_arith)
        requires
            nc.mantissa as int == -(c.mantissa as int),
    ;
}

/// An isolated body feels nothing: with no peers the net force is
/// the zero vector, and dividing it by the body's own mass leaves a
/// zero acceleration.
pub proof fn lemma_isolated_zero_accel(bs: Seq<CelBody>)
    requires
        bs.len() == 1,
        bs[0].mass.wf(),
        bs[0].mass.mantissa != 0,
    ensures
        accel_spec(bs, 0) == zero_vec(),
{
    assert(net_force(bs, 0, 0) == zero_vec());
    assert(net_force(bs, 0, 1) == net_force(bs, 0, 0));
    crate::sci_float::lemma_trunc_div_props(0, bs[0].mass.mantissa as int);
    assert(SciFloat::div_val(SciFloat { mantissa: 0, exp: 0 }, bs[0].mass) == (SciFloat {
        mantissa: 0,
        exp: 0,
    }));
}

} // verus!
