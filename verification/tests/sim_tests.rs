use celestial_body_sim::cel_body::BodyBuilder;
use celestial_body_sim::cel_body::CelBody;
use celestial_body_sim::cel_body::Color;
use celestial_body_sim::cel_body::Vec3;
use celestial_body_sim::cel_body::init_cel_bodies;
use celestial_body_sim::sci_float::SciFloat;
use celestial_body_sim::sim::gravity;
use celestial_body_sim::sim::simulation_step;
use celestial_body_sim::sim::update_position;

fn sci(mantissa: i64, exp: i64) -> SciFloat {
    SciFloat::new(mantissa, exp)
}

fn vec3(x: SciFloat, y: SciFloat, z: SciFloat) -> Vec3 {
    Vec3 { x, y, z }
}

fn zero3() -> Vec3 {
    vec3(SciFloat::zero(), SciFloat::zero(), SciFloat::zero())
}

fn gray() -> Color {
    Color { red: 128, green: 128, blue: 128, alpha: 255 }
}

fn body_at(x: SciFloat, mass: SciFloat) -> CelBody {
    CelBody {
        position: vec3(x, SciFloat::zero(), SciFloat::zero()),
        velocity: zero3(),
        acceleration: zero3(),
        mass,
        radius: sci(1_000_000, 0),
        density: sci(4_188_790, 0),
        color: gray(),
        light: false,
    }
}

fn to_f32(v: SciFloat) -> f32 {
    (v.mantissa as f32 / 1.0e6) * 10.0f32.powi(v.exp as i32)
}

#[test]
fn isolated_body_gets_zero_acceleration() {
    let mut bodies = vec![body_at(sci(3_000_000, 8), sci(1_000_000, 10))];
    bodies[0].acceleration = vec3(sci(5_000_000, 2), SciFloat::zero(), SciFloat::zero());
    gravity(&mut bodies);
    assert_eq!(bodies[0].acceleration.x.mantissa, 0);
    assert_eq!(bodies[0].acceleration.y.mantissa, 0);
    assert_eq!(bodies[0].acceleration.z.mantissa, 0);
}

#[test]
fn force_magnitudes_obey_newtons_third_law() {
    // Unequal masses: the accelerations differ, but mass times
    // acceleration (the force) has the same magnitude on both sides.
    let m1 = sci(2_000_000, 10);
    let m2 = sci(5_000_000, 8);
    let mut bodies = vec![body_at(SciFloat::zero(), m1), body_at(sci(1_000_000, 3), m2)];
    gravity(&mut bodies);
    let f1 = bodies[0].acceleration.x.mul(m1);
    let f2 = bodies[1].acceleration.x.mul(m2);
    assert_eq!(f1.mantissa, -f2.mantissa);
    assert_eq!(f1.exp, f2.exp);
    assert!(f1.mantissa > 0);
    assert!(f2.mantissa < 0);
}

#[test]
fn integration_updates_velocity_before_position() {
    let mut bodies = vec![body_at(SciFloat::zero(), sci(1_000_000, 0))];
    bodies[0].acceleration = vec3(sci(2_000_000, 0), SciFloat::zero(), SciFloat::zero());
    let dt = sci(1_000_000, 0);
    update_position(&mut bodies, dt);
    // Semi-implicit Euler: velocity (2,0,0), then position moves with
    // the updated velocity to (2,0,0), not (0,0,0).
    assert_eq!(bodies[0].velocity.x.mantissa, 2_000_000);
    assert_eq!(bodies[0].velocity.x.exp, 0);
    assert_eq!(bodies[0].position.x.mantissa, 2_000_000);
    assert_eq!(bodies[0].position.x.exp, 0);
    assert_eq!(bodies[0].velocity.y.mantissa, 0);
    assert_eq!(bodies[0].position.z.mantissa, 0);
    // Acceleration is not an integration output.
    assert_eq!(bodies[0].acceleration.x.mantissa, 2_000_000);
}

#[test]
fn two_equal_bodies_attract_symmetrically() {
    let mass = sci(1_000_000, 10);
    let far = sci(1_000_000, 3);
    let mut bodies = vec![body_at(SciFloat::zero(), mass), body_at(far, mass)];
    let dt = sci(1_000_000, -3);
    simulation_step(&mut bodies, dt, true);
    let v0 = bodies[0].velocity.x;
    let v1 = bodies[1].velocity.x;
    // Velocities point toward each other with equal magnitude.
    assert!(v0.mantissa > 0);
    assert!(v1.mantissa < 0);
    assert_eq!(v0.mantissa, -v1.mantissa);
    assert_eq!(v0.exp, v1.exp);
    // Positions stay symmetric about the midpoint x = 500.
    let mid = sci(5_000_000, 2);
    let off0 = bodies[0].position.x.sub(mid);
    let off1 = bodies[1].position.x.sub(mid);
    assert_eq!(off0.mantissa, -off1.mantissa);
    assert_eq!(off0.exp, off1.exp);
}

#[test]
fn zero_dt_tick_is_a_noop_for_the_integrator() {
    let mut bodies = vec![body_at(sci(3_000_000, 4), sci(1_000_000, 10))];
    bodies[0].velocity = vec3(sci(-1_500_000, 2), SciFloat::zero(), sci(9_000_000, -3));
    bodies[0].acceleration = vec3(sci(2_000_000, 0), sci(7_000_000, 1), SciFloat::zero());
    let before = bodies.clone();
    update_position(&mut bodies, SciFloat::zero());
    assert_eq!(bodies, before);
}

#[test]
fn inactive_step_changes_nothing() {
    let mass = sci(1_000_000, 10);
    let mut bodies = vec![body_at(SciFloat::zero(), mass), body_at(sci(1_000_000, 3), mass)];
    let before = bodies.clone();
    simulation_step(&mut bodies, sci(1_000_000, -3), false);
    assert_eq!(bodies, before);
}

#[test]
fn coincident_bodies_yield_finite_acceleration() {
    let mass = sci(1_000_000, 10);
    let spot = sci(7_000_000, 2);
    let mut bodies = vec![body_at(spot, mass), body_at(spot, mass)];
    gravity(&mut bodies);
    for b in bodies.iter() {
        for c in [b.acceleration.x, b.acceleration.y, b.acceleration.z].iter() {
            // Every value of the numeric type is finite; the clamped
            // distance floor keeps the computation defined, and the
            // zero displacement gives a zero net pull.
            assert!(c.mantissa.abs() < 10_000_000);
            assert_eq!(c.mantissa, 0);
        }
    }
}

#[test]
fn init_builds_bodies_with_derived_density() {
    let builders = vec![
        BodyBuilder {
            position: vec3(sci(1_000_000, 2), SciFloat::zero(), SciFloat::zero()),
            radius: sci(1_000_000, 0),
            color: gray(),
            light: true,
            velocity: zero3(),
            acceleration: zero3(),
            mass: sci(3_000_000, 5),
        },
        BodyBuilder {
            position: zero3(),
            radius: sci(2_000_000, 1),
            color: gray(),
            light: false,
            velocity: vec3(sci(1_500_000, 1), SciFloat::zero(), SciFloat::zero()),
            acceleration: zero3(),
            mass: sci(9_000_000, 2),
        },
    ];
    let bodies = init_cel_bodies(&builders);
    assert_eq!(bodies.len(), 2);
    assert_eq!(bodies[0].position, builders[0].position);
    assert_eq!(bodies[0].mass, builders[0].mass);
    assert_eq!(bodies[0].radius, builders[0].radius);
    assert!(bodies[0].light);
    assert_eq!(bodies[1].velocity, builders[1].velocity);
    assert!(!bodies[1].light);
    // density = (4/3) * pi * r^3; for r = 1 that is about 4.18879
    let d0 = to_f32(bodies[0].density);
    assert!((d0 - 4.18879).abs() < 1.0e-3, "density was {}", d0);
    // and for r = 20 it scales with the cube of the radius
    let d1 = to_f32(bodies[1].density);
    assert!((d1 - 4.18879 * 8000.0).abs() < 8.0, "density was {}", d1);
}

#[test]
fn two_body_pull_matches_gravitational_constant() {
    // Equal masses of 1e10 at distance 1e3: the force is
    // G * 1e20 / 1e6 = 6.6743e3, so each acceleration is 6.6743e-7.
    let mass = sci(1_000_000, 10);
    let mut bodies = vec![body_at(SciFloat::zero(), mass), body_at(sci(1_000_000, 3), mass)];
    gravity(&mut bodies);
    let a0 = bodies[0].acceleration.x;
    assert_eq!(a0.mantissa, 6_674_300);
    assert_eq!(a0.exp, -7);
}
