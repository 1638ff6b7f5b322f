use celestial_body_sim::sci_float::SciFloat;

fn sci(mantissa: i64, exp: i64) -> SciFloat {
    SciFloat::new(mantissa, exp)
}

fn to_f32(v: SciFloat) -> f32 {
    (v.mantissa as f32 / 1.0e6) * 10.0f32.powi(v.exp as i32)
}

fn from_f32(v: f32) -> SciFloat {
    if v == 0.0 {
        return SciFloat::zero();
    }
    let exp = v.abs().log10().floor() as i64;
    let mant = v / 10.0f32.powi(exp as i32);
    SciFloat::new((mant * 1.0e6) as i64, exp)
}

#[test]
fn test_sci_float() {
    let scifloat1 = sci(7_000_000, 12);
    let mut scifloat2 = sci(1_000_000, 8);

    println!("{:?} \n {:?}", scifloat1, scifloat2);

    scifloat2.add_assign(scifloat1);

    println!("{:?}", scifloat2);
    assert_eq!(scifloat2.mantissa, 7_000_100);
    assert_eq!(scifloat2.exp, 12);
}

#[test]
fn normalization_keeps_mantissa_in_range() {
    let samples = vec![
        sci(123_456_789, 0),
        sci(1, 5),
        sci(-42, -3),
        sci(9_999_999, 7),
        sci(-10_000_000, 0),
        sci(604_030_201_005, -11),
    ];
    for v in samples.iter() {
        let mag = v.mantissa.abs();
        assert!(1_000_000 <= mag && mag < 10_000_000);
    }
    assert_eq!(sci(123_456_789, 0).mantissa, 1_234_567);
    assert_eq!(sci(123_456_789, 0).exp, 2);
    let z = sci(0, 25);
    assert_eq!(z.mantissa, 0);
    assert_eq!(z.exp, 0);
}

#[test]
fn float_round_trip_across_magnitudes() {
    let values: Vec<f32> = vec![
        1.0e-6, 3.5e-3, 0.5, 1.0, 2.5, 9.99, 1.0e3, 7.77e7, 4.2e9, 1.0e12,
    ];
    for v in values.iter() {
        let rt = to_f32(from_f32(*v));
        let rel = ((rt - v) / v).abs();
        assert!(rel < 1.0e-3, "round trip of {} gave {}", v, rt);
    }
}

#[test]
fn addition_is_commutative() {
    let pairs = vec![
        (sci(7_000_000, 12), sci(1_000_000, 8)),
        (sci(2_500_000, 0), sci(-2_500_000, 0)),
        (sci(-3_300_000, -4), sci(9_100_000, 2)),
        (sci(0, 0), sci(5_000_000, -9)),
        (sci(1_234_567, 3), sci(1_234_567, 3)),
    ];
    for (a, b) in pairs.iter() {
        assert_eq!(a.add(*b), b.add(*a));
    }
}

#[test]
fn multiplicative_identity() {
    let one = sci(1_000_000, 0);
    let samples = vec![
        sci(2_500_000, 0),
        sci(-9_999_999, 17),
        sci(1_000_000, -30),
        SciFloat::zero(),
    ];
    for a in samples.iter() {
        assert_eq!(a.mul(one), *a);
    }
}

#[test]
fn addition_with_zero_returns_other_operand() {
    let small = sci(6_674_300, -11);
    assert_eq!(SciFloat::zero().add(small), small);
    assert_eq!(small.add(SciFloat::zero()), small);
}

#[test]
fn arithmetic_exact_cases() {
    // 2.5 * 4 = 10, renormalized to 1.0e1
    let p = sci(2_500_000, 0).mul(sci(4_000_000, 0));
    assert_eq!(p.mantissa, 1_000_000);
    assert_eq!(p.exp, 1);
    // 1 / 3 = 0.333333 truncated
    let q = sci(1_000_000, 0).div(sci(3_000_000, 0));
    assert_eq!(q.mantissa, 3_333_330);
    assert_eq!(q.exp, -1);
    // 5 - 7 = -2
    let d = sci(5_000_000, 0).sub(sci(7_000_000, 0));
    assert_eq!(d.mantissa, -2_000_000);
    assert_eq!(d.exp, 0);
    // negation flips the mantissa only
    let n = sci(5_000_000, 3).neg();
    assert_eq!(n.mantissa, -5_000_000);
    assert_eq!(n.exp, 3);
}

#[test]
fn square_root_exact_and_odd_exponent() {
    let three = sci(9_000_000, 0).sqrt();
    assert_eq!(three.mantissa, 3_000_000);
    assert_eq!(three.exp, 0);
    // sqrt(1e-11) handles the odd exponent by widening the mantissa
    let s = sci(1_000_000, -11).sqrt();
    assert_eq!(s.mantissa, 3_162_277);
    assert_eq!(s.exp, -6);
}

#[test]
fn exponent_power_operations() {
    let v = sci(2_000_000, 3);
    assert_eq!(v.squared().exp, 6);
    assert_eq!(v.squared().mantissa, 2_000_000);
    assert_eq!(v.cubed().exp, 9);
    assert_eq!(v.powi(5).exp, 15);
    assert_eq!(v.powi(5).mantissa, 2_000_000);
    let w = sci(2_000_000, 7);
    assert_eq!(w.sqrti(2).exp, 3);
    assert_eq!(w.sqrti(2).mantissa, 2_000_000);
    let mut u = sci(4_000_000, 2);
    u.add_exp(3);
    assert_eq!(u.exp, 5);
    assert_eq!(u.mantissa, 4_000_000);
}

#[test]
fn value_comparison() {
    let a = sci(1_000_000, 3);
    let b = sci(2_000_000, 3);
    let c = sci(1_000_000, 5);
    let neg = sci(-1_000_000, 9);
    assert!(a.lt(b));
    assert!(b.lt(c));
    assert!(neg.lt(a));
    assert!(!c.lt(a));
    assert_eq!(a.max_val(b), b);
    assert_eq!(c.max_val(a), c);
    assert_eq!(neg.max_val(a), a);
}
