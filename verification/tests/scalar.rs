use nbody_lockstep::fixed_scalar::FixedScalar;

fn fx(bits: i64) -> fixed::types::I32F32 {
    fixed::types::I32F32::from_bits(bits)
}

#[test]
fn saturating_ops_match_reference() {
    let cases: [(i64, i64); 8] = [
        (3 << 32, 2 << 32),
        (-(3i64 << 32), 2 << 32),
        (1 << 32, 3 << 32),
        (i64::MAX, 1 << 32),
        (i64::MIN, 1 << 32),
        (i64::MAX, i64::MAX),
        (i64::MIN, i64::MAX),
        (123456789, -987654321),
    ];
    for (a, b) in cases {
        let sa = FixedScalar::from_raw(a);
        let sb = FixedScalar::from_raw(b);
        assert_eq!(sa.sat_add(sb).to_raw(), fx(a).saturating_add(fx(b)).to_bits());
        assert_eq!(sa.sat_sub(sb).to_raw(), fx(a).saturating_sub(fx(b)).to_bits());
        assert_eq!(sa.sat_mul(sb).to_raw(), fx(a).saturating_mul(fx(b)).to_bits());
        if b != 0 {
            assert_eq!(sa.sat_div(sb).to_raw(), fx(a).saturating_div(fx(b)).to_bits());
        }
    }
}

#[test]
fn arithmetic_exact_values() {
    let three = FixedScalar::from_int(3);
    let two = FixedScalar::from_int(2);
    assert_eq!(three.sat_mul(two), FixedScalar::from_int(6));
    assert_eq!(FixedScalar::from_raw(i64::MAX).sat_add(FixedScalar::from_int(1)).to_raw(), i64::MAX);
    // division truncates toward zero
    assert_eq!(FixedScalar::from_int(1).sat_div(three).to_raw(), 1431655765);
    assert_eq!(
        FixedScalar::from_int(-1).sat_div(three).to_raw(),
        -1431655765
    );
}

#[test]
fn sqrt_matches_reference() {
    assert_eq!(FixedScalar::from_int(4).sqrt(), FixedScalar::from_int(2));
    let two = FixedScalar::from_int(2);
    assert_eq!(two.sqrt().to_raw(), 6073942016);
    for bits in [0i64, 1, 1 << 16, 1 << 32, 123456789012345, i64::MAX] {
        let direct = fixed_sqrt::FixedSqrt::sqrt(fx(bits)).to_bits();
        assert_eq!(FixedScalar::from_raw(bits).sqrt().to_raw(), direct);
    }
}

#[test]
fn raw_round_trip() {
    for bits in [0i64, -1, i64::MAX, i64::MIN, 42] {
        assert_eq!(FixedScalar::from_raw(bits).to_raw(), bits);
    }
}
