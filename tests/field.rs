use shamir_vss::{evaluate, interpolate_at_zero, mod_exp, ShareError, VSSCommitments, VSSParams};

#[test]
fn mod_exp_small_values() {
    assert_eq!(mod_exp(2, 10, 1000), Ok(24));
    assert_eq!(mod_exp(5000, 3, 2039), Ok(121));
    assert_eq!(mod_exp(3, 200, 1_000_000_007), Ok(136318165));
}

#[test]
fn mod_exp_zero_exponent_is_one() {
    assert_eq!(mod_exp(0, 0, 7), Ok(1));
    assert_eq!(mod_exp(12345, 0, 2039), Ok(1));
}

#[test]
fn mod_exp_large_modulus_stays_in_range() {
    let m = u64::MAX;
    let r = mod_exp(m - 1, 3, m).unwrap();
    // (-1)^3 = -1 = m - 1 (mod m)
    assert_eq!(r, m - 1);
}

#[test]
fn mod_exp_rejects_negative_exponent() {
    assert_eq!(mod_exp(2, -1, 2039), Err(ShareError::InvalidExponent));
}

#[test]
fn mod_exp_fermat_inverse() {
    // 5 * 5^(q-2) = 1 (mod q) for the prime q = 1019
    let inv = mod_exp(5, 1017, 1019).unwrap();
    assert_eq!(5 * inv % 1019, 1);
}

#[test]
fn evaluate_exact_values() {
    assert_eq!(evaluate(&vec![143, 5, 7], 2, 1019), 181);
    assert_eq!(evaluate(&vec![1000, 500], 3, 1019), 462);
    assert_eq!(evaluate(&vec![], 3, 1019), 0);
    assert_eq!(evaluate(&vec![42], 0, 1019), 42);
}

#[test]
fn default_params() {
    let p = VSSParams::new();
    assert_eq!((p.p, p.q, p.g), (2039, 1019, 2));
}

#[test]
fn from_values_checks_generator_order() {
    assert_eq!(VSSParams::from_values(2039, 1019, 2), Some(VSSParams::new()));
    assert_eq!(VSSParams::from_values(2039, 1019, 3).map(|p| p.g), Some(3));
    assert_eq!(VSSParams::from_values(2039, 1019, 7), None);
    assert_eq!(VSSParams::from_values(2039, 1019, 2039), None);
    assert_eq!(VSSParams::from_values(1, 1019, 0), None);
    assert_eq!(VSSParams::from_values(2039, 2, 1), None);
}

#[test]
fn commitments_are_generator_powers() {
    let params = VSSParams::new();
    let c = VSSCommitments::new(&vec![143, 5, 7, 11], &params);
    assert_eq!(c.commitment_list(), &vec![40, 32, 128, 9]);
}

#[test]
fn commitments_verify_honest_shares() {
    let params = VSSParams::new();
    let c = VSSCommitments::new(&vec![143, 5, 7], &params);
    let honest = [155u64, 181, 221, 275, 343];
    for (i, y) in honest.iter().enumerate() {
        let x = (i + 1) as u64;
        assert_eq!(c.verify_share(x, *y, &params), Ok(true));
        assert_eq!(c.verify_share(x, (*y + 1) % 1019, &params), Ok(false));
    }
}

#[test]
fn commitments_refuse_other_params() {
    let params = VSSParams::new();
    let other = VSSParams::from_values(2039, 1019, 3).unwrap();
    let c = VSSCommitments::new(&vec![143, 5, 7], &params);
    assert_eq!(c.verify_share(1, 155, &other), Err(ShareError::ParameterMismatch));
}

#[test]
fn interpolation_of_known_polynomial() {
    let shares = vec![(1, 155), (3, 221), (5, 343)];
    assert_eq!(interpolate_at_zero(&shares, 1019), Ok(143));
    let shares = vec![(5, 343), (2, 181), (4, 275)];
    assert_eq!(interpolate_at_zero(&shares, 1019), Ok(143));
}

#[test]
fn interpolation_rejects_zero_coordinate() {
    let shares = vec![(1, 155), (0, 143), (5, 343)];
    assert_eq!(interpolate_at_zero(&shares, 1019), Err(ShareError::ZeroCoordinate));
    let shares = vec![(1, 155), (1019, 143)];
    assert_eq!(interpolate_at_zero(&shares, 1019), Err(ShareError::ZeroCoordinate));
}

#[test]
fn interpolation_rejects_duplicate_coordinate() {
    let shares = vec![(1, 155), (3, 221), (3, 221)];
    assert_eq!(interpolate_at_zero(&shares, 1019), Err(ShareError::DuplicateCoordinate));
    let shares = vec![(1, 155), (1020, 155)];
    assert_eq!(interpolate_at_zero(&shares, 1019), Err(ShareError::DuplicateCoordinate));
}
