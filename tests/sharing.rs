use rand::rngs::StdRng;
use rand::SeedableRng;
use shamir_vss::{SharmirModel, ShareError, VSSParams, VerifiableSecretSharing};

fn session(secret: u64, n: usize, k: usize, seed: u64) -> (SharmirModel, Vec<(u64, u64)>) {
    let mut rng = StdRng::seed_from_u64(seed);
    let mut s = SharmirModel::new(secret, n, k).unwrap();
    s.generate_shares(&mut rng);
    let shares = s.get_shares().clone();
    (s, shares)
}

fn pick(shares: &[(u64, u64)], xs: &[u64]) -> Vec<(u64, u64)> {
    xs.iter().map(|x| shares[(*x - 1) as usize]).collect()
}

#[test]
fn concrete_scenario_143() {
    let (s, shares) = session(143, 5, 3, 7);
    let xs: Vec<u64> = shares.iter().map(|(x, _)| *x).collect();
    assert_eq!(xs, vec![1, 2, 3, 4, 5]);
    assert_eq!(s.reconstruct_secret(&pick(&shares, &[1, 3, 5])), Ok(143));
    assert_eq!(s.reconstruct_secret(&pick(&shares, &[2, 4, 5])), Ok(143));
    for (x, y) in &shares {
        assert!(s.verify_share(*x, *y));
    }
    let corrupted_y = shares[1].1 + 1;
    assert!(!s.verify_share(2, corrupted_y));
    for (x, y) in &shares {
        if *x != 2 {
            assert!(s.verify_share(*x, *y));
        }
    }
}

#[test]
fn round_trip_over_all_windows() {
    for seed in 0..4u64 {
        for &(secret, n, k) in &[(0u64, 1usize, 1usize), (143, 5, 3), (1018, 7, 4), (500, 6, 6), (1, 10, 2)] {
            let (s, shares) = session(secret, n, k, seed);
            for start in 0..=(n - k) {
                let subset: Vec<(u64, u64)> = shares[start..start + k].to_vec();
                assert_eq!(s.reconstruct_secret(&subset), Ok(secret));
                let mut reversed = subset.clone();
                reversed.reverse();
                assert_eq!(s.reconstruct_secret(&reversed), Ok(secret));
            }
            assert_eq!(s.reconstruct_secret(&shares), Ok(secret));
        }
    }
}

#[test]
fn distinct_subsets_agree() {
    let (s, shares) = session(777, 6, 3, 11);
    let a = s.reconstruct_secret(&pick(&shares, &[1, 2, 3])).unwrap();
    let b = s.reconstruct_secret(&pick(&shares, &[4, 5, 6])).unwrap();
    let c = s.reconstruct_secret(&pick(&shares, &[6, 1, 4])).unwrap();
    assert_eq!(a, b);
    assert_eq!(b, c);
    assert_eq!(a, 777);
}

#[test]
fn below_threshold_is_insufficient() {
    let (s, shares) = session(143, 5, 3, 3);
    assert_eq!(
        s.reconstruct_secret(&pick(&shares, &[1, 4])),
        Err(ShareError::InsufficientShares)
    );
    assert_eq!(s.reconstruct_secret(&vec![]), Err(ShareError::InsufficientShares));
}

#[test]
fn every_distributed_share_verifies() {
    for seed in 0..3u64 {
        for &(secret, n, k) in &[(143u64, 5usize, 3usize), (0, 4, 4), (1018, 9, 5), (9, 3, 1)] {
            let (s, shares) = session(secret, n, k, seed);
            for (x, y) in &shares {
                assert!(s.verify_share(*x, *y));
            }
        }
    }
}

#[test]
fn no_corrupted_value_verifies() {
    let (s, shares) = session(143, 5, 3, 5);
    let (x, y) = shares[2];
    for other in 0..1019u64 {
        if other != y {
            assert!(!s.verify_share(x, other));
        }
    }
}

#[test]
fn threshold_one_is_constant() {
    let (s, shares) = session(321, 4, 1, 9);
    for (x, y) in &shares {
        assert_eq!(*y, 321);
        assert_eq!(s.reconstruct_secret(&vec![(*x, *y)]), Ok(321));
    }
}

#[test]
fn invalid_threshold() {
    assert_eq!(SharmirModel::new(143, 5, 0).err(), Some(ShareError::InvalidThreshold));
    assert_eq!(SharmirModel::new(143, 5, 6).err(), Some(ShareError::InvalidThreshold));
    assert!(SharmirModel::new(143, 5, 5).is_ok());
}

#[test]
fn shares_before_generation_are_empty() {
    let s = SharmirModel::new(143, 5, 3).unwrap();
    assert!(s.get_shares().is_empty());
    assert!(s.get_commitments().is_none());
    assert!(!s.verify_share(1, 143));
}

#[test]
fn polynomial_is_drawn_once() {
    let mut rng = StdRng::seed_from_u64(21);
    let mut s = SharmirModel::new(143, 5, 3).unwrap();
    let y1 = s.construct_polynomial(&mut rng, 1);
    let y1_again = s.construct_polynomial(&mut rng, 1);
    assert_eq!(y1, y1_again);
    assert_eq!(s.construct_polynomial(&mut rng, 0), 143);
    s.generate_shares(&mut rng);
    assert_eq!(s.get_shares()[0], (1, y1));
    assert_eq!(s.get_commitments().unwrap().commitment_list()[0], 40);
    assert_eq!(s.get_commitments().unwrap().commitment_list().len(), 3);
}

#[test]
fn coefficients_depend_on_the_generator() {
    let (_, a) = session(143, 5, 3, 1);
    let (_, b) = session(143, 5, 3, 2);
    assert_ne!(a, b);
    for (_, y) in a.iter().chain(b.iter()) {
        assert!(*y < 1019);
    }
}

#[test]
fn reconstruction_errors_in_session() {
    let (s, shares) = session(143, 5, 3, 4);
    let mut dup = pick(&shares, &[1, 2]);
    dup.push(shares[0]);
    assert_eq!(s.reconstruct_secret(&dup), Err(ShareError::DuplicateCoordinate));
    let mut zero = pick(&shares, &[1, 2]);
    zero.push((0, 143));
    assert_eq!(s.reconstruct_secret(&zero), Err(ShareError::ZeroCoordinate));
}

#[test]
fn custom_params_session() {
    let params = VSSParams::from_values(2039, 1019, 3).unwrap();
    let mut rng = StdRng::seed_from_u64(8);
    let mut s = SharmirModel::with_params(500, 4, 2, params).unwrap();
    s.generate_shares(&mut rng);
    let shares = s.get_shares().clone();
    assert_eq!(s.reconstruct_secret(&pick(&shares, &[2, 4])), Ok(500));
    for (x, y) in &shares {
        assert!(s.verify_share(*x, *y));
    }
}

#[test]
fn standalone_commitment_scheme() {
    let params = VSSParams::new();
    let mut v = VerifiableSecretSharing::new(params);
    assert!(!v.verify_share(1, 155));
    v.generate_commitments(&vec![143, 5, 7]);
    assert!(v.verify_share(1, 155));
    assert!(v.verify_share(5, 343));
    assert!(!v.verify_share(5, 344));
}
