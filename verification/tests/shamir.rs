use taba::security::gf256::{gf_div, gf_mul, poly_eval};
use taba::security::shamir::{reconstruct_secret, split_secret, Share};
use taba::security::error::SecurityError;

#[test]
fn test_gf_mul_identity() {
    assert_eq!(gf_mul(1, 1), 1);
    assert_eq!(gf_mul(0, 5), 0);
    assert_eq!(gf_mul(5, 0), 0);
}

#[test]
fn test_gf_mul_commutative() {
    for a in 1u8..=255 {
        for b in 1u8..=255 {
            assert_eq!(gf_mul(a, b), gf_mul(b, a), "gf_mul({a}, {b}) != gf_mul({b}, {a})");
        }
    }
}

#[test]
fn test_gf_div_inverse() {
    for a in 1u8..=255 {
        let inv = gf_div(1, a);
        assert_eq!(gf_mul(a, inv), 1, "gf_mul({a}, 1/{a}) should be 1");
    }
}

#[test]
fn test_gf_mul_div_roundtrip() {
    for a in 1u8..=255 {
        for b in 1u8..=255 {
            let product = gf_mul(a, b);
            if product != 0 {
                assert_eq!(gf_div(product, b), a, "gf_div(gf_mul({a}, {b}), {b}) should be {a}");
            }
        }
    }
}

#[test]
fn test_poly_eval_constant() {
    assert_eq!(poly_eval(&[42], 0), 42);
    assert_eq!(poly_eval(&[42], 1), 42);
    assert_eq!(poly_eval(&[42], 255), 42);
}

#[test]
fn test_poly_eval_linear() {
    assert_eq!(poly_eval(&[3, 5], 0), 3);
}

#[test]
fn test_split_reconstruct_roundtrip() {
    let secret = b"hello taba secret key 32 bytes!";
    let shares = split_secret(secret, 3, 5).expect("split should succeed");
    let reconstructed = reconstruct_secret(&shares[0..3]).expect("reconstruct should succeed");
    assert_eq!(reconstructed.as_slice(), secret);
    let reconstructed2 = reconstruct_secret(&shares[2..5]).expect("reconstruct should succeed");
    assert_eq!(reconstructed2.as_slice(), secret);
    let reconstructed3 = reconstruct_secret(&[shares[0].clone(), shares[2].clone(), shares[4].clone()])
        .expect("reconstruct should succeed");
    assert_eq!(reconstructed3.as_slice(), secret);
}

#[test]
fn test_split_32_bytes_ed25519() {
    let secret = [42u8; 32];
    let shares = split_secret(&secret, 5, 7).expect("split should succeed");
    assert_eq!(shares.len(), 7);
    assert_eq!(shares[0].value.len(), 32);
    let reconstructed = reconstruct_secret(&shares[1..6]).expect("reconstruct should succeed");
    assert_eq!(reconstructed.as_slice(), &secret);
}

#[test]
fn test_threshold_too_low() {
    let result = split_secret(b"secret", 1, 5);
    assert!(result.is_err());
}

#[test]
fn test_threshold_exceeds_total() {
    let result = split_secret(b"secret", 6, 5);
    assert!(result.is_err());
}

#[test]
fn test_too_many_shares() {
    let result = split_secret(b"secret", 2, 200);
    assert!(result.is_ok());
}

#[test]
fn test_reconstruct_too_few() {
    let result = reconstruct_secret(&[]);
    assert!(result.is_err());
    let one_share = Share { index: 1, value: vec![42] };
    let result = reconstruct_secret(&[one_share]);
    assert!(result.is_err());
}

#[test]
fn test_reconstruct_duplicate_indices() {
    let shares = split_secret(b"secret", 3, 5).expect("split should succeed");
    let dup = shares[0].clone();
    let result = reconstruct_secret(&[shares[0].clone(), dup, shares[2].clone()]);
    assert!(result.is_err());
}

#[test]
fn test_reconstruct_inconsistent_lengths() {
    let shares = vec![
        Share { index: 1, value: vec![1, 2, 3] },
        Share { index: 2, value: vec![4, 5] },
        Share { index: 3, value: vec![7, 8, 9] },
    ];
    let result = reconstruct_secret(&shares);
    assert!(result.is_err());
}

#[test]
fn test_empty_secret() {
    let shares = split_secret(b"", 3, 5).expect("split should succeed");
    assert_eq!(shares.len(), 5);
    assert!(shares[0].value.is_empty());
    let reconstructed = reconstruct_secret(&shares[0..3]).expect("reconstruct should succeed");
    assert!(reconstructed.is_empty());
}

#[test]
fn test_single_byte_secret() {
    let secret = [0x42u8];
    let shares = split_secret(&secret, 3, 5).expect("split should succeed");
    let reconstructed = reconstruct_secret(&shares[0..3]).expect("reconstruct should succeed");
    assert_eq!(reconstructed, vec![0x42]);
}

#[test]
fn test_shares_differ_from_secret() {
    let secret = [0x42u8; 32];
    let shares = split_secret(&secret, 3, 5).expect("split should succeed");
    for share in &shares {
        assert_ne!(share.value, secret.to_vec(), "share {share:?} should not equal secret");
    }
}

// -- Additional cases --------------------------------------------------------

#[test]
fn shares_are_indexed_from_one() {
    let shares = split_secret(b"abc", 2, 4).expect("split");
    let idx: Vec<u8> = shares.iter().map(|s| s.index).collect();
    assert_eq!(idx, vec![1, 2, 3, 4]);
}

#[test]
fn split_refusal_reasons() {
    match split_secret(b"x", 1, 3) {
        Err(SecurityError::CeremonyError { reason }) => assert_eq!(reason, "threshold must be at least 2"),
        other => panic!("unexpected {other:?}"),
    }
    match split_secret(b"x", 4, 3) {
        Err(SecurityError::CeremonyError { reason }) => assert_eq!(reason, "threshold cannot exceed total_shares"),
        other => panic!("unexpected {other:?}"),
    }
}

#[test]
fn reconstruct_refusal_reasons() {
    match reconstruct_secret(&[Share { index: 1, value: vec![1] }]) {
        Err(SecurityError::CeremonyError { reason }) => {
            assert_eq!(reason, "at least 2 shares are required for reconstruction")
        }
        other => panic!("unexpected {other:?}"),
    }
    match reconstruct_secret(&[Share { index: 1, value: vec![1] }, Share { index: 2, value: vec![] }]) {
        Err(SecurityError::CeremonyError { reason }) => assert_eq!(reason, "shares have inconsistent lengths"),
        other => panic!("unexpected {other:?}"),
    }
    match reconstruct_secret(&[Share { index: 7, value: vec![1] }, Share { index: 7, value: vec![2] }]) {
        Err(SecurityError::CeremonyError { reason }) => assert_eq!(reason, "duplicate share index: 7"),
        other => panic!("unexpected {other:?}"),
    }
}

#[test]
fn gf_known_products() {
    // 0x53 * 0xCA = 0x01 in the AES field.
    assert_eq!(gf_mul(0x53, 0xCA), 0x01);
    assert_eq!(gf_mul(2, 0x80), 0x1B);
    assert_eq!(gf_div(0x01, 0x53), 0xCA);
}

#[test]
fn every_pair_of_shares_reconstructs_with_threshold_two() {
    let secret = b"pairwise";
    let shares = split_secret(secret, 2, 4).expect("split");
    for i in 0..4 {
        for j in 0..4 {
            if i != j {
                let r = reconstruct_secret(&[shares[i].clone(), shares[j].clone()]).expect("reconstruct");
                assert_eq!(r.as_slice(), secret);
            }
        }
    }
}
