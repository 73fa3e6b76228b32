use frost_k256::point::Point;
use frost_k256::scalar::Scalar;
use frost_k256::compute_message_hash;
use frost_k256::signature::{calculate_lagrange_coefficients, SignError};

fn hex32(s: &str) -> [u8; 32] {
    let mut out = [0u8; 32];
    for i in 0..32 {
        out[i] = u8::from_str_radix(&s[2 * i..2 * i + 2], 16).unwrap();
    }
    out
}

const ORDER: &str = "fffffffffffffffffffffffffffffffebaaedce6af48a03bbfd25e8cd0364141";
const ORDER_MINUS_ONE: &str = "fffffffffffffffffffffffffffffffebaaedce6af48a03bbfd25e8cd0364140";

#[test]
fn scalar_from_u32_is_big_endian() {
    let mut expected = [0u8; 32];
    expected[28..].copy_from_slice(&0x01020304u32.to_be_bytes());
    assert_eq!(Scalar::from_u32(0x01020304).to_bytes(), expected);
}

#[test]
fn scalar_arithmetic_is_modular() {
    let two = Scalar::from_u32(2);
    let three = Scalar::from_u32(3);
    assert_eq!(two.add(&three).to_bytes(), Scalar::from_u32(5).to_bytes());
    assert_eq!(two.mul(&three).to_bytes(), Scalar::from_u32(6).to_bytes());
    assert_eq!(three.sub(&two).to_bytes(), Scalar::one().to_bytes());
    assert_eq!(two.sub(&three).to_bytes(), hex32(ORDER_MINUS_ONE));
    assert_eq!(Scalar::one().neg().to_bytes(), hex32(ORDER_MINUS_ONE));
    assert_eq!(Scalar::zero().neg().to_bytes(), [0u8; 32]);
}

#[test]
fn scalar_from_bytes_rejects_out_of_range() {
    assert!(Scalar::from_bytes(hex32(ORDER)).is_none());
    assert!(Scalar::from_bytes([0xffu8; 32]).is_none());
    let below = Scalar::from_bytes(hex32(ORDER_MINUS_ONE)).unwrap();
    assert_eq!(below.to_bytes(), hex32(ORDER_MINUS_ONE));
}

#[test]
fn scalar_wipe_zeroes() {
    let mut s = Scalar::random();
    s.wipe();
    assert_eq!(s.to_bytes(), [0u8; 32]);
}

#[test]
fn generator_and_identity_encodings() {
    let g = Point::generator().to_bytes();
    assert_eq!(g[0], 0x02);
    assert_eq!(&g[1..5], &[0x79, 0xbe, 0x66, 0x7e]);
    assert_eq!(Point::identity().to_bytes(), [0u8; 33]);
    assert!(Point::base_mul(&Scalar::one()) == Point::generator());
    assert!(Point::base_mul(&Scalar::zero()) == Point::identity());
}

#[test]
fn point_operations_follow_the_group() {
    let two = Scalar::from_u32(2);
    let g = Point::generator();
    assert!(g.add(&g) == Point::base_mul(&two));
    assert!(g.add(&Point::identity()) == g);
    assert!(g.mul(&Scalar::from_u32(3)) == Point::base_mul(&two).add(&g));
    assert!(g.add(&g.mul(&Scalar::one().neg())) == Point::identity());
}

#[test]
fn point_from_bytes_checks_the_curve() {
    let g = Point::generator();
    assert!(Point::from_bytes(g.to_bytes()).unwrap() == g);
    assert!(Point::from_bytes([0u8; 33]).unwrap() == Point::identity());
    let mut compact = g.to_bytes();
    compact[0] = 0x05;
    assert!(Point::from_bytes(compact).is_none());
    let mut off_curve = [0xffu8; 33];
    off_curve[0] = 0x02;
    assert!(Point::from_bytes(off_curve).is_none());
}

#[test]
fn message_hash_is_keccak_of_concatenation() {
    assert_eq!(
        compute_message_hash(b"", b""),
        hex32("c5d2460186f7233c927e7db2dcc703c0e500b653ca82273b7bfad8045d85a470")
    );
    assert_eq!(
        compute_message_hash(b"a", b"bc"),
        hex32("4e03657aea45a94fc7d47ba826c8d667c0d1e6e33a64a036ec44f58fa12d6c45")
    );
    assert_eq!(compute_message_hash(b"ab", b"c"), compute_message_hash(b"", b"abc"));
}

#[test]
fn lagrange_coefficients_of_two_signers() {
    let l1 = calculate_lagrange_coefficients(1, &[1, 2]).unwrap();
    let l2 = calculate_lagrange_coefficients(2, &[1, 2]).unwrap();
    assert_eq!(l1.to_bytes(), Scalar::from_u32(2).to_bytes());
    assert_eq!(l2.to_bytes(), hex32(ORDER_MINUS_ONE));
    let alone = calculate_lagrange_coefficients(1, &[1]).unwrap();
    assert_eq!(alone.to_bytes(), Scalar::one().to_bytes());
}

#[test]
fn lagrange_coefficients_of_three_signers() {
    // 2/(2-1) * 3/(3-1) = 3
    let l1 = calculate_lagrange_coefficients(1, &[1, 2, 3]).unwrap();
    assert_eq!(l1.to_bytes(), Scalar::from_u32(3).to_bytes());
}

#[test]
fn lagrange_coefficients_reject_repeated_indices() {
    assert_eq!(
        calculate_lagrange_coefficients(1, &[1, 1, 2]).unwrap_err(),
        SignError::DuplicateOrInvalidLagrangeInput
    );
    assert_eq!(
        calculate_lagrange_coefficients(1, &[1, 2, 2]).unwrap_err(),
        SignError::DuplicateOrInvalidLagrangeInput
    );
}
