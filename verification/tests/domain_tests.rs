use sha2::Digest;

use commp::domain::{fr_modulus, lt_le_bytes, DomainElement};
use commp::merkle::combine;
use commp::CommPError;

#[test]
fn decode_rejects_modulus_and_above() {
    let m = fr_modulus();
    assert_eq!(m.len(), 32);
    assert_eq!(
        DomainElement::decode(m.clone()).unwrap_err(),
        CommPError::Decode
    );
    assert_eq!(
        DomainElement::decode(vec![0xffu8; 32]).unwrap_err(),
        CommPError::Decode
    );
}

#[test]
fn decode_accepts_values_below_modulus() {
    let mut below = fr_modulus();
    below[0] = 0x00; // exactly modulus - 1
    let e = DomainElement::decode(below.clone()).unwrap();
    assert_eq!(e.bytes, below);
    let zero = DomainElement::decode(vec![0u8; 32]).unwrap();
    assert_eq!(zero.bytes, vec![0u8; 32]);
}

#[test]
fn little_endian_compare() {
    let a = vec![2u8, 0, 0];
    let b = vec![1u8, 0, 1];
    assert!(lt_le_bytes(&a, &b));
    assert!(!lt_le_bytes(&b, &a));
    assert!(!lt_le_bytes(&a, &a));
}

#[test]
fn combine_matches_independent_sha256() {
    let l = vec![1u8; 32];
    let r = vec![2u8; 32];
    let c = combine(&l, &r);
    let mut cat: Vec<u8> = Vec::new();
    cat.extend_from_slice(&l);
    cat.extend_from_slice(&r);
    let out = sha2::Sha256::digest(&cat);
    let mut expected = [0u8; 32];
    expected.copy_from_slice(out.as_slice());
    expected[31] &= 0x3f;
    assert_eq!(c.as_slice(), &expected);
    assert!(c[31] <= 0x3f);
}
