use halo2_playground::circuit::add_and_mul;
use halo2_playground::field::Fe;

fn le32(n: u64) -> Vec<u8> {
    let mut v = vec![0u8; 32];
    v[..8].copy_from_slice(&n.to_le_bytes());
    v
}

#[test]
fn test_from_u64_canonical_bytes() {
    assert_eq!(Fe::from_u64(0).to_bytes(), le32(0));
    assert_eq!(Fe::from_u64(7).to_bytes(), le32(7));
    assert_eq!(Fe::from_u64(u64::MAX).to_bytes(), le32(u64::MAX));
}

#[test]
fn test_add_small_values() {
    let r = Fe::from_u64(3).add(&Fe::from_u64(4));
    assert_eq!(r.to_bytes(), le32(7));
}

#[test]
fn test_mul_small_values() {
    let r = Fe::from_u64(6).mul(&Fe::from_u64(7));
    assert_eq!(r.to_bytes(), le32(42));
}

#[test]
fn test_add_carries_across_limbs() {
    let r = Fe::from_u64(u64::MAX).add(&Fe::from_u64(1));
    let mut expected = vec![0u8; 32];
    expected[8] = 1;
    assert_eq!(r.to_bytes(), expected);
}

#[test]
fn test_add_and_mul_formula() {
    let d = add_and_mul(&Fe::from_u64(3), &Fe::from_u64(4), &Fe::from_u64(5));
    assert_eq!(d.to_bytes(), le32(35));
}

#[test]
fn test_equals_and_duplicate() {
    let a = Fe::from_u64(11);
    let b = a.duplicate();
    assert!(a.equals(&b));
    assert!(!a.equals(&Fe::from_u64(12)));
    assert_eq!(a, b);
}
