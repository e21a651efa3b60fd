use halo2_playground::circuit::{circuit_is_satisfiable, compute_public_output};
use halo2_playground::field::Fe;
use halo2_poseidon::{ConstantLength, P128Pow5T3};
use pasta_curves::group::ff::PrimeField;
use pasta_curves::Fp;

#[test]
fn test_hash_matches_native_poseidon() {
    // d = (3 + 4) * 5 = 35 under the fixed-length-1 domain; the library's
    // sponge over its trusted permutation must agree with the crate's own
    // native hash.
    let y = compute_public_output(&Fe::from_u64(3), &Fe::from_u64(4), &Fe::from_u64(5));
    let expected =
        halo2_poseidon::Hash::<Fp, P128Pow5T3, ConstantLength<1>, 3, 2>::init()
            .hash([Fp::from(35u64)]);
    assert_eq!(y.to_bytes(), expected.to_repr().to_vec());
}

#[test]
fn test_hash_deterministic() {
    let y1 = compute_public_output(&Fe::from_u64(8), &Fe::from_u64(9), &Fe::from_u64(10));
    let y2 = compute_public_output(&Fe::from_u64(8), &Fe::from_u64(9), &Fe::from_u64(10));
    assert_eq!(y1.to_bytes(), y2.to_bytes());
}

#[test]
fn test_satisfiability_decision() {
    let a = Fe::from_u64(3);
    let b = Fe::from_u64(4);
    let c = Fe::from_u64(5);
    let y = compute_public_output(&a, &b, &c);
    assert!(circuit_is_satisfiable(&a, &b, &c, &y));
    let y_plus_one = y.add(&Fe::from_u64(1));
    assert!(!circuit_is_satisfiable(&a, &b, &c, &y_plus_one));
}
