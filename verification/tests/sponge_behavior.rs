use halo2_playground::field::Fe;
use halo2_playground::permutation::RotatingPermutation;
use halo2_playground::transcript_sponge::Sponge;

fn le32(n: u64) -> Vec<u8> {
    let mut v = vec![0u8; 32];
    v[..8].copy_from_slice(&n.to_le_bytes());
    v
}

// The rotating chip has width 3, rate 2, an all-zero initial state, absorbs a
// block by field addition, and "permutes" by rotating the state left by one.

#[test]
fn test_absorb_within_rate_no_permute() {
    let mut sponge = Sponge::new(RotatingPermutation {});
    assert_eq!(sponge.permutation_count(), 0);
    sponge.absorb(Fe::from_u64(10));
    assert_eq!(sponge.permutation_count(), 0);
    sponge.absorb(Fe::from_u64(20));
    assert_eq!(sponge.permutation_count(), 0);
}

#[test]
fn test_absorb_rate_plus_one_permutes_once() {
    let mut sponge = Sponge::new(RotatingPermutation {});
    sponge.absorb(Fe::from_u64(10));
    sponge.absorb(Fe::from_u64(20));
    sponge.absorb(Fe::from_u64(30));
    assert_eq!(sponge.permutation_count(), 1);
}

#[test]
fn test_squeeze_order_and_refill() {
    let mut sponge = Sponge::new(RotatingPermutation {});
    sponge.absorb(Fe::from_u64(10));
    sponge.absorb(Fe::from_u64(20));
    sponge.absorb(Fe::from_u64(30));
    // state [10, 20, 0] rotated to [20, 0, 10]; buffer holds [30].
    let mut squeezer = sponge.finish_absorbing();
    // absorb [30, _]: [50, 0, 10]; rotate: [0, 10, 50]; block [0, 10].
    assert_eq!(squeezer.permutation_count(), 2);
    let s1 = squeezer.squeeze();
    assert_eq!(s1.to_bytes(), le32(0));
    assert_eq!(squeezer.permutation_count(), 2);
    let s2 = squeezer.squeeze();
    assert_eq!(s2.to_bytes(), le32(10));
    assert_eq!(squeezer.permutation_count(), 2);
    // block exhausted: rotate [0, 10, 50] to [10, 50, 0], expose [10, 50].
    let s3 = squeezer.squeeze();
    assert_eq!(s3.to_bytes(), le32(10));
    assert_eq!(squeezer.permutation_count(), 3);
    let s4 = squeezer.squeeze();
    assert_eq!(s4.to_bytes(), le32(50));
    assert_eq!(squeezer.permutation_count(), 3);
}

#[test]
fn test_finish_on_empty_buffer() {
    // The transition permutes even when nothing was absorbed.
    let sponge = Sponge::new(RotatingPermutation {});
    let mut squeezer = sponge.finish_absorbing();
    assert_eq!(squeezer.permutation_count(), 1);
    let s1 = squeezer.squeeze();
    assert_eq!(s1.to_bytes(), le32(0));
}

#[test]
fn test_determinism_two_runs() {
    let mut outputs: Vec<Vec<u8>> = Vec::new();
    for _ in 0..2 {
        let mut sponge = Sponge::new(RotatingPermutation {});
        for v in [3u64, 4, 5, 6, 7] {
            sponge.absorb(Fe::from_u64(v));
        }
        let mut squeezer = sponge.finish_absorbing();
        for _ in 0..4 {
            outputs.push(squeezer.squeeze().to_bytes());
        }
    }
    assert_eq!(outputs[0..4], outputs[4..8]);
}
