//! The permutation capability behind the duplex sponge: an interface offering
//! an initial state, a way to combine a rate block into the state, and the
//! permutation itself, together with two implementations — the Poseidon
//! permutation over the Pallas base field, and a simple rotating permutation
//! that exercises the sponge logic on its own.

use vstd::prelude::*;
use crate::field::{Fe, le_nat, le_bytes_of, p_nat};
use pasta_curves::group::ff::PrimeField;
use pasta_curves::Fp;
use halo2_poseidon::{P128Pow5T3, Spec, test_only_permute};

verus! {

/// The views of a sequence of field elements.
pub open spec fn fes_view(s: Seq<Fe>) -> Seq<Seq<u8>> {
    Seq::new(s.len(), |i: int| s[i]@)
}

/// Every element of the sequence is well formed.
pub open spec fn fes_wf(s: Seq<Fe>) -> bool {
    forall|i: int| 0 <= i < s.len() ==> (#[trigger] s[i]).wf()
}

/// The views of a sequence of rate-buffer slots.
pub open spec fn slots_view(s: Seq<Option<Fe>>) -> Seq<Option<Seq<u8>>> {
    Seq::new(
        s.len(),
        |i: int|
            match s[i] {
                Option::Some(f) => Option::Some(f@),
                Option::None => Option::None,
            },
    )
}

/// Every filled slot holds a well-formed element.
pub open spec fn slots_wf(s: Seq<Option<Fe>>) -> bool {
    forall|i: int| 0 <= i < s.len() && (#[trigger] s[i]) is Some ==> (s[i]->0).wf()
}

/// Adding a rate block into a state: each filled slot is added (in the field)
/// to the state element at its index; empty slots and the capacity portion of
/// the state are left as they are.
pub open spec fn add_block_model(state: Seq<Seq<u8>>, block: Seq<Option<Seq<u8>>>) -> Seq<
    Seq<u8>,
> {
    Seq::new(
        state.len(),
        |i: int|
            if 0 <= i < block.len() && block[i] is Some {
                le_bytes_of((le_nat(state[i]) + le_nat(block[i]->0)) % p_nat(), 32)
            } else {
                state[i]
            },
    )
}

/// The capability a duplex sponge is built over: a fixed-width permutation
/// with an initial state and a rule for absorbing a rate block into the
/// state. Implementations fix the width `T`, the rate, and the three
/// operations, and describe each operation exactly through its model.
pub trait PermutationInstructions: Sized {
    /// The state width `T`.
    spec fn width(&self) -> nat;

    /// The rate: how many state elements are exposed per block.
    spec fn rate(&self) -> nat;

    /// The initial state, including the capacity element encoding the domain.
    spec fn init_model(&self) -> Seq<Seq<u8>>;

    /// What absorbing a rate block does to the state.
    spec fn absorb_model(&self, state: Seq<Seq<u8>>, block: Seq<Option<Seq<u8>>>) -> Seq<Seq<u8>>;

    /// What one application of the permutation does to the state.
    spec fn permute_model(&self, state: Seq<Seq<u8>>) -> Seq<Seq<u8>>;

    /// The capacity portion is never empty: the rate is below the width.
    proof fn lemma_shape(&self)
        ensures
            1 <= self.rate() < self.width(),
    ;

    /// The initial state has the chip's width.
    proof fn lemma_init_model_len(&self)
        ensures
            self.init_model().len() == self.width(),
    ;

    /// Absorbing a block preserves the state's width.
    proof fn lemma_absorb_model_len(&self, state: Seq<Seq<u8>>, block: Seq<Option<Seq<u8>>>)
        requires
            state.len() == self.width(),
        ensures
            self.absorb_model(state, block).len() == self.width(),
    ;

    /// The permutation preserves the state's width.
    proof fn lemma_permute_model_len(&self, state: Seq<Seq<u8>>)
        requires
            state.len() == self.width(),
        ensures
            self.permute_model(state).len() == self.width(),
    ;

    fn width_value(&self) -> (r: usize)
        ensures
            r as nat == self.width(),
    ;

    fn rate_value(&self) -> (r: usize)
        ensures
            r as nat == self.rate(),
    ;

    fn initial_state(&self) -> (r: Vec<Fe>)
        ensures
            r@.len() == self.width(),
            fes_wf(r@),
            fes_view(r@) == self.init_model(),
    ;

    fn absorb_block(&self, state: &Vec<Fe>, block: &Vec<Option<Fe>>) -> (r: Vec<Fe>)
        requires
            state@.len() == self.width(),
            fes_wf(state@),
            block@.len() == self.rate(),
            slots_wf(block@),
        ensures
            r@.len() == self.width(),
            fes_wf(r@),
            fes_view(r@) == self.absorb_model(fes_view(state@), slots_view(block@)),
    ;

    fn permute(&self, state: &Vec<Fe>) -> (r: Vec<Fe>)
        requires
            state@.len() == self.width(),
            fes_wf(state@),
        ensures
            r@.len() == self.width(),
            fes_wf(r@),
            fes_view(r@) == self.permute_model(fes_view(state@)),
    ;
}

/// Shared implementation of `add_block_model`: add each filled slot into the
/// state element at its index.
fn add_block(state: &Vec<Fe>, block: &Vec<Option<Fe>>) -> (r: Vec<Fe>)
    requires
        fes_wf(state@),
        slots_wf(block@),
    ensures
        r@.len() == state@.len(),
        fes_wf(r@),
        fes_view(r@) == add_block_model(fes_view(state@), slots_view(block@)),
{
    let mut out: Vec<Fe> = Vec::new();
    let mut i: usize = 0;
    while i < state.len()
        invariant
            i <= state.len(),
            fes_wf(state@),
            slots_wf(block@),
            out@.len() == i,
            fes_wf(out@),
            forall|j: int|
                0 <= j < i ==> #[trigger] out@[j]@ == add_block_model(
                    fes_view(state@),
                    slots_view(block@),
                )[j],
        decreases state.len() - i,
    {
        if i < block.len() {
            match &block[i] {
                Option::Some(v) => {
                    out.push(state[i].add(v));
                },
                Option::None => {
                    out.push(state[i].duplicate());
                },
            }
        } else {
            out.push(state[i].duplicate());
        }
        i = i + 1;
    }
    proof {
        assert(fes_view(out@) =~~= add_block_model(fes_view(state@), slots_view(block@)));
    }
    out
}

/// The Poseidon permutation over the Pallas base field, with width 3 and
/// rate 2, under the fixed-length-1 hashing domain (capacity element
/// `1 << 64`).
pub struct PallasPoseidonChip {}

/// What the Poseidon permutation returns on a three-element Pallas state,
/// as canonical representations.
pub uninterp spec fn pallas_permute_of(state: Seq<Seq<u8>>) -> Seq<Seq<u8>>;

/// Relies on `halo2_poseidon::test_only_permute` with the `P128Pow5T3`
/// specification: the Poseidon permutation over the Pallas base field. Its
/// round constants and MDS matrix are fixed by `P128Pow5T3::constants`, so
/// the result is a function of the three state elements alone, and it is a
/// permutation of the field's states, so the three results are field elements
/// given back in canonical form.
#[verifier::external_body]
fn pallas_permute_raw(state: &Vec<Fe>) -> (r: Vec<Fe>)
    requires
        state@.len() == 3,
        fes_wf(state@),
    ensures
        r@.len() == 3,
        fes_wf(r@),
        fes_view(r@) == pallas_permute_of(fes_view(state@)),
{
    let a = Fp::from_repr(state[0].to_bytes().try_into().unwrap()).unwrap();
    let b = Fp::from_repr(state[1].to_bytes().try_into().unwrap()).unwrap();
    let c = Fp::from_repr(state[2].to_bytes().try_into().unwrap()).unwrap();
    let mut st = [a, b, c];
    let (rcs, mds, _) = P128Pow5T3::constants();
    test_only_permute::<Fp, P128Pow5T3, 3, 2>(&mut st, &mds, &rcs);
    vec![
        Fe::from_canonical_bytes(st[0].to_repr().to_vec()),
        Fe::from_canonical_bytes(st[1].to_repr().to_vec()),
        Fe::from_canonical_bytes(st[2].to_repr().to_vec()),
    ]
}

impl PermutationInstructions for PallasPoseidonChip {
    open spec fn width(&self) -> nat {
        3
    }

    open spec fn rate(&self) -> nat {
        2
    }

    open spec fn init_model(&self) -> Seq<Seq<u8>> {
        seq![
            le_bytes_of(0, 32),
            le_bytes_of(0, 32),
            le_bytes_of(0x10000000000000000nat, 32),
        ]
    }

    open spec fn absorb_model(&self, state: Seq<Seq<u8>>, block: Seq<Option<Seq<u8>>>) -> Seq<
        Seq<u8>,
    > {
        add_block_model(state, block)
    }

    open spec fn permute_model(&self, state: Seq<Seq<u8>>) -> Seq<Seq<u8>> {
        Seq::new(3, |i: int| pallas_permute_of(state)[i])
    }

    proof fn lemma_shape(&self) {
    }

    proof fn lemma_init_model_len(&self) {
    }

    proof fn lemma_absorb_model_len(&self, state: Seq<Seq<u8>>, block: Seq<Option<Seq<u8>>>) {
    }

    proof fn lemma_permute_model_len(&self, state: Seq<Seq<u8>>) {
    }

    fn width_value(&self) -> (r: usize) {
        3
    }

    fn rate_value(&self) -> (r: usize) {
        2
    }

    fn initial_state(&self) -> (r: Vec<Fe>) {
        let two_32 = Fe::from_u64(0x100000000);
        let cap = two_32.mul(&two_32);
        proof {
            vstd::arithmetic::div_mod::lemma_small_mod(
                0x10000000000000000nat,
                p_nat(),
            );
        }
        let r = vec![Fe::from_u64(0), Fe::from_u64(0), cap];
        proof {
            assert(fes_view(r@) =~~= self.init_model());
        }
        r
    }

    fn absorb_block(&self, state: &Vec<Fe>, block: &Vec<Option<Fe>>) -> (r: Vec<Fe>) {
        add_block(state, block)
    }

    fn permute(&self, state: &Vec<Fe>) -> (r: Vec<Fe>) {
        let r = pallas_permute_raw(state);
        proof {
            assert(fes_view(r@) =~= Seq::new(3, |i: int| pallas_permute_of(fes_view(state@))[i]));
        }
        r
    }
}

/// A deliberately simple permutation for exercising the sponge logic without
/// the Poseidon machinery: the all-zero initial state, block absorption by
/// field addition, and a left rotation of the state as the "permutation".
/// Every step is verified; nothing about it is trusted.
pub struct RotatingPermutation {}

impl PermutationInstructions for RotatingPermutation {
    open spec fn width(&self) -> nat {
        3
    }

    open spec fn rate(&self) -> nat {
        2
    }

    open spec fn init_model(&self) -> Seq<Seq<u8>> {
        seq![le_bytes_of(0, 32), le_bytes_of(0, 32), le_bytes_of(0, 32)]
    }

    open spec fn absorb_model(&self, state: Seq<Seq<u8>>, block: Seq<Option<Seq<u8>>>) -> Seq<
        Seq<u8>,
    > {
        add_block_model(state, block)
    }

    open spec fn permute_model(&self, state: Seq<Seq<u8>>) -> Seq<Seq<u8>> {
        if state.len() == 3 {
            seq![state[1], state[2], state[0]]
        } else {
            state
        }
    }

    proof fn lemma_shape(&self) {
    }

    proof fn lemma_init_model_len(&self) {
    }

    proof fn lemma_absorb_model_len(&self, state: Seq<Seq<u8>>, block: Seq<Option<Seq<u8>>>) {
    }

    proof fn lemma_permute_model_len(&self, state: Seq<Seq<u8>>) {
    }

    fn width_value(&self) -> (r: usize) {
        3
    }

    fn rate_value(&self) -> (r: usize) {
        2
    }

    fn initial_state(&self) -> (r: Vec<Fe>) {
        let r = vec![Fe::from_u64(0), Fe::from_u64(0), Fe::from_u64(0)];
        proof {
            assert(fes_view(r@) =~~= self.init_model());
        }
        r
    }

    fn absorb_block(&self, state: &Vec<Fe>, block: &Vec<Option<Fe>>) -> (r: Vec<Fe>) {
        add_block(state, block)
    }

    fn permute(&self, state: &Vec<Fe>) -> (r: Vec<Fe>) {
        let mut out: Vec<Fe> = Vec::new();
        out.push(state[1].duplicate());
        out.push(state[2].duplicate());
        out.push(state[0].duplicate());
        proof {
            assert(fes_view(out@) =~~= self.permute_model(fes_view(state@)));
        }
        out
    }
}

} // verus!
