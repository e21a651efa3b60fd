//! The orchestrator ties the pieces together: it loads the three private
//! witnesses, computes the value the gates owe, hashes that value through the
//! duplex sponge under the fixed-length-1 domain (one message word, one zero
//! padding word), and binds the single squeezed output to the circuit's
//! public input. The constraint system is satisfiable exactly when the
//! claimed public value equals that hash.

use vstd::prelude::*;
use crate::field::{le_bytes_of, le_nat, p_nat, Fe};
use crate::permutation::PallasPoseidonChip;
use crate::transcript_sponge::{model_absorb, model_finish, model_new, model_squeeze, Sponge};

verus! {

/// A word fed to the sponge: message content, or the domain's fixed padding
/// constant appended by the caller to round the message up to a full rate
/// block.
pub enum PaddedWord {
    Message(Fe),
    Padding(Fe),
}

impl PaddedWord {
    /// The field element the word carries.
    pub open spec fn spec_value(self) -> Fe {
        match self {
            PaddedWord::Message(f) => f,
            PaddedWord::Padding(f) => f,
        }
    }

    /// The field element the word carries.
    pub fn value(self) -> (r: Fe)
        ensures
            r == self.spec_value(),
    {
        match self {
            PaddedWord::Message(f) => f,
            PaddedWord::Padding(f) => f,
        }
    }
}

/// The derived witness value `(a + b) * c`, as its canonical bytes.
pub open spec fn spec_d(a: Seq<u8>, b: Seq<u8>, c: Seq<u8>) -> Seq<u8> {
    le_bytes_of((((le_nat(a) + le_nat(b)) % p_nat()) * le_nat(c)) % p_nat(), 32)
}

/// The hash the circuit binds to its public input: a fresh sponge under the
/// fixed-length-1 domain absorbs the message word and one zero padding word,
/// permutes once on finishing, and yields the first exposed state element.
pub open spec fn spec_hash_one(d: Seq<u8>) -> Seq<u8> {
    let chip = (PallasPoseidonChip {  });
    let m1 = model_absorb(chip, model_new(chip), d);
    let m2 = model_absorb(chip, m1, le_bytes_of(0, 32));
    model_squeeze(chip, model_finish(chip, m2)).0
}

/// The public output owed for witnesses `a, b, c`.
pub open spec fn spec_public_output(a: Seq<u8>, b: Seq<u8>, c: Seq<u8>) -> Seq<u8> {
    spec_hash_one(spec_d(a, b, c))
}

/// `(a + b) * c`: the addition gate feeding the multiplication gate. The two
/// gates use separate regions; nothing is shared between them but the carried
/// value.
pub fn add_and_mul(a: &Fe, b: &Fe, c: &Fe) -> (d: Fe)
    requires
        a.wf(),
        b.wf(),
        c.wf(),
    ensures
        d.wf(),
        d@ == spec_d(a@, b@, c@),
{
    a.add(b).mul(c)
}

/// Derive `d = (a + b) * c` and hash it: absorb the message word and the
/// domain's one zero padding word, finish absorbing, and squeeze the single
/// output that the circuit exposes publicly.
pub fn compute_public_output(a: &Fe, b: &Fe, c: &Fe) -> (y: Fe)
    requires
        a.wf(),
        b.wf(),
        c.wf(),
    ensures
        y.wf(),
        y@ == spec_public_output(a@, b@, c@),
{
    let d = add_and_mul(a, b, c);
    let pad = Fe::from_u64(0);
    let mut sponge = Sponge::new(PallasPoseidonChip {  });
    sponge.absorb(PaddedWord::Message(d).value());
    sponge.absorb(PaddedWord::Padding(pad).value());
    let mut squeezer = sponge.finish_absorbing();
    let y = squeezer.squeeze();
    y
}

/// The reference decision the external proving system is held to: the
/// constraint system for witnesses `a, b, c` and claimed public input `y` is
/// satisfiable exactly when `y` equals the owed public output.
pub fn circuit_is_satisfiable(a: &Fe, b: &Fe, c: &Fe, y: &Fe) -> (r: bool)
    requires
        a.wf(),
        b.wf(),
        c.wf(),
        y.wf(),
    ensures
        r <==> y@ == spec_public_output(a@, b@, c@),
{
    let expected = compute_public_output(a, b, c);
    y.equals(&expected)
}

/// A wrong public input is rejected: if `y` is the owed public output, its
/// field successor `y + 1` is a different value, so the system is
/// unsatisfiable for it.
pub proof fn lemma_wrong_public_input(
    a: Seq<u8>,
    b: Seq<u8>,
    c: Seq<u8>,
    y: Seq<u8>,
    y2: Seq<u8>,
)
    requires
        y == spec_public_output(a, b, c),
        le_nat(y) < p_nat(),
        le_nat(y2) == (le_nat(y) + 1) % p_nat(),
    ensures
        y2 != spec_public_output(a, b, c),
{
    let n = le_nat(y);
    let n2 = (n + 1) % p_nat();
    if n + 1 < p_nat() {
        vstd::arithmetic::div_mod::lemma_small_mod((n + 1) as nat, p_nat());
        assert(n2 == n + 1);
    } else {
        assert(n + 1 == p_nat());
        vstd::arithmetic::div_mod::lemma_mod_self_0(p_nat() as int);
        assert(n2 == 0);
        assert(n != 0);
    }
    assert(n2 != n);
}

} // verus!
