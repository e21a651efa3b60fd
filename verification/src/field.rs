//! Field elements of the Pallas base field, carried as canonical 32-byte
//! little-endian representations so that every contract can speak of the
//! represented integer directly.

use vstd::prelude::*;
use pasta_curves::group::ff::PrimeField;
use pasta_curves::Fp;

verus! {

/// The Pallas base field modulus.
pub open spec fn p_nat() -> nat {
    0x40000000000000000000000000000000224698fc094cf91b992d30ed00000001nat
}

/// The integer that a little-endian byte string stands for.
pub open spec fn le_nat(s: Seq<u8>) -> nat
    decreases s.len(),
{
    if s.len() == 0 {
        0
    } else {
        s[0] as nat + 256 * le_nat(s.drop_first())
    }
}

/// The little-endian byte string of length `len` standing for `n`, reduced
/// to the range the length can hold.
pub open spec fn le_bytes_of(n: nat, len: nat) -> Seq<u8>
    decreases len,
{
    if len == 0 {
        Seq::empty()
    } else {
        seq![(n % 256) as u8] + le_bytes_of(n / 256, (len - 1) as nat)
    }
}

/// Writing out the integer a byte string stands for yields the string itself:
/// on a fixed length, the representation is one-to-one.
pub proof fn lemma_le_bytes_of_le_nat(s: Seq<u8>)
    ensures
        le_bytes_of(le_nat(s), s.len()) == s,
    decreases s.len(),
{
    if s.len() == 0 {
        assert(le_bytes_of(le_nat(s), s.len()) =~= s);
    } else {
        let x = s[0] as nat;
        let r = le_nat(s.drop_first());
        let n = le_nat(s);
        assert((x + 256 * r) % 256 == x) by (nonlinear_arith)
            requires
                0 <= x < 256,
                r >= 0,
        ;
        assert((x + 256 * r) / 256 == r) by (nonlinear_arith)
            requires
                0 <= x < 256,
                r >= 0,
        ;
        lemma_le_bytes_of_le_nat(s.drop_first());
        assert(le_bytes_of(n, s.len()) =~= s);
    }
}

/// An element of the Pallas base field, held as its canonical little-endian
/// 32-byte representation.
#[derive(Debug, PartialEq, Eq)]
pub struct Fe {
    bytes: Vec<u8>,
}

impl View for Fe {
    type V = Seq<u8>;

    closed spec fn view(&self) -> Seq<u8> {
        self.bytes@
    }
}

impl Fe {
    /// A well-formed element: exactly 32 bytes, standing for an integer
    /// below the field modulus.
    pub open spec fn wf(&self) -> bool {
        self@.len() == 32 && le_nat(self@) < p_nat()
    }

    /// The integer this element stands for.
    pub open spec fn nat_value(&self) -> nat {
        le_nat(self@)
    }

    /// The element standing for `x` (every `u64` is below the modulus).
    pub fn from_u64(x: u64) -> (r: Fe)
        ensures
            r.wf(),
            r.nat_value() == x as nat,
            r@ == le_bytes_of(x as nat, 32),
    {
        let r = from_u64_raw(x);
        proof {
            lemma_bytes_determined(r@, x as nat);
        }
        r
    }

    /// Field addition: the sum of the two represented integers, modulo `p`.
    pub fn add(&self, other: &Fe) -> (r: Fe)
        requires
            self.wf(),
            other.wf(),
        ensures
            r.wf(),
            r.nat_value() == (self.nat_value() + other.nat_value()) % p_nat(),
            r@ == le_bytes_of((self.nat_value() + other.nat_value()) % p_nat(), 32),
    {
        let r = add_raw(self, other);
        proof {
            lemma_bytes_determined(r@, (self.nat_value() + other.nat_value()) % p_nat());
        }
        r
    }

    /// Field multiplication: the product of the two represented integers,
    /// modulo `p`.
    pub fn mul(&self, other: &Fe) -> (r: Fe)
        requires
            self.wf(),
            other.wf(),
        ensures
            r.wf(),
            r.nat_value() == (self.nat_value() * other.nat_value()) % p_nat(),
            r@ == le_bytes_of((self.nat_value() * other.nat_value()) % p_nat(), 32),
    {
        let r = mul_raw(self, other);
        proof {
            lemma_bytes_determined(r@, (self.nat_value() * other.nat_value()) % p_nat());
        }
        r
    }

    /// Wraps bytes already known to be a canonical representation.
    pub(crate) fn from_canonical_bytes(bytes: Vec<u8>) -> (r: Fe)
        ensures
            r@ == bytes@,
    {
        Fe { bytes }
    }

    /// A copy of this element.
    pub fn duplicate(&self) -> (r: Fe)
        ensures
            r@ == self@,
    {
        Fe { bytes: copy_bytes(&self.bytes) }
    }

    /// The canonical representation, as plain bytes.
    pub fn to_bytes(&self) -> (r: Vec<u8>)
        ensures
            r@ == self@,
    {
        copy_bytes(&self.bytes)
    }

    /// Whether two elements stand for the same value; representations are
    /// canonical, so this is representation equality.
    pub fn equals(&self, other: &Fe) -> (r: bool)
        ensures
            r <==> self@ == other@,
    {
        if self.bytes.len() != other.bytes.len() {
            return false;
        }
        let mut i: usize = 0;
        while i < self.bytes.len()
            invariant
                i <= self.bytes.len(),
                self.bytes.len() == other.bytes.len(),
                forall|j: int| 0 <= j < i ==> self.bytes@[j] == other.bytes@[j],
            decreases self.bytes.len() - i,
        {
            if self.bytes[i] != other.bytes[i] {
                return false;
            }
            i = i + 1;
        }
        proof {
            assert(self@ =~= other@);
        }
        true
    }
}

/// A well-formed view whose value is `n` is exactly the canonical byte string
/// of `n`.
proof fn lemma_bytes_determined(s: Seq<u8>, n: nat)
    requires
        s.len() == 32,
        le_nat(s) == n,
    ensures
        s == le_bytes_of(n, 32),
{
    lemma_le_bytes_of_le_nat(s);
}

fn copy_bytes(src: &Vec<u8>) -> (r: Vec<u8>)
    ensures
        r@ == src@,
{
    let mut out: Vec<u8> = Vec::new();
    let mut i: usize = 0;
    while i < src.len()
        invariant
            i <= src.len(),
            out@ == src@.take(i as int),
        decreases src.len() - i,
    {
        out.push(src[i]);
        i = i + 1;
    }
    proof {
        assert(out@ =~= src@);
    }
    out
}

/// Relies on `pasta_curves::Fp`: `From<u64>` embeds the integer into the field,
/// and `PrimeField::to_repr` returns its canonical little-endian byte string.
#[verifier::external_body]
fn from_u64_raw(x: u64) -> (r: Fe)
    ensures
        r.wf(),
        r.nat_value() == x as nat,
{
    Fe { bytes: Fp::from(x).to_repr().to_vec() }
}

/// Relies on `pasta_curves::Fp`: `from_repr` reads a canonical little-endian
/// representation, `+` is addition in the field of order `p`, and `to_repr`
/// writes the canonical representation back.
#[verifier::external_body]
fn add_raw(x: &Fe, y: &Fe) -> (r: Fe)
    requires
        x.wf(),
        y.wf(),
    ensures
        r.wf(),
        r.nat_value() == (x.nat_value() + y.nat_value()) % p_nat(),
{
    let a = Fp::from_repr(x.bytes.clone().try_into().unwrap()).unwrap();
    let b = Fp::from_repr(y.bytes.clone().try_into().unwrap()).unwrap();
    Fe { bytes: (a + b).to_repr().to_vec() }
}

/// Relies on `pasta_curves::Fp`: `from_repr` reads a canonical little-endian
/// representation, `*` is multiplication in the field of order `p`, and
/// `to_repr` writes the canonical representation back.
#[verifier::external_body]
fn mul_raw(x: &Fe, y: &Fe) -> (r: Fe)
    requires
        x.wf(),
        y.wf(),
    ensures
        r.wf(),
        r.nat_value() == (x.nat_value() * y.nat_value()) % p_nat(),
{
    let a = Fp::from_repr(x.bytes.clone().try_into().unwrap()).unwrap();
    let b = Fp::from_repr(y.bytes.clone().try_into().unwrap()).unwrap();
    Fe { bytes: (a * b).to_repr().to_vec() }
}

} // verus!
