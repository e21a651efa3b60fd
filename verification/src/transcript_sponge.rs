//! The duplex sponge state machine: values are absorbed into a rate buffer,
//! the permutation fires once per filled block, a one-way transition moves the
//! sponge from absorbing to squeezing, and outputs are drawn from the exposed
//! rate portion of the state.
//!
//! Every operation is specified against `DuplexState`, a mathematical model of
//! the sponge (state views, buffered values, number of permutation calls), and
//! the general laws about permutation counts and determinism are proved over
//! that model.

use vstd::prelude::*;
use vstd::pervasive::VecAdditionalExecFns;
use crate::field::Fe;
use crate::permutation::{fes_view, fes_wf, slots_view, slots_wf, PermutationInstructions};

verus! {

/// Marker for the two phases a sponge can be in.
pub trait TranscriptSpongeMode {

}

/// The absorbing phase: a rate buffer filled strictly left to right.
pub struct TranscriptAbsorbing {
    slots: Vec<Option<Fe>>,
}

impl TranscriptSpongeMode for TranscriptAbsorbing {

}

/// The squeezing phase: a rate buffer consumed strictly left to right.
pub struct TranscriptSqueezing {
    slots: Vec<Option<Fe>>,
}

impl TranscriptSpongeMode for TranscriptSqueezing {

}

impl View for TranscriptAbsorbing {
    type V = Seq<Option<Fe>>;

    closed spec fn view(&self) -> Seq<Option<Fe>> {
        self.slots@
    }
}

impl View for TranscriptSqueezing {
    type V = Seq<Option<Fe>>;

    closed spec fn view(&self) -> Seq<Option<Fe>> {
        self.slots@
    }
}

/// No hole stands before a filled slot.
pub open spec fn front_filled(s: Seq<Option<Fe>>) -> bool {
    forall|i: int, j: int| #![trigger s[i], s[j]]
        0 <= i < j < s.len() && s[j] is Some ==> s[i] is Some
}

/// No filled slot stands before a hole.
pub open spec fn back_filled(s: Seq<Option<Fe>>) -> bool {
    forall|i: int, j: int| #![trigger s[i], s[j]]
        0 <= i < j < s.len() && s[i] is Some ==> s[j] is Some
}

/// The views of the values held by the filled slots, in slot order.
pub open spec fn filled_views(s: Seq<Option<Seq<u8>>>) -> Seq<Seq<u8>>
    decreases s.len(),
{
    if s.len() == 0 {
        Seq::empty()
    } else {
        match s[0] {
            Option::Some(v) => seq![v] + filled_views(s.drop_first()),
            Option::None => filled_views(s.drop_first()),
        }
    }
}

/// The slot sequence that holds the given values left to right and nothing
/// after them.
pub open spec fn slots_of(vals: Seq<Seq<u8>>, rate: nat) -> Seq<Option<Seq<u8>>> {
    Seq::new(
        rate,
        |i: int|
            if 0 <= i < vals.len() {
                Option::Some(vals[i])
            } else {
                Option::None
            },
    )
}

proof fn lemma_filled_front(s: Seq<Option<Fe>>, k: int)
    requires
        0 <= k <= s.len(),
        forall|j: int| 0 <= j < k ==> (#[trigger] s[j]) is Some,
        forall|j: int| k <= j < s.len() ==> !((#[trigger] s[j]) is Some),
    ensures
        filled_views(slots_view(s)) == Seq::new(k as nat, |j: int| (s[j]->0)@),
    decreases s.len(),
{
    if s.len() == 0 {
        assert(filled_views(slots_view(s)) =~= Seq::new(k as nat, |j: int| (s[j]->0)@));
    } else {
        let t = s.drop_first();
        assert(slots_view(s).drop_first() =~= slots_view(t));
        if k > 0 {
            assert(s[0] is Some);
            lemma_filled_front(t, k - 1);
            assert(filled_views(slots_view(s)) =~= Seq::new(k as nat, |j: int| (s[j]->0)@));
        } else {
            assert(!(s[0] is Some));
            lemma_filled_front(t, 0);
            assert(filled_views(slots_view(s)) =~= Seq::new(k as nat, |j: int| (s[j]->0)@));
        }
    }
}

proof fn lemma_filled_back(s: Seq<Option<Fe>>, k: int)
    requires
        0 <= k <= s.len(),
        forall|j: int| 0 <= j < k ==> !((#[trigger] s[j]) is Some),
        forall|j: int| k <= j < s.len() ==> (#[trigger] s[j]) is Some,
    ensures
        filled_views(slots_view(s)) == Seq::new((s.len() - k) as nat, |j: int| (s[k + j]->0)@),
    decreases s.len(),
{
    if s.len() == 0 {
        assert(filled_views(slots_view(s)) =~= Seq::new(
            (s.len() - k) as nat,
            |j: int| (s[k + j]->0)@,
        ));
    } else {
        let t = s.drop_first();
        assert(slots_view(s).drop_first() =~= slots_view(t));
        if k > 0 {
            assert(!(s[0] is Some));
            lemma_filled_back(t, k - 1);
            assert(filled_views(slots_view(s)) =~= Seq::new(
                (s.len() - k) as nat,
                |j: int| (s[k + j]->0)@,
            ));
        } else {
            assert(s[0] is Some);
            lemma_filled_back(t, 0);
            assert(filled_views(slots_view(s)) =~= Seq::new(
                (s.len() - k) as nat,
                |j: int| (s[k + j]->0)@,
            ));
        }
    }
}

/// The mathematical state of a duplex sponge: the state element views, the
/// values currently buffered (pending messages while absorbing, unconsumed
/// outputs while squeezing), and how many times the permutation has run.
#[verifier::ext_equal]
pub struct DuplexState {
    pub state: Seq<Seq<u8>>,
    pub block: Seq<Seq<u8>>,
    pub permutes: nat,
}

/// A fresh sponge: the chip's initial state, nothing buffered, no
/// permutation calls yet.
pub open spec fn model_new<P: PermutationInstructions>(chip: P) -> DuplexState {
    DuplexState { state: chip.init_model(), block: Seq::empty(), permutes: 0 }
}

/// Absorbing one value: append it to the buffer if a slot is free; otherwise
/// absorb the full buffer into the state, permute once, and start a fresh
/// buffer holding the value alone.
pub open spec fn model_absorb<P: PermutationInstructions>(
    chip: P,
    m: DuplexState,
    v: Seq<u8>,
) -> DuplexState {
    if m.block.len() < chip.rate() {
        DuplexState { state: m.state, block: m.block.push(v), permutes: m.permutes }
    } else {
        DuplexState {
            state: chip.permute_model(chip.absorb_model(m.state, slots_of(m.block, chip.rate()))),
            block: seq![v],
            permutes: m.permutes + 1,
        }
    }
}

/// The one-way transition to squeezing: absorb whatever the buffer holds
/// (even nothing), permute once, and expose the first `rate` elements of the
/// new state as the output block.
pub open spec fn model_finish<P: PermutationInstructions>(chip: P, m: DuplexState) -> DuplexState {
    let st = chip.permute_model(chip.absorb_model(m.state, slots_of(m.block, chip.rate())));
    DuplexState { state: st, block: st.take(chip.rate() as int), permutes: m.permutes + 1 }
}

/// Squeezing one value: take the leftmost unconsumed output, refilling the
/// block with one permutation call (on the state alone) when it is exhausted.
pub open spec fn model_squeeze<P: PermutationInstructions>(chip: P, m: DuplexState) -> (
    Seq<u8>,
    DuplexState,
) {
    if m.block.len() > 0 {
        (
            m.block[0],
            DuplexState { state: m.state, block: m.block.drop_first(), permutes: m.permutes },
        )
    } else {
        let st = chip.permute_model(m.state);
        (
            st[0],
            DuplexState {
                state: st,
                block: st.take(chip.rate() as int).drop_first(),
                permutes: m.permutes + 1,
            },
        )
    }
}

/// Absorbing a sequence of values, first to last.
pub open spec fn model_absorb_all<P: PermutationInstructions>(
    chip: P,
    m: DuplexState,
    vs: Seq<Seq<u8>>,
) -> DuplexState
    decreases vs.len(),
{
    if vs.len() == 0 {
        m
    } else {
        model_absorb_all(chip, model_absorb(chip, m, vs[0]), vs.drop_first())
    }
}

/// Squeezing `k` values in a row: the outputs drawn, and the state left
/// behind.
pub open spec fn model_squeeze_all<P: PermutationInstructions>(chip: P, m: DuplexState, k: nat) -> (
    Seq<Seq<u8>>,
    DuplexState,
)
    decreases k,
{
    if k == 0 {
        (Seq::empty(), m)
    } else {
        let first = model_squeeze(chip, m);
        let rest = model_squeeze_all(chip, first.1, (k - 1) as nat);
        (seq![first.0] + rest.0, rest.1)
    }
}

/// A duplex sponge over the permutation capability `P`, in phase `M`. The
/// phase types share no transition back: once squeezing, always squeezing.
pub struct Sponge<P: PermutationInstructions, M: TranscriptSpongeMode> {
    chip: P,
    mode: M,
    state: Vec<Fe>,
    perm_count: u64,
}

impl TranscriptAbsorbing {
    /// An all-empty rate buffer of the given capacity.
    pub fn init_empty(rate: usize) -> (r: TranscriptAbsorbing)
        ensures
            r@.len() == rate,
            forall|j: int| 0 <= j < rate ==> !((#[trigger] r@[j]) is Some),
    {
        let mut slots: Vec<Option<Fe>> = Vec::new();
        let mut i: usize = 0;
        while i < rate
            invariant
                i <= rate,
                slots@.len() == i,
                forall|j: int| 0 <= j < i ==> !((#[trigger] slots@[j]) is Some),
            decreases rate - i,
        {
            slots.push(Option::None);
            i = i + 1;
        }
        TranscriptAbsorbing { slots }
    }

    /// A rate buffer of the given capacity holding `val` in its first slot
    /// and nothing else.
    pub fn init_with(val: Fe, rate: usize) -> (r: TranscriptAbsorbing)
        requires
            rate >= 1,
        ensures
            r@.len() == rate,
            r@[0] == Option::Some(val),
            forall|j: int| 1 <= j < rate ==> !((#[trigger] r@[j]) is Some),
    {
        let mut slots: Vec<Option<Fe>> = Vec::new();
        slots.push(Option::Some(val));
        let mut i: usize = 1;
        while i < rate
            invariant
                1 <= i <= rate,
                slots@.len() == i,
                slots@[0] == Option::Some(val),
                forall|j: int| 1 <= j < i ==> !((#[trigger] slots@[j]) is Some),
            decreases rate - i,
        {
            slots.push(Option::None);
            i = i + 1;
        }
        TranscriptAbsorbing { slots }
    }
}

/// The index of the leftmost empty slot, or the length if every slot is
/// filled.
fn first_none_index(slots: &Vec<Option<Fe>>) -> (r: usize)
    ensures
        r <= slots@.len(),
        forall|j: int| 0 <= j < r ==> (#[trigger] slots@[j]) is Some,
        r < slots@.len() ==> !(slots@[r as int] is Some),
{
    let mut i: usize = 0;
    while i < slots.len()
        invariant
            i <= slots@.len(),
            forall|j: int| 0 <= j < i ==> (#[trigger] slots@[j]) is Some,
        decreases slots@.len() - i,
    {
        if slots[i].is_none() {
            return i;
        }
        i = i + 1;
    }
    i
}

/// The index of the leftmost filled slot, or the length if every slot is
/// empty.
fn first_some_index(slots: &Vec<Option<Fe>>) -> (r: usize)
    ensures
        r <= slots@.len(),
        forall|j: int| 0 <= j < r ==> !((#[trigger] slots@[j]) is Some),
        r < slots@.len() ==> slots@[r as int] is Some,
{
    let mut i: usize = 0;
    while i < slots.len()
        invariant
            i <= slots@.len(),
            forall|j: int| 0 <= j < i ==> !((#[trigger] slots@[j]) is Some),
        decreases slots@.len() - i,
    {
        if slots[i].is_some() {
            return i;
        }
        i = i + 1;
    }
    i
}

impl<P: PermutationInstructions> Sponge<P, TranscriptAbsorbing> {
    /// The chip this sponge runs over.
    pub closed spec fn chip(&self) -> P {
        self.chip
    }

    /// The sponge's mathematical state.
    pub closed spec fn model(&self) -> DuplexState {
        DuplexState {
            state: fes_view(self.state@),
            block: filled_views(slots_view(self.mode@)),
            permutes: self.perm_count as nat,
        }
    }

    /// Well-formedness: state of the chip's width, a rate-sized buffer filled
    /// left to right, all elements canonical.
    pub closed spec fn wf(&self) -> bool {
        &&& self.state@.len() == self.chip.width()
        &&& fes_wf(self.state@)
        &&& self.mode@.len() == self.chip.rate()
        &&& slots_wf(self.mode@)
        &&& front_filled(self.mode@)
    }

    /// How many times this sponge has invoked the permutation.
    pub fn permutation_count(&self) -> (r: u64)
        ensures
            r as nat == self.model().permutes,
    {
        self.perm_count
    }

    /// A fresh absorbing sponge over the given chip: initial state from the
    /// chip, empty buffer, no permutation calls.
    pub fn new(chip: P) -> (s: Self)
        ensures
            s.wf(),
            s.chip() == chip,
            s.model() == model_new(chip),
    {
        proof {
            chip.lemma_shape();
        }
        let state = chip.initial_state();
        let rate = chip.rate_value();
        let mode = TranscriptAbsorbing::init_empty(rate);
        let s = Sponge { chip, mode, state, perm_count: 0 };
        proof {
            lemma_filled_front(s.mode@, 0);
            assert(s.model() =~~= model_new(s.chip));
        }
        s
    }

    /// Absorb one value: fill the leftmost free slot, or — when the buffer is
    /// already full — absorb the block into the state, permute once, and
    /// start a fresh buffer holding only this value.
    pub fn absorb(&mut self, value: Fe)
        requires
            old(self).wf(),
            value.wf(),
            old(self).model().permutes < u64::MAX as nat,
        ensures
            final(self).wf(),
            final(self).chip() == old(self).chip(),
            final(self).model() == model_absorb(old(self).chip(), old(self).model(), value@),
    {
        proof {
            self.chip.lemma_shape();
        }
        let i = first_none_index(&self.mode.slots);
        proof {
            assert forall|j: int|
                i <= j < old(self).mode@.len() implies !((#[trigger] old(self).mode@[j]) is Some) by {
                if old(self).mode@[j] is Some {
                    assert(old(self).mode@[i as int] is Some);
                }
            }
            lemma_filled_front(old(self).mode@, i as int);
        }
        if i < self.mode.slots.len() {
            self.mode.slots.set(i, Option::Some(value));
            proof {
                assert forall|j: int|
                    i + 1 <= j < self.mode@.len() implies !((#[trigger] self.mode@[j]) is Some) by {
                    assert(self.mode@[j] == old(self).mode@[j]);
                }
                lemma_filled_front(self.mode@, i + 1);
                assert(filled_views(slots_view(self.mode@)) =~~= filled_views(
                    slots_view(old(self).mode@),
                ).push(value@));
                assert(old(self).model().block.len() == i < old(self).chip().rate());
                assert(self.model() =~~= model_absorb(old(self).chip(), old(self).model(), value@));
            }
        } else {
            proof {
                assert(slots_view(old(self).mode@) =~~= slots_of(
                    filled_views(slots_view(old(self).mode@)),
                    old(self).chip().rate(),
                ));
            }
            let st1 = self.chip.absorb_block(&self.state, &self.mode.slots);
            let st2 = self.chip.permute(&st1);
            let rate = self.chip.rate_value();
            self.state = st2;
            self.mode = TranscriptAbsorbing::init_with(value, rate);
            self.perm_count = self.perm_count + 1;
            proof {
                assert forall|j: int|
                    1 <= j < self.mode@.len() implies !((#[trigger] self.mode@[j]) is Some) by {}
                lemma_filled_front(self.mode@, 1);
                assert(filled_views(slots_view(self.mode@)) =~~= seq![value@]);
                assert(old(self).model().block.len() == old(self).chip().rate());
                assert(self.model() =~~= model_absorb(old(self).chip(), old(self).model(), value@));
            }
        }
    }

    /// The one-way transition to squeezing: absorb the buffer as it stands
    /// (even empty), permute once, and expose the first `rate` elements of
    /// the new state as the output block.
    pub fn finish_absorbing(self) -> (r: Sponge<P, TranscriptSqueezing>)
        requires
            self.wf(),
            self.model().permutes < u64::MAX as nat,
        ensures
            r.wf(),
            r.chip() == self.chip(),
            r.model() == model_finish(self.chip(), self.model()),
    {
        proof {
            self.chip.lemma_shape();
        }
        let ghost m0 = self.model();
        let ghost chip0 = self.chip();
        let i = first_none_index(&self.mode.slots);
        proof {
            assert forall|j: int|
                i <= j < self.mode@.len() implies !((#[trigger] self.mode@[j]) is Some) by {
                if self.mode@[j] is Some {
                    assert(self.mode@[i as int] is Some);
                }
            }
            lemma_filled_front(self.mode@, i as int);
            assert(slots_view(self.mode@) =~~= slots_of(m0.block, chip0.rate()));
        }
        let Sponge { chip, mode, state, perm_count } = self;
        let st1 = chip.absorb_block(&state, &mode.slots);
        let st2 = chip.permute(&st1);
        let rate = chip.rate_value();
        let mut slots: Vec<Option<Fe>> = Vec::new();
        let mut k: usize = 0;
        while k < rate
            invariant
                k <= rate,
                rate as nat == chip.rate(),
                chip.rate() < chip.width(),
                st2@.len() == chip.width(),
                fes_wf(st2@),
                slots@.len() == k,
                forall|j: int| 0 <= j < k ==> (#[trigger] slots@[j]) is Some,
                forall|j: int| 0 <= j < k ==> ((#[trigger] slots@[j])->0)@ == st2@[j]@,
                forall|j: int| 0 <= j < k ==> ((#[trigger] slots@[j])->0).wf(),
            decreases rate - k,
        {
            slots.push(Option::Some(st2[k].duplicate()));
            k = k + 1;
        }
        let r = Sponge::<P, TranscriptSqueezing> {
            chip,
            mode: TranscriptSqueezing { slots },
            state: st2,
            perm_count: perm_count + 1,
        };
        proof {
            lemma_filled_back(r.mode@, 0);
            assert(filled_views(slots_view(r.mode@)) =~~= fes_view(r.state@).take(
                chip0.rate() as int,
            ));
            assert(r.model() =~~= model_finish(chip0, m0));
        }
        r
    }
}

impl<P: PermutationInstructions> Sponge<P, TranscriptSqueezing> {
    /// The chip this sponge runs over.
    pub closed spec fn chip(&self) -> P {
        self.chip
    }

    /// The sponge's mathematical state.
    pub closed spec fn model(&self) -> DuplexState {
        DuplexState {
            state: fes_view(self.state@),
            block: filled_views(slots_view(self.mode@)),
            permutes: self.perm_count as nat,
        }
    }

    /// Well-formedness: state of the chip's width, a rate-sized buffer
    /// consumed left to right, all elements canonical.
    pub closed spec fn wf(&self) -> bool {
        &&& self.state@.len() == self.chip.width()
        &&& fes_wf(self.state@)
        &&& self.mode@.len() == self.chip.rate()
        &&& slots_wf(self.mode@)
        &&& back_filled(self.mode@)
    }

    /// How many times this sponge has invoked the permutation.
    pub fn permutation_count(&self) -> (r: u64)
        ensures
            r as nat == self.model().permutes,
    {
        self.perm_count
    }

    /// Squeeze one output: the leftmost unconsumed element of the block,
    /// refilling the block with one permutation call when it is exhausted.
    pub fn squeeze(&mut self) -> (r: Fe)
        requires
            old(self).wf(),
            old(self).model().permutes < u64::MAX as nat,
        ensures
            final(self).wf(),
            final(self).chip() == old(self).chip(),
            r.wf(),
            r@ == model_squeeze(old(self).chip(), old(self).model()).0,
            final(self).model() == model_squeeze(old(self).chip(), old(self).model()).1,
    {
        proof {
            self.chip.lemma_shape();
        }
        let i = first_some_index(&self.mode.slots);
        proof {
            assert forall|j: int|
                i <= j < old(self).mode@.len() implies (#[trigger] old(self).mode@[j]) is Some by {
                if j > i {
                    assert(old(self).mode@[i as int] is Some);
                }
            }
            lemma_filled_back(old(self).mode@, i as int);
        }
        if i < self.mode.slots.len() {
            let r = match &self.mode.slots[i] {
                Option::Some(f) => f.duplicate(),
                Option::None => vstd::pervasive::unreached(),
            };
            self.mode.slots.set(i, Option::None);
            proof {
                assert forall|j: int|
                    i + 1 <= j < self.mode@.len() implies (#[trigger] self.mode@[j]) is Some by {
                    assert(self.mode@[j] == old(self).mode@[j]);
                }
                lemma_filled_back(self.mode@, i + 1);
                assert(filled_views(slots_view(self.mode@)) =~~= filled_views(
                    slots_view(old(self).mode@),
                ).drop_first());
                assert(old(self).model().block.len() > 0);
                assert(self.model() =~~= model_squeeze(old(self).chip(), old(self).model()).1);
            }
            r
        } else {
            proof {
                assert(old(self).model().block.len() == 0);
            }
            let st2 = self.chip.permute(&self.state);
            let rate = self.chip.rate_value();
            let r = st2[0].duplicate();
            let mut slots: Vec<Option<Fe>> = Vec::new();
            slots.push(Option::None);
            let mut k: usize = 1;
            while k < rate
                invariant
                    1 <= k <= rate,
                    rate as nat == old(self).chip().rate(),
                    old(self).chip().rate() < old(self).chip().width(),
                    st2@.len() == old(self).chip().width(),
                    fes_wf(st2@),
                    slots@.len() == k,
                    !(slots@[0] is Some),
                    forall|j: int| 1 <= j < k ==> (#[trigger] slots@[j]) is Some,
                    forall|j: int| 1 <= j < k ==> ((#[trigger] slots@[j])->0)@ == st2@[j]@,
                    forall|j: int| 1 <= j < k ==> ((#[trigger] slots@[j])->0).wf(),
                decreases rate - k,
            {
                slots.push(Option::Some(st2[k].duplicate()));
                k = k + 1;
            }
            self.state = st2;
            self.mode = TranscriptSqueezing { slots };
            self.perm_count = self.perm_count + 1;
            proof {
                lemma_filled_back(self.mode@, 1);
                assert(filled_views(slots_view(self.mode@)) =~~= fes_view(self.state@).take(
                    old(self).chip().rate() as int,
                ).drop_first());
                assert(self.model() =~~= model_squeeze(old(self).chip(), old(self).model()).1);
            }
            r
        }
    }
}

proof fn lemma_absorb_all_snoc<P: PermutationInstructions>(
    chip: P,
    m: DuplexState,
    vs: Seq<Seq<u8>>,
    v: Seq<u8>,
)
    ensures
        model_absorb_all(chip, m, vs.push(v)) == model_absorb(chip, model_absorb_all(chip, m, vs), v),
    decreases vs.len(),
{
    let w = vs.push(v);
    if vs.len() == 0 {
        assert(w[0] == v);
        assert(w.drop_first() =~= Seq::<Seq<u8>>::empty());
        assert(model_absorb_all(chip, m, w) == model_absorb_all(
            chip,
            model_absorb(chip, m, v),
            w.drop_first(),
        ));
        assert(model_absorb_all(chip, model_absorb(chip, m, v), w.drop_first()) == model_absorb(
            chip,
            m,
            v,
        ));
    } else {
        assert(w[0] == vs[0]);
        assert(w.drop_first() =~= vs.drop_first().push(v));
        let m2 = model_absorb(chip, m, vs[0]);
        lemma_absorb_all_snoc(chip, m2, vs.drop_first(), v);
        assert(model_absorb_all(chip, m, w) == model_absorb_all(chip, m2, w.drop_first()));
        assert(model_absorb_all(chip, m, vs) == model_absorb_all(chip, m2, vs.drop_first()));
    }
}

/// Absorbing values that fit into the buffer's free slots only buffers them,
/// in order: no permutation call and no state change. In particular, a fresh
/// sponge absorbs up to a full rate block without ever invoking the
/// permutation.
pub proof fn lemma_absorb_within_rate<P: PermutationInstructions>(
    chip: P,
    m: DuplexState,
    vs: Seq<Seq<u8>>,
)
    requires
        m.block.len() + vs.len() <= chip.rate(),
    ensures
        model_absorb_all(chip, m, vs) == (DuplexState {
            state: m.state,
            block: m.block + vs,
            permutes: m.permutes,
        }),
    decreases vs.len(),
{
    if vs.len() == 0 {
        assert(m.block + vs =~= m.block);
        assert(model_absorb_all(chip, m, vs) =~~= (DuplexState {
            state: m.state,
            block: m.block + vs,
            permutes: m.permutes,
        }));
    } else {
        let m2 = model_absorb(chip, m, vs[0]);
        lemma_absorb_within_rate(chip, m2, vs.drop_first());
        assert(m.block.push(vs[0]) + vs.drop_first() =~= m.block + vs);
    }
}

/// Absorbing one value more than the rate into a sponge with an empty buffer
/// invokes the permutation exactly once, and does so before the extra value
/// is buffered: the extra value ends up alone in a fresh buffer, and the
/// state has absorbed exactly the first full block.
pub proof fn lemma_absorb_rate_plus_one<P: PermutationInstructions>(
    chip: P,
    m: DuplexState,
    vs: Seq<Seq<u8>>,
)
    requires
        m.block.len() == 0,
        chip.rate() >= 1,
        vs.len() == chip.rate() + 1,
    ensures
        model_absorb_all(chip, m, vs).permutes == m.permutes + 1,
        model_absorb_all(chip, m, vs).block == seq![vs.last()],
        model_absorb_all(chip, m, vs).state == chip.permute_model(
            chip.absorb_model(m.state, slots_of(vs.take(chip.rate() as int), chip.rate())),
        ),
{
    let front = vs.take(chip.rate() as int);
    assert(front.push(vs.last()) =~= vs);
    lemma_absorb_all_snoc(chip, m, front, vs.last());
    lemma_absorb_within_rate(chip, m, front);
    assert(m.block + front =~= front);
}

/// Up to a full block of squeezes returns the block's elements leftmost
/// first, in their fixed order, without invoking the permutation and without
/// touching the state.
pub proof fn lemma_squeeze_within_block<P: PermutationInstructions>(chip: P, m: DuplexState, k: nat)
    requires
        k <= m.block.len(),
    ensures
        model_squeeze_all(chip, m, k).0 == m.block.take(k as int),
        model_squeeze_all(chip, m, k).1 == (DuplexState {
            state: m.state,
            block: m.block.skip(k as int),
            permutes: m.permutes,
        }),
    decreases k,
{
    if k == 0 {
        assert(model_squeeze_all(chip, m, k).0 =~~= m.block.take(0));
        assert(m.block.skip(0) =~= m.block);
        assert(model_squeeze_all(chip, m, k).1 =~~= (DuplexState {
            state: m.state,
            block: m.block.skip(0),
            permutes: m.permutes,
        }));
    } else {
        let m2 = model_squeeze(chip, m).1;
        lemma_squeeze_within_block(chip, m2, (k - 1) as nat);
        assert(seq![m.block[0]] + m.block.drop_first().take(k - 1) =~= m.block.take(k as int));
        assert(m.block.drop_first().skip(k - 1) =~= m.block.skip(k as int));
    }
}

/// How many permutation calls `k` further steps need when `room` steps are
/// still covered by the current block: none while the block lasts, then one
/// per extra block begun.
pub open spec fn block_steps(k: nat, room: nat, rate: nat) -> int {
    if k <= room {
        0
    } else {
        1 + ((k - room - 1) as int) / (rate as int)
    }
}

/// Absorbing `k` values invokes the permutation exactly once per rate block
/// filled before a further value arrives: never while the values fit into the
/// buffer's free slots, and then once per extra block begun.
pub proof fn lemma_absorb_permutation_count<P: PermutationInstructions>(
    chip: P,
    m: DuplexState,
    vs: Seq<Seq<u8>>,
)
    requires
        m.block.len() <= chip.rate(),
        chip.rate() >= 1,
    ensures
        model_absorb_all(chip, m, vs).permutes == m.permutes + block_steps(
            vs.len(),
            (chip.rate() - m.block.len()) as nat,
            chip.rate(),
        ),
    decreases vs.len(),
{
    let rate = chip.rate();
    let b = m.block.len();
    let room = (rate - b) as nat;
    let k = vs.len();
    if k > 0 {
        let m2 = model_absorb(chip, m, vs[0]);
        lemma_absorb_permutation_count(chip, m2, vs.drop_first());
        if b < rate {
            assert(block_steps(k, room, rate) == block_steps(
                (k - 1) as nat,
                (room - 1) as nat,
                rate,
            ));
        } else {
            assert(m2.block.len() == 1);
            if k <= rate {
                vstd::arithmetic::div_mod::lemma_basic_div((k - 1) as int, rate as int);
                assert(block_steps(k, 0, rate) == 1);
                assert(block_steps((k - 1) as nat, (rate - 1) as nat, rate) == 0);
            } else {
                vstd::arithmetic::div_mod::lemma_div_plus_one((k - 1 - rate) as int, rate as int);
                assert(((k - 1) as int) / (rate as int) == 1 + ((k - 1 - rate) as int) / (
                rate as int));
            }
        }
    }
}

/// Squeezing `k` outputs invokes the permutation exactly once per extra
/// block begun beyond the outputs still buffered: `m <= rate` squeezes after
/// the transition cost nothing, and each further block costs one call.
pub proof fn lemma_squeeze_permutation_count<P: PermutationInstructions>(
    chip: P,
    m: DuplexState,
    k: nat,
)
    requires
        m.block.len() <= chip.rate(),
        m.state.len() == chip.width(),
        chip.rate() >= 1,
        chip.rate() < chip.width(),
    ensures
        model_squeeze_all(chip, m, k).1.permutes == m.permutes + block_steps(
            k,
            m.block.len(),
            chip.rate(),
        ),
    decreases k,
{
    let rate = chip.rate();
    let b = m.block.len();
    if k > 0 {
        let m2 = model_squeeze(chip, m).1;
        if b > 0 {
            lemma_squeeze_permutation_count(chip, m2, (k - 1) as nat);
            assert(block_steps(k, b, rate) == block_steps((k - 1) as nat, (b - 1) as nat, rate));
        } else {
            chip.lemma_permute_model_len(m.state);
            assert(m2.block.len() == rate - 1);
            lemma_squeeze_permutation_count(chip, m2, (k - 1) as nat);
            if k <= rate {
                vstd::arithmetic::div_mod::lemma_basic_div((k - 1) as int, rate as int);
                assert(block_steps(k, 0, rate) == 1);
                assert(block_steps((k - 1) as nat, (rate - 1) as nat, rate) == 0);
            } else {
                vstd::arithmetic::div_mod::lemma_div_plus_one((k - 1 - rate) as int, rate as int);
                assert(((k - 1) as int) / (rate as int) == 1 + ((k - 1 - rate) as int) / (
                rate as int));
            }
        }
    }
}

/// Determinism: the outputs of an absorb-all, finish, squeeze-`k` pipeline
/// are a function of the absorbed values alone — two runs over equal inputs
/// give equal outputs.
pub proof fn lemma_pipeline_deterministic<P: PermutationInstructions>(
    chip: P,
    vs1: Seq<Seq<u8>>,
    vs2: Seq<Seq<u8>>,
    k: nat,
)
    requires
        vs1 == vs2,
    ensures
        model_squeeze_all(chip, model_finish(chip, model_absorb_all(chip, model_new(chip), vs1)), k).0
            == model_squeeze_all(
            chip,
            model_finish(chip, model_absorb_all(chip, model_new(chip), vs2)),
            k,
        ).0,
{
}

} // verus!
