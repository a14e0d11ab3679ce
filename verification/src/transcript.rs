//! Fiat-Shamir transcript.
//!
//! The transcript absorbs field elements and deterministically derives
//! extension-field challenges from everything absorbed so far. It is backed
//! by a byte-oriented Keccak-256 hash challenger; the backing challenger is
//! trusted, and its state is modelled by the `history` of the transcript: a
//! flat encoding of every absorb and sample event. Two transcripts with equal
//! histories return equal challenges.
use vstd::prelude::*;

verus! {

use crate::field::{BaseElem, ExtElem, ExtVal, Fields};

/// Holds the outside Keccak challenger opaquely. Verus refuses a declaration
/// of `p3_challenger::HashChallenger` itself (its struct bounds name an
/// outside trait), so the challenger state lives behind this one opaque
/// struct; every access to it is one of the trusted wrappers below.
#[verifier::external_body]
struct ChallengerBox {
    inner: p3_challenger::SerializingChallenger32<
        p3_mersenne_31::Mersenne31,
        p3_challenger::HashChallenger<u8, p3_keccak::Keccak256Hash, 32>,
    >,
}

/// Event marker: a base element was absorbed.
pub open spec fn enc_base(b: int) -> Seq<int> {
    seq![0int, b]
}

/// Event marker: an extension element was absorbed.
pub open spec fn enc_ext(v: ExtVal) -> Seq<int> {
    seq![1int, v.c0, v.c1, v.c2]
}

/// Event marker: a challenge was sampled.
pub open spec fn enc_sample() -> Seq<int> {
    seq![2int]
}

/// Encoding of a whole slice of base elements, in order.
pub open spec fn enc_base_seq(s: Seq<BaseElem>) -> Seq<int>
    decreases s.len(),
{
    if s.len() == 0 {
        Seq::empty()
    } else {
        enc_base_seq(s.drop_last()) + enc_base(s.last().val as int)
    }
}

/// Encoding of a whole slice of extension elements, in order.
pub open spec fn enc_ext_seq(s: Seq<ExtElem>) -> Seq<int>
    decreases s.len(),
{
    if s.len() == 0 {
        Seq::empty()
    } else {
        enc_ext_seq(s.drop_last()) + enc_ext(s.last()@)
    }
}

/// Encoding of a slice of tagged field elements, in order: base elements are
/// absorbed as base, extension elements as extension.
pub open spec fn enc_fields_seq(s: Seq<Fields>) -> Seq<int>
    decreases s.len(),
{
    if s.len() == 0 {
        Seq::empty()
    } else {
        enc_fields_seq(s.drop_last()) + match s.last() {
            Fields::Base(b) => enc_base(b.val as int),
            Fields::Extension(e) => enc_ext(e@),
        }
    }
}

/// Encoding of a sequence of extension-field values, in order.
pub open spec fn enc_ext_vals(s: Seq<ExtVal>) -> Seq<int>
    decreases s.len(),
{
    if s.len() == 0 {
        Seq::empty()
    } else {
        enc_ext_vals(s.drop_last()) + enc_ext(s.last())
    }
}

/// The element-level and value-level encodings agree.
pub proof fn lemma_enc_ext_seq_vals(s: Seq<ExtElem>)
    ensures
        enc_ext_seq(s) == enc_ext_vals(s.map_values(|e: ExtElem| e@)),
    decreases s.len(),
{
    let m = s.map_values(|e: ExtElem| e@);
    if s.len() == 0 {
        assert(m.len() == 0);
    } else {
        lemma_enc_ext_seq_vals(s.drop_last());
        assert(s.drop_last().map_values(|e: ExtElem| e@) =~= m.drop_last());
        assert(m.last() == s.last()@);
    }
}

/// The challenge that the backing Keccak challenger returns after the given
/// history of absorb and sample events. The challenger is deterministic, so
/// the challenge is a function of the history alone.
pub uninterp spec fn challenge_of(history: Seq<int>) -> ExtVal;

/// A fresh Keccak-256 byte challenger wrapped for 32-bit field elements.
///
/// Relies on `p3_challenger::SerializingChallenger32::from_hasher` with an
/// empty initial state: every call returns a challenger in one and the same
/// deterministic starting state, so challenges are a function of the absorb
/// and sample history alone.
#[verifier::external_body]
fn new_challenger() -> ChallengerBox {
    ChallengerBox {
        inner: p3_challenger::SerializingChallenger32::from_hasher(
            Vec::new(),
            p3_keccak::Keccak256Hash,
        ),
    }
}

/// A Fiat-Shamir transcript over the base field and its cubic extension.
pub struct Transcript {
    challenger: ChallengerBox,
    hist: Ghost<Seq<int>>,
}

impl Transcript {
    /// The events absorbed and sampled so far, in order.
    pub closed spec fn history(&self) -> Seq<int> {
        self.hist@
    }

    /// Creates a transcript seeded deterministically: a prover and a verifier
    /// that both start from `init` derive identical challenges from identical
    /// event sequences.
    pub fn init() -> (r: Self)
        ensures
            r.history() == Seq::<int>::empty(),
    {
        Transcript { challenger: new_challenger(), hist: Ghost(Seq::empty()) }
    }

    /// Absorbs one base element.
    ///
    /// Relies on `p3_challenger`'s `CanObserve::observe` for
    /// `SerializingChallenger32`: it absorbs the four little-endian bytes of
    /// the canonical value, a function of `val` and the prior state alone.
    #[verifier::external_body]
    fn observe_one_base(&mut self, val: BaseElem)
        ensures
            final(self).history() == old(self).history() + enc_base(val.val as int),
    {
        p3_challenger::CanObserve::observe(
            &mut self.challenger.inner,
            p3_mersenne_31::Mersenne31::new(val.val),
        );
    }

    /// Absorbs one extension element.
    ///
    /// Relies on `p3_challenger`'s `FieldChallenger::observe_algebra_element`:
    /// it absorbs the three basis coefficients in ascending order, a function
    /// of `val` and the prior state alone.
    #[verifier::external_body]
    fn observe_one_ext(&mut self, val: ExtElem)
        ensures
            final(self).history() == old(self).history() + enc_ext(val@),
    {
        let e = p3_field::extension::BinomialExtensionField::<p3_mersenne_31::Mersenne31, 3>::new([
            p3_mersenne_31::Mersenne31::new(val.c0),
            p3_mersenne_31::Mersenne31::new(val.c1),
            p3_mersenne_31::Mersenne31::new(val.c2),
        ]);
        p3_challenger::FieldChallenger::observe_algebra_element(&mut self.challenger.inner, e);
    }

    /// Samples a challenge in the extension field.
    ///
    /// Relies on `p3_challenger`'s `CanSample::sample` for
    /// `SerializingChallenger32`: it returns an extension element whose
    /// coefficients are sampled canonically (each below the field order) and
    /// deterministically from the challenger state, which is a function of
    /// the absorb/sample history alone.
    #[verifier::external_body]
    pub fn sample_challenge(&mut self) -> (r: ExtElem)
        ensures
            r.wf(),
            r@ == challenge_of(old(self).history()),
            final(self).history() == old(self).history() + enc_sample(),
    {
        let e: p3_field::extension::BinomialExtensionField<p3_mersenne_31::Mersenne31, 3> =
            p3_challenger::CanSample::sample(&mut self.challenger.inner);
        let c = p3_field::BasedVectorSpace::<p3_mersenne_31::Mersenne31>::as_basis_coefficients_slice(&e);
        ExtElem {
            c0: p3_field::PrimeField32::as_canonical_u32(&c[0]),
            c1: p3_field::PrimeField32::as_canonical_u32(&c[1]),
            c2: p3_field::PrimeField32::as_canonical_u32(&c[2]),
        }
    }

    /// Absorbs a slice of base elements, in order.
    pub fn observe_base_element(&mut self, vals: &[BaseElem])
        ensures
            final(self).history() == old(self).history() + enc_base_seq(vals@),
    {
        let ghost h0 = self.history();
        let mut i: usize = 0;
        while i < vals.len()
            invariant
                0 <= i <= vals@.len(),
                self.history() == h0 + enc_base_seq(vals@.take(i as int)),
            decreases vals@.len() - i,
        {
            proof {
                lemma_enc_base_seq_len(vals@.take(i as int));
                assert(vals@.take(i as int + 1).drop_last() == vals@.take(i as int));
            }
            self.observe_one_base(vals[i]);
            i = i + 1;
        }
        proof {
            assert(vals@.take(vals@.len() as int) == vals@);
        }
    }

    /// Absorbs a slice of extension elements, in order.
    pub fn observe_ext_element(&mut self, vals: &[ExtElem])
        ensures
            final(self).history() == old(self).history() + enc_ext_seq(vals@),
    {
        let ghost h0 = self.history();
        let mut i: usize = 0;
        while i < vals.len()
            invariant
                0 <= i <= vals@.len(),
                self.history() == h0 + enc_ext_seq(vals@.take(i as int)),
            decreases vals@.len() - i,
        {
            proof {
                lemma_enc_ext_seq_len(vals@.take(i as int));
                assert(vals@.take(i as int + 1).drop_last() == vals@.take(i as int));
            }
            self.observe_one_ext(vals[i]);
            i = i + 1;
        }
        proof {
            assert(vals@.take(vals@.len() as int) == vals@);
        }
    }

    /// Absorbs a slice of tagged field elements: each base element as base,
    /// each extension element as extension.
    pub fn observe(&mut self, vals: &[Fields])
        ensures
            final(self).history() == old(self).history() + enc_fields_seq(vals@),
    {
        let ghost h0 = self.history();
        let mut i: usize = 0;
        while i < vals.len()
            invariant
                0 <= i <= vals@.len(),
                self.history() == h0 + enc_fields_seq(vals@.take(i as int)),
            decreases vals@.len() - i,
        {
            proof {
                lemma_enc_fields_seq_len(vals@.take(i as int));
                assert(vals@.take(i as int + 1).drop_last() == vals@.take(i as int));
            }
            match vals[i] {
                Fields::Base(b) => self.observe_one_base(b),
                Fields::Extension(e) => self.observe_one_ext(e),
            }
            i = i + 1;
        }
        proof {
            assert(vals@.take(vals@.len() as int) == vals@);
        }
    }

    /// Samples `n` challenges in the extension field, in order.
    pub fn sample_n_challenges(&mut self, n: usize) -> (r: Vec<ExtElem>)
        ensures
            r@.len() == n,
            forall|i: int|
                0 <= i < n ==> (#[trigger] r@[i]).wf() && r@[i]@ == challenge_of(
                    old(self).history() + enc_samples(i),
                ),
            final(self).history() == old(self).history() + enc_samples(n as int),
    {
        let ghost h0 = self.history();
        let mut res: Vec<ExtElem> = Vec::new();
        let mut i: usize = 0;
        while i < n
            invariant
                0 <= i <= n,
                res@.len() == i,
                self.history() == h0 + enc_samples(i as int),
                forall|j: int|
                    0 <= j < i ==> (#[trigger] res@[j]).wf() && res@[j]@ == challenge_of(
                        h0 + enc_samples(j),
                    ),
            decreases n - i,
        {
            proof {
                lemma_enc_samples_len(i as int);
            }
            let c = self.sample_challenge();
            res.push(c);
            i = i + 1;
        }
        res
    }
}

/// `n` consecutive sample events.
pub open spec fn enc_samples(n: int) -> Seq<int>
    decreases n,
{
    if n <= 0 {
        Seq::empty()
    } else {
        enc_samples(n - 1) + enc_sample()
    }
}

pub proof fn lemma_enc_samples_len(n: int)
    requires
        n >= 0,
    ensures
        enc_samples(n).len() == n,
    decreases n,
{
    if n > 0 {
        lemma_enc_samples_len(n - 1);
    }
}

/// Length of the base-slice encoding.
pub proof fn lemma_enc_base_seq_len(s: Seq<BaseElem>)
    ensures
        enc_base_seq(s).len() == 2 * s.len(),
    decreases s.len(),
{
    if s.len() > 0 {
        lemma_enc_base_seq_len(s.drop_last());
    }
}

/// Length of the extension-slice encoding.
pub proof fn lemma_enc_ext_seq_len(s: Seq<ExtElem>)
    ensures
        enc_ext_seq(s).len() == 4 * s.len(),
    decreases s.len(),
{
    if s.len() > 0 {
        lemma_enc_ext_seq_len(s.drop_last());
    }
}

/// Length bound of the tagged-slice encoding.
pub proof fn lemma_enc_fields_seq_len(s: Seq<Fields>)
    ensures
        enc_fields_seq(s).len() <= 4 * s.len(),
    decreases s.len(),
{
    if s.len() > 0 {
        lemma_enc_fields_seq_len(s.drop_last());
    }
}

} // verus!
