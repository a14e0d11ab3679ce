//! The sumcheck protocol driver: prover and verifier, in full and partial
//! (protocol-composable) variants.
//!
//! The verifier's result is characterized exactly: it accepts if and only
//! if the proof has the right round count, every round polynomial's values
//! at zero and one sum to the running expectation, and the final
//! expectation matches the oracle evaluation of the polynomial at the
//! transcript-derived challenges.
use vstd::prelude::*;

verus! {

use crate::field::{ev_add, ExtElem, ExtVal, Fields, P};
use crate::mle::{all_wf, vals};
use crate::poly_utils::{barycentric_evaluation, barycentric_spec};
use crate::sumcheckable::Sumcheckable;
use crate::transcript::{
    challenge_of, enc_ext, enc_ext_vals, enc_sample, lemma_enc_ext_seq_vals, Transcript,
};

/// A sumcheck proof: the claimed hypercube sum, one round polynomial per
/// round (in evaluation form), and the transcript-derived challenges.
pub struct SumCheckProof {
    pub claimed_sum: Fields,
    pub round_polynomials: Vec<Vec<Fields>>,
    pub challenges: Vec<Fields>,
}

impl SumCheckProof {
    pub fn new(
        claimed_sum: Fields,
        round_polynomials: Vec<Vec<Fields>>,
        challenges: Vec<Fields>,
    ) -> (r: Self)
        ensures
            r.claimed_sum == claimed_sum,
            r.round_polynomials == round_polynomials,
            r.challenges == challenges,
    {
        Self { claimed_sum, round_polynomials, challenges }
    }
}

/// The transcript history after the first `i` rounds: each round absorbs
/// its round polynomial (as extension elements) and samples one challenge.
pub open spec fn rounds_hist(h0: Seq<int>, polys: Seq<Vec<Fields>>, i: int) -> Seq<int>
    decreases i,
{
    if i <= 0 {
        h0
    } else {
        rounds_hist(h0, polys, i - 1) + enc_ext_vals(vals(polys[i - 1]@)) + enc_sample()
    }
}

/// The challenge sampled in round `i`: a function of the history up to and
/// including that round's polynomial.
pub open spec fn round_challenge(h0: Seq<int>, polys: Seq<Vec<Fields>>, i: int) -> ExtVal {
    challenge_of(rounds_hist(h0, polys, i) + enc_ext_vals(vals(polys[i]@)))
}

/// All challenges of a proof, in round order.
pub open spec fn round_challenges(h0: Seq<int>, polys: Seq<Vec<Fields>>) -> Seq<ExtVal> {
    Seq::new(polys.len(), |i: int| round_challenge(h0, polys, i))
}

/// The verifier's running expectation before round `i`: the claimed sum at
/// the start, then the previous round polynomial evaluated (by the
/// barycentric rule) at the previous challenge.
pub open spec fn expected_at(s0: ExtVal, h0: Seq<int>, polys: Seq<Vec<Fields>>, i: int) -> ExtVal {
    if i <= 0 {
        s0
    } else {
        barycentric_spec(vals(polys[i - 1]@), round_challenge(h0, polys, i - 1))
    }
}

/// The per-round consistency checks: every round polynomial is long enough
/// (and short enough for barycentric evaluation), and its values at zero
/// and one sum to the running expectation.
pub open spec fn rounds_ok(s0: ExtVal, h0: Seq<int>, polys: Seq<Vec<Fields>>) -> bool {
    forall|i: int|
        0 <= i < polys.len() ==> {
            let m = vals((#[trigger] polys[i])@);
            &&& m.len() >= 2
            &&& m.len() <= P
            &&& ev_add(m[0], m[1]) == expected_at(s0, h0, polys, i)
        }
}

/// Whether the verifier accepts the proof against the polynomial, given
/// the transcript's starting history.
pub open spec fn sumcheck_accepts<T: Sumcheckable>(
    polynomial: &T,
    proof: &SumCheckProof,
    h0: Seq<int>,
) -> bool {
    let h1 = h0 + polynomial.sc_commit_enc() + enc_ext(proof.claimed_sum@);
    let polys = proof.round_polynomials@;
    &&& polys.len() == polynomial.sc_rounds()
    &&& rounds_ok(proof.claimed_sum@, h1, polys)
    &&& expected_at(proof.claimed_sum@, h1, polys, polys.len() as int) == polynomial.sc_eval(
        round_challenges(h1, polys),
    )
}

/// The prover ran honestly: `states` are the successive polynomial
/// states, starting from `p0` and ending at `p_end`; each returned row is
/// the round message of the state it was produced from, with that state's
/// exact message length, and each state steps to the next by the
/// polynomial's own transition relation at the sampled challenge.
pub open spec fn honest_trace<T: Sumcheckable>(
    p0: T,
    states: Seq<T>,
    rows: Seq<Vec<Fields>>,
    challenges: Seq<Fields>,
    p_end: T,
) -> bool {
    &&& states.len() == rows.len() + 1
    &&& challenges.len() == rows.len()
    &&& states[0] == p0
    &&& states[rows.len() as int] == p_end
    &&& forall|i: int|
        0 <= i < rows.len() ==> {
            &&& (#[trigger] states[i]).sc_wf()
            &&& vals(rows[i]@) == states[i].sc_round_msg()
            &&& rows[i]@.len() == states[i].sc_msg_len()
            &&& states[i].sc_step_post(challenges[i]@, &states[i + 1])
        }
}

/// Prefixes of the history are unchanged when a later round is appended.
proof fn lemma_rounds_hist_push(h0: Seq<int>, polys: Seq<Vec<Fields>>, x: Vec<Fields>, i: int)
    requires
        i <= polys.len(),
    ensures
        rounds_hist(h0, polys.push(x), i) == rounds_hist(h0, polys, i),
    decreases i,
{
    if i > 0 {
        lemma_rounds_hist_push(h0, polys, x, i - 1);
        assert(polys.push(x)[i - 1] == polys[i - 1]);
    }
}

/// The sumcheck driver.
pub struct SumCheck {}

impl SumCheck {
    /// Generates a proof that the polynomial's hypercube sum is
    /// `claimed_sum`: commits the polynomial and the claim, then plays the
    /// rounds.
    pub fn prove<T: Sumcheckable>(
        claimed_sum: Fields,
        polynomial: T,
        transcript: &mut Transcript,
    ) -> (r: SumCheckProof)
        requires
            polynomial.sc_wf(),
            claimed_sum.wf(),
        ensures
            r.claimed_sum == claimed_sum,
            r.round_polynomials@.len() == polynomial.sc_rounds(),
            r.challenges@.len() == polynomial.sc_rounds(),
            forall|i: int|
                0 <= i < r.round_polynomials@.len() ==> all_wf((#[trigger] r.round_polynomials@[i])@)
                    && 2 <= r.round_polynomials@[i]@.len() <= polynomial.sc_max_var_degree() + 2,
            ({
                let h1 = old(transcript).history() + polynomial.sc_commit_enc() + enc_ext(
                    claimed_sum@,
                );
                &&& forall|i: int|
                    0 <= i < r.challenges@.len() ==> (#[trigger] r.challenges@[i]).wf()
                        && !r.challenges@[i].is_base() && r.challenges@[i]@ == round_challenge(
                        h1,
                        r.round_polynomials@,
                        i,
                    )
                &&& final(transcript).history() == rounds_hist(
                    h1,
                    r.round_polynomials@,
                    r.round_polynomials@.len() as int,
                )
            }),
            exists|states: Seq<T>| #[trigger] honest_trace(
                polynomial,
                states,
                r.round_polynomials@,
                r.challenges@,
                states.last(),
            ),
    {
        let ghost p0 = polynomial;
        let mut polynomial = polynomial;
        polynomial.commit(transcript);
        let c = vec![claimed_sum.to_extension_field()];
        transcript.observe_ext_element(c.as_slice());
        proof {
            assert(crate::transcript::enc_ext_seq(Seq::<ExtElem>::empty())
                =~= Seq::<int>::empty());
            assert(c@.drop_last() =~= Seq::<ExtElem>::empty());
            assert(crate::transcript::enc_ext_seq(c@) =~= enc_ext(claimed_sum@));
        }
        let r = Self::prove_partial(claimed_sum, &mut polynomial, transcript);
        proof {
            let st = choose|st: Seq<T>| #[trigger] honest_trace(
                p0,
                st,
                r.round_polynomials@,
                r.challenges@,
                polynomial,
            );
            assert(st.last() == polynomial);
            assert(honest_trace(p0, st, r.round_polynomials@, r.challenges@, st.last()));
        }
        r
    }

    /// Plays the rounds without committing: for each remaining round,
    /// absorbs the round polynomial, samples a challenge and folds.
    #[verifier::rlimit(60)]
    pub fn prove_partial<T: Sumcheckable>(
        claimed_sum: Fields,
        polynomial: &mut T,
        transcript: &mut Transcript,
    ) -> (r: SumCheckProof)
        requires
            old(polynomial).sc_wf(),
            claimed_sum.wf(),
        ensures
            r.claimed_sum == claimed_sum,
            r.round_polynomials@.len() == old(polynomial).sc_rounds(),
            r.challenges@.len() == old(polynomial).sc_rounds(),
            final(polynomial).sc_wf(),
            final(polynomial).sc_rounds() == 0,
            forall|i: int|
                0 <= i < r.round_polynomials@.len() ==> all_wf((#[trigger] r.round_polynomials@[i])@)
                    && 2 <= r.round_polynomials@[i]@.len() <= old(polynomial).sc_max_var_degree()
                    + 2,
            forall|i: int|
                0 <= i < r.challenges@.len() ==> (#[trigger] r.challenges@[i]).wf()
                    && !r.challenges@[i].is_base() && r.challenges@[i]@ == round_challenge(
                    old(transcript).history(),
                    r.round_polynomials@,
                    i,
                ),
            final(transcript).history() == rounds_hist(
                old(transcript).history(),
                r.round_polynomials@,
                r.round_polynomials@.len() as int,
            ),
            exists|states: Seq<T>| #[trigger] honest_trace(
                *old(polynomial),
                states,
                r.round_polynomials@,
                r.challenges@,
                *final(polynomial),
            ),
    {
        let ghost h0 = transcript.history();
        let total = polynomial.no_of_rounds();
        let mut round_polynomials: Vec<Vec<Fields>> = Vec::new();
        let mut challenges: Vec<Fields> = Vec::new();
        let ghost mut states: Seq<T> = seq![*polynomial];
        let mut i: usize = 0;
        while i < total
            invariant
                0 <= i <= total,
                polynomial.sc_wf(),
                polynomial.sc_rounds() == total - i,
                polynomial.sc_max_var_degree() == old(polynomial).sc_max_var_degree(),
                round_polynomials@.len() == i,
                challenges@.len() == i,
                states.len() == i + 1,
                states[0] == *old(polynomial),
                states[i as int] == *polynomial,
                transcript.history() == rounds_hist(h0, round_polynomials@, i as int),
                forall|j: int|
                    0 <= j < i ==> all_wf((#[trigger] round_polynomials@[j])@) && 2
                        <= round_polynomials@[j]@.len() <= old(polynomial).sc_max_var_degree() + 2,
                forall|j: int|
                    0 <= j < i ==> (#[trigger] challenges@[j]).wf() && !challenges@[j].is_base()
                        && challenges@[j]@ == round_challenge(h0, round_polynomials@, j),
                forall|j: int|
                    0 <= j < i ==> {
                        &&& (#[trigger] states[j]).sc_wf()
                        &&& vals(round_polynomials@[j]@) == states[j].sc_round_msg()
                        &&& round_polynomials@[j]@.len() == states[j].sc_msg_len()
                        &&& states[j].sc_step_post(challenges@[j]@, &states[j + 1])
                    },
            decreases total - i,
        {
            let round_message = polynomial.round_message();
            let mut ext_msg: Vec<ExtElem> = Vec::new();
            let mut k: usize = 0;
            while k < round_message.len()
                invariant
                    0 <= k <= round_message@.len(),
                    all_wf(round_message@),
                    ext_msg@.len() == k,
                    forall|t: int|
                        0 <= t < k ==> #[trigger] ext_msg@[t]@ == round_message@[t]@,
                decreases round_message@.len() - k,
            {
                ext_msg.push(round_message[k].to_extension_field());
                k = k + 1;
            }
            transcript.observe_ext_element(ext_msg.as_slice());
            proof {
                lemma_enc_ext_seq_vals(ext_msg@);
                assert(ext_msg@.map_values(|e: ExtElem| e@) =~= vals(round_message@));
            }
            let sampled = transcript.sample_challenge();
            let challenge = Fields::Extension(sampled);
            polynomial.receive_challenge(&challenge);
            proof {
                let ghost old_polys = round_polynomials@;
                assert forall|j: int| 0 <= j <= i implies rounds_hist(
                    h0,
                    old_polys.push(round_message),
                    j,
                ) == rounds_hist(h0, old_polys, j) by {
                    lemma_rounds_hist_push(h0, old_polys, round_message, j);
                }
                states = states.push(*polynomial);
            }
            round_polynomials.push(round_message);
            challenges.push(challenge);
            i = i + 1;
        }
        proof {
            assert(honest_trace(
                *old(polynomial),
                states,
                round_polynomials@,
                challenges@,
                *polynomial,
            ));
        }
        SumCheckProof::new(claimed_sum, round_polynomials, challenges)
    }

    /// Verifies a proof: commits the polynomial and the claimed sum,
    /// replays the rounds, and performs the final oracle check. Returns
    /// `true` exactly when every check passes.
    pub fn verify<T: Sumcheckable>(
        polynomial: &T,
        proof: &SumCheckProof,
        transcript: &mut Transcript,
    ) -> (r: bool)
        requires
            polynomial.sc_wf(),
            polynomial.sc_eval_ok(),
            proof.claimed_sum.wf(),
            forall|i: int|
                0 <= i < proof.round_polynomials@.len() ==> all_wf(
                    (#[trigger] proof.round_polynomials@[i])@,
                ),
        ensures
            r == sumcheck_accepts(polynomial, proof, old(transcript).history()),
            ({
                let h1 = old(transcript).history() + polynomial.sc_commit_enc() + enc_ext(
                    proof.claimed_sum@,
                );
                rounds_ok(proof.claimed_sum@, h1, proof.round_polynomials@)
                    ==> final(transcript).history() == rounds_hist(
                    h1,
                    proof.round_polynomials@,
                    proof.round_polynomials@.len() as int,
                )
            }),
    {
        polynomial.commit(transcript);
        let c = vec![proof.claimed_sum.to_extension_field()];
        transcript.observe_ext_element(c.as_slice());
        proof {
            assert(crate::transcript::enc_ext_seq(Seq::<ExtElem>::empty())
                =~= Seq::<int>::empty());
            assert(c@.drop_last() =~= Seq::<ExtElem>::empty());
            assert(crate::transcript::enc_ext_seq(c@) =~= enc_ext(proof.claimed_sum@));
        }
        let partial = Self::verify_partial(proof, transcript);
        match partial {
            None => false,
            Some((claimed, challenges)) => {
                let rounds = polynomial.no_of_rounds();
                if challenges.len() != rounds {
                    return false;
                }
                let oracle = polynomial.eval(challenges.as_slice());
                proof {
                    assert(vals(challenges@) =~= round_challenges(
                        old(transcript).history() + polynomial.sc_commit_enc() + enc_ext(
                            proof.claimed_sum@,
                        ),
                        proof.round_polynomials@,
                    ));
                }
                let a = claimed.to_extension_field();
                let b = oracle.to_extension_field();
                a == b
            },
        }
    }

    /// Replays the rounds of a proof against the transcript: checks each
    /// round polynomial's consistency with the running expectation, and
    /// returns the final expectation with the sampled challenges — or
    /// nothing, as soon as one round check fails.
    pub fn verify_partial(proof: &SumCheckProof, transcript: &mut Transcript) -> (r: Option<
        (Fields, Vec<Fields>),
    >)
        requires
            proof.claimed_sum.wf(),
            forall|i: int|
                0 <= i < proof.round_polynomials@.len() ==> all_wf(
                    (#[trigger] proof.round_polynomials@[i])@,
                ),
        ensures
            ({
                let s0 = proof.claimed_sum@;
                let h0 = old(transcript).history();
                let polys = proof.round_polynomials@;
                match r {
                    Some(pair) => {
                        &&& rounds_ok(s0, h0, polys)
                        &&& pair.0.wf()
                        &&& !pair.0.is_base()
                        &&& pair.0@ == expected_at(s0, h0, polys, polys.len() as int)
                        &&& pair.1@.len() == polys.len()
                        &&& all_wf(pair.1@)
                        &&& forall|i: int|
                            0 <= i < polys.len() ==> !(#[trigger] pair.1@[i]).is_base()
                                && pair.1@[i]@ == round_challenge(h0, polys, i)
                        &&& final(transcript).history() == rounds_hist(
                            h0,
                            polys,
                            polys.len() as int,
                        )
                    },
                    None => !rounds_ok(s0, h0, polys),
                }
            }),
    {
        let ghost s0 = proof.claimed_sum@;
        let ghost h0 = transcript.history();
        let ghost polys = proof.round_polynomials@;
        let mut expected = proof.claimed_sum.to_extension_field();
        let mut challenges: Vec<Fields> = Vec::new();
        let n = proof.round_polynomials.len();
        let mut i: usize = 0;
        while i < n
            invariant
                0 <= i <= n,
                n == polys.len(),
                s0 == proof.claimed_sum@,
                h0 == old(transcript).history(),
                polys == proof.round_polynomials@,
                proof.claimed_sum.wf(),
                forall|j: int| 0 <= j < polys.len() ==> all_wf((#[trigger] polys[j])@),
                expected.wf(),
                expected@ == expected_at(s0, h0, polys, i as int),
                challenges@.len() == i,
                all_wf(challenges@),
                transcript.history() == rounds_hist(h0, polys, i as int),
                forall|j: int|
                    0 <= j < i ==> !(#[trigger] challenges@[j]).is_base() && challenges@[j]@
                        == round_challenge(h0, polys, j),
                forall|j: int|
                    0 <= j < i ==> {
                        let m = vals((#[trigger] polys[j])@);
                        m.len() >= 2 && m.len() <= P && ev_add(m[0], m[1]) == expected_at(
                            s0,
                            h0,
                            polys,
                            j,
                        )
                    },
            decreases n - i,
        {
            let round_poly = &proof.round_polynomials[i];
            if round_poly.len() < 2 || round_poly.len() > (P as usize) {
                return None;
            }
            let m0 = round_poly[0].to_extension_field();
            let m1 = round_poly[1].to_extension_field();
            let sum = m0.add(m1);
            if sum != expected {
                proof {
                    assert(ev_add(vals(polys[i as int]@)[0], vals(polys[i as int]@)[1])
                        != expected_at(s0, h0, polys, i as int));
                }
                return None;
            }
            let mut ext_msg: Vec<ExtElem> = Vec::new();
            let mut k: usize = 0;
            while k < round_poly.len()
                invariant
                    0 <= k <= round_poly@.len(),
                    all_wf(round_poly@),
                    ext_msg@.len() == k,
                    forall|t: int|
                        0 <= t < k ==> #[trigger] ext_msg@[t]@ == round_poly@[t]@,
                decreases round_poly@.len() - k,
            {
                ext_msg.push(round_poly[k].to_extension_field());
                k = k + 1;
            }
            transcript.observe_ext_element(ext_msg.as_slice());
            proof {
                lemma_enc_ext_seq_vals(ext_msg@);
                assert(ext_msg@.map_values(|e: ExtElem| e@) =~= vals(polys[i as int]@));
            }
            let sampled = transcript.sample_challenge();
            let challenge = Fields::Extension(sampled);
            let next = barycentric_evaluation(round_poly.as_slice(), &challenge);
            expected = next.to_extension_field();
            challenges.push(challenge);
            i = i + 1;
        }
        Some((Fields::Extension(expected), challenges))
    }
}

} // verus!
