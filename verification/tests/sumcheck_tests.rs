use sumcheck::{Fields, MultilinearPoly, SumCheck, Transcript};

fn f_abc() -> MultilinearPoly {
    MultilinearPoly::new_from_vec(
        3,
        vec![0, 0, 0, 3, 0, 0, 2, 5]
            .into_iter()
            .map(Fields::base_from_u64)
            .collect(),
    )
}

#[test]
fn test_sumcheck() {
    let polynomial = f_abc();

    let claimed_sum = polynomial.sum_over_hypercube();
    let mut prover_transcript = Transcript::init();

    let proof = SumCheck::prove(claimed_sum, polynomial.clone(), &mut prover_transcript);

    let mut verify_transcript = Transcript::init();
    let verify = SumCheck::verify(&polynomial, &proof, &mut verify_transcript);

    assert!(verify);
}

#[test]
fn test_sumcheck_proof_shape() {
    // Three rounds of degree-one round polynomials, each given by two values.
    let polynomial = f_abc();
    let claimed_sum = polynomial.sum_over_hypercube();
    assert_eq!(claimed_sum, Fields::ext_from_u64(10));
    let mut prover_transcript = Transcript::init();
    let proof = SumCheck::prove(claimed_sum, polynomial, &mut prover_transcript);
    assert_eq!(proof.round_polynomials.len(), 3);
    for round in &proof.round_polynomials {
        assert_eq!(round.len(), 2);
    }
}

#[test]
fn test_sumcheck_rejects_tampered_round() {
    let polynomial = f_abc();
    let claimed_sum = polynomial.sum_over_hypercube();
    let mut prover_transcript = Transcript::init();
    let mut proof = SumCheck::prove(claimed_sum, polynomial.clone(), &mut prover_transcript);

    for i in 0..proof.round_polynomials.len() {
        for j in 0..proof.round_polynomials[i].len() {
            let saved = proof.round_polynomials[i][j];
            proof.round_polynomials[i][j] = Fields::ext_from_u64(123456);
            let mut verify_transcript = Transcript::init();
            assert!(!SumCheck::verify(&polynomial, &proof, &mut verify_transcript));
            proof.round_polynomials[i][j] = saved;
        }
    }
}

#[test]
fn test_sumcheck_rejects_wrong_claimed_sum() {
    let polynomial = f_abc();
    // The true hypercube sum is 10.
    let wrong = Fields::ext_from_u64(11);
    let mut prover_transcript = Transcript::init();
    let proof = SumCheck::prove(wrong, polynomial.clone(), &mut prover_transcript);
    let mut verify_transcript = Transcript::init();
    assert!(!SumCheck::verify(&polynomial, &proof, &mut verify_transcript));
}
