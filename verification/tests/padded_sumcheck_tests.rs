use std::rc::Rc;
use sumcheck::{
    CombineExpr, Fields, MultilinearPoly, PaddedPoly, PaddedSumcheck, SumCheck, Sumcheckable,
    Transcript, VPoly,
};

fn to_fields(vals: Vec<u64>) -> Vec<Fields> {
    vals.into_iter().map(Fields::base_from_u64).collect()
}

fn f_abc() -> MultilinearPoly {
    // f(a, b, c) = 2ab + 3bc
    MultilinearPoly::new_from_vec(3, to_fields(vec![0, 0, 0, 3, 0, 0, 2, 5]))
}

fn prod_combined_fn() -> Rc<CombineExpr> {
    Rc::new(CombineExpr::Product(
        Box::new(CombineExpr::Var(0)),
        Box::new(CombineExpr::Var(1)),
    ))
}

#[test]
fn test_padded_sumcheck_eval() {
    let poly = f_abc();
    let padded_poly = PaddedSumcheck::new(poly, 2);
    assert_eq!(padded_poly.no_of_rounds(), 5);
    assert_eq!(
        padded_poly.eval(&to_fields(vec![4, 3, 2, 5, 0])),
        Fields::ext_from_u64(0)
    );

    assert_eq!(
        // a = 3, b = 4, c = 2
        // (2ab + 3bc) * d * e
        // (2 * 3 * 4 + 3 * 4 * 2) * 3 * 4
        // (24 + 24) * 12 = 48 * 12 = 576
        padded_poly.eval(&to_fields(vec![3, 4, 2, 3, 4])),
        Fields::ext_from_u64(576)
    )
}

#[test]
fn test_multilinear_poly_padded_sumcheck() {
    let poly = f_abc();

    let claimed_sum = poly.sum_over_hypercube();
    let padded_poly = PaddedSumcheck::new(poly, 4);
    assert_eq!(padded_poly.no_of_rounds(), 7);

    let mut prover_transcript = Transcript::init();
    let proof = SumCheck::prove(claimed_sum, padded_poly.clone(), &mut prover_transcript);

    let mut verify_transcript = Transcript::init();
    let verification_result = SumCheck::verify(&padded_poly, &proof, &mut verify_transcript);

    assert!(verification_result);
}

#[test]
fn test_v_poly_padded_sumcheck() {
    // g(a, b, c) = f(a, b, c) * f(a, b, c)
    let poly = VPoly::new(vec![f_abc(), f_abc()], 2, 3, prod_combined_fn());
    // f(a, b, c) = 2ab + 3bc
    // f(1, 2, 3) = 2(1)(2) + 3(2)(3) = 4 + 18 = 22
    assert_eq!(
        poly.eval(&to_fields(vec![1, 2, 3])),
        Fields::ext_from_u64(484)
    );

    let claimed_sum = poly.sum_over_hypercube();
    let padded_poly = PaddedSumcheck::new(poly, 10);
    assert_eq!(padded_poly.no_of_rounds(), 13);

    let mut prover_transcript = Transcript::init();
    let proof = SumCheck::prove(claimed_sum, padded_poly.clone(), &mut prover_transcript);

    // ensure that the round poly takes into account the variable degree
    assert_eq!(proof.round_polynomials[0].len(), 3);

    let mut verify_transcript = Transcript::init();
    let verification_result = SumCheck::verify(&padded_poly, &proof, &mut verify_transcript);

    assert!(verification_result);
}

#[test]
fn test_padded_poly_eval() {
    let p = f_abc();
    let padded = PaddedPoly::new(p, 2);
    assert_eq!(padded.num_vars(), 5);
    assert_eq!(
        padded.eval(&to_fields(vec![3, 4, 2, 3, 4])),
        Fields::ext_from_u64(576)
    );
    assert_eq!(
        padded.eval(&to_fields(vec![4, 3, 2, 5, 0])),
        Fields::ext_from_u64(0)
    );
}
