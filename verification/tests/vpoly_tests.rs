use std::rc::Rc;
use sumcheck::{CombineExpr, Fields, MultilinearPoly, VPoly};

fn f_abc() -> MultilinearPoly {
    // f(a,b,c) = 2ab + 3bc
    MultilinearPoly::new_from_vec(
        3,
        vec![0, 0, 0, 3, 0, 0, 2, 5]
            .into_iter()
            .map(Fields::base_from_u64)
            .collect(),
    )
}

/// values[0] * values[1]
fn prod_combined_fn() -> Rc<CombineExpr> {
    Rc::new(CombineExpr::Product(
        Box::new(CombineExpr::Var(0)),
        Box::new(CombineExpr::Var(1)),
    ))
}

/// values[0] * values[1] * 2 + values[2]
fn combined_fn_1() -> Rc<CombineExpr> {
    Rc::new(CombineExpr::Sum(
        Box::new(CombineExpr::Product(
            Box::new(CombineExpr::Product(
                Box::new(CombineExpr::Var(0)),
                Box::new(CombineExpr::Var(1)),
            )),
            Box::new(CombineExpr::Scalar(Fields::base_from_u64(2))),
        )),
        Box::new(CombineExpr::Var(2)),
    ))
}

#[test]
fn test_meta_data_test() {
    let mles = vec![f_abc(), f_abc()];
    let vpoly = VPoly::new(mles, 1, 3, prod_combined_fn());

    assert_eq!(vpoly.num_vars(), 3);
    assert_eq!(vpoly.max_degree(), 1);
    assert_eq!(vpoly.num_mles(), 2);
}

#[test]
fn vpoly_test_partial_evaluation() {
    let mles = vec![f_abc(), f_abc()];
    let vpoly = VPoly::new(mles, 1, 3, prod_combined_fn());

    let point = vec![Fields::base_from_u64(4)];
    let expected_mles = vec![
        MultilinearPoly::new_from_vec(
            2,
            vec![0, 0, 8, 11].into_iter().map(Fields::ext_from_u64).collect(),
        ),
        MultilinearPoly::new_from_vec(
            2,
            vec![0, 0, 8, 11].into_iter().map(Fields::ext_from_u64).collect(),
        ),
    ];
    assert_eq!(vpoly.partial_evaluate(&point).mles(), expected_mles);
}

#[test]
fn test_eval() {
    let mles = vec![f_abc(), f_abc()];
    let vpoly = VPoly::new(mles, 2, 3, prod_combined_fn());
    let points = vec![
        Fields::base_from_u64(1),
        Fields::base_from_u64(2),
        Fields::base_from_u64(3),
    ];
    let expected = Fields::ext_from_u64(22 * 22);
    assert_eq!(vpoly.evaluate(&points), expected);
}

#[test]
fn test_eval_1() {
    let mles = vec![f_abc(), f_abc(), f_abc()];
    let vpoly = VPoly::new(mles, 2, 3, combined_fn_1());
    let points = vec![
        Fields::base_from_u64(1),
        Fields::base_from_u64(2),
        Fields::base_from_u64(3),
    ];
    assert_eq!(vpoly.evaluate(&points), Fields::ext_from_u64(990));
}

#[test]
fn vpoly_test_sum_over_boolean_hypercube() {
    let mles = vec![f_abc(), f_abc(), f_abc()];
    let vpoly = VPoly::new(mles, 2, 3, combined_fn_1());
    assert_eq!(vpoly.sum_over_hypercube(), Fields::ext_from_u64(86));
}
