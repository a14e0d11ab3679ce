use sumcheck::{Fields, MultilinearPoly};

fn f_abc() -> MultilinearPoly {
    MultilinearPoly::new_from_vec(
        3,
        vec![0, 0, 0, 3, 0, 0, 2, 5]
            .into_iter()
            .map(Fields::base_from_u64)
            .collect(),
    )
}

#[test]
fn test_mle_from_vec() {
    let _ = f_abc();
}

#[test]
fn mle_test_partial_evaluation() {
    let poly = f_abc();
    let f_a = poly.partial_evaluate(&[Fields::base_from_u64(2), Fields::base_from_u64(3)]);
    assert_eq!(f_a.evaluations.len(), 2);
    assert_eq!(
        f_a.evaluations,
        vec![Fields::ext_from_u64(12), Fields::ext_from_u64(21)]
    );
}

#[test]
fn test_full_evaluation() {
    let poly = f_abc();
    let evaluation = poly.evaluate(&[
        Fields::base_from_u64(2),
        Fields::base_from_u64(3),
        Fields::base_from_u64(4),
    ]);
    assert_eq!(evaluation, Fields::ext_from_u64(48));
}

#[test]
fn mle_test_sum_over_boolean_hypercube() {
    let poly = f_abc();
    assert_eq!(poly.sum_over_hypercube(), Fields::ext_from_u64(10));
}

#[test]
fn test_zero_poly() {
    let z = MultilinearPoly::zero(2);
    assert_eq!(z.evaluations.len(), 4);
    assert_eq!(z.sum_over_hypercube(), Fields::ext_from_u64(0));
    assert_eq!(
        z.evaluate(&[Fields::base_from_u64(7), Fields::base_from_u64(9)]),
        Fields::ext_from_u64(0)
    );
}

#[test]
fn test_evaluate_on_hypercube_matches_table() {
    // The stored table entry at (a, b, c) sits at index 4a + 2b + c.
    let poly = f_abc();
    for i in 0..8u64 {
        let a = (i >> 2) & 1;
        let b = (i >> 1) & 1;
        let c = i & 1;
        let v = poly.evaluate(&[
            Fields::base_from_u64(a),
            Fields::base_from_u64(b),
            Fields::base_from_u64(c),
        ]);
        let table = [0u64, 0, 0, 3, 0, 0, 2, 5];
        assert_eq!(v, Fields::ext_from_u64(table[i as usize]));
    }
}
