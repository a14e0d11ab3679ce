use sumcheck::{barycentric_evaluation, generate_eq, product_poly, Fields, MultilinearPoly};

#[test]
fn test_barycentric_evaluation() {
    // Polynomial in question: x + 2
    let poly: Vec<Fields> = [2u64, 3].into_iter().map(Fields::base_from_u64).collect();
    let res = barycentric_evaluation(&poly, &Fields::base_from_u64(5));
    assert_eq!(res, Fields::ext_from_u64(7));

    // Polynomial in question: 5x^2 + 3x + 2
    let poly: Vec<Fields> = [2u64, 10, 28, 56, 94]
        .into_iter()
        .map(Fields::base_from_u64)
        .collect();
    let res = barycentric_evaluation(&poly, &Fields::base_from_u64(5));
    assert_eq!(res, Fields::ext_from_u64(142));
}

#[test]
fn test_barycentric_evaluation_on_grid() {
    // On an interpolation node, the stored value comes back.
    let poly: Vec<Fields> = [2u64, 10, 28, 56, 94]
        .into_iter()
        .map(Fields::base_from_u64)
        .collect();
    let res = barycentric_evaluation(&poly, &Fields::base_from_u64(3));
    assert_eq!(res, Fields::ext_from_u64(56));
}

#[test]
fn test_generate_eq() {
    // eq over the single point r = 2: [1 - 2, 2] = [P - 1, 2].
    let table = generate_eq(&[Fields::base_from_u64(2)]);
    assert_eq!(table.len(), 2);
    assert_eq!(table[0], Fields::ext_from_u64(0x7fff_fffe));
    assert_eq!(table[1], Fields::ext_from_u64(2));

    // eq over a Boolean point is the indicator of that point.
    let table = generate_eq(&[Fields::base_from_u64(1), Fields::base_from_u64(0)]);
    assert_eq!(
        table,
        vec![
            Fields::ext_from_u64(0),
            Fields::ext_from_u64(0),
            Fields::ext_from_u64(1),
            Fields::ext_from_u64(0),
        ]
    );
}

#[test]
fn test_product_poly() {
    let f_abc = || {
        MultilinearPoly::new_from_vec(
            3,
            vec![0u64, 0, 0, 3, 0, 0, 2, 5]
                .into_iter()
                .map(Fields::base_from_u64)
                .collect(),
        )
    };
    let vpoly = product_poly(vec![f_abc(), f_abc()]);
    assert_eq!(vpoly.max_degree(), 2);
    assert_eq!(vpoly.num_vars(), 3);
    let points = vec![
        Fields::base_from_u64(1),
        Fields::base_from_u64(2),
        Fields::base_from_u64(3),
    ];
    assert_eq!(vpoly.evaluate(&points), Fields::ext_from_u64(484));
}
