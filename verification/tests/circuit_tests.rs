use rand::rngs::StdRng;
use rand::{RngExt, SeedableRng};
use sumcheck::{
    CircuitTr, Fields, Gate, GateOp, Layer, LayeredCircuit, LayeredCircuitTr,
};

fn generate_input(raw_input: &[u32], is_ext_field: bool) -> Vec<Fields> {
    raw_input
        .iter()
        .map(|e| {
            if is_ext_field {
                Fields::ext_from_u64(*e as u64)
            } else {
                Fields::base_from_u64(*e as u64)
            }
        })
        .collect()
}

// Helper function to create a simple test circuit
fn create_test_circuit() -> LayeredCircuit {
    // Create a 3-layer circuit:
    // Layer 1: 2 ADD gates, 2 MUL gates
    // Layer 2: 1 MUL gate, 1 ADD gate
    // Layer 3: 1 MUL
    let layer1 = Layer::new(vec![
        Gate::new(GateOp::Mul, [0, 1]),
        Gate::new(GateOp::Add, [2, 3]),
        Gate::new(GateOp::Add, [4, 5]),
        Gate::new(GateOp::Mul, [6, 7]),
    ]);
    let layer2 = Layer::new(vec![
        Gate::new(GateOp::Mul, [0, 1]),
        Gate::new(GateOp::Add, [2, 3]),
    ]);
    let layer3 = Layer::new(vec![Gate::new(GateOp::Mul, [0, 1])]);

    LayeredCircuit::new(vec![layer1, layer2, layer3])
}

#[test]
fn test_circuit_exec_base() {
    let circuit = create_test_circuit();
    let input = generate_input(&[1, 2, 3, 2, 1, 2, 4, 1], false);
    let trace = circuit.excecute(&input);
    let out = &trace.layers[trace.layers.len() - 1];

    assert_eq!(out[0], Fields::base_from_u64(70))
}

#[test]
fn test_circuit_exec_ext() {
    let circuit = create_test_circuit();
    let input = generate_input(&[1, 2, 3, 2, 1, 2, 4, 1], true);
    let trace = circuit.excecute(&input);
    let out = &trace.layers[trace.layers.len() - 1];

    assert_eq!(out[0], Fields::ext_from_u64(70))
}

#[test]
fn test_add_and_mul_mle() {
    // RECALL: this tree is kinda upside-down
    let layer_1 = Layer::new(vec![
        Gate::new(GateOp::Add, [0, 1]),
        Gate::new(GateOp::Mul, [2, 3]),
        Gate::new(GateOp::Mul, [4, 5]),
        Gate::new(GateOp::Mul, [6, 7]),
    ]);
    let layer_2 = Layer::new(vec![
        Gate::new(GateOp::Add, [0, 1]),
        Gate::new(GateOp::Mul, [2, 3]),
    ]);

    let layer_3 = Layer::new(vec![Gate::new(GateOp::Add, [0, 1])]);

    let circuit = LayeredCircuit::new(vec![layer_1, layer_2, layer_3]);

    let (add_mle, mul_mle) = circuit.add_and_mul_mle(circuit.layers.len() - 1);

    let is_zero = mul_mle
        .evaluations
        .iter()
        .all(|x| *x == Fields::base_from_u64(0));
    assert!(is_zero);
    let is_zero = add_mle
        .evaluations
        .iter()
        .all(|x| *x == Fields::base_from_u64(0));
    assert!(!is_zero);

    assert_eq!(
        add_mle.evaluate(&[
            Fields::base_from_u64(0),
            Fields::base_from_u64(0),
            Fields::base_from_u64(1)
        ]),
        Fields::ext_from_u64(1)
    );

    assert_eq!(
        add_mle.evaluate(&[
            Fields::base_from_u64(0),
            Fields::base_from_u64(0),
            Fields::base_from_u64(0)
        ]),
        Fields::ext_from_u64(0)
    );

    assert_eq!(
        add_mle.evaluate(&[
            Fields::base_from_u64(1),
            Fields::base_from_u64(0),
            Fields::base_from_u64(0)
        ]),
        Fields::ext_from_u64(0)
    );
    assert_eq!(
        add_mle.evaluate(&[
            Fields::base_from_u64(1),
            Fields::base_from_u64(0),
            Fields::base_from_u64(1)
        ]),
        Fields::ext_from_u64(0)
    );

    assert_eq!(
        add_mle.evaluate(&[
            Fields::base_from_u64(1),
            Fields::base_from_u64(1),
            Fields::base_from_u64(1)
        ]),
        Fields::ext_from_u64(0)
    );
}

#[test]
fn test_add_and_mul_mle_layer_1() {
    // Create layers from bottom up (with layer 1 being the input layer)
    let layer_1 = Layer::new(vec![
        Gate::new(GateOp::Add, [0, 1]),
        Gate::new(GateOp::Mul, [2, 3]),
        Gate::new(GateOp::Mul, [4, 5]),
        Gate::new(GateOp::Mul, [6, 7]),
    ]);
    let layer_2 = Layer::new(vec![
        Gate::new(GateOp::Add, [0, 1]),
        Gate::new(GateOp::Mul, [2, 3]),
    ]);
    let layer_3 = Layer::new(vec![Gate::new(GateOp::Add, [0, 1])]);

    let circuit = LayeredCircuit::new(vec![layer_1, layer_2, layer_3]);

    // Test the selector extensions for the middle layer (layer_2)
    let layer_index = 1;

    let (add_mle, mul_mle) = circuit.add_and_mul_mle(layer_index);

    // There is one mul gate in the layer, the mul mle should be non-zero
    assert!(mul_mle
        .evaluations
        .iter()
        .any(|&x| x != Fields::base_from_u64(0)));

    // There is one add gate in the layer, the add mle should be non-zero
    assert!(add_mle
        .evaluations
        .iter()
        .any(|&x| x != Fields::base_from_u64(0)));

    // This should be the number of variables for the MLE (1 + 2 + 2 = 5 here)
    let expected_num_vars = 5;
    assert_eq!(add_mle.num_vars(), expected_num_vars);
    assert_eq!(mul_mle.num_vars(), expected_num_vars);

    // Evaluating the add mle at the correct binary combination should give a one
    // For the add gate [0,0,0,0,1]
    assert_eq!(
        add_mle.evaluate(&[
            Fields::base_from_u64(0),
            Fields::base_from_u64(0),
            Fields::base_from_u64(0),
            Fields::base_from_u64(0),
            Fields::base_from_u64(1)
        ]),
        Fields::ext_from_u64(1)
    );

    // Evaluating the mul mle at the correct binary combination should give a one
    // For the mul gate [1,1,0,1,1]
    assert_eq!(
        mul_mle.evaluate(&[
            Fields::base_from_u64(1),
            Fields::base_from_u64(1),
            Fields::base_from_u64(0),
            Fields::base_from_u64(1),
            Fields::base_from_u64(1)
        ]),
        Fields::ext_from_u64(1)
    );

    // Testing evaluations that should give zero for mul_mle
    let test_vectors_mul = vec![
        vec![1, 0, 0, 1, 1],
        vec![0, 1, 0, 1, 0],
        vec![0, 0, 0, 1, 1],
        vec![1, 1, 1, 1, 1],
    ];

    for test_vec in test_vectors_mul {
        let field_vec = test_vec
            .iter()
            .map(|&x: &u64| Fields::base_from_u64(x))
            .collect::<Vec<_>>();

        assert_eq!(mul_mle.evaluate(&field_vec), Fields::ext_from_u64(0));
    }

    // Testing evaluations that should give zero for add_mle
    let test_vectors_add = vec![
        vec![1, 0, 0, 1, 1],
        vec![0, 1, 0, 1, 0],
        vec![0, 0, 0, 1, 1],
        vec![1, 1, 1, 1, 1],
    ];

    for test_vec in test_vectors_add {
        let field_vec = test_vec
            .iter()
            .map(|&x: &u64| Fields::base_from_u64(x))
            .collect::<Vec<_>>();

        assert_eq!(add_mle.evaluate(&field_vec), Fields::ext_from_u64(0));
    }
}

#[test]
fn test_add_mul_mle_libra() {
    let circuit = LayeredCircuit::new(vec![
        Layer::new(vec![
            Gate::new(GateOp::Mul, [0, 1]),
            Gate::new(GateOp::Add, [2, 3]),
            Gate::new(GateOp::Add, [4, 5]),
            Gate::new(GateOp::Mul, [6, 7]),
        ]),
        Layer::new(vec![
            Gate::new(GateOp::Mul, [0, 1]),
            Gate::new(GateOp::Add, [2, 3]),
        ]),
        Layer::new(vec![Gate::new(GateOp::Mul, [0, 1])]),
    ]);

    let input = [1u64, 2, 3, 2, 1, 2, 4, 1]
        .into_iter()
        .map(Fields::base_from_u64)
        .collect::<Vec<Fields>>();
    let output = circuit.excecute(&input);
    assert_eq!(output.layers[3], vec![Fields::base_from_u64(70)]);

    let (add_mle, mul_mle) = circuit.libra_add_and_mul_mle(0);

    assert_eq!(add_mle, vec![(1, 2, 3), (2, 4, 5)]);
    assert_eq!(mul_mle, vec![(0, 0, 1), (3, 6, 7)]);
}

#[test]
fn test_random_circuit_generation() {
    // Test the deterministic generator
    let det_circuit = LayeredCircuit::random(3);

    // Check the structure of the deterministic circuit
    assert_eq!(det_circuit.layers.len(), 3);
    assert_eq!(det_circuit.layers[0].gates.len(), 4);
    assert_eq!(det_circuit.layers[1].gates.len(), 2);
    assert_eq!(det_circuit.layers[2].gates.len(), 1);

    // Check gate types for the deterministic circuit
    assert!(matches!(det_circuit.layers[1].gates[0].op, GateOp::Mul));
    assert!(matches!(det_circuit.layers[0].gates[0].op, GateOp::Add));

    // Test the sample-driven construction with a fixed seed for
    // reproducibility
    let seed = [42u8; 32];
    let mut rng = StdRng::from_seed(seed);
    let mut samples: Vec<(usize, usize, bool)> = Vec::new();
    for layer_index in 0..3 {
        let number_of_gates = 1usize << layer_index;
        let number_of_inputs = 1usize << (layer_index + 1);
        for _ in 0..number_of_gates {
            let input_1 = rng.random_range(0..number_of_inputs);
            let input_2 = rng.random_range(0..number_of_inputs);
            samples.push((input_1, input_2, rng.random_bool(0.5)));
        }
    }
    let rng_circuit = LayeredCircuit::random_from_samples(3, &samples);

    // Check the structure of the sampled circuit
    assert_eq!(rng_circuit.layers.len(), 3);
    assert_eq!(rng_circuit.layers[0].gates.len(), 4);
    assert_eq!(rng_circuit.layers[1].gates.len(), 2);
    assert_eq!(rng_circuit.layers[2].gates.len(), 1);

    // Gate types are random, so we don't check them specifically
}
