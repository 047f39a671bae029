use digit_net::layer::{apply_gradients, feed_forwards};
use digit_net::matrix::{Matrix, MatrixError};
use digit_net::network::{learn, train};
use digit_net::training::{arg_max, count_hits};

fn m(rows: Vec<Vec<f64>>) -> Matrix<f64> {
    Matrix::from(rows).unwrap()
}

fn sigmoid(x: f64) -> f64 {
    1.0 / (1.0 + (-x).exp())
}

fn sigmoid_derivative(x: f64) -> f64 {
    sigmoid(x) * (1.0 - sigmoid(x))
}

fn learn_f64(
    weights: &mut Vec<Matrix<f64>>,
    biases: &mut Vec<Matrix<f64>>,
    inputs: &Vec<Vec<f64>>,
    targets: &Vec<Vec<f64>>,
    rate: f64,
    activation: fn(f64) -> f64,
    derivative: fn(f64) -> f64,
) -> Result<(), MatrixError> {
    learn(
        weights,
        biases,
        inputs,
        targets,
        rate,
        0.0,
        |a: f64, b: f64| a * b,
        |a: f64, b: f64| a + b,
        |a: f64, b: f64| a - b,
        activation,
        derivative,
        |output: f64, target: f64| 2.0 * (output - target),
    )
}

fn identity(x: f64) -> f64 {
    x
}

fn one(_: f64) -> f64 {
    1.0
}

#[test]
fn gradients_are_applied_scaled() {
    let mut w = m(vec![vec![1.0, 2.0], vec![3.0, 4.0]]);
    let mut b = m(vec![vec![0.5], vec![-0.5]]);
    let gw = m(vec![vec![2.0, 0.0], vec![-4.0, 8.0]]);
    let gb = m(vec![vec![1.0], vec![1.0]]);
    apply_gradients(&mut w, &mut b, &gw, &gb, 0.5, |a: f64, b: f64| a * b, |a: f64, b: f64| a - b);
    assert_eq!(w.data, vec![vec![0.0, 2.0], vec![5.0, 0.0]]);
    assert_eq!(b.data, vec![vec![0.0], vec![-1.0]]);
}

#[test]
fn learn_one_layer_exact_step() {
    let mut weights = vec![m(vec![vec![1.0]])];
    let mut biases = vec![m(vec![vec![0.0]])];
    let inputs = vec![vec![2.0], vec![2.0]];
    let targets = vec![vec![0.0], vec![0.0]];
    learn_f64(&mut weights, &mut biases, &inputs, &targets, 0.25, identity, one).unwrap();
    // each sample: output 2, node value 2 * (2 - 0) = 4, weight gradient 8, bias gradient 4
    assert_eq!(weights[0].data, vec![vec![1.0 - 16.0 * 0.25]]);
    assert_eq!(biases[0].data, vec![vec![0.0 - 8.0 * 0.25]]);
}

#[test]
fn learn_two_layers_reaches_the_first() {
    let mut weights = vec![m(vec![vec![1.0]]), m(vec![vec![2.0]])];
    let mut biases = vec![m(vec![vec![0.0]]), m(vec![vec![0.0]])];
    learn_f64(&mut weights, &mut biases, &vec![vec![1.0]], &vec![vec![0.0]], 1.0, identity, one).unwrap();
    // forward: 1 -> 1 -> 2; output node 2 * 2 = 4; hidden node 2 * 4 = 8
    assert_eq!(weights[1].data, vec![vec![2.0 - 4.0]]);
    assert_eq!(biases[1].data, vec![vec![-4.0]]);
    assert_eq!(weights[0].data, vec![vec![1.0 - 8.0]]);
    assert_eq!(biases[0].data, vec![vec![-8.0]]);
}

#[test]
fn learn_rejects_a_batch_that_does_not_fit() {
    let mut weights = vec![m(vec![vec![1.0, 1.0]])];
    let mut biases = vec![m(vec![vec![0.0]])];
    let before = (weights[0].data.clone(), biases[0].data.clone());
    let good = vec![vec![1.0, 2.0]];
    assert_eq!(
        learn_f64(&mut weights, &mut biases, &good, &vec![vec![0.0, 1.0]], 1.0, identity, one).err(),
        Some(MatrixError::ShapeMismatch)
    );
    assert_eq!(
        learn_f64(&mut weights, &mut biases, &vec![vec![1.0]], &vec![vec![0.0]], 1.0, identity, one).err(),
        Some(MatrixError::ShapeMismatch)
    );
    assert_eq!(
        learn_f64(&mut weights, &mut biases, &good, &vec![], 1.0, identity, one).err(),
        Some(MatrixError::ShapeMismatch)
    );
    let mut no_layers: Vec<Matrix<f64>> = vec![];
    let mut no_biases: Vec<Matrix<f64>> = vec![];
    assert_eq!(
        learn_f64(&mut no_layers, &mut no_biases, &good, &vec![vec![0.0]], 1.0, identity, one).err(),
        Some(MatrixError::ShapeMismatch)
    );
    assert_eq!((weights[0].data.clone(), biases[0].data.clone()), before);
}

#[test]
fn full_batch_training_separates_a_tiny_dataset() {
    let inputs = vec![vec![0.0, 0.1], vec![0.2, 0.0], vec![1.0, 0.9], vec![0.8, 1.0]];
    let targets = vec![vec![1.0, 0.0], vec![1.0, 0.0], vec![0.0, 1.0], vec![0.0, 1.0]];
    let mut weights = vec![m(vec![vec![0.3, -0.2], vec![-0.1, 0.4]]), m(vec![vec![0.5, -0.5], vec![-0.3, 0.2]])];
    let mut biases = vec![m(vec![vec![0.1], vec![-0.1]]), m(vec![vec![0.0], vec![0.05]])];
    for _ in 0..3000 {
        learn_f64(&mut weights, &mut biases, &inputs, &targets, 1.0 / 4.0, sigmoid, sigmoid_derivative).unwrap();
    }
    let mut predicted = Vec::new();
    for x in &inputs {
        let passes = feed_forwards(
            &weights,
            &biases,
            x,
            0.0,
            |a: f64, b: f64| a * b,
            |a: f64, b: f64| a + b,
            sigmoid,
        )
        .unwrap();
        predicted.push(arg_max(&passes[1].outputs, |a: f64, b: f64| a > b));
    }
    let hits = count_hits(&predicted, &targets, |t: f64| t == 1.0);
    assert_eq!(hits as f64 / inputs.len() as f64, 1.0);
}

#[test]
fn train_repeats_full_batch_steps() {
    let mut weights = vec![m(vec![vec![1.0]])];
    let mut biases = vec![m(vec![vec![0.0]])];
    let times = |a: f64, b: f64| a * b;
    let plus = |a: f64, b: f64| a + b;
    let minus = |a: f64, b: f64| a - b;
    let cost = |o: f64, t: f64| 2.0 * (o - t);
    train(&mut weights, &mut biases, &vec![vec![1.0]], &vec![vec![0.0]], 2, 0.25, 0.0, times, plus, minus, identity, one, cost)
        .unwrap();
    // step 1: output 1, node 2, w = 1 - 0.5, b = -0.5; step 2: output 0, node 0
    assert_eq!(weights[0].data, vec![vec![0.5]]);
    assert_eq!(biases[0].data, vec![vec![-0.5]]);
    assert!(train(&mut weights, &mut biases, &vec![vec![1.0, 2.0]], &vec![vec![0.0]], 0, 0.25, 0.0, times, plus, minus, identity, one, cost).is_ok());
    assert_eq!(
        train(&mut weights, &mut biases, &vec![vec![1.0, 2.0]], &vec![vec![0.0]], 3, 0.25, 0.0, times, plus, minus, identity, one, cost).err(),
        Some(MatrixError::ShapeMismatch)
    );
    assert_eq!(weights[0].data, vec![vec![0.5]]);
}
