use digit_net::layer::{
    backward_node_values, compute_output, feed_forwards, get_hidden_layer_node_value,
    get_output_layer_node_value, update_gradients,
};
use digit_net::matrix::{Matrix, MatrixError};

fn sigmoid(x: f64) -> f64 {
    1.0 / (1.0 + (-x).exp())
}

#[test]
fn zero_layer_gives_activation_of_zero() {
    let weights = Matrix::filled(3, 2, 0.0f64);
    let biases = Matrix::filled(3, 1, 0.0f64);
    for inputs in [vec![5.0, -7.0], vec![0.0, 0.0], vec![255.0, 1e9]] {
        let f = compute_output(&weights, &biases, inputs, 0.0, |a: f64, b: f64| a * b, |a: f64, b: f64| a + b, sigmoid)
            .unwrap();
        assert_eq!(f.outputs, vec![sigmoid(0.0); 3]);
        assert_eq!(f.outputs[0], 0.5);
    }
}

#[test]
fn forward_pass_known_values() {
    let weights = Matrix::from(vec![vec![1.0, 2.0], vec![3.0, 4.0], vec![-1.0, 0.5]]).unwrap();
    let biases = Matrix::from(vec![vec![1.0], vec![-1.0], vec![0.0]]).unwrap();
    let f = compute_output(
        &weights,
        &biases,
        vec![1.0, 2.0],
        0.0,
        |a: f64, b: f64| a * b,
        |a: f64, b: f64| a + b,
        |x: f64| if x > 0.0 { x } else { 0.01 * x },
    )
    .unwrap();
    assert_eq!(f.weighted, vec![6.0, 10.0, 0.0]);
    assert_eq!(f.outputs, vec![6.0, 10.0, 0.0]);
}

#[test]
fn forward_pass_shape_errors() {
    let weights = Matrix::filled(2, 3, 1.0f64);
    let biases = Matrix::filled(2, 1, 0.0f64);
    let times = |a: f64, b: f64| a * b;
    let plus = |a: f64, b: f64| a + b;
    let id = |x: f64| x;
    assert_eq!(
        compute_output(&weights, &biases, vec![1.0, 2.0], 0.0, times, plus, id).err(),
        Some(MatrixError::ShapeMismatch)
    );
    let wide = Matrix::filled(2, 2, 0.0f64);
    assert_eq!(
        compute_output(&weights, &wide, vec![1.0, 2.0, 3.0], 0.0, times, plus, id).err(),
        Some(MatrixError::ShapeMismatch)
    );
    assert_eq!(
        compute_output(&weights, &biases, vec![1.0, 2.0, 3.0], 0.0, times, plus, id).unwrap().outputs,
        vec![6.0, 6.0]
    );
}

#[test]
fn gradients_accumulate_per_sample() {
    let mut gw = Matrix::filled(2, 3, 0.0f64);
    let mut gb = Matrix::filled(2, 1, 0.0f64);
    let inputs = vec![1.0, 2.0, 3.0];
    let nodes = vec![0.5, -1.0];
    update_gradients(&mut gw, &mut gb, &inputs, &nodes, |a: f64, b: f64| a * b, |a: f64, b: f64| a + b);
    assert_eq!(gw.data, vec![vec![0.5, 1.0, 1.5], vec![-1.0, -2.0, -3.0]]);
    assert_eq!(gb.data, vec![vec![0.5], vec![-1.0]]);
    update_gradients(&mut gw, &mut gb, &inputs, &nodes, |a: f64, b: f64| a * b, |a: f64, b: f64| a + b);
    assert_eq!(gw.data, vec![vec![1.0, 2.0, 3.0], vec![-2.0, -4.0, -6.0]]);
    assert_eq!(gb.data, vec![vec![1.0], vec![-2.0]]);
    assert_eq!((gw.rows, gw.cols, gb.rows, gb.cols), (2, 3, 2, 1));
}

#[test]
fn hidden_node_values_sum_over_outgoing_weights() {
    let next = Matrix::from(vec![vec![1.0, 2.0, 3.0], vec![4.0, 5.0, 6.0]]).unwrap();
    let times = |a: f64, b: f64| a * b;
    let plus = |a: f64, b: f64| a + b;
    let v = get_hidden_layer_node_value(&next, vec![1.0, 0.5], &vec![0.0, 1.0, 2.0], 0.0, times, plus, |x: f64| x + 1.0)
        .unwrap();
    assert_eq!(v, vec![3.0, 9.0, 18.0]);
    assert_eq!(
        get_hidden_layer_node_value(&next, vec![1.0], &vec![0.0, 1.0, 2.0], 0.0, times, plus, |x: f64| x).err(),
        Some(MatrixError::ShapeMismatch)
    );
    assert_eq!(
        get_hidden_layer_node_value(&next, vec![1.0, 0.5], &vec![0.0, 1.0], 0.0, times, plus, |x: f64| x).err(),
        Some(MatrixError::ShapeMismatch)
    );
}

#[test]
fn output_node_values_follow_the_squared_error() {
    let relu = |x: f64| if x > 0.0 { x } else { 0.01 * x };
    let relu_d = |x: f64| if x > 0.0 { 1.0 } else { 0.01 };
    let cost_d = |out: f64, target: f64| 2.0 * (out - target);
    let times = |a: f64, b: f64| a * b;
    let v = get_output_layer_node_value(&vec![2.0, -1.0], &vec![1.0, 0.0], relu, relu_d, cost_d, times).unwrap();
    assert_eq!(v, vec![2.0, 0.01 * (2.0 * -0.01)]);
    assert_eq!(
        get_output_layer_node_value(&vec![2.0, -1.0], &vec![1.0], relu, relu_d, cost_d, times).err(),
        Some(MatrixError::ShapeMismatch)
    );
}

#[test]
fn stack_forward_chains_layers() {
    let w0 = Matrix::from(vec![vec![1.0, 2.0], vec![0.0, -1.0]]).unwrap();
    let b0 = Matrix::from(vec![vec![0.5], vec![1.0]]).unwrap();
    let w1 = Matrix::from(vec![vec![2.0, 3.0]]).unwrap();
    let b1 = Matrix::from(vec![vec![-1.0]]).unwrap();
    let times = |a: f64, b: f64| a * b;
    let plus = |a: f64, b: f64| a + b;
    let relu = |x: f64| if x > 0.0 { x } else { 0.0 };
    let passes = feed_forwards(&vec![w0.clone(), w1.clone()], &vec![b0.clone(), b1.clone()], &vec![1.0, 1.0], 0.0, times, plus, relu)
        .unwrap();
    assert_eq!(passes.len(), 2);
    assert_eq!(passes[0].weighted, vec![3.5, 0.0]);
    assert_eq!(passes[0].outputs, vec![3.5, 0.0]);
    assert_eq!(passes[1].weighted, vec![6.0]);
    assert_eq!(passes[1].outputs, vec![6.0]);
    assert_eq!(
        feed_forwards(&vec![w0.clone(), w1.clone()], &vec![b0.clone(), b1.clone()], &vec![1.0], 0.0, times, plus, relu).err(),
        Some(MatrixError::ShapeMismatch)
    );
    assert_eq!(
        feed_forwards(&vec![w1.clone(), w0.clone()], &vec![b1.clone(), b0.clone()], &vec![1.0, 1.0], 0.0, times, plus, relu).err(),
        Some(MatrixError::ShapeMismatch)
    );
    assert_eq!(
        feed_forwards(&vec![w0], &vec![], &vec![1.0, 1.0], 0.0, times, plus, relu).err(),
        Some(MatrixError::ShapeMismatch)
    );
    assert!(feed_forwards::<f64, _, _, _>(&vec![], &vec![], &vec![1.0], 0.0, times, plus, relu).unwrap().is_empty());
}

#[test]
fn backward_pass_reaches_every_layer() {
    let w0 = Matrix::from(vec![vec![1.0, 2.0], vec![3.0, 4.0]]).unwrap();
    let w1 = Matrix::from(vec![vec![1.0, -1.0], vec![0.5, 2.0]]).unwrap();
    let w2 = Matrix::from(vec![vec![2.0, 3.0]]).unwrap();
    let times = |a: f64, b: f64| a * b;
    let plus = |a: f64, b: f64| a + b;
    let d = |x: f64| x + 1.0;
    let weighted = vec![vec![0.0, 1.0], vec![1.0, 0.0], vec![7.0]];
    let v = backward_node_values(&vec![w0.clone(), w1.clone(), w2.clone()], &weighted, &vec![2.0], 0.0, times, plus, d).unwrap();
    assert_eq!(v.len(), 3);
    assert_eq!(v[0], vec![2.0]);
    assert_eq!(v[1], vec![8.0, 6.0]);
    assert_eq!(v[2], vec![11.0, 8.0]);
    assert_eq!(
        backward_node_values(&vec![w0.clone(), w1.clone(), w2.clone()], &weighted, &vec![2.0, 1.0], 0.0, times, plus, d).err(),
        Some(MatrixError::ShapeMismatch)
    );
    assert_eq!(
        backward_node_values(&Vec::<Matrix<f64>>::new(), &vec![], &vec![2.0], 0.0, times, plus, d).err(),
        Some(MatrixError::ShapeMismatch)
    );
    assert_eq!(
        backward_node_values(&vec![w2], &vec![vec![7.0]], &vec![2.0], 0.0, times, plus, d).unwrap(),
        vec![vec![2.0]]
    );
}
