use tensornet::network::NeuralNetwork;
use tensornet::tensor::Tensor;
use tensornet::TensorError;

fn sigmoid(x: f64) -> f64 {
    1.0 / (1.0 + (-x).exp())
}

fn small_network() -> NeuralNetwork<f64> {
    let weights_ih: Tensor<f64> = Tensor::filled(vec![2, 3], 0.5);
    let weights_ho: Tensor<f64> = Tensor::filled(vec![3, 1], 1.0);
    let bias_h: Tensor<f64> = Tensor::filled(vec![1, 3], 0.0);
    let bias_o: Tensor<f64> = Tensor::filled(vec![1, 1], 0.25);
    NeuralNetwork::new(2, 3, 1, weights_ih, weights_ho, bias_h, bias_o).unwrap()
}

#[test]
fn forward_on_zero_input_has_output_shape() {
    let nn = small_network();
    let input: Tensor<f64> = Tensor::filled(vec![1, 2], 0.0);
    let out = nn
        .forward(&input, 0.0, |x: f64, y: f64| x + y, |x: f64, y: f64| x * y, sigmoid)
        .unwrap();
    assert_eq!(out.shape(), vec![1, 1]);
    assert_eq!(out.len(), 1);
    // Zero input: hidden is the zero bias, sigmoid(0) = 0.5 thrice,
    // output 3 * 0.5 * 1.0 plus the 0.25 bias.
    assert!((out.get(0) - 1.75).abs() < 1e-12);
}

#[test]
fn forward_rejects_wrong_input_width() {
    let nn = small_network();
    let input: Tensor<f64> = Tensor::filled(vec![1, 3], 0.0);
    let r = nn.forward(&input, 0.0, |x: f64, y: f64| x + y, |x: f64, y: f64| x * y, sigmoid);
    assert_eq!(r.unwrap_err(), TensorError::DimensionError);
}

#[test]
fn forward_rejects_non_2d_input() {
    let nn = small_network();
    let input: Tensor<f64> = Tensor::filled(vec![2], 0.0);
    let r = nn.forward(&input, 0.0, |x: f64, y: f64| x + y, |x: f64, y: f64| x * y, sigmoid);
    assert_eq!(r.unwrap_err(), TensorError::DimensionError);
}

#[test]
fn network_rejects_zero_sizes() {
    let weights_ih: Tensor<f64> = Tensor::filled(vec![0, 3], 0.5);
    let weights_ho: Tensor<f64> = Tensor::filled(vec![3, 1], 1.0);
    let bias_h: Tensor<f64> = Tensor::filled(vec![1, 3], 0.0);
    let bias_o: Tensor<f64> = Tensor::filled(vec![1, 1], 0.0);
    let r = NeuralNetwork::new(0, 3, 1, weights_ih, weights_ho, bias_h, bias_o);
    assert_eq!(r.unwrap_err(), TensorError::InvalidDimension);
}

#[test]
fn network_rejects_mismatched_parameter_shapes() {
    let weights_ih: Tensor<f64> = Tensor::filled(vec![2, 2], 0.5);
    let weights_ho: Tensor<f64> = Tensor::filled(vec![3, 1], 1.0);
    let bias_h: Tensor<f64> = Tensor::filled(vec![1, 3], 0.0);
    let bias_o: Tensor<f64> = Tensor::filled(vec![1, 1], 0.0);
    let r = NeuralNetwork::new(2, 3, 1, weights_ih, weights_ho, bias_h, bias_o);
    assert_eq!(r.unwrap_err(), TensorError::ShapeMismatch);
}

#[test]
fn network_reports_sizes() {
    let nn = small_network();
    assert_eq!(nn.input_size(), 2);
    assert_eq!(nn.hidden_size(), 3);
    assert_eq!(nn.output_size(), 1);
}
