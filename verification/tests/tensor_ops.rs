use tensornet::tensor::Tensor;
use tensornet::TensorError;

fn approx(a: f64, b: f64) -> bool {
    (a - b).abs() < 1e-12
}

#[test]
fn zeros_apply_identity_stays_zero() {
    let z: Tensor<f64> = Tensor::filled(vec![2, 3], 0.0);
    let r = z.apply(|x: f64| x);
    assert_eq!(r.len(), 6);
    assert_eq!(r.shape(), vec![2, 3]);
    for i in 0..r.len() {
        assert_eq!(r.get(i), 0.0);
    }
}

#[test]
fn zeros_element_count_is_shape_product() {
    let z: Tensor<f64> = Tensor::filled(vec![4, 2, 3], 0.0);
    assert_eq!(z.len(), 24);
    let empty: Tensor<f64> = Tensor::filled(vec![2, 0, 5], 0.0);
    assert_eq!(empty.len(), 0);
}

#[test]
fn ones_multiply_ones_is_ones() {
    let a: Tensor<f64> = Tensor::filled(vec![2, 2], 1.0);
    let b: Tensor<f64> = Tensor::filled(vec![2, 2], 1.0);
    let r = a.zip_with(&b, |x: f64, y: f64| x * y).unwrap();
    assert_eq!(r.shape(), vec![2, 2]);
    assert_eq!(r.len(), 4);
    for i in 0..r.len() {
        assert_eq!(r.get(i), 1.0);
    }
}

#[test]
fn add_is_commutative() {
    let a = Tensor::from_data(vec![1.5, -2.0, 3.25, 0.0], vec![2, 2]).unwrap();
    let b = Tensor::from_data(vec![0.5, 7.0, -1.25, 9.0], vec![2, 2]).unwrap();
    let ab = a.zip_with(&b, |x: f64, y: f64| x + y).unwrap();
    let ba = b.zip_with(&a, |x: f64, y: f64| x + y).unwrap();
    assert_eq!(ab.len(), ba.len());
    for i in 0..ab.len() {
        assert!(approx(ab.get(i), ba.get(i)));
    }
}

#[test]
fn add_rejects_different_shapes() {
    let a: Tensor<f64> = Tensor::filled(vec![2, 3], 1.0);
    let b: Tensor<f64> = Tensor::filled(vec![2, 1], 1.0);
    let r = a.zip_with(&b, |x: f64, y: f64| x + y);
    assert_eq!(r.unwrap_err(), TensorError::ShapeMismatch);
}

#[test]
fn from_data_rejects_wrong_length() {
    let r = Tensor::from_data(vec![1.0, 2.0, 3.0], vec![2, 2]);
    assert_eq!(r.unwrap_err(), TensorError::ShapeMismatch);
}

#[test]
fn identity_matmul_returns_operand() {
    let id = Tensor::from_data(vec![1.0, 0.0, 0.0, 1.0], vec![2, 2]).unwrap();
    let m = Tensor::from_data(vec![3.5, -1.0, 2.25, 8.0], vec![2, 2]).unwrap();
    let r = id
        .matmul(&m, 0.0, |x: f64, y: f64| x + y, |x: f64, y: f64| x * y)
        .unwrap();
    assert_eq!(r.shape(), vec![2, 2]);
    for i in 0..r.len() {
        assert!(approx(r.get(i), m.get(i)));
    }
}

#[test]
fn matmul_shape_contract() {
    let a: Tensor<f64> = Tensor::filled(vec![2, 3], 1.0);
    let b: Tensor<f64> = Tensor::filled(vec![3, 2], 1.0);
    let r = a
        .matmul(&b, 0.0, |x: f64, y: f64| x + y, |x: f64, y: f64| x * y)
        .unwrap();
    assert_eq!(r.shape(), vec![2, 2]);
}

#[test]
fn matmul_rejects_inner_mismatch() {
    let a: Tensor<f64> = Tensor::filled(vec![2, 3], 1.0);
    let b: Tensor<f64> = Tensor::filled(vec![2, 2], 1.0);
    let r = a.matmul(&b, 0.0, |x: f64, y: f64| x + y, |x: f64, y: f64| x * y);
    assert_eq!(r.unwrap_err(), TensorError::DimensionError);
}

#[test]
fn matmul_rejects_non_2d() {
    let a: Tensor<f64> = Tensor::filled(vec![3], 1.0);
    let b: Tensor<f64> = Tensor::filled(vec![3, 2], 1.0);
    let r = a.matmul(&b, 0.0, |x: f64, y: f64| x + y, |x: f64, y: f64| x * y);
    assert_eq!(r.unwrap_err(), TensorError::DimensionError);
}

#[test]
fn matmul_computes_sum_of_products() {
    let a = Tensor::from_data(vec![1.0, 2.0, 3.0, 4.0], vec![2, 2]).unwrap();
    let b = Tensor::from_data(vec![5.0, 6.0, 7.0, 8.0], vec![2, 2]).unwrap();
    let r = a
        .matmul(&b, 0.0, |x: f64, y: f64| x + y, |x: f64, y: f64| x * y)
        .unwrap();
    assert_eq!(r.get(0), 19.0);
    assert_eq!(r.get(1), 22.0);
    assert_eq!(r.get(2), 43.0);
    assert_eq!(r.get(3), 50.0);
}

#[test]
fn sigmoid_boundary_values() {
    let sigmoid = |x: f64| 1.0 / (1.0 + (-x).exp());
    let t = Tensor::from_data(vec![0.0, 100.0, -100.0], vec![1, 3]).unwrap();
    let r = t.apply(sigmoid);
    assert_eq!(r.get(0), 0.5);
    assert!((r.get(1) - 1.0).abs() < f64::EPSILON);
    assert!(r.get(2).abs() < f64::EPSILON);
    for i in 0..r.len() {
        assert!(!r.get(i).is_nan());
        assert!(r.get(i).is_finite());
    }
}

#[test]
fn checked_product_counts_elements() {
    assert_eq!(tensornet::tensor::checked_product(&vec![2, 3]), Some(6));
    assert_eq!(tensornet::tensor::checked_product(&vec![]), Some(1));
    assert_eq!(tensornet::tensor::checked_product(&vec![usize::MAX, 4, 0]), Some(0));
    assert_eq!(tensornet::tensor::checked_product(&vec![usize::MAX, 4]), None);
}
