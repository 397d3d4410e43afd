use ndtensor::error::TensorError;
use ndtensor::tensor::Tensor;
use ndtensor::value::NestedValue;

fn num(x: f64) -> NestedValue {
    NestedValue::Scalar(x.to_bits())
}

fn matrix(rows: &[&[f64]]) -> NestedValue {
    let mut outer: Vec<NestedValue> = Vec::new();
    for r in rows {
        let mut inner: Vec<NestedValue> = Vec::new();
        for &x in *r {
            inner.push(num(x));
        }
        outer.push(NestedValue::Sequence(inner));
    }
    NestedValue::Sequence(outer)
}

fn fadd(x: u64, y: u64) -> u64 {
    (f64::from_bits(x) + f64::from_bits(y)).to_bits()
}

fn values(t: &Tensor) -> Vec<f64> {
    let shape = t.shape();
    let mut out: Vec<f64> = Vec::new();
    let mut idx: Vec<usize> = vec![0; shape.len()];
    loop {
        out.push(f64::from_bits(t.get(idx.clone()).unwrap()));
        let mut d = shape.len();
        loop {
            if d == 0 {
                return out;
            }
            d -= 1;
            idx[d] += 1;
            if idx[d] < shape[d] {
                break;
            }
            idx[d] = 0;
        }
    }
}

#[test]
fn scenario_two_by_two() {
    let t = Tensor::new(&matrix(&[&[1.0, 2.0], &[3.0, 4.0]])).unwrap();
    assert_eq!(t.shape(), vec![2, 2]);
    assert_eq!(t.size(), 4);
    assert_eq!(t.ndim(), 2);
    assert_eq!(f64::from_bits(t.get(vec![1, 0]).unwrap()), 3.0);
}

#[test]
fn size_is_product_and_ndim_is_rank() {
    let t = Tensor::new(&matrix(&[&[1.0, 2.0, 3.0], &[4.0, 5.0, 6.0]])).unwrap();
    assert_eq!(t.shape(), vec![2, 3]);
    assert_eq!(t.size(), 2 * 3);
    assert_eq!(t.ndim(), 2);
}

#[test]
fn dtype_is_float64() {
    let t = Tensor::new(&matrix(&[&[1.0]])).unwrap();
    assert_eq!(t.dtype(), "float64");
}

#[test]
fn get_returns_each_ingested_value() {
    let t = Tensor::new(&matrix(&[&[1.5, -2.0], &[0.25, 64.0]])).unwrap();
    assert_eq!(f64::from_bits(t.get(vec![0, 0]).unwrap()), 1.5);
    assert_eq!(f64::from_bits(t.get(vec![0, 1]).unwrap()), -2.0);
    assert_eq!(f64::from_bits(t.get(vec![1, 0]).unwrap()), 0.25);
    assert_eq!(f64::from_bits(t.get(vec![1, 1]).unwrap()), 64.0);
}

#[test]
fn get_wrong_rank_rejected() {
    let t = Tensor::new(&matrix(&[&[1.0, 2.0], &[3.0, 4.0]])).unwrap();
    let e = t.get(vec![1]).unwrap_err();
    assert_eq!(e, TensorError::IndexOutOfBounds { indices: vec![1], shape: vec![2, 2] });
}

#[test]
fn get_out_of_range_rejected() {
    let t = Tensor::new(&matrix(&[&[1.0, 2.0], &[3.0, 4.0]])).unwrap();
    let e = t.get(vec![2, 0]).unwrap_err();
    assert_eq!(e, TensorError::IndexOutOfBounds { indices: vec![2, 0], shape: vec![2, 2] });
}

#[test]
fn add_elementwise_values() {
    let a = Tensor::new(&matrix(&[&[1.0, 2.0], &[3.0, 4.0]])).unwrap();
    let b = Tensor::new(&matrix(&[&[10.0, 20.0], &[30.0, 40.0]])).unwrap();
    let c = a.add(&b, fadd).unwrap();
    assert_eq!(c.shape(), vec![2, 2]);
    assert_eq!(values(&c), vec![11.0, 22.0, 33.0, 44.0]);
}

#[test]
fn add_shape_mismatch_reports_both_shapes() {
    let a = Tensor::new(&matrix(&[&[1.0, 2.0], &[3.0, 4.0]])).unwrap();
    let b = Tensor::new(&matrix(&[&[1.0, 2.0, 3.0], &[4.0, 5.0, 6.0]])).unwrap();
    let e = a.add(&b, fadd).unwrap_err();
    assert_eq!(e, TensorError::ShapeMismatch { expected: vec![2, 2], found: vec![2, 3] });
}

#[test]
fn add_commutes_on_values() {
    let a = Tensor::new(&matrix(&[&[1.25, -2.0], &[3.5, 4.0]])).unwrap();
    let b = Tensor::new(&matrix(&[&[0.5, 20.0], &[-30.0, 0.125]])).unwrap();
    let ab = a.add(&b, fadd).unwrap();
    let ba = b.add(&a, fadd).unwrap();
    assert_eq!(values(&ab), values(&ba));
}

#[test]
fn chunk_length_has_no_effect() {
    let rows: Vec<f64> = (0..150).map(|i| i as f64 * 0.5).collect();
    let other: Vec<f64> = (0..150).map(|i| 300.0 - i as f64).collect();
    let a = Tensor::from_flat(vec![150], rows.iter().map(|x| x.to_bits()).collect()).unwrap();
    let b = Tensor::from_flat(vec![150], other.iter().map(|x| x.to_bits()).collect()).unwrap();
    let c1 = a.add_with_chunk(&b, fadd, 1).unwrap();
    let c3 = a.add_with_chunk(&b, fadd, 3).unwrap();
    let c64 = a.add_with_chunk(&b, fadd, 64).unwrap();
    let c0 = a.add_with_chunk(&b, fadd, 0).unwrap();
    assert_eq!(values(&c1), values(&c64));
    assert_eq!(values(&c3), values(&c64));
    assert_eq!(values(&c0), values(&c64));
}

#[test]
fn add_zeros_keeps_values() {
    let a = Tensor::new(&matrix(&[&[1.0, -2.5], &[0.0, 4.0]])).unwrap();
    let z = Tensor::new(&matrix(&[&[0.0, 0.0], &[0.0, 0.0]])).unwrap();
    let c = a.add(&z, fadd).unwrap();
    assert_eq!(values(&c), values(&a));
}

#[test]
fn add_scalar_scenario() {
    let t = Tensor::new(&matrix(&[&[1.0, 2.0]])).unwrap();
    let r = t.add_scalar(5.0f64.to_bits(), fadd);
    assert_eq!(r.shape(), vec![1, 2]);
    assert_eq!(values(&r), vec![6.0, 7.0]);
}

#[test]
fn from_flat_accepts_matching_product() {
    let t = Tensor::from_flat(vec![2, 3], (0..6).map(|i| (i as f64).to_bits()).collect()).unwrap();
    assert_eq!(t.size(), 6);
    assert_eq!(t.ndim(), 2);
    assert_eq!(f64::from_bits(t.get(vec![1, 2]).unwrap()), 5.0);
}

#[test]
fn from_flat_rejects_mismatched_product() {
    let e = Tensor::from_flat(vec![2, 3], (0..5).map(|i| (i as f64).to_bits()).collect())
        .unwrap_err();
    assert_eq!(e, TensorError::ShapeMismatch { expected: vec![2, 3], found: vec![5] });
}

#[test]
fn chain_is_observationally_equal() {
    let t = Tensor::new(&matrix(&[&[1.0, 2.0], &[3.0, 4.0]])).unwrap();
    let c = t.chain();
    assert_eq!(c.shape(), t.shape());
    assert_eq!(values(&c), values(&t));
}

#[test]
fn add_scalar_across_many_chunks() {
    let xs: Vec<f64> = (0..150).map(|i| i as f64).collect();
    let t = Tensor::from_flat(vec![150], xs.iter().map(|x| x.to_bits()).collect()).unwrap();
    let r = t.add_scalar(1.0f64.to_bits(), fadd);
    let expect: Vec<f64> = (0..150).map(|i| i as f64 + 1.0).collect();
    assert_eq!(values(&r), expect);
}

#[test]
fn new_rejects_jagged_input() {
    let e = Tensor::new(&matrix(&[&[1.0], &[2.0, 3.0]])).unwrap_err();
    assert_eq!(e, TensorError::JaggedArray { index: 1, expected: vec![1], found: vec![2] });
}

#[test]
fn special_values_propagate() {
    let a = Tensor::new(&matrix(&[&[f64::INFINITY, 1.0]])).unwrap();
    let b = Tensor::new(&matrix(&[&[2.0, f64::NAN]])).unwrap();
    let c = a.add(&b, fadd).unwrap();
    let got = values(&c);
    assert_eq!(got[0], f64::INFINITY);
    assert!(got[1].is_nan());
}
