use ndtensor::error::TensorError;
use ndtensor::ingest::ingest;
use ndtensor::value::NestedValue;

fn num(x: f64) -> NestedValue {
    NestedValue::Scalar(x.to_bits())
}

fn row(xs: &[f64]) -> NestedValue {
    let mut items: Vec<NestedValue> = Vec::new();
    for &x in xs {
        items.push(num(x));
    }
    NestedValue::Sequence(items)
}

fn seq_of(items: Vec<NestedValue>) -> NestedValue {
    NestedValue::Sequence(items)
}

#[test]
fn rectangular_two_by_two() {
    let v = seq_of(vec![row(&[1.0, 2.0]), row(&[3.0, 4.0])]);
    let (data, shape) = ingest(&v).unwrap();
    assert_eq!(shape, vec![2, 2]);
    let floats: Vec<f64> = data.iter().map(|&b| f64::from_bits(b)).collect();
    assert_eq!(floats, vec![1.0, 2.0, 3.0, 4.0]);
}

#[test]
fn plain_one_dimensional_list() {
    let v = row(&[5.0, 6.0, 7.0]);
    let (data, shape) = ingest(&v).unwrap();
    assert_eq!(shape, vec![3]);
    assert_eq!(data, vec![5.0f64.to_bits(), 6.0f64.to_bits(), 7.0f64.to_bits()]);
}

#[test]
fn jagged_mismatched_rows() {
    let v = seq_of(vec![row(&[1.0, 2.0]), row(&[3.0])]);
    let e = ingest(&v).unwrap_err();
    assert_eq!(e, TensorError::JaggedArray { index: 1, expected: vec![2], found: vec![1] });
}

#[test]
fn jagged_scalar_beside_sequence() {
    let v = seq_of(vec![num(1.0), row(&[2.0, 3.0])]);
    let e = ingest(&v).unwrap_err();
    assert_eq!(e, TensorError::JaggedArray { index: 1, expected: vec![], found: vec![] });
}

#[test]
fn jagged_sequence_beside_scalars() {
    let v = seq_of(vec![row(&[1.0]), num(2.0)]);
    let e = ingest(&v).unwrap_err();
    assert_eq!(e, TensorError::JaggedArray { index: 1, expected: vec![], found: vec![] });
}

#[test]
fn empty_top_level_rejected() {
    let v = seq_of(vec![]);
    let e = ingest(&v).unwrap_err();
    assert_eq!(e, TensorError::EmptyInput);
}

#[test]
fn empty_nested_rejected() {
    let v = seq_of(vec![seq_of(vec![]), seq_of(vec![])]);
    let e = ingest(&v).unwrap_err();
    assert_eq!(e, TensorError::EmptyNestedSequence);
}

#[test]
fn unsupported_element_rejected() {
    let v = seq_of(vec![num(1.0), NestedValue::Unsupported]);
    let e = ingest(&v).unwrap_err();
    assert_eq!(e, TensorError::UnsupportedType { index: 1 });
}

#[test]
fn unsupported_first_element_rejected() {
    let v = seq_of(vec![NestedValue::Unsupported, num(1.0)]);
    let e = ingest(&v).unwrap_err();
    assert_eq!(e, TensorError::UnsupportedType { index: 0 });
}

#[test]
fn top_level_scalar_rejected() {
    let v = num(4.0);
    let e = ingest(&v).unwrap_err();
    assert_eq!(e, TensorError::UnsupportedType { index: 0 });
}

#[test]
fn nested_fault_is_propagated() {
    // the second row's inner irregularity is reported, not a shape clash
    let v = seq_of(vec![
        seq_of(vec![row(&[1.0])]),
        seq_of(vec![seq_of(vec![])]),
    ]);
    let e = ingest(&v).unwrap_err();
    assert_eq!(e, TensorError::EmptyNestedSequence);
}

#[test]
fn three_levels_deep() {
    let v = seq_of(vec![
        seq_of(vec![row(&[1.0, 2.0]), row(&[3.0, 4.0])]),
        seq_of(vec![row(&[5.0, 6.0]), row(&[7.0, 8.0])]),
    ]);
    let (data, shape) = ingest(&v).unwrap();
    assert_eq!(shape, vec![2, 2, 2]);
    let floats: Vec<f64> = data.iter().map(|&b| f64::from_bits(b)).collect();
    assert_eq!(floats, vec![1.0, 2.0, 3.0, 4.0, 5.0, 6.0, 7.0, 8.0]);
}
