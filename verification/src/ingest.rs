//! The sequence ingestor: turns an arbitrarily nested value into a flat
//! row-major buffer and a validated rectangular shape, or reports the first
//! irregularity met on a depth-first, left-to-right walk.

use crate::error::TensorError;
use crate::tensor::eq_extents;
use crate::value::NestedValue;
use crate::value::all_scalars;
use crate::value::flat_of;
use crate::value::flat_of_elems;
use crate::value::lemma_flat_elems_snoc;
use crate::value::lemma_flat_scalars;
use crate::value::lemma_seqs_ok_from_forall;
use crate::value::lemma_seqs_ok_index;
use crate::value::node_ok;
use crate::value::seqs_ok;
use crate::value::shape_of;
use vstd::prelude::*;

verus! {

/// The abstract description of an ingestion failure: which irregularity the
/// walk meets first, and where.
pub enum IngestFault {
    /// The top-level sequence is empty.
    TopEmpty,
    /// A nested sequence is empty.
    NestedEmpty,
    /// A scalar sits beside sequences, or a sequence beside scalars.
    KindMix { index: int },
    /// A sibling's sub-shape differs from the first sibling's.
    ShapeClash { index: int, expected: Seq<usize>, found: Seq<usize> },
    /// An element is neither a scalar nor a sequence.
    NotNumeric { index: int },
}

/// The error value that reports a given fault.
pub open spec fn error_matches(e: TensorError, f: IngestFault) -> bool {
    match f {
        IngestFault::TopEmpty => e is EmptyInput,
        IngestFault::NestedEmpty => e is EmptyNestedSequence,
        IngestFault::KindMix { index } => (e matches TensorError::JaggedArray {
            index: i,
            expected,
            found,
        } && i as int == index && expected@ == Seq::<usize>::empty() && found@ == Seq::<
            usize,
        >::empty()),
        IngestFault::ShapeClash { index, expected, found } => (e
            matches TensorError::JaggedArray {
            index: i,
            expected: ex,
            found: fd,
        } && i as int == index && ex@ == expected && fd@ == found),
        IngestFault::NotNumeric { index } => (e matches TensorError::UnsupportedType {
            index: i,
        } && i as int == index),
    }
}

/// The first fault of a run of siblings whose first element is a scalar,
/// scanning from position `i`.
pub open spec fn scalar_fault(s: Seq<NestedValue>, i: int) -> IngestFault
    decreases s, 0int, s.len() - i,
{
    if i < 0 || i >= s.len() {
        IngestFault::TopEmpty
    } else {
        match s[i] {
            NestedValue::Scalar(_) => scalar_fault(s, i + 1),
            NestedValue::Sequence(_) => IngestFault::KindMix { index: i },
            NestedValue::Unsupported => IngestFault::NotNumeric { index: i },
        }
    }
}

/// The first fault of a run of siblings whose first element is a sequence
/// of shape `expected`, scanning from position `i`.
pub open spec fn seq_fault(s: Seq<NestedValue>, expected: Seq<usize>, i: int) -> IngestFault
    decreases s, 0int, s.len() - i,
{
    if i < 0 || i >= s.len() {
        IngestFault::TopEmpty
    } else {
        match s[i] {
            NestedValue::Scalar(_) => IngestFault::KindMix { index: i },
            NestedValue::Unsupported => IngestFault::NotNumeric { index: i },
            NestedValue::Sequence(_) => if !node_ok(s[i]) {
                fault_of(s[i], false)
            } else if shape_of(s[i]) != expected {
                IngestFault::ShapeClash { index: i, expected, found: shape_of(s[i]) }
            } else {
                seq_fault(s, expected, i + 1)
            },
        }
    }
}

/// The first fault of a value that is not a rectangular tensor literal:
/// exactly the irregularity a depth-first, left-to-right walk meets first.
pub open spec fn fault_of(n: NestedValue, top: bool) -> IngestFault
    decreases n, 1int, 0int,
{
    match n {
        NestedValue::Sequence(v) => if v@.len() == 0 {
            if top {
                IngestFault::TopEmpty
            } else {
                IngestFault::NestedEmpty
            }
        } else {
            match v@[0] {
                NestedValue::Scalar(_) => scalar_fault(v@, 1),
                NestedValue::Sequence(_) => seq_fault(v@, shape_of(v@[0]), 0),
                NestedValue::Unsupported => IngestFault::NotNumeric { index: 0 },
            }
        },
        _ => IngestFault::NotNumeric { index: 0 },
    }
}

proof fn lemma_scalar_fault_skip(s: Seq<NestedValue>, i: int)
    requires
        1 <= i <= s.len(),
        forall|j: int| 1 <= j < i ==> s[j] is Scalar,
    ensures
        scalar_fault(s, 1) == scalar_fault(s, i),
    decreases i,
{
    if i > 1 {
        lemma_scalar_fault_skip(s, i - 1);
        assert(s[i - 1] is Scalar);
    }
}

proof fn lemma_seq_fault_skip(s: Seq<NestedValue>, expected: Seq<usize>, i: int)
    requires
        0 <= i <= s.len(),
        forall|j: int|
            0 <= j < i ==> node_ok(#[trigger] s[j]) && shape_of(s[j]) == expected,
    ensures
        seq_fault(s, expected, 0) == seq_fault(s, expected, i),
    decreases i,
{
    if i > 0 {
        lemma_seq_fault_skip(s, expected, i - 1);
        assert(s[i - 1] is Sequence);
    }
}

/// Ingests the scalar elements of a run of siblings whose first element is
/// a scalar.
fn ingest_scalars(v: &Vec<NestedValue>) -> (r: Result<(Vec<u64>, Vec<usize>), TensorError>)
    requires
        v@.len() > 0,
        v@[0] is Scalar,
    ensures
        match r {
            Ok(p) => all_scalars(v@) && p.0@ == flat_of_elems(v@) && p.1@ == seq![
                v@.len() as usize,
            ],
            Err(e) => !all_scalars(v@) && error_matches(e, scalar_fault(v@, 1)),
        },
{
    let len = v.len();
    let mut data: Vec<u64> = Vec::new();
    let mut i: usize = 0;
    while i < len
        invariant
            len == v@.len(),
            0 < len,
            i <= len,
            v@[0] is Scalar,
            forall|j: int| 0 <= j < i ==> v@[j] is Scalar,
            data@.len() == i,
            forall|j: int| 0 <= j < i ==> data@[j] == v@[j]->Scalar_0,
        decreases len - i,
    {
        match &v[i] {
            NestedValue::Scalar(x) => {
                data.push(*x);
            },
            NestedValue::Sequence(_) => {
                proof {
                    lemma_scalar_fault_skip(v@, i as int);
                    assert(scalar_fault(v@, i as int) == IngestFault::KindMix {
                        index: i as int,
                    });
                }
                return Err(
                    TensorError::JaggedArray {
                        index: i,
                        expected: Vec::new(),
                        found: Vec::new(),
                    },
                );
            },
            NestedValue::Unsupported => {
                proof {
                    lemma_scalar_fault_skip(v@, i as int);
                }
                return Err(TensorError::UnsupportedType { index: i });
            },
        }
        i += 1;
    }
    proof {
        lemma_flat_scalars(v@);
        assert(data@ =~= flat_of_elems(v@));
    }
    let mut shape: Vec<usize> = Vec::new();
    shape.push(len);
    proof {
        assert(shape@ =~= seq![v@.len() as usize]);
    }
    Ok((data, shape))
}

/// Ingests a run of siblings whose first element is a sequence: every
/// sibling must be a rectangular sequence of the first sibling's shape.
fn ingest_sequences(v: &Vec<NestedValue>) -> (r: Result<(Vec<u64>, Vec<usize>), TensorError>)
    requires
        v@.len() > 0,
        v@[0] is Sequence,
    ensures
        match r {
            Ok(p) => seqs_ok(v@, shape_of(v@[0])) && p.0@ == flat_of_elems(v@) && p.1@ == seq![
                v@.len() as usize,
            ] + shape_of(v@[0]),
            Err(e) => !seqs_ok(v@, shape_of(v@[0])) && error_matches(
                e,
                seq_fault(v@, shape_of(v@[0]), 0),
            ),
        },
    decreases v@, 0int,
{
    let ghost sh0 = shape_of(v@[0]);
    let len = v.len();
    let mut data: Vec<u64> = Vec::new();
    let mut inner_shape: Vec<usize> = Vec::new();
    let mut i: usize = 0;
    while i < len
        invariant
            len == v@.len(),
            0 < len,
            i <= len,
            v@[0] is Sequence,
            sh0 == shape_of(v@[0]),
            forall|j: int|
                0 <= j < i ==> v@[j] is Sequence && node_ok(#[trigger] v@[j]) && shape_of(v@[j])
                    == sh0,
            i > 0 ==> inner_shape@ == sh0,
            data@ == flat_of_elems(v@.take(i as int)),
        decreases len - i,
    {
        match &v[i] {
            NestedValue::Scalar(_) => {
                proof {
                    lemma_seq_fault_skip(v@, sh0, i as int);
                    if seqs_ok(v@, sh0) {
                        lemma_seqs_ok_index(v@, sh0, i as int);
                    }
                }
                return Err(
                    TensorError::JaggedArray {
                        index: i,
                        expected: Vec::new(),
                        found: Vec::new(),
                    },
                );
            },
            NestedValue::Unsupported => {
                proof {
                    lemma_seq_fault_skip(v@, sh0, i as int);
                    if seqs_ok(v@, sh0) {
                        lemma_seqs_ok_index(v@, sh0, i as int);
                    }
                }
                return Err(TensorError::UnsupportedType { index: i });
            },
            NestedValue::Sequence(_) => {
                let sub = ingest_node(&v[i], false);
                match sub {
                    Err(e) => {
                        proof {
                            lemma_seq_fault_skip(v@, sh0, i as int);
                            if seqs_ok(v@, sh0) {
                                lemma_seqs_ok_index(v@, sh0, i as int);
                            }
                        }
                        return Err(e);
                    },
                    Ok(p) => {
                        let (mut child_data, child_shape) = p;
                        if i == 0 {
                            inner_shape = child_shape;
                        } else {
                            let same = eq_extents(&child_shape, &inner_shape);
                            if !same {
                                proof {
                                    lemma_seq_fault_skip(v@, sh0, i as int);
                                    if seqs_ok(v@, sh0) {
                                        lemma_seqs_ok_index(v@, sh0, i as int);
                                    }
                                    assert(seq_fault(v@, sh0, i as int)
                                        == IngestFault::ShapeClash {
                                        index: i as int,
                                        expected: sh0,
                                        found: shape_of(v@[i as int]),
                                    });
                                }
                                return Err(
                                    TensorError::JaggedArray {
                                        index: i,
                                        expected: inner_shape,
                                        found: child_shape,
                                    },
                                );
                            }
                        }
                        data.append(&mut child_data);
                        proof {
                            assert(v@.take(i + 1int) =~= v@.take(i as int).push(v@[i as int]));
                            lemma_flat_elems_snoc(v@.take(i as int), v@[i as int]);
                        }
                    },
                }
            },
        }
        i += 1;
    }
    proof {
        lemma_seqs_ok_from_forall(v@, sh0);
        assert(v@.take(len as int) =~= v@);
    }
    let mut shape: Vec<usize> = Vec::new();
    shape.push(len);
    shape.append(&mut inner_shape);
    proof {
        assert(shape@ =~= seq![v@.len() as usize] + shape_of(v@[0]));
    }
    Ok((data, shape))
}

/// Ingests one value: the recursive heart of the ingestor.
fn ingest_node(n: &NestedValue, top: bool) -> (r: Result<(Vec<u64>, Vec<usize>), TensorError>)
    ensures
        match r {
            Ok(p) => node_ok(*n) && p.0@ == flat_of(*n) && p.1@ == shape_of(*n),
            Err(e) => !node_ok(*n) && error_matches(e, fault_of(*n, top)),
        },
    decreases *n, 1int,
{
    match n {
        NestedValue::Scalar(_) => Err(TensorError::UnsupportedType { index: 0 }),
        NestedValue::Unsupported => Err(TensorError::UnsupportedType { index: 0 }),
        NestedValue::Sequence(v) => {
            let len = v.len();
            if len == 0 {
                if top {
                    Err(TensorError::EmptyInput)
                } else {
                    Err(TensorError::EmptyNestedSequence)
                }
            } else {
                match &v[0] {
                    NestedValue::Unsupported => {
                        proof {
                            assert(!all_scalars(v@)) by {
                                assert(!(v@[0] is Scalar));
                            }
                            if seqs_ok(v@, shape_of(v@[0])) {
                                lemma_seqs_ok_index(v@, shape_of(v@[0]), 0);
                            }
                        }
                        Err(TensorError::UnsupportedType { index: 0 })
                    },
                    NestedValue::Scalar(_) => {
                        let r = ingest_scalars(v);
                        proof {
                            if r is Err {
                                if seqs_ok(v@, shape_of(v@[0])) {
                                    lemma_seqs_ok_index(v@, shape_of(v@[0]), 0);
                                }
                            }
                        }
                        r
                    },
                    NestedValue::Sequence(_) => {
                        let r = ingest_sequences(v);
                        proof {
                            assert(!all_scalars(v@)) by {
                                assert(!(v@[0] is Scalar));
                            }
                        }
                        r
                    },
                }
            }
        },
    }
}

/// Converts a nested value into a flat row-major buffer and its rectangular
/// shape.
///
/// Succeeds exactly on well-formed rectangular tensor literals; any other
/// value is rejected with the error for the first irregularity met on a
/// depth-first, left-to-right walk, as `fault_of` describes it.
pub fn ingest(value: &NestedValue) -> (r: Result<(Vec<u64>, Vec<usize>), TensorError>)
    ensures
        match r {
            Ok(p) => node_ok(*value) && p.0@ == flat_of(*value) && p.1@ == shape_of(*value),
            Err(e) => !node_ok(*value) && error_matches(e, fault_of(*value, true)),
        },
{
    ingest_node(value, true)
}

} // verus!
