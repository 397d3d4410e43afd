//! The tensor: a flat row-major buffer of 64-bit scalars plus a shape, with
//! queries and elementwise arithmetic.

use crate::error::TensorError;
use crate::ingest::error_matches;
use crate::ingest::fault_of;
use crate::ingest::ingest;
use crate::laws::lemma_flat_matches_shape;
use crate::value::NestedValue;
use crate::value::flat_of;
use crate::value::node_ok;
use crate::value::product;
use crate::value::shape_of;
use vstd::prelude::*;

verus! {

/// The chunk length of the elementwise kernels: a cache-friendly traversal
/// granularity with no observable effect on results.
pub const CHUNK: usize = 64;

/// A dense tensor: a flat buffer laid out in row-major order, and one
/// extent per dimension. Immutable once constructed.
#[derive(Debug)]
pub struct Tensor {
    data: Vec<u64>,
    shape: Vec<usize>,
}

/// The indices address one element: one component per dimension, each
/// within its extent.
pub open spec fn valid_index(shape: Seq<usize>, idx: Seq<usize>) -> bool {
    idx.len() == shape.len() && forall|d: int| 0 <= d < idx.len() ==> idx[d] < shape[d]
}

/// The row-major flat offset of a multi-index: each component scaled by its
/// stride, the product of all later extents.
pub open spec fn offset_of(shape: Seq<usize>, idx: Seq<usize>) -> nat
    decreases shape,
{
    if shape.len() == 0 {
        0
    } else {
        (idx[0] as nat) * product(shape.drop_first()) + offset_of(
            shape.drop_first(),
            idx.drop_first(),
        )
    }
}

/// A shape all of whose extents are positive asks for at least one element.
pub proof fn lemma_product_all_pos(s: Seq<usize>)
    requires
        forall|j: int| 0 <= j < s.len() ==> s[j] >= 1,
    ensures
        product(s) >= 1,
    decreases s.len(),
{
    if s.len() > 0 {
        assert forall|j: int| 0 <= j < s.drop_first().len() implies s.drop_first()[j] >= 1 by {
            assert(s.drop_first()[j] == s[j + 1]);
        }
        lemma_product_all_pos(s.drop_first());
        assert(s[0] * product(s.drop_first()) >= 1) by (nonlinear_arith)
            requires
                s[0] >= 1,
                product(s.drop_first()) >= 1,
        ;
    }
}

/// The flat offset of a valid multi-index lies within the shape's element
/// count.
pub proof fn lemma_offset_in_range(shape: Seq<usize>, idx: Seq<usize>)
    requires
        valid_index(shape, idx),
    ensures
        offset_of(shape, idx) < product(shape),
    decreases shape.len(),
{
    if shape.len() == 0 {
    } else {
        assert forall|d: int| 0 <= d < idx.drop_first().len() implies idx.drop_first()[d]
            < shape.drop_first()[d] by {
            assert(idx.drop_first()[d] == idx[d + 1]);
            assert(shape.drop_first()[d] == shape[d + 1]);
        }
        lemma_offset_in_range(shape.drop_first(), idx.drop_first());
        let i0 = idx[0] as nat;
        let e0 = shape[0] as nat;
        let p = product(shape.drop_first());
        let rest = offset_of(shape.drop_first(), idx.drop_first());
        assert(i0 * p + rest < e0 * p) by (nonlinear_arith)
            requires
                i0 < e0,
                rest < p,
        ;
    }
}

impl Tensor {
    /// The flat row-major contents.
    pub closed spec fn spec_data(&self) -> Seq<u64> {
        self.data@
    }

    /// The per-dimension extents, outermost first.
    pub closed spec fn spec_shape(&self) -> Seq<usize> {
        self.shape@
    }

    /// Well-formedness: the shape's element count is the buffer's length.
    pub open spec fn wf(&self) -> bool {
        product(self.spec_shape()) == self.spec_data().len()
    }

    /// Builds a tensor from a shape and a flat buffer, verbatim, after
    /// checking that the shape asks for exactly the buffer's length. On
    /// mismatch the error reports the requested shape against the 1-D shape
    /// of the buffer.
    pub fn from_flat(shape: Vec<usize>, data: Vec<u64>) -> (r: Result<Tensor, TensorError>)
        ensures
            match r {
                Ok(t) => product(shape@) == data@.len() && t.wf() && t.spec_shape() == shape@
                    && t.spec_data() == data@,
                Err(e) => product(shape@) != data@.len() && (e
                    matches TensorError::ShapeMismatch {
                    expected,
                    found,
                } && expected@ == shape@ && found@ == seq![data@.len() as usize]),
            },
    {
        let n = shape.len();
        let mut i: usize = n;
        let mut acc: usize = 1;
        let mut over: bool = false;
        proof {
            assert(shape@.skip(n as int) =~= Seq::<usize>::empty());
        }
        while i > 0
            invariant
                n == shape@.len(),
                i <= n,
                !over ==> acc == product(shape@.skip(i as int)),
                over ==> product(shape@.skip(i as int)) > usize::MAX,
            decreases i,
        {
            let d = shape[i - 1];
            proof {
                assert(shape@.skip(i - 1int).drop_first() =~= shape@.skip(i as int));
                assert(shape@.skip(i - 1int)[0] == shape@[i - 1int]);
                assert(product(shape@.skip(i - 1int)) == (d as nat) * product(
                    shape@.skip(i as int),
                ));
            }
            if over {
                if d == 0 {
                    over = false;
                    acc = 0;
                    proof {
                        assert((0 as nat) * product(shape@.skip(i as int)) == 0)
                            by (nonlinear_arith);
                        assert(product(shape@.skip(i - 1int)) == 0);
                    }
                } else {
                    proof {
                        let p = product(shape@.skip(i as int));
                        assert((d as nat) * p >= p) by (nonlinear_arith)
                            requires
                                d >= 1,
                                p >= 0,
                        ;
                        assert(product(shape@.skip(i - 1int)) > usize::MAX);
                    }
                }
            } else {
                match d.checked_mul(acc) {
                    Some(x) => {
                        acc = x;
                        proof {
                            assert(product(shape@.skip(i - 1int)) == x);
                        }
                    },
                    None => {
                        over = true;
                        proof {
                            assert(product(shape@.skip(i - 1int)) > usize::MAX);
                        }
                    },
                }
            }
            i -= 1;
        }
        proof {
            assert(shape@.skip(0) =~= shape@);
        }
        if over || acc != data.len() {
            let len1 = data.len();
            let mut found: Vec<usize> = Vec::new();
            found.push(len1);
            proof {
                assert(found@ =~= seq![data@.len() as usize]);
            }
            return Err(TensorError::ShapeMismatch { expected: shape, found });
        }
        Ok(Tensor { data, shape })
    }

    /// The per-dimension extents, outermost first, as a fresh vector.
    pub fn shape(&self) -> (r: Vec<usize>)
        ensures
            r@ == self.spec_shape(),
    {
        copy_extents(&self.shape)
    }

    /// The number of elements; equal to the product of the extents.
    pub fn size(&self) -> (r: usize)
        requires
            self.wf(),
        ensures
            r == self.spec_data().len(),
            r == product(self.spec_shape()),
    {
        self.data.len()
    }

    /// The number of dimensions.
    pub fn ndim(&self) -> (r: usize)
        ensures
            r == self.spec_shape().len(),
    {
        self.shape.len()
    }

    /// The element type identifier; the only supported type is the 64-bit
    /// float.
    pub fn dtype(&self) -> (r: &'static str)
        ensures
            r@ == "float64"@,
    {
        "float64"
    }

    /// Looks one element up by multi-index: the scalar at the row-major
    /// offset of the indices. Rejects a wrong number of indices or any
    /// component at or past its extent, reporting the indices and the shape.
    pub fn get(&self, indices: Vec<usize>) -> (r: Result<u64, TensorError>)
        requires
            self.wf(),
        ensures
            match r {
                Ok(x) => valid_index(self.spec_shape(), indices@) && x == self.spec_data()[
                    offset_of(self.spec_shape(), indices@) as int
                ],
                Err(e) => !valid_index(self.spec_shape(), indices@) && (e
                    matches TensorError::IndexOutOfBounds {
                    indices: ii,
                    shape: ss,
                } && ii@ == indices@ && ss@ == self.spec_shape()),
            },
    {
        let ndim = self.shape.len();
        if indices.len() != ndim {
            let ss = copy_extents(&self.shape);
            return Err(TensorError::IndexOutOfBounds { indices, shape: ss });
        }
        let mut d: usize = 0;
        while d < ndim
            invariant
                ndim == self.spec_shape().len(),
                indices@.len() == ndim,
                d <= ndim,
                forall|j: int| 0 <= j < d ==> indices@[j] < self.spec_shape()[j],
            decreases ndim - d,
        {
            if indices[d] >= self.shape[d] {
                let ss = copy_extents(&self.shape);
                return Err(TensorError::IndexOutOfBounds { indices, shape: ss });
            }
            d += 1;
        }
        let ghost sh = self.spec_shape();
        let ghost ix = indices@;
        let buf_len = self.data.len();
        proof {
            assert(valid_index(sh, ix));
            lemma_offset_in_range(sh, ix);
            assert(sh.skip(0) =~= sh);
            assert(ix.skip(0) =~= ix);
        }
        let mut off: usize = 0;
        let mut d2: usize = 0;
        while d2 < ndim
            invariant
                self.wf(),
                sh == self.spec_shape(),
                ix == indices@,
                valid_index(sh, ix),
                ndim == sh.len(),
                buf_len == self.spec_data().len(),
                d2 <= ndim,
                offset_of(sh, ix) == (off as nat) * product(sh.skip(d2 as int)) + offset_of(
                    sh.skip(d2 as int),
                    ix.skip(d2 as int),
                ),
                offset_of(sh, ix) < product(sh),
            decreases ndim - d2,
        {
            proof {
                assert(sh.skip(d2 as int).drop_first() =~= sh.skip(d2 + 1int));
                assert(ix.skip(d2 as int).drop_first() =~= ix.skip(d2 + 1int));
                assert(sh.skip(d2 as int)[0] == sh[d2 as int]);
                assert(ix.skip(d2 as int)[0] == ix[d2 as int]);
                assert forall|j: int| 0 <= j < sh.skip(d2 + 1int).len() implies #[trigger] sh.skip(
                    d2 + 1int,
                )[j] >= 1 by {
                    assert(sh.skip(d2 + 1int)[j] == sh[d2 + 1 + j]);
                    assert(ix[d2 + 1 + j] < sh[d2 + 1 + j]);
                }
                lemma_product_all_pos(sh.skip(d2 + 1int));
                let e = sh[d2 as int] as nat;
                let x = ix[d2 as int] as nat;
                let p = product(sh.skip(d2 + 1int));
                let rest = offset_of(sh.skip(d2 + 1int), ix.skip(d2 + 1int));
                assert(product(sh.skip(d2 as int)) == e * p);
                assert(offset_of(sh.skip(d2 as int), ix.skip(d2 as int)) == x * p + rest);
                assert((off as nat) * (e * p) + (x * p + rest) == ((off as nat) * e + x) * p
                    + rest) by (nonlinear_arith);
                assert(((off as nat) * e + x) * p + rest == offset_of(sh, ix));
                assert(((off as nat) * e + x) * p >= (off as nat) * e + x) by (nonlinear_arith)
                    requires
                        p >= 1,
                        (off as nat) * e + x >= 0,
                ;
                assert((off as nat) * e + x <= offset_of(sh, ix));
                assert((off as nat) * e + x < buf_len);
            }
            off = off * self.shape[d2] + indices[d2];
            d2 += 1;
        }
        proof {
            assert(d2 == ndim);
            assert(sh.skip(d2 as int) =~= Seq::<usize>::empty());
            assert(ix.skip(d2 as int) =~= Seq::<usize>::empty());
            assert(product(sh.skip(d2 as int)) == 1);
            assert(offset_of(sh.skip(d2 as int), ix.skip(d2 as int)) == 0);
            assert((off as nat) * 1 == off as nat) by (nonlinear_arith);
            assert(offset_of(sh, ix) == off as nat);
        }
        Ok(self.data[off])
    }

    /// Builds a tensor from a nested value: ingestion, then construction
    /// from the inferred shape and flat buffer.
    pub fn new(value: &NestedValue) -> (r: Result<Tensor, TensorError>)
        ensures
            match r {
                Ok(t) => node_ok(*value) && t.wf() && t.spec_data() == flat_of(*value)
                    && t.spec_shape() == shape_of(*value),
                Err(e) => !node_ok(*value) && error_matches(e, fault_of(*value, true)),
            },
    {
        match ingest(value) {
            Ok(p) => {
                let (data, shape) = p;
                proof {
                    lemma_flat_matches_shape(*value);
                }
                match Tensor::from_flat(shape, data) {
                    Ok(t) => Ok(t),
                    Err(e) => {
                        proof {
                            assert(false);
                        }
                        Err(e)
                    },
                }
            },
            Err(e) => Err(e),
        }
    }

    /// Elementwise combination of two tensors of exactly equal shape, by
    /// `op`, traversed in contiguous chunks of the given length; a chunk
    /// length of zero is traversed as one. Chunking has no observable
    /// effect: every output element is `op` of the paired input elements,
    /// whatever the chunk length. On a shape mismatch, both shapes are
    /// reported.
    pub fn add_with_chunk<F: Fn(u64, u64) -> u64>(
        &self,
        other: &Tensor,
        op: F,
        chunk: usize,
    ) -> (r: Result<Tensor, TensorError>)
        requires
            self.wf(),
            other.wf(),
            forall|x: u64, y: u64| call_requires(op, (x, y)),
        ensures
            match r {
                Ok(t) => self.spec_shape() == other.spec_shape() && t.wf() && t.spec_shape()
                    == self.spec_shape() && t.spec_data().len() == self.spec_data().len()
                    && forall|i: int|
                    0 <= i < t.spec_data().len() ==> call_ensures(
                        op,
                        (self.spec_data()[i], other.spec_data()[i]),
                        #[trigger] t.spec_data()[i],
                    ),
                Err(e) => self.spec_shape() != other.spec_shape() && (e
                    matches TensorError::ShapeMismatch {
                    expected,
                    found,
                } && expected@ == self.spec_shape() && found@ == other.spec_shape()),
            },
    {
        let same = eq_extents(&self.shape, &other.shape);
        if !same {
            return Err(
                TensorError::ShapeMismatch {
                    expected: copy_extents(&self.shape),
                    found: copy_extents(&other.shape),
                },
            );
        }
        let n = self.data.len();
        let step = if chunk == 0 {
            1
        } else {
            chunk
        };
        let mut out: Vec<u64> = Vec::new();
        let mut start: usize = 0;
        while start < n
            invariant
                n == self.spec_data().len(),
                n == other.spec_data().len(),
                start <= n,
                step >= 1,
                out@.len() == start,
                forall|x: u64, y: u64| call_requires(op, (x, y)),
                forall|i: int|
                    0 <= i < start ==> call_ensures(
                        op,
                        (self.spec_data()[i], other.spec_data()[i]),
                        #[trigger] out@[i],
                    ),
            decreases n - start,
        {
            let end = if n - start < step {
                n
            } else {
                start + step
            };
            let mut j = start;
            while j < end
                invariant
                    n == self.spec_data().len(),
                    n == other.spec_data().len(),
                    start <= j <= end <= n,
                    out@.len() == j,
                    forall|x: u64, y: u64| call_requires(op, (x, y)),
                    forall|i: int|
                        0 <= i < j ==> call_ensures(
                            op,
                            (self.spec_data()[i], other.spec_data()[i]),
                            #[trigger] out@[i],
                        ),
                decreases end - j,
            {
                let val = op(self.data[j], other.data[j]);
                out.push(val);
                j += 1;
            }
            start = end;
        }
        let out_shape = copy_extents(&self.shape);
        Ok(Tensor { data: out, shape: out_shape })
    }

    /// Elementwise combination of two tensors of exactly equal shape, by
    /// `op`, with the default chunk length. Since every output element is
    /// `op` of the paired input elements, two calls whose `op` is
    /// deterministic and commutative in its arguments give equal buffers in
    /// either operand order.
    pub fn add<F: Fn(u64, u64) -> u64>(&self, other: &Tensor, op: F) -> (r: Result<
        Tensor,
        TensorError,
    >)
        requires
            self.wf(),
            other.wf(),
            forall|x: u64, y: u64| call_requires(op, (x, y)),
        ensures
            match r {
                Ok(t) => self.spec_shape() == other.spec_shape() && t.wf() && t.spec_shape()
                    == self.spec_shape() && t.spec_data().len() == self.spec_data().len()
                    && forall|i: int|
                    0 <= i < t.spec_data().len() ==> call_ensures(
                        op,
                        (self.spec_data()[i], other.spec_data()[i]),
                        #[trigger] t.spec_data()[i],
                    ),
                Err(e) => self.spec_shape() != other.spec_shape() && (e
                    matches TensorError::ShapeMismatch {
                    expected,
                    found,
                } && expected@ == self.spec_shape() && found@ == other.spec_shape()),
            },
    {
        self.add_with_chunk(other, op, CHUNK)
    }

    /// Elementwise combination of every element with one fixed scalar, by
    /// `op`, with the default chunk length; always succeeds, and the shape
    /// is unchanged.
    pub fn add_scalar<F: Fn(u64, u64) -> u64>(&self, scalar: u64, op: F) -> (r: Tensor)
        requires
            self.wf(),
            forall|x: u64, y: u64| call_requires(op, (x, y)),
        ensures
            r.wf(),
            r.spec_shape() == self.spec_shape(),
            r.spec_data().len() == self.spec_data().len(),
            forall|i: int|
                0 <= i < r.spec_data().len() ==> call_ensures(
                    op,
                    (self.spec_data()[i], scalar),
                    #[trigger] r.spec_data()[i],
                ),
    {
        let n = self.data.len();
        let mut out: Vec<u64> = Vec::new();
        let mut start: usize = 0;
        while start < n
            invariant
                n == self.spec_data().len(),
                start <= n,
                out@.len() == start,
                forall|x: u64, y: u64| call_requires(op, (x, y)),
                forall|i: int|
                    0 <= i < start ==> call_ensures(
                        op,
                        (self.spec_data()[i], scalar),
                        #[trigger] out@[i],
                    ),
            decreases n - start,
        {
            let end = if n - start < CHUNK {
                n
            } else {
                start + CHUNK
            };
            let mut j = start;
            while j < end
                invariant
                    n == self.spec_data().len(),
                    start <= j <= end <= n,
                    out@.len() == j,
                    forall|x: u64, y: u64| call_requires(op, (x, y)),
                    forall|i: int|
                        0 <= i < j ==> call_ensures(
                            op,
                            (self.spec_data()[i], scalar),
                            #[trigger] out@[i],
                        ),
                decreases end - j,
            {
                let val = op(self.data[j], scalar);
                out.push(val);
                j += 1;
            }
            start = end;
        }
        let out_shape = copy_extents(&self.shape);
        Tensor { data: out, shape: out_shape }
    }

    /// A tensor observationally equal to this one: same shape, same values.
    pub fn chain(&self) -> (r: Tensor)
        requires
            self.wf(),
        ensures
            r.wf(),
            r.spec_shape() == self.spec_shape(),
            r.spec_data() == self.spec_data(),
    {
        Tensor { data: copy_scalars(&self.data), shape: copy_extents(&self.shape) }
    }
}

/// Compares two extent vectors element by element.
pub(crate) fn eq_extents(a: &Vec<usize>, b: &Vec<usize>) -> (r: bool)
    ensures
        r == (a@ == b@),
{
    if a.len() != b.len() {
        return false;
    }
    let mut i: usize = 0;
    while i < a.len()
        invariant
            i <= a@.len(),
            a@.len() == b@.len(),
            forall|j: int| 0 <= j < i ==> a@[j] == b@[j],
        decreases a@.len() - i,
    {
        if a[i] != b[i] {
            return false;
        }
        i += 1;
    }
    proof {
        assert(a@ =~= b@);
    }
    true
}

fn copy_extents(v: &Vec<usize>) -> (r: Vec<usize>)
    ensures
        r@ == v@,
{
    let mut r: Vec<usize> = Vec::new();
    let mut i: usize = 0;
    while i < v.len()
        invariant
            i <= v@.len(),
            r@ == v@.take(i as int),
        decreases v@.len() - i,
    {
        r.push(v[i]);
        proof {
            assert(v@.take(i + 1int) =~= v@.take(i as int).push(v@[i as int]));
        }
        i += 1;
    }
    proof {
        assert(v@.take(v@.len() as int) =~= v@);
    }
    r
}

fn copy_scalars(v: &Vec<u64>) -> (r: Vec<u64>)
    ensures
        r@ == v@,
{
    let mut r: Vec<u64> = Vec::new();
    let mut i: usize = 0;
    while i < v.len()
        invariant
            i <= v@.len(),
            r@ == v@.take(i as int),
        decreases v@.len() - i,
    {
        r.push(v[i]);
        proof {
            assert(v@.take(i + 1int) =~= v@.take(i as int).push(v@[i as int]));
        }
        i += 1;
    }
    proof {
        assert(v@.take(v@.len() as int) =~= v@);
    }
    r
}

} // verus!
