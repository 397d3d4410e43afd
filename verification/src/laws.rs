//! The library's general laws, stated once over the model and proved for
//! every input: buffer length against shape, rank against nesting depth,
//! the row-major round trip, and the elementwise kernel's insensitivity to
//! chunking and to operand order.

use crate::tensor::offset_of;
use crate::tensor::valid_index;
use crate::value::NestedValue;
use crate::value::all_scalars;
use crate::value::depth_of;
use crate::value::element_at;
use crate::value::flat_of;
use crate::value::flat_of_elems;
use crate::value::lemma_flat_scalars;
use crate::value::lemma_seqs_ok_index;
use crate::value::node_ok;
use crate::value::product;
use crate::value::seqs_ok;
use crate::value::shape_of;
use vstd::prelude::*;

verus! {

proof fn lemma_flat_len_elems(s: Seq<NestedValue>, sh: Seq<usize>)
    requires
        forall|j: int| 0 <= j < s.len() ==> node_ok(#[trigger] s[j]) && shape_of(s[j]) == sh,
    ensures
        flat_of_elems(s).len() == s.len() * product(sh),
    decreases s, 0int,
{
    if s.len() == 0 {
    } else {
        lemma_flat_matches_shape(s[0]);
        assert forall|j: int| 0 <= j < s.drop_first().len() implies node_ok(
            #[trigger] s.drop_first()[j],
        ) && shape_of(s.drop_first()[j]) == sh by {
            assert(s.drop_first()[j] == s[j + 1]);
        }
        lemma_flat_len_elems(s.drop_first(), sh);
        let p = product(sh) as int;
        assert(p + (s.len() - 1) * p == s.len() * p) by (nonlinear_arith);
    }
}

/// Law: a rectangular value's flat buffer holds exactly as many scalars as
/// its shape's extents multiply out to; no truncation and no padding.
pub proof fn lemma_flat_matches_shape(n: NestedValue)
    requires
        node_ok(n),
    ensures
        flat_of(n).len() == product(shape_of(n)),
    decreases n, 1int,
{
    let s = n->Sequence_0@;
    let l = s.len();
    assert(n->Sequence_0.len() == s.len());
    assert(s.len() <= usize::MAX);
    if all_scalars(s) {
        lemma_flat_scalars(s);
        assert(s[0] is Scalar);
        assert(shape_of(s[0]) == Seq::<usize>::empty());
        assert(shape_of(n) == seq![s.len() as usize] + shape_of(s[0]));
        assert(shape_of(n).drop_first() =~= shape_of(s[0]));
        assert(product(Seq::<usize>::empty()) == 1);
        assert(product(shape_of(n)) == (shape_of(n)[0] as nat) * 1);
        assert(shape_of(n)[0] == s.len() as usize);
    } else {
        let sh = shape_of(s[0]);
        assert(seqs_ok(s, sh));
        assert forall|j: int| 0 <= j < s.len() implies node_ok(#[trigger] s[j]) && shape_of(s[j])
            == sh by {
            lemma_seqs_ok_index(s, sh, j);
        }
        lemma_flat_len_elems(s, sh);
        assert(shape_of(n).drop_first() =~= sh);
        assert(shape_of(n)[0] == l as usize);
        assert(product(shape_of(n)) == (l as usize as nat) * product(sh));
    }
}

/// Law: a rectangular value's rank is its nesting depth — the shape has one
/// extent per nesting level.
pub proof fn lemma_rank_is_depth(n: NestedValue)
    requires
        node_ok(n),
    ensures
        shape_of(n).len() == depth_of(n),
    decreases n,
{
    let s = n->Sequence_0@;
    if all_scalars(s) {
        assert(s[0] is Scalar);
        assert(shape_of(s[0]) == Seq::<usize>::empty());
        assert(depth_of(s[0]) == 0);
        assert(shape_of(n) == seq![s.len() as usize] + shape_of(s[0]));
    } else {
        let sh = shape_of(s[0]);
        assert(seqs_ok(s, sh));
        lemma_seqs_ok_index(s, sh, 0);
        lemma_rank_is_depth(s[0]);
        assert(shape_of(n) == seq![s.len() as usize] + shape_of(s[0]));
        assert(depth_of(n) == 1 + depth_of(s[0]));
    }
}

/// Law: the shape reads one extent off each nesting level — the leading
/// extent is the element count, and every sibling carries exactly the
/// remaining extents as its own shape.
pub proof fn lemma_shape_per_level(n: NestedValue)
    requires
        node_ok(n),
    ensures
        shape_of(n).len() >= 1,
        shape_of(n)[0] == n->Sequence_0.len(),
        forall|j: int|
            0 <= j < n->Sequence_0@.len() ==> shape_of(#[trigger] n->Sequence_0@[j])
                == shape_of(n).drop_first(),
{
    let s = n->Sequence_0@;
    assert(n->Sequence_0.len() == s.len());
    assert(s.len() <= usize::MAX);
    if all_scalars(s) {
        assert(s[0] is Scalar);
        assert(shape_of(s[0]) == Seq::<usize>::empty());
        assert(shape_of(n) == seq![s.len() as usize] + shape_of(s[0]));
        assert(shape_of(n).drop_first() =~= Seq::<usize>::empty());
        assert forall|j: int| 0 <= j < s.len() implies shape_of(#[trigger] s[j]) == shape_of(
            n,
        ).drop_first() by {
            assert(s[j] is Scalar);
        }
    } else {
        let sh = shape_of(s[0]);
        assert(seqs_ok(s, sh));
        assert(shape_of(n) == seq![s.len() as usize] + sh);
        assert(shape_of(n).drop_first() =~= sh);
        assert forall|j: int| 0 <= j < s.len() implies shape_of(#[trigger] s[j]) == shape_of(
            n,
        ).drop_first() by {
            lemma_seqs_ok_index(s, sh, j);
        }
    }
}

proof fn lemma_flat_elems_index(s: Seq<NestedValue>, sh: Seq<usize>, k: int, r: int)
    requires
        forall|j: int| 0 <= j < s.len() ==> node_ok(#[trigger] s[j]) && shape_of(s[j]) == sh,
        0 <= k < s.len(),
        0 <= r < product(sh),
    ensures
        flat_of_elems(s).len() == s.len() * product(sh),
        flat_of_elems(s)[k * (product(sh) as int) + r] == flat_of(s[k])[r],
    decreases k,
{
    lemma_flat_len_elems(s, sh);
    lemma_flat_matches_shape(s[0]);
    let p = product(sh) as int;
    if k == 0 {
        assert(0 * p == 0) by (nonlinear_arith);
        assert(flat_of_elems(s)[r] == flat_of(s[0])[r]);
    } else {
        assert forall|j: int| 0 <= j < s.drop_first().len() implies node_ok(
            #[trigger] s.drop_first()[j],
        ) && shape_of(s.drop_first()[j]) == sh by {
            assert(s.drop_first()[j] == s[j + 1]);
        }
        lemma_flat_elems_index(s.drop_first(), sh, k - 1, r);
        assert(k * p == p + (k - 1) * p) by (nonlinear_arith);
        assert((k - 1) * p + r >= 0) by (nonlinear_arith)
            requires
                k >= 1,
                p >= 0,
                r >= 0,
        ;
        assert(k * p + r < s.len() * p) by (nonlinear_arith)
            requires
                0 <= k < s.len(),
                0 <= r < p,
        ;
        assert(flat_of_elems(s) == flat_of(s[0]) + flat_of_elems(s.drop_first()));
        assert(flat_of(s[0]).len() == p);
        assert(flat_of_elems(s)[k * p + r] == flat_of_elems(s.drop_first())[(k - 1) * p + r]);
        assert(s.drop_first()[k - 1] == s[k]);
    }
}

/// Law: the round trip — the scalar at any valid multi-index of a
/// rectangular value sits in its flat buffer at exactly the row-major
/// offset of that index. Flat buffer and shape together therefore
/// reproduce the nested value, element by element.
pub proof fn lemma_round_trip(n: NestedValue, idx: Seq<usize>)
    requires
        node_ok(n),
        valid_index(shape_of(n), idx),
    ensures
        offset_of(shape_of(n), idx) < flat_of(n).len(),
        flat_of(n)[offset_of(shape_of(n), idx) as int] == element_at(n, idx),
    decreases n,
{
    let s = n->Sequence_0@;
    let l = s.len() as int;
    assert(n->Sequence_0.len() == s.len());
    assert(s.len() <= usize::MAX);
    lemma_flat_matches_shape(n);
    assert(shape_of(n)[0] == l as usize);
    assert(idx[0] < shape_of(n)[0]);
    if all_scalars(s) {
        lemma_flat_scalars(s);
        assert(s[0] is Scalar);
        assert(shape_of(s[0]) == Seq::<usize>::empty());
        assert(shape_of(n) == seq![s.len() as usize] + shape_of(s[0]));
        assert(shape_of(n).drop_first() =~= Seq::<usize>::empty());
        assert(product(Seq::<usize>::empty()) == 1);
        assert(offset_of(Seq::<usize>::empty(), idx.drop_first()) == 0);
        assert(offset_of(shape_of(n), idx) == (idx[0] as nat) * 1);
        assert(element_at(n, idx) == element_at(s[idx[0] as int], idx.drop_first()));
        assert(element_at(s[idx[0] as int], idx.drop_first()) == s[idx[0] as int]->Scalar_0);
    } else {
        let sh = shape_of(s[0]);
        assert(seqs_ok(s, sh));
        assert forall|j: int| 0 <= j < s.len() implies node_ok(#[trigger] s[j]) && shape_of(s[j])
            == sh by {
            lemma_seqs_ok_index(s, sh, j);
        }
        assert(shape_of(n).drop_first() =~= sh);
        let i0 = idx[0] as int;
        assert(idx.drop_first().len() == sh.len());
        assert forall|d: int| 0 <= d < idx.drop_first().len() implies #[trigger] idx.drop_first()[d]
            < sh[d] by {
            assert(idx.drop_first()[d] == idx[d + 1]);
            assert(shape_of(n)[d + 1] == sh[d]);
        }
        lemma_round_trip(s[i0], idx.drop_first());
        lemma_flat_matches_shape(s[i0]);
        let p = product(sh) as int;
        let r = offset_of(sh, idx.drop_first()) as int;
        lemma_flat_elems_index(s, sh, i0, r);
        assert(offset_of(shape_of(n), idx) == i0 * p + r);
        assert(i0 * p + r < l * p) by (nonlinear_arith)
            requires
                0 <= i0 < l,
                0 <= r < p,
        ;
        assert(element_at(n, idx) == element_at(s[i0], idx.drop_first()));
    }
}

/// Law: reconstruction — two rectangular values with one shape and one
/// flat buffer hold the same scalar at every valid multi-index, so shape
/// and buffer determine the nested value element by element.
pub proof fn lemma_reconstruction(n1: NestedValue, n2: NestedValue, idx: Seq<usize>)
    requires
        node_ok(n1),
        node_ok(n2),
        shape_of(n1) == shape_of(n2),
        flat_of(n1) == flat_of(n2),
        valid_index(shape_of(n1), idx),
    ensures
        element_at(n1, idx) == element_at(n2, idx),
{
    lemma_round_trip(n1, idx);
    lemma_round_trip(n2, idx);
}

/// Law: chunking is invisible — when the elementwise operation is
/// deterministic, any two output buffers produced element by element from
/// the same operands are equal, whatever chunk lengths the traversals used.
pub proof fn lemma_elementwise_deterministic<F: Fn(u64, u64) -> u64>(
    op: F,
    a: Seq<u64>,
    b: Seq<u64>,
    r1: Seq<u64>,
    r2: Seq<u64>,
)
    requires
        b.len() == a.len(),
        r1.len() == a.len(),
        r2.len() == a.len(),
        forall|i: int| 0 <= i < a.len() ==> call_ensures(op, (a[i], b[i]), #[trigger] r1[i]),
        forall|i: int| 0 <= i < a.len() ==> call_ensures(op, (a[i], b[i]), #[trigger] r2[i]),
        forall|x: u64, y: u64, z1: u64, z2: u64|
            call_ensures(op, (x, y), z1) && call_ensures(op, (x, y), z2) ==> z1 == z2,
    ensures
        r1 == r2,
{
    assert forall|i: int| 0 <= i < a.len() implies r1[i] == r2[i] by {
        assert(call_ensures(op, (a[i], b[i]), r1[i]));
        assert(call_ensures(op, (a[i], b[i]), r2[i]));
    }
    assert(r1 =~= r2);
}

/// Law: commutativity — when the elementwise operation is deterministic
/// and symmetric in its operands, combining `a` with `b` and `b` with `a`
/// element by element give equal buffers.
pub proof fn lemma_elementwise_commutes<F: Fn(u64, u64) -> u64>(
    op: F,
    a: Seq<u64>,
    b: Seq<u64>,
    ab: Seq<u64>,
    ba: Seq<u64>,
)
    requires
        b.len() == a.len(),
        ab.len() == a.len(),
        ba.len() == a.len(),
        forall|i: int| 0 <= i < a.len() ==> call_ensures(op, (a[i], b[i]), #[trigger] ab[i]),
        forall|i: int| 0 <= i < a.len() ==> call_ensures(op, (b[i], a[i]), #[trigger] ba[i]),
        forall|x: u64, y: u64, z1: u64, z2: u64|
            call_ensures(op, (x, y), z1) && call_ensures(op, (x, y), z2) ==> z1 == z2,
        forall|x: u64, y: u64, z: u64| call_ensures(op, (x, y), z) ==> call_ensures(
            op,
            (y, x),
            z,
        ),
    ensures
        ab == ba,
{
    assert forall|i: int| 0 <= i < a.len() implies ab[i] == ba[i] by {
        assert(call_ensures(op, (b[i], a[i]), ba[i]));
        assert(call_ensures(op, (a[i], b[i]), ba[i]));
        assert(call_ensures(op, (a[i], b[i]), ab[i]));
    }
    assert(ab =~= ba);
}

} // verus!
