//! Nested input values as a host boundary hands them over, and the
//! mathematical model of their shape and flat row-major contents.

use vstd::prelude::*;

verus! {

/// One value of a nested input: a numeric scalar carried as the bit pattern
/// of an IEEE-754 double, a sequence of further values, or something the
/// boundary could not read as either of those.
#[derive(Debug)]
pub enum NestedValue {
    Scalar(u64),
    Sequence(Vec<NestedValue>),
    Unsupported,
}

/// The shape a value claims: one extent per nesting level, read along the
/// first element of every sequence. Total so that contracts can speak of any
/// value; it is the true shape exactly of rectangular values.
pub open spec fn shape_of(n: NestedValue) -> Seq<usize>
    decreases n,
{
    match n {
        NestedValue::Scalar(_) => Seq::empty(),
        NestedValue::Unsupported => Seq::empty(),
        NestedValue::Sequence(v) => seq![v@.len() as usize]
            + (if v@.len() == 0 { Seq::<usize>::empty() } else { shape_of(v@[0]) }),
    }
}

/// The scalars of a value in depth-first, left-to-right order: exactly the
/// row-major layout of a rectangular value.
pub open spec fn flat_of(n: NestedValue) -> Seq<u64>
    decreases n, 1int,
{
    match n {
        NestedValue::Scalar(x) => seq![x],
        NestedValue::Unsupported => Seq::empty(),
        NestedValue::Sequence(v) => flat_of_elems(v@),
    }
}

/// The concatenated flat contents of a run of sibling values.
pub open spec fn flat_of_elems(s: Seq<NestedValue>) -> Seq<u64>
    decreases s, 0int,
{
    if s.len() == 0 {
        Seq::empty()
    } else {
        flat_of(s[0]) + flat_of_elems(s.drop_first())
    }
}

/// All elements of a run of siblings are numeric scalars.
pub open spec fn all_scalars(s: Seq<NestedValue>) -> bool {
    forall|i: int| 0 <= i < s.len() ==> s[i] is Scalar
}

/// A value is a well-formed rectangular tensor literal: a non-empty sequence
/// whose elements are either all scalars, or all rectangular sequences of
/// one common shape.
pub open spec fn node_ok(n: NestedValue) -> bool
    decreases n, 1int,
{
    match n {
        NestedValue::Sequence(v) => v@.len() > 0 && (all_scalars(v@) || seqs_ok(
            v@,
            shape_of(v@[0]),
        )),
        _ => false,
    }
}

/// Every element of a run of siblings is a rectangular sequence of shape
/// `sh`.
pub open spec fn seqs_ok(s: Seq<NestedValue>, sh: Seq<usize>) -> bool
    decreases s, 0int,
{
    if s.len() == 0 {
        true
    } else {
        node_ok(s[0]) && shape_of(s[0]) == sh && seqs_ok(s.drop_first(), sh)
    }
}

/// The number of elements a shape asks for: the product of its extents.
pub open spec fn product(s: Seq<usize>) -> nat
    decreases s,
{
    if s.len() == 0 {
        1
    } else {
        (s[0] as nat) * product(s.drop_first())
    }
}

/// The nesting depth of a value, read along first elements: a scalar is
/// depth 0, a sequence one deeper than its first element.
pub open spec fn depth_of(n: NestedValue) -> nat
    decreases n,
{
    match n {
        NestedValue::Sequence(v) => 1 + (if v@.len() == 0 {
            0nat
        } else {
            depth_of(v@[0])
        }),
        _ => 0,
    }
}

/// The scalar sitting at a multi-index of a nested value, by walking one
/// dimension per index component.
pub open spec fn element_at(n: NestedValue, idx: Seq<usize>) -> u64
    decreases n,
{
    if idx.len() == 0 {
        n->Scalar_0
    } else if n is Sequence && (idx[0] as int) < n->Sequence_0@.len() {
        element_at(n->Sequence_0@[idx[0] as int], idx.drop_first())
    } else {
        0
    }
}

/// A run of scalar siblings flattens to exactly its own scalars, in order.
pub proof fn lemma_flat_scalars(s: Seq<NestedValue>)
    requires
        all_scalars(s),
    ensures
        flat_of_elems(s).len() == s.len(),
        forall|j: int| 0 <= j < s.len() ==> flat_of_elems(s)[j] == s[j]->Scalar_0,
    decreases s.len(),
{
    if s.len() > 0 {
        assert(s[0] is Scalar);
        assert(all_scalars(s.drop_first())) by {
            assert forall|j: int| 0 <= j < s.drop_first().len() implies s.drop_first()[j]
                is Scalar by {
                assert(s.drop_first()[j] == s[j + 1]);
            }
        }
        lemma_flat_scalars(s.drop_first());
        assert(flat_of(s[0]) == seq![s[0]->Scalar_0]);
        assert(flat_of_elems(s) == seq![s[0]->Scalar_0] + flat_of_elems(s.drop_first()));
        assert forall|j: int| 0 <= j < s.len() implies flat_of_elems(s)[j] == s[j]->Scalar_0 by {
            if j > 0 {
                assert(flat_of_elems(s)[j] == flat_of_elems(s.drop_first())[j - 1]);
                assert(s.drop_first()[j - 1] == s[j]);
            }
        }
    }
}

/// Appending one sibling appends its flat contents.
pub proof fn lemma_flat_elems_snoc(s: Seq<NestedValue>, x: NestedValue)
    ensures
        flat_of_elems(s.push(x)) == flat_of_elems(s) + flat_of(x),
    decreases s.len(),
{
    if s.len() == 0 {
        assert(s.push(x)[0] == x);
        assert(s.push(x).drop_first() =~= Seq::<NestedValue>::empty());
        assert(flat_of(x) + flat_of_elems(Seq::empty()) =~= flat_of(x));
        assert(flat_of_elems(s) + flat_of(x) =~= flat_of(x));
    } else {
        assert(s.push(x)[0] == s[0]);
        assert(s.push(x).drop_first() =~= s.drop_first().push(x));
        lemma_flat_elems_snoc(s.drop_first(), x);
        assert((flat_of(s[0]) + flat_of_elems(s.drop_first())) + flat_of(x) =~= flat_of(s[0]) + (
        flat_of_elems(s.drop_first()) + flat_of(x)));
    }
}

/// Each member of a run of rectangular siblings of shape `sh` is itself
/// rectangular of shape `sh`.
pub proof fn lemma_seqs_ok_index(s: Seq<NestedValue>, sh: Seq<usize>, i: int)
    requires
        seqs_ok(s, sh),
        0 <= i < s.len(),
    ensures
        s[i] is Sequence,
        node_ok(s[i]),
        shape_of(s[i]) == sh,
    decreases i,
{
    if i > 0 {
        lemma_seqs_ok_index(s.drop_first(), sh, i - 1);
        assert(s.drop_first()[i - 1] == s[i]);
    }
    assert(node_ok(s[i]));
    assert(s[i] is Sequence);
}

/// A run of siblings, each rectangular of shape `sh`, is a well-formed run.
pub proof fn lemma_seqs_ok_from_forall(s: Seq<NestedValue>, sh: Seq<usize>)
    requires
        forall|j: int| 0 <= j < s.len() ==> node_ok(#[trigger] s[j]) && shape_of(s[j]) == sh,
    ensures
        seqs_ok(s, sh),
    decreases s.len(),
{
    if s.len() > 0 {
        assert forall|j: int| 0 <= j < s.drop_first().len() implies node_ok(
            #[trigger] s.drop_first()[j],
        ) && shape_of(s.drop_first()[j]) == sh by {
            assert(s.drop_first()[j] == s[j + 1]);
        }
        lemma_seqs_ok_from_forall(s.drop_first(), sh);
    }
}

} // verus!
