//! Multi-dimensional arrays made of flat data.

use vstd::prelude::*;
use crate::dimension::{extents, product};

verus! {

/// The error of `ndarray` for a shape that does not fit its data. It is
/// carried through, not looked into.
#[verifier::external_type_specification]
#[verifier::external_body]
pub struct ExShapeError(ndarray::ShapeError);

/// An array of `ndarray` with any number of dimensions. The verifier cannot
/// take the declaration of `ndarray::ArrayBase`, which is bound by a trait
/// of that crate, so the array is held here, and is opaque to it.
#[verifier::external_body]
#[verifier::reject_recursive_types(T)]
pub struct DynArray<T> {
    pub array: ndarray::ArrayD<T>,
}

/// An array together with the record of what it was made of: the lengths of
/// its axes, and its elements in the order in which the last axis varies
/// fastest.
#[verifier::reject_recursive_types(T)]
pub struct Grid<T> {
    pub inner: DynArray<T>,
    pub shape: Ghost<Seq<usize>>,
    pub items: Ghost<Seq<T>>,
}

/// The product of the entries of `s` that are not zero.
pub open spec fn product_nonzero(s: Seq<int>) -> int
    decreases s.len(),
{
    if s.len() == 0 {
        1
    } else if s.last() == 0 {
        product_nonzero(s.drop_last())
    } else {
        product_nonzero(s.drop_last()) * s.last()
    }
}

/// Whether an array of the given shape can be made of `n` elements: the
/// shape holds exactly `n` elements, and the product of its axis lengths
/// other than zero does not exceed `isize::MAX`.
pub open spec fn shape_admits(shape: Seq<usize>, n: nat) -> bool {
    &&& product(extents(shape)) == n
    &&& product_nonzero(extents(shape)) <= isize::MAX
}

/// Where no entry is zero, the product of the entries other than zero is
/// the product of all.
pub proof fn lemma_product_nonzero(s: Seq<int>)
    requires
        forall|i: int| 0 <= i < s.len() ==> #[trigger] s[i] != 0,
    ensures
        product_nonzero(s) == product(s),
    decreases s.len(),
{
    if s.len() > 0 {
        lemma_product_nonzero(s.drop_last());
    }
}

/// Calls `ndarray::ArrayD::from_shape_vec` with `shape` as the lengths of the
/// axes, in row-major order. As its source has it, the call succeeds exactly
/// where the product of the axis lengths other than zero does not exceed
/// `isize::MAX` and the product of all axis lengths is the number of
/// `values`; it does not panic.
#[verifier::external_body]
fn from_shape_vec<T>(shape: Vec<usize>, values: Vec<T>) -> (r: Result<
    DynArray<T>,
    ndarray::ShapeError,
>)
    ensures
        r is Ok <==> shape_admits(shape@, values@.len()),
{
    match ndarray::ArrayD::from_shape_vec(shape, values) {
        Ok(array) => Ok(DynArray { array }),
        Err(error) => Err(error),
    }
}

impl<T> Grid<T> {
    /// The array of the given shape whose elements, the last axis varying
    /// fastest, are `values`; `None` where the shape does not admit that
    /// many values.
    pub fn from_shape(shape: Vec<usize>, values: Vec<T>) -> (r: Option<Grid<T>>)
        ensures
            r is Some <==> shape_admits(shape@, values@.len()),
            r is Some ==> r->Some_0.shape@ == shape@ && r->Some_0.items@ == values@,
    {
        let ghost lens = shape@;
        let ghost items = values@;
        match from_shape_vec(shape, values) {
            Ok(inner) => Some(Grid { inner: inner, shape: Ghost(lens), items: Ghost(items) }),
            Err(_) => None,
        }
    }
}

} // verus!
