//! Checking an index or a rectangular region against the dimensions of a
//! variable.

use vstd::prelude::*;
use crate::dimension::{extents, lemma_product_monotonic, lemma_product_prefix, lengths, product, Dimension};
use crate::error::ShapeFault;

verus! {

/// What is wrong, along one dimension of length `len`, with a region that
/// starts at `start` and holds `count` entries; `None` if the region fits.
pub open spec fn entry_fault(len: int, start: int, count: int) -> Option<ShapeFault> {
    if start >= len {
        Some(ShapeFault::IndexOutOfBounds)
    } else if start + count > len {
        Some(ShapeFault::SliceOutOfBounds)
    } else if count == 0 {
        Some(ShapeFault::EmptySlice)
    } else {
        None
    }
}

/// The fault of the first dimension at or after `from` along which the region
/// does not fit.
pub open spec fn first_fault(
    dims: Seq<Dimension>,
    start: Seq<usize>,
    count: Seq<usize>,
    from: int,
) -> Option<ShapeFault>
    decreases dims.len() - from,
{
    if from < 0 || from >= dims.len() {
        None
    } else {
        match entry_fault(dims[from].len as int, start[from] as int, count[from] as int) {
            Some(fault) => Some(fault),
            None => first_fault(dims, start, count, from + 1),
        }
    }
}

/// The shape of a single element: one entry along each of `n` dimensions.
pub open spec fn unit_shape(n: nat) -> Seq<usize> {
    Seq::new(n, |i: int| 1usize)
}

/// What is wrong with the region that starts at `start` and extends over
/// `count`: the counts are compared first, then the dimensions are gone
/// through in their declared order.
pub open spec fn slice_fault(dims: Seq<Dimension>, start: Seq<usize>, count: Seq<usize>) -> Option<
    ShapeFault,
> {
    if start.len() != dims.len() {
        Some(ShapeFault::IndexCount)
    } else if count.len() != start.len() {
        Some(ShapeFault::SliceCount)
    } else {
        first_fault(dims, start, count, 0)
    }
}

/// What is wrong with `index` as the position of one element.
pub open spec fn index_fault(dims: Seq<Dimension>, index: Seq<usize>) -> Option<ShapeFault> {
    slice_fault(dims, index, unit_shape(index.len()))
}

/// The region lies within the dimensions: one start and one count per
/// dimension, every start below the dimension's length, every count at least
/// one, and no region reaching beyond its dimension.
pub open spec fn region_fits(dims: Seq<Dimension>, start: Seq<usize>, count: Seq<usize>) -> bool {
    &&& start.len() == dims.len()
    &&& count.len() == dims.len()
    &&& forall|i: int|
        0 <= i < dims.len() ==> {
            &&& (#[trigger] start[i]) < dims[i].len
            &&& start[i] + count[i] <= dims[i].len
            &&& count[i] >= 1
        }
}

/// The number of elements in a region of the given extents.
pub open spec fn region_size(count: Seq<usize>) -> int {
    product(extents(count))
}

/// No fault from `from` on means that the region fits along every dimension
/// from `from` on.
pub proof fn lemma_first_fault_none(
    dims: Seq<Dimension>,
    start: Seq<usize>,
    count: Seq<usize>,
    from: int,
)
    requires
        0 <= from <= dims.len(),
    ensures
        first_fault(dims, start, count, from) is None <==> forall|i: int|
            from <= i < dims.len() ==> (#[trigger] entry_fault(
                dims[i].len as int,
                start[i] as int,
                count[i] as int,
            )) is None,
    decreases dims.len() - from,
{
    if from < dims.len() {
        lemma_first_fault_none(dims, start, count, from + 1);
    }
}

/// A region is without fault exactly when it fits.
pub proof fn lemma_slice_fault_none(dims: Seq<Dimension>, start: Seq<usize>, count: Seq<usize>)
    ensures
        slice_fault(dims, start, count) is None <==> region_fits(dims, start, count),
{
    if start.len() == dims.len() && count.len() == dims.len() {
        lemma_first_fault_none(dims, start, count, 0);
        if region_fits(dims, start, count) {
            assert forall|i: int| 0 <= i < dims.len() implies (#[trigger] entry_fault(
                dims[i].len as int,
                start[i] as int,
                count[i] as int,
            )) is None by {
                assert(start[i] < dims[i].len);
            }
        } else if slice_fault(dims, start, count) is None {
            assert forall|i: int| 0 <= i < dims.len() implies {
                &&& (#[trigger] start[i]) < dims[i].len
                &&& start[i] + count[i] <= dims[i].len
                &&& count[i] >= 1
            } by {
                assert(entry_fault(dims[i].len as int, start[i] as int, count[i] as int) is None);
            }
        }
    }
}

/// An index is without fault exactly when it has one entry per dimension and
/// every entry lies below the length of its dimension.
pub proof fn lemma_index_fault_none(dims: Seq<Dimension>, index: Seq<usize>)
    ensures
        index_fault(dims, index) is None <==> {
            &&& index.len() == dims.len()
            &&& forall|i: int| 0 <= i < dims.len() ==> (#[trigger] index[i]) < dims[i].len
        },
{
    let ones = unit_shape(index.len());
    lemma_slice_fault_none(dims, index, ones);
    if index.len() == dims.len() {
        if region_fits(dims, index, ones) {
            assert forall|i: int| 0 <= i < dims.len() implies (#[trigger] index[i])
                < dims[i].len by {}
        } else if forall|i: int| 0 <= i < dims.len() ==> (#[trigger] index[i]) < dims[i].len {
            assert forall|i: int| 0 <= i < dims.len() implies {
                &&& (#[trigger] index[i]) < dims[i].len
                &&& index[i] + ones[i] <= dims[i].len
                &&& ones[i] >= 1
            } by {
                assert(ones[i] == 1);
            }
        }
    }
}

/// Some entry of `index` lies at or beyond the length of its dimension.
pub open spec fn out_of_bounds(dims: Seq<Dimension>, index: Seq<usize>) -> bool {
    exists|i: int| 0 <= i < dims.len() && i < index.len() && (#[trigger] index[i]) >= dims[i].len
}

/// An index that is out of bounds is a fault, both as the position of one
/// element and as the start of a region of whatever extents.
pub proof fn lemma_out_of_bounds(dims: Seq<Dimension>, index: Seq<usize>, count: Seq<usize>)
    requires
        out_of_bounds(dims, index),
    ensures
        slice_fault(dims, index, count) is Some,
        index_fault(dims, index) is Some,
{
    let i = choose|i: int| 0 <= i < dims.len() && i < index.len() && (#[trigger] index[i]) >= dims[i].len;
    lemma_out_of_bounds_is_fault(dims, index, count, i);
}

/// An entry at or beyond the length of its dimension is a fault, whatever
/// else holds of the region.
pub proof fn lemma_out_of_bounds_is_fault(
    dims: Seq<Dimension>,
    start: Seq<usize>,
    count: Seq<usize>,
    i: int,
)
    requires
        0 <= i < dims.len(),
        i < start.len(),
        start[i] >= dims[i].len,
    ensures
        slice_fault(dims, start, count) is Some,
        index_fault(dims, start) is Some,
{
    lemma_slice_fault_none(dims, start, count);
    lemma_index_fault_none(dims, start);
}

/// A region that fits holds at least one element and no more than the
/// dimensions hold together.
pub proof fn lemma_region_size_bounds(dims: Seq<Dimension>, start: Seq<usize>, count: Seq<usize>)
    requires
        region_fits(dims, start, count),
    ensures
        1 <= region_size(count) <= product(lengths(dims)),
{
    let c = extents(count);
    let d = lengths(dims);
    assert forall|i: int| 0 <= i < c.len() implies 0 <= #[trigger] c[i] <= d[i] by {
        assert(start[i] < dims[i].len);
    }
    lemma_product_monotonic(c, d);
    assert forall|i: int| 0 <= i < c.len() implies 1 <= #[trigger] c[i] by {
        assert(start[i] < dims[i].len);
    }
    lemma_product_prefix(c, c.len() as int);
    assert(c.take(c.len() as int) =~= c);
}

/// Checks `indices` as the position of one element among `dims`.
pub fn check_index(dims: &Vec<Dimension>, indices: &[usize]) -> (r: Result<(), ShapeFault>)
    ensures
        match index_fault(dims@, indices@) {
            Some(fault) => r == Err::<(), ShapeFault>(fault),
            None => r == Ok::<(), ShapeFault>(()),
        },
{
    if indices.len() != dims.len() {
        return Err(ShapeFault::IndexCount);
    }
    let ghost ones = unit_shape(indices@.len());
    let mut i: usize = 0;
    while i < indices.len()
        invariant
            0 <= i <= indices.len(),
            indices.len() == dims.len(),
            ones == unit_shape(indices@.len()),
            first_fault(dims@, indices@, ones, 0) == first_fault(dims@, indices@, ones, i as int),
        decreases indices.len() - i,
    {
        assert(ones[i as int] == 1);
        if indices[i] as u64 >= dims[i].len {
            return Err(ShapeFault::IndexOutOfBounds);
        }
        i += 1;
    }
    Ok(())
}

/// Checks the region that starts at `indices` and extends over `slice_len`
/// against `dims`, and counts the elements it holds.
pub fn check_slice(dims: &Vec<Dimension>, indices: &[usize], slice_len: &[usize]) -> (r: Result<
    u64,
    ShapeFault,
>)
    ensures
        match slice_fault(dims@, indices@, slice_len@) {
            Some(fault) => r == Err::<u64, ShapeFault>(fault),
            None => match r {
                Ok(total) => total == region_size(slice_len@),
                Err(fault) => fault == ShapeFault::TooLarge && region_size(slice_len@) > u64::MAX,
            },
        },
{
    if indices.len() != dims.len() {
        return Err(ShapeFault::IndexCount);
    }
    if indices.len() != slice_len.len() {
        return Err(ShapeFault::SliceCount);
    }
    let mut i: usize = 0;
    while i < indices.len()
        invariant
            0 <= i <= indices.len(),
            indices.len() == dims.len(),
            indices.len() == slice_len.len(),
            first_fault(dims@, indices@, slice_len@, 0) == first_fault(
                dims@,
                indices@,
                slice_len@,
                i as int,
            ),
        decreases indices.len() - i,
    {
        let len = dims[i].len;
        if indices[i] as u64 >= len {
            return Err(ShapeFault::IndexOutOfBounds);
        }
        if slice_len[i] as u64 > len - indices[i] as u64 {
            return Err(ShapeFault::SliceOutOfBounds);
        }
        if slice_len[i] == 0 {
            return Err(ShapeFault::EmptySlice);
        }
        i += 1;
    }
    let ghost c = extents(slice_len@);
    proof {
        lemma_slice_fault_none(dims@, indices@, slice_len@);
        assert forall|j: int| 0 <= j < c.len() implies 1 <= #[trigger] c[j] by {
            assert(indices@[j] < dims@[j].len);
        }
    }
    let mut total: u64 = 1;
    let mut k: usize = 0;
    while k < slice_len.len()
        invariant
            0 <= k <= slice_len.len(),
            c == extents(slice_len@),
            slice_fault(dims@, indices@, slice_len@) is None,
            forall|j: int| 0 <= j < c.len() ==> 1 <= #[trigger] c[j],
            total == product(c.take(k as int)),
        decreases slice_len.len() - k,
    {
        proof {
            lemma_product_prefix(c, k as int + 1);
            assert(c.take(k as int + 1).drop_last() =~= c.take(k as int));
        }
        match total.checked_mul(slice_len[k] as u64) {
            Some(next) => {
                total = next;
            },
            None => {
                return Err(ShapeFault::TooLarge);
            },
        }
        k += 1;
    }
    assert(c.take(k as int) =~= c);
    Ok(total)
}

} // verus!
