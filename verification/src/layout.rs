//! Where the elements of a variable stand in flat data: the last dimension
//! varies fastest.

use vstd::prelude::*;
use crate::dimension::{lemma_product_prefix, lengths, product, Dimension};
use crate::error::ShapeFault;
use crate::shape::{check_index, index_fault, lemma_index_fault_none};

verus! {

/// The position, in the flat data of an array with dimensions `dims`, of the
/// element at `index`. Along the last dimension neighbours stand side by
/// side; a step along any other dimension passes over all that the
/// dimensions after it hold together.
pub open spec fn flat_offset(dims: Seq<Dimension>, index: Seq<usize>) -> int
    decreases index.len(),
{
    if index.len() == 0 || dims.len() == 0 {
        0
    } else {
        flat_offset(dims.drop_last(), index.drop_last()) * dims.last().len + index.last()
    }
}

/// `index` has one entry per dimension, each below the length of its
/// dimension.
pub open spec fn index_fits(dims: Seq<Dimension>, index: Seq<usize>) -> bool {
    &&& index.len() == dims.len()
    &&& forall|i: int| 0 <= i < dims.len() ==> (#[trigger] index[i]) < dims[i].len
}

/// The element at an index that fits stands within the flat data.
pub proof fn lemma_flat_offset_bounds(dims: Seq<Dimension>, index: Seq<usize>)
    requires
        index_fits(dims, index),
    ensures
        0 <= flat_offset(dims, index) < product(lengths(dims)),
    decreases index.len(),
{
    if index.len() > 0 {
        let d = dims.drop_last();
        let i = index.drop_last();
        assert(index_fits(d, i)) by {
            assert forall|k: int| 0 <= k < d.len() implies (#[trigger] i[k]) < d[k].len by {
                assert(index[k] < dims[k].len);
            }
        }
        lemma_flat_offset_bounds(d, i);
        assert(lengths(dims).drop_last() =~= lengths(d));
        assert(lengths(dims).last() == dims.last().len);
        assert(index[index.len() - 1] < dims[index.len() - 1].len);
        let front = flat_offset(d, i);
        let held = product(lengths(d));
        let len = dims.last().len as int;
        let last = index.last() as int;
        assert(0 <= front * len + last < held * len) by (nonlinear_arith)
            requires
                0 <= front < held,
                0 <= last < len,
        ;
    }
}

/// Two indices that fit and share a position are one index: no two elements
/// stand in one place.
pub proof fn lemma_flat_offset_injective(dims: Seq<Dimension>, a: Seq<usize>, b: Seq<usize>)
    requires
        index_fits(dims, a),
        index_fits(dims, b),
        flat_offset(dims, a) == flat_offset(dims, b),
    ensures
        a == b,
    decreases dims.len(),
{
    if dims.len() > 0 {
        let d = dims.drop_last();
        let fa = a.drop_last();
        let fb = b.drop_last();
        assert(index_fits(d, fa)) by {
            assert forall|k: int| 0 <= k < d.len() implies (#[trigger] fa[k]) < d[k].len by {
                assert(a[k] < dims[k].len);
            }
        }
        assert(index_fits(d, fb)) by {
            assert forall|k: int| 0 <= k < d.len() implies (#[trigger] fb[k]) < d[k].len by {
                assert(b[k] < dims[k].len);
            }
        }
        assert(a[a.len() - 1] < dims[a.len() - 1].len);
        assert(b[b.len() - 1] < dims[b.len() - 1].len);
        let len = dims.last().len as int;
        let oa = flat_offset(d, fa);
        let ob = flat_offset(d, fb);
        let la = a.last() as int;
        let lb = b.last() as int;
        assert(oa == ob && la == lb) by (nonlinear_arith)
            requires
                oa * len + la == ob * len + lb,
                0 <= la < len,
                0 <= lb < len,
        ;
        lemma_flat_offset_injective(d, fa, fb);
        assert(a =~= fa.push(a.last()));
        assert(b =~= fb.push(b.last()));
    } else {
        assert(a =~= b);
    }
}

/// A step along the last dimension is a step to the neighbour in the flat
/// data: the last dimension varies fastest.
pub proof fn lemma_last_varies_fastest(dims: Seq<Dimension>, index: Seq<usize>, next: Seq<usize>)
    requires
        index.len() == dims.len(),
        next.len() == dims.len(),
        dims.len() > 0,
        next.drop_last() == index.drop_last(),
        next.last() == index.last() + 1,
    ensures
        flat_offset(dims, next) == flat_offset(dims, index) + 1,
{
}

/// Computes the position in the flat data of the element at `indices`, for
/// dimensions that hold no more elements together than a `u64` can count.
pub(crate) fn locate(dims: &Vec<Dimension>, indices: &[usize]) -> (r: Result<u64, ShapeFault>)
    requires
        product(lengths(dims@)) <= u64::MAX,
    ensures
        match index_fault(dims@, indices@) {
            Some(fault) => r == Err::<u64, ShapeFault>(fault),
            None => r is Ok && r->Ok_0 == flat_offset(dims@, indices@) && r->Ok_0 < product(
                lengths(dims@),
            ),
        },
{
    match check_index(dims, indices) {
        Ok(()) => {},
        Err(fault) => {
            return Err(fault);
        },
    }
    let ghost d = lengths(dims@);
    proof {
        lemma_index_fault_none(dims@, indices@);
        assert forall|j: int| 0 <= j < d.len() implies 1 <= #[trigger] d[j] by {
            assert(indices@[j] < dims@[j].len);
        }
    }
    let mut offset: u64 = 0;
    let mut i: usize = 0;
    while i < indices.len()
        invariant
            0 <= i <= indices.len(),
            d == lengths(dims@),
            index_fits(dims@, indices@),
            forall|j: int| 0 <= j < d.len() ==> 1 <= #[trigger] d[j],
            product(d) <= u64::MAX,
            offset == flat_offset(dims@.take(i as int), indices@.take(i as int)),
        decreases indices.len() - i,
    {
        proof {
            let dn = dims@.take(i as int + 1);
            let xn = indices@.take(i as int + 1);
            assert(dn.drop_last() =~= dims@.take(i as int));
            assert(xn.drop_last() =~= indices@.take(i as int));
            assert(index_fits(dn, xn)) by {
                assert forall|k: int| 0 <= k < dn.len() implies (#[trigger] xn[k]) < dn[k].len by {
                    assert(indices@[k] < dims@[k].len);
                }
            }
            lemma_flat_offset_bounds(dn, xn);
            assert(lengths(dn) =~= d.take(i as int + 1));
            lemma_product_prefix(d, i as int + 1);
            assert(offset * dims@[i as int].len >= 0) by (nonlinear_arith)
                requires
                    offset >= 0,
                    dims@[i as int].len >= 0,
            ;
        }
        offset = offset * dims[i].len + indices[i] as u64;
        i += 1;
    }
    proof {
        assert(dims@.take(i as int) =~= dims@);
        assert(indices@.take(i as int) =~= indices@);
        lemma_flat_offset_bounds(dims@, indices@);
    }
    Ok(offset)
}

} // verus!
