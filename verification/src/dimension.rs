//! Dimensions: the named, fixed-length axes along which variables extend.

use vstd::prelude::*;

verus! {

/// A named axis of fixed length. A variable holds its own copy of each
/// dimension it extends along; `id` is the key under which the owning scope
/// knows the dimension.
#[derive(Debug)]
pub struct Dimension {
    pub name: String,
    pub len: u64,
    pub id: i32,
}

impl Clone for Dimension {
    fn clone(&self) -> (r: Self)
        ensures
            r == *self,
    {
        Dimension { name: self.name.clone(), len: self.len, id: self.id }
    }
}

/// The lengths of `dims`, in the same order.
pub open spec fn lengths(dims: Seq<Dimension>) -> Seq<int> {
    Seq::new(dims.len(), |i: int| dims[i].len as int)
}

/// The entries of `count` as mathematical integers.
pub open spec fn extents(count: Seq<usize>) -> Seq<int> {
    Seq::new(count.len(), |i: int| count[i] as int)
}

/// The product of all entries of `s`; 1 for the empty sequence.
pub open spec fn product(s: Seq<int>) -> int
    decreases s.len(),
{
    if s.len() == 0 {
        1
    } else {
        product(s.drop_last()) * s.last()
    }
}

/// A product of positive entries is positive.
pub proof fn lemma_product_positive(s: Seq<int>)
    requires
        forall|i: int| 0 <= i < s.len() ==> 1 <= #[trigger] s[i],
    ensures
        1 <= product(s),
    decreases s.len(),
{
    if s.len() > 0 {
        lemma_product_positive(s.drop_last());
        assert(1 <= product(s.drop_last()) * s.last()) by (nonlinear_arith)
            requires
                1 <= product(s.drop_last()),
                1 <= s.last(),
        ;
    }
}

/// Entry by entry smaller factors give a smaller product.
pub proof fn lemma_product_monotonic(a: Seq<int>, b: Seq<int>)
    requires
        a.len() == b.len(),
        forall|i: int| 0 <= i < a.len() ==> 0 <= #[trigger] a[i] <= b[i],
    ensures
        0 <= product(a) <= product(b),
    decreases a.len(),
{
    if a.len() > 0 {
        lemma_product_monotonic(a.drop_last(), b.drop_last());
        assert(0 <= product(a.drop_last()) * a.last() <= product(b.drop_last()) * b.last())
            by (nonlinear_arith)
            requires
                0 <= product(a.drop_last()) <= product(b.drop_last()),
                0 <= a.last() <= b.last(),
        ;
    }
}

/// With positive entries, the product over a prefix does not exceed the
/// product over the whole sequence.
pub proof fn lemma_product_prefix(s: Seq<int>, n: int)
    requires
        0 <= n <= s.len(),
        forall|i: int| 0 <= i < s.len() ==> 1 <= #[trigger] s[i],
    ensures
        1 <= product(s.take(n)) <= product(s),
    decreases s.len() - n,
{
    if n == s.len() {
        assert(s.take(n) =~= s);
        lemma_product_positive(s);
    } else {
        lemma_product_prefix(s, n + 1);
        assert(s.take(n + 1).drop_last() =~= s.take(n));
        lemma_product_positive(s.take(n));
        assert(product(s.take(n)) <= product(s.take(n)) * s[n]) by (nonlinear_arith)
            requires
                1 <= product(s.take(n)),
                1 <= s[n],
        ;
    }
}

/// A product with a zero entry is zero.
pub proof fn lemma_product_zero(s: Seq<int>, i: int)
    requires
        0 <= i < s.len(),
        s[i] == 0,
    ensures
        product(s) == 0,
    decreases s.len(),
{
    if i < s.len() - 1 {
        lemma_product_zero(s.drop_last(), i);
    }
    assert(product(s.drop_last()) * s.last() == 0) by (nonlinear_arith)
        requires
            product(s.drop_last()) == 0 || s.last() == 0,
    ;
}

/// The number of elements that dimensions of these lengths hold together,
/// where a `u64` can hold that number.
pub fn element_count(dims: &Vec<Dimension>) -> (r: Option<u64>)
    ensures
        match r {
            Some(count) => count == product(lengths(dims@)),
            None => product(lengths(dims@)) > u64::MAX,
        },
{
    let ghost d = lengths(dims@);
    let mut i: usize = 0;
    while i < dims.len()
        invariant
            0 <= i <= dims.len(),
            d == lengths(dims@),
            forall|j: int| 0 <= j < i ==> 1 <= #[trigger] d[j],
        decreases dims.len() - i,
    {
        if dims[i].len == 0 {
            proof {
                lemma_product_zero(d, i as int);
            }
            return Some(0);
        }
        i += 1;
    }
    let mut total: u64 = 1;
    let mut k: usize = 0;
    while k < dims.len()
        invariant
            0 <= k <= dims.len(),
            d == lengths(dims@),
            forall|j: int| 0 <= j < d.len() ==> 1 <= #[trigger] d[j],
            total == product(d.take(k as int)),
        decreases dims.len() - k,
    {
        proof {
            lemma_product_prefix(d, k as int + 1);
            assert(d.take(k as int + 1).drop_last() =~= d.take(k as int));
        }
        match total.checked_mul(dims[k].len) {
            Some(next) => {
                total = next;
            },
            None => {
                return None;
            },
        }
        k += 1;
    }
    assert(d.take(k as int) =~= d);
    Some(total)
}

} // verus!
