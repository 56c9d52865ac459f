use vstd::prelude::*;

pub mod flatten;

verus! {

/// The product of the extents `dims[from..]`; the empty product is one.
pub open spec fn suffix_product(dims: Seq<usize>, from: int) -> int
    decreases dims.len() - from,
{
    if from < 0 || from >= dims.len() {
        1
    } else {
        dims[from] * suffix_product(dims, from + 1)
    }
}

/// Every extent is at least one, so the tensor has no empty axis.
pub open spec fn all_positive(dims: Seq<usize>) -> bool {
    forall|k: int| 0 <= k < dims.len() ==> dims[k] >= 1
}

/// With every extent at least one, every suffix product is at least one.
proof fn lemma_suffix_product_pos(dims: Seq<usize>, from: int)
    requires
        all_positive(dims),
    ensures
        suffix_product(dims, from) >= 1,
    decreases dims.len() - from,
{
    if 0 <= from < dims.len() {
        lemma_suffix_product_pos(dims, from + 1);
        assert(dims[from] * suffix_product(dims, from + 1) >= 1) by (nonlinear_arith)
            requires
                dims[from] >= 1,
                suffix_product(dims, from + 1) >= 1,
        ;
    }
}

/// With every extent at least one, a later suffix product never exceeds an
/// earlier one.
proof fn lemma_suffix_product_mono(dims: Seq<usize>, from: int)
    requires
        all_positive(dims),
        0 <= from < dims.len(),
    ensures
        suffix_product(dims, from + 1) <= suffix_product(dims, from),
{
    lemma_suffix_product_pos(dims, from + 1);
    assert(suffix_product(dims, from + 1) <= dims[from] * suffix_product(dims, from + 1))
        by (nonlinear_arith)
        requires
            dims[from] >= 1,
            suffix_product(dims, from + 1) >= 1,
    ;
}

/// The number of cells of a dense tensor with extents `dims`.
pub fn size(dims: &Vec<usize>) -> (r: usize)
    requires
        all_positive(dims@),
        suffix_product(dims@, 0) <= usize::MAX,
    ensures
        r == suffix_product(dims@, 0),
{
    let mut acc: usize = 1;
    let mut k: usize = dims.len();
    while k > 0
        invariant
            k <= dims@.len(),
            all_positive(dims@),
            suffix_product(dims@, 0) <= usize::MAX,
            acc == suffix_product(dims@, k as int),
        decreases k,
    {
        k = k - 1;
        proof {
            lemma_suffix_product_bounded(dims@, k as int);
            lemma_suffix_product_pos(dims@, k as int + 1);
            assert(suffix_product(dims@, k as int)
                == dims@[k as int] * suffix_product(dims@, k as int + 1));
            assert(acc * dims@[k as int] == suffix_product(dims@, k as int))
                by (nonlinear_arith)
                requires
                    acc == suffix_product(dims@, k as int + 1),
                    suffix_product(dims@, k as int)
                        == dims@[k as int] * suffix_product(dims@, k as int + 1),
            ;
        }
        acc = acc * dims[k];
    }
    acc
}

/// Every suffix product is bounded by the full product.
proof fn lemma_suffix_product_bounded(dims: Seq<usize>, from: int)
    requires
        all_positive(dims),
        0 <= from <= dims.len(),
    ensures
        suffix_product(dims, from) <= suffix_product(dims, 0),
    decreases from,
{
    if from > 0 {
        lemma_suffix_product_mono(dims, from - 1);
        lemma_suffix_product_bounded(dims, from - 1);
    }
}

/// The stride of each axis of a dense tensor: how many buffer cells one unit
/// along that axis spans — the product of all later extents. Computed as the
/// full cell count shrinking by one extent per axis, left to right.
pub fn skips(dims: &Vec<usize>) -> (r: Vec<usize>)
    requires
        all_positive(dims@),
        suffix_product(dims@, 0) <= usize::MAX,
    ensures
        r@.len() == dims@.len(),
        forall|k: int| 0 <= k < r@.len() ==> r@[k] == suffix_product(dims@, k + 1),
{
    let total = size(dims);
    let mut r: Vec<usize> = Vec::new();
    let mut acc: usize = total;
    let mut k: usize = 0;
    while k < dims.len()
        invariant
            k <= dims@.len(),
            all_positive(dims@),
            suffix_product(dims@, 0) <= usize::MAX,
            acc == suffix_product(dims@, k as int),
            r@.len() == k,
            forall|t: int| 0 <= t < k ==> r@[t] == suffix_product(dims@, t + 1),
        decreases dims@.len() - k,
    {
        let d = dims[k];
        proof {
            lemma_suffix_product_pos(dims@, k as int + 1);
            assert(acc == d * suffix_product(dims@, k as int + 1));
            assert((d * suffix_product(dims@, k as int + 1)) / (d as int)
                == suffix_product(dims@, k as int + 1)) by (nonlinear_arith)
                requires
                    d >= 1,
                    suffix_product(dims@, k as int + 1) >= 1,
            ;
        }
        acc = acc / d;
        r.push(acc);
        k = k + 1;
    }
    r
}

} // verus!
