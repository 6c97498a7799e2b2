//! Tensor shapes and strided layouts.
use vstd::prelude::*;

verus! {

/// Dimensions of a tensor, outermost first.
#[derive(Clone, Debug)]
pub struct Shape {
    pub dims: Vec<usize>,
}

/// How a tensor's elements sit in its storage.
#[derive(Clone, Debug)]
pub struct Layout {
    pub shape: Shape,
    pub stride: Vec<usize>,
    pub start_offset: usize,
}

/// Product of `dims[i..]`.
pub open spec fn suffix_prod(dims: Seq<usize>, i: int) -> int
    decreases dims.len() - i,
{
    if i >= dims.len() || i < 0 {
        1
    } else {
        dims[i] as int * suffix_prod(dims, i + 1)
    }
}

/// Number of elements of a tensor of these dimensions.
pub open spec fn elem_count_of(dims: Seq<usize>) -> int {
    suffix_prod(dims, 0)
}

/// `stride` is the row-major stride of `dims`.
pub open spec fn row_major(dims: Seq<usize>, stride: Seq<usize>) -> bool {
    &&& stride.len() == dims.len()
    &&& forall|i: int| 0 <= i < dims.len() ==> #[trigger] stride[i] as int == suffix_prod(dims, i + 1)
}

proof fn lemma_suffix_prod_nonneg(dims: Seq<usize>, i: int)
    ensures
        suffix_prod(dims, i) >= 0,
    decreases dims.len() - i,
{
    if 0 <= i < dims.len() {
        lemma_suffix_prod_nonneg(dims, i + 1);
        assert(dims[i] as int * suffix_prod(dims, i + 1) >= 0) by (nonlinear_arith)
            requires suffix_prod(dims, i + 1) >= 0;
    }
}

/// A zero dimension makes every product that covers it zero.
proof fn lemma_zero_dim(dims: Seq<usize>, k: int, j: int)
    requires
        0 <= j <= k < dims.len(),
        dims[k] == 0,
    ensures
        suffix_prod(dims, j) == 0,
    decreases k - j,
{
    if j < k {
        lemma_zero_dim(dims, k, j + 1);
    }
}

/// With no zero dimension, a longer suffix has at least as large a product.
proof fn lemma_suffix_mono(dims: Seq<usize>, j: int, i: int)
    requires
        0 <= j <= i <= dims.len(),
        forall|k: int| 0 <= k < dims.len() ==> #[trigger] dims[k] >= 1,
    ensures
        suffix_prod(dims, j) >= suffix_prod(dims, i),
    decreases i - j,
{
    if j < i {
        lemma_suffix_mono(dims, j + 1, i);
        lemma_suffix_prod_nonneg(dims, j + 1);
        assert(dims[j] as int * suffix_prod(dims, j + 1) >= suffix_prod(dims, j + 1)) by (nonlinear_arith)
            requires dims[j] >= 1, suffix_prod(dims, j + 1) >= 0;
    }
}

impl Shape {
    /// Element count, or `None` when it does not fit in `usize`.
    pub fn elem_count(&self) -> (r: Option<usize>)
        ensures
            r.is_some() <==> elem_count_of(self.dims@) <= usize::MAX,
            r.is_some() ==> r.unwrap() == elem_count_of(self.dims@),
    {
        let n = self.dims.len();
        let mut k: usize = 0;
        while k < n
            invariant
                n == self.dims@.len(),
                k <= n,
                forall|q: int| 0 <= q < k ==> #[trigger] self.dims@[q] >= 1,
            decreases n - k,
        {
            if self.dims[k] == 0 {
                proof { lemma_zero_dim(self.dims@, k as int, 0); }
                return Some(0);
            }
            k = k + 1;
        }
        let mut acc: usize = 1;
        let mut i: usize = n;
        while i > 0
            invariant
                n == self.dims@.len(),
                i <= n,
                forall|q: int| 0 <= q < n ==> #[trigger] self.dims@[q] >= 1,
                acc as int == suffix_prod(self.dims@, i as int),
            decreases i,
        {
            i = i - 1;
            let d = self.dims[i];
            proof {
                assert(suffix_prod(self.dims@, i as int) == d * suffix_prod(self.dims@, i + 1));
                assert(d * suffix_prod(self.dims@, i + 1) == acc * d) by (nonlinear_arith)
                    requires acc == suffix_prod(self.dims@, i + 1);
            }
            match acc.checked_mul(d) {
                Some(v) => {
                    acc = v;
                },
                None => {
                    proof {
                        lemma_suffix_mono(self.dims@, 0, i as int);
                        assert(elem_count_of(self.dims@) > usize::MAX);
                    }
                    return None;
                },
            }
        }
        Some(acc)
    }
}

impl Layout {
    /// True when the stride is the row-major stride of the shape.
    pub fn is_contiguous(&self) -> (r: bool)
        ensures
            r == row_major(self.shape.dims@, self.stride@),
    {
        let n = self.shape.dims.len();
        if self.stride.len() != n {
            return false;
        }
        let mut acc: usize = 1;
        let mut i: usize = n;
        while i > 0
            invariant
                n == self.shape.dims@.len(),
                self.stride@.len() == n,
                i <= n,
                i > 0 ==> acc as int == suffix_prod(self.shape.dims@, i as int),
                forall|k: int| i <= k < n ==> #[trigger] self.stride@[k] as int == suffix_prod(self.shape.dims@, k + 1),
            decreases i,
        {
            i = i - 1;
            if self.stride[i] != acc {
                proof {
                    assert(self.stride@[i as int] as int != suffix_prod(self.shape.dims@, i + 1));
                    assert(!row_major(self.shape.dims@, self.stride@));
                }
                return false;
            }
            if i == 0 {
                continue;
            }
            proof {
                assert(suffix_prod(self.shape.dims@, i as int) == self.shape.dims@[i as int] * suffix_prod(self.shape.dims@, i + 1));
            }
            match self.shape.dims[i].checked_mul(acc) {
                Some(v) => {
                    acc = v;
                },
                None => {
                    proof {
                        assert(suffix_prod(self.shape.dims@, i as int) > usize::MAX);
                        assert(self.stride@[i - 1] as int != suffix_prod(self.shape.dims@, i as int));
                        assert(!row_major(self.shape.dims@, self.stride@));
                    }
                    return false;
                },
            }
        }
        true
    }
}

} // verus!
