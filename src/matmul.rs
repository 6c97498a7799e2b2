//! The fused quantized matrix product: `x @ w^T`, with each weight decoded
//! from its packed block when the product needs it, never as a whole matrix.
use vstd::prelude::*;
use crate::dtype::{GgmlDType, spec_block_bytes, spec_block_count, spec_block_size};
use crate::codec::{QK, codec_supported, elem_value, decode_value, lemma_block_value_bound, lemma_block_in_buffer};
use crate::shape::{Shape, elem_count_of, suffix_prod};

verus! {

/// Longest contraction an `i64` accumulator holds exactly: every product of
/// a sample and a decoded weight stays below `2^38`.
pub const MAX_INNER: usize = 0x100_0000;

/// `sum_{c < k} x[xoff + c] * w[woff + c]`, weights decoded from `w`.
pub open spec fn dot(t: GgmlDType, w: Seq<u8>, x: Seq<i16>, xoff: int, woff: int, k: nat) -> int
    decreases k,
{
    if k == 0 {
        0
    } else {
        dot(t, w, x, xoff, woff, (k - 1) as nat)
            + x[xoff + k - 1] as int * elem_value(t, w, woff + k - 1)
    }
}

/// Output element `(r, o)` of `x @ w^T`, for a weight of `n_out` rows of
/// `k` elements and rows of `x` starting at `xoff`.
pub open spec fn matmul_value(t: GgmlDType, w: Seq<u8>, x: Seq<i16>, xoff: int, k: nat, r: int, o: int) -> int {
    dot(t, w, x, xoff + r * k, o * k, k)
}

/// Output dimensions of `input @ weight^T` for a weight of `n_out` rows:
/// the input's dimensions with the last one replaced by `n_out`.
pub open spec fn matmul_dims(input: Seq<usize>, n_out: usize) -> Seq<usize> {
    input.update(input.len() - 1, n_out)
}

/// `i * k + c` lies below `n * k`.
pub proof fn lemma_row_index(i: int, n: int, k: int, c: int)
    requires
        0 <= i < n,
        0 <= c < k,
    ensures
        0 <= i * k + c < n * k,
        i * k + k <= n * k,
{
    assert(0 <= i * k + c < n * k && i * k + k <= n * k) by (nonlinear_arith)
        requires 0 <= i < n, 0 <= c < k;
}

/// Row `i` of `n` rows of `k` elements ends within them.
pub proof fn lemma_row_end(i: int, n: int, k: int)
    requires
        0 <= i < n,
        0 <= k,
    ensures
        0 <= i * k,
        i * k + k <= n * k,
{
    assert(0 <= i * k && i * k + k <= n * k) by (nonlinear_arith)
        requires 0 <= i < n, 0 <= k;
}

/// Element `i` of a packed buffer of `count` elements lies inside it.
proof fn lemma_elem_in_buffer(t: GgmlDType, w: Seq<u8>, count: nat, i: int)
    requires
        codec_supported(t),
        w.len() == spec_block_count(t, count) * spec_block_bytes(t),
        0 <= i < count,
    ensures
        0 <= (i / QK as int) * spec_block_bytes(t),
        (i / QK as int) * spec_block_bytes(t) + spec_block_bytes(t) <= w.len(),
{
    assert(spec_block_size(t) == QK);
    crate::dtype::lemma_ceil_div(count as int, QK as int);
    assert(i / QK as int <= (count as int) / (QK as int));
    if (i / QK as int) == (count as int) / (QK as int) {
        assert((count as int) % (QK as int) != 0);
    }
    lemma_block_in_buffer(i / QK as int, spec_block_count(t, count) as int, spec_block_bytes(t) as int);
}

/// One output element: a dot product with the weights of row `o` decoded on
/// demand.
fn fused_dot(t: GgmlDType, w: &Vec<u8>, count: usize, x: &Vec<i16>, xoff: usize, woff: usize, k: usize) -> (r: i64)
    requires
        codec_supported(t),
        w@.len() == spec_block_count(t, count as nat) * spec_block_bytes(t),
        k <= MAX_INNER,
        xoff + k <= x@.len(),
        woff + k <= count,
    ensures
        r as int == dot(t, w@, x@, xoff as int, woff as int, k as nat),
{
    let bb = t.type_size();
    let _wl = w.len();
    let _xl = x.len();
    let mut acc: i64 = 0;
    let mut c: usize = 0;
    while c < k
        invariant
            codec_supported(t),
            bb == spec_block_bytes(t),
            w@.len() == spec_block_count(t, count as nat) * spec_block_bytes(t),
            w@.len() <= usize::MAX,
            k <= MAX_INNER,
            xoff + k <= x@.len(),
            x@.len() <= usize::MAX,
            woff + k <= count,
            c <= k,
            acc as int == dot(t, w@, x@, xoff as int, woff as int, c as nat),
            -(c as int) * 0x40_0000_0000 <= acc <= (c as int) * 0x40_0000_0000,
        decreases k - c,
    {
        let i: usize = woff + c;
        proof { lemma_elem_in_buffer(t, w@, count as nat, i as int); }
        let off: usize = (i / QK) * bb;
        proof { lemma_block_value_bound(t, w@, off as int, (i % QK) as int); }
        let v: i32 = decode_value(t, w, off, i % QK);
        let s: i16 = x[xoff + c];
        assert(-0x40_0000_0000 <= (s as int) * (v as int) <= 0x40_0000_0000) by (nonlinear_arith)
            requires -32768 <= s <= 32767, -0x80_0000 <= v <= 0x80_0000;
        assert((c as int + 1) * 0x40_0000_0000 <= 0x40_0000_0000_0000_00) by (nonlinear_arith)
            requires c < k, k <= 0x100_0000;
        acc = acc + (s as i64) * (v as i64);
        c = c + 1;
    }
    acc
}

/// `x @ w^T` over `rows` rows of `k` samples starting at `xoff`, for a weight
/// of `n_out` rows of `k` packed elements; row-major `[rows, n_out]` result.
pub fn fused_matmul(t: GgmlDType, w: &Vec<u8>, n_out: usize, k: usize, x: &Vec<i16>, xoff: usize, rows: usize) -> (r: Vec<i64>)
    requires
        codec_supported(t),
        n_out * k <= usize::MAX,
        w@.len() == spec_block_count(t, (n_out * k) as nat) * spec_block_bytes(t),
        k <= MAX_INNER,
        xoff + rows * k <= x@.len(),
        rows * n_out <= usize::MAX,
    ensures
        r@.len() == rows * n_out,
        forall|i: int, o: int| 0 <= i < rows && 0 <= o < n_out ==>
            #[trigger] r@[i * n_out + o] as int == matmul_value(t, w@, x@, xoff as int, k as nat, i, o),
{
    let count: usize = n_out * k;
    let _xl = x.len();
    let mut r: Vec<i64> = Vec::new();
    let mut i: usize = 0;
    while i < rows
        invariant
            codec_supported(t),
            count == n_out * k,
            w@.len() == spec_block_count(t, count as nat) * spec_block_bytes(t),
            k <= MAX_INNER,
            xoff + rows * k <= x@.len(),
            x@.len() <= usize::MAX,
            rows * n_out <= usize::MAX,
            i <= rows,
            r@.len() == i * n_out,
            forall|a: int, o: int| 0 <= a < i && 0 <= o < n_out ==>
                #[trigger] r@[a * n_out + o] as int == matmul_value(t, w@, x@, xoff as int, k as nat, a, o),
        decreases rows - i,
    {
        proof {
            lemma_row_end(i as int, rows as int, k as int);
            assert(i * n_out + n_out <= rows * n_out) by (nonlinear_arith)
                requires i < rows;
        }
        let xo: usize = xoff + i * k;
        let mut o: usize = 0;
        while o < n_out
            invariant
                codec_supported(t),
                count == n_out * k,
                w@.len() == spec_block_count(t, count as nat) * spec_block_bytes(t),
                k <= MAX_INNER,
                xo == xoff + i * k,
                xo + k <= x@.len(),
                i < rows,
                i * n_out + n_out <= rows * n_out,
                rows * n_out <= usize::MAX,
                o <= n_out,
                r@.len() == i * n_out + o,
                forall|a: int, q: int| 0 <= a < i && 0 <= q < n_out ==>
                    #[trigger] r@[a * n_out + q] as int == matmul_value(t, w@, x@, xoff as int, k as nat, a, q),
                forall|q: int| 0 <= q < o ==>
                    #[trigger] r@[i * n_out + q] as int == matmul_value(t, w@, x@, xoff as int, k as nat, i as int, q),
            decreases n_out - o,
        {
            proof {
                lemma_row_end(o as int, n_out as int, k as int);
                assert(o * k + k <= count);
            }
            let v = fused_dot(t, w, count, x, xo, o * k, k);
            let ghost before = r@;
            r.push(v);
            proof {
                assert forall|a: int, q: int| 0 <= a < i && 0 <= q < n_out implies
                    #[trigger] r@[a * n_out + q] as int == matmul_value(t, w@, x@, xoff as int, k as nat, a, q) by {
                    lemma_row_index(a, i as int, n_out as int, q);
                    assert(r@[a * n_out + q] == before[a * n_out + q]);
                }
            }
            o = o + 1;
        }
        i = i + 1;
        proof {
            assert(r@.len() == i * n_out) by (nonlinear_arith)
                requires r@.len() == (i - 1) * n_out + n_out;
            assert forall|a: int, q: int| 0 <= a < i && 0 <= q < n_out implies
                #[trigger] r@[a * n_out + q] as int == matmul_value(t, w@, x@, xoff as int, k as nat, a, q) by {
                if a == i - 1 {
                    assert(r@[(i - 1) * n_out + q] as int == matmul_value(t, w@, x@, xoff as int, k as nat, a, q));
                }
            }
        }
    }
    r
}

/// The elements of `dims` are those of its leading dimensions times its last.
pub proof fn lemma_elem_count_split(dims: Seq<usize>)
    requires
        dims.len() >= 1,
    ensures
        elem_count_of(dims) == elem_count_of(dims.drop_last()) * dims.last(),
{
    lemma_suffix_split(dims, 0);
}

proof fn lemma_suffix_split(dims: Seq<usize>, i: int)
    requires
        dims.len() >= 1,
        0 <= i < dims.len(),
    ensures
        suffix_prod(dims, i) == suffix_prod(dims.drop_last(), i) * dims.last(),
    decreases dims.len() - i,
{
    let p = dims.drop_last();
    if i == dims.len() - 1 {
        assert(suffix_prod(dims, i + 1) == 1);
        assert(suffix_prod(p, i) == 1);
    } else {
        lemma_suffix_split(dims, i + 1);
        assert(p[i] == dims[i]);
        assert(suffix_prod(dims, i) == dims[i] * suffix_prod(dims, i + 1));
        assert(suffix_prod(p, i) == p[i] * suffix_prod(p, i + 1));
        assert(dims[i] * (suffix_prod(p, i + 1) * dims.last()) == (dims[i] * suffix_prod(p, i + 1)) * dims.last())
            by (nonlinear_arith);
    }
}

/// Output shape of `input @ weight^T` for a weight of `n_out` rows: the
/// input's shape with its last dimension replaced.
pub fn matmul_shape(input: &Shape, n_out: usize) -> (r: Shape)
    requires
        input.dims@.len() >= 1,
    ensures
        r.dims@ == matmul_dims(input.dims@, n_out),
{
    let mut dims = input.dims.clone();
    let last = dims.len() - 1;
    dims.set(last, n_out);
    proof { assert(dims@ =~= matmul_dims(input.dims@, n_out)); }
    Shape { dims }
}

} // verus!
