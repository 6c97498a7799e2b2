//! Quantized storage held in host memory.
use vstd::prelude::*;
use crate::dtype::{GgmlDType, spec_block_bytes, spec_storage_size, spec_block_count};
use crate::codec::{QK, codec_supported, elem_value, encodes, quantize_samples, dequantize_bytes};
use crate::device::{CpuStorage, Device};
use crate::error::Error;
use crate::shape::{Shape, Layout, elem_count_of, row_major};
use crate::matmul::{MAX_INNER, matmul_dims, matmul_value, fused_matmul, matmul_shape, lemma_elem_count_split};

verus! {

/// Packed blocks of one tensor in host memory, with their format.
pub struct QCpuStorage {
    dtype: GgmlDType,
    data: Vec<u8>,
}

/// Why quantizing `src` (with `weights` and `row` when given) into a
/// storage of format `t` and `len` bytes fails, if it does.
pub open spec fn quantize_error(t: GgmlDType, len: nat, src: CpuStorage, weights: Option<(Seq<u32>, nat)>) -> Option<Error> {
    if !codec_supported(t) || !(src is I16) {
        Some(Error::UnsupportedFormatForBackend(t))
    } else {
        let n = src->I16_0@.len();
        let bad_rows = match weights {
            None => false,
            Some((w, row)) => row == 0 || w.len() != row || n % row != 0,
        };
        if spec_storage_size(t, n) != len || n + QK > usize::MAX || bad_rows {
            Some(Error::ShapeOrCountMismatch)
        } else {
            None
        }
    }
}

/// The operands of `fwd` agree in shape: a `[n_out, k]` weight matching
/// the packed bytes, a contiguous input `[..., k]` inside its storage, and
/// sizes the computation can hold.
pub open spec fn fwd_shapes_ok(t: GgmlDType, len: nat, w_dims: Seq<usize>, x_len: nat, l: Layout) -> bool {
    let d = l.shape.dims@;
    &&& w_dims.len() == 2
    &&& w_dims[0] * w_dims[1] <= usize::MAX
    &&& spec_storage_size(t, (w_dims[0] * w_dims[1]) as nat) == len
    &&& row_major(d, l.stride@)
    &&& d.len() >= 1
    &&& d.last() == w_dims[1]
    &&& w_dims[1] <= MAX_INNER
    &&& elem_count_of(d.drop_last()) <= usize::MAX
    &&& elem_count_of(d) <= usize::MAX
    &&& l.start_offset + elem_count_of(d) <= x_len
    &&& elem_count_of(d.drop_last()) * w_dims[0] <= usize::MAX
}

/// Outcome of decoding `n` values of `s`: the format must have a decoder
/// and `n` must match the buffer; then value `i` is `elem_value` of element `i`.
pub open spec fn dequantize_post(s: QCpuStorage, n: usize, r: Result<CpuStorage, Error>) -> bool {
    let t = s.spec_dtype();
    &&& !codec_supported(t) ==> r == Err::<CpuStorage, Error>(Error::UnsupportedFormatForBackend(t))
    &&& codec_supported(t) && spec_storage_size(t, n as nat) != s.bytes().len()
        ==> r == Err::<CpuStorage, Error>(Error::ShapeOrCountMismatch)
    &&& codec_supported(t) && spec_storage_size(t, n as nat) == s.bytes().len()
        ==> r is Ok && r->Ok_0 is I32 && ({
            let v = r->Ok_0->I32_0@;
            &&& v.len() == n
            &&& forall|i: int| 0 <= i < n ==> v[i] as int == elem_value(t, s.bytes(), i)
        })
}

/// Outcome of quantizing `src` into `pre`, giving `post`: the error that
/// `quantize_error` names with the storage unchanged, or the encoding of
/// the samples under the importance given.
pub open spec fn quantize_post(pre: QCpuStorage, post: QCpuStorage, src: CpuStorage,
    weights: Option<(Seq<u32>, nat)>, r: Result<(), Error>) -> bool {
    let e = quantize_error(pre.spec_dtype(), pre.bytes().len(), src, weights);
    &&& r is Err <==> e is Some
    &&& r is Err ==> r->Err_0 == e->Some_0 && post == pre
    &&& r is Ok ==> post.spec_dtype() == pre.spec_dtype()
        && post.bytes().len() == pre.bytes().len()
        && encodes(pre.spec_dtype(), src->I16_0@,
            match weights { None => None, Some((w, _row)) => Some(w), }, post.bytes())
}

/// Outcome of `fwd` on a CPU storage `s`.
pub open spec fn fwd_post(s: QCpuStorage, self_shape: Shape, storage: CpuStorage, layout: Layout,
    r: Result<(CpuStorage, Shape), Error>) -> bool {
    let t = s.spec_dtype();
    &&& !codec_supported(t) || !(storage is I16)
        ==> r == Err::<(CpuStorage, Shape), Error>(Error::UnsupportedFormatForBackend(t))
    &&& codec_supported(t) && storage is I16
        ==> (r is Ok <==> fwd_shapes_ok(t, s.bytes().len(), self_shape.dims@, storage->I16_0@.len(), layout))
    &&& codec_supported(t) && storage is I16 && r is Err
        ==> r == Err::<(CpuStorage, Shape), Error>(Error::ShapeOrCountMismatch)
    &&& r is Ok ==> {
        let (out, shape) = r->Ok_0;
        let n_out = self_shape.dims@[0];
        let k = self_shape.dims@[1];
        let rows = elem_count_of(layout.shape.dims@.drop_last());
        &&& shape.dims@ == matmul_dims(layout.shape.dims@, n_out)
        &&& out is I64
        &&& out->I64_0@.len() == rows * n_out
        &&& forall|i: int, o: int| 0 <= i < rows && 0 <= o < n_out ==>
            #[trigger] out->I64_0@[i * n_out + o] as int
                == matmul_value(t, s.bytes(), storage->I16_0@, layout.start_offset as int, k as nat, i, o)
    }
}

impl QCpuStorage {
    pub closed spec fn spec_dtype(&self) -> GgmlDType {
        self.dtype
    }

    /// The packed bytes.
    pub closed spec fn bytes(&self) -> Seq<u8> {
        self.data@
    }

    /// The buffer is a whole number of blocks.
    pub open spec fn wf(&self) -> bool {
        self.bytes().len() % spec_block_bytes(self.spec_dtype()) == 0
    }

    /// A zero-filled buffer for `elem_count` elements; fails when its size
    /// does not fit in `usize`.
    pub fn zeros(elem_count: usize, dtype: GgmlDType) -> (r: Result<Self, Error>)
        ensures
            r is Ok <==> spec_storage_size(dtype, elem_count as nat) <= usize::MAX,
            r is Err ==> r == Err::<Self, Error>(Error::ShapeOrCountMismatch),
            r is Ok ==> {
                let s = r->Ok_0;
                &&& s.spec_dtype() == dtype
                &&& s.bytes().len() == spec_storage_size(dtype, elem_count as nat)
                &&& forall|i: int| 0 <= i < s.bytes().len() ==> s.bytes()[i] == 0
                &&& s.wf()
            },
    {
        match dtype.storage_size_in_bytes(elem_count) {
            None => Err(Error::ShapeOrCountMismatch),
            Some(size) => {
                let data: Vec<u8> = vec![0u8; size];
                proof {
                    assert(spec_storage_size(dtype, elem_count as nat) % spec_block_bytes(dtype) == 0) by (nonlinear_arith)
                        requires spec_storage_size(dtype, elem_count as nat)
                            == spec_block_count(dtype, elem_count as nat) * spec_block_bytes(dtype),
                            spec_block_bytes(dtype) >= 1;
                }
                Ok(QCpuStorage { dtype, data })
            },
        }
    }

    /// Takes a packed blob as it was saved: the bytes must be whole blocks.
    pub fn from_bytes(dtype: GgmlDType, data: Vec<u8>) -> (r: Result<Self, Error>)
        ensures
            r is Ok <==> data@.len() % spec_block_bytes(dtype) == 0,
            r is Err ==> r == Err::<Self, Error>(Error::ShapeOrCountMismatch),
            r is Ok ==> r->Ok_0.spec_dtype() == dtype && r->Ok_0.bytes() == data@,
    {
        if data.len() % dtype.type_size() != 0 {
            Err(Error::ShapeOrCountMismatch)
        } else {
            Ok(QCpuStorage { dtype, data })
        }
    }

    pub fn dtype(&self) -> (r: GgmlDType)
        ensures
            r == self.spec_dtype(),
    {
        self.dtype
    }

    /// Host storage lives on the CPU.
    pub fn device(&self) -> (r: Device)
        ensures
            r == Device::Cpu,
    {
        Device::Cpu
    }

    /// Decodes `elem_count` values. Fails when the format has no decoder
    /// here, or when `elem_count` does not match the buffer size.
    pub fn dequantize(&self, elem_count: usize) -> (r: Result<CpuStorage, Error>)
        ensures
            dequantize_post(*self, elem_count, r),
    {
        let _len = self.data.len();
        if !matches!(self.dtype, GgmlDType::Q4_0 | GgmlDType::Q4_1 | GgmlDType::Q8_0) {
            return Err(Error::UnsupportedFormatForBackend(self.dtype));
        }
        match self.dtype.storage_size_in_bytes(elem_count) {
            Some(size) => {
                if size != self.data.len() {
                    return Err(Error::ShapeOrCountMismatch);
                }
            },
            None => {
                return Err(Error::ShapeOrCountMismatch);
            },
        }
        Ok(CpuStorage::I32(dequantize_bytes(self.dtype, &self.data, elem_count)))
    }

    fn quantize_impl(&mut self, src: &CpuStorage, weights: Option<(&Vec<u32>, usize)>) -> (r: Result<(), Error>)
        ensures
            quantize_post(*old(self), *final(self), *src,
                match weights { None => None, Some((w, row)) => Some((w@, row as nat)), }, r),
    {
        let t = self.dtype;
        let _len = self.data.len();
        if !matches!(t, GgmlDType::Q4_0 | GgmlDType::Q4_1 | GgmlDType::Q8_0) {
            return Err(Error::UnsupportedFormatForBackend(t));
        }
        let xs = match src {
            CpuStorage::I16(v) => v,
            _ => {
                return Err(Error::UnsupportedFormatForBackend(t));
            },
        };
        let n = xs.len();
        match t.storage_size_in_bytes(n) {
            Some(size) => {
                if size != self.data.len() {
                    return Err(Error::ShapeOrCountMismatch);
                }
            },
            None => {
                return Err(Error::ShapeOrCountMismatch);
            },
        }
        if n > usize::MAX - QK {
            return Err(Error::ShapeOrCountMismatch);
        }
        let w = match weights {
            None => None,
            Some((w, row)) => {
                if row == 0 || w.len() != row || n % row != 0 {
                    return Err(Error::ShapeOrCountMismatch);
                }
                Some(w)
            },
        };
        self.data = quantize_samples(t, xs, w);
        Ok(())
    }

    /// Overwrites the packed bytes with the encoding of the dense samples
    /// `src`; fails, leaving the storage as it was, when the format or the
    /// element type has no encoder here or the count does not match.
    pub fn quantize(&mut self, src: &CpuStorage) -> (r: Result<(), Error>)
        ensures
            quantize_post(*old(self), *final(self), *src, None, r),
    {
        self.quantize_impl(src, None)
    }

    /// As `quantize`, with the error of each sample weighted by the
    /// importance `imatrix_weights[i % n_per_row]`; the vector must have
    /// `n_per_row` entries and `n_per_row` must divide the count.
    pub fn quantize_imatrix(&mut self, src: &CpuStorage, imatrix_weights: &Vec<u32>, n_per_row: usize) -> (r: Result<(), Error>)
        ensures
            quantize_post(*old(self), *final(self), *src, Some((imatrix_weights@, n_per_row as nat)), r),
    {
        self.quantize_impl(src, Some((imatrix_weights, n_per_row)))
    }

    /// Quantizes from host samples; for host storage this is `quantize`.
    pub fn quantize_onto(&mut self, src: &CpuStorage) -> (r: Result<(), Error>)
        ensures
            quantize_post(*old(self), *final(self), *src, None, r),
    {
        self.quantize_impl(src, None)
    }

    /// Weighted quantization from host samples; for host storage this is
    /// `quantize_imatrix`.
    pub fn quantize_imatrix_onto(&mut self, src: &CpuStorage, imatrix_weights: &Vec<u32>, n_per_row: usize) -> (r: Result<(), Error>)
        ensures
            quantize_post(*old(self), *final(self), *src, Some((imatrix_weights@, n_per_row as nat)), r),
    {
        self.quantize_impl(src, Some((imatrix_weights, n_per_row)))
    }

    /// Size of the packed buffer.
    pub fn storage_size_in_bytes(&self) -> (r: usize)
        ensures
            r == self.bytes().len(),
    {
        self.data.len()
    }

    /// The packed bytes, for saving.
    pub fn data(&self) -> (r: Result<Vec<u8>, Error>)
        ensures
            r is Ok && r->Ok_0@ == self.bytes(),
    {
        Ok(self.data.clone())
    }

    /// `input @ weight^T` for this storage holding a `[n_out, k]` weight and
    /// a contiguous `i16` input `[..., k]`: an `i64` result of shape
    /// `[..., n_out]`, each weight decoded when its product is taken.
    pub fn fwd(&self, self_shape: &Shape, storage: &CpuStorage, layout: &Layout) -> (r: Result<(CpuStorage, Shape), Error>)
        ensures
            fwd_post(*self, *self_shape, *storage, *layout, r),
    {
        let t = self.dtype;
        let _len = self.data.len();
        if !matches!(t, GgmlDType::Q4_0 | GgmlDType::Q4_1 | GgmlDType::Q8_0) {
            return Err(Error::UnsupportedFormatForBackend(t));
        }
        let x = match storage {
            CpuStorage::I16(v) => v,
            _ => {
                return Err(Error::UnsupportedFormatForBackend(t));
            },
        };
        if self_shape.dims.len() != 2 {
            return Err(Error::ShapeOrCountMismatch);
        }
        let n_out = self_shape.dims[0];
        let k = self_shape.dims[1];
        let count = match n_out.checked_mul(k) {
            Some(c) => c,
            None => {
                return Err(Error::ShapeOrCountMismatch);
            },
        };
        match t.storage_size_in_bytes(count) {
            Some(size) => {
                if size != self.data.len() {
                    return Err(Error::ShapeOrCountMismatch);
                }
            },
            None => {
                return Err(Error::ShapeOrCountMismatch);
            },
        }
        if !layout.is_contiguous() {
            return Err(Error::ShapeOrCountMismatch);
        }
        let nd = layout.shape.dims.len();
        if nd == 0 || layout.shape.dims[nd - 1] != k || k > MAX_INNER {
            return Err(Error::ShapeOrCountMismatch);
        }
        let mut lead = layout.shape.dims.clone();
        lead.pop();
        proof { assert(lead@ =~= layout.shape.dims@.drop_last()); }
        let lead_shape = Shape { dims: lead };
        let rows = match lead_shape.elem_count() {
            Some(v) => v,
            None => {
                return Err(Error::ShapeOrCountMismatch);
            },
        };
        let total = match layout.shape.elem_count() {
            Some(v) => v,
            None => {
                return Err(Error::ShapeOrCountMismatch);
            },
        };
        if layout.start_offset > x.len() || total > x.len() - layout.start_offset {
            return Err(Error::ShapeOrCountMismatch);
        }
        let out_len = match rows.checked_mul(n_out) {
            Some(v) => v,
            None => {
                return Err(Error::ShapeOrCountMismatch);
            },
        };
        proof {
            lemma_elem_count_split(layout.shape.dims@);
            assert(total == rows * k);
        }
        let v = fused_matmul(t, &self.data, n_out, k, x, layout.start_offset, rows);
        let shape = matmul_shape(&layout.shape, n_out);
        Ok((CpuStorage::I64(v), shape))
    }
}

} // verus!
