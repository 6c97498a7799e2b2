//! Quantized storage for the Cuda backend, in a build that leaves that
//! backend out: every operation fails at once with the backend named, and
//! changes nothing.
use vstd::prelude::*;
use crate::dtype::GgmlDType;
use crate::device::{CpuStorage, CudaDevice, CudaStorage};
use crate::error::{Backend, Error};
use crate::shape::{Shape, Layout};

verus! {

/// Packed blocks on a Cuda device; no value of it can be made in this build.
pub struct QCudaStorage {
    dtype: GgmlDType,
    device: CudaDevice,
}

/// The failure of every operation of this backend.
pub open spec fn cuda_unavailable<T>(r: Result<T, Error>) -> bool {
    r == Err::<T, Error>(Error::BackendUnavailable(Backend::Cuda))
}

impl QCudaStorage {
    pub closed spec fn spec_dtype(&self) -> GgmlDType {
        self.dtype
    }

    pub closed spec fn spec_device(&self) -> CudaDevice {
        self.device
    }

    pub fn zeros(_device: &CudaDevice, _elem_count: usize, _dtype: GgmlDType) -> (r: Result<Self, Error>)
        ensures
            cuda_unavailable(r),
    {
        Err(Error::BackendUnavailable(Backend::Cuda))
    }

    pub fn dtype(&self) -> (r: GgmlDType)
        ensures
            r == self.spec_dtype(),
    {
        self.dtype
    }

    pub fn device(&self) -> (r: &CudaDevice)
        ensures
            *r == self.spec_device(),
    {
        &self.device
    }

    pub fn dequantize(&self, _elem_count: usize) -> (r: Result<CudaStorage, Error>)
        ensures
            cuda_unavailable(r),
    {
        Err(Error::BackendUnavailable(Backend::Cuda))
    }

    pub fn quantize(&mut self, _src: &CudaStorage) -> (r: Result<(), Error>)
        ensures
            cuda_unavailable(r),
            *final(self) == *old(self),
    {
        Err(Error::BackendUnavailable(Backend::Cuda))
    }

    pub fn quantize_imatrix(&mut self, _src: &CudaStorage, _imatrix_weights: &Vec<u32>, _n_per_row: usize) -> (r: Result<(), Error>)
        ensures
            cuda_unavailable(r),
            *final(self) == *old(self),
    {
        Err(Error::BackendUnavailable(Backend::Cuda))
    }

    pub fn quantize_imatrix_onto(&mut self, _src: &CpuStorage, _imatrix_weights: &Vec<u32>, _n_per_row: usize) -> (r: Result<(), Error>)
        ensures
            cuda_unavailable(r),
            *final(self) == *old(self),
    {
        Err(Error::BackendUnavailable(Backend::Cuda))
    }

    pub fn quantize_onto(&mut self, _src: &CpuStorage) -> (r: Result<(), Error>)
        ensures
            cuda_unavailable(r),
            *final(self) == *old(self),
    {
        Err(Error::BackendUnavailable(Backend::Cuda))
    }

    /// Nothing is held.
    pub fn storage_size_in_bytes(&self) -> (r: usize)
        ensures
            r == 0,
    {
        0
    }

    pub fn fwd(&self, _self_shape: &Shape, _storage: &CudaStorage, _layout: &Layout) -> (r: Result<(CudaStorage, Shape), Error>)
        ensures
            cuda_unavailable(r),
    {
        Err(Error::BackendUnavailable(Backend::Cuda))
    }

    pub fn data(&self) -> (r: Result<Vec<u8>, Error>)
        ensures
            cuda_unavailable(r),
    {
        Err(Error::BackendUnavailable(Backend::Cuda))
    }
}

} // verus!
