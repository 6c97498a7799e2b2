//! Quantized storage for the Metal backend, in a build that leaves that
//! backend out: every operation fails at once with the backend named, and
//! changes nothing.
use vstd::prelude::*;
use crate::dtype::GgmlDType;
use crate::device::{CpuStorage, MetalDevice, MetalStorage};
use crate::error::{Backend, Error};
use crate::shape::{Shape, Layout};
use crate::storage::QStorage;

verus! {

/// Packed blocks on a Metal device; no value of it can be made in this build.
pub struct QMetalStorage {
    dtype: GgmlDType,
    device: MetalDevice,
}

/// The failure of every operation of this backend.
pub open spec fn metal_unavailable<T>(r: Result<T, Error>) -> bool {
    r == Err::<T, Error>(Error::BackendUnavailable(Backend::Metal))
}

impl QMetalStorage {
    pub closed spec fn spec_dtype(&self) -> GgmlDType {
        self.dtype
    }

    pub closed spec fn spec_device(&self) -> MetalDevice {
        self.device
    }

    pub fn zeros(_device: &MetalDevice, _elem_count: usize, _dtype: GgmlDType) -> (r: Result<Self, Error>)
        ensures
            metal_unavailable(r),
    {
        Err(Error::BackendUnavailable(Backend::Metal))
    }

    pub fn dtype(&self) -> (r: GgmlDType)
        ensures
            r == self.spec_dtype(),
    {
        self.dtype
    }

    pub fn device(&self) -> (r: &MetalDevice)
        ensures
            *r == self.spec_device(),
    {
        &self.device
    }

    pub fn dequantize(&self, _elem_count: usize) -> (r: Result<MetalStorage, Error>)
        ensures
            metal_unavailable(r),
    {
        Err(Error::BackendUnavailable(Backend::Metal))
    }

    pub fn quantize(&mut self, _src: &MetalStorage) -> (r: Result<(), Error>)
        ensures
            metal_unavailable(r),
            *final(self) == *old(self),
    {
        Err(Error::BackendUnavailable(Backend::Metal))
    }

    pub fn quantize_imatrix(&mut self, _src: &MetalStorage, _imatrix_weights: &Vec<u32>, _n_per_row: usize) -> (r: Result<(), Error>)
        ensures
            metal_unavailable(r),
            *final(self) == *old(self),
    {
        Err(Error::BackendUnavailable(Backend::Metal))
    }

    pub fn quantize_imatrix_onto(&mut self, _src: &CpuStorage, _imatrix_weights: &Vec<u32>, _n_per_row: usize) -> (r: Result<(), Error>)
        ensures
            metal_unavailable(r),
            *final(self) == *old(self),
    {
        Err(Error::BackendUnavailable(Backend::Metal))
    }

    pub fn quantize_onto(&mut self, _src: &CpuStorage) -> (r: Result<(), Error>)
        ensures
            metal_unavailable(r),
            *final(self) == *old(self),
    {
        Err(Error::BackendUnavailable(Backend::Metal))
    }

    /// Nothing is held.
    pub fn storage_size_in_bytes(&self) -> (r: usize)
        ensures
            r == 0,
    {
        0
    }

    pub fn fwd(&self, _self_shape: &Shape, _storage: &MetalStorage, _layout: &Layout) -> (r: Result<(MetalStorage, Shape), Error>)
        ensures
            metal_unavailable(r),
    {
        Err(Error::BackendUnavailable(Backend::Metal))
    }

    pub fn data(&self) -> (r: Result<Vec<u8>, Error>)
        ensures
            metal_unavailable(r),
    {
        Err(Error::BackendUnavailable(Backend::Metal))
    }
}

/// Loads a packed blob onto a Metal device.
pub fn load_quantized(_device: &MetalDevice, _dtype: GgmlDType, _data: &Vec<u8>) -> (r: Result<QStorage, Error>)
    ensures
        metal_unavailable(r),
{
    Err(Error::BackendUnavailable(Backend::Metal))
}

} // verus!
