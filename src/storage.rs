//! One quantized storage type over every backend: each operation goes to the
//! variant that holds the data, and adds nothing of its own.
use vstd::prelude::*;
use crate::dtype::{GgmlDType, spec_storage_size};
use crate::device::{CpuStorage, Device, Storage};
use crate::error::{Backend, Error};
use crate::shape::{Shape, Layout};
use crate::cpu::{QCpuStorage, dequantize_post, quantize_post, fwd_post};
use crate::cuda::QCudaStorage;
use crate::metal::QMetalStorage;

verus! {

/// Quantized storage on the backend that holds it.
pub enum QStorage {
    Cpu(QCpuStorage),
    Cuda(QCudaStorage),
    Metal(QMetalStorage),
}

/// The backend-unavailable failure, for the variants whose backend this
/// build leaves out.
/// A dense result seen as host values (a non-host value maps to an error
/// that the host path never returns).
pub open spec fn as_host<T>(r: Result<(Storage, T), Error>) -> Result<(CpuStorage, T), Error> {
    match r {
        Ok((Storage::Cpu(c), x)) => Ok((c, x)),
        Ok(_) => Err(Error::DeviceTransferFailure),
        Err(e) => Err(e),
    }
}

/// A dense value seen as host values.
pub open spec fn host_of(r: Result<Storage, Error>) -> Result<CpuStorage, Error> {
    match r {
        Ok(Storage::Cpu(c)) => Ok(c),
        Ok(_) => Err(Error::DeviceTransferFailure),
        Err(e) => Err(e),
    }
}

pub open spec fn stub_failure<T>(s: QStorage, r: Result<T, Error>) -> bool {
    &&& s is Cuda ==> r == Err::<T, Error>(Error::BackendUnavailable(Backend::Cuda))
    &&& s is Metal ==> r == Err::<T, Error>(Error::BackendUnavailable(Backend::Metal))
}

impl QStorage {
    /// A zero-filled storage for `elem_count` elements on `device`.
    pub fn zeros(device: &Device, elem_count: usize, dtype: GgmlDType) -> (r: Result<Self, Error>)
        ensures
            *device is Cpu ==> (r is Ok <==> spec_storage_size(dtype, elem_count as nat) <= usize::MAX),
            *device is Cpu && r is Err ==> r == Err::<Self, Error>(Error::ShapeOrCountMismatch),
            r is Ok ==> r->Ok_0 is Cpu && ({
                let s = r->Ok_0->Cpu_0;
                &&& s.spec_dtype() == dtype
                &&& s.bytes().len() == spec_storage_size(dtype, elem_count as nat)
                &&& forall|i: int| 0 <= i < s.bytes().len() ==> s.bytes()[i] == 0
            }),
            *device is Cuda ==> r == Err::<Self, Error>(Error::BackendUnavailable(Backend::Cuda)),
            *device is Metal ==> r == Err::<Self, Error>(Error::BackendUnavailable(Backend::Metal)),
    {
        match device {
            Device::Cpu => match QCpuStorage::zeros(elem_count, dtype) {
                Ok(s) => Ok(QStorage::Cpu(s)),
                Err(e) => Err(e),
            },
            Device::Cuda(d) => match QCudaStorage::zeros(d, elem_count, dtype) {
                Ok(s) => Ok(QStorage::Cuda(s)),
                Err(e) => Err(e),
            },
            Device::Metal(d) => match QMetalStorage::zeros(d, elem_count, dtype) {
                Ok(s) => Ok(QStorage::Metal(s)),
                Err(e) => Err(e),
            },
        }
    }

    pub open spec fn spec_dtype(&self) -> GgmlDType {
        match self {
            QStorage::Cpu(s) => s.spec_dtype(),
            QStorage::Cuda(s) => s.spec_dtype(),
            QStorage::Metal(s) => s.spec_dtype(),
        }
    }

    pub fn dtype(&self) -> (r: GgmlDType)
        ensures
            r == self.spec_dtype(),
    {
        match self {
            QStorage::Cpu(s) => s.dtype(),
            QStorage::Cuda(s) => s.dtype(),
            QStorage::Metal(s) => s.dtype(),
        }
    }

    pub fn device(&self) -> (r: Device)
        ensures
            self is Cpu ==> r == Device::Cpu,
            self is Cuda ==> r == Device::Cuda(self->Cuda_0.spec_device()),
            self is Metal ==> r == Device::Metal(self->Metal_0.spec_device()),
    {
        match self {
            QStorage::Cpu(s) => s.device(),
            QStorage::Cuda(s) => Device::Cuda(*s.device()),
            QStorage::Metal(s) => Device::Metal(*s.device()),
        }
    }

    /// Size of the packed buffer: zero where the backend is left out.
    pub fn size_in_bytes(&self) -> (r: usize)
        ensures
            self is Cpu ==> r == self->Cpu_0.bytes().len(),
            !(self is Cpu) ==> r == 0,
    {
        match self {
            QStorage::Cpu(s) => s.storage_size_in_bytes(),
            QStorage::Cuda(s) => s.storage_size_in_bytes(),
            QStorage::Metal(s) => s.storage_size_in_bytes(),
        }
    }

    /// Decodes `elem_count` values onto the storage's own device.
    pub fn dequantize(&self, elem_count: usize) -> (r: Result<Storage, Error>)
        ensures
            stub_failure(*self, r),
            self is Cpu ==> (r is Ok ==> r->Ok_0 is Cpu) && dequantize_post(self->Cpu_0, elem_count, host_of(r)),
    {
        match self {
            QStorage::Cpu(s) => {
                let h = s.dequantize(elem_count);
                match h {
                    Ok(c) => Ok(Storage::Cpu(c)),
                    Err(e) => Err(e),
                }
            },
            QStorage::Cuda(s) => match s.dequantize(elem_count) {
                Ok(c) => Ok(Storage::Cuda(c)),
                Err(e) => Err(e),
            },
            QStorage::Metal(s) => match s.dequantize(elem_count) {
                Ok(c) => Ok(Storage::Metal(c)),
                Err(e) => Err(e),
            },
        }
    }

    /// Re-quantizes from dense values on the same device.
    pub fn quantize(&mut self, src: &Storage) -> (r: Result<(), Error>)
        ensures
            stub_failure(*old(self), r),
            !(*old(self) is Cpu) ==> *final(self) == *old(self),
            *old(self) is Cpu && !(*src is Cpu) ==> r == Err::<(), Error>(Error::DeviceMismatch) && *final(self) == *old(self),
            *old(self) is Cpu && *src is Cpu ==> *final(self) is Cpu
                && quantize_post(old(self)->Cpu_0, final(self)->Cpu_0, src->Cpu_0, None, r),
    {
        match self {
            QStorage::Cpu(s) => match src {
                Storage::Cpu(x) => s.quantize(x),
                _ => Err(Error::DeviceMismatch),
            },
            QStorage::Cuda(s) => match src {
                Storage::Cuda(x) => s.quantize(x),
                _ => Err(Error::BackendUnavailable(Backend::Cuda)),
            },
            QStorage::Metal(s) => match src {
                Storage::Metal(x) => s.quantize(x),
                _ => Err(Error::BackendUnavailable(Backend::Metal)),
            },
        }
    }

    /// Re-quantizes from dense values on the same device, weighting each
    /// sample's error by `imatrix_weights[i % n_per_row]`.
    pub fn quantize_imatrix(&mut self, src: &Storage, imatrix_weights: &Vec<u32>, n_per_row: usize) -> (r: Result<(), Error>)
        ensures
            stub_failure(*old(self), r),
            !(*old(self) is Cpu) ==> *final(self) == *old(self),
            *old(self) is Cpu && !(*src is Cpu) ==> r == Err::<(), Error>(Error::DeviceMismatch) && *final(self) == *old(self),
            *old(self) is Cpu && *src is Cpu ==> *final(self) is Cpu
                && quantize_post(old(self)->Cpu_0, final(self)->Cpu_0, src->Cpu_0,
                    Some((imatrix_weights@, n_per_row as nat)), r),
    {
        match self {
            QStorage::Cpu(s) => match src {
                Storage::Cpu(x) => s.quantize_imatrix(x, imatrix_weights, n_per_row),
                _ => Err(Error::DeviceMismatch),
            },
            QStorage::Cuda(s) => match src {
                Storage::Cuda(x) => s.quantize_imatrix(x, imatrix_weights, n_per_row),
                _ => Err(Error::BackendUnavailable(Backend::Cuda)),
            },
            QStorage::Metal(s) => match src {
                Storage::Metal(x) => s.quantize_imatrix(x, imatrix_weights, n_per_row),
                _ => Err(Error::BackendUnavailable(Backend::Metal)),
            },
        }
    }

    /// Re-quantizes from host values, whatever the storage's device.
    pub fn quantize_onto(&mut self, src: &CpuStorage) -> (r: Result<(), Error>)
        ensures
            stub_failure(*old(self), r),
            !(*old(self) is Cpu) ==> *final(self) == *old(self),
            *old(self) is Cpu ==> *final(self) is Cpu
                && quantize_post(old(self)->Cpu_0, final(self)->Cpu_0, *src, None, r),
    {
        match self {
            QStorage::Cpu(s) => s.quantize_onto(src),
            QStorage::Cuda(s) => s.quantize_onto(src),
            QStorage::Metal(s) => s.quantize_onto(src),
        }
    }

    /// Weighted re-quantization from host values, whatever the device.
    pub fn quantize_imatrix_onto(&mut self, src: &CpuStorage, imatrix_weights: &Vec<u32>, n_per_row: usize) -> (r: Result<(), Error>)
        ensures
            stub_failure(*old(self), r),
            !(*old(self) is Cpu) ==> *final(self) == *old(self),
            *old(self) is Cpu ==> *final(self) is Cpu
                && quantize_post(old(self)->Cpu_0, final(self)->Cpu_0, *src,
                    Some((imatrix_weights@, n_per_row as nat)), r),
    {
        match self {
            QStorage::Cpu(s) => s.quantize_imatrix_onto(src, imatrix_weights, n_per_row),
            QStorage::Cuda(s) => s.quantize_imatrix_onto(src, imatrix_weights, n_per_row),
            QStorage::Metal(s) => s.quantize_imatrix_onto(src, imatrix_weights, n_per_row),
        }
    }

    /// `input @ weight^T` with the input on the storage's device; see
    /// `QCpuStorage::fwd`.
    pub fn fwd(&self, self_shape: &Shape, storage: &Storage, layout: &Layout) -> (r: Result<(Storage, Shape), Error>)
        ensures
            stub_failure(*self, r),
            self is Cpu && !(*storage is Cpu) ==> r == Err::<(Storage, Shape), Error>(Error::DeviceMismatch),
            self is Cpu && *storage is Cpu ==> (r is Ok ==> r->Ok_0.0 is Cpu)
                && fwd_post(self->Cpu_0, *self_shape, storage->Cpu_0, *layout, as_host(r)),
    {
        match self {
            QStorage::Cpu(s) => match storage {
                Storage::Cpu(x) => match s.fwd(self_shape, x, layout) {
                    Ok((c, sh)) => Ok((Storage::Cpu(c), sh)),
                    Err(e) => Err(e),
                },
                _ => Err(Error::DeviceMismatch),
            },
            QStorage::Cuda(s) => match storage {
                Storage::Cuda(x) => match s.fwd(self_shape, x, layout) {
                    Ok((c, sh)) => Ok((Storage::Cuda(c), sh)),
                    Err(e) => Err(e),
                },
                _ => Err(Error::BackendUnavailable(Backend::Cuda)),
            },
            QStorage::Metal(s) => match storage {
                Storage::Metal(x) => match s.fwd(self_shape, x, layout) {
                    Ok((c, sh)) => Ok((Storage::Metal(c), sh)),
                    Err(e) => Err(e),
                },
                _ => Err(Error::BackendUnavailable(Backend::Metal)),
            },
        }
    }

    /// The packed bytes, for saving.
    pub fn data(&self) -> (r: Result<Vec<u8>, Error>)
        ensures
            stub_failure(*self, r),
            self is Cpu ==> r is Ok && r->Ok_0@ == self->Cpu_0.bytes(),
    {
        match self {
            QStorage::Cpu(s) => s.data(),
            QStorage::Cuda(s) => s.data(),
            QStorage::Metal(s) => s.data(),
        }
    }
}

} // verus!
