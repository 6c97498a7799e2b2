//! Device handles and the dense storages that live on them.
use vstd::prelude::*;

verus! {

/// Handle to a CUDA device, by ordinal. Copies of a handle name the same device.
#[derive(Clone, Copy, Debug, PartialEq, Eq, Structural)]
pub struct CudaDevice {
    pub ordinal: usize,
}

/// Handle to a Metal device, by registry id. Copies of a handle name the same device.
#[derive(Clone, Copy, Debug, PartialEq, Eq, Structural)]
pub struct MetalDevice {
    pub id: usize,
}

/// Where a storage lives.
#[derive(Clone, Copy, Debug, PartialEq, Eq, Structural)]
pub enum Device {
    Cpu,
    Cuda(CudaDevice),
    Metal(MetalDevice),
}

/// Dense host values, one variant per element type: fixed-point `i16`
/// samples, `i32` decoded weights, `i64` products.
#[derive(Clone, Debug)]
pub enum CpuStorage {
    I16(Vec<i16>),
    I32(Vec<i32>),
    I64(Vec<i64>),
}

impl CpuStorage {
    /// Number of elements held.
    pub fn len(&self) -> (r: usize)
        ensures
            r == match self {
                CpuStorage::I16(v) => v@.len(),
                CpuStorage::I32(v) => v@.len(),
                CpuStorage::I64(v) => v@.len(),
            },
    {
        match self {
            CpuStorage::I16(v) => v.len(),
            CpuStorage::I32(v) => v.len(),
            CpuStorage::I64(v) => v.len(),
        }
    }
}

/// Dense values resident on a CUDA device.
#[derive(Clone, Debug)]
pub struct CudaStorage {
    pub device: CudaDevice,
    pub elem_count: usize,
}

/// Dense values resident on a Metal device.
#[derive(Clone, Debug)]
pub struct MetalStorage {
    pub device: MetalDevice,
    pub elem_count: usize,
}

/// Dense values on whichever device they live.
#[derive(Clone, Debug)]
pub enum Storage {
    Cpu(CpuStorage),
    Cuda(CudaStorage),
    Metal(MetalStorage),
}

} // verus!
