//! Quantized weight storage: a catalog of packed block formats, an exact
//! integer block codec, per-backend storages behind one dispatch type, and the
//! quantized matrix product used by linear layers.

pub mod dtype;
pub mod codec;
pub mod error;
pub mod device;
pub mod shape;
pub mod matmul;
pub mod cpu;
pub mod cuda;
pub mod metal;
pub mod storage;
pub mod t5;
