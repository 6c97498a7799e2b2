use vstd::prelude::*;
use crate::dtype::GgmlDType;

verus! {

/// A compute backend that a build may leave out.
#[derive(Clone, Copy, Debug, PartialEq, Eq, Structural)]
pub enum Backend {
    Cuda,
    Metal,
}

/// Failures of quantized-storage operations.
#[derive(Clone, Copy, Debug, PartialEq, Eq, Structural)]
pub enum Error {
    /// The backend was not compiled into this build: choose another one.
    BackendUnavailable(Backend),
    /// The operands live on different devices.
    DeviceMismatch,
    /// An element count, shape or layout disagrees with the storage.
    ShapeOrCountMismatch,
    /// The backend has no kernel for this packed format or dense element type.
    UnsupportedFormatForBackend(GgmlDType),
    /// Copying the packed bytes off the device did not complete.
    DeviceTransferFailure,
}

impl Error {
    /// True for the routine failure of a backend left out of the build, as
    /// opposed to a genuine fault.
    pub fn is_backend_unavailable(&self) -> (r: bool)
        ensures
            r <==> self is BackendUnavailable,
    {
        matches!(self, Error::BackendUnavailable(_))
    }
}

} // verus!
