//! Element types and device locations.

use vstd::prelude::*;

verus! {

/// The element type of a tensor.
#[derive(Debug, Clone, Copy, PartialEq, Eq, Structural, Hash)]
pub enum DType {
    /// Unsigned 8 bit integer.
    U8,
    /// Unsigned 32 bit integer.
    U32,
    /// Signed 64 bit integer.
    I64,
    /// Brain floating point, 16 bits.
    BF16,
    /// Half precision floating point, 16 bits.
    F16,
    /// Single precision floating point, 32 bits.
    F32,
    /// Double precision floating point, 64 bits.
    F64,
}

impl DType {
    /// The number of bytes of one element.
    pub open spec fn spec_size_in_bytes(&self) -> usize {
        match self {
            DType::U8 => 1,
            DType::BF16 | DType::F16 => 2,
            DType::U32 | DType::F32 => 4,
            DType::I64 | DType::F64 => 8,
        }
    }

    /// The number of bytes of one element.
    #[verifier::when_used_as_spec(spec_size_in_bytes)]
    pub fn size_in_bytes(&self) -> (size: usize)
        ensures
            size == self.size_in_bytes(),
    {
        match self {
            DType::U8 => 1,
            DType::BF16 | DType::F16 => 2,
            DType::U32 | DType::F32 => 4,
            DType::I64 | DType::F64 => 8,
        }
    }
}

/// Where the storage of a tensor lives.
#[derive(Debug, Clone, Copy, PartialEq, Eq, Structural, Hash)]
pub enum DeviceLocation {
    Cpu,
    Cuda { gpu_id: usize },
    Metal { gpu_id: usize },
}

impl DeviceLocation {
    pub fn is_cuda(&self) -> (cuda: bool)
        ensures
            cuda == (self is Cuda),
    {
        matches!(self, DeviceLocation::Cuda { .. })
    }
}

} // verus!
