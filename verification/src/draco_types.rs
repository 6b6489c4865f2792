//! Data types of attribute components as stored in attribute buffers.
use vstd::prelude::*;

verus! {

/// Type of one component of an attribute value.
#[derive(Debug, Clone, Copy, PartialEq, Eq, Structural)]
pub enum DataType {
    Invalid,
    Int8,
    Uint8,
    Int16,
    Uint16,
    Int32,
    Uint32,
    Int64,
    Uint64,
    Float32,
    Float64,
    Bool,
}

/// Size in bytes of one component of type `t` (0 for `Invalid`).
pub open spec fn data_type_length(t: DataType) -> nat {
    match t {
        DataType::Invalid => 0,
        DataType::Int8 | DataType::Uint8 | DataType::Bool => 1,
        DataType::Int16 | DataType::Uint16 => 2,
        DataType::Int32 | DataType::Uint32 | DataType::Float32 => 4,
        DataType::Int64 | DataType::Uint64 | DataType::Float64 => 8,
    }
}

/// `t` holds whole numbers: every type but the floating-point ones and
/// `Invalid`.
pub open spec fn data_type_integral(t: DataType) -> bool {
    !(t is Float32 || t is Float64 || t is Invalid)
}

impl DataType {
    /// Size in bytes of one component of this type.
    pub fn byte_length(&self) -> (r: usize)
        ensures
            r == data_type_length(*self),
    {
        match self {
            DataType::Invalid => 0,
            DataType::Int8 | DataType::Uint8 | DataType::Bool => 1,
            DataType::Int16 | DataType::Uint16 => 2,
            DataType::Int32 | DataType::Uint32 | DataType::Float32 => 4,
            DataType::Int64 | DataType::Uint64 | DataType::Float64 => 8,
        }
    }

    /// Returns true for the types that hold whole numbers.
    pub fn is_integral(&self) -> (r: bool)
        ensures
            r == data_type_integral(*self),
    {
        match self {
            DataType::Float32 | DataType::Float64 | DataType::Invalid => false,
            _ => true,
        }
    }
}

} // verus!
