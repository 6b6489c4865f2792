//! Kinds of transforms applied to attribute values before compression.
use vstd::prelude::*;

verus! {

/// Kind of an attribute transform.
#[derive(Debug, Clone, Copy, PartialEq, Eq, Structural)]
pub enum AttributeTransformType {
    InvalidTransform,
    NoTransform,
    QuantizationTransform,
    OctahedronTransform,
}

} // verus!
