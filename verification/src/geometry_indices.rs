//! Typed indices of points, attribute values, vertices, corners and faces.
//!
//! Each index wraps a `u32`; the largest `u32` is reserved as the invalid
//! index of every kind.
use vstd::prelude::*;

verus! {

/// Index of a point of a point cloud or mesh.
#[derive(Debug, Clone, Copy, PartialEq, Eq, Structural, Hash)]
pub struct PointIndex(pub u32);

/// Index of an entry (a unique value) of a point attribute.
#[derive(Debug, Clone, Copy, PartialEq, Eq, Structural, Hash)]
pub struct AttributeValueIndex(pub u32);

/// Index of a vertex of a corner table.
#[derive(Debug, Clone, Copy, PartialEq, Eq, Structural, Hash)]
pub struct VertexIndex(pub u32);

/// Index of a corner of a corner table (three per face).
#[derive(Debug, Clone, Copy, PartialEq, Eq, Structural, Hash)]
pub struct CornerIndex(pub u32);

/// Index of a face of a mesh.
#[derive(Debug, Clone, Copy, PartialEq, Eq, Structural, Hash)]
pub struct FaceIndex(pub u32);

/// The reserved value of an invalid index.
pub const INVALID_INDEX: u32 = 0xffff_ffff;

impl PointIndex {
    /// The invalid point index.
    pub fn invalid() -> (r: Self)
        ensures
            r.0 == INVALID_INDEX,
    {
        PointIndex(INVALID_INDEX)
    }
}

impl AttributeValueIndex {
    /// The invalid attribute value index.
    pub fn invalid() -> (r: Self)
        ensures
            r.0 == INVALID_INDEX,
    {
        AttributeValueIndex(INVALID_INDEX)
    }
}

impl VertexIndex {
    /// The invalid vertex index.
    pub fn invalid() -> (r: Self)
        ensures
            r.0 == INVALID_INDEX,
    {
        VertexIndex(INVALID_INDEX)
    }
}

impl CornerIndex {
    /// The invalid corner index.
    pub fn invalid() -> (r: Self)
        ensures
            r.0 == INVALID_INDEX,
    {
        CornerIndex(INVALID_INDEX)
    }
}

impl FaceIndex {
    /// The invalid face index.
    pub fn invalid() -> (r: Self)
        ensures
            r.0 == INVALID_INDEX,
    {
        FaceIndex(INVALID_INDEX)
    }
}

} // verus!
