//! Names shared by the edgebreaker encoder and decoder.
use vstd::prelude::*;

verus! {

/// Which edge of the current face a topology split event refers to.
#[derive(Debug, Clone, Copy, PartialEq, Eq, Structural)]
pub enum EdgeFaceName {
    LeftFaceEdge,
    RightFaceEdge,
}

/// A topology split event: the symbol at which a split was found, the
/// symbol whose face it splits off, and the edge of that face.
#[derive(Debug, Clone, Copy, PartialEq, Eq, Structural)]
pub struct TopologySplitEventData {
    pub split_symbol_id: u32,
    pub source_symbol_id: u32,
    pub source_edge: EdgeFaceName,
}

} // verus!
