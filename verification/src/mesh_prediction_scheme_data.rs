//! The mesh connectivity that mesh prediction schemes read: a corner table,
//! the corner from which each attribute entry is predicted, and the
//! attribute entry of each vertex.
use crate::corner_table::CornerTable;
use vstd::prelude::*;

verus! {

/// Borrowed mesh data of a prediction scheme; its three parts are set
/// together.
#[derive(Clone, Copy)]
pub struct MeshPredictionSchemeData<'a> {
    corner_table: Option<&'a CornerTable>,
    data_to_corner_map: Option<&'a [u32]>,
    vertex_to_data_map: Option<&'a [i32]>,
}

impl<'a> MeshPredictionSchemeData<'a> {
    /// The corner table, once set.
    pub closed spec fn table_spec(&self) -> Option<&'a CornerTable> {
        self.corner_table
    }

    /// For each attribute entry, the corner it is predicted from, once set.
    pub closed spec fn data_to_corner_spec(&self) -> Option<Seq<u32>> {
        match self.data_to_corner_map {
            Some(m) => Some(m@),
            None => None,
        }
    }

    /// For each vertex, its attribute entry (negative for none), once set.
    pub closed spec fn vertex_to_data_spec(&self) -> Option<Seq<i32>> {
        match self.vertex_to_data_map {
            Some(m) => Some(m@),
            None => None,
        }
    }

    /// Mesh data with nothing set.
    pub fn new() -> (r: Self)
        ensures
            r.table_spec() is None,
            r.data_to_corner_spec() is None,
            r.vertex_to_data_spec() is None,
    {
        MeshPredictionSchemeData { corner_table: None, data_to_corner_map: None, vertex_to_data_map: None }
    }

    /// Sets the corner table and both maps.
    pub fn set(&mut self, table: &'a CornerTable, data_to_corner_map: &'a [u32], vertex_to_data_map: &'a [i32])
        ensures
            final(self).table_spec() == Some(table),
            final(self).data_to_corner_spec() == Some(data_to_corner_map@),
            final(self).vertex_to_data_spec() == Some(vertex_to_data_map@),
    {
        self.corner_table = Some(table);
        self.data_to_corner_map = Some(data_to_corner_map);
        self.vertex_to_data_map = Some(vertex_to_data_map);
    }

    /// The corner table, if set.
    pub fn corner_table(&self) -> (r: Option<&'a CornerTable>)
        ensures
            r == self.table_spec(),
    {
        self.corner_table
    }

    /// The corner of each attribute entry, if set.
    pub fn data_to_corner_map(&self) -> (r: Option<&'a [u32]>)
        ensures
            r is Some <==> self.data_to_corner_spec() is Some,
            r is Some ==> r->0@ == self.data_to_corner_spec()->0,
    {
        self.data_to_corner_map
    }

    /// The attribute entry of each vertex, if set.
    pub fn vertex_to_data_map(&self) -> (r: Option<&'a [i32]>)
        ensures
            r is Some <==> self.vertex_to_data_spec() is Some,
            r is Some ==> r->0@ == self.vertex_to_data_spec()->0,
    {
        self.vertex_to_data_map
    }
}

} // verus!
