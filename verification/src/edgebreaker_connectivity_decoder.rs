//! Rebuilds the corner table of a mesh from a stream of edgebreaker
//! symbols.
//!
//! Faces are decoded one symbol at a time, each symbol attaching a new face
//! to the active corner at the top of a stack: C (center) closes a face
//! between two existing edges, L and R (left, right) add a vertex, S (split)
//! joins two active corners, E (end) starts a new component. Start faces
//! then close the remaining components, and vertices merged by splits are
//! compacted away.
use crate::corner_table::{corner_in_range, next_corner, previous_corner, CornerTable};
use crate::geometry_indices::{CornerIndex, VertexIndex, INVALID_INDEX};
use crate::mesh_edgebreaker_shared::EdgeFaceName;
use crate::mesh_edgebreaker_traversal_valence_decoder::face_joined_as;
use std::collections::HashMap;
use vstd::prelude::*;

verus! {

broadcast use vstd::std_specs::hash::group_hash_axioms;

/// `o` with `c1` and `c2` made each other's opposite (an invalid corner gets
/// no entry).
pub open spec fn paired(o: Seq<CornerIndex>, c1: CornerIndex, c2: CornerIndex) -> Seq<CornerIndex> {
    let o1 = if c1.0 != INVALID_INDEX {
        o.update(c1.0 as int, c2)
    } else {
        o
    };
    if c2.0 != INVALID_INDEX {
        o1.update(c2.0 as int, c1)
    } else {
        o1
    }
}

/// The vertex corners `vc` with corner `c` recorded for vertex `v` (a
/// vertex past them is left alone).
pub open spec fn with_corner(vc: Seq<CornerIndex>, v: u32, c: CornerIndex) -> Seq<CornerIndex> {
    if v < vc.len() {
        vc.update(v as int, c)
    } else {
        vc
    }
}

/// The corner recorded for vertex `v` (invalid for a vertex past the
/// table).
pub open spec fn corner_of(vc: Seq<CornerIndex>, v: u32) -> u32 {
    if v < vc.len() {
        vc[v as int].0
    } else {
        INVALID_INDEX
    }
}

/// The vertex of corner `c` in the map `m` (invalid for the invalid corner).
pub open spec fn vertex_at(m: Seq<VertexIndex>, c: u32) -> u32 {
    if c == INVALID_INDEX {
        INVALID_INDEX
    } else {
        m[c as int].0
    }
}

/// The opposite of corner `c` in `o` (invalid for the invalid corner).
pub open spec fn opposite_at(o: Seq<CornerIndex>, c: u32) -> u32 {
    if c == INVALID_INDEX {
        INVALID_INDEX
    } else {
        o[c as int].0
    }
}

/// Walking left around a vertex from corner `c`, with opposite corners `o`:
/// whether the walk leaves the mesh (meets the invalid corner) within
/// `fuel` steps without coming back to `first`.
pub open spec fn left_walk_ends(o: Seq<CornerIndex>, first: u32, c: u32, fuel: nat) -> bool
    decreases fuel,
{
    if c == INVALID_INDEX {
        true
    } else if fuel == 0 {
        false
    } else {
        let s = previous_corner(opposite_at(o, previous_corner(c)));
        s != first && left_walk_ends(o, first, s, (fuel - 1) as nat)
    }
}

/// The source of the symbols and the receiver of the events of a decoding.
pub trait EdgebreakerTraversalDecoder {
    fn decode_symbol(&mut self) -> u32;

    fn decode_start_face_configuration(&mut self) -> bool;

    fn merge_vertices(&mut self, p: VertexIndex, n: VertexIndex);

    fn is_topology_split(&mut self, encoder_symbol_id: i32) -> Option<(EdgeFaceName, i32)>;

    fn on_vertex_created(&mut self, vertex: VertexIndex, symbol_id: i32, corner_index: i32);

    fn on_vertices_swapped(&mut self, v1: VertexIndex, v2: VertexIndex);

    fn on_start_face_decoded(&mut self, corner: CornerIndex);

    fn on_split_symbol_decoded(&mut self, _corner: CornerIndex) {
    }

    /// Told the active corner after each decoded symbol, in traversal order,
    /// with the corner table as it stands.
    fn new_active_corner_reached(&mut self, _corner: CornerIndex, _corner_table: &CornerTable) {
    }
}

/// Decoder of the connectivity of one mesh.
pub struct EdgebreakerConnectivityDecoder {
    pub corner_table: CornerTable,
    pub is_vert_hole: Vec<bool>,
    active_corner_stack: Vec<CornerIndex>,
    topology_split_active_corners: HashMap<i32, CornerIndex>,
    invalid_vertices: Vec<VertexIndex>,
}

impl EdgebreakerConnectivityDecoder {
    /// The corner table being built.
    pub closed spec fn table(&self) -> CornerTable {
        self.corner_table
    }

    /// Which vertices are still holes (have no closing face).
    pub closed spec fn holes(&self) -> Seq<bool> {
        self.is_vert_hole@
    }

    /// The stack of active corners.
    pub closed spec fn stack(&self) -> Seq<CornerIndex> {
        self.active_corner_stack@
    }

    /// The active corners recorded for future split symbols, by symbol.
    pub closed spec fn split_corners(&self) -> Map<i32, CornerIndex> {
        self.topology_split_active_corners@
    }

    /// The vertices merged away by split symbols, in order.
    pub closed spec fn merged_vertices(&self) -> Seq<VertexIndex> {
        self.invalid_vertices@
    }

    /// The number of corners of the table.
    pub closed spec fn num_corners_spec(&self) -> int {
        self.corner_table.corner_to_vertex_map@.len() as int
    }

    /// The table is a whole number of faces with room for them in `i32`,
    /// every stored corner is the invalid corner or a corner of the table,
    /// and the vertex count stays within the holes vector, which itself fits
    /// in `i32` with room.
    pub closed spec fn wf(&self) -> bool {
        let n = self.num_corners_spec();
        let vc = self.corner_table.vertex_corners@;
        &&& n % 3 == 0
        &&& n + 3 <= i32::MAX
        &&& self.corner_table.opposite_corners@.len() == n
        &&& self.corner_table.opposites_in_range()
        &&& forall|v: int| 0 <= v < vc.len() ==> corner_in_range(#[trigger] vc[v].0, n)
        &&& self.is_vert_hole@.len() + 3 <= i32::MAX
        &&& vc.len() <= self.is_vert_hole@.len()
        &&& forall|i: int| 0 <= i < self.stack().len() ==> (#[trigger] self.stack()[i]).0 < n
        &&& forall|k: i32| #[trigger] self.split_corners().contains_key(k) ==> self.split_corners()[k].0 < n
    }

    /// `self` equals `other` but for the corner table and the holes.
    pub closed spec fn same_state(&self, other: &Self) -> bool {
        &&& self.stack() == other.stack()
        &&& self.split_corners() == other.split_corners()
        &&& self.merged_vertices() == other.merged_vertices()
    }

    /// Creates a decoder for `num_faces` faces and at most `max_num_vertices`
    /// vertices, all of them holes until a face closes them.
    pub fn new(num_faces: i32, max_num_vertices: i32) -> (r: Self)
        requires
            0 <= num_faces,
            3 * num_faces + 3 <= i32::MAX,
            0 <= max_num_vertices,
            max_num_vertices + 3 <= i32::MAX,
        ensures
            r.wf(),
            r.table().corner_to_vertex_map@.len() == 3 * num_faces,
            forall|c: int| 0 <= c < 3 * num_faces ==> #[trigger] r.table().corner_to_vertex_map@[c].0 == INVALID_INDEX,
            forall|c: int| 0 <= c < 3 * num_faces ==> #[trigger] r.table().opposite_corners@[c].0 == INVALID_INDEX,
            r.table().vertex_corners@.len() == 0,
            r.holes() == Seq::new(max_num_vertices as nat, |i: int| true),
            r.stack() == Seq::<CornerIndex>::empty(),
            r.split_corners() == Map::<i32, CornerIndex>::empty(),
            r.merged_vertices() == Seq::<VertexIndex>::empty(),
    {
        let corner_table = CornerTable::new(num_faces as usize);
        let mut is_vert_hole: Vec<bool> = Vec::new();
        let n = max_num_vertices as usize;
        let mut i: usize = 0;
        while i < n
            invariant
                i <= n,
                is_vert_hole@ == Seq::new(i as nat, |j: int| true),
            decreases n - i,
        {
            is_vert_hole.push(true);
            i = i + 1;
            proof {
                assert(is_vert_hole@ =~= Seq::new(i as nat, |j: int| true));
            }
        }
        let r = EdgebreakerConnectivityDecoder {
            corner_table,
            is_vert_hole,
            active_corner_stack: Vec::new(),
            topology_split_active_corners: HashMap::new(),
            invalid_vertices: Vec::new(),
        };
        proof {
            assert(r.split_corners() =~= Map::<i32, CornerIndex>::empty());
        }
        r
    }

    /// Well-formedness only depends on the sizes of the map and the holes, on
    /// the opposite corners, and on the ranges of the vertex, active and
    /// split corners.
    proof fn lemma_wf_same(a: &Self, b: &Self)
        requires
            a.wf(),
            b.corner_table.corner_to_vertex_map@.len() == a.corner_table.corner_to_vertex_map@.len(),
            b.corner_table.opposite_corners@ == a.corner_table.opposite_corners@,
            b.corner_table.vertex_corners@.len() == a.corner_table.vertex_corners@.len(),
            forall|v: int|
                0 <= v < b.corner_table.vertex_corners@.len() ==> corner_in_range(
                    #[trigger] b.corner_table.vertex_corners@[v].0,
                    b.corner_table.corner_to_vertex_map@.len() as int,
                ),
            b.is_vert_hole@.len() == a.is_vert_hole@.len(),
            forall|i: int|
                0 <= i < b.stack().len() ==> (#[trigger] b.stack()[i]).0 < b.corner_table.corner_to_vertex_map@.len(),
            b.split_corners() == a.split_corners(),
        ensures
            b.wf(),
    {
        assert forall|c: int| 0 <= c < b.corner_table.opposite_corners@.len() implies corner_in_range(
            #[trigger] b.corner_table.opposite_corners@[c].0,
            b.corner_table.corner_to_vertex_map@.len() as int,
        ) by {
            assert(corner_in_range(a.corner_table.opposite_corners@[c].0, a.corner_table.corner_to_vertex_map@.len() as int));
        }
    }

    /// Makes `c1` and `c2` each other's opposite (an invalid corner gets no
    /// entry).
    fn set_opposite_corners(&mut self, c1: CornerIndex, c2: CornerIndex)
        requires
            old(self).wf(),
            corner_in_range(c1.0, old(self).num_corners_spec()),
            corner_in_range(c2.0, old(self).num_corners_spec()),
        ensures
            final(self).wf(),
            final(self).same_state(old(self)),
            final(self).holes() == old(self).holes(),
            final(self).table().corner_to_vertex_map@ == old(self).table().corner_to_vertex_map@,
            final(self).table().vertex_corners@ == old(self).table().vertex_corners@,
            final(self).table().opposite_corners@ == paired(old(self).table().opposite_corners@, c1, c2),
    {
        if c1.0 != INVALID_INDEX {
            self.corner_table.set_opposite(c1, c2);
        }
        if c2.0 != INVALID_INDEX {
            self.corner_table.set_opposite(c2, c1);
        }
        proof {
            let n = self.num_corners_spec();
            assert forall|c: int| 0 <= c < self.corner_table.opposite_corners@.len() implies corner_in_range(
                #[trigger] self.corner_table.opposite_corners@[c].0,
                self.corner_table.corner_to_vertex_map@.len() as int,
            ) by {
                let o = old(self).corner_table.opposite_corners@;
                if c != c1.0 && c != c2.0 {
                    assert(self.corner_table.opposite_corners@[c] == o[c]);
                }
            }
            assert(self.stack() == old(self).stack());
            assert(self.split_corners() == old(self).split_corners());
        }
    }
}


impl EdgebreakerConnectivityDecoder {
    /// Decodes a C symbol: the new face `face` closes the gap between the
    /// active corner and the corner after the left-most corner of the vertex
    /// opposite the active edge, and becomes the active corner.
    ///
    /// Fails when there is no active corner, when the two edges are the same
    /// or already have opposites, when the face would repeat a vertex, or when
    /// the closed vertex lies past the holes.
    fn decode_center(&mut self, face: u32) -> (r: Result<(), String>)
        requires
            old(self).wf(),
            3 * face + 2 < old(self).num_corners_spec(),
        ensures
            final(self).table().corner_to_vertex_map@.len() == old(self).table().corner_to_vertex_map@.len(),
            old(self).center_decoded(final(self), face, r is Ok),
    {
        let len = self.active_corner_stack.len();
        if len == 0 {
            return Err("active_corner_stack empty in TOPOLOGY_C".to_owned());
        }
        let corner_a = self.active_corner_stack[len - 1];
        proof {
            assert(self.stack()[len - 1].0 < self.num_corners_spec());
            assert(next_corner(corner_a.0) < self.num_corners_spec());
            assert(previous_corner(corner_a.0) < self.num_corners_spec());
        }
        let vertex_x = self.corner_table.vertex(self.corner_table.next(corner_a));
        let lmc = self.corner_table.left_most_corner(vertex_x);
        proof {
            if (vertex_x.0 as int) < self.corner_table.vertex_corners@.len() {
                assert(corner_in_range(self.corner_table.vertex_corners@[vertex_x.0 as int].0, self.num_corners_spec()));
            }
            if lmc.0 != INVALID_INDEX {
                assert(next_corner(lmc.0) < self.num_corners_spec());
            }
        }
        let corner_b = self.corner_table.next(lmc);
        if corner_a == corner_b {
            return Err("corner_a == corner_b in TOPOLOGY_C".to_owned());
        }
        if self.corner_table.opposite(corner_a).0 != INVALID_INDEX || self.corner_table.opposite(corner_b).0
            != INVALID_INDEX {
            return Err("Edge already opposite in TOPOLOGY_C".to_owned());
        }
        let corner = CornerIndex(3 * face);
        self.set_opposite_corners(corner_a, CornerIndex(corner.0 + 1));
        self.set_opposite_corners(corner_b, CornerIndex(corner.0 + 2));
        proof {
            if corner_b.0 != INVALID_INDEX {
                assert(next_corner(corner_b.0) < self.num_corners_spec());
            }
        }
        let vert_a_prev = self.corner_table.vertex(self.corner_table.previous(corner_a));
        let vert_b_next = self.corner_table.vertex(self.corner_table.next(corner_b));
        if vertex_x == vert_a_prev || vertex_x == vert_b_next {
            return Err("Degenerate face in TOPOLOGY_C".to_owned());
        }
        if vertex_x.0 as usize >= self.is_vert_hole.len() {
            return Err("Vertex out of range in TOPOLOGY_C".to_owned());
        }
        self.corner_table.map_corner_to_vertex(corner.0, vertex_x);
        self.corner_table.map_corner_to_vertex(corner.0 + 1, vert_b_next);
        self.corner_table.map_corner_to_vertex(corner.0 + 2, vert_a_prev);
        self.corner_table.set_left_most_corner(vert_a_prev, CornerIndex(corner.0 + 2));
        self.is_vert_hole.set(vertex_x.0 as usize, false);
        self.active_corner_stack.set(len - 1, corner);
        proof {
            let n = self.num_corners_spec();
            let vc = self.corner_table.vertex_corners@;
            assert forall|v: int| 0 <= v < vc.len() implies corner_in_range(#[trigger] vc[v].0, n) by {
                if v != vert_a_prev.0 {
                    assert(vc[v] == old(self).corner_table.vertex_corners@[v]);
                }
            }
            assert forall|i: int| 0 <= i < self.stack().len() implies (#[trigger] self.stack()[i]).0 < n by {
                if i != len - 1 {
                    assert(self.stack()[i] == old(self).stack()[i]);
                }
            }
            assert(self.split_corners() == old(self).split_corners());
        }
        Ok(())
    }
}


/// The corners of face `3c / 3` playing the parts of an R (`right`) or L
/// symbol: the corner opposite the active corner, the left corner and the
/// right corner.
pub open spec fn right_left_corners(c: int, right: bool) -> (int, int, int) {
    if right {
        (c + 2, c + 1, c)
    } else {
        (c + 1, c, c + 2)
    }
}

impl EdgebreakerConnectivityDecoder {
    /// Decodes an R (`symbol == 3`) or L symbol: the new face `face` is
    /// attached to the active edge with a new vertex opposite it, and becomes
    /// the active corner. The traversal decoder is told of the new vertex.
    ///
    /// Fails when there is no active corner, when the active edge already has
    /// an opposite, or when the vertices outnumber the holes.
    fn decode_right_left<T: EdgebreakerTraversalDecoder>(
        &mut self,
        face: u32,
        symbol: u32,
        symbol_id: i32,
        traversal_decoder: &mut T,
    ) -> (r: Result<(), String>)
        requires
            old(self).wf(),
            3 * face + 2 < old(self).num_corners_spec(),
        ensures
            final(self).table().corner_to_vertex_map@.len() == old(self).table().corner_to_vertex_map@.len(),
            old(self).right_left_decoded(final(self), face, symbol, r is Ok),
    {
        let len = self.active_corner_stack.len();
        if len == 0 {
            return Err("active_corner_stack empty in TOPOLOGY_R/L".to_owned());
        }
        let corner_a = self.active_corner_stack[len - 1];
        proof {
            assert(self.stack()[len - 1].0 < self.num_corners_spec());
            assert(next_corner(corner_a.0) < self.num_corners_spec());
            assert(previous_corner(corner_a.0) < self.num_corners_spec());
        }
        if self.corner_table.opposite(corner_a).0 != INVALID_INDEX {
            return Err("Edge already opposite in TOPOLOGY_R/L".to_owned());
        }
        let corner = 3 * face;
        let (opp_corner, corner_l, corner_r) = if symbol == 3 {
            (CornerIndex(corner + 2), CornerIndex(corner + 1), CornerIndex(corner))
        } else {
            (CornerIndex(corner + 1), CornerIndex(corner), CornerIndex(corner + 2))
        };
        self.set_opposite_corners(opp_corner, corner_a);
        let new_vert_index = self.corner_table.add_new_vertex();
        traversal_decoder.on_vertex_created(new_vert_index, symbol_id, opp_corner.0 as i32);
        if self.corner_table.num_vertices() > self.is_vert_hole.len() {
            return Err("Unexpected number of vertices in TOPOLOGY_R/L".to_owned());
        }
        self.corner_table.map_corner_to_vertex(opp_corner.0, new_vert_index);
        self.corner_table.set_left_most_corner(new_vert_index, opp_corner);
        let vertex_r = self.corner_table.vertex(self.corner_table.previous(corner_a));
        self.corner_table.map_corner_to_vertex(corner_r.0, vertex_r);
        self.corner_table.set_left_most_corner(vertex_r, corner_r);
        let vertex_l = self.corner_table.vertex(self.corner_table.next(corner_a));
        self.corner_table.map_corner_to_vertex(corner_l.0, vertex_l);
        self.active_corner_stack.set(len - 1, CornerIndex(corner));
        proof {
            let n = self.num_corners_spec();
            let vc = self.corner_table.vertex_corners@;
            let vc0 = old(self).corner_table.vertex_corners@;
            assert forall|v: int| 0 <= v < vc.len() implies corner_in_range(#[trigger] vc[v].0, n) by {
                if v != vertex_r.0 && v != new_vert_index.0 {
                    assert(vc[v] == vc0[v]);
                }
            }
            assert forall|i: int| 0 <= i < self.stack().len() implies (#[trigger] self.stack()[i]).0 < n by {
                if i != len - 1 {
                    assert(self.stack()[i] == old(self).stack()[i]);
                }
            }
            assert(self.split_corners() == old(self).split_corners());
            assert(self.corner_table.vertex_corners@ =~= with_corner(
                vc0.push(opp_corner),
                vertex_r.0,
                corner_r,
            ));
        }
        Ok(())
    }
}


impl EdgebreakerConnectivityDecoder {
    /// Decodes an E symbol: the new face `face` starts a new component with
    /// three new vertices and is pushed as an active corner. The traversal
    /// decoder is told of the new vertices.
    ///
    /// Fails when the vertices outnumber the holes.
    fn decode_end<T: EdgebreakerTraversalDecoder>(&mut self, face: u32, symbol_id: i32, traversal_decoder: &mut T) -> (r:
        Result<(), String>)
        requires
            old(self).wf(),
            3 * face + 2 < old(self).num_corners_spec(),
        ensures
            final(self).table().corner_to_vertex_map@.len() == old(self).table().corner_to_vertex_map@.len(),
            old(self).end_decoded(final(self), face, r is Ok),
    {
        let corner = 3 * face;
        let v0 = self.corner_table.add_new_vertex();
        let v1 = self.corner_table.add_new_vertex();
        let v2 = self.corner_table.add_new_vertex();
        traversal_decoder.on_vertex_created(v0, symbol_id, corner as i32);
        traversal_decoder.on_vertex_created(v1, symbol_id, (corner + 1) as i32);
        traversal_decoder.on_vertex_created(v2, symbol_id, (corner + 2) as i32);
        if self.corner_table.num_vertices() > self.is_vert_hole.len() {
            return Err("Unexpected number of vertices in TOPOLOGY_E".to_owned());
        }
        self.corner_table.map_corner_to_vertex(corner, v0);
        self.corner_table.map_corner_to_vertex(corner + 1, v1);
        self.corner_table.map_corner_to_vertex(corner + 2, v2);
        self.corner_table.set_left_most_corner(v0, CornerIndex(corner));
        self.corner_table.set_left_most_corner(v1, CornerIndex(corner + 1));
        self.corner_table.set_left_most_corner(v2, CornerIndex(corner + 2));
        self.active_corner_stack.push(CornerIndex(corner));
        proof {
            let n = self.num_corners_spec();
            let vc = self.corner_table.vertex_corners@;
            let vc0 = old(self).corner_table.vertex_corners@;
            assert(vc =~= vc0.push(CornerIndex(corner)).push(CornerIndex((corner + 1) as u32)).push(CornerIndex((corner + 2) as u32)));
            assert forall|v: int| 0 <= v < vc.len() implies corner_in_range(#[trigger] vc[v].0, n) by {
                if v < vc0.len() {
                    assert(vc[v] == vc0[v]);
                }
            }
            assert forall|i: int| 0 <= i < self.stack().len() implies (#[trigger] self.stack()[i]).0 < n by {
                if i < old(self).stack().len() {
                    assert(self.stack()[i] == old(self).stack()[i]);
                }
            }
            assert(self.split_corners() == old(self).split_corners());
        }
        Ok(())
    }

    /// A C symbol decoded into face `face` takes `self` to `after`, succeeding
    /// or not as `ok` says.
    pub open spec fn center_decoded(&self, after: &Self, face: u32, ok: bool) -> bool {
        let ct = self.table();
        let m = ct.corner_to_vertex_map@;
        let st = self.stack();
        let a = st.last().0;
        let vx = vertex_at(m, next_corner(a));
        let b = next_corner(corner_of(ct.vertex_corners@, vx));
        let c = 3 * face;
        let vap = vertex_at(m, previous_corner(a));
        let vbn = vertex_at(m, next_corner(b));
        &&& ok <==> (st.len() > 0 && a != b && opposite_at(ct.opposite_corners@, a) == INVALID_INDEX
            && opposite_at(ct.opposite_corners@, b) == INVALID_INDEX && vx != vap && vx != vbn && vx
            < self.holes().len())
        &&& ok ==> {
            &&& after.wf()
            &&& after.table().corner_to_vertex_map@ == m.update(c as int, VertexIndex(vx)).update(
                c + 1,
                VertexIndex(vbn),
            ).update(c + 2, VertexIndex(vap))
            &&& after.table().opposite_corners@ == paired(
                paired(ct.opposite_corners@, CornerIndex(a), CornerIndex((c + 1) as u32)),
                CornerIndex(b),
                CornerIndex((c + 2) as u32),
            )
            &&& after.table().vertex_corners@ == with_corner(
                ct.vertex_corners@,
                vap,
                CornerIndex((c + 2) as u32),
            )
            &&& after.holes() == self.holes().update(vx as int, false)
            &&& after.stack() == st.update(st.len() - 1, CornerIndex(c as u32))
            &&& after.split_corners() == self.split_corners()
            &&& after.merged_vertices() == self.merged_vertices()
        }
    }

    /// An R (`symbol == 3`) or L symbol decoded into face `face` takes `self`
    /// to `after`, succeeding or not as `ok` says.
    pub open spec fn right_left_decoded(&self, after: &Self, face: u32, symbol: u32, ok: bool) -> bool {
        let ct = self.table();
        let m = ct.corner_to_vertex_map@;
        let vc = ct.vertex_corners@;
        let st = self.stack();
        let a = st.last().0;
        let c = 3 * face;
        let (oc, cl, cr) = right_left_corners(c as int, symbol == 3);
        let nv = vc.len();
        let m1 = m.update(oc, VertexIndex(nv as u32));
        let vr = vertex_at(m1, previous_corner(a));
        let m2 = m1.update(cr, VertexIndex(vr));
        let vl = vertex_at(m2, next_corner(a));
        &&& ok <==> (st.len() > 0 && opposite_at(ct.opposite_corners@, a) == INVALID_INDEX && nv + 1
            <= self.holes().len())
        &&& ok ==> {
            &&& after.wf()
            &&& after.table().corner_to_vertex_map@ == m2.update(cl, VertexIndex(vl))
            &&& after.table().opposite_corners@ == paired(
                ct.opposite_corners@,
                CornerIndex(oc as u32),
                CornerIndex(a),
            )
            &&& after.table().vertex_corners@ == with_corner(
                vc.push(CornerIndex(oc as u32)),
                vr,
                CornerIndex(cr as u32),
            )
            &&& after.holes() == self.holes()
            &&& after.stack() == st.update(st.len() - 1, CornerIndex(c as u32))
            &&& after.split_corners() == self.split_corners()
            &&& after.merged_vertices() == self.merged_vertices()
        }
    }

    /// A C symbol decoded into face `face` closes the gap between the active
    /// corner `a` and the corner `b` after the left-most corner of the vertex
    /// after `a`, oriented as both faces across it: the corners opposite `a`
    /// and `b` are two different corners of the new face, and for each of
    /// them the corners after and before it hold the vertices before and
    /// after `a` (or `b`), so each shared edge is walked one way in each
    /// face. Here `a` and `b` lie in faces decoded before, and the left-most
    /// corner recorded for the vertex after `a` lies on it.
    pub proof fn lemma_center_orientation(d: &Self, after: &Self, face: u32)
        requires
            d.num_corners_spec() < INVALID_INDEX,
            d.table().opposite_corners@.len() == d.num_corners_spec(),
            3 * face + 2 < d.num_corners_spec(),
            d.center_decoded(after, face, true),
            d.stack().last().0 < 3 * face,
            ({
                let m = d.table().corner_to_vertex_map@;
                let vx = vertex_at(m, next_corner(d.stack().last().0));
                let l = corner_of(d.table().vertex_corners@, vx);
                &&& next_corner(l) < 3 * face
                &&& vertex_at(m, l) == vx
            }),
        ensures
            ({
                let m = d.table().corner_to_vertex_map@;
                let m2 = after.table().corner_to_vertex_map@;
                let o2 = after.table().opposite_corners@;
                let a = d.stack().last().0;
                let b = next_corner(corner_of(d.table().vertex_corners@, vertex_at(m, next_corner(a))));
                let oa = opposite_at(o2, a);
                let ob = opposite_at(o2, b);
                &&& 3 * face <= oa < 3 * face + 3
                &&& 3 * face <= ob < 3 * face + 3
                &&& oa != ob
                &&& opposite_at(o2, oa) == a
                &&& opposite_at(o2, ob) == b
                &&& vertex_at(m2, next_corner(oa)) == vertex_at(m, previous_corner(a))
                &&& vertex_at(m2, previous_corner(oa)) == vertex_at(m, next_corner(a))
                &&& vertex_at(m2, next_corner(ob)) == vertex_at(m, previous_corner(b))
                &&& vertex_at(m2, previous_corner(ob)) == vertex_at(m, next_corner(b))
            }),
    {
        let a = d.stack().last().0;
        let c = (3 * face) as u32;
        let ct = d.table();
        let m = ct.corner_to_vertex_map@;
        let vx = vertex_at(m, next_corner(a));
        let l = corner_of(ct.vertex_corners@, vx);
        let b = next_corner(l);
        let vap = vertex_at(m, previous_corner(a));
        let vbn = vertex_at(m, next_corner(b));
        assert(after.table().corner_to_vertex_map@ == m.update(c as int, VertexIndex(vx)).update(
            c + 1,
            VertexIndex(vbn),
        ).update(c + 2, VertexIndex(vap)));
        assert(after.table().opposite_corners@ == paired(
            paired(ct.opposite_corners@, CornerIndex(a), CornerIndex((c + 1) as u32)),
            CornerIndex(b),
            CornerIndex((c + 2) as u32),
        ));
        assert(l != INVALID_INDEX);
        assert(next_corner(a) < c && previous_corner(a) < c);
        assert(next_corner(b) < c && previous_corner(b) == l);
        assert(next_corner((c + 1) as u32) == c + 2 && previous_corner((c + 1) as u32) == c);
        assert(next_corner((c + 2) as u32) == c && previous_corner((c + 2) as u32) == c + 1);
    }

    /// An R (`symbol == 3`) or L symbol decoded into face `face`, with the
    /// active corner `a` in a face decoded before, attaches a face oriented
    /// as the face across the active edge: the corner opposite `a` holds the
    /// new vertex, and the two other corners, in face order after it, hold
    /// the vertex before `a` then the vertex after `a`, so the shared edge is
    /// walked one way in each face. The new vertex sits at the last corner of
    /// the face for R and at the second for L.
    pub proof fn lemma_right_left_orientation(d: &Self, after: &Self, face: u32, symbol: u32)
        requires
            d.num_corners_spec() < INVALID_INDEX,
            d.table().opposite_corners@.len() == d.num_corners_spec(),
            symbol == 2 || symbol == 3,
            3 * face + 2 < d.num_corners_spec(),
            d.right_left_decoded(after, face, symbol, true),
            d.stack().last().0 < 3 * face,
        ensures
            ({
                let m = d.table().corner_to_vertex_map@;
                let m2 = after.table().corner_to_vertex_map@;
                let o2 = after.table().opposite_corners@;
                let a = d.stack().last().0;
                let o = opposite_at(o2, a);
                &&& 3 * face <= o < 3 * face + 3
                &&& o == if symbol == 3 { 3 * face + 2 } else { 3 * face + 1 }
                &&& opposite_at(o2, o) == a
                &&& vertex_at(m2, o) == d.table().vertex_corners@.len()
                &&& vertex_at(m2, next_corner(o)) == vertex_at(m, previous_corner(a))
                &&& vertex_at(m2, previous_corner(o)) == vertex_at(m, next_corner(a))
                &&& vertex_at(m2, next_corner(a)) == vertex_at(m, next_corner(a))
                &&& vertex_at(m2, previous_corner(a)) == vertex_at(m, previous_corner(a))
            }),
    {
        let a = d.stack().last().0;
        let c = (3 * face) as u32;
        let ct = d.table();
        let m = ct.corner_to_vertex_map@;
        let nv = ct.vertex_corners@.len();
        let (oc, cl, cr) = right_left_corners(c as int, symbol == 3);
        let m1 = m.update(oc, VertexIndex(nv as u32));
        let vr = vertex_at(m1, previous_corner(a));
        let m2 = m1.update(cr, VertexIndex(vr));
        let vl = vertex_at(m2, next_corner(a));
        assert(after.table().corner_to_vertex_map@ == m2.update(cl, VertexIndex(vl)));
        assert(after.table().opposite_corners@ == paired(ct.opposite_corners@, CornerIndex(oc as u32), CornerIndex(a)));
        assert(next_corner(a) < c && previous_corner(a) < c);
        assert(next_corner((c + 1) as u32) == c + 2 && previous_corner((c + 1) as u32) == c);
        assert(next_corner((c + 2) as u32) == c && previous_corner((c + 2) as u32) == c + 1);
    }

    /// The face made by a symbol is joined to the faces before it as the
    /// symbol says (see `face_joined_as`), when its corners had no opposites
    /// before and the corners it is joined to lie in faces decoded before:
    /// the active corners, and for C the corner after the left-most corner
    /// of the vertex after the active corner.
    pub proof fn lemma_symbol_face_joined(d: &Self, after: &Self, face: u32, symbol: u32, symbol_id: i32)
        requires
            d.num_corners_spec() < INVALID_INDEX,
            d.table().opposite_corners@.len() == d.num_corners_spec(),
            3 * face + 2 < d.num_corners_spec(),
            forall|k: int| 3 * face <= k < 3 * face + 3 ==> (#[trigger] d.table().opposite_corners@[k]).0 == INVALID_INDEX,
            symbol <= 4,
            symbol == 0 ==> d.center_decoded(after, face, true),
            symbol == 1 ==> d.split_decoded(after, face, symbol_id, true),
            symbol == 2 || symbol == 3 ==> d.right_left_decoded(after, face, symbol, true),
            symbol == 4 ==> d.end_decoded(after, face, true),
            symbol != 4 ==> d.stack().last().0 < 3 * face,
            symbol == 0 ==> next_corner(
                corner_of(
                    d.table().vertex_corners@,
                    vertex_at(d.table().corner_to_vertex_map@, next_corner(d.stack().last().0)),
                ),
            ) < 3 * face,
            symbol == 1 ==> d.stack().len() >= 2 || d.split_corners().contains_key(symbol_id),
            symbol == 1 && d.split_corners().contains_key(symbol_id) ==> d.split_corners()[symbol_id].0 < 3 * face,
            symbol == 1 && !d.split_corners().contains_key(symbol_id) ==> d.stack()[d.stack().len() - 2].0 < 3
                * face,
        ensures
            face_joined_as(&after.table(), (3 * face) as u32, symbol as i32),
    {
        let c = (3 * face) as u32;
        let o = d.table().opposite_corners@;
        let o2 = after.table().opposite_corners@;
        assert(next_corner(c) == c + 1 && previous_corner(c) == c + 2);
        if symbol == 4 {
            assert(o2 == o);
        } else if symbol == 2 || symbol == 3 {
            let a = d.stack().last().0;
            let (oc, cl, cr) = right_left_corners(c as int, symbol == 3);
            assert(o2 == paired(o, CornerIndex(oc as u32), CornerIndex(a)));
        } else if symbol == 0 {
            let a = d.stack().last().0;
            let m = d.table().corner_to_vertex_map@;
            let b = next_corner(corner_of(d.table().vertex_corners@, vertex_at(m, next_corner(a))));
            assert(o2 == paired(
                paired(o, CornerIndex(a), CornerIndex((c + 1) as u32)),
                CornerIndex(b),
                CornerIndex((c + 2) as u32),
            ));
        } else {
            let st = d.stack();
            let popped = st.drop_last();
            let st2 = if d.split_corners().contains_key(symbol_id) {
                popped.push(d.split_corners()[symbol_id])
            } else {
                popped
            };
            let a = st2.last().0;
            let b = st.last().0;
            assert(a < c);
            assert(o2 == paired(
                paired(o, CornerIndex(a), CornerIndex((c + 2) as u32)),
                CornerIndex(b),
                CornerIndex((c + 1) as u32),
            ));
        }
    }

    /// An E symbol decoded into face `face` takes `self` to `after`,
    /// succeeding or not as `ok` says.
    pub open spec fn end_decoded(&self, after: &Self, face: u32, ok: bool) -> bool {
        let ct = self.table();
        let vc = ct.vertex_corners@;
        let nv = vc.len();
        let c = 3 * face;
        &&& ok <==> nv + 3 <= self.holes().len()
        &&& ok ==> {
            &&& after.wf()
            &&& after.table().corner_to_vertex_map@ == ct.corner_to_vertex_map@.update(
                c as int,
                VertexIndex(nv as u32),
            ).update(c + 1, VertexIndex((nv + 1) as u32)).update(c + 2, VertexIndex((nv + 2) as u32))
            &&& after.table().opposite_corners@ == ct.opposite_corners@
            &&& after.table().vertex_corners@ == vc.push(CornerIndex(c as u32)).push(
                CornerIndex((c + 1) as u32),
            ).push(CornerIndex((c + 2) as u32))
            &&& after.holes() == self.holes()
            &&& after.stack() == self.stack().push(CornerIndex(c as u32))
            &&& after.split_corners() == self.split_corners()
            &&& after.merged_vertices() == self.merged_vertices()
        }
    }

    /// The S symbol `symbol_id` decoded into face `face` takes `self` to
    /// `after`, succeeding or not as `ok` says.
    pub open spec fn split_decoded(&self, after: &Self, face: u32, symbol_id: i32, ok: bool) -> bool {
        let ct = self.table();
        let m = ct.corner_to_vertex_map@;
        let st = self.stack();
        let popped = st.drop_last();
        let st2 = if self.split_corners().contains_key(symbol_id) {
            popped.push(self.split_corners()[symbol_id])
        } else {
            popped
        };
        let a = st2.last().0;
        let b = st.last().0;
        let c = 3 * face;
        let vp = vertex_at(m, previous_corner(a));
        let m3 = m.update(c as int, VertexIndex(vp)).update(c + 1, VertexIndex(vertex_at(m, next_corner(a)))).update(
            c + 2,
            VertexIndex(vertex_at(m, previous_corner(b))),
        );
        &&& ok ==> {
            &&& st.len() > 0
            &&& st2.len() > 0
            &&& a != b
            &&& opposite_at(ct.opposite_corners@, a) == INVALID_INDEX
            &&& opposite_at(ct.opposite_corners@, b) == INVALID_INDEX
            &&& after.wf()
            &&& after.table().corner_to_vertex_map@.len() == m.len()
            &&& forall|k: int|
                0 <= k < m.len() ==> #[trigger] after.table().corner_to_vertex_map@[k] == m3[k]
                    || after.table().corner_to_vertex_map@[k] == VertexIndex(vp)
            &&& after.table().opposite_corners@ == paired(
                paired(ct.opposite_corners@, CornerIndex(a), CornerIndex((c + 2) as u32)),
                CornerIndex(b),
                CornerIndex((c + 1) as u32),
            )
            &&& after.holes() == self.holes()
            &&& after.stack() == st2.update(st2.len() - 1, CornerIndex(c as u32))
            &&& after.split_corners() == self.split_corners()
            &&& (after.merged_vertices() == self.merged_vertices()
                || after.merged_vertices() == self.merged_vertices().push(
                VertexIndex(vertex_at(m, next_corner(b))),
            ))
        }
        &&& (st.len() == 0 || st2.len() == 0 || a == b || opposite_at(ct.opposite_corners@, a) != INVALID_INDEX
            || opposite_at(ct.opposite_corners@, b) != INVALID_INDEX) ==> !ok
        &&& (st.len() > 0 && st2.len() > 0 && a != b && opposite_at(ct.opposite_corners@, a) == INVALID_INDEX
            && opposite_at(ct.opposite_corners@, b) == INVALID_INDEX) ==> (ok <==> (self.split_merges_nothing(symbol_id) || self.split_walk_ends(face, symbol_id)))
        &&& (st.len() > 0 && st2.len() > 0 && a != b && opposite_at(ct.opposite_corners@, a) == INVALID_INDEX
            && opposite_at(ct.opposite_corners@, b) == INVALID_INDEX && self.split_merges_nothing(symbol_id))
            ==> {
            &&& ok
            &&& after.table().corner_to_vertex_map@ == m3
            &&& after.merged_vertices() == self.merged_vertices()
        }
    }

    /// An S symbol decoded into face `face` joins the edge of the active
    /// corner `a` below the popped one (or recorded for the symbol) and the
    /// edge of the popped corner `b`: their opposites become the last and the
    /// second corner of the new face, and the corner after the one opposite
    /// `a`, the corner before `a` and the corner before the one opposite `b`
    /// all end on the vertex before `a`, as faces oriented alike across those
    /// edges need. Here `a` and `b` lie in faces decoded before.
    pub proof fn lemma_split_orientation(d: &Self, after: &Self, face: u32, symbol_id: i32)
        requires
            d.num_corners_spec() < INVALID_INDEX,
            d.table().opposite_corners@.len() == d.num_corners_spec(),
            3 * face + 2 < d.num_corners_spec(),
            d.split_decoded(after, face, symbol_id, true),
            d.stack().last().0 < 3 * face,
            d.split_corners().contains_key(symbol_id) ==> d.split_corners()[symbol_id].0 < 3 * face,
            !d.split_corners().contains_key(symbol_id) ==> d.stack()[d.stack().len() - 2].0 < 3 * face,
        ensures
            ({
                let m = d.table().corner_to_vertex_map@;
                let m2 = after.table().corner_to_vertex_map@;
                let o2 = after.table().opposite_corners@;
                let st = d.stack();
                let popped = st.drop_last();
                let a = (if d.split_corners().contains_key(symbol_id) {
                    popped.push(d.split_corners()[symbol_id])
                } else {
                    popped
                }).last().0;
                let b = st.last().0;
                let oa = opposite_at(o2, a);
                let ob = opposite_at(o2, b);
                &&& oa == 3 * face + 2
                &&& ob == 3 * face + 1
                &&& opposite_at(o2, oa) == a
                &&& opposite_at(o2, ob) == b
                &&& vertex_at(m2, next_corner(oa)) == vertex_at(m, previous_corner(a))
                &&& vertex_at(m2, previous_corner(a)) == vertex_at(m, previous_corner(a))
                &&& vertex_at(m2, previous_corner(ob)) == vertex_at(m, previous_corner(a))
            }),
    {
        let c = (3 * face) as u32;
        let st = d.stack();
        let popped = st.drop_last();
        let st2 = if d.split_corners().contains_key(symbol_id) {
            popped.push(d.split_corners()[symbol_id])
        } else {
            popped
        };
        let a = st2.last().0;
        let b = st.last().0;
        let m = d.table().corner_to_vertex_map@;
        let m2 = after.table().corner_to_vertex_map@;
        assert(a < c);
        assert(next_corner(a) < c && previous_corner(a) < c);
        assert(next_corner((c + 2) as u32) == c && previous_corner((c + 1) as u32) == c);
        assert(m2[c as int] == VertexIndex(vertex_at(m, previous_corner(a))));
        assert(m2[previous_corner(a) as int] == VertexIndex(vertex_at(m, previous_corner(a))));
    }

    /// The S symbol `symbol_id` merges no vertex: the vertex after the popped
    /// active corner is the one before the new active corner, or invalid.
    pub open spec fn split_merges_nothing(&self, symbol_id: i32) -> bool {
        let m = self.table().corner_to_vertex_map@;
        let st = self.stack();
        let popped = st.drop_last();
        let st2 = if self.split_corners().contains_key(symbol_id) {
            popped.push(self.split_corners()[symbol_id])
        } else {
            popped
        };
        let vn = vertex_at(m, next_corner(st.last().0));
        vn == vertex_at(m, previous_corner(st2.last().0)) || vn == INVALID_INDEX
    }

    /// For the S symbol `symbol_id` decoded into face `face`: the walk left
    /// around the vertex after the popped active corner, once the new face is
    /// joined, leaves the mesh within as many steps as there are corners.
    pub open spec fn split_walk_ends(&self, face: u32, symbol_id: i32) -> bool {
        let ct = self.table();
        let st = self.stack();
        let popped = st.drop_last();
        let st2 = if self.split_corners().contains_key(symbol_id) {
            popped.push(self.split_corners()[symbol_id])
        } else {
            popped
        };
        let a = st2.last().0;
        let b = st.last().0;
        let c = 3 * face;
        let o = paired(
            paired(ct.opposite_corners@, CornerIndex(a), CornerIndex((c + 2) as u32)),
            CornerIndex(b),
            CornerIndex((c + 1) as u32),
        );
        left_walk_ends(o, next_corner(b), next_corner(b), ct.corner_to_vertex_map@.len())
    }

    /// Decodes an S symbol: the active corner is popped, the corner recorded
    /// for this split symbol (if any) is pushed, and the new face `face`
    /// joins the popped corner's edge and the new active corner's edge,
    /// becoming the active corner. When the joined edges end at two different
    /// vertices, the second vertex is merged into the first: the corners
    /// around it are mapped to the first (walking left), it loses its corner
    /// and is recorded as merged away; the traversal decoder is told.
    ///
    /// Fails when there are not two distinct active corners, when their edges
    /// already have opposites, or when the walk around the merged vertex comes
    /// back to its start or goes on for more steps than there are corners;
    /// succeeds otherwise, in particular whenever no vertex is merged.
    #[verifier::rlimit(80)]
    #[verifier::spinoff_prover]
    fn decode_split<T: EdgebreakerTraversalDecoder>(&mut self, face: u32, symbol_id: i32, traversal_decoder: &mut T) -> (r:
        Result<(), String>)
        requires
            old(self).wf(),
            3 * face + 2 < old(self).num_corners_spec(),
        ensures
            final(self).table().corner_to_vertex_map@.len() == old(self).table().corner_to_vertex_map@.len(),
            old(self).split_decoded(final(self), face, symbol_id, r is Ok),
    {
        let len = self.active_corner_stack.len();
        if len == 0 {
            return Err("active_corner_stack empty in TOPOLOGY_S".to_owned());
        }
        let ghost st = self.stack();
        let corner_b = self.active_corner_stack.pop().unwrap();
        proof {
            assert(st[len - 1].0 < self.num_corners_spec());
            assert(self.stack() =~= st.drop_last());
        }
        match self.topology_split_active_corners.get(&symbol_id) {
            Some(c) => {
                let corner_from_map = *c;
                self.active_corner_stack.push(corner_from_map);
            },
            None => {},
        }
        let len2 = self.active_corner_stack.len();
        if len2 == 0 {
            return Err("active_corner_stack empty in TOPOLOGY_S after split retrieval".to_owned());
        }
        let corner_a = self.active_corner_stack[len2 - 1];
        proof {
            if old(self).split_corners().contains_key(symbol_id) {
                assert(self.stack()[len2 - 1] == old(self).split_corners()[symbol_id]);
            } else {
                assert(self.stack()[len2 - 1] == st[len2 - 1]);
            }
            assert(corner_a.0 < self.num_corners_spec());
            assert(next_corner(corner_a.0) < self.num_corners_spec());
            assert(previous_corner(corner_a.0) < self.num_corners_spec());
            assert(next_corner(corner_b.0) < self.num_corners_spec());
            assert(previous_corner(corner_b.0) < self.num_corners_spec());
        }
        if corner_a == corner_b {
            return Err("corner_a == corner_b in TOPOLOGY_S".to_owned());
        }
        if self.corner_table.opposite(corner_a).0 != INVALID_INDEX || self.corner_table.opposite(corner_b).0
            != INVALID_INDEX {
            return Err("Edge already opposite in TOPOLOGY_S".to_owned());
        }
        let corner = 3 * face;
        self.set_opposite_corners(corner_a, CornerIndex(corner + 2));
        self.set_opposite_corners(corner_b, CornerIndex(corner + 1));
        let vertex_p = self.corner_table.vertex(self.corner_table.previous(corner_a));
        let vertex_a_next = self.corner_table.vertex(self.corner_table.next(corner_a));
        let vert_b_prev = self.corner_table.vertex(self.corner_table.previous(corner_b));
        let mut corner_n = self.corner_table.next(corner_b);
        let vertex_n = self.corner_table.vertex(corner_n);
        self.corner_table.map_corner_to_vertex(corner, vertex_p);
        self.corner_table.map_corner_to_vertex(corner + 1, vertex_a_next);
        self.corner_table.map_corner_to_vertex(corner + 2, vert_b_prev);
        self.corner_table.set_left_most_corner(vert_b_prev, CornerIndex(corner + 2));
        let ghost m3 = self.corner_table.corner_to_vertex_map@;
        let n = self.corner_table.num_corners();
        proof {
            let vc = self.corner_table.vertex_corners@;
            let vc0 = old(self).corner_table.vertex_corners@;
            assert forall|v: int| 0 <= v < vc.len() implies corner_in_range(#[trigger] vc[v].0, n as int) by {
                if v != vert_b_prev.0 {
                    assert(vc[v] == vc0[v]);
                }
            }
        }
        let ghost stack_before_merge = self.active_corner_stack@;
        if vertex_n != vertex_p && vertex_n.0 != INVALID_INDEX {
            assert(!old(self).split_merges_nothing(symbol_id));
            traversal_decoder.merge_vertices(vertex_p, vertex_n);
            let lmc_n = self.corner_table.left_most_corner(vertex_n);
            self.corner_table.set_left_most_corner(vertex_p, lmc_n);
            proof {
                let vc = self.corner_table.vertex_corners@;
                if (vertex_n.0 as int) < vc.len() {
                    assert(corner_in_range(lmc_n.0, n as int));
                }
                assert forall|v: int| 0 <= v < vc.len() implies corner_in_range(#[trigger] vc[v].0, n as int) by {
                    if v != vertex_p.0 {
                    } else {
                        assert(corner_in_range(lmc_n.0, n as int));
                    }
                }
            }
            let first_corner = corner_n;
            let mut steps: usize = 0;
            assert(old(self).split_walk_ends(face, symbol_id) == left_walk_ends(
                self.corner_table.opposite_corners@,
                first_corner.0,
                corner_n.0,
                n as nat,
            ));
            while corner_n.0 != INVALID_INDEX
                invariant
                    n == self.corner_table.corner_to_vertex_map@.len(),
                    n == old(self).corner_table.corner_to_vertex_map@.len(),
                    n % 3 == 0,
                    n + 3 <= i32::MAX,
                    self.corner_table.opposite_corners@.len() == n,
                    self.corner_table.opposites_in_range(),
                    self.corner_table.opposite_corners@ == paired(
                        paired(old(self).corner_table.opposite_corners@, corner_a, CornerIndex((corner + 2) as u32)),
                        corner_b,
                        CornerIndex((corner + 1) as u32),
                    ),
                    self.corner_table.vertex_corners@.len() == old(self).corner_table.vertex_corners@.len(),
                    forall|v: int|
                        0 <= v < self.corner_table.vertex_corners@.len() ==> corner_in_range(
                            #[trigger] self.corner_table.vertex_corners@[v].0,
                            n as int,
                        ),
                    corner_in_range(corner_n.0, n as int),
                    steps <= n,
                    forall|k: int|
                        0 <= k < n ==> #[trigger] self.corner_table.corner_to_vertex_map@[k] == m3[k]
                            || self.corner_table.corner_to_vertex_map@[k] == vertex_p,
                    self.is_vert_hole@ == old(self).is_vert_hole@,
                    self.active_corner_stack@ == stack_before_merge,
                    self.topology_split_active_corners@ == old(self).topology_split_active_corners@,
                    self.invalid_vertices@ == old(self).invalid_vertices@,
                    !old(self).split_merges_nothing(symbol_id),
                    old(self).split_walk_ends(face, symbol_id) == left_walk_ends(
                        self.corner_table.opposite_corners@,
                        first_corner.0,
                        corner_n.0,
                        (n - steps) as nat,
                    ),
                decreases n - steps,
            {
                if steps >= n {
                    return Err("Vertex merge walk did not end".to_owned());
                }
                self.corner_table.map_corner_to_vertex(corner_n.0, vertex_p);
                proof {
                    assert(previous_corner(corner_n.0) < n);
                    let o = self.corner_table.opposite_corners@[previous_corner(corner_n.0) as int].0;
                    assert(corner_in_range(o, n as int));
                    if o != INVALID_INDEX {
                        assert(previous_corner(o) < n);
                    }
                }
                corner_n = self.corner_table.swing_left(corner_n);
                steps = steps + 1;
                if corner_n == first_corner {
                    return Err("Cycle detected in vertex merge".to_owned());
                }
            }
            self.corner_table.make_vertex_isolated(vertex_n);
            self.invalid_vertices.push(vertex_n);
        }
        self.active_corner_stack.set(len2 - 1, CornerIndex(corner));
        traversal_decoder.on_split_symbol_decoded(CornerIndex(corner));
        proof {
            let vc = self.corner_table.vertex_corners@;
            assert forall|v: int| 0 <= v < vc.len() implies corner_in_range(#[trigger] vc[v].0, n as int) by {}
            assert forall|i: int| 0 <= i < self.stack().len() implies (#[trigger] self.stack()[i]).0 < n by {
                if i < len2 - 1 {
                    assert(self.stack()[i] == st[i]);
                }
            }
            assert(self.split_corners() == old(self).split_corners());
        }
        Ok(())
    }
}


impl EdgebreakerConnectivityDecoder {
    /// Decodes one symbol into face `face`: 0 is C, 1 is S, 2 is L, 3 is R
    /// and 4 is E; any other symbol is an error that changes nothing.
    pub fn decode_symbol_step<T: EdgebreakerTraversalDecoder>(
        &mut self,
        face: u32,
        symbol: u32,
        symbol_id: i32,
        traversal_decoder: &mut T,
    ) -> (r: Result<(), String>)
        requires
            old(self).wf(),
            3 * face + 2 < old(self).num_corners_spec(),
        ensures
            final(self).table().corner_to_vertex_map@.len() == old(self).table().corner_to_vertex_map@.len(),
            symbol == 0 ==> old(self).center_decoded(final(self), face, r is Ok),
            symbol == 1 ==> old(self).split_decoded(final(self), face, symbol_id, r is Ok),
            (symbol == 2 || symbol == 3) ==> old(self).right_left_decoded(final(self), face, symbol, r is Ok),
            symbol == 4 ==> old(self).end_decoded(final(self), face, r is Ok),
            symbol > 4 ==> r is Err && *final(self) == *old(self),
            r is Ok ==> final(self).wf(),
    {
        if symbol == 0 {
            self.decode_center(face)
        } else if symbol == 3 || symbol == 2 {
            self.decode_right_left(face, symbol, symbol_id, traversal_decoder)
        } else if symbol == 1 {
            self.decode_split(face, symbol_id, traversal_decoder)
        } else if symbol == 4 {
            self.decode_end(face, symbol_id, traversal_decoder)
        } else {
            Err(unknown_symbol_message(symbol))
        }
    }
}

impl EdgebreakerConnectivityDecoder {
    /// Closing the remaining active corner `a` by the interior start face
    /// `face` takes `self` to `after`, succeeding or not as `ok` says: the
    /// face's other two corners follow from the left-most corners of the
    /// vertices after `a` and after the second corner.
    pub open spec fn start_face_closed(&self, after: &Self, a: u32, face: u32, ok: bool) -> bool {
        let ct = self.table();
        let m = ct.corner_to_vertex_map@;
        let vc = ct.vertex_corners@;
        let h = self.holes();
        let vn = vertex_at(m, next_corner(a));
        let ln = corner_of(vc, vn);
        let b = next_corner(ln);
        let vx = vertex_at(m, next_corner(b));
        let lx = corner_of(vc, vx);
        let c = next_corner(lx);
        let vp = vertex_at(m, next_corner(c));
        let nc = 3 * face;
        &&& ok <==> (ln != INVALID_INDEX && lx != INVALID_INDEX && vx < h.len() && vp < h.len() && vn < h.len())
        &&& ok ==> {
            &&& after.wf()
            &&& after.table().corner_to_vertex_map@ == m.update(nc as int, VertexIndex(vx)).update(
                nc + 1,
                VertexIndex(vp),
            ).update(nc + 2, VertexIndex(vn))
            &&& after.table().opposite_corners@ == paired(
                paired(paired(ct.opposite_corners@, CornerIndex(nc as u32), CornerIndex(a)), CornerIndex((nc + 1) as u32), CornerIndex(b)),
                CornerIndex((nc + 2) as u32),
                CornerIndex(c),
            )
            &&& after.table().vertex_corners@ == vc
            &&& after.holes() == h.update(vx as int, false).update(vp as int, false).update(vn as int, false)
            &&& after.stack() == self.stack()
            &&& after.split_corners() == self.split_corners()
            &&& after.merged_vertices() == self.merged_vertices()
        }
    }

    /// An interior start face closing active corner `a` fills the triangular
    /// hole at `a` oriented as the three faces around it: its corners, in
    /// face order, hold the vertex after the corner `b`, the vertex after `c`
    /// and the vertex after `a`, where `b` and `c` follow the left-most
    /// corners of the vertices after `a` and after `b`; `a`, `b` and `c`
    /// become the opposites of its three corners, and each shared edge is
    /// walked one way in each face. Here `a`, `b` and `c` are three
    /// different corners of faces decoded before, and the left-most corners
    /// met lie on their vertices.
    pub proof fn lemma_start_face_orientation(d: &Self, after: &Self, a: u32, face: u32)
        requires
            d.num_corners_spec() < INVALID_INDEX,
            d.table().opposite_corners@.len() == d.num_corners_spec(),
            3 * face + 2 < d.num_corners_spec(),
            d.start_face_closed(after, a, face, true),
            a < 3 * face,
            ({
                let m = d.table().corner_to_vertex_map@;
                let vc = d.table().vertex_corners@;
                let vn = vertex_at(m, next_corner(a));
                let ln = corner_of(vc, vn);
                let vx = vertex_at(m, next_corner(next_corner(ln)));
                let lx = corner_of(vc, vx);
                &&& next_corner(ln) < 3 * face
                &&& next_corner(lx) < 3 * face
                &&& vertex_at(m, ln) == vn
                &&& vertex_at(m, lx) == vx
                &&& a != next_corner(ln)
                &&& a != next_corner(lx)
                &&& next_corner(ln) != next_corner(lx)
            }),
        ensures
            ({
                let m = d.table().corner_to_vertex_map@;
                let vc = d.table().vertex_corners@;
                let m2 = after.table().corner_to_vertex_map@;
                let o2 = after.table().opposite_corners@;
                let nc = (3 * face) as u32;
                let b = next_corner(corner_of(vc, vertex_at(m, next_corner(a))));
                let c = next_corner(corner_of(vc, vertex_at(m, next_corner(b))));
                &&& opposite_at(o2, a) == nc
                &&& opposite_at(o2, b) == nc + 1
                &&& opposite_at(o2, c) == nc + 2
                &&& opposite_at(o2, nc) == a
                &&& opposite_at(o2, (nc + 1) as u32) == b
                &&& opposite_at(o2, (nc + 2) as u32) == c
                &&& vertex_at(m2, previous_corner(nc)) == vertex_at(m, next_corner(a))
                &&& vertex_at(m2, next_corner(nc)) == vertex_at(m, next_corner(c))
                &&& vertex_at(m2, next_corner((nc + 1) as u32)) == vertex_at(m, previous_corner(b))
                &&& vertex_at(m2, previous_corner((nc + 1) as u32)) == vertex_at(m, next_corner(b))
                &&& vertex_at(m2, next_corner((nc + 2) as u32)) == vertex_at(m, previous_corner(c))
                &&& vertex_at(m2, previous_corner((nc + 2) as u32)) == vertex_at(m, next_corner(c))
            }),
    {
        let nc = (3 * face) as u32;
        let ct = d.table();
        let m = ct.corner_to_vertex_map@;
        let vc = ct.vertex_corners@;
        let vn = vertex_at(m, next_corner(a));
        let ln = corner_of(vc, vn);
        let b = next_corner(ln);
        let vx = vertex_at(m, next_corner(b));
        let lx = corner_of(vc, vx);
        let c = next_corner(lx);
        let vp = vertex_at(m, next_corner(c));
        assert(after.table().corner_to_vertex_map@ == m.update(nc as int, VertexIndex(vx)).update(
            nc + 1,
            VertexIndex(vp),
        ).update(nc + 2, VertexIndex(vn)));
        assert(after.table().opposite_corners@ == paired(
            paired(paired(ct.opposite_corners@, CornerIndex(nc), CornerIndex(a)), CornerIndex((nc + 1) as u32), CornerIndex(b)),
            CornerIndex((nc + 2) as u32),
            CornerIndex(c),
        ));
        assert(ln != INVALID_INDEX && lx != INVALID_INDEX);
        assert(previous_corner(b) == ln && previous_corner(c) == lx);
        assert(next_corner(a) < nc && next_corner(b) < nc && next_corner(c) < nc);
        assert(next_corner(nc) == nc + 1 && previous_corner(nc) == nc + 2);
        assert(next_corner((nc + 1) as u32) == nc + 2 && previous_corner((nc + 1) as u32) == nc);
        assert(next_corner((nc + 2) as u32) == nc && previous_corner((nc + 2) as u32) == nc + 1);
    }

    /// Closes the remaining active corner `corner_a` by the interior start
    /// face `face` (see `start_face_closed`), marking its vertices as no
    /// longer holes.
    ///
    /// Fails when a vertex involved has no left-most corner or lies past the
    /// holes.
    pub fn close_start_face(&mut self, corner_a: CornerIndex, face: u32) -> (r: Result<(), String>)
        requires
            old(self).wf(),
            corner_a.0 < old(self).num_corners_spec(),
            3 * face + 2 < old(self).num_corners_spec(),
        ensures
            final(self).table().corner_to_vertex_map@.len() == old(self).table().corner_to_vertex_map@.len(),
            old(self).start_face_closed(final(self), corner_a.0, face, r is Ok),
    {
        let n = self.corner_table.num_corners();
        proof {
            assert(next_corner(corner_a.0) < n);
        }
        let vert_n = self.corner_table.vertex(self.corner_table.next(corner_a));
        let lmc_n = self.corner_table.left_most_corner(vert_n);
        if lmc_n.0 == INVALID_INDEX {
            return Err(missing_corner_message(vert_n.0));
        }
        proof {
            assert(corner_in_range(self.corner_table.vertex_corners@[vert_n.0 as int].0, n as int));
            assert(next_corner(lmc_n.0) < n);
            assert(next_corner(next_corner(lmc_n.0)) < n);
        }
        let corner_b = self.corner_table.next(lmc_n);
        let vert_x = self.corner_table.vertex(self.corner_table.next(corner_b));
        let lmc_x = self.corner_table.left_most_corner(vert_x);
        if lmc_x.0 == INVALID_INDEX {
            return Err("Invalid left_most_corner for vert_x".to_owned());
        }
        proof {
            assert(corner_in_range(self.corner_table.vertex_corners@[vert_x.0 as int].0, n as int));
            assert(next_corner(lmc_x.0) < n);
            assert(next_corner(next_corner(lmc_x.0)) < n);
        }
        let corner_c = self.corner_table.next(lmc_x);
        let vert_p = self.corner_table.vertex(self.corner_table.next(corner_c));
        let new_corner = 3 * face;
        self.set_opposite_corners(CornerIndex(new_corner), corner_a);
        self.set_opposite_corners(CornerIndex(new_corner + 1), corner_b);
        self.set_opposite_corners(CornerIndex(new_corner + 2), corner_c);
        let ghost before_maps = *self;
        self.corner_table.map_corner_to_vertex(new_corner, vert_x);
        self.corner_table.map_corner_to_vertex(new_corner + 1, vert_p);
        self.corner_table.map_corner_to_vertex(new_corner + 2, vert_n);
        proof {
            Self::lemma_wf_same(&before_maps, self);
        }
        let ghost stack_now = self.stack();
        let ghost holes0 = self.holes();
        let mut i: u32 = 0;
        while i < 3
            invariant
                self.wf(),
                self.stack() == stack_now,
                self.split_corners() == old(self).split_corners(),
                self.merged_vertices() == old(self).merged_vertices(),
                self.table().corner_to_vertex_map@ == old(self).table().corner_to_vertex_map@.update(
                    new_corner as int,
                    vert_x,
                ).update(new_corner + 1, vert_p).update(new_corner + 2, vert_n),
                self.table().opposite_corners@ == before_maps.table().opposite_corners@,
                self.table().vertex_corners@ == old(self).table().vertex_corners@,
                n == self.num_corners_spec(),
                3 * face + 2 < n,
                new_corner == 3 * face,
                i <= 3,
                holes0 == old(self).holes(),
                self.holes().len() == holes0.len(),
                vert_n.0 == vertex_at(old(self).table().corner_to_vertex_map@, next_corner(corner_a.0)),
                lmc_n.0 == corner_of(old(self).table().vertex_corners@, vert_n.0),
                lmc_n.0 != INVALID_INDEX,
                corner_b.0 == next_corner(lmc_n.0),
                vert_x.0 == vertex_at(old(self).table().corner_to_vertex_map@, next_corner(corner_b.0)),
                lmc_x.0 == corner_of(old(self).table().vertex_corners@, vert_x.0),
                lmc_x.0 != INVALID_INDEX,
                corner_c.0 == next_corner(lmc_x.0),
                vert_p.0 == vertex_at(old(self).table().corner_to_vertex_map@, next_corner(corner_c.0)),
                n == old(self).num_corners_spec(),
                i >= 1 ==> vert_x.0 < holes0.len(),
                i >= 2 ==> vert_p.0 < holes0.len(),
                self.holes() == if i == 0 {
                    holes0
                } else if i == 1 {
                    holes0.update(vert_x.0 as int, false)
                } else if i == 2 {
                    holes0.update(vert_x.0 as int, false).update(vert_p.0 as int, false)
                } else {
                    holes0.update(vert_x.0 as int, false).update(vert_p.0 as int, false).update(vert_n.0 as int, false)
                },
                i >= 3 ==> vert_n.0 < holes0.len(),
            decreases 3 - i,
        {
            let v = self.corner_table.vertex(CornerIndex(new_corner + i));
            proof {
                assert(v == if i == 0 {
                    vert_x
                } else if i == 1 {
                    vert_p
                } else {
                    vert_n
                });
            }
            if v.0 as usize >= self.is_vert_hole.len() {
                return Err("Vertex out of range in start face".to_owned());
            }
            let ghost before = *self;
            self.is_vert_hole.set(v.0 as usize, false);
            proof {
                assert(self.stack() == before.stack());
                assert(self.split_corners() == before.split_corners());
                Self::lemma_wf_same(&before, self);
            }
            i = i + 1;
        }
        Ok(())
    }

    /// Recording the topology split event (`split_edge`,
    /// `encoder_split_symbol_id`) of `num_symbols` symbols takes `self` to
    /// `after`, succeeding or not as `ok` says: the corner next to (right
    /// edge) or before (left edge) the active corner becomes the active
    /// corner of the split symbol, numbered in decoding order.
    pub open spec fn split_event_recorded(
        &self,
        after: &Self,
        split_edge: EdgeFaceName,
        encoder_split_symbol_id: i32,
        num_symbols: i32,
        ok: bool,
    ) -> bool {
        let top = self.stack().last().0;
        let corner = match split_edge {
            EdgeFaceName::RightFaceEdge => next_corner(top),
            EdgeFaceName::LeftFaceEdge => previous_corner(top),
        };
        &&& ok <==> encoder_split_symbol_id >= 0
        &&& ok ==> {
            &&& after.wf()
            &&& after.table() == self.table()
            &&& after.holes() == self.holes()
            &&& after.stack() == self.stack()
            &&& after.merged_vertices() == self.merged_vertices()
            &&& after.split_corners() == self.split_corners().insert(
                (num_symbols - encoder_split_symbol_id - 1) as i32,
                CornerIndex(corner),
            )
        }
    }

    /// Records a topology split event of the active corner (see
    /// `split_event_recorded`). Fails on a negative split symbol.
    pub fn record_split_event(&mut self, split_edge: EdgeFaceName, encoder_split_symbol_id: i32, num_symbols: i32) -> (r:
        Result<(), String>)
        requires
            old(self).wf(),
            old(self).stack().len() > 0,
            0 <= num_symbols,
        ensures
            old(self).split_event_recorded(final(self), split_edge, encoder_split_symbol_id, num_symbols, r is Ok),
            r is Err ==> *final(self) == *old(self),
    {
        if encoder_split_symbol_id < 0 {
            return Err("Invalid split symbol id".to_owned());
        }
        let n = self.corner_table.num_corners();
        let len = self.active_corner_stack.len();
        let act_top_corner = self.active_corner_stack[len - 1];
        proof {
            assert(self.stack()[len - 1].0 < n);
            assert(next_corner(act_top_corner.0) < n);
            assert(previous_corner(act_top_corner.0) < n);
        }
        let new_active_corner = match split_edge {
            EdgeFaceName::RightFaceEdge => self.corner_table.next(act_top_corner),
            EdgeFaceName::LeftFaceEdge => self.corner_table.previous(act_top_corner),
        };
        let decoder_split_symbol_id = num_symbols - encoder_split_symbol_id - 1;
        let ghost sc_before = self.split_corners();
        let ghost st_before = self.stack();
        self.topology_split_active_corners.insert(decoder_split_symbol_id, new_active_corner);
        proof {
            assert(self.split_corners() == sc_before.insert(decoder_split_symbol_id, new_active_corner));
            assert forall|k: i32| #[trigger] self.split_corners().contains_key(k) implies self.split_corners()[k].0
                < n by {
                if k != decoder_split_symbol_id {
                    assert(sc_before.contains_key(k));
                }
            }
            assert(self.stack() == st_before);
        }
        Ok(())
    }
}

/// The vertex count `k` lowered past trailing vertices without a corner
/// (vertex 0 is never passed).
pub open spec fn last_with_corner(vc: Seq<CornerIndex>, k: int) -> int
    decreases k,
{
    if k <= 1 || corner_of(vc, (k - 1) as u32) != INVALID_INDEX {
        k
    } else {
        last_with_corner(vc, k - 1)
    }
}

/// Walking right around vertex `src` from corner `c` (the walk started at
/// `start`), moving each corner to vertex `iv`: the map at the end, or none
/// when a corner met is not on `src` or the walk runs past `fuel` steps.
pub open spec fn compaction_walk(
    m: Seq<VertexIndex>,
    o: Seq<CornerIndex>,
    start: u32,
    c: u32,
    src: u32,
    iv: VertexIndex,
    fuel: nat,
) -> Option<Seq<VertexIndex>>
    decreases fuel,
{
    if m[c as int].0 != src {
        None
    } else {
        let m1 = m.update(c as int, iv);
        let nx = next_corner(opposite_at(o, next_corner(c)));
        if nx == INVALID_INDEX || nx == start {
            Some(m1)
        } else if fuel <= 1 {
            None
        } else {
            compaction_walk(m1, o, start, nx, src, iv, (fuel - 1) as nat)
        }
    }
}

impl EdgebreakerConnectivityDecoder {
    /// Compacting away the merged vertex `iv` with `nv` vertices in use takes
    /// `self` to `after` with result `r`: trailing vertices without a corner
    /// are dropped; when the last vertex left is not below `iv` its corners
    /// move to `iv` (walking right from its left-most corner), `iv` takes its
    /// left-most corner and hole flag, and it becomes isolated.
    pub open spec fn vertex_compacted(
        &self,
        after: &Self,
        iv: VertexIndex,
        nv: int,
        r: Result<(i32, Option<VertexIndex>), String>,
    ) -> bool {
        let ct = self.table();
        let m = ct.corner_to_vertex_map@;
        let vc = ct.vertex_corners@;
        let h = self.holes();
        let nv1 = last_with_corner(vc, nv);
        let src = (nv1 - 1) as u32;
        let start = corner_of(vc, src);
        let walk = if start == INVALID_INDEX {
            Some(m)
        } else {
            compaction_walk(m, ct.opposite_corners@, start, start, src, iv, m.len())
        };
        if nv == 0 {
            r is Err
        } else if src < iv.0 {
            r == Ok::<(i32, Option<VertexIndex>), String>((nv1 as i32, None)) && *after == *self
        } else {
            match walk {
                None => r is Err,
                Some(m1) => {
                    &&& r == Ok::<(i32, Option<VertexIndex>), String>(((nv1 - 1) as i32, Some(VertexIndex(src))))
                    &&& after.wf()
                    &&& after.table().corner_to_vertex_map@ == m1
                    &&& after.table().opposite_corners@ == ct.opposite_corners@
                    &&& after.table().vertex_corners@ == with_corner(
                        with_corner(vc, iv.0, CornerIndex(start)),
                        src,
                        CornerIndex(INVALID_INDEX),
                    )
                    &&& after.holes() == if iv.0 < h.len() && src < h.len() {
                        h.update(iv.0 as int, h[src as int]).update(src as int, false)
                    } else {
                        h
                    }
                    &&& after.stack() == self.stack()
                    &&& after.split_corners() == self.split_corners()
                    &&& after.merged_vertices() == self.merged_vertices()
                }
            }
        }
    }

    /// Compacts away the merged vertex `invalid_vert` with `num_vertices`
    /// vertices in use (see `vertex_compacted`); returns the vertex count
    /// left and the vertex moved into `invalid_vert`, if any.
    ///
    /// Fails with no vertex left, when a corner around the moved vertex does
    /// not belong to it, or when the walk around it does not end.
    pub fn compact_vertex(&mut self, invalid_vert: VertexIndex, num_vertices: i32) -> (r: Result<
        (i32, Option<VertexIndex>),
        String,
    >)
        requires
            old(self).wf(),
            0 <= num_vertices <= old(self).table().vertex_corners@.len(),
        ensures
            old(self).vertex_compacted(final(self), invalid_vert, num_vertices as int, r),
            final(self).table().corner_to_vertex_map@.len() == old(self).table().corner_to_vertex_map@.len(),
            r matches Ok((k, _)) ==> 0 <= k <= final(self).table().vertex_corners@.len(),
    {
        let mut num_vertices = num_vertices;
        if num_vertices == 0 {
            return Err("No vertex left to compact".to_owned());
        }
        let ghost nv0 = num_vertices as int;
        let n = self.corner_table.num_corners();
        let mut src_vert = VertexIndex((num_vertices - 1) as u32);
        while src_vert.0 > 0 && self.corner_table.left_most_corner(src_vert).0 == INVALID_INDEX
            invariant
                self.wf(),
                *self == *old(self),
                1 <= num_vertices <= self.corner_table.vertex_corners@.len(),
                src_vert.0 == num_vertices - 1,
                last_with_corner(self.table().vertex_corners@, nv0) == last_with_corner(
                    self.table().vertex_corners@,
                    num_vertices as int,
                ),
            decreases num_vertices,
        {
            num_vertices = num_vertices - 1;
            src_vert = VertexIndex((num_vertices - 1) as u32);
        }
        if src_vert.0 < invalid_vert.0 {
            return Ok((num_vertices, None));
        }
        let start_corner = self.corner_table.left_most_corner(src_vert);
        proof {
            assert(corner_in_range(self.corner_table.vertex_corners@[src_vert.0 as int].0, n as int));
        }
        let ghost m0 = self.corner_table.corner_to_vertex_map@;
        let ghost o0 = self.corner_table.opposite_corners@;
        if start_corner.0 != INVALID_INDEX {
            let mut c = start_corner;
            let mut steps: usize = 0;
            let mut failure: u8 = 0;
            let mut bad_corner: u32 = 0;
            let mut bad_vertex: u32 = 0;
            let ghost w = compaction_walk(m0, o0, start_corner.0, start_corner.0, src_vert.0, invalid_vert, n as nat);
            loop
                invariant_except_break
                    c.0 < n,
                    steps < n,
                    failure == 0,
                    w == compaction_walk(
                        self.table().corner_to_vertex_map@,
                        o0,
                        start_corner.0,
                        c.0,
                        src_vert.0,
                        invalid_vert,
                        (n - steps) as nat,
                    ),
                invariant
                    self.wf(),
                    n == self.num_corners_spec(),
                    n == old(self).num_corners_spec(),
                    self.table().opposite_corners@ == o0,
                    self.table().vertex_corners@ == old(self).table().vertex_corners@,
                    self.holes() == old(self).holes(),
                    self.stack() == old(self).stack(),
                    self.split_corners() == old(self).split_corners(),
                    self.merged_vertices() == old(self).merged_vertices(),
                    1 <= num_vertices <= self.corner_table.vertex_corners@.len(),
                    src_vert.0 == num_vertices - 1,
                    steps <= n,
                ensures
                    failure == 0 ==> w == Some(self.table().corner_to_vertex_map@),
                    failure != 0 ==> w is None,
                decreases n - steps,
            {
                let found = self.corner_table.vertex(c);
                if found != src_vert {
                    bad_corner = c.0;
                    bad_vertex = found.0;
                    failure = 1;
                    break;
                }
                let ghost before = *self;
                self.corner_table.map_corner_to_vertex(c.0, invalid_vert);
                proof {
                    Self::lemma_wf_same(&before, self);
                    assert(next_corner(c.0) < n);
                    let o = self.corner_table.opposite_corners@[next_corner(c.0) as int].0;
                    assert(corner_in_range(o, n as int));
                    if o != INVALID_INDEX {
                        assert(next_corner(o) < n);
                    }
                }
                c = self.corner_table.swing_right(c);
                steps = steps + 1;
                if c.0 == INVALID_INDEX || c == start_corner {
                    break;
                }
                if steps >= n {
                    failure = 2;
                    break;
                }
            }
            if failure == 1 {
                return Err(vertex_mismatch_message(bad_corner, bad_vertex, src_vert.0));
            } else if failure != 0 {
                return Err("Vertex compaction walk did not end".to_owned());
            }
        }
        let lmc_src = self.corner_table.left_most_corner(src_vert);
        proof {
            assert(corner_in_range(lmc_src.0, n as int));
        }
        let ghost vc_before = self.corner_table.vertex_corners@;
        let ghost before_compaction_step = *self;
        self.corner_table.set_left_most_corner(invalid_vert, lmc_src);
        self.corner_table.make_vertex_isolated(src_vert);
        if (invalid_vert.0 as usize) < self.is_vert_hole.len() && (src_vert.0 as usize) < self.is_vert_hole.len() {
            let hole = self.is_vert_hole[src_vert.0 as usize];
            self.is_vert_hole.set(invalid_vert.0 as usize, hole);
            self.is_vert_hole.set(src_vert.0 as usize, false);
        }
        proof {
            let vc = self.corner_table.vertex_corners@;
            assert forall|v: int| 0 <= v < vc.len() implies corner_in_range(#[trigger] vc[v].0, n as int) by {
                if v != invalid_vert.0 && v != src_vert.0 {
                    assert(vc[v] == vc_before[v]);
                }
            }
            Self::lemma_wf_same(&before_compaction_step, self);
        }
        num_vertices = num_vertices - 1;
        Ok((num_vertices, Some(src_vert)))
    }
}

/// The message of an unknown symbol.
#[verifier::external_body]
fn unknown_symbol_message(symbol: u32) -> (r: String) {
    format!("Unknown symbol {}", symbol)
}

/// The message of a vertex without a corner met by a start face.
#[verifier::external_body]
fn missing_corner_message(vertex: u32) -> (r: String) {
    format!("Invalid left_most_corner for vert_n={}", vertex)
}

/// The message of a corner that does not map to the vertex being moved.
#[verifier::external_body]
fn vertex_mismatch_message(corner: u32, found: u32, expected: u32) -> (r: String) {
    format!("Vertex mismatch during compaction: corner {} maps to {} expected {}", corner, found, expected)
}

/// Pairing two corners of the table leaves every corner that had an
/// opposite with one, and gives both corners one.
proof fn lemma_paired_keeps_opposites(o: Seq<CornerIndex>, c1: CornerIndex, c2: CornerIndex)
    requires
        c1.0 < o.len(),
        c2.0 < o.len(),
        c1.0 != INVALID_INDEX,
        c2.0 != INVALID_INDEX,
    ensures
        paired(o, c1, c2).len() == o.len(),
        paired(o, c1, c2)[c1.0 as int].0 != INVALID_INDEX,
        paired(o, c1, c2)[c2.0 as int].0 != INVALID_INDEX,
        forall|k: int| 0 <= k < o.len() && (#[trigger] o[k]).0 != INVALID_INDEX ==> paired(o, c1, c2)[k].0 != INVALID_INDEX,
{
}

impl EdgebreakerConnectivityDecoder {
    /// Decoding `num_symbols` symbols asks the traversal decoder nothing:
    /// there are no symbols, no active corners and no merged vertices.
    pub open spec fn nothing_to_decode(&self, num_symbols: i32) -> bool {
        num_symbols == 0 && self.stack().len() == 0 && self.merged_vertices().len() == 0
    }

    /// Decodes the connectivity of a mesh from `num_symbols` symbols of
    /// `traversal_decoder`, filling the corner table face by face, and
    /// returns the number of vertices.
    ///
    /// After each L, R or E symbol the traversal decoder's topology split
    /// events for it are recorded (at most `num_symbols` of them); after each
    /// symbol it is told the active corner. Then each remaining active corner
    /// is closed by a start face when the traversal decoder says so. Finally
    /// each vertex merged away is replaced by the last vertex that still has
    /// a corner, and the vertex count shrinks accordingly.
    ///
    /// Fails on an unknown symbol, on an error of a symbol's decoding, on a
    /// negative split symbol, on more split events than symbols, on start
    /// faces that do not fit or meet vertices without corners, when the faces
    /// decoded do not fill the table, and when compaction finds a corner that
    /// does not belong to the vertex it moves. With nothing to decode, it
    /// succeeds exactly on an empty table, returning the vertex count and
    /// changing nothing. Walks around a vertex are cut
    /// after as many steps as there are corners, which only opposite corners
    /// that do not pair up could need.
    pub fn decode_connectivity<T: EdgebreakerTraversalDecoder>(
        &mut self,
        num_symbols: i32,
        traversal_decoder: &mut T,
    ) -> (r: Result<i32, String>)
        requires
            old(self).wf(),
            0 <= num_symbols,
            3 * num_symbols <= old(self).num_corners_spec(),
        ensures
            final(self).table().corner_to_vertex_map@.len() == old(self).table().corner_to_vertex_map@.len(),
            r is Ok ==> final(self).wf() && final(self).stack().len() == 0,
            r matches Ok(nv) ==> 0 <= nv <= final(self).table().vertex_corners@.len(),
            r is Ok ==> forall|c: int|
                3 * num_symbols <= c < final(self).num_corners_spec() ==> (
                    #[trigger] final(self).table().opposite_corners@[c]).0 != INVALID_INDEX,
            old(self).nothing_to_decode(num_symbols) ==> {
                &&& *final(self) == *old(self)
                &&& r is Ok <==> old(self).num_corners_spec() == 0
                &&& r matches Ok(nv) ==> nv == old(self).table().vertex_corners@.len()
            },
    {
        let n = self.corner_table.num_corners();
        let mut num_faces: usize = 0;
        let mut symbol_id: i32 = 0;
        while symbol_id < num_symbols
            invariant
                self.wf(),
                n == self.num_corners_spec(),
                n == old(self).corner_table.corner_to_vertex_map@.len(),
                0 <= symbol_id <= num_symbols,
                num_faces == symbol_id,
                3 * num_symbols <= n,
                symbol_id == 0 ==> *self == *old(self),
            decreases num_symbols - symbol_id,
        {
            let face = num_faces as u32;
            num_faces = num_faces + 1;
            let symbol = traversal_decoder.decode_symbol();
            self.decode_symbol_step(face, symbol, symbol_id, traversal_decoder)?;
            let check_topology_split = symbol == 2 || symbol == 3 || symbol == 4;
            if check_topology_split {
                let encoder_symbol_id = num_symbols - symbol_id - 1;
                let mut events: i32 = 0;
                loop
                    invariant
                        self.wf(),
                        n == self.num_corners_spec(),
                        n == old(self).corner_table.corner_to_vertex_map@.len(),
                n == old(self).corner_table.corner_to_vertex_map@.len(),
                        self.stack().len() > 0,
                        0 <= events <= num_symbols,
                        0 <= symbol_id < num_symbols,
                        num_faces == symbol_id + 1,
                        3 * num_symbols <= n,
                    decreases num_symbols - events,
                {
                    match traversal_decoder.is_topology_split(encoder_symbol_id) {
                        None => {
                            break;
                        },
                        Some((split_edge, encoder_split_symbol_id)) => {
                            if encoder_split_symbol_id >= 0 && events >= num_symbols {
                                return Err("More topology split events than symbols".to_owned());
                            }
                            self.record_split_event(split_edge, encoder_split_symbol_id, num_symbols)?;
                            events = events + 1;
                        },
                    }
                }
            }
            let len = self.active_corner_stack.len();
            if len > 0 {
                traversal_decoder.new_active_corner_reached(self.active_corner_stack[len - 1], &self.corner_table);
            } else {
                return Err("active_corner_stack empty after decoding symbol".to_owned());
            }
            symbol_id = symbol_id + 1;
        }
        if self.corner_table.num_vertices() > self.is_vert_hole.len() {
            return Err("Unexpected number of vertices after first pass".to_owned());
        }
        while self.active_corner_stack.len() > 0
            invariant
                self.wf(),
                n == self.num_corners_spec(),
                n == old(self).corner_table.corner_to_vertex_map@.len(),
                num_faces <= n / 3,
                0 <= num_symbols <= num_faces,
                3 * num_symbols <= n,
                forall|c: int|
                    3 * num_symbols <= c < 3 * num_faces ==> (#[trigger] self.table().opposite_corners@[c]).0
                        != INVALID_INDEX,
                old(self).nothing_to_decode(num_symbols) ==> *self == *old(self) && num_faces == 0,
            decreases self.stack().len(),
        {
            let ghost st_before = self.stack();
            let ghost before_pop = *self;
            let corner = self.active_corner_stack.pop().unwrap();
            proof {
                assert(corner == st_before[st_before.len() - 1]);
                assert(corner.0 < n);
                assert forall|i: int| 0 <= i < self.stack().len() implies (#[trigger] self.stack()[i]).0 < n by {
                    assert(self.stack()[i] == st_before[i]);
                }
                Self::lemma_wf_same(&before_pop, self);
            }
            let interior_face = traversal_decoder.decode_start_face_configuration();
            if interior_face {
                if num_faces >= self.corner_table.num_faces() {
                    return Err("More faces than expected in start face config".to_owned());
                }
                let face = num_faces as u32;
                num_faces = num_faces + 1;
                let new_corner = 3 * face;
                let ghost before_close = *self;
                self.close_start_face(corner, face)?;
                proof {
                    let ct = before_close.table();
                    let o = ct.opposite_corners@;
                    let m = ct.corner_to_vertex_map@;
                    let vc = ct.vertex_corners@;
                    let ln = corner_of(vc, vertex_at(m, next_corner(corner.0)));
                    let b = next_corner(ln);
                    let lx = corner_of(vc, vertex_at(m, next_corner(b)));
                    let c = next_corner(lx);
                    assert(corner_in_range(ln, n as int) && corner_in_range(lx, n as int));
                    assert(b < n && c < n);
                    assert(o.len() == n);
                    let o1 = paired(o, CornerIndex(new_corner), corner);
                    let o2 = paired(o1, CornerIndex((new_corner + 1) as u32), CornerIndex(b));
                    lemma_paired_keeps_opposites(o, CornerIndex(new_corner), corner);
                    lemma_paired_keeps_opposites(o1, CornerIndex((new_corner + 1) as u32), CornerIndex(b));
                    lemma_paired_keeps_opposites(o2, CornerIndex((new_corner + 2) as u32), CornerIndex(c));
                    let o3 = paired(o2, CornerIndex((new_corner + 2) as u32), CornerIndex(c));
                    assert(self.table().opposite_corners@ == o3);
                    assert forall|k: int|
                        3 * num_symbols <= k < 3 * num_faces implies (#[trigger] self.table().opposite_corners@[k]).0
                        != INVALID_INDEX by {
                        if k < new_corner {
                            assert(before_close.table() == before_pop.table());
                            assert((before_pop.table().opposite_corners@[k]).0 != INVALID_INDEX);
                            assert(o[k].0 != INVALID_INDEX);
                            assert(o1[k].0 != INVALID_INDEX);
                            assert(o2[k].0 != INVALID_INDEX);
                        } else if k == new_corner {
                            assert(o2[k].0 != INVALID_INDEX);
                        } else if k == new_corner + 1 {
                            assert(o2[k].0 != INVALID_INDEX);
                        }
                    }
                }
                traversal_decoder.on_start_face_decoded(CornerIndex(new_corner));
            } else {
                traversal_decoder.on_start_face_decoded(corner);
                proof {
                    assert(self.table() == before_pop.table());
                }
            }
        }
        if num_faces != self.corner_table.num_faces() {
            return Err("Unexpected number of faces at end".to_owned());
        }
        let mut num_vertices: i32 = self.corner_table.num_vertices() as i32;
        let num_invalid = self.invalid_vertices.len();
        let mut i: usize = 0;
        while i < num_invalid
            invariant
                self.wf(),
                n == self.num_corners_spec(),
                n == old(self).corner_table.corner_to_vertex_map@.len(),
                self.stack().len() == 0,
                num_invalid == self.merged_vertices().len(),
                i <= num_invalid,
                0 <= num_vertices <= self.corner_table.vertex_corners@.len(),
                old(self).nothing_to_decode(num_symbols) ==> *self == *old(self) && num_vertices
                    == self.corner_table.vertex_corners@.len(),
                0 <= num_symbols,
                forall|c: int|
                    3 * num_symbols <= c < n ==> (#[trigger] self.table().opposite_corners@[c]).0 != INVALID_INDEX,
            decreases num_invalid - i,
        {
            let invalid_vert = self.invalid_vertices[i];
            i = i + 1;
            let (nv, moved) = self.compact_vertex(invalid_vert, num_vertices)?;
            num_vertices = nv;
            if let Some(src_vert) = moved {
                traversal_decoder.on_vertices_swapped(invalid_vert, src_vert);
            }
        }
        Ok(num_vertices)
    }
}

} // verus!
