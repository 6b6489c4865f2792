use draco_core::corner_table::CornerTable;
use draco_core::edgebreaker_connectivity_decoder::{EdgebreakerConnectivityDecoder, EdgebreakerTraversalDecoder};
use draco_core::geometry_indices::{CornerIndex, VertexIndex};
use draco_core::mesh_edgebreaker_shared::EdgeFaceName;

struct Script {
    symbols: Vec<u32>,
    next: usize,
    interior_start_faces: Vec<bool>,
    created: Vec<(u32, i32, i32)>,
    start_corners: Vec<u32>,
    active: Vec<u32>,
}

impl Script {
    fn new(symbols: Vec<u32>, interior_start_faces: Vec<bool>) -> Self {
        Script { symbols, next: 0, interior_start_faces, created: Vec::new(), start_corners: Vec::new(), active: Vec::new() }
    }
}

impl EdgebreakerTraversalDecoder for Script {
    fn decode_symbol(&mut self) -> u32 {
        let s = self.symbols[self.next];
        self.next += 1;
        s
    }
    fn decode_start_face_configuration(&mut self) -> bool {
        if self.interior_start_faces.is_empty() {
            false
        } else {
            self.interior_start_faces.remove(0)
        }
    }
    fn merge_vertices(&mut self, _p: VertexIndex, _n: VertexIndex) {}
    fn is_topology_split(&mut self, _encoder_symbol_id: i32) -> Option<(EdgeFaceName, i32)> {
        None
    }
    fn on_vertex_created(&mut self, vertex: VertexIndex, symbol_id: i32, corner_index: i32) {
        self.created.push((vertex.0, symbol_id, corner_index));
    }
    fn on_vertices_swapped(&mut self, _v1: VertexIndex, _v2: VertexIndex) {}
    fn on_start_face_decoded(&mut self, corner: CornerIndex) {
        self.start_corners.push(corner.0);
    }
    fn new_active_corner_reached(&mut self, corner: CornerIndex, _corner_table: &CornerTable) {
        self.active.push(corner.0);
    }
}

#[test]
fn single_triangle() {
    let mut d = EdgebreakerConnectivityDecoder::new(1, 3);
    let mut t = Script::new(vec![4], vec![]);
    assert_eq!(d.decode_connectivity(1, &mut t), Ok(3));
    assert_eq!(t.created, vec![(0, 0, 0), (1, 0, 1), (2, 0, 2)]);
    assert_eq!(t.start_corners, vec![0]);
    assert_eq!(t.active, vec![0]);
    for c in 0..3u32 {
        assert_eq!(d.corner_table.vertex(CornerIndex(c)), VertexIndex(c));
    }
}

#[test]
fn two_triangles_through_a_right_symbol() {
    let mut d = EdgebreakerConnectivityDecoder::new(2, 4);
    let mut t = Script::new(vec![4, 3], vec![false]);
    assert_eq!(d.decode_connectivity(2, &mut t), Ok(4));
    let ct = &d.corner_table;
    let verts: Vec<u32> = (0..6).map(|c| ct.vertex(CornerIndex(c)).0).collect();
    assert_eq!(verts, vec![0, 1, 2, 2, 1, 3]);
    assert_eq!(ct.opposite(CornerIndex(0)), CornerIndex(5));
    assert_eq!(ct.opposite(CornerIndex(5)), CornerIndex(0));
    assert_eq!(t.created[3], (3, 1, 5));
    assert_eq!(t.active, vec![0, 3]);
    assert_eq!(t.start_corners, vec![3]);
    assert_eq!(d.is_vert_hole, vec![true; 4]);
}

#[test]
fn decoding_errors() {
    let mut d = EdgebreakerConnectivityDecoder::new(1, 3);
    let mut t = Script::new(vec![7], vec![]);
    assert_eq!(d.decode_connectivity(1, &mut t), Err(String::from("Unknown symbol 7")));

    let mut d = EdgebreakerConnectivityDecoder::new(1, 3);
    let mut t = Script::new(vec![0], vec![]);
    assert_eq!(d.decode_connectivity(1, &mut t), Err(String::from("active_corner_stack empty in TOPOLOGY_C")));

    let mut d = EdgebreakerConnectivityDecoder::new(1, 2);
    let mut t = Script::new(vec![4], vec![]);
    assert_eq!(d.decode_connectivity(1, &mut t), Err(String::from("Unexpected number of vertices in TOPOLOGY_E")));

    let mut d = EdgebreakerConnectivityDecoder::new(2, 6);
    let mut t = Script::new(vec![4], vec![]);
    assert_eq!(d.decode_connectivity(1, &mut t), Err(String::from("Unexpected number of faces at end")));
}

#[test]
fn nothing_to_decode() {
    let mut d = EdgebreakerConnectivityDecoder::new(0, 5);
    let mut t = Script::new(vec![], vec![]);
    assert_eq!(d.decode_connectivity(0, &mut t), Ok(0));
    assert!(t.created.is_empty());
    assert!(t.start_corners.is_empty());
    assert_eq!(d.is_vert_hole, vec![true; 5]);

    let mut d = EdgebreakerConnectivityDecoder::new(1, 3);
    let mut t = Script::new(vec![], vec![]);
    assert_eq!(d.decode_connectivity(0, &mut t), Err(String::from("Unexpected number of faces at end")));
    assert!(t.start_corners.is_empty());
}

#[test]
fn symbol_steps() {
    let mut d = EdgebreakerConnectivityDecoder::new(2, 4);
    let mut t = Script::new(vec![], vec![]);
    assert_eq!(d.decode_symbol_step(0, 9, 0, &mut t), Err(String::from("Unknown symbol 9")));
    assert_eq!(d.decode_symbol_step(0, 4, 0, &mut t), Ok(()));
    assert_eq!(d.decode_symbol_step(1, 2, 1, &mut t), Ok(()));
    let ct = &d.corner_table;
    let verts: Vec<u32> = (0..6).map(|c| ct.vertex(CornerIndex(c)).0).collect();
    // L: the new vertex sits at the face's second corner, opposite the active corner.
    assert_eq!(verts, vec![0, 1, 2, 1, 3, 2]);
    assert_eq!(ct.opposite(CornerIndex(4)), CornerIndex(0));
}

#[test]
fn start_face_closes_the_remaining_corner() {
    let mut d = EdgebreakerConnectivityDecoder::new(2, 3);
    let mut t = Script::new(vec![], vec![]);
    assert_eq!(d.decode_symbol_step(0, 4, 0, &mut t), Ok(()));
    assert_eq!(d.close_start_face(CornerIndex(0), 1), Ok(()));
    let ct = &d.corner_table;
    let verts: Vec<u32> = (3..6).map(|c| ct.vertex(CornerIndex(c)).0).collect();
    assert_eq!(verts, vec![0, 2, 1]);
    assert_eq!(ct.opposite(CornerIndex(3)), CornerIndex(0));
    assert_eq!(ct.opposite(CornerIndex(4)), CornerIndex(2));
    assert_eq!(ct.opposite(CornerIndex(5)), CornerIndex(1));
    assert_eq!(d.is_vert_hole, vec![false; 3]);
}

#[test]
fn start_face_needs_left_most_corners() {
    let mut e = EdgebreakerConnectivityDecoder::new(2, 0);
    assert_eq!(e.close_start_face(CornerIndex(0), 1), Err(format!("Invalid left_most_corner for vert_n={}", u32::MAX)));
}

#[test]
fn split_events_need_a_valid_symbol_id() {
    let mut d = EdgebreakerConnectivityDecoder::new(2, 4);
    let mut t = Script::new(vec![], vec![]);
    assert_eq!(d.decode_symbol_step(0, 4, 0, &mut t), Ok(()));
    assert_eq!(d.record_split_event(EdgeFaceName::RightFaceEdge, 0, 2), Ok(()));
    assert_eq!(d.record_split_event(EdgeFaceName::LeftFaceEdge, -1, 2), Err(String::from("Invalid split symbol id")));
}

#[test]
fn compaction_moves_the_last_vertex() {
    let mut d = EdgebreakerConnectivityDecoder::new(1, 3);
    let mut t = Script::new(vec![], vec![]);
    assert_eq!(d.decode_symbol_step(0, 4, 0, &mut t), Ok(()));
    assert_eq!(d.compact_vertex(VertexIndex(5), 3), Ok((3, None)));
    assert_eq!(d.compact_vertex(VertexIndex(0), 3), Ok((2, Some(VertexIndex(2)))));
    assert_eq!(d.corner_table.vertex(CornerIndex(2)), VertexIndex(0));
    assert_eq!(d.corner_table.left_most_corner(VertexIndex(0)), CornerIndex(2));
    assert_eq!(d.corner_table.left_most_corner(VertexIndex(2)).0, u32::MAX);
    assert_eq!(d.compact_vertex(VertexIndex(0), 0), Err(String::from("No vertex left to compact")));
}
