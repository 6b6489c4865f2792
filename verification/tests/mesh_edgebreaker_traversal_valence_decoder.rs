use draco_core::corner_table::CornerTable;
use draco_core::edgebreaker_connectivity_decoder::{EdgebreakerConnectivityDecoder, EdgebreakerTraversalDecoder};
use draco_core::geometry_indices::{CornerIndex, VertexIndex};
use draco_core::mesh_edgebreaker_shared::{EdgeFaceName, TopologySplitEventData};
use draco_core::mesh_edgebreaker_traversal_valence_decoder::{MeshEdgebreakerTraversalValenceDecoder, INVALID_SYMBOL};

#[test]
fn first_symbol_is_end_then_contexts_are_read_from_the_back() {
    let mut d = MeshEdgebreakerTraversalValenceDecoder::new(Vec::new(), None);
    let mut contexts = vec![Vec::new(); 6];
    contexts[0] = vec![2, 0];
    contexts[1] = vec![9];
    d.init_contexts(3, contexts);
    assert_eq!(d.decode_symbol(), 4);

    // A single triangle: each vertex gets valence 2, the context is 0.
    let mut t = CornerTable::default();
    assert!(t.init(&[[VertexIndex(0), VertexIndex(1), VertexIndex(2)]]));
    d.new_active_corner_reached(CornerIndex(0), &t);
    assert_eq!(d.decode_symbol(), 0);
    assert_eq!(d.decode_symbol(), 2);
    assert_eq!(d.decode_symbol(), INVALID_SYMBOL);
}

#[test]
fn valences_and_merges() {
    let mut d = MeshEdgebreakerTraversalValenceDecoder::new(Vec::new(), None);
    d.on_vertex_created(VertexIndex(2), 0, 0);
    d.merge_vertices(VertexIndex(0), VertexIndex(5));
    let mut t = CornerTable::default();
    assert!(t.init(&[[VertexIndex(0), VertexIndex(1), VertexIndex(2)]]));
    // Before any symbol the last symbol is none: no valence changes, and the
    // context is that of valence 0.
    d.new_active_corner_reached(CornerIndex(0), &t);
    assert_eq!(d.decode_symbol(), INVALID_SYMBOL);
}

#[test]
fn topology_splits_are_handed_out_from_the_back() {
    let events = vec![
        TopologySplitEventData { split_symbol_id: 1, source_symbol_id: 7, source_edge: EdgeFaceName::RightFaceEdge },
        TopologySplitEventData { split_symbol_id: 0, source_symbol_id: 3, source_edge: EdgeFaceName::RightFaceEdge },
    ];
    let mut d = MeshEdgebreakerTraversalValenceDecoder::new(events, None);
    assert_eq!(d.is_topology_split(4), None);
    assert_eq!(d.is_topology_split(2), Some((EdgeFaceName::LeftFaceEdge, -1)));
    assert_eq!(d.is_topology_split(3), Some((EdgeFaceName::RightFaceEdge, 0)));
    assert_eq!(d.is_topology_split(5), Some((EdgeFaceName::LeftFaceEdge, -1)));
    assert_eq!(d.is_topology_split(7), Some((EdgeFaceName::RightFaceEdge, 1)));
    assert_eq!(d.is_topology_split(7), None);
}

#[test]
fn start_face_bits() {
    let mut d = MeshEdgebreakerTraversalValenceDecoder::new(Vec::new(), Some(vec![false, true]));
    assert!(!d.decode_start_face_configuration());
    assert!(d.decode_start_face_configuration());
    assert!(d.decode_start_face_configuration());
    let mut d = MeshEdgebreakerTraversalValenceDecoder::new(Vec::new(), None);
    assert!(d.decode_start_face_configuration());
}

#[test]
fn decodes_a_triangle_with_the_connectivity_decoder() {
    let mut t = MeshEdgebreakerTraversalValenceDecoder::new(Vec::new(), Some(vec![false]));
    t.init_contexts(3, vec![Vec::new(); 6]);
    let mut d = EdgebreakerConnectivityDecoder::new(1, 3);
    assert_eq!(d.decode_connectivity(1, &mut t), Ok(3));
    for c in 0..3u32 {
        assert_eq!(d.corner_table.vertex(CornerIndex(c)), VertexIndex(c));
    }
}
