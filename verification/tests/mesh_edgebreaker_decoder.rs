use draco_core::decoder_buffer::DecoderBuffer;
use draco_core::error::ErrorCode;
use draco_core::geometry_indices::{FaceIndex, PointIndex};
use draco_core::mesh::Mesh;
use draco_core::mesh_edgebreaker_decoder::MeshEdgebreakerDecoder;

#[test]
fn topology_patterns_map_to_symbol_ids() {
    assert_eq!(MeshEdgebreakerDecoder::topology_bit_pattern_to_symbol_id(0).unwrap(), 0);
    assert_eq!(MeshEdgebreakerDecoder::topology_bit_pattern_to_symbol_id(1).unwrap(), 1);
    assert_eq!(MeshEdgebreakerDecoder::topology_bit_pattern_to_symbol_id(3).unwrap(), 2);
    assert_eq!(MeshEdgebreakerDecoder::topology_bit_pattern_to_symbol_id(5).unwrap(), 3);
    assert_eq!(MeshEdgebreakerDecoder::topology_bit_pattern_to_symbol_id(7).unwrap(), 4);
    let e = MeshEdgebreakerDecoder::topology_bit_pattern_to_symbol_id(2).unwrap_err();
    assert_eq!(e.code(), ErrorCode::DracoError);
    assert_eq!(e.message(), "Invalid Edgebreaker topology bit pattern: 2");
}

#[test]
fn symbol_stream_reads_prefix_coded_symbols() {
    // C (0), E (1 then 1,1), S (1 then 0,0): bits 0111100 least significant
    // first, in a one-byte section announced by a varint size.
    let data = [1, 0x1E, 0xAA];
    let mut buf = DecoderBuffer::new(&data);
    let symbols = MeshEdgebreakerDecoder::decode_symbol_stream(&mut buf, 3).unwrap();
    assert_eq!(symbols, vec![0, 4, 1]);
    assert_eq!(buf.position(), 2);
    assert_eq!(buf.decode_u8(), Ok(0xAA));
}

#[test]
fn symbol_stream_left_and_right() {
    // L (1 then 1,0) and R (1 then 0,1): bits 110 101.
    let data = [1, 0b0010_1011];
    let mut buf = DecoderBuffer::new(&data);
    let symbols = MeshEdgebreakerDecoder::decode_symbol_stream(&mut buf, 2).unwrap();
    assert_eq!(symbols, vec![2, 3]);
}

#[test]
fn symbol_stream_fails_when_bits_run_out() {
    let data = [1, 0xFF, 0xFF];
    let mut buf = DecoderBuffer::new(&data);
    let e = MeshEdgebreakerDecoder::decode_symbol_stream(&mut buf, 3).unwrap_err();
    assert_eq!(e.code(), ErrorCode::DracoError);
}

#[test]
fn symbol_stream_of_no_symbols_reads_nothing() {
    let data = [5];
    let mut buf = DecoderBuffer::new(&data);
    assert!(MeshEdgebreakerDecoder::decode_symbol_stream(&mut buf, 0).unwrap().is_empty());
    assert_eq!(buf.position(), 0);
}

#[test]
fn symbol_stream_needs_a_size() {
    let data: [u8; 0] = [];
    let mut buf = DecoderBuffer::new(&data);
    let e = MeshEdgebreakerDecoder::decode_symbol_stream(&mut buf, 1).unwrap_err();
    assert_eq!(e.message(), "Failed to start traversal symbol bit decoding");
}

#[test]
fn symbol_stream_with_legacy_size_field() {
    // Before version 2.2 the section size is a 64-bit little-endian value.
    let data = [1, 0, 0, 0, 0, 0, 0, 0, 0b0000_0010];
    let mut buf = DecoderBuffer::new(&data);
    buf.set_version(2, 1);
    let symbols = MeshEdgebreakerDecoder::decode_symbol_stream(&mut buf, 2).unwrap();
    assert_eq!(symbols, vec![0, 1]);
    assert_eq!(buf.position(), 9);
}

#[test]
fn new_decoder_keeps_nothing() {
    let mut d = MeshEdgebreakerDecoder::new();
    assert!(d.take_data_to_corner_map().is_none());
    assert!(d.take_attribute_seam_corners().is_empty());
    assert!(d.get_attribute_seam_corners(0).is_none());
    let mut d = MeshEdgebreakerDecoder::default();
    assert!(d.take_data_to_corner_map().is_none());
}

use draco_core::mesh_edgebreaker_shared::{EdgeFaceName, TopologySplitEventData};

fn event(split: u32, source: u32, edge: EdgeFaceName) -> TopologySplitEventData {
    TopologySplitEventData { split_symbol_id: split, source_symbol_id: source, source_edge: edge }
}

#[test]
fn inline_split_events_are_delta_coded() {
    // Two events: source ids 5 and 8 (deltas 5, 3), split ids 4 and 0
    // (deltas 1, 8); edge bits 1 then 0.
    let data = [2, 5, 1, 3, 8, 0b01, 0xAA];
    let mut buf = DecoderBuffer::new(&data);
    let events = MeshEdgebreakerDecoder::decode_topology_split_events_inline(&mut buf, 0x0202).unwrap();
    assert_eq!(
        events,
        vec![event(4, 5, EdgeFaceName::RightFaceEdge), event(0, 8, EdgeFaceName::LeftFaceEdge)]
    );
    assert_eq!(buf.position(), 6);
}

#[test]
fn inline_split_events_only_from_version_2_2() {
    let data = [2, 5, 1];
    let mut buf = DecoderBuffer::new(&data);
    let events = MeshEdgebreakerDecoder::decode_topology_split_events_inline(&mut buf, 0x0201).unwrap();
    assert!(events.is_empty());
    assert_eq!(buf.position(), 0);
}

#[test]
fn inline_split_events_need_their_edge_bits() {
    let data = [1, 5, 1];
    let mut buf = DecoderBuffer::new(&data);
    assert!(MeshEdgebreakerDecoder::decode_topology_split_events_inline(&mut buf, 0x0202).is_err());
    let data = [0];
    let mut buf = DecoderBuffer::new(&data);
    assert!(MeshEdgebreakerDecoder::decode_topology_split_events_inline(&mut buf, 0x0202).unwrap().is_empty());
    assert_eq!(buf.position(), 1);
}

#[test]
fn split_events_of_version_2_1_have_two_edge_bits() {
    let data = [1, 7, 2, 0b10, 0xAA];
    let mut buf = DecoderBuffer::new(&data);
    let (events, pos) = MeshEdgebreakerDecoder::decode_hole_and_topology_split_events(&mut buf, 0x0201).unwrap();
    assert_eq!(events, vec![event(5, 7, EdgeFaceName::LeftFaceEdge)]);
    assert_eq!(pos, 4);
    assert_eq!(buf.position(), 4);
}

#[test]
fn split_events_of_version_2_0_are_followed_by_a_hole_count() {
    let data = [1, 7, 2, 0b01, 0, 0xAA];
    let mut buf = DecoderBuffer::new(&data);
    let (events, pos) = MeshEdgebreakerDecoder::decode_hole_and_topology_split_events(&mut buf, 0x0200).unwrap();
    assert_eq!(events, vec![event(5, 7, EdgeFaceName::RightFaceEdge)]);
    assert_eq!(pos, 5);
}

#[test]
fn hole_events_are_not_supported() {
    let data = [0, 1, 3];
    let mut buf = DecoderBuffer::new(&data);
    let e = MeshEdgebreakerDecoder::decode_hole_and_topology_split_events(&mut buf, 0x0200).unwrap_err();
    assert_eq!(e.message(), "Unsupported Edgebreaker hole events in legacy bitstream");
}

#[test]
fn split_deltas_may_not_exceed_their_source() {
    let data = [1, 1, 2, 0];
    let mut buf = DecoderBuffer::new(&data);
    let e = MeshEdgebreakerDecoder::decode_hole_and_topology_split_events(&mut buf, 0x0201).unwrap_err();
    assert_eq!(e.message(), "Invalid split symbol delta");
}

#[test]
fn legacy_split_events_hold_absolute_ids() {
    let data = [1, 0, 0, 0, 3, 0, 0, 0, 9, 0, 0, 0, 1, 0, 0, 0, 0];
    let mut buf = DecoderBuffer::new(&data);
    let (events, pos) = MeshEdgebreakerDecoder::decode_hole_and_topology_split_events(&mut buf, 0x0101).unwrap();
    assert_eq!(events, vec![event(3, 9, EdgeFaceName::RightFaceEdge)]);
    assert_eq!(pos, 17);
}

#[test]
fn legacy_split_events_cut_short() {
    let data = [1, 0, 0, 0, 3, 0, 0];
    let mut buf = DecoderBuffer::new(&data);
    let e = MeshEdgebreakerDecoder::decode_hole_and_topology_split_events(&mut buf, 0x0101).unwrap_err();
    assert_eq!(e.message(), "Failed to read split_symbol_id");
    let data = [1, 0, 0, 0, 3, 0, 0, 0, 9, 0];
    let mut buf = DecoderBuffer::new(&data);
    let e = MeshEdgebreakerDecoder::decode_hole_and_topology_split_events(&mut buf, 0x0101).unwrap_err();
    assert_eq!(e.message(), "Failed to read source_symbol_id");
}

fn points(v: [u32; 3]) -> [PointIndex; 3] {
    [PointIndex(v[0]), PointIndex(v[1]), PointIndex(v[2])]
}

#[test]
fn reconstructs_two_triangles_from_an_end_and_a_right_symbol() {
    let mut decoder = MeshEdgebreakerDecoder::new();
    let mut mesh = Mesh::new();
    mesh.set_num_faces(2);
    let r = decoder.reconstruct_mesh(&[4, 3], &[], &mut mesh, 2, 4, &[false], &[]);
    assert_eq!(r.unwrap(), 1);
    assert_eq!(mesh.face(FaceIndex(0)), points([0, 1, 2]));
    assert_eq!(mesh.face(FaceIndex(1)), points([2, 1, 3]));
    assert_eq!(mesh.point_cloud().num_points(), 4);
    assert_eq!(decoder.take_data_to_corner_map(), Some(vec![0, 1, 2, 5]));
}

#[test]
fn reconstruction_without_symbols_does_nothing() {
    let mut decoder = MeshEdgebreakerDecoder::new();
    let mut mesh = Mesh::new();
    assert_eq!(decoder.reconstruct_mesh(&[], &[], &mut mesh, 3, 9, &[], &[]).unwrap(), 0);
    assert_eq!(mesh.num_faces(), 0);
    assert_eq!(decoder.take_data_to_corner_map(), None);
}

#[test]
fn reconstruction_errors() {
    let mut decoder = MeshEdgebreakerDecoder::new();
    let mut mesh = Mesh::new();
    let e = decoder.reconstruct_mesh(&[0], &[], &mut mesh, 1, 3, &[], &[]).unwrap_err();
    assert_eq!(e.message(), "Empty active corner stack on C");
    let e = decoder.reconstruct_mesh(&[4], &[], &mut mesh, 1, 2, &[], &[]).unwrap_err();
    assert_eq!(e.message(), "Unexpected number of decoded vertices");
    let e = decoder.reconstruct_mesh(&[4], &[], &mut mesh, 2, 3, &[false], &[]).unwrap_err();
    assert_eq!(e.message(), "Unexpected number of decoded faces");
}

#[test]
fn reconstruction_reads_seams_of_each_attribute() {
    let mut decoder = MeshEdgebreakerDecoder::new();
    let mut mesh = Mesh::new();
    let seams = vec![vec![true], vec![false]];
    decoder.reconstruct_mesh(&[4, 3], &[], &mut mesh, 2, 4, &[false], &seams).unwrap();
    let corners = decoder.take_attribute_seam_corners();
    // Corners 0 and 5 face each other; the others are boundary edges.
    assert_eq!(corners[0], vec![0, 5, 1, 2, 3, 4]);
    assert_eq!(corners[1], vec![1, 2, 3, 4]);
}

#[test]
fn decodes_the_connectivity_of_a_triangle() {
    let data = [0u8, 3, 1, 0, 1, 0, 0, 1, 7];
    let mut buffer = DecoderBuffer::new(&data);
    let mut decoder = MeshEdgebreakerDecoder::new();
    let mut mesh = Mesh::new();
    decoder.decode_connectivity(&mut buffer, &mut mesh, &[false], &[]).unwrap();
    assert_eq!(mesh.num_faces(), 1);
    assert_eq!(mesh.face(FaceIndex(0)), points([0, 1, 2]));
    assert_eq!(mesh.point_cloud().num_points(), 3);
    assert_eq!(decoder.take_data_to_corner_map(), Some(vec![0, 1, 2]));
    assert_eq!(buffer.position(), 9);

    let data = [1u8];
    let mut buffer = DecoderBuffer::new(&data);
    let e = decoder.decode_connectivity(&mut buffer, &mut mesh, &[], &[]).unwrap_err();
    assert_eq!(e.message(), "Unsupported Edgebreaker traversal decoder type: 1");
}
