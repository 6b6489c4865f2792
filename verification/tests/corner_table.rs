use draco_core::corner_table::CornerTable;
use draco_core::geometry_indices::{CornerIndex, FaceIndex, PointIndex, VertexIndex, INVALID_INDEX};

fn faces(list: &[[u32; 3]]) -> Vec<[VertexIndex; 3]> {
    list.iter().map(|f| [VertexIndex(f[0]), VertexIndex(f[1]), VertexIndex(f[2])]).collect()
}

#[test]
fn two_triangles_share_an_edge() {
    let mut t = CornerTable::default();
    assert!(t.init(&faces(&[[0, 1, 2], [2, 1, 3]])));
    assert_eq!(t.num_faces(), 2);
    assert_eq!(t.num_corners(), 6);
    assert_eq!(t.num_vertices(), 4);
    assert_eq!(t.opposite(CornerIndex(0)), CornerIndex(5));
    assert_eq!(t.opposite(CornerIndex(5)), CornerIndex(0));
    for c in [1, 2, 3, 4] {
        assert_eq!(t.opposite(CornerIndex(c)).0, INVALID_INDEX);
    }
    assert_eq!(t.num_degenerated_faces(), 0);
    assert_eq!(t.num_isolated_vertices(), 0);
    for v in 0..4 {
        let c = t.left_most_corner(VertexIndex(v));
        assert_eq!(t.vertex(c), VertexIndex(v));
    }
    assert_eq!(t.left_most_corner(VertexIndex(9)).0, INVALID_INDEX);
}

#[test]
fn corner_navigation() {
    let t = CornerTable::new(2);
    for c in 0..6u32 {
        let ci = CornerIndex(c);
        assert_eq!(t.next(t.next(t.next(ci))), ci);
        assert_eq!(t.previous(t.next(ci)), ci);
        assert_eq!(t.face(ci), FaceIndex(c / 3));
    }
    assert_eq!(t.next(CornerIndex(2)), CornerIndex(0));
    assert_eq!(t.previous(CornerIndex(3)), CornerIndex(5));
    assert_eq!(t.first_corner(FaceIndex(1)), CornerIndex(3));
    assert_eq!(t.next(CornerIndex::invalid()).0, INVALID_INDEX);
    assert_eq!(t.face(CornerIndex::invalid()).0, INVALID_INDEX);
    assert_eq!(t.vertex(CornerIndex(4)).0, INVALID_INDEX);
    assert!(t.is_degenerated(FaceIndex(0)));
    assert!(t.is_degenerated(FaceIndex::invalid()));
}

#[test]
fn swings_around_a_shared_vertex() {
    let mut t = CornerTable::new(0);
    assert!(t.init(&faces(&[[0, 1, 2], [0, 2, 3]])));
    // Corner 0 and corner 3 both sit at vertex 0, on either side of edge 0-2.
    assert_eq!(t.swing_left(CornerIndex(3)), CornerIndex(0));
    assert_eq!(t.swing_right(CornerIndex(0)), CornerIndex(3));
    assert_eq!(t.left_corner(CornerIndex(3)), CornerIndex(1));
    assert_eq!(t.right_corner(CornerIndex(0)), CornerIndex(5));
    assert_eq!(t.swing_left(CornerIndex(0)).0, INVALID_INDEX);
}

#[test]
fn degenerate_faces_and_isolated_vertices_are_counted() {
    let mut t = CornerTable::new(0);
    assert!(t.init(&faces(&[[0, 1, 2], [2, 1, 3], [4, 4, 5]])));
    assert_eq!(t.num_degenerated_faces(), 1);
    assert_eq!(t.num_vertices(), 6);
    assert_eq!(t.num_isolated_vertices(), 2);
}

#[test]
fn a_vertex_joining_two_separate_fans_is_split() {
    let mut t = CornerTable::new(0);
    assert!(t.init(&faces(&[[0, 1, 2], [0, 3, 4]])));
    assert_eq!(t.num_vertices(), 6);
    assert_eq!(t.vertex(CornerIndex(0)), VertexIndex(0));
    assert_eq!(t.vertex(CornerIndex(3)), VertexIndex(5));
    assert_eq!(t.left_most_corner(VertexIndex(5)), CornerIndex(3));
}

#[test]
fn setters_change_single_entries() {
    let mut t = CornerTable::new(1);
    t.set_face_vertices(FaceIndex(0), PointIndex(4), PointIndex(5), PointIndex(6));
    assert_eq!(t.vertex(CornerIndex(0)), VertexIndex(4));
    assert_eq!(t.vertex(CornerIndex(1)), VertexIndex(5));
    assert_eq!(t.vertex(CornerIndex(2)), VertexIndex(6));
    t.map_corner_to_vertex(1, VertexIndex(8));
    assert_eq!(t.vertex(CornerIndex(1)), VertexIndex(8));
    assert!(!t.is_degenerated(FaceIndex(0)));
    assert!(t.compute_vertex_corners(9));
    assert_eq!(t.num_vertices(), 9);
    assert_eq!(t.left_most_corner(VertexIndex(4)), CornerIndex(0));
    assert_eq!(t.left_most_corner(VertexIndex(8)), CornerIndex(1));
    assert_eq!(t.left_most_corner(VertexIndex(0)).0, INVALID_INDEX);
    assert_eq!(t.num_isolated_vertices(), 6);
    t.set_opposite(CornerIndex(2), CornerIndex(0));
    assert_eq!(t.opposite(CornerIndex(2)), CornerIndex(0));
}
