use draco_core::corner_table::CornerTable;
use draco_core::geometry_indices::{CornerIndex, PointIndex, VertexIndex, INVALID_INDEX};
use draco_core::mesh_traversal::{
    generate_point_ids_and_corners_dfs, generate_point_ids_and_corners_max_prediction_degree,
};

fn table(faces: &[[u32; 3]]) -> CornerTable {
    let mut t = CornerTable::default();
    let f: Vec<[VertexIndex; 3]> = faces.iter().map(|f| [VertexIndex(f[0]), VertexIndex(f[1]), VertexIndex(f[2])]).collect();
    assert!(t.init(&f));
    t
}

fn ids(v: &[u32]) -> Vec<PointIndex> {
    v.iter().map(|&i| PointIndex(i)).collect()
}

fn check_order(t: &CornerTable, point_ids: &[PointIndex], corners: &[u32]) {
    let nv = t.num_vertices();
    assert_eq!(point_ids.len(), nv);
    assert_eq!(corners.len(), nv);
    let mut seen = vec![false; nv];
    for (i, p) in point_ids.iter().enumerate() {
        assert!(!seen[p.0 as usize]);
        seen[p.0 as usize] = true;
        let c = corners[i];
        assert!(
            (c != INVALID_INDEX && t.vertex(CornerIndex(c)) == VertexIndex(p.0))
                || c == t.left_most_corner(VertexIndex(p.0)).0
        );
    }
}

#[test]
fn depth_first_order_of_two_triangles() {
    let t = table(&[[0, 1, 2], [2, 1, 3]]);
    let (point_ids, corners) = generate_point_ids_and_corners_dfs(&t);
    assert_eq!(point_ids, ids(&[1, 2, 0, 3]));
    assert_eq!(corners, vec![1, 2, 0, 5]);
    check_order(&t, &point_ids, &corners);
}

#[test]
fn prediction_degree_order_of_two_triangles() {
    let t = table(&[[0, 1, 2], [2, 1, 3]]);
    let (point_ids, corners) = generate_point_ids_and_corners_max_prediction_degree(&t);
    assert_eq!(point_ids, ids(&[1, 2, 0, 3]));
    assert_eq!(corners, vec![1, 2, 0, 5]);
    check_order(&t, &point_ids, &corners);
}

#[test]
fn traversals_list_every_vertex_of_a_fan_once() {
    // Five triangles around vertex 0, and a separate triangle.
    let t = table(&[[0, 1, 2], [0, 2, 3], [0, 3, 4], [0, 4, 5], [0, 5, 1], [6, 7, 8]]);
    let (a, ca) = generate_point_ids_and_corners_dfs(&t);
    check_order(&t, &a, &ca);
    let (b, cb) = generate_point_ids_and_corners_max_prediction_degree(&t);
    check_order(&t, &b, &cb);
    // The first face's other two vertices come first.
    assert_eq!(&a[..2], &ids(&[1, 2])[..]);
    assert_eq!(&b[..3], &ids(&[1, 2, 0])[..]);
}

#[test]
fn unreached_vertices_come_last() {
    let mut t = table(&[[0, 1, 2]]);
    let extra = t.add_new_vertex();
    assert_eq!(extra, VertexIndex(3));
    let (a, ca) = generate_point_ids_and_corners_dfs(&t);
    assert_eq!(a[3], PointIndex(3));
    assert_eq!(ca[3], INVALID_INDEX);
    check_order(&t, &a, &ca);
    let (b, cb) = generate_point_ids_and_corners_max_prediction_degree(&t);
    assert_eq!(b[3], PointIndex(3));
    assert_eq!(cb[3], INVALID_INDEX);
    check_order(&t, &b, &cb);
}

#[test]
fn empty_table_has_no_order() {
    let t = CornerTable::default();
    let (a, ca) = generate_point_ids_and_corners_dfs(&t);
    assert!(a.is_empty() && ca.is_empty());
    let (b, cb) = generate_point_ids_and_corners_max_prediction_degree(&t);
    assert!(b.is_empty() && cb.is_empty());
}
