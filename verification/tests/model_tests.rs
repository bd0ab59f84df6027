use raytracer::model::{indices_in_range, triangle_indices, triangle_vertices, vertex};

#[test]
fn vertex_reads_three_coordinates() {
    let positions = vec![0.0f32, 1.0, 2.0, 3.0, 4.0, 5.0];
    assert_eq!(vertex(&positions, 0), (0.0, 1.0, 2.0));
    assert_eq!(vertex(&positions, 1), (3.0, 4.0, 5.0));
}

#[test]
fn triangle_indices_groups_by_three() {
    let tris = triangle_indices(&vec![0, 1, 2, 2, 3, 0]);
    assert_eq!(tris, vec![(0, 1, 2), (2, 3, 0)]);
}

#[test]
fn triangle_indices_drops_incomplete_group() {
    let tris = triangle_indices(&vec![4, 5, 6, 7, 8]);
    assert_eq!(tris, vec![(4, 5, 6)]);
    assert!(triangle_indices(&vec![1, 2]).is_empty());
}

#[test]
fn indices_in_range_checks_every_index() {
    assert!(indices_in_range(&vec![0, 1, 2], 9));
    assert!(!indices_in_range(&vec![0, 1, 3], 9));
    assert!(!indices_in_range(&vec![0], 2));
    assert!(indices_in_range(&Vec::new(), 0));
}

#[test]
fn triangle_vertices_looks_up_corners() {
    let positions = vec![0.0f32, 0.0, 0.0, 1.0, 0.0, 0.0, 0.0, 1.0, 0.0, 1.0, 1.0, 0.0];
    let tris = triangle_vertices(&positions, &vec![0, 1, 2, 1, 3, 2]);
    assert_eq!(tris.len(), 2);
    assert_eq!(tris[0], ((0.0, 0.0, 0.0), (1.0, 0.0, 0.0), (0.0, 1.0, 0.0)));
    assert_eq!(tris[1], ((1.0, 0.0, 0.0), (1.0, 1.0, 0.0), (0.0, 1.0, 0.0)));
}
