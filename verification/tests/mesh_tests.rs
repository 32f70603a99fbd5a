use ascii_renderer::create_cube;
use ascii_renderer::rendering::Mesh;
use ascii_renderer::vector::{Axis, Vector3};

#[test]
fn default_mesh_is_empty() {
    let mesh = Mesh::default();
    assert_eq!(mesh.vertex_count(), 0);
    assert!(mesh.edges.is_empty());
    assert_eq!(mesh.rotation, Vector3::new(0, 0, 0));
    assert_eq!(mesh.scale, Vector3::new(1000, 1000, 1000));
    assert_eq!(mesh.vertex(0), None);
    assert_eq!(mesh.missing_vertex(), None);
}

#[test]
fn insert_vertex_stores_and_overwrites() {
    let mut mesh = Mesh::new();
    mesh.insert_vertex(7, Vector3::new(1, 2, 3));
    mesh.insert_vertex(2, Vector3::new(4, 5, 6));
    assert_eq!(mesh.vertex_count(), 2);
    assert_eq!(mesh.vertex(7), Some(Vector3::new(1, 2, 3)));
    assert_eq!(mesh.vertex(2), Some(Vector3::new(4, 5, 6)));
    assert_eq!(mesh.vertex(0), None);
    mesh.insert_vertex(7, Vector3::new(-1, -2, -3));
    assert_eq!(mesh.vertex_count(), 2);
    assert_eq!(mesh.vertex(7), Some(Vector3::new(-1, -2, -3)));
    assert_eq!(mesh.vertex(2), Some(Vector3::new(4, 5, 6)));
    assert_eq!(
        mesh.entries,
        vec![(7, Vector3::new(-1, -2, -3)), (2, Vector3::new(4, 5, 6))]
    );
}

#[test]
fn add_edge_keeps_order_and_duplicates() {
    let mut mesh = Mesh::new();
    mesh.add_edge((0, 1));
    mesh.add_edge((1, 0));
    mesh.add_edge((0, 1));
    assert_eq!(mesh.edges, vec![(0, 1), (1, 0), (0, 1)]);
    assert_eq!(mesh.vertex_count(), 0);
}

#[test]
fn missing_vertex_names_the_first_gap() {
    let mut mesh = Mesh::new();
    mesh.insert_vertex(0, Vector3::new(0, 0, 0));
    mesh.insert_vertex(1, Vector3::new(1, 0, 0));
    mesh.add_edge((0, 1));
    assert_eq!(mesh.missing_vertex(), None);
    mesh.add_edge((1, 5));
    mesh.add_edge((9, 8));
    assert_eq!(mesh.missing_vertex(), Some(5));
    mesh.insert_vertex(5, Vector3::new(1, 1, 0));
    assert_eq!(mesh.missing_vertex(), Some(9));
    mesh.insert_vertex(9, Vector3::new(1, 1, 0));
    assert_eq!(mesh.missing_vertex(), Some(8));
}

#[test]
fn cube_has_eight_corners_and_twelve_edges() {
    let cube = create_cube();
    assert_eq!(cube.vertex_count(), 8);
    assert_eq!(cube.vertex(0), Some(Vector3::new(1000, 1000, 1000)));
    assert_eq!(cube.vertex(1), Some(Vector3::new(-1000, 1000, 1000)));
    assert_eq!(cube.vertex(2), Some(Vector3::new(-1000, -1000, 1000)));
    assert_eq!(cube.vertex(3), Some(Vector3::new(1000, -1000, 1000)));
    assert_eq!(cube.vertex(4), Some(Vector3::new(1000, 1000, -1000)));
    assert_eq!(cube.vertex(5), Some(Vector3::new(-1000, 1000, -1000)));
    assert_eq!(cube.vertex(6), Some(Vector3::new(-1000, -1000, -1000)));
    assert_eq!(cube.vertex(7), Some(Vector3::new(1000, -1000, -1000)));
    assert_eq!(cube.vertex(8), None);
    assert_eq!(
        cube.edges,
        vec![
            (0, 1),
            (1, 2),
            (2, 3),
            (3, 0),
            (4, 5),
            (5, 6),
            (6, 7),
            (7, 4),
            (0, 4),
            (1, 5),
            (2, 6),
            (3, 7)
        ]
    );
    assert_eq!(cube.rotation, Vector3::new(0, 0, 0));
    assert_eq!(cube.scale, Vector3::new(1000, 1000, 1000));
    assert_eq!(cube.missing_vertex(), None);
    assert_eq!(cube.centroid(), Vector3::new(0, 0, 0));
}

#[test]
fn centroid_is_the_mean_rounded_down() {
    let mut mesh = Mesh::new();
    assert_eq!(mesh.centroid(), Vector3::new(0, 0, 0));
    mesh.insert_vertex(0, Vector3::new(1000, 2000, -1));
    mesh.insert_vertex(1, Vector3::new(3000, 4000, 0));
    assert_eq!(mesh.centroid(), Vector3::new(2000, 3000, -1));
    mesh.insert_vertex(2, Vector3::new(3000, 4001, 0));
    assert_eq!(mesh.centroid(), Vector3::new(2333, 3333, -1));
}

#[test]
fn recenter_moves_the_centroid_to_the_origin() {
    let mut mesh = Mesh::new();
    mesh.insert_vertex(3, Vector3::new(1000, 2000, 3000));
    mesh.insert_vertex(9, Vector3::new(3000, 4000, 5000));
    mesh.add_edge((3, 9));
    mesh.rotation = Vector3::new(1, 2, 3);
    mesh.scale = Vector3::new(10, 20, 30);
    assert!(mesh.can_recenter());
    let was = mesh.recenter();
    assert_eq!(was, Vector3::new(2000, 3000, 4000));
    assert_eq!(mesh.vertex(3), Some(Vector3::new(-1000, -1000, -1000)));
    assert_eq!(mesh.vertex(9), Some(Vector3::new(1000, 1000, 1000)));
    assert_eq!(mesh.centroid(), Vector3::new(0, 0, 0));
    assert_eq!(mesh.edges, vec![(3, 9)]);
    assert_eq!(mesh.rotation, Vector3::new(1, 2, 3));
    assert_eq!(mesh.scale, Vector3::new(10, 20, 30));
}

#[test]
fn recenter_leaves_less_than_a_step_per_vertex() {
    let mut mesh = Mesh::new();
    mesh.insert_vertex(0, Vector3::new(-1, 10, 7));
    mesh.insert_vertex(1, Vector3::new(0, 11, 7));
    mesh.insert_vertex(2, Vector3::new(0, 12, 9));
    assert!(mesh.can_recenter());
    let was = mesh.recenter();
    assert_eq!(was, Vector3::new(-1, 11, 7));
    assert_eq!(mesh.vertex(0), Some(Vector3::new(0, -1, 0)));
    assert_eq!(mesh.vertex(1), Some(Vector3::new(1, 0, 0)));
    assert_eq!(mesh.vertex(2), Some(Vector3::new(1, 1, 2)));
    for axis in [Axis::X, Axis::Y, Axis::Z] {
        let sum: i64 = mesh.entries.iter().map(|e| e.1.component(axis) as i64).sum();
        assert!(0 <= sum && sum < 3);
    }
    assert_eq!(mesh.centroid(), Vector3::new(0, 0, 0));
}

#[test]
fn recenter_of_an_empty_mesh_gives_the_origin() {
    let mut mesh = Mesh::new();
    assert!(mesh.can_recenter());
    assert_eq!(mesh.recenter(), Vector3::new(0, 0, 0));
    assert_eq!(mesh.vertex_count(), 0);
}

#[test]
fn recenter_of_the_cube_changes_nothing() {
    let mut cube = create_cube();
    assert!(cube.can_recenter());
    assert_eq!(cube.recenter(), Vector3::new(0, 0, 0));
    assert_eq!(cube.entries, create_cube().entries);
}

#[test]
fn a_mesh_too_widely_spread_cannot_be_recentred() {
    let mut mesh = Mesh::new();
    mesh.insert_vertex(0, Vector3::new(i32::MIN, 0, 0));
    mesh.insert_vertex(1, Vector3::new(i32::MAX, 0, 0));
    mesh.insert_vertex(2, Vector3::new(i32::MAX, 0, 0));
    assert_eq!(mesh.centroid(), Vector3::new(715_827_882, 0, 0));
    assert!(!mesh.can_recenter());
    let mut mesh = Mesh::new();
    mesh.insert_vertex(0, Vector3::new(0, i32::MIN, 0));
    mesh.insert_vertex(1, Vector3::new(0, i32::MAX, 0));
    assert_eq!(mesh.centroid(), Vector3::new(0, -1, 0));
    assert!(!mesh.can_recenter());
    mesh.insert_vertex(1, Vector3::new(0, i32::MAX - 1, 0));
    assert_eq!(mesh.centroid(), Vector3::new(0, -1, 0));
    assert!(mesh.can_recenter());
    assert_eq!(mesh.recenter(), Vector3::new(0, -1, 0));
    assert_eq!(mesh.vertex(0), Some(Vector3::new(0, i32::MIN + 1, 0)));
    assert_eq!(mesh.vertex(1), Some(Vector3::new(0, i32::MAX, 0)));
}

#[test]
fn from_parts_numbers_the_vertices_in_order() {
    let positions = vec![
        Vector3::new(0, 0, 0),
        Vector3::new(1000, 0, 0),
        Vector3::new(0, 1000, 0),
    ];
    let mesh = Mesh::from_parts(&positions, vec![(0, 1), (1, 2), (2, 0)]);
    assert_eq!(mesh.vertex_count(), 3);
    assert_eq!(mesh.vertex(0), Some(Vector3::new(0, 0, 0)));
    assert_eq!(mesh.vertex(1), Some(Vector3::new(1000, 0, 0)));
    assert_eq!(mesh.vertex(2), Some(Vector3::new(0, 1000, 0)));
    assert_eq!(mesh.vertex(3), None);
    assert_eq!(mesh.edges, vec![(0, 1), (1, 2), (2, 0)]);
    assert_eq!(mesh.rotation, Vector3::new(0, 0, 0));
    assert_eq!(mesh.scale, Vector3::new(1000, 1000, 1000));
    assert!(mesh.is_well_formed());
    let empty = Mesh::from_parts(&Vec::new(), Vec::new());
    assert_eq!(empty.vertex_count(), 0);
    assert!(empty.is_well_formed());
}

#[test]
fn a_mesh_with_an_index_stored_twice_is_not_well_formed() {
    let mut mesh = Mesh::new();
    mesh.insert_vertex(4, Vector3::new(0, 0, 0));
    mesh.insert_vertex(2, Vector3::new(0, 0, 0));
    mesh.insert_vertex(4, Vector3::new(1, 1, 1));
    assert!(mesh.is_well_formed());
    mesh.entries.push((2, Vector3::new(5, 5, 5)));
    assert!(!mesh.is_well_formed());
}
