use graphics_year2::EdgeMatrix;
use graphics_year2::PolygonMatrix;
use graphics_year2::Vector3D;
use graphics_year2::fixed::FP_ONE;

#[test]
fn edge_matrix_point_count_is_even() {
    let mut e = EdgeMatrix::empty();
    assert_eq!(e.edge_count(), 0);
    e.add_edge((0, 0, 0), (1, 1, 1));
    e.add_edge((2, 2, 2), (3, 3, 3));
    assert_eq!(e.edge_count(), 2);
    assert_eq!(e.point(0), (0, 0, 0));
    assert_eq!(e.point(3), (3, 3, 3));
}

#[test]
fn polygon_matrix_counts_by_threes() {
    let mut p = PolygonMatrix::empty();
    assert_eq!(p.get_poly_count(), 0);
    p.add_triangle((0, 0, 0), (1, 0, 0), (1, 1, 0));
    assert_eq!(p.get_poly_count(), 1);
    p.add_triangle((0, 0, 0), (1, 1, 0), (0, 1, 0));
    assert_eq!(p.get_poly_count(), 2);
    assert_eq!(p.point(4), (1, 1, 0));
}

#[test]
fn face_normal_of_flat_triangle_points_up() {
    let mut p = PolygonMatrix::empty();
    p.add_triangle((0, 0, 0), (1, 0, 0), (1, 1, 0));
    let n = p.normal(0);
    assert_eq!(n, Vector3D::new(0, 0, 1));
}

#[test]
fn winding_flips_normal_sign() {
    let mut p = PolygonMatrix::empty();
    p.add_triangle((0, 0, 0), (1, 1, 0), (1, 0, 0));
    let n = p.normal(0);
    assert_eq!(n, Vector3D::new(0, 0, -1));
}

#[test]
fn vertex_normal_is_unit_in_fixed_point() {
    let mut p = PolygonMatrix::empty();
    p.add_triangle((0, 0, 0), (1, 0, 0), (1, 1, 0));
    // all three vertices belong to one flat triangle: the smoothed normal
    // is the normalized face normal, one fixed-point unit along z
    for j in 0..3 {
        assert_eq!(p.vertex_normal(j), Vector3D::new(0, 0, FP_ONE));
    }
}

#[test]
fn shared_vertex_averages_face_normals() {
    let mut p = PolygonMatrix::empty();
    // two triangles sharing the edge (0,0,0)-(1,1,0), both flat in z
    p.add_triangle((0, 0, 0), (1, 0, 0), (1, 1, 0));
    p.add_triangle((0, 0, 0), (1, 1, 0), (0, 1, 0));
    // both faces point up, so every smoothed normal is the up unit
    for j in 0..6 {
        assert_eq!(p.vertex_normal(j), Vector3D::new(0, 0, FP_ONE));
    }
}

#[test]
fn vector_ops_are_exact() {
    let a = Vector3D::new(1, 2, 3);
    let b = Vector3D::new(4, 5, 6);
    assert_eq!(a.dot(&b), 32);
    assert_eq!(a.cross(&b), Vector3D::new(-3, 6, -3));
    assert_eq!(a.plus(&b), Vector3D::new(5, 7, 9));
    assert_eq!(a.minus(&b), Vector3D::new(-3, -3, -3));
    assert_eq!(a.scale(10), Vector3D::new(10, 20, 30));
    assert_eq!(Vector3D::from_points((1, 1, 1), (4, 5, 6)), Vector3D::new(3, 4, 5));
}

#[test]
fn normalize_axis_and_zero() {
    assert_eq!(Vector3D::new(0, 0, 9).normalize(), Vector3D::new(0, 0, FP_ONE));
    assert_eq!(Vector3D::new(-5, 0, 0).normalize(), Vector3D::new(-FP_ONE, 0, 0));
    assert_eq!(Vector3D::new(0, 0, 0).normalize(), Vector3D::new(0, 0, 0));
}

#[test]
fn average_of_opposed_axes_leans_between() {
    let vs = vec![Vector3D::new(2, 0, 0), Vector3D::new(0, 2, 0)];
    let a = Vector3D::average(&vs);
    // mean (1, 1, 0) normalizes to equal x and y parts
    assert_eq!(a.x, a.y);
    assert!(a.x > 0);
    assert_eq!(a.z, 0);
}
