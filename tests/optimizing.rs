use brep_robust::division::join_at_seam;
use brep_robust::degenerate::{
    degenerate_quadrangle, degenerate_triangle, split_into_nondegenerate, QuadrangleType,
};
use brep_robust::mesh::{Faces, PolygonMesh, Vertex};
use brep_robust::weld::sub_put_together_same_attrs;
use brep_robust::compact::sub_remove_unused_attrs;

fn into_vertices(iter: &[usize]) -> Vec<Vertex> {
    iter.iter().map(|i| Vertex::from_pos(*i)).collect()
}

fn faces_of(polys: &[&[usize]]) -> Faces {
    let mut faces = Faces::new();
    for p in polys {
        faces.push(into_vertices(p));
    }
    faces
}

fn points(n: usize) -> Vec<[f64; 3]> {
    (0..n).map(|i| [i as f64, 0.0, 0.0]).collect()
}

#[test]
fn degenerate_polygon_test() {
    let poly = into_vertices(&[0, 1, 2, 0, 3, 4, 5, 6, 3, 7, 8, 9]);
    let polys = split_into_nondegenerate(poly);
    assert_eq!(polys[0], into_vertices(&[0, 1, 2]));
    assert_eq!(polys[1], into_vertices(&[3, 4, 5, 6]));
    assert_eq!(polys[2], into_vertices(&[3, 7, 8, 9, 0]));
}

#[test]
fn simple_polygon_is_kept_whole() {
    let poly = into_vertices(&[0, 1, 2, 3, 4]);
    assert_eq!(split_into_nondegenerate(poly.clone()), vec![poly]);
}

#[test]
fn triangle_degeneracy() {
    let t = |a, b, c| [Vertex::from_pos(a), Vertex::from_pos(b), Vertex::from_pos(c)];
    assert!(degenerate_triangle(&t(5, 5, 7)));
    assert!(degenerate_triangle(&t(5, 7, 7)));
    assert!(degenerate_triangle(&t(7, 5, 7)));
    assert!(!degenerate_triangle(&t(5, 6, 7)));
}

#[test]
fn quadrangle_classification() {
    let q = |a, b, c, d| {
        [Vertex::from_pos(a), Vertex::from_pos(b), Vertex::from_pos(c), Vertex::from_pos(d)]
    };
    let t = |a, b, c| [Vertex::from_pos(a), Vertex::from_pos(b), Vertex::from_pos(c)];
    assert_eq!(degenerate_quadrangle(&q(1, 1, 2, 3)), QuadrangleType::Triangle(t(1, 2, 3)));
    assert_eq!(degenerate_quadrangle(&q(1, 2, 2, 3)), QuadrangleType::Triangle(t(1, 2, 3)));
    assert_eq!(degenerate_quadrangle(&q(1, 2, 3, 3)), QuadrangleType::Triangle(t(1, 2, 3)));
    assert_eq!(degenerate_quadrangle(&q(1, 2, 3, 1)), QuadrangleType::Triangle(t(1, 2, 3)));
    assert_eq!(degenerate_quadrangle(&q(1, 2, 1, 3)), QuadrangleType::TotallyDegenerate);
    assert_eq!(degenerate_quadrangle(&q(1, 2, 3, 2)), QuadrangleType::TotallyDegenerate);
    assert_eq!(degenerate_quadrangle(&q(1, 1, 2, 2)), QuadrangleType::TotallyDegenerate);
    assert_eq!(degenerate_quadrangle(&q(1, 2, 2, 1)), QuadrangleType::TotallyDegenerate);
    assert_eq!(degenerate_quadrangle(&q(1, 2, 3, 4)), QuadrangleType::NonDegenerate);
}

#[test]
fn remove_degenerate_faces_drops_collapsed_triangle() {
    let mut mesh = PolygonMesh::new(points(4), Vec::<[f64; 2]>::new(), Vec::<[f64; 3]>::new(),
        faces_of(&[&[0, 1, 2], &[2, 1, 2], &[2, 1, 3]]));
    assert_eq!(mesh.faces.len(), 3);
    mesh.remove_degenerate_faces();
    assert_eq!(mesh.faces.len(), 2);
    assert_eq!(mesh.faces.tri_faces[0], [Vertex::from_pos(0), Vertex::from_pos(1), Vertex::from_pos(2)]);
    assert_eq!(mesh.faces.tri_faces[1], [Vertex::from_pos(2), Vertex::from_pos(1), Vertex::from_pos(3)]);
    assert_eq!(mesh.positions.len(), 4);
}

#[test]
fn remove_degenerate_faces_collapses_quadrangle() {
    let mut mesh = PolygonMesh::new(points(4), Vec::<[f64; 2]>::new(), Vec::<[f64; 3]>::new(),
        faces_of(&[&[0, 0, 1], &[0, 0, 1, 2], &[0, 1, 2, 3], &[0, 1, 0, 2]]));
    mesh.remove_degenerate_faces();
    assert_eq!(mesh.faces.tri_faces, vec![[Vertex::from_pos(0), Vertex::from_pos(1), Vertex::from_pos(2)]]);
    assert_eq!(mesh.faces.quad_faces.len(), 1);
    assert_eq!(mesh.faces.other_faces.len(), 0);
}

#[test]
fn remove_degenerate_faces_splits_polygon_by_arity() {
    let mut mesh = PolygonMesh::new(points(10), Vec::<[f64; 2]>::new(), Vec::<[f64; 3]>::new(),
        faces_of(&[&[0, 1, 2, 0, 3, 4, 5, 6, 3, 7, 8, 9]]));
    mesh.remove_degenerate_faces();
    assert_eq!(mesh.faces.tri_faces, vec![[Vertex::from_pos(0), Vertex::from_pos(1), Vertex::from_pos(2)]]);
    assert_eq!(mesh.faces.quad_faces.len(), 1);
    assert_eq!(mesh.faces.other_faces, vec![into_vertices(&[3, 7, 8, 9, 0])]);
}

#[test]
fn sub_remove_unused_attrs_renumbers_by_first_appearance() {
    let mut idcs = vec![3, 1, 3, 4, 1];
    let new2old = sub_remove_unused_attrs(&mut idcs, 6);
    assert_eq!(new2old, vec![3, 1, 4]);
    assert_eq!(idcs, vec![0, 1, 0, 2, 1]);
}

#[test]
fn remove_unused_attrs_drops_unreferenced_position() {
    let positions = vec![[0.0, 0.0, 0.0], [1.0, 0.0, 0.0], [0.0, 1.0, 0.0], [0.0, 0.0, 1.0]];
    let mut mesh = PolygonMesh::new(positions, Vec::<[f64; 2]>::new(), Vec::<[f64; 3]>::new(),
        faces_of(&[&[1, 2, 3]]));
    assert_eq!(mesh.positions.len(), 4);
    mesh.remove_unused_attrs();
    assert_eq!(mesh.positions.len(), 3);
    assert_eq!(mesh.positions[0], [1.0, 0.0, 0.0]);
    assert_eq!(mesh.faces.tri_faces[0], [Vertex::from_pos(0), Vertex::from_pos(1), Vertex::from_pos(2)]);
}

#[test]
fn remove_unused_attrs_handles_uv_and_normals() {
    let v = |p, u: Option<usize>, n: Option<usize>| Vertex { pos: p, uv: u, nor: n };
    let mut faces = Faces::new();
    faces.push(vec![v(2, Some(3), None), v(0, None, Some(1)), v(2, Some(0), Some(1))]);
    let mut mesh = PolygonMesh::new(points(3), vec![[0.0, 0.0], [1.0, 0.0], [2.0, 0.0], [3.0, 0.0]],
        vec![[0.0, 0.0, 1.0], [0.0, 1.0, 0.0]], faces);
    mesh.remove_unused_attrs();
    assert_eq!(mesh.positions, vec![[2.0, 0.0, 0.0], [0.0, 0.0, 0.0]]);
    assert_eq!(mesh.uv_coords, vec![[3.0, 0.0], [0.0, 0.0]]);
    assert_eq!(mesh.normals, vec![[0.0, 1.0, 0.0]]);
    assert_eq!(mesh.faces.tri_faces[0], [v(0, Some(0), None), v(1, None, Some(0)), v(0, Some(1), Some(0))]);
}

#[test]
fn remove_unused_attrs_is_idempotent() {
    let mut mesh = PolygonMesh::new(points(6), Vec::<[f64; 2]>::new(), Vec::<[f64; 3]>::new(),
        faces_of(&[&[5, 3, 1], &[1, 3, 4, 5]]));
    mesh.remove_unused_attrs();
    let once = mesh.clone();
    mesh.remove_unused_attrs();
    assert_eq!(mesh.positions, once.positions);
    assert_eq!(mesh.faces, once.faces);
    assert_eq!(mesh.positions.len(), 4);
}

#[test]
fn sub_put_together_same_attrs_picks_first_in_cell() {
    let cells = vec![vec![0, 0], vec![1, 0], vec![0, 0], vec![1, 0], vec![2, 2]];
    assert_eq!(sub_put_together_same_attrs(&cells), vec![0, 1, 0, 1, 4]);
}

#[test]
fn sub_put_together_same_attrs_empty() {
    assert_eq!(sub_put_together_same_attrs(&Vec::new()), Vec::<usize>::new());
}

#[test]
fn put_together_same_attrs_then_compact() {
    let positions = vec![
        [0.0, 0.0, 0.0], [1.0, 0.0, 0.0], [0.0, 1.0, 0.0],
        [1.0, 1.0, 0.0], [0.0, 1.0, 0.0], [1.0, 0.0, 0.0],
    ];
    let cells = vec![
        vec![0, 0, 0], vec![1, 0, 0], vec![0, 1, 0],
        vec![1, 1, 0], vec![0, 1, 0], vec![1, 0, 0],
    ];
    let mut mesh = PolygonMesh::new(positions, Vec::<[f64; 2]>::new(), Vec::<[f64; 3]>::new(),
        faces_of(&[&[0, 1, 2], &[3, 4, 5]]));
    assert_eq!(mesh.faces.tri_faces[1][1], Vertex { pos: 4, uv: None, nor: None });
    mesh.put_together_same_attrs(&cells, &Vec::new(), &Vec::new());
    assert_eq!(mesh.faces.tri_faces[1][1], Vertex { pos: 2, uv: None, nor: None });
    assert_eq!(mesh.faces.tri_faces[1][2], Vertex { pos: 1, uv: None, nor: None });
    assert_eq!(mesh.positions.len(), 6);
    mesh.remove_unused_attrs();
    assert_eq!(mesh.positions.len(), 4);
}

#[test]
fn join_at_seam_keeps_the_boundary_once() {
    assert_eq!(join_at_seam(vec![0, 1, 2], vec![2, 3, 4]), vec![0, 1, 2, 3, 4]);
    assert_eq!(join_at_seam(vec![5], vec![5, 6]), vec![5, 6]);
}
