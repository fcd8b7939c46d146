use glam::Vec3;
use mesh_editor::{Axis, Line, Mesh, Poly};

fn empty_mesh() -> Mesh<Vec3> {
    Mesh::new()
}

fn coord(x: f32, y: f32, z: f32) -> Vec3 {
    Vec3::new(x, y, z)
}

fn triangle_mesh() -> Mesh<Vec3> {
    let mut mesh = empty_mesh();
    mesh.add_vert(coord(0.0, 0.0, 0.0));
    mesh.add_vert(coord(1.0, 0.0, 0.0));
    mesh.add_vert(coord(0.5, 1.0, 0.0));
    mesh.add_line((0, 1));
    mesh.add_line((1, 2));
    mesh.add_line((2, 0));
    mesh
}

#[test]
fn test_add_single_vertex() {
    let mut mesh = empty_mesh();
    let idx = mesh.add_vert(coord(1.0, 2.0, 3.0));
    assert_eq!(idx, 0);
    assert_eq!(mesh.verts().len(), 1);
}

#[test]
fn test_add_multiple_vertices() {
    let mut mesh = empty_mesh();
    let idx0 = mesh.add_vert(coord(0.0, 0.0, 0.0));
    let idx1 = mesh.add_vert(coord(1.0, 1.0, 1.0));
    let idx2 = mesh.add_vert(coord(2.0, 2.0, 2.0));

    assert_eq!(idx0, 0);
    assert_eq!(idx1, 1);
    assert_eq!(idx2, 2);
    assert_eq!(mesh.verts().len(), 3);
}

#[test]
fn test_add_vertex_extreme_values() {
    let mut mesh = empty_mesh();
    mesh.add_vert(coord(f32::MAX, f32::MIN, 0.0));
    mesh.add_vert(coord(-0.0, f32::INFINITY, f32::NEG_INFINITY));
    assert_eq!(mesh.verts().len(), 2);
}

#[test]
fn test_update_existing_vertex() {
    let mut mesh = empty_mesh();
    let idx = mesh.add_vert(coord(1.0, 2.0, 3.0));
    mesh.update_vert(idx, coord(4.0, 5.0, 6.0));

    let updated = mesh.verts().get(idx).unwrap();
    assert_eq!(updated.x, 4.0);
    assert_eq!(updated.y, 5.0);
    assert_eq!(updated.z, 6.0);
}

#[test]
fn test_update_invalid_index() {
    let mut mesh = empty_mesh();
    mesh.add_vert(coord(1.0, 2.0, 3.0));
    mesh.update_vert(999, coord(0.0, 0.0, 0.0));
    assert_eq!(mesh.verts().len(), 1);
}

#[test]
fn test_delete_vertex() {
    let mut mesh = empty_mesh();
    let idx = mesh.add_vert(coord(1.0, 2.0, 3.0));
    mesh.delete_vert(idx);
    assert_eq!(mesh.verts().len(), 0);
}

#[test]
fn test_delete_invalid_index() {
    let mut mesh = empty_mesh();
    mesh.add_vert(coord(1.0, 2.0, 3.0));
    mesh.delete_vert(999);
    assert_eq!(mesh.verts().len(), 1);
}

#[test]
fn test_delete_from_empty_mesh() {
    let mut mesh = empty_mesh();
    mesh.delete_vert(0);
    assert_eq!(mesh.verts().len(), 0);
}

#[test]
fn test_add_valid_line() {
    let mut mesh = empty_mesh();
    let v0 = mesh.add_vert(coord(0.0, 0.0, 0.0));
    let v1 = mesh.add_vert(coord(1.0, 1.0, 1.0));

    mesh.add_line((v0, v1));
    assert_eq!(mesh.lines().len(), 1);
}

#[test]
fn test_add_multiple_lines() {
    let mut mesh = empty_mesh();
    let v0 = mesh.add_vert(coord(0.0, 0.0, 0.0));
    let v1 = mesh.add_vert(coord(1.0, 0.0, 0.0));
    let v2 = mesh.add_vert(coord(0.0, 1.0, 0.0));

    mesh.add_line((v0, v1));
    mesh.add_line((v1, v2));
    mesh.add_line((v2, v0));
    assert_eq!(mesh.lines().len(), 3);
}

#[test]
fn test_add_line_invalid_vertices() {
    let mut mesh = empty_mesh();
    mesh.add_vert(coord(0.0, 0.0, 0.0));
    mesh.add_line((0, 999));
}

#[test]
fn test_remove_line() {
    let mut mesh = empty_mesh();
    let v0 = mesh.add_vert(coord(0.0, 0.0, 0.0));
    let v1 = mesh.add_vert(coord(1.0, 1.0, 1.0));
    mesh.add_line((v0, v1));

    mesh.remove_line(0);
    assert_eq!(mesh.lines().len(), 0);
}

#[test]
fn test_remove_invalid_line_index() {
    let mut mesh = empty_mesh();
    let v0 = mesh.add_vert(coord(0.0, 0.0, 0.0));
    let v1 = mesh.add_vert(coord(1.0, 1.0, 1.0));
    mesh.add_line((v0, v1));

    mesh.remove_line(999);
    assert_eq!(mesh.lines().len(), 1);
}

#[test]
fn test_delete_vertex_removes_associated_lines() {
    let mut mesh = empty_mesh();
    let v0 = mesh.add_vert(coord(0.0, 0.0, 0.0));
    let v1 = mesh.add_vert(coord(1.0, 0.0, 0.0));
    let v2 = mesh.add_vert(coord(0.0, 1.0, 0.0));

    mesh.add_line((v0, v1));
    mesh.add_line((v1, v2));

    mesh.delete_vert(v1);
    assert_eq!(mesh.lines().len(), 0);
}

#[test]
fn test_delete_vertex_reindexes_remaining_lines() {
    let mut mesh = empty_mesh();
    let _v0 = mesh.add_vert(coord(0.0, 0.0, 0.0));
    let _v1 = mesh.add_vert(coord(1.0, 0.0, 0.0));
    let v2 = mesh.add_vert(coord(0.0, 1.0, 0.0));
    let v3 = mesh.add_vert(coord(1.0, 1.0, 0.0));

    mesh.add_line((v2, v3));

    // the last vertex (3) moves into the freed slot 1
    mesh.delete_vert(1);

    assert_eq!(mesh.lines().len(), 1);
    let line = mesh.lines().get(0).copied().unwrap();
    assert_eq!(line, (2, 1));
}

#[test]
fn test_delete_last_vertex_removes_its_lines() {
    let mut mesh = empty_mesh();
    let v0 = mesh.add_vert(coord(0.0, 0.0, 0.0));
    let v1 = mesh.add_vert(coord(1.0, 0.0, 0.0));
    let v2 = mesh.add_vert(coord(0.0, 1.0, 0.0));

    mesh.add_line((v0, v1));
    mesh.add_line((v1, v2));

    mesh.delete_vert(v2);
    assert_eq!(mesh.verts().len(), 2);
    assert_eq!(mesh.lines().len(), 1);
    let line = mesh.lines().get(0).copied().unwrap();
    assert_eq!(line, (0, 1));
}

#[test]
fn test_delete_first_vertex_reindexes_all_lines() {
    let mut mesh = empty_mesh();
    let _v0 = mesh.add_vert(coord(0.0, 0.0, 0.0));
    let v1 = mesh.add_vert(coord(1.0, 0.0, 0.0));
    let v2 = mesh.add_vert(coord(0.0, 1.0, 0.0));

    mesh.add_line((v1, v2));

    mesh.delete_vert(0);

    assert_eq!(mesh.verts().len(), 2);
    assert_eq!(mesh.lines().len(), 1);
    let line = mesh.lines().get(0).copied().unwrap();
    assert_eq!(line, (1, 0));
}

#[test]
fn test_delete_only_vertices_with_lines() {
    let mut mesh = empty_mesh();
    let v0 = mesh.add_vert(coord(0.0, 0.0, 0.0));
    let v1 = mesh.add_vert(coord(1.0, 0.0, 0.0));

    mesh.add_line((v0, v1));

    mesh.delete_vert(v1);
    assert_eq!(mesh.verts().len(), 1);
    assert_eq!(mesh.lines().len(), 0);

    mesh.delete_vert(0);
    assert_eq!(mesh.verts().len(), 0);
    assert_eq!(mesh.lines().len(), 0);
}

#[test]
fn test_roundtrip_add_delete_vertex() {
    let mut mesh = empty_mesh();
    let idx = mesh.add_vert(coord(1.0, 2.0, 3.0));
    assert_eq!(mesh.verts().len(), 1);

    mesh.delete_vert(idx);
    assert_eq!(mesh.verts().len(), 0);
}

#[test]
fn test_roundtrip_add_remove_line() {
    let mut mesh = empty_mesh();
    let v0 = mesh.add_vert(coord(0.0, 0.0, 0.0));
    let v1 = mesh.add_vert(coord(1.0, 1.0, 1.0));
    mesh.add_line((v0, v1));
    assert_eq!(mesh.lines().len(), 1);

    mesh.remove_line(0);
    assert_eq!(mesh.lines().len(), 0);
}

#[test]
fn test_add_valid_poly() {
    let mut mesh = triangle_mesh();
    let result = mesh.add_poly(vec![0, 1, 2]);
    assert!(result.is_some());
    assert_eq!(mesh.polys().len(), 1);
}

#[test]
fn test_add_poly_returns_indices() {
    let mut mesh = triangle_mesh();
    mesh.add_poly(vec![0, 1, 2]);
    let poly = mesh.polys().get(0).unwrap();
    assert_eq!(poly, &vec![0, 1, 2]);
}

#[test]
fn test_add_poly_with_less_than_3_lines_fails() {
    let mut mesh = triangle_mesh();
    let result = mesh.add_poly(vec![0, 1]);
    assert!(result.is_none());
    assert_eq!(mesh.polys().len(), 0);
}

#[test]
fn test_add_poly_with_invalid_line_index_fails() {
    let mut mesh = triangle_mesh();
    let result = mesh.add_poly(vec![0, 1, 999]);
    assert!(result.is_none());
    assert_eq!(mesh.polys().len(), 0);
}

#[test]
fn test_add_poly_with_duplicate_indices_fails() {
    let mut mesh = triangle_mesh();
    let result = mesh.add_poly(vec![0, 1, 1]);
    assert!(result.is_none());
    assert_eq!(mesh.polys().len(), 0);
}

#[test]
fn test_add_poly_empty_fails() {
    let mut mesh = triangle_mesh();
    let result = mesh.add_poly(vec![]);
    assert!(result.is_none());
    assert_eq!(mesh.polys().len(), 0);
}

#[test]
fn test_remove_poly() {
    let mut mesh = triangle_mesh();
    mesh.add_poly(vec![0, 1, 2]);
    let removed = mesh.remove_poly(0);
    assert!(removed.is_some());
    assert_eq!(removed.unwrap(), vec![0, 1, 2]);
    assert_eq!(mesh.polys().len(), 0);
}

#[test]
fn test_remove_poly_invalid_index() {
    let mut mesh = triangle_mesh();
    mesh.add_poly(vec![0, 1, 2]);
    let removed = mesh.remove_poly(999);
    assert!(removed.is_none());
    assert_eq!(mesh.polys().len(), 1);
}

#[test]
fn test_remove_poly_from_empty_mesh() {
    let mut mesh = empty_mesh();
    let removed = mesh.remove_poly(0);
    assert!(removed.is_none());
}

#[test]
fn test_remove_line_affects_multiple_polys() {
    let mut mesh = empty_mesh();
    mesh.add_vert(coord(0.0, 0.0, 0.0));
    mesh.add_vert(coord(1.0, 0.0, 0.0));
    mesh.add_vert(coord(1.0, 1.0, 0.0));
    mesh.add_vert(coord(0.0, 1.0, 0.0));
    mesh.add_line((0, 1));
    mesh.add_line((1, 2));
    mesh.add_line((2, 3));
    mesh.add_line((3, 0));
    mesh.add_line((0, 2));

    mesh.add_poly(vec![0, 1, 4]);
    mesh.add_poly(vec![2, 3, 4]);

    mesh.remove_line(4);
    assert_eq!(mesh.polys().len(), 0);
}

#[test]
fn test_remove_line_keeps_valid_polys() {
    let mut mesh = empty_mesh();
    mesh.add_vert(coord(0.0, 0.0, 0.0));
    mesh.add_vert(coord(1.0, 0.0, 0.0));
    mesh.add_vert(coord(1.5, 1.0, 0.0));
    mesh.add_vert(coord(0.5, 1.5, 0.0));
    mesh.add_vert(coord(-0.5, 1.0, 0.0));
    mesh.add_line((0, 1));
    mesh.add_line((1, 2));
    mesh.add_line((2, 3));
    mesh.add_line((3, 4));
    mesh.add_line((4, 0));
    mesh.add_line((0, 3));

    mesh.add_poly(vec![0, 1, 2, 3, 4]);

    mesh.remove_line(5);

    assert_eq!(mesh.polys().len(), 1);
    assert_eq!(mesh.polys().get(0).unwrap().len(), 5);
}

#[test]
fn test_delete_vertex_cascades_to_polys() {
    let mut mesh = triangle_mesh();
    mesh.add_poly(vec![0, 1, 2]);

    mesh.delete_vert(0);

    assert_eq!(mesh.polys().len(), 0);
}

// ---- further cases ----

fn assert_integrity(mesh: &Mesh<Vec3>) {
    let n = mesh.verts().len();
    for l in mesh.lines() {
        assert!(l.0 < n && l.1 < n);
    }
    for p in mesh.polys() {
        assert!(p.len() >= 3);
        for (i, a) in p.iter().enumerate() {
            assert!(*a < n);
            assert!(!p[i + 1..].contains(a));
        }
    }
}

#[test]
fn delete_swaps_last_vertex_into_slot() {
    let a = coord(1.0, 0.0, 0.0);
    let b = coord(2.0, 0.0, 0.0);
    let c = coord(3.0, 0.0, 0.0);
    let mut mesh = empty_mesh();
    mesh.add_vert(a);
    mesh.add_vert(b);
    mesh.add_vert(c);
    mesh.add_line((1, 2));
    assert_eq!(mesh.delete_vert(0), Some(a));
    assert_eq!(mesh.verts(), &vec![c, b]);
    assert_eq!(mesh.lines(), &vec![(1, 0)]);
}

#[test]
fn deleting_a_triangle_corner_drops_the_poly() {
    let mut mesh = triangle_mesh();
    mesh.add_poly(vec![0, 1, 2]);
    mesh.delete_vert(1);
    assert_eq!(mesh.polys().len(), 0);
    // (2, 0) survives, with vertex 2 moved into slot 1
    assert_eq!(mesh.lines(), &vec![(1, 0)]);
    assert_integrity(&mesh);
}

#[test]
fn deleting_a_quad_corner_keeps_a_renamed_triangle() {
    let mut mesh = empty_mesh();
    for i in 0..4 {
        mesh.add_vert(coord(i as f32, 0.0, 0.0));
    }
    mesh.add_poly(vec![0, 1, 2, 3]);
    mesh.delete_vert(1);
    // vertex 3 moved into slot 1
    assert_eq!(mesh.polys(), &vec![vec![0, 2, 1]]);
    assert_integrity(&mesh);
}

#[test]
fn rejected_edits_leave_the_mesh_unchanged() {
    let mut mesh = triangle_mesh();
    mesh.add_poly(vec![0, 1, 2]);
    let verts = mesh.verts().clone();
    let lines = mesh.lines().clone();
    let polys = mesh.polys().clone();
    assert!(mesh.add_line((0, 3)).is_none());
    assert!(mesh.add_poly(vec![0, 1]).is_none());
    assert!(mesh.add_poly(vec![0, 1, 0]).is_none());
    assert!(mesh.add_poly(vec![0, 1, 3]).is_none());
    assert!(mesh.update_vert(3, coord(9.0, 9.0, 9.0)).is_none());
    assert!(mesh.delete_vert(3).is_none());
    assert!(mesh.remove_line(3).is_none());
    assert!(mesh.remove_poly(1).is_none());
    assert!(!mesh.duplicate_verts(&[0, 5], true));
    assert!(!mesh.duplicate_verts(&[0, 0], false));
    assert!(!mesh.mutate_verts(&[0, 7], |_: &Vec<Vec3>| Vec3::ZERO, |v, _| v + Vec3::ONE));
    assert_eq!(mesh.verts(), &verts);
    assert_eq!(mesh.lines(), &lines);
    assert_eq!(mesh.polys(), &polys);
}

fn quad_mesh() -> Mesh<Vec3> {
    let mut mesh = empty_mesh();
    mesh.add_vert(coord(0.0, 0.0, 0.0));
    mesh.add_vert(coord(2.0, 0.0, 0.0));
    mesh.add_vert(coord(2.0, 2.0, 0.0));
    mesh.add_vert(coord(0.0, 2.0, 0.0));
    mesh.add_line((0, 1));
    mesh.add_line((1, 2));
    mesh.add_line((2, 3));
    mesh.add_line((3, 0));
    mesh.add_poly(vec![0, 1, 2, 3]);
    mesh
}

#[test]
fn split_puts_the_midpoint_between_the_ends() {
    let mut mesh = quad_mesh();
    let selected: std::collections::HashSet<usize> = [0].into_iter().collect();
    mesh.split_lines(&selected, |a, b| (a + b) / 2.0);
    assert_eq!(mesh.verts().len(), 5);
    assert_eq!(mesh.verts()[4], coord(1.0, 0.0, 0.0));
    assert_eq!(mesh.lines(), &vec![(1, 2), (2, 3), (3, 0), (0, 4), (4, 1)]);
    assert_eq!(mesh.polys(), &vec![vec![0, 4, 1, 2, 3]]);
    assert_integrity(&mesh);
}

#[test]
fn split_of_the_closing_edge_appends_to_the_poly() {
    let mut mesh = quad_mesh();
    let selected: std::collections::HashSet<usize> = [3].into_iter().collect();
    mesh.split_lines(&selected, |a, b| (a + b) / 2.0);
    assert_eq!(mesh.verts()[4], coord(0.0, 1.0, 0.0));
    assert_eq!(mesh.polys(), &vec![vec![0, 1, 2, 3, 4]]);
}

#[test]
fn split_of_two_lines_in_one_call() {
    let mut mesh = quad_mesh();
    let selected: std::collections::HashSet<usize> = [0, 2].into_iter().collect();
    mesh.split_lines(&selected, |a, b| (a + b) / 2.0);
    assert_eq!(mesh.verts().len(), 6);
    assert_eq!(mesh.verts()[5], coord(1.0, 2.0, 0.0));
    assert_eq!(mesh.lines(), &vec![(1, 2), (3, 0), (0, 4), (4, 1), (2, 5), (5, 3)]);
    assert_eq!(mesh.polys(), &vec![vec![0, 4, 1, 2, 5, 3]]);
    assert_integrity(&mesh);
}

#[test]
fn duplicate_counts_without_extrusion() {
    let mut mesh = Mesh::from_box_corners(cube_corners());
    assert!(mesh.duplicate_verts(&[0, 1, 2, 3], false));
    assert_eq!(mesh.verts().len(), 8 + 4);
    assert_eq!(mesh.lines().len(), 12 + 4);
    assert_eq!(mesh.polys().len(), 6 + 1);
    assert_eq!(mesh.verts()[8], mesh.verts()[0]);
    assert_eq!(mesh.lines()[12], (8, 9));
    assert_eq!(mesh.polys()[6], vec![8, 9, 10, 11]);
    assert_integrity(&mesh);
}

#[test]
fn duplicate_counts_with_extrusion() {
    let mut mesh = Mesh::from_box_corners(cube_corners());
    assert!(mesh.duplicate_verts(&[0, 1, 2, 3], true));
    assert_eq!(mesh.verts().len(), 8 + 4);
    assert_eq!(mesh.lines().len(), 12 + 4 + 4);
    assert_eq!(mesh.polys().len(), 6 + 1 + 4);
    assert_eq!(mesh.lines()[16], (0, 8));
    assert_eq!(mesh.lines()[19], (3, 11));
    assert_eq!(mesh.polys()[7], vec![0, 1, 9, 8]);
    assert_integrity(&mesh);
}

#[test]
fn duplicate_follows_the_listed_order() {
    let mut mesh = quad_mesh();
    assert!(mesh.duplicate_verts(&[2, 1], false));
    assert_eq!(mesh.verts()[4], mesh.verts()[2]);
    assert_eq!(mesh.verts()[5], mesh.verts()[1]);
    assert_eq!(mesh.lines()[4], (5, 4));
    assert_eq!(mesh.polys().len(), 1);
}

fn cycle_lines() -> Vec<Line> {
    vec![(0, 1), (1, 2), (2, 3), (3, 0)]
}

#[test]
fn shortest_path_across_a_four_cycle() {
    let lines = cycle_lines();
    let path = mesh_editor::mesh_bfs(0, 2, &lines);
    assert_eq!(path.len(), 3);
    assert_eq!(path[0], 2);
    assert_eq!(path[2], 0);
    for w in path.windows(2) {
        assert!(lines.iter().any(|l| *l == (w[0], w[1]) || *l == (w[1], w[0])));
    }
    assert_eq!(path, vec![2, 1, 0]);
}

#[test]
fn path_to_itself_and_no_path() {
    let mut lines = cycle_lines();
    lines.push((4, 5));
    assert_eq!(mesh_editor::mesh_bfs(3, 3, &lines), vec![3]);
    assert_eq!(mesh_editor::mesh_bfs(0, 5, &lines), Vec::<usize>::new());
    assert_eq!(mesh_editor::mesh_bfs(5, 4, &lines), vec![4, 5]);
}

#[test]
fn find_verts_between_uses_the_mesh_lines() {
    let mesh = quad_mesh();
    assert_eq!(mesh.find_verts_between(1, 3), vec![3, 0, 1]);
}

#[test]
fn selection_queries() {
    let mut mesh = quad_mesh();
    mesh.add_vert(coord(5.0, 5.0, 5.0));
    mesh.add_line((2, 4));
    mesh.add_poly(vec![1, 2, 4]);
    let set: std::collections::HashSet<usize> = [0, 1, 2].into_iter().collect();
    assert_eq!(mesh.lines_in_vertex_indicies(&set), vec![0, 1]);
    assert_eq!(mesh.polys_in_vertex_indicies(&set), Vec::<usize>::new());
    let partial = mesh.polys_partially_in_vertex_indicies(&set);
    assert!(partial.contains(&0));
    assert!(!partial.contains(&1));
    assert_eq!(partial.len(), 1);
    let all: std::collections::HashSet<usize> = [0, 1, 2, 3, 4].into_iter().collect();
    assert_eq!(mesh.polys_in_vertex_indicies(&all), vec![0, 1]);
    assert_eq!(mesh.vert_indicies_from_poly_indicies(&[1, 9, 0]), vec![1, 2, 4, 0, 1, 2, 3]);
}

#[test]
fn picks_by_index_in_array_order() {
    let mesh = quad_mesh();
    assert_eq!(
        mesh.selected_indicies_to_verts(&[3, 0]),
        vec![coord(0.0, 0.0, 0.0), coord(0.0, 2.0, 0.0)]
    );
    assert_eq!(mesh.selected_indicies_to_lines(&[2, 7]), vec![(2, 3)]);
    let polys: Vec<Poly> = mesh.selected_indicies_to_polys(&[0]);
    assert_eq!(polys, vec![vec![0, 1, 2, 3]]);
}

#[test]
fn line_end_positions() {
    let mesh = quad_mesh();
    let pairs = mesh.lines_to_vert_pairs();
    assert_eq!(pairs[1], (coord(2.0, 0.0, 0.0), coord(2.0, 2.0, 0.0)));
    let missing = Vec3::splat(f32::NAN);
    let listed = mesh.lines_to_vert_pairs_from_list(&[(0, 9)], missing);
    assert_eq!(listed[0].0, coord(0.0, 0.0, 0.0));
    assert!(listed[0].1.x.is_nan());
}

#[test]
fn fan_triangulation() {
    assert_eq!(Mesh::<Vec3>::poly_indicies_to_triangle_indicies(&vec![0, 1, 2, 3]), vec![0, 1, 2, 0, 2, 3]);
    assert_eq!(Mesh::<Vec3>::poly_indicies_to_triangle_indicies(&vec![4, 5]), Vec::<usize>::new());
    let mut mesh = quad_mesh();
    mesh.add_poly(vec![3, 2, 1]);
    assert_eq!(mesh.polys_to_triangle_indicies(), vec![0, 1, 2, 0, 2, 3, 3, 2, 1]);
    let selected: std::collections::HashSet<usize> = [1].into_iter().collect();
    assert_eq!(mesh.selected_polys_to_triangle_indicies(&selected), vec![3, 2, 1]);
}

#[test]
fn translate_about_centroid() {
    let mut mesh = quad_mesh();
    let centroid = |pts: &Vec<Vec3>| pts.iter().copied().sum::<Vec3>() / pts.len() as f32;
    assert!(mesh.mutate_verts(&[0, 1], centroid, |v, c| c + (v - c) * 2.0));
    assert_eq!(mesh.verts()[0], coord(-1.0, 0.0, 0.0));
    assert_eq!(mesh.verts()[1], coord(3.0, 0.0, 0.0));
    assert_eq!(mesh.verts()[2], coord(2.0, 2.0, 0.0));
    assert!(mesh.mutate_verts(&[], centroid, |v, _| v + Vec3::ONE));
    assert_eq!(mesh.verts()[0], coord(-1.0, 0.0, 0.0));
}

fn cube_corners() -> [Vec3; 8] {
    [
        coord(-1.0, -1.0, -1.0),
        coord(1.0, -1.0, -1.0),
        coord(1.0, 1.0, -1.0),
        coord(-1.0, 1.0, -1.0),
        coord(-1.0, -1.0, 1.0),
        coord(1.0, -1.0, 1.0),
        coord(1.0, 1.0, 1.0),
        coord(-1.0, 1.0, 1.0),
    ]
}

#[test]
fn box_primitive() {
    let mesh = Mesh::from_box_corners(cube_corners());
    assert_eq!(mesh.verts().len(), 8);
    assert_eq!(mesh.lines().len(), 12);
    assert_eq!(mesh.polys().len(), 6);
    assert_eq!(mesh.polys()[1], vec![5, 4, 7, 6]);
    assert_integrity(&mesh);
}

#[test]
fn mirror_mode_is_metadata() {
    let mut mesh = quad_mesh();
    assert_eq!(*mesh.mirror_mode(), mesh_editor::MirrorMode::Off);
    mesh.set_mirror_mode(mesh_editor::MirrorMode::RadialY(6));
    assert_eq!(*mesh.mirror_mode(), mesh_editor::MirrorMode::RadialY(6));
    assert_eq!(mesh.verts().len(), 4);
    assert_eq!(mesh.polys().len(), 1);
}

#[test]
fn axis_conventions() {
    assert_eq!(Axis::X.rotation_plane(), (2, 1));
    assert_eq!(Axis::Y.rotation_plane(), (0, 2));
    assert_eq!(Axis::Z.rotation_plane(), (0, 1));
    assert_eq!(Axis::Z.coordinate(), 2);
}

#[test]
fn snapshot_round_trip() {
    let mut mesh = Mesh::from_box_corners(cube_corners());
    mesh.set_mirror_mode(mesh_editor::MirrorMode::Bilateral);
    mesh.duplicate_verts(&[4, 5, 6, 7], true);
    let before = (mesh.verts().clone(), mesh.lines().clone(), mesh.polys().clone());
    let (verts, lines, polys, mode) = mesh.into_parts();
    let arrays: Vec<[f32; 3]> = verts.iter().map(|v| v.to_array()).collect();
    let text = ron::to_string(&(arrays, lines, polys)).unwrap();
    let (arrays, lines, polys): (Vec<[f32; 3]>, Vec<Line>, Vec<Poly>) = ron::from_str(&text).unwrap();
    let verts: Vec<Vec3> = arrays.into_iter().map(Vec3::from_array).collect();
    let back = Mesh::from_parts(verts, lines, polys, mode).unwrap();
    assert_eq!(back.verts(), &before.0);
    assert_eq!(back.lines(), &before.1);
    assert_eq!(back.polys(), &before.2);
    assert_eq!(*back.mirror_mode(), mesh_editor::MirrorMode::Bilateral);
}

#[test]
fn snapshot_with_dangling_index_is_refused() {
    let verts = vec![coord(0.0, 0.0, 0.0), coord(1.0, 0.0, 0.0)];
    assert!(Mesh::from_parts(verts.clone(), vec![(0, 2)], vec![], mesh_editor::MirrorMode::Off).is_none());
    assert!(Mesh::from_parts(verts.clone(), vec![], vec![vec![0, 1, 1]], mesh_editor::MirrorMode::Off).is_none());
    assert!(Mesh::from_parts(verts, vec![(0, 1)], vec![], mesh_editor::MirrorMode::Off).is_some());
}
