use glam::Vec3;
use mesh_editor::{InsertLineOperation, InsertOperation, InsertVertOperation, Mesh, Selection};

fn square() -> Mesh<Vec3> {
    let mut mesh = Mesh::new();
    mesh.add_vert(Vec3::new(0.0, 0.0, 0.0));
    mesh.add_vert(Vec3::new(1.0, 0.0, 0.0));
    mesh.add_vert(Vec3::new(1.0, 1.0, 0.0));
    mesh.add_vert(Vec3::new(0.0, 1.0, 0.0));
    mesh.add_line((0, 1));
    mesh.add_line((1, 2));
    mesh.add_line((2, 3));
    mesh
}

#[test]
fn selection_edits() {
    let mut selection = Selection::new();
    selection.add_selected_vert_indicies(&[3, 1, 4]);
    assert_eq!(selection.selected_vert_indicies(), &vec![3, 1, 4]);
    selection.toggle_selected_vert_index(1);
    assert_eq!(selection.selected_vert_indicies(), &vec![3, 4]);
    selection.toggle_selected_vert_index(7);
    assert_eq!(selection.selected_vert_indicies(), &vec![3, 4, 7]);
    selection.remove_selected_vert_indicies(&[4, 9]);
    assert_eq!(selection.selected_vert_indicies(), &vec![3, 7]);
    let set = selection.selected_vert_indicies_set();
    assert!(set.contains(&3) && set.contains(&7) && set.len() == 2);
    selection.replace_selected_vert_indicies(&[5]);
    assert_eq!(selection.selected_vert_indicies(), &vec![5]);
    selection.clear();
    assert!(selection.selected_vert_indicies().is_empty());
}

#[test]
fn inserting_a_vertex_links_it_to_the_selected_one() {
    let mesh = square();
    let op = InsertOperation::Vert(InsertVertOperation::new(Vec3::new(2.0, 2.0, 0.0), Some(2)));
    let result = op.insert_into(&mesh);
    assert_eq!(result.new_vert, Some(Vec3::new(2.0, 2.0, 0.0)));
    assert_eq!(result.new_line, Some((2, 4)));
    assert!(result.new_poly.is_none());
    let lone = InsertOperation::Vert(InsertVertOperation::new(Vec3::ZERO, None));
    assert!(lone.insert_into(&mesh).new_line.is_none());
}

#[test]
fn closing_line_completes_a_poly() {
    let mesh = square();
    let op: InsertOperation<Vec3> = InsertOperation::Line(InsertLineOperation::new((3, 0), true));
    let result = op.insert_into(&mesh);
    assert_eq!(result.new_line, Some((3, 0)));
    assert_eq!(result.new_poly, Some(vec![0, 1, 2, 3]));
    let open: InsertOperation<Vec3> = InsertOperation::Line(InsertLineOperation::new((3, 0), false));
    assert!(open.insert_into(&mesh).new_poly.is_none());
    let short: InsertOperation<Vec3> = InsertOperation::Line(InsertLineOperation::new((0, 1), true));
    assert!(short.insert_into(&mesh).new_poly.is_none());
    let nothing: InsertOperation<Vec3> = InsertOperation::Nothing;
    let empty = nothing.insert_into(&mesh);
    assert!(empty.new_vert.is_none() && empty.new_line.is_none() && empty.new_poly.is_none());
}
