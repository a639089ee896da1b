use termrast::fixed::{Fx, SCALE};
use termrast::render_objects::{Colour, Camera, Face, Mesh, MalformedGeometry};
use termrast::structures::Vector;

fn origin() -> Vector {
    Vector::position(0, 0, 0)
}

fn no_spin() -> Vector {
    Vector::direction(0, 0, 0)
}

#[test]
fn camera_from_keeps_its_vectors() {
    let c = Camera::from(Vector::position(3, 4, 5), origin(), Vector::direction(0, 1, 0));
    assert_eq!(c.pos.x.raw, 3 * SCALE);
    assert_eq!(c.target.w.raw, SCALE);
    assert_eq!(c.up.y.raw, SCALE);
}

#[test]
fn mesh_from_accepts_valid_faces() {
    let verts = vec![origin(), Vector::position(1, 0, 0), Vector::position(0, 1, 0)];
    let faces = vec![Face::from(0, 1, 2, Vector::direction(0, 0, 1), Colour::Grey(Fx { raw: SCALE }))];
    let m = Mesh::from(String::from("tri"), verts, faces, origin(), no_spin()).expect("valid");
    assert_eq!(m.name, "tri");
    assert_eq!(m.vertices.len(), 3);
    assert_eq!(m.faces.len(), 1);
}

#[test]
fn mesh_from_rejects_out_of_range_face() {
    let verts = vec![origin(), Vector::position(1, 0, 0)];
    let faces = vec![Face::from(0, 1, 2, Vector::direction(0, 0, 1), Colour::Grey(Fx { raw: SCALE }))];
    let r = Mesh::from(String::from("bad"), verts, faces, origin(), no_spin());
    assert_eq!(r.unwrap_err(), MalformedGeometry::BadIndex);
}

#[test]
fn from_text_parses_a_small_mesh() {
    let text = b"o cube\nv 1.5 -2 0\nv 0 0 0\nv 0.25 0 1\nvn 0 1 0\nf 1//1 2//1 3//1\n";
    let m = Mesh::from_text(text, origin(), no_spin()).expect("parses");
    assert_eq!(m.name, "cube");
    assert_eq!(m.vertices.len(), 3);
    assert_eq!(m.vertices[0].x.raw, 3 * SCALE / 2);
    assert_eq!(m.vertices[0].y.raw, -2 * SCALE);
    assert_eq!(m.vertices[0].w.raw, SCALE);
    assert_eq!(m.vertices[2].x.raw, SCALE / 4);
    assert_eq!(m.faces.len(), 1);
    assert_eq!(m.faces[0].v0, 0);
    assert_eq!(m.faces[0].v1, 1);
    assert_eq!(m.faces[0].v2, 2);
    assert_eq!(m.faces[0].normal.y.raw, SCALE);
    assert_eq!(m.faces[0].normal.w.raw, 0);
    assert_eq!(m.faces[0].colour, Colour::Grey(Fx { raw: SCALE }));
}

#[test]
fn from_text_rejects_face_index_zero() {
    let text = b"v 0 0 0\nvn 0 1 0\nf 0//1 1//1 1//1\n";
    let r = Mesh::from_text(text, origin(), no_spin());
    assert_eq!(r.unwrap_err(), MalformedGeometry::BadIndex);
}

#[test]
fn from_text_rejects_face_index_beyond_vertices() {
    let text = b"v 0 0 0\nv 1 0 0\nvn 0 1 0\nf 1//1 2//1 3//1\n";
    let r = Mesh::from_text(text, origin(), no_spin());
    assert_eq!(r.unwrap_err(), MalformedGeometry::BadIndex);
}

#[test]
fn from_text_rejects_normal_index_beyond_normals() {
    let text = b"v 0 0 0\nv 1 0 0\nv 0 1 0\nvn 0 1 0\nf 1//2 2//2 3//2\n";
    let r = Mesh::from_text(text, origin(), no_spin());
    assert_eq!(r.unwrap_err(), MalformedGeometry::BadIndex);
}

#[test]
fn from_text_rejects_garbage_number() {
    let text = b"v 1.x 0 0\n";
    let r = Mesh::from_text(text, origin(), no_spin());
    assert_eq!(r.unwrap_err(), MalformedGeometry::UnparsableField);
}

#[test]
fn from_text_rejects_unknown_directive() {
    let text = b"q 1 2 3\n";
    let r = Mesh::from_text(text, origin(), no_spin());
    assert_eq!(r.unwrap_err(), MalformedGeometry::UnsupportedDirective);
}

#[test]
fn from_text_accepts_blank_lines_and_trailing_newline() {
    let text = b"\nv 0 0 0\n\n";
    let m = Mesh::from_text(text, origin(), no_spin()).expect("parses");
    assert_eq!(m.vertices.len(), 1);
    assert_eq!(m.faces.len(), 0);
}

#[test]
fn from_text_keeps_pose() {
    let pos = Vector::position(2, 3, 4);
    let rot = Vector::direction(1, 1, 1);
    let m = Mesh::from_text(b"v 0 0 0\n", pos, rot).expect("parses");
    assert_eq!(m.pos, pos);
    assert_eq!(m.rot, rot);
}

#[test]
fn mesh_new_is_empty() {
    let m = Mesh::new(String::from("empty"));
    assert_eq!(m.name, "empty");
    assert!(m.vertices.is_empty());
    assert!(m.faces.is_empty());
}
