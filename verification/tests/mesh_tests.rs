use render_assets::mesh::{parse_obj, Mesh, MeshAssets, Vertex};
use render_assets::store::Completion;
use render_assets::LoadError;

const TRIANGLE_OBJ: &str = "\
v 0 0 0
v 1 0 0
v 0 1 0
vt 0 0
vt 1 0
vt 0 1
vn 0 0 1
f 1/1/1 2/2/1 3/3/1
";

fn bits(x: f32) -> u32 {
    x.to_bits()
}

#[test]
fn parse_obj_decodes_a_triangle() {
    let data = parse_obj(TRIANGLE_OBJ).unwrap();
    assert_eq!(data.vertices.len(), 3);
    assert_eq!(data.indices, vec![0, 1, 2]);

    let v0 = &data.vertices[0];
    assert_eq!(
        (v0.pos_x, v0.pos_y, v0.pos_z),
        (bits(0.0), bits(0.0), bits(0.0))
    );
    assert_eq!((v0.tex_u, v0.tex_v), (bits(0.0), bits(0.0)));
    assert_eq!(
        (v0.norm_x, v0.norm_y, v0.norm_z),
        (bits(0.0), bits(0.0), bits(1.0))
    );

    let v1 = &data.vertices[1];
    assert_eq!(v1.pos_x, bits(1.0));
    assert_eq!(v1.tex_u, bits(1.0));

    let v2 = &data.vertices[2];
    assert_eq!(v2.pos_y, bits(1.0));
    assert_eq!(v2.tex_v, bits(1.0));
}

#[test]
fn parse_obj_concatenates_models_in_order() {
    let two = "\
o first
v 0 0 0
v 1 0 0
v 0 1 0
vt 0 0
vn 0 0 1
f 1/1/1 2/1/1 3/1/1
o second
v 0 0 5
v 1 0 5
v 0 1 5
vt 1 1
vn 0 0 1
f 4/2/2 5/2/2 6/2/2
";
    let data = parse_obj(two).unwrap();
    assert_eq!(data.vertices.len(), 6);
    // Each model's triangle indexes its own records; the arrays are
    // appended model after model.
    assert_eq!(data.indices, vec![0, 1, 2, 0, 1, 2]);
    assert_eq!(data.vertices[0].pos_z, bits(0.0));
    assert_eq!(data.vertices[3].pos_z, bits(5.0));
}

#[test]
fn parse_obj_accepts_relative_indices() {
    // Negative references count back from the elements declared so far.
    let text = "\
v 0 0 0
v 1 0 0
v 0 1 0
vt 0 0
vn 0 0 1
f -3/-1/-1 -2/-1/-1 -1/-1/-1
";
    let data = parse_obj(text).unwrap();
    assert_eq!(data.vertices.len(), 3);
    assert_eq!(data.indices, vec![0, 1, 2]);
    assert_eq!(data.vertices[1].pos_x, bits(1.0));
}

#[test]
fn parse_obj_rejects_zero_face_index() {
    // OBJ references are one-based; a zero reference would wrap the
    // parser's index arithmetic, so the pre-scan refuses it.
    let r = parse_obj("v 0 0 0\nvt 0 0\nvn 0 0 1\nf 1/0/1 1/1/1 1/1/1\n");
    assert_eq!(r.err(), Some(LoadError::Decode));
}

#[test]
fn parse_obj_rejects_out_of_range_relative_index() {
    // A relative reference reaching past the elements declared so far
    // would wrap the parser's index arithmetic.
    let r = parse_obj("v 0 0 0\nvt 0 0\nvn 0 0 1\nf 1/-3/1 1/-3/1 1/-3/1\n");
    assert_eq!(r.err(), Some(LoadError::Decode));
}

#[test]
fn parse_obj_rejects_oversized_face_index() {
    let r = parse_obj("v 0 0 0\nvt 0 0\nvn 0 0 1\nf 1/999999999/1 1/1/1 1/1/1\n");
    assert_eq!(r.err(), Some(LoadError::Decode));
}

#[test]
fn parse_obj_rejects_non_ascii_text() {
    let r = parse_obj("v 0 0 0\u{a0}1 2\n");
    assert_eq!(r.err(), Some(LoadError::Decode));
}

#[test]
fn parse_obj_rejects_malformed_text() {
    let r = parse_obj("v one two three\nf 1 2 3\n");
    assert_eq!(r.err(), Some(LoadError::Decode));
}

#[test]
fn parse_obj_rejects_missing_normals_instead_of_faulting() {
    // Positions without texture coordinates or normals: the assembly must
    // fail with a decode error, not crash the worker.
    let r = parse_obj("v 0 0 0\nv 1 0 0\nv 0 1 0\nf 1 2 3\n");
    assert_eq!(r.err(), Some(LoadError::Decode));
}

#[test]
fn mesh_buffers_hold_exact_records() {
    let vertices = vec![Vertex {
        pos_x: 1,
        pos_y: 2,
        pos_z: 3,
        tex_u: 4,
        tex_v: 5,
        norm_x: 6,
        norm_y: 7,
        norm_z: 8,
    }];
    let indices = vec![9u32, 10, 11];
    let mesh = Mesh::new(vertices, indices);
    assert_eq!(mesh.num_indices(), 3);

    let expected_vertex: Vec<u8> = (1u32..=8).flat_map(|l| l.to_le_bytes()).collect();
    assert_eq!(mesh.vertex_buffer_bytes(), expected_vertex);

    let expected_index: Vec<u8> = [9u32, 10, 11]
        .iter()
        .flat_map(|l| l.to_le_bytes())
        .collect();
    assert_eq!(mesh.index_buffer_bytes(), expected_index);
}

#[test]
fn mesh_assets_materialize_parsed_payloads() {
    let mut meshes = MeshAssets::new();
    let sub = meshes.load("cube").unwrap();
    assert!(meshes.get("cube").is_none());

    let payload = parse_obj(TRIANGLE_OBJ).unwrap();
    let completion = Completion { id: "cube".to_string(), token: sub.token, result: Ok(payload) };
    meshes.hot_reload(&Vec::new(), Some(completion), 5);

    let mesh = meshes.get("cube").unwrap();
    assert_eq!(mesh.vertices.len(), 3);
    assert_eq!(mesh.num_indices(), 3);
    assert_eq!(meshes.generation("cube"), Some(1));
}
