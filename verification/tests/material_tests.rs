use render_assets::material::{Material, MaterialManager, SimpleMaterial};

struct TestMaterial {
    foo: u32,
}

impl Material for TestMaterial {
    // The specification-level methods are ghost code: erased before
    // anything runs, so a runtime implementation never reaches them.
    fn spec_shader_id(&self) -> vstd::prelude::Seq<char> {
        unreachable!()
    }

    fn spec_texture_id(&self) -> vstd::prelude::Seq<char> {
        unreachable!()
    }

    fn spec_uniform_bytes(&self) -> vstd::prelude::Seq<u8> {
        unreachable!()
    }

    fn shader_id(&self) -> String {
        "foo".to_string()
    }

    fn texture_id(&self) -> String {
        "tex".to_string()
    }

    fn uniform_data(&self) -> Vec<u8> {
        self.foo.to_le_bytes().to_vec()
    }
}

#[test]
fn test_material() {
    let material = TestMaterial { foo: 0 };
    assert_eq!(material.shader_id(), "foo");
    assert_eq!(material.uniform_data(), 0u32.to_le_bytes().to_vec());

    let mut manager = MaterialManager::new();
    manager.add("foo", material);

    let record = manager.get_mut_any("foo").unwrap();
    assert_eq!(record.uniform_bytes, 0u32.to_le_bytes().to_vec());
    record.uniform_bytes = 42u32.to_le_bytes().to_vec();

    let record = manager.get_any("foo").unwrap();
    assert_eq!(record.uniform_bytes, 42u32.to_le_bytes().to_vec());
}

#[test]
fn manager_reports_material_fields() {
    let mut manager = MaterialManager::new();
    assert!(manager.get_shader_id("m").is_none());
    assert!(manager.get_texture_id("m").is_none());
    assert!(manager.get_uniform_data_bytes("m").is_none());
    assert!(manager.get_any("m").is_none());

    manager.add("m", SimpleMaterial::new("model", "white"));
    assert_eq!(manager.get_shader_id("m").as_deref(), Some("model"));
    assert_eq!(manager.get_texture_id("m").as_deref(), Some("white"));
    assert!(manager.get_uniform_data_bytes("m").is_some());
}

#[test]
fn adding_under_same_key_replaces() {
    let mut manager = MaterialManager::new();
    manager.add("m", SimpleMaterial::new("model", "white"));
    manager.add("m", SimpleMaterial::new("toon", "checker"));
    assert_eq!(manager.get_shader_id("m").as_deref(), Some("toon"));
    assert_eq!(manager.get_texture_id("m").as_deref(), Some("checker"));
}

#[test]
fn simple_material_uniform_layout() {
    // A simple material's uniform block is its color — three
    // single-precision lanes, little endian — padded to sixteen bytes.
    let m = SimpleMaterial::new("model", "white");
    let bytes = m.uniform_data();
    assert_eq!(bytes.len(), 16);
    let mut expected = Vec::new();
    expected.extend_from_slice(&1.0f32.to_le_bytes());
    expected.extend_from_slice(&0.2f32.to_le_bytes());
    expected.extend_from_slice(&0.3f32.to_le_bytes());
    expected.extend_from_slice(&[0, 0, 0, 0]);
    assert_eq!(bytes, expected);
}
