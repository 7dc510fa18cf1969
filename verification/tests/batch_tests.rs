use render_assets::material::MaterialManager;
use render_assets::mesh::{MeshAssets, MeshData, Vertex};
use render_assets::model::{Batches, Bundle, Instance, InstanceArray, Key};
use render_assets::shader::ShaderAssets;
use render_assets::store::Completion;
use render_assets::texture::{ImageData, TextureAssets};

fn inst(seed: u32) -> Instance {
    let mut w = [0u32; 16];
    for i in 0..16 {
        w[i] = seed * 100 + i as u32;
    }
    let mut n = [0u32; 9];
    for i in 0..9 {
        n[i] = seed * 1000 + i as u32;
    }
    Instance::new(w, n)
}

fn vertex0() -> Vertex {
    Vertex { pos_x: 0, pos_y: 0, pos_z: 0, tex_u: 0, tex_v: 0, norm_x: 0, norm_y: 0, norm_z: 0 }
}

fn triangle_payload() -> MeshData {
    MeshData { vertices: vec![vertex0(), vertex0(), vertex0()], indices: vec![0, 1, 2] }
}

fn complete_mesh(meshes: &mut MeshAssets, id: &str, now: u64) {
    let sub = meshes.load(id).unwrap();
    let completion =
        Completion { id: id.to_string(), token: sub.token, result: Ok(triangle_payload()) };
    meshes.hot_reload(&Vec::new(), Some(completion), now);
}

/// A world where the default shader, the fallback texture, the default
/// material and the mesh "cube" are all materialized, and the model
/// pipeline is built.
fn ready_world() -> (ShaderAssets, TextureAssets, MeshAssets, MaterialManager, Bundle) {
    let mut shaders = ShaderAssets::new();
    let mut textures = TextureAssets::new();
    let mut meshes = MeshAssets::new();
    let mut materials = MaterialManager::new();
    let (mut bundle, shader_sub, tex_sub) =
        Bundle::new(&mut shaders, &mut textures, &mut materials);

    let s = shader_sub.unwrap();
    let completion =
        Completion { id: s.id.clone(), token: s.token, result: Ok("wgsl text".to_string()) };
    shaders.hot_reload(&Vec::new(), Some(completion), 1);
    bundle.hot_reload(&shaders);

    let t = tex_sub.unwrap();
    let img = ImageData { width: 1, height: 1, rgba: vec![255, 255, 255, 255] };
    let completion = Completion { id: t.id, token: t.token, result: Ok(img) };
    textures.hot_reload(&Vec::new(), Some(completion), 2);

    complete_mesh(&mut meshes, "cube", 3);
    (shaders, textures, meshes, materials, bundle)
}

#[test]
fn empty_key_is_skipped_in_prepare_and_render() {
    let (_shaders, textures, meshes, materials, bundle) = ready_world();
    let key = Key { mesh_id: "cube".to_string(), material_id: "model".to_string() };
    let arr = InstanceArray { buffer: None, data: Vec::new() };
    let mut batches = Batches { materials: Vec::new(), instances: vec![(key, arr)], next_bind_group: 0 };

    batches.prepare(&textures, &materials);
    assert!(batches.materials.is_empty());
    assert_eq!(batches.next_bind_group, 0);
    assert!(batches.instances[0].1.buffer.is_none());

    let draws = batches.render(&bundle, &meshes, &materials);
    assert!(draws.is_empty());
}

#[test]
fn loading_mesh_is_skipped_even_with_ready_bind_group() {
    let (_shaders, textures, mut meshes, materials, bundle) = ready_world();
    meshes.load("pending");

    let mut batches = Batches::new();
    batches.add_model("pending".to_string(), "model".to_string(), inst(1));
    batches.prepare(&textures, &materials);

    assert_eq!(batches.materials.len(), 1);
    assert!(batches.instances[0].1.buffer.is_some());

    let draws = batches.render(&bundle, &meshes, &materials);
    assert!(draws.is_empty());
}

#[test]
fn instance_buffer_round_trip() {
    let (_shaders, textures, meshes, materials, bundle) = ready_world();
    let mut batches = Batches::new();
    for k in 0..3 {
        batches.add_model("cube".to_string(), "model".to_string(), inst(k));
    }
    batches.prepare(&textures, &materials);

    let buffer = batches.instances[0].1.buffer.as_ref().unwrap();
    assert_eq!(buffer.len(), 300);
    let mut expected: Vec<u8> = Vec::new();
    for k in 0..3 {
        let i = inst(k);
        for lane in i.world_local {
            expected.extend_from_slice(&lane.to_le_bytes());
        }
        for lane in i.normal {
            expected.extend_from_slice(&lane.to_le_bytes());
        }
    }
    assert_eq!(buffer, &expected);

    let draws = batches.render(&bundle, &meshes, &materials);
    assert_eq!(draws.len(), 1);
    assert_eq!(draws[0].instance_count, 3);
    assert_eq!(draws[0].index_count, 3);
    assert_eq!(draws[0].mesh_id, "cube");
}

#[test]
fn pipeline_appears_on_completed_load_and_changes_identity_on_reload() {
    let mut shaders = ShaderAssets::new();
    let mut textures = TextureAssets::new();
    let mut materials = MaterialManager::new();
    let (mut bundle, shader_sub, _tex_sub) =
        Bundle::new(&mut shaders, &mut textures, &mut materials);

    // Before any background load completes: no pipeline entry for "model".
    bundle.hot_reload(&shaders);
    assert!(bundle.pipelines.is_empty());

    // A simulated completed load: exactly one entry appears.
    let s = shader_sub.unwrap();
    let completion = Completion { id: s.id, token: s.token, result: Ok("v1".to_string()) };
    shaders.hot_reload(&Vec::new(), Some(completion), 1);
    bundle.hot_reload(&shaders);
    assert_eq!(bundle.pipelines.len(), 1);
    assert_eq!(bundle.pipelines[0].0, "model");
    let first_identity = bundle.pipelines[0].1.id;

    // A second simulated reload of the same id: still one entry, but a
    // different pipeline object.
    let subs = shaders.hot_reload(&vec!["model".to_string()], None, 300);
    assert_eq!(subs.len(), 1);
    let completion =
        Completion { id: "model".to_string(), token: subs[0].token, result: Ok("v2".to_string()) };
    shaders.hot_reload(&Vec::new(), Some(completion), 310);
    bundle.hot_reload(&shaders);
    assert_eq!(bundle.pipelines.len(), 1);
    assert_ne!(bundle.pipelines[0].1.id, first_identity);
}

#[test]
fn unregistered_shader_reload_is_ignored() {
    let (mut shaders, _textures, _meshes, _materials, mut bundle) = ready_world();
    let sub = shaders.load("sparkle").unwrap();
    let completion =
        Completion { id: "sparkle".to_string(), token: sub.token, result: Ok("v".to_string()) };
    shaders.hot_reload(&Vec::new(), Some(completion), 50);
    assert_eq!(shaders.frame_reloaded().as_deref(), Some("sparkle"));

    bundle.hot_reload(&shaders);
    assert_eq!(bundle.pipelines.len(), 1);
    assert_eq!(bundle.pipelines[0].0, "model");
}

#[test]
fn shared_texture_uses_one_bind_group() {
    let (_shaders, textures, mut meshes, materials, bundle) = ready_world();
    complete_mesh(&mut meshes, "quad", 4);

    let mut batches = Batches::new();
    batches.add_model("cube".to_string(), "model".to_string(), inst(1));
    batches.add_model("quad".to_string(), "model".to_string(), inst(2));
    batches.prepare(&textures, &materials);

    // Two keys share the material (and thus the texture): exactly one bind
    // group exists and exactly one was ever created.
    assert_eq!(batches.materials.len(), 1);
    assert_eq!(batches.next_bind_group, 1);

    let draws = batches.render(&bundle, &meshes, &materials);
    assert_eq!(draws.len(), 2);
    assert_eq!(draws[0].bind_group, draws[1].bind_group);
}

#[test]
fn texture_reload_invalidates_cached_bind_group() {
    let (_shaders, mut textures, _meshes, materials, _bundle) = ready_world();
    let mut batches = Batches::new();
    batches.add_model("cube".to_string(), "model".to_string(), inst(1));
    batches.prepare(&textures, &materials);
    let old_bind_group = batches.materials[0].1.bind_group;

    // The texture "white" is reloaded: new generation.
    let subs = textures.hot_reload(&vec!["white".to_string()], None, 300);
    assert_eq!(subs.len(), 1);
    let img = ImageData { width: 1, height: 1, rgba: vec![0, 0, 0, 255] };
    let completion = Completion { id: "white".to_string(), token: subs[0].token, result: Ok(img) };
    textures.hot_reload(&Vec::new(), Some(completion), 310);

    // Next frame: same material, but the stale bind group is replaced.
    batches.clear();
    batches.add_model("cube".to_string(), "model".to_string(), inst(1));
    batches.prepare(&textures, &materials);
    assert_eq!(batches.materials.len(), 1);
    assert_ne!(batches.materials[0].1.bind_group, old_bind_group);
}

#[test]
fn clear_drops_instances_but_keeps_bind_group_cache() {
    let (_shaders, textures, meshes, materials, bundle) = ready_world();
    let mut batches = Batches::new();
    batches.add_model("cube".to_string(), "model".to_string(), inst(1));
    batches.prepare(&textures, &materials);
    assert_eq!(batches.materials.len(), 1);

    batches.clear();
    assert!(batches.instances.is_empty());
    assert_eq!(batches.materials.len(), 1);

    let draws = batches.render(&bundle, &meshes, &materials);
    assert!(draws.is_empty());
}
