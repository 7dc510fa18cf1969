//! Per-frame instance batching, bind-group caching and draw selection, plus
//! the pipeline bundle that rebuilds pipelines when their shader reloads.
//!
//! Instances accumulate per batch key (mesh id, material id). `prepare`
//! builds the exact instance-buffer bytes for every non-empty key and keeps
//! a per-material cache of modeled bind groups, creating one only the first
//! time a material is seen and invalidating it when the material's texture
//! was rematerialized. `render` selects one draw per key whose mesh, bind
//! group, pipeline and instance buffer are all resolved, and silently skips
//! the rest — the frame draws whatever is ready.
//!
//! GPU objects appear here as identities: a pipeline or bind group is a
//! number the host maps to the real object it created for it.

use vstd::prelude::*;

use crate::buffer::lanes_to_bytes;
use crate::buffer::lane_bytes;
use crate::keyed::find_key;
use crate::keyed::key_has;
use crate::keyed::key_idx;
use crate::keyed::key_lookup;
use crate::keyed::keys_unique;
use crate::keyed::lemma_key_idx;
use crate::keyed::lemma_key_idx_same_keys;
use crate::material::InternalMaterial;
use crate::material::MaterialManager;
use crate::material::SimpleMaterial;
use crate::mesh::Mesh;
use crate::mesh::MeshAssets;
use crate::shader::ShaderAssets;
use crate::store::Slot;
use crate::store::Submission;
use crate::store::load_post;
use crate::store::lookup;
use crate::store::spec_get;
use crate::texture::Texture;
use crate::texture::TextureAssets;

verus! {

/// Shader id the default model pipeline is built from.
pub const DEFAULT_SHADER: &'static str = "model";

/// Texture id of the built-in fallback texture.
pub const DEFAULT_TEXTURE: &'static str = "white";

/// Material id of the built-in default material.
pub const DEFAULT_MATERIAL: &'static str = "model";

/// One drawn instance: a world matrix (sixteen lanes) and a normal matrix
/// (nine lanes), each lane a 32-bit float bit pattern in column order.
#[derive(Clone, Copy)]
pub struct Instance {
    pub world_local: [u32; 16],
    pub normal: [u32; 9],
}

impl Instance {
    /// An instance record from its two matrices.
    pub fn new(world_local: [u32; 16], normal: [u32; 9]) -> (r: Self)
        ensures
            r == (Instance { world_local, normal }),
    {
        Instance { world_local, normal }
    }
}

/// The twenty-five lanes of one instance record, in buffer order.
pub open spec fn instance_lanes(i: Instance) -> Seq<u32> {
    i.world_local@ + i.normal@
}

/// The lanes of a whole instance sequence, record after record.
pub open spec fn instances_lanes(s: Seq<Instance>) -> Seq<u32>
    decreases s.len(),
{
    if s.len() == 0 {
        Seq::empty()
    } else {
        instance_lanes(s[0]) + instances_lanes(s.drop_first())
    }
}

/// Appending one record appends its twenty-five lanes.
pub proof fn lemma_instances_lanes_push(s: Seq<Instance>, v: Instance)
    ensures
        instances_lanes(s.push(v)) == instances_lanes(s) + instance_lanes(v),
    decreases s.len(),
{
    if s.len() == 0 {
        assert(s.push(v).drop_first() =~= Seq::<Instance>::empty());
        assert(instances_lanes(Seq::<Instance>::empty()) == Seq::<u32>::empty());
        assert(s.push(v)[0] == v);
        assert(instances_lanes(s.push(v)) == instance_lanes(v) + Seq::<u32>::empty());
        assert(instances_lanes(s.push(v)) =~= instances_lanes(s) + instance_lanes(v));
    } else {
        assert(s.push(v).drop_first() =~= s.drop_first().push(v));
        assert(s.push(v)[0] == s[0]);
        lemma_instances_lanes_push(s.drop_first(), v);
        assert(instances_lanes(s.push(v)) == instance_lanes(s[0]) + (instances_lanes(
            s.drop_first(),
        ) + instance_lanes(v)));
        assert(instances_lanes(s.push(v)) =~= instances_lanes(s) + instance_lanes(v));
    }
}

/// Each record occupies twenty-five lanes.
pub proof fn lemma_instances_lanes_len(s: Seq<Instance>)
    ensures
        instances_lanes(s).len() == 25 * s.len(),
    decreases s.len(),
{
    if s.len() > 0 {
        lemma_instances_lanes_len(s.drop_first());
    }
}

/// The lanes of a concatenation of instance sequences, in order.
pub proof fn lemma_instances_lanes_concat(s1: Seq<Instance>, s2: Seq<Instance>)
    ensures
        instances_lanes(s1 + s2) == instances_lanes(s1) + instances_lanes(s2),
    decreases s1.len(),
{
    if s1.len() == 0 {
        assert(s1 + s2 =~= s2);
        assert(instances_lanes(s1) + instances_lanes(s2) =~= instances_lanes(s2));
    } else {
        assert((s1 + s2).drop_first() =~= s1.drop_first() + s2);
        assert((s1 + s2)[0] == s1[0]);
        lemma_instances_lanes_concat(s1.drop_first(), s2);
        assert(instances_lanes(s1 + s2) =~= instances_lanes(s1) + instances_lanes(s2));
    }
}

/// Record `i` of an instance sequence sits at byte offset 100 i of the
/// sequence's buffer image.
proof fn lemma_instance_record_at(s: Seq<Instance>, i: int)
    requires
        0 <= i < s.len(),
    ensures
        lanes_to_bytes(instances_lanes(s)).subrange(100 * i, 100 * i + 100) == lanes_to_bytes(
            instance_lanes(s[i]),
        ),
{
    crate::buffer::lemma_lanes_to_bytes_len(instances_lanes(s));
    lemma_instances_lanes_len(s);
    let a = s.subrange(0, i);
    let b = s.subrange(i, i + 1);
    let c = s.subrange(i + 1, s.len() as int);
    assert(s =~= (a + b) + c);
    lemma_instances_lanes_concat(a + b, c);
    lemma_instances_lanes_concat(a, b);
    lemma_instances_lanes_len(a);
    lemma_instances_lanes_len(b);
    assert(b[0] == s[i]);
    assert(b.drop_first() =~= Seq::<Instance>::empty());
    assert(instances_lanes(b) == instance_lanes(s[i]) + Seq::<u32>::empty());
    assert(instances_lanes(b) =~= instance_lanes(s[i]));
    assert(instance_lanes(s[i]).len() == 25);
    crate::buffer::lemma_lanes_to_bytes_subrange(instances_lanes(s), 25 * i, 25 * i + 25);
    assert(instances_lanes(s).subrange(25 * i, 25 * i + 25) =~= instance_lanes(s[i]));
}

/// LAW — the instance buffer is a round trip of `add_model`. `prepare`
/// builds this byte image for exactly the keys with instances whose
/// material id the manager knows — the only keys that can ever draw — and
/// the image of the N records appended for a key is exactly N hundred-byte
/// records: for every `i`, record `i` is the byte image of the i-th
/// instance added, at offset 100 i. The buffer holds the records in
/// insertion order and nothing else, and `render`'s draw for the key
/// covers exactly N instances.
pub proof fn lemma_instance_buffer_layout(s: Seq<Instance>)
    ensures
        lanes_to_bytes(instances_lanes(s)).len() == 100 * s.len(),
        forall|i: int|
            0 <= i < s.len() ==> lanes_to_bytes(instances_lanes(s)).subrange(
                100 * i,
                100 * i + 100,
            ) == lanes_to_bytes(instance_lanes(s[i])),
{
    crate::buffer::lemma_lanes_to_bytes_len(instances_lanes(s));
    lemma_instances_lanes_len(s);
    assert forall|i: int|
        0 <= i < s.len() implies lanes_to_bytes(instances_lanes(s)).subrange(
        100 * i,
        100 * i + 100,
    ) == lanes_to_bytes(instance_lanes(s[i])) by {
        lemma_instance_record_at(s, i);
    }
}

/// Batch key: one instance array and one cached bind group per (mesh,
/// material) pair. Equality is by the id strings.
pub struct Key {
    pub mesh_id: String,
    pub material_id: String,
}

/// Per-key accumulation: the instances added this frame and, after
/// `prepare`, the byte image of their GPU instance buffer.
pub struct InstanceArray {
    pub buffer: Option<Vec<u8>>,
    pub data: Vec<Instance>,
}

/// Per-material cache entry: the modeled bind group (by identity), the
/// generation of the texture it binds, and the uniform buffer contents last
/// written.
pub struct MaterialData {
    pub bind_group: u64,
    pub texture_generation: u64,
    pub buffer: Vec<u8>,
}

/// One selected draw: everything the host needs to issue an indexed,
/// instanced draw call.
pub struct DrawCall {
    pub mesh_id: String,
    pub material_id: String,
    pub pipeline: u64,
    pub bind_group: u64,
    pub index_count: usize,
    pub instance_count: usize,
}

/// First index in `s` whose key has the given mesh and material ids, or
/// `s.len()` if none.
pub open spec fn bkey_idx(s: Seq<(Key, InstanceArray)>, m: Seq<char>, t: Seq<char>) -> int
    decreases s.len(),
{
    if s.len() == 0 {
        0
    } else if s[0].0.mesh_id@ == m && s[0].0.material_id@ == t {
        0
    } else {
        1 + bkey_idx(s.drop_first(), m, t)
    }
}

/// Some entry of `s` has the given key.
pub open spec fn bkey_has(s: Seq<(Key, InstanceArray)>, m: Seq<char>, t: Seq<char>) -> bool {
    bkey_idx(s, m, t) < s.len()
}

/// Batch keys are unique as (mesh id, material id) pairs.
pub open spec fn bkeys_unique(s: Seq<(Key, InstanceArray)>) -> bool {
    forall|i: int, j: int|
        0 <= i < j < s.len() ==> !((#[trigger] s[i]).0.mesh_id@ == (#[trigger] s[j]).0.mesh_id@
            && s[i].0.material_id@ == s[j].0.material_id@)
}

/// `bkey_idx` is the least matching index (or the length when there is
/// none).
pub proof fn lemma_bkey_idx(s: Seq<(Key, InstanceArray)>, m: Seq<char>, t: Seq<char>)
    ensures
        0 <= bkey_idx(s, m, t) <= s.len(),
        bkey_has(s, m, t) ==> {
            &&& s[bkey_idx(s, m, t)].0.mesh_id@ == m
            &&& s[bkey_idx(s, m, t)].0.material_id@ == t
        },
        forall|j: int|
            0 <= j < bkey_idx(s, m, t) ==> !((#[trigger] s[j]).0.mesh_id@ == m
                && s[j].0.material_id@ == t),
        (exists|j: int|
            0 <= j < s.len() && (#[trigger] s[j]).0.mesh_id@ == m && s[j].0.material_id@ == t)
            ==> bkey_has(s, m, t),
    decreases s.len(),
{
    if s.len() > 0 && !(s[0].0.mesh_id@ == m && s[0].0.material_id@ == t) {
        let rest = s.drop_first();
        lemma_bkey_idx(rest, m, t);
        assert forall|j: int| 0 <= j < bkey_idx(s, m, t) implies !((#[trigger] s[j]).0.mesh_id@
            == m && s[j].0.material_id@ == t) by {
            if j > 0 {
                assert(rest[j - 1] == s[j]);
            }
        }
        if exists|j: int|
            0 <= j < s.len() && (#[trigger] s[j]).0.mesh_id@ == m && s[j].0.material_id@ == t {
            let j = choose|j: int|
                0 <= j < s.len() && (#[trigger] s[j]).0.mesh_id@ == m && s[j].0.material_id@ == t;
            assert(rest[j - 1] == s[j]);
        }
    }
}

/// `bkey_idx` depends only on the keys, not on the stored arrays.
pub proof fn lemma_bkey_idx_same_keys(
    s1: Seq<(Key, InstanceArray)>,
    s2: Seq<(Key, InstanceArray)>,
    m: Seq<char>,
    t: Seq<char>,
)
    requires
        s1.len() == s2.len(),
        forall|i: int|
            0 <= i < s1.len() ==> (#[trigger] s1[i]).0.mesh_id@ == (#[trigger] s2[i]).0.mesh_id@
                && s1[i].0.material_id@ == s2[i].0.material_id@,
    ensures
        bkey_idx(s1, m, t) == bkey_idx(s2, m, t),
    decreases s1.len(),
{
    if s1.len() > 0 && !(s1[0].0.mesh_id@ == m && s1[0].0.material_id@ == t) {
        let r1 = s1.drop_first();
        let r2 = s2.drop_first();
        assert forall|i: int| 0 <= i < r1.len() implies (#[trigger] r1[i]).0.mesh_id@ == (
        #[trigger] r2[i]).0.mesh_id@ && r1[i].0.material_id@ == r2[i].0.material_id@ by {
            assert(r1[i] == s1[i + 1]);
            assert(r2[i] == s2[i + 1]);
        }
        lemma_bkey_idx_same_keys(r1, r2, m, t);
    }
}

/// First index in `entries` whose key matches, or `entries.len()`.
fn find_bkey(entries: &Vec<(Key, InstanceArray)>, mesh_id: &String, material_id: &String) -> (r:
    usize)
    ensures
        r == bkey_idx(entries@, mesh_id@, material_id@),
{
    let mut i: usize = 0;
    while i < entries.len() && !(entries[i].0.mesh_id == *mesh_id && entries[i].0.material_id
        == *material_id)
        invariant
            i <= entries@.len(),
            forall|j: int|
                0 <= j < i ==> !((#[trigger] entries@[j]).0.mesh_id@ == mesh_id@
                    && entries@[j].0.material_id@ == material_id@),
        decreases entries@.len() - i,
    {
        i = i + 1;
    }
    proof {
        lemma_bkey_idx(entries@, mesh_id@, material_id@);
        if i < entries@.len() {
            assert(bkey_has(entries@, mesh_id@, material_id@));
        }
    }
    i
}

/// Exact byte image of the GPU instance buffer for `data`: twenty-five
/// little-endian lanes per record, record after record, in insertion order.
pub fn instance_buffer_bytes(data: &Vec<Instance>) -> (out: Vec<u8>)
    ensures
        out@ == lanes_to_bytes(instances_lanes(data@)),
{
    let mut lanes: Vec<u32> = Vec::new();
    let mut i: usize = 0;
    proof {
        assert(data@.subrange(0, 0) =~= Seq::<Instance>::empty());
    }
    while i < data.len()
        invariant
            i <= data@.len(),
            lanes@ == instances_lanes(data@.subrange(0, i as int)),
        decreases data@.len() - i,
    {
        let v = data[i];
        let ghost mid = lanes@;
        let mut a: usize = 0;
        while a < 16
            invariant
                a <= 16,
                v.world_local@.len() == 16,
                lanes@ == mid + v.world_local@.subrange(0, a as int),
            decreases 16 - a,
        {
            lanes.push(v.world_local[a]);
            proof {
                assert(v.world_local@.subrange(0, a + 1) =~= v.world_local@.subrange(
                    0,
                    a as int,
                ).push(v.world_local@[a as int]));
                assert(lanes@ =~= mid + v.world_local@.subrange(0, a + 1));
            }
            a = a + 1;
        }
        proof {
            assert(v.world_local@.subrange(0, 16) =~= v.world_local@);
        }
        let mut b: usize = 0;
        while b < 9
            invariant
                b <= 9,
                v.normal@.len() == 9,
                lanes@ == mid + v.world_local@ + v.normal@.subrange(0, b as int),
            decreases 9 - b,
        {
            lanes.push(v.normal[b]);
            proof {
                assert(v.normal@.subrange(0, b + 1) =~= v.normal@.subrange(0, b as int).push(
                    v.normal@[b as int],
                ));
                assert(lanes@ =~= mid + v.world_local@ + v.normal@.subrange(0, b + 1));
            }
            b = b + 1;
        }
        proof {
            assert(v.normal@.subrange(0, 9) =~= v.normal@);
            let pre = data@.subrange(0, i as int);
            lemma_instances_lanes_push(pre, v);
            assert(lanes@ =~= instances_lanes(pre) + instance_lanes(v));
            assert(data@.subrange(0, i + 1) =~= pre.push(v));
        }
        i = i + 1;
    }
    proof {
        assert(data@.subrange(0, data@.len() as int) =~= data@);
    }
    lane_bytes(&lanes)
}

/// Some key among the first `n` has material `m` and a non-empty instance
/// array this frame.
pub open spec fn material_needed_upto(
    inst: Seq<(Key, InstanceArray)>,
    m: Seq<char>,
    n: int,
) -> bool {
    exists|j: int|
        0 <= j < n && (#[trigger] inst[j]).0.material_id@ == m && inst[j].1.data@.len() > 0
}

/// Some key has material `m` and a non-empty instance array this frame.
pub open spec fn material_needed(inst: Seq<(Key, InstanceArray)>, m: Seq<char>) -> bool {
    material_needed_upto(inst, m, inst.len() as int)
}

/// Extending the scanned prefix by one key extends the needed-materials
/// set by exactly that key's material, if its array is non-empty.
pub proof fn lemma_material_needed_step(inst: Seq<(Key, InstanceArray)>, m: Seq<char>, j: int)
    requires
        0 <= j < inst.len(),
    ensures
        material_needed_upto(inst, m, j + 1) == (material_needed_upto(inst, m, j) || (
        inst[j].0.material_id@ == m && inst[j].1.data@.len() > 0)),
{
    if material_needed_upto(inst, m, j + 1) {
        let w = choose|w: int|
            0 <= w < j + 1 && (#[trigger] inst[w]).0.material_id@ == m && inst[w].1.data@.len()
                > 0;
        if w < j {
            assert(material_needed_upto(inst, m, j));
        }
    }
    if material_needed_upto(inst, m, j) {
        let w = choose|w: int|
            0 <= w < j && (#[trigger] inst[w]).0.material_id@ == m && inst[w].1.data@.len() > 0;
        assert(0 <= w < j + 1 && inst[w].0.material_id@ == m && inst[w].1.data@.len() > 0);
    }
    if inst[j].0.material_id@ == m && inst[j].1.data@.len() > 0 {
        assert(material_needed_upto(inst, m, j + 1));
    }
}

/// The manager knows material `m` and the texture it names is
/// materialized, so a bind group for it can exist.
pub open spec fn material_ready(
    mm: Seq<(String, InternalMaterial)>,
    tex: Seq<Slot<Texture>>,
    m: Seq<char>,
) -> bool {
    &&& key_lookup(mm, m) matches Some(im)
    &&& lookup(tex, key_lookup(mm, m)->0.texture_id@) matches Some(sl)
    &&& lookup(tex, key_lookup(mm, m)->0.texture_id@)->0.res is Some
}

/// Generation of the texture material `m` binds.
pub open spec fn material_tex_gen(
    mm: Seq<(String, InternalMaterial)>,
    tex: Seq<Slot<Texture>>,
    m: Seq<char>,
) -> u64 {
    lookup(tex, key_lookup(mm, m)->0.texture_id@)->0.generation
}

/// Uniform block bytes of material `m`.
pub open spec fn material_uniform(mm: Seq<(String, InternalMaterial)>, m: Seq<char>) -> Seq<u8> {
    key_lookup(mm, m)->0.uniform_bytes@
}

/// How `prepare` transforms the engine, exactly. `pre_m`/`post_m` are the
/// material cache before and after, `pre_i`/`post_i` the instance arrays,
/// `nb0` the bind-group counter before the call, `mm` the material
/// manager's records, and `tex` the texture store's slots.
///
/// Keys and instance data are untouched. A non-empty key whose material id
/// `mm` knows gets exactly the byte image of its records as its buffer;
/// every other key's buffer is untouched. An existing cache entry changes
/// only if its material is needed (some non-empty key uses it) and ready
/// (its texture is materialized): then its uniform bytes are rewritten and
/// its bind group is kept when the texture generation matches and replaced
/// by a fresh one otherwise. New entries appear only for needed, ready
/// materials that had none, with fresh bind groups — and every needed,
/// ready material has an entry afterwards.
pub open spec fn prepare_post(
    pre_m: Seq<(String, MaterialData)>,
    pre_i: Seq<(Key, InstanceArray)>,
    post_m: Seq<(String, MaterialData)>,
    post_i: Seq<(Key, InstanceArray)>,
    nb0: u64,
    mm: Seq<(String, InternalMaterial)>,
    tex: Seq<Slot<Texture>>,
) -> bool {
    &&& post_i.len() == pre_i.len()
    &&& forall|j: int|
        0 <= j < pre_i.len() ==> {
            let k0 = (#[trigger] pre_i[j]).0;
            let a0 = pre_i[j].1;
            let a1 = (#[trigger] post_i[j]).1;
            &&& post_i[j].0 == k0
            &&& a1.data == a0.data
            &&& if a0.data@.len() > 0 && key_has(mm, k0.material_id@) {
                a1.buffer matches Some(b) && b@ == lanes_to_bytes(instances_lanes(a0.data@))
            } else {
                a1.buffer == a0.buffer
            }
        }
    &&& post_m.len() >= pre_m.len()
    &&& forall|e: int| 0 <= e < pre_m.len() ==> (#[trigger] post_m[e]).0 == pre_m[e].0
    &&& forall|e: int|
        0 <= e < pre_m.len() ==> {
            let m = (#[trigger] pre_m[e]).0@;
            let d0 = pre_m[e].1;
            let d1 = post_m[e].1;
            if material_needed(pre_i, m) && material_ready(mm, tex, m) {
                &&& d1.texture_generation == material_tex_gen(mm, tex, m)
                &&& d1.buffer@ == material_uniform(mm, m)
                &&& (if d0.texture_generation == material_tex_gen(mm, tex, m) {
                    d1.bind_group == d0.bind_group
                } else {
                    d1.bind_group >= nb0
                })
            } else {
                d1 == d0
            }
        }
    &&& forall|e: int|
        pre_m.len() <= e < post_m.len() ==> {
            let m = (#[trigger] post_m[e]).0@;
            let d = post_m[e].1;
            &&& !key_has(pre_m, m)
            &&& material_needed(pre_i, m)
            &&& material_ready(mm, tex, m)
            &&& d.texture_generation == material_tex_gen(mm, tex, m)
            &&& d.buffer@ == material_uniform(mm, m)
            &&& d.bind_group >= nb0
        }
    &&& forall|j: int|
        0 <= j < pre_i.len() && (#[trigger] pre_i[j]).1.data@.len() > 0 && material_ready(
            mm,
            tex,
            pre_i[j].0.material_id@,
        ) ==> key_has(post_m, pre_i[j].0.material_id@)
}

/// LAW — a key with no instances is skipped entirely by `prepare`: its
/// array (buffer included) is untouched, and no cache entry is created or
/// rewritten on its behalf — a material no non-empty key uses keeps every
/// old entry exactly and gains none.
pub proof fn lemma_prepare_skips_empty_key(
    pre_m: Seq<(String, MaterialData)>,
    pre_i: Seq<(Key, InstanceArray)>,
    post_m: Seq<(String, MaterialData)>,
    post_i: Seq<(Key, InstanceArray)>,
    nb0: u64,
    mm: Seq<(String, InternalMaterial)>,
    tex: Seq<Slot<Texture>>,
    j: int,
)
    requires
        prepare_post(pre_m, pre_i, post_m, post_i, nb0, mm, tex),
        0 <= j < pre_i.len(),
        pre_i[j].1.data@.len() == 0,
    ensures
        post_i[j] == pre_i[j],
        !material_needed(pre_i, pre_i[j].0.material_id@) ==> {
            &&& forall|e: int|
                0 <= e < pre_m.len() && (#[trigger] pre_m[e]).0@ == pre_i[j].0.material_id@
                    ==> post_m[e] == pre_m[e]
            &&& forall|e: int|
                pre_m.len() <= e < post_m.len() ==> (#[trigger] post_m[e]).0@
                    != pre_i[j].0.material_id@
        },
{
    assert(post_i[j].0 == pre_i[j].0 && post_i[j].1.data == pre_i[j].1.data && post_i[j].1.buffer
        == pre_i[j].1.buffer);
    assert(post_i[j] == pre_i[j]);
}

/// LAW — one bind group per shared material. If two distinct keys share a
/// material that is needed and ready and not yet cached, `prepare` leaves
/// exactly one cache entry for that material — created fresh — and both
/// keys' draws go through it, since draws look bind groups up by material
/// id alone.
pub proof fn lemma_prepare_shared_material(
    pre_m: Seq<(String, MaterialData)>,
    pre_i: Seq<(Key, InstanceArray)>,
    post_m: Seq<(String, MaterialData)>,
    post_i: Seq<(Key, InstanceArray)>,
    nb0: u64,
    mm: Seq<(String, InternalMaterial)>,
    tex: Seq<Slot<Texture>>,
    j1: int,
    j2: int,
)
    requires
        prepare_post(pre_m, pre_i, post_m, post_i, nb0, mm, tex),
        keys_unique(post_m),
        0 <= j1 < pre_i.len(),
        0 <= j2 < pre_i.len(),
        j1 != j2,
        pre_i[j1].0.material_id@ == pre_i[j2].0.material_id@,
        pre_i[j1].1.data@.len() > 0,
        pre_i[j2].1.data@.len() > 0,
        material_ready(mm, tex, pre_i[j1].0.material_id@),
        !key_has(pre_m, pre_i[j1].0.material_id@),
    ensures
        ({
            let m = pre_i[j1].0.material_id@;
            &&& key_has(post_m, m)
            &&& post_m[key_idx(post_m, m)].1.bind_group >= nb0
            &&& forall|e: int|
                0 <= e < post_m.len() && (#[trigger] post_m[e]).0@ == m ==> e == key_idx(post_m, m)
        }),
{
    let m = pre_i[j1].0.material_id@;
    assert(key_has(post_m, m));
    lemma_key_idx(post_m, m);
    let k = key_idx(post_m, m);
    assert forall|e: int| 0 <= e < post_m.len() && (#[trigger] post_m[e]).0@ == m implies e
        == k by {
        if e != k {
            if e < k {
                assert(post_m[e].0@ != m);
            }
        }
    }
    if k < pre_m.len() {
        assert(pre_m[k].0@ == m);
        lemma_key_idx(pre_m, m);
        assert(key_has(pre_m, m));
    }
    assert(post_m[k].1.bind_group >= nb0);
}

/// LAW — the buffer round trip at `prepare`: a non-empty key whose
/// material id the manager knows — the only keys that can draw — gets as
/// its buffer exactly the byte image of the records `add_model` appended
/// for it, freshly rebuilt, with its data untouched. The per-record layout
/// of those bytes is [`lemma_instance_buffer_layout`].
pub proof fn lemma_prepare_builds_buffer(
    pre_m: Seq<(String, MaterialData)>,
    pre_i: Seq<(Key, InstanceArray)>,
    post_m: Seq<(String, MaterialData)>,
    post_i: Seq<(Key, InstanceArray)>,
    nb0: u64,
    mm: Seq<(String, InternalMaterial)>,
    tex: Seq<Slot<Texture>>,
    j: int,
)
    requires
        prepare_post(pre_m, pre_i, post_m, post_i, nb0, mm, tex),
        0 <= j < pre_i.len(),
        pre_i[j].1.data@.len() > 0,
        key_has(mm, pre_i[j].0.material_id@),
    ensures
        post_i[j].0 == pre_i[j].0,
        post_i[j].1.data == pre_i[j].1.data,
        post_i[j].1.buffer matches Some(b) && b@ == lanes_to_bytes(
            instances_lanes(pre_i[j].1.data@),
        ),
{
}

/// The per-frame batch engine: instance arrays per key, the per-material
/// bind-group cache, and the counter that numbers modeled bind groups.
pub struct Batches {
    pub materials: Vec<(String, MaterialData)>,
    pub instances: Vec<(Key, InstanceArray)>,
    pub next_bind_group: u64,
}

impl Batches {
    /// Unique keys, and every cached bind group identity was drawn from the
    /// counter (so distinct entries hold distinct bind groups).
    pub open spec fn wf(self) -> bool {
        &&& keys_unique(self.materials@)
        &&& bkeys_unique(self.instances@)
        &&& forall|i: int|
            0 <= i < self.materials@.len() ==> (#[trigger] self.materials@[i]).1.bind_group
                < self.next_bind_group
        &&& forall|i: int, j: int|
            0 <= i < j < self.materials@.len() ==> (#[trigger] self.materials@[i]).1.bind_group
                != (#[trigger] self.materials@[j]).1.bind_group
    }

    /// An empty engine: no keys, no cached bind groups.
    pub fn new() -> (r: Self)
        ensures
            r.wf(),
            r.materials@.len() == 0,
            r.instances@.len() == 0,
            r.next_bind_group == 0,
    {
        Batches { materials: Vec::new(), instances: Vec::new(), next_bind_group: 0 }
    }

    /// Append one instance for the key (mesh id, material id), creating the
    /// key's array on first use. Order of insertion is kept.
    pub fn add_model(&mut self, mesh_id: String, material_id: String, instance: Instance)
        requires
            old(self).wf(),
        ensures
            final(self).wf(),
            final(self).materials@ == old(self).materials@,
            final(self).next_bind_group == old(self).next_bind_group,
            ({
                let pre = old(self).instances@;
                let post = final(self).instances@;
                if bkey_has(pre, mesh_id@, material_id@) {
                    let k = bkey_idx(pre, mesh_id@, material_id@);
                    &&& post == pre.update(k, post[k])
                    &&& post[k].0 == pre[k].0
                    &&& post[k].1.data@ == pre[k].1.data@.push(instance)
                    &&& post[k].1.buffer == pre[k].1.buffer
                } else {
                    &&& post.drop_last() == pre
                    &&& post.last().0.mesh_id@ == mesh_id@
                    &&& post.last().0.material_id@ == material_id@
                    &&& post.last().1.data@ == seq![instance]
                    &&& post.last().1.buffer is None
                }
            }),
    {
        let i = find_bkey(&self.instances, &mesh_id, &material_id);
        proof {
            lemma_bkey_idx(self.instances@, mesh_id@, material_id@);
        }
        if i < self.instances.len() {
            self.instances[i].1.data.push(instance);
            proof {
                assert(final(self).instances@ == old(self).instances@.update(
                    i as int,
                    final(self).instances@[i as int],
                ));
                lemma_bkey_idx_same_keys(old(self).instances@, final(self).instances@, mesh_id@,
                    material_id@);
            }
        } else {
            let arr = InstanceArray { buffer: None, data: vec![instance] };
            self.instances.push((Key { mesh_id, material_id }, arr));
            proof {
                let s = final(self).instances@;
                let n = old(self).instances@.len() as int;
                assert(s.drop_last() == old(self).instances@);
                assert forall|j: int| 0 <= j < n implies ((#[trigger] s[j]).0.mesh_id@
                    == old(self).instances@[j].0.mesh_id@ && s[j].0.material_id@
                    == old(self).instances@[j].0.material_id@) by {
                    assert(s.drop_last()[j] == s[j]);
                }
                assert(s.last().1.data@ =~= seq![instance]);
            }
        }
    }

    /// Frame preparation.
    ///
    /// For every key with instances this frame whose material id the
    /// manager knows, the instance-buffer bytes are rebuilt from scratch in
    /// insertion order. For every such key whose material's texture is also
    /// materialized, the per-material cache entry is brought up to date:
    /// created — with one fresh bind group — the first time the material is
    /// seen, rebound to a fresh bind group when the texture was
    /// rematerialized since (a reload must not leave the bind group
    /// pointing at the replaced texture), and otherwise reused with only
    /// the uniform bytes rewritten. Keys with no instances are untouched:
    /// no buffer is built and no cache entry appears for their sake. The
    /// effect is pinned exactly by [`prepare_post`].
    pub fn prepare(&mut self, textures: &TextureAssets, materials: &MaterialManager)
        requires
            old(self).wf(),
            old(self).next_bind_group + old(self).instances@.len() <= u64::MAX,
        ensures
            final(self).wf(),
            final(self).next_bind_group >= old(self).next_bind_group,
            prepare_post(
                old(self).materials@,
                old(self).instances@,
                final(self).materials@,
                final(self).instances@,
                old(self).next_bind_group,
                materials.materials@,
                textures.store.slots@,
            ),
    {
        let ghost mm = materials.materials@;
        let ghost tex = textures.store.slots@;
        let ghost pre_i = old(self).instances@;
        let ghost pre_m = old(self).materials@;

        let mut j: usize = 0;
        while j < self.instances.len()
            invariant
                old(self).wf(),
                self.wf(),
                mm == materials.materials@,
                tex == textures.store.slots@,
                pre_i == old(self).instances@,
                pre_m == old(self).materials@,
                old(self).next_bind_group + pre_i.len() <= u64::MAX,
                j <= pre_i.len(),
                self.instances@ == pre_i,
                self.next_bind_group >= old(self).next_bind_group,
                self.next_bind_group <= old(self).next_bind_group + j,
                self.materials@.len() >= pre_m.len(),
                forall|e: int|
                    0 <= e < pre_m.len() ==> (#[trigger] self.materials@[e]).0 == pre_m[e].0,
                forall|e: int|
                    0 <= e < pre_m.len() ==> {
                        let m = (#[trigger] pre_m[e]).0@;
                        let d0 = pre_m[e].1;
                        let d1 = self.materials@[e].1;
                        if material_needed_upto(pre_i, m, j as int) && material_ready(
                            mm,
                            tex,
                            m,
                        ) {
                            &&& d1.texture_generation == material_tex_gen(mm, tex, m)
                            &&& d1.buffer@ == material_uniform(mm, m)
                            &&& (if d0.texture_generation == material_tex_gen(mm, tex, m) {
                                d1.bind_group == d0.bind_group
                            } else {
                                d1.bind_group >= old(self).next_bind_group
                            })
                        } else {
                            d1 == d0
                        }
                    },
                forall|e: int|
                    pre_m.len() <= e < self.materials@.len() ==> {
                        let m = (#[trigger] self.materials@[e]).0@;
                        let d = self.materials@[e].1;
                        &&& !key_has(pre_m, m)
                        &&& material_needed_upto(pre_i, m, j as int)
                        &&& material_ready(mm, tex, m)
                        &&& d.texture_generation == material_tex_gen(mm, tex, m)
                        &&& d.buffer@ == material_uniform(mm, m)
                        &&& d.bind_group >= old(self).next_bind_group
                    },
                forall|jj: int|
                    0 <= jj < j && (#[trigger] pre_i[jj]).1.data@.len() > 0 && material_ready(
                        mm,
                        tex,
                        pre_i[jj].0.material_id@,
                    ) ==> key_has(self.materials@, pre_i[jj].0.material_id@),
            decreases pre_i.len() - j,
        {
            let ghost m_now = self.instances@[j as int].0.material_id@;
            let ghost cache0 = self.materials@;
            let ghost next0 = self.next_bind_group;
            let data_len = self.instances[j].1.data.len();
            if data_len > 0 {
                let material_id: String = self.instances[j].0.material_id.clone();
                let tid_opt = materials.get_texture_id(material_id.as_str());
                match tid_opt {
                    Some(tid) => {
                        let gen_opt = textures.generation(tid.as_str());
                        let uni_opt = materials.get_uniform_data_bytes(material_id.as_str());
                        match (gen_opt, uni_opt) {
                            (Some(gen), Some(uniform)) => {
                                proof {
                                    assert(material_ready(mm, tex, m_now));
                                    assert(material_tex_gen(mm, tex, m_now) == gen);
                                    assert(material_uniform(mm, m_now) == uniform@);
                                }
                                let mi = find_key(&self.materials, &material_id);
                                proof {
                                    lemma_key_idx(self.materials@, material_id@);
                                }
                                if mi < self.materials.len() {
                                    if self.materials[mi].1.texture_generation != gen {
                                        self.materials[mi].1.bind_group = self.next_bind_group;
                                        self.materials[mi].1.texture_generation = gen;
                                        self.next_bind_group = self.next_bind_group + 1;
                                    }
                                    self.materials[mi].1.buffer = uniform;
                                    proof {
                                        assert(self.materials@ =~= cache0.update(
                                            mi as int,
                                            self.materials@[mi as int],
                                        ));
                                        assert(self.materials@[mi as int].0 == cache0[mi as int].0);
                                    }
                                } else {
                                    let entry = MaterialData {
                                        bind_group: self.next_bind_group,
                                        texture_generation: gen,
                                        buffer: uniform,
                                    };
                                    self.materials.push((material_id.clone(), entry));
                                    self.next_bind_group = self.next_bind_group + 1;
                                    proof {
                                        assert(self.materials@.drop_last() == cache0);
                                        assert forall|e: int| 0 <= e < cache0.len() implies (
                                        #[trigger] self.materials@[e]) == cache0[e] by {
                                            assert(self.materials@.drop_last()[e]
                                                == self.materials@[e]);
                                        }
                                        assert(!key_has(pre_m, m_now)) by {
                                            lemma_key_idx(pre_m, m_now);
                                            if key_has(pre_m, m_now) {
                                                let e0 = key_idx(pre_m, m_now);
                                                assert(cache0[e0].0@ == m_now);
                                                lemma_key_idx(cache0, m_now);
                                            }
                                        }
                                    }
                                }
                                proof {
                                    lemma_key_idx(self.materials@, m_now);
                                    assert(key_has(self.materials@, m_now)) by {
                                        if mi < cache0.len() {
                                            assert(self.materials@[mi as int].0@ == m_now);
                                        } else {
                                            assert(self.materials@[cache0.len() as int].0@
                                                == m_now);
                                        }
                                    }
                                }
                            },
                            _ => {
                                proof {
                                    assert(!material_ready(mm, tex, m_now));
                                }
                            },
                        }
                    },
                    None => {
                        proof {
                            assert(!material_ready(mm, tex, m_now));
                        }
                    },
                }
            }
            proof {
                assert forall|e: int| 0 <= e < pre_m.len() implies {
                    let m = (#[trigger] pre_m[e]).0@;
                    let d0 = pre_m[e].1;
                    let d1 = self.materials@[e].1;
                    if material_needed_upto(pre_i, m, j + 1) && material_ready(mm, tex, m) {
                        &&& d1.texture_generation == material_tex_gen(mm, tex, m)
                        &&& d1.buffer@ == material_uniform(mm, m)
                        &&& (if d0.texture_generation == material_tex_gen(mm, tex, m) {
                            d1.bind_group == d0.bind_group
                        } else {
                            d1.bind_group >= old(self).next_bind_group
                        })
                    } else {
                        d1 == d0
                    }
                } by {
                    lemma_material_needed_step(pre_i, pre_m[e].0@, j as int);
                }
                assert forall|e: int| pre_m.len() <= e < self.materials@.len() implies {
                    let m = (#[trigger] self.materials@[e]).0@;
                    let d = self.materials@[e].1;
                    &&& !key_has(pre_m, m)
                    &&& material_needed_upto(pre_i, m, j + 1)
                    &&& material_ready(mm, tex, m)
                    &&& d.texture_generation == material_tex_gen(mm, tex, m)
                    &&& d.buffer@ == material_uniform(mm, m)
                    &&& d.bind_group >= old(self).next_bind_group
                } by {
                    lemma_material_needed_step(pre_i, self.materials@[e].0@, j as int);
                }
                assert forall|e: int| 0 <= e < cache0.len() implies (
                #[trigger] self.materials@[e]).0 == cache0[e].0 by {}
                assert forall|jj: int|
                    0 <= jj < j + 1 && (#[trigger] pre_i[jj]).1.data@.len() > 0 && material_ready(
                        mm,
                        tex,
                        pre_i[jj].0.material_id@,
                    ) implies key_has(self.materials@, pre_i[jj].0.material_id@) by {
                    let m = pre_i[jj].0.material_id@;
                    if jj < j {
                        assert(key_has(cache0, m));
                        lemma_key_idx(cache0, m);
                        let e = key_idx(cache0, m);
                        assert(self.materials@[e].0@ == m);
                        lemma_key_idx(self.materials@, m);
                    } else {
                        assert(m == m_now);
                    }
                }
            }
            j = j + 1;
        }

        let ghost mid_m = self.materials@;
        let ghost mid_nb = self.next_bind_group;
        let mut k: usize = 0;
        while k < self.instances.len()
            invariant
                self.wf(),
                mm == materials.materials@,
                pre_i == old(self).instances@,
                self.materials@ == mid_m,
                self.next_bind_group == mid_nb,
                k <= pre_i.len(),
                self.instances@.len() == pre_i.len(),
                forall|jj: int|
                    0 <= jj < pre_i.len() ==> {
                        &&& (#[trigger] self.instances@[jj]).0 == pre_i[jj].0
                        &&& self.instances@[jj].1.data == pre_i[jj].1.data
                    },
                forall|jj: int|
                    0 <= jj < k ==> {
                        let k0 = (#[trigger] pre_i[jj]).0;
                        let a0 = pre_i[jj].1;
                        let a1 = self.instances@[jj].1;
                        if a0.data@.len() > 0 && key_has(mm, k0.material_id@) {
                            a1.buffer matches Some(b) && b@ == lanes_to_bytes(
                                instances_lanes(a0.data@),
                            )
                        } else {
                            a1.buffer == a0.buffer
                        }
                    },
                forall|jj: int|
                    k <= jj < pre_i.len() ==> (#[trigger] self.instances@[jj]).1.buffer
                        == pre_i[jj].1.buffer,
            decreases pre_i.len() - k,
        {
            let ghost inst0 = self.instances@;
            let data_len = self.instances[k].1.data.len();
            if data_len > 0 {
                let material_id: String = self.instances[k].0.material_id.clone();
                let tid_opt = materials.get_texture_id(material_id.as_str());
                if tid_opt.is_some() {
                    proof {
                        lemma_key_idx(mm, material_id@);
                    }
                    let bytes = instance_buffer_bytes(&self.instances[k].1.data);
                    self.instances[k].1.buffer = Some(bytes);
                    proof {
                        assert(self.instances@ =~= inst0.update(
                            k as int,
                            self.instances@[k as int],
                        ));
                    }
                } else {
                    proof {
                        lemma_key_idx(mm, material_id@);
                    }
                }
            }
            k = k + 1;
        }
    }

    /// Drop all accumulated instances (frame start); the bind-group cache
    /// persists across frames.
    pub fn clear(&mut self)
        requires
            old(self).wf(),
        ensures
            final(self).wf(),
            final(self).instances@.len() == 0,
            final(self).materials@ == old(self).materials@,
            final(self).next_bind_group == old(self).next_bind_group,
    {
        self.instances.clear();
    }
}

/// A key may draw: it has instances, its material is known, its mesh is
/// materialized, its bind group is cached, the pipeline for its material's
/// shader exists, and its instance buffer was built. A key missing any of
/// these is skipped, not an error.
pub open spec fn draw_ready(
    k: Key,
    a: InstanceArray,
    cache: Seq<(String, MaterialData)>,
    pipelines: Seq<(String, Pipeline)>,
    mm: Seq<(String, InternalMaterial)>,
    meshes: Seq<Slot<Mesh>>,
) -> bool {
    &&& a.data@.len() > 0
    &&& key_lookup(mm, k.material_id@) matches Some(im)
    &&& spec_get(meshes, k.mesh_id@) matches Some(mesh)
    &&& key_lookup(cache, k.material_id@) matches Some(md)
    &&& key_lookup(pipelines, key_lookup(mm, k.material_id@)->0.shader_id@) matches Some(p)
    &&& a.buffer is Some
}

/// The draw call a ready key issues: all of its instances in one indexed,
/// instanced draw.
pub open spec fn draw_of(
    k: Key,
    a: InstanceArray,
    cache: Seq<(String, MaterialData)>,
    pipelines: Seq<(String, Pipeline)>,
    mm: Seq<(String, InternalMaterial)>,
    meshes: Seq<Slot<Mesh>>,
) -> DrawCall {
    DrawCall {
        mesh_id: k.mesh_id,
        material_id: k.material_id,
        pipeline: key_lookup(pipelines, key_lookup(mm, k.material_id@)->0.shader_id@)->0.id,
        bind_group: key_lookup(cache, k.material_id@)->0.bind_group,
        index_count: spec_get(meshes, k.mesh_id@)->0.indices@.len() as usize,
        instance_count: a.data@.len() as usize,
    }
}

/// The draws a frame issues: one per ready key, in key order; every other
/// key is skipped silently.
pub open spec fn spec_draws(
    inst: Seq<(Key, InstanceArray)>,
    cache: Seq<(String, MaterialData)>,
    pipelines: Seq<(String, Pipeline)>,
    mm: Seq<(String, InternalMaterial)>,
    meshes: Seq<Slot<Mesh>>,
) -> Seq<DrawCall>
    decreases inst.len(),
{
    if inst.len() == 0 {
        Seq::empty()
    } else {
        let head = if draw_ready(inst[0].0, inst[0].1, cache, pipelines, mm, meshes) {
            seq![draw_of(inst[0].0, inst[0].1, cache, pipelines, mm, meshes)]
        } else {
            Seq::<DrawCall>::empty()
        };
        head + spec_draws(inst.drop_first(), cache, pipelines, mm, meshes)
    }
}

/// Appending one key appends its draw, if it is ready, and nothing
/// otherwise.
pub proof fn lemma_spec_draws_push(
    inst: Seq<(Key, InstanceArray)>,
    x: (Key, InstanceArray),
    cache: Seq<(String, MaterialData)>,
    pipelines: Seq<(String, Pipeline)>,
    mm: Seq<(String, InternalMaterial)>,
    meshes: Seq<Slot<Mesh>>,
)
    ensures
        spec_draws(inst.push(x), cache, pipelines, mm, meshes) == spec_draws(
            inst,
            cache,
            pipelines,
            mm,
            meshes,
        ) + (if draw_ready(x.0, x.1, cache, pipelines, mm, meshes) {
            seq![draw_of(x.0, x.1, cache, pipelines, mm, meshes)]
        } else {
            Seq::<DrawCall>::empty()
        }),
    decreases inst.len(),
{
    let tail = if draw_ready(x.0, x.1, cache, pipelines, mm, meshes) {
        seq![draw_of(x.0, x.1, cache, pipelines, mm, meshes)]
    } else {
        Seq::<DrawCall>::empty()
    };
    if inst.len() == 0 {
        assert(inst.push(x).drop_first() =~= Seq::<(Key, InstanceArray)>::empty());
        assert(spec_draws(Seq::<(Key, InstanceArray)>::empty(), cache, pipelines, mm, meshes)
            == Seq::<DrawCall>::empty());
        assert(inst.push(x)[0] == x);
        assert(spec_draws(inst.push(x), cache, pipelines, mm, meshes) == tail
            + Seq::<DrawCall>::empty());
        assert(spec_draws(inst.push(x), cache, pipelines, mm, meshes) =~= spec_draws(
            inst,
            cache,
            pipelines,
            mm,
            meshes,
        ) + tail);
    } else {
        assert(inst.push(x).drop_first() =~= inst.drop_first().push(x));
        assert(inst.push(x)[0] == inst[0]);
        lemma_spec_draws_push(inst.drop_first(), x, cache, pipelines, mm, meshes);
        assert(spec_draws(inst.push(x), cache, pipelines, mm, meshes) =~= spec_draws(
            inst,
            cache,
            pipelines,
            mm,
            meshes,
        ) + tail);
    }
}

/// LAW — only ready keys draw. Every selected draw covers at least one
/// instance (a key with an empty array never draws), names a mesh that is
/// materialized right now (a key whose mesh is still loading never draws,
/// whatever else is ready), and uses a cached bind group.
pub proof fn lemma_draws_ready(
    inst: Seq<(Key, InstanceArray)>,
    cache: Seq<(String, MaterialData)>,
    pipelines: Seq<(String, Pipeline)>,
    mm: Seq<(String, InternalMaterial)>,
    meshes: Seq<Slot<Mesh>>,
)
    ensures
        forall|d: int|
            0 <= d < spec_draws(inst, cache, pipelines, mm, meshes).len() ==> {
                let dc = #[trigger] spec_draws(inst, cache, pipelines, mm, meshes)[d];
                &&& dc.instance_count > 0
                &&& spec_get(meshes, dc.mesh_id@) is Some
                &&& key_lookup(cache, dc.material_id@) is Some
            },
    decreases inst.len(),
{
    if inst.len() > 0 {
        lemma_draws_ready(inst.drop_first(), cache, pipelines, mm, meshes);
        let head = if draw_ready(inst[0].0, inst[0].1, cache, pipelines, mm, meshes) {
            seq![draw_of(inst[0].0, inst[0].1, cache, pipelines, mm, meshes)]
        } else {
            Seq::<DrawCall>::empty()
        };
        let rest = spec_draws(inst.drop_first(), cache, pipelines, mm, meshes);
        assert forall|d: int|
            0 <= d < spec_draws(inst, cache, pipelines, mm, meshes).len() implies {
            let dc = #[trigger] spec_draws(inst, cache, pipelines, mm, meshes)[d];
            &&& dc.instance_count > 0
            &&& spec_get(meshes, dc.mesh_id@) is Some
            &&& key_lookup(cache, dc.material_id@) is Some
        } by {
            if d >= head.len() {
                assert(spec_draws(inst, cache, pipelines, mm, meshes)[d] == rest[d - head.len()]);
            } else {
                assert(draw_ready(inst[0].0, inst[0].1, cache, pipelines, mm, meshes));
                assert(spec_draws(inst, cache, pipelines, mm, meshes)[d] == draw_of(
                    inst[0].0,
                    inst[0].1,
                    cache,
                    pipelines,
                    mm,
                    meshes,
                ));
                assert(vstd::std_specs::vec::spec_vec_len(&inst[0].1.data) == inst[
                    0
                ].1.data@.len());
            }
        }
    }
}

impl Batches {
    /// Select this frame's draws: one per ready key (see [`draw_ready`]),
    /// in key order. Keys missing any dependency are skipped, so the frame
    /// renders whatever is ready instead of failing.
    pub fn render(&self, bundle: &Bundle, meshes: &MeshAssets, materials: &MaterialManager) -> (
        draws: Vec<DrawCall>)
        ensures
            draws@ == spec_draws(
                self.instances@,
                self.materials@,
                bundle.pipelines@,
                materials.materials@,
                meshes.store.slots@,
            ),
    {
        let ghost cache = self.materials@;
        let ghost pipelines = bundle.pipelines@;
        let ghost mm = materials.materials@;
        let ghost mesh_slots = meshes.store.slots@;
        let mut draws: Vec<DrawCall> = Vec::new();
        let mut j: usize = 0;
        proof {
            assert(self.instances@.subrange(0, 0) =~= Seq::<(Key, InstanceArray)>::empty());
        }
        while j < self.instances.len()
            invariant
                j <= self.instances@.len(),
                cache == self.materials@,
                pipelines == bundle.pipelines@,
                mm == materials.materials@,
                mesh_slots == meshes.store.slots@,
                draws@ == spec_draws(
                    self.instances@.subrange(0, j as int),
                    cache,
                    pipelines,
                    mm,
                    mesh_slots,
                ),
            decreases self.instances@.len() - j,
        {
            let ghost entry = self.instances@[j as int];
            let a_len = self.instances[j].1.data.len();
            if a_len > 0 {
                match materials.get_shader_id(self.instances[j].0.material_id.as_str()) {
                    Some(shader_id) => {
                        let md_i = find_key(&self.materials, &self.instances[j].0.material_id);
                        let p_i = find_key(&bundle.pipelines, &shader_id);
                        proof {
                            lemma_key_idx(cache, entry.0.material_id@);
                            lemma_key_idx(pipelines, shader_id@);
                            lemma_key_idx(mm, entry.0.material_id@);
                        }
                        match meshes.get(self.instances[j].0.mesh_id.as_str()) {
                            Some(mesh) => {
                                if md_i < self.materials.len() && p_i < bundle.pipelines.len()
                                    && self.instances[j].1.buffer.is_some() {
                                    let dc = DrawCall {
                                        mesh_id: self.instances[j].0.mesh_id.clone(),
                                        material_id: self.instances[j].0.material_id.clone(),
                                        pipeline: bundle.pipelines[p_i].1.id,
                                        bind_group: self.materials[md_i].1.bind_group,
                                        index_count: mesh.num_indices(),
                                        instance_count: a_len,
                                    };
                                    draws.push(dc);
                                    proof {
                                        assert(draw_ready(
                                            entry.0,
                                            entry.1,
                                            cache,
                                            pipelines,
                                            mm,
                                            mesh_slots,
                                        ));
                                        assert(dc == draw_of(
                                            entry.0,
                                            entry.1,
                                            cache,
                                            pipelines,
                                            mm,
                                            mesh_slots,
                                        ));
                                    }
                                } else {
                                    proof {
                                        assert(!draw_ready(
                                            entry.0,
                                            entry.1,
                                            cache,
                                            pipelines,
                                            mm,
                                            mesh_slots,
                                        ));
                                    }
                                }
                            },
                            None => {
                                proof {
                                    assert(!draw_ready(
                                        entry.0,
                                        entry.1,
                                        cache,
                                        pipelines,
                                        mm,
                                        mesh_slots,
                                    ));
                                }
                            },
                        }
                    },
                    None => {
                        proof {
                            assert(!draw_ready(entry.0, entry.1, cache, pipelines, mm, mesh_slots));
                        }
                    },
                }
            } else {
                proof {
                    assert(!draw_ready(entry.0, entry.1, cache, pipelines, mm, mesh_slots));
                }
            }
            proof {
                let pre = self.instances@.subrange(0, j as int);
                lemma_spec_draws_push(pre, entry, cache, pipelines, mm, mesh_slots);
                assert(self.instances@.subrange(0, j + 1) =~= pre.push(entry));
                assert(draws@ =~= spec_draws(
                    self.instances@.subrange(0, j + 1),
                    cache,
                    pipelines,
                    mm,
                    mesh_slots,
                ));
            }
            j = j + 1;
        }
        proof {
            assert(self.instances@.subrange(0, self.instances@.len() as int) =~= self.instances@);
        }
        draws
    }
}

impl Default for Batches {
    /// Same as [`Batches::new`].
    fn default() -> (r: Self)
        ensures
            r.wf(),
            r.materials@.len() == 0,
            r.instances@.len() == 0,
            r.next_bind_group == 0,
    {
        Batches::new()
    }
}

/// A modeled GPU render pipeline: a creation identity — two builds never
/// share one — and the generation of the shader module it was built from.
/// Pipelines are replaced wholesale, never mutated.
pub struct Pipeline {
    pub id: u64,
    pub shader_generation: u64,
}

impl Pipeline {
    /// A pipeline object with the given identity, built against the given
    /// shader generation.
    pub fn new(id: u64, shader_generation: u64) -> (r: Self)
        ensures
            r == (Pipeline { id, shader_generation }),
    {
        Pipeline { id, shader_generation }
    }
}

/// Shader id `id` was registered with the bundle.
pub open spec fn shader_registered(s: Seq<String>, id: Seq<char>) -> bool {
    exists|j: int| 0 <= j < s.len() && (#[trigger] s[j])@ == id
}

/// The model pipeline bundle: one pipeline per registered shader id,
/// rebuilt whenever that shader's module is rematerialized. Reloads of
/// unregistered shader ids are deliberately ignored, so pipelines nobody
/// asked for are never built.
pub struct Bundle {
    pub pipelines: Vec<(String, Pipeline)>,
    pub registered_shaders: Vec<String>,
    pub next_pipeline: u64,
}

impl Bundle {
    /// Pipeline keys are unique and every pipeline identity was drawn from
    /// the counter (so distinct entries hold distinct identities).
    pub open spec fn wf(self) -> bool {
        &&& keys_unique(self.pipelines@)
        &&& forall|i: int|
            0 <= i < self.pipelines@.len() ==> (#[trigger] self.pipelines@[i]).1.id
                < self.next_pipeline
        &&& forall|i: int, j: int|
            0 <= i < j < self.pipelines@.len() ==> (#[trigger] self.pipelines@[i]).1.id != (
            #[trigger] self.pipelines@[j]).1.id
    }

    /// Set up the model bundle: register the default shader, request the
    /// default shader and fallback texture (the returned submissions are
    /// the background jobs the host must run), and record the default
    /// material. No pipeline exists until the shader's first load
    /// completes.
    pub fn new(
        shaders: &mut ShaderAssets,
        textures: &mut TextureAssets,
        materials: &mut MaterialManager,
    ) -> (r: (Bundle, Option<Submission>, Option<Submission>))
        requires
            old(shaders).store.wf(),
            old(textures).store.wf(),
            old(materials).wf(),
        ensures
            r.0.wf(),
            r.0.pipelines@.len() == 0,
            r.0.next_pipeline == 0,
            r.0.registered_shaders@.len() == 1,
            r.0.registered_shaders@[0]@ == DEFAULT_SHADER@,
            final(shaders).store.wf(),
            load_post(
                old(shaders).store.slots@,
                final(shaders).store.slots@,
                r.1 is Some,
                DEFAULT_SHADER@,
            ),
            r.1 matches Some(s) ==> s.id@ == DEFAULT_SHADER@,
            final(textures).store.wf(),
            load_post(
                old(textures).store.slots@,
                final(textures).store.slots@,
                r.2 is Some,
                DEFAULT_TEXTURE@,
            ),
            r.2 matches Some(s) ==> s.id@ == DEFAULT_TEXTURE@,
            final(materials).wf(),
            key_has(final(materials).materials@, DEFAULT_MATERIAL@),
            ({
                let im = key_lookup(final(materials).materials@, DEFAULT_MATERIAL@)->0;
                &&& im.shader_id@ == DEFAULT_SHADER@
                &&& im.texture_id@ == DEFAULT_TEXTURE@
                &&& im.uniform_bytes@ == lanes_to_bytes(
                    seq![
                        crate::material::DEFAULT_COLOR_R_BITS,
                        crate::material::DEFAULT_COLOR_G_BITS,
                        crate::material::DEFAULT_COLOR_B_BITS,
                    ],
                ) + seq![0u8, 0u8, 0u8, 0u8]
            }),
    {
        let tex_sub = textures.load(DEFAULT_TEXTURE);
        let shader_sub = shaders.load(DEFAULT_SHADER);
        let mut registered_shaders: Vec<String> = Vec::new();
        registered_shaders.push(DEFAULT_SHADER.to_owned());

        let simple = SimpleMaterial::new(DEFAULT_SHADER, DEFAULT_TEXTURE);
        materials.add(DEFAULT_MATERIAL, simple);

        let bundle = Bundle { pipelines: Vec::new(), registered_shaders, next_pipeline: 0 };
        (bundle, shader_sub, tex_sub)
    }

    /// Declare interest in `shader_id`: reloads of registered ids rebuild
    /// their pipeline, all others are ignored.
    pub fn register_shader(&mut self, shader_id: &str)
        requires
            old(self).wf(),
        ensures
            final(self).wf(),
            final(self).pipelines@ == old(self).pipelines@,
            final(self).next_pipeline == old(self).next_pipeline,
            shader_registered(final(self).registered_shaders@, shader_id@),
            forall|id: Seq<char>|
                shader_registered(old(self).registered_shaders@, id) ==> shader_registered(
                    final(self).registered_shaders@,
                    id,
                ),
            forall|id: Seq<char>|
                shader_registered(final(self).registered_shaders@, id) ==> (shader_registered(
                    old(self).registered_shaders@,
                    id,
                ) || id == shader_id@),
    {
        let key: String = shader_id.to_owned();
        if !contains_string(&self.registered_shaders, &key) {
            self.registered_shaders.push(key);
            proof {
                let pre = old(self).registered_shaders@;
                let post = final(self).registered_shaders@;
                assert forall|id: Seq<char>|
                    shader_registered(pre, id) implies shader_registered(post, id) by {
                    let w = choose|w: int| 0 <= w < pre.len() && (#[trigger] pre[w])@ == id;
                    assert(post[w]@ == id);
                }
                assert forall|id: Seq<char>|
                    shader_registered(post, id) implies (shader_registered(pre, id) || id
                    == shader_id@) by {
                    let w = choose|w: int| 0 <= w < post.len() && (#[trigger] post[w])@ == id;
                    if w < pre.len() {
                        assert(pre[w]@ == id);
                    }
                }
                assert(post[pre.len() as int]@ == shader_id@);
            }
        }
    }

    /// React to a shader rematerialization: if the id the shader registry
    /// republished this frame is registered, build a brand-new pipeline
    /// from the now-current module — a fresh identity, replacing any
    /// previous pipeline for that id wholesale. Unregistered ids, and
    /// frames without a rematerialization, change nothing.
    pub fn hot_reload(&mut self, shaders: &ShaderAssets)
        requires
            old(self).wf(),
            old(self).next_pipeline < u64::MAX,
        ensures
            final(self).wf(),
            final(self).registered_shaders@ == old(self).registered_shaders@,
            ({
                let fires = match shaders.store.frame_reloaded {
                    Some(id) => shader_registered(old(self).registered_shaders@, id@) && spec_get(
                        shaders.store.slots@,
                        id@,
                    ) is Some,
                    None => false,
                };
                if fires {
                    let id = shaders.store.frame_reloaded->0;
                    let g = lookup(shaders.store.slots@, id@)->0.generation;
                    &&& final(self).next_pipeline == old(self).next_pipeline + 1
                    &&& key_has(final(self).pipelines@, id@)
                    &&& key_lookup(final(self).pipelines@, id@) == Some(
                        Pipeline { id: old(self).next_pipeline, shader_generation: g },
                    )
                    &&& (if key_has(old(self).pipelines@, id@) {
                        final(self).pipelines@ == old(self).pipelines@.update(
                            key_idx(old(self).pipelines@, id@),
                            final(self).pipelines@[key_idx(old(self).pipelines@, id@)],
                        )
                    } else {
                        final(self).pipelines@.drop_last() == old(self).pipelines@
                    })
                } else {
                    &&& final(self).pipelines@ == old(self).pipelines@
                    &&& final(self).next_pipeline == old(self).next_pipeline
                }
            }),
    {
        let fr = shaders.frame_reloaded();
        match fr {
            Some(id) => {
                let key: String = id.clone();
                if contains_string(&self.registered_shaders, &key) {
                    match shaders.generation(key.as_str()) {
                        Some(g) => {
                            let p = Pipeline::new(self.next_pipeline, g);
                            let i = find_key(&self.pipelines, &key);
                            proof {
                                lemma_key_idx(self.pipelines@, key@);
                            }
                            if i < self.pipelines.len() {
                                self.pipelines[i].1 = p;
                                proof {
                                    assert(self.pipelines@ == old(self).pipelines@.update(
                                        i as int,
                                        self.pipelines@[i as int],
                                    ));
                                    lemma_key_idx_same_keys(
                                        old(self).pipelines@,
                                        self.pipelines@,
                                        key@,
                                    );
                                }
                            } else {
                                self.pipelines.push((key, p));
                                proof {
                                    let s = self.pipelines@;
                                    let n = old(self).pipelines@.len() as int;
                                    assert(s.drop_last() == old(self).pipelines@);
                                    assert forall|j: int| 0 <= j < n implies (#[trigger] s[j]).0@
                                        != id@ by {
                                        assert(s.drop_last()[j] == s[j]);
                                    }
                                    lemma_key_idx(s, id@);
                                    assert(s[n].0@ == id@);
                                    assert(key_has(s, id@));
                                    assert(key_idx(s, id@) == n);
                                }
                            }
                            self.next_pipeline = self.next_pipeline + 1;
                        },
                        None => {
                            proof {
                                assert(spec_get(shaders.store.slots@, id@) is None);
                            }
                        },
                    }
                }
            },
            None => {},
        }
    }
}

/// Whether some string in `ids` views to `key`.
fn contains_string(ids: &Vec<String>, key: &String) -> (r: bool)
    ensures
        r == shader_registered(ids@, key@),
{
    let mut i: usize = 0;
    while i < ids.len()
        invariant
            i <= ids@.len(),
            forall|j: int| 0 <= j < i ==> (#[trigger] ids@[j])@ != key@,
        decreases ids@.len() - i,
    {
        if ids[i] == *key {
            return true;
        }
        i = i + 1;
    }
    false
}

} // verus!
