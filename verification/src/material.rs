//! Material records: which shader and texture a draw uses, plus the exact
//! uniform bytes its pipeline reads.
//!
//! A material enters the manager through the [`Material`] trait's fixed
//! method set and is stored as a plain [`InternalMaterial`] record, so the
//! batch engine can query shader id, texture id and uniform bytes without
//! knowing the concrete material type.

use vstd::prelude::*;

use crate::buffer::lanes_to_bytes;
use crate::buffer::lane_bytes;
use crate::keyed::find_key;
use crate::keyed::key_has;
use crate::keyed::key_idx;
use crate::keyed::key_lookup;
use crate::keyed::keys_unique;
use crate::keyed::lemma_key_idx;
use crate::keyed::lemma_key_idx_same_keys;

verus! {

/// Fixed method set of a material: its shader, its texture, and the bytes
/// of its GPU uniform block.
pub trait Material: Sized {
    /// Shader id, as a specification value.
    spec fn spec_shader_id(&self) -> Seq<char>;

    /// Texture id, as a specification value.
    spec fn spec_texture_id(&self) -> Seq<char>;

    /// Uniform block bytes, as a specification value.
    spec fn spec_uniform_bytes(&self) -> Seq<u8>;

    /// Id of the shader this material's pipeline is built from.
    fn shader_id(&self) -> (r: String)
        ensures
            r@ == self.spec_shader_id(),
    ;

    /// Id of the texture bound when drawing with this material.
    fn texture_id(&self) -> (r: String)
        ensures
            r@ == self.spec_texture_id(),
    ;

    /// Byte image of this material's uniform block.
    fn uniform_data(&self) -> (r: Vec<u8>)
        ensures
            r@ == self.spec_uniform_bytes(),
    ;
}

/// A material reduced to the three values the render path reads.
pub struct InternalMaterial {
    pub shader_id: String,
    pub texture_id: String,
    pub uniform_bytes: Vec<u8>,
}

/// `im` is the record of material `m`.
pub open spec fn records_material<M: Material>(im: InternalMaterial, m: M) -> bool {
    &&& im.shader_id@ == m.spec_shader_id()
    &&& im.texture_id@ == m.spec_texture_id()
    &&& im.uniform_bytes@ == m.spec_uniform_bytes()
}

impl InternalMaterial {
    fn new<M: Material>(material: M) -> (r: Self)
        ensures
            records_material(r, material),
    {
        InternalMaterial {
            shader_id: material.shader_id(),
            texture_id: material.texture_id(),
            uniform_bytes: material.uniform_data(),
        }
    }
}

/// Keyed store of material records.
pub struct MaterialManager {
    pub materials: Vec<(String, InternalMaterial)>,
}

impl MaterialManager {
    /// Material keys are unique.
    pub open spec fn wf(self) -> bool {
        keys_unique(self.materials@)
    }

    /// An empty manager.
    pub fn new() -> (r: Self)
        ensures
            r.wf(),
            r.materials@.len() == 0,
    {
        MaterialManager { materials: Vec::new() }
    }

    /// Record `material` under `key`, replacing any previous record with
    /// that key.
    pub fn add<M: Material>(&mut self, key: &str, material: M)
        requires
            old(self).wf(),
        ensures
            final(self).wf(),
            key_has(final(self).materials@, key@),
            records_material(key_lookup(final(self).materials@, key@)->0, material),
            if key_has(old(self).materials@, key@) {
                final(self).materials@ == old(self).materials@.update(
                    key_idx(old(self).materials@, key@),
                    final(self).materials@[key_idx(old(self).materials@, key@)],
                )
            } else {
                final(self).materials@.drop_last() == old(self).materials@
            },
    {
        let k: String = key.to_owned();
        let im = InternalMaterial::new(material);
        let i = find_key(&self.materials, &k);
        proof {
            lemma_key_idx(self.materials@, k@);
        }
        if i < self.materials.len() {
            self.materials[i].1 = im;
            proof {
                assert(final(self).materials@ == old(self).materials@.update(
                    i as int,
                    final(self).materials@[i as int],
                ));
                lemma_key_idx_same_keys(old(self).materials@, final(self).materials@, k@);
            }
        } else {
            self.materials.push((k, im));
            proof {
                let s = final(self).materials@;
                let n = old(self).materials@.len() as int;
                assert(s.drop_last() == old(self).materials@);
                assert forall|j: int| 0 <= j < n implies (#[trigger] s[j]).0@ != key@ by {
                    assert(s.drop_last()[j] == s[j]);
                }
                lemma_key_idx(s, key@);
                assert(s[n].0@ == key@);
                assert(key_has(s, key@));
                assert(key_idx(s, key@) == n);
            }
        }
    }

    /// The shader id of the material stored under `key`, if any.
    pub fn get_shader_id(&self, key: &str) -> (r: Option<String>)
        ensures
            match key_lookup(self.materials@, key@) {
                Some(im) => r matches Some(s) && s@ == im.shader_id@,
                None => r is None,
            },
    {
        let k: String = key.to_owned();
        let i = find_key(&self.materials, &k);
        proof {
            lemma_key_idx(self.materials@, k@);
        }
        if i < self.materials.len() {
            Some(self.materials[i].1.shader_id.clone())
        } else {
            None
        }
    }

    /// The texture id of the material stored under `key`, if any.
    pub fn get_texture_id(&self, key: &str) -> (r: Option<String>)
        ensures
            match key_lookup(self.materials@, key@) {
                Some(im) => r matches Some(s) && s@ == im.texture_id@,
                None => r is None,
            },
    {
        let k: String = key.to_owned();
        let i = find_key(&self.materials, &k);
        proof {
            lemma_key_idx(self.materials@, k@);
        }
        if i < self.materials.len() {
            Some(self.materials[i].1.texture_id.clone())
        } else {
            None
        }
    }

    /// The uniform block bytes of the material stored under `key`, if any.
    pub fn get_uniform_data_bytes(&self, key: &str) -> (r: Option<Vec<u8>>)
        ensures
            match key_lookup(self.materials@, key@) {
                Some(im) => r matches Some(b) && b@ == im.uniform_bytes@,
                None => r is None,
            },
    {
        let k: String = key.to_owned();
        let i = find_key(&self.materials, &k);
        proof {
            lemma_key_idx(self.materials@, k@);
        }
        if i < self.materials.len() {
            Some(self.materials[i].1.uniform_bytes.clone())
        } else {
            None
        }
    }

    /// Shared access to the record stored under `key`.
    pub fn get_any(&self, key: &str) -> (r: Option<&InternalMaterial>)
        ensures
            match r {
                Some(im) => key_lookup(self.materials@, key@) == Some(*im),
                None => key_lookup(self.materials@, key@) is None,
            },
    {
        let k: String = key.to_owned();
        let i = find_key(&self.materials, &k);
        proof {
            lemma_key_idx(self.materials@, k@);
        }
        if i < self.materials.len() {
            Some(&self.materials[i].1)
        } else {
            None
        }
    }

    /// Exclusive access to the record stored under `key`, for in-place
    /// edits; the key itself cannot be changed through it.
    pub fn get_mut_any(&mut self, key: &str) -> (r: Option<&mut InternalMaterial>)
        requires
            old(self).wf(),
        ensures
            final(self).wf(),
            match r {
                Some(m) => {
                    &&& key_has(old(self).materials@, key@)
                    &&& *m == key_lookup(old(self).materials@, key@)->0
                    &&& final(self).materials@ == old(self).materials@.update(
                        key_idx(old(self).materials@, key@),
                        (
                            old(self).materials@[key_idx(old(self).materials@, key@)].0,
                            *final(m),
                        ),
                    )
                },
                None => {
                    &&& !key_has(old(self).materials@, key@)
                    &&& final(self).materials@ == old(self).materials@
                },
            },
    {
        let k: String = key.to_owned();
        let i = find_key(&self.materials, &k);
        proof {
            lemma_key_idx(self.materials@, k@);
        }
        if i < self.materials.len() {
            Some(&mut self.materials[i].1)
        } else {
            None
        }
    }
}

/// Uniform block of a [`SimpleMaterial`]: one color, stored as the bit
/// patterns of its three channels. The host interprets each lane as an IEEE
/// single-precision value; this crate only moves the bits.
pub struct Uniform {
    pub color: [u32; 3],
}

/// Byte image of a [`Uniform`] as a GPU uniform block: three color lanes
/// plus four bytes of tail padding, since uniform blocks with a three-lane
/// vector are padded to sixteen bytes.
pub open spec fn simple_uniform_bytes(u: Uniform) -> Seq<u8> {
    lanes_to_bytes(u.color@) + seq![0u8, 0u8, 0u8, 0u8]
}

/// Bit pattern of the default red channel (the value one).
pub const DEFAULT_COLOR_R_BITS: u32 = 0x3F800000;

/// Bit pattern of the default green channel (one fifth).
pub const DEFAULT_COLOR_G_BITS: u32 = 0x3E4CCCCD;

/// Bit pattern of the default blue channel (three tenths).
pub const DEFAULT_COLOR_B_BITS: u32 = 0x3E99999A;

/// The one built-in material kind: a single color over a texture.
pub struct SimpleMaterial {
    pub shader_id: String,
    pub texture_id: String,
    pub uniform: Uniform,
}

impl SimpleMaterial {
    /// A simple material over the given shader and texture, with the
    /// default color.
    pub fn new(shader_id: &str, texture_id: &str) -> (r: Self)
        ensures
            r.shader_id@ == shader_id@,
            r.texture_id@ == texture_id@,
            r.uniform.color@ == seq![
                DEFAULT_COLOR_R_BITS,
                DEFAULT_COLOR_G_BITS,
                DEFAULT_COLOR_B_BITS,
            ],
    {
        let r = SimpleMaterial {
            shader_id: shader_id.to_owned(),
            texture_id: texture_id.to_owned(),
            uniform: Uniform {
                color: [DEFAULT_COLOR_R_BITS, DEFAULT_COLOR_G_BITS, DEFAULT_COLOR_B_BITS],
            },
        };
        proof {
            assert(r.uniform.color@ =~= seq![
                DEFAULT_COLOR_R_BITS,
                DEFAULT_COLOR_G_BITS,
                DEFAULT_COLOR_B_BITS,
            ]);
        }
        r
    }
}

impl Material for SimpleMaterial {
    open spec fn spec_shader_id(&self) -> Seq<char> {
        self.shader_id@
    }

    open spec fn spec_texture_id(&self) -> Seq<char> {
        self.texture_id@
    }

    open spec fn spec_uniform_bytes(&self) -> Seq<u8> {
        simple_uniform_bytes(self.uniform)
    }

    fn shader_id(&self) -> (r: String) {
        self.shader_id.clone()
    }

    fn texture_id(&self) -> (r: String) {
        self.texture_id.clone()
    }

    fn uniform_data(&self) -> (r: Vec<u8>) {
        let mut lanes: Vec<u32> = Vec::new();
        lanes.push(self.uniform.color[0]);
        lanes.push(self.uniform.color[1]);
        lanes.push(self.uniform.color[2]);
        proof {
            assert(lanes@ =~= self.uniform.color@);
        }
        let mut out = lane_bytes(&lanes);
        out.push(0u8);
        out.push(0u8);
        out.push(0u8);
        out.push(0u8);
        proof {
            assert(out@ =~= simple_uniform_bytes(self.uniform));
        }
        out
    }
}

} // verus!
