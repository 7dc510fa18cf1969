//! Texture decoding and texture lifecycle.
//!
//! A texture asset is an encoded image (PNG, JPEG, ...). The outside
//! decoder (trusted, named by [`image_decode`]) turns it into an RGBA8
//! pixel buffer with its dimensions; the materialized [`Texture`] keeps
//! exactly the bytes and extent the host uploads to the GPU, one
//! materialization per store generation.

use vstd::prelude::*;

use crate::LoadError;
use crate::store::AssetStore;
use crate::store::Completion;
use crate::store::Submission;
use crate::store::has_id;
use crate::store::load_post;
use crate::store::lookup;
use crate::store::spec_complete;
use crate::store::spec_get;
use crate::store::spec_poll;
use crate::store::first_eligible;
use crate::store::spec_bump;
use crate::store::views_of;

verus! {

/// A decoded image payload: RGBA8 pixels, row-major, four bytes per pixel.
pub struct ImageData {
    pub width: u32,
    pub height: u32,
    pub rgba: Vec<u8>,
}

/// What the outside image decoder produces from the given bytes: `None`
/// exactly when it rejects them, otherwise width, height and the RGBA8
/// buffer. Stated only by name: the image formats are the decoder's.
pub uninterp spec fn image_decode(bytes: Seq<u8>) -> Option<(u32, u32, Seq<u8>)>;

/// Relies on image::load_from_memory and DynamicImage::to_rgba8: encoded
/// image bytes decode into a width x height RGBA8 pixel buffer holding four
/// bytes per pixel, or are rejected; the outcome depends on the bytes
/// alone.
#[verifier::external_body]
fn image_to_rgba(bytes: &Vec<u8>) -> (r: Result<ImageData, LoadError>)
    ensures
        r is Ok <==> image_decode(bytes@) is Some,
        r matches Ok(img) ==> {
            &&& image_decode(bytes@) matches Some(t)
            &&& img.width == t.0
            &&& img.height == t.1
            &&& img.rgba@ == t.2
            &&& img.rgba@.len() == 4 * img.width * img.height
        },
        r matches Err(e) ==> e == LoadError::Decode,
{
    match image::load_from_memory(bytes.as_slice()) {
        Ok(img) => {
            let rgba = img.to_rgba8();
            let (width, height) = rgba.dimensions();
            Ok(ImageData { width, height, rgba: rgba.into_raw() })
        },
        Err(_) => Err(LoadError::Decode),
    }
}

/// Decode encoded image bytes into an RGBA8 payload; `Ok` exactly when the
/// outside decoder accepts the bytes.
pub fn decode_image(bytes: &Vec<u8>) -> (r: Result<ImageData, LoadError>)
    ensures
        r is Ok <==> image_decode(bytes@) is Some,
        r matches Ok(img) ==> {
            &&& image_decode(bytes@) matches Some(t)
            &&& img.width == t.0
            &&& img.height == t.1
            &&& img.rgba@ == t.2
            &&& img.rgba@.len() == 4 * img.width * img.height
        },
        r matches Err(e) ==> e == LoadError::Decode,
{
    image_to_rgba(bytes)
}

/// A materialized texture: the extent and pixel bytes behind the GPU
/// texture the host uploads. The slot generation in the store distinguishes
/// re-uploads.
pub struct Texture {
    pub width: u32,
    pub height: u32,
    pub rgba: Vec<u8>,
}

impl Texture {
    /// The texture holding a decoded image's pixels.
    pub fn from_image(img: ImageData) -> (r: Self)
        ensures
            r == (Texture { width: img.width, height: img.height, rgba: img.rgba }),
    {
        Texture { width: img.width, height: img.height, rgba: img.rgba }
    }
}

/// Payload-to-resource step for a finished texture decode.
pub open spec fn texture_result(r: Result<ImageData, LoadError>) -> Result<Texture, LoadError> {
    match r {
        Ok(img) => Ok(Texture { width: img.width, height: img.height, rgba: img.rgba }),
        Err(e) => Err(e),
    }
}

/// Texture registry: the lifecycle store for textures.
pub struct TextureAssets {
    pub store: AssetStore<Texture>,
}

impl TextureAssets {
    /// An empty registry.
    pub fn new() -> (r: Self)
        ensures
            r.store.wf(),
            r.store.slots@.len() == 0,
            r.store.last_reload == 0,
            r.store.frame_reloaded is None,
    {
        TextureAssets { store: AssetStore::new() }
    }

    /// Request texture `id`; see [`AssetStore::load`].
    pub fn load(&mut self, id: &str) -> (sub: Option<Submission>)
        requires
            old(self).store.wf(),
        ensures
            final(self).store.wf(),
            final(self).store.last_reload == old(self).store.last_reload,
            final(self).store.frame_reloaded == old(self).store.frame_reloaded,
            load_post(old(self).store.slots@, final(self).store.slots@, sub is Some, id@),
            sub matches Some(s) ==> {
                &&& s.id@ == id@
                &&& has_id(final(self).store.slots@, id@)
                &&& s.token == lookup(final(self).store.slots@, id@)->0.token
            },
    {
        self.store.load(id)
    }

    /// Per-frame lifecycle step; see [`AssetStore::hot_reload`]. A completed
    /// decode carries an [`ImageData`], which becomes the new [`Texture`].
    pub fn hot_reload(
        &mut self,
        changed: &Vec<String>,
        completion: Option<Completion<ImageData>>,
        now_ms: u64,
    ) -> (subs: Vec<Submission>)
        requires
            old(self).store.wf(),
            old(self).store.last_reload <= now_ms,
        ensures
            final(self).store.wf(),
            ({
                let ch = views_of(changed@);
                let polled = spec_poll(
                    old(self).store.slots@,
                    ch,
                    now_ms,
                    old(self).store.last_reload,
                );
                let done = match completion {
                    Some(c) => spec_complete(
                        polled.0,
                        Completion { id: c.id, token: c.token, result: texture_result(c.result) },
                    ),
                    None => (polled.0, None::<String>),
                };
                &&& final(self).store.slots@ == done.0
                &&& final(self).store.last_reload == polled.1
                &&& final(self).store.frame_reloaded == done.1
                &&& match first_eligible(
                    old(self).store.slots@,
                    ch,
                    now_ms,
                    old(self).store.last_reload,
                ) {
                    Some(k) => {
                        &&& subs@.len() == 1
                        &&& subs@[0].id@ == old(self).store.slots@[k].id@
                        &&& subs@[0].token == spec_bump(old(self).store.slots@[k].token)
                    },
                    None => subs@.len() == 0,
                }
            }),
    {
        let mapped: Option<Completion<Texture>> = match completion {
            Some(c) => Some(
                Completion {
                    id: c.id,
                    token: c.token,
                    result: match c.result {
                        Ok(img) => Ok(Texture::from_image(img)),
                        Err(e) => Err(e),
                    },
                },
            ),
            None => None,
        };
        self.store.hot_reload(changed, mapped, now_ms)
    }

    /// The texture for `id`, or `None` while it is unrequested or still on
    /// its first load.
    pub fn get(&self, id: &str) -> (r: Option<&Texture>)
        ensures
            match r {
                Some(x) => spec_get(self.store.slots@, id@) == Some(*x),
                None => spec_get(self.store.slots@, id@) is None,
            },
    {
        self.store.get(id)
    }

    /// The generation of the texture for `id`, if one is materialized.
    pub fn generation(&self, id: &str) -> (g: Option<u64>)
        ensures
            match lookup(self.store.slots@, id@) {
                Some(sl) => g == (if sl.res is Some {
                    Some(sl.generation)
                } else {
                    None::<u64>
                }),
                None => g is None,
            },
    {
        self.store.generation(id)
    }
}

} // verus!
