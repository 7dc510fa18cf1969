//! Shader source tracking.
//!
//! A shader asset is WGSL text; its materialized form is modeled by
//! [`GpuModule`], which records the source the host compiled the module
//! from. The registry republishes the id it rematerialized this frame so the
//! pipeline layer can rebuild affected pipelines.

use vstd::prelude::*;

use crate::LoadError;
use crate::store::AssetStore;
use crate::store::Completion;
use crate::store::Submission;
use crate::store::has_id;
use crate::store::load_post;
use crate::store::lookup;
use crate::store::spec_complete;
use crate::store::spec_get;
use crate::store::spec_poll;
use crate::store::first_eligible;
use crate::store::spec_bump;
use crate::store::views_of;

verus! {

/// WGSL shader text as read from a shader asset file.
pub struct WgslSource(pub String);

impl From<String> for WgslSource {
    fn from(value: String) -> (r: Self) {
        WgslSource(value)
    }
}

impl vstd::std_specs::convert::FromSpecImpl<String> for WgslSource {
    open spec fn obeys_from_spec() -> bool {
        true
    }

    open spec fn from_spec(v: String) -> Self {
        WgslSource(v)
    }
}

/// A compiled shader module, modeled by the source it was compiled from.
/// The slot generation in the store distinguishes recompilations.
pub struct GpuModule {
    pub source: String,
}

/// Payload-to-resource step for a finished shader decode.
pub open spec fn module_result(r: Result<String, LoadError>) -> Result<GpuModule, LoadError> {
    match r {
        Ok(s) => Ok(GpuModule { source: s }),
        Err(e) => Err(e),
    }
}

/// Shader registry: the lifecycle store for shader modules.
pub struct ShaderAssets {
    pub store: AssetStore<GpuModule>,
}

impl ShaderAssets {
    /// An empty registry.
    pub fn new() -> (r: Self)
        ensures
            r.store.wf(),
            r.store.slots@.len() == 0,
            r.store.last_reload == 0,
            r.store.frame_reloaded is None,
    {
        ShaderAssets { store: AssetStore::new() }
    }

    /// Request shader `id`; see [`AssetStore::load`].
    pub fn load(&mut self, id: &str) -> (sub: Option<Submission>)
        requires
            old(self).store.wf(),
        ensures
            final(self).store.wf(),
            final(self).store.last_reload == old(self).store.last_reload,
            final(self).store.frame_reloaded == old(self).store.frame_reloaded,
            load_post(old(self).store.slots@, final(self).store.slots@, sub is Some, id@),
            sub matches Some(s) ==> {
                &&& s.id@ == id@
                &&& has_id(final(self).store.slots@, id@)
                &&& s.token == lookup(final(self).store.slots@, id@)->0.token
            },
    {
        self.store.load(id)
    }

    /// Per-frame lifecycle step; see [`AssetStore::hot_reload`]. A completed
    /// decode carries the WGSL text, which becomes the new [`GpuModule`].
    pub fn hot_reload(
        &mut self,
        changed: &Vec<String>,
        completion: Option<Completion<String>>,
        now_ms: u64,
    ) -> (subs: Vec<Submission>)
        requires
            old(self).store.wf(),
            old(self).store.last_reload <= now_ms,
        ensures
            final(self).store.wf(),
            ({
                let ch = views_of(changed@);
                let polled = spec_poll(
                    old(self).store.slots@,
                    ch,
                    now_ms,
                    old(self).store.last_reload,
                );
                let done = match completion {
                    Some(c) => spec_complete(
                        polled.0,
                        Completion { id: c.id, token: c.token, result: module_result(c.result) },
                    ),
                    None => (polled.0, None::<String>),
                };
                &&& final(self).store.slots@ == done.0
                &&& final(self).store.last_reload == polled.1
                &&& final(self).store.frame_reloaded == done.1
                &&& match first_eligible(
                    old(self).store.slots@,
                    ch,
                    now_ms,
                    old(self).store.last_reload,
                ) {
                    Some(k) => {
                        &&& subs@.len() == 1
                        &&& subs@[0].id@ == old(self).store.slots@[k].id@
                        &&& subs@[0].token == spec_bump(old(self).store.slots@[k].token)
                    },
                    None => subs@.len() == 0,
                }
            }),
    {
        let mapped: Option<Completion<GpuModule>> = match completion {
            Some(c) => Some(
                Completion {
                    id: c.id,
                    token: c.token,
                    result: match c.result {
                        Ok(s) => Ok(GpuModule { source: s }),
                        Err(e) => Err(e),
                    },
                },
            ),
            None => None,
        };
        self.store.hot_reload(changed, mapped, now_ms)
    }

    /// Debounced change query for one id; see [`AssetStore::reloaded`].
    pub fn reloaded(&mut self, id: &str, changed: &Vec<String>, now_ms: u64) -> (r: bool)
        requires
            old(self).store.wf(),
            old(self).store.last_reload <= now_ms,
        ensures
            final(self).store.wf(),
            final(self).store.slots@ == old(self).store.slots@,
            final(self).store.frame_reloaded == old(self).store.frame_reloaded,
            if now_ms >= old(self).store.last_reload + crate::RELOAD_DEBOUNCE_MS {
                &&& final(self).store.last_reload == now_ms
                &&& r == views_of(changed@).contains(id@)
            } else {
                &&& final(self).store.last_reload == old(self).store.last_reload
                &&& !r
            },
    {
        self.store.reloaded(id, changed, now_ms)
    }

    /// The module for `id`, or `None` while it is unrequested or still on
    /// its first load.
    pub fn get(&self, id: &str) -> (r: Option<&GpuModule>)
        ensures
            match r {
                Some(x) => spec_get(self.store.slots@, id@) == Some(*x),
                None => spec_get(self.store.slots@, id@) is None,
            },
    {
        self.store.get(id)
    }

    /// The generation of the module for `id`, if one is materialized.
    pub fn generation(&self, id: &str) -> (g: Option<u64>)
        ensures
            match lookup(self.store.slots@, id@) {
                Some(sl) => g == (if sl.res is Some {
                    Some(sl.generation)
                } else {
                    None::<u64>
                }),
                None => g is None,
            },
    {
        self.store.generation(id)
    }

    /// The id whose module was rematerialized during the last `hot_reload`
    /// call, if any.
    pub fn frame_reloaded(&self) -> (r: &Option<String>)
        ensures
            r == self.store.frame_reloaded,
    {
        &self.store.frame_reloaded
    }
}

} // verus!
