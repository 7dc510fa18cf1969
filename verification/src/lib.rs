//! Asset hot-reload and GPU resource lifecycle engine.
//!
//! A rendering host loads shader, mesh and texture sources from disk, decodes
//! them on background workers, and materializes GPU objects on the main
//! thread, replacing them when the backing file changes. This crate holds the
//! verified core of that engine: the per-asset lifecycle state machine with
//! debounced change handling (`store`), the decoders for geometry and image
//! payloads (`mesh`, `texture`), shader source tracking (`shader`), material
//! records (`material`), and the per-frame instance batching and draw-call
//! selection engine (`model`).
//!
//! Everything that talks to the operating system or to a GPU device stays
//! outside: the host reads files, runs worker threads and owns the device,
//! and feeds plain values (change notifications, completed decode results,
//! timestamps) into the state machines here, then executes the decisions
//! (jobs to submit, buffers to upload, draws to issue) that they return.

use vstd::prelude::*;

pub mod buffer;
pub mod keyed;
pub mod material;
pub mod mesh;
pub mod model;
pub mod shader;
pub mod store;
pub mod texture;

verus! {

/// Minimum interval between two accepted reload actions for one store,
/// in milliseconds. Duplicate change events inside the window collapse
/// into a single action.
pub const RELOAD_DEBOUNCE_MS: u64 = 200;

/// Why a background decode job failed.
///
/// Both outcomes are recoverable: the store marks the asset id as eligible
/// for a retry and keeps whatever object was materialized before.
#[derive(Clone, Copy, Debug, PartialEq, Eq, Structural)]
pub enum LoadError {
    /// The asset id has no backing file.
    NotFound,
    /// The backing file exists but its content does not decode.
    Decode,
}

} // verus!
