//! A verified resource-binding model for a backend-agnostic GPU API layer.
//!
//! Shader-visible resources (buffers, samplers, texture views) are declared
//! per slot, grouped into bind group layouts, referenced by pipeline layouts,
//! and instantiated as bind groups whose entries are validated against the
//! layout they target. Objects live in a reference-counted handle table; a
//! native backend object (descriptor set, descriptor-set layout, pipeline
//! layout) is carried through as an opaque handle that the caller obtains
//! from its backend between validation and registration.

use vstd::prelude::*;

pub mod binding;
pub mod layout;
pub mod pipeline;
pub mod bind_group;
pub mod hub;

verus! {

/// The largest number of bind group layouts one pipeline layout may hold:
/// bind-group set count is a hardware-limited resource.
pub const MAX_BIND_GROUPS: usize = 4;

/// Identity of a device in the caller's handle space.
pub type DeviceId = u64;

/// Identity of a bind group layout in the handle table.
pub type BindGroupLayoutId = u64;

/// Identity of a pipeline layout in the handle table.
pub type PipelineLayoutId = u64;

/// Identity of a bind group in the handle table.
pub type BindGroupId = u64;

/// Identity of a buffer resource.
pub type BufferId = u64;

/// Identity of a sampler resource.
pub type SamplerId = u64;

/// Identity of a texture view resource.
pub type TextureViewId = u64;

/// A byte offset or extent within a buffer.
pub type BufferAddress = u64;

/// A byte size of a buffer range.
pub type BufferSize = u64;

} // verus!
