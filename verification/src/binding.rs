//! Binding declarations: the description of one shader-visible slot and its
//! self-consistency validator.

use vstd::prelude::*;

verus! {

/// Bit for the vertex shader stage in a visibility mask.
pub const SHADER_STAGE_VERTEX: u32 = 1;

/// Bit for the fragment shader stage in a visibility mask.
pub const SHADER_STAGE_FRAGMENT: u32 = 2;

/// Bit for the compute shader stage in a visibility mask.
pub const SHADER_STAGE_COMPUTE: u32 = 4;

/// A mask of shader stages from which a binding is visible.
#[derive(Copy, Clone, Debug, Hash, PartialEq, Eq, Structural)]
pub struct ShaderStage {
    pub bits: u32,
}

impl ShaderStage {
    /// Builds a mask from raw bits.
    pub fn from_bits(bits: u32) -> (r: ShaderStage)
        ensures
            r.bits == bits,
    {
        ShaderStage { bits }
    }

    /// True when the mask names no stage at all.
    pub fn is_empty(&self) -> (r: bool)
        ensures
            r == (self.bits == 0),
    {
        self.bits == 0
    }

    /// True when every stage of `other` is also in `self`.
    pub fn contains(&self, other: ShaderStage) -> (r: bool)
        ensures
            r == (self.bits & other.bits == other.bits),
    {
        self.bits & other.bits == other.bits
    }
}

/// The kind of resource one slot may hold. Each variant has a fixed numeric
/// identity (see `code`) so that recorded API traces stay readable across
/// versions.
#[derive(Copy, Clone, Debug, Hash, Eq, PartialEq, Structural)]
pub enum BindingType {
    UniformBuffer,
    StorageBuffer,
    ReadonlyStorageBuffer,
    Sampler,
    ComparisonSampler,
    SampledTexture,
    ReadonlyStorageTexture,
    WriteonlyStorageTexture,
}

/// The stable numeric identity of each binding type.
pub open spec fn binding_type_code(ty: BindingType) -> u8 {
    match ty {
        BindingType::UniformBuffer => 0,
        BindingType::StorageBuffer => 1,
        BindingType::ReadonlyStorageBuffer => 2,
        BindingType::Sampler => 3,
        BindingType::ComparisonSampler => 4,
        BindingType::SampledTexture => 5,
        BindingType::ReadonlyStorageTexture => 6,
        BindingType::WriteonlyStorageTexture => 7,
    }
}

impl BindingType {
    /// The stable numeric identity of this variant.
    pub fn code(&self) -> (r: u8)
        ensures
            r == binding_type_code(*self),
    {
        match self {
            BindingType::UniformBuffer => 0,
            BindingType::StorageBuffer => 1,
            BindingType::ReadonlyStorageBuffer => 2,
            BindingType::Sampler => 3,
            BindingType::ComparisonSampler => 4,
            BindingType::SampledTexture => 5,
            BindingType::ReadonlyStorageTexture => 6,
            BindingType::WriteonlyStorageTexture => 7,
        }
    }

    /// Decodes a numeric identity back into a binding type; the inverse of
    /// `code` on the codes that exist.
    pub fn from_code(code: u8) -> (r: Option<BindingType>)
        ensures
            match r {
                Some(ty) => binding_type_code(ty) == code,
                None => code > 7,
            },
    {
        match code {
            0 => Some(BindingType::UniformBuffer),
            1 => Some(BindingType::StorageBuffer),
            2 => Some(BindingType::ReadonlyStorageBuffer),
            3 => Some(BindingType::Sampler),
            4 => Some(BindingType::ComparisonSampler),
            5 => Some(BindingType::SampledTexture),
            6 => Some(BindingType::ReadonlyStorageTexture),
            7 => Some(BindingType::WriteonlyStorageTexture),
            _ => None,
        }
    }
}

/// The dimensionality a texture view is sampled with.
#[derive(Copy, Clone, Debug, Hash, Eq, PartialEq, Structural)]
pub enum TextureViewDimension {
    D1,
    D2,
    D2Array,
    Cube,
    CubeArray,
    D3,
}

/// The component class a sampled texture yields to the shader.
#[derive(Copy, Clone, Debug, Hash, Eq, PartialEq, Structural)]
pub enum TextureComponentType {
    Float,
    Sint,
    Uint,
}

/// The texel format a storage texture is declared with. The binding model
/// carries the format through; it does not interpret it.
#[derive(Copy, Clone, Debug, Hash, Eq, PartialEq, Structural)]
pub enum TextureFormat {
    R8Unorm,
    Rg8Unorm,
    Rgba8Unorm,
    Rgba8UnormSrgb,
    Bgra8Unorm,
    R32Uint,
    Rg32Uint,
    Rgba32Uint,
}

/// The description of one shader-visible slot of a bind group layout.
#[derive(Copy, Clone, Debug, Hash, PartialEq, Eq, Structural)]
pub struct BindGroupLayoutEntry {
    pub binding: u32,
    pub visibility: ShaderStage,
    pub ty: BindingType,
    pub multisampled: bool,
    pub has_dynamic_offset: bool,
    pub view_dimension: TextureViewDimension,
    pub texture_component_type: TextureComponentType,
    pub storage_texture_format: TextureFormat,
}

/// A way one binding declaration can be self-inconsistent.
#[derive(Copy, Clone, Debug, PartialEq, Eq, Structural)]
pub enum BindGroupLayoutEntryError {
    NoVisibility,
    UnexpectedHasDynamicOffset,
    UnexpectedMultisampled,
}

/// True when the binding type may carry a per-draw dynamic offset.
pub open spec fn dynamic_offset_allowed(ty: BindingType) -> bool {
    ty == BindingType::UniformBuffer || ty == BindingType::StorageBuffer
}

/// What validating one declaration returns: the first broken rule, checked in
/// the order visibility, dynamic offset, multisampling.
pub open spec fn validate_decl(e: BindGroupLayoutEntry) -> Result<(), BindGroupLayoutEntryError> {
    if e.visibility.bits == 0 {
        Err(BindGroupLayoutEntryError::NoVisibility)
    } else if e.has_dynamic_offset && !dynamic_offset_allowed(e.ty) {
        Err(BindGroupLayoutEntryError::UnexpectedHasDynamicOffset)
    } else if e.multisampled && e.ty != BindingType::SampledTexture {
        Err(BindGroupLayoutEntryError::UnexpectedMultisampled)
    } else {
        Ok(())
    }
}

impl BindGroupLayoutEntry {
    /// Checks the declaration's self-consistency; the first broken rule wins.
    pub fn validate(&self) -> (r: Result<(), BindGroupLayoutEntryError>)
        ensures
            r == validate_decl(*self),
    {
        if self.visibility.is_empty() {
            return Err(BindGroupLayoutEntryError::NoVisibility);
        }
        match self.ty {
            BindingType::UniformBuffer | BindingType::StorageBuffer => {}
            _ => {
                if self.has_dynamic_offset {
                    return Err(BindGroupLayoutEntryError::UnexpectedHasDynamicOffset);
                }
            }
        }
        match self.ty {
            BindingType::SampledTexture => {}
            _ => {
                if self.multisampled {
                    return Err(BindGroupLayoutEntryError::UnexpectedMultisampled);
                }
            }
        }
        Ok(())
    }
}

/// A declaration whose visibility mask is empty fails with the no-visibility
/// error, whatever its other fields hold.
pub proof fn lemma_no_visibility_rejected(e: BindGroupLayoutEntry)
    requires
        e.visibility.bits == 0,
    ensures
        validate_decl(e) == Err::<(), BindGroupLayoutEntryError>(
            BindGroupLayoutEntryError::NoVisibility,
        ),
{
}

/// A visible declaration that asks for a dynamic offset on a sampler,
/// comparison sampler, sampled texture or storage texture fails with the
/// dynamic-offset error. (With an empty visibility mask the no-visibility
/// error wins instead.)
pub proof fn lemma_dynamic_offset_rejected(e: BindGroupLayoutEntry)
    requires
        e.visibility.bits != 0,
        e.has_dynamic_offset,
        e.ty == BindingType::Sampler || e.ty == BindingType::ComparisonSampler || e.ty
            == BindingType::SampledTexture || e.ty == BindingType::ReadonlyStorageTexture || e.ty
            == BindingType::WriteonlyStorageTexture,
    ensures
        validate_decl(e) == Err::<(), BindGroupLayoutEntryError>(
            BindGroupLayoutEntryError::UnexpectedHasDynamicOffset,
        ),
{
}

/// A visible declaration that asks for multisampling on anything but a
/// sampled texture fails with the multisampled error. (With an empty
/// visibility mask, or with a dynamic offset on a type that refuses one, an
/// earlier rule wins instead.)
pub proof fn lemma_multisampled_rejected(e: BindGroupLayoutEntry)
    requires
        e.visibility.bits != 0,
        e.has_dynamic_offset ==> dynamic_offset_allowed(e.ty),
        e.multisampled,
        e.ty != BindingType::SampledTexture,
    ensures
        validate_decl(e) == Err::<(), BindGroupLayoutEntryError>(
            BindGroupLayoutEntryError::UnexpectedMultisampled,
        ),
{
}

} // verus!
