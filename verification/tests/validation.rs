use binding_model::binding::{
    BindGroupLayoutEntry, BindGroupLayoutEntryError, BindingType, ShaderStage,
    TextureComponentType, TextureFormat, TextureViewDimension, SHADER_STAGE_COMPUTE,
    SHADER_STAGE_FRAGMENT, SHADER_STAGE_VERTEX,
};
use binding_model::layout::{validate_bind_group_layout, BindGroupLayoutError, DescriptorCounts};

fn entry(binding: u32, visibility_bits: u32, ty: BindingType) -> BindGroupLayoutEntry {
    BindGroupLayoutEntry {
        binding,
        visibility: ShaderStage::from_bits(visibility_bits),
        ty,
        multisampled: false,
        has_dynamic_offset: false,
        view_dimension: TextureViewDimension::D2,
        texture_component_type: TextureComponentType::Uint,
        storage_texture_format: TextureFormat::Rgba8Unorm,
    }
}

#[test]
fn no_visibility_rejected_whatever_else_holds() {
    for ty in [
        BindingType::UniformBuffer,
        BindingType::Sampler,
        BindingType::SampledTexture,
        BindingType::WriteonlyStorageTexture,
    ] {
        let mut e = entry(0, 0, ty);
        assert_eq!(e.validate(), Err(BindGroupLayoutEntryError::NoVisibility));
        e.multisampled = true;
        e.has_dynamic_offset = true;
        assert_eq!(e.validate(), Err(BindGroupLayoutEntryError::NoVisibility));
    }
}

#[test]
fn dynamic_offset_rejected_on_non_buffer_types() {
    for ty in [
        BindingType::Sampler,
        BindingType::ComparisonSampler,
        BindingType::SampledTexture,
        BindingType::ReadonlyStorageTexture,
        BindingType::WriteonlyStorageTexture,
    ] {
        let mut e = entry(0, SHADER_STAGE_VERTEX, ty);
        e.has_dynamic_offset = true;
        assert_eq!(
            e.validate(),
            Err(BindGroupLayoutEntryError::UnexpectedHasDynamicOffset)
        );
    }
}

#[test]
fn dynamic_offset_rejected_on_readonly_storage_buffer() {
    let mut e = entry(0, SHADER_STAGE_COMPUTE, BindingType::ReadonlyStorageBuffer);
    e.has_dynamic_offset = true;
    assert_eq!(
        e.validate(),
        Err(BindGroupLayoutEntryError::UnexpectedHasDynamicOffset)
    );
}

#[test]
fn dynamic_offset_accepted_on_uniform_and_storage_buffers() {
    for ty in [BindingType::UniformBuffer, BindingType::StorageBuffer] {
        let mut e = entry(0, SHADER_STAGE_FRAGMENT, ty);
        e.has_dynamic_offset = true;
        assert_eq!(e.validate(), Ok(()));
    }
}

#[test]
fn multisampled_rejected_off_sampled_texture() {
    for ty in [
        BindingType::UniformBuffer,
        BindingType::StorageBuffer,
        BindingType::ReadonlyStorageBuffer,
        BindingType::Sampler,
        BindingType::ComparisonSampler,
        BindingType::ReadonlyStorageTexture,
        BindingType::WriteonlyStorageTexture,
    ] {
        let mut e = entry(0, SHADER_STAGE_VERTEX, ty);
        e.multisampled = true;
        assert_eq!(
            e.validate(),
            Err(BindGroupLayoutEntryError::UnexpectedMultisampled)
        );
    }
}

#[test]
fn multisampled_accepted_on_sampled_texture() {
    let mut e = entry(0, SHADER_STAGE_FRAGMENT, BindingType::SampledTexture);
    e.multisampled = true;
    assert_eq!(e.validate(), Ok(()));
}

#[test]
fn earlier_rule_wins_over_later_one() {
    let mut e = entry(0, SHADER_STAGE_VERTEX, BindingType::Sampler);
    e.has_dynamic_offset = true;
    e.multisampled = true;
    assert_eq!(
        e.validate(),
        Err(BindGroupLayoutEntryError::UnexpectedHasDynamicOffset)
    );
}

#[test]
fn binding_type_codes_are_stable() {
    let all = [
        BindingType::UniformBuffer,
        BindingType::StorageBuffer,
        BindingType::ReadonlyStorageBuffer,
        BindingType::Sampler,
        BindingType::ComparisonSampler,
        BindingType::SampledTexture,
        BindingType::ReadonlyStorageTexture,
        BindingType::WriteonlyStorageTexture,
    ];
    for (i, ty) in all.iter().enumerate() {
        assert_eq!(ty.code(), i as u8);
        assert_eq!(BindingType::from_code(i as u8), Some(*ty));
    }
    assert_eq!(BindingType::from_code(8), None);
    assert_eq!(BindingType::from_code(255), None);
}

#[test]
fn shader_stage_masks() {
    assert!(ShaderStage::from_bits(0).is_empty());
    let vf = ShaderStage::from_bits(SHADER_STAGE_VERTEX | SHADER_STAGE_FRAGMENT);
    assert!(!vf.is_empty());
    assert!(vf.contains(ShaderStage::from_bits(SHADER_STAGE_VERTEX)));
    assert!(!vf.contains(ShaderStage::from_bits(SHADER_STAGE_COMPUTE)));
}

#[test]
fn distinct_slots_accepted_duplicate_slot_rejected() {
    let good = vec![
        entry(0, SHADER_STAGE_VERTEX, BindingType::UniformBuffer),
        entry(1, SHADER_STAGE_FRAGMENT, BindingType::Sampler),
        entry(2, SHADER_STAGE_FRAGMENT, BindingType::SampledTexture),
    ];
    let contents = validate_bind_group_layout(&good).unwrap();
    assert_eq!(contents.entries.len(), 3);

    let bad = vec![
        entry(0, SHADER_STAGE_VERTEX, BindingType::UniformBuffer),
        entry(1, SHADER_STAGE_FRAGMENT, BindingType::Sampler),
        entry(1, SHADER_STAGE_FRAGMENT, BindingType::SampledTexture),
    ];
    assert_eq!(
        validate_bind_group_layout(&bad).err(),
        Some(BindGroupLayoutError::ConflictBinding(1))
    );
}

#[test]
fn entry_failure_is_reported_with_its_slot() {
    let entries = vec![
        entry(0, SHADER_STAGE_VERTEX, BindingType::UniformBuffer),
        entry(5, 0, BindingType::Sampler),
    ];
    assert_eq!(
        validate_bind_group_layout(&entries).err(),
        Some(BindGroupLayoutError::Entry(
            5,
            BindGroupLayoutEntryError::NoVisibility
        ))
    );
}

#[test]
fn first_entry_failure_wins() {
    let mut dynamic_sampler = entry(1, SHADER_STAGE_VERTEX, BindingType::Sampler);
    dynamic_sampler.has_dynamic_offset = true;
    let entries = vec![dynamic_sampler, entry(2, 0, BindingType::UniformBuffer)];
    assert_eq!(
        validate_bind_group_layout(&entries).err(),
        Some(BindGroupLayoutError::Entry(
            1,
            BindGroupLayoutEntryError::UnexpectedHasDynamicOffset
        ))
    );
}

#[test]
fn descriptor_demand_counts_each_class() {
    let mut dynamic_uniform = entry(3, SHADER_STAGE_VERTEX, BindingType::UniformBuffer);
    dynamic_uniform.has_dynamic_offset = true;
    let entries = vec![
        entry(0, SHADER_STAGE_VERTEX, BindingType::UniformBuffer),
        entry(1, SHADER_STAGE_FRAGMENT, BindingType::StorageBuffer),
        entry(2, SHADER_STAGE_FRAGMENT, BindingType::ReadonlyStorageBuffer),
        dynamic_uniform,
        entry(4, SHADER_STAGE_FRAGMENT, BindingType::Sampler),
        entry(5, SHADER_STAGE_FRAGMENT, BindingType::ComparisonSampler),
        entry(6, SHADER_STAGE_FRAGMENT, BindingType::SampledTexture),
        entry(7, SHADER_STAGE_COMPUTE, BindingType::ReadonlyStorageTexture),
        entry(8, SHADER_STAGE_COMPUTE, BindingType::WriteonlyStorageTexture),
    ];
    let contents = validate_bind_group_layout(&entries).unwrap();
    assert_eq!(
        contents.desc_counts,
        DescriptorCounts {
            uniform_buffers: 2,
            storage_buffers: 2,
            samplers: 2,
            sampled_textures: 1,
            storage_textures: 2,
        }
    );
    assert_eq!(contents.dynamic_count, 1);
}

#[test]
fn empty_layout_is_accepted() {
    let contents = validate_bind_group_layout(&vec![]).unwrap();
    assert_eq!(contents.entries.len(), 0);
    assert_eq!(contents.dynamic_count, 0);
}
