use binding_model::bind_group::{
    BindGroupEntry, BindGroupError, BindingResource, BufferBinding,
};
use binding_model::binding::{
    BindGroupLayoutEntry, BindingType, ShaderStage, TextureComponentType, TextureFormat,
    TextureViewDimension, SHADER_STAGE_FRAGMENT, SHADER_STAGE_VERTEX,
};
use binding_model::hub::Hub;
use binding_model::layout::validate_bind_group_layout;
use binding_model::pipeline::PipelineLayoutError;

fn entry(binding: u32, ty: BindingType) -> BindGroupLayoutEntry {
    BindGroupLayoutEntry {
        binding,
        visibility: ShaderStage::from_bits(SHADER_STAGE_VERTEX | SHADER_STAGE_FRAGMENT),
        ty,
        multisampled: false,
        has_dynamic_offset: false,
        view_dimension: TextureViewDimension::D2,
        texture_component_type: TextureComponentType::Uint,
        storage_texture_format: TextureFormat::Rgba8Unorm,
    }
}

fn make_layout(hub: &mut Hub, entries: Vec<BindGroupLayoutEntry>, raw: u64) -> u64 {
    let contents = validate_bind_group_layout(&entries).unwrap();
    hub.register_bind_group_layout(7, contents, raw)
}

#[test]
fn registered_layout_exposes_its_declarations() {
    let mut hub = Hub::new();
    let id = make_layout(
        &mut hub,
        vec![
            entry(0, BindingType::UniformBuffer),
            entry(1, BindingType::Sampler),
            entry(2, BindingType::SampledTexture),
        ],
        100,
    );
    let layout = hub.get_bind_group_layout(id).unwrap();
    assert_eq!(layout.entry_count(), 3);
    assert_eq!(layout.get_entry(0).unwrap().ty, BindingType::UniformBuffer);
    assert_eq!(layout.get_entry(1).unwrap().ty, BindingType::Sampler);
    assert_eq!(layout.get_entry(2).unwrap().ty, BindingType::SampledTexture);
    assert!(layout.get_entry(3).is_none());
    assert_eq!(layout.raw, 100);
    assert_eq!(hub.bind_group_layout_ref_count(id), Some(1));
}

#[test]
fn pipeline_layout_over_the_maximum_is_rejected_with_the_length() {
    let mut hub = Hub::new();
    let l = make_layout(&mut hub, vec![entry(0, BindingType::UniformBuffer)], 100);
    let five = vec![l, l, l, l, l];
    assert_eq!(
        hub.create_pipeline_layout(7, &five, 200),
        Err(PipelineLayoutError::TooManyGroups(5))
    );
    assert_eq!(hub.bind_group_layout_ref_count(l), Some(1));
}

#[test]
fn pipeline_layout_at_the_maximum_succeeds_and_keeps_order() {
    let mut hub = Hub::new();
    let a = make_layout(&mut hub, vec![entry(0, BindingType::UniformBuffer)], 100);
    let b = make_layout(&mut hub, vec![entry(0, BindingType::Sampler)], 101);
    let ids = vec![a, b, a, b];
    let pl_id = hub.create_pipeline_layout(7, &ids, 200).unwrap();
    let pl = hub.get_pipeline_layout(pl_id).unwrap();
    assert_eq!(pl.group_count(), 4);
    assert_eq!(pl.group_id_at(0), a);
    assert_eq!(pl.group_id_at(1), b);
    assert_eq!(pl.group_id_at(2), a);
    assert_eq!(pl.group_id_at(3), b);
    assert_eq!(pl.raw, 200);
    // one reference per occurrence, plus the creator's own
    assert_eq!(hub.bind_group_layout_ref_count(a), Some(3));
    assert_eq!(hub.bind_group_layout_ref_count(b), Some(3));
}

#[test]
fn releasing_a_pipeline_layout_releases_its_layouts() {
    let mut hub = Hub::new();
    let a = make_layout(&mut hub, vec![entry(0, BindingType::UniformBuffer)], 100);
    let pl_id = hub.create_pipeline_layout(7, &vec![a, a], 200).unwrap();
    assert_eq!(hub.bind_group_layout_ref_count(a), Some(3));

    // the creator lets go of the layout; the pipeline layout keeps it alive
    assert!(hub.release_bind_group_layout(a).is_none());
    assert_eq!(hub.bind_group_layout_ref_count(a), Some(2));

    let rel = hub.release_pipeline_layout(pl_id).unwrap();
    assert_eq!(rel.layout.raw, 200);
    assert_eq!(rel.destroyed_layouts.len(), 1);
    assert_eq!(rel.destroyed_layouts[0].0, a);
    assert_eq!(rel.destroyed_layouts[0].1.raw, 100);
    assert!(hub.get_bind_group_layout(a).is_none());
    assert!(hub.get_pipeline_layout(pl_id).is_none());
}

#[test]
fn bind_group_type_mismatch_range_and_success() {
    let mut hub = Hub::new();
    let layout_id = make_layout(&mut hub, vec![entry(0, BindingType::UniformBuffer)], 100);
    let sampler_id = hub.register_sampler(300);
    let buffer_id = hub.register_buffer(301, 256);

    // a sampler resource for a uniform-buffer slot
    let sampler_entries = vec![BindGroupEntry {
        binding: 0,
        resource: BindingResource::Sampler(sampler_id),
    }];
    assert!(hub.check_resources(&sampler_entries));
    assert_eq!(
        hub.validate_bind_group(layout_id, &sampler_entries),
        Err(BindGroupError::WrongResourceKind(0))
    );

    // a buffer range past the buffer's extent
    let out_of_range = vec![BindGroupEntry {
        binding: 0,
        resource: BindingResource::Buffer(BufferBinding {
            buffer: buffer_id,
            offset: 128,
            size: 256,
        }),
    }];
    assert!(hub.check_resources(&out_of_range));
    assert_eq!(
        hub.validate_bind_group(layout_id, &out_of_range),
        Err(BindGroupError::OutOfRange(0))
    );

    // a correct, in-range buffer entry
    let good = vec![BindGroupEntry {
        binding: 0,
        resource: BindingResource::Buffer(BufferBinding {
            buffer: buffer_id,
            offset: 128,
            size: 128,
        }),
    }];
    assert!(hub.check_resources(&good));
    assert_eq!(hub.validate_bind_group(layout_id, &good), Ok(()));
    let group_id = hub.register_bind_group(7, layout_id, &good, 400);
    assert_eq!(hub.bind_group_ref_count(group_id), Some(1));
    let group = hub.get_bind_group(group_id).unwrap();
    assert_eq!(group.raw, 400);
    assert_eq!(group.layout_id, layout_id);
    assert_eq!(group.used.buffers, vec![buffer_id]);
}

#[test]
fn bind_group_unknown_slot_duplicate_and_missing() {
    let mut hub = Hub::new();
    let layout_id = make_layout(
        &mut hub,
        vec![
            entry(0, BindingType::UniformBuffer),
            entry(1, BindingType::Sampler),
        ],
        100,
    );
    let buffer_id = hub.register_buffer(301, 64);
    let sampler_id = hub.register_sampler(302);
    let buf_entry = |binding: u32| BindGroupEntry {
        binding,
        resource: BindingResource::Buffer(BufferBinding {
            buffer: buffer_id,
            offset: 0,
            size: 64,
        }),
    };

    assert_eq!(
        hub.validate_bind_group(layout_id, &vec![buf_entry(9)]),
        Err(BindGroupError::UnknownSlot(9))
    );
    assert_eq!(
        hub.validate_bind_group(layout_id, &vec![buf_entry(0), buf_entry(0)]),
        Err(BindGroupError::DuplicateBinding(0))
    );
    assert_eq!(
        hub.validate_bind_group(layout_id, &vec![buf_entry(0)]),
        Err(BindGroupError::BindingsNumMismatch(1, 2))
    );
    let full = vec![
        buf_entry(0),
        BindGroupEntry {
            binding: 1,
            resource: BindingResource::Sampler(sampler_id),
        },
    ];
    assert_eq!(hub.validate_bind_group(layout_id, &full), Ok(()));
}

#[test]
fn usage_record_lists_resources_in_entry_order() {
    let mut hub = Hub::new();
    let layout_id = make_layout(
        &mut hub,
        vec![
            entry(0, BindingType::UniformBuffer),
            entry(1, BindingType::Sampler),
            entry(2, BindingType::SampledTexture),
            entry(3, BindingType::StorageBuffer),
        ],
        100,
    );
    let buf_a = hub.register_buffer(301, 64);
    let buf_b = hub.register_buffer(302, 64);
    let samp = hub.register_sampler(303);
    let view = hub.register_texture_view(304);
    let entries = vec![
        BindGroupEntry {
            binding: 0,
            resource: BindingResource::Buffer(BufferBinding { buffer: buf_a, offset: 0, size: 64 }),
        },
        BindGroupEntry {
            binding: 1,
            resource: BindingResource::Sampler(samp),
        },
        BindGroupEntry {
            binding: 2,
            resource: BindingResource::TextureView(view),
        },
        BindGroupEntry {
            binding: 3,
            resource: BindingResource::Buffer(BufferBinding { buffer: buf_b, offset: 0, size: 32 }),
        },
    ];
    assert!(hub.check_resources(&entries));
    assert_eq!(hub.validate_bind_group(layout_id, &entries), Ok(()));
    let group_id = hub.register_bind_group(7, layout_id, &entries, 400);
    let group = hub.get_bind_group(group_id).unwrap();
    assert_eq!(group.used.buffers, vec![buf_a, buf_b]);
    assert_eq!(group.used.samplers, vec![samp]);
    assert_eq!(group.used.texture_views, vec![view]);
    assert_eq!(group.dynamic_count, 0);
}

#[test]
fn check_resources_spots_unregistered_identities() {
    let mut hub = Hub::new();
    let buffer_id = hub.register_buffer(301, 64);
    let present = vec![BindGroupEntry {
        binding: 0,
        resource: BindingResource::Buffer(BufferBinding { buffer: buffer_id, offset: 0, size: 1 }),
    }];
    assert!(hub.check_resources(&present));
    let absent = vec![BindGroupEntry {
        binding: 0,
        resource: BindingResource::Sampler(9999),
    }];
    assert!(!hub.check_resources(&absent));
}

#[test]
fn ref_count_round_trip_destroys_exactly_once() {
    let mut hub = Hub::new();
    let layout_id = make_layout(&mut hub, vec![entry(0, BindingType::UniformBuffer)], 100);
    let buffer_id = hub.register_buffer(301, 64);
    let entries = vec![BindGroupEntry {
        binding: 0,
        resource: BindingResource::Buffer(BufferBinding { buffer: buffer_id, offset: 0, size: 64 }),
    }];
    let group_id = hub.register_bind_group(7, layout_id, &entries, 400);
    assert_eq!(hub.bind_group_ref_count(group_id), Some(1));

    let n = 3;
    for _ in 0..n {
        hub.add_ref_bind_group(group_id);
    }
    assert_eq!(hub.bind_group_ref_count(group_id), Some(1 + n));

    // releasing n times leaves it alive and retrievable
    for _ in 0..n {
        assert!(hub.release_bind_group(group_id).is_none());
    }
    assert_eq!(hub.bind_group_ref_count(group_id), Some(1));
    assert!(hub.get_bind_group(group_id).is_some());

    // the (n + 1)-th release destroys it, exactly once
    let rel = hub.release_bind_group(group_id).unwrap();
    assert_eq!(rel.group.raw, 400);
    assert!(hub.get_bind_group(group_id).is_none());
    assert_eq!(hub.bind_group_ref_count(group_id), None);
    assert!(hub.release_bind_group(group_id).is_none());
    assert!(hub.get_bind_group(group_id).is_none());
}

#[test]
fn bind_group_keeps_its_layout_alive() {
    let mut hub = Hub::new();
    let layout_id = make_layout(&mut hub, vec![entry(0, BindingType::UniformBuffer)], 100);
    let buffer_id = hub.register_buffer(301, 64);
    let entries = vec![BindGroupEntry {
        binding: 0,
        resource: BindingResource::Buffer(BufferBinding { buffer: buffer_id, offset: 0, size: 64 }),
    }];
    let group_id = hub.register_bind_group(7, layout_id, &entries, 400);
    assert_eq!(hub.bind_group_layout_ref_count(layout_id), Some(2));

    // the creator lets go of the layout; the group still holds it
    assert!(hub.release_bind_group_layout(layout_id).is_none());
    assert_eq!(hub.bind_group_layout_ref_count(layout_id), Some(1));
    assert!(hub.get_bind_group_layout(layout_id).is_some());

    // destroying the group cascades into the layout
    let rel = hub.release_bind_group(group_id).unwrap();
    assert_eq!(rel.group.layout_id, layout_id);
    let layout = rel.layout.unwrap();
    assert_eq!(layout.raw, 100);
    assert!(hub.get_bind_group_layout(layout_id).is_none());
}

#[test]
fn dynamic_count_is_copied_into_the_group() {
    let mut hub = Hub::new();
    let mut dynamic_entry = entry(0, BindingType::UniformBuffer);
    dynamic_entry.has_dynamic_offset = true;
    let layout_id = make_layout(&mut hub, vec![dynamic_entry], 100);
    let buffer_id = hub.register_buffer(301, 64);
    let entries = vec![BindGroupEntry {
        binding: 0,
        resource: BindingResource::Buffer(BufferBinding { buffer: buffer_id, offset: 0, size: 64 }),
    }];
    let group_id = hub.register_bind_group(7, layout_id, &entries, 400);
    assert_eq!(hub.get_bind_group(group_id).unwrap().dynamic_count, 1);
}
