//! The handle table: every layout, pipeline layout and bind group lives here
//! under a fresh identity with a reference count, and is destroyed exactly
//! once, when its count falls to zero. Buffers, samplers and texture views
//! are registered here too, so bind group validation can read their extents.

use vstd::prelude::*;
use std::collections::HashMap;
use crate::bind_group::{
    bind_group_problem, build_usage_record, resources_present, used_buffers, used_samplers,
    used_views, validate_bind_group_entries, BindGroup, BindGroupEntry, BindGroupError,
    BindingResource, Buffer, Sampler, TextureView,
};
use crate::layout::{BindGroupLayout, LayoutContents};
use crate::pipeline::{
    group_list_new, group_list_push, PipelineLayout, PipelineLayoutError,
};
use crate::{
    BindGroupId, BindGroupLayoutId, BufferAddress, BufferId, DeviceId, PipelineLayoutId,
    SamplerId, TextureViewId, MAX_BIND_GROUPS,
};

verus! {

broadcast use vstd::std_specs::hash::group_hash_axioms;

/// One slot of the handle table: an owned object and its reference count.
#[derive(Clone, Debug)]
pub struct Counted<T> {
    pub value: T,
    pub count: u64,
}

/// Taking one more reference: the count of `id` grows by one; an absent
/// identity is left as it is.
pub open spec fn bump_ref<T>(m: Map<u64, Counted<T>>, id: u64) -> Map<u64, Counted<T>> {
    if m.contains_key(id) {
        m.insert(id, Counted { value: m[id].value, count: (m[id].count + 1) as u64 })
    } else {
        m
    }
}

/// Releasing one reference: the count of `id` shrinks by one, and the last
/// release removes the object; an absent identity is left as it is.
pub open spec fn drop_ref<T>(m: Map<u64, Counted<T>>, id: u64) -> Map<u64, Counted<T>> {
    if m.contains_key(id) {
        if m[id].count > 1 {
            m.insert(id, Counted { value: m[id].value, count: (m[id].count - 1) as u64 })
        } else {
            m.remove(id)
        }
    } else {
        m
    }
}

/// Taking one reference on each identity of `ids`, in order.
pub open spec fn bump_refs<T>(m: Map<u64, Counted<T>>, ids: Seq<u64>) -> Map<u64, Counted<T>>
    decreases ids.len(),
{
    if ids.len() == 0 {
        m
    } else {
        bump_ref(bump_refs(m, ids.drop_last()), ids.last())
    }
}

/// Releasing one reference on each identity of `ids`, in order.
pub open spec fn drop_refs<T>(m: Map<u64, Counted<T>>, ids: Seq<u64>) -> Map<u64, Counted<T>>
    decreases ids.len(),
{
    if ids.len() == 0 {
        m
    } else {
        drop_ref(drop_refs(m, ids.drop_last()), ids.last())
    }
}

/// The handle table shared by one device's binding objects.
pub struct Hub {
    pub next_id: u64,
    pub layouts: HashMap<BindGroupLayoutId, Counted<BindGroupLayout>>,
    pub pipeline_layouts: HashMap<PipelineLayoutId, Counted<PipelineLayout>>,
    pub bind_groups: HashMap<BindGroupId, Counted<BindGroup>>,
    pub buffers: HashMap<BufferId, Buffer>,
    pub samplers: HashMap<SamplerId, Sampler>,
    pub texture_views: HashMap<TextureViewId, TextureView>,
}

impl Hub {
    /// Well-formed: every identity handed out so far is below `next_id`, so
    /// new identities are fresh, and every live object holds at least one
    /// reference.
    pub open spec fn wf(self) -> bool {
        &&& forall|k: u64| #[trigger]
            self.layouts@.contains_key(k) ==> k < self.next_id && self.layouts@[k].count >= 1
        &&& forall|k: u64| #[trigger]
            self.pipeline_layouts@.contains_key(k) ==> k < self.next_id
                && self.pipeline_layouts@[k].count >= 1
        &&& forall|k: u64| #[trigger]
            self.bind_groups@.contains_key(k) ==> k < self.next_id && self.bind_groups@[k].count
                >= 1
        &&& forall|k: u64| #[trigger] self.buffers@.contains_key(k) ==> k < self.next_id
        &&& forall|k: u64| #[trigger] self.samplers@.contains_key(k) ==> k < self.next_id
        &&& forall|k: u64| #[trigger] self.texture_views@.contains_key(k) ==> k < self.next_id
    }

    /// An empty handle table.
    pub fn new() -> (h: Hub)
        ensures
            h.wf(),
            h.next_id == 1,
            h.layouts@ == Map::<u64, Counted<BindGroupLayout>>::empty(),
            h.pipeline_layouts@ == Map::<u64, Counted<PipelineLayout>>::empty(),
            h.bind_groups@ == Map::<u64, Counted<BindGroup>>::empty(),
            h.buffers@ == Map::<u64, Buffer>::empty(),
            h.samplers@ == Map::<u64, Sampler>::empty(),
            h.texture_views@ == Map::<u64, TextureView>::empty(),
    {
        Hub {
            next_id: 1,
            layouts: HashMap::new(),
            pipeline_layouts: HashMap::new(),
            bind_groups: HashMap::new(),
            buffers: HashMap::new(),
            samplers: HashMap::new(),
            texture_views: HashMap::new(),
        }
    }

    /// Registers a buffer resource under a fresh identity.
    pub fn register_buffer(&mut self, raw: u64, size: BufferAddress) -> (id: BufferId)
        requires
            old(self).wf(),
            old(self).next_id < u64::MAX,
        ensures
            final(self).wf(),
            !old(self).buffers@.contains_key(id),
            final(self).buffers@ == old(self).buffers@.insert(id, (Buffer { raw, size })),
            final(self).layouts@ == old(self).layouts@,
            final(self).pipeline_layouts@ == old(self).pipeline_layouts@,
            final(self).bind_groups@ == old(self).bind_groups@,
            final(self).samplers@ == old(self).samplers@,
            final(self).texture_views@ == old(self).texture_views@,
            final(self).next_id == old(self).next_id + 1,
    {
        let id = self.next_id;
        self.next_id = self.next_id + 1;
        self.buffers.insert(id, Buffer { raw, size });
        id
    }

    /// Registers a sampler resource under a fresh identity.
    pub fn register_sampler(&mut self, raw: u64) -> (id: SamplerId)
        requires
            old(self).wf(),
            old(self).next_id < u64::MAX,
        ensures
            final(self).wf(),
            !old(self).samplers@.contains_key(id),
            final(self).samplers@ == old(self).samplers@.insert(id, (Sampler { raw })),
            final(self).layouts@ == old(self).layouts@,
            final(self).pipeline_layouts@ == old(self).pipeline_layouts@,
            final(self).bind_groups@ == old(self).bind_groups@,
            final(self).buffers@ == old(self).buffers@,
            final(self).texture_views@ == old(self).texture_views@,
            final(self).next_id == old(self).next_id + 1,
    {
        let id = self.next_id;
        self.next_id = self.next_id + 1;
        self.samplers.insert(id, Sampler { raw });
        id
    }

    /// Registers a texture view resource under a fresh identity.
    pub fn register_texture_view(&mut self, raw: u64) -> (id: TextureViewId)
        requires
            old(self).wf(),
            old(self).next_id < u64::MAX,
        ensures
            final(self).wf(),
            !old(self).texture_views@.contains_key(id),
            final(self).texture_views@ == old(self).texture_views@.insert(id, (TextureView { raw })),
            final(self).layouts@ == old(self).layouts@,
            final(self).pipeline_layouts@ == old(self).pipeline_layouts@,
            final(self).bind_groups@ == old(self).bind_groups@,
            final(self).buffers@ == old(self).buffers@,
            final(self).samplers@ == old(self).samplers@,
            final(self).next_id == old(self).next_id + 1,
    {
        let id = self.next_id;
        self.next_id = self.next_id + 1;
        self.texture_views.insert(id, TextureView { raw });
        id
    }

    /// Registers a validated layout, paired with the native
    /// descriptor-set-layout handle the backend allocated for it, under a
    /// fresh identity with a reference count of one.
    pub fn register_bind_group_layout(
        &mut self,
        device_id: DeviceId,
        contents: LayoutContents,
        raw: u64,
    ) -> (id: BindGroupLayoutId)
        requires
            old(self).wf(),
            old(self).next_id < u64::MAX,
        ensures
            final(self).wf(),
            !old(self).layouts@.contains_key(id),
            final(self).layouts@.contains_key(id),
            final(self).layouts@ == old(self).layouts@.insert(id, final(self).layouts@[id]),
            final(self).layouts@[id].count == 1,
            final(self).layouts@[id].value.raw == raw,
            final(self).layouts@[id].value.device_id == device_id,
            final(self).layouts@[id].value.entries == contents.entries,
            final(self).layouts@[id].value.desc_counts == contents.desc_counts,
            final(self).layouts@[id].value.dynamic_count == contents.dynamic_count,
            final(self).pipeline_layouts@ == old(self).pipeline_layouts@,
            final(self).bind_groups@ == old(self).bind_groups@,
            final(self).buffers@ == old(self).buffers@,
            final(self).samplers@ == old(self).samplers@,
            final(self).texture_views@ == old(self).texture_views@,
            final(self).next_id == old(self).next_id + 1,
    {
        let id = self.next_id;
        self.next_id = self.next_id + 1;
        let layout = BindGroupLayout {
            raw,
            device_id,
            entries: contents.entries,
            desc_counts: contents.desc_counts,
            dynamic_count: contents.dynamic_count,
        };
        self.layouts.insert(id, Counted { value: layout, count: 1 });
        id
    }

    /// Builds a pipeline layout over the given bind group layouts, paired
    /// with the native pipeline-layout handle the backend allocated for it.
    /// A sequence longer than the maximum bind-group-set count is rejected
    /// with the supplied length and nothing changes; otherwise the new
    /// object is registered under a fresh identity with a reference count of
    /// one, holding one strong reference on each named layout (one per
    /// occurrence).
    pub fn create_pipeline_layout(
        &mut self,
        device_id: DeviceId,
        layout_ids: &Vec<BindGroupLayoutId>,
        raw: u64,
    ) -> (r: Result<PipelineLayoutId, PipelineLayoutError>)
        requires
            old(self).wf(),
            old(self).next_id < u64::MAX,
            forall|i: int|
                0 <= i < layout_ids@.len() ==> old(self).layouts@.contains_key(
                    #[trigger] layout_ids@[i],
                ),
            forall|k: u64| #[trigger]
                old(self).layouts@.contains_key(k) ==> old(self).layouts@[k].count
                    + MAX_BIND_GROUPS <= u64::MAX,
        ensures
            final(self).wf(),
            r is Ok <==> layout_ids@.len() <= MAX_BIND_GROUPS,
            match r {
                Ok(id) => {
                    &&& !old(self).pipeline_layouts@.contains_key(id)
                    &&& final(self).pipeline_layouts@.contains_key(id)
                    &&& final(self).pipeline_layouts@ == old(self).pipeline_layouts@.insert(
                        id,
                        final(self).pipeline_layouts@[id],
                    )
                    &&& final(self).pipeline_layouts@[id].count == 1
                    &&& final(self).pipeline_layouts@[id].value.raw == raw
                    &&& final(self).pipeline_layouts@[id].value.device_id == device_id
                    &&& final(self).pipeline_layouts@[id].value.group_ids() == layout_ids@
                    &&& final(self).layouts@ == bump_refs(old(self).layouts@, layout_ids@)
                    &&& final(self).next_id == old(self).next_id + 1
                },
                Err(e) => {
                    &&& e == PipelineLayoutError::TooManyGroups(layout_ids@.len() as usize)
                    &&& final(self).pipeline_layouts@ == old(self).pipeline_layouts@
                    &&& final(self).layouts@ == old(self).layouts@
                    &&& final(self).next_id == old(self).next_id
                },
            },
            final(self).bind_groups@ == old(self).bind_groups@,
            final(self).buffers@ == old(self).buffers@,
            final(self).samplers@ == old(self).samplers@,
            final(self).texture_views@ == old(self).texture_views@,
    {
        let n = layout_ids.len();
        if n > MAX_BIND_GROUPS {
            return Err(PipelineLayoutError::TooManyGroups(n));
        }
        let mut group_ids = group_list_new();
        let mut i: usize = 0;
        while i < n
            invariant
                i <= n,
                n == layout_ids@.len(),
                n <= MAX_BIND_GROUPS,
                forall|j: int|
                    0 <= j < layout_ids@.len() ==> old(self).layouts@.contains_key(
                        #[trigger] layout_ids@[j],
                    ),
                crate::pipeline::group_list_elems(group_ids) == layout_ids@.take(i as int),
                self.layouts@ == bump_refs(old(self).layouts@, layout_ids@.take(i as int)),
                self.layouts@.dom() == old(self).layouts@.dom(),
                forall|k: u64| #[trigger]
                    self.layouts@.contains_key(k) ==> self.layouts@[k].count + (n - i)
                        <= u64::MAX,
                self.wf(),
                self.next_id == old(self).next_id,
                self.pipeline_layouts@ == old(self).pipeline_layouts@,
                self.bind_groups@ == old(self).bind_groups@,
                self.buffers@ == old(self).buffers@,
                self.samplers@ == old(self).samplers@,
                self.texture_views@ == old(self).texture_views@,
            decreases n - i,
        {
            let id = layout_ids[i];
            group_list_push(&mut group_ids, id);
            let ghost before = self.layouts@;
            let c = self.layouts.remove(&id).unwrap();
            self.layouts.insert(id, Counted { value: c.value, count: c.count + 1 });
            proof {
                assert(self.layouts@ =~= bump_ref(before, id));
                assert(layout_ids@.take(i + 1int).drop_last() =~= layout_ids@.take(i as int));
                assert(layout_ids@.take(i + 1int).last() == layout_ids@[i as int]);
                assert(self.layouts@ == bump_refs(old(self).layouts@, layout_ids@.take(i + 1int)));
                assert(self.layouts@.dom() =~= before.dom());
            }
            i += 1;
        }
        proof {
            assert(layout_ids@.take(n as int) =~= layout_ids@);
        }
        let id = self.next_id;
        self.next_id = self.next_id + 1;
        let layout = PipelineLayout { raw, device_id, bind_group_layout_ids: group_ids };
        self.pipeline_layouts.insert(id, Counted { value: layout, count: 1 });
        Ok(id)
    }

    /// Whether every resource the entries name is registered here. Creation
    /// of a bind group demands this of its caller; an unregistered identity
    /// is a caller bug, not a validation outcome.
    pub fn check_resources(&self, entries: &Vec<BindGroupEntry>) -> (b: bool)
        ensures
            b == resources_present(self.buffers@, self.samplers@, self.texture_views@, entries@),
    {
        let mut i: usize = 0;
        while i < entries.len()
            invariant
                i <= entries.len(),
                forall|j: int|
                    0 <= j < i ==> match #[trigger] entries@[j].resource {
                        BindingResource::Buffer(b) => self.buffers@.contains_key(b.buffer),
                        BindingResource::Sampler(s) => self.samplers@.contains_key(s),
                        BindingResource::TextureView(v) => self.texture_views@.contains_key(v),
                    },
            decreases entries.len() - i,
        {
            let ok = match entries[i].resource {
                BindingResource::Buffer(b) => self.buffers.contains_key(&b.buffer),
                BindingResource::Sampler(s) => self.samplers.contains_key(&s),
                BindingResource::TextureView(v) => self.texture_views.contains_key(&v),
            };
            if !ok {
                proof {
                    assert(!resources_present(
                        self.buffers@,
                        self.samplers@,
                        self.texture_views@,
                        entries@,
                    ));
                }
                return false;
            }
            i += 1;
        }
        true
    }

    /// Validates a bind group description against a registered layout: the
    /// checks of `validate_bind_group_entries`, read-only against the handle
    /// table.
    pub fn validate_bind_group(
        &self,
        layout_id: BindGroupLayoutId,
        entries: &Vec<BindGroupEntry>,
    ) -> (r: Result<(), BindGroupError>)
        requires
            self.layouts@.contains_key(layout_id),
            resources_present(self.buffers@, self.samplers@, self.texture_views@, entries@),
        ensures
            r is Ok <==> bind_group_problem(
                self.layouts@[layout_id].value.entries@,
                self.buffers@,
                entries@,
            ) is None,
            match r {
                Ok(u) => true,
                Err(e) => Some(e) == bind_group_problem(
                    self.layouts@[layout_id].value.entries@,
                    self.buffers@,
                    entries@,
                ),
            },
    {
        let layout = self.layouts.get(&layout_id).unwrap();
        validate_bind_group_entries(&layout.value.entries, &self.buffers, entries)
    }

    /// Registers a bind group that passed validation, paired with the native
    /// descriptor set the backend allocated and wrote for it, under a fresh
    /// identity with a reference count of one. The new group copies its
    /// layout's dynamic-offset count, records the resources it references
    /// for the usage tracker, and holds one strong reference on its layout.
    pub fn register_bind_group(
        &mut self,
        device_id: DeviceId,
        layout_id: BindGroupLayoutId,
        entries: &Vec<BindGroupEntry>,
        raw: u64,
    ) -> (id: BindGroupId)
        requires
            old(self).wf(),
            old(self).next_id < u64::MAX,
            old(self).layouts@.contains_key(layout_id),
            old(self).layouts@[layout_id].count < u64::MAX,
            resources_present(
                old(self).buffers@,
                old(self).samplers@,
                old(self).texture_views@,
                entries@,
            ),
            bind_group_problem(
                old(self).layouts@[layout_id].value.entries@,
                old(self).buffers@,
                entries@,
            ) is None,
        ensures
            final(self).wf(),
            !old(self).bind_groups@.contains_key(id),
            final(self).bind_groups@.contains_key(id),
            final(self).bind_groups@ == old(self).bind_groups@.insert(
                id,
                final(self).bind_groups@[id],
            ),
            final(self).bind_groups@[id].count == 1,
            final(self).bind_groups@[id].value.raw == raw,
            final(self).bind_groups@[id].value.device_id == device_id,
            final(self).bind_groups@[id].value.layout_id == layout_id,
            final(self).bind_groups@[id].value.dynamic_count == old(self).layouts@[layout_id].value.dynamic_count,
            final(self).bind_groups@[id].value.used.buffers@ == used_buffers(entries@),
            final(self).bind_groups@[id].value.used.samplers@ == used_samplers(entries@),
            final(self).bind_groups@[id].value.used.texture_views@ == used_views(entries@),
            final(self).layouts@ == bump_ref(old(self).layouts@, layout_id),
            final(self).pipeline_layouts@ == old(self).pipeline_layouts@,
            final(self).buffers@ == old(self).buffers@,
            final(self).samplers@ == old(self).samplers@,
            final(self).texture_views@ == old(self).texture_views@,
            final(self).next_id == old(self).next_id + 1,
    {
        let c = self.layouts.remove(&layout_id).unwrap();
        let dynamic_count = c.value.dynamic_count;
        self.layouts.insert(layout_id, Counted { value: c.value, count: c.count + 1 });
        proof {
            assert(self.layouts@ =~= bump_ref(old(self).layouts@, layout_id));
        }
        let used = build_usage_record(entries);
        let id = self.next_id;
        self.next_id = self.next_id + 1;
        let group = BindGroup { raw, device_id, layout_id, used, dynamic_count };
        self.bind_groups.insert(id, Counted { value: group, count: 1 });
        id
    }

    /// Takes one more reference on a bind group layout.
    pub fn add_ref_bind_group_layout(&mut self, id: BindGroupLayoutId)
        requires
            old(self).wf(),
            old(self).layouts@.contains_key(id),
            old(self).layouts@[id].count < u64::MAX,
        ensures
            final(self).wf(),
            final(self).layouts@ == bump_ref(old(self).layouts@, id),
            final(self).pipeline_layouts@ == old(self).pipeline_layouts@,
            final(self).bind_groups@ == old(self).bind_groups@,
            final(self).buffers@ == old(self).buffers@,
            final(self).samplers@ == old(self).samplers@,
            final(self).texture_views@ == old(self).texture_views@,
            final(self).next_id == old(self).next_id,
    {
        let c = self.layouts.remove(&id).unwrap();
        self.layouts.insert(id, Counted { value: c.value, count: c.count + 1 });
        proof {
            assert(self.layouts@ =~= bump_ref(old(self).layouts@, id));
        }
    }

    /// Takes one more reference on a pipeline layout.
    pub fn add_ref_pipeline_layout(&mut self, id: PipelineLayoutId)
        requires
            old(self).wf(),
            old(self).pipeline_layouts@.contains_key(id),
            old(self).pipeline_layouts@[id].count < u64::MAX,
        ensures
            final(self).wf(),
            final(self).pipeline_layouts@ == bump_ref(old(self).pipeline_layouts@, id),
            final(self).layouts@ == old(self).layouts@,
            final(self).bind_groups@ == old(self).bind_groups@,
            final(self).buffers@ == old(self).buffers@,
            final(self).samplers@ == old(self).samplers@,
            final(self).texture_views@ == old(self).texture_views@,
            final(self).next_id == old(self).next_id,
    {
        let c = self.pipeline_layouts.remove(&id).unwrap();
        self.pipeline_layouts.insert(id, Counted { value: c.value, count: c.count + 1 });
        proof {
            assert(self.pipeline_layouts@ =~= bump_ref(old(self).pipeline_layouts@, id));
        }
    }

    /// Takes one more reference on a bind group.
    pub fn add_ref_bind_group(&mut self, id: BindGroupId)
        requires
            old(self).wf(),
            old(self).bind_groups@.contains_key(id),
            old(self).bind_groups@[id].count < u64::MAX,
        ensures
            final(self).wf(),
            final(self).bind_groups@ == bump_ref(old(self).bind_groups@, id),
            final(self).layouts@ == old(self).layouts@,
            final(self).pipeline_layouts@ == old(self).pipeline_layouts@,
            final(self).buffers@ == old(self).buffers@,
            final(self).samplers@ == old(self).samplers@,
            final(self).texture_views@ == old(self).texture_views@,
            final(self).next_id == old(self).next_id,
    {
        let c = self.bind_groups.remove(&id).unwrap();
        self.bind_groups.insert(id, Counted { value: c.value, count: c.count + 1 });
        proof {
            assert(self.bind_groups@ =~= bump_ref(old(self).bind_groups@, id));
        }
    }

    /// Releases one reference on a bind group layout. The last release
    /// destroys the object and returns it, so the caller can hand its native
    /// descriptor-set-layout back to the backend; releasing an unknown
    /// identity changes nothing.
    pub fn release_bind_group_layout(&mut self, id: BindGroupLayoutId) -> (r: Option<
        BindGroupLayout,
    >)
        requires
            old(self).wf(),
        ensures
            final(self).wf(),
            final(self).layouts@ == drop_ref(old(self).layouts@, id),
            r is Some <==> old(self).layouts@.contains_key(id) && old(self).layouts@[id].count
                == 1,
            match r {
                Some(l) => l == old(self).layouts@[id].value,
                None => true,
            },
            final(self).pipeline_layouts@ == old(self).pipeline_layouts@,
            final(self).bind_groups@ == old(self).bind_groups@,
            final(self).buffers@ == old(self).buffers@,
            final(self).samplers@ == old(self).samplers@,
            final(self).texture_views@ == old(self).texture_views@,
            final(self).next_id == old(self).next_id,
    {
        match self.layouts.remove(&id) {
            None => {
                proof {
                    assert(old(self).layouts@.remove(id) =~= old(self).layouts@);
                }
                None
            },
            Some(c) => {
                if c.count > 1 {
                    self.layouts.insert(id, Counted { value: c.value, count: c.count - 1 });
                    proof {
                        assert(self.layouts@ =~= drop_ref(old(self).layouts@, id));
                    }
                    None
                } else {
                    Some(c.value)
                }
            },
        }
    }

    /// Releases one reference on a bind group. The last release destroys the
    /// group, returns it with its usage record so the caller can free the
    /// native descriptor set and drop the tracker's holds, and releases the
    /// group's reference on its layout; a layout destroyed by that cascade is
    /// returned too. Releasing an unknown identity changes nothing.
    pub fn release_bind_group(&mut self, id: BindGroupId) -> (r: Option<BindGroupRelease>)
        requires
            old(self).wf(),
        ensures
            final(self).wf(),
            final(self).bind_groups@ == drop_ref(old(self).bind_groups@, id),
            r is Some <==> old(self).bind_groups@.contains_key(id) && old(self).bind_groups@[id].count == 1,
            match r {
                Some(rel) => {
                    &&& rel.group == old(self).bind_groups@[id].value
                    &&& final(self).layouts@ == drop_ref(
                        old(self).layouts@,
                        rel.group.layout_id,
                    )
                    &&& (rel.layout is Some <==> old(self).layouts@.contains_key(
                        rel.group.layout_id,
                    ) && old(self).layouts@[rel.group.layout_id].count == 1)
                    &&& match rel.layout {
                        Some(l) => l == old(self).layouts@[rel.group.layout_id].value,
                        None => true,
                    }
                },
                None => final(self).layouts@ == old(self).layouts@,
            },
            final(self).pipeline_layouts@ == old(self).pipeline_layouts@,
            final(self).buffers@ == old(self).buffers@,
            final(self).samplers@ == old(self).samplers@,
            final(self).texture_views@ == old(self).texture_views@,
            final(self).next_id == old(self).next_id,
    {
        match self.bind_groups.remove(&id) {
            None => {
                proof {
                    assert(old(self).bind_groups@.remove(id) =~= old(self).bind_groups@);
                }
                None
            },
            Some(c) => {
                if c.count > 1 {
                    self.bind_groups.insert(id, Counted { value: c.value, count: c.count - 1 });
                    proof {
                        assert(self.bind_groups@ =~= drop_ref(old(self).bind_groups@, id));
                    }
                    None
                } else {
                    let group = c.value;
                    let layout = self.release_bind_group_layout(group.layout_id);
                    Some(BindGroupRelease { group, layout })
                }
            },
        }
    }

    /// Releases one reference on a pipeline layout. The last release
    /// destroys the object, returns it so the caller can free the native
    /// pipeline layout, and releases its reference on each bind group layout
    /// it held, one per occurrence; the layouts destroyed by that cascade
    /// come back with their identities. Releasing an unknown identity
    /// changes nothing.
    pub fn release_pipeline_layout(&mut self, id: PipelineLayoutId) -> (r: Option<
        PipelineLayoutRelease,
    >)
        requires
            old(self).wf(),
        ensures
            final(self).wf(),
            final(self).pipeline_layouts@ == drop_ref(old(self).pipeline_layouts@, id),
            r is Some <==> old(self).pipeline_layouts@.contains_key(id) && old(self).pipeline_layouts@[id].count == 1,
            match r {
                Some(rel) => {
                    &&& rel.layout == old(self).pipeline_layouts@[id].value
                    &&& final(self).layouts@ == drop_refs(
                        old(self).layouts@,
                        old(self).pipeline_layouts@[id].value.group_ids(),
                    )
                    &&& forall|j: int|
                        0 <= j < rel.destroyed_layouts@.len() ==> old(self).layouts@.contains_key(
                            (#[trigger] rel.destroyed_layouts@[j]).0,
                        ) && rel.destroyed_layouts@[j].1 == old(self).layouts@[rel.destroyed_layouts@[j].0].value && !final(self).layouts@.contains_key(rel.destroyed_layouts@[j].0)
                    &&& forall|k: u64|
                        old(self).layouts@.contains_key(k) && !final(self).layouts@.contains_key(k) ==> exists|j: int|
                            0 <= j < rel.destroyed_layouts@.len() && (
                            #[trigger] rel.destroyed_layouts@[j]).0 == k
                },
                None => final(self).layouts@ == old(self).layouts@,
            },
            final(self).bind_groups@ == old(self).bind_groups@,
            final(self).buffers@ == old(self).buffers@,
            final(self).samplers@ == old(self).samplers@,
            final(self).texture_views@ == old(self).texture_views@,
            final(self).next_id == old(self).next_id,
    {
        match self.pipeline_layouts.remove(&id) {
            None => {
                proof {
                    assert(old(self).pipeline_layouts@.remove(id) =~= old(self).pipeline_layouts@);
                }
                None
            },
            Some(c) => {
                if c.count > 1 {
                    self.pipeline_layouts.insert(
                        id,
                        Counted { value: c.value, count: c.count - 1 },
                    );
                    proof {
                        assert(self.pipeline_layouts@ =~= drop_ref(
                            old(self).pipeline_layouts@,
                            id,
                        ));
                    }
                    None
                } else {
                    let pl = c.value;
                    let n = pl.group_count();
                    let ghost ids = pl.group_ids();
                    let ghost layouts0 = self.layouts@;
                    let mut destroyed: Vec<(BindGroupLayoutId, BindGroupLayout)> = Vec::new();
                    let mut i: usize = 0;
                    while i < n
                        invariant
                            i <= n,
                            n == ids.len(),
                            pl.group_ids() == ids,
                            self.wf(),
                            self.layouts@ == drop_refs(layouts0, ids.take(i as int)),
                            forall|k: u64| #[trigger]
                                self.layouts@.contains_key(k) ==> layouts0.contains_key(k)
                                    && self.layouts@[k].value == layouts0[k].value,
                            forall|j: int|
                                0 <= j < destroyed@.len() ==> layouts0.contains_key(
                                    (#[trigger] destroyed@[j]).0,
                                ) && destroyed@[j].1 == layouts0[destroyed@[j].0].value
                                    && !self.layouts@.contains_key(destroyed@[j].0),
                            forall|k: u64|
                                layouts0.contains_key(k) && !self.layouts@.contains_key(k)
                                    ==> exists|j: int|
                                    0 <= j < destroyed@.len() && (#[trigger] destroyed@[j]).0
                                        == k,
                            self.pipeline_layouts@ == old(self).pipeline_layouts@.remove(id),
                            self.bind_groups@ == old(self).bind_groups@,
                            self.buffers@ == old(self).buffers@,
                            self.samplers@ == old(self).samplers@,
                            self.texture_views@ == old(self).texture_views@,
                            self.next_id == old(self).next_id,
                        decreases n - i,
                    {
                        let ghost cur = self.layouts@;
                        let ghost destroyed0 = destroyed@;
                        let gid = pl.group_id_at(i);
                        let rel = self.release_bind_group_layout(gid);
                        match rel {
                            Some(l) => {
                                destroyed.push((gid, l));
                            },
                            None => {},
                        }
                        proof {
                            assert(ids.take(i + 1int).drop_last() =~= ids.take(i as int));
                            assert(ids.take(i + 1int).last() == ids[i as int]);
                            assert(self.layouts@ == drop_refs(layouts0, ids.take(i + 1int)));
                            assert forall|k: u64|
                                layouts0.contains_key(k) && !self.layouts@.contains_key(
                                    k,
                                ) implies exists|j: int|
                                0 <= j < destroyed@.len() && (#[trigger] destroyed@[j]).0
                                    == k by {
                                if cur.contains_key(k) {
                                    assert(k == gid);
                                    assert((destroyed@[destroyed@.len() - 1]).0 == k);
                                } else {
                                    let j = choose|j: int|
                                        0 <= j < destroyed0.len() && (
                                        #[trigger] destroyed0[j]).0 == k;
                                    assert((destroyed@[j]).0 == k);
                                }
                            }
                        }
                        i += 1;
                    }
                    proof {
                        assert(ids.take(n as int) =~= ids);
                        assert(self.pipeline_layouts@ =~= drop_ref(
                            old(self).pipeline_layouts@,
                            id,
                        ));
                    }
                    let ghost dseq = destroyed@;
                    let result = PipelineLayoutRelease { layout: pl, destroyed_layouts: destroyed };
                    proof {
                        assert(result.destroyed_layouts@ == dseq);
                        assert forall|k: u64|
                            old(self).layouts@.contains_key(k) && !self.layouts@.contains_key(
                                k,
                            ) implies exists|j: int|
                            0 <= j < result.destroyed_layouts@.len() && (
                            #[trigger] result.destroyed_layouts@[j]).0 == k by {
                            assert(layouts0.contains_key(k));
                            let j = choose|j: int|
                                0 <= j < dseq.len() && (#[trigger] dseq[j]).0 == k;
                            assert(0 <= j < result.destroyed_layouts@.len() && (
                            result.destroyed_layouts@[j]).0 == k);
                        }
                    }
                    Some(result)
                }
            },
        }
    }
}

impl Hub {
    /// Looks a bind group layout up by identity.
    pub fn get_bind_group_layout(&self, id: BindGroupLayoutId) -> (r: Option<&BindGroupLayout>)
        ensures
            match r {
                Some(l) => self.layouts@.contains_key(id) && *l == self.layouts@[id].value,
                None => !self.layouts@.contains_key(id),
            },
    {
        match self.layouts.get(&id) {
            Some(c) => Some(&c.value),
            None => None,
        }
    }

    /// Looks a pipeline layout up by identity.
    pub fn get_pipeline_layout(&self, id: PipelineLayoutId) -> (r: Option<&PipelineLayout>)
        ensures
            match r {
                Some(l) => self.pipeline_layouts@.contains_key(id) && *l
                    == self.pipeline_layouts@[id].value,
                None => !self.pipeline_layouts@.contains_key(id),
            },
    {
        match self.pipeline_layouts.get(&id) {
            Some(c) => Some(&c.value),
            None => None,
        }
    }

    /// Looks a bind group up by identity.
    pub fn get_bind_group(&self, id: BindGroupId) -> (r: Option<&BindGroup>)
        ensures
            match r {
                Some(g) => self.bind_groups@.contains_key(id) && *g
                    == self.bind_groups@[id].value,
                None => !self.bind_groups@.contains_key(id),
            },
    {
        match self.bind_groups.get(&id) {
            Some(c) => Some(&c.value),
            None => None,
        }
    }

    /// Looks a buffer up by identity.
    pub fn get_buffer(&self, id: BufferId) -> (r: Option<&Buffer>)
        ensures
            match r {
                Some(b) => self.buffers@.contains_key(id) && *b == self.buffers@[id],
                None => !self.buffers@.contains_key(id),
            },
    {
        self.buffers.get(&id)
    }

    /// The reference count of a bind group layout, when it is alive.
    pub fn bind_group_layout_ref_count(&self, id: BindGroupLayoutId) -> (r: Option<u64>)
        ensures
            match r {
                Some(c) => self.layouts@.contains_key(id) && c == self.layouts@[id].count,
                None => !self.layouts@.contains_key(id),
            },
    {
        match self.layouts.get(&id) {
            Some(c) => Some(c.count),
            None => None,
        }
    }

    /// The reference count of a pipeline layout, when it is alive.
    pub fn pipeline_layout_ref_count(&self, id: PipelineLayoutId) -> (r: Option<u64>)
        ensures
            match r {
                Some(c) => self.pipeline_layouts@.contains_key(id) && c
                    == self.pipeline_layouts@[id].count,
                None => !self.pipeline_layouts@.contains_key(id),
            },
    {
        match self.pipeline_layouts.get(&id) {
            Some(c) => Some(c.count),
            None => None,
        }
    }

    /// The reference count of a bind group, when it is alive.
    pub fn bind_group_ref_count(&self, id: BindGroupId) -> (r: Option<u64>)
        ensures
            match r {
                Some(c) => self.bind_groups@.contains_key(id) && c
                    == self.bind_groups@[id].count,
                None => !self.bind_groups@.contains_key(id),
            },
    {
        match self.bind_groups.get(&id) {
            Some(c) => Some(c.count),
            None => None,
        }
    }
}

/// Taking `n` references on `id`, one after the other. One step is exactly
/// what `add_ref_bind_group` and its siblings do to their table.
pub open spec fn bump_ref_n<T>(m: Map<u64, Counted<T>>, id: u64, n: nat) -> Map<u64, Counted<T>>
    decreases n,
{
    if n == 0 {
        m
    } else {
        bump_ref(bump_ref_n(m, id, (n - 1) as nat), id)
    }
}

/// Releasing `n` references on `id`, one after the other. One step is
/// exactly what `release_bind_group` and its siblings do to their table.
pub open spec fn drop_ref_n<T>(m: Map<u64, Counted<T>>, id: u64, n: nat) -> Map<u64, Counted<T>>
    decreases n,
{
    if n == 0 {
        m
    } else {
        drop_ref(drop_ref_n(m, id, (n - 1) as nat), id)
    }
}

/// Taking `n` references on a live identity raises its count by `n` and
/// changes nothing else.
pub proof fn lemma_bump_ref_n_counts<T>(m: Map<u64, Counted<T>>, id: u64, n: nat)
    requires
        m.contains_key(id),
        m[id].count + n <= u64::MAX,
    ensures
        bump_ref_n(m, id, n) == m.insert(
            id,
            (Counted { value: m[id].value, count: (m[id].count + n) as u64 }),
        ),
    decreases n,
{
    if n == 0 {
        assert(m.insert(id, Counted { value: m[id].value, count: (m[id].count + n) as u64 })
            =~= m);
    } else {
        lemma_bump_ref_n_counts(m, id, (n - 1) as nat);
        assert(bump_ref_n(m, id, n) =~= m.insert(
            id,
            Counted { value: m[id].value, count: (m[id].count + n) as u64 },
        ));
    }
}

/// Releasing `n` references on a live identity lowers its count by `n`
/// while `n` stays below the count, and removes the object as soon as `n`
/// reaches it — further releases change nothing more.
pub proof fn lemma_drop_ref_n_counts<T>(m: Map<u64, Counted<T>>, id: u64, n: nat)
    requires
        m.contains_key(id),
        m[id].count >= 1,
    ensures
        n < m[id].count ==> drop_ref_n(m, id, n) == m.insert(
            id,
            (Counted { value: m[id].value, count: (m[id].count - n) as u64 }),
        ),
        n >= m[id].count ==> drop_ref_n(m, id, n) == m.remove(id),
    decreases n,
{
    if n == 0 {
        assert(m.insert(id, Counted { value: m[id].value, count: (m[id].count - n) as u64 })
            =~= m);
    } else {
        lemma_drop_ref_n_counts(m, id, (n - 1) as nat);
        if n - 1 < m[id].count {
            let prev = drop_ref_n(m, id, (n - 1) as nat);
            if m[id].count - (n - 1) > 1 {
                assert(drop_ref(prev, id) =~= m.insert(
                    id,
                    Counted { value: m[id].value, count: (m[id].count - n) as u64 },
                ));
            } else {
                assert(drop_ref(prev, id) =~= m.remove(id));
            }
        } else {
            assert(!m.remove(id).contains_key(id));
            assert(drop_ref_n(m, id, n) == m.remove(id));
        }
    }
}

/// Releasing an identity that is not in the table, any number of times,
/// changes nothing.
pub proof fn lemma_drop_ref_n_absent<T>(m: Map<u64, Counted<T>>, id: u64, n: nat)
    requires
        !m.contains_key(id),
    ensures
        drop_ref_n(m, id, n) == m,
    decreases n,
{
    if n > 0 {
        lemma_drop_ref_n_absent(m, id, (n - 1) as nat);
    }
}

/// Reference-count round trip. On a table where `id` was just created (its
/// count is one), taking `n` more references and then releasing `n` times
/// returns the table to exactly its old state, with the object alive and
/// retrievable; releasing `n + 1` times removes the object, and any number
/// of further releases leaves the table without it — so the object is
/// destroyed exactly once and is inaccessible by identity thereafter.
pub proof fn lemma_ref_count_round_trip<T>(m: Map<u64, Counted<T>>, id: u64, n: nat)
    requires
        m.contains_key(id),
        m[id].count == 1,
        n + 1 <= u64::MAX,
    ensures
        drop_ref_n(bump_ref_n(m, id, n), id, n) == m,
        drop_ref_n(bump_ref_n(m, id, n), id, n + 1) == m.remove(id),
        !m.remove(id).contains_key(id),
        forall|k: nat| #[trigger] drop_ref_n(m.remove(id), id, k) == m.remove(id),
{
    lemma_bump_ref_n_counts(m, id, n);
    let bumped = bump_ref_n(m, id, n);
    lemma_drop_ref_n_counts(bumped, id, n);
    assert(drop_ref_n(bumped, id, n) =~= m);
    lemma_drop_ref_n_counts(bumped, id, n + 1);
    assert(bumped.remove(id) =~= m.remove(id));
    assert forall|k: nat| #[trigger] drop_ref_n(m.remove(id), id, k) == m.remove(id) by {
        lemma_drop_ref_n_absent(m.remove(id), id, k);
    }
}

/// What the last release of a bind group hands back: the destroyed group
/// and, when the cascade destroyed it too, the layout it was built against.
pub struct BindGroupRelease {
    pub group: BindGroup,
    pub layout: Option<BindGroupLayout>,
}

/// What the last release of a pipeline layout hands back: the destroyed
/// object and the bind group layouts, with their identities, that the
/// cascade destroyed.
pub struct PipelineLayoutRelease {
    pub layout: PipelineLayout,
    pub destroyed_layouts: Vec<(BindGroupLayoutId, BindGroupLayout)>,
}

} // verus!
