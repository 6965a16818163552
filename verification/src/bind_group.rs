//! Bind groups: concrete resources bound to the slots of one bind group
//! layout, validated entry-by-entry against the layout's declarations.

use vstd::prelude::*;
use std::collections::HashMap;
use crate::binding::{BindGroupLayoutEntry, BindingType};
use crate::{BindGroupLayoutId, BufferAddress, BufferId, BufferSize, DeviceId, SamplerId, TextureViewId};

verus! {

broadcast use vstd::std_specs::hash::group_hash_axioms;

/// A buffer resource bound over a byte range.
#[derive(Copy, Clone, Debug, Hash, PartialEq, Eq, Structural)]
pub struct BufferBinding {
    pub buffer: BufferId,
    pub offset: BufferAddress,
    pub size: BufferSize,
}

/// One concrete resource a slot can be filled with.
#[derive(Copy, Clone, Debug, Hash, PartialEq, Eq, Structural)]
pub enum BindingResource {
    Buffer(BufferBinding),
    Sampler(SamplerId),
    TextureView(TextureViewId),
}

/// One slot index paired with the resource to bind there.
#[derive(Copy, Clone, Debug, Hash, PartialEq, Eq, Structural)]
pub struct BindGroupEntry {
    pub binding: u32,
    pub resource: BindingResource,
}

/// The description a caller hands in to create a bind group: the layout to
/// instantiate and one entry per declared slot.
#[derive(Clone, Debug)]
pub struct BindGroupDescriptor {
    pub label: Option<String>,
    pub layout: BindGroupLayoutId,
    pub entries: Vec<BindGroupEntry>,
}

/// A buffer resource: its opaque native handle and its byte extent.
#[derive(Copy, Clone, Debug, PartialEq, Eq, Structural)]
pub struct Buffer {
    pub raw: u64,
    pub size: BufferAddress,
}

/// A sampler resource: its opaque native handle.
#[derive(Copy, Clone, Debug, PartialEq, Eq, Structural)]
pub struct Sampler {
    pub raw: u64,
}

/// A texture view resource: its opaque native handle.
#[derive(Copy, Clone, Debug, PartialEq, Eq, Structural)]
pub struct TextureView {
    pub raw: u64,
}

/// A way a bind group description can be rejected. `BindingsNumMismatch`
/// reports an unfilled required slot: once every entry names a distinct,
/// declared slot, fewer entries than declarations means some declaration
/// received none.
#[derive(Copy, Clone, Debug, PartialEq, Eq, Structural)]
pub enum BindGroupError {
    UnknownSlot(u32),
    DuplicateBinding(u32),
    WrongResourceKind(u32),
    OutOfRange(u32),
    BindingsNumMismatch(usize, usize),
}

/// Which buffers, samplers and texture views a bind group references, in
/// entry order, for the usage tracker.
#[derive(Clone, Debug)]
pub struct UsageRecord {
    pub buffers: Vec<BufferId>,
    pub samplers: Vec<SamplerId>,
    pub texture_views: Vec<TextureViewId>,
}

/// A bind group: the opaque native descriptor set written for it, the layout
/// it instantiates, the owning device, the resources it holds for hazard
/// tracking, and the dynamic-offset count copied from its layout.
#[derive(Clone, Debug)]
pub struct BindGroup {
    pub raw: u64,
    pub device_id: DeviceId,
    pub layout_id: BindGroupLayoutId,
    pub used: UsageRecord,
    pub dynamic_count: usize,
}

/// True when a resource of this shape may fill a slot of this declared type.
pub open spec fn resource_kind_ok(ty: BindingType, r: BindingResource) -> bool {
    match r {
        BindingResource::Buffer(b) => ty == BindingType::UniformBuffer || ty
            == BindingType::StorageBuffer || ty == BindingType::ReadonlyStorageBuffer,
        BindingResource::Sampler(s) => ty == BindingType::Sampler || ty
            == BindingType::ComparisonSampler,
        BindingResource::TextureView(v) => ty == BindingType::SampledTexture || ty
            == BindingType::ReadonlyStorageTexture || ty == BindingType::WriteonlyStorageTexture,
    }
}

/// True when every resource an entry names is a registered one.
pub open spec fn resources_present(
    buffers: Map<u64, Buffer>,
    samplers: Map<u64, Sampler>,
    views: Map<u64, TextureView>,
    entries: Seq<BindGroupEntry>,
) -> bool {
    forall|i: int|
        0 <= i < entries.len() ==> match #[trigger] entries[i].resource {
            BindingResource::Buffer(b) => buffers.contains_key(b.buffer),
            BindingResource::Sampler(s) => samplers.contains_key(s),
            BindingResource::TextureView(v) => views.contains_key(v),
        }
}

/// The problem one entry has against the layout and the registered buffers,
/// checked in the order: declared slot, resource kind, buffer range.
pub open spec fn entry_problem(
    layout: Map<u32, BindGroupLayoutEntry>,
    buffers: Map<u64, Buffer>,
    e: BindGroupEntry,
) -> Option<BindGroupError> {
    if !layout.contains_key(e.binding) {
        Some(BindGroupError::UnknownSlot(e.binding))
    } else if !resource_kind_ok(layout[e.binding].ty, e.resource) {
        Some(BindGroupError::WrongResourceKind(e.binding))
    } else {
        match e.resource {
            BindingResource::Buffer(b) => {
                if b.offset + b.size <= buffers[b.buffer].size {
                    None
                } else {
                    Some(BindGroupError::OutOfRange(e.binding))
                }
            },
            _ => None,
        }
    }
}

/// True when some entry before index `i` fills the same slot as entry `i`.
pub open spec fn duplicate_entry(entries: Seq<BindGroupEntry>, i: int) -> bool {
    exists|j: int| 0 <= j < i && entries[j].binding == entries[i].binding
}

/// The first problem of a bind group description at or after entry `i`:
/// per-entry problems and repeated slots in entry order, and, once every
/// entry passed, an entry count short of the layout's declaration count.
pub open spec fn bind_group_problem_from(
    layout: Map<u32, BindGroupLayoutEntry>,
    buffers: Map<u64, Buffer>,
    entries: Seq<BindGroupEntry>,
    i: int,
) -> Option<BindGroupError>
    decreases entries.len() - i,
{
    if i < 0 || i >= entries.len() {
        if entries.len() == layout.len() {
            None
        } else {
            Some(
                BindGroupError::BindingsNumMismatch(
                    entries.len() as usize,
                    layout.len() as usize,
                ),
            )
        }
    } else {
        match entry_problem(layout, buffers, entries[i]) {
            Some(err) => Some(err),
            None => {
                if duplicate_entry(entries, i) {
                    Some(BindGroupError::DuplicateBinding(entries[i].binding))
                } else {
                    bind_group_problem_from(layout, buffers, entries, i + 1)
                }
            },
        }
    }
}

/// The first problem of a whole bind group description, or `None` when it is
/// acceptable.
pub open spec fn bind_group_problem(
    layout: Map<u32, BindGroupLayoutEntry>,
    buffers: Map<u64, Buffer>,
    entries: Seq<BindGroupEntry>,
) -> Option<BindGroupError> {
    bind_group_problem_from(layout, buffers, entries, 0)
}

/// While every entry before index `i` is problem-free and fills a fresh
/// slot, the first problem of the whole description is the first at or after
/// `i`.
pub proof fn lemma_bind_group_problem_skip(
    layout: Map<u32, BindGroupLayoutEntry>,
    buffers: Map<u64, Buffer>,
    entries: Seq<BindGroupEntry>,
    i: int,
)
    requires
        0 <= i <= entries.len(),
        forall|j: int|
            0 <= j < i ==> #[trigger] entry_problem(layout, buffers, entries[j]) is None
                && !duplicate_entry(entries, j),
    ensures
        bind_group_problem(layout, buffers, entries) == bind_group_problem_from(
            layout,
            buffers,
            entries,
            i,
        ),
    decreases i,
{
    if i > 0 {
        lemma_bind_group_problem_skip(layout, buffers, entries, i - 1);
        assert(entry_problem(layout, buffers, entries[i - 1]) is None);
        assert(bind_group_problem_from(layout, buffers, entries, i - 1)
            == bind_group_problem_from(layout, buffers, entries, i));
    }
}

/// Checks a bind group description against a layout's declaration map and
/// the registered buffers: every entry must name a declared slot with a
/// resource of the declared kind, a buffer entry must lie within its
/// buffer's extent, no slot may be filled twice, and every declared slot
/// must be filled. The first failure, in entry order, wins.
pub fn validate_bind_group_entries(
    layout: &HashMap<u32, BindGroupLayoutEntry>,
    buffers: &HashMap<u64, Buffer>,
    entries: &Vec<BindGroupEntry>,
) -> (r: Result<(), BindGroupError>)
    requires
        forall|i: int|
            0 <= i < entries@.len() ==> match #[trigger] entries@[i].resource {
                BindingResource::Buffer(b) => buffers@.contains_key(b.buffer),
                _ => true,
            },
    ensures
        r is Ok <==> bind_group_problem(layout@, buffers@, entries@) is None,
        match r {
            Ok(u) => true,
            Err(e) => Some(e) == bind_group_problem(layout@, buffers@, entries@),
        },
{
    let mut seen: HashMap<u32, ()> = HashMap::new();
    let mut i: usize = 0;
    while i < entries.len()
        invariant
            i <= entries.len(),
            forall|i2: int|
                0 <= i2 < entries@.len() ==> match #[trigger] entries@[i2].resource {
                    BindingResource::Buffer(b) => buffers@.contains_key(b.buffer),
                    _ => true,
                },
            forall|b: u32| #[trigger]
                seen@.contains_key(b) <==> (exists|j: int|
                    0 <= j < i && #[trigger] entries@[j].binding == b),
            forall|j: int|
                0 <= j < i ==> #[trigger] entry_problem(layout@, buffers@, entries@[j]) is None
                    && !duplicate_entry(entries@, j),
        decreases entries.len() - i,
    {
        let e = entries[i];
        match layout.get(&e.binding) {
            None => {
                proof {
                    lemma_bind_group_problem_skip(layout@, buffers@, entries@, i as int);
                }
                return Err(BindGroupError::UnknownSlot(e.binding));
            },
            Some(decl) => {
                let kind_ok = match (decl.ty, e.resource) {
                    (BindingType::UniformBuffer, BindingResource::Buffer(b)) => true,
                    (BindingType::StorageBuffer, BindingResource::Buffer(b)) => true,
                    (BindingType::ReadonlyStorageBuffer, BindingResource::Buffer(b)) => true,
                    (BindingType::Sampler, BindingResource::Sampler(s)) => true,
                    (BindingType::ComparisonSampler, BindingResource::Sampler(s)) => true,
                    (BindingType::SampledTexture, BindingResource::TextureView(v)) => true,
                    (BindingType::ReadonlyStorageTexture, BindingResource::TextureView(v)) => true,
                    (BindingType::WriteonlyStorageTexture, BindingResource::TextureView(v)) => true,
                    _ => false,
                };
                if !kind_ok {
                    proof {
                        lemma_bind_group_problem_skip(layout@, buffers@, entries@, i as int);
                    }
                    return Err(BindGroupError::WrongResourceKind(e.binding));
                }
                match e.resource {
                    BindingResource::Buffer(b) => {
                        let buf = buffers.get(&b.buffer).unwrap();
                        if !(b.size <= buf.size && b.offset <= buf.size - b.size) {
                            proof {
                                lemma_bind_group_problem_skip(layout@, buffers@, entries@, i as int);
                            }
                            return Err(BindGroupError::OutOfRange(e.binding));
                        }
                    },
                    _ => {},
                }
            },
        }
        if seen.contains_key(&e.binding) {
            proof {
                lemma_bind_group_problem_skip(layout@, buffers@, entries@, i as int);
                assert(duplicate_entry(entries@, i as int));
            }
            return Err(BindGroupError::DuplicateBinding(e.binding));
        }
        proof {
            assert(!duplicate_entry(entries@, i as int));
        }
        seen.insert(e.binding, ());
        proof {
            assert forall|b: u32| #[trigger] seen@.contains_key(b) implies (exists|j: int|
                0 <= j < i + 1 && #[trigger] entries@[j].binding == b) by {
                if b == entries@[i as int].binding {
                    assert(entries@[i as int].binding == b);
                }
            }
        }
        i += 1;
    }
    proof {
        lemma_bind_group_problem_skip(layout@, buffers@, entries@, entries@.len() as int);
    }
    if entries.len() != layout.len() {
        return Err(BindGroupError::BindingsNumMismatch(entries.len(), layout.len()));
    }
    Ok(())
}

/// The buffers a sequence of entries references, in entry order.
pub open spec fn used_buffers(entries: Seq<BindGroupEntry>) -> Seq<u64>
    decreases entries.len(),
{
    if entries.len() == 0 {
        Seq::empty()
    } else {
        used_buffers(entries.drop_last()) + (match entries.last().resource {
            BindingResource::Buffer(b) => seq![b.buffer],
            _ => Seq::<u64>::empty(),
        })
    }
}

/// The samplers a sequence of entries references, in entry order.
pub open spec fn used_samplers(entries: Seq<BindGroupEntry>) -> Seq<u64>
    decreases entries.len(),
{
    if entries.len() == 0 {
        Seq::empty()
    } else {
        used_samplers(entries.drop_last()) + (match entries.last().resource {
            BindingResource::Sampler(s) => seq![s],
            _ => Seq::<u64>::empty(),
        })
    }
}

/// The texture views a sequence of entries references, in entry order.
pub open spec fn used_views(entries: Seq<BindGroupEntry>) -> Seq<u64>
    decreases entries.len(),
{
    if entries.len() == 0 {
        Seq::empty()
    } else {
        used_views(entries.drop_last()) + (match entries.last().resource {
            BindingResource::TextureView(v) => seq![v],
            _ => Seq::<u64>::empty(),
        })
    }
}

/// Collects which resources the entries reference, in entry order, as the
/// usage record handed to the hazard tracker.
pub fn build_usage_record(entries: &Vec<BindGroupEntry>) -> (u: UsageRecord)
    ensures
        u.buffers@ == used_buffers(entries@),
        u.samplers@ == used_samplers(entries@),
        u.texture_views@ == used_views(entries@),
{
    let mut buffers: Vec<BufferId> = Vec::new();
    let mut samplers: Vec<SamplerId> = Vec::new();
    let mut texture_views: Vec<TextureViewId> = Vec::new();
    let mut i: usize = 0;
    while i < entries.len()
        invariant
            i <= entries.len(),
            buffers@ == used_buffers(entries@.take(i as int)),
            samplers@ == used_samplers(entries@.take(i as int)),
            texture_views@ == used_views(entries@.take(i as int)),
        decreases entries.len() - i,
    {
        proof {
            assert(entries@.take(i + 1int).drop_last() =~= entries@.take(i as int));
            assert(entries@.take(i + 1int).last() == entries@[i as int]);
        }
        match entries[i].resource {
            BindingResource::Buffer(b) => {
                buffers.push(b.buffer);
            },
            BindingResource::Sampler(s) => {
                samplers.push(s);
            },
            BindingResource::TextureView(v) => {
                texture_views.push(v);
            },
        }
        proof {
            assert(buffers@ =~= used_buffers(entries@.take(i + 1int)));
            assert(samplers@ =~= used_samplers(entries@.take(i + 1int)));
            assert(texture_views@ =~= used_views(entries@.take(i + 1int)));
        }
        i += 1;
    }
    proof {
        assert(entries@.take(entries@.len() as int) =~= entries@);
    }
    UsageRecord { buffers, samplers, texture_views }
}

} // verus!
