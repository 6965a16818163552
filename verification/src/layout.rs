//! Bind group layouts: an ordered sequence of binding declarations keyed by
//! slot index, with the aggregate descriptor-pool demand derived from it.

use vstd::prelude::*;
use std::collections::HashMap;
use crate::binding::{
    validate_decl, BindGroupLayoutEntry, BindGroupLayoutEntryError,
};
use crate::DeviceId;

verus! {

broadcast use vstd::std_specs::hash::group_hash_axioms;

/// A way a whole layout description can be rejected: a repeated slot index,
/// or a declaration that fails its own validation, tagged with its slot.
#[derive(Copy, Clone, Debug, PartialEq, Eq, Structural)]
pub enum BindGroupLayoutError {
    ConflictBinding(u32),
    Entry(u32, BindGroupLayoutEntryError),
}

/// How many native descriptor slots a layout demands, per resource class.
/// Arrays of bindings are out of scope, so each declaration demands one unit
/// of its class.
#[derive(Copy, Clone, Debug, PartialEq, Eq, Structural)]
pub struct DescriptorCounts {
    pub uniform_buffers: usize,
    pub storage_buffers: usize,
    pub samplers: usize,
    pub sampled_textures: usize,
    pub storage_textures: usize,
}

/// The label-and-entries description a caller hands in to create a layout.
#[derive(Clone, Debug)]
pub struct BindGroupLayoutDescriptor {
    pub label: Option<String>,
    pub entries: Vec<BindGroupLayoutEntry>,
}

/// The validated contents of a layout, before a native descriptor-set-layout
/// object is attached: the slot-keyed declaration map and the derived pool
/// demand.
#[derive(Debug)]
pub struct LayoutContents {
    pub entries: HashMap<u32, BindGroupLayoutEntry>,
    pub desc_counts: DescriptorCounts,
    pub dynamic_count: usize,
}

/// A bind group layout: validated declarations keyed by slot, the derived
/// descriptor demand, the opaque native descriptor-set-layout handle the
/// backend allocated for it, and the device that owns it.
#[derive(Debug)]
pub struct BindGroupLayout {
    pub raw: u64,
    pub device_id: DeviceId,
    pub entries: HashMap<u32, BindGroupLayoutEntry>,
    pub desc_counts: DescriptorCounts,
    pub dynamic_count: usize,
}

/// The slot-to-declaration map a sequence of entries describes; a later
/// entry would shadow an earlier one with the same slot, but validation
/// rejects such a sequence outright.
pub open spec fn entry_map_of(entries: Seq<BindGroupLayoutEntry>) -> Map<u32, BindGroupLayoutEntry>
    decreases entries.len(),
{
    if entries.len() == 0 {
        Map::empty()
    } else {
        entry_map_of(entries.drop_last()).insert(entries.last().binding, entries.last())
    }
}

/// True when some entry before index `i` declares the same slot as entry `i`.
pub open spec fn has_earlier_binding(entries: Seq<BindGroupLayoutEntry>, i: int) -> bool {
    exists|j: int| 0 <= j < i && entries[j].binding == entries[i].binding
}

/// The first problem in `entries` at or after index `i`, in declaration
/// order: a failed per-entry validation surfaces as `Entry`, a slot already
/// declared earlier as `ConflictBinding`.
pub open spec fn layout_problem_from(
    entries: Seq<BindGroupLayoutEntry>,
    i: int,
) -> Option<BindGroupLayoutError>
    decreases entries.len() - i,
{
    if i < 0 || i >= entries.len() {
        None
    } else {
        match validate_decl(entries[i]) {
            Err(err) => Some(BindGroupLayoutError::Entry(entries[i].binding, err)),
            Ok(u) => {
                if has_earlier_binding(entries, i) {
                    Some(BindGroupLayoutError::ConflictBinding(entries[i].binding))
                } else {
                    layout_problem_from(entries, i + 1)
                }
            },
        }
    }
}

/// The first problem in a whole layout description, or `None` when it is
/// acceptable.
pub open spec fn layout_problem(entries: Seq<BindGroupLayoutEntry>) -> Option<BindGroupLayoutError> {
    layout_problem_from(entries, 0)
}

/// How many entries of `entries` satisfy `f`.
pub open spec fn count_entries(
    entries: Seq<BindGroupLayoutEntry>,
    f: spec_fn(BindGroupLayoutEntry) -> bool,
) -> int
    decreases entries.len(),
{
    if entries.len() == 0 {
        0
    } else {
        count_entries(entries.drop_last(), f) + if f(entries.last()) {
            1int
        } else {
            0int
        }
    }
}

/// A count of matching entries lies between zero and the sequence length.
pub proof fn lemma_count_entries_bound(
    entries: Seq<BindGroupLayoutEntry>,
    f: spec_fn(BindGroupLayoutEntry) -> bool,
)
    ensures
        0 <= count_entries(entries, f) <= entries.len(),
    decreases entries.len(),
{
    if entries.len() > 0 {
        lemma_count_entries_bound(entries.drop_last(), f);
    }
}

/// The slots of the map built from `entries` are exactly the slots the
/// entries declare.
pub proof fn lemma_entry_map_dom(entries: Seq<BindGroupLayoutEntry>)
    ensures
        forall|b: u32| #[trigger]
            entry_map_of(entries).dom().contains(b) <==> exists|j: int|
                0 <= j < entries.len() && entries[j].binding == b,
    decreases entries.len(),
{
    if entries.len() > 0 {
        let prefix = entries.drop_last();
        lemma_entry_map_dom(prefix);
        assert forall|b: u32| #[trigger] entry_map_of(entries).dom().contains(b) implies exists|
            j: int,
        | 0 <= j < entries.len() && entries[j].binding == b by {
            if b == entries.last().binding {
                assert(entries[entries.len() - 1].binding == b);
            } else {
                assert(entry_map_of(prefix).dom().contains(b));
                let j = choose|j: int| 0 <= j < prefix.len() && prefix[j].binding == b;
                assert(prefix[j] == entries[j]);
                assert(entries[j].binding == b);
            }
        }
        assert forall|b: u32|
            (exists|j: int| 0 <= j < entries.len() && entries[j].binding == b) implies #[trigger]
            entry_map_of(entries).dom().contains(b) by {
            let j = choose|j: int| 0 <= j < entries.len() && entries[j].binding == b;
            if j < entries.len() - 1 {
                assert(prefix[j] == entries[j]);
                assert(prefix[j].binding == b);
                assert(entry_map_of(prefix).dom().contains(b));
            } else {
                assert(b == entries.last().binding);
            }
        }
    }
}

/// While every entry before index `i` is valid and declares a fresh slot,
/// the first problem of the whole sequence is the first problem at or after
/// `i`.
pub proof fn lemma_layout_problem_skip(entries: Seq<BindGroupLayoutEntry>, i: int)
    requires
        0 <= i <= entries.len(),
        forall|j: int|
            0 <= j < i ==> #[trigger] validate_decl(entries[j]) is Ok && !has_earlier_binding(
                entries,
                j,
            ),
    ensures
        layout_problem(entries) == layout_problem_from(entries, i),
    decreases i,
{
    if i > 0 {
        lemma_layout_problem_skip(entries, i - 1);
        assert(validate_decl(entries[i - 1]) is Ok);
        assert(layout_problem_from(entries, i - 1) == layout_problem_from(entries, i));
    }
}

/// Validates a whole layout description: every declaration must pass its own
/// validation and every slot index must be fresh, in declaration order with
/// the first failure winning. On success the result holds the slot-keyed
/// declaration map, the per-class descriptor demand and the count of
/// dynamic-offset-capable bindings; on failure nothing is built.
pub fn validate_bind_group_layout(entries: &Vec<BindGroupLayoutEntry>) -> (r: Result<
    LayoutContents,
    BindGroupLayoutError,
>)
    ensures
        r is Ok <==> layout_problem(entries@) is None,
        match r {
            Ok(c) => {
                &&& c.entries@ == entry_map_of(entries@)
                &&& c.entries@.len() == entries@.len()
                &&& c.desc_counts.uniform_buffers == count_entries(
                    entries@,
                    |e: BindGroupLayoutEntry| e.ty == crate::binding::BindingType::UniformBuffer,
                )
                &&& c.desc_counts.storage_buffers == count_entries(
                    entries@,
                    |e: BindGroupLayoutEntry|
                        e.ty == crate::binding::BindingType::StorageBuffer || e.ty
                            == crate::binding::BindingType::ReadonlyStorageBuffer,
                )
                &&& c.desc_counts.samplers == count_entries(
                    entries@,
                    |e: BindGroupLayoutEntry|
                        e.ty == crate::binding::BindingType::Sampler || e.ty
                            == crate::binding::BindingType::ComparisonSampler,
                )
                &&& c.desc_counts.sampled_textures == count_entries(
                    entries@,
                    |e: BindGroupLayoutEntry| e.ty == crate::binding::BindingType::SampledTexture,
                )
                &&& c.desc_counts.storage_textures == count_entries(
                    entries@,
                    |e: BindGroupLayoutEntry|
                        e.ty == crate::binding::BindingType::ReadonlyStorageTexture || e.ty
                            == crate::binding::BindingType::WriteonlyStorageTexture,
                )
                &&& c.dynamic_count == count_entries(
                    entries@,
                    |e: BindGroupLayoutEntry| e.has_dynamic_offset,
                )
            },
            Err(e) => Some(e) == layout_problem(entries@),
        },
{
    let mut map: HashMap<u32, BindGroupLayoutEntry> = HashMap::new();
    let mut uniform_buffers: usize = 0;
    let mut storage_buffers: usize = 0;
    let mut samplers: usize = 0;
    let mut sampled_textures: usize = 0;
    let mut storage_textures: usize = 0;
    let mut dynamic_count: usize = 0;
    let mut i: usize = 0;
    while i < entries.len()
        invariant
            i <= entries.len(),
            map@ == entry_map_of(entries@.take(i as int)),
            map@.len() == i,
            forall|j: int|
                0 <= j < i ==> #[trigger] validate_decl(entries@[j]) is Ok && !has_earlier_binding(
                    entries@,
                    j,
                ),
            uniform_buffers == count_entries(
                entries@.take(i as int),
                |e: BindGroupLayoutEntry| e.ty == crate::binding::BindingType::UniformBuffer,
            ),
            storage_buffers == count_entries(
                entries@.take(i as int),
                |e: BindGroupLayoutEntry|
                    e.ty == crate::binding::BindingType::StorageBuffer || e.ty
                        == crate::binding::BindingType::ReadonlyStorageBuffer,
            ),
            samplers == count_entries(
                entries@.take(i as int),
                |e: BindGroupLayoutEntry|
                    e.ty == crate::binding::BindingType::Sampler || e.ty
                        == crate::binding::BindingType::ComparisonSampler,
            ),
            sampled_textures == count_entries(
                entries@.take(i as int),
                |e: BindGroupLayoutEntry| e.ty == crate::binding::BindingType::SampledTexture,
            ),
            storage_textures == count_entries(
                entries@.take(i as int),
                |e: BindGroupLayoutEntry|
                    e.ty == crate::binding::BindingType::ReadonlyStorageTexture || e.ty
                        == crate::binding::BindingType::WriteonlyStorageTexture,
            ),
            dynamic_count == count_entries(
                entries@.take(i as int),
                |e: BindGroupLayoutEntry| e.has_dynamic_offset,
            ),
            uniform_buffers <= i && storage_buffers <= i && samplers <= i && sampled_textures <= i
                && storage_textures <= i && dynamic_count <= i,
        decreases entries.len() - i,
    {
        let e = entries[i];
        match e.validate() {
            Err(err) => {
                proof {
                    lemma_layout_problem_skip(entries@, i as int);
                }
                return Err(BindGroupLayoutError::Entry(e.binding, err));
            },
            Ok(u) => {},
        }
        proof {
            lemma_entry_map_dom(entries@.take(i as int));
        }
        if map.contains_key(&e.binding) {
            proof {
                lemma_layout_problem_skip(entries@, i as int);
                let j = choose|j: int|
                    0 <= j < i && entries@.take(i as int)[j].binding == e.binding;
                assert(entries@[j].binding == entries@[i as int].binding);
                assert(has_earlier_binding(entries@, i as int));
            }
            return Err(BindGroupLayoutError::ConflictBinding(e.binding));
        }
        proof {
            assert(!has_earlier_binding(entries@, i as int)) by {
                if has_earlier_binding(entries@, i as int) {
                    let j = choose|j: int|
                        0 <= j < i && entries@[j].binding == entries@[i as int].binding;
                    assert(entries@.take(i as int)[j].binding == e.binding);
                }
            }
            assert(entries@.take(i + 1int).drop_last() =~= entries@.take(i as int));
            assert(entries@.take(i + 1int).last() == entries@[i as int]);
        }
        map.insert(e.binding, e);
        match e.ty {
            crate::binding::BindingType::UniformBuffer => {
                uniform_buffers += 1;
            },
            crate::binding::BindingType::StorageBuffer
            | crate::binding::BindingType::ReadonlyStorageBuffer => {
                storage_buffers += 1;
            },
            crate::binding::BindingType::Sampler
            | crate::binding::BindingType::ComparisonSampler => {
                samplers += 1;
            },
            crate::binding::BindingType::SampledTexture => {
                sampled_textures += 1;
            },
            crate::binding::BindingType::ReadonlyStorageTexture
            | crate::binding::BindingType::WriteonlyStorageTexture => {
                storage_textures += 1;
            },
        }
        if e.has_dynamic_offset {
            dynamic_count += 1;
        }
        i += 1;
    }
    proof {
        lemma_layout_problem_skip(entries@, entries@.len() as int);
        assert(entries@.take(entries@.len() as int) =~= entries@);
    }
    Ok(
        LayoutContents {
            entries: map,
            desc_counts: DescriptorCounts {
                uniform_buffers,
                storage_buffers,
                samplers,
                sampled_textures,
                storage_textures,
            },
            dynamic_count,
        },
    )
}

impl BindGroupLayout {
    /// How many declarations the layout holds.
    pub fn entry_count(&self) -> (n: usize)
        ensures
            n == self.entries@.len(),
    {
        self.entries.len()
    }

    /// The declaration of one slot, when the layout has it.
    pub fn get_entry(&self, binding: u32) -> (r: Option<&BindGroupLayoutEntry>)
        ensures
            match r {
                Some(e) => self.entries@.contains_key(binding) && *e == self.entries@[binding],
                None => !self.entries@.contains_key(binding),
            },
    {
        self.entries.get(&binding)
    }
}

} // verus!
