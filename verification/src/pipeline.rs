//! Pipeline layouts: a capacity-bounded, ordered list of bind group layout
//! references. The list lives in a stack-allocated `arrayvec::ArrayVec`
//! whose contents are named by `group_list_elems` and reached only through
//! the trusted wrappers below.

use vstd::prelude::*;
use arrayvec::ArrayVec;
use crate::{BindGroupLayoutId, DeviceId, MAX_BIND_GROUPS};

verus! {

#[verifier::external_type_specification]
#[verifier::external_body]
#[verifier::reject_recursive_types(T)]
pub struct ExArrayVec<T, const CAP: usize>(ArrayVec<T, CAP>);

/// What a bounded group list holds, in order.
pub uninterp spec fn group_list_elems(v: ArrayVec<u64, 4>) -> Seq<u64>;

/// Relies on arrayvec::ArrayVec::new: a freshly made vector is empty.
#[verifier::external_body]
pub(crate) fn group_list_new() -> (v: ArrayVec<BindGroupLayoutId, MAX_BIND_GROUPS>)
    ensures
        group_list_elems(v) == Seq::<u64>::empty(),
{
    ArrayVec::new()
}

/// Relies on arrayvec::ArrayVec::push: appends one element at the end; it
/// panics only on a full vector, which the precondition rules out.
#[verifier::external_body]
pub(crate) fn group_list_push(v: &mut ArrayVec<BindGroupLayoutId, MAX_BIND_GROUPS>, x: u64)
    requires
        group_list_elems(*old(v)).len() < MAX_BIND_GROUPS,
    ensures
        group_list_elems(*final(v)) == group_list_elems(*old(v)).push(x),
{
    v.push(x)
}

/// Relies on arrayvec::ArrayVec::len: the number of elements held.
#[verifier::external_body]
pub(crate) fn group_list_len(v: &ArrayVec<BindGroupLayoutId, MAX_BIND_GROUPS>) -> (n: usize)
    ensures
        n == group_list_elems(*v).len(),
{
    v.len()
}

/// Relies on arrayvec::ArrayVec::as_slice: a slice of all elements in order,
/// here read at one index within bounds.
#[verifier::external_body]
pub(crate) fn group_list_get(v: &ArrayVec<BindGroupLayoutId, MAX_BIND_GROUPS>, i: usize) -> (x:
    u64)
    requires
        i < group_list_elems(*v).len(),
    ensures
        x == group_list_elems(*v)[i as int],
{
    v.as_slice()[i]
}

/// The ordered bind-group-layout identities a caller hands in to create a
/// pipeline layout.
#[derive(Clone, Debug)]
pub struct PipelineLayoutDescriptor {
    pub bind_group_layouts: Vec<BindGroupLayoutId>,
}

/// A way a pipeline layout description can be rejected: more bind group
/// layouts than the hardware-limited maximum, reporting the supplied length.
#[derive(Copy, Clone, Debug, PartialEq, Eq, Structural)]
pub enum PipelineLayoutError {
    TooManyGroups(usize),
}

/// A pipeline layout: the opaque native pipeline-layout handle the backend
/// allocated, the owning device, and the ordered bounded list of bind group
/// layout identities it keeps alive.
pub struct PipelineLayout {
    pub raw: u64,
    pub device_id: DeviceId,
    pub bind_group_layout_ids: ArrayVec<BindGroupLayoutId, MAX_BIND_GROUPS>,
}

impl PipelineLayout {
    /// The identities this pipeline layout holds, in order.
    pub open spec fn group_ids(self) -> Seq<u64> {
        group_list_elems(self.bind_group_layout_ids)
    }

    /// How many bind group layouts this pipeline layout references.
    pub fn group_count(&self) -> (n: usize)
        ensures
            n == self.group_ids().len(),
    {
        group_list_len(&self.bind_group_layout_ids)
    }

    /// The identity at one position of the list.
    pub fn group_id_at(&self, i: usize) -> (x: BindGroupLayoutId)
        requires
            i < self.group_ids().len(),
        ensures
            x == self.group_ids()[i as int],
    {
        group_list_get(&self.bind_group_layout_ids, i)
    }
}

} // verus!
