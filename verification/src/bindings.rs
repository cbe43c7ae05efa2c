use smallvec::SmallVec;
use vstd::prelude::*;

verus! {

/// How a binding slot of a pipeline is filled.
#[derive(Debug, Clone, Copy, PartialEq, Eq, Structural)]
pub enum UniformBindingType {
    UniformBuffer,
    CombinedImageSampler,
}

/// A short list of `(binding slot, resource id)` pairs, kept inline in a `SmallVec`.
#[verifier::external_body]
pub struct ResourceBindingList {
    inner: SmallVec<[(u32, usize); 5]>,
}

/// A short list of `(binding slot, binding type)` pairs, kept inline in a `SmallVec`.
#[verifier::external_body]
pub struct BindingTypeList {
    inner: SmallVec<[(u32, UniformBindingType); 5]>,
}

/// What a list of `(binding slot, resource id)` pairs holds, in order.
pub uninterp spec fn resource_bindings(v: ResourceBindingList) -> Seq<(u32, usize)>;

/// What a list of `(binding slot, binding type)` pairs holds, in order.
pub uninterp spec fn binding_types(v: BindingTypeList) -> Seq<
    (u32, UniformBindingType),
>;

/// `SmallVec::new`: an empty list of resource bindings.
#[verifier::external_body]
pub(crate) fn resource_bindings_new() -> (v: ResourceBindingList)
    ensures
        resource_bindings(v) == Seq::<(u32, usize)>::empty(),
{
    ResourceBindingList { inner: SmallVec::new() }
}

/// `SmallVec::push`: appends one pair at the end. `push` panics ("capacity overflow") only when
/// growing would need a capacity whose byte size passes `isize::MAX`; a pair takes at most 16
/// bytes, so below `usize::MAX / 128` pairs that never happens.
#[verifier::external_body]
pub(crate) fn resource_bindings_push(v: &mut ResourceBindingList, x: (u32, usize))
    requires
        resource_bindings(*old(v)).len() < usize::MAX / 128,
    ensures
        resource_bindings(*final(v)) == resource_bindings(*old(v)).push(x),
{
    v.inner.push(x)
}

/// `SmallVec::clone`: a list with the same pairs in the same order.
#[verifier::external_body]
pub(crate) fn resource_bindings_clone(v: &ResourceBindingList) -> (r: ResourceBindingList)
    ensures
        resource_bindings(r) == resource_bindings(*v),
{
    ResourceBindingList { inner: v.inner.clone() }
}

/// `SmallVec::as_slice`: the pairs as a slice, in order.
#[verifier::external_body]
pub(crate) fn resource_bindings_slice(v: &ResourceBindingList) -> (r: &[(u32, usize)])
    ensures
        r@ == resource_bindings(*v),
{
    v.inner.as_slice()
}

/// `SmallVec::new`: an empty list of binding types.
#[verifier::external_body]
pub(crate) fn binding_types_new() -> (v: BindingTypeList)
    ensures
        binding_types(v) == Seq::<(u32, UniformBindingType)>::empty(),
{
    BindingTypeList { inner: SmallVec::new() }
}

/// `SmallVec::push`: appends one pair at the end. `push` panics ("capacity overflow") only when
/// growing would need a capacity whose byte size passes `isize::MAX`; a pair takes at most 16
/// bytes, so below `usize::MAX / 128` pairs that never happens.
#[verifier::external_body]
pub(crate) fn binding_types_push(
    v: &mut BindingTypeList,
    x: (u32, UniformBindingType),
)
    requires
        binding_types(*old(v)).len() < usize::MAX / 128,
    ensures
        binding_types(*final(v)) == binding_types(*old(v)).push(x),
{
    v.inner.push(x)
}

/// `SmallVec::clone`: a list with the same pairs in the same order.
#[verifier::external_body]
pub(crate) fn binding_types_clone(v: &BindingTypeList) -> (r: BindingTypeList)
    ensures
        binding_types(r) == binding_types(*v),
{
    BindingTypeList { inner: v.inner.clone() }
}

/// `SmallVec::as_slice`: the pairs as a slice, in order.
#[verifier::external_body]
pub(crate) fn binding_types_slice(v: &BindingTypeList) -> (r: &[(
    u32,
    UniformBindingType,
)])
    ensures
        r@ == binding_types(*v),
{
    v.inner.as_slice()
}

/// The ids of the uniform buffers and images that one object binds, each with its slot.
pub struct UniformBindingsDesc {
    pub buffer_bindings: ResourceBindingList,
    pub image_bindings: ResourceBindingList,
}

impl UniformBindingsDesc {
    /// The buffer bindings, in order.
    pub open spec fn buffers(&self) -> Seq<(u32, usize)> {
        resource_bindings(self.buffer_bindings)
    }

    /// The image bindings, in order.
    pub open spec fn images(&self) -> Seq<(u32, usize)> {
        resource_bindings(self.image_bindings)
    }

    /// Builds a description from its two lists of `(slot, id)` pairs.
    pub fn from_pairs(buffers: &[(u32, usize)], images: &[(u32, usize)]) -> (d: Self)
        requires
            buffers@.len() < usize::MAX / 128,
            images@.len() < usize::MAX / 128,
        ensures
            d.buffers() == buffers@,
            d.images() == images@,
    {
        let mut buffer_bindings = resource_bindings_new();
        let mut i: usize = 0;
        while i < buffers.len()
            invariant
                i <= buffers@.len() < usize::MAX / 128,
                resource_bindings(buffer_bindings) == buffers@.subrange(0, i as int),
            decreases buffers@.len() - i,
        {
            resource_bindings_push(&mut buffer_bindings, buffers[i]);
            i = i + 1;
        }
        let mut image_bindings = resource_bindings_new();
        let mut j: usize = 0;
        while j < images.len()
            invariant
                j <= images@.len() < usize::MAX / 128,
                resource_bindings(image_bindings) == images@.subrange(0, j as int),
            decreases images@.len() - j,
        {
            resource_bindings_push(&mut image_bindings, images[j]);
            j = j + 1;
        }
        assert(buffers@.subrange(0, buffers@.len() as int) =~= buffers@);
        assert(images@.subrange(0, images@.len() as int) =~= images@);
        UniformBindingsDesc { buffer_bindings, image_bindings }
    }

    /// A copy with the same bindings.
    pub fn clone(&self) -> (d: Self)
        ensures
            d.buffers() == self.buffers(),
            d.images() == self.images(),
    {
        UniformBindingsDesc {
            buffer_bindings: resource_bindings_clone(&self.buffer_bindings),
            image_bindings: resource_bindings_clone(&self.image_bindings),
        }
    }
}

} // verus!

verus! {

impl ResourceBindingList {
    /// An empty list.
    pub fn new() -> (v: Self)
        ensures
            resource_bindings(v) == Seq::<(u32, usize)>::empty(),
    {
        resource_bindings_new()
    }

    /// Appends `(slot, id)` at the end.
    pub fn push(&mut self, slot: u32, id: usize)
        requires
            resource_bindings(*old(self)).len() < usize::MAX / 128,
        ensures
            resource_bindings(*final(self)) == resource_bindings(*old(self)).push((slot, id)),
    {
        resource_bindings_push(self, (slot, id))
    }

    /// The pairs, in order.
    pub fn as_slice(&self) -> (r: &[(u32, usize)])
        ensures
            r@ == resource_bindings(*self),
    {
        resource_bindings_slice(self)
    }
}

impl BindingTypeList {
    /// An empty list.
    pub fn new() -> (v: Self)
        ensures
            binding_types(v) == Seq::<(u32, UniformBindingType)>::empty(),
    {
        binding_types_new()
    }

    /// Appends `(slot, binding type)` at the end.
    pub fn push(&mut self, slot: u32, ty: UniformBindingType)
        requires
            binding_types(*old(self)).len() < usize::MAX / 128,
        ensures
            binding_types(*final(self)) == binding_types(*old(self)).push((slot, ty)),
    {
        binding_types_push(self, (slot, ty))
    }

    /// The pairs, in order.
    pub fn as_slice(&self) -> (r: &[(u32, UniformBindingType)])
        ensures
            r@ == binding_types(*self),
    {
        binding_types_slice(self)
    }

    /// A copy with the same pairs.
    pub fn clone(&self) -> (r: Self)
        ensures
            binding_types(r) == binding_types(*self),
    {
        binding_types_clone(self)
    }
}

} // verus!
