use vstd::prelude::*;

verus! {

/// The capacity of the descriptor pool, the same for sets, uniform buffers and image samplers.
pub const DESCRIPTOR_POOL_CAPACITY: u32 = 50;

/// How much of the descriptor pool the allocated descriptor sets use.
pub struct DescriptorSetPool {
    allocated_sets: u32,
    capacity_sets: u32,
    allocated_uniform_buffers: u32,
    capacity_uniform_buffers: u32,
    allocated_image_samplers: u32,
    capacity_image_samplers: u32,
}

impl DescriptorSetPool {
    #[verifier::type_invariant]
    spec fn capacities_fixed(self) -> bool {
        &&& self.capacity_sets == DESCRIPTOR_POOL_CAPACITY
        &&& self.capacity_uniform_buffers == DESCRIPTOR_POOL_CAPACITY
        &&& self.capacity_image_samplers == DESCRIPTOR_POOL_CAPACITY
    }

    /// Descriptor sets allocated so far.
    pub closed spec fn sets(&self) -> u32 {
        self.allocated_sets
    }

    /// Uniform-buffer descriptors allocated so far.
    pub closed spec fn uniform_buffers(&self) -> u32 {
        self.allocated_uniform_buffers
    }

    /// Image-sampler descriptors allocated so far.
    pub closed spec fn image_samplers(&self) -> u32 {
        self.allocated_image_samplers
    }

    /// A fresh pool: nothing allocated, capacity `DESCRIPTOR_POOL_CAPACITY` of each kind.
    pub fn new() -> (u: Self)
        ensures
            u.sets() == 0,
            u.uniform_buffers() == 0,
            u.image_samplers() == 0,
    {
        DescriptorSetPool {
            allocated_sets: 0,
            capacity_sets: DESCRIPTOR_POOL_CAPACITY,
            allocated_uniform_buffers: 0,
            capacity_uniform_buffers: DESCRIPTOR_POOL_CAPACITY,
            allocated_image_samplers: 0,
            capacity_image_samplers: DESCRIPTOR_POOL_CAPACITY,
        }
    }

    /// The counts allocated so far: sets, uniform-buffer descriptors, image-sampler descriptors.
    pub fn allocated(&self) -> (c: (u32, u32, u32))
        ensures
            c == (self.sets(), self.uniform_buffers(), self.image_samplers()),
    {
        (self.allocated_sets, self.allocated_uniform_buffers, self.allocated_image_samplers)
    }

    /// Records one descriptor set with `buffers` uniform-buffer and `images` image-sampler
    /// bindings.
    pub fn record_allocation(&mut self, buffers: usize, images: usize)
        requires
            old(self).sets() < u32::MAX,
            old(self).uniform_buffers() + (buffers as u32) <= u32::MAX,
            old(self).image_samplers() + (images as u32) <= u32::MAX,
        ensures
            final(self).sets() == old(self).sets() + 1,
            final(self).uniform_buffers() == old(self).uniform_buffers() + (buffers as u32),
            final(self).image_samplers() == old(self).image_samplers() + (images as u32),
    {
        proof {
            use_type_invariant(&*self);
        }
        self.allocated_sets = self.allocated_sets + 1;
        self.allocated_uniform_buffers = self.allocated_uniform_buffers + buffers as u32;
        self.allocated_image_samplers = self.allocated_image_samplers + images as u32;
    }

    /// The allocations fit the pool's capacity.
    pub fn within_capacity(&self) -> (b: bool)
        ensures
            b == (self.sets() <= DESCRIPTOR_POOL_CAPACITY && self.uniform_buffers()
                <= DESCRIPTOR_POOL_CAPACITY && self.image_samplers() <= DESCRIPTOR_POOL_CAPACITY),
    {
        proof {
            use_type_invariant(self);
        }
        self.allocated_sets <= self.capacity_sets && self.allocated_uniform_buffers
            <= self.capacity_uniform_buffers && self.allocated_image_samplers
            <= self.capacity_image_samplers
    }
}

} // verus!
