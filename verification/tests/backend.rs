use render_core::command_pool::CommandBufferPair;
use render_core::descriptor_pool::{DescriptorSetPool, DESCRIPTOR_POOL_CAPACITY};
use render_core::device::{
    BufferMemoryTypes,
    fill_strategy, get_aspect_mask, get_timestamps_pair, image_view_type, pick_buffer_memory_type,
    pick_image_memory_type, upload_usage, FillStrategy, VulkanRenderConfig, ASPECT_COLOR,
    ASPECT_DEPTH, ASPECT_STENCIL, MEMORY_DEVICE_LOCAL, MEMORY_HOST_COHERENT, MEMORY_HOST_VISIBLE,
    TIME_DOMAIN_CLOCK_MONOTONIC, TIME_DOMAIN_DEVICE, USAGE_TRANSFER_DST,
};
use render_core::staging::{buffer_copy_region, BufferCopyRegion, StagingManager, STAGING_BUFFER_SIZE};

#[test]
fn msaa_sample_flags() {
    assert_eq!(VulkanRenderConfig { msaa_samples: None }.get_msaa_samples(), None);
    assert_eq!(VulkanRenderConfig { msaa_samples: Some(4) }.get_msaa_samples(), Some(4));
    assert_eq!(VulkanRenderConfig { msaa_samples: Some(64) }.get_msaa_samples(), Some(64));
    assert_eq!(VulkanRenderConfig { msaa_samples: Some(3) }.get_msaa_samples(), Some(1));
    assert_eq!(VulkanRenderConfig { msaa_samples: Some(128) }.get_msaa_samples(), Some(1));
}

#[test]
fn aspect_masks() {
    assert_eq!(get_aspect_mask(124), ASPECT_DEPTH);
    assert_eq!(get_aspect_mask(126), ASPECT_DEPTH);
    assert_eq!(get_aspect_mask(129), ASPECT_DEPTH | ASPECT_STENCIL);
    assert_eq!(get_aspect_mask(130), ASPECT_DEPTH | ASPECT_STENCIL);
    assert_eq!(get_aspect_mask(37), ASPECT_COLOR);
}

#[test]
fn buffer_memory_prefers_allowed_then_device_local() {
    let flags = [MEMORY_HOST_VISIBLE | MEMORY_HOST_COHERENT, MEMORY_DEVICE_LOCAL, MEMORY_DEVICE_LOCAL];
    // all allowed: the last device-local type wins the tie
    assert_eq!(pick_buffer_memory_type(0b111, &flags), 2);
    // only type 0 allowed
    assert_eq!(pick_buffer_memory_type(0b001, &flags), 0);
    // types 0 and 1 allowed
    assert_eq!(pick_buffer_memory_type(0b011, &flags), 1);
    // nothing allowed: device-local still preferred
    assert_eq!(pick_buffer_memory_type(0, &flags), 2);
}

#[test]
fn image_memory_first_allowed_device_local() {
    let flags = [MEMORY_HOST_VISIBLE, MEMORY_DEVICE_LOCAL, MEMORY_DEVICE_LOCAL];
    assert_eq!(pick_image_memory_type(0b111, &flags), Some(1));
    assert_eq!(pick_image_memory_type(0b100, &flags), Some(2));
    assert_eq!(pick_image_memory_type(0b001, &flags), None);
    assert_eq!(pick_image_memory_type(0b111, &[]), None);
}

#[test]
fn upload_usage_adds_transfer_dst_for_device_memory() {
    assert_eq!(upload_usage(0x80, MEMORY_DEVICE_LOCAL), 0x80 | USAGE_TRANSFER_DST);
    assert_eq!(upload_usage(0x80, MEMORY_HOST_VISIBLE), 0x80);
}

#[test]
fn fill_strategies() {
    assert_eq!(fill_strategy(MEMORY_HOST_VISIBLE | MEMORY_HOST_COHERENT), FillStrategy::MapCoherent);
    assert_eq!(fill_strategy(MEMORY_HOST_VISIBLE), FillStrategy::MapAndFlush);
    assert_eq!(fill_strategy(MEMORY_DEVICE_LOCAL), FillStrategy::Staging);
}

#[test]
fn image_view_types() {
    assert_eq!(image_view_type(0), Some(0));
    assert_eq!(image_view_type(1), Some(1));
    assert_eq!(image_view_type(2), Some(2));
    assert_eq!(image_view_type(3), None);
}

#[test]
fn timestamps_pair_needs_both_domains() {
    assert_eq!(get_timestamps_pair(&[]), None);
    assert_eq!(get_timestamps_pair(&[(TIME_DOMAIN_DEVICE, 5)]), None);
    assert_eq!(
        get_timestamps_pair(&[(TIME_DOMAIN_DEVICE, 5), (TIME_DOMAIN_CLOCK_MONOTONIC, 9)]),
        Some((5, 9))
    );
    assert_eq!(
        get_timestamps_pair(&[
            (TIME_DOMAIN_CLOCK_MONOTONIC, 9),
            (3, 100),
            (TIME_DOMAIN_DEVICE, 5),
            (TIME_DOMAIN_DEVICE, 6),
        ]),
        Some((6, 9))
    );
}

#[test]
fn staging_empty_allocates_at_zero() {
    let mut s = StagingManager::new();
    assert!(s.can_allocate(100));
    assert_eq!(s.allocate(100), 0..100);
}

#[test]
fn staging_allocations_are_disjoint_and_first_fit() {
    let mut s = StagingManager::new();
    let a = s.allocate(100);
    let b = s.allocate(50);
    assert_eq!(a, 0..100);
    assert_eq!(b, 100..150);
    assert!(a.end <= b.start || b.end <= a.start);
    s.free_allocations();
    assert_eq!(s.allocate(10), 0..10);
}

#[test]
fn staging_too_large_is_refused() {
    let mut s = StagingManager::new();
    assert!(!s.can_allocate(STAGING_BUFFER_SIZE + 1));
    assert!(s.can_allocate(STAGING_BUFFER_SIZE));
    assert_eq!(s.allocate(STAGING_BUFFER_SIZE), 0..STAGING_BUFFER_SIZE);
    assert!(!s.can_allocate(1));
    assert!(s.can_allocate(0));
}

#[test]
fn staging_zero_size() {
    let mut s = StagingManager::new();
    assert_eq!(s.allocate(0), 0..0);
    // an empty range takes nothing: the next range starts at the same offset and is recorded,
    // so a later one does not overlap it
    assert_eq!(s.allocate(8), 0..8);
    assert_eq!(s.allocate(4), 8..12);
    assert_eq!(s.allocate(0), 0..0);
}

#[test]
fn copy_region_of_staging_range() {
    assert_eq!(
        buffer_copy_region(&(64..96), 8),
        BufferCopyRegion { size: 32, src_offset: 64, dst_offset: 8 }
    );
}

#[test]
fn command_buffers_alternate() {
    let mut p = CommandBufferPair::new([10u64, 20u64]);
    assert_eq!(p.current_cb(), 10);
    assert_eq!(p.swap_buffers(), 10);
    assert_eq!(p.current_cb(), 20);
    assert_eq!(p.swap_buffers(), 20);
    assert_eq!(p.current_cb(), 10);
}

#[test]
fn descriptor_pool_capacity() {
    let mut u = DescriptorSetPool::new();
    assert!(u.within_capacity());
    for _ in 0..DESCRIPTOR_POOL_CAPACITY {
        u.record_allocation(1, 1);
    }
    assert!(u.within_capacity());
    u.record_allocation(2, 0);
    assert!(!u.within_capacity());
}

#[test]
fn descriptor_pool_counts() {
    let mut u = DescriptorSetPool::new();
    assert_eq!(u.allocated(), (0, 0, 0));
    u.record_allocation(2, 1);
    u.record_allocation(0, 3);
    assert_eq!(u.allocated(), (2, 2, 4));
}

#[test]
fn buffer_memory_type_is_found_once_per_kind() {
    let flags = [MEMORY_HOST_VISIBLE | MEMORY_HOST_COHERENT, MEMORY_DEVICE_LOCAL];
    let mut c = BufferMemoryTypes::new();
    assert_eq!(c.get((0x80, 0)), None);
    assert_eq!(c.get_or_pick((0x80, 0), 0b11, &flags), 1);
    // a later lookup of the same kind keeps the first answer, whatever the bits now say
    assert_eq!(c.get_or_pick((0x80, 0), 0b01, &flags), 1);
    assert_eq!(c.get((0x80, 0)), Some(1));
    assert_eq!(c.get_or_pick((0x10, 0), 0b01, &flags), 0);
    assert_eq!(c.get((0x80, 0)), Some(1));
    assert_eq!(c.get((0x10, 0)), Some(0));
}
