use forward_pass::cache::{ResourceCache, ResourceDescriptor};
use forward_pass::error::{CacheError, ResourceKind};
use forward_pass::math::{Matrix4, Vector3};
use forward_pass::uniform::{UniformMemoryAllocator, UniformRegion};

fn matrix(entries: [i64; 16]) -> Matrix4 {
    Matrix4 { entries: entries.to_vec() }
}

#[test]
fn matrix_multiply_identity() {
    let identity = matrix([1, 0, 0, 0, 0, 1, 0, 0, 0, 0, 1, 0, 0, 0, 0, 1]);
    let m = matrix([1, 2, 3, 4, 5, 6, 7, 8, 9, 10, 11, 12, 13, 14, 15, 16]);
    let r = identity.multiply(&m);
    assert_eq!(r.entries, m.entries);
}

#[test]
fn matrix_multiply_exact_entries() {
    let a = matrix([1, 2, 0, 0, 3, 4, 0, 0, 0, 0, 1, 0, 0, 0, 0, 1]);
    let b = matrix([5, 6, 0, 0, 7, 8, 0, 0, 0, 0, 1, 0, 0, 0, 0, 1]);
    let r = a.multiply(&b);
    // top-left block: [1 2; 3 4] * [5 6; 7 8] == [19 22; 43 50]
    assert_eq!(r.entries[0], 19);
    assert_eq!(r.entries[1], 22);
    assert_eq!(r.entries[4], 43);
    assert_eq!(r.entries[5], 50);
}

#[test]
fn matrix_basis_vectors() {
    let m = matrix([1, 2, 3, 4, 5, 6, 7, 8, 9, 10, 11, 12, 13, 14, 15, 16]);
    assert_eq!(m.side(), Vector3 { x: 1, y: 5, z: 9 });
    assert_eq!(m.up(), Vector3 { x: 2, y: 6, z: 10 });
}

#[test]
fn cache_round_trip_returns_identical_handle() {
    let mut cache = ResourceCache::new(ResourceKind::Shader);
    let desc = ResourceDescriptor { key: 42, realizable: true };
    let first = cache.get_or_create(&desc).unwrap();
    let second = cache.get_or_create(&desc).unwrap();
    assert_eq!(first, second);
    // no duplicate realization: one entry, one handle handed out
    assert_eq!(cache.entries.len(), 1);
    assert_eq!(cache.next_handle, 1);
}

#[test]
fn cache_second_lookup_only_touches_the_stamp() {
    let mut cache = ResourceCache::new(ResourceKind::Texture);
    let desc = ResourceDescriptor { key: 9, realizable: true };
    cache.get_or_create(&desc).unwrap();
    cache.begin_frame();
    cache.get_or_create(&desc).unwrap();
    assert_eq!(cache.entries.len(), 1);
    assert_eq!(cache.entries[0].key, 9);
    assert_eq!(cache.entries[0].last_used_frame, 1);
}

#[test]
fn cache_distinct_keys_get_distinct_handles() {
    let mut cache = ResourceCache::new(ResourceKind::Geometry);
    let a = cache.get_or_create(&ResourceDescriptor { key: 1, realizable: true }).unwrap();
    let b = cache.get_or_create(&ResourceDescriptor { key: 2, realizable: true }).unwrap();
    assert_ne!(a, b);
    assert_eq!(cache.entries.len(), 2);
}

#[test]
fn cache_realization_failure_leaves_cache_unchanged() {
    let mut cache = ResourceCache::new(ResourceKind::Shader);
    cache.get_or_create(&ResourceDescriptor { key: 1, realizable: true }).unwrap();
    let r = cache.get_or_create(&ResourceDescriptor { key: 2, realizable: false });
    assert_eq!(r, Err(CacheError::RealizationFailed(ResourceKind::Shader)));
    assert_eq!(cache.entries.len(), 1);
    assert_eq!(cache.next_handle, 1);
}

#[test]
fn sweep_evicts_only_stale_entries() {
    let mut cache = ResourceCache::new(ResourceKind::Texture);
    cache.get_or_create(&ResourceDescriptor { key: 1, realizable: true }).unwrap();
    cache.begin_frame();
    cache.begin_frame();
    cache.begin_frame();
    cache.get_or_create(&ResourceDescriptor { key: 2, realizable: true }).unwrap();
    // key 1 was last used at frame 0, key 2 at frame 3
    cache.sweep(1);
    assert_eq!(cache.entries.len(), 1);
    assert_eq!(cache.entries[0].key, 2);
}

#[test]
fn sweep_never_evicts_entries_touched_this_frame() {
    let mut cache = ResourceCache::new(ResourceKind::Shader);
    cache.begin_frame();
    cache.get_or_create(&ResourceDescriptor { key: 7, realizable: true }).unwrap();
    // a sweep right after the pass, even with threshold zero
    cache.sweep(0);
    assert_eq!(cache.entries.len(), 1);
    assert_eq!(cache.entries[0].key, 7);
}

#[test]
fn allocator_first_allocation_after_reset_is_at_offset_zero() {
    let mut allocator = UniformMemoryAllocator::new(1024);
    allocator.allocate(100).unwrap();
    allocator.reset();
    let region = allocator.allocate(64).unwrap();
    assert_eq!(region, UniformRegion { offset: 0, size: 64 });
}

#[test]
fn allocator_bumps_monotonically() {
    let mut allocator = UniformMemoryAllocator::new(1024);
    let a = allocator.allocate(100).unwrap();
    let b = allocator.allocate(50).unwrap();
    assert_eq!(a.offset, 0);
    assert_eq!(b.offset, 100);
    assert_eq!(allocator.cursor, 150);
}

#[test]
fn allocator_fails_when_backing_memory_runs_out() {
    let mut allocator = UniformMemoryAllocator::new(128);
    allocator.allocate(100).unwrap();
    let r = allocator.allocate(64);
    assert_eq!(r, Err(CacheError::RealizationFailed(ResourceKind::UniformBuffer)));
    // the failed allocation did not move the cursor
    assert_eq!(allocator.cursor, 100);
}
