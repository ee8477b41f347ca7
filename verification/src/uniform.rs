//! Frame-scoped uniform memory: a bump allocator over a fixed backing
//! buffer of GPU-visible memory.  `reset` rewinds the cursor at the start
//! of each frame; regions handed out in one frame must not be used after
//! the next reset.

use crate::error::{CacheError, ResourceKind};
use vstd::prelude::*;

verus! {

/// A region of the uniform backing buffer: a byte offset and a size.
#[derive(Clone, Copy, Debug, PartialEq, Eq, Structural)]
pub struct UniformRegion {
    pub offset: u64,
    pub size: u64,
}

/// A monotonic bump allocator over a backing buffer of `capacity` bytes.
#[derive(Clone, Copy, Debug, PartialEq, Eq, Structural)]
pub struct UniformMemoryAllocator {
    pub cursor: u64,
    pub capacity: u64,
}

impl UniformMemoryAllocator {
    /// The write cursor never passes the end of the backing buffer.
    pub open spec fn inv(self) -> bool {
        self.cursor <= self.capacity
    }

    /// The state after a frame-start reset: the cursor back at zero.
    pub open spec fn spec_reset(self) -> UniformMemoryAllocator {
        UniformMemoryAllocator { cursor: 0, ..self }
    }

    /// The state transition and result of `allocate`: the next `size`
    /// bytes when they fit, no change and no region when they do not.
    pub open spec fn spec_allocate(self, size: u64) -> (UniformMemoryAllocator, Option<
        UniformRegion,
    >) {
        if self.cursor + size <= self.capacity {
            (
                UniformMemoryAllocator { cursor: (self.cursor + size) as u64, ..self },
                Some(UniformRegion { offset: self.cursor, size }),
            )
        } else {
            (self, None)
        }
    }

    /// An empty allocator over `capacity` bytes of backing memory.
    pub fn new(capacity: u64) -> (r: UniformMemoryAllocator)
        ensures
            r == (UniformMemoryAllocator { cursor: 0, capacity }),
            r.inv(),
    {
        UniformMemoryAllocator { cursor: 0, capacity }
    }

    /// Rewinds the cursor to the start of the backing buffer; called once
    /// per frame, before any pass of that frame runs.
    pub fn reset(&mut self)
        ensures
            *final(self) == old(self).spec_reset(),
            final(self).inv(),
    {
        self.cursor = 0;
    }

    /// Bumps the cursor past a fresh `size`-byte region and returns it, or
    /// fails as an out-of-memory uniform-buffer realization when the
    /// backing buffer has too little room left.
    pub fn allocate(&mut self, size: u64) -> (r: Result<UniformRegion, CacheError>)
        requires
            old(self).inv(),
        ensures
            *final(self) == old(self).spec_allocate(size).0,
            final(self).inv(),
            match r {
                Ok(region) => old(self).spec_allocate(size).1 == Some(region),
                Err(e) => {
                    &&& old(self).spec_allocate(size).1 is None
                    &&& e == CacheError::RealizationFailed(ResourceKind::UniformBuffer)
                },
            },
    {
        if size <= self.capacity - self.cursor {
            let region = UniformRegion { offset: self.cursor, size };
            self.cursor = self.cursor + size;
            Ok(region)
        } else {
            Err(CacheError::RealizationFailed(ResourceKind::UniformBuffer))
        }
    }
}

/// Reset discipline: directly after a frame-start `reset`, the first
/// allocation of the frame is served at offset zero.
pub proof fn lemma_reset_then_allocate(a: UniformMemoryAllocator, size: u64)
    requires
        size <= a.capacity,
    ensures
        a.spec_reset().spec_allocate(size).1 == Some(UniformRegion { offset: 0, size }),
{
}

/// Resetting twice is the same as resetting once.
pub proof fn lemma_reset_idempotent(a: UniformMemoryAllocator)
    ensures
        a.spec_reset().spec_reset() == a.spec_reset(),
{
}

} // verus!
