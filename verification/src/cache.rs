//! Per-frame GPU resource caches.
//!
//! A cache maps an immutable logical resource key to a realized GPU
//! resource handle together with a last-used frame stamp.  A lookup hit
//! refreshes the stamp; a miss realizes the resource synchronously and
//! inserts it, or fails leaving the cache unchanged.  A periodic sweep
//! between frames evicts entries whose stamp is older than a configured
//! frame-count threshold; entries touched during the current frame are
//! never evicted.

use crate::error::{CacheError, ResourceKind};
use vstd::pervasive::VecAdditionalExecFns;
use vstd::prelude::*;

verus! {

/// A logical resource description: its identity key and whether the
/// description can be realized into a GPU object (a shader that compiles,
/// a texture the device accepts).
#[derive(Clone, Copy, Debug, PartialEq, Eq, Structural)]
pub struct ResourceDescriptor {
    pub key: u64,
    pub realizable: bool,
}

/// One cache slot: a key, the realized handle, and the frame stamp of the
/// most recent use.
#[derive(Clone, Copy, Debug, PartialEq, Eq, Structural)]
pub struct CacheEntry {
    pub key: u64,
    pub handle: u64,
    pub last_used_frame: u64,
}

/// The mathematical state of a cache.
#[verifier::ext_equal]
pub struct CacheModel {
    pub entries: Seq<CacheEntry>,
    pub next_handle: u64,
    pub current_frame: u64,
    pub kind: ResourceKind,
}

/// The index of the entry with key `key`, or `-1` when no entry has it.
pub open spec fn find_idx(s: Seq<CacheEntry>, key: u64) -> int
    decreases s.len(),
{
    if s.len() == 0 {
        -1
    } else if s.last().key == key {
        s.len() - 1
    } else {
        find_idx(s.drop_last(), key)
    }
}

/// Whether an entry with stamp `e.last_used_frame` survives a sweep run at
/// frame `frame` with threshold `max_age`.
pub open spec fn entry_retained(frame: u64, max_age: u64, e: CacheEntry) -> bool {
    e.last_used_frame + max_age >= frame
}

/// The entries that survive a sweep, in their original order.
pub open spec fn keep_young(s: Seq<CacheEntry>, frame: u64, max_age: u64) -> Seq<CacheEntry>
    decreases s.len(),
{
    if s.len() == 0 {
        s
    } else {
        let rest = keep_young(s.drop_last(), frame, max_age);
        if entry_retained(frame, max_age, s.last()) {
            rest.push(s.last())
        } else {
            rest
        }
    }
}

impl CacheModel {
    /// Keys are unique, realized handles precede the allocation cursor,
    /// and no stamp lies in the future.
    pub open spec fn inv(self) -> bool {
        &&& forall|i: int, j: int|
            #![trigger self.entries[i], self.entries[j]]
            0 <= i < j < self.entries.len() ==> self.entries[i].key != self.entries[j].key
        &&& forall|i: int|
            0 <= i < self.entries.len() ==> #[trigger] self.entries[i].handle < self.next_handle
        &&& forall|i: int|
            0 <= i < self.entries.len() ==> #[trigger] self.entries[i].last_used_frame
                <= self.current_frame
    }

    /// Whether a resource with key `key` is cached.
    pub open spec fn has_key(self, key: u64) -> bool {
        find_idx(self.entries, key) >= 0
    }

    /// The realized handle cached under `key`.
    pub open spec fn handle_of(self, key: u64) -> u64 {
        self.entries[find_idx(self.entries, key)].handle
    }

    /// The last-used frame stamp of the entry cached under `key`.
    pub open spec fn stamp_of(self, key: u64) -> u64 {
        self.entries[find_idx(self.entries, key)].last_used_frame
    }

    /// The state transition and result of `get_or_create`: a hit refreshes
    /// the stamp and returns the cached handle; a miss realizes and inserts
    /// a fresh handle, or fails leaving the cache unchanged.
    pub open spec fn step(self, desc: ResourceDescriptor) -> (CacheModel, Result<
        u64,
        CacheError,
    >) {
        let i = find_idx(self.entries, desc.key);
        if i >= 0 {
            let e = self.entries[i];
            (
                CacheModel {
                    entries: self.entries.update(
                        i,
                        CacheEntry {
                            key: e.key,
                            handle: e.handle,
                            last_used_frame: self.current_frame,
                        },
                    ),
                    ..self
                },
                Ok(e.handle),
            )
        } else if desc.realizable && self.next_handle < u64::MAX {
            (
                CacheModel {
                    entries: self.entries.push(
                        CacheEntry {
                            key: desc.key,
                            handle: self.next_handle,
                            last_used_frame: self.current_frame,
                        },
                    ),
                    next_handle: (self.next_handle + 1) as u64,
                    ..self
                },
                Ok(self.next_handle),
            )
        } else {
            (self, Err(CacheError::RealizationFailed(self.kind)))
        }
    }

    /// The state transition of `begin_frame`.
    pub open spec fn advance_frame(self) -> CacheModel {
        CacheModel { current_frame: (self.current_frame + 1) as u64, ..self }
    }

    /// The state transition of `sweep`.
    pub open spec fn sweep_model(self, max_age: u64) -> CacheModel {
        CacheModel { entries: keep_young(self.entries, self.current_frame, max_age), ..self }
    }
}

/// Basic properties of `find_idx`: it stays in range, lands on the key it
/// was asked for, and is `-1` exactly when the key is absent.
pub proof fn lemma_find_idx(s: Seq<CacheEntry>, key: u64)
    ensures
        -1 <= find_idx(s, key) < s.len(),
        find_idx(s, key) >= 0 ==> s[find_idx(s, key)].key == key,
        find_idx(s, key) == -1 ==> forall|j: int| 0 <= j < s.len() ==> s[j].key != key,
    decreases s.len(),
{
    if s.len() > 0 && s.last().key != key {
        lemma_find_idx(s.drop_last(), key);
        if find_idx(s, key) == -1 {
            assert forall|j: int| 0 <= j < s.len() implies s[j].key != key by {
                if j < s.len() - 1 {
                    assert(s.drop_last()[j] == s[j]);
                }
            }
        }
    }
}

/// `find_idx` after a push: the new entry is found last, other keys as
/// before.
pub proof fn lemma_find_idx_push(s: Seq<CacheEntry>, e: CacheEntry, key: u64)
    ensures
        find_idx(s.push(e), key) == if e.key == key {
            s.len() as int
        } else {
            find_idx(s, key)
        },
{
    assert(s.push(e).drop_last() =~= s);
}

/// `find_idx` depends only on the keys of the entries.
pub proof fn lemma_find_idx_same_keys(s1: Seq<CacheEntry>, s2: Seq<CacheEntry>, key: u64)
    requires
        s1.len() == s2.len(),
        forall|j: int| 0 <= j < s1.len() ==> s1[j].key == #[trigger] s2[j].key,
    ensures
        find_idx(s1, key) == find_idx(s2, key),
    decreases s1.len(),
{
    if s1.len() > 0 {
        assert(s1.last().key == s2.last().key);
        lemma_find_idx_same_keys(s1.drop_last(), s2.drop_last(), key);
    }
}

/// What one `get_or_create` transition guarantees: the invariant is kept,
/// existing key-to-handle associations never change, success happens
/// exactly when the key is cached or the description is realizable with a
/// handle left to allocate, and failure leaves the state untouched.
pub proof fn lemma_step(m: CacheModel, desc: ResourceDescriptor)
    requires
        m.inv(),
    ensures
        ({
            let (m2, r) = m.step(desc);
            &&& m2.inv()
            &&& m2.kind == m.kind
            &&& m2.current_frame == m.current_frame
            &&& m.next_handle <= m2.next_handle <= m.next_handle + 1
            &&& forall|k: u64|
                m.has_key(k) ==> #[trigger] m2.has_key(k) && m2.handle_of(k) == m.handle_of(k)
            &&& forall|k: u64| k != desc.key ==> (#[trigger] m2.has_key(k) <==> m.has_key(k))
            &&& forall|k: u64|
                k != desc.key && m.has_key(k) ==> #[trigger] m2.stamp_of(k) == m.stamp_of(k)
            &&& r is Ok <==> (m.has_key(desc.key) || (desc.realizable && m.next_handle
                < u64::MAX))
            &&& r is Ok ==> m2.has_key(desc.key) && r == Ok::<u64, CacheError>(
                m2.handle_of(desc.key),
            ) && m2.stamp_of(desc.key) == m.current_frame
            &&& (r is Ok && m.has_key(desc.key)) ==> m2.handle_of(desc.key) == m.handle_of(
                desc.key,
            ) && m2.entries.len() == m.entries.len() && m2.next_handle == m.next_handle
            &&& (r is Ok && !m.has_key(desc.key)) ==> m2.handle_of(desc.key) == m.next_handle
                && m2.next_handle == m.next_handle + 1 && m2.entries.len() == m.entries.len() + 1
            &&& r is Err ==> m2 == m && r == Err::<u64, CacheError>(
                CacheError::RealizationFailed(m.kind),
            )
        }),
{
    let (m2, r) = m.step(desc);
    let s = m.entries;
    let i = find_idx(s, desc.key);
    lemma_find_idx(s, desc.key);
    if i >= 0 {
        let s2 = m2.entries;
        assert(forall|j: int| 0 <= j < s.len() ==> s[j].key == #[trigger] s2[j].key);
        assert forall|k: u64| true implies find_idx(s2, k) == find_idx(s, k) by {
            lemma_find_idx_same_keys(s, s2, k);
        }
        assert forall|k: u64| m.has_key(k) implies #[trigger] m2.has_key(k) && m2.handle_of(k)
            == m.handle_of(k) by {
            lemma_find_idx(s, k);
        }
        assert forall|k: u64| k != desc.key && m.has_key(k) implies #[trigger] m2.stamp_of(k)
            == m.stamp_of(k) by {
            lemma_find_idx(s, k);
            assert(find_idx(s, k) != i);
        }
        assert(find_idx(s2, desc.key) == i);
        assert(m2.handle_of(desc.key) == s[i].handle);
        assert(m2.stamp_of(desc.key) == m.current_frame);
        assert(m2.inv());
    } else if desc.realizable && m.next_handle < u64::MAX {
        let e = CacheEntry {
            key: desc.key,
            handle: m.next_handle,
            last_used_frame: m.current_frame,
        };
        let s2 = m2.entries;
        assert(s2 == s.push(e));
        assert forall|k: u64| true implies find_idx(s2, k) == if e.key == k {
            s.len() as int
        } else {
            find_idx(s, k)
        } by {
            lemma_find_idx_push(s, e, k);
        }
        assert forall|k: u64| m.has_key(k) implies #[trigger] m2.has_key(k) && m2.handle_of(k)
            == m.handle_of(k) by {
            lemma_find_idx(s, k);
        }
        assert forall|k: u64| k != desc.key && m.has_key(k) implies #[trigger] m2.stamp_of(k)
            == m.stamp_of(k) by {
            lemma_find_idx(s, k);
        }
        assert(m2.inv());
    }
}

/// Cache round trip: looking the same description up twice in a row gives
/// the same result both times, and the second lookup does not change the
/// cache at all (the stamp it refreshes is already current).
pub proof fn lemma_cache_round_trip(m: CacheModel, desc: ResourceDescriptor)
    requires
        m.inv(),
    ensures
        ({
            let (m1, r1) = m.step(desc);
            let (m2, r2) = m1.step(desc);
            &&& r2 == r1
            &&& m2 == m1
        }),
{
    let (m1, r1) = m.step(desc);
    let (m2, r2) = m1.step(desc);
    lemma_step(m, desc);
    lemma_step(m1, desc);
    if r1 is Ok {
        let i2 = find_idx(m1.entries, desc.key);
        lemma_find_idx(m1.entries, desc.key);
        assert(m1.stamp_of(desc.key) == m1.current_frame);
        assert(m1.entries[i2] == CacheEntry {
            key: desc.key,
            handle: m1.entries[i2].handle,
            last_used_frame: m1.current_frame,
        });
        assert(m1.entries.update(i2, m1.entries[i2]) =~= m1.entries);
        assert(m2 =~= m1);
    }
}

/// Properties of the sweep filter over a sequence with unique keys.
proof fn lemma_keep_young_props(s: Seq<CacheEntry>, frame: u64, max_age: u64)
    requires
        forall|i: int, j: int| #![trigger s[i], s[j]] 0 <= i < j < s.len() ==> s[i].key != s[j].key,
    ensures
        ({
            let w = keep_young(s, frame, max_age);
            &&& forall|i: int, j: int| #![trigger w[i], w[j]] 0 <= i < j < w.len() ==> w[i].key != w[j].key
            &&& forall|j: int| 0 <= j < w.len() ==> s.contains(#[trigger] w[j])
            &&& forall|k: u64|
                #[trigger] find_idx(w, k) >= 0 ==> find_idx(s, k) >= 0 && w[find_idx(w, k)]
                    == s[find_idx(s, k)]
            &&& forall|k: u64|
                find_idx(s, k) >= 0 ==> (#[trigger] find_idx(w, k) >= 0 <==> entry_retained(
                    frame,
                    max_age,
                    s[find_idx(s, k)],
                ))
            &&& forall|k: u64| find_idx(s, k) == -1 ==> #[trigger] find_idx(w, k) == -1
        }),
    decreases s.len(),
{
    let w = keep_young(s, frame, max_age);
    if s.len() == 0 {
    } else {
        let sd = s.drop_last();
        let wd = keep_young(sd, frame, max_age);
        lemma_keep_young_props(sd, frame, max_age);
        lemma_find_idx(s, s.last().key);
        assert(sd.push(s.last()) =~= s);
        assert forall|k: u64| true implies find_idx(s, k) == if s.last().key == k {
            sd.len() as int
        } else {
            find_idx(sd, k)
        } by {
            lemma_find_idx_push(sd, s.last(), k);
        }
        // the key of the last entry does not occur among the survivors of
        // the prefix
        assert(find_idx(wd, s.last().key) == -1) by {
            lemma_find_idx(wd, s.last().key);
            if find_idx(wd, s.last().key) >= 0 {
                let fis = find_idx(sd, s.last().key);
                lemma_find_idx(sd, s.last().key);
                assert(fis >= 0);
                assert(sd[fis] == s[fis]);
                assert(s[fis].key == s[s.len() - 1].key);
                assert(false);
            }
        }
        if entry_retained(frame, max_age, s.last()) {
            assert(w == wd.push(s.last()));
            assert forall|k: u64| true implies find_idx(w, k) == if s.last().key == k {
                wd.len() as int
            } else {
                find_idx(wd, k)
            } by {
                lemma_find_idx_push(wd, s.last(), k);
            }
            assert forall|j: int| 0 <= j < w.len() implies s.contains(#[trigger] w[j]) by {
                if j < wd.len() {
                    assert(sd.contains(wd[j]));
                    let i = choose|i: int| 0 <= i < sd.len() && sd[i] == wd[j];
                    assert(s[i] == wd[j]);
                } else {
                    assert(w[j] == s[s.len() - 1]);
                }
            }
            assert forall|k: u64| #[trigger] find_idx(w, k) >= 0 implies find_idx(s, k) >= 0
                && w[find_idx(w, k)] == s[find_idx(s, k)] by {
                if s.last().key != k {
                    lemma_find_idx(wd, k);
                    lemma_find_idx(sd, k);
                    let fis = find_idx(sd, k);
                    if fis >= 0 {
                        assert(sd[fis] == s[fis]);
                    }
                }
            }
            assert forall|k: u64| find_idx(s, k) >= 0 implies (#[trigger] find_idx(w, k) >= 0
                <==> entry_retained(frame, max_age, s[find_idx(s, k)])) by {
                if s.last().key != k {
                    lemma_find_idx(sd, k);
                    let fis = find_idx(sd, k);
                    assert(fis >= 0);
                    assert(sd[fis] == s[fis]);
                }
            }
        } else {
            assert(w == wd);
            assert forall|j: int| 0 <= j < w.len() implies s.contains(#[trigger] w[j]) by {
                assert(sd.contains(wd[j]));
                let i = choose|i: int| 0 <= i < sd.len() && sd[i] == wd[j];
                assert(s[i] == wd[j]);
            }
            assert forall|k: u64| #[trigger] find_idx(w, k) >= 0 implies find_idx(s, k) >= 0
                && w[find_idx(w, k)] == s[find_idx(s, k)] by {
                lemma_find_idx(wd, k);
                assert(k != s.last().key);
                lemma_find_idx(sd, k);
                let fis = find_idx(sd, k);
                if fis >= 0 {
                    assert(sd[fis] == s[fis]);
                }
            }
            assert forall|k: u64| find_idx(s, k) >= 0 implies (#[trigger] find_idx(w, k) >= 0
                <==> entry_retained(frame, max_age, s[find_idx(s, k)])) by {
                if s.last().key == k {
                    assert(s[find_idx(s, k)] == s.last());
                } else {
                    lemma_find_idx(sd, k);
                    let fis = find_idx(sd, k);
                    assert(fis >= 0);
                    assert(sd[fis] == s[fis]);
                }
            }
        }
    }
}

/// What a sweep guarantees: surviving entries keep their handle and stamp,
/// an entry survives exactly when its stamp is within the threshold, and
/// nothing appears out of thin air.
pub proof fn lemma_sweep(m: CacheModel, max_age: u64)
    requires
        m.inv(),
    ensures
        ({
            let w = m.sweep_model(max_age);
            &&& w.inv()
            &&& w.kind == m.kind
            &&& w.current_frame == m.current_frame
            &&& w.next_handle == m.next_handle
            &&& forall|k: u64|
                #[trigger] w.has_key(k) ==> m.has_key(k) && w.handle_of(k) == m.handle_of(k)
                    && w.stamp_of(k) == m.stamp_of(k)
            &&& forall|k: u64|
                m.has_key(k) ==> (#[trigger] w.has_key(k) <==> m.stamp_of(k) + max_age
                    >= m.current_frame)
            &&& forall|k: u64| !m.has_key(k) ==> !(#[trigger] w.has_key(k))
        }),
{
    let w = m.sweep_model(max_age);
    lemma_keep_young_props(m.entries, m.current_frame, max_age);
    assert forall|i: int| 0 <= i < w.entries.len() implies #[trigger] w.entries[i].handle
        < w.next_handle && w.entries[i].last_used_frame <= w.current_frame by {
        assert(m.entries.contains(w.entries[i]));
        let j = choose|j: int| 0 <= j < m.entries.len() && m.entries[j] == w.entries[i];
        assert(m.entries[j].handle < m.next_handle);
    }
    assert forall|k: u64| m.has_key(k) implies (#[trigger] w.has_key(k) <==> m.stamp_of(k)
        + max_age >= m.current_frame) by {
        lemma_find_idx(m.entries, k);
    }
}

/// Protection from eviction: an entry touched during the current frame is
/// never removed by a sweep run at that frame, whatever the threshold.
pub proof fn lemma_sweep_protects_current(m: CacheModel, max_age: u64, key: u64)
    requires
        m.inv(),
        m.has_key(key),
        m.stamp_of(key) == m.current_frame,
    ensures
        m.sweep_model(max_age).has_key(key),
        m.sweep_model(max_age).handle_of(key) == m.handle_of(key),
        m.sweep_model(max_age).stamp_of(key) == m.stamp_of(key),
{
    lemma_sweep(m, max_age);
}

/// A key-to-handle-and-stamp cache for one kind of GPU resource.
#[derive(Debug)]
pub struct ResourceCache {
    pub entries: Vec<CacheEntry>,
    pub next_handle: u64,
    pub current_frame: u64,
    pub kind: ResourceKind,
}

impl View for ResourceCache {
    type V = CacheModel;

    open spec fn view(&self) -> CacheModel {
        CacheModel {
            entries: self.entries@,
            next_handle: self.next_handle,
            current_frame: self.current_frame,
            kind: self.kind,
        }
    }
}

impl ResourceCache {
    /// An empty cache for resources of the given kind.
    pub fn new(kind: ResourceKind) -> (r: ResourceCache)
        ensures
            r@ == (CacheModel {
                entries: Seq::<CacheEntry>::empty(),
                next_handle: 0,
                current_frame: 0,
                kind,
            }),
            r@.inv(),
    {
        let r = ResourceCache { entries: Vec::new(), next_handle: 0, current_frame: 0, kind };
        proof {
            assert(r@.entries =~= Seq::<CacheEntry>::empty());
            assert(r@ =~= CacheModel {
                entries: Seq::<CacheEntry>::empty(),
                next_handle: 0,
                current_frame: 0,
                kind,
            });
        }
        r
    }

    /// On a hit, returns the cached handle and refreshes the entry's
    /// last-used stamp; on a miss, realizes the resource and inserts it
    /// under a fresh handle, or reports the failure and leaves the cache
    /// unchanged.
    #[verifier::loop_isolation(false)]
    pub fn get_or_create(&mut self, desc: &ResourceDescriptor) -> (r: Result<u64, CacheError>)
        requires
            old(self)@.inv(),
        ensures
            final(self)@ == old(self)@.step(*desc).0,
            r == old(self)@.step(*desc).1,
    {
        let ghost m = old(self)@;
        let mut i: usize = 0;
        while i < self.entries.len()
            invariant
                self@ == m,
                m.inv(),
                i <= self.entries@.len(),
                forall|j: int| 0 <= j < i ==> self.entries@[j].key != desc.key,
            decreases self.entries@.len() - i,
        {
            if self.entries[i].key == desc.key {
                proof {
                    lemma_find_idx(m.entries, desc.key);
                    assert(find_idx(m.entries, desc.key) == i);
                }
                let found = self.entries[i];
                let handle = found.handle;
                self.entries.set(
                    i,
                    CacheEntry { key: found.key, handle, last_used_frame: self.current_frame },
                );
                proof {
                    assert(self@ =~= m.step(*desc).0);
                }
                return Ok(handle);
            }
            i = i + 1;
        }
        proof {
            lemma_find_idx(m.entries, desc.key);
            assert(find_idx(m.entries, desc.key) == -1);
        }
        if desc.realizable && self.next_handle < u64::MAX {
            let handle = self.next_handle;
            self.entries.push(
                CacheEntry { key: desc.key, handle, last_used_frame: self.current_frame },
            );
            self.next_handle = self.next_handle + 1;
            proof {
                assert(self@ =~= m.step(*desc).0);
            }
            Ok(handle)
        } else {
            Err(CacheError::RealizationFailed(self.kind))
        }
    }

    /// Advances the cache's frame counter; run once at the start of each
    /// frame, before any pass.
    pub fn begin_frame(&mut self)
        requires
            old(self)@.inv(),
            old(self).current_frame < u64::MAX,
        ensures
            final(self)@ == old(self)@.advance_frame(),
            final(self)@.inv(),
    {
        self.current_frame = self.current_frame + 1;
        proof {
            assert(self@ =~= old(self)@.advance_frame());
        }
    }

    /// Evicts every entry whose last-used stamp is more than `max_age`
    /// frames old; entries used during the current frame always survive.
    #[verifier::loop_isolation(false)]
    pub fn sweep(&mut self, max_age: u64)
        requires
            old(self)@.inv(),
        ensures
            final(self)@ == old(self)@.sweep_model(max_age),
            final(self)@.inv(),
    {
        let ghost m = old(self)@;
        let mut kept: Vec<CacheEntry> = Vec::new();
        let mut i: usize = 0;
        while i < self.entries.len()
            invariant
                self@ == m,
                i <= self.entries@.len(),
                kept@ == keep_young(m.entries.take(i as int), m.current_frame, max_age),
            decreases self.entries@.len() - i,
        {
            let e = self.entries[i];
            proof {
                assert(m.entries.take(i + 1).drop_last() =~= m.entries.take(i as int));
                assert(m.entries.take(i + 1).last() == m.entries[i as int]);
            }
            if e.last_used_frame.saturating_add(max_age) >= self.current_frame {
                kept.push(e);
            }
            i = i + 1;
        }
        proof {
            assert(m.entries.take(m.entries.len() as int) =~= m.entries);
        }
        self.entries = kept;
        proof {
            assert(self@ =~= m.sweep_model(max_age));
            lemma_sweep(m, max_age);
        }
    }
}

} // verus!
