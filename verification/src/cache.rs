use vstd::prelude::*;

verus! {

use vstd::rwlock::{RwLock, RwLockPredicate};
use crate::measurement::Measurement;

/// The slot's content after a completed publish of `m`, whatever it held
/// before: the cache is last-value-wins with capacity exactly one.
pub open spec fn spec_publish(prev: Option<Measurement>, m: Measurement) -> Option<Measurement> {
    Some(m)
}

/// The sequential content of the latest-value cache: at most one reading,
/// and none before the first publish. Its view is that content.
pub struct CacheState {
    value: Option<Measurement>,
}

impl View for CacheState {
    type V = Option<Measurement>;

    closed spec fn view(&self) -> Option<Measurement> {
        self.value
    }
}

impl CacheState {
    /// An empty slot: no reading has been published yet.
    pub fn new() -> (s: Self)
        ensures
            s@ is None,
    {
        CacheState { value: None }
    }

    /// Replaces the stored reading with `m`, whole: afterwards the slot
    /// holds exactly `m`, whatever it held before.
    pub fn publish(&mut self, m: Measurement)
        ensures
            final(self)@ == spec_publish(old(self)@, m),
    {
        self.value = Some(m);
    }

    /// A point-in-time read of the slot: exactly the stored reading, as a
    /// copy — `None` before the first publish, never a partial value, and
    /// never a reference into the slot that a later publish could race.
    pub fn snapshot(&self) -> (r: Option<Measurement>)
        ensures
            r == self@,
    {
        self.value
    }
}

/// The invariant on what the lock may store: any whole `CacheState`.
/// Every reading is valid, so the discipline the lock enforces is purely
/// about atomicity and ordering, not about the values themselves.
pub struct CachePred {}

impl RwLockPredicate<CacheState> for CachePred {
    open spec fn inv(self, v: CacheState) -> bool {
        true
    }
}

/// Latest-value cache: a single [`CacheState`] slot guarded by vstd's
/// verified reader–writer lock. Any number of `snapshot` calls proceed
/// concurrently without serializing against each other; a `publish`
/// holds the write side alone, and the lock moves whole values in and
/// out of its cell, so a reader observes either the prior reading or the
/// new one in full — never a torn mix of fields.
pub struct LatestValueCache {
    slot: RwLock<CacheState, CachePred>,
}

impl LatestValueCache {
    /// A fresh cache with an empty slot: created once at process start;
    /// the first snapshot taken before any publish returns `None`.
    pub fn new() -> (c: Self) {
        LatestValueCache { slot: RwLock::new(CacheState::new(), Ghost(CachePred {})) }
    }

    /// Replaces the cached reading with `m`. The write lock serializes
    /// this against readers and against any other writer; once the call
    /// returns, the slot holds exactly `m`, and a later snapshot observes
    /// `m` or a yet newer published reading — never an older one.
    pub fn publish(&self, m: Measurement) {
        let (mut state, handle) = self.slot.acquire_write();
        state.publish(m);
        handle.release_write(state);
    }

    /// A point-in-time, non-blocking-on-the-sensor read of the cache:
    /// `None` until the first publish completes, afterwards the most
    /// recently published reading, copied out whole under the read lock.
    /// It never waits for a fresher value.
    pub fn snapshot(&self) -> (r: Option<Measurement>) {
        let handle = self.slot.acquire_read();
        let r = handle.borrow().snapshot();
        handle.release_read();
        r
    }
}

/// No tearing: a publish stores its reading whole. A snapshot that
/// observes the slot after `publish(m)` completes sees exactly `m` in all
/// three fields, and one that observes it before sees the prior content
/// whole; no interleaving yields a mix, since the slot always holds one
/// complete `Option<Measurement>` and the lock admits no reader while a
/// writer holds the cell.
pub proof fn lemma_publish_whole(prev: Option<Measurement>, m: Measurement)
    ensures
        spec_publish(prev, m) == Some(m),
        spec_publish(prev, m)->Some_0.temperature_centi == m.temperature_centi,
        spec_publish(prev, m)->Some_0.pressure_centi == m.pressure_centi,
        spec_publish(prev, m)->Some_0.humidity_centi == m.humidity_centi,
{
}

/// Monotonic visibility: publishes are serialized by the write lock, and
/// a later publish overwrites an earlier one completely — after
/// `publish(m1)` and then `publish(m2)` the slot holds `m2`, with no
/// dependence on `m1`, so a snapshot taken after the second publish
/// completes can no longer observe the first reading.
pub proof fn lemma_publish_last_wins(prev: Option<Measurement>, m1: Measurement, m2: Measurement)
    ensures
        spec_publish(spec_publish(prev, m1), m2) == Some(m2),
{
}

} // verus!
