use vstd::prelude::*;

verus! {

use crate::cache::{CacheState, LatestValueCache};
use crate::measurement::Measurement;

/// A transient failure of the sensor's blocking read. The sampler
/// reports it, skips the cycle and keeps the last good reading; it is
/// never escalated and never crashes the process.
#[derive(Clone, Copy, Debug, PartialEq, Eq, Structural)]
pub struct SensorError;

/// The slot content after one sampler cycle: a successful read replaces
/// the stored reading, a failed read leaves the slot exactly as it was —
/// stale-but-valid data is preferred over erasing the last good reading.
pub open spec fn spec_cycle(
    prev: Option<Measurement>,
    reading: Result<Measurement, SensorError>,
) -> Option<Measurement> {
    match reading {
        Ok(m) => Some(m),
        Err(_) => prev,
    }
}

/// One sampler decision applied to the sequential slot: publish on
/// success, keep the last good reading on failure.
pub fn apply_reading(state: &mut CacheState, reading: Result<Measurement, SensorError>)
    ensures
        final(state)@ == spec_cycle(old(state)@, reading),
{
    match reading {
        Ok(m) => state.publish(m),
        Err(_) => {},
    }
}

/// One cycle of the sampler loop against the shared cache. The outcome
/// of the sensor's blocking read comes in as `reading`: a successful
/// reading is published whole; a failed one is skipped without touching
/// the cache, so the last good snapshot stays available. Returns whether
/// a reading was published. The fixed inter-cycle delay and the read
/// itself stay with the caller that drives the loop.
pub fn sampler_step(
    cache: &LatestValueCache,
    reading: Result<Measurement, SensorError>,
) -> (published: bool)
    ensures
        published == reading is Ok,
{
    match reading {
        Ok(m) => {
            cache.publish(m);
            true
        },
        Err(_) => false,
    }
}

/// The sampler's failure policy, stated once: a failed read changes
/// nothing, and a successful read installs exactly its measurement, so
/// any run of failures keeps the slot as it was until the next success.
pub proof fn lemma_cycle_policy(prev: Option<Measurement>, e: SensorError, m: Measurement)
    ensures
        spec_cycle(prev, Err(e)) == prev,
        spec_cycle(prev, Ok(m)) == Some(m),
{
}

} // verus!
