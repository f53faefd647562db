use vstd::prelude::*;

verus! {

use crate::cache::LatestValueCache;
use crate::measurement::Measurement;
use crate::render::{render, spec_render};

/// Serves one GET of the status route: takes a point-in-time snapshot of
/// the cache — never blocking on the sensor, and safe to run concurrently
/// with the sampler and with any number of other handlers — renders it
/// against the shared read-only template, and returns the full response
/// body. The bytes are exactly the rendering of the snapshot the handler
/// observed; writing them out stays with the transport.
pub fn handle_request(cache: &LatestValueCache, template: &[u8]) -> (r: Vec<u8>)
    ensures
        exists|s: Option<Measurement>| r@ == #[trigger] spec_render(s, template@),
{
    let snap = cache.snapshot();
    let body = render(snap, template);
    proof {
        assert(body@ == spec_render(snap, template@));
    }
    body
}

} // verus!
