use weather_station::cache::{CacheState, LatestValueCache};
use weather_station::handler::handle_request;
use weather_station::measurement::Measurement;
use weather_station::render::render;

#[test]
fn fresh_cache_has_no_reading() {
    let cache = LatestValueCache::new();
    assert_eq!(cache.snapshot(), None);
}

#[test]
fn snapshot_returns_published_reading_whole() {
    let cache = LatestValueCache::new();
    assert_eq!(cache.snapshot(), None);
    let m = Measurement::new(2100, 100000, 5000);
    cache.publish(m);
    assert_eq!(cache.snapshot(), Some(m));
}

#[test]
fn later_publish_wins() {
    let cache = LatestValueCache::new();
    let m1 = Measurement::new(2100, 100000, 5000);
    let m2 = Measurement::new(2200, 100100, 5100);
    cache.publish(m1);
    assert_eq!(cache.snapshot(), Some(m1));
    cache.publish(m2);
    assert_eq!(cache.snapshot(), Some(m2));
    assert_ne!(cache.snapshot(), Some(m1));
}

#[test]
fn repeated_snapshots_are_stable() {
    let cache = LatestValueCache::new();
    let m = Measurement::new(2346, 101340, 4523);
    cache.publish(m);
    for _ in 0..100 {
        let snap = cache.snapshot();
        assert_eq!(snap, Some(m));
    }
}

#[test]
fn sequential_slot_tracks_latest_value() {
    let mut slot = CacheState::new();
    assert_eq!(slot.snapshot(), None);
    let m1 = Measurement::new(1, 2, 3);
    let m2 = Measurement::new(4, 5, 6);
    slot.publish(m1);
    assert_eq!(slot.snapshot(), Some(m1));
    slot.publish(m2);
    assert_eq!(slot.snapshot(), Some(m2));
}

#[test]
fn handler_serves_rendered_snapshot() {
    let cache = LatestValueCache::new();
    let template = b"T={{temperature}} P={{pressure}} H={{humidity}}";
    assert_eq!(handle_request(&cache, template), b"T=0.0 P=0 H=0.0".to_vec());
    let m = Measurement::new(2005, 99950, 6005);
    cache.publish(m);
    assert_eq!(handle_request(&cache, template), b"T=20.1 P=1000 H=60.1".to_vec());
    assert_eq!(handle_request(&cache, template), render(Some(m), template));
}
