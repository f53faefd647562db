use weather_station::cache::{CacheState, LatestValueCache};
use weather_station::measurement::Measurement;
use weather_station::sampler::{apply_reading, sampler_step, SensorError};

#[test]
fn failed_reads_keep_cache_empty_until_first_success() {
    let cache = LatestValueCache::new();
    for _ in 0..3 {
        let published = sampler_step(&cache, Err(SensorError));
        assert!(!published);
        assert_eq!(cache.snapshot(), None);
    }
    let m = Measurement::new(2346, 101340, 4523);
    let published = sampler_step(&cache, Ok(m));
    assert!(published);
    assert_eq!(cache.snapshot(), Some(m));
}

#[test]
fn failed_read_keeps_last_good_reading() {
    let cache = LatestValueCache::new();
    let m = Measurement::new(2100, 100000, 5000);
    assert!(sampler_step(&cache, Ok(m)));
    assert!(!sampler_step(&cache, Err(SensorError)));
    assert_eq!(cache.snapshot(), Some(m));
}

#[test]
fn successful_read_replaces_previous_reading() {
    let cache = LatestValueCache::new();
    let m1 = Measurement::new(2100, 100000, 5000);
    let m2 = Measurement::new(2150, 100050, 5050);
    assert!(sampler_step(&cache, Ok(m1)));
    assert!(sampler_step(&cache, Ok(m2)));
    assert_eq!(cache.snapshot(), Some(m2));
}

#[test]
fn apply_reading_follows_the_cycle_policy() {
    let mut slot = CacheState::new();
    apply_reading(&mut slot, Err(SensorError));
    assert_eq!(slot.snapshot(), None);
    let m = Measurement::new(7, 8, 9);
    apply_reading(&mut slot, Ok(m));
    assert_eq!(slot.snapshot(), Some(m));
    apply_reading(&mut slot, Err(SensorError));
    assert_eq!(slot.snapshot(), Some(m));
}
