use weather_station::measurement::Measurement;
use weather_station::render::{render, replace_all};

#[test]
fn status_template_renders_pinned_values() {
    let template = b"T={{temperature}} P={{pressure}} H={{humidity}}";
    let snapshot = Some(Measurement::new(2005, 99950, 6005));
    assert_eq!(render(snapshot, template), b"T=20.1 P=1000 H=60.1".to_vec());
}

#[test]
fn each_field_formats_exactly() {
    let template = b"{{temperature}} {{pressure}} {{humidity}}";
    let snapshot = Some(Measurement::new(2346, 101340, 4523));
    let out = render(snapshot, template);
    assert_eq!(out, b"23.5 1013 45.2".to_vec());
}

#[test]
fn missing_snapshot_renders_defaults() {
    let template = b"T={{temperature}} P={{pressure}} H={{humidity}}";
    assert_eq!(render(None, template), b"T=0.0 P=0 H=0.0".to_vec());
}

#[test]
fn rendering_is_deterministic() {
    let template = b"<p>{{temperature}} {{pressure}} {{humidity}}</p>";
    let snapshot = Some(Measurement::new(-123, 98765, 10000));
    let first = render(snapshot, template);
    for _ in 0..10 {
        assert_eq!(render(snapshot, template), first);
    }
}

#[test]
fn template_without_tokens_passes_through() {
    let template = b"nothing to substitute here";
    let snapshot = Some(Measurement::new(2100, 100000, 5000));
    assert_eq!(render(snapshot, template), template.to_vec());
}

#[test]
fn malformed_token_is_left_alone() {
    let template = b"T={{temp}} H={{humidity}}";
    let snapshot = Some(Measurement::new(2100, 100000, 5000));
    assert_eq!(render(snapshot, template), b"T={{temp}} H=50.0".to_vec());
}

#[test]
fn every_occurrence_is_replaced() {
    let template = b"{{temperature}}/{{temperature}}";
    let snapshot = Some(Measurement::new(2100, 100000, 5000));
    assert_eq!(render(snapshot, template), b"21.0/21.0".to_vec());
}

#[test]
fn template_is_not_mutated() {
    let template: Vec<u8> = b"T={{temperature}}".to_vec();
    let snapshot = Some(Measurement::new(2100, 100000, 5000));
    let _ = render(snapshot, &template);
    assert_eq!(template, b"T={{temperature}}".to_vec());
    assert_eq!(render(snapshot, &template), b"T=21.0".to_vec());
}

#[test]
fn replace_all_substitutes_left_to_right() {
    assert_eq!(replace_all(b"abcabc", b"b", b"XY"), b"aXYcaXYc".to_vec());
}

#[test]
fn replace_all_without_occurrence_is_identity() {
    assert_eq!(replace_all(b"abcabc", b"zz", b"XY"), b"abcabc".to_vec());
}

#[test]
fn replace_all_with_empty_pattern_is_identity() {
    assert_eq!(replace_all(b"abc", b"", b"X"), b"abc".to_vec());
}

#[test]
fn replace_all_does_not_rescan_substituted_text() {
    assert_eq!(replace_all(b"aa", b"a", b"aa"), b"aaaa".to_vec());
    assert_eq!(replace_all(b"abab", b"ab", b"b"), b"bb".to_vec());
}
