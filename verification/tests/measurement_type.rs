use weather_station::measurement::Measurement;

#[test]
fn new_sets_all_three_fields() {
    let m = Measurement::new(2346, 101340, 4523);
    assert_eq!(m.temperature_centi, 2346);
    assert_eq!(m.pressure_centi, 101340);
    assert_eq!(m.humidity_centi, 4523);
}

#[test]
fn default_is_the_all_zero_reading() {
    let m = Measurement::default();
    assert_eq!(m, Measurement::new(0, 0, 0));
}

#[test]
fn readings_are_compared_by_value() {
    let a = Measurement::new(1, 2, 3);
    let b = Measurement::new(1, 2, 3);
    let c = b;
    assert_eq!(a, b);
    assert_eq!(b, c);
    assert_ne!(a, Measurement::new(1, 2, 4));
}
