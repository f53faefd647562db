use vstd::prelude::*;

verus! {

/// One immutable sensor reading.
///
/// Each field is a fixed-point value in hundredths of its unit: a
/// temperature of 23.46 degrees is stored as `2346`, a pressure of 1013.4
/// as `101340`, a relative humidity of 45.23 percent as `4523`. A reading
/// has no identity beyond its three values and is consumed by copy.
#[derive(Clone, Copy, Debug, PartialEq, Eq, Structural)]
pub struct Measurement {
    /// Temperature, in hundredths of a degree.
    pub temperature_centi: i32,
    /// Pressure, in hundredths of the display unit.
    pub pressure_centi: i32,
    /// Relative humidity, in hundredths of a percent.
    pub humidity_centi: i32,
}

impl Measurement {
    /// Constructs a reading from its three fixed-point fields.
    pub fn new(temperature_centi: i32, pressure_centi: i32, humidity_centi: i32) -> (m: Self)
        ensures
            m == (Measurement { temperature_centi, pressure_centi, humidity_centi }),
    {
        Measurement { temperature_centi, pressure_centi, humidity_centi }
    }
}

/// The reading whose three fields are all zero: what a renderer shows
/// before the first sample ever arrives.
pub open spec fn zero_measurement() -> Measurement {
    Measurement { temperature_centi: 0, pressure_centi: 0, humidity_centi: 0 }
}

impl Default for Measurement {
    /// The all-zero reading.
    fn default() -> (m: Self)
        ensures
            m == zero_measurement(),
    {
        Measurement { temperature_centi: 0, pressure_centi: 0, humidity_centi: 0 }
    }
}

} // verus!
