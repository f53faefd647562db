//! A sensor status station: a sampler publishes the latest
//! temperature/pressure/humidity reading into a single-slot cache, and
//! request handlers render a point-in-time snapshot of that reading into a
//! textual document.
//!
//! Readings are carried as fixed-point integers (hundredths of a unit), so
//! every rule about rounding and formatting is stated and proved exactly.
//! The cache is a verified reader–writer lock around one whole reading:
//! snapshots run concurrently, a publish is serialized against them, and a
//! reading is only ever stored or observed in full.

pub mod cache;
pub mod format;
pub mod handler;
pub mod measurement;
pub mod render;
pub mod sampler;
