//! Bait, lure and structure suggestions for bass fishing from live and
//! caller-supplied conditions.
pub mod numeric;
pub mod calendar;
pub mod conditions;
pub mod tags;
pub mod rules;
pub mod solunar;
pub mod weather;
pub mod outlook;
pub mod water;
pub mod location;
pub mod species;
pub mod config;
pub mod report;
