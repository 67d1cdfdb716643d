//! Resolution of the current instant for a time zone from a loosely shaped
//! remote payload, with a fallback to the local clock.

pub mod payload;
pub mod coerce;
pub mod timestamp;
pub mod extract;
pub mod service;
