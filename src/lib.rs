//! Discovery of graphics-tablet input nodes and normalisation of the
//! hardware profiles that a hardware-description database reports for them.
//!
//! The database itself is reached by the program around this library; the
//! library receives each profile's fields as plain values and decides what
//! the rest of the system sees.

pub mod error;
pub mod record;
pub mod scan;
pub mod devices;
