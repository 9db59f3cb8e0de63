//! Fan curves for the embedded controller of ASUS ROG laptops: the curve
//! itself, its text form, the vendor's safety limits, and the command that
//! installs a curve.
//!
//! # Fan speeds and temperatures
//!
//! Temperatures are in degrees Celsius. Fan speeds are roughly a percentage;
//! the scale is not linear, and a speed of 0 turns the fan off. A pair such as
//! `40c:10%` means that the fan runs at 10% once the temperature is over 40C.
//!
//! # Config string format
//!
//! ```text
//! <t>c:<s>%,<t>c:<s>%,<t>c:<s>%,<t>c:<s>%,<t>c:<s>%,<t>c:<s>%,<t>c:<s>%,<t>c:<s>%
//! ```
//! where `t` is a temperature and `s` a fan speed. A curve has exactly eight
//! pairs.

pub mod board;
pub mod command;
pub mod config;
pub mod curve;
pub mod number;
pub mod safety;
pub mod text;

pub use board::Board;
pub use board::Fan;
pub use command::acpi_result;
pub use command::make_command;
pub use command::CurveError;
pub use curve::Curve;
pub use safety::UnsafeCurveError;
