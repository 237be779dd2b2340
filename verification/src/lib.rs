//! Fan-speed control for a single-board device.
//!
//! One control cycle samples the platform's thermal zones, takes the hottest
//! of the sensors of interest, maps it to an 8-bit duty cycle on a linear
//! curve and hands that duty cycle to the fan's control node. This crate holds
//! the decisions of such a cycle as verified functions on plain values;
//! reading and writing the platform's files is the caller's part.
//!
//! Temperatures are held in whole thousandths of a degree Celsius, the unit
//! in which the platform reports them. A reading may be written in decimal
//! notation with a fraction or an exponent; what it has beyond a whole
//! thousandth of a degree is dropped.

pub mod control;
pub mod curve;
pub mod number;
pub mod sensors;
pub mod sysfs;
pub mod text;
