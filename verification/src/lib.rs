//! Logic of the ESP32 workshop firmware, verified with Verus.

pub mod bare_metal;
pub mod board;
pub mod camera;
pub mod display;
pub mod gamepad;
pub mod json;
pub mod mem;
pub mod number;
pub mod page;
pub mod peripherals;
pub mod query;
pub mod station;
pub mod text;
