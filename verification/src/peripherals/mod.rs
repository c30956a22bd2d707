//! The peripherals of the dashboard: what their endpoints compute and answer.

pub mod button;
pub mod buzzer;
pub mod joystick;
pub mod led;
pub mod servo;
pub mod solar;
pub mod ultrasonic;
