//! Decision logic of a fan-control daemon for Linux.

pub mod api;
pub mod clock;
pub mod collections;
pub mod error;
pub mod health;
pub mod hwmon;
pub mod profile;
pub mod pwm;
pub mod text;
