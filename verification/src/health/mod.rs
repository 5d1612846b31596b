//! What the daemon knows about the machine, and whether that is still current.

pub mod state;
pub mod staleness;
pub mod cache;
pub mod history;
pub mod sensor_failure;
