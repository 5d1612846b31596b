//! What the daemon's interface answers with.

pub mod responses;
