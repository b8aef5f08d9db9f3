//! Deterministic, bounded Halo control-plane messages.

pub mod pairing;
pub mod transfer;
