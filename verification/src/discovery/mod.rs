//! Nearby discovery: the presence wire format, the shared observation model,
//! endpoint ranking, and the peer registry that merges untrusted hints.

pub mod error;
pub mod model;
pub mod wire;
pub mod ble;
pub mod ranking;
pub mod providers;
pub mod registry;
pub mod manager;
