//! Transport decisions: data-record framing limits, data-channel candidate
//! policy and ranking, the connection racer's limits, and the native TLS
//! identity.

pub mod data_channel;
pub mod data_io;
pub mod race;
pub mod frame_io;
pub mod pairing_flow;
pub mod platform_control;
pub mod quic;
