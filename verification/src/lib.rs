//! Halo: verified wire formats, policies and state decisions for nearby
//! device discovery, pairing and resumable file transfer.

pub mod be_bytes;
pub mod text;
pub mod protocol;

pub mod crypto;
pub mod discovery;
pub mod net;
pub mod time;
pub mod transport;
pub mod transfer;
pub mod service;
pub mod order;
