//! Built-in discovery providers: their configuration checks and the
//! decisions their network loops take on every tick and datagram.

pub mod direct;
pub mod interfaces;
pub mod mdns;
pub mod presence;
