//! The application-facing service layer: validated pairing and transfer
//! policies, and the discovery facade's plain-value conversions.

pub mod discovery;
pub mod pairing;
pub mod transfer;
pub mod coordinator;
pub mod session;
pub mod incoming;
