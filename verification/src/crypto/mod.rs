//! Device identity, transcript authentication and trust records.

pub mod digest;
pub mod identity;
pub mod pairing;
pub mod random;
pub mod store;
pub mod listing;
