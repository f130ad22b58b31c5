//! Persistent user profiles: the profile itself, its errors and where it is stored.

pub mod error;
pub mod paths;
pub mod profile;
