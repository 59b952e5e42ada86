//! Portable Agent Plugin packages: publishing and loading.

pub mod error;
pub mod loader;
pub mod names;
pub mod paths;
pub mod publish;
pub mod roundtrip;
pub mod servers;
pub mod skills;
