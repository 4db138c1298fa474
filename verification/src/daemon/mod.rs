//! The decisions of the daemon.

pub mod audit;
pub mod control;
pub mod enrollment;
pub mod policy;
pub mod user_extensions;
