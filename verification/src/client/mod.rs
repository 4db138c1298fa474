//! What passes between the daemon and its clients.

pub mod enrollment;
