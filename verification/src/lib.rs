//! Decision logic of a kernel sandbox: the policy and its user extensions, the
//! enrollment protocol between the daemon and its clients, the audit stream,
//! and the administration commands.

pub mod client;
pub mod common;
pub mod ctl;
pub mod daemon;
pub mod json;
pub mod text;
