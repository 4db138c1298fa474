//! The decisions of the administration commands: what each of them asks of the
//! daemon or of the system, and what it makes of the answer.

pub mod audit;
pub mod doctor;
pub mod effective_policy;
pub mod enroll;
pub mod reload;
pub mod run;
pub mod status;
pub mod uninstall;
pub mod validate;
