//! Management of openQA worker and VDE switch instances run as systemd units.
//!
//! The library holds the decisions: which builds are scheduled, running, kept
//! or stopped, which worker and switch instances belong to which build, how
//! instance and unit names are formed and read back, and which instance
//! number a new worker gets. Talking to systemd is left to the caller.
use vstd::prelude::*;

pub mod openqa_build_reporter;
pub mod openqa_vde;
pub mod openqa_worker;
pub mod systemd_escape;
pub mod text;

verus! {

/// An error that carries a human-readable message.
#[derive(Debug, Clone)]
pub struct CustomError(pub String);

} // verus!
