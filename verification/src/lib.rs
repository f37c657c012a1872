//! Session core of the daimonos agent: wire protocol rules, event ordering,
//! approvals, persistence decisions, timeline reduction and the daemon's
//! connection logic, each with a verified contract.
#![allow(unused_imports)]

use vstd::prelude::*;

pub mod foreign;
pub mod keyed;
pub mod providers;
pub mod session_core;
pub mod session_daemon;
pub mod session_factory;
pub mod session_interchange;
pub mod session_protocol;
pub mod session_store;
pub mod session_timeline;
pub mod text;

verus! {

} // verus!
