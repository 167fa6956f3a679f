//! Ports used between handlers and the simulated subsystems and payloads.
use vstd::prelude::*;

verus! {

pub const SIM_DFGM_PORT: u16 = 1802;
pub const SIM_ADCS_PORT: u16 = 1803;
pub const SIM_EPS_PORT: u16 = 1804;
pub const SIM_COMMS_PORT: u16 = 1805;
pub const SIM_IRIS_PORT: u16 = 1806;

pub const DFGM_HANDLER_DISPATCHER_PORT: u16 = 1900;
pub const SCHEDULER_DISPATCHER_PORT: u16 = 1901;
pub const SUBSYSTEM_MONITOR_DISPATCHER_PORT: u16 = 1902;
pub const BULK_MSG_HANDLER_DISPATCHER_PORT: u16 = 1903;

} // verus!
