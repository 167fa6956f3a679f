//! Verified core of the Ex-Alta 3 flight and ground software: the component
//! identifiers, the ground-station command frames, the on-board message
//! fragmentation, the scheduler's time and file-name rules, the IPC state
//! bookkeeping and the operator command parsers.

pub mod text;
pub mod component_ids;
pub mod constants;
pub mod opcodes;
pub mod ports;
pub mod message;
pub mod obc_client;
pub mod msg;
pub mod bulk_msg;
pub mod scheduler;
pub mod dfgm;
pub mod ipc;
pub mod ipc_interface;
pub mod pmod_oled;
pub mod operator_input;
pub mod timestamp;
pub mod dashboard;
