//! Opcodes of the communications handler.
use vstd::prelude::*;

verus! {

pub const GET_HK: u8 = 3;
pub const SET_BEACON: u8 = 4;
pub const GET_BEACON: u8 = 5;

} // verus!
