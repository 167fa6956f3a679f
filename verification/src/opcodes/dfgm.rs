//! Opcodes of the DFGM handler.
use vstd::prelude::*;

verus! {

pub const TOGGLE_DATA_COLLECTION: u8 = 0;
pub const GET_DFGM_DATA: u8 = 1;

} // verus!
