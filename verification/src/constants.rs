//! Constants used across the whole project.
use vstd::prelude::*;

verus! {

pub const UHF_MAX_MESSAGE_SIZE_BYTES: u8 = 128;

} // verus!
