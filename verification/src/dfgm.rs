//! The DFGM handler's response to the messages addressed to it: every
//! opcode-0 message switches the handler between reading and ignoring the
//! data that the DFGM sends.
use vstd::prelude::*;
use crate::msg::Msg;
use crate::opcodes::dfgm::TOGGLE_DATA_COLLECTION;

verus! {

/// Why the DFGM handler refused a message.
#[derive(PartialEq, Eq, Structural, Debug, Clone, Copy)]
pub enum DfgmError {
    /// The opcode is not one that the DFGM handler knows.
    OpcodeNotFound(u8),
}

/// The part of the DFGM handler's state that its messages change.
#[derive(PartialEq, Eq, Structural, Debug, Clone, Copy)]
pub struct DfgmHandlerState {
    pub toggle_data_collection: bool,
}

impl DfgmHandlerState {
    /// A handler that does not collect data yet.
    pub fn new() -> (r: DfgmHandlerState)
        ensures
            !r.toggle_data_collection,
    {
        DfgmHandlerState { toggle_data_collection: false }
    }

    /// Applies a message to the handler: the toggle opcode switches data
    /// collection on if it was off and off if it was on; any other opcode is
    /// refused and changes nothing.
    pub fn handle_msg_for_dfgm(&mut self, msg: &Msg) -> (r: Result<(), DfgmError>)
        ensures
            msg.header.op_code == TOGGLE_DATA_COLLECTION ==> r is Ok
                && final(self).toggle_data_collection == !old(self).toggle_data_collection,
            msg.header.op_code != TOGGLE_DATA_COLLECTION ==> r == Err::<(), DfgmError>(
                DfgmError::OpcodeNotFound(msg.header.op_code),
            ) && *final(self) == *old(self),
    {
        if msg.header.op_code == TOGGLE_DATA_COLLECTION {
            self.toggle_data_collection = !self.toggle_data_collection;
            Ok(())
        } else {
            Err(DfgmError::OpcodeNotFound(msg.header.op_code))
        }
    }
}

} // verus!
