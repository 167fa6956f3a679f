//! The on-board message: a header that names the message, its destination,
//! its source and its opcode, followed by a body of bytes.
use vstd::prelude::*;

verus! {

/// The fixed part of an on-board message.
#[derive(PartialEq, Eq, Structural, Debug, Clone, Copy)]
pub struct MsgHeader {
    pub msg_id: u8,
    pub dest_id: u8,
    pub source_id: u8,
    pub op_code: u8,
}

/// An on-board message.
#[derive(Debug)]
pub struct Msg {
    pub header: MsgHeader,
    pub msg_body: Vec<u8>,
}

/// The content of a message: its header and the bytes of its body.
pub struct MsgView {
    pub header: MsgHeader,
    pub body: Seq<u8>,
}

impl View for Msg {
    type V = MsgView;

    open spec fn view(&self) -> MsgView {
        MsgView { header: self.header, body: self.msg_body@ }
    }
}

impl DeepView for Msg {
    type V = MsgView;

    open spec fn deep_view(&self) -> MsgView {
        self@
    }
}

impl Msg {
    /// A message with the given header fields and body.
    pub fn new(msg_id: u8, dest_id: u8, source_id: u8, op_code: u8, msg_body: Vec<u8>) -> (r: Msg)
        ensures
            r.header == (MsgHeader { msg_id, dest_id, source_id, op_code }),
            r.msg_body@ == msg_body@,
    {
        Msg { header: MsgHeader { msg_id, dest_id, source_id, op_code }, msg_body }
    }
}

} // verus!
