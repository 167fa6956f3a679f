//! The ground station's client for the on-board computer: it turns an
//! operator's three words into a command frame and reads the status out of
//! the reply. The TCP connection itself is the application's.
use vstd::prelude::*;
use crate::message::{
    Command, CommandView, Message, Payload, MSG_LEN, MSG_OPDATA_LEN, MSG_OPDATA_OFF, valid_frame, zeros,
    payload_id_of_name, payload_name, frame_command,
};
use crate::text::{parse_unsigned, parse_u8};

verus! {

/// Builds the frame for the operator input `[payload, opcode, data]`: the
/// payload is looked up by name, the opcode is read in decimal, and the frame
/// carries no data.
pub fn parse_command(input: [&str; 3]) -> (r: Result<Message, &'static str>)
    ensures
        match payload_id_of_name(input[0]@) {
            None => r matches Err(e) && e@ == "Unrecognized command name"@,
            Some(id) => match parse_unsigned(input[1]@, 255) {
                None => r matches Err(e) && e@ == "opcode must be numerical"@,
                Some(op) => r matches Ok(m) && m@ == seq![MSG_OPDATA_OFF as u8, id as u8, op as u8]
                    + zeros(MSG_OPDATA_LEN as nat),
            },
        },
{
    let payload = match Payload::from_str(input[0]) {
        Ok(p) => p,
        Err(e) => return Err(e),
    };
    let opcode = match parse_u8(input[1]) {
        Some(op) => op,
        None => return Err("opcode must be numerical"),
    };
    let cmd = Command { payload, opcode, oplen: 0, opdata: [0u8; 61] };
    let m = cmd.serialize();
    assert(m@ =~= seq![MSG_OPDATA_OFF as u8, payload.id as u8, opcode] + zeros(MSG_OPDATA_LEN as nat));
    Ok(m)
}

/// The status that a reply frame carries: its opcode.
pub fn handle_response(msg: &Message) -> (r: u8)
    requires
        valid_frame(msg@),
    ensures
        r == msg@[2],
{
    let reply = Command::deserialize(msg);
    reply.opcode
}

/// What the client makes of a reply of `len` bytes read into `data`: a full
/// frame gives its status, anything shorter is refused.
pub fn response_status(data: &Message, len: usize) -> (r: Result<u8, &'static str>)
    requires
        len == MSG_LEN ==> valid_frame(data@),
    ensures
        len == MSG_LEN ==> r == Ok::<u8, &'static str>(data@[2]),
        len != MSG_LEN ==> (r matches Err(e) && e@ == "short response"@),
{
    if len == MSG_LEN {
        Ok(handle_response(data))
    } else {
        Err("short response")
    }
}

/// The frame built from an operator's payload and opcode reads back as a
/// command to that payload with that opcode and no data.
pub proof fn lemma_parsed_command_reads_back(id: usize, op: u8)
    requires
        id < crate::message::PAYLOAD_COUNT,
    ensures
        ({
            let m = seq![MSG_OPDATA_OFF as u8, id as u8, op] + zeros(MSG_OPDATA_LEN as nat);
            &&& valid_frame(m)
            &&& frame_command(m) == (CommandView {
                payload_id: id,
                payload_name: payload_name(id as int),
                opcode: op,
                oplen: 0,
                opdata: zeros(MSG_OPDATA_LEN as nat),
            })
        }),
{
    let m = seq![MSG_OPDATA_OFF as u8, id as u8, op] + zeros(MSG_OPDATA_LEN as nat);
    assert(m.subrange(3, 3) + zeros((MSG_LEN - 3) as nat) =~= zeros(MSG_OPDATA_LEN as nat));
}

} // verus!
