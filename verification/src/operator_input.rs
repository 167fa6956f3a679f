//! The ground station's operator commands: a line of space-separated words
//! (destination name, opcode, data bytes) becomes an on-board message, and the
//! test command line's numbers become a raw command frame.
use vstd::prelude::*;
use crate::component_ids::{ComponentIds, GS, component_name, component_number, component_of_name, lemma_name_round_trip};
use crate::msg::{Msg, MsgHeader};
use crate::text::{
    decimal, is_digit, join_spaces, lemma_decimal_digits, lemma_parse_decimal, lemma_split_join, no_space,
    parse_unsigned, parse_u8, split_spaces, split_spans,
};
use crate::message::{CommandView, MSG_LEN, MSG_OPDATA_LEN, PAYLOAD_COUNT, frame_command, payload_name, valid_frame, zeros};

verus! {

/// The value of the decimal byte `w`, which must be one.
pub open spec fn byte_of(w: Seq<char>) -> u8 {
    parse_unsigned(w, 255).unwrap() as u8
}

/// An operator line that builds a message without a fault: with two or more
/// words, the first names a component and every later word is a decimal byte.
pub open spec fn operator_input_ok(s: Seq<char>) -> bool {
    let parts = split_spaces(s);
    parts.len() >= 2 ==> {
        &&& component_of_name(parts[0]) is Some
        &&& forall|k: int| 1 <= k < parts.len() ==> parse_unsigned(#[trigger] parts[k], 255) is Some
    }
}

/// The words of an operator line naming component `c`, then each of `bytes`
/// in decimal.
pub open spec fn line_words(c: ComponentIds, bytes: Seq<u8>) -> Seq<Seq<char>> {
    seq![component_name(c)] + bytes.map_values(|b: u8| decimal(b as nat))
}

proof fn lemma_component_name_has_no_space(c: ComponentIds)
    ensures
        no_space(component_name(c)),
{
    reveal_strlit("OBC");
    reveal_strlit("EPS");
    reveal_strlit("ADCS");
    reveal_strlit("DFGM");
    reveal_strlit("IRIS");
    reveal_strlit("GPS");
    reveal_strlit("GS");
    reveal_strlit("COMS");
    reveal_strlit("TEST");
}

proof fn lemma_decimal_has_no_space(n: nat)
    ensures
        no_space(decimal(n)),
{
    lemma_decimal_digits(n);
    assert forall|j: int| 0 <= j < decimal(n).len() implies decimal(n)[j] != ' ' by {
        assert(is_digit(decimal(n)[j]));
    }
}

/// A line made of a component's name and one or more bytes written in
/// decimal (`0` included), separated by single spaces, is accepted; its
/// first word names that component and each later word reads back as its
/// byte, so the opcode is the first byte and the data are the rest.
pub proof fn lemma_name_and_bytes_line_accepted(c: ComponentIds, bytes: Seq<u8>)
    requires
        bytes.len() >= 1,
    ensures
        ({
            let line = join_spaces(line_words(c, bytes));
            let parts = split_spaces(line);
            &&& operator_input_ok(line)
            &&& parts.len() == bytes.len() + 1
            &&& component_of_name(parts[0]) == Some(c)
            &&& forall|k: int| 0 <= k < bytes.len() ==> byte_of(#[trigger] parts[k + 1]) == bytes[k]
        }),
{
    let w = line_words(c, bytes);
    assert forall|k: int| 0 <= k < w.len() implies no_space(#[trigger] w[k]) by {
        if k == 0 {
            lemma_component_name_has_no_space(c);
        } else {
            assert(w[k] == decimal(bytes[k - 1] as nat));
            lemma_decimal_has_no_space(bytes[k - 1] as nat);
        }
    }
    lemma_split_join(w);
    let parts = split_spaces(join_spaces(w));
    assert(parts == w);
    lemma_name_round_trip(c);
    assert(parts[0] == component_name(c));
    assert forall|k: int| 1 <= k < parts.len() implies parse_unsigned(#[trigger] parts[k], 255) == Some(
        bytes[k - 1] as nat,
    ) by {
        assert(parts[k] == decimal(bytes[k - 1] as nat));
        lemma_parse_decimal(bytes[k - 1] as nat, 255);
    }
    assert forall|k: int| 0 <= k < bytes.len() implies byte_of(#[trigger] parts[k + 1]) == bytes[k] by {
        assert(parse_unsigned(parts[k + 1], 255) == Some(bytes[k] as nat));
    }
}

/// Why an operator line built no message.
#[derive(PartialEq, Eq, Structural, Debug, Clone, Copy)]
pub enum OperatorInputError {
    /// The line holds fewer than two words.
    NotEnoughArguments,
}

/// Whether `operator_str` builds a message without a fault.
pub fn operator_input_is_valid(operator_str: &str) -> (r: bool)
    ensures
        r == operator_input_ok(operator_str@),
{
    let spans = split_spans(operator_str);
    let ghost parts = split_spaces(operator_str@);
    if spans.len() < 2 {
        return true;
    }
    let w0 = operator_str.substring_char(spans[0].0, spans[0].1);
    assert(w0@ == parts[0]);
    if ComponentIds::from_str(w0).is_err() {
        return false;
    }
    let mut k: usize = 1;
    while k < spans.len()
        invariant
            1 <= k <= spans@.len(),
            parts == split_spaces(operator_str@),
            spans@.len() == parts.len(),
            forall|j: int|
                #![trigger spans@[j]]
                0 <= j < spans@.len() ==> spans@[j].0 <= spans@[j].1 <= operator_str@.len()
                    && parts[j] == operator_str@.subrange(spans@[j].0 as int, spans@[j].1 as int),
            forall|j: int| 1 <= j < k ==> parse_unsigned(#[trigger] parts[j], 255) is Some,
        decreases spans@.len() - k,
    {
        let w = operator_str.substring_char(spans[k].0, spans[k].1);
        assert(w@ == parts[k as int]);
        if parse_u8(w).is_none() {
            return false;
        }
        k = k + 1;
    }
    true
}

/// Builds the message for an operator line: the first word names the
/// destination, the second is the opcode and each later word is one data
/// byte. The message has number 0 and comes from the ground station.
pub fn build_msg_from_operator_input(operator_str: String) -> (r: Result<Msg, OperatorInputError>)
    requires
        operator_input_ok(operator_str@),
    ensures
        ({
            let parts = split_spaces(operator_str@);
            &&& parts.len() < 2 ==> r == Err::<Msg, OperatorInputError>(OperatorInputError::NotEnoughArguments)
            &&& parts.len() >= 2 ==> (r matches Ok(m) && m.header == (MsgHeader {
                msg_id: 0,
                dest_id: component_number(component_of_name(parts[0]).unwrap()),
                source_id: GS,
                op_code: byte_of(parts[1]),
            }) && m.msg_body@ == Seq::new((parts.len() - 2) as nat, |k: int| byte_of(parts[k + 2])))
        }),
{
    let s = operator_str.as_str();
    let spans = split_spans(s);
    let ghost parts = split_spaces(operator_str@);
    if spans.len() < 2 {
        return Err(OperatorInputError::NotEnoughArguments);
    }
    let w0 = s.substring_char(spans[0].0, spans[0].1);
    assert(w0@ == parts[0]);
    let dest = match ComponentIds::from_str(w0) {
        Ok(c) => c,
        Err(_) => {
            assert(false);
            ComponentIds::TEST
        },
    };
    let dest_id = dest.id();
    let w1 = s.substring_char(spans[1].0, spans[1].1);
    assert(w1@ == parts[1]);
    assert(parse_unsigned(parts[1], 255) is Some);
    let opcode = match parse_u8(w1) {
        Some(v) => v,
        None => 0,
    };
    let mut msg_body: Vec<u8> = Vec::new();
    let mut k: usize = 2;
    while k < spans.len()
        invariant
            2 <= k <= spans@.len(),
            s@ == operator_str@,
            parts == split_spaces(s@),
            operator_input_ok(s@),
            spans@.len() == parts.len(),
            forall|j: int|
                #![trigger spans@[j]]
                0 <= j < spans@.len() ==> spans@[j].0 <= spans@[j].1 <= s@.len()
                    && parts[j] == s@.subrange(spans@[j].0 as int, spans@[j].1 as int),
            msg_body@ == Seq::new((k - 2) as nat, |j: int| byte_of(parts[j + 2])),
        decreases spans@.len() - k,
    {
        let w = s.substring_char(spans[k].0, spans[k].1);
        assert(w@ == parts[k as int]);
        assert(parse_unsigned(parts[k as int], 255) is Some);
        let b = match parse_u8(w) {
            Some(v) => v,
            None => 0,
        };
        msg_body.push(b);
        k = k + 1;
        assert(msg_body@ =~= Seq::new((k - 2) as nat, |j: int| byte_of(parts[j + 2])));
    }
    Ok(Msg::new(0, dest_id, GS, opcode, msg_body))
}

/// Takes note of an acknowledgement: the ground station stops waiting.
pub fn handle_ack(msg: Msg, awaiting_ack: &mut bool) -> (r: Result<(), ()>)
    ensures
        !*final(awaiting_ack),
        r is Ok,
{
    *awaiting_ack = false;
    Ok(())
}

/// Seconds that the ground station waits for an acknowledgement.
pub const WAIT_FOR_ACK_TIMEOUT: u64 = 10;

/// What the ground station does after each second of waiting for an
/// acknowledgement.
#[derive(PartialEq, Eq, Structural, Debug, Clone, Copy)]
pub enum AckWait {
    /// The acknowledgement came: stop waiting.
    Acknowledged,
    /// Wait another second.
    KeepWaiting,
    /// The time is up: stop waiting and warn that the message may be lost.
    TimedOut,
}

/// The decision after `count` seconds of waiting, given whether the ground
/// station is still waiting: an acknowledgement ends the wait; else the wait
/// ends when the timeout is reached.
pub fn ack_wait_step(count: u64, awaiting_ack: bool) -> (r: AckWait)
    ensures
        !awaiting_ack ==> r == AckWait::Acknowledged,
        awaiting_ack && count >= WAIT_FOR_ACK_TIMEOUT ==> r == AckWait::TimedOut,
        awaiting_ack && count < WAIT_FOR_ACK_TIMEOUT ==> r == AckWait::KeepWaiting,
{
    if !awaiting_ack {
        AckWait::Acknowledged
    } else if count >= WAIT_FOR_ACK_TIMEOUT {
        AckWait::TimedOut
    } else {
        AckWait::KeepWaiting
    }
}

/// The raw command frame that the test command line sends: the length byte
/// (the data length, truncated to a byte, plus the three header bytes), the
/// subsystem, the opcode, then the data.
pub fn build_command_bytes(subsystem_id: u8, subsystem_op_code: u8, data: Vec<u8>) -> (r: Vec<u8>)
    requires
        (data@.len() as u8) + 3 <= 255,
    ensures
        r@ == seq![((data@.len() as u8) + 3) as u8, subsystem_id, subsystem_op_code] + data@,
{
    let mut command: Vec<u8> = Vec::new();
    #[verifier::truncate]
    let short_len: u8 = data.len() as u8;
    let len: u8 = short_len + 3;
    command.push(len);
    command.push(subsystem_id);
    command.push(subsystem_op_code);
    let mut i: usize = 0;
    while i < data.len()
        invariant
            i <= data@.len(),
            command@ == seq![len, subsystem_id, subsystem_op_code] + data@.take(i as int),
        decreases data@.len() - i,
    {
        command.push(data[i]);
        i = i + 1;
        assert(command@ =~= seq![len, subsystem_id, subsystem_op_code] + data@.take(i as int));
    }
    assert(data@.take(i as int) =~= data@);
    command
}

/// A raw command of at most one frame's data, padded with zeros to a whole
/// frame, is the command frame that the ground station server reads: the
/// same destination (an unknown one reads as payload 0), opcode and data.
pub proof fn lemma_command_bytes_frame(subsystem_id: u8, subsystem_op_code: u8, data: Seq<u8>)
    requires
        data.len() <= MSG_OPDATA_LEN,
    ensures
        ({
            let b = seq![((data.len() as u8) + 3) as u8, subsystem_id, subsystem_op_code] + data;
            let m = b + zeros((MSG_LEN - b.len()) as nat);
            let id: usize = if subsystem_id < PAYLOAD_COUNT { subsystem_id as usize } else { 0 };
            &&& valid_frame(m)
            &&& frame_command(m) == (CommandView {
                payload_id: id,
                payload_name: payload_name(id as int),
                opcode: subsystem_op_code,
                oplen: data.len() as usize,
                opdata: data + zeros((MSG_OPDATA_LEN - data.len()) as nat),
            })
        }),
{
    let b = seq![((data.len() as u8) + 3) as u8, subsystem_id, subsystem_op_code] + data;
    let m = b + zeros((MSG_LEN - b.len()) as nat);
    assert((data.len() as u8) as int == data.len());
    assert(m[0] as int == data.len() + 3);
    assert(m.subrange(3, m[0] as int) + zeros((MSG_LEN - m[0]) as nat) =~= data + zeros(
        (MSG_OPDATA_LEN - data.len()) as nat,
    ));
}

} // verus!
