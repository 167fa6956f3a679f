use ex3::message::{Command, Message, Payload, MSG_LEN, PAYLOAD_EPS};
use ex3::obc_client::{handle_response, parse_command, response_status};

fn frame(len: u8, dst: u8, op: u8, data: &[u8]) -> Message {
    let mut m: Message = [0; 64];
    m[0] = len;
    m[1] = dst;
    m[2] = op;
    m[3..3 + data.len()].copy_from_slice(data);
    m
}

#[test]
fn payload_from_str() {
    let p = Payload::from_str("eps").unwrap();
    assert_eq!(p.id, 1);
    assert_eq!(p.name, PAYLOAD_EPS);
    assert_eq!(Payload::from_str("dfgm").unwrap().id, 2);
    assert_eq!(Payload::from_str("adcs").unwrap().id, 3);
    assert_eq!(Payload::from_str("unknown").unwrap().id, 0);
    assert_eq!(Payload::from_str("EPS").unwrap_err(), "Unrecognized command name");
}

#[test]
fn payload_from_int() {
    let p = Payload::from_int(3).unwrap();
    assert_eq!(p.id, 3);
    assert_eq!(p.name, "adcs");
    assert_eq!(Payload::from_int(0).unwrap().name, "unknown");
    assert_eq!(Payload::from_int(4).unwrap_err(), "Unrecognized payload id");
    assert_eq!(Payload::from_int(255).unwrap_err(), "Unrecognized payload id");
}

#[test]
fn payload_printed() {
    assert_eq!(Payload::from_int(2).unwrap().to_string(), "dfgm(2)");
    assert_eq!(Payload { id: 1234, name: "x" }.to_string(), "x(1234)");
}

#[test]
fn deserialize_reads_header_and_data() {
    let m = frame(6, 2, 9, &[7, 8, 9]);
    let c = Command::deserialize(&m);
    assert_eq!(c.payload.id, 2);
    assert_eq!(c.payload.name, "dfgm");
    assert_eq!(c.opcode, 9);
    assert_eq!(c.oplen, 3);
    assert_eq!(&c.opdata[..3], &[7, 8, 9]);
    assert!(c.opdata[3..].iter().all(|&b| b == 0));
}

#[test]
fn deserialize_ignores_bytes_past_length() {
    let mut m = frame(4, 1, 1, &[5]);
    m[10] = 77;
    let c = Command::deserialize(&m);
    assert_eq!(c.oplen, 1);
    assert_eq!(c.opdata[0], 5);
    assert_eq!(c.opdata[7], 0);
}

#[test]
fn deserialize_unknown_payload_is_payload_zero() {
    let c = Command::deserialize(&frame(3, 42, 1, &[]));
    assert_eq!(c.payload.id, 0);
    assert_eq!(c.payload.name, "unknown");
}

#[test]
fn serialize_empty_command() {
    let c = Command { payload: Payload::from_int(1).unwrap(), opcode: 4, oplen: 0, opdata: [9; 61] };
    let m = c.serialize();
    assert_eq!(&m[..3], &[3, 1, 4]);
    assert!(m[3..].iter().all(|&b| b == 0));
}

#[test]
fn serialize_full_command() {
    let mut data = [0u8; 61];
    for (i, b) in data.iter_mut().enumerate() {
        *b = i as u8;
    }
    let c = Command { payload: Payload::from_int(3).unwrap(), opcode: 200, oplen: 61, opdata: data };
    let m = c.serialize();
    assert_eq!(&m[..3], &[64, 3, 200]);
    assert_eq!(&m[3..], &data[..]);
    let back = Command::deserialize(&m);
    assert_eq!(back.oplen, 61);
    assert_eq!(back.opdata, data);
    assert_eq!(back.payload.id, 3);
    assert_eq!(back.opcode, 200);
}

#[test]
fn frame_round_trip() {
    let m = frame(3, 2, 17, &[]);
    assert_eq!(Command::deserialize(&m).serialize(), m);
}

#[test]
fn status_frame() {
    let c = Command { payload: Payload::from_int(2).unwrap(), opcode: 6, oplen: 0, opdata: [0; 61] };
    let m = c.status_msg(0xEE);
    assert_eq!(&m[..4], &[3, 2, 6, 0xEE]);
    assert!(m[4..].iter().all(|&b| b == 0));
}

#[test]
fn parse_command_builds_frame() {
    let m = parse_command(["dfgm", "5", "ignored"]).unwrap();
    assert_eq!(&m[..3], &[3, 2, 5]);
    assert!(m[3..].iter().all(|&b| b == 0));
    assert_eq!(parse_command(["eps", "+12", ""]).unwrap()[2], 12);
}

#[test]
fn parse_command_errors() {
    assert_eq!(parse_command(["iris", "5", ""]).unwrap_err(), "Unrecognized command name");
    assert_eq!(parse_command(["eps", "x", ""]).unwrap_err(), "opcode must be numerical");
    assert_eq!(parse_command(["eps", "256", ""]).unwrap_err(), "opcode must be numerical");
    assert_eq!(parse_command(["eps", "", ""]).unwrap_err(), "opcode must be numerical");
}

#[test]
fn response_status_of_reply() {
    let reply = frame(3, 1, 42, &[]);
    assert_eq!(handle_response(&reply), 42);
    assert_eq!(response_status(&reply, MSG_LEN), Ok(42));
    assert_eq!(response_status(&reply, 10), Err("short response"));
}

#[test]
fn parsed_command_reads_back() {
    let m = parse_command(["adcs", "9", ""]).unwrap();
    let c = Command::deserialize(&m);
    assert_eq!(c.payload.name, "adcs");
    assert_eq!(c.opcode, 9);
    assert_eq!(c.oplen, 0);
}

#[test]
fn raw_command_bytes_read_as_frame() {
    let bytes = ex3::operator_input::build_command_bytes(2, 4, b"data_here".to_vec());
    let mut m: Message = [0; 64];
    m[..bytes.len()].copy_from_slice(&bytes);
    let c = Command::deserialize(&m);
    assert_eq!(c.payload.id, 2);
    assert_eq!(c.opcode, 4);
    assert_eq!(c.oplen, 9);
    assert_eq!(&c.opdata[..9], b"data_here");
}
