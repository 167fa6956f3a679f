use ex3::component_ids::{DFGM, GS};
use ex3::operator_input::{
    ack_wait_step, build_command_bytes, build_msg_from_operator_input, handle_ack, operator_input_is_valid, AckWait,
    OperatorInputError,
};
use ex3::msg::Msg;

#[test]
fn builds_message() {
    let m = build_msg_from_operator_input("DFGM 0 1 2 255".to_string()).unwrap();
    assert_eq!(m.header.msg_id, 0);
    assert_eq!(m.header.dest_id, DFGM);
    assert_eq!(m.header.source_id, GS);
    assert_eq!(m.header.op_code, 0);
    assert_eq!(m.msg_body, vec![1, 2, 255]);
    let m = build_msg_from_operator_input("TEST 4".to_string()).unwrap();
    assert_eq!(m.header.dest_id, 99);
    assert!(m.msg_body.is_empty());
}

#[test]
fn not_enough_arguments() {
    assert_eq!(build_msg_from_operator_input("DFGM".to_string()).unwrap_err(), OperatorInputError::NotEnoughArguments);
    assert_eq!(build_msg_from_operator_input("".to_string()).unwrap_err(), OperatorInputError::NotEnoughArguments);
}

#[test]
fn validity_check() {
    assert!(operator_input_is_valid("EPS 3 4"));
    assert!(operator_input_is_valid("anything"));
    assert!(!operator_input_is_valid("eps 3"));
    assert!(!operator_input_is_valid("EPS 3 256"));
    assert!(!operator_input_is_valid("EPS 3  4"));
    assert!(!operator_input_is_valid("EPS x"));
}

#[test]
fn ack_stops_waiting() {
    let mut waiting = true;
    assert_eq!(handle_ack(Msg::new(0, 7, 8, 0, vec![]), &mut waiting), Ok(()));
    assert!(!waiting);
}

#[test]
fn command_bytes() {
    assert_eq!(build_command_bytes(2, 4, b"data_here".to_vec()), vec![12, 2, 4, b'd', b'a', b't', b'a', b'_', b'h', b'e', b'r', b'e']);
    assert_eq!(build_command_bytes(1, 2, vec![]), vec![3, 1, 2]);
}

#[test]
fn ack_wait_decisions() {
    assert_eq!(ack_wait_step(1, false), AckWait::Acknowledged);
    assert_eq!(ack_wait_step(10, false), AckWait::Acknowledged);
    assert_eq!(ack_wait_step(9, true), AckWait::KeepWaiting);
    assert_eq!(ack_wait_step(10, true), AckWait::TimedOut);
}
