use ex3::bulk_msg::{deconstruct_msg, handle_large_msg, reconstruct_msg, MAX_BODY_SIZE};
use ex3::msg::Msg;

#[test]
fn large_msg_copying() {
    let large_msg: Msg = Msg::new(2, 5, 1, 5, vec![0; 500]);
    let messages: Vec<Msg> = handle_large_msg(large_msg);
    assert_eq!(messages[1].msg_body[0], 1);
    assert_eq!(messages[2].msg_body[0], 2);
    assert!(messages[0].header.dest_id == messages[1].header.dest_id);
}

#[test]
fn test_msg_vector_len() {
    let large_msg: Msg = Msg::new(2, 5, 1, 5, vec![0; 742]);
    let body_len = large_msg.msg_body.len();
    let messages: Vec<Msg> = handle_large_msg(large_msg);
    let number_of_packets: usize = (body_len + MAX_BODY_SIZE - 1) / MAX_BODY_SIZE;
    assert_eq!(messages.len(), number_of_packets + 1);
}

#[test]
fn two_full_chunks_and_a_two_byte_rest() {
    let body: Vec<u8> = (0..246u32).map(|i| (i % 251) as u8).collect();
    let messages = handle_large_msg(Msg::new(2, 5, 1, 5, body.clone()));
    assert_eq!(messages.len(), 4);
    assert_eq!(messages[0].msg_body, vec![3]);
    assert_eq!(&messages[1].msg_body[1..], &body[0..122]);
    assert_eq!(&messages[2].msg_body[1..], &body[122..244]);
    assert_eq!(messages[3].msg_body, vec![3, body[244], body[245]]);
    assert_eq!(reconstruct_msg(messages).unwrap().msg_body, body);
}

#[test]
fn small_message_is_kept() {
    let messages = handle_large_msg(Msg::new(1, 2, 3, 4, vec![9; 123]));
    assert_eq!(messages.len(), 1);
    assert_eq!(messages[0].msg_body, vec![9; 123]);
    assert_eq!(messages[0].header.op_code, 4);
}

#[test]
fn packets_hold_count_and_numbered_slices() {
    let body: Vec<u8> = (0..250u32).map(|i| (i % 256) as u8).collect();
    let messages = handle_large_msg(Msg::new(1, 2, 3, 4, body.clone()));
    assert_eq!(messages.len(), 4);
    assert_eq!(messages[0].msg_body, vec![3]);
    assert_eq!(messages[1].msg_body.len(), 123);
    assert_eq!(messages[1].msg_body[0], 1);
    assert_eq!(&messages[1].msg_body[1..], &body[0..122]);
    assert_eq!(messages[2].msg_body[0], 2);
    assert_eq!(&messages[2].msg_body[1..], &body[122..244]);
    assert_eq!(messages[3].msg_body[0], 3);
    assert_eq!(&messages[3].msg_body[1..], &body[244..250]);
}

#[test]
fn deconstruct_forms() {
    let m = deconstruct_msg(Msg::new(1, 2, 3, 4, vec![5, 6]), 9, None);
    assert_eq!(m.msg_body, vec![9, 5, 6]);
    let m = deconstruct_msg(Msg::new(1, 2, 3, 4, vec![5, 6]), 9, Some(7));
    assert_eq!(m.msg_body, vec![7]);
    let m = deconstruct_msg(Msg::new(1, 2, 3, 4, vec![1; 200]), 9, None);
    assert_eq!(m.msg_body.len(), 123);
    assert_eq!(m.msg_body[0], 9);
    assert_eq!(m.header.dest_id, 2);
}

#[test]
fn reconstruct_errors() {
    assert_eq!(reconstruct_msg(vec![]).unwrap_err(), "No messages to reconstruct");
    assert_eq!(reconstruct_msg(vec![Msg::new(0, 0, 0, 0, vec![])]).unwrap_err(), "First message body empty");
    assert_eq!(
        reconstruct_msg(vec![Msg::new(0, 0, 0, 0, vec![2]), Msg::new(0, 0, 0, 0, vec![1])]).unwrap_err(),
        "Mismatch between number of packets and message count"
    );
    assert_eq!(
        reconstruct_msg(vec![Msg::new(0, 0, 0, 0, vec![1]), Msg::new(0, 0, 0, 0, vec![2, 3])]).unwrap_err(),
        "Invalid sequence number or empty message body"
    );
    assert_eq!(
        reconstruct_msg(vec![Msg::new(0, 0, 0, 0, vec![1]), Msg::new(0, 0, 0, 0, vec![])]).unwrap_err(),
        "Invalid sequence number or empty message body"
    );
}

#[test]
fn reconstruct_joins_tails() {
    let m = reconstruct_msg(vec![
        Msg::new(1, 2, 3, 4, vec![2]),
        Msg::new(9, 9, 9, 9, vec![1, 10, 11]),
        Msg::new(9, 9, 9, 9, vec![2, 12]),
    ])
    .unwrap();
    assert_eq!(m.msg_body, vec![10, 11, 12]);
    assert_eq!(m.header.msg_id, 1);
    assert_eq!(m.header.op_code, 4);
}

#[test]
fn reassembly_gives_the_message_back() {
    for len in [124usize, 244, 245, 500, 742, 255 * 122] {
        let body: Vec<u8> = (0..len).map(|i| (i % 251) as u8).collect();
        let packets = handle_large_msg(Msg::new(1, 2, 3, 4, body.clone()));
        let back = reconstruct_msg(packets).unwrap();
        assert_eq!(back.msg_body, body);
        assert_eq!(back.header.dest_id, 2);
        assert_eq!(back.header.op_code, 4);
    }
}
