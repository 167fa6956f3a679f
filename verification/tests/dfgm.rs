use ex3::dfgm::{DfgmError, DfgmHandlerState};
use ex3::msg::Msg;

#[test]
fn each_toggle_switches() {
    let mut s = DfgmHandlerState::new();
    assert!(!s.toggle_data_collection);
    assert_eq!(s.handle_msg_for_dfgm(&Msg::new(0, 3, 7, 0, vec![1])), Ok(()));
    assert!(s.toggle_data_collection);
    assert_eq!(s.handle_msg_for_dfgm(&Msg::new(0, 3, 7, 0, vec![1])), Ok(()));
    assert!(!s.toggle_data_collection);
    assert_eq!(s.handle_msg_for_dfgm(&Msg::new(0, 3, 7, 0, vec![])), Ok(()));
    assert!(s.toggle_data_collection);
}

#[test]
fn unknown_opcode_is_refused() {
    let mut s = DfgmHandlerState { toggle_data_collection: true };
    assert_eq!(s.handle_msg_for_dfgm(&Msg::new(0, 3, 7, 1, vec![])), Err(DfgmError::OpcodeNotFound(1)));
    assert!(s.toggle_data_collection);
}
