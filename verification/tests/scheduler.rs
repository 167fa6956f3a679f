use ex3::scheduler::{
    due_time, get_time, rollover_plan, saved_message_contents, saved_message_file_name, select_due_messages,
    Message, MessageState,
};

#[test]
fn time_is_little_endian_six_bytes() {
    assert_eq!(get_time(vec![1, 0, 0, 0, 0, 0]), 1);
    assert_eq!(get_time(vec![0x01, 0x02, 0x03, 0x04, 0x05, 0x06, 0xFF, 0xFF]), 0x0605_0403_0201);
    assert_eq!(get_time(vec![0xFF; 6]), 0xFFFF_FFFF_FFFF);
}

#[test]
fn file_name_and_contents() {
    assert_eq!(saved_message_file_name(1718662942000), "1718662942000.txt");
    assert_eq!(saved_message_file_name(0), "0.txt");
    assert_eq!(saved_message_contents(&(1718662942000, 7)), "1718662942000\n7\n");
}

#[test]
fn due_files() {
    assert_eq!(due_time("100.txt", 100), Some(100));
    assert_eq!(due_time("100.txt", 99), None);
    assert_eq!(due_time("100.txt.txt", 200), Some(100));
    assert_eq!(due_time("100.log", 200), None);
    assert_eq!(due_time("abc.txt", 200), None);
    assert_eq!(due_time(".txt", 200), None);
    assert_eq!(due_time("+5.txt", 200), Some(5));
}

#[test]
fn saved_file_is_found_again() {
    for t in [0u64, 9, 10, 1718662942000, u64::MAX] {
        let name = saved_message_file_name(t);
        assert_eq!(due_time(&name, t), Some(t));
        assert_eq!(due_time(&name, u64::MAX), Some(t));
        if t > 0 {
            assert_eq!(due_time(&name, t - 1), None);
        }
    }
}

#[test]
fn rollover_keeps_folder_within_limit() {
    // 2047 bytes in the folder and a 20-byte file to come: the oldest goes.
    assert_eq!(rollover_plan(&vec![1000, 1047], &vec![5, 3], 20), vec![1]);
    // Both must go when the newest alone leaves too little room.
    assert_eq!(rollover_plan(&vec![1000, 1047], &vec![5, 3], 1100), vec![1, 0]);
    // Nothing goes while the folder with the new file fits.
    assert_eq!(rollover_plan(&vec![1000, 1000], &vec![5, 3], 48), Vec::<usize>::new());
    assert_eq!(rollover_plan(&vec![], &vec![], 20), Vec::<usize>::new());
    // Equally old files go first-listed first.
    assert_eq!(rollover_plan(&vec![2000, 2000, 2000], &vec![7, 4, 4], 10), vec![1, 2]);
    // A new file larger than the limit empties the folder.
    assert_eq!(rollover_plan(&vec![1, 2], &vec![1, 2], 5000), vec![0, 1]);
}

#[test]
fn due_messages_sent_once() {
    let names: Vec<String> = ["100.txt", "notes", "300.txt", "50.txt", "100.txt"].iter().map(|s| s.to_string()).collect();
    let mut read: Vec<String> = vec!["50.txt".to_string()];
    let sent = select_due_messages(&mut read, &names, 200);
    assert_eq!(sent, vec![0]);
    assert!(read.contains(&"100.txt".to_string()));
    assert!(!read.contains(&"300.txt".to_string()));
    let again = select_due_messages(&mut read, &names, 200);
    assert!(again.is_empty());
    let later = select_due_messages(&mut read, &names, 300);
    assert_eq!(later, vec![2]);
}

#[test]
fn message_clone() {
    let m = Message { time: Err("bad".to_string()), state: MessageState::Waiting, id: 4, command: "go".to_string() };
    let c = m.clone();
    assert_eq!(c.time, Err("bad".to_string()));
    assert_eq!(c.state, MessageState::Waiting);
    assert_eq!(c.id, 4);
    assert_eq!(c.command, "go");
}
