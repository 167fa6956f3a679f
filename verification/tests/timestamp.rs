use ex3::timestamp::{epoch_from_parsed, timestamp_to_epoch};

#[test]
fn reads_utc_time() {
    assert_eq!(timestamp_to_epoch("2024-06-17 22:22:22".to_string()), Ok(1718662942000));
    assert_eq!(timestamp_to_epoch("1970-01-01 00:00:00".to_string()), Ok(0));
}

#[test]
fn refuses_bad_shape() {
    assert_eq!(timestamp_to_epoch("2024-06-17T22:22:22".to_string()), Err("Invalid timestamp format".to_string()));
    assert_eq!(timestamp_to_epoch("2024-06-17  22:22:22".to_string()), Err("Invalid timestamp format".to_string()));
}

#[test]
fn reports_parse_error() {
    let e = timestamp_to_epoch("2024-13-17 22:22:22".to_string()).unwrap_err();
    assert!(e.starts_with("Failed to parse timestamp: "));
    assert!(e.len() > "Failed to parse timestamp: ".len());
}

#[test]
fn handles_each_parse_outcome() {
    assert_eq!(epoch_from_parsed("a b", Ok(5)), Ok(5));
    assert_eq!(epoch_from_parsed("a b", Ok(-1)), Ok(u64::MAX));
    assert_eq!(epoch_from_parsed("a b", Err("bad".to_string())), Err("Failed to parse timestamp: bad".to_string()));
    assert_eq!(epoch_from_parsed("ab", Ok(5)), Err("Invalid timestamp format".to_string()));
}
