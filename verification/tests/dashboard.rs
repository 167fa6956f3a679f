use ex3::dashboard::{Command, Route};

fn cmd(c: &str, ts: Option<&str>) -> Command {
    Command { payload: "eps".to_string(), cmd: c.to_string(), data: "1 2".to_string(), timestamp: ts.map(|t| t.to_string()) }
}

#[test]
fn route_paths() {
    assert_eq!(Route::Home.to_path(), "/");
    assert_eq!(Route::SendCommand.to_path(), "/send_command");
    assert_eq!(Route::CommandHistory.to_path(), "/command_history");
}

#[test]
fn search_is_case_insensitive() {
    let c = cmd("Toggle Data", None);
    assert!(c.matches_search(None));
    assert!(c.matches_search(Some("data".to_string())));
    assert!(c.matches_search(Some("GLE D".to_string())));
    assert!(c.matches_search(Some(String::new())));
    assert!(!c.matches_search(Some("datas".to_string())));
}

#[test]
fn field_texts() {
    let c = cmd("go", Some("2024"));
    assert_eq!(c.field_text("payload"), Some("eps".to_string()));
    assert_eq!(c.field_text("cmd"), Some("go".to_string()));
    assert_eq!(c.field_text("data"), Some("1 2".to_string()));
    assert_eq!(c.field_text("timestamp"), Some("2024".to_string()));
    assert_eq!(cmd("go", None).field_text("timestamp"), Some("No timestamp".to_string()));
    assert_eq!(c.field_text("other"), None);
}

#[test]
fn default_and_clone() {
    let d = Command::default();
    assert!(d.payload.is_empty() && d.cmd.is_empty() && d.data.is_empty() && d.timestamp.is_none());
    let c = cmd("go", Some("t")).clone();
    assert_eq!(c.timestamp, Some("t".to_string()));
}

#[test]
fn search_lowercases_unicode() {
    let c = cmd("ÀBC", None);
    assert!(c.matches_search(Some("àb".to_string())));
    assert!(c.matches_search(Some("Àb".to_string())));
}

#[test]
fn form_input_sets_one_field() {
    let c = cmd("ping", Some("2024-01-01T00:00:00Z"));
    let d = c.with_input("data", "7 8".to_string());
    assert_eq!(d.payload, "eps");
    assert_eq!(d.cmd, "ping");
    assert_eq!(d.data, "7 8");
    assert_eq!(d.timestamp.as_deref(), Some("2024-01-01T00:00:00Z"));
    let e = d.with_input("payload", "dfgm".to_string());
    assert_eq!(e.payload, "dfgm");
    assert_eq!(e.data, "7 8");
    let f = e.with_input("cmd", "toggle".to_string());
    assert_eq!(f.cmd, "toggle");
    let g = f.with_input("colour", "red".to_string());
    assert_eq!((g.payload.as_str(), g.cmd.as_str(), g.data.as_str()), ("dfgm", "toggle", "7 8"));
}
