use ex3::ipc::{socket_path, IpcClient, IpcServer, ServerAction, ServerEvent, IPC_BUFFER_SIZE};
use ex3::ipc_interface::IPCInterface;

#[test]
fn socket_paths() {
    assert_eq!(socket_path("test_server"), "/tmp/fifo_socket_test_server");
    let c = IpcClient::new("test_server".to_string(), 5);
    assert_eq!(c.socket_path, "/tmp/fifo_socket_test_server");
    assert_eq!(c.fd, Some(5));
    assert!(c.connected);
    assert_eq!(c.buffer, [0u8; IPC_BUFFER_SIZE]);
}

#[test]
fn client_clear_buffer() {
    let mut c = IpcClient::new("a".to_string(), 3);
    c.buffer[0] = 9;
    c.buffer[499] = 1;
    c.clear_buffer();
    assert_eq!(c.buffer, [0u8; IPC_BUFFER_SIZE]);
    assert_eq!(c.fd, Some(3));
}

#[test]
fn server_connection_cycle() {
    let mut s = IpcServer::new("dfgm_handler".to_string(), 10);
    assert_eq!(s.socket_path, "/tmp/fifo_socket_dfgm_handler");
    assert_eq!(s.poll_fd(), Some(10));
    assert_eq!(s.readable_action(), ServerAction::Accept(10));
    assert!(s.owns_fd(10));
    assert!(!s.owns_fd(11));
    s.accept_connection(11);
    assert!(s.connected);
    assert_eq!(s.poll_fd(), Some(11));
    assert_eq!(s.readable_action(), ServerAction::Read(11));
    assert!(s.owns_fd(11));
    s.handle_read(20);
    assert!(s.connected);
    s.buffer[3] = 4;
    s.clear_buffer();
    assert_eq!(s.buffer, [0u8; IPC_BUFFER_SIZE]);
    s.handle_read(0);
    assert!(!s.connected);
    assert_eq!(s.data_fd, None);
    assert_eq!(s.poll_fd(), Some(10));
}

#[test]
fn interface_fields() {
    let i = IPCInterface::new("dfgm_handler".to_string(), 7);
    assert_eq!(i.fd(), 7);
    assert!(i.connected);
    assert_eq!(i.socket_name(), "dfgm_handler");
    assert_eq!(i.socket_path(), "/tmp/fifo_socket_dfgm_handler");
    let j = i.clone();
    assert_eq!(j.fd, 7);
}

#[test]
fn poll_events_drive_the_server() {
    let mut s = IpcServer::new("x".to_string(), 4);
    s.apply_event(ServerEvent::Read(0));
    assert!(!s.connected);
    s.apply_event(ServerEvent::Accepted(9));
    assert!(s.connected);
    assert_eq!(s.data_fd, Some(9));
    s.apply_event(ServerEvent::Accepted(12));
    assert_eq!(s.data_fd, Some(9));
    s.apply_event(ServerEvent::Read(3));
    assert!(s.connected);
    s.apply_event(ServerEvent::Quiet);
    assert!(s.connected);
    s.apply_event(ServerEvent::Read(0));
    assert!(!s.connected);
    assert_eq!(s.data_fd, None);
    assert_eq!(s.conn_fd, Some(4));
}
