//! The client side of the message dispatcher's IPC: a connected socket and
//! the name of the component it speaks for. Creating and connecting the
//! socket is the application's.
use vstd::prelude::*;
use crate::ipc::SOCKET_PATH_PREPEND;

verus! {

/// The size of the buffer that a handler reads dispatcher messages into.
pub const IPC_BUFFER_SIZE: usize = 1024;
/// How long one poll of the dispatcher socket waits, in milliseconds.
pub const CLIENT_POLL_TIMEOUT_MS: i32 = 100;

/// A connection to the message dispatcher.
#[derive(Clone)]
pub struct IPCInterface {
    pub fd: i32,
    socket_name: String,
    pub connected: bool,
}

/// The content of a connection: its socket, the component name and whether
/// it is connected.
pub struct IPCInterfaceView {
    pub fd: i32,
    pub socket_name: Seq<char>,
    pub connected: bool,
}

impl View for IPCInterface {
    type V = IPCInterfaceView;

    closed spec fn view(&self) -> IPCInterfaceView {
        IPCInterfaceView { fd: self.fd, socket_name: self.socket_name@, connected: self.connected }
    }
}

impl IPCInterface {
    /// The connection of the component `socket_name` over the socket `fd`,
    /// once that socket is connected to the dispatcher.
    pub fn new(socket_name: String, fd: i32) -> (r: IPCInterface)
        ensures
            r@ == (IPCInterfaceView { fd, socket_name: socket_name@, connected: true }),
    {
        IPCInterface { fd, socket_name, connected: true }
    }

    /// The socket of this connection.
    pub fn fd(&self) -> (r: i32)
        ensures
            r == self@.fd,
    {
        self.fd
    }

    /// The name of the component that this connection speaks for.
    pub fn socket_name(&self) -> (r: &str)
        ensures
            r@ == self@.socket_name,
    {
        self.socket_name.as_str()
    }

    /// The path of the dispatcher's socket file for this component.
    pub fn socket_path(&self) -> (r: String)
        ensures
            r@ == SOCKET_PATH_PREPEND@ + self@.socket_name,
    {
        crate::ipc::socket_path(self.socket_name.as_str())
    }
}

} // verus!
