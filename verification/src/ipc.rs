//! The IPC endpoints over Unix sequential-packet sockets: where their socket
//! files live, and the state that a server or client keeps between polls. The
//! socket calls themselves are made by the application, which reports their
//! outcomes here.
use vstd::prelude::*;

verus! {

/// The folder and prefix of every IPC socket file.
pub const SOCKET_PATH_PREPEND: &'static str = "/tmp/fifo_socket_";
/// The size of the receive buffer of a server or client.
pub const IPC_BUFFER_SIZE: usize = 500;
/// How long one poll of the IPC sockets waits, in milliseconds.
pub const POLL_TIMEOUT_MS: i32 = 100;

/// The path of the socket file for the component named `socket_name`.
pub fn socket_path(socket_name: &str) -> (r: String)
    ensures
        r@ == SOCKET_PATH_PREPEND@ + socket_name@,
{
    let mut s = String::from_str(SOCKET_PATH_PREPEND);
    s.append(socket_name);
    s
}

/// `b` holds only zeros.
pub open spec fn all_zero(b: Seq<u8>) -> bool {
    forall|i: int| 0 <= i < b.len() ==> b[i] == 0
}

/// A client connected to a server's socket.
pub struct IpcClient {
    pub socket_path: String,
    pub fd: Option<i32>,
    pub connected: bool,
    pub buffer: [u8; 500],
}

impl IpcClient {
    /// The client for the server named `socket_name`, once its socket `fd` is
    /// connected.
    pub fn new(socket_name: String, fd: i32) -> (r: IpcClient)
        ensures
            r.socket_path@ == SOCKET_PATH_PREPEND@ + socket_name@,
            r.fd == Some(fd),
            r.connected,
            all_zero(r.buffer@),
    {
        IpcClient {
            socket_path: socket_path(socket_name.as_str()),
            fd: Some(fd),
            connected: true,
            buffer: [0u8; 500],
        }
    }

    /// Empties the receive buffer; the data read last stays there until the
    /// user clears it. Nothing is printed: reporting is the caller's.
    pub fn clear_buffer(&mut self)
        ensures
            all_zero(final(self).buffer@),
            final(self).socket_path == old(self).socket_path,
            final(self).fd == old(self).fd,
            final(self).connected == old(self).connected,
    {
        self.buffer = [0u8; 500];
    }
}

/// What a server does when its polled socket becomes readable.
#[derive(PartialEq, Eq, Structural, Debug, Clone, Copy)]
pub enum ServerAction {
    /// Accept a connection on this listening socket.
    Accept(i32),
    /// Read the client's data from this connected socket.
    Read(i32),
    /// Nothing to do.
    Idle,
}

/// What one poll brought a server: nothing, a client connection accepted on
/// this socket, or a read of this many bytes from the connected client.
#[derive(PartialEq, Eq, Structural, Debug, Clone, Copy)]
pub enum ServerEvent {
    Quiet,
    Accepted(i32),
    Read(usize),
}

/// The connection state of a server.
pub struct ServerState {
    pub socket_path: Seq<char>,
    pub conn_fd: Option<i32>,
    pub data_fd: Option<i32>,
    pub connected: bool,
}

/// A server state is consistent: it has a listening socket, and it holds a
/// client socket exactly while a client is connected.
pub open spec fn state_wf(s: ServerState) -> bool {
    &&& s.conn_fd is Some
    &&& s.connected <==> s.data_fd is Some
}

/// The state of a server after one poll event: an accepted connection
/// connects a server that had no client; a read of no bytes from a connected
/// client disconnects it; nothing else changes the state.
pub open spec fn server_step(s: ServerState, e: ServerEvent) -> ServerState {
    match e {
        ServerEvent::Accepted(fd) => if !s.connected {
            ServerState { data_fd: Some(fd), connected: true, ..s }
        } else {
            s
        },
        ServerEvent::Read(n) => if s.connected && n == 0 {
            ServerState { data_fd: None, connected: false, ..s }
        } else {
            s
        },
        ServerEvent::Quiet => s,
    }
}

/// Over one poll, every server that was consistent stays consistent, keeps
/// its socket file and listening socket, and changes its connection only as
/// `server_step` says.
pub proof fn lemma_poll_keeps_servers_consistent(before: Seq<ServerState>, events: Seq<ServerEvent>)
    requires
        before.len() == events.len(),
        forall|i: int| 0 <= i < before.len() ==> state_wf(#[trigger] before[i]),
    ensures
        forall|i: int|
            0 <= i < before.len() ==> {
                let after = server_step(#[trigger] before[i], events[i]);
                &&& state_wf(after)
                &&& after.socket_path == before[i].socket_path
                &&& after.conn_fd == before[i].conn_fd
                &&& (!before[i].connected ==> (events[i] matches ServerEvent::Accepted(fd) ==> after.connected
                    && after.data_fd == Some(fd)))
                &&& (before[i].connected && events[i] == ServerEvent::Read(0) ==> !after.connected
                    && after.data_fd is None)
            },
{
}

/// A read that brought data leaves the server as it was: the client stays
/// connected on the same socket.
pub proof fn lemma_data_read_keeps_state(s: ServerState, n: usize)
    requires
        n != 0,
    ensures
        server_step(s, ServerEvent::Read(n)) == s,
{
}

/// A client accepted on `fd` by a server without one stays connected on `fd`
/// through any read that brings data, and the next poll still reads `fd`.
pub proof fn lemma_accepted_client_stays_through_reads(s: ServerState, fd: i32, n: usize)
    requires
        !s.connected,
        n != 0,
    ensures
        ({
            let t = server_step(server_step(s, ServerEvent::Accepted(fd)), ServerEvent::Read(n));
            &&& t.connected
            &&& t.data_fd == Some(fd)
            &&& t.conn_fd == s.conn_fd
            &&& t.socket_path == s.socket_path
        }),
{
}

/// A server that listens on a socket file and serves one client at a time.
pub struct IpcServer {
    pub socket_path: String,
    pub conn_fd: Option<i32>,
    pub data_fd: Option<i32>,
    pub connected: bool,
    pub buffer: [u8; 500],
}

impl IpcServer {
    /// The server's state is consistent: it has a listening socket, and it
    /// holds a client socket exactly while a client is connected.
    pub open spec fn wf(&self) -> bool {
        &&& self.conn_fd is Some
        &&& self.connected <==> self.data_fd is Some
    }

    /// The server named `socket_name`, once its listening socket `conn_fd` is
    /// bound and listening; no client is connected yet.
    pub fn new(socket_name: String, conn_fd: i32) -> (r: IpcServer)
        ensures
            r.socket_path@ == SOCKET_PATH_PREPEND@ + socket_name@,
            r.conn_fd == Some(conn_fd),
            r.data_fd is None,
            r.wf(),
            !r.connected,
            all_zero(r.buffer@),
    {
        IpcServer {
            socket_path: socket_path(socket_name.as_str()),
            conn_fd: Some(conn_fd),
            data_fd: None,
            connected: false,
            buffer: [0u8; 500],
        }
    }

    /// The socket to poll: the listening socket while no client is
    /// connected, else the connected client's socket.
    pub fn poll_fd(&self) -> (r: Option<i32>)
        ensures
            r == match self.conn_fd {
                None => None,
                Some(c) => if !self.connected { Some(c) } else { self.data_fd },
            },
    {
        match self.conn_fd {
            None => None,
            Some(c) => if !self.connected { Some(c) } else { self.data_fd },
        }
    }

    /// Whether a readable socket `fd` belongs to this server.
    pub fn owns_fd(&self, fd: i32) -> (r: bool)
        ensures
            r == (self.conn_fd == Some(fd) || self.data_fd == Some(fd)),
    {
        let a = match self.conn_fd {
            Some(c) => c == fd,
            None => false,
        };
        let b = match self.data_fd {
            Some(d) => d == fd,
            None => false,
        };
        a || b
    }

    /// What to do when this server's polled socket is readable: accept a
    /// client while none is connected, else read from the connected one.
    pub fn readable_action(&self) -> (r: ServerAction)
        ensures
            !self.connected ==> r == match self.conn_fd {
                Some(c) => ServerAction::Accept(c),
                None => ServerAction::Idle,
            },
            self.connected ==> r == match self.data_fd {
                Some(d) => ServerAction::Read(d),
                None => ServerAction::Idle,
            },
    {
        if !self.connected {
            match self.conn_fd {
                Some(c) => ServerAction::Accept(c),
                None => ServerAction::Idle,
            }
        } else {
            match self.data_fd {
                Some(d) => ServerAction::Read(d),
                None => ServerAction::Idle,
            }
        }
    }

    /// The connection state of this server.
    pub open spec fn state(&self) -> ServerState {
        ServerState {
            socket_path: self.socket_path@,
            conn_fd: self.conn_fd,
            data_fd: self.data_fd,
            connected: self.connected,
        }
    }

    /// Applies what one poll brought this server.
    pub fn apply_event(&mut self, e: ServerEvent)
        ensures
            final(self).state() == server_step(old(self).state(), e),
            (e matches ServerEvent::Read(n) && n != 0) ==> final(self).data_fd == old(self).data_fd
                && final(self).connected == old(self).connected,
            final(self).buffer == old(self).buffer,
    {
        match e {
            ServerEvent::Accepted(fd) => {
                if !self.connected {
                    self.accept_connection(fd);
                }
            },
            ServerEvent::Read(n) => {
                if self.connected {
                    self.handle_read(n);
                }
            },
            ServerEvent::Quiet => {},
        }
    }

    /// Records the client connection accepted on socket `fd`.
    pub fn accept_connection(&mut self, fd: i32)
        ensures
            final(self).data_fd == Some(fd),
            final(self).connected,
            old(self).wf() ==> final(self).wf(),
            final(self).conn_fd == old(self).conn_fd,
            final(self).socket_path == old(self).socket_path,
            final(self).buffer == old(self).buffer,
    {
        self.data_fd = Some(fd);
        self.connected = true;
    }

    /// Records that the client has gone.
    pub fn client_disconnected(&mut self)
        ensures
            final(self).data_fd is None,
            !final(self).connected,
            old(self).wf() ==> final(self).wf(),
            final(self).conn_fd == old(self).conn_fd,
            final(self).socket_path == old(self).socket_path,
            final(self).buffer == old(self).buffer,
    {
        self.connected = false;
        self.data_fd = None;
    }

    /// Records a read of `bytes_read` bytes from the client: a read of none
    /// means that the client has gone.
    pub fn handle_read(&mut self, bytes_read: usize)
        ensures
            bytes_read == 0 ==> final(self).data_fd is None && !final(self).connected,
            bytes_read != 0 ==> final(self).data_fd == old(self).data_fd
                && final(self).connected == old(self).connected,
            old(self).wf() ==> final(self).wf(),
            final(self).conn_fd == old(self).conn_fd,
            final(self).socket_path == old(self).socket_path,
            final(self).buffer == old(self).buffer,
    {
        if bytes_read == 0 {
            self.client_disconnected();
        }
    }

    /// Empties the receive buffer; the data read last stays there until the
    /// user clears it. Nothing is printed: reporting is the caller's.
    pub fn clear_buffer(&mut self)
        ensures
            all_zero(final(self).buffer@),
            final(self).socket_path == old(self).socket_path,
            final(self).data_fd == old(self).data_fd,
            final(self).conn_fd == old(self).conn_fd,
            final(self).connected == old(self).connected,
    {
        self.buffer = [0u8; 500];
    }
}

} // verus!
