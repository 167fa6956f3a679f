//! The ground station's command frames: a fixed 64-byte message whose first
//! three bytes are the frame length, the destination payload and the opcode,
//! followed by the opcode data.
use vstd::prelude::*;
use crate::text::{append_decimal, decimal, str_eq};

verus! {

/// A payload (or subsystem) that commands are addressed to.
#[derive(Debug, Clone, Copy)]
pub struct Payload<'a> {
    pub id: usize,
    pub name: &'a str,
}

pub const PAYLOAD_EPS: &'static str = "eps";
pub const PAYLOAD_ADCS: &'static str = "adcs";
pub const PAYLOAD_DFGM: &'static str = "dfgm";

/// The number of known payloads.
pub const PAYLOAD_COUNT: usize = 4;

/// The name of the known payload with number `id` (`id < PAYLOAD_COUNT`).
pub open spec fn payload_name(id: int) -> Seq<char> {
    if id == 0 { "unknown"@ }
    else if id == 1 { "eps"@ }
    else if id == 2 { "dfgm"@ }
    else { "adcs"@ }
}

/// The number of the first known payload named `s`, if any.
pub open spec fn payload_id_of_name(s: Seq<char>) -> Option<usize> {
    if s == "unknown"@ { Some(0usize) }
    else if s == "eps"@ { Some(1usize) }
    else if s == "dfgm"@ { Some(2usize) }
    else if s == "adcs"@ { Some(3usize) }
    else { None }
}

/// Each known payload is found again by its name.
pub proof fn lemma_payload_name_round_trip(id: int)
    requires
        0 <= id < PAYLOAD_COUNT,
    ensures
        payload_id_of_name(payload_name(id)) == Some(id as usize),
{
    reveal_strlit("unknown");
    reveal_strlit("eps");
    reveal_strlit("dfgm");
    reveal_strlit("adcs");
    let u = "unknown"@;
    let e = "eps"@;
    let d = "dfgm"@;
    let a = "adcs"@;
    assert(u[0] == 'u' && e[0] == 'e' && d[0] == 'd' && a[0] == 'a');
}

/// `p` is the known payload with number `id`.
pub open spec fn is_payload(p: Payload, id: int) -> bool {
    &&& 0 <= id < PAYLOAD_COUNT
    &&& p.id == id
    &&& p.name@ == payload_name(id)
}

/// The table of known payloads, indexed by payload number.
pub fn payloads() -> (r: [Payload<'static>; 4])
    ensures
        forall|i: int| 0 <= i < PAYLOAD_COUNT ==> #[trigger] is_payload(r[i], i),
{
    [
        Payload { id: 0, name: "unknown" },
        Payload { id: 1, name: PAYLOAD_EPS },
        Payload { id: 2, name: PAYLOAD_DFGM },
        Payload { id: 3, name: PAYLOAD_ADCS },
    ]
}

impl<'a> Payload<'a> {
    /// The known payload named `cmd`.
    pub fn from_str(cmd: &str) -> (r: Result<Payload<'static>, &'static str>)
        ensures
            match payload_id_of_name(cmd@) {
                Some(i) => r matches Ok(p) && is_payload(p, i as int),
                None => r matches Err(e) && e@ == "Unrecognized command name"@,
            },
    {
        let table = payloads();
        let mut i: usize = 0;
        while i < PAYLOAD_COUNT
            invariant
                i <= PAYLOAD_COUNT,
                forall|j: int| 0 <= j < PAYLOAD_COUNT ==> #[trigger] is_payload(table[j], j),
                forall|j: int| 0 <= j < i ==> payload_name(j) != cmd@,
            decreases PAYLOAD_COUNT - i,
        {
            let p = table[i];
            assert(is_payload(table[i as int], i as int));
            if str_eq(cmd, p.name) {
                proof {
                    lemma_payload_name_round_trip(i as int);
                }
                return Ok(p);
            }
            i = i + 1;
        }
        assert(payload_name(0) != cmd@ && payload_name(1) != cmd@);
        assert(payload_name(2) != cmd@ && payload_name(3) != cmd@);
        Err("Unrecognized command name")
    }

    /// The known payload with number `id`.
    pub fn from_int(id: u8) -> (r: Result<Payload<'static>, &'static str>)
        ensures
            id < PAYLOAD_COUNT ==> (r matches Ok(p) && is_payload(p, id as int)),
            id >= PAYLOAD_COUNT ==> (r matches Err(e) && e@ == "Unrecognized payload id"@),
    {
        let table = payloads();
        let mut i: usize = 0;
        while i < PAYLOAD_COUNT
            invariant
                i <= PAYLOAD_COUNT,
                forall|j: int| 0 <= j < PAYLOAD_COUNT ==> #[trigger] is_payload(table[j], j),
                i <= id,
            decreases PAYLOAD_COUNT - i,
        {
            let p = table[i];
            assert(is_payload(table[i as int], i as int));
            if id as usize == p.id {
                return Ok(p);
            }
            i = i + 1;
        }
        Err("Unrecognized payload id")
    }

    /// The payload as it is printed: its name, then its number in brackets.
    pub fn to_string(&self) -> (r: String)
        ensures
            r@ == self.name@ + "("@ + decimal(self.id as nat) + ")"@,
    {
        let mut s = String::from_str(self.name);
        s.append("(");
        append_decimal(&mut s, self.id as u64);
        s.append(")");
        s
    }
}

/// Position of the frame length in a message.
const MSG_LEN_IX: usize = 0;
/// Position of the destination payload in a message.
const MSG_DST_IX: usize = 1;
/// Position of the opcode in a message.
const MSG_OP_IX: usize = 2;

pub const MSG_LEN: usize = 64;
pub const MSG_OPDATA_OFF: usize = 3;
pub const MSG_OPDATA_LEN: usize = MSG_LEN - MSG_OPDATA_OFF;

/// A command frame.
pub type Message = [u8; 64];

/// A command: where it goes, what it asks and the data that goes with it.
#[derive(Debug)]
pub struct Command {
    pub payload: Payload<'static>,
    pub opcode: u8,
    pub oplen: usize,
    pub opdata: [u8; 61],
}

/// The mathematical content of a command.
pub struct CommandView {
    pub payload_id: usize,
    pub payload_name: Seq<char>,
    pub opcode: u8,
    pub oplen: usize,
    pub opdata: Seq<u8>,
}

impl View for Command {
    type V = CommandView;

    open spec fn view(&self) -> CommandView {
        CommandView {
            payload_id: self.payload.id,
            payload_name: self.payload.name@,
            opcode: self.opcode,
            oplen: self.oplen,
            opdata: self.opdata@,
        }
    }
}

/// `n` zero bytes.
pub open spec fn zeros(n: nat) -> Seq<u8> {
    Seq::new(n, |i: int| 0u8)
}

/// A frame that `deserialize` accepts: its length byte counts at least the
/// header and at most the whole frame.
pub open spec fn valid_frame(m: Seq<u8>) -> bool {
    m.len() == MSG_LEN && MSG_OPDATA_OFF <= m[0] && m[0] <= MSG_LEN
}

/// Whether `deserialize` accepts the frame `m`.
pub fn valid_frame_bytes(m: &Message) -> (r: bool)
    ensures
        r == valid_frame(m@),
{
    MSG_OPDATA_OFF as u8 <= m[MSG_LEN_IX] && m[MSG_LEN_IX] <= MSG_LEN as u8
}

/// The command that a valid frame holds; an unknown destination stands for
/// payload 0, and the data past the frame length reads as zeros.
pub open spec fn frame_command(m: Seq<u8>) -> CommandView {
    let id: usize = if m[1] < PAYLOAD_COUNT { m[1] as usize } else { 0 };
    CommandView {
        payload_id: id,
        payload_name: payload_name(id as int),
        opcode: m[2],
        oplen: (m[0] - MSG_OPDATA_OFF) as usize,
        opdata: m.subrange(3, m[0] as int) + zeros((MSG_LEN - m[0]) as nat),
    }
}

/// The frame of a command whose data is either empty or fills the frame.
pub open spec fn command_frame(c: CommandView) -> Seq<u8> {
    seq![((c.oplen + MSG_OPDATA_OFF) as u8), (c.payload_id as u8), c.opcode] + if c.oplen == 0 {
        zeros(MSG_OPDATA_LEN as nat)
    } else {
        c.opdata
    }
}

/// The status reply to a command: a header-only frame that carries the status
/// byte in the first data position.
pub open spec fn status_frame(c: CommandView, status: u8) -> Seq<u8> {
    seq![(MSG_OPDATA_OFF as u8), (c.payload_id as u8), c.opcode, status] + zeros(
        (MSG_OPDATA_LEN - 1) as nat,
    )
}

impl Command {
    /// Reads a command from a frame.
    pub fn deserialize(msg: &Message) -> (r: Command)
        requires
            valid_frame(msg@),
        ensures
            r@ == frame_command(msg@),
            is_payload(r.payload, r.payload.id as int),
    {
        let len: usize = msg[MSG_LEN_IX] as usize;
        let table = payloads();
        let payload = match Payload::from_int(msg[MSG_DST_IX]) {
            Ok(p) => p,
            Err(_) => table[0],
        };
        assert(is_payload(table[0], 0));
        let mut cmd = Command {
            oplen: len - MSG_OPDATA_OFF,
            payload: payload,
            opcode: msg[MSG_OP_IX],
            opdata: [0u8; 61],
        };
        let mut i: usize = 0;
        while i < cmd.oplen
            invariant
                cmd.oplen == len - MSG_OPDATA_OFF,
                len == msg@[0],
                valid_frame(msg@),
                i <= cmd.oplen,
                cmd.opdata@.len() == MSG_OPDATA_LEN,
                forall|j: int| 0 <= j < i ==> cmd.opdata@[j] == msg@[j + 3],
                forall|j: int| i <= j < MSG_OPDATA_LEN ==> cmd.opdata@[j] == 0,
                cmd.payload == payload,
                cmd.opcode == msg@[2],
            decreases cmd.oplen - i,
        {
            cmd.opdata[i] = msg[i + MSG_OPDATA_OFF];
            i = i + 1;
        }
        assert(cmd.opdata@ =~= msg@.subrange(3, msg@[0] as int) + zeros((MSG_LEN - msg@[0]) as nat));
        cmd
    }

    /// Writes the command into a frame. The data is copied only when it fills
    /// the whole data area; an empty command leaves it zero.
    pub fn serialize(&self) -> (r: Message)
        requires
            self.oplen == 0 || self.oplen == MSG_OPDATA_LEN,
        ensures
            r@ == command_frame(self@),
    {
        let mut msg: Message = [0u8; 64];
        msg[MSG_LEN_IX] = (self.oplen + MSG_OPDATA_OFF) as u8;
        msg[MSG_DST_IX] = self.payload.id as u8;
        msg[MSG_OP_IX] = self.opcode;
        if self.oplen > 0 {
            let mut i: usize = 0;
            while i < MSG_OPDATA_LEN
                invariant
                    self.oplen == MSG_OPDATA_LEN,
                    i <= MSG_OPDATA_LEN,
                    msg@.len() == MSG_LEN,
                    msg@[0] == (self.oplen + MSG_OPDATA_OFF) as u8,
                    msg@[1] == self.payload.id as u8,
                    msg@[2] == self.opcode,
                    forall|j: int| 0 <= j < i ==> msg@[j + 3] == self.opdata@[j],
                decreases MSG_OPDATA_LEN - i,
            {
                msg[i + MSG_OPDATA_OFF] = self.opdata[i];
                i = i + 1;
            }
        }
        assert(msg@ =~= command_frame(self@));
        msg
    }

    /// The status reply to this command.
    pub fn status_msg(&self, status: u8) -> (r: Message)
        ensures
            r@ == status_frame(self@, status),
    {
        let mut msg: Message = [0u8; 64];
        msg[MSG_LEN_IX] = MSG_OPDATA_OFF as u8;
        msg[MSG_DST_IX] = self.payload.id as u8;
        msg[MSG_OP_IX] = self.opcode;
        msg[MSG_OPDATA_OFF] = status;
        assert(msg@ =~= status_frame(self@, status));
        msg
    }
}

/// Writing a command whose data is empty or full, to a known payload, and
/// reading the frame back gives the same command; the data of an empty
/// command reads back as zeros.
pub proof fn lemma_command_frame_round_trip(c: CommandView)
    requires
        0 <= c.payload_id < PAYLOAD_COUNT,
        c.payload_name == payload_name(c.payload_id as int),
        c.oplen == 0 || c.oplen == MSG_OPDATA_LEN,
        c.opdata.len() == MSG_OPDATA_LEN,
    ensures
        frame_command(command_frame(c)) == (CommandView {
            payload_id: c.payload_id,
            payload_name: c.payload_name,
            opcode: c.opcode,
            oplen: c.oplen,
            opdata: if c.oplen == 0 { zeros(MSG_OPDATA_LEN as nat) } else { c.opdata },
        }),
{
    let m = command_frame(c);
    let r = frame_command(m);
    if c.oplen == 0 {
        assert(r.opdata =~= zeros(MSG_OPDATA_LEN as nat));
    } else {
        assert(r.opdata =~= c.opdata);
    }
}

/// A frame whose data is empty (and zero) or full, sent to a known payload,
/// reads as a command that writes back to the very same frame.
pub proof fn lemma_frame_command_round_trip(m: Seq<u8>)
    requires
        valid_frame(m),
        m[0] == MSG_OPDATA_OFF || m[0] == MSG_LEN,
        m[1] < PAYLOAD_COUNT,
        m[0] == MSG_OPDATA_OFF ==> m.subrange(3, 64) == zeros(MSG_OPDATA_LEN as nat),
    ensures
        command_frame(frame_command(m)) == m,
{
    let c = frame_command(m);
    let f = command_frame(c);
    if m[0] == MSG_OPDATA_OFF {
        assert forall|i: int| 3 <= i < 64 implies f[i] == m[i] by {
            assert(m.subrange(3, 64)[i - 3] == m[i]);
        }
    }
    assert(f =~= m);
}

} // verus!
