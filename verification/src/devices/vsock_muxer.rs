//! The vsock muxer: bridges the connections of a [`VsockDevice`] to Unix
//! sockets of the host.
//!
//! A host process connects to the muxer's listener and sends `CONNECT {port}\n`.
//! The muxer picks a local port, asks the guest for a connection and answers
//! `OK {local_port}\n` once the guest has accepted, or `ERR ...\n`. From then on
//! it carries bytes between the host's stream and the connection.
//!
//! The sockets themselves are the caller's. A new host stream is taken through
//! [`VsockMuxer::begin_connect`], [`VsockMuxer::take_line`],
//! [`VsockMuxer::take_guest`] and [`VsockMuxer::take_answer`], each of which says
//! what to do next. Open streams are served in rounds: read every stream without
//! waiting, hand the results to [`VsockMuxer::sync_connections`], write what it
//! gives back, note failed writes with [`mark_failed`], and finish with
//! [`VsockMuxer::cleanup_dead_connections`].

use crate::devices::vsock::{
    self, contains_key, ConnMapKey, Entry, VsockConnection, VsockDevice, VsockView, HOST_CID,
};
use crate::devices::vsock_conn::{ConnState, ConnView, PendingRx};
use crate::failure;
use crate::path;
use crate::text;
use std::collections::HashSet;
use std::io::Error as IoError;
use vstd::prelude::*;

verus! {

broadcast use vstd::std_specs::hash::group_hash_axioms;

/// Start of the range that local ports are taken from. It is high, so that it
/// does not meet the guest's ports.
pub const LOCAL_PORT_START: u32 = 0x4000_0000;

/// End of the range that local ports are taken from, not part of it.
pub const LOCAL_PORT_END: u32 = 0x8000_0000;

/// Number of local ports.
pub const LOCAL_PORTS: u32 = 0x4000_0000;

/// Largest number of host streams at a time.
pub const MAX_CONNECTIONS: usize = 1024;

/// Time for a host process to send its `CONNECT` line, in milliseconds.
pub const HANDSHAKE_TIMEOUT_MS: u64 = 5000;

/// Time for the guest to accept a connection, in milliseconds.
pub const CONNECT_ESTABLISH_TIMEOUT_MS: u64 = 5000;

/// Most bytes to read from a stream at a time.
pub const STREAM_BUF_SIZE: usize = 4096;

/// What can go wrong in the muxer.
#[derive(Debug)]
#[non_exhaustive]
pub enum VsockMuxerError {
    /// A socket or file operation of the host failed.
    Io(IoError),
    /// A host process did not open its connection as it should.
    InvalidHandshake(String),
    /// All local ports are taken.
    PortExhausted,
}

impl VsockMuxerError {
    /// Whether this is a failed handshake with a certain text.
    pub open spec fn says(self, t: Seq<char>) -> bool {
        self matches VsockMuxerError::InvalidHandshake(s) && s@ == t
    }

    /// The error as text.
    pub fn message(&self) -> (r: String)
        ensures
            match *self {
                VsockMuxerError::Io(_) => text::begins_with(r@, "I/O error: "@),
                VsockMuxerError::InvalidHandshake(s) => r@ == "invalid CONNECT handshake: "@ + s@,
                VsockMuxerError::PortExhausted => r@ == "port allocation exhausted"@,
            },
    {
        match self {
            VsockMuxerError::Io(e) => failure::io_message("I/O error: ", e),
            VsockMuxerError::InvalidHandshake(s) => {
                let mut m = "invalid CONNECT handshake: ".to_owned();
                m.append(s.as_str());
                m
            },
            VsockMuxerError::PortExhausted => "port allocation exhausted".to_owned(),
        }
    }
}

/// What came of reading a host stream's first line.
#[derive(Debug)]
pub enum HandshakeRead {
    /// The stream ended before any byte.
    Closed,
    /// A line, with or without its end.
    Line(String),
    /// Reading failed.
    Failed(IoError),
    /// No line came in time.
    TimedOut(IoError),
}

/// What a line asks for: the guest's port, or the text of the complaint.
pub open spec fn asked_port(line: Seq<char>) -> Result<u32, Seq<char>> {
    let t = text::trimmed(line);
    if !text::begins_with(t, "CONNECT "@) {
        Err("expected 'CONNECT <port>', got: "@ + t)
    } else {
        match text::number(text::ascii_codes(t.skip("CONNECT "@.len() as int)), 10, 0xffff_ffff) {
            Some(n) => Ok(n as u32),
            None => Err("invalid port number: "@ + t.skip("CONNECT "@.len() as int)),
        }
    }
}

/// Reads a `CONNECT {port}` line.
pub fn parse_connect(line: &str) -> (r: Result<u32, VsockMuxerError>)
    ensures
        match asked_port(line@) {
            Ok(p) => r == Ok::<u32, VsockMuxerError>(p),
            Err(t) => r is Err && r->Err_0.says(t),
        },
{
    let trimmed = text::trim(line);
    let n: usize = trimmed.unicode_len();
    if !text::starts_with(trimmed, "CONNECT ") {
        let mut m = "expected 'CONNECT <port>', got: ".to_owned();
        m.append(trimmed);
        return Err(VsockMuxerError::InvalidHandshake(m));
    }
    let k: usize = "CONNECT ".unicode_len();
    let port_str = trimmed.substring_char(k, n);
    assert(port_str@ =~= trimmed@.skip(k as int));
    let codes = text::codes_of(port_str);
    match text::parse_number(codes.as_slice(), 10, 0xffff_ffff) {
        Some(p) => Ok(p as u32),
        None => {
            let mut m = "invalid port number: ".to_owned();
            m.append(port_str);
            Err(VsockMuxerError::InvalidHandshake(m))
        },
    }
}

/// Takes the guest's port from what came of reading a host stream's first line.
pub fn read_connect_handshake(read: HandshakeRead) -> (r: Result<u32, VsockMuxerError>)
    ensures
        match read {
            HandshakeRead::Closed => r is Err && r->Err_0.says(
                "connection closed before handshake"@,
            ),
            HandshakeRead::Line(line) => match asked_port(line@) {
                Ok(p) => r == Ok::<u32, VsockMuxerError>(p),
                Err(t) => r is Err && r->Err_0.says(t),
            },
            HandshakeRead::Failed(e) => r == Err::<u32, VsockMuxerError>(VsockMuxerError::Io(e)),
            HandshakeRead::TimedOut(e) => r == Err::<u32, VsockMuxerError>(VsockMuxerError::Io(e)),
        },
{
    match read {
        HandshakeRead::Closed => Err(
            VsockMuxerError::InvalidHandshake("connection closed before handshake".to_owned()),
        ),
        HandshakeRead::Line(line) => parse_connect(line.as_str()),
        HandshakeRead::Failed(e) => Err(VsockMuxerError::Io(e)),
        HandshakeRead::TimedOut(e) => Err(VsockMuxerError::Io(e)),
    }
}

/// The local port `k` places behind `next`, counting round the range.
pub open spec fn nth_port(next: u32, k: int) -> u32 {
    (LOCAL_PORT_START + (next - LOCAL_PORT_START + k) % (LOCAL_PORTS as int)) as u32
}

/// How far behind `next`, at `k` or later, the first free port is, or the number
/// of ports.
pub open spec fn first_free(ports: Set<u32>, next: u32, k: int) -> int
    decreases LOCAL_PORTS - k,
{
    if k >= LOCAL_PORTS {
        LOCAL_PORTS as int
    } else if !ports.contains(nth_port(next, k)) {
        k
    } else {
        first_free(ports, next, k + 1)
    }
}

/// What a muxer is.
#[verifier::ext_equal]
pub struct MuxerView {
    pub guest_cid: u64,
    pub socket_dir: Seq<u8>,
    /// The connections with a host stream.
    pub streams: Seq<ConnMapKey>,
    /// Where the search for a free port starts.
    pub next_port: u32,
    /// The local ports that are taken.
    pub ports: Set<u32>,
}

impl MuxerView {
    /// The search starts inside the range, and no connection has two streams.
    pub open spec fn wf(self) -> bool {
        &&& LOCAL_PORT_START <= self.next_port < LOCAL_PORT_END
        &&& self.streams.no_duplicates()
    }

    /// The muxer after the search for a free port, with the port if there is one.
    pub open spec fn allocated(self) -> (MuxerView, Option<u32>) {
        let k = first_free(self.ports, self.next_port, 0);
        if k < LOCAL_PORTS {
            let port = nth_port(self.next_port, k);
            (
                MuxerView {
                    ports: self.ports.insert(port),
                    next_port: nth_port(self.next_port, k + 1),
                    ..self
                },
                Some(port),
            )
        } else {
            (self, None)
        }
    }
}

/// What to do next for a new host stream.
#[derive(Debug)]
pub enum ConnectStep {
    /// Read its first line, within [`HANDSHAKE_TIMEOUT_MS`].
    ReadLine,
    /// Wait for the guest, within [`CONNECT_ESTABLISH_TIMEOUT_MS`] in all.
    AwaitGuest {
        /// The connection that was opened.
        key: ConnMapKey,
        /// Whether to have the guest's receive queue served now, and to look at
        /// the connection again at once. Otherwise the next look is due when the
        /// guest has sent something.
        kick: bool,
    },
    /// Write an answer, and go on when it is written.
    Answer {
        /// The connection that the guest accepted.
        key: ConnMapKey,
        /// The bytes to write.
        reply: Vec<u8>,
    },
    /// Write an answer, whatever comes of that, and close the stream.
    Refuse {
        /// The bytes to write.
        reply: Vec<u8>,
        /// Why.
        error: VsockMuxerError,
    },
    /// Close the stream.
    Close {
        /// Why.
        error: VsockMuxerError,
    },
    /// Serve the stream.
    Done {
        /// Its connection.
        key: ConnMapKey,
    },
}

impl ConnectStep {
    /// Whether this refuses the stream with this reply.
    pub open spec fn replies(self, reply: Seq<char>) -> bool {
        self matches ConnectStep::Refuse { reply: b, .. } && b@ == text::char_bytes(reply)
    }

    /// Whether this refuses the stream with these two texts.
    pub open spec fn refuses(self, reply: Seq<char>, error: Seq<char>) -> bool {
        self matches ConnectStep::Refuse { reply: b, error: e } && b@ == text::char_bytes(reply)
            && e.says(error)
    }
}

/// What is known of a connection that the guest has been asked for.
#[derive(Debug, Clone, Copy, PartialEq, Eq, Structural)]
pub enum GuestAnswer {
    /// The guest accepted it.
    Established,
    /// The guest refused it, or it is gone.
    Rejected,
    /// The guest has not answered.
    Pending,
}

/// What the guest answered for a connection.
pub open spec fn answer_for(conns: Seq<Entry>, key: ConnMapKey) -> GuestAnswer {
    if !vsock::has_key(conns, key) || vsock::entry_of(conns, key).state == ConnState::Killed {
        GuestAnswer::Rejected
    } else if vsock::entry_of(conns, key).state == ConnState::Established {
        GuestAnswer::Established
    } else {
        GuestAnswer::Pending
    }
}

/// A new connection that the host asks the guest for.
pub open spec fn asked_connection(guest_cid: u64, key: ConnMapKey) -> ConnView {
    ConnView::fresh(
        ConnState::LocalInit,
        HOST_CID,
        guest_cid,
        key.local_port,
        key.peer_port,
        0,
        PendingRx::Request,
    )
}

/// The muxer and the device after a connection to the guest's port was opened,
/// with its key if there was a free local port.
pub open spec fn opened(m: MuxerView, d: VsockView, peer_port: u32) -> (
    MuxerView,
    VsockView,
    Option<ConnMapKey>,
) {
    match m.allocated().1 {
        None => (m.allocated().0, d, None),
        Some(local_port) => {
            let key = ConnMapKey { local_port, peer_port };
            (
                m.allocated().0,
                VsockView {
                    conns: vsock::with_conn(d.conns, key, asked_connection(m.guest_cid, key)),
                    ..d
                },
                Some(key),
            )
        },
    }
}

/// The muxer and the device after a connection was given up.
pub open spec fn dropped(m: MuxerView, d: VsockView, key: ConnMapKey) -> (MuxerView, VsockView) {
    (
        MuxerView { ports: m.ports.remove(key.local_port), ..m },
        VsockView { conns: vsock::without_conn(d.conns, key), ..d },
    )
}

/// The streams with one more.
pub open spec fn with_stream(streams: Seq<ConnMapKey>, key: ConnMapKey) -> Seq<ConnMapKey> {
    if streams.contains(key) {
        streams
    } else {
        streams.push(key)
    }
}

/// The answer to a host process whose connection the guest accepted.
pub open spec fn ok_reply(local_port: nat) -> Seq<u8> {
    text::char_bytes("OK "@ + text::decimal(local_port) + "\n"@)
}

/// Writes an answer that is a fixed text.
fn reply_bytes(s: &str) -> (r: Vec<u8>)
    requires
        text::all_ascii(s@),
    ensures
        r@ == text::char_bytes(s@),
{
    let mut r: Vec<u8> = Vec::new();
    text::push_str_bytes(&mut r, s);
    assert(r@ =~= text::char_bytes(s@));
    r
}

/// Writes the answer to a host process whose connection the guest accepted.
fn ok_bytes(local_port: u32) -> (r: Vec<u8>)
    ensures
        r@ == ok_reply(local_port as nat),
{
    let mut r: Vec<u8> = Vec::new();
    proof {
        reveal_strlit("OK ");
        reveal_strlit("\n");
        assert("OK "@ =~= seq!['O', 'K', ' ']);
        assert("\n"@ =~= seq!['\n']);
    }
    text::push_str_bytes(&mut r, "OK ");
    text::push_decimal_bytes(&mut r, local_port as u64);
    text::push_str_bytes(&mut r, "\n");
    assert(r@ =~= ok_reply(local_port as nat));
    r
}

/// The fixed answers are ASCII texts.
proof fn lemma_replies()
    ensures
        text::all_ascii("ERR too many connections\n"@),
        text::all_ascii("ERR guest connection failed\n"@),
        text::all_ascii("ERR guest connection timeout\n"@),
        text::all_ascii("ERR invalid handshake\n"@),
        text::all_ascii("ERR handshake timeout\n"@),
        text::all_ascii("ERR no free port\n"@),
{
    reveal_strlit("ERR too many connections\n");
    reveal_strlit("ERR guest connection failed\n");
    reveal_strlit("ERR guest connection timeout\n");
    reveal_strlit("ERR invalid handshake\n");
    reveal_strlit("ERR handshake timeout\n");
    reveal_strlit("ERR no free port\n");
}

/// The name of a muxer's listener, or of a muxer as a host process sees it.
pub open spec fn sock_name(cid: nat) -> Seq<u8> {
    text::char_bytes(text::decimal(cid) + ".sock"@)
}

/// Writes the name of a muxer's listener.
pub fn listener_name(cid: u64) -> (r: Vec<u8>)
    ensures
        r@ == sock_name(cid as nat),
{
    let mut name: Vec<u8> = Vec::new();
    text::push_decimal_bytes(&mut name, cid);
    proof {
        reveal_strlit(".sock");
        assert(".sock"@ =~= seq!['.', 's', 'o', 'c', 'k']);
    }
    text::push_str_bytes(&mut name, ".sock");
    assert(name@ =~= sock_name(cid as nat));
    name
}

/// Bridges the connections of a [`VsockDevice`] to host streams.
#[derive(Debug)]
pub struct VsockMuxer {
    guest_cid: u64,
    socket_dir: Vec<u8>,
    streams: Vec<ConnMapKey>,
    next_local_port: u32,
    allocated_ports: HashSet<u32>,
}

impl View for VsockMuxer {
    type V = MuxerView;

    closed spec fn view(&self) -> MuxerView {
        MuxerView {
            guest_cid: self.guest_cid,
            socket_dir: self.socket_dir@,
            streams: self.streams@,
            next_port: self.next_local_port,
            ports: self.allocated_ports@,
        }
    }
}

impl VsockMuxer {
    /// Creates a muxer without streams for a guest. Its listener belongs into
    /// the directory `socket_dir`.
    pub fn new(guest_cid: u64, socket_dir: Vec<u8>) -> (r: Self)
        ensures
            r@ == (MuxerView {
                guest_cid,
                socket_dir: socket_dir@,
                streams: Seq::empty(),
                next_port: LOCAL_PORT_START,
                ports: Set::empty(),
            }),
            r@.wf(),
    {
        let r = VsockMuxer {
            guest_cid,
            socket_dir,
            streams: Vec::new(),
            next_local_port: LOCAL_PORT_START,
            allocated_ports: HashSet::new(),
        };
        assert(r@.ports =~= Set::empty());
        assert(r@.streams =~= Seq::empty());
        r
    }

    /// Where the muxer's listener belongs: `{socket_dir}/{guest_cid}.sock`.
    #[must_use]
    pub fn listener_path(&self) -> (r: Vec<u8>)
        ensures
            r@ == path::joined(self@.socket_dir, sock_name(self@.guest_cid as nat)),
    {
        let name = listener_name(self.guest_cid);
        path::join(self.socket_dir.as_slice(), name.as_slice())
    }

    /// The port where the search for a free one starts. A snapshot keeps it.
    #[must_use]
    pub fn next_local_port(&self) -> (r: u32)
        ensures
            r == self@.next_port,
    {
        self.next_local_port
    }

    /// Sets the port where the search for a free one starts.
    pub fn set_next_local_port(&mut self, port: u32)
        requires
            LOCAL_PORT_START <= port < LOCAL_PORT_END,
        ensures
            final(self)@ == (MuxerView { next_port: port, ..old(self)@ }),
    {
        self.next_local_port = port;
    }

    /// The connections with a host stream, in the order in which they came.
    pub fn streams(&self) -> (r: &Vec<ConnMapKey>)
        ensures
            r@ == self@.streams,
    {
        &self.streams
    }

    /// Takes the next free local port.
    fn allocate_port(&mut self) -> (r: Result<u32, VsockMuxerError>)
        requires
            old(self)@.wf(),
        ensures
            final(self)@.wf(),
            final(self)@ == old(self)@.allocated().0,
            match old(self)@.allocated().1 {
                Some(p) => r == Ok::<u32, VsockMuxerError>(p),
                None => r == Err::<u32, VsockMuxerError>(VsockMuxerError::PortExhausted),
            },
    {
        let ghost v = self@;
        let mut tries: u32 = 0;
        assert(nth_port(v.next_port, 0) == v.next_port);
        while tries < LOCAL_PORTS
            invariant
                tries <= LOCAL_PORTS,
                v == old(self)@,
                v.wf(),
                self@ == (MuxerView { next_port: nth_port(v.next_port, tries as int), ..v }),
                LOCAL_PORT_START <= self.next_local_port < LOCAL_PORT_END,
                first_free(v.ports, v.next_port, 0) == first_free(
                    v.ports,
                    v.next_port,
                    tries as int,
                ),
            decreases LOCAL_PORTS - tries,
        {
            let port = self.next_local_port;
            self.next_local_port = if port + 1 >= LOCAL_PORT_END {
                LOCAL_PORT_START
            } else {
                port + 1
            };
            proof {
                lemma_next_port(v.next_port, tries as int);
            }
            if !self.allocated_ports.contains(&port) {
                self.allocated_ports.insert(port);
                return Ok(port);
            }
            tries = tries + 1;
        }
        assert(nth_port(v.next_port, LOCAL_PORTS as int) == v.next_port);
        Err(VsockMuxerError::PortExhausted)
    }
}

impl VsockMuxer {
    /// What to do first for a new host stream: to read its first line, or to
    /// refuse it where there are too many.
    pub fn begin_connect(&self) -> (r: ConnectStep)
        ensures
            if self@.streams.len() >= MAX_CONNECTIONS {
                r.refuses("ERR too many connections\n"@, "connection limit reached"@)
            } else {
                r is ReadLine
            },
    {
        if self.streams.len() >= MAX_CONNECTIONS {
            proof {
                lemma_replies();
            }
            ConnectStep::Refuse {
                reply: reply_bytes("ERR too many connections\n"),
                error: VsockMuxerError::InvalidHandshake("connection limit reached".to_owned()),
            }
        } else {
            ConnectStep::ReadLine
        }
    }

    /// Takes what came of reading a host stream's first line, and opens the
    /// connection that it asks for. Where that fails, the stream gets an error
    /// message.
    pub fn take_line(&mut self, device: &mut VsockDevice, read: HandshakeRead) -> (r: ConnectStep)
        requires
            old(self)@.wf(),
            old(device).wf(),
        ensures
            final(self)@.wf(),
            final(device).wf(),
            match read {
                HandshakeRead::Line(line) => match asked_port(line@) {
                    Ok(peer_port) => {
                        let o = opened(old(self)@, old(device)@, peer_port);
                        &&& final(self)@ == o.0
                        &&& final(device)@ == o.1
                        &&& match o.2 {
                            Some(key) => r == (ConnectStep::AwaitGuest { key, kick: true }),
                            None => r.replies("ERR no free port\n"@) && r->Refuse_error
                                == VsockMuxerError::PortExhausted,
                        }
                    },
                    Err(t) => {
                        &&& final(self)@ == old(self)@
                        &&& final(device)@ == old(device)@
                        &&& r.refuses("ERR invalid handshake\n"@, t)
                    },
                },
                _ => {
                    &&& final(self)@ == old(self)@
                    &&& final(device)@ == old(device)@
                    &&& read is Closed ==> r.refuses(
                        "ERR invalid handshake\n"@,
                        "connection closed before handshake"@,
                    )
                    &&& read matches HandshakeRead::TimedOut(e) ==> r.replies(
                        "ERR handshake timeout\n"@,
                    ) && r->Refuse_error == VsockMuxerError::Io(e)
                    &&& read matches HandshakeRead::Failed(e) ==> r.replies(
                        "ERR invalid handshake\n"@,
                    ) && r->Refuse_error == VsockMuxerError::Io(e)
                },
            },
    {
        proof {
            lemma_replies();
        }
        let late = matches!(read, HandshakeRead::TimedOut(_));
        let peer_port: u32 = match read_connect_handshake(read) {
            Ok(p) => p,
            Err(error) => {
                let reply = if late {
                    reply_bytes("ERR handshake timeout\n")
                } else {
                    reply_bytes("ERR invalid handshake\n")
                };
                return ConnectStep::Refuse { reply, error };
            },
        };
        let local_port: u32 = match self.allocate_port() {
            Ok(p) => p,
            Err(error) => {
                return ConnectStep::Refuse { reply: reply_bytes("ERR no free port\n"), error };
            },
        };
        let key = ConnMapKey { local_port, peer_port };
        let conn = VsockConnection::new_local_init(
            HOST_CID,
            self.guest_cid,
            local_port,
            peer_port,
        );
        device.add_connection(key, conn);
        ConnectStep::AwaitGuest { key, kick: true }
    }

    /// What the guest answered for a connection.
    pub fn guest_answer(&self, device: &VsockDevice, key: ConnMapKey) -> (r: GuestAnswer)
        requires
            device.wf(),
        ensures
            r == answer_for(device@.conns, key),
    {
        match device.connections().get(&key) {
            None => GuestAnswer::Rejected,
            Some(conn) => {
                let state = conn.state();
                if state == ConnState::Established {
                    GuestAnswer::Established
                } else if state == ConnState::Killed {
                    GuestAnswer::Rejected
                } else {
                    GuestAnswer::Pending
                }
            },
        }
    }

    /// Gives up a connection that did not come about.
    fn drop_pending_connection(&mut self, device: &mut VsockDevice, key: ConnMapKey)
        requires
            old(self)@.wf(),
            old(device).wf(),
        ensures
            final(self)@.wf(),
            final(device).wf(),
            (final(self)@, final(device)@) == dropped(old(self)@, old(device)@, key),
    {
        self.allocated_ports.remove(&key.local_port);
        let _ = device.remove_connection(&key);
    }

    /// Looks at a connection that the guest has been asked for. `in_time` is
    /// false once the guest's time is over; the connection is then not looked at.
    pub fn take_guest(&mut self, device: &mut VsockDevice, key: ConnMapKey, in_time: bool) -> (r:
        ConnectStep)
        requires
            old(self)@.wf(),
            old(device).wf(),
        ensures
            final(self)@.wf(),
            final(device).wf(),
            if !in_time {
                &&& (final(self)@, final(device)@) == dropped(old(self)@, old(device)@, key)
                &&& r.refuses("ERR guest connection timeout\n"@, "guest connection timeout"@)
            } else {
                match answer_for(old(device)@.conns, key) {
                    GuestAnswer::Established => {
                        &&& final(self)@ == old(self)@
                        &&& final(device)@ == old(device)@
                        &&& r is Answer
                        &&& r->Answer_key == key
                        &&& r->Answer_reply@ == ok_reply(key.local_port as nat)
                    },
                    GuestAnswer::Rejected => {
                        &&& (final(self)@, final(device)@) == dropped(
                            old(self)@,
                            old(device)@,
                            key,
                        )
                        &&& r.refuses(
                            "ERR guest connection failed\n"@,
                            "guest rejected connection"@,
                        )
                    },
                    GuestAnswer::Pending => {
                        &&& final(self)@ == old(self)@
                        &&& final(device)@ == old(device)@
                        &&& r == (ConnectStep::AwaitGuest { key, kick: false })
                    },
                }
            },
    {
        proof {
            lemma_replies();
        }
        if !in_time {
            self.drop_pending_connection(device, key);
            return ConnectStep::Refuse {
                reply: reply_bytes("ERR guest connection timeout\n"),
                error: VsockMuxerError::InvalidHandshake("guest connection timeout".to_owned()),
            };
        }
        match self.guest_answer(device, key) {
            GuestAnswer::Established => {
                ConnectStep::Answer { key, reply: ok_bytes(key.local_port) }
            },
            GuestAnswer::Rejected => {
                self.drop_pending_connection(device, key);
                ConnectStep::Refuse {
                    reply: reply_bytes("ERR guest connection failed\n"),
                    error: VsockMuxerError::InvalidHandshake(
                        "guest rejected connection".to_owned(),
                    ),
                }
            },
            GuestAnswer::Pending => ConnectStep::AwaitGuest { key, kick: false },
        }
    }

    /// Takes what came of writing the answer for an accepted connection. The
    /// stream is served if the answer was written.
    pub fn take_answer(&mut self, key: ConnMapKey, written: Result<(), IoError>) -> (r: ConnectStep)
        requires
            old(self)@.wf(),
        ensures
            final(self)@.wf(),
            match written {
                Ok(_) => {
                    &&& r == (ConnectStep::Done { key })
                    &&& final(self)@ == (MuxerView {
                        streams: with_stream(old(self)@.streams, key),
                        ..old(self)@
                    })
                },
                Err(e) => {
                    &&& r == (ConnectStep::Close { error: VsockMuxerError::Io(e) })
                    &&& final(self)@ == old(self)@
                },
            },
    {
        match written {
            Ok(_) => {
                if !contains_key(self.streams.as_slice(), key) {
                    self.streams.push(key);
                }
                ConnectStep::Done { key }
            },
            Err(e) => ConnectStep::Close { error: VsockMuxerError::Io(e) },
        }
    }
}

/// What came of reading a host stream without waiting.
#[derive(Debug)]
pub enum StreamRead {
    /// The bytes that were read. None means that the stream was closed.
    Bytes(Vec<u8>),
    /// There is nothing to read yet.
    WouldBlock,
    /// Reading failed.
    Failed,
}

impl StreamRead {
    /// Whether the stream has come to its end.
    pub open spec fn spec_lost(self) -> bool {
        match self {
            StreamRead::Bytes(b) => b@.len() == 0,
            StreamRead::WouldBlock => false,
            StreamRead::Failed => true,
        }
    }

    /// Whether bytes came.
    pub open spec fn spec_came(self) -> bool {
        self matches StreamRead::Bytes(b) && b@.len() > 0
    }

    /// Tells whether the stream has come to its end.
    pub fn lost(&self) -> (r: bool)
        ensures
            r == self.spec_lost(),
    {
        match self {
            StreamRead::Bytes(b) => b.len() == 0,
            StreamRead::WouldBlock => false,
            StreamRead::Failed => true,
        }
    }
}

/// A connection after what came of reading its stream.
pub open spec fn after_read(c: ConnView, read: StreamRead) -> ConnView {
    if read.spec_came() {
        c.host_data(read->Bytes_0@)
    } else if read.spec_lost() {
        c.host_gone()
    } else {
        c
    }
}

/// A connection after a round: it has taken in what came from the host, and all
/// bytes for the host are out of it.
pub open spec fn synced(c: ConnView, read: StreamRead) -> ConnView {
    after_read(c, read).flushed(c.tx.len())
}

/// The place of a key among the streams from `i` on, or their number.
pub open spec fn place(streams: Seq<ConnMapKey>, key: ConnMapKey, i: int) -> int
    decreases streams.len() - i,
{
    if i >= streams.len() {
        streams.len() as int
    } else if streams[i] == key {
        i
    } else {
        place(streams, key, i + 1)
    }
}

/// The connections after the first `n` streams had their round.
pub open spec fn served(
    conns: Seq<Entry>,
    streams: Seq<ConnMapKey>,
    reads: Seq<StreamRead>,
    n: int,
) -> Seq<Entry> {
    Seq::new(
        conns.len(),
        |j: int|
            (
                conns[j].0,
                if place(streams, conns[j].0, 0) < n {
                    synced(conns[j].1, reads[place(streams, conns[j].0, 0)])
                } else {
                    conns[j].1
                },
            ),
    )
}

/// What the first `n` streams have to be given.
pub open spec fn outgoing(conns: Seq<Entry>, streams: Seq<ConnMapKey>, n: int) -> Seq<
    (ConnMapKey, Seq<u8>),
>
    decreases n,
{
    if n <= 0 {
        Seq::empty()
    } else {
        let rest = outgoing(conns, streams, n - 1);
        let key = streams[n - 1];
        if vsock::has_key(conns, key) && vsock::entry_of(conns, key).tx.len() > 0 {
            rest.push((key, vsock::entry_of(conns, key).tx))
        } else {
            rest
        }
    }
}

/// Whether a stream has lost its connection.
pub open spec fn is_over(conns: Seq<Entry>, key: ConnMapKey) -> bool {
    !vsock::has_key(conns, key) || vsock::entry_of(conns, key).state == ConnState::Killed
}

/// Those of the first `n` streams that have lost their connection.
pub open spec fn over(conns: Seq<Entry>, streams: Seq<ConnMapKey>, n: int) -> Seq<ConnMapKey>
    decreases n,
{
    if n <= 0 {
        Seq::empty()
    } else {
        let rest = over(conns, streams, n - 1);
        if is_over(conns, streams[n - 1]) {
            rest.push(streams[n - 1])
        } else {
            rest
        }
    }
}

/// The first `n` streams as far as they have come to their end, behind other
/// keys that they are not among.
pub open spec fn with_lost(
    dead: Seq<ConnMapKey>,
    streams: Seq<ConnMapKey>,
    reads: Seq<StreamRead>,
    n: int,
) -> Seq<ConnMapKey>
    decreases n,
{
    if n <= 0 {
        dead
    } else {
        let rest = with_lost(dead, streams, reads, n - 1);
        if reads[n - 1].spec_lost() {
            with_stream(rest, streams[n - 1])
        } else {
            rest
        }
    }
}

/// What a round found.
#[derive(Debug)]
pub struct SyncOutcome {
    /// What to write to which stream.
    pub tx_data: Vec<(ConnMapKey, Vec<u8>)>,
    /// The streams to close.
    pub dead_keys: Vec<ConnMapKey>,
    /// Whether bytes came in from the host.
    pub host_data_pushed: bool,
    /// Whether there is something to tell the guest.
    pub pending_host_to_guest: bool,
}

/// What is to be written, as a model.
pub open spec fn tx_views(v: Seq<(ConnMapKey, Vec<u8>)>) -> Seq<(ConnMapKey, Seq<u8>)> {
    Seq::new(v.len(), |i: int| (v[i].0, v[i].1@))
}

impl SyncOutcome {
    /// Whether the guest's receive queue is to be served at the end of the round.
    pub fn kick(&self) -> (r: bool)
        ensures
            r == (self.host_data_pushed || self.pending_host_to_guest),
    {
        self.host_data_pushed || self.pending_host_to_guest
    }
}

/// Whether one of the first `n` streams brought bytes for its connection.
pub open spec fn any_came(
    conns: Seq<Entry>,
    streams: Seq<ConnMapKey>,
    reads: Seq<StreamRead>,
    n: int,
) -> bool {
    exists|i: int|
        0 <= i < n && (#[trigger] reads[i]).spec_came() && vsock::has_key(conns, streams[i])
}

impl VsockMuxer {
    /// Runs a round over the streams with what came of reading each of them, in
    /// their order. The connections take in what came, hand out all bytes for
    /// the host, and those whose time is over at `now` are dropped. Without
    /// streams nothing happens.
    pub fn sync_connections(
        &self,
        device: &mut VsockDevice,
        reads: &Vec<StreamRead>,
        now: u64,
    ) -> (r: SyncOutcome)
        requires
            self@.wf(),
            old(device).wf(),
            reads@.len() == self@.streams.len(),
        ensures
            final(device).wf(),
            ({
                let streams = self@.streams;
                let n = streams.len() as int;
                let conns = old(device)@.conns;
                if n == 0 {
                    &&& final(device)@ == old(device)@
                    &&& tx_views(r.tx_data@) == Seq::<(ConnMapKey, Seq<u8>)>::empty()
                    &&& r.dead_keys@ == Seq::<ConnMapKey>::empty()
                    &&& !r.host_data_pushed
                    &&& !r.pending_host_to_guest
                } else {
                    &&& final(device)@ == (VsockView {
                        conns: served(conns, streams, reads@, n).filter(
                            |e: Entry| !e.1.expired(now),
                        ),
                        ..old(device)@
                    })
                    &&& tx_views(r.tx_data@) == outgoing(conns, streams, n)
                    &&& r.dead_keys@ == with_lost(over(conns, streams, n), streams, reads@, n)
                    &&& r.host_data_pushed == any_came(conns, streams, reads@, n)
                    &&& r.pending_host_to_guest == vsock::any_pending(final(device)@.conns)
                }
            }),
    {
        let n: usize = self.streams.len();
        let mut tx_data: Vec<(ConnMapKey, Vec<u8>)> = Vec::new();
        let mut dead_keys: Vec<ConnMapKey> = Vec::new();
        let mut host_data_pushed = false;
        let ghost streams = self@.streams;
        let ghost d0 = device@;
        let ghost conns = device@.conns;
        assert(tx_views(tx_data@) =~= Seq::empty());
        if n == 0 {
            return SyncOutcome {
                tx_data,
                dead_keys,
                host_data_pushed,
                pending_host_to_guest: false,
            };
        }
        proof {
            device.lemma_keys_distinct();
            assert forall|j: int| 0 <= j < conns.len() implies 0 <= place(
                streams,
                #[trigger] conns[j].0,
                0,
            ) by {
                lemma_place(streams, conns[j].0, 0);
            }
            assert(served(conns, streams, reads@, 0) =~= conns);
        }
        let mut i: usize = 0;
        while i < n
            invariant
                i <= n,
                n == streams.len(),
                streams == self@.streams,
                self@.wf(),
                reads@.len() == n,
                device.wf(),
                device@ == (VsockView { conns: device@.conns, ..d0 }),
                device@.conns == served(conns, streams, reads@, i as int),
                vsock::keys_distinct(conns),
                tx_views(tx_data@) == outgoing(conns, streams, i as int),
                dead_keys@ == over(conns, streams, i as int),
                host_data_pushed == any_came(conns, streams, reads@, i as int),
            decreases n - i,
        {
            let key = self.streams[i];
            let ghost before = device@.conns;
            proof {
                lemma_served_keys(conns, streams, reads@, i as int, key);
                vsock::lemma_find(before, key, 0);
                vsock::lemma_find(conns, key, 0);
                lemma_place_at(streams, i as int);
            }
            match device.connections_mut().get_mut(&key) {
                None => {
                    proof {
                        assert(device@.conns =~= served(conns, streams, reads@, i + 1)) by {
                            lemma_untouched(conns, streams, reads@, i as int);
                        }
                    }
                    dead_keys.push(key);
                },
                Some(conn) => {
                    match &reads[i] {
                        StreamRead::Bytes(b) => {
                            if b.len() > 0 {
                                conn.push_host_data(b.as_slice());
                                host_data_pushed = true;
                            } else {
                                conn.notify_host_closed();
                            }
                        },
                        StreamRead::WouldBlock => {},
                        StreamRead::Failed => {
                            conn.notify_host_closed();
                        },
                    }
                    let out = conn.drain_tx();
                    let killed = conn.state() == ConnState::Killed;
                    proof {
                        lemma_touched(conns, streams, reads@, i as int);
                        assert(device@.conns =~= served(conns, streams, reads@, i + 1));
                    }
                    if out.len() > 0 {
                        let ghost t0 = tx_data@;
                        tx_data.push((key, out));
                        assert(tx_views(tx_data@) =~= tx_views(t0).push((key, out@)));
                    }
                    if killed {
                        dead_keys.push(key);
                    }
                },
            }
            i = i + 1;
            proof {
                assert(any_came(conns, streams, reads@, i as int) == (any_came(
                    conns,
                    streams,
                    reads@,
                    i - 1,
                ) || (reads@[i - 1].spec_came() && vsock::has_key(conns, streams[i - 1]))));
            }
        }
        let mut k: usize = 0;
        while k < n
            invariant
                k <= n,
                n == streams.len(),
                streams == self@.streams,
                reads@.len() == n,
                dead_keys@ == with_lost(over(conns, streams, n as int), streams, reads@, k as int),
            decreases n - k,
        {
            if reads[k].lost() {
                let key = self.streams[k];
                if !contains_key(dead_keys.as_slice(), key) {
                    dead_keys.push(key);
                }
            }
            k = k + 1;
        }
        device.expire_connections(now);
        let pending_host_to_guest = device.any_pending_rx();
        SyncOutcome { tx_data, dead_keys, host_data_pushed, pending_host_to_guest }
    }
}

proof fn lemma_place(streams: Seq<ConnMapKey>, key: ConnMapKey, i: int)
    requires
        0 <= i <= streams.len(),
    ensures
        i <= place(streams, key, i) <= streams.len(),
        place(streams, key, i) < streams.len() ==> streams[place(streams, key, i)] == key,
        forall|k: int| i <= k < place(streams, key, i) ==> #[trigger] streams[k] != key,
    decreases streams.len() - i,
{
    if i < streams.len() && streams[i] != key {
        lemma_place(streams, key, i + 1);
    }
}

/// Every stream stands where it is.
proof fn lemma_place_at(streams: Seq<ConnMapKey>, i: int)
    requires
        streams.no_duplicates(),
        0 <= i < streams.len(),
    ensures
        place(streams, streams[i], 0) == i,
{
    lemma_place(streams, streams[i], 0);
}

/// A round keeps the connections' keys where they are.
proof fn lemma_served_keys(
    conns: Seq<Entry>,
    streams: Seq<ConnMapKey>,
    reads: Seq<StreamRead>,
    n: int,
    key: ConnMapKey,
)
    ensures
        vsock::find_from(served(conns, streams, reads, n), key, 0) == vsock::find_from(
            conns,
            key,
            0,
        ),
{
    lemma_same_place(served(conns, streams, reads, n), conns, key, 0);
}

/// Where the keys are the same, a key is found at the same place.
proof fn lemma_same_place(a: Seq<Entry>, b: Seq<Entry>, key: ConnMapKey, i: int)
    requires
        0 <= i,
        a.len() == b.len(),
        forall|k: int| 0 <= k < a.len() ==> (#[trigger] a[k]).0 == b[k].0,
    ensures
        vsock::find_from(a, key, i) == vsock::find_from(b, key, i),
    decreases a.len() - i,
{
    if i < a.len() {
        assert(a[i].0 == b[i].0);
        lemma_same_place(a, b, key, i + 1);
    }
}

/// The round of a stream without a connection.
proof fn lemma_untouched(
    conns: Seq<Entry>,
    streams: Seq<ConnMapKey>,
    reads: Seq<StreamRead>,
    i: int,
)
    requires
        streams.no_duplicates(),
        0 <= i < streams.len(),
        !vsock::has_key(conns, streams[i]),
    ensures
        served(conns, streams, reads, i + 1) == served(conns, streams, reads, i),
{
    vsock::lemma_find(conns, streams[i], 0);
    assert forall|j: int| 0 <= j < conns.len() implies place(
        streams,
        #[trigger] conns[j].0,
        0,
    ) != i by {
        lemma_place(streams, conns[j].0, 0);
    }
    assert(served(conns, streams, reads, i + 1) =~= served(conns, streams, reads, i));
}

/// The round of a stream with a connection.
proof fn lemma_touched(
    conns: Seq<Entry>,
    streams: Seq<ConnMapKey>,
    reads: Seq<StreamRead>,
    i: int,
)
    requires
        streams.no_duplicates(),
        vsock::keys_distinct(conns),
        0 <= i < streams.len(),
        vsock::has_key(conns, streams[i]),
    ensures
        ({
            let f = vsock::find_from(conns, streams[i], 0);
            &&& served(conns, streams, reads, i)[f] == conns[f]
            &&& served(conns, streams, reads, i + 1) == served(conns, streams, reads, i).update(
                f,
                (streams[i], synced(conns[f].1, reads[i])),
            )
        }),
{
    let f = vsock::find_from(conns, streams[i], 0);
    vsock::lemma_find(conns, streams[i], 0);
    lemma_place_at(streams, i);
    assert forall|j: int| 0 <= j < conns.len() && j != f implies place(
        streams,
        #[trigger] conns[j].0,
        0,
    ) != i by {
        lemma_place(streams, conns[j].0, 0);
        if j < f {
            assert(conns[j].0 != conns[f].0);
        } else {
            assert(conns[f].0 != conns[j].0);
        }
    }
    assert(served(conns, streams, reads, i + 1) =~= served(conns, streams, reads, i).update(
        f,
        (streams[i], synced(conns[f].1, reads[i])),
    ));
}

/// What came of writing to a host stream without waiting.
#[derive(Debug, Clone, Copy, PartialEq, Eq, Structural)]
pub enum StreamWrite {
    /// Bytes were written.
    Written,
    /// The stream takes nothing now.
    WouldBlock,
    /// Writing failed.
    Failed,
}

/// The first `n` keys whose writing failed, behind other keys that they are not
/// among.
pub open spec fn with_failed(
    dead: Seq<ConnMapKey>,
    tx: Seq<(ConnMapKey, Vec<u8>)>,
    writes: Seq<StreamWrite>,
    n: int,
) -> Seq<ConnMapKey>
    decreases n,
{
    if n <= 0 {
        dead
    } else {
        let rest = with_failed(dead, tx, writes, n - 1);
        if writes[n - 1] == StreamWrite::Failed {
            with_stream(rest, tx[n - 1].0)
        } else {
            rest
        }
    }
}

/// Adds the streams to which writing failed to those to be closed. `writes`
/// tells what came of writing each entry of `tx_data`.
pub fn mark_failed(
    tx_data: &Vec<(ConnMapKey, Vec<u8>)>,
    writes: &Vec<StreamWrite>,
    dead_keys: &mut Vec<ConnMapKey>,
)
    requires
        writes@.len() == tx_data@.len(),
    ensures
        final(dead_keys)@ == with_failed(
            old(dead_keys)@,
            tx_data@,
            writes@,
            tx_data@.len() as int,
        ),
{
    let n: usize = tx_data.len();
    let mut i: usize = 0;
    while i < n
        invariant
            i <= n,
            n == tx_data@.len(),
            n == writes@.len(),
            dead_keys@ == with_failed(old(dead_keys)@, tx_data@, writes@, i as int),
        decreases n - i,
    {
        if writes[i] == StreamWrite::Failed {
            let key = tx_data[i].0;
            if !contains_key(dead_keys.as_slice(), key) {
                dead_keys.push(key);
            }
        }
        i = i + 1;
    }
}

/// The local ports of some keys.
pub open spec fn local_ports(keys: Seq<ConnMapKey>) -> Set<u32> {
    Set::new(|p: u32| exists|i: int| 0 <= i < keys.len() && (#[trigger] keys[i]).local_port == p)
}

/// The muxer and the device after some streams were closed.
pub open spec fn cleaned(m: MuxerView, d: VsockView, dead: Seq<ConnMapKey>) -> (
    MuxerView,
    VsockView,
) {
    (
        MuxerView {
            streams: m.streams.filter(|k: ConnMapKey| !dead.contains(k)),
            ports: m.ports.difference(local_ports(dead)),
            ..m
        },
        VsockView { conns: d.conns.filter(|e: Entry| !dead.contains(e.0)), ..d },
    )
}

impl VsockMuxer {
    /// Forgets streams that are to be closed: their ports are free again, and the
    /// device drops their connections.
    pub fn cleanup_dead_connections(&mut self, device: &mut VsockDevice, dead_keys: &[ConnMapKey])
        requires
            old(self)@.wf(),
            old(device).wf(),
        ensures
            final(self)@.wf(),
            final(device).wf(),
            (final(self)@, final(device)@) == cleaned(old(self)@, old(device)@, dead_keys@),
    {
        let ghost m0 = self@;
        let ghost keep = |k: ConnMapKey| !dead_keys@.contains(k);
        let n: usize = self.streams.len();
        let mut kept: Vec<ConnMapKey> = Vec::new();
        let mut i: usize = 0;
        assert(m0.streams.take(0) =~= Seq::empty());
        proof {
            reveal(Seq::filter);
        }
        while i < n
            invariant
                i <= n,
                n == self.streams@.len(),
                self@ == m0,
                keep == (|k: ConnMapKey| !dead_keys@.contains(k)),
                kept@ == m0.streams.take(i as int).filter(keep),
            decreases n - i,
        {
            let key = self.streams[i];
            proof {
                reveal(Seq::filter);
                assert(m0.streams.take(i + 1).drop_last() =~= m0.streams.take(i as int));
            }
            if !contains_key(dead_keys, key) {
                kept.push(key);
            }
            i = i + 1;
        }
        assert(m0.streams.take(n as int) =~= m0.streams);
        let ghost all = m0.streams;
        proof {
            lemma_filter_distinct(all, keep);
        }
        self.streams = kept;
        let mut k: usize = 0;
        assert(self@.ports =~= m0.ports.difference(local_ports(dead_keys@.take(0))));
        while k < dead_keys.len()
            invariant
                k <= dead_keys@.len(),
                self@ == (MuxerView {
                    streams: all.filter(keep),
                    ports: m0.ports.difference(local_ports(dead_keys@.take(k as int))),
                    ..m0
                }),
            decreases dead_keys@.len() - k,
        {
            let port: u32 = dead_keys[k].local_port;
            self.allocated_ports.remove(&port);
            proof {
                let a = local_ports(dead_keys@.take(k as int));
                let b = local_ports(dead_keys@.take(k + 1));
                assert(b =~= a.insert(port)) by {
                    assert forall|p: u32| b.contains(p) implies a.insert(port).contains(p) by {
                        let j = choose|j: int|
                            0 <= j < k + 1 && (#[trigger] dead_keys@.take(k + 1)[j]).local_port == p;
                        if j < k {
                            assert(dead_keys@.take(k as int)[j].local_port == p);
                        }
                    }
                    assert forall|p: u32| a.insert(port).contains(p) implies b.contains(p) by {
                        if p == port {
                            assert(dead_keys@.take(k + 1)[k as int].local_port == p);
                        } else {
                            let j = choose|j: int|
                                0 <= j < k && (#[trigger] dead_keys@.take(k as int)[j]).local_port
                                    == p;
                            assert(dead_keys@.take(k + 1)[j].local_port == p);
                        }
                    }
                }
                assert(m0.ports.difference(a).remove(port) =~= m0.ports.difference(b));
            }
            k = k + 1;
        }
        assert(dead_keys@.take(k as int) =~= dead_keys@);
        device.remove_connections(dead_keys);
    }
}

/// A filter makes no duplicates.
proof fn lemma_filter_distinct(s: Seq<ConnMapKey>, keep: spec_fn(ConnMapKey) -> bool)
    requires
        s.no_duplicates(),
    ensures
        s.filter(keep).no_duplicates(),
        forall|k: ConnMapKey| #[trigger]
            s.filter(keep).contains(k) <==> s.contains(k) && keep(k),
    decreases s.len(),
{
    reveal(Seq::filter);
    if s.len() > 0 {
        let t = s.drop_last();
        lemma_filter_distinct(t, keep);
        assert(s =~= t.push(s.last()));
        assert(!t.contains(s.last()));
        assert(!t.filter(keep).contains(s.last()));
        assert forall|i: int| 0 <= i < t.filter(keep).len() implies #[trigger] t.filter(keep)[i]
            != s.last() by {
            assert(t.filter(keep).contains(t.filter(keep)[i]));
        }
        assert forall|k: ConnMapKey| #[trigger] s.filter(keep).contains(k) <==> s.contains(k)
            && keep(k) by {
            assert(s.contains(k) <==> t.contains(k) || k == s.last()) by {
                if t.contains(k) {
                    let j = choose|j: int| 0 <= j < t.len() && t[j] == k;
                    assert(s[j] == k);
                }
                if k == s.last() {
                    assert(s[s.len() - 1] == k);
                }
                if s.contains(k) && k != s.last() {
                    let j = choose|j: int| 0 <= j < s.len() && s[j] == k;
                    assert(t[j] == k);
                }
            }
            let f = t.filter(keep);
            if keep(s.last()) {
                let g = f.push(s.last());
                if g.contains(k) && k != s.last() {
                    let j = choose|j: int| 0 <= j < g.len() && g[j] == k;
                    assert(f[j] == k);
                }
                if f.contains(k) {
                    let j = choose|j: int| 0 <= j < f.len() && f[j] == k;
                    assert(g[j] == k);
                }
                assert(g[f.len() as int] == s.last());
            }
        }
    }
}

/// An allocated port is one of the local ports, and it was free.
pub proof fn law_port_is_fresh(m: MuxerView)
    requires
        m.wf(),
        m.allocated().1 is Some,
    ensures
        LOCAL_PORT_START <= m.allocated().1->0 < LOCAL_PORT_END,
        !m.ports.contains(m.allocated().1->0),
        m.allocated().0.ports == m.ports.insert(m.allocated().1->0),
        m.allocated().0.wf(),
{
    let k = first_free(m.ports, m.next_port, 0);
    lemma_first_free(m.ports, m.next_port, 0);
    lemma_next_port(m.next_port, k);
    lemma_next_port(m.next_port, k + 1);
}

/// Allocation fails only when every local port is taken.
pub proof fn law_ports_run_out(m: MuxerView)
    requires
        m.wf(),
    ensures
        m.allocated().1 is None <==> forall|p: u32|
            LOCAL_PORT_START <= p < LOCAL_PORT_END ==> #[trigger] m.ports.contains(p),
{
    let free = first_free(m.ports, m.next_port, 0);
    lemma_first_free(m.ports, m.next_port, 0);
    if free < LOCAL_PORTS {
        let p = nth_port(m.next_port, free);
        lemma_next_port(m.next_port, free);
        assert(!m.ports.contains(p));
    } else {
        assert forall|p: u32| LOCAL_PORT_START <= p < LOCAL_PORT_END implies #[trigger]
            m.ports.contains(p) by {
            let k = if p >= m.next_port {
                p - m.next_port
            } else {
                p - m.next_port + LOCAL_PORTS
            };
            assert(nth_port(m.next_port, k) == p);
            assert(m.ports.contains(nth_port(m.next_port, k)));
        }
    }
}

/// Ports are handed out in turn: a port that was just given back is not handed
/// out again while another one is free.
pub proof fn law_ports_take_turns(m: MuxerView, other: u32)
    requires
        m.wf(),
        m.allocated().1 is Some,
        LOCAL_PORT_START <= other < LOCAL_PORT_END,
        other != m.allocated().1->0,
        !m.ports.contains(other),
    ensures
        ({
            let port = m.allocated().1->0;
            let back = MuxerView {
                ports: m.allocated().0.ports.remove(port),
                ..m.allocated().0
            };
            &&& back.allocated().1 is Some
            &&& back.allocated().1->0 != port
        }),
{
    let port = m.allocated().1->0;
    let k = first_free(m.ports, m.next_port, 0);
    law_port_is_fresh(m);
    let back = MuxerView { ports: m.allocated().0.ports.remove(port), ..m.allocated().0 };
    assert(back.ports =~= m.ports);
    lemma_first_free(back.ports, back.next_port, 0);
    lemma_first_free(m.ports, m.next_port, 0);
    lemma_next_port(m.next_port, k);
    assert(!back.ports.contains(other));
    law_ports_run_out(back);
    let f = first_free(back.ports, back.next_port, 0);
    lemma_next_port(back.next_port, f);
    // `port` stands right before `back.next_port`, so at the end of the range as
    // it is counted from there.
    let place_of_port = LOCAL_PORTS - 1;
    assert(nth_port(back.next_port, place_of_port) == port);
    let j = if other >= back.next_port {
        other - back.next_port
    } else {
        other - back.next_port + LOCAL_PORTS
    };
    assert(nth_port(back.next_port, j) == other);
    assert(j != place_of_port);
    if f == place_of_port {
        assert(back.ports.contains(nth_port(back.next_port, j)));
    }
    assert(f < place_of_port);
    assert(nth_port(back.next_port, f) != port);
}

/// A connection that the guest did not accept leaves no trace: afterwards the
/// same ports are taken and the device has the same connections as before.
pub proof fn law_refused_connection_leaves_no_trace(m: MuxerView, d: VsockView, peer_port: u32)
    requires
        m.wf(),
        opened(m, d, peer_port).2 is Some,
        !vsock::has_key(d.conns, opened(m, d, peer_port).2->0),
    ensures
        ({
            let o = opened(m, d, peer_port);
            let (m2, d2) = dropped(o.0, o.1, o.2->0);
            &&& m2.ports == m.ports
            &&& m2.streams == m.streams
            &&& d2 == d
        }),
{
    let o = opened(m, d, peer_port);
    let key = o.2->0;
    law_port_is_fresh(m);
    let (m2, d2) = dropped(o.0, o.1, key);
    assert(m2.ports =~= m.ports);
    let with = vsock::with_conn(d.conns, key, asked_connection(m.guest_cid, key));
    vsock::lemma_find(d.conns, key, 0);
    vsock::lemma_find(with, key, 0);
    let f = vsock::find_from(with, key, 0);
    if f < d.conns.len() {
        assert(with[f].0 == d.conns[f].0);
    } else {
        assert(with[d.conns.len() as int].0 == key);
    }
    assert(d2.conns =~= d.conns);
}

/// A closed stream is gone everywhere: the muxer has no stream and no port of it,
/// and the device no connection. What else there is stays.
pub proof fn law_cleanup_is_complete(
    m: MuxerView,
    d: VsockView,
    dead: Seq<ConnMapKey>,
    key: ConnMapKey,
)
    requires
        m.wf(),
    ensures
        ({
            let (m2, d2) = cleaned(m, d, dead);
            &&& m2.wf()
            &&& dead.contains(key) ==> {
                &&& !m2.streams.contains(key)
                &&& !m2.ports.contains(key.local_port)
                &&& !vsock::has_key(d2.conns, key)
            }
            &&& !dead.contains(key) ==> m2.streams.contains(key) == m.streams.contains(key)
            &&& !local_ports(dead).contains(key.local_port) ==> m2.ports.contains(key.local_port)
                == m.ports.contains(key.local_port)
        }),
{
    let keep = |k: ConnMapKey| !dead.contains(k);
    lemma_filter_distinct(m.streams, keep);
    if dead.contains(key) {
        let j = choose|j: int| 0 <= j < dead.len() && dead[j] == key;
        assert(dead[j].local_port == key.local_port);
        let f = |e: Entry| !dead.contains(e.0);
        let conns = d.conns.filter(f);
        vsock::lemma_find(conns, key, 0);
        lemma_filter_holds(d.conns, f);
    }
}

/// What a filter kept is what it keeps.
proof fn lemma_filter_holds(s: Seq<Entry>, keep: spec_fn(Entry) -> bool)
    ensures
        forall|i: int| 0 <= i < s.filter(keep).len() ==> keep(#[trigger] s.filter(keep)[i]),
    decreases s.len(),
{
    reveal(Seq::filter);
    if s.len() > 0 {
        lemma_filter_holds(s.drop_last(), keep);
    }
}

/// No byte is lost on the way from the guest: what a round gives back for a
/// stream is all that its connection held for the host, in order.
pub proof fn law_round_hands_out_all(conns: Seq<Entry>, streams: Seq<ConnMapKey>, n: int, i: int)
    requires
        0 <= i < n <= streams.len(),
        vsock::has_key(conns, streams[i]),
        vsock::entry_of(conns, streams[i]).tx.len() > 0,
    ensures
        outgoing(conns, streams, n).contains(
            (streams[i], vsock::entry_of(conns, streams[i]).tx),
        ),
    decreases n,
{
    let e = (streams[i], vsock::entry_of(conns, streams[i]).tx);
    let out = outgoing(conns, streams, n);
    if i == n - 1 {
        assert(out.last() == e);
    } else {
        law_round_hands_out_all(conns, streams, n - 1, i);
        let rest = outgoing(conns, streams, n - 1);
        let j = choose|j: int| 0 <= j < rest.len() && rest[j] == e;
        assert(out[j] == e);
    }
}

/// What a round does to the connection of a stream: the bytes that came from the
/// host stand behind those that the guest has not fetched, nothing is left for
/// the host, and the connection's state stays.
pub proof fn law_round_keeps_bytes(c: ConnView, read: StreamRead)
    ensures
        synced(c, read).tx.len() == 0,
        synced(c, read).state == c.state,
        read.spec_came() ==> synced(c, read).rx == c.rx + read->Bytes_0@,
        !read.spec_came() ==> synced(c, read).rx == c.rx,
        read.spec_came() || read.spec_lost() ==> synced(c, read).pending.contains(PendingRx::Rw),
        synced(c, read).host_closed == (c.host_closed || read.spec_lost()),
{
}

/// A connection without a stream is not touched by a round.
pub proof fn law_round_spares_others(
    conns: Seq<Entry>,
    streams: Seq<ConnMapKey>,
    reads: Seq<StreamRead>,
    j: int,
)
    requires
        0 <= j < conns.len(),
        !streams.contains(conns[j].0),
    ensures
        served(conns, streams, reads, streams.len() as int)[j] == conns[j],
{
    lemma_place(streams, conns[j].0, 0);
}

/// A stream that has come to its end, or whose connection is gone or killed, is
/// among those to be closed.
pub proof fn law_ended_streams_are_closed(
    conns: Seq<Entry>,
    streams: Seq<ConnMapKey>,
    reads: Seq<StreamRead>,
    i: int,
)
    requires
        0 <= i < streams.len(),
        reads.len() == streams.len(),
        reads[i].spec_lost() || is_over(conns, streams[i]),
    ensures
        ({
            let n = streams.len() as int;
            with_lost(over(conns, streams, n), streams, reads, n).contains(streams[i])
        }),
{
    let n = streams.len() as int;
    if is_over(conns, streams[i]) {
        lemma_over(conns, streams, n, i);
    }
    lemma_with_lost(over(conns, streams, n), streams, reads, n, i);
}

proof fn lemma_over(conns: Seq<Entry>, streams: Seq<ConnMapKey>, n: int, i: int)
    requires
        0 <= i < n <= streams.len(),
        is_over(conns, streams[i]),
    ensures
        over(conns, streams, n).contains(streams[i]),
    decreases n,
{
    let o = over(conns, streams, n);
    if i == n - 1 {
        assert(o.last() == streams[i]);
    } else {
        lemma_over(conns, streams, n - 1, i);
        let rest = over(conns, streams, n - 1);
        let j = choose|j: int| 0 <= j < rest.len() && rest[j] == streams[i];
        assert(o[j] == streams[i]);
    }
}

proof fn lemma_with_lost(
    dead: Seq<ConnMapKey>,
    streams: Seq<ConnMapKey>,
    reads: Seq<StreamRead>,
    n: int,
    i: int,
)
    requires
        0 <= n <= streams.len(),
        0 <= i < streams.len(),
    ensures
        dead.contains(streams[i]) || (i < n && reads[i].spec_lost()) ==> with_lost(
            dead,
            streams,
            reads,
            n,
        ).contains(streams[i]),
    decreases n,
{
    if n > 0 {
        lemma_with_lost(dead, streams, reads, n - 1, i);
        let rest = with_lost(dead, streams, reads, n - 1);
        let w = with_lost(dead, streams, reads, n);
        if rest.contains(streams[i]) {
            let j = choose|j: int| 0 <= j < rest.len() && rest[j] == streams[i];
            assert(w[j] == streams[i]);
        } else if i == n - 1 && reads[i].spec_lost() {
            assert(w.last() == streams[i]);
        }
    }
}

/// What the search for a free port finds.
proof fn lemma_first_free(ports: Set<u32>, next: u32, k: int)
    requires
        0 <= k <= LOCAL_PORTS,
    ensures
        k <= first_free(ports, next, k) <= LOCAL_PORTS,
        first_free(ports, next, k) < LOCAL_PORTS ==> !ports.contains(
            nth_port(next, first_free(ports, next, k)),
        ),
        forall|j: int|
            k <= j < first_free(ports, next, k) ==> #[trigger] ports.contains(nth_port(next, j)),
    decreases LOCAL_PORTS - k,
{
    if k < LOCAL_PORTS && ports.contains(nth_port(next, k)) {
        lemma_first_free(ports, next, k + 1);
    }
}

/// One step round the range of local ports.
proof fn lemma_next_port(next: u32, k: int)
    requires
        LOCAL_PORT_START <= next < LOCAL_PORT_END,
        0 <= k,
    ensures
        LOCAL_PORT_START <= nth_port(next, k) < LOCAL_PORT_END,
        nth_port(next, k + 1) == (if nth_port(next, k) + 1 >= LOCAL_PORT_END {
            LOCAL_PORT_START as int
        } else {
            nth_port(next, k) + 1
        }),
{
}

} // verus!
