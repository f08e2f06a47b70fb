//! The backend that goes through the vsock muxer.
//!
//! The muxer of a guest listens at `{socket_dir}/{cid}.sock`. A client sends
//! `CONNECT {port}\n` and waits for an answer that begins with `OK`. From then
//! on the stream is the connection.

use crate::comms::backend::{CommsError, ConnectFault, DEFAULT_CONNECT_TIMEOUT};
use crate::devices::vsock_muxer::{self, listener_name};
use crate::path;
use crate::text;
use std::io::Error as IoError;
use vstd::prelude::*;

verus! {

/// Where the sockets are unless another directory is set.
pub const DEFAULT_SOCKET_DIR: &'static str = "/var/run/visor/vsock";

/// The environment variable that sets another directory.
pub const SOCKET_DIR_ENV: &'static str = "VISOR_VSOCK_SOCKET_DIR";

/// The bytes of the directory where the sockets are unless another one is set.
pub open spec fn default_dir() -> Seq<u8> {
    text::char_bytes(DEFAULT_SOCKET_DIR@)
}

/// The directory that is set, or the default where none or an empty one is.
pub open spec fn configured(override_path: Option<Vec<u8>>) -> Seq<u8> {
    match override_path {
        Some(p) => if p@.len() > 0 {
            p@
        } else {
            default_dir()
        },
        None => default_dir(),
    }
}

/// Where the muxer of a guest listens.
pub open spec fn muxer_path(dir: Seq<u8>, cid: u32) -> Seq<u8> {
    path::joined(dir, vsock_muxer::sock_name(cid as nat))
}

/// Where a guest's port once had a socket of its own.
pub open spec fn port_path(dir: Seq<u8>, cid: u32, port: u32) -> Seq<u8> {
    path::joined(
        path::joined(dir, text::char_bytes(text::decimal(cid as nat))),
        vsock_muxer::sock_name(port as nat),
    )
}

/// The line that asks a muxer for a guest's port.
pub open spec fn connect_text(port: nat) -> Seq<char> {
    "CONNECT "@ + text::decimal(port) + "\n"@
}

/// What to do next to reach a guest's port.
#[derive(Debug)]
pub enum DialStep {
    /// Open a stream to this path.
    Open(Vec<u8>),
    /// Write these bytes to the stream.
    Send(Vec<u8>),
    /// Read a line from the stream.
    ReadLine,
    /// The stream is the connection.
    Ready,
    /// Give up.
    Failed(CommsError),
}

/// What came of the step before.
#[derive(Debug)]
pub enum DialEvent {
    /// Nothing was done yet.
    Start,
    /// What came of opening the stream.
    Opened(Result<(), IoError>),
    /// What came of writing.
    Sent(Result<(), IoError>),
    /// What came of reading a line.
    Response(Result<String, IoError>),
    /// [`DEFAULT_CONNECT_TIMEOUT`] has passed since the start.
    TimedOut,
}

/// Whether a step is the one for a failed socket operation.
pub open spec fn fails_with(step: DialStep, cid: u32, port: u32, e: IoError) -> bool {
    step == DialStep::Failed(CommsError::Connect { cid, port, source: ConnectFault::Io(e) })
}

/// Whether a step is the one that follows on what came of the step before.
pub open spec fn next_step(
    dir: Seq<u8>,
    cid: u32,
    port: u32,
    event: DialEvent,
    step: DialStep,
) -> bool {
    match event {
        DialEvent::Start => step matches DialStep::Open(p) && p@ == muxer_path(dir, cid),
        DialEvent::Opened(Ok(_)) => step matches DialStep::Send(b) && b@ == text::char_bytes(
            connect_text(port as nat),
        ),
        DialEvent::Opened(Err(e)) => fails_with(step, cid, port, e),
        DialEvent::Sent(Ok(_)) => step is ReadLine,
        DialEvent::Sent(Err(e)) => fails_with(step, cid, port, e),
        DialEvent::Response(Ok(line)) => if text::begins_with(line@, "OK"@) {
            step is Ready
        } else {
            step matches DialStep::Failed(
                CommsError::Connect { cid: c, port: p, source: ConnectFault::Rejected(t) },
            ) && c == cid && p == port && t@ == text::trimmed(line@)
        },
        DialEvent::Response(Err(e)) => fails_with(step, cid, port, e),
        DialEvent::TimedOut => step == DialStep::Failed(
            CommsError::Timeout { cid, port, timeout: DEFAULT_CONNECT_TIMEOUT },
        ),
    }
}

/// The backend that goes through the vsock muxer.
#[derive(Debug)]
pub struct MuxerCommsBackend {
    socket_dir: Vec<u8>,
}

impl View for MuxerCommsBackend {
    type V = Seq<u8>;

    closed spec fn view(&self) -> Seq<u8> {
        self.socket_dir@
    }
}

/// The bytes of the directory where the sockets are unless another one is set.
fn default_dir_bytes() -> (r: Vec<u8>)
    ensures
        r@ == default_dir(),
{
    let mut r: Vec<u8> = Vec::new();
    proof {
        reveal_strlit("/var/run/visor/vsock");
    }
    text::push_str_bytes(&mut r, DEFAULT_SOCKET_DIR);
    assert(r@ =~= default_dir());
    r
}

impl MuxerCommsBackend {
    /// Creates a backend. `override_path` is what the variable
    /// [`SOCKET_DIR_ENV`] holds, if it is set.
    #[must_use]
    pub fn new(override_path: Option<Vec<u8>>) -> (r: Self)
        ensures
            r@ == configured(override_path),
    {
        MuxerCommsBackend { socket_dir: Self::configured_socket_dir(override_path) }
    }

    /// The directory that is set, or the default where none or an empty one is.
    #[must_use]
    pub fn configured_socket_dir(override_path: Option<Vec<u8>>) -> (r: Vec<u8>)
        ensures
            r@ == configured(override_path),
    {
        match override_path {
            Some(p) => {
                if p.len() > 0 {
                    p
                } else {
                    default_dir_bytes()
                }
            },
            None => default_dir_bytes(),
        }
    }

    /// Creates a backend for the sockets in a directory.
    #[must_use]
    pub fn with_socket_dir(socket_dir: Vec<u8>) -> (r: Self)
        ensures
            r@ == socket_dir@,
    {
        MuxerCommsBackend { socket_dir }
    }

    /// The directory of the sockets.
    #[must_use]
    pub fn socket_dir(&self) -> (r: &Vec<u8>)
        ensures
            r@ == self@,
    {
        &self.socket_dir
    }

    /// Where the muxer of a guest listens.
    #[must_use]
    pub fn muxer_socket_path(&self, cid: u32) -> (r: Vec<u8>)
        ensures
            r@ == muxer_path(self@, cid),
    {
        let name = listener_name(cid as u64);
        path::join(self.socket_dir.as_slice(), name.as_slice())
    }

    /// Where a guest's port once had a socket of its own.
    #[must_use]
    pub fn socket_path(&self, cid: u32, port: u32) -> (r: Vec<u8>)
        ensures
            r@ == port_path(self@, cid, port),
    {
        let mut name: Vec<u8> = Vec::new();
        text::push_decimal_bytes(&mut name, cid as u64);
        assert(name@ =~= text::char_bytes(text::decimal(cid as nat)));
        let dir = path::join(self.socket_dir.as_slice(), name.as_slice());
        let sock = listener_name(port as u64);
        path::join(dir.as_slice(), sock.as_slice())
    }

    /// What to do next to reach a guest's port.
    pub fn connect(&self, cid: u32, port: u32, event: DialEvent) -> (r: DialStep)
        ensures
            next_step(self@, cid, port, event, r),
    {
        match event {
            DialEvent::Start => DialStep::Open(self.muxer_socket_path(cid)),
            DialEvent::Opened(opened) => match opened {
                Ok(_) => DialStep::Send(connect_line(port)),
                Err(e) => connect_failed(cid, port, e),
            },
            DialEvent::Sent(sent) => match sent {
                Ok(_) => DialStep::ReadLine,
                Err(e) => connect_failed(cid, port, e),
            },
            DialEvent::Response(response) => match response {
                Ok(line) => {
                    if text::starts_with(line.as_str(), "OK") {
                        DialStep::Ready
                    } else {
                        DialStep::Failed(
                            CommsError::Connect {
                                cid,
                                port,
                                source: ConnectFault::Rejected(
                                    text::trim(line.as_str()).to_owned(),
                                ),
                            },
                        )
                    }
                },
                Err(e) => connect_failed(cid, port, e),
            },
            DialEvent::TimedOut => DialStep::Failed(
                CommsError::Timeout { cid, port, timeout: DEFAULT_CONNECT_TIMEOUT },
            ),
        }
    }
}

/// The backend without an override. A program that lets its environment override
/// the directory hands what is set there to [`MuxerCommsBackend::new`].
impl Default for MuxerCommsBackend {
    fn default() -> (r: Self)
        ensures
            r@ == default_dir(),
    {
        MuxerCommsBackend { socket_dir: default_dir_bytes() }
    }
}

/// The step for a failed socket operation.
fn connect_failed(cid: u32, port: u32, e: IoError) -> (r: DialStep)
    ensures
        fails_with(r, cid, port, e),
{
    DialStep::Failed(CommsError::Connect { cid, port, source: ConnectFault::Io(e) })
}

/// Writes the line that asks a muxer for a guest's port.
pub fn connect_line(port: u32) -> (r: Vec<u8>)
    ensures
        r@ == text::char_bytes(connect_text(port as nat)),
{
    let mut r: Vec<u8> = Vec::new();
    proof {
        reveal_strlit("CONNECT ");
        reveal_strlit("\n");
    }
    text::push_str_bytes(&mut r, "CONNECT ");
    text::push_decimal_bytes(&mut r, port as u64);
    text::push_str_bytes(&mut r, "\n");
    assert(r@ =~= text::char_bytes(connect_text(port as nat)));
    r
}

/// A client looks for the muxer where the muxer listens.
pub proof fn law_client_finds_listener(m: vsock_muxer::MuxerView, cid: u32)
    requires
        m.guest_cid == cid,
    ensures
        muxer_path(m.socket_dir, cid) == path::joined(
            m.socket_dir,
            vsock_muxer::sock_name(m.guest_cid as nat),
        ),
{
}

/// The muxer reads from a client's line the port that the client wants.
pub proof fn law_muxer_understands_client(port: u32)
    ensures
        vsock_muxer::asked_port(connect_text(port as nat)) == Ok::<u32, Seq<char>>(port),
{
    let d = text::decimal(port as nat);
    let c = "CONNECT "@;
    let line = connect_text(port as nat);
    reveal_strlit("CONNECT ");
    reveal_strlit("\n");
    text::lemma_decimal(port as nat);
    let t = c + d;
    assert(line.len() == t.len() + 1);
    assert(!text::is_white(line[0]));
    assert(text::trimmed_start(line) == line);
    assert(line.last() == '\n');
    assert(line.drop_last() =~= t);
    assert(t.last() == d.last());
    assert(text::trimmed_end(t) == t);
    assert(text::trimmed_end(line) == t);
    assert(text::trimmed(line) == t);
    assert(t.take(8) =~= c);
    assert(t.skip(8) =~= d);
    text::law_decimal_reads_back(port as nat, 0xffff_ffff);
}

/// A client takes the muxer's answer to an accepted connection for what it is,
/// and none of its refusals for one.
pub proof fn law_client_understands_muxer(local_port: nat)
    ensures
        text::begins_with("OK "@ + text::decimal(local_port) + "\n"@, "OK"@),
        !text::begins_with("ERR too many connections\n"@, "OK"@),
        !text::begins_with("ERR guest connection failed\n"@, "OK"@),
        !text::begins_with("ERR guest connection timeout\n"@, "OK"@),
        !text::begins_with("ERR invalid handshake\n"@, "OK"@),
        !text::begins_with("ERR handshake timeout\n"@, "OK"@),
        !text::begins_with("ERR no free port\n"@, "OK"@),
{
    reveal_strlit("OK ");
    reveal_strlit("OK");
    reveal_strlit("ERR too many connections\n");
    reveal_strlit("ERR guest connection failed\n");
    reveal_strlit("ERR guest connection timeout\n");
    reveal_strlit("ERR invalid handshake\n");
    reveal_strlit("ERR handshake timeout\n");
    reveal_strlit("ERR no free port\n");
    let s = "OK "@ + text::decimal(local_port) + "\n"@;
    assert(s.take(2) =~= "OK"@);
    assert("ERR too many connections\n"@.take(2)[0] != "OK"@[0]);
    assert("ERR guest connection failed\n"@.take(2)[0] != "OK"@[0]);
    assert("ERR guest connection timeout\n"@.take(2)[0] != "OK"@[0]);
    assert("ERR invalid handshake\n"@.take(2)[0] != "OK"@[0]);
    assert("ERR handshake timeout\n"@.take(2)[0] != "OK"@[0]);
    assert("ERR no free port\n"@.take(2)[0] != "OK"@[0]);
}

} // verus!
