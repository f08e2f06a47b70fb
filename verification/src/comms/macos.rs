//! The backend for macOS. It goes through the vsock muxer.

use crate::comms::muxer::{self, DialEvent, DialStep, MuxerCommsBackend};
use crate::path;
use vstd::prelude::*;

verus! {

/// The backend for macOS.
#[derive(Debug)]
pub struct MacosCommsBackend {
    muxer: MuxerCommsBackend,
}

impl View for MacosCommsBackend {
    type V = Seq<u8>;

    closed spec fn view(&self) -> Seq<u8> {
        self.muxer@
    }
}

impl MacosCommsBackend {
    /// Creates a backend. `override_path` is what the variable
    /// [`muxer::SOCKET_DIR_ENV`] holds, if it is set.
    #[must_use]
    pub fn new(override_path: Option<Vec<u8>>) -> (r: Self)
        ensures
            r@ == muxer::configured(override_path),
    {
        MacosCommsBackend { muxer: MuxerCommsBackend::new(override_path) }
    }

    /// Creates a backend for the sockets in a directory.
    #[must_use]
    pub fn with_socket_dir(socket_dir: Vec<u8>) -> (r: Self)
        ensures
            r@ == socket_dir@,
    {
        MacosCommsBackend { muxer: MuxerCommsBackend::with_socket_dir(socket_dir) }
    }

    /// The directory of the sockets.
    #[must_use]
    pub fn socket_dir(&self) -> (r: &Vec<u8>)
        ensures
            r@ == self@,
    {
        self.muxer.socket_dir()
    }

    /// Where the muxer of a guest listens.
    #[must_use]
    pub fn muxer_socket_path(&self, cid: u32) -> (r: Vec<u8>)
        ensures
            r@ == muxer::muxer_path(self@, cid),
    {
        self.muxer.muxer_socket_path(cid)
    }

    /// Where a guest's port once had a socket of its own.
    #[must_use]
    pub fn socket_path(&self, cid: u32, port: u32) -> (r: Vec<u8>)
        ensures
            r@ == muxer::port_path(self@, cid, port),
    {
        self.muxer.socket_path(cid, port)
    }

    /// What to do next to reach a guest's port.
    pub fn connect(&self, cid: u32, port: u32, event: DialEvent) -> (r: DialStep)
        ensures
            muxer::next_step(self@, cid, port, event, r),
    {
        self.muxer.connect(cid, port, event)
    }
}

/// The backend without an override. A program that lets its environment override
/// the directory hands what is set there to [`MacosCommsBackend::new`].
impl Default for MacosCommsBackend {
    fn default() -> (r: Self)
        ensures
            r@ == muxer::default_dir(),
    {
        MacosCommsBackend { muxer: MuxerCommsBackend::default() }
    }
}

} // verus!
