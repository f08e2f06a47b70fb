//! What can go wrong on the way to a guest.

use crate::failure;
use crate::text;
use std::io::Error as IoError;
use vstd::prelude::*;

verus! {

/// Time for a connection to come about, in seconds.
pub const DEFAULT_CONNECT_TIMEOUT: u64 = 10;

/// Why a connection did not come about.
#[derive(Debug)]
#[non_exhaustive]
pub enum ConnectFault {
    /// A socket operation of the host failed.
    Io(IoError),
    /// The muxer refused, with this answer.
    Rejected(String),
}

/// Errors from communication backends.
#[derive(Debug)]
#[non_exhaustive]
pub enum CommsError {
    /// No connection to the guest came about.
    Connect {
        /// The guest's context ID.
        cid: u32,
        /// The guest's port.
        port: u32,
        /// Why.
        source: ConnectFault,
    },
    /// No connection came about in time.
    Timeout {
        /// The guest's context ID.
        cid: u32,
        /// The guest's port.
        port: u32,
        /// How long was waited, in seconds.
        timeout: u64,
    },
    /// Communication is not supported on this platform.
    Unsupported,
}

/// How a text on a connection begins.
pub open spec fn connection_to(cid: u32, port: u32) -> Seq<char> {
    "connection to CID "@ + text::decimal(cid as nat) + " port "@ + text::decimal(port as nat)
}

/// Writes how a text on a connection begins.
fn connection_text(cid: u32, port: u32) -> (r: String)
    ensures
        r@ == connection_to(cid, port),
{
    let mut s = "connection to CID ".to_owned();
    text::push_decimal(&mut s, cid as u64);
    s.append(" port ");
    text::push_decimal(&mut s, port as u64);
    s
}

impl CommsError {
    /// The text of the error, or where the host has a part in it, how it begins.
    pub open spec fn spec_message(self) -> Seq<char> {
        match self {
            CommsError::Connect { cid, port, source } => match source {
                ConnectFault::Io(_) => connection_to(cid, port) + " failed: "@,
                ConnectFault::Rejected(t) => connection_to(cid, port) + " failed: "@
                    + "muxer rejected: "@ + t@,
            },
            CommsError::Timeout { cid, port, timeout } => connection_to(cid, port)
                + " timed out after "@ + text::decimal(timeout as nat) + "s"@,
            CommsError::Unsupported => "communication not supported on this platform"@,
        }
    }

    /// Whether the host has a part in the text.
    pub open spec fn has_host_text(self) -> bool {
        self matches CommsError::Connect { source: ConnectFault::Io(_), .. }
    }

    /// The error as text.
    pub fn message(&self) -> (r: String)
        ensures
            !self.has_host_text() ==> r@ == self.spec_message(),
            self.has_host_text() ==> text::begins_with(r@, self.spec_message()),
    {
        match self {
            CommsError::Connect { cid, port, source } => {
                let mut s = connection_text(*cid, *port);
                s.append(" failed: ");
                match source {
                    ConnectFault::Io(e) => failure::io_message(s.as_str(), e),
                    ConnectFault::Rejected(t) => {
                        s.append("muxer rejected: ");
                        s.append(t.as_str());
                        s
                    },
                }
            },
            CommsError::Timeout { cid, port, timeout } => {
                let mut s = connection_text(*cid, *port);
                s.append(" timed out after ");
                text::push_decimal(&mut s, *timeout);
                s.append("s");
                s
            },
            CommsError::Unsupported => "communication not supported on this platform".to_owned(),
        }
    }
}

} // verus!
