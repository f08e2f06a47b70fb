//! The backend for Linux. It goes through the vsock muxer too, and does not
//! depend on the kernel's own vsock sockets.

use crate::comms::muxer::MuxerCommsBackend;
use vstd::prelude::*;

verus! {

/// The backend for Linux.
pub type LinuxCommsBackend = MuxerCommsBackend;

} // verus!
