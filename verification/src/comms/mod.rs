//! How host processes reach a guest.
//!
//! Every platform but Windows goes through the vsock muxer's Unix socket.
//! [`create_comms_backend`] gives the backend for this one.

pub mod backend;
pub mod linux;
pub mod macos;
pub mod muxer;
pub mod windows;

use vstd::prelude::*;

pub use backend::{CommsError, ConnectFault, DEFAULT_CONNECT_TIMEOUT};
pub use linux::LinuxCommsBackend;
pub use macos::MacosCommsBackend;

verus! {

/// The backend for this platform.
pub type PlatformCommsBackend = LinuxCommsBackend;

/// Creates the backend for this platform. `override_path` is what the variable
/// [`muxer::SOCKET_DIR_ENV`] holds, if it is set.
#[must_use]
pub fn create_comms_backend(override_path: Option<Vec<u8>>) -> (r: PlatformCommsBackend)
    ensures
        r@ == muxer::configured(override_path),
{
    PlatformCommsBackend::new(override_path)
}

} // verus!
