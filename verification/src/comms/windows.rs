//! The backend for Windows, which reaches no guest.

use crate::comms::backend::CommsError;
use vstd::prelude::*;

verus! {

/// The backend for Windows.
#[derive(Debug)]
pub struct WindowsCommsBackend;

impl WindowsCommsBackend {
    /// Refuses every connection.
    pub fn connect(&self, _cid: u32, _port: u32) -> (r: Result<(), CommsError>)
        ensures
            r == Err::<(), CommsError>(CommsError::Unsupported),
    {
        Err(CommsError::Unsupported)
    }
}

} // verus!
