//! The host's input and output errors, which the library only passes on.

use crate::text;
use vstd::prelude::*;

verus! {

/// Declares `std::io::Error`. Nothing is known of its values.
#[verifier::external_type_specification]
#[verifier::external_body]
pub struct ExIoError(std::io::Error);

/// Calls the `to_string` that `std::io::Error` has from its `Display`. The text
/// comes from the host, and nothing is said of it.
#[verifier::external_body]
pub(crate) fn io_text(e: &std::io::Error) -> (r: String) {
    e.to_string()
}

/// `prefix` and behind it the host's text for an error.
pub fn io_message(prefix: &str, e: &std::io::Error) -> (r: String)
    ensures
        text::begins_with(r@, prefix@),
{
    let mut s = prefix.to_owned();
    let t = io_text(e);
    s.append(t.as_str());
    assert(s@.take(prefix@.len() as int) =~= prefix@);
    s
}

} // verus!
