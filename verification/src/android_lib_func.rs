//! The library that the launcher starts: whether its configuration can be read, and when it
//! ends.

use vstd::prelude::*;

verus! {

/// How long to wait between two looks for the file that ends the library, in milliseconds.
pub const STOP_POLL_MS: u64 = 200;

/// Whether a text can be a configuration: it begins with a brace.
pub fn is_config(text: &str) -> (r: bool)
    ensures
        r == (text@.len() > 0 && text@[0] == '{'),
{
    text.unicode_len() > 0 && text.get_char(0) == '{'
}

/// What a look for the file that ends the library leads to.
#[derive(Debug, Clone, Copy, PartialEq, Eq, Structural)]
pub enum StopStep {
    /// Look again.
    Keep,
    /// Nothing is to be ended any more.
    Leave,
    /// End the library.
    Cancel,
}

/// A look for the file that ends the library: `found` is whether it is there, if that could be
/// told.
pub fn stop_file_step(cancelled: bool, found: Option<bool>) -> (r: StopStep)
    ensures
        r == (if cancelled {
            StopStep::Leave
        } else if found == Some(true) {
            StopStep::Cancel
        } else {
            StopStep::Keep
        }),
{
    if cancelled {
        return StopStep::Leave;
    }
    match found {
        Some(true) => StopStep::Cancel,
        _ => StopStep::Keep,
    }
}

} // verus!
