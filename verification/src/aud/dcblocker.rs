//! Asking a DC blocker to forget what went through it.

use vstd::prelude::*;

verus! {

/// A DC blocker was asked to begin anew.
pub open spec fn asks(before: DcBlockerHandle, after: DcBlockerHandle) -> bool {
    after@
}

/// A DC blocker looked whether it is to begin anew.
pub open spec fn takes(before: DcBlockerHandle, anew: bool, after: DcBlockerHandle) -> bool {
    anew == before@ && !after@
}

/// Whether a DC blocker is to begin anew with the next buffer.
#[derive(Debug, Clone, Copy, PartialEq, Eq, Structural)]
pub struct DcBlockerHandle {
    reset_requested: bool,
}

impl DcBlockerHandle {
    /// It is to begin anew.
    pub closed spec fn view(&self) -> bool {
        self.reset_requested
    }

    pub fn new() -> (r: Self)
        ensures
            !r@,
    {
        Self { reset_requested: false }
    }

    /// Asks it to begin anew.
    pub fn reset(&mut self)
        ensures
            asks(*old(self), *final(self)),
    {
        self.reset_requested = true;
    }

    /// Whether it was asked to since the last time.
    pub fn take(&mut self) -> (r: bool)
        ensures
            takes(*old(self), r, *final(self)),
    {
        let r = self.reset_requested;
        self.reset_requested = false;
        r
    }
}

/// However often it was asked to, and whatever was asked before, a DC blocker begins anew with
/// the next buffer, and with that one alone.
pub proof fn law_begins_anew_once(
    asked: Seq<DcBlockerHandle>,
    after: DcBlockerHandle,
    later: DcBlockerHandle,
    first: bool,
    second: bool,
)
    requires
        asked.len() >= 2,
        forall|i: int| 0 <= i < asked.len() - 1 ==> asks(#[trigger] asked[i], asked[i + 1]),
        takes(asked.last(), first, after),
        takes(after, second, later),
    ensures
        first,
        !second,
{
    assert(asks(asked[asked.len() - 2], asked[asked.len() - 1]));
}

} // verus!
