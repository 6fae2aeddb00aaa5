//! A drop guard: runs a cleanup action when it goes out of scope.

use vstd::prelude::*;

verus! {

/// Holds a cleanup action and runs it when dropped.
pub struct Defer<F: Fn() -> ()>(F);

impl<F: Fn() -> ()> Defer<F> {
    /// The held action can always be started.
    #[verifier::type_invariant]
    closed spec fn wf(self) -> bool {
        call_requires(self.0, ())
    }
}

/// Wrap a cleanup action so that it runs at scope exit.
pub fn defer<F: Fn() -> ()>(f: F) -> (d: Defer<F>)
    requires
        call_requires(f, ()),
{
    Defer(f)
}

impl<F: Fn() -> ()> Drop for Defer<F> {
    /// Runs the wrapped action.  Verus requires every `Drop` to be free
    /// of unwinding, which cannot be shown of a caller-supplied action,
    /// so this body stays outside verification.
    #[verifier::external_body]
    fn drop(&mut self)
        opens_invariants none
        no_unwind
    {
        (self.0)();
    }
}

} // verus!
