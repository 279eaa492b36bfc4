//! Labelled execution of a pipeline phase.
use vstd::prelude::*;

verus! {

/// Runs one labelled phase of the pipeline and hands back its result. The
/// label names the phase for callers that report progress or timings; the
/// call itself is equivalent to invoking the closure once.
pub fn timer_debug<F, T>(label: &str, f: F) -> (r: T) where F: FnOnce() -> T
    requires
        f.requires(()),
    ensures
        f.ensures((), r),
{
    let _used = label.is_empty();
    f()
}

} // verus!
