//! The cooperative cancellation flag. The host owns an atomic boolean and may
//! set it at any time; the pipeline polls it at stage boundaries and inside
//! per-item loops. A poll promises nothing about its result — another thread
//! may flip the flag at any moment — so every caller is verified for both
//! outcomes.

use core::sync::atomic::AtomicBool;
use core::sync::atomic::Ordering;
use vstd::prelude::*;

verus! {

/// Relies on `core::sync::atomic::AtomicBool::load`: reads the flag's current
/// value. The result depends on what other threads have stored, so nothing is
/// promised of it.
#[verifier::external_body]
pub(crate) fn cancel_requested(flag: &AtomicBool) -> bool {
    flag.load(Ordering::Relaxed)
}

} // verus!
