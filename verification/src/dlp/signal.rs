//! The signal by which the workers of a parallel search tell each other to
//! stop.

use std::sync::atomic::{AtomicBool, Ordering};
use vstd::prelude::*;

verus! {

/// Whether a stop was requested. Other threads may set the signal at any
/// time, so nothing is known of the answer.
pub fn stop_requested(signal: &AtomicBool) -> (r: bool) {
    signal.load(Ordering::Relaxed)
}

/// Requests a stop.
pub fn request_stop(signal: &AtomicBool) {
    signal.store(true, Ordering::Relaxed)
}

} // verus!
