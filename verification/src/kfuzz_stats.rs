//! The statistics that the fuzzing loop shares with the monitor thread.

use std::sync::atomic::{AtomicI64, AtomicUsize};
use std::sync::Arc;
use std::time::Instant;
use vstd::prelude::*;

verus! {

/// A point in time of the monotonic clock.
#[verifier::external_type_specification]
#[verifier::external_body]
pub struct ExInstant(Instant);

/// Calls `Instant::now`. The result is the current time, so nothing is
/// claimed of it.
#[verifier::external_body]
fn instant_now() -> (t: Instant) {
    Instant::now()
}

/// Counters of a fuzzing session, updated by the loop and read by the
/// monitor.
pub struct KFuzzStats {
    pub start_time: Instant,
    pub total_execs: AtomicI64,
    pub total_coverage: AtomicUsize,
    pub total_corpus_size: AtomicUsize,
}

impl KFuzzStats {
    /// Statistics that start now, with every counter at zero, shared
    /// behind an `Arc`.
    pub fn new() -> Arc<Self> {
        Arc::new(
            KFuzzStats {
                start_time: instant_now(),
                total_execs: AtomicI64::new(0),
                total_coverage: AtomicUsize::new(0),
                total_corpus_size: AtomicUsize::new(0),
            },
        )
    }
}

} // verus!
