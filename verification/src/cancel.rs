//! A flag, shared between the threads of one job, that asks the job to stop.
use std::sync::atomic::{AtomicBool, Ordering};
use std::sync::Arc;
use vstd::prelude::*;

verus! {

/// Cancellation of one job; clones share the same flag.
#[derive(Debug, Clone)]
pub struct CancelToken {
    flag: Arc<AtomicBool>,
}

impl CancelToken {
    /// A token not yet cancelled.
    pub fn new() -> CancelToken {
        CancelToken { flag: Arc::new(AtomicBool::new(false)) }
    }

    /// Asks every holder of this token (or of a clone) to stop.
    pub fn cancel(&self) {
        self.flag.store(true, Ordering::SeqCst);
    }

    /// Whether the token was cancelled. Another thread may cancel it at any
    /// time, so nothing is known of the answer in advance.
    pub fn is_cancelled(&self) -> bool {
        self.flag.load(Ordering::SeqCst)
    }
}

} // verus!
