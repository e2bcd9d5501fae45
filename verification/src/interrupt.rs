//! The interrupt flag that a SIGINT handler raises and that long listings poll.

use std::sync::atomic::{AtomicBool, Ordering};
use std::sync::Arc;
use vstd::prelude::*;

verus! {

/// A flag shared with the signal handler.
pub type Interrupt = Arc<AtomicBool>;

/// Lowers the flag, before a new command line is processed.
///
/// The flag is shared with a signal handler that may raise it at any moment,
/// so nothing is stated of its value afterwards.
pub fn clear_interrupt(flag: &Interrupt) {
    flag.store(false, Ordering::SeqCst);
}

/// Whether the flag is raised.
///
/// The answer depends on when a signal arrived, not on the arguments, so no
/// contract states it.
pub fn interrupted(flag: &Interrupt) -> bool {
    flag.load(Ordering::SeqCst)
}

} // verus!
