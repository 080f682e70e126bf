//! The flag through which a listener tells its sender that it is gone.

use std::sync::atomic::AtomicBool;
use std::sync::atomic::Ordering;
use vstd::prelude::*;

verus! {

/// A fresh flag saying that the listener is there.
pub(crate) fn online_flag() -> AtomicBool {
    AtomicBool::new(true)
}

/// Reads the flag. Another thread may have cleared it, so its value is not
/// modelled.
pub(crate) fn is_online(flag: &AtomicBool) -> bool {
    flag.load(Ordering::Relaxed)
}

/// Clears the flag: the listener is gone.
pub(crate) fn mark_offline(flag: &AtomicBool) {
    flag.store(false, Ordering::Relaxed)
}

} // verus!
