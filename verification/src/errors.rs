//! Fatal failures of a sync session.

use vstd::prelude::*;

verus! {

/// Why a sync session cannot run. A stale `HEAD` tag is deliberately not
/// here: it is recoverable and reported through
/// [`crate::sync::SyncReport::stale_head`] instead.
#[derive(Clone, Copy, PartialEq, Eq, Structural, Debug)]
pub enum SyncError {
    /// No network configuration is present.
    ConfigMissing,
    /// No configured peer offers the requested transport.
    NoSuitablePeer,
    /// The peer could not be reached, for the tip or for the block stream.
    NetworkUnavailable,
}

} // verus!
