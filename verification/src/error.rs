//! What makes a request fail.

use vstd::prelude::*;

verus! {

/// Why a batch or a request was refused. A conflict is none of these: it is part of the answer.
#[derive(Debug, Clone, Copy, PartialEq, Eq, Structural)]
pub enum SyncError {
    /// The record at this place of the batch holds a timestamp that denotes no instant. Nothing
    /// of the batch was applied.
    MalformedRecord(usize),
    /// The watermark denotes no instant.
    MalformedWatermark,
}

} // verus!
