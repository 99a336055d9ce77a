//! View state for the live-stream indicator a client shows while it watches
//! an order.

use vstd::prelude::*;

verus! {

/// Whether a client's live update stream is connecting, up, or broken.
#[derive(PartialEq, Clone)]
pub enum LiveStreamingStatus {
    Error(String),
    Connecting,
    Connected,
}

/// What the stream indicator renders.
#[derive(PartialEq, Clone)]
pub struct StreamingIndicatorProps {
    pub status: LiveStreamingStatus,
}

} // verus!
