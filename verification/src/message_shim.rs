//! The reference to the message that shows a poll.

use vstd::prelude::*;

verus! {

/// The message that shows a poll's summary: its own identifier, which is
/// also the poll's, and the channel it was posted in.
#[derive(Clone, Copy, Debug, PartialEq, Eq, Structural)]
pub struct MessageShim {
    pub message_id: u64,
    pub channel_id: u64,
}

impl MessageShim {
    /// The reference to message `message_id` of channel `channel_id`.
    pub fn new(message_id: u64, channel_id: u64) -> (shim: MessageShim)
        ensures
            shim.message_id == message_id,
            shim.channel_id == channel_id,
    {
        MessageShim { message_id, channel_id }
    }
}

} // verus!
