//! Channel-clear assessment for the sender: commit a frame when the channel
//! is clear, back off for a random while when it is not.
use vstd::prelude::*;

verus! {

/// Shortest backoff, in milliseconds.
pub const MIN_BACKOFF_MS: u32 = 5;

/// Number of backoff lengths that can be drawn: 5 to 49 ms.
pub const BACKOFF_SPAN_MS: u32 = 45;

/// Why a frame could not be sent.
#[derive(Clone, Copy, Debug, PartialEq, Eq, Structural)]
pub enum SendError {
    /// The channel was not clear.
    ChannelBusy,
    /// The bounded queue towards the modem was full.
    BackpressureDrop,
}

/// What the sender does when asked whether it can take a frame.
#[derive(Clone, Copy, Debug, PartialEq, Eq, Structural)]
pub enum SendReadiness {
    /// The channel is clear: the frame may be committed.
    Ready,
    /// The channel is busy: wait this many milliseconds, then ask again.
    Backoff { millis: u32 },
}

/// Decides readiness from the channel-clear flag and a random draw; the
/// backoff lies between 5 and 49 ms.
pub fn cca_poll(channel_clear: bool, draw: u32) -> (r: SendReadiness)
    ensures
        channel_clear ==> r == SendReadiness::Ready,
        !channel_clear ==> r == (SendReadiness::Backoff {
            millis: (MIN_BACKOFF_MS + draw % BACKOFF_SPAN_MS) as u32,
        }),
        r matches SendReadiness::Backoff { millis } ==> MIN_BACKOFF_MS <= millis < MIN_BACKOFF_MS
            + BACKOFF_SPAN_MS,
{
    if channel_clear {
        SendReadiness::Ready
    } else {
        SendReadiness::Backoff { millis: MIN_BACKOFF_MS + draw % BACKOFF_SPAN_MS }
    }
}

/// A frame handed over while the channel is busy is refused.
pub fn cca_start_send(channel_clear: bool) -> (r: Result<(), SendError>)
    ensures
        channel_clear <==> r is Ok,
        !channel_clear ==> r == Err::<(), SendError>(SendError::ChannelBusy),
{
    if channel_clear {
        Ok(())
    } else {
        Err(SendError::ChannelBusy)
    }
}

} // verus!
