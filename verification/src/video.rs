//! On-demand video capture policy.
//!
//! The capture task polls: it holds the device, counts the channel's
//! receivers (itself included) and decides each iteration whether to
//! sleep, start the stream, read a frame, or stop.  Capture runs
//! exactly while somebody besides the producer subscribes.

use vstd::prelude::*;

verus! {

/// Video device configuration.
#[derive(Clone, Debug, PartialEq, Eq)]
pub struct VideoConfig {
    /// Device (video0)
    pub device: String,
    /// Default width
    pub width: u32,
    /// Default height
    pub height: u32,
}

impl VideoConfig {
    /// The default capture width.
    pub fn default_width() -> (r: u32)
        ensures
            r == 1920,
    {
        1920
    }

    /// The default capture height.
    pub fn default_height() -> (r: u32)
        ensures
            r == 1080,
    {
        1080
    }
}

/// What the capture task does in one poll iteration.
#[derive(Clone, Copy, Debug, PartialEq, Eq, Structural)]
pub enum VideoAction {
    /// Nobody watches and nothing runs: sleep, then poll again.
    Sleep,
    /// A subscriber appeared: start the stream.
    Start,
    /// The stream runs and subscribers remain: read the next frame.
    Read,
    /// The last subscriber left: stop the stream.
    Stop,
}

/// The poll decision: `subscribers` counts the channel's receivers,
/// the producer's own reference included.
pub open spec fn video_step_spec(streaming: bool, subscribers: u64) -> VideoAction {
    if !streaming {
        if subscribers > 1 {
            VideoAction::Start
        } else {
            VideoAction::Sleep
        }
    } else {
        if subscribers < 2 {
            VideoAction::Stop
        } else {
            VideoAction::Read
        }
    }
}

/// Whether the stream runs after an action.
pub open spec fn video_streaming_after(action: VideoAction) -> bool {
    match action {
        VideoAction::Sleep => false,
        VideoAction::Start => true,
        VideoAction::Read => true,
        VideoAction::Stop => false,
    }
}

/// One poll decision of the capture task.
pub fn video_step(streaming: bool, subscribers: u64) -> (r: VideoAction)
    ensures
        r == video_step_spec(streaming, subscribers),
{
    if !streaming {
        if subscribers > 1 {
            VideoAction::Start
        } else {
            VideoAction::Sleep
        }
    } else {
        if subscribers < 2 {
            VideoAction::Stop
        } else {
            VideoAction::Read
        }
    }
}

/// The stream is active after a poll exactly when at least two
/// references (the producer plus one real subscriber) were counted at
/// that poll, whatever state it was in before.
pub proof fn lemma_video_stream_iff_subscribed(streaming: bool, subscribers: u64)
    ensures
        video_streaming_after(video_step_spec(streaming, subscribers)) == (subscribers >= 2),
{
}

/// A captured buffer is forwarded only when it carries a payload: the
/// gate filters empty and sentinel frames.
pub fn frame_publishable(len: usize) -> (r: bool)
    ensures
        r == (len > 4),
{
    len > 4
}

} // verus!
