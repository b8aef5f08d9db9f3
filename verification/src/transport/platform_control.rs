//! Limits of the bridge that carries complete control frames between a
//! platform-owned connection and the pairing flow.

use vstd::prelude::*;

use crate::protocol::pairing::{HEADER_LEN, MAX_FRAME_LEN};
use crate::transport::frame_io::FrameIoError;

verus! {

/// Frames queued in each direction of the bridge.
pub const FRAME_QUEUE_CAPACITY: usize = 4;

#[derive(Clone, Copy, Debug, PartialEq, Eq, Structural)]
pub enum PlatformControlError {
    InvalidFrameLength(usize),
    QueueFull,
    Closed,
    InvalidDrainLimit,
}

/// A frame crossing the bridge holds at least a header and at most the
/// largest frame.
pub fn validate_frame_length(length: usize) -> (r: Result<(), PlatformControlError>)
    ensures
        r is Ok <==> HEADER_LEN <= length <= MAX_FRAME_LEN,
        r is Err ==> r == Err::<(), PlatformControlError>(
            PlatformControlError::InvalidFrameLength(length),
        ),
{
    if length < HEADER_LEN || length > MAX_FRAME_LEN {
        Err(PlatformControlError::InvalidFrameLength(length))
    } else {
        Ok(())
    }
}

/// A drain takes between one frame and a full queue.
pub fn check_drain_limit(maximum_frames: usize) -> (r: Result<(), PlatformControlError>)
    ensures
        r is Ok <==> 1 <= maximum_frames <= FRAME_QUEUE_CAPACITY,
        r is Err ==> r == Err::<(), PlatformControlError>(PlatformControlError::InvalidDrainLimit),
{
    if maximum_frames < 1 || maximum_frames > FRAME_QUEUE_CAPACITY {
        Err(PlatformControlError::InvalidDrainLimit)
    } else {
        Ok(())
    }
}

/// What the pairing flow makes of a frame the platform handed over: too
/// long for the reader's limit or the protocol's, or shorter than a header.
pub fn check_received_frame(length: usize, max_len: usize) -> (r: Result<(), FrameIoError>)
    ensures
        length > (if max_len < MAX_FRAME_LEN {
            max_len
        } else {
            MAX_FRAME_LEN
        }) ==> r == Err::<(), FrameIoError>(FrameIoError::FrameTooLarge(length)),
        length <= (if max_len < MAX_FRAME_LEN {
            max_len
        } else {
            MAX_FRAME_LEN
        }) && length < HEADER_LEN ==> r == Err::<(), FrameIoError>(FrameIoError::Truncated),
        length <= (if max_len < MAX_FRAME_LEN {
            max_len
        } else {
            MAX_FRAME_LEN
        }) && length >= HEADER_LEN ==> r is Ok,
{
    let limit = if max_len < MAX_FRAME_LEN {
        max_len
    } else {
        MAX_FRAME_LEN
    };
    if length > limit {
        Err(FrameIoError::FrameTooLarge(length))
    } else if length < HEADER_LEN {
        Err(FrameIoError::Truncated)
    } else {
        Ok(())
    }
}

/// A frame the flow sends through the bridge must itself be well sized.
pub fn check_sent_frame(length: usize) -> (r: Result<(), FrameIoError>)
    ensures
        r is Ok <==> HEADER_LEN <= length <= MAX_FRAME_LEN,
        r is Err ==> r == Err::<(), FrameIoError>(FrameIoError::FrameTooLarge(length)),
{
    match validate_frame_length(length) {
        Ok(()) => Ok(()),
        Err(_) => Err(FrameIoError::FrameTooLarge(length)),
    }
}

} // verus!
