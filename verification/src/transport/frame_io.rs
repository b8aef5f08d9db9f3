//! Pairing control frames on an ordered stream: the size limit checked on
//! both sides before a frame is written or parsed.

use vstd::prelude::*;

use crate::protocol::pairing::{
    encoded_message, frame_error, PairingMessage, ProtocolError, MAX_FRAME_LEN,
};

verus! {

#[derive(Clone, Debug, PartialEq, Eq)]
pub enum FrameIoError {
    FrameTooLarge(usize),
    Truncated,
    Read,
    Write,
    Protocol(ProtocolError),
}

/// The frame to write for a message, or `FrameTooLarge` past the limit.
pub fn frame_for_send(message: &PairingMessage) -> (r: Result<Vec<u8>, FrameIoError>)
    ensures
        match r {
            Ok(frame) => frame@ == encoded_message(*message) && frame@.len() <= MAX_FRAME_LEN,
            Err(e) => e == FrameIoError::FrameTooLarge(encoded_message(*message).len() as usize)
                && encoded_message(*message).len() > MAX_FRAME_LEN,
        },
{
    let frame = message.encode();
    if frame.len() > MAX_FRAME_LEN {
        return Err(FrameIoError::FrameTooLarge(frame.len()));
    }
    Ok(frame)
}

/// Parses a received frame, refusing one past the limit before parsing.
pub fn message_from_frame(frame: &[u8]) -> (r: Result<PairingMessage, FrameIoError>)
    ensures
        frame@.len() > MAX_FRAME_LEN ==> r == Err::<PairingMessage, _>(
            FrameIoError::FrameTooLarge(frame@.len() as usize),
        ),
        frame@.len() <= MAX_FRAME_LEN ==> match r {
            Ok(m) => frame_error(frame@) is None && encoded_message(m) == frame@,
            Err(e) => frame_error(frame@) matches Some(pe) && e == FrameIoError::Protocol(pe),
        },
{
    if frame.len() > MAX_FRAME_LEN {
        return Err(FrameIoError::FrameTooLarge(frame.len()));
    }
    match PairingMessage::decode(frame) {
        Ok(m) => Ok(m),
        Err(e) => Err(FrameIoError::Protocol(e)),
    }
}

} // verus!
