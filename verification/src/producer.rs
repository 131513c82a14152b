//! The decoding side of a session: what to do with each answer of the frame
//! source, and the message that a decoded picture becomes.

use vstd::prelude::*;
use crate::ascii::{encodable, frame_text, rgb_to_ascii};
use crate::config::Config;
use crate::player::Message;

verus! {

/// Exit code of a process whose source failed while decoding.
pub const EXIT_DECODE_FAILURE: i32 = 2;

/// What the frame source answered to one request.
#[derive(PartialEq, Eq, Structural, Debug, Copy, Clone)]
pub enum DecodeOutcome {
    /// A decoded picture.
    Frame,
    /// The clean end of the stream.
    Exhausted,
    /// Anything else: the stream cannot be read any further.
    Failed,
}

/// What the decoding task does next.
#[derive(PartialEq, Eq, Structural, Debug, Copy, Clone)]
pub enum ProducerStep {
    /// Wait until the shared signal reads `Go`, then encode the picture, send
    /// it and ask the source for the next one.
    EncodeAndSend,
    /// Send the end-of-stream marker and end the task.
    SendMarkerAndStop,
    /// Report the failure and end the process with this exit code.
    Abort { exit_code: i32 },
}

/// The step that follows an answer of the frame source.
pub open spec fn step_after(outcome: DecodeOutcome) -> ProducerStep {
    match outcome {
        DecodeOutcome::Frame => ProducerStep::EncodeAndSend,
        DecodeOutcome::Exhausted => ProducerStep::SendMarkerAndStop,
        DecodeOutcome::Failed => ProducerStep::Abort { exit_code: EXIT_DECODE_FAILURE },
    }
}

/// Decides what the decoding task does with an answer of the frame source.
pub fn next_step(outcome: DecodeOutcome) -> (step: ProducerStep)
    ensures
        step == step_after(outcome),
{
    match outcome {
        DecodeOutcome::Frame => ProducerStep::EncodeAndSend,
        DecodeOutcome::Exhausted => ProducerStep::SendMarkerAndStop,
        DecodeOutcome::Failed => ProducerStep::Abort { exit_code: EXIT_DECODE_FAILURE },
    }
}

/// Whether the decoding task goes on to ask the source again after `step`.
pub fn continues(step: ProducerStep) -> (b: bool)
    ensures
        b == (step == ProducerStep::EncodeAndSend),
{
    step == ProducerStep::EncodeAndSend
}

/// The message that carries the text frame of a decoded picture.
pub fn frame_message(rgb: &[u8], cfg: &Config) -> (message: Message)
    requires
        encodable(cfg),
    ensures
        message matches Message::Frame(text) && text@ == frame_text(
            rgb@,
            cfg.video_size.0 as int,
            cfg.sampling_rate.0 as int,
            cfg.sampling_rate.1 as int,
        ),
{
    Message::Frame(rgb_to_ascii(rgb, cfg))
}

/// The message that ends the stream.
pub fn end_message() -> (message: Message)
    ensures
        message is StreamEnded,
{
    Message::StreamEnded
}

} // verus!
