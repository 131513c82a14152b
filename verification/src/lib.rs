//! Terminal video playback: the bounded frame queue, the stop/go backpressure
//! rules between the decoding task and the rendering task, real-time pacing,
//! the end-of-stream handshake and the pixel-to-text encoder.

pub mod ascii;
pub mod config;
pub mod control;
pub mod globals;
pub mod player;
pub mod producer;

pub use config::Config;
pub use player::Player;
