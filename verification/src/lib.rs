//! Verified core of a desktop and audio capture streamer: command-line
//! value parsing, audio sample layout and buffering, presentation
//! timestamps, frame pacing, frame messages and the key-press overlay log.
pub mod args;
pub mod audio;
pub mod decimal;
pub mod encoder;
pub mod keylog;
pub mod stream;
pub mod video;
