//! Playback: the session controller and the audio engine's switches.

pub mod engine;
pub mod player;
