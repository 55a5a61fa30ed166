//! A local music catalog and a playback session controller.
//!
//! The catalog keeps one row per audio file path, merges re-indexed tags into
//! existing rows without touching what the listener has recorded about a song,
//! and answers ordered listings and searches. The playback session keeps a
//! queue, a transport state and an estimate of the elapsed time.
//!
//! Nothing here touches the disk, the clock or an audio device: callers hand in
//! what they have read and carry out what the library decides.

pub mod audio;
pub mod error;
pub mod library;
pub mod metadata;
pub mod text;
