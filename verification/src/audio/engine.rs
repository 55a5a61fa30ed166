//! The audio engine's switches.

use vstd::prelude::*;
use crate::error::LibraryError;

verus! {

/// The engine behind the audio device. It takes the settings of the signal
/// path; none of them changes what the catalog or the playback session do.
pub struct AudioEngine {}

impl AudioEngine {
    /// An engine.
    pub fn new() -> (e: Self) {
        AudioEngine {  }
    }

    /// Prepares the engine. Always succeeds.
    pub fn initialize(&mut self) -> (r: Result<(), LibraryError>)
        ensures
            r is Ok,
            *final(self) == *old(self),
    {
        Ok(())
    }

    /// Prepares the signal path for the file at `file_path`. Always succeeds.
    pub fn create_pipeline(&mut self, file_path: &str) -> (r: Result<(), LibraryError>)
        ensures
            r is Ok,
            *final(self) == *old(self),
    {
        Ok(())
    }

    /// Asks for a crossfade of `duration_ms` milliseconds between songs.
    /// Always succeeds.
    pub fn enable_crossfade(&mut self, duration_ms: u32) -> (r: Result<(), LibraryError>)
        ensures
            r is Ok,
            *final(self) == *old(self),
    {
        Ok(())
    }
}

} // verus!
