//! The kinds of failure that the library reports.

use vstd::prelude::*;

verus! {

/// Why an operation could not be carried out. A failed operation leaves the
/// state it was called on as it found it.
#[derive(Clone, Copy, Debug, PartialEq, Eq, Structural)]
pub enum LibraryError {
    /// A path, a song or a playlist that was asked for is not there.
    NotFound,
    /// A playlist of that name exists already.
    Conflict,
    /// The row cannot be stored.
    IoError,
    /// A queue position or a scan root index lies outside its collection.
    InvalidIndex,
    /// The audio device could not open or decode the file.
    TrackUnavailable,
    /// The transport command makes no sense in the current state.
    InvalidState,
}

impl LibraryError {
    /// The failure in words.
    pub open spec fn text(self) -> Seq<char> {
        match self {
            LibraryError::NotFound => "not found"@,
            LibraryError::Conflict => "a playlist of that name exists already"@,
            LibraryError::IoError => "the row cannot be stored"@,
            LibraryError::InvalidIndex => "index out of range"@,
            LibraryError::TrackUnavailable => "the track cannot be played"@,
            LibraryError::InvalidState => "not possible in the current state"@,
        }
    }

    /// The failure in words, for a message to the user.
    pub fn message(&self) -> (m: &'static str)
        ensures
            m@ == self.text(),
    {
        match self {
            LibraryError::NotFound => "not found",
            LibraryError::Conflict => "a playlist of that name exists already",
            LibraryError::IoError => "the row cannot be stored",
            LibraryError::InvalidIndex => "index out of range",
            LibraryError::TrackUnavailable => "the track cannot be played",
            LibraryError::InvalidState => "not possible in the current state",
        }
    }
}

} // verus!
