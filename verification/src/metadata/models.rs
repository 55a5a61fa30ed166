//! The tag record that a metadata extractor hands to the catalog.

use vstd::prelude::*;

verus! {

/// The view of an optional text.
pub open spec fn opt_text(t: Option<String>) -> Option<Seq<char>> {
    match t {
        Some(s) => Some(s@),
        None => None,
    }
}

/// What the catalog stores of a tag record: the fields that a re-index
/// overwrites.
pub struct TagView {
    pub title: Option<Seq<char>>,
    pub artist: Option<Seq<char>>,
    pub album: Option<Seq<char>>,
    pub album_artist: Option<Seq<char>>,
    pub genre: Option<Seq<char>>,
    pub year: Option<i32>,
    pub track_number: Option<i32>,
    pub duration: Option<i64>,
    pub file_size: Option<i64>,
    pub modified_time: Option<i64>,
}

/// The signed 64-bit integer with the same bits as `v`: `v` itself up to
/// `i64::MAX`, and `v - 2^64` above it.
pub open spec fn as_signed(v: u64) -> i64 {
    if v <= i64::MAX {
        v as i64
    } else {
        (v - 0x1_0000_0000_0000_0000) as i64
    }
}

/// [`as_signed`] under an `Option`.
pub open spec fn opt_signed(v: Option<u64>) -> Option<i64> {
    match v {
        Some(x) => Some(as_signed(x)),
        None => None,
    }
}

/// Computes [`as_signed`].
pub fn to_signed(v: u64) -> (r: i64)
    ensures
        r == as_signed(v),
{
    if v <= 0x7fff_ffff_ffff_ffff {
        v as i64
    } else {
        let low: u64 = v - 0x8000_0000_0000_0000;
        (low as i64) + i64::MIN
    }
}

/// Best-effort tags of one audio file. Every field may be unknown.
#[derive(Clone, Debug)]
pub struct AudioMetadata {
    pub title: Option<String>,
    pub artist: Option<String>,
    pub album: Option<String>,
    pub album_artist: Option<String>,
    pub genre: Option<String>,
    pub year: Option<i32>,
    pub track_number: Option<i32>,
    pub total_tracks: Option<i32>,
    pub disc_number: Option<i32>,
    pub total_discs: Option<i32>,
    /// Length in seconds.
    pub duration: Option<u64>,
    pub bitrate: Option<u32>,
    pub sample_rate: Option<u32>,
    /// Size in bytes.
    pub file_size: Option<u64>,
    /// Seconds since the Unix epoch.
    pub modified_time: Option<i64>,
    pub lyrics: Option<String>,
    pub album_art: Option<Vec<u8>>,
}

impl AudioMetadata {
    /// Every field is unknown.
    pub open spec fn is_blank(&self) -> bool {
        &&& self.title is None
        &&& self.artist is None
        &&& self.album is None
        &&& self.album_artist is None
        &&& self.genre is None
        &&& self.year is None
        &&& self.track_number is None
        &&& self.total_tracks is None
        &&& self.disc_number is None
        &&& self.total_discs is None
        &&& self.duration is None
        &&& self.bitrate is None
        &&& self.sample_rate is None
        &&& self.file_size is None
        &&& self.modified_time is None
        &&& self.lyrics is None
        &&& self.album_art is None
    }

    /// The fields that the catalog stores, sizes and lengths as signed
    /// integers.
    pub open spec fn tags(&self) -> TagView {
        TagView {
            title: opt_text(self.title),
            artist: opt_text(self.artist),
            album: opt_text(self.album),
            album_artist: opt_text(self.album_artist),
            genre: opt_text(self.genre),
            year: self.year,
            track_number: self.track_number,
            duration: opt_signed(self.duration),
            file_size: opt_signed(self.file_size),
            modified_time: self.modified_time,
        }
    }

    /// The length and the size, where known, fit a signed 64-bit integer, so
    /// the record can be stored as it is.
    pub open spec fn storable(&self) -> bool {
        &&& self.duration matches Some(d) ==> d <= i64::MAX
        &&& self.file_size matches Some(s) ==> s <= i64::MAX
    }

    /// A record that knows nothing yet.
    pub fn new() -> (r: Self)
        ensures
            r.is_blank(),
    {
        AudioMetadata {
            title: None,
            artist: None,
            album: None,
            album_artist: None,
            genre: None,
            year: None,
            track_number: None,
            total_tracks: None,
            disc_number: None,
            total_discs: None,
            duration: None,
            bitrate: None,
            sample_rate: None,
            file_size: None,
            modified_time: None,
            lyrics: None,
            album_art: None,
        }
    }

    /// Decides [`AudioMetadata::storable`].
    pub fn is_storable(&self) -> (r: bool)
        ensures
            r == self.storable(),
    {
        let duration_fits: bool = match self.duration {
            Some(d) => d <= 0x7fff_ffff_ffff_ffff,
            None => true,
        };
        let size_fits: bool = match self.file_size {
            Some(s) => s <= 0x7fff_ffff_ffff_ffff,
            None => true,
        };
        duration_fits && size_fits
    }
}

impl Default for AudioMetadata {
    fn default() -> (r: Self)
        ensures
            r.is_blank(),
    {
        AudioMetadata::new()
    }
}

} // verus!
