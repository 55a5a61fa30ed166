//! The rows of the catalog.

use vstd::prelude::*;
use crate::metadata::models::{opt_text, to_signed, AudioMetadata, TagView};

verus! {

/// What the listener has recorded about a song. A re-index never touches it.
pub struct UserState {
    pub rating: i32,
    pub play_count: i32,
    pub last_played: Option<i64>,
    pub is_favorite: bool,
}

/// The state of a song that nobody has played, rated or marked yet.
pub open spec fn fresh_user_state() -> UserState {
    UserState { rating: 0, play_count: 0, last_played: None, is_favorite: false }
}

/// A song as the contracts see it.
pub struct SongView {
    pub id: Option<i64>,
    pub path: Seq<char>,
    pub tags: TagView,
    pub user: UserState,
}

/// One audio file of the catalog. `path` identifies it.
#[derive(Debug)]
pub struct Song {
    pub id: Option<i64>,
    pub path: String,
    pub title: Option<String>,
    pub artist: Option<String>,
    pub album: Option<String>,
    pub album_artist: Option<String>,
    pub genre: Option<String>,
    pub year: Option<i32>,
    pub track_number: Option<i32>,
    /// Length in seconds.
    pub duration: Option<i64>,
    pub file_size: Option<i64>,
    pub modified_time: Option<i64>,
    pub rating: i32,
    pub play_count: i32,
    pub last_played: Option<i64>,
    pub is_favorite: bool,
}

impl View for Song {
    type V = SongView;

    open spec fn view(&self) -> SongView {
        SongView {
            id: self.id,
            path: self.path@,
            tags: TagView {
                title: opt_text(self.title),
                artist: opt_text(self.artist),
                album: opt_text(self.album),
                album_artist: opt_text(self.album_artist),
                genre: opt_text(self.genre),
                year: self.year,
                track_number: self.track_number,
                duration: self.duration,
                file_size: self.file_size,
                modified_time: self.modified_time,
            },
            user: UserState {
                rating: self.rating,
                play_count: self.play_count,
                last_played: self.last_played,
                is_favorite: self.is_favorite,
            },
        }
    }
}

impl Clone for Song {
    fn clone(&self) -> (s: Self)
        ensures
            s == *self,
    {
        Song {
            id: self.id,
            path: self.path.clone(),
            title: self.title.clone(),
            artist: self.artist.clone(),
            album: self.album.clone(),
            album_artist: self.album_artist.clone(),
            genre: self.genre.clone(),
            year: self.year,
            track_number: self.track_number,
            duration: self.duration,
            file_size: self.file_size,
            modified_time: self.modified_time,
            rating: self.rating,
            play_count: self.play_count,
            last_played: self.last_played,
            is_favorite: self.is_favorite,
        }
    }
}

/// The views of a run of songs, in the same order.
pub open spec fn song_views(songs: Seq<Song>) -> Seq<SongView> {
    Seq::new(songs.len(), |i: int| songs[i]@)
}

/// The views of a run of texts, in the same order.
pub open spec fn text_views(texts: Seq<String>) -> Seq<Seq<char>> {
    Seq::new(texts.len(), |i: int| texts[i]@)
}

/// The tags of a row about which nothing is known.
pub open spec fn blank_tags() -> TagView {
    TagView {
        title: None,
        artist: None,
        album: None,
        album_artist: None,
        genre: None,
        year: None,
        track_number: None,
        duration: None,
        file_size: None,
        modified_time: None,
    }
}

impl Song {
    /// A song of which only the path is known, not yet in any catalog.
    pub fn new(path: &str) -> (s: Self)
        ensures
            s@ == (SongView { id: None, path: path@, tags: blank_tags(), user: fresh_user_state() }),
    {
        Song {
            id: None,
            path: path.to_owned(),
            title: None,
            artist: None,
            album: None,
            album_artist: None,
            genre: None,
            year: None,
            track_number: None,
            duration: None,
            file_size: None,
            modified_time: None,
            rating: 0,
            play_count: 0,
            last_played: None,
            is_favorite: false,
        }
    }

    /// A song with the tags of `metadata`, not yet in any catalog. The
    /// modification time is left unknown; a length or size above `i64::MAX`
    /// keeps its bits and comes out negative.
    pub fn from_metadata(path: &str, metadata: &AudioMetadata) -> (s: Self)
        ensures
            s@ == (SongView {
                id: None,
                path: path@,
                tags: (TagView { modified_time: None, ..metadata.tags() }),
                user: fresh_user_state(),
            }),
    {
        Song {
            id: None,
            path: path.to_owned(),
            title: metadata.title.clone(),
            artist: metadata.artist.clone(),
            album: metadata.album.clone(),
            album_artist: metadata.album_artist.clone(),
            genre: metadata.genre.clone(),
            year: metadata.year,
            track_number: metadata.track_number,
            duration: match metadata.duration {
                Some(d) => Some(to_signed(d)),
                None => None,
            },
            file_size: match metadata.file_size {
                Some(n) => Some(to_signed(n)),
                None => None,
            },
            modified_time: None,
            rating: 0,
            play_count: 0,
            last_played: None,
            is_favorite: false,
        }
    }
}

/// A named list of songs.
#[derive(Debug)]
pub struct Playlist {
    pub id: Option<i64>,
    pub name: String,
    /// Seconds since the Unix epoch.
    pub created_at: i64,
}

/// A playlist as the contracts see it.
pub struct PlaylistView {
    pub id: Option<i64>,
    pub name: Seq<char>,
    pub created_at: i64,
}

impl View for Playlist {
    type V = PlaylistView;

    open spec fn view(&self) -> PlaylistView {
        PlaylistView { id: self.id, name: self.name@, created_at: self.created_at }
    }
}

impl Clone for Playlist {
    fn clone(&self) -> (p: Self)
        ensures
            p == *self,
    {
        Playlist { id: self.id, name: self.name.clone(), created_at: self.created_at }
    }
}

impl Playlist {
    /// A playlist created at `created_at`, not yet in any catalog.
    pub fn new(name: &str, created_at: i64) -> (p: Self)
        ensures
            p@ == (PlaylistView { id: None, name: name@, created_at }),
    {
        Playlist { id: None, name: name.to_owned(), created_at }
    }
}

/// An album as a listing shows it.
#[derive(Debug)]
pub struct Album {
    pub name: String,
    pub artist: Option<String>,
    pub year: Option<i32>,
    pub song_count: i32,
}

/// An artist as a listing shows it.
#[derive(Debug)]
pub struct Artist {
    pub name: String,
    pub album_count: i32,
    pub song_count: i32,
}

} // verus!
