//! The catalog store.

use vstd::prelude::*;
use crate::error::LibraryError;
use crate::library::catalog::{
    entries_resolve, entry_of, has_path, playlists_in_order, songs_in_order, has_playlist, has_playlist_name, has_song, index_of_path, index_of_song,
    lemma_path_index, lemma_played_valid, lemma_remove_song_valid, lemma_song_index,
    lemma_toggle_favorite_valid, lemma_upsert_valid, lemma_with_entry_valid,
    lemma_with_playlist_valid, CatalogView, PlaylistEntry,
};
use crate::library::listing::{
    album_column, album_values, artist_column, artist_values, name_column, texts_named, insert_row, insert_text, lemma_insert_contains, lists,
    lists_texts, matches_query, playlist_names, rows_sorted, same_rank, song_matches,
    texts_sorted,
};
use crate::library::models::{song_views, text_views, Playlist, PlaylistView, Song, SongView};
use crate::metadata::models::{to_signed, AudioMetadata};
use crate::text::{text_rank, Rank};

verus! {

/// The views of a run of playlists, in the same order.
pub open spec fn playlist_views(playlists: Seq<Playlist>) -> Seq<PlaylistView> {
    Seq::new(playlists.len(), |i: int| playlists[i]@)
}

/// The catalog store: songs by path, playlists by name, and which song stands
/// where in which playlist.
pub struct LibraryDatabase {
    songs: Vec<Song>,
    playlists: Vec<Playlist>,
    entries: Vec<PlaylistEntry>,
    next_song_id: i64,
    next_playlist_id: i64,
}

impl View for LibraryDatabase {
    type V = CatalogView;

    closed spec fn view(&self) -> CatalogView {
        CatalogView {
            songs: song_views(self.songs@),
            playlists: playlist_views(self.playlists@),
            entries: self.entries@.to_set(),
            next_song_id: self.next_song_id,
            next_playlist_id: self.next_playlist_id,
        }
    }
}

/// The row that `old` becomes when `metadata` is written over its tags.
fn merged(old: &Song, metadata: &AudioMetadata) -> (s: Song)
    requires
        metadata.storable(),
    ensures
        s@ == (SongView { tags: metadata.tags(), ..old@ }),
{
    Song {
        id: old.id,
        path: old.path.clone(),
        title: metadata.title.clone(),
        artist: metadata.artist.clone(),
        album: metadata.album.clone(),
        album_artist: metadata.album_artist.clone(),
        genre: metadata.genre.clone(),
        year: metadata.year,
        track_number: metadata.track_number,
        duration: match metadata.duration {
            Some(d) => Some(to_signed(d)),
            None => None,
        },
        file_size: match metadata.file_size {
            Some(n) => Some(to_signed(n)),
            None => None,
        },
        modified_time: metadata.modified_time,
        rating: old.rating,
        play_count: old.play_count,
        last_played: old.last_played,
        is_favorite: old.is_favorite,
    }
}

/// A table of the catalog whose rows have an id and a key.
#[derive(Clone, Copy)]
enum Table {
    /// The songs; a song's key is its path.
    Songs,
    /// The playlists; a playlist's key is its name.
    Playlists,
}

/// The id and the key of each row of a table.
spec fn keyed(v: CatalogView, table: Table) -> Seq<(Option<i64>, Seq<char>)> {
    match table {
        Table::Songs => Seq::new(v.songs.len(), |i: int| (v.songs[i].id, v.songs[i].path)),
        Table::Playlists => Seq::new(
            v.playlists.len(),
            |i: int| (v.playlists[i].id, v.playlists[i].name),
        ),
    }
}

/// The id that the next new row of a table gets.
spec fn next_in(v: CatalogView, table: Table) -> i64 {
    match table {
        Table::Songs => v.next_song_id,
        Table::Playlists => v.next_playlist_id,
    }
}

/// The rows have positive ids below `next`, rising from row to row, and no
/// two have the same key.
spec fn keys_in_order(rows: Seq<(Option<i64>, Seq<char>)>, next: i64) -> bool {
    &&& 1 <= next
    &&& forall|i: int|
        0 <= i < rows.len() ==> ((#[trigger] rows[i]).0 matches Some(k) && 1 <= k < next)
    &&& forall|i: int, j: int|
        0 <= i < j < rows.len() ==> (#[trigger] rows[i]).0.unwrap() < (#[trigger] rows[j]).0.unwrap()
    &&& forall|i: int, j: int| 0 <= i < j < rows.len() ==> (#[trigger] rows[i]).1 != (#[trigger] rows[j]).1
}

/// Each row of a table stands in [`keyed`] with its id and key, place by
/// place.
proof fn lemma_keyed_rows(v: CatalogView)
    ensures
        keyed(v, Table::Songs).len() == v.songs.len(),
        keyed(v, Table::Playlists).len() == v.playlists.len(),
        forall|i: int|
            0 <= i < v.songs.len() ==> (#[trigger] v.songs[i]).id == keyed(v, Table::Songs)[i].0
                && v.songs[i].path == keyed(v, Table::Songs)[i].1,
        forall|i: int|
            0 <= i < v.playlists.len() ==> (#[trigger] v.playlists[i]).id == keyed(
                v,
                Table::Playlists,
            )[i].0 && v.playlists[i].name == keyed(v, Table::Playlists)[i].1,
{
}

/// A table is in order exactly when its ids and keys are.
proof fn lemma_keyed(v: CatalogView)
    ensures
        keys_in_order(keyed(v, Table::Songs), v.next_song_id) == songs_in_order(
            v.songs,
            v.next_song_id,
        ),
        keys_in_order(keyed(v, Table::Playlists), v.next_playlist_id) == playlists_in_order(
            v.playlists,
            v.next_playlist_id,
        ),
{
    lemma_keyed_rows(v);
    let songs = keyed(v, Table::Songs);
    let lists = keyed(v, Table::Playlists);
    assert forall|i: int| 0 <= i < songs.len() implies #[trigger] songs[i] == (
        v.songs[i].id,
        v.songs[i].path,
    ) by {}
    assert forall|i: int| 0 <= i < lists.len() implies #[trigger] lists[i] == (
        v.playlists[i].id,
        v.playlists[i].name,
    ) by {}
}

impl LibraryDatabase {
    /// How many rows the table has.
    fn table_len(&self, table: Table) -> (n: usize)
        ensures
            n == keyed(self@, table).len(),
    {
        match table {
            Table::Songs => self.songs.len(),
            Table::Playlists => self.playlists.len(),
        }
    }

    /// The id of row `i` of the table.
    fn id_at(&self, table: Table, i: usize) -> (id: Option<i64>)
        requires
            i < keyed(self@, table).len(),
        ensures
            id == keyed(self@, table)[i as int].0,
    {
        match table {
            Table::Songs => self.songs[i].id,
            Table::Playlists => self.playlists[i].id,
        }
    }

    /// The key of row `i` of the table.
    fn key_at(&self, table: Table, i: usize) -> (key: &str)
        requires
            i < keyed(self@, table).len(),
        ensures
            key@ == keyed(self@, table)[i as int].1,
    {
        match table {
            Table::Songs => self.songs[i].path.as_str(),
            Table::Playlists => self.playlists[i].name.as_str(),
        }
    }

    /// The first row of the table with this id.
    fn place_of_id(&self, table: Table, id: i64) -> (r: Option<usize>)
        ensures
            r is None ==> forall|k: int|
                0 <= k < keyed(self@, table).len() ==> (#[trigger] keyed(self@, table)[k]).0
                    != Some(id),
            r matches Some(i) ==> i < keyed(self@, table).len() && keyed(self@, table)[i as int].0
                == Some(id),
    {
        let n: usize = self.table_len(table);
        let mut i: usize = 0;
        while i < n
            invariant
                n == keyed(self@, table).len(),
                i <= n,
                forall|k: int| 0 <= k < i ==> (#[trigger] keyed(self@, table)[k]).0 != Some(id),
            decreases n - i,
        {
            let found: bool = match self.id_at(table, i) {
                Some(k) => k == id,
                None => false,
            };
            if found {
                return Some(i);
            }
            i = i + 1;
        }
        None
    }

    /// The first row of the table with this key.
    fn place_of_key(&self, table: Table, key: &str) -> (r: Option<usize>)
        ensures
            r is None ==> forall|k: int|
                0 <= k < keyed(self@, table).len() ==> (#[trigger] keyed(self@, table)[k]).1
                    != key@,
            r matches Some(i) ==> i < keyed(self@, table).len() && keyed(self@, table)[i as int].1
                == key@,
    {
        let n: usize = self.table_len(table);
        let mut i: usize = 0;
        while i < n
            invariant
                n == keyed(self@, table).len(),
                i <= n,
                forall|k: int| 0 <= k < i ==> (#[trigger] keyed(self@, table)[k]).1 != key@,
            decreases n - i,
        {
            match text_rank(self.key_at(table, i), key) {
                Rank::Same => {
                    return Some(i);
                },
                _ => {},
            }
            i = i + 1;
        }
        None
    }

    /// Decides [`keys_in_order`] for a table and its next id.
    fn check_table(&self, table: Table) -> (ok: bool)
        ensures
            ok == keys_in_order(keyed(self@, table), next_in(self@, table)),
    {
        let next: i64 = match table {
            Table::Songs => self.next_song_id,
            Table::Playlists => self.next_playlist_id,
        };
        if next < 1 {
            return false;
        }
        let ghost rows = keyed(self@, table);
        let n: usize = self.table_len(table);
        let mut last: i64 = 0;
        let mut i: usize = 0;
        while i < n
            invariant
                n == rows.len(),
                i <= n,
                1 <= next,
                next == next_in(self@, table),
                rows == keyed(self@, table),
                0 <= last,
                i == 0 ==> last == 0,
                i > 0 ==> rows[i - 1].0 == Some(last),
                forall|k: int|
                    0 <= k < i ==> ((#[trigger] rows[k]).0 matches Some(v) && 1 <= v < next),
                forall|a: int, b: int|
                    0 <= a < b < i ==> (#[trigger] rows[a]).0.unwrap() < (#[trigger] rows[b]).0.unwrap(),
                forall|a: int, b: int| 0 <= a < b < i ==> (#[trigger] rows[a]).1 != (#[trigger] rows[b]).1,
            decreases n - i,
        {
            let id: i64 = match self.id_at(table, i) {
                Some(v) => v,
                None => {
                    return false;
                },
            };
            if id < 1 || id >= next {
                return false;
            }
            if id <= last {
                assert(!(rows[i - 1].0.unwrap() < rows[i as int].0.unwrap()));
                return false;
            }
            let mut j: usize = 0;
            while j < i
                invariant
                    i < n,
                    j <= i,
                    n == rows.len(),
                    rows == keyed(self@, table),
                    forall|a: int| 0 <= a < j ==> (#[trigger] rows[a]).1 != rows[i as int].1,
                decreases i - j,
            {
                match text_rank(self.key_at(table, j), self.key_at(table, i)) {
                    Rank::Same => {
                        assert(rows[j as int].1 == rows[i as int].1);
                        return false;
                    },
                    _ => {},
                }
                j = j + 1;
            }
            proof {
                assert forall|a: int, b: int| 0 <= a < b < i + 1 implies (#[trigger] rows[a]).0.unwrap()
                    < (#[trigger] rows[b]).0.unwrap() by {
                    if b == i && a < i - 1 {
                        assert(rows[a].0.unwrap() < rows[i - 1].0.unwrap());
                    }
                }
            }
            last = id;
            i = i + 1;
        }
        true
    }
}

impl LibraryDatabase {
    /// Whether every entry is of a song and a playlist of the store, and no
    /// song has two entries in one playlist.
    fn check_entries(&self) -> (ok: bool)
        requires
            songs_in_order(self@.songs, self@.next_song_id),
            playlists_in_order(self@.playlists, self@.next_playlist_id),
        ensures
            ok == entries_resolve(self@.songs, self@.playlists, self@.entries),
    {
        let ghost all = self.entries@;
        let n: usize = self.entries.len();
        let mut i: usize = 0;
        while i < n
            invariant
                n == self.entries.len(),
                i <= n,
                all == self.entries@,
                songs_in_order(self@.songs, self@.next_song_id),
                forall|k: int|
                    0 <= k < i ==> has_song(self@.songs, (#[trigger] all[k]).song_id)
                        && has_playlist(self@.playlists, all[k].playlist_id),
                forall|a: int, b: int|
                    0 <= a < b < i && entry_of(#[trigger] all[b], (#[trigger] all[a]).playlist_id, all[a].song_id)
                        ==> all[a] == all[b],
            decreases n - i,
        {
            let e: PlaylistEntry = self.entries[i];
            assert(all.contains(all[i as int]));
            assert(self@.entries.contains(e));
            if !self.knows_playlist(e.playlist_id) {
                return false;
            }
            if !self.knows_song(e.song_id) {
                return false;
            }
            let mut j: usize = 0;
            while j < i
                invariant
                    n == self.entries.len(),
                    i < n,
                    j <= i,
                    all == self.entries@,
                    e == all[i as int],
                    forall|a: int|
                        0 <= a < j && entry_of(e, (#[trigger] all[a]).playlist_id, all[a].song_id)
                            ==> all[a] == e,
                decreases i - j,
            {
                let f: PlaylistEntry = self.entries[j];
                if f.playlist_id == e.playlist_id && f.song_id == e.song_id && f.position
                    != e.position {
                    assert(all.contains(all[j as int]));
                    assert(entry_of(e, f.playlist_id, f.song_id));
                    assert(self@.entries.contains(f) && self@.entries.contains(e));
                    return false;
                }
                j = j + 1;
            }
            i = i + 1;
        }
        proof {
            assert forall|a: PlaylistEntry, b: PlaylistEntry|
                self@.entries.contains(a) && self@.entries.contains(b) && entry_of(
                    b,
                    a.playlist_id,
                    a.song_id,
                ) implies a == b by {
                let x = choose|x: int| 0 <= x < all.len() && all[x] == a;
                let y = choose|y: int| 0 <= y < all.len() && all[y] == b;
                if x < y {
                    assert(all[x] == all[y]);
                } else if y < x {
                    assert(entry_of(all[x], all[y].playlist_id, all[y].song_id));
                    assert(all[y] == all[x]);
                }
            }
            assert forall|e: PlaylistEntry| #[trigger] self@.entries.contains(e) implies has_song(
                self@.songs,
                e.song_id,
            ) && has_playlist(self@.playlists, e.playlist_id) by {
                let x = choose|x: int| 0 <= x < all.len() && all[x] == e;
                assert(has_song(self@.songs, all[x].song_id));
            }
        }
        true
    }

    /// Whether a song has this id.
    fn knows_song(&self, id: i64) -> (r: bool)
        ensures
            r == has_song(self@.songs, id),
    {
        let place = self.place_of_id(Table::Songs, id);
        proof {
            lemma_keyed_rows(self@);
        }
        place.is_some()
    }

    /// Takes rows that were kept elsewhere as a catalog: the songs and the
    /// playlists oldest first, the playlist entries in any order, and the ids
    /// that the next new song and the next new playlist are to get.
    ///
    /// Fails with `IoError` where the rows are no catalog: an id is missing,
    /// not positive, not below the next id or not above the id before it; two
    /// songs share a path or two playlists a name; an entry is of a song or a
    /// playlist that is not among the rows; or a song has two different
    /// entries in one playlist.
    pub fn restore(
        songs: Vec<Song>,
        playlists: Vec<Playlist>,
        entries: Vec<PlaylistEntry>,
        next_song_id: i64,
        next_playlist_id: i64,
    ) -> (r: Result<LibraryDatabase, LibraryError>)
        ensures
            r is Ok <==> (CatalogView {
                songs: song_views(songs@),
                playlists: playlist_views(playlists@),
                entries: entries@.to_set(),
                next_song_id,
                next_playlist_id,
            }).valid(),
            match r {
                Ok(db) => db.wf() && db@ == (CatalogView {
                    songs: song_views(songs@),
                    playlists: playlist_views(playlists@),
                    entries: entries@.to_set(),
                    next_song_id,
                    next_playlist_id,
                }),
                Err(e) => e == LibraryError::IoError,
            },
    {
        let db = LibraryDatabase { songs, playlists, entries, next_song_id, next_playlist_id };
        proof {
            lemma_keyed(db@);
        }
        if !db.check_table(Table::Songs) || !db.check_table(Table::Playlists) {
            return Err(LibraryError::IoError);
        }
        if !db.check_entries() {
            return Err(LibraryError::IoError);
        }
        Ok(db)
    }

    /// The playlists, oldest first.
    pub fn playlist_rows(&self) -> (rows: &Vec<Playlist>)
        ensures
            playlist_views(rows@) == self@.playlists,
    {
        &self.playlists
    }

    /// The songs, oldest row first.
    pub fn song_rows(&self) -> (rows: &Vec<Song>)
        ensures
            song_views(rows@) == self@.songs,
    {
        &self.songs
    }

    /// The playlist entries, in no particular order.
    pub fn playlist_entries(&self) -> (entries: &Vec<PlaylistEntry>)
        ensures
            entries@.to_set() == self@.entries,
    {
        &self.entries
    }

    /// The id that the next new song gets.
    pub fn next_song_id(&self) -> (id: i64)
        ensures
            id == self@.next_song_id,
    {
        self.next_song_id
    }

    /// The id that the next new playlist gets.
    pub fn next_playlist_id(&self) -> (id: i64)
        ensures
            id == self@.next_playlist_id,
    {
        self.next_playlist_id
    }
}

impl LibraryDatabase {
    /// The store keeps what every catalog keeps.
    pub closed spec fn wf(&self) -> bool {
        self@.valid()
    }

    /// What [`LibraryDatabase::wf`] says of the view.
    pub proof fn lemma_valid(&self)
        requires
            self.wf(),
        ensures
            self@.valid(),
    {
    }

    /// An empty store.
    pub fn new() -> (db: Self)
        ensures
            db.wf(),
            db@ == CatalogView::empty(),
    {
        let db = LibraryDatabase {
            songs: Vec::new(),
            playlists: Vec::new(),
            entries: Vec::new(),
            next_song_id: 1,
            next_playlist_id: 1,
        };
        assert(db@.songs =~= Seq::empty());
        assert(db@.playlists =~= Seq::empty());
        assert(db@.entries =~= Set::empty());
        db
    }

    /// The place of the row with this path.
    fn row_of_path(&self, path: &str) -> (r: Option<usize>)
        requires
            self.wf(),
        ensures
            r is Some <==> has_path(self@.songs, path@),
            r matches Some(i) ==> i < self.songs.len() && i == index_of_path(self@.songs, path@)
                && self.songs[i as int].path@ == path@,
    {
        let place = self.place_of_key(Table::Songs, path);
        proof {
            lemma_keyed_rows(self@);
            if place is Some {
                lemma_path_index(self@, path@, place.unwrap() as int);
            }
        }
        place
    }

    /// The place of the row with this id.
    fn row_of_id(&self, id: i64) -> (r: Option<usize>)
        requires
            self.wf(),
        ensures
            r is Some <==> has_song(self@.songs, id),
            r matches Some(i) ==> i < self.songs.len() && i == index_of_song(self@.songs, id)
                && self.songs[i as int].id == Some(id),
    {
        let place = self.place_of_id(Table::Songs, id);
        proof {
            lemma_keyed_rows(self@);
            if place is Some {
                lemma_song_index(self@, id, place.unwrap() as int);
            }
        }
        place
    }

    /// How many songs the catalog holds.
    pub fn song_count(&self) -> (n: usize)
        ensures
            n == self@.songs.len(),
    {
        self.songs.len()
    }

    /// The row of the song at `path`, if the catalog has one.
    pub fn find_song(&self, path: &str) -> (r: Option<Song>)
        requires
            self.wf(),
        ensures
            r is Some <==> has_path(self@.songs, path@),
            r matches Some(s) ==> s@ == self@.songs[index_of_path(self@.songs, path@)],
    {
        match self.row_of_path(path) {
            Some(i) => Some(self.songs[i].clone()),
            None => None,
        }
    }

    /// Writes the tags of `metadata` for the song at `path` and returns the
    /// song's id. A row that is there takes the tags and keeps its id, rating,
    /// play count, last play and favorite mark; otherwise a new row is made.
    ///
    /// Fails with `IoError`, and changes nothing, where the record cannot be
    /// stored: a length or size beyond `i64::MAX`, or no id left for a new row.
    pub fn add_song(&mut self, path: &str, metadata: &AudioMetadata) -> (r: Result<
        i64,
        LibraryError,
    >)
        requires
            old(self).wf(),
        ensures
            final(self).wf(),
            r is Ok <==> metadata.storable() && old(self)@.has_room_for(path@),
            match r {
                Ok(id) => {
                    &&& final(self)@ == old(self)@.upsert(path@, metadata.tags())
                    &&& id == old(self)@.id_for(path@)
                    &&& has_path(final(self)@.songs, path@)
                    &&& final(self)@.songs[index_of_path(final(self)@.songs, path@)].id == Some(id)
                },
                Err(e) => e == LibraryError::IoError && final(self)@ == old(self)@,
            },
    {
        if !metadata.is_storable() {
            return Err(LibraryError::IoError);
        }
        let ghost before = self@;
        match self.row_of_path(path) {
            Some(i) => {
                let row = merged(&self.songs[i], metadata);
                let id: i64 = match row.id {
                    Some(k) => k,
                    None => 0,
                };
                self.songs.set(i, row);
                proof {
                    assert(self@.songs =~= before.upsert(path@, metadata.tags()).songs);
                    lemma_upsert_valid(before, path@, metadata.tags());
                    lemma_path_index(self@, path@, i as int);
                }
                Ok(id)
            },
            None => {
                if self.next_song_id == i64::MAX {
                    return Err(LibraryError::IoError);
                }
                let id: i64 = self.next_song_id;
                let fresh = Song::new(path);
                let mut row = merged(&fresh, metadata);
                row.id = Some(id);
                self.songs.push(row);
                self.next_song_id = id + 1;
                proof {
                    assert(self@.songs =~= before.upsert(path@, metadata.tags()).songs);
                    lemma_upsert_valid(before, path@, metadata.tags());
                    lemma_path_index(self@, path@, self.songs.len() - 1);
                }
                Ok(id)
            },
        }
    }

    /// Removes the song at `path` and its playlist entries. Says whether there
    /// was such a song; where there was none, nothing changes.
    pub fn remove_song(&mut self, path: &str) -> (removed: bool)
        requires
            old(self).wf(),
        ensures
            final(self).wf(),
            removed == has_path(old(self)@.songs, path@),
            final(self)@ == old(self)@.remove_song(path@),
    {
        let ghost before = self@;
        match self.row_of_path(path) {
            Some(i) => {
                let id: i64 = match self.songs[i].id {
                    Some(k) => k,
                    None => 0,
                };
                self.songs.remove(i);
                self.entries = entries_without(&self.entries, None, id);
                proof {
                    let after = before.remove_song(path@);
                    assert(self@.songs =~= after.songs);
                    assert(self@.entries =~= after.entries);
                    lemma_remove_song_valid(before, path@);
                }
                true
            },
            None => false,
        }
    }

    /// Flips the favorite mark of song `song_id` and returns the new mark.
    /// Fails with `NotFound` where no song has the id.
    pub fn toggle_favorite(&mut self, song_id: i64) -> (r: Result<bool, LibraryError>)
        requires
            old(self).wf(),
        ensures
            final(self).wf(),
            final(self)@ == old(self)@.toggle_favorite(song_id),
            r is Ok <==> has_song(old(self)@.songs, song_id),
            match r {
                Ok(mark) => mark == !old(self)@.songs[index_of_song(
                    old(self)@.songs,
                    song_id,
                )].user.is_favorite,
                Err(e) => e == LibraryError::NotFound,
            },
    {
        let ghost before = self@;
        match self.row_of_id(song_id) {
            Some(i) => {
                let mut row = self.songs[i].clone();
                let mark: bool = !row.is_favorite;
                row.is_favorite = mark;
                self.songs.set(i, row);
                proof {
                    assert(self@.songs =~= before.toggle_favorite(song_id).songs);
                    lemma_toggle_favorite_valid(before, song_id);
                }
                Ok(mark)
            },
            None => Err(LibraryError::NotFound),
        }
    }

    /// Records that song `song_id` was played at `now`, in seconds since the
    /// Unix epoch: one more play, up to `i32::MAX`, and `now` as the time of
    /// the last play. Fails with `NotFound` where no song has the id.
    pub fn update_play_count(&mut self, song_id: i64, now: i64) -> (r: Result<(), LibraryError>)
        requires
            old(self).wf(),
        ensures
            final(self).wf(),
            final(self)@ == old(self)@.played(song_id, now),
            r is Ok <==> has_song(old(self)@.songs, song_id),
            r matches Err(e) ==> e == LibraryError::NotFound,
    {
        let ghost before = self@;
        match self.row_of_id(song_id) {
            Some(i) => {
                let mut row = self.songs[i].clone();
                if row.play_count < i32::MAX {
                    row.play_count = row.play_count + 1;
                }
                row.last_played = Some(now);
                self.songs.set(i, row);
                proof {
                    assert(self@.songs =~= before.played(song_id, now).songs);
                    lemma_played_valid(before, song_id, now);
                }
                Ok(())
            },
            None => Err(LibraryError::NotFound),
        }
    }

    /// Whether a playlist has this name.
    fn knows_playlist_name(&self, name: &str) -> (r: bool)
        ensures
            r == has_playlist_name(self@.playlists, name@),
    {
        let place = self.place_of_key(Table::Playlists, name);
        proof {
            lemma_keyed_rows(self@);
        }
        place.is_some()
    }

    /// Whether a playlist has this id.
    fn knows_playlist(&self, id: i64) -> (r: bool)
        ensures
            r == has_playlist(self@.playlists, id),
    {
        let place = self.place_of_id(Table::Playlists, id);
        proof {
            lemma_keyed_rows(self@);
        }
        place.is_some()
    }

    /// Makes a playlist called `name`, created at `created_at` (seconds since
    /// the Unix epoch), and returns its id.
    ///
    /// Fails with `Conflict` where a playlist has the name already, and with
    /// `IoError` where the name is new but no id is left; either way nothing
    /// changes.
    pub fn create_playlist(&mut self, name: &str, created_at: i64) -> (r: Result<
        i64,
        LibraryError,
    >)
        requires
            old(self).wf(),
        ensures
            final(self).wf(),
            match r {
                Ok(id) => {
                    &&& !has_playlist_name(old(self)@.playlists, name@)
                    &&& old(self)@.next_playlist_id < i64::MAX
                    &&& id == old(self)@.next_playlist_id
                    &&& final(self)@ == old(self)@.with_playlist(name@, created_at)
                },
                Err(e) => {
                    &&& final(self)@ == old(self)@
                    &&& e == LibraryError::Conflict <==> has_playlist_name(
                        old(self)@.playlists,
                        name@,
                    )
                    &&& e == LibraryError::IoError <==> (!has_playlist_name(
                        old(self)@.playlists,
                        name@,
                    ) && old(self)@.next_playlist_id == i64::MAX)
                    &&& e == LibraryError::Conflict || e == LibraryError::IoError
                },
            },
    {
        if self.knows_playlist_name(name) {
            return Err(LibraryError::Conflict);
        }
        if self.next_playlist_id == i64::MAX {
            return Err(LibraryError::IoError);
        }
        let ghost before = self@;
        let id: i64 = self.next_playlist_id;
        let mut playlist = Playlist::new(name, created_at);
        playlist.id = Some(id);
        self.playlists.push(playlist);
        self.next_playlist_id = id + 1;
        proof {
            assert(self@.playlists =~= before.with_playlist(name@, created_at).playlists);
            lemma_with_playlist_valid(before, name@, created_at);
        }
        Ok(id)
    }

    /// Puts the song into the playlist at `position`; where it is in the
    /// playlist already, only its position changes. Fails with `NotFound`, and
    /// changes nothing, where the playlist or the song is not in the catalog.
    pub fn add_song_to_playlist(&mut self, playlist_id: i64, song_id: i64, position: i32) -> (r:
        Result<(), LibraryError>)
        requires
            old(self).wf(),
        ensures
            final(self).wf(),
            r is Ok <==> has_playlist(old(self)@.playlists, playlist_id) && has_song(
                old(self)@.songs,
                song_id,
            ),
            match r {
                Ok(_) => final(self)@ == old(self)@.with_entry(playlist_id, song_id, position),
                Err(e) => e == LibraryError::NotFound && final(self)@ == old(self)@,
            },
    {
        if !self.knows_playlist(playlist_id) {
            return Err(LibraryError::NotFound);
        }
        if self.row_of_id(song_id).is_none() {
            return Err(LibraryError::NotFound);
        }
        let ghost before = self@;
        let mut kept = entries_without(&self.entries, Some(playlist_id), song_id);
        let ghost short = kept@;
        kept.push(PlaylistEntry { playlist_id, song_id, position });
        self.entries = kept;
        proof {
            let after = before.with_entry(playlist_id, song_id, position);
            assert forall|e: PlaylistEntry| self@.entries.contains(e) <==> after.entries.contains(
                e,
            ) by {
                let fresh = PlaylistEntry { playlist_id, song_id, position };
                assert(self.entries@ =~= short.push(fresh));
                if self.entries@.contains(e) {
                    let k = choose|k: int| 0 <= k < self.entries@.len() && self.entries@[k] == e;
                    if k < short.len() {
                        assert(short[k] == e);
                        assert(short.contains(e));
                    }
                }
                if short.contains(e) {
                    let k = choose|k: int| 0 <= k < short.len() && short[k] == e;
                    assert(self.entries@[k] == e);
                }
                if e == fresh {
                    assert(self.entries@[self.entries@.len() - 1] == e);
                }
            }
            assert(self@.entries =~= after.entries);
            lemma_with_entry_valid(before, playlist_id, song_id, position);
        }
        Ok(())
    }

    /// Where the song stands in the playlist, if it is in it.
    pub fn playlist_position(&self, playlist_id: i64, song_id: i64) -> (r: Option<i32>)
        requires
            self.wf(),
        ensures
            r == self@.position_in(playlist_id, song_id),
    {
        let n: usize = self.entries.len();
        let mut i: usize = 0;
        while i < n
            invariant
                n == self.entries.len(),
                i <= n,
                self.wf(),
                forall|k: int| 0 <= k < i ==> !entry_of(#[trigger] self.entries[k], playlist_id, song_id),
            decreases n - i,
        {
            let e: PlaylistEntry = self.entries[i];
            if e.playlist_id == playlist_id && e.song_id == song_id {
                proof {
                    assert(self.entries@.contains(self.entries@[i as int]));
                    assert(self@.entries.contains(
                        PlaylistEntry { playlist_id, song_id, position: e.position },
                    ));
                    let p = choose|p: i32|
                        self@.entries.contains(PlaylistEntry { playlist_id, song_id, position: p });
                    let other = PlaylistEntry { playlist_id, song_id, position: p };
                    assert(self@.entries.contains(other) && self@.entries.contains(e));
                    assert(entry_of(other, e.playlist_id, e.song_id));
                }
                return Some(e.position);
            }
            i = i + 1;
        }
        proof {
            assert forall|p: i32|
                !self@.entries.contains(PlaylistEntry { playlist_id, song_id, position: p }) by {
                let e = PlaylistEntry { playlist_id, song_id, position: p };
                if self.entries@.contains(e) {
                    let k = choose|k: int| 0 <= k < self.entries@.len() && self.entries@[k] == e;
                    assert(!entry_of(self.entries[k], playlist_id, song_id));
                }
            }
        }
        None
    }

    /// The rows that `query` admits, in listing order.
    fn listing(&self, query: Option<&str>) -> (out: Vec<Song>)
        requires
            self.wf(),
        ensures
            lists(self@.songs, |r: SongView| admits(opt_str(query), r), song_views(out@)),
    {
        let ghost rows = self@.songs;
        let ghost q = opt_str(query);
        let mut out: Vec<Song> = Vec::new();
        let n: usize = self.songs.len();
        let mut i: usize = 0;
        while i < n
            invariant
                n == self.songs.len(),
                i <= n,
                self.wf(),
                rows == self@.songs,
                q == opt_str(query),
                rows_sorted(song_views(out@)),
                forall|j: int|
                    0 <= j < out.len() ==> admitted_before(rows, q, i as int, #[trigger] out[j]@),
                forall|k: int|
                    0 <= k < i && admits(q, #[trigger] rows[k]) ==> song_views(out@).contains(
                        rows[k],
                    ),
            decreases n - i,
        {
            let take: bool = match query {
                Some(text) => song_matches(&self.songs[i], text),
                None => true,
            };
            assert(rows[i as int] == self.songs[i as int]@);
            if take {
                let ghost held = song_views(out@);
                proof {
                    assert forall|j: int| 0 <= j < out.len() implies !same_rank(
                        #[trigger] out[j]@,
                        rows[i as int],
                    ) by {
                        let k = choose|k: int| 0 <= k < i && rows[k] == out[j]@;
                        assert(rows[k].id.unwrap() < rows[i as int].id.unwrap());
                    }
                    assert forall|j: int| 0 <= j < held.len() implies admitted_before(
                        rows,
                        q,
                        i as int,
                        #[trigger] held[j],
                    ) by {
                        assert(held[j] == out[j]@);
                    }
                }
                let at = insert_row(&mut out, self.songs[i].clone());
                proof {
                    lemma_insert_contains(held, at as int, rows[i as int]);
                    held.insert_ensures(at as int, rows[i as int]);
                    assert forall|j: int| 0 <= j < out.len() implies admitted_before(
                        rows,
                        q,
                        i + 1,
                        #[trigger] out[j]@,
                    ) by {
                        assert(song_views(out@)[j] == out[j]@);
                        if j < at {
                            assert(held[j] == out[j]@);
                            let k = choose|k: int| 0 <= k < i && rows[k] == held[j];
                            assert(0 <= k < i + 1 && rows[k] == out[j]@);
                        } else if j > at {
                            assert(held[j - 1] == out[j]@);
                            let k = choose|k: int| 0 <= k < i && rows[k] == held[j - 1];
                            assert(0 <= k < i + 1 && rows[k] == out[j]@);
                        } else {
                            assert(rows[i as int] == out[j]@);
                        }
                    }
                    assert forall|k: int| 0 <= k < i + 1 && admits(q, #[trigger] rows[k]) implies song_views(
                        out@,
                    ).contains(rows[k]) by {
                        if k < i {
                            assert(held.contains(rows[k]));
                        }
                    }
                }
            } else {
                assert forall|j: int| 0 <= j < out.len() implies admitted_before(
                    rows,
                    q,
                    i + 1,
                    #[trigger] out[j]@,
                ) by {
                    let k = choose|k: int| 0 <= k < i && rows[k] == out[j]@;
                    assert(0 <= k < i + 1 && rows[k] == out[j]@);
                }
            }
            i = i + 1;
        }
        proof {
            let views = song_views(out@);
            assert forall|j: int| 0 <= j < views.len() implies rows.contains(#[trigger] views[j])
                && admits(q, views[j]) by {
                assert(admitted_before(rows, q, n as int, out[j]@));
                let k = choose|k: int| 0 <= k < n && rows[k] == out[j]@;
                assert(rows[k] == views[j]);
            }
        }
        out
    }

    /// All songs, by artist, then album, then track number, the unknown
    /// first each time; songs that agree on all three come oldest row first.
    pub fn get_all_songs(&self) -> (out: Vec<Song>)
        requires
            self.wf(),
        ensures
            lists(self@.songs, |r: SongView| true, song_views(out@)),
    {
        self.listing(None)
    }

    /// The songs whose title, artist or album holds `query`, letter case of
    /// ASCII letters aside, in the order of [`LibraryDatabase::get_all_songs`].
    pub fn search(&self, query: &str) -> (out: Vec<Song>)
        requires
            self.wf(),
        ensures
            lists(self@.songs, |r: SongView| matches_query(r, query@), song_views(out@)),
    {
        self.listing(Some(query))
    }

    /// How many rows the column has.
    fn column_len(&self, which: Column) -> (n: usize)
        ensures
            n == column(self@, which).len(),
    {
        match which {
            Column::Album | Column::Artist => self.songs.len(),
            Column::PlaylistName => self.playlists.len(),
        }
    }

    /// The text in row `i` of the column.
    fn column_at(&self, which: Column, i: usize) -> (t: Option<&String>)
        requires
            i < column(self@, which).len(),
        ensures
            t is Some <==> column(self@, which)[i as int] is Some,
            t matches Some(text) ==> column(self@, which)[i as int] == Some(text@),
    {
        match which {
            Column::Album => match &self.songs[i].album {
                Some(text) => Some(text),
                None => None,
            },
            Column::Artist => match &self.songs[i].artist {
                Some(text) => Some(text),
                None => None,
            },
            Column::PlaylistName => Some(&self.playlists[i].name),
        }
    }

    /// The texts that the column names, each once, in ascending order.
    fn distinct(&self, which: Column) -> (out: Vec<String>)
        ensures
            lists_texts(texts_named(column(self@, which)), text_views(out@)),
    {
        let ghost rows = column(self@, which);
        let mut out: Vec<String> = Vec::new();
        let n: usize = self.column_len(which);
        let mut i: usize = 0;
        while i < n
            invariant
                n == rows.len(),
                i <= n,
                rows == column(self@, which),
                texts_sorted(text_views(out@)),
                forall|t: Seq<char>|
                    text_views(out@).contains(t) <==> (exists|k: int|
                        0 <= k < i && #[trigger] rows[k] == Some(t)),
            decreases n - i,
        {
            match self.column_at(which, i) {
                Some(text) => {
                    insert_text(&mut out, text.as_str());
                },
                None => {},
            }
            i = i + 1;
        }
        proof {
            let views = text_views(out@);
            assert forall|j: int| 0 <= j < views.len() implies texts_named(rows).contains(
                #[trigger] views[j],
            ) by {
                assert(views.contains(views[j]));
            }
        }
        out
    }

    /// The albums that the songs name, each once, in ascending order.
    pub fn get_all_albums(&self) -> (out: Vec<String>)
        ensures
            lists_texts(album_values(self@.songs), text_views(out@)),
    {
        self.distinct(Column::Album)
    }

    /// The artists that the songs name, each once, in ascending order.
    pub fn get_all_artists(&self) -> (out: Vec<String>)
        ensures
            lists_texts(artist_values(self@.songs), text_views(out@)),
    {
        self.distinct(Column::Artist)
    }

    /// The names of the playlists, in ascending order.
    pub fn get_all_playlists(&self) -> (out: Vec<String>)
        ensures
            lists_texts(playlist_names(self@.playlists), text_views(out@)),
    {
        self.distinct(Column::PlaylistName)
    }
}

/// A column of texts in the catalog.
#[derive(Clone, Copy)]
enum Column {
    Album,
    Artist,
    PlaylistName,
}

/// The texts of a column, row by row; `None` where a row has none.
spec fn column(v: CatalogView, which: Column) -> Seq<Option<Seq<char>>> {
    match which {
        Column::Album => album_column(v.songs),
        Column::Artist => artist_column(v.songs),
        Column::PlaylistName => name_column(v.playlists),
    }
}

/// The view of an optional text slice.
pub open spec fn opt_str(t: Option<&str>) -> Option<Seq<char>> {
    match t {
        Some(s) => Some(s@),
        None => None,
    }
}

/// The row passes the query or there is no query.
pub open spec fn admits(query: Option<Seq<char>>, r: SongView) -> bool {
    query matches Some(q) ==> matches_query(r, q)
}

/// The row is one of the first `upto` rows, and the query admits it.
pub open spec fn admitted_before(
    rows: Seq<SongView>,
    query: Option<Seq<char>>,
    upto: int,
    r: SongView,
) -> bool {
    admits(query, r) && exists|k: int| 0 <= k < upto && #[trigger] rows[k] == r
}

/// The entry goes when a song's entries are dropped: it is an entry of that
/// song and, where a playlist is named, in that playlist.
pub open spec fn dropped(e: PlaylistEntry, playlist_id: Option<i64>, song_id: i64) -> bool {
    &&& e.song_id == song_id
    &&& playlist_id matches Some(p) ==> e.playlist_id == p
}

/// The entries that stay when those of a song go, from one playlist or from
/// all.
fn entries_without(entries: &Vec<PlaylistEntry>, playlist_id: Option<i64>, song_id: i64) -> (kept:
    Vec<PlaylistEntry>)
    ensures
        forall|e: PlaylistEntry|
            kept@.contains(e) <==> (entries@.contains(e) && !dropped(e, playlist_id, song_id)),
{
    let mut kept: Vec<PlaylistEntry> = Vec::new();
    let n: usize = entries.len();
    let mut i: usize = 0;
    while i < n
        invariant
            n == entries.len(),
            i <= n,
            forall|j: int|
                0 <= j < kept.len() ==> entries@.contains(#[trigger] kept[j]) && !dropped(
                    kept[j],
                    playlist_id,
                    song_id,
                ),
            forall|m: int|
                0 <= m < i && !dropped(#[trigger] entries[m], playlist_id, song_id)
                    ==> kept@.contains(entries[m]),
        decreases n - i,
    {
        let e: PlaylistEntry = entries[i];
        let goes: bool = e.song_id == song_id && match playlist_id {
            Some(p) => e.playlist_id == p,
            None => true,
        };
        if !goes {
            let ghost short = kept@;
            kept.push(e);
            proof {
                assert(entries@.contains(entries@[i as int]));
                assert forall|m: int|
                    0 <= m < i + 1 && !dropped(
                        #[trigger] entries[m],
                        playlist_id,
                        song_id,
                    ) implies kept@.contains(entries[m]) by {
                    if m < i {
                        let j = choose|j: int| 0 <= j < short.len() && short[j] == entries[m];
                        assert(kept@[j] == entries[m]);
                    } else {
                        assert(kept@[kept@.len() - 1] == entries[m]);
                    }
                }
            }
        }
        i = i + 1;
    }
    proof {
        assert forall|e: PlaylistEntry|
            kept@.contains(e) <==> (entries@.contains(e) && !dropped(
                e,
                playlist_id,
                song_id,
            )) by {
            if kept@.contains(e) {
                let j = choose|j: int| 0 <= j < kept@.len() && kept@[j] == e;
                assert(entries@.contains(kept[j]));
            }
            if entries@.contains(e) && !dropped(e, playlist_id, song_id) {
                let m = choose|m: int| 0 <= m < entries@.len() && entries@[m] == e;
                assert(kept@.contains(entries[m]));
            }
        }
    }
    kept
}

} // verus!
