//! The catalog as a mathematical value, and what each operation makes of it.

use vstd::prelude::*;
use crate::library::models::{fresh_user_state, PlaylistView, SongView, UserState};
use crate::metadata::models::TagView;

verus! {

/// A song's place in a playlist. The pair of ids identifies the entry.
#[derive(Clone, Copy, Debug, PartialEq, Eq, Structural)]
pub struct PlaylistEntry {
    pub playlist_id: i64,
    pub song_id: i64,
    pub position: i32,
}

/// Everything the catalog holds.
pub struct CatalogView {
    /// The songs, oldest row first.
    pub songs: Seq<SongView>,
    /// The playlists, oldest first.
    pub playlists: Seq<PlaylistView>,
    pub entries: Set<PlaylistEntry>,
    /// The id that the next new song gets.
    pub next_song_id: i64,
    /// The id that the next new playlist gets.
    pub next_playlist_id: i64,
}

/// Some row has this path.
pub open spec fn has_path(songs: Seq<SongView>, path: Seq<char>) -> bool {
    exists|i: int| 0 <= i < songs.len() && (#[trigger] songs[i]).path == path
}

/// The place of a row with this path.
pub open spec fn index_of_path(songs: Seq<SongView>, path: Seq<char>) -> int {
    choose|i: int| 0 <= i < songs.len() && (#[trigger] songs[i]).path == path
}

/// Some row has this id.
pub open spec fn has_song(songs: Seq<SongView>, id: i64) -> bool {
    exists|i: int| 0 <= i < songs.len() && (#[trigger] songs[i]).id == Some(id)
}

/// The place of a row with this id.
pub open spec fn index_of_song(songs: Seq<SongView>, id: i64) -> int {
    choose|i: int| 0 <= i < songs.len() && (#[trigger] songs[i]).id == Some(id)
}

/// Some playlist has this id.
pub open spec fn has_playlist(playlists: Seq<PlaylistView>, id: i64) -> bool {
    exists|i: int| 0 <= i < playlists.len() && (#[trigger] playlists[i]).id == Some(id)
}

/// Some playlist has this name.
pub open spec fn has_playlist_name(playlists: Seq<PlaylistView>, name: Seq<char>) -> bool {
    exists|i: int| 0 <= i < playlists.len() && (#[trigger] playlists[i]).name == name
}

/// The entry is the one of this song in this playlist.
pub open spec fn entry_of(e: PlaylistEntry, playlist_id: i64, song_id: i64) -> bool {
    e.playlist_id == playlist_id && e.song_id == song_id
}

/// One more play, recorded at `now`. The count stops at `i32::MAX`.
pub open spec fn after_play(user: UserState, now: i64) -> UserState {
    UserState {
        play_count: if user.play_count < i32::MAX {
            (user.play_count + 1) as i32
        } else {
            user.play_count
        },
        last_played: Some(now),
        ..user
    }
}

/// The songs have positive ids below `next`, rising from row to row, and no
/// two have the same path.
pub open spec fn songs_in_order(songs: Seq<SongView>, next: i64) -> bool {
    &&& 1 <= next
    &&& forall|i: int|
        0 <= i < songs.len() ==> ((#[trigger] songs[i]).id matches Some(k) && 1 <= k < next)
    &&& forall|i: int, j: int|
        0 <= i < j < songs.len() ==> (#[trigger] songs[i]).id.unwrap() < (
        #[trigger] songs[j]).id.unwrap()
    &&& forall|i: int, j: int|
        0 <= i < j < songs.len() ==> (#[trigger] songs[i]).path != (#[trigger] songs[j]).path
}

/// The playlists have positive ids below `next`, rising from one to the next,
/// and no two have the same name.
pub open spec fn playlists_in_order(playlists: Seq<PlaylistView>, next: i64) -> bool {
    &&& 1 <= next
    &&& forall|i: int|
        0 <= i < playlists.len() ==> ((#[trigger] playlists[i]).id matches Some(k) && 1 <= k
            < next)
    &&& forall|i: int, j: int|
        0 <= i < j < playlists.len() ==> (#[trigger] playlists[i]).id.unwrap() < (
        #[trigger] playlists[j]).id.unwrap()
    &&& forall|i: int, j: int|
        0 <= i < j < playlists.len() ==> (#[trigger] playlists[i]).name != (
        #[trigger] playlists[j]).name
}

/// Every entry is of a song and a playlist that exist, and a song has at most
/// one entry in a playlist.
pub open spec fn entries_resolve(
    songs: Seq<SongView>,
    playlists: Seq<PlaylistView>,
    entries: Set<PlaylistEntry>,
) -> bool {
    &&& forall|e: PlaylistEntry| #[trigger]
        entries.contains(e) ==> has_song(songs, e.song_id) && has_playlist(
            playlists,
            e.playlist_id,
        )
    &&& forall|a: PlaylistEntry, b: PlaylistEntry|
        #![trigger entries.contains(a), entries.contains(b)]
        entries.contains(a) && entries.contains(b) && entry_of(b, a.playlist_id, a.song_id) ==> a
            == b
}

impl CatalogView {
    /// The catalog with nothing in it.
    pub open spec fn empty() -> CatalogView {
        CatalogView {
            songs: Seq::empty(),
            playlists: Seq::empty(),
            entries: Set::empty(),
            next_song_id: 1,
            next_playlist_id: 1,
        }
    }

    /// What holds of every catalog: ids are positive, were handed out in
    /// rising order and are below the next one; no two songs share a path, no
    /// two playlists a name; a song is in a playlist at most once, and both
    /// exist.
    pub open spec fn valid(self) -> bool {
        &&& songs_in_order(self.songs, self.next_song_id)
        &&& playlists_in_order(self.playlists, self.next_playlist_id)
        &&& entries_resolve(self.songs, self.playlists, self.entries)
    }

    /// A song with this path can be written: its row is there, or an id is
    /// left for a new one.
    pub open spec fn has_room_for(self, path: Seq<char>) -> bool {
        has_path(self.songs, path) || self.next_song_id < i64::MAX
    }

    /// The id under which a song at `path` is or would be kept: that of its
    /// row, or the next id where it has none.
    pub open spec fn id_for(self, path: Seq<char>) -> i64 {
        if has_path(self.songs, path) {
            self.songs[index_of_path(self.songs, path)].id.unwrap()
        } else {
            self.next_song_id
        }
    }

    /// The catalog after `tags` were written for `path`. An existing row takes
    /// the tags and keeps its id and what the listener recorded; otherwise a
    /// new row joins at the end, with the next id and a fresh listener state.
    pub open spec fn upsert(self, path: Seq<char>, tags: TagView) -> CatalogView {
        if has_path(self.songs, path) {
            let i = index_of_path(self.songs, path);
            CatalogView { songs: self.songs.update(i, SongView { tags, ..self.songs[i] }), ..self }
        } else {
            CatalogView {
                songs: self.songs.push(
                    SongView { id: Some(self.next_song_id), path, tags, user: fresh_user_state() },
                ),
                next_song_id: (self.next_song_id + 1) as i64,
                ..self
            }
        }
    }

    /// The catalog without the song at `path` and without that song's playlist
    /// entries. Nothing changes where no row has the path.
    pub open spec fn remove_song(self, path: Seq<char>) -> CatalogView {
        if has_path(self.songs, path) {
            let i = index_of_path(self.songs, path);
            let id = self.songs[i].id.unwrap();
            CatalogView {
                songs: self.songs.remove(i),
                entries: self.entries.filter(|e: PlaylistEntry| e.song_id != id),
                ..self
            }
        } else {
            self
        }
    }

    /// The catalog with the favorite mark of song `id` flipped. Nothing
    /// changes where no row has the id.
    pub open spec fn toggle_favorite(self, id: i64) -> CatalogView {
        if has_song(self.songs, id) {
            let i = index_of_song(self.songs, id);
            let row = self.songs[i];
            CatalogView {
                songs: self.songs.update(
                    i,
                    SongView {
                        user: UserState { is_favorite: !row.user.is_favorite, ..row.user },
                        ..row
                    },
                ),
                ..self
            }
        } else {
            self
        }
    }

    /// The catalog after song `id` was played at `now`. Nothing changes where
    /// no row has the id.
    pub open spec fn played(self, id: i64, now: i64) -> CatalogView {
        if has_song(self.songs, id) {
            let i = index_of_song(self.songs, id);
            let row = self.songs[i];
            CatalogView {
                songs: self.songs.update(i, SongView { user: after_play(row.user, now), ..row }),
                ..self
            }
        } else {
            self
        }
    }

    /// The catalog with one more playlist, which gets the next id.
    pub open spec fn with_playlist(self, name: Seq<char>, created_at: i64) -> CatalogView {
        CatalogView {
            playlists: self.playlists.push(
                PlaylistView { id: Some(self.next_playlist_id), name, created_at },
            ),
            next_playlist_id: (self.next_playlist_id + 1) as i64,
            ..self
        }
    }

    /// The catalog in which the song stands in the playlist at `position`,
    /// whether or not it stood there before.
    pub open spec fn with_entry(self, playlist_id: i64, song_id: i64, position: i32) -> CatalogView {
        CatalogView {
            entries: self.entries.filter(|e: PlaylistEntry| !entry_of(e, playlist_id, song_id)).insert(
                PlaylistEntry { playlist_id, song_id, position },
            ),
            ..self
        }
    }

    /// Where the song stands in the playlist, if it is in it.
    pub open spec fn position_in(self, playlist_id: i64, song_id: i64) -> Option<i32> {
        if exists|p: i32| self.entries.contains(PlaylistEntry { playlist_id, song_id, position: p }) {
            Some(
                choose|p: i32| self.entries.contains(PlaylistEntry { playlist_id, song_id, position: p }),
            )
        } else {
            None
        }
    }
}

/// In a valid catalog a path names one row: whoever finds a row with the path
/// has found the row that [`index_of_path`] gives.
pub proof fn lemma_path_index(c: CatalogView, path: Seq<char>, i: int)
    requires
        c.valid(),
        0 <= i < c.songs.len(),
        c.songs[i].path == path,
    ensures
        has_path(c.songs, path),
        index_of_path(c.songs, path) == i,
{
    let j = index_of_path(c.songs, path);
    if j < i {
        assert(c.songs[j].path != c.songs[i].path);
    } else if i < j {
        assert(c.songs[i].path != c.songs[j].path);
    }
}

/// In a valid catalog an id names one row.
pub proof fn lemma_song_index(c: CatalogView, id: i64, i: int)
    requires
        c.valid(),
        0 <= i < c.songs.len(),
        c.songs[i].id == Some(id),
    ensures
        has_song(c.songs, id),
        index_of_song(c.songs, id) == i,
{
    let j = index_of_song(c.songs, id);
    if j < i {
        assert(c.songs[j].id.unwrap() < c.songs[i].id.unwrap());
    } else if i < j {
        assert(c.songs[i].id.unwrap() < c.songs[j].id.unwrap());
    }
}

/// Rows that keep their ids keep every song findable by id.
proof fn lemma_same_ids(before: Seq<SongView>, after: Seq<SongView>, id: i64)
    requires
        has_song(before, id),
        before.len() <= after.len(),
        forall|i: int| 0 <= i < before.len() ==> (#[trigger] after[i]).id == before[i].id,
    ensures
        has_song(after, id),
{
    let k = index_of_song(before, id);
    assert(after[k].id == Some(id));
}

/// Writing tags keeps the catalog valid.
pub proof fn lemma_upsert_valid(c: CatalogView, path: Seq<char>, tags: TagView)
    requires
        c.valid(),
        c.has_room_for(path),
    ensures
        c.upsert(path, tags).valid(),
{
    let d = c.upsert(path, tags);
    assert forall|e: PlaylistEntry| #[trigger] d.entries.contains(e) implies has_song(
        d.songs,
        e.song_id,
    ) && has_playlist(d.playlists, e.playlist_id) by {
        lemma_same_ids(c.songs, d.songs, e.song_id);
    }
    if !has_path(c.songs, path) {
        assert forall|i: int, j: int| 0 <= i < j < d.songs.len() implies (#[trigger] d.songs[i]).path
            != (#[trigger] d.songs[j]).path by {
            if j == c.songs.len() {
                assert(c.songs[i].path != path);
            } else {
                assert(c.songs[i].path != c.songs[j].path);
            }
        }
    }
}

/// Removing a song keeps the catalog valid.
pub proof fn lemma_remove_song_valid(c: CatalogView, path: Seq<char>)
    requires
        c.valid(),
    ensures
        c.remove_song(path).valid(),
{
    if has_path(c.songs, path) {
        let d = c.remove_song(path);
        let i = index_of_path(c.songs, path);
        let id = c.songs[i].id.unwrap();
        assert forall|k: int| 0 <= k < d.songs.len() implies #[trigger] d.songs[k] == c.songs[if k
            < i {
            k
        } else {
            k + 1
        }] by {}
        assert forall|e: PlaylistEntry| #[trigger] d.entries.contains(e) implies has_song(
            d.songs,
            e.song_id,
        ) && has_playlist(d.playlists, e.playlist_id) by {
            let k = index_of_song(c.songs, e.song_id);
            assert(c.songs[k].id == Some(e.song_id));
            assert(k != i);
            if k < i {
                assert(d.songs[k].id == Some(e.song_id));
            } else {
                assert(d.songs[k - 1].id == Some(e.song_id));
            }
        }
        assert forall|a: int, b: int| 0 <= a < b < d.songs.len() implies (#[trigger] d.songs[a]).id.unwrap()
            < (#[trigger] d.songs[b]).id.unwrap() && d.songs[a].path != d.songs[b].path by {
            let a0 = if a < i { a } else { a + 1 };
            let b0 = if b < i { b } else { b + 1 };
            assert(d.songs[a] == c.songs[a0]);
            assert(d.songs[b] == c.songs[b0]);
            assert(c.songs[a0].id.unwrap() < c.songs[b0].id.unwrap());
            assert(c.songs[a0].path != c.songs[b0].path);
        }
    }
}

/// Flipping a favorite mark keeps the catalog valid.
pub proof fn lemma_toggle_favorite_valid(c: CatalogView, id: i64)
    requires
        c.valid(),
    ensures
        c.toggle_favorite(id).valid(),
{
    let d = c.toggle_favorite(id);
    assert forall|e: PlaylistEntry| #[trigger] d.entries.contains(e) implies has_song(
        d.songs,
        e.song_id,
    ) && has_playlist(d.playlists, e.playlist_id) by {
        lemma_same_ids(c.songs, d.songs, e.song_id);
    }
}

/// Recording a play keeps the catalog valid.
pub proof fn lemma_played_valid(c: CatalogView, id: i64, now: i64)
    requires
        c.valid(),
    ensures
        c.played(id, now).valid(),
{
    let d = c.played(id, now);
    assert forall|e: PlaylistEntry| #[trigger] d.entries.contains(e) implies has_song(
        d.songs,
        e.song_id,
    ) && has_playlist(d.playlists, e.playlist_id) by {
        lemma_same_ids(c.songs, d.songs, e.song_id);
    }
}

/// A playlist with a new name, while an id is left for it, keeps the catalog
/// valid.
pub proof fn lemma_with_playlist_valid(c: CatalogView, name: Seq<char>, created_at: i64)
    requires
        c.valid(),
        !has_playlist_name(c.playlists, name),
        c.next_playlist_id < i64::MAX,
    ensures
        c.with_playlist(name, created_at).valid(),
{
    let d = c.with_playlist(name, created_at);
    assert forall|e: PlaylistEntry| #[trigger] d.entries.contains(e) implies has_song(
        d.songs,
        e.song_id,
    ) && has_playlist(d.playlists, e.playlist_id) by {
        let k = choose|k: int|
            0 <= k < c.playlists.len() && (#[trigger] c.playlists[k]).id == Some(e.playlist_id);
        assert(d.playlists[k].id == Some(e.playlist_id));
    }
    assert forall|i: int, j: int| 0 <= i < j < d.playlists.len() implies (
    #[trigger] d.playlists[i]).name != (#[trigger] d.playlists[j]).name by {
        if j == c.playlists.len() {
            assert(c.playlists[i].name != name);
        } else {
            assert(c.playlists[i].name != c.playlists[j].name);
        }
    }
}

/// An entry for a song and a playlist that both exist keeps the catalog valid.
pub proof fn lemma_with_entry_valid(c: CatalogView, playlist_id: i64, song_id: i64, position: i32)
    requires
        c.valid(),
        has_song(c.songs, song_id),
        has_playlist(c.playlists, playlist_id),
    ensures
        c.with_entry(playlist_id, song_id, position).valid(),
{
}

/// No two rows of a valid catalog share a path, and no two share an id.
pub proof fn lemma_rows_distinct(c: CatalogView, i: int, j: int)
    requires
        c.valid(),
        0 <= i < c.songs.len(),
        0 <= j < c.songs.len(),
        i != j,
    ensures
        c.songs[i].path != c.songs[j].path,
        c.songs[i].id != c.songs[j].id,
{
    if i < j {
        assert(c.songs[i].id.unwrap() < c.songs[j].id.unwrap());
    } else {
        assert(c.songs[j].id.unwrap() < c.songs[i].id.unwrap());
        assert(c.songs[j].path != c.songs[i].path);
    }
}

/// Writing the same tags for the same path a second time changes nothing.
pub proof fn lemma_upsert_idempotent(c: CatalogView, path: Seq<char>, tags: TagView)
    requires
        c.valid(),
        c.has_room_for(path),
    ensures
        c.upsert(path, tags).has_room_for(path),
        c.upsert(path, tags).upsert(path, tags) == c.upsert(path, tags),
{
    let d = c.upsert(path, tags);
    lemma_upsert_valid(c, path, tags);
    let i = if has_path(c.songs, path) {
        index_of_path(c.songs, path)
    } else {
        c.songs.len() as int
    };
    assert(d.songs[i].path == path);
    lemma_path_index(d, path, i);
    assert(d.upsert(path, tags).songs =~= d.songs);
}

/// Writing tags for a path that the catalog has leaves the row where it was,
/// with its id and with what the listener recorded: rating, play count, last
/// play and favorite mark. A song marked as a favorite is still one after its
/// file was indexed again.
pub proof fn lemma_upsert_keeps_user_state(c: CatalogView, path: Seq<char>, tags: TagView)
    requires
        c.valid(),
        has_path(c.songs, path),
    ensures
        has_path(c.upsert(path, tags).songs, path),
        index_of_path(c.upsert(path, tags).songs, path) == index_of_path(c.songs, path),
        ({
            let i = index_of_path(c.songs, path);
            let row = c.upsert(path, tags).songs[i];
            &&& row.user == c.songs[i].user
            &&& row.id == c.songs[i].id
            &&& row.tags == tags
        }),
        c.upsert(path, tags).songs.len() == c.songs.len(),
{
    let d = c.upsert(path, tags);
    lemma_upsert_valid(c, path, tags);
    let i = index_of_path(c.songs, path);
    assert(d.songs[i].path == path);
    lemma_path_index(d, path, i);
}

/// Writing tags for one path leaves every row of another path as it was.
pub proof fn lemma_upsert_keeps_other_rows(
    c: CatalogView,
    path: Seq<char>,
    tags: TagView,
    other: Seq<char>,
)
    requires
        c.valid(),
        c.has_room_for(path),
        other != path,
    ensures
        has_path(c.upsert(path, tags).songs, other) == has_path(c.songs, other),
        has_path(c.songs, other) ==> c.upsert(path, tags).songs[index_of_path(
            c.upsert(path, tags).songs,
            other,
        )] == c.songs[index_of_path(c.songs, other)],
{
    let d = c.upsert(path, tags);
    lemma_upsert_valid(c, path, tags);
    if has_path(c.songs, other) {
        let k = index_of_path(c.songs, other);
        assert(d.songs[k] == c.songs[k]);
        lemma_path_index(d, other, k);
    }
    if has_path(d.songs, other) {
        let k = index_of_path(d.songs, other);
        assert(k < c.songs.len());
        assert(c.songs[k].path == other);
    }
}

/// Removing a song takes its row and every playlist entry of it, and nothing
/// else: the other rows stay in their order, and so do the entries of other
/// songs.
pub proof fn lemma_remove_song_cascades(c: CatalogView, path: Seq<char>)
    requires
        c.valid(),
        has_path(c.songs, path),
    ensures
        ({
            let i = index_of_path(c.songs, path);
            let id = c.songs[i].id.unwrap();
            let d = c.remove_song(path);
            &&& !has_path(d.songs, path)
            &&& !has_song(d.songs, id)
            &&& d.songs == c.songs.take(i) + c.songs.skip(i + 1)
            &&& forall|e: PlaylistEntry|
                d.entries.contains(e) <==> (c.entries.contains(e) && e.song_id != id)
            &&& d.playlists == c.playlists
        }),
{
    let i = index_of_path(c.songs, path);
    let id = c.songs[i].id.unwrap();
    let d = c.remove_song(path);
    assert(d.songs =~= c.songs.take(i) + c.songs.skip(i + 1));
    assert forall|k: int| 0 <= k < d.songs.len() implies (#[trigger] d.songs[k]).path != path
        && d.songs[k].id != Some(id) by {
        let k0 = if k < i { k } else { k + 1 };
        assert(d.songs[k] == c.songs[k0]);
        lemma_rows_distinct(c, k0, i);
    }
}

/// Flipping the favorite mark of a song twice gives back the catalog as it
/// was: of two flips none is lost, whichever comes first.
pub proof fn lemma_toggle_twice(c: CatalogView, id: i64)
    requires
        c.valid(),
    ensures
        c.toggle_favorite(id).toggle_favorite(id) == c,
{
    if has_song(c.songs, id) {
        let i = index_of_song(c.songs, id);
        let d = c.toggle_favorite(id);
        lemma_toggle_favorite_valid(c, id);
        assert(d.songs[i].id == Some(id));
        lemma_song_index(d, id, i);
        assert(d.toggle_favorite(id).songs =~= c.songs);
    }
}

} // verus!
