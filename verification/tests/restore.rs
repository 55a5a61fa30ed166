use arch_music_player::error::LibraryError;
use arch_music_player::library::catalog::PlaylistEntry;
use arch_music_player::library::database::LibraryDatabase;
use arch_music_player::library::models::{Playlist, Song};
use arch_music_player::metadata::models::AudioMetadata;

fn row(id: Option<i64>, path: &str) -> Song {
    let mut s = Song::new(path);
    s.id = id;
    s
}

fn list(id: Option<i64>, name: &str) -> Playlist {
    let mut p = Playlist::new(name, 5);
    p.id = id;
    p
}

fn entry(playlist_id: i64, song_id: i64, position: i32) -> PlaylistEntry {
    PlaylistEntry { playlist_id, song_id, position }
}

fn is_io_error(r: Result<LibraryDatabase, LibraryError>) -> bool {
    matches!(r, Err(LibraryError::IoError))
}

#[test]
fn restore_round_trip() {
    let mut db = LibraryDatabase::new();
    let mut m = AudioMetadata::new();
    m.title = Some("A".to_string());
    let a = db.add_song("/m/a.mp3", &m).unwrap();
    let b = db.add_song("/m/b.mp3", &m).unwrap();
    db.remove_song("/m/a.mp3");
    let c = db.add_song("/m/c.mp3", &m).unwrap();
    db.toggle_favorite(c).unwrap();
    let p = db.create_playlist("Mix", 9).unwrap();
    db.add_song_to_playlist(p, b, 2).unwrap();
    db.add_song_to_playlist(p, c, 1).unwrap();
    assert_eq!((a, b, c), (1, 2, 3));
    let back = LibraryDatabase::restore(
        db.song_rows().clone(),
        db.playlist_rows().clone(),
        db.playlist_entries().clone(),
        db.next_song_id(),
        db.next_playlist_id(),
    )
    .unwrap();
    assert_eq!(back.song_count(), 2);
    assert_eq!(back.next_song_id(), 4);
    assert_eq!(back.next_playlist_id(), 2);
    assert!(back.find_song("/m/c.mp3").unwrap().is_favorite);
    assert_eq!(back.playlist_position(p, b), Some(2));
    assert_eq!(back.playlist_position(p, c), Some(1));
    assert_eq!(back.get_all_playlists(), vec!["Mix"]);
    let mut again = back;
    assert_eq!(again.add_song("/m/d.mp3", &m), Ok(4));
    assert_eq!(again.create_playlist("Mix", 1), Err(LibraryError::Conflict));
}

#[test]
fn restore_of_nothing_is_the_empty_catalog() {
    let db = LibraryDatabase::restore(Vec::new(), Vec::new(), Vec::new(), 1, 1).unwrap();
    assert_eq!(db.song_count(), 0);
    assert_eq!(db.next_song_id(), 1);
    assert!(db.playlist_rows().is_empty());
    assert!(db.playlist_entries().is_empty());
    assert!(db.song_rows().is_empty());
}

#[test]
fn restore_rejects_bad_song_ids() {
    assert!(is_io_error(LibraryDatabase::restore(vec![row(None, "/a")], vec![], vec![], 5, 1)));
    assert!(is_io_error(LibraryDatabase::restore(vec![row(Some(0), "/a")], vec![], vec![], 5, 1)));
    assert!(is_io_error(LibraryDatabase::restore(vec![row(Some(5), "/a")], vec![], vec![], 5, 1)));
    assert!(is_io_error(LibraryDatabase::restore(
        vec![row(Some(2), "/a"), row(Some(1), "/b")],
        vec![],
        vec![],
        5,
        1
    )));
    assert!(is_io_error(LibraryDatabase::restore(
        vec![row(Some(2), "/a"), row(Some(2), "/b")],
        vec![],
        vec![],
        5,
        1
    )));
    assert!(is_io_error(LibraryDatabase::restore(vec![], vec![], vec![], 0, 1)));
    assert!(is_io_error(LibraryDatabase::restore(vec![], vec![], vec![], 1, 0)));
    assert!(LibraryDatabase::restore(
        vec![row(Some(1), "/a"), row(Some(4), "/b")],
        vec![],
        vec![],
        5,
        1
    )
    .is_ok());
}

#[test]
fn restore_rejects_shared_paths_and_names() {
    assert!(is_io_error(LibraryDatabase::restore(
        vec![row(Some(1), "/a"), row(Some(2), "/b"), row(Some(3), "/a")],
        vec![],
        vec![],
        9,
        1
    )));
    assert!(is_io_error(LibraryDatabase::restore(
        vec![],
        vec![list(Some(1), "x"), list(Some(2), "x")],
        vec![],
        1,
        9
    )));
    assert!(is_io_error(LibraryDatabase::restore(vec![], vec![list(None, "x")], vec![], 1, 9)));
    assert!(is_io_error(LibraryDatabase::restore(
        vec![],
        vec![list(Some(3), "x"), list(Some(2), "y")],
        vec![],
        1,
        9
    )));
}

#[test]
fn restore_rejects_dangling_and_double_entries() {
    let songs = || vec![row(Some(1), "/a"), row(Some(2), "/b")];
    let lists = || vec![list(Some(1), "x")];
    assert!(is_io_error(LibraryDatabase::restore(songs(), lists(), vec![entry(1, 3, 0)], 9, 9)));
    assert!(is_io_error(LibraryDatabase::restore(songs(), lists(), vec![entry(2, 1, 0)], 9, 9)));
    assert!(is_io_error(LibraryDatabase::restore(
        songs(),
        lists(),
        vec![entry(1, 1, 0), entry(1, 2, 0), entry(1, 1, 4)],
        9,
        9
    )));
    let same_twice =
        LibraryDatabase::restore(songs(), lists(), vec![entry(1, 1, 7), entry(1, 1, 7)], 9, 9)
            .unwrap();
    assert_eq!(same_twice.playlist_position(1, 1), Some(7));
    let mut ok = LibraryDatabase::restore(
        songs(),
        lists(),
        vec![entry(1, 1, 0), entry(1, 2, 0)],
        9,
        9,
    )
    .unwrap();
    assert!(ok.remove_song("/a"));
    assert_eq!(ok.playlist_position(1, 1), None);
    assert_eq!(ok.playlist_position(1, 2), Some(0));
}

#[test]
fn no_id_left_for_a_new_song() {
    let mut db = LibraryDatabase::restore(
        vec![row(Some(7), "/m/old.mp3")],
        Vec::new(),
        Vec::new(),
        i64::MAX,
        1,
    )
    .unwrap();
    let mut m = AudioMetadata::new();
    m.title = Some("T".to_string());
    assert_eq!(db.add_song("/m/new.mp3", &m), Err(LibraryError::IoError));
    assert_eq!(db.song_count(), 1);
    assert_eq!(db.add_song("/m/old.mp3", &m), Ok(7));
    assert_eq!(db.find_song("/m/old.mp3").unwrap().title.as_deref(), Some("T"));
    assert_eq!(db.next_song_id(), i64::MAX);
}

#[test]
fn last_song_id_is_handed_out() {
    let mut db =
        LibraryDatabase::restore(Vec::new(), Vec::new(), Vec::new(), i64::MAX - 1, 1).unwrap();
    let m = AudioMetadata::new();
    assert_eq!(db.add_song("/m/a.mp3", &m), Ok(i64::MAX - 1));
    assert_eq!(db.add_song("/m/b.mp3", &m), Err(LibraryError::IoError));
}

#[test]
fn no_id_left_for_a_new_playlist() {
    let mut db = LibraryDatabase::restore(
        Vec::new(),
        vec![list(Some(3), "Mix")],
        Vec::new(),
        1,
        i64::MAX,
    )
    .unwrap();
    assert_eq!(db.create_playlist("New", 1), Err(LibraryError::IoError));
    assert_eq!(db.create_playlist("Mix", 1), Err(LibraryError::Conflict));
    assert_eq!(db.get_all_playlists(), vec!["Mix"]);
}

#[test]
fn play_count_stops_at_the_top() {
    let mut full = row(Some(1), "/m/a.mp3");
    full.play_count = i32::MAX;
    let mut near = row(Some(2), "/m/b.mp3");
    near.play_count = i32::MAX - 1;
    let mut db = LibraryDatabase::restore(vec![full, near], Vec::new(), Vec::new(), 3, 1).unwrap();
    assert_eq!(db.update_play_count(1, 50), Ok(()));
    assert_eq!(db.update_play_count(2, 60), Ok(()));
    let a = db.find_song("/m/a.mp3").unwrap();
    let b = db.find_song("/m/b.mp3").unwrap();
    assert_eq!(a.play_count, i32::MAX);
    assert_eq!(a.last_played, Some(50));
    assert_eq!(b.play_count, i32::MAX);
    assert_eq!(b.last_played, Some(60));
}
