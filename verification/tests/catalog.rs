use arch_music_player::error::LibraryError;
use arch_music_player::library::database::LibraryDatabase;
use arch_music_player::library::models::{Playlist, Song};
use arch_music_player::metadata::models::AudioMetadata;

fn tags(title: &str, artist: Option<&str>, album: Option<&str>, track: Option<i32>) -> AudioMetadata {
    let mut m = AudioMetadata::new();
    m.title = Some(title.to_string());
    m.artist = artist.map(|a| a.to_string());
    m.album = album.map(|a| a.to_string());
    m.track_number = track;
    m
}

fn titles(songs: &Vec<Song>) -> Vec<String> {
    songs.iter().map(|s| s.title.clone().unwrap_or_default()).collect()
}

#[test]
fn new_catalog_is_empty() {
    let db = LibraryDatabase::new();
    assert_eq!(db.song_count(), 0);
    assert!(db.get_all_songs().is_empty());
    assert!(db.get_all_albums().is_empty());
    assert!(db.get_all_artists().is_empty());
    assert!(db.get_all_playlists().is_empty());
    assert!(db.find_song("/music/a.mp3").is_none());
}

#[test]
fn add_song_makes_a_fresh_row() {
    let mut db = LibraryDatabase::new();
    let mut m = tags("Bohemian Rhapsody", Some("Queen"), Some("A Night at the Opera"), Some(11));
    m.duration = Some(354);
    m.file_size = Some(8_500_000);
    m.modified_time = Some(1_700_000_000);
    m.year = Some(1975);
    m.genre = Some("Rock".to_string());
    m.album_artist = Some("Queen".to_string());
    let id = db.add_song("/music/Queen/Bohemian Rhapsody.mp3", &m).unwrap();
    assert_eq!(id, 1);
    assert_eq!(db.song_count(), 1);
    let row = db.find_song("/music/Queen/Bohemian Rhapsody.mp3").unwrap();
    assert_eq!(row.id, Some(1));
    assert_eq!(row.path, "/music/Queen/Bohemian Rhapsody.mp3");
    assert_eq!(row.title.as_deref(), Some("Bohemian Rhapsody"));
    assert_eq!(row.artist.as_deref(), Some("Queen"));
    assert_eq!(row.album.as_deref(), Some("A Night at the Opera"));
    assert_eq!(row.album_artist.as_deref(), Some("Queen"));
    assert_eq!(row.genre.as_deref(), Some("Rock"));
    assert_eq!(row.year, Some(1975));
    assert_eq!(row.track_number, Some(11));
    assert_eq!(row.duration, Some(354));
    assert_eq!(row.file_size, Some(8_500_000));
    assert_eq!(row.modified_time, Some(1_700_000_000));
    assert_eq!(row.rating, 0);
    assert_eq!(row.play_count, 0);
    assert_eq!(row.last_played, None);
    assert!(!row.is_favorite);
}

#[test]
fn ids_rise_with_each_new_path() {
    let mut db = LibraryDatabase::new();
    assert_eq!(db.add_song("/m/a.mp3", &tags("A", None, None, None)), Ok(1));
    assert_eq!(db.add_song("/m/b.mp3", &tags("B", None, None, None)), Ok(2));
    assert_eq!(db.add_song("/m/a.mp3", &tags("A2", None, None, None)), Ok(1));
    assert_eq!(db.add_song("/m/c.mp3", &tags("C", None, None, None)), Ok(3));
    assert_eq!(db.song_count(), 3);
}

#[test]
fn ids_are_not_reused_after_removal() {
    let mut db = LibraryDatabase::new();
    assert_eq!(db.add_song("/m/a.mp3", &tags("A", None, None, None)), Ok(1));
    assert!(db.remove_song("/m/a.mp3"));
    assert_eq!(db.add_song("/m/a.mp3", &tags("A", None, None, None)), Ok(2));
}

#[test]
fn paths_stay_unique() {
    let mut db = LibraryDatabase::new();
    for round in 0..3 {
        for name in ["a", "b", "c", "a", "b"] {
            let path = format!("/m/{}.mp3", name);
            db.add_song(&path, &tags(&format!("{}{}", name, round), None, None, None)).unwrap();
        }
    }
    assert_eq!(db.song_count(), 3);
    let all = db.get_all_songs();
    let mut paths: Vec<String> = all.iter().map(|s| s.path.clone()).collect();
    paths.sort();
    paths.dedup();
    assert_eq!(paths.len(), 3);
}

#[test]
fn upsert_twice_is_upsert_once() {
    let mut once = LibraryDatabase::new();
    let mut twice = LibraryDatabase::new();
    let m = tags("Song", Some("Artist"), Some("Album"), Some(3));
    once.add_song("/m/s.flac", &m).unwrap();
    twice.add_song("/m/s.flac", &m).unwrap();
    twice.add_song("/m/s.flac", &m).unwrap();
    assert_eq!(once.song_count(), twice.song_count());
    let a = once.find_song("/m/s.flac").unwrap();
    let b = twice.find_song("/m/s.flac").unwrap();
    assert_eq!(a.id, b.id);
    assert_eq!(a.title, b.title);
    assert_eq!(a.artist, b.artist);
    assert_eq!(a.album, b.album);
    assert_eq!(a.track_number, b.track_number);
    assert_eq!(a.play_count, b.play_count);
}

#[test]
fn favorite_survives_rescan() {
    let mut db = LibraryDatabase::new();
    let id = db.add_song("/m/s.mp3", &tags("Old", Some("X"), None, None)).unwrap();
    assert_eq!(db.toggle_favorite(id), Ok(true));
    db.update_play_count(id, 1234).unwrap();
    let again = db.add_song("/m/s.mp3", &tags("New", Some("Y"), Some("Z"), Some(2))).unwrap();
    assert_eq!(again, id);
    let row = db.find_song("/m/s.mp3").unwrap();
    assert!(row.is_favorite);
    assert_eq!(row.play_count, 1);
    assert_eq!(row.last_played, Some(1234));
    assert_eq!(row.rating, 0);
    assert_eq!(row.title.as_deref(), Some("New"));
    assert_eq!(row.artist.as_deref(), Some("Y"));
    assert_eq!(row.album.as_deref(), Some("Z"));
    assert_eq!(row.track_number, Some(2));
}

#[test]
fn rescan_overwrites_tags_with_unknown() {
    let mut db = LibraryDatabase::new();
    db.add_song("/m/s.mp3", &tags("Old", Some("X"), Some("Y"), Some(1))).unwrap();
    db.add_song("/m/s.mp3", &tags("New", None, None, None)).unwrap();
    let row = db.find_song("/m/s.mp3").unwrap();
    assert_eq!(row.artist, None);
    assert_eq!(row.album, None);
    assert_eq!(row.track_number, None);
}

#[test]
fn add_song_rejects_sizes_that_cannot_be_stored() {
    let mut db = LibraryDatabase::new();
    let mut m = tags("Big", None, None, None);
    m.file_size = Some(u64::MAX);
    assert_eq!(db.add_song("/m/big.mp3", &m), Err(LibraryError::IoError));
    assert_eq!(db.song_count(), 0);
    let mut d = tags("Long", None, None, None);
    d.duration = Some(1u64 << 63);
    assert_eq!(db.add_song("/m/long.mp3", &d), Err(LibraryError::IoError));
    let mut ok = tags("Edge", None, None, None);
    ok.duration = Some(i64::MAX as u64);
    assert_eq!(db.add_song("/m/edge.mp3", &ok), Ok(1));
    assert_eq!(db.find_song("/m/edge.mp3").unwrap().duration, Some(i64::MAX));
}

#[test]
fn failed_upsert_leaves_existing_row() {
    let mut db = LibraryDatabase::new();
    db.add_song("/m/s.mp3", &tags("Kept", Some("A"), None, None)).unwrap();
    let mut bad = tags("Bad", None, None, None);
    bad.file_size = Some(u64::MAX);
    assert_eq!(db.add_song("/m/s.mp3", &bad), Err(LibraryError::IoError));
    assert_eq!(db.find_song("/m/s.mp3").unwrap().title.as_deref(), Some("Kept"));
}

#[test]
fn remove_song_is_quiet_when_absent() {
    let mut db = LibraryDatabase::new();
    db.add_song("/m/a.mp3", &tags("A", None, None, None)).unwrap();
    assert!(!db.remove_song("/m/zzz.mp3"));
    assert_eq!(db.song_count(), 1);
    assert!(db.remove_song("/m/a.mp3"));
    assert_eq!(db.song_count(), 0);
    assert!(!db.remove_song("/m/a.mp3"));
}

#[test]
fn remove_song_cascades_to_playlists() {
    let mut db = LibraryDatabase::new();
    let a = db.add_song("/m/a.mp3", &tags("A", None, None, None)).unwrap();
    let b = db.add_song("/m/b.mp3", &tags("B", None, None, None)).unwrap();
    let p = db.create_playlist("Mix", 10).unwrap();
    let q = db.create_playlist("Other", 11).unwrap();
    db.add_song_to_playlist(p, a, 0).unwrap();
    db.add_song_to_playlist(p, b, 1).unwrap();
    db.add_song_to_playlist(q, a, 5).unwrap();
    assert!(db.remove_song("/m/a.mp3"));
    assert_eq!(db.playlist_position(p, a), None);
    assert_eq!(db.playlist_position(q, a), None);
    assert_eq!(db.playlist_position(p, b), Some(1));
    assert!(db.find_song("/m/a.mp3").is_none());
    assert!(db.find_song("/m/b.mp3").is_some());
    assert_eq!(db.get_all_playlists(), vec!["Mix".to_string(), "Other".to_string()]);
}

#[test]
fn list_songs_orders_by_artist_album_track() {
    let mut db = LibraryDatabase::new();
    db.add_song("/m/1.mp3", &tags("t1", Some("Queen"), Some("Jazz"), Some(2))).unwrap();
    db.add_song("/m/2.mp3", &tags("t2", Some("Abba"), Some("Waterloo"), Some(1))).unwrap();
    db.add_song("/m/3.mp3", &tags("t3", Some("Queen"), Some("Jazz"), Some(1))).unwrap();
    db.add_song("/m/4.mp3", &tags("t4", Some("Queen"), Some("Innuendo"), Some(9))).unwrap();
    db.add_song("/m/5.mp3", &tags("t5", Some("Queen"), Some("Jazz"), None)).unwrap();
    db.add_song("/m/6.mp3", &tags("t6", Some("Queen"), None, Some(4))).unwrap();
    let listed = titles(&db.get_all_songs());
    assert_eq!(listed, vec!["t2", "t6", "t4", "t5", "t3", "t1"]);
}

#[test]
fn list_songs_puts_unknown_artist_first_every_time() {
    let mut db = LibraryDatabase::new();
    db.add_song("/m/1.mp3", &tags("known", Some("Zed"), None, None)).unwrap();
    db.add_song("/m/2.mp3", &tags("unknown-b", None, Some("B"), None)).unwrap();
    db.add_song("/m/3.mp3", &tags("unknown-a", None, Some("A"), None)).unwrap();
    db.add_song("/m/4.mp3", &tags("unknown-none", None, None, None)).unwrap();
    db.add_song("/m/5.mp3", &tags("aaa", Some("Aaa"), None, None)).unwrap();
    let first = titles(&db.get_all_songs());
    assert_eq!(first, vec!["unknown-none", "unknown-a", "unknown-b", "aaa", "known"]);
    for _ in 0..5 {
        assert_eq!(titles(&db.get_all_songs()), first);
    }
}

#[test]
fn list_songs_breaks_ties_by_row_age() {
    let mut db = LibraryDatabase::new();
    db.add_song("/m/z.mp3", &tags("first", Some("A"), Some("B"), Some(1))).unwrap();
    db.add_song("/m/a.mp3", &tags("second", Some("A"), Some("B"), Some(1))).unwrap();
    db.add_song("/m/m.mp3", &tags("third", Some("A"), Some("B"), Some(1))).unwrap();
    assert_eq!(titles(&db.get_all_songs()), vec!["first", "second", "third"]);
}

#[test]
fn list_songs_orders_text_by_code_point() {
    let mut db = LibraryDatabase::new();
    db.add_song("/m/1.mp3", &tags("lower", Some("abba"), None, None)).unwrap();
    db.add_song("/m/2.mp3", &tags("upper", Some("Zappa"), None, None)).unwrap();
    db.add_song("/m/3.mp3", &tags("prefix", Some("Zap"), None, None)).unwrap();
    db.add_song("/m/4.mp3", &tags("accent", Some("Émile"), None, None)).unwrap();
    assert_eq!(titles(&db.get_all_songs()), vec!["prefix", "upper", "lower", "accent"]);
}

#[test]
fn distinct_albums_and_artists_are_sorted() {
    let mut db = LibraryDatabase::new();
    db.add_song("/m/1.mp3", &tags("a", Some("Queen"), Some("Jazz"), None)).unwrap();
    db.add_song("/m/2.mp3", &tags("b", Some("Abba"), Some("Waterloo"), None)).unwrap();
    db.add_song("/m/3.mp3", &tags("c", Some("Queen"), Some("Innuendo"), None)).unwrap();
    db.add_song("/m/4.mp3", &tags("d", None, None, None)).unwrap();
    db.add_song("/m/5.mp3", &tags("e", Some("Abba"), Some("Jazz"), None)).unwrap();
    assert_eq!(db.get_all_albums(), vec!["Innuendo", "Jazz", "Waterloo"]);
    assert_eq!(db.get_all_artists(), vec!["Abba", "Queen"]);
}

#[test]
fn search_matches_title_artist_or_album_ignoring_case() {
    let mut db = LibraryDatabase::new();
    db.add_song("/m/1.mp3", &tags("Bohemian Rhapsody", Some("Queen"), Some("Opera"), None)).unwrap();
    db.add_song("/m/2.mp3", &tags("Dancing Queen", Some("Abba"), Some("Arrival"), None)).unwrap();
    db.add_song("/m/3.mp3", &tags("Waterloo", Some("Abba"), Some("Queen of Hearts"), None)).unwrap();
    db.add_song("/m/4.mp3", &tags("Other", Some("Nobody"), None, None)).unwrap();
    db.add_song("/m/5.mp3", &tags("queen", None, None, None)).unwrap();
    assert_eq!(
        titles(&db.search("QUEEN")),
        vec!["queen", "Dancing Queen", "Waterloo", "Bohemian Rhapsody"]
    );
    assert_eq!(titles(&db.search("rhaps")), vec!["Bohemian Rhapsody"]);
    assert!(db.search("zzz").is_empty());
    assert!(db.search("/m/1").is_empty());
}

#[test]
fn search_with_empty_text_skips_rows_without_text() {
    let mut db = LibraryDatabase::new();
    db.add_song("/m/1.mp3", &AudioMetadata::new()).unwrap();
    db.add_song("/m/2.mp3", &tags("T", None, None, None)).unwrap();
    assert_eq!(titles(&db.search("")), vec!["T"]);
    assert_eq!(db.get_all_songs().len(), 2);
}

#[test]
fn create_playlist_conflicts_on_same_name() {
    let mut db = LibraryDatabase::new();
    assert_eq!(db.create_playlist("Mix", 100), Ok(1));
    assert_eq!(db.create_playlist("Mix", 200), Err(LibraryError::Conflict));
    assert_eq!(db.create_playlist("mix", 300), Ok(2));
    assert_eq!(db.get_all_playlists(), vec!["Mix", "mix"]);
}

#[test]
fn playlists_are_listed_by_name() {
    let mut db = LibraryDatabase::new();
    db.create_playlist("Road", 1).unwrap();
    db.create_playlist("Calm", 2).unwrap();
    db.create_playlist("Party", 3).unwrap();
    assert_eq!(db.get_all_playlists(), vec!["Calm", "Party", "Road"]);
}

#[test]
fn add_song_to_playlist_is_an_upsert() {
    let mut db = LibraryDatabase::new();
    let s = db.add_song("/m/a.mp3", &tags("A", None, None, None)).unwrap();
    let p = db.create_playlist("Mix", 1).unwrap();
    assert_eq!(db.playlist_position(p, s), None);
    assert_eq!(db.add_song_to_playlist(p, s, 3), Ok(()));
    assert_eq!(db.playlist_position(p, s), Some(3));
    assert_eq!(db.add_song_to_playlist(p, s, 3), Ok(()));
    assert_eq!(db.playlist_position(p, s), Some(3));
    assert_eq!(db.add_song_to_playlist(p, s, 7), Ok(()));
    assert_eq!(db.playlist_position(p, s), Some(7));
}

#[test]
fn add_song_to_playlist_needs_both_parents() {
    let mut db = LibraryDatabase::new();
    let s = db.add_song("/m/a.mp3", &tags("A", None, None, None)).unwrap();
    let p = db.create_playlist("Mix", 1).unwrap();
    assert_eq!(db.add_song_to_playlist(p + 1, s, 0), Err(LibraryError::NotFound));
    assert_eq!(db.add_song_to_playlist(p, s + 1, 0), Err(LibraryError::NotFound));
    assert_eq!(db.playlist_position(p, s), None);
}

#[test]
fn update_play_count_counts_and_stamps() {
    let mut db = LibraryDatabase::new();
    let s = db.add_song("/m/a.mp3", &tags("A", None, None, None)).unwrap();
    assert_eq!(db.update_play_count(s, 1000), Ok(()));
    assert_eq!(db.update_play_count(s, 2000), Ok(()));
    let row = db.find_song("/m/a.mp3").unwrap();
    assert_eq!(row.play_count, 2);
    assert_eq!(row.last_played, Some(2000));
    assert_eq!(db.update_play_count(s + 1, 3000), Err(LibraryError::NotFound));
}

#[test]
fn toggle_favorite_flips_and_reports() {
    let mut db = LibraryDatabase::new();
    let s = db.add_song("/m/a.mp3", &tags("A", None, None, None)).unwrap();
    assert_eq!(db.toggle_favorite(s), Ok(true));
    assert!(db.find_song("/m/a.mp3").unwrap().is_favorite);
    assert_eq!(db.toggle_favorite(s), Ok(false));
    assert!(!db.find_song("/m/a.mp3").unwrap().is_favorite);
    assert_eq!(db.toggle_favorite(99), Err(LibraryError::NotFound));
}

#[test]
fn two_toggles_lose_no_update() {
    let mut db = LibraryDatabase::new();
    let s = db.add_song("/m/a.mp3", &tags("A", None, None, None)).unwrap();
    let shared = std::sync::Arc::new(std::sync::Mutex::new(db));
    let mut results = Vec::new();
    for _ in 0..2 {
        results.push(shared.lock().unwrap().toggle_favorite(s).unwrap());
    }
    results.sort();
    assert_eq!(results, vec![false, true]);
    assert!(!shared.lock().unwrap().find_song("/m/a.mp3").unwrap().is_favorite);
}

#[test]
fn song_new_knows_only_the_path() {
    let s = Song::new("/m/a.mp3");
    assert_eq!(s.path, "/m/a.mp3");
    assert_eq!(s.id, None);
    assert_eq!(s.title, None);
    assert_eq!(s.artist, None);
    assert_eq!(s.duration, None);
    assert_eq!(s.rating, 0);
    assert_eq!(s.play_count, 0);
    assert!(!s.is_favorite);
}

#[test]
fn song_from_metadata_takes_the_tags() {
    let mut m = tags("T", Some("Ar"), Some("Al"), Some(4));
    m.duration = Some(200);
    m.file_size = Some(u64::MAX);
    m.modified_time = Some(77);
    m.year = Some(1999);
    let s = Song::from_metadata("/m/t.ogg", &m);
    assert_eq!(s.path, "/m/t.ogg");
    assert_eq!(s.id, None);
    assert_eq!(s.title.as_deref(), Some("T"));
    assert_eq!(s.artist.as_deref(), Some("Ar"));
    assert_eq!(s.album.as_deref(), Some("Al"));
    assert_eq!(s.track_number, Some(4));
    assert_eq!(s.year, Some(1999));
    assert_eq!(s.duration, Some(200));
    assert_eq!(s.file_size, Some(-1));
    assert_eq!(s.modified_time, None);
    assert_eq!(s.play_count, 0);
}

#[test]
fn song_clone_copies_every_field() {
    let mut s = Song::new("/m/a.mp3");
    s.id = Some(4);
    s.title = Some("T".to_string());
    s.rating = 5;
    s.is_favorite = true;
    s.last_played = Some(9);
    let c = s.clone();
    assert_eq!(c.id, Some(4));
    assert_eq!(c.path, "/m/a.mp3");
    assert_eq!(c.title.as_deref(), Some("T"));
    assert_eq!(c.rating, 5);
    assert!(c.is_favorite);
    assert_eq!(c.last_played, Some(9));
}

#[test]
fn playlist_new_keeps_name_and_time() {
    let p = Playlist::new("Mix", 1_700_000_000);
    assert_eq!(p.id, None);
    assert_eq!(p.name, "Mix");
    assert_eq!(p.created_at, 1_700_000_000);
    let c = p.clone();
    assert_eq!(c.name, "Mix");
    assert_eq!(c.created_at, 1_700_000_000);
}

#[test]
fn every_error_has_its_message() {
    assert_eq!(LibraryError::NotFound.message(), "not found");
    assert_eq!(LibraryError::Conflict.message(), "a playlist of that name exists already");
    assert_eq!(LibraryError::IoError.message(), "the row cannot be stored");
    assert_eq!(LibraryError::InvalidIndex.message(), "index out of range");
    assert_eq!(LibraryError::TrackUnavailable.message(), "the track cannot be played");
    assert_eq!(LibraryError::InvalidState.message(), "not possible in the current state");
}
