use arch_music_player::audio::engine::AudioEngine;
use arch_music_player::audio::player::{AudioPlayer, TransportState, FULL_VOLUME};
use arch_music_player::error::LibraryError;
use arch_music_player::library::models::Song;

fn song(path: &str, duration: Option<i64>) -> Song {
    let mut s = Song::new(path);
    s.duration = duration;
    s
}

fn abc() -> Vec<Song> {
    vec![song("/m/A.mp3", Some(180)), song("/m/B.mp3", Some(200)), song("/m/C.mp3", None)]
}

fn current_path(p: &AudioPlayer) -> Option<String> {
    p.get_current_track().map(|s| s.path.clone())
}

#[test]
fn new_session_is_idle_at_full_volume() {
    let p = AudioPlayer::new();
    assert_eq!(p.state(), TransportState::Idle);
    assert_eq!(p.current_index(), None);
    assert!(p.get_current_track().is_none());
    assert!(!p.is_playing());
    assert_eq!(p.get_volume(), 1000);
    assert_eq!(FULL_VOLUME, 1000);
    assert_eq!(p.get_position(5), None);
    assert_eq!(p.get_duration(), None);
    assert!(p.get_songs().is_empty());
}

#[test]
fn queue_end_to_end_with_wraparound() {
    let mut p = AudioPlayer::new();
    p.load_queue(abc());
    assert_eq!(p.state(), TransportState::Idle);
    assert_eq!(p.play_index(0, true, 100), Ok(()));
    assert_eq!(p.state(), TransportState::Playing);
    assert_eq!(current_path(&p).as_deref(), Some("/m/A.mp3"));
    assert_eq!(p.next(true, 110), Ok(()));
    assert_eq!(current_path(&p).as_deref(), Some("/m/B.mp3"));
    assert_eq!(p.next(true, 120), Ok(()));
    assert_eq!(current_path(&p).as_deref(), Some("/m/C.mp3"));
    assert_eq!(p.next(true, 130), Ok(()));
    assert_eq!(current_path(&p).as_deref(), Some("/m/A.mp3"));
    assert_eq!(p.current_index(), Some(0));
    assert_eq!(p.state(), TransportState::Playing);
}

#[test]
fn next_wraps_from_last_to_first() {
    let mut p = AudioPlayer::new();
    p.load_queue(abc());
    p.play_index(2, true, 0).unwrap();
    assert_eq!(p.next_index(), Ok(0));
    p.next(true, 1).unwrap();
    assert_eq!(p.current_index(), Some(0));
}

#[test]
fn previous_wraps_from_first_to_last() {
    let mut p = AudioPlayer::new();
    p.load_queue(abc());
    p.play_index(0, true, 0).unwrap();
    assert_eq!(p.previous_index(), Ok(2));
    p.previous(true, 1).unwrap();
    assert_eq!(p.current_index(), Some(2));
    p.previous(true, 2).unwrap();
    assert_eq!(p.current_index(), Some(1));
}

#[test]
fn next_and_previous_start_at_the_front_when_nothing_is_selected() {
    let mut p = AudioPlayer::new();
    p.load_queue(abc());
    assert_eq!(p.next_index(), Ok(0));
    assert_eq!(p.previous_index(), Ok(0));
    p.previous(true, 0).unwrap();
    assert_eq!(p.current_index(), Some(0));
}

#[test]
fn next_on_empty_queue_is_invalid_state() {
    let mut p = AudioPlayer::new();
    assert_eq!(p.next(true, 0), Err(LibraryError::InvalidState));
    assert_eq!(p.previous(true, 0), Err(LibraryError::InvalidState));
    assert_eq!(p.next_index(), Err(LibraryError::InvalidState));
    assert_eq!(p.previous_index(), Err(LibraryError::InvalidState));
    assert_eq!(p.state(), TransportState::Idle);
}

#[test]
fn single_song_queue_wraps_onto_itself() {
    let mut p = AudioPlayer::new();
    p.load_queue(vec![song("/m/only.mp3", Some(10))]);
    p.play_index(0, true, 0).unwrap();
    p.next(true, 1).unwrap();
    assert_eq!(p.current_index(), Some(0));
    p.previous(true, 2).unwrap();
    assert_eq!(p.current_index(), Some(0));
}

#[test]
fn play_index_rejects_bad_index() {
    let mut p = AudioPlayer::new();
    p.load_queue(abc());
    assert_eq!(p.play_index(3, true, 0), Err(LibraryError::InvalidIndex));
    assert_eq!(p.play_index(usize::MAX, false, 0), Err(LibraryError::InvalidIndex));
    assert_eq!(p.state(), TransportState::Idle);
    assert_eq!(p.current_index(), None);
}

#[test]
fn unavailable_track_leaves_session_usable() {
    let mut p = AudioPlayer::new();
    p.load_queue(abc());
    p.play_index(0, true, 10).unwrap();
    assert_eq!(p.play_index(1, false, 20), Err(LibraryError::TrackUnavailable));
    assert_eq!(p.current_index(), Some(0));
    assert_eq!(p.state(), TransportState::Playing);
    assert_eq!(p.get_position(25), Some(15));
    assert_eq!(p.next(false, 30), Err(LibraryError::TrackUnavailable));
    assert_eq!(p.current_index(), Some(0));
    assert_eq!(p.play_index(2, true, 40), Ok(()));
    assert_eq!(p.current_index(), Some(2));
}

#[test]
fn track_at_names_the_file_to_load() {
    let mut p = AudioPlayer::new();
    p.load_queue(abc());
    assert_eq!(p.track_at(1).map(|s| s.path.clone()), Ok("/m/B.mp3".to_string()));
    assert_eq!(p.track_at(3).map(|s| s.path.clone()), Err(LibraryError::InvalidIndex));
}

#[test]
fn load_queue_replaces_and_clears() {
    let mut p = AudioPlayer::new();
    p.load_queue(abc());
    p.set_volume(400);
    p.play_index(1, true, 0).unwrap();
    p.load_queue(vec![song("/m/X.mp3", None)]);
    assert_eq!(p.state(), TransportState::Idle);
    assert_eq!(p.current_index(), None);
    assert_eq!(p.get_songs().len(), 1);
    assert_eq!(p.get_songs()[0].path, "/m/X.mp3");
    assert_eq!(p.get_volume(), 400);
    assert_eq!(p.get_position(99), None);
}

#[test]
fn add_songs_extends_the_queue() {
    let mut p = AudioPlayer::new();
    p.load_queue(abc());
    p.play_index(2, true, 0).unwrap();
    p.add_songs(vec![song("/m/D.mp3", None)]);
    assert_eq!(p.get_songs().len(), 4);
    assert_eq!(p.current_index(), Some(2));
    assert_eq!(p.next_index(), Ok(3));
}

#[test]
fn play_from_idle_is_invalid_state() {
    let mut p = AudioPlayer::new();
    assert_eq!(p.play(0), Err(LibraryError::InvalidState));
    assert_eq!(p.resume(0), Err(LibraryError::InvalidState));
    p.load_queue(abc());
    assert_eq!(p.play(0), Err(LibraryError::InvalidState));
    assert_eq!(p.pause(0), Err(LibraryError::InvalidState));
    assert_eq!(p.stop(), Err(LibraryError::InvalidState));
}

#[test]
fn play_while_playing_is_invalid_state() {
    let mut p = AudioPlayer::new();
    p.load_queue(abc());
    p.play_index(0, true, 0).unwrap();
    assert_eq!(p.play(5), Err(LibraryError::InvalidState));
    assert_eq!(p.get_position(10), Some(10));
}

#[test]
fn pause_freezes_and_resume_continues() {
    let mut p = AudioPlayer::new();
    p.load_queue(abc());
    p.play_index(0, true, 1000).unwrap();
    assert_eq!(p.get_position(1000), Some(0));
    assert_eq!(p.get_position(1042), Some(42));
    assert_eq!(p.pause(1042), Ok(()));
    assert_eq!(p.state(), TransportState::Paused);
    assert!(!p.is_playing());
    assert_eq!(p.get_position(1042), Some(42));
    assert_eq!(p.get_position(5000), Some(42));
    assert_eq!(p.pause(5000), Err(LibraryError::InvalidState));
    assert_eq!(p.resume(5000), Ok(()));
    assert_eq!(p.state(), TransportState::Playing);
    assert_eq!(p.get_position(5000), Some(42));
    assert_eq!(p.get_position(5010), Some(52));
}

#[test]
fn stop_goes_to_ready_at_zero() {
    let mut p = AudioPlayer::new();
    p.load_queue(abc());
    p.play_index(1, true, 0).unwrap();
    assert_eq!(p.stop(), Ok(()));
    assert_eq!(p.state(), TransportState::Ready);
    assert_eq!(p.current_index(), Some(1));
    assert_eq!(p.get_position(500), Some(0));
    assert_eq!(p.stop(), Err(LibraryError::InvalidState));
    assert_eq!(p.play(600), Ok(()));
    assert_eq!(p.get_position(607), Some(7));
    p.pause(607).unwrap();
    assert_eq!(p.stop(), Ok(()));
    assert_eq!(p.get_position(700), Some(0));
}

#[test]
fn position_is_capped_at_known_duration() {
    let mut p = AudioPlayer::new();
    p.load_queue(abc());
    p.play_index(0, true, 0).unwrap();
    assert_eq!(p.get_duration(), Some(180));
    assert_eq!(p.get_position(179), Some(179));
    assert_eq!(p.get_position(180), Some(180));
    assert_eq!(p.get_position(100_000), Some(180));
    p.pause(100_000).unwrap();
    assert_eq!(p.get_position(100_001), Some(180));
}

#[test]
fn position_is_uncapped_when_duration_unknown() {
    let mut p = AudioPlayer::new();
    p.load_queue(abc());
    p.play_index(2, true, 10).unwrap();
    assert_eq!(p.get_duration(), None);
    assert_eq!(p.get_position(1_000_010), Some(1_000_000));
    assert_eq!(p.get_position(u64::MAX), Some(u64::MAX - 10));
}

#[test]
fn position_does_not_go_back_with_the_clock() {
    let mut p = AudioPlayer::new();
    p.load_queue(abc());
    p.play_index(0, true, 100).unwrap();
    assert_eq!(p.get_position(50), Some(0));
}

#[test]
fn negative_duration_counts_as_unknown() {
    let mut p = AudioPlayer::new();
    p.load_queue(vec![song("/m/odd.mp3", Some(-4))]);
    p.play_index(0, true, 0).unwrap();
    assert_eq!(p.get_duration(), None);
    assert_eq!(p.seek(3, 0), Err(LibraryError::InvalidState));
}

#[test]
fn seek_clamps_into_the_track() {
    let mut p = AudioPlayer::new();
    p.load_queue(abc());
    p.play_index(0, true, 0).unwrap();
    assert_eq!(p.seek(-5, 10), Ok(0));
    assert_eq!(p.get_position(10), Some(0));
    assert_eq!(p.seek(9999, 20), Ok(180));
    assert_eq!(p.get_position(20), Some(180));
    assert_eq!(p.seek(60, 30), Ok(60));
    assert_eq!(p.get_position(30), Some(60));
    assert_eq!(p.get_position(45), Some(75));
    assert_eq!(p.seek(i64::MIN, 50), Ok(0));
    assert_eq!(p.seek(i64::MAX, 50), Ok(180));
    assert_eq!(p.seek(180, 50), Ok(180));
    assert_eq!(p.seek(0, 50), Ok(0));
}

#[test]
fn seek_while_paused_moves_the_frozen_position() {
    let mut p = AudioPlayer::new();
    p.load_queue(abc());
    p.play_index(1, true, 0).unwrap();
    p.pause(30).unwrap();
    assert_eq!(p.seek(120, 40), Ok(120));
    assert_eq!(p.state(), TransportState::Paused);
    assert_eq!(p.get_position(1000), Some(120));
    p.resume(1000).unwrap();
    assert_eq!(p.get_position(1010), Some(130));
}

#[test]
fn seek_needs_a_song_of_known_length() {
    let mut p = AudioPlayer::new();
    assert_eq!(p.seek(5, 0), Err(LibraryError::InvalidState));
    p.load_queue(abc());
    assert_eq!(p.seek(5, 0), Err(LibraryError::InvalidState));
    p.play_index(2, true, 0).unwrap();
    assert_eq!(p.seek(5, 1), Err(LibraryError::InvalidState));
    assert_eq!(p.get_position(3), Some(3));
}

#[test]
fn set_volume_clamps() {
    let mut p = AudioPlayer::new();
    assert_eq!(p.set_volume(500), 500);
    assert_eq!(p.get_volume(), 500);
    assert_eq!(p.set_volume(-1), 0);
    assert_eq!(p.get_volume(), 0);
    assert_eq!(p.set_volume(1001), 1000);
    assert_eq!(p.get_volume(), 1000);
    assert_eq!(p.set_volume(i32::MIN), 0);
    assert_eq!(p.set_volume(i32::MAX), 1000);
    assert_eq!(p.set_volume(0), 0);
    assert_eq!(p.set_volume(1000), 1000);
    assert_eq!(p.state(), TransportState::Idle);
}

#[test]
fn load_track_selects_one_song() {
    let mut p = AudioPlayer::new();
    p.load_queue(abc());
    p.play_index(1, true, 0).unwrap();
    assert_eq!(p.load_track(song("/m/X.mp3", Some(30)), false), Err(LibraryError::TrackUnavailable));
    assert_eq!(p.current_index(), Some(1));
    assert_eq!(p.get_songs().len(), 3);
    assert_eq!(p.load_track(song("/m/X.mp3", Some(30)), true), Ok(()));
    assert_eq!(p.state(), TransportState::Ready);
    assert_eq!(p.current_index(), Some(0));
    assert_eq!(current_path(&p).as_deref(), Some("/m/X.mp3"));
    assert_eq!(p.get_position(100), Some(0));
    assert_eq!(p.play(100), Ok(()));
    assert!(p.is_playing());
    assert_eq!(p.get_position(110), Some(10));
}

#[test]
fn engine_switches_succeed() {
    let mut e = AudioEngine::new();
    assert_eq!(e.initialize(), Ok(()));
    assert_eq!(e.create_pipeline("/m/a.mp3"), Ok(()));
    assert_eq!(e.enable_crossfade(2500), Ok(()));
}
