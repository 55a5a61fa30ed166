use arch_music_player::metadata::models::{to_signed, AudioMetadata};
use arch_music_player::metadata::tag_reader::{
    create_song_from_path, extract_album_art, extract_lyrics, file_stem, is_audio_file,
    read_metadata,
};
use arch_music_player::text::{contains_ignore_case, fold, text_rank, Rank};

#[test]
fn new_metadata_is_blank() {
    let m = AudioMetadata::new();
    assert!(m.title.is_none() && m.artist.is_none() && m.album.is_none());
    assert!(m.album_artist.is_none() && m.genre.is_none() && m.year.is_none());
    assert!(m.track_number.is_none() && m.total_tracks.is_none() && m.disc_number.is_none());
    assert!(m.total_discs.is_none() && m.duration.is_none() && m.bitrate.is_none());
    assert!(m.sample_rate.is_none() && m.file_size.is_none() && m.modified_time.is_none());
    assert!(m.lyrics.is_none() && m.album_art.is_none());
    let d = AudioMetadata::default();
    assert!(d.title.is_none() && d.duration.is_none() && d.album_art.is_none());
}

#[test]
fn storable_checks_length_and_size() {
    let mut m = AudioMetadata::new();
    assert!(m.is_storable());
    m.duration = Some(i64::MAX as u64);
    m.file_size = Some(0);
    assert!(m.is_storable());
    m.file_size = Some(i64::MAX as u64 + 1);
    assert!(!m.is_storable());
    m.file_size = None;
    m.duration = Some(u64::MAX);
    assert!(!m.is_storable());
}

#[test]
fn to_signed_keeps_the_bits() {
    assert_eq!(to_signed(0), 0);
    assert_eq!(to_signed(180), 180);
    assert_eq!(to_signed(i64::MAX as u64), i64::MAX);
    assert_eq!(to_signed(i64::MAX as u64 + 1), i64::MIN);
    assert_eq!(to_signed(u64::MAX), -1);
    assert_eq!(to_signed(u64::MAX - 9), -10);
}

#[test]
fn audio_extensions_are_recognised() {
    for ext in [
        "mp3", "flac", "ogg", "oga", "wav", "m4a", "aac", "wma", "ape", "mpc", "tta", "wv",
        "opus", "m4p",
    ] {
        assert!(is_audio_file(&format!("/music/song.{}", ext)), "{}", ext);
        assert!(is_audio_file(&format!("/music/song.{}", ext.to_uppercase())), "{}", ext);
    }
}

#[test]
fn audio_extension_is_case_insensitive() {
    assert!(is_audio_file("a.Mp3"));
    assert!(is_audio_file("a.FLAC"));
    assert!(is_audio_file("/x/y.z/a.oPuS"));
}

#[test]
fn other_files_are_not_audio() {
    assert!(!is_audio_file("/music/cover.jpg"));
    assert!(!is_audio_file("/music/song.mp33"));
    assert!(!is_audio_file("/music/song.mp"));
    assert!(!is_audio_file("/music/song"));
    assert!(!is_audio_file("/music/song."));
    assert!(!is_audio_file("/music/.mp3"));
    assert!(!is_audio_file("/music.mp3/song"));
    assert!(!is_audio_file("/music/song.mp3/.."));
    assert!(!is_audio_file("/music/song.mp3/x"));
    assert!(!is_audio_file("mp3"));
    assert!(!is_audio_file(""));
    assert!(!is_audio_file("/music/song.mp3.txt"));
    assert!(!is_audio_file("/music/song.m\u{212A}3"));
}

#[test]
fn hidden_files_with_an_extension_are_audio() {
    assert!(is_audio_file("/music/.hidden.mp3"));
    assert!(is_audio_file("/music/a.b.c.wav"));
    assert!(is_audio_file("..mp3"));
}

#[test]
fn file_stem_drops_directory_and_extension() {
    assert_eq!(file_stem("/music/Queen/Bohemian Rhapsody.mp3").as_deref(), Some("Bohemian Rhapsody"));
    assert_eq!(file_stem("song.tar.gz").as_deref(), Some("song.tar"));
    assert_eq!(file_stem("/m/.hidden").as_deref(), Some(".hidden"));
    assert_eq!(file_stem("/m/noext").as_deref(), Some("noext"));
    assert_eq!(file_stem("/m/dot.").as_deref(), Some("dot"));
    assert_eq!(file_stem("/m/dir/").as_deref(), Some("dir"));
    assert_eq!(file_stem(""), None);
    assert_eq!(file_stem("/m/Émile – été.flac").as_deref(), Some("Émile – été"));
}

#[test]
fn read_metadata_falls_back_on_the_file_name() {
    let m = read_metadata("/music/Queen/Bohemian Rhapsody.mp3", Some(4096), Some(1_700_000_000));
    assert_eq!(m.title.as_deref(), Some("Bohemian Rhapsody"));
    assert_eq!(m.artist.as_deref(), Some("Unknown Artist"));
    assert_eq!(m.album.as_deref(), Some("Unknown Album"));
    assert_eq!(m.genre.as_deref(), Some("Unknown"));
    assert_eq!(m.year, Some(2023));
    assert_eq!(m.track_number, Some(1));
    assert_eq!(m.duration, Some(180));
    assert_eq!(m.file_size, Some(4096));
    assert_eq!(m.modified_time, Some(1_700_000_000));
    assert!(m.album_artist.is_none() && m.lyrics.is_none() && m.album_art.is_none());
    assert!(m.total_tracks.is_none() && m.bitrate.is_none() && m.sample_rate.is_none());
}

#[test]
fn read_metadata_never_fails() {
    let m = read_metadata("", None, None);
    assert_eq!(m.title, None);
    assert_eq!(m.file_size, None);
    assert_eq!(m.modified_time, None);
    assert_eq!(m.artist.as_deref(), Some("Unknown Artist"));
}

#[test]
fn lyrics_and_art_come_from_the_record() {
    let mut m = AudioMetadata::new();
    assert_eq!(extract_lyrics(&m), None);
    assert_eq!(extract_album_art(&m), None);
    m.lyrics = Some("la la".to_string());
    m.album_art = Some(vec![1, 2, 3]);
    assert_eq!(extract_lyrics(&m).as_deref(), Some("la la"));
    assert_eq!(extract_album_art(&m), Some(vec![1, 2, 3]));
}

#[test]
fn song_from_path_splits_title_and_artist() {
    let s = create_song_from_path("/music/Opera/Bohemian Rhapsody - Queen.mp3").unwrap();
    assert_eq!(s.path, "/music/Opera/Bohemian Rhapsody - Queen.mp3");
    assert_eq!(s.title.as_deref(), Some("Bohemian Rhapsody"));
    assert_eq!(s.artist.as_deref(), Some("Queen"));
    assert_eq!(s.album.as_deref(), Some("Opera"));
    assert_eq!(s.duration, None);
    assert_eq!(s.id, None);
}

#[test]
fn song_from_path_without_separator() {
    let s = create_song_from_path("/music/Jazz/Track01.flac").unwrap();
    assert_eq!(s.title.as_deref(), Some("Track01"));
    assert_eq!(s.artist.as_deref(), Some("Unknown Artist"));
    assert_eq!(s.album.as_deref(), Some("Jazz"));
    let bare = create_song_from_path("Track-02.ogg").unwrap();
    assert_eq!(bare.title.as_deref(), Some("Track-02"));
    assert_eq!(bare.album.as_deref(), Some("Unknown Album"));
    let top = create_song_from_path("/top.ogg").unwrap();
    assert_eq!(top.album.as_deref(), Some("Unknown Album"));
}

#[test]
fn song_from_path_with_more_separators() {
    let s = create_song_from_path("/m/Al/One - Two - Three - Four.mp3").unwrap();
    assert_eq!(s.title.as_deref(), Some("One"));
    assert_eq!(s.artist.as_deref(), Some("Two"));
    let t = create_song_from_path("/m/Al/ - .mp3").unwrap();
    assert_eq!(t.title.as_deref(), Some(""));
    assert_eq!(t.artist.as_deref(), Some(""));
    let u = create_song_from_path("/m/Al/A - B - .mp3").unwrap();
    assert_eq!(u.artist.as_deref(), Some("B"));
    let v = create_song_from_path("/m/Al/A -  - B.mp3").unwrap();
    assert_eq!(v.title.as_deref(), Some("A"));
    assert_eq!(v.artist.as_deref(), Some(""));
}

#[test]
fn song_from_path_needs_a_file_name() {
    assert!(create_song_from_path("").is_none());
    assert!(create_song_from_path("/").is_none());
    assert!(create_song_from_path(".").is_none());
    assert!(create_song_from_path("/music/..").is_none());
}

#[test]
fn song_from_path_passes_over_trailing_separators() {
    let s = create_song_from_path("/music/dir/").unwrap();
    assert_eq!(s.path, "/music/dir/");
    assert_eq!(s.title.as_deref(), Some("dir"));
    assert_eq!(s.artist.as_deref(), Some("Unknown Artist"));
    assert_eq!(s.album.as_deref(), Some("music"));
    let t = create_song_from_path("a//b.mp3").unwrap();
    assert_eq!(t.title.as_deref(), Some("b"));
    assert_eq!(t.album.as_deref(), Some("a"));
    let u = create_song_from_path("./b.mp3").unwrap();
    assert_eq!(u.album.as_deref(), Some("Unknown Album"));
    let v = create_song_from_path("x/./b.mp3").unwrap();
    assert_eq!(v.album.as_deref(), Some("x"));
    let w = create_song_from_path("../b.mp3").unwrap();
    assert_eq!(w.album.as_deref(), Some("Unknown Album"));
}

#[test]
fn trailing_separators_and_dot_parts_do_not_count() {
    assert!(is_audio_file("/music/song.mp3/"));
    assert!(is_audio_file("/music/song.mp3//"));
    assert!(is_audio_file("/music/song.mp3/."));
    assert!(is_audio_file("/music/song.mp3/./"));
    assert!(is_audio_file("song.flac/.//"));
    assert!(!is_audio_file("/music/song.mp3/.."));
    assert!(!is_audio_file("."));
    assert!(!is_audio_file(".."));
    assert!(!is_audio_file("/"));
    assert!(!is_audio_file("./"));
    assert_eq!(file_stem("foo.txt/.").as_deref(), Some("foo"));
    assert_eq!(file_stem("foo.txt/.//").as_deref(), Some("foo"));
    assert_eq!(file_stem("foo.txt/.."), None);
    assert_eq!(file_stem("/"), None);
    assert_eq!(file_stem("//"), None);
    assert_eq!(file_stem("."), None);
    assert_eq!(file_stem("./"), None);
    assert_eq!(file_stem("./."), None);
    assert_eq!(file_stem("/."), None);
    assert_eq!(file_stem(".."), None);
    assert_eq!(file_stem("...").as_deref(), Some(".."));
    assert_eq!(file_stem("..a").as_deref(), Some("."));
    assert_eq!(file_stem("./a").as_deref(), Some("a"));
    assert_eq!(file_stem("/usr/bin/").as_deref(), Some("bin"));
}

fn tricky_paths() -> Vec<&'static str> {
    vec![
        "", "/", "//", ".", "..", "./", "../", "/.", "/..", "./.", "a", "a/", "a//", "a/.",
        "a/./", "a/..", "a/../", "/a", "/a/b", "/a/b/", "/a//b", "a//b.mp3", "a/./b.mp3",
        "./b.mp3", "../b.mp3", ".hidden", ".hidden.mp3", "..mp3", "...", "..a", "a.", "a.b.",
        "a.b.c", "x/.y", "x/y.", "x/.y/", "x/y.z/.", "x/y.z/..", "/music/song.mp3/",
        "/music/song.MP3//./", "/m/dir/", "/m/One - Two.flac", "/m/Al bum/A - B - C.ogg/",
        "song.Opus", "song.mp3.txt", "/music.mp3/song", "/a/b/../c.wav", "/.mp3", "/..mp3/",
        "a/b/./.", "./a/.", "././a.wma", "été/Émile.m4a/",
    ]
}

#[test]
fn file_stem_agrees_with_the_standard_path() {
    for p in tricky_paths() {
        let expected = std::path::Path::new(p).file_stem().and_then(|s| s.to_str());
        assert_eq!(file_stem(p).as_deref(), expected, "{:?}", p);
    }
}

#[test]
fn is_audio_file_agrees_with_the_standard_path() {
    let list = [
        "mp3", "flac", "ogg", "oga", "wav", "m4a", "aac", "wma", "ape", "mpc", "tta", "wv",
        "opus", "m4p",
    ];
    for p in tricky_paths() {
        let expected = match std::path::Path::new(p).extension().and_then(|e| e.to_str()) {
            Some(e) => list.contains(&e.to_lowercase().as_str()),
            None => false,
        };
        assert_eq!(is_audio_file(p), expected, "{:?}", p);
    }
}

#[test]
fn song_from_path_agrees_with_the_standard_path() {
    for p in tricky_paths() {
        let path = std::path::Path::new(p);
        let song = create_song_from_path(p);
        assert_eq!(song.is_some(), path.file_stem().is_some(), "{:?}", p);
        if let Some(song) = song {
            let album = path
                .parent()
                .and_then(|d| d.file_name())
                .and_then(|n| n.to_str())
                .unwrap_or("Unknown Album");
            assert_eq!(song.album.as_deref(), Some(album), "{:?}", p);
        }
    }
}

#[test]
fn read_metadata_takes_the_stem_of_the_last_part() {
    assert_eq!(read_metadata("/m/dir/", None, None).title.as_deref(), Some("dir"));
    assert_eq!(read_metadata("/m/a.mp3/.", None, None).title.as_deref(), Some("a"));
    assert_eq!(read_metadata("/m/..", None, None).title, None);
}

#[test]
fn text_rank_orders_by_code_point() {
    assert_eq!(text_rank("a", "b"), Rank::Before);
    assert_eq!(text_rank("b", "a"), Rank::After);
    assert_eq!(text_rank("abc", "abc"), Rank::Same);
    assert_eq!(text_rank("", ""), Rank::Same);
    assert_eq!(text_rank("", "a"), Rank::Before);
    assert_eq!(text_rank("ab", "abc"), Rank::Before);
    assert_eq!(text_rank("abd", "abc"), Rank::After);
    assert_eq!(text_rank("Z", "a"), Rank::Before);
    assert_eq!(text_rank("z", "é"), Rank::Before);
    assert_eq!(text_rank("é", "\u{1F3B5}"), Rank::Before);
}

#[test]
fn fold_lowers_ascii_capitals_only() {
    assert_eq!(fold('A'), 'a');
    assert_eq!(fold('Z'), 'z');
    assert_eq!(fold('a'), 'a');
    assert_eq!(fold('@'), '@');
    assert_eq!(fold('['), '[');
    assert_eq!(fold('É'), 'É');
    assert_eq!(fold('5'), '5');
}

#[test]
fn contains_ignore_case_finds_substrings() {
    assert!(contains_ignore_case("Bohemian Rhapsody", "RHAP"));
    assert!(contains_ignore_case("Bohemian Rhapsody", "bohemian rhapsody"));
    assert!(contains_ignore_case("Bohemian Rhapsody", ""));
    assert!(contains_ignore_case("", ""));
    assert!(contains_ignore_case("abc", "c"));
    assert!(contains_ignore_case("aab", "ab"));
    assert!(!contains_ignore_case("abc", "abcd"));
    assert!(!contains_ignore_case("", "a"));
    assert!(!contains_ignore_case("abc", "ac"));
    assert!(!contains_ignore_case("été", "ÉTÉ"));
    assert!(contains_ignore_case("Été", "té"));
}
