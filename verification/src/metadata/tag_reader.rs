//! What a file's path says about it: whether it is an audio file, and the
//! tags to fall back on when nothing better is known.
//!
//! A path is read the way `std::path::Path` reads it where `/` separates the
//! parts. Empty parts and `.` parts do not count, except a `.` that opens the
//! path; so `a//b`, `a/./b` and `a/b/` all have the parts `a` and `b`. The
//! file name is the last part that counts, and there is none where that part
//! is `..`, the opening `.` or the root. The extension is what follows the
//! last `.` of the file name, unless the name has no `.` or only one at its
//! start; the stem is the file name without the extension and its `.`.

use vstd::prelude::*;
use crate::library::models::Song;
use crate::metadata::models::{opt_text, AudioMetadata};
use crate::text::{chars_of, fold, fold_char};

verus! {

/// The place of the last `c` in `s`, or -1 where there is none.
pub open spec fn last_index_of(s: Seq<char>, c: char) -> int
    decreases s.len(),
{
    if s.len() == 0 {
        -1
    } else if s.last() == c {
        s.len() - 1
    } else {
        last_index_of(s.drop_last(), c)
    }
}

/// Where the last part that counts lies in the first `end` characters of the
/// path: the place of its first character and the place after its last.
/// Separators at the end are passed over, and so is a `.` part unless it
/// opens the path. `None` where nothing is left, or where the part found is
/// `..` or the opening `.`.
pub open spec fn name_bounds(path: Seq<char>, end: int) -> Option<(int, int)>
    decreases end,
{
    if end <= 0 || end > path.len() {
        None
    } else if path[end - 1] == '/' {
        name_bounds(path, end - 1)
    } else {
        let start = last_index_of(path.subrange(0, end), '/') + 1;
        if end - start == 1 && path[start] == '.' {
            if start <= 0 {
                None
            } else {
                name_bounds(path, start)
            }
        } else if end - start == 2 && path[start] == '.' && path[start + 1] == '.' {
            None
        } else {
            Some((start, end))
        }
    }
}

/// The part of the path that the bounds enclose.
pub open spec fn part_at(path: Seq<char>, bounds: Option<(int, int)>) -> Option<Seq<char>> {
    match bounds {
        Some((start, end)) => Some(path.subrange(start, end)),
        None => None,
    }
}

/// The file name of the path, as `Path::file_name` gives it.
pub open spec fn file_name_of(path: Seq<char>) -> Option<Seq<char>> {
    part_at(path, name_bounds(path, path.len() as int))
}

/// The extension of a file name.
pub open spec fn extension_in(name: Seq<char>) -> Option<Seq<char>> {
    let dot = last_index_of(name, '.');
    if dot <= 0 {
        None
    } else {
        Some(name.subrange(dot + 1, name.len() as int))
    }
}

/// A file name without its extension and the `.` before it.
pub open spec fn stem_in(name: Seq<char>) -> Seq<char> {
    let dot = last_index_of(name, '.');
    if dot <= 0 {
        name
    } else {
        name.subrange(0, dot)
    }
}

/// The extension of the path's file name, as `Path::extension` gives it.
pub open spec fn extension_of(path: Seq<char>) -> Option<Seq<char>> {
    match file_name_of(path) {
        Some(name) => extension_in(name),
        None => None,
    }
}

/// The stem of the path's file name, as `Path::file_stem` gives it; `None`
/// where the path has no file name.
pub open spec fn file_stem_of(path: Seq<char>) -> Option<Seq<char>> {
    match file_name_of(path) {
        Some(name) => Some(stem_in(name)),
        None => None,
    }
}

/// The two texts are the same, letter case of ASCII letters aside.
pub open spec fn same_folded(a: Seq<char>, b: Seq<char>) -> bool {
    &&& a.len() == b.len()
    &&& forall|i: int| 0 <= i < a.len() ==> fold_char(#[trigger] a[i]) == fold_char(b[i])
}

/// The extension is one of those that audio files carry, in any letter case.
pub open spec fn is_audio_extension(e: Seq<char>) -> bool {
    ||| same_folded(e, "mp3"@)
    ||| same_folded(e, "flac"@)
    ||| same_folded(e, "ogg"@)
    ||| same_folded(e, "oga"@)
    ||| same_folded(e, "wav"@)
    ||| same_folded(e, "m4a"@)
    ||| same_folded(e, "aac"@)
    ||| same_folded(e, "wma"@)
    ||| same_folded(e, "ape"@)
    ||| same_folded(e, "mpc"@)
    ||| same_folded(e, "tta"@)
    ||| same_folded(e, "wv"@)
    ||| same_folded(e, "opus"@)
    ||| same_folded(e, "m4p"@)
}

/// The path names an audio file: its file name has an extension, and that is
/// an audio extension.
pub open spec fn is_audio_path(path: Seq<char>) -> bool {
    extension_of(path) matches Some(e) && is_audio_extension(e)
}

/// Where `c` stands at `k` and nowhere after, `k` is its last place.
pub proof fn lemma_last_index_found(s: Seq<char>, c: char, k: int)
    requires
        0 <= k < s.len(),
        s[k] == c,
        forall|j: int| k < j < s.len() ==> s[j] != c,
    ensures
        last_index_of(s, c) == k,
    decreases s.len(),
{
    if k < s.len() - 1 {
        lemma_last_index_found(s.drop_last(), c, k);
    }
}

/// Where `c` stands nowhere, it has no last place.
pub proof fn lemma_last_index_none(s: Seq<char>, c: char)
    requires
        forall|j: int| 0 <= j < s.len() ==> s[j] != c,
    ensures
        last_index_of(s, c) == -1,
    decreases s.len(),
{
    if s.len() > 0 {
        lemma_last_index_none(s.drop_last(), c);
    }
}

/// The last place of `c` among the characters from `from` up to `to`.
fn last_in(chars: &Vec<char>, from: usize, to: usize, c: char) -> (r: Option<usize>)
    requires
        from <= to <= chars.len(),
    ensures
        r is None <==> last_index_of(chars@.subrange(from as int, to as int), c) == -1,
        r matches Some(i) ==> from <= i < to && chars[i as int] == c && i - from == last_index_of(
            chars@.subrange(from as int, to as int),
            c,
        ),
{
    let ghost part = chars@.subrange(from as int, to as int);
    let mut i: usize = to;
    while i > from
        invariant
            from <= i <= to <= chars.len(),
            part == chars@.subrange(from as int, to as int),
            forall|j: int| i - from <= j < part.len() ==> part[j] != c,
        decreases i,
    {
        i = i - 1;
        assert(part[i - from] == chars@[i as int]);
        if chars[i] == c {
            proof {
                lemma_last_index_found(part, c, i - from);
            }
            return Some(i);
        }
    }
    proof {
        lemma_last_index_none(part, c);
    }
    None
}

/// Computes [`name_bounds`].
fn name_range(chars: &Vec<char>, upto: usize) -> (r: Option<(usize, usize)>)
    requires
        upto <= chars.len(),
    ensures
        r is None <==> name_bounds(chars@, upto as int) is None,
        r matches Some((start, end)) ==> start < end <= upto && name_bounds(chars@, upto as int)
            == Some((start as int, end as int)),
{
    let mut end: usize = upto;
    while end > 0
        invariant
            end <= upto <= chars.len(),
            name_bounds(chars@, upto as int) == name_bounds(chars@, end as int),
        decreases end,
    {
        if chars[end - 1] == '/' {
            end = end - 1;
        } else {
            let start: usize = match last_in(chars, 0, end, '/') {
                Some(i) => i + 1,
                None => 0,
            };
            if end - start == 1 && chars[start] == '.' {
                if start == 0 {
                    return None;
                }
                end = start;
            } else if end - start == 2 && chars[start] == '.' && chars[start + 1] == '.' {
                return None;
            } else {
                return Some((start, end));
            }
        }
    }
    None
}

/// Whether the characters from `from` up to `to` are `word`, letter case
/// aside.
fn word_is(chars: &Vec<char>, from: usize, to: usize, word: &str) -> (r: bool)
    requires
        from <= to <= chars.len(),
    ensures
        r == same_folded(chars@.subrange(from as int, to as int), word@),
{
    let letters: Vec<char> = chars_of(word);
    let m: usize = letters.len();
    let ghost part = chars@.subrange(from as int, to as int);
    if to - from != m {
        return false;
    }
    let mut k: usize = 0;
    while k < m
        invariant
            letters@ == word@,
            m == word@.len(),
            from + m == to,
            to <= chars.len(),
            k <= m,
            part == chars@.subrange(from as int, to as int),
            forall|i: int| 0 <= i < k ==> fold_char(#[trigger] part[i]) == fold_char(word@[i]),
        decreases m - k,
    {
        assert(part[k as int] == chars@[from + k]);
        if fold(chars[from + k]) != fold(letters[k]) {
            return false;
        }
        k = k + 1;
    }
    true
}

/// Whether the path names an audio file, going by the extension of its file
/// name: one of `mp3`, `flac`, `ogg`, `oga`, `wav`, `m4a`, `aac`, `wma`,
/// `ape`, `mpc`, `tta`, `wv`, `opus`, `m4p`, in any letter case.
pub fn is_audio_file(path: &str) -> (r: bool)
    ensures
        r == is_audio_path(path@),
{
    let chars: Vec<char> = chars_of(path);
    let (start, end): (usize, usize) = match name_range(&chars, chars.len()) {
        Some(bounds) => bounds,
        None => {
            return false;
        },
    };
    let ghost name = path@.subrange(start as int, end as int);
    match last_in(&chars, start, end, '.') {
        Some(dot) => {
            if dot == start {
                return false;
            }
            let at: usize = dot + 1;
            assert(path@.subrange(at as int, end as int) =~= name.subrange(
                dot - start + 1,
                name.len() as int,
            ));
            word_is(&chars, at, end, "mp3") || word_is(&chars, at, end, "flac") || word_is(
                &chars,
                at,
                end,
                "ogg",
            ) || word_is(&chars, at, end, "oga") || word_is(&chars, at, end, "wav") || word_is(
                &chars,
                at,
                end,
                "m4a",
            ) || word_is(&chars, at, end, "aac") || word_is(&chars, at, end, "wma") || word_is(
                &chars,
                at,
                end,
                "ape",
            ) || word_is(&chars, at, end, "mpc") || word_is(&chars, at, end, "tta") || word_is(
                &chars,
                at,
                end,
                "wv",
            ) || word_is(&chars, at, end, "opus") || word_is(&chars, at, end, "m4p")
        },
        None => false,
    }
}

/// The stem of the path's file name.
pub fn file_stem(path: &str) -> (r: Option<String>)
    ensures
        opt_text(r) == file_stem_of(path@),
{
    let chars: Vec<char> = chars_of(path);
    let (start, end): (usize, usize) = match name_range(&chars, chars.len()) {
        Some(bounds) => bounds,
        None => {
            return None;
        },
    };
    let ghost name = path@.subrange(start as int, end as int);
    let cut: usize = match last_in(&chars, start, end, '.') {
        Some(dot) => if dot == start {
            end
        } else {
            dot
        },
        None => end,
    };
    let stem = path.substring_char(start, cut);
    assert(stem@ =~= stem_in(name));
    Some(stem.to_owned())
}

/// The lyrics that the tag record carries.
pub fn extract_lyrics(metadata: &AudioMetadata) -> (r: Option<String>)
    ensures
        opt_text(r) == opt_text(metadata.lyrics),
{
    metadata.lyrics.clone()
}

/// The cover picture that the tag record carries.
pub fn extract_album_art(metadata: &AudioMetadata) -> (r: Option<Vec<u8>>)
    ensures
        r is Some <==> metadata.album_art is Some,
        r matches Some(art) ==> art@ == metadata.album_art.unwrap()@,
{
    match &metadata.album_art {
        Some(art) => Some(art.clone()),
        None => None,
    }
}

/// The tags to fall back on for the file at `path`: its file stem as the
/// title, placeholders for artist, album, genre, year and track, a length of
/// three minutes, and the size and modification time as the caller found
/// them. Everything else is unknown.
pub fn read_metadata(path: &str, file_size: Option<u64>, modified_time: Option<i64>) -> (m:
    AudioMetadata)
    ensures
        opt_text(m.title) == file_stem_of(path@),
        opt_text(m.artist) == Some("Unknown Artist"@),
        opt_text(m.album) == Some("Unknown Album"@),
        opt_text(m.genre) == Some("Unknown"@),
        m.album_artist is None,
        m.year == Some(2023i32),
        m.track_number == Some(1i32),
        m.total_tracks is None,
        m.disc_number is None,
        m.total_discs is None,
        m.duration == Some(180u64),
        m.bitrate is None,
        m.sample_rate is None,
        m.file_size == file_size,
        m.modified_time == modified_time,
        m.lyrics is None,
        m.album_art is None,
{
    let mut m = AudioMetadata::new();
    m.file_size = file_size;
    m.modified_time = modified_time;
    m.title = file_stem(path);
    m.artist = Some("Unknown Artist".to_owned());
    m.album = Some("Unknown Album".to_owned());
    m.genre = Some("Unknown".to_owned());
    m.year = Some(2023);
    m.track_number = Some(1);
    m.duration = Some(180);
    m
}

/// `word` stands in `s` at `at`, letter for letter.
pub open spec fn stands_at(s: Seq<char>, word: Seq<char>, at: int) -> bool {
    &&& 0 <= at
    &&& at + word.len() <= s.len()
    &&& forall|k: int| 0 <= k < word.len() ==> #[trigger] s[at + k] == word[k]
}

/// The first place from `from` on at which `word` stands in `s`, or -1 where
/// it stands nowhere from there on.
pub open spec fn first_place(s: Seq<char>, word: Seq<char>, from: int) -> int
    decreases s.len() - from,
{
    if from < 0 || from + word.len() > s.len() {
        -1
    } else if stands_at(s, word, from) {
        from
    } else {
        first_place(s, word, from + 1)
    }
}

/// The text between title and artist in a file stem.
pub open spec fn separator() -> Seq<char> {
    " - "@
}

/// The title that a file stem gives: what comes before the first separator,
/// or the whole stem where it has none.
pub open spec fn title_in(stem: Seq<char>) -> Seq<char> {
    let cut = first_place(stem, separator(), 0);
    if cut < 0 {
        stem
    } else {
        stem.subrange(0, cut)
    }
}

/// The artist that a file stem gives: what stands between the first separator
/// and the next, or the end; `None` where the stem has no separator.
pub open spec fn artist_in(stem: Seq<char>) -> Option<Seq<char>> {
    let cut = first_place(stem, separator(), 0);
    if cut < 0 {
        None
    } else {
        let from = cut + separator().len();
        let end = first_place(stem, separator(), from);
        if end < 0 {
            Some(stem.subrange(from, stem.len() as int))
        } else {
            Some(stem.subrange(from, end))
        }
    }
}

/// The name of the directory that holds the file: the part that counts
/// before the file name, as `Path::parent` followed by `Path::file_name`
/// gives it. `None` where the path has no file name or nothing that counts
/// stands before it.
pub open spec fn folder_of(path: Seq<char>) -> Option<Seq<char>> {
    match name_bounds(path, path.len() as int) {
        Some((start, _)) => part_at(path, name_bounds(path, start)),
        None => None,
    }
}

/// Computes [`first_place`].
fn find_from(s: &str, word: &str, from: usize) -> (r: Option<usize>)
    ensures
        s@.len() <= usize::MAX,
        r is None <==> first_place(s@, word@, from as int) < 0,
        r matches Some(at) ==> at == first_place(s@, word@, from as int) && from <= at && at
            + word@.len() <= s@.len(),
{
    let chars: Vec<char> = chars_of(s);
    let letters: Vec<char> = chars_of(word);
    let n: usize = chars.len();
    let m: usize = letters.len();
    let mut at: usize = from;
    while at <= n && m <= n - at
        invariant
            chars@ == s@,
            letters@ == word@,
            n == s@.len(),
            m == word@.len(),
            from <= at,
            first_place(s@, word@, from as int) == first_place(s@, word@, at as int),
        decreases n + 1 - at,
    {
        let mut k: usize = 0;
        let mut same: bool = true;
        while k < m && same
            invariant
                chars@ == s@,
                letters@ == word@,
                n == s@.len(),
                m == word@.len(),
                at + m <= n,
                k <= m,
                same ==> forall|q: int| 0 <= q < k ==> #[trigger] s@[at + q] == word@[q],
                !same ==> !stands_at(s@, word@, at as int),
            decreases m - k, if same { 1int } else { 0int },
        {
            if chars[at + k] != letters[k] {
                same = false;
                assert(s@[at + k] != word@[k as int]);
            } else {
                k = k + 1;
            }
        }
        if same {
            assert(stands_at(s@, word@, at as int));
            return Some(at);
        }
        at = at + 1;
    }
    None
}

/// The song that the path alone tells of, for a file without readable tags
/// that is named `Title - Artist` and kept in a folder named after its album.
/// The title is the file stem up to the first ` - `, the artist what follows
/// it up to the next ` - ` or `Unknown Artist`, the album the folder's name or
/// `Unknown Album`. `None` where the path has no file name.
pub fn create_song_from_path(path: &str) -> (r: Option<Song>)
    ensures
        r is Some <==> file_stem_of(path@) is Some,
        r matches Some(song) ==> {
            let stem = file_stem_of(path@).unwrap();
            &&& song@.path == path@
            &&& song@.id is None
            &&& song@.tags.title == Some(title_in(stem))
            &&& song@.tags.artist == Some(
                match artist_in(stem) {
                    Some(a) => a,
                    None => "Unknown Artist"@,
                },
            )
            &&& song@.tags.album == Some(
                match folder_of(path@) {
                    Some(f) => f,
                    None => "Unknown Album"@,
                },
            )
            &&& song@.tags.album_artist is None
            &&& song@.tags.genre is None
            &&& song@.tags.year is None
            &&& song@.tags.track_number is None
            &&& song@.tags.duration is None
            &&& song@.tags.file_size is None
            &&& song@.tags.modified_time is None
            &&& song@.user == crate::library::models::fresh_user_state()
        },
{
    let stem: String = match file_stem(path) {
        Some(s) => s,
        None => {
            return None;
        },
    };
    let len: usize = stem.as_str().unicode_len();
    let (title, artist): (String, String) = match find_from(stem.as_str(), " - ", 0) {
        Some(cut) => {
            let from: usize = cut + " - ".unicode_len();
            let title = stem.as_str().substring_char(0, cut).to_owned();
            let artist = match find_from(stem.as_str(), " - ", from) {
                Some(end) => stem.as_str().substring_char(from, end).to_owned(),
                None => stem.as_str().substring_char(from, len).to_owned(),
            };
            (title, artist)
        },
        None => (stem.clone(), "Unknown Artist".to_owned()),
    };
    let album: String = match folder(path) {
        Some(f) => f,
        None => "Unknown Album".to_owned(),
    };
    let mut song = Song::new(path);
    song.title = Some(title);
    song.artist = Some(artist);
    song.album = Some(album);
    Some(song)
}

/// Computes [`folder_of`].
fn folder(path: &str) -> (r: Option<String>)
    ensures
        opt_text(r) == folder_of(path@),
{
    let chars: Vec<char> = chars_of(path);
    match name_range(&chars, chars.len()) {
        Some((start, _)) => {
            match name_range(&chars, start) {
                Some((from, to)) => Some(path.substring_char(from, to).to_owned()),
                None => None,
            }
        },
        None => None,
    }
}

} // verus!
