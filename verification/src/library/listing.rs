//! The order in which listings come out, and sorted insertion.

use vstd::prelude::*;
use crate::library::models::{song_views, text_views, PlaylistView, Song, SongView};
use crate::metadata::models::opt_text;
use crate::text::{
    contains_folded, contains_ignore_case, lemma_text_lt_asymmetric, lemma_text_lt_transitive,
    text_lt, text_rank, Rank,
};

verus! {

/// Order of optional texts: the unknown comes first, known texts follow by
/// code point.
pub open spec fn opt_text_lt(a: Option<Seq<char>>, b: Option<Seq<char>>) -> bool {
    match (a, b) {
        (None, Some(_)) => true,
        (Some(x), Some(y)) => text_lt(x, y),
        _ => false,
    }
}

/// Order of optional numbers: the unknown comes first.
pub open spec fn opt_num_lt(a: Option<int>, b: Option<int>) -> bool {
    match (a, b) {
        (None, Some(_)) => true,
        (Some(x), Some(y)) => x < y,
        _ => false,
    }
}

/// An optional track number as an optional integer.
pub open spec fn track_of(r: SongView) -> Option<int> {
    match r.tags.track_number {
        Some(n) => Some(n as int),
        None => None,
    }
}

/// An optional id as an optional integer.
pub open spec fn id_of(r: SongView) -> Option<int> {
    match r.id {
        Some(n) => Some(n as int),
        None => None,
    }
}

/// Row `a` is listed before row `b`: by artist, then album, then track
/// number, the unknown first each time; rows that agree on all three come in
/// the order of their ids.
pub open spec fn row_before(a: SongView, b: SongView) -> bool {
    ||| opt_text_lt(a.tags.artist, b.tags.artist)
    ||| a.tags.artist == b.tags.artist && opt_text_lt(a.tags.album, b.tags.album)
    ||| a.tags.artist == b.tags.artist && a.tags.album == b.tags.album && opt_num_lt(
        track_of(a),
        track_of(b),
    )
    ||| a.tags.artist == b.tags.artist && a.tags.album == b.tags.album && track_of(a) == track_of(b)
        && opt_num_lt(id_of(a), id_of(b))
}

/// The two rows agree on artist, album, track number and id, so neither is
/// listed before the other.
pub open spec fn same_rank(a: SongView, b: SongView) -> bool {
    &&& a.tags.artist == b.tags.artist
    &&& a.tags.album == b.tags.album
    &&& a.tags.track_number == b.tags.track_number
    &&& a.id == b.id
}

/// Each row is listed before every later one.
pub open spec fn rows_sorted(s: Seq<SongView>) -> bool {
    forall|i: int, j: int| 0 <= i < j < s.len() ==> row_before(#[trigger] s[i], #[trigger] s[j])
}

/// `out` is the listing of the rows that `keep` admits: it holds exactly
/// those rows, in listing order.
pub open spec fn lists(rows: Seq<SongView>, keep: spec_fn(SongView) -> bool, out: Seq<SongView>) -> bool {
    &&& forall|i: int| 0 <= i < out.len() ==> rows.contains(#[trigger] out[i]) && keep(out[i])
    &&& forall|i: int| 0 <= i < rows.len() && keep(#[trigger] rows[i]) ==> out.contains(rows[i])
    &&& rows_sorted(out)
}

/// The query stands in the title, the artist or the album of the row, letter
/// case of ASCII letters aside. An unknown field holds no text.
pub open spec fn matches_query(r: SongView, query: Seq<char>) -> bool {
    ||| r.tags.title matches Some(t) && contains_folded(t, query)
    ||| r.tags.artist matches Some(t) && contains_folded(t, query)
    ||| r.tags.album matches Some(t) && contains_folded(t, query)
}

/// The texts that a column names: those that some row of it has.
pub open spec fn texts_named(column: Seq<Option<Seq<char>>>) -> Set<Seq<char>> {
    Set::new(
        |t: Seq<char>| exists|k: int| 0 <= k < column.len() && #[trigger] column[k] == Some(t),
    )
}

/// The album of each row; `None` where a row names none.
pub open spec fn album_column(rows: Seq<SongView>) -> Seq<Option<Seq<char>>> {
    Seq::new(rows.len(), |i: int| rows[i].tags.album)
}

/// The artist of each row; `None` where a row names none.
pub open spec fn artist_column(rows: Seq<SongView>) -> Seq<Option<Seq<char>>> {
    Seq::new(rows.len(), |i: int| rows[i].tags.artist)
}

/// The name of each playlist.
pub open spec fn name_column(playlists: Seq<PlaylistView>) -> Seq<Option<Seq<char>>> {
    Seq::new(playlists.len(), |i: int| Some(playlists[i].name))
}

/// The albums that the rows name.
pub open spec fn album_values(rows: Seq<SongView>) -> Set<Seq<char>> {
    texts_named(album_column(rows))
}

/// The artists that the rows name.
pub open spec fn artist_values(rows: Seq<SongView>) -> Set<Seq<char>> {
    texts_named(artist_column(rows))
}

/// The names of the playlists.
pub open spec fn playlist_names(playlists: Seq<PlaylistView>) -> Set<Seq<char>> {
    texts_named(name_column(playlists))
}

/// Each text sorts before every later one.
pub open spec fn texts_sorted(s: Seq<Seq<char>>) -> bool {
    forall|i: int, j: int| 0 <= i < j < s.len() ==> text_lt(#[trigger] s[i], #[trigger] s[j])
}

/// `out` lists the texts of `values`: each once, in ascending order.
pub open spec fn lists_texts(values: Set<Seq<char>>, out: Seq<Seq<char>>) -> bool {
    &&& forall|i: int| 0 <= i < out.len() ==> values.contains(#[trigger] out[i])
    &&& forall|t: Seq<char>| #[trigger] values.contains(t) ==> out.contains(t)
    &&& texts_sorted(out)
}

/// The order of optional texts is transitive.
pub proof fn lemma_opt_text_lt_transitive(
    a: Option<Seq<char>>,
    b: Option<Seq<char>>,
    c: Option<Seq<char>>,
)
    requires
        opt_text_lt(a, b),
        opt_text_lt(b, c),
    ensures
        opt_text_lt(a, c),
{
    if a is Some {
        lemma_text_lt_transitive(a.unwrap(), b.unwrap(), c.unwrap());
    }
}

/// No two optional texts come before each other.
pub proof fn lemma_opt_text_lt_asymmetric(a: Option<Seq<char>>, b: Option<Seq<char>>)
    ensures
        !(opt_text_lt(a, b) && opt_text_lt(b, a)),
{
    if a is Some && b is Some {
        lemma_text_lt_asymmetric(a.unwrap(), b.unwrap());
    }
}

/// The listing order is transitive.
pub proof fn lemma_row_before_transitive(a: SongView, b: SongView, c: SongView)
    requires
        row_before(a, b),
        row_before(b, c),
    ensures
        row_before(a, c),
{
    if opt_text_lt(a.tags.artist, b.tags.artist) && opt_text_lt(b.tags.artist, c.tags.artist) {
        lemma_opt_text_lt_transitive(a.tags.artist, b.tags.artist, c.tags.artist);
    }
    if opt_text_lt(a.tags.album, b.tags.album) && opt_text_lt(b.tags.album, c.tags.album) {
        lemma_opt_text_lt_transitive(a.tags.album, b.tags.album, c.tags.album);
    }
    lemma_opt_text_lt_asymmetric(a.tags.artist, b.tags.artist);
    lemma_opt_text_lt_asymmetric(b.tags.artist, c.tags.artist);
    lemma_opt_text_lt_asymmetric(a.tags.album, b.tags.album);
    lemma_opt_text_lt_asymmetric(b.tags.album, c.tags.album);
}

/// No two rows are listed before each other; so no row is listed before
/// itself.
pub proof fn lemma_row_before_asymmetric(a: SongView, b: SongView)
    ensures
        !(row_before(a, b) && row_before(b, a)),
{
    lemma_opt_text_lt_asymmetric(a.tags.artist, b.tags.artist);
    lemma_opt_text_lt_asymmetric(a.tags.album, b.tags.album);
}

/// Ranks two optional texts, the unknown first.
pub fn opt_text_rank(a: &Option<String>, b: &Option<String>) -> (r: Rank)
    ensures
        r == Rank::Before <==> opt_text_lt(opt_text(*a), opt_text(*b)),
        r == Rank::Same <==> opt_text(*a) == opt_text(*b),
        r == Rank::After <==> opt_text_lt(opt_text(*b), opt_text(*a)),
{
    match (a, b) {
        (None, None) => Rank::Same,
        (None, Some(_)) => Rank::Before,
        (Some(_), None) => Rank::After,
        (Some(x), Some(y)) => text_rank(x.as_str(), y.as_str()),
    }
}

/// Ranks two optional 64-bit numbers, the unknown first.
fn opt_num_rank(a: Option<i64>, b: Option<i64>) -> (r: Rank)
    ensures
        r == Rank::Before <==> (match (a, b) {
            (None, Some(_)) => true,
            (Some(x), Some(y)) => x < y,
            _ => false,
        }),
        r == Rank::Same <==> a == b,
        r == Rank::After <==> (match (b, a) {
            (None, Some(_)) => true,
            (Some(x), Some(y)) => x < y,
            _ => false,
        }),
{
    match (a, b) {
        (None, None) => Rank::Same,
        (None, Some(_)) => Rank::Before,
        (Some(_), None) => Rank::After,
        (Some(x), Some(y)) => {
            if x < y {
                Rank::Before
            } else if y < x {
                Rank::After
            } else {
                Rank::Same
            }
        },
    }
}

/// A 32-bit optional number as a 64-bit one.
fn widened(n: Option<i32>) -> (r: Option<i64>)
    ensures
        n is None <==> r is None,
        n matches Some(x) ==> r == Some(x as i64),
{
    match n {
        Some(x) => Some(x as i64),
        None => None,
    }
}

/// Ranks two songs in listing order.
pub fn row_rank(a: &Song, b: &Song) -> (r: Rank)
    ensures
        r == Rank::Before <==> row_before(a@, b@),
        r == Rank::Same <==> same_rank(a@, b@),
        r == Rank::After <==> row_before(b@, a@),
{
    proof {
        lemma_row_before_asymmetric(a@, b@);
    }
    let by_artist = opt_text_rank(&a.artist, &b.artist);
    match by_artist {
        Rank::Same => {},
        _ => {
            return by_artist;
        },
    }
    let by_album = opt_text_rank(&a.album, &b.album);
    match by_album {
        Rank::Same => {},
        _ => {
            return by_album;
        },
    }
    let by_track = opt_num_rank(widened(a.track_number), widened(b.track_number));
    match by_track {
        Rank::Same => {},
        _ => {
            return by_track;
        },
    }
    opt_num_rank(a.id, b.id)
}

/// A run with one more item holds what it held before, and that item.
pub proof fn lemma_insert_contains<A>(s: Seq<A>, at: int, x: A)
    requires
        0 <= at <= s.len(),
    ensures
        forall|t: A| s.insert(at, x).contains(t) <==> (s.contains(t) || t == x),
{
    let after = s.insert(at, x);
    assert forall|t: A| after.contains(t) <==> (s.contains(t) || t == x) by {
        if after.contains(t) {
            let k = choose|k: int| 0 <= k < after.len() && after[k] == t;
            if k < at {
                assert(s[k] == t);
            } else if k > at {
                assert(s[k - 1] == t);
            }
        }
        if s.contains(t) {
            let k = choose|k: int| 0 <= k < s.len() && s[k] == t;
            if k < at {
                assert(after[k] == t);
            } else {
                assert(after[k + 1] == t);
            }
        }
        if t == x {
            assert(after[at] == t);
        }
    }
}

/// Decides [`matches_query`].
pub fn song_matches(song: &Song, query: &str) -> (r: bool)
    ensures
        r == matches_query(song@, query@),
{
    let in_title: bool = match &song.title {
        Some(t) => contains_ignore_case(t.as_str(), query),
        None => false,
    };
    let in_artist: bool = match &song.artist {
        Some(t) => contains_ignore_case(t.as_str(), query),
        None => false,
    };
    let in_album: bool = match &song.album {
        Some(t) => contains_ignore_case(t.as_str(), query),
        None => false,
    };
    in_title || in_artist || in_album
}

/// Puts `song` into the sorted run `out` at its place. Returns the place.
pub(crate) fn insert_row(out: &mut Vec<Song>, song: Song) -> (at: usize)
    requires
        rows_sorted(song_views(old(out)@)),
        forall|j: int| 0 <= j < old(out).len() ==> !same_rank(#[trigger] old(out)[j]@, song@),
    ensures
        at <= old(out).len(),
        song_views(final(out)@) == song_views(old(out)@).insert(at as int, song@),
        rows_sorted(song_views(final(out)@)),
{
    let ghost before = song_views(out@);
    let ghost row = song@;
    let n: usize = out.len();
    let mut at: usize = 0;
    while at < n
        invariant
            n == out.len(),
            at <= n,
            song@ == row,
            song_views(out@) == before,
            forall|j: int| 0 <= j < at ==> row_before(#[trigger] before[j], row),
            forall|j: int| 0 <= j < n ==> !same_rank(#[trigger] out[j]@, row),
        ensures
            at <= n,
            at < n ==> row_before(row, before[at as int]),
        decreases n - at,
    {
        match row_rank(&out[at], &song) {
            Rank::Before => {
                assert(before[at as int] == out[at as int]@);
                at = at + 1;
            },
            Rank::Same => {
                assert(false);
            },
            Rank::After => {
                assert(before[at as int] == out[at as int]@);
                break ;
            },
        }
    }
    out.insert(at, song);
    proof {
        let after = song_views(out@);
        assert(after =~= before.insert(at as int, row));
        assert forall|i: int, j: int| 0 <= i < j < after.len() implies row_before(
            #[trigger] after[i],
            #[trigger] after[j],
        ) by {
            if j < at {
            } else if j == at {
            } else if i == at {
                if j - 1 > at {
                    lemma_row_before_transitive(row, before[at as int], before[j - 1]);
                }
            } else if i > at {
            } else {
                assert(after[i] == before[i]);
                assert(after[j] == before[j - 1]);
            }
        }
    }
    at
}

/// Puts `text` into the sorted run `out` at its place, unless it is there
/// already.
pub(crate) fn insert_text(out: &mut Vec<String>, text: &str)
    requires
        texts_sorted(text_views(old(out)@)),
    ensures
        texts_sorted(text_views(final(out)@)),
        forall|t: Seq<char>|
            text_views(final(out)@).contains(t) <==> (text_views(old(out)@).contains(t) || t
                == text@),
{
    let ghost before = text_views(out@);
    let n: usize = out.len();
    let mut at: usize = 0;
    let mut present: bool = false;
    while at < n
        invariant_except_break
            !present,
        invariant
            n == out.len(),
            at <= n,
            text_views(out@) == before,
            forall|j: int| 0 <= j < at ==> text_lt(#[trigger] before[j], text@),
        ensures
            at <= n,
            present ==> at < n && before[at as int] == text@,
            !present && at < n ==> text_lt(text@, before[at as int]),
            text_views(out@) == before,
            n == out.len(),
            forall|j: int| 0 <= j < at ==> text_lt(#[trigger] before[j], text@),
        decreases n - at,
    {
        match text_rank(out[at].as_str(), text) {
            Rank::Before => {
                assert(before[at as int] == out[at as int]@);
                at = at + 1;
            },
            Rank::Same => {
                assert(before[at as int] == out[at as int]@);
                present = true;
                break ;
            },
            Rank::After => {
                assert(before[at as int] == out[at as int]@);
                break ;
            },
        }
    }
    if present {
        assert(before.contains(text@));
        return ;
    }
    out.insert(at, text.to_owned());
    proof {
        let after = text_views(out@);
        assert(after =~= before.insert(at as int, text@));
        assert forall|i: int, j: int| 0 <= i < j < after.len() implies text_lt(
            #[trigger] after[i],
            #[trigger] after[j],
        ) by {
            if j < at {
            } else if j == at {
            } else if i == at {
                if j - 1 > at {
                    lemma_text_lt_transitive(text@, before[at as int], before[j - 1]);
                }
            } else if i > at {
            } else {
                assert(after[i] == before[i]);
                assert(after[j] == before[j - 1]);
            }
        }
        lemma_insert_contains(before, at as int, text@);
    }
}

/// Two sorted runs that hold the same rows are the same run.
pub proof fn lemma_sorted_rows_unique(a: Seq<SongView>, b: Seq<SongView>)
    requires
        rows_sorted(a),
        rows_sorted(b),
        forall|r: SongView| a.contains(r) <==> b.contains(r),
    ensures
        a == b,
    decreases a.len(),
{
    if a.len() == 0 {
        if b.len() > 0 {
            assert(b.contains(b[0]));
        }
        assert(a =~= b);
    } else {
        assert(a.contains(a[0]));
        let kb = choose|k: int| 0 <= k < b.len() && b[k] == a[0];
        assert(b.contains(b[0]));
        let ka = choose|k: int| 0 <= k < a.len() && a[k] == b[0];
        lemma_row_before_asymmetric(a[0], b[0]);
        assert(a[0] == b[0]);
        let ta = a.drop_first();
        let tb = b.drop_first();
        assert forall|r: SongView| ta.contains(r) <==> tb.contains(r) by {
            lemma_row_before_asymmetric(a[0], r);
            if ta.contains(r) {
                let k = choose|k: int| 0 <= k < ta.len() && ta[k] == r;
                assert(a[k + 1] == r);
                assert(row_before(a[0], a[k + 1]));
                assert(a.contains(r));
                let m = choose|m: int| 0 <= m < b.len() && b[m] == r;
                assert(m != 0);
                assert(tb[m - 1] == r);
            }
            if tb.contains(r) {
                let k = choose|k: int| 0 <= k < tb.len() && tb[k] == r;
                assert(b[k + 1] == r);
                assert(row_before(b[0], b[k + 1]));
                assert(b.contains(r));
                let m = choose|m: int| 0 <= m < a.len() && a[m] == r;
                assert(m != 0);
                assert(ta[m - 1] == r);
            }
        }
        assert(rows_sorted(ta)) by {
            assert forall|i: int, j: int| 0 <= i < j < ta.len() implies row_before(
                #[trigger] ta[i],
                #[trigger] ta[j],
            ) by {
                assert(ta[i] == a[i + 1]);
                assert(ta[j] == a[j + 1]);
            }
        }
        assert(rows_sorted(tb)) by {
            assert forall|i: int, j: int| 0 <= i < j < tb.len() implies row_before(
                #[trigger] tb[i],
                #[trigger] tb[j],
            ) by {
                assert(tb[i] == b[i + 1]);
                assert(tb[j] == b[j + 1]);
            }
        }
        lemma_sorted_rows_unique(ta, tb);
        assert(a =~= seq![a[0]] + ta);
        assert(b =~= seq![b[0]] + tb);
    }
}

/// A listing is determined by the rows and by which of them it admits:
/// whoever lists the same rows again gets every row at the same place.
pub proof fn lemma_listing_unique(
    rows: Seq<SongView>,
    keep: spec_fn(SongView) -> bool,
    a: Seq<SongView>,
    b: Seq<SongView>,
)
    requires
        lists(rows, keep, a),
        lists(rows, keep, b),
    ensures
        a == b,
{
    assert forall|r: SongView| a.contains(r) <==> b.contains(r) by {
        if a.contains(r) {
            let i = choose|i: int| 0 <= i < a.len() && a[i] == r;
            assert(rows.contains(a[i]));
            let k = choose|k: int| 0 <= k < rows.len() && rows[k] == r;
            assert(b.contains(rows[k]));
        }
        if b.contains(r) {
            let i = choose|i: int| 0 <= i < b.len() && b[i] == r;
            assert(rows.contains(b[i]));
            let k = choose|k: int| 0 <= k < rows.len() && rows[k] == r;
            assert(a.contains(rows[k]));
        }
    }
    lemma_sorted_rows_unique(a, b);
}

/// In a listing the rows whose artist is unknown come before all others.
pub proof fn lemma_unknown_artist_first(out: Seq<SongView>, i: int, j: int)
    requires
        rows_sorted(out),
        0 <= i < out.len(),
        0 <= j < out.len(),
        out[i].tags.artist is None,
        out[j].tags.artist is Some,
    ensures
        i < j,
{
    if j < i {
        assert(row_before(out[j], out[i]));
    }
}

/// A search lists its rows in the order in which the full listing has them:
/// of two rows that a narrower listing holds, the one that comes first there
/// comes first in every wider listing of the same rows.
pub proof fn lemma_narrower_listing_keeps_order(
    rows: Seq<SongView>,
    keep: spec_fn(SongView) -> bool,
    wider: spec_fn(SongView) -> bool,
    found: Seq<SongView>,
    all: Seq<SongView>,
    i: int,
    j: int,
    p: int,
    q: int,
)
    requires
        lists(rows, keep, found),
        lists(rows, wider, all),
        0 <= i < j < found.len(),
        0 <= p < all.len(),
        0 <= q < all.len(),
        all[p] == found[i],
        all[q] == found[j],
    ensures
        p < q,
{
    assert(row_before(found[i], found[j]));
    lemma_row_before_asymmetric(found[i], found[j]);
    if q < p {
        assert(row_before(all[q], all[p]));
    }
}

/// Two sorted runs that hold the same texts are the same run.
pub proof fn lemma_sorted_texts_unique(a: Seq<Seq<char>>, b: Seq<Seq<char>>)
    requires
        texts_sorted(a),
        texts_sorted(b),
        forall|t: Seq<char>| a.contains(t) <==> b.contains(t),
    ensures
        a == b,
    decreases a.len(),
{
    if a.len() == 0 {
        if b.len() > 0 {
            assert(b.contains(b[0]));
        }
        assert(a =~= b);
    } else {
        assert(a.contains(a[0]));
        let kb = choose|k: int| 0 <= k < b.len() && b[k] == a[0];
        assert(b.contains(b[0]));
        let ka = choose|k: int| 0 <= k < a.len() && a[k] == b[0];
        lemma_text_lt_asymmetric(a[0], b[0]);
        assert(a[0] == b[0]);
        let ta = a.drop_first();
        let tb = b.drop_first();
        assert forall|t: Seq<char>| ta.contains(t) <==> tb.contains(t) by {
            lemma_text_lt_asymmetric(a[0], t);
            if ta.contains(t) {
                let k = choose|k: int| 0 <= k < ta.len() && ta[k] == t;
                assert(a[k + 1] == t);
                assert(text_lt(a[0], a[k + 1]));
                assert(a.contains(t));
                let m = choose|m: int| 0 <= m < b.len() && b[m] == t;
                assert(m != 0);
                assert(tb[m - 1] == t);
            }
            if tb.contains(t) {
                let k = choose|k: int| 0 <= k < tb.len() && tb[k] == t;
                assert(b[k + 1] == t);
                assert(text_lt(b[0], b[k + 1]));
                assert(b.contains(t));
                let m = choose|m: int| 0 <= m < a.len() && a[m] == t;
                assert(m != 0);
                assert(ta[m - 1] == t);
            }
        }
        assert(texts_sorted(ta)) by {
            assert forall|i: int, j: int| 0 <= i < j < ta.len() implies text_lt(
                #[trigger] ta[i],
                #[trigger] ta[j],
            ) by {
                assert(ta[i] == a[i + 1]);
                assert(ta[j] == a[j + 1]);
            }
        }
        assert(texts_sorted(tb)) by {
            assert forall|i: int, j: int| 0 <= i < j < tb.len() implies text_lt(
                #[trigger] tb[i],
                #[trigger] tb[j],
            ) by {
                assert(tb[i] == b[i + 1]);
                assert(tb[j] == b[j + 1]);
            }
        }
        lemma_sorted_texts_unique(ta, tb);
        assert(a =~= seq![a[0]] + ta);
        assert(b =~= seq![b[0]] + tb);
    }
}

/// The list of the distinct values is determined by the values: each stands
/// in it once, and at the same place however often the list is made.
pub proof fn lemma_text_listing_unique(values: Set<Seq<char>>, a: Seq<Seq<char>>, b: Seq<Seq<char>>)
    requires
        lists_texts(values, a),
        lists_texts(values, b),
    ensures
        a == b,
{
    assert forall|t: Seq<char>| a.contains(t) <==> b.contains(t) by {
        if a.contains(t) {
            let i = choose|i: int| 0 <= i < a.len() && a[i] == t;
            assert(values.contains(a[i]));
        }
        if b.contains(t) {
            let i = choose|i: int| 0 <= i < b.len() && b[i] == t;
            assert(values.contains(b[i]));
        }
    }
    lemma_sorted_texts_unique(a, b);
}

} // verus!
