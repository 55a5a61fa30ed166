//! The scanner: the directories to index, what a scan writes to the catalog,
//! and what a change on disk does to it.
//!
//! The scanner reads no directory and no file. The caller walks the scan
//! roots, reads the tags of what it finds and hands both over; it subscribes
//! to changes on disk and hands each change over with the tags it has read.

use vstd::prelude::*;
use crate::error::LibraryError;
use crate::library::catalog::{
    has_path, index_of_path, lemma_upsert_idempotent, lemma_upsert_keeps_other_rows,
    lemma_upsert_keeps_user_state, lemma_upsert_valid, CatalogView,
};
use crate::library::database::{opt_str, LibraryDatabase};
use crate::library::walk::{PendingView, ScanWalk};
use crate::text::{chars_of, text_rank, Rank};
use crate::library::models::text_views;
use crate::metadata::models::{AudioMetadata, TagView};
use crate::metadata::tag_reader::{is_audio_file, is_audio_path};

verus! {

/// A file that a scan has come across, with the tags read from it. The tags
/// are `None` where they could not be read.
pub struct ScannedFile {
    pub path: String,
    pub tags: Option<AudioMetadata>,
}

/// A file at `path` that was read as `tags` can be written to the catalog: it
/// is an audio file, its tags were read and can be stored, and the catalog has
/// room for it.
pub open spec fn can_index(c: CatalogView, path: Seq<char>, tags: Option<AudioMetadata>) -> bool {
    &&& is_audio_path(path)
    &&& tags matches Some(m) && m.storable()
    &&& c.has_room_for(path)
}

/// The catalog after a file at `path` was read as `tags`: the tags are written
/// where the file can be indexed, and nothing changes where it cannot.
pub open spec fn after_reading(c: CatalogView, path: Seq<char>, tags: Option<AudioMetadata>) -> CatalogView {
    if can_index(c, path, tags) {
        c.upsert(path, tags.unwrap().tags())
    } else {
        c
    }
}

/// The scan can write this file to the catalog.
pub open spec fn indexable(c: CatalogView, f: ScannedFile) -> bool {
    can_index(c, f.path@, f.tags)
}

/// The catalog after the scan has dealt with one file.
pub open spec fn after_file(c: CatalogView, f: ScannedFile) -> CatalogView {
    after_reading(c, f.path@, f.tags)
}

/// What has happened to a path on disk.
#[derive(Clone, Copy, Debug, PartialEq, Eq, Structural)]
pub enum ChangeKind {
    Created,
    Modified,
    Removed,
    Other,
}

/// What a change on disk has done to the catalog.
#[derive(Clone, Copy, Debug, PartialEq, Eq, Structural)]
pub enum WatchOutcome {
    /// The change does not concern the catalog: the path is below no watched
    /// root, or it is no audio file that was created or modified.
    Ignored,
    /// The file's tags were written.
    Indexed,
    /// The file's tags could not be read or stored; the catalog is as it was.
    Skipped,
    /// The path and its playlist entries are gone from the catalog, if they
    /// were in it.
    Removed,
}

/// `path` is `root` or lies below it: `root` is a prefix of `path` that ends
/// where a part of the path ends.
pub open spec fn is_below(root: Seq<char>, path: Seq<char>) -> bool {
    &&& root.len() <= path.len()
    &&& forall|i: int| 0 <= i < root.len() ==> root[i] == path[i]
    &&& (root.len() == path.len() || (root.len() > 0 && root.last() == '/')
        || path[root.len() as int] == '/')
}

/// The change asks for the file's tags: an audio file was created or modified.
pub open spec fn asks_for_tags(kind: ChangeKind, path: Seq<char>) -> bool {
    (kind == ChangeKind::Created || kind == ChangeKind::Modified) && is_audio_path(path)
}

/// The catalog after a change on disk. A change below no watched root does
/// nothing. A removal takes the song and its playlist entries. A creation or
/// modification of an audio file writes the tags that were read.
pub open spec fn after_change(
    c: CatalogView,
    watched: bool,
    kind: ChangeKind,
    path: Seq<char>,
    tags: Option<AudioMetadata>,
) -> CatalogView {
    if !watched {
        c
    } else if kind == ChangeKind::Removed {
        c.remove_song(path)
    } else if asks_for_tags(kind, path) {
        after_reading(c, path, tags)
    } else {
        c
    }
}

/// What a change on disk is reported as.
pub open spec fn outcome_of(
    c: CatalogView,
    watched: bool,
    kind: ChangeKind,
    path: Seq<char>,
    tags: Option<AudioMetadata>,
) -> WatchOutcome {
    if !watched {
        WatchOutcome::Ignored
    } else if kind == ChangeKind::Removed {
        WatchOutcome::Removed
    } else if asks_for_tags(kind, path) {
        if can_index(c, path, tags) {
            WatchOutcome::Indexed
        } else {
            WatchOutcome::Skipped
        }
    } else {
        WatchOutcome::Ignored
    }
}

/// The catalog after the scan has dealt with the files, first to last.
pub open spec fn after_scan(c: CatalogView, files: Seq<ScannedFile>) -> CatalogView
    decreases files.len(),
{
    if files.len() == 0 {
        c
    } else {
        after_file(after_scan(c, files.drop_last()), files.last())
    }
}

/// How many of the files the scan has written, first to last.
pub open spec fn scan_count(c: CatalogView, files: Seq<ScannedFile>) -> nat
    decreases files.len(),
{
    if files.len() == 0 {
        0
    } else {
        let rest = scan_count(c, files.drop_last());
        if indexable(after_scan(c, files.drop_last()), files.last()) {
            rest + 1
        } else {
            rest
        }
    }
}

/// A change on disk as the watcher delivers it: one kind of change, and the
/// paths it happened to, each with the tags read from it where the scanner
/// asked for them.
pub struct ChangeEvent {
    pub kind: ChangeKind,
    pub files: Vec<ScannedFile>,
}

/// The catalog after an event: the change is applied to each path, first to
/// last.
pub open spec fn after_event(
    c: CatalogView,
    v: ScannerView,
    kind: ChangeKind,
    files: Seq<ScannedFile>,
) -> CatalogView
    decreases files.len(),
{
    if files.len() == 0 {
        c
    } else {
        let f = files.last();
        after_change(
            after_event(c, v, kind, files.drop_last()),
            v.watches(f.path@),
            kind,
            f.path@,
            f.tags,
        )
    }
}

/// What an event is reported as, path by path.
pub open spec fn event_outcomes(
    c: CatalogView,
    v: ScannerView,
    kind: ChangeKind,
    files: Seq<ScannedFile>,
) -> Seq<WatchOutcome>
    decreases files.len(),
{
    if files.len() == 0 {
        Seq::empty()
    } else {
        let f = files.last();
        event_outcomes(c, v, kind, files.drop_last()).push(
            outcome_of(
                after_event(c, v, kind, files.drop_last()),
                v.watches(f.path@),
                kind,
                f.path@,
                f.tags,
            ),
        )
    }
}

/// The scanner as the contracts see it.
pub struct ScannerView {
    /// The scan roots, in the order in which they were added.
    pub paths: Seq<Seq<char>>,
    /// For each root, whether changes below it are being watched.
    pub watched: Seq<bool>,
}

impl ScannerView {
    /// Changes to `path` are being watched: it lies below a watched root.
    pub open spec fn watches(self, path: Seq<char>) -> bool {
        exists|i: int|
            0 <= i < self.paths.len() && i < self.watched.len() && self.watched[i] && is_below(
                #[trigger] self.paths[i],
                path,
            )
    }

    /// Some root is being watched.
    pub open spec fn watching(self) -> bool {
        exists|i: int| 0 <= i < self.watched.len() && #[trigger] self.watched[i]
    }
}

/// `part` appended to the path `base` as one more part.
pub open spec fn joined(base: Seq<char>, part: Seq<char>) -> Seq<char> {
    if base.len() == 0 {
        part
    } else if base.last() == '/' {
        base + part
    } else {
        base + "/"@ + part
    }
}

/// The directory as a one-item run where the caller found it readable, and
/// the empty run otherwise.
pub open spec fn if_readable(readable: Seq<Seq<char>>, dir: Seq<char>) -> Seq<Seq<char>> {
    if readable.contains(dir) {
        seq![dir]
    } else {
        Seq::empty()
    }
}

/// The scan roots to start out with: the user's music directory where one is
/// known; `Music`, `Documents/Music` and `Downloads/Music` below the home
/// directory, or below `/` where none is known; and those of `/usr/share/music`,
/// `/var/music` and `/usr/local/share/music` that the caller found readable.
pub open spec fn default_paths(
    audio_dir: Option<Seq<char>>,
    home_dir: Option<Seq<char>>,
    readable: Seq<Seq<char>>,
) -> Seq<Seq<char>> {
    let home = match home_dir {
        Some(h) => h,
        None => "/"@,
    };
    let own = match audio_dir {
        Some(a) => seq![a],
        None => Seq::empty(),
    };
    own + seq![
        joined(home, "Music"@),
        joined(joined(home, "Documents"@), "Music"@),
        joined(joined(home, "Downloads"@), "Music"@),
    ] + if_readable(readable, "/usr/share/music"@) + if_readable(readable, "/var/music"@)
        + if_readable(readable, "/usr/local/share/music"@)
}

/// Computes [`joined`].
pub fn join(base: &str, part: &str) -> (r: String)
    ensures
        r@ == joined(base@, part@),
{
    let n: usize = base.unicode_len();
    if n == 0 {
        return part.to_owned();
    }
    let mut r: String = base.to_owned();
    if base.get_char(n - 1) != '/' {
        r.append("/");
    }
    r.append(part);
    r
}

/// Whether `dir` is among `readable`.
fn listed(readable: &Vec<String>, dir: &str) -> (r: bool)
    ensures
        r == text_views(readable@).contains(dir@),
{
    let n: usize = readable.len();
    let mut i: usize = 0;
    while i < n
        invariant
            n == readable.len(),
            i <= n,
            forall|k: int| 0 <= k < i ==> (#[trigger] text_views(readable@)[k]) != dir@,
        decreases n - i,
    {
        match text_rank(readable[i].as_str(), dir) {
            Rank::Same => {
                assert(text_views(readable@)[i as int] == dir@);
                return true;
            },
            _ => {
                assert(text_views(readable@)[i as int] != dir@);
            },
        }
        i = i + 1;
    }
    false
}

/// Computes [`default_paths`].
pub fn default_scan_paths(audio_dir: Option<&str>, home_dir: Option<&str>, readable: &Vec<String>) -> (paths:
    Vec<String>)
    ensures
        text_views(paths@) == default_paths(
            opt_str(audio_dir),
            opt_str(home_dir),
            text_views(readable@),
        ),
{
    let home: &str = match home_dir {
        Some(h) => h,
        None => "/",
    };
    let mut paths: Vec<String> = Vec::new();
    match audio_dir {
        Some(a) => {
            paths.push(a.to_owned());
        },
        None => {},
    }
    paths.push(join(home, "Music"));
    let documents = join(home, "Documents");
    paths.push(join(documents.as_str(), "Music"));
    let downloads = join(home, "Downloads");
    paths.push(join(downloads.as_str(), "Music"));
    if listed(readable, "/usr/share/music") {
        paths.push("/usr/share/music".to_owned());
    }
    if listed(readable, "/var/music") {
        paths.push("/var/music".to_owned());
    }
    if listed(readable, "/usr/local/share/music") {
        paths.push("/usr/local/share/music".to_owned());
    }
    assert(text_views(paths@) =~= default_paths(
        opt_str(audio_dir),
        opt_str(home_dir),
        text_views(readable@),
    ));
    paths
}

/// One watch flag for each of `count` roots: root `i` is watched where
/// `subscribed` has an entry for it and that is `true`.
fn watch_flags(count: usize, subscribed: &Vec<bool>) -> (flags: Vec<bool>)
    ensures
        flags@ == Seq::new(count as nat, |i: int| i < subscribed@.len() && subscribed@[i]),
{
    let mut flags: Vec<bool> = Vec::new();
    let mut i: usize = 0;
    while i < count
        invariant
            i <= count,
            flags.len() == i,
            forall|k: int|
                0 <= k < i ==> #[trigger] flags[k] == (k < subscribed@.len() && subscribed@[k]),
        decreases count - i,
    {
        let live: bool = i < subscribed.len() && subscribed[i];
        flags.push(live);
        i = i + 1;
    }
    assert(flags@ =~= Seq::new(count as nat, |i: int| i < subscribed@.len() && subscribed@[i]));
    flags
}

/// Decides [`is_below`].
pub fn path_is_below(root: &str, path: &str) -> (r: bool)
    ensures
        r == is_below(root@, path@),
{
    let above: Vec<char> = chars_of(root);
    let below: Vec<char> = chars_of(path);
    let lr: usize = above.len();
    let lp: usize = below.len();
    if lr > lp {
        return false;
    }
    let mut i: usize = 0;
    while i < lr
        invariant
            above@ == root@,
            below@ == path@,
            lr == root@.len(),
            lp == path@.len(),
            lr <= lp,
            i <= lr,
            forall|k: int| 0 <= k < i ==> root@[k] == path@[k],
        decreases lr - i,
    {
        if above[i] != below[i] {
            return false;
        }
        i = i + 1;
    }
    if lr == lp {
        return true;
    }
    if lr > 0 && above[lr - 1] == '/' {
        return true;
    }
    below[lr] == '/'
}

/// The directories to index and to watch.
pub struct LibraryScanner {
    scan_paths: Vec<String>,
    watched: Vec<bool>,
}

impl View for LibraryScanner {
    type V = ScannerView;

    closed spec fn view(&self) -> ScannerView {
        ScannerView { paths: text_views(self.scan_paths@), watched: self.watched@ }
    }
}

impl LibraryScanner {
    /// Every root has its watch flag.
    pub closed spec fn wf(&self) -> bool {
        self@.paths.len() == self@.watched.len()
    }

    /// What [`LibraryScanner::wf`] says of the view.
    pub proof fn lemma_valid(&self)
        requires
            self.wf(),
        ensures
            self@.paths.len() == self@.watched.len(),
    {
    }

    /// A scanner without scan roots.
    pub fn new() -> (s: Self)
        ensures
            s.wf(),
            s@.paths == Seq::<Seq<char>>::empty(),
            s@.watched == Seq::<bool>::empty(),
    {
        let s = LibraryScanner { scan_paths: Vec::new(), watched: Vec::new() };
        assert(s@.paths =~= Seq::empty());
        s
    }

    /// Replaces the scan roots by the ones to start out with; see
    /// [`default_paths`]. None of them is watched yet. `audio_dir` and
    /// `home_dir` are the user's music and home directory where the caller
    /// knows them, `readable` the system-wide directories that it found
    /// readable.
    pub fn initialize_default_paths(
        &mut self,
        audio_dir: Option<&str>,
        home_dir: Option<&str>,
        readable: &Vec<String>,
    )
        ensures
            final(self).wf(),
            final(self)@.paths == default_paths(
                opt_str(audio_dir),
                opt_str(home_dir),
                text_views(readable@),
            ),
            final(self)@.watched == Seq::new(final(self)@.paths.len(), |i: int| false),
    {
        let paths = default_scan_paths(audio_dir, home_dir, readable);
        let flags = watch_flags(paths.len(), &Vec::new());
        self.scan_paths = paths;
        self.watched = flags;
        assert(self@.watched =~= Seq::new(self@.paths.len(), |i: int| false));
    }

    /// A walk over the scan roots, to find the files for
    /// [`LibraryScanner::scan_library`].
    pub fn begin_scan(&self) -> (w: ScanWalk)
        ensures
            w.wf(),
            !w@.cancelled,
            w@.found == Seq::<Seq<char>>::empty(),
            w@.pending == Seq::new(
                self@.paths.len(),
                |i: int| PendingView { path: self@.paths[self@.paths.len() - 1 - i], depth: 0 },
            ),
    {
        let w = ScanWalk::new(&self.scan_paths);
        assert(w@.pending =~= Seq::new(
            self@.paths.len(),
            |i: int| PendingView { path: self@.paths[self@.paths.len() - 1 - i], depth: 0 },
        ));
        w
    }

    /// Adds `path` as the last scan root, not yet watched, where
    /// `is_directory` says that it is a directory that exists and can be
    /// read. Any other path is turned down and nothing changes. Says whether
    /// the path was added.
    pub fn add_scan_path(&mut self, path: String, is_directory: bool) -> (added: bool)
        requires
            old(self).wf(),
        ensures
            final(self).wf(),
            added == is_directory,
            added ==> final(self)@ == (ScannerView {
                paths: old(self)@.paths.push(path@),
                watched: old(self)@.watched.push(false),
            }),
            !added ==> final(self)@ == old(self)@,
    {
        if is_directory {
            let ghost before = self@;
            self.scan_paths.push(path);
            self.watched.push(false);
            assert(self@.paths =~= before.paths.push(path@));
            true
        } else {
            false
        }
    }

    /// The scan roots.
    pub fn get_scan_paths(&self) -> (paths: &Vec<String>)
        ensures
            text_views(paths@) == self@.paths,
    {
        &self.scan_paths
    }

    /// Removes the scan root at `index`, and with it its watch. Fails with
    /// `InvalidIndex`, and changes nothing, where there are not that many
    /// roots.
    pub fn remove_scan_path(&mut self, index: usize) -> (r: Result<(), LibraryError>)
        requires
            old(self).wf(),
        ensures
            final(self).wf(),
            r is Ok <==> index < old(self)@.paths.len(),
            match r {
                Ok(_) => final(self)@ == (ScannerView {
                    paths: old(self)@.paths.remove(index as int),
                    watched: old(self)@.watched.remove(index as int),
                }),
                Err(e) => e == LibraryError::InvalidIndex && final(self)@ == old(self)@,
            },
    {
        if index < self.scan_paths.len() {
            let ghost before = self@;
            self.scan_paths.remove(index);
            self.watched.remove(index);
            assert(self@.paths =~= before.paths.remove(index as int));
            Ok(())
        } else {
            Err(LibraryError::InvalidIndex)
        }
    }

    /// Takes note of which roots the caller could subscribe to: root `i` is
    /// watched from now on where `subscribed` has an entry for it and that is
    /// `true`. A root that could not be subscribed to is not watched; the
    /// others are.
    pub fn start_file_watcher(&mut self, subscribed: &Vec<bool>)
        requires
            old(self).wf(),
        ensures
            final(self).wf(),
            final(self)@.paths == old(self)@.paths,
            final(self)@.watched == Seq::new(
                old(self)@.paths.len(),
                |i: int| i < subscribed@.len() && subscribed@[i],
            ),
    {
        self.watched = watch_flags(self.scan_paths.len(), subscribed);
        assert(self@.watched =~= Seq::new(
            old(self)@.paths.len(),
            |i: int| i < subscribed@.len() && subscribed@[i],
        ));
    }

    /// Stops watching: no root is watched afterwards. The roots stay.
    pub fn stop_file_watcher(&mut self)
        requires
            old(self).wf(),
        ensures
            final(self).wf(),
            final(self)@.paths == old(self)@.paths,
            final(self)@.watched == Seq::new(old(self)@.paths.len(), |i: int| false),
            !final(self)@.watching(),
    {
        self.watched = watch_flags(self.scan_paths.len(), &Vec::new());
        assert(self@.watched =~= Seq::new(old(self)@.paths.len(), |i: int| false));
    }

    /// Whether some root is being watched.
    pub fn is_watching(&self) -> (r: bool)
        ensures
            r == self@.watching(),
    {
        let n: usize = self.watched.len();
        let mut i: usize = 0;
        while i < n
            invariant
                n == self.watched.len(),
                i <= n,
                forall|k: int| 0 <= k < i ==> !(#[trigger] self.watched[k]),
            decreases n - i,
        {
            if self.watched[i] {
                assert(self@.watched[i as int]);
                return true;
            }
            i = i + 1;
        }
        assert forall|k: int| 0 <= k < self@.watched.len() implies !(#[trigger] self@.watched[k]) by {
            assert(!self.watched[k]);
        }
        false
    }

    /// Whether changes to `path` are being watched.
    pub fn is_watched(&self, path: &str) -> (r: bool)
        requires
            self.wf(),
        ensures
            r == self@.watches(path@),
    {
        let n: usize = self.scan_paths.len();
        let mut i: usize = 0;
        while i < n
            invariant
                n == self.scan_paths.len(),
                n == self.watched.len(),
                i <= n,
                forall|k: int|
                    0 <= k < i ==> !(self@.watched[k] && is_below(#[trigger] self@.paths[k], path@)),
            decreases n - i,
        {
            if self.watched[i] && path_is_below(self.scan_paths[i].as_str(), path) {
                assert(self@.watched[i as int] && is_below(self@.paths[i as int], path@));
                return true;
            }
            assert(self@.paths[i as int] == self.scan_paths[i as int]@);
            i = i + 1;
        }
        false
    }

    /// Whether the caller has to read the tags of the file at `path` before
    /// it hands the change to [`LibraryScanner::handle_change`]: the
    /// path is watched, and an audio file was created or modified.
    pub fn wants_tags(&self, kind: ChangeKind, path: &str) -> (r: bool)
        requires
            self.wf(),
        ensures
            r == (self@.watches(path@) && asks_for_tags(kind, path@)),
    {
        let fresh: bool = match kind {
            ChangeKind::Created | ChangeKind::Modified => true,
            _ => false,
        };
        fresh && is_audio_file(path) && self.is_watched(path)
    }

    /// Brings the catalog up to date with a change to one path. `tags` is
    /// what was read from the file, `None` where nothing could be read or
    /// nothing was asked for.
    ///
    /// A change to a path below no watched root is ignored: once a root is
    /// removed or no longer watched, nothing that happens below it alone
    /// reaches the catalog. A removal takes the song at the path out of the
    /// catalog, with its playlist entries. A creation or a modification of an
    /// audio file writes its tags, as a scan does; where they could not be
    /// read or stored the change is skipped.
    pub fn handle_change(
        &self,
        database: &mut LibraryDatabase,
        kind: ChangeKind,
        path: &str,
        tags: &Option<AudioMetadata>,
    ) -> (outcome: WatchOutcome)
        requires
            self.wf(),
            old(database).wf(),
        ensures
            final(database).wf(),
            final(database)@ == after_change(
                old(database)@,
                self@.watches(path@),
                kind,
                path@,
                *tags,
            ),
            outcome == outcome_of(old(database)@, self@.watches(path@), kind, path@, *tags),
    {
        if !self.is_watched(path) {
            return WatchOutcome::Ignored;
        }
        match kind {
            ChangeKind::Removed => {
                database.remove_song(path);
                WatchOutcome::Removed
            },
            ChangeKind::Created | ChangeKind::Modified => {
                if !is_audio_file(path) {
                    return WatchOutcome::Ignored;
                }
                match tags {
                    Some(m) => {
                        match database.add_song(path, m) {
                            Ok(_) => WatchOutcome::Indexed,
                            Err(_) => WatchOutcome::Skipped,
                        }
                    },
                    None => WatchOutcome::Skipped,
                }
            },
            ChangeKind::Other => WatchOutcome::Ignored,
        }
    }

    /// Brings the catalog up to date with one event: the same change to each
    /// of its paths, first to last, as [`LibraryScanner::handle_change`] does
    /// it. Returns what became of each path.
    pub fn handle_filesystem_event(&self, database: &mut LibraryDatabase, event: &ChangeEvent) -> (outcomes:
        Vec<WatchOutcome>)
        requires
            self.wf(),
            old(database).wf(),
        ensures
            final(database).wf(),
            final(database)@ == after_event(old(database)@, self@, event.kind, event.files@),
            outcomes@ == event_outcomes(old(database)@, self@, event.kind, event.files@),
    {
        let ghost start = database@;
        let n: usize = event.files.len();
        let mut outcomes: Vec<WatchOutcome> = Vec::new();
        let mut i: usize = 0;
        while i < n
            invariant
                n == event.files.len(),
                i <= n,
                self.wf(),
                database.wf(),
                database@ == after_event(start, self@, event.kind, event.files@.take(i as int)),
                outcomes@ == event_outcomes(start, self@, event.kind, event.files@.take(i as int)),
            decreases n - i,
        {
            proof {
                let next = event.files@.take(i + 1);
                assert(next.drop_last() =~= event.files@.take(i as int));
                assert(next.last() == event.files@[i as int]);
            }
            let file = &event.files[i];
            let outcome = self.handle_change(database, event.kind, file.path.as_str(), &file.tags);
            outcomes.push(outcome);
            i = i + 1;
        }
        assert(event.files@.take(n as int) =~= event.files@);
        outcomes
    }

    /// Writes what a scan has found to the catalog and returns how many files
    /// it has written. A file goes in where it is an audio file whose tags
    /// were read and can be stored; every other file is passed over, and the
    /// scan goes on with the next.
    pub fn scan_library(&self, database: &mut LibraryDatabase, files: &Vec<ScannedFile>) -> (count:
        usize)
        requires
            old(database).wf(),
        ensures
            final(database).wf(),
            final(database)@ == after_scan(old(database)@, files@),
            count == scan_count(old(database)@, files@),
    {
        let ghost start = database@;
        let n: usize = files.len();
        let mut count: usize = 0;
        let mut i: usize = 0;
        while i < n
            invariant
                n == files.len(),
                i <= n,
                count <= i,
                database.wf(),
                database@ == after_scan(start, files@.take(i as int)),
                count == scan_count(start, files@.take(i as int)),
            decreases n - i,
        {
            let ghost done = files@.take(i as int);
            proof {
                let next = files@.take(i + 1);
                assert(next.drop_last() =~= done);
                assert(next.last() == files@[i as int]);
            }
            let file = &files[i];
            if is_audio_file(file.path.as_str()) {
                match &file.tags {
                    Some(tags) => {
                        match database.add_song(file.path.as_str(), tags) {
                            Ok(_) => {
                                count = count + 1;
                            },
                            Err(_) => {},
                        }
                    },
                    None => {},
                }
            }
            i = i + 1;
        }
        assert(files@.take(n as int) =~= files@);
        count
    }
}

/// The two files were read alike: both with tags or both without, and where
/// with, the tags say the same and can be stored alike.
pub open spec fn same_reading(f: ScannedFile, g: ScannedFile) -> bool {
    &&& f.tags is Some <==> g.tags is Some
    &&& f.tags is Some ==> f.tags.unwrap().tags() == g.tags.unwrap().tags()
        && f.tags.unwrap().storable() == g.tags.unwrap().storable()
}

/// Whenever a path comes up twice among the files, it was read alike both
/// times: the files come from a directory tree that did not change meanwhile.
pub open spec fn unchanged_tree(files: Seq<ScannedFile>) -> bool {
    forall|i: int, j: int|
        0 <= i < files.len() && 0 <= j < files.len() && (#[trigger] files[i]).path@ == (
        #[trigger] files[j]).path@ ==> same_reading(files[i], files[j])
}

/// Scanning the file changes nothing in this catalog.
pub open spec fn settled(c: CatalogView, f: ScannedFile) -> bool {
    after_file(c, f) == c
}

/// A scan keeps the catalog valid.
pub proof fn lemma_after_scan_valid(c: CatalogView, files: Seq<ScannedFile>)
    requires
        c.valid(),
    ensures
        after_scan(c, files).valid(),
    decreases files.len(),
{
    if files.len() > 0 {
        lemma_after_scan_valid(c, files.drop_last());
        let d = after_scan(c, files.drop_last());
        if indexable(d, files.last()) {
            lemma_upsert_valid(d, files.last().path@, files.last().tags.unwrap().tags());
        }
    }
}

/// Once a file was scanned, scanning it again changes nothing.
proof fn lemma_settles(c: CatalogView, f: ScannedFile)
    requires
        c.valid(),
    ensures
        settled(after_file(c, f), f),
{
    if indexable(c, f) {
        lemma_upsert_idempotent(c, f.path@, f.tags.unwrap().tags());
    }
}

/// A file that is settled stays settled when another file is scanned, as long
/// as a file of the same path was read alike.
proof fn lemma_stays_settled(c: CatalogView, f: ScannedFile, g: ScannedFile)
    requires
        c.valid(),
        settled(c, f),
        f.path@ == g.path@ ==> same_reading(f, g),
    ensures
        settled(after_file(c, g), f),
{
    if indexable(c, g) {
        let gt = g.tags.unwrap().tags();
        let d = c.upsert(g.path@, gt);
        if f.path@ == g.path@ {
            assert(indexable(c, f));
        } else if is_audio_path(f.path@) && f.tags is Some && f.tags.unwrap().storable() {
            let ft = f.tags.unwrap().tags();
            lemma_upsert_valid(c, g.path@, gt);
            lemma_upsert_keeps_other_rows(c, g.path@, gt, f.path@);
            if has_path(c.songs, f.path@) {
                let k = index_of_path(c.songs, f.path@);
                assert(c.upsert(f.path@, ft).songs[k] == c.songs[k]);
                assert(c.songs[k].tags == ft);
                let m = index_of_path(d.songs, f.path@);
                assert(d.songs[m].tags == ft);
                assert(d.upsert(f.path@, ft).songs =~= d.songs);
            } else {
                if c.next_song_id < i64::MAX {
                    assert(c.upsert(f.path@, ft).songs.len() == c.songs.len() + 1);
                }
                assert(has_path(c.songs, g.path@));
            }
        }
    }
}

/// After a scan of an unchanged tree every file of it is settled.
proof fn lemma_scan_settles_all(c: CatalogView, files: Seq<ScannedFile>, k: int)
    requires
        c.valid(),
        unchanged_tree(files),
        0 <= k < files.len(),
    ensures
        settled(after_scan(c, files), files[k]),
    decreases files.len(),
{
    let init = files.drop_last();
    let d = after_scan(c, init);
    lemma_after_scan_valid(c, init);
    if k == files.len() - 1 {
        lemma_settles(d, files.last());
    } else {
        assert forall|i: int, j: int|
            0 <= i < init.len() && 0 <= j < init.len() && (#[trigger] init[i]).path@ == (
            #[trigger] init[j]).path@ implies same_reading(init[i], init[j]) by {
            assert(init[i] == files[i]);
            assert(init[j] == files[j]);
        }
        lemma_scan_settles_all(c, init, k);
        assert(init[k] == files[k]);
        assert(files[k].path@ == files.last().path@ ==> same_reading(files[k], files.last())) by {
            assert(files.last() == files[files.len() - 1]);
        }
        lemma_stays_settled(d, files[k], files.last());
    }
}

/// After tags were written for a path, the catalog has a row for it.
proof fn lemma_upsert_has_path(c: CatalogView, path: Seq<char>, tags: TagView)
    requires
        c.valid(),
        c.has_room_for(path),
    ensures
        has_path(c.upsert(path, tags).songs, path),
{
    lemma_upsert_idempotent(c, path, tags);
    let d = c.upsert(path, tags);
    if has_path(c.songs, path) {
        lemma_upsert_keeps_user_state(c, path, tags);
    } else {
        assert(d.songs[c.songs.len() as int].path == path);
    }
}

/// Scanning a file takes no path out of the catalog and makes no room in it.
proof fn lemma_file_keeps_paths(c: CatalogView, g: ScannedFile, path: Seq<char>)
    requires
        c.valid(),
    ensures
        has_path(c.songs, path) ==> has_path(after_file(c, g).songs, path),
        !c.has_room_for(path) ==> !after_file(c, g).has_room_for(path),
{
    if indexable(c, g) {
        let tags = g.tags.unwrap().tags();
        if g.path@ == path {
            lemma_upsert_has_path(c, path, tags);
        } else {
            lemma_upsert_keeps_other_rows(c, g.path@, tags, path);
        }
    }
}

/// What holds of a path after the scan has dealt with the first `k` files
/// still holds after the first `m`: a path that is in the catalog stays in it,
/// and one for which there is no room gets none.
proof fn lemma_scan_keeps_paths(
    c: CatalogView,
    files: Seq<ScannedFile>,
    k: int,
    m: int,
    path: Seq<char>,
)
    requires
        c.valid(),
        0 <= k <= m <= files.len(),
    ensures
        has_path(after_scan(c, files.take(k)).songs, path) ==> has_path(
            after_scan(c, files.take(m)).songs,
            path,
        ),
        !after_scan(c, files.take(k)).has_room_for(path) ==> !after_scan(
            c,
            files.take(m),
        ).has_room_for(path),
    decreases m - k,
{
    if k < m {
        lemma_scan_keeps_paths(c, files, k, m - 1, path);
        assert(files.take(m).drop_last() =~= files.take(m - 1));
        lemma_after_scan_valid(c, files.take(m - 1));
        lemma_file_keeps_paths(after_scan(c, files.take(m - 1)), files[m - 1], path);
    }
}

/// A second scan of an unchanged tree writes as many of the first `j` files
/// as the first scan did.
proof fn lemma_rescan_counts(c: CatalogView, files: Seq<ScannedFile>, j: int)
    requires
        c.valid(),
        unchanged_tree(files),
        0 <= j <= files.len(),
    ensures
        scan_count(after_scan(c, files), files.take(j)) == scan_count(c, files.take(j)),
        after_scan(after_scan(c, files), files.take(j)) == after_scan(c, files),
    decreases j,
{
    let once = after_scan(c, files);
    if j > 0 {
        lemma_rescan_counts(c, files, j - 1);
        let f = files[j - 1];
        let before = after_scan(c, files.take(j - 1));
        assert(files.take(j).drop_last() =~= files.take(j - 1));
        assert(files.take(j).last() == f);
        assert(files.take(files.len() as int) =~= files);
        lemma_scan_settles_all(c, files, j - 1);
        lemma_after_scan_valid(c, files.take(j - 1));
        lemma_scan_keeps_paths(c, files, j - 1, files.len() as int, f.path@);
        if indexable(before, f) {
            lemma_upsert_has_path(before, f.path@, f.tags.unwrap().tags());
            lemma_scan_keeps_paths(c, files, j, files.len() as int, f.path@);
        }
    }
}

/// Scanning an unchanged tree a second time leaves the catalog as the first
/// scan left it: the same rows with the same content, none twice, and what
/// the listener recorded untouched. The second scan writes as many files as
/// the first.
pub proof fn lemma_scan_idempotent(c: CatalogView, files: Seq<ScannedFile>)
    requires
        c.valid(),
        unchanged_tree(files),
    ensures
        after_scan(after_scan(c, files), files) == after_scan(c, files),
        scan_count(after_scan(c, files), files) == scan_count(c, files),
{
    lemma_rescan_counts(c, files, files.len() as int);
    assert(files.take(files.len() as int) =~= files);
}

/// A removal on disk below a watched root does to the catalog what removing
/// the song does: the row goes, and its playlist entries with it.
pub proof fn lemma_removal_cascades(
    v: ScannerView,
    c: CatalogView,
    path: Seq<char>,
    tags: Option<AudioMetadata>,
)
    requires
        v.watches(path),
    ensures
        after_change(c, v.watches(path), ChangeKind::Removed, path, tags) == c.remove_song(path),
{
}

/// Once a root is gone, a change below it reaches the catalog only if another
/// watched root covers the path: otherwise the change is ignored, whatever it
/// is.
pub proof fn lemma_removed_root_is_silent(
    v: ScannerView,
    index: int,
    c: CatalogView,
    kind: ChangeKind,
    path: Seq<char>,
    tags: Option<AudioMetadata>,
)
    requires
        v.paths.len() == v.watched.len(),
        0 <= index < v.paths.len(),
        forall|i: int|
            0 <= i < v.paths.len() && i != index && v.watched[i] ==> !is_below(
                #[trigger] v.paths[i],
                path,
            ),
    ensures
        ({
            let left = ScannerView {
                paths: v.paths.remove(index),
                watched: v.watched.remove(index),
            };
            &&& !left.watches(path)
            &&& after_change(c, left.watches(path), kind, path, tags) == c
            &&& outcome_of(c, left.watches(path), kind, path, tags) == WatchOutcome::Ignored
        }),
{
    let left = ScannerView { paths: v.paths.remove(index), watched: v.watched.remove(index) };
    assert forall|i: int|
        0 <= i < left.paths.len() && i < left.watched.len() && left.watched[i] implies !is_below(
        #[trigger] left.paths[i],
        path,
    ) by {
        let k = if i < index { i } else { i + 1 };
        assert(left.paths[i] == v.paths[k]);
        assert(left.watched[i] == v.watched[k]);
    }
}

/// A creation and a modification of the same file, read alike, may arrive
/// in either order and either of them twice: the catalog ends up as after
/// one of them.
pub proof fn lemma_change_order_is_immaterial(
    c: CatalogView,
    watched: bool,
    path: Seq<char>,
    tags: Option<AudioMetadata>,
)
    requires
        c.valid(),
    ensures
        after_change(c, watched, ChangeKind::Created, path, tags) == after_change(
            c,
            watched,
            ChangeKind::Modified,
            path,
            tags,
        ),
        after_change(
            after_change(c, watched, ChangeKind::Created, path, tags),
            watched,
            ChangeKind::Modified,
            path,
            tags,
        ) == after_change(c, watched, ChangeKind::Created, path, tags),
        after_change(
            after_change(c, watched, ChangeKind::Modified, path, tags),
            watched,
            ChangeKind::Created,
            path,
            tags,
        ) == after_change(c, watched, ChangeKind::Created, path, tags),
{
    if can_index(c, path, tags) {
        lemma_upsert_idempotent(c, path, tags.unwrap().tags());
    }
}

} // verus!
