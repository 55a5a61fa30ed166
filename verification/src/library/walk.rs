//! The walk over the scan roots: which directory to list next, and what to
//! make of each entry of a listing.
//!
//! The walk lists nothing itself. The caller asks for the next directory,
//! lists it, and reports each entry. Links on disk can lead a walk in circles;
//! the walk therefore goes no deeper than [`MAX_SCAN_DEPTH`] directories below
//! a root, so that it ends whatever the links are. It can be cancelled between
//! any two steps.

use vstd::prelude::*;
use crate::library::models::text_views;
use crate::metadata::tag_reader::{is_audio_file, is_audio_path};

verus! {

/// How many directories below a scan root the walk descends.
pub const MAX_SCAN_DEPTH: u32 = 64;

/// A directory that waits to be listed.
#[derive(Debug)]
pub struct PendingDir {
    pub path: String,
    /// How many directories below its scan root it lies.
    pub depth: u32,
}

/// A directory that waits to be listed, as the contracts see it.
pub struct PendingView {
    pub path: Seq<char>,
    pub depth: int,
}

impl View for PendingDir {
    type V = PendingView;

    open spec fn view(&self) -> PendingView {
        PendingView { path: self.path@, depth: self.depth as int }
    }
}

/// The views of a run of directories, in the same order.
pub open spec fn pending_views(dirs: Seq<PendingDir>) -> Seq<PendingView> {
    Seq::new(dirs.len(), |i: int| dirs[i]@)
}

/// A walk as the contracts see it.
pub struct WalkView {
    /// The directories that wait to be listed; the last is next.
    pub pending: Seq<PendingView>,
    /// The audio files found so far, in the order in which they were reported.
    pub found: Seq<Seq<char>>,
    pub cancelled: bool,
}

impl WalkView {
    /// No directory that waits lies deeper than the walk descends.
    pub open spec fn valid(self) -> bool {
        forall|i: int|
            0 <= i < self.pending.len() ==> 0 <= (#[trigger] self.pending[i]).depth
                <= MAX_SCAN_DEPTH
    }

    /// The walk is over: it was cancelled, or no directory waits.
    pub open spec fn finished(self) -> bool {
        self.cancelled || self.pending.len() == 0
    }

    /// The walk after an entry of a directory at depth `parent_depth` was
    /// reported. A directory waits from then on, unless it would lie too deep;
    /// an audio file counts as found; anything else, and anything reported to
    /// a cancelled walk, is passed over.
    pub open spec fn with_entry(self, parent_depth: int, path: Seq<char>, is_directory: bool) -> WalkView {
        if self.cancelled {
            self
        } else if is_directory {
            if parent_depth < MAX_SCAN_DEPTH {
                WalkView {
                    pending: self.pending.push(PendingView { path, depth: parent_depth + 1 }),
                    ..self
                }
            } else {
                self
            }
        } else if is_audio_path(path) {
            WalkView { found: self.found.push(path), ..self }
        } else {
            self
        }
    }
}

/// A walk over the scan roots.
pub struct ScanWalk {
    pending: Vec<PendingDir>,
    found: Vec<String>,
    cancelled: bool,
}

impl View for ScanWalk {
    type V = WalkView;

    closed spec fn view(&self) -> WalkView {
        WalkView {
            pending: pending_views(self.pending@),
            found: text_views(self.found@),
            cancelled: self.cancelled,
        }
    }
}

impl ScanWalk {
    /// The walk keeps what every walk keeps.
    pub closed spec fn wf(&self) -> bool {
        self@.valid()
    }

    /// What [`ScanWalk::wf`] says of the view.
    pub proof fn lemma_valid(&self)
        requires
            self.wf(),
        ensures
            self@.valid(),
    {
    }

    /// A walk that has the roots to list, the first root first, and has found
    /// nothing yet.
    pub fn new(roots: &Vec<String>) -> (w: Self)
        ensures
            w.wf(),
            !w@.cancelled,
            w@.found == Seq::<Seq<char>>::empty(),
            w@.pending == Seq::new(
                roots@.len(),
                |i: int| PendingView { path: roots@[roots@.len() - 1 - i]@, depth: 0 },
            ),
    {
        let n: usize = roots.len();
        let mut pending: Vec<PendingDir> = Vec::new();
        let mut i: usize = 0;
        while i < n
            invariant
                n == roots.len(),
                i <= n,
                pending.len() == i,
                forall|k: int|
                    0 <= k < i ==> (#[trigger] pending[k])@ == (PendingView {
                        path: roots@[n - 1 - k]@,
                        depth: 0,
                    }),
            decreases n - i,
        {
            pending.push(PendingDir { path: roots[n - 1 - i].clone(), depth: 0 });
            i = i + 1;
        }
        let w = ScanWalk { pending, found: Vec::new(), cancelled: false };
        proof {
            assert(w@.found =~= Seq::empty());
            assert(w@.pending =~= Seq::new(
                roots@.len(),
                |i: int| PendingView { path: roots@[roots@.len() - 1 - i]@, depth: 0 },
            ));
        }
        w
    }

    /// Cancels the walk: no directory is handed out afterwards and no entry
    /// is taken.
    pub fn cancel(&mut self)
        requires
            old(self).wf(),
        ensures
            final(self).wf(),
            final(self)@ == (WalkView { cancelled: true, ..old(self)@ }),
            final(self)@.finished(),
    {
        self.cancelled = true;
    }

    /// Whether the walk was cancelled.
    pub fn is_cancelled(&self) -> (r: bool)
        ensures
            r == self@.cancelled,
    {
        self.cancelled
    }

    /// The directory to list next, which no longer waits afterwards; `None`,
    /// and no change, where the walk is over.
    pub fn next_directory(&mut self) -> (r: Option<PendingDir>)
        requires
            old(self).wf(),
        ensures
            final(self).wf(),
            r is None <==> old(self)@.finished(),
            match r {
                Some(dir) => {
                    &&& dir@ == old(self)@.pending.last()
                    &&& dir@.depth <= MAX_SCAN_DEPTH
                    &&& final(self)@ == (WalkView {
                        pending: old(self)@.pending.drop_last(),
                        ..old(self)@
                    })
                },
                None => final(self)@ == old(self)@,
            },
    {
        if self.cancelled {
            return None;
        }
        let ghost before = self@;
        match self.pending.pop() {
            Some(dir) => {
                proof {
                    assert(dir@ == before.pending[before.pending.len() - 1]);
                    assert(self@.pending =~= before.pending.drop_last());
                    assert forall|i: int| 0 <= i < self@.pending.len() implies 0 <= (
                    #[trigger] self@.pending[i]).depth <= MAX_SCAN_DEPTH by {
                        assert(self@.pending[i] == before.pending[i]);
                    }
                }
                Some(dir)
            },
            None => None,
        }
    }

    /// Takes note of one entry of a directory that lies `parent_depth`
    /// directories below its root. A directory waits from then on, unless it
    /// would lie deeper than [`MAX_SCAN_DEPTH`]; an audio file counts as
    /// found; anything else, and anything reported after the walk was
    /// cancelled, is passed over.
    pub fn record_entry(&mut self, parent_depth: u32, path: String, is_directory: bool)
        requires
            old(self).wf(),
        ensures
            final(self).wf(),
            final(self)@ == old(self)@.with_entry(parent_depth as int, path@, is_directory),
    {
        if self.cancelled {
            return ;
        }
        let ghost before = self@;
        if is_directory {
            if parent_depth < MAX_SCAN_DEPTH {
                self.pending.push(PendingDir { path, depth: parent_depth + 1 });
                proof {
                    let after = before.with_entry(parent_depth as int, path@, is_directory);
                    assert(self@.pending =~= after.pending);
                    assert forall|i: int| 0 <= i < self@.pending.len() implies 0 <= (
                    #[trigger] self@.pending[i]).depth <= MAX_SCAN_DEPTH by {
                        if i < before.pending.len() {
                            assert(self@.pending[i] == before.pending[i]);
                        }
                    }
                }
            }
        } else if is_audio_file(path.as_str()) {
            self.found.push(path);
            assert(self@.found =~= before.found.push(path@));
        }
    }

    /// The audio files found so far.
    pub fn found(&self) -> (files: &Vec<String>)
        ensures
            text_views(files@) == self@.found,
    {
        &self.found
    }
}

} // verus!
