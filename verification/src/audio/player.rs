//! The playback session: a queue, a transport state and a clock estimate.
//!
//! The session never touches an audio device or a clock. The caller carries
//! out what a command implies on the device, tells the session whether a file
//! could be loaded, and hands in the reading of a monotonic clock in seconds.
//! The position that the session reports is an estimate: the time that has
//! passed on that clock since playback was last started or moved, with no
//! correction for a device that stalls.

use vstd::prelude::*;
use crate::error::LibraryError;
use crate::library::models::{song_views, Song, SongView};

verus! {

/// What the transport is doing.
#[derive(Clone, Copy, Debug, PartialEq, Eq, Structural)]
pub enum TransportState {
    /// No song is selected.
    Idle,
    /// A song is selected and nothing is playing.
    Ready,
    Playing,
    Paused,
}

/// The loudest volume: the volume is counted in thousandths of full volume.
pub const FULL_VOLUME: u16 = 1000;

/// The length of a song in seconds, where the catalog knows one. A negative
/// length counts as unknown.
pub open spec fn known_duration(song: SongView) -> Option<int> {
    match song.tags.duration {
        Some(d) => if d >= 0 {
            Some(d as int)
        } else {
            None
        },
        None => None,
    }
}

/// The place after `index` in a queue of `len` songs, the first after the
/// last.
pub open spec fn index_after(index: int, len: int) -> int {
    if index + 1 < len {
        index + 1
    } else {
        0
    }
}

/// The place before `index` in a queue of `len` songs, the last before the
/// first.
pub open spec fn index_before(index: int, len: int) -> int {
    if index > 0 {
        index - 1
    } else {
        len - 1
    }
}

/// `seconds` brought into `0..=duration`.
pub open spec fn clamped(seconds: int, duration: int) -> int {
    if seconds < 0 {
        0
    } else if seconds > duration {
        duration
    } else {
        seconds
    }
}

/// A playback session as the contracts see it.
pub struct PlayerView {
    pub queue: Seq<SongView>,
    pub current_index: Option<int>,
    pub state: TransportState,
    /// In thousandths of full volume.
    pub volume: int,
    /// The clock reading when playback was last started or moved.
    pub anchor: int,
    /// The position in the song at that moment, in seconds.
    pub seek_offset: int,
}

impl PlayerView {
    /// What holds of every session: the current song is in the queue; the
    /// transport is idle exactly when no song is selected; the volume is
    /// within range; the remembered position is within the song where its
    /// length is known.
    pub open spec fn valid(self) -> bool {
        &&& self.current_index matches Some(i) ==> 0 <= i < self.queue.len()
        &&& self.state == TransportState::Idle <==> self.current_index is None
        &&& 0 <= self.volume <= FULL_VOLUME
        &&& 0 <= self.anchor <= u64::MAX
        &&& 0 <= self.seek_offset <= u64::MAX
        &&& self.duration() matches Some(d) ==> self.seek_offset <= d
    }

    /// A new session: nothing queued, nothing selected, full volume.
    pub open spec fn initial() -> PlayerView {
        PlayerView {
            queue: Seq::empty(),
            current_index: None,
            state: TransportState::Idle,
            volume: FULL_VOLUME as int,
            anchor: 0,
            seek_offset: 0,
        }
    }

    /// The known length of the current song.
    pub open spec fn duration(self) -> Option<int> {
        match self.current_index {
            Some(i) => known_duration(self.queue[i]),
            None => None,
        }
    }

    /// The estimated position at clock reading `now`: the remembered position,
    /// plus, while playing, the time since it was remembered; never beyond
    /// the song's known length, nor beyond `u64::MAX`.
    pub open spec fn position_at(self, now: int) -> int {
        let run = if self.state == TransportState::Playing && now > self.anchor {
            now - self.anchor
        } else {
            0
        };
        let raw = self.seek_offset + run;
        let cap = match self.duration() {
            Some(d) => d,
            None => u64::MAX as int,
        };
        if raw > cap {
            cap
        } else {
            raw
        }
    }

    /// The place that `next` goes to: after the current song, or the first
    /// where none is selected.
    pub open spec fn next_target(self) -> int {
        match self.current_index {
            Some(i) => index_after(i, self.queue.len() as int),
            None => 0,
        }
    }

    /// The place that `previous` goes to: before the current song, or the
    /// first where none is selected.
    pub open spec fn previous_target(self) -> int {
        match self.current_index {
            Some(i) => index_before(i, self.queue.len() as int),
            None => 0,
        }
    }

    /// The session after the song at `index` has started to play at `now`.
    pub open spec fn started(self, index: int, now: int) -> PlayerView {
        PlayerView {
            current_index: Some(index),
            state: TransportState::Playing,
            anchor: now,
            seek_offset: 0,
            ..self
        }
    }
}

/// The playback session controller.
pub struct AudioPlayer {
    queue: Vec<Song>,
    current_index: Option<usize>,
    state: TransportState,
    volume: u16,
    anchor: u64,
    seek_offset: u64,
}

impl View for AudioPlayer {
    type V = PlayerView;

    closed spec fn view(&self) -> PlayerView {
        PlayerView {
            queue: song_views(self.queue@),
            current_index: match self.current_index {
                Some(i) => Some(i as int),
                None => None,
            },
            state: self.state,
            volume: self.volume as int,
            anchor: self.anchor as int,
            seek_offset: self.seek_offset as int,
        }
    }
}

/// Computes [`known_duration`].
fn duration_of(song: &Song) -> (r: Option<u64>)
    ensures
        r is Some <==> known_duration(song@) is Some,
        r matches Some(d) ==> known_duration(song@) == Some(d as int),
{
    match song.duration {
        Some(d) => if d >= 0 {
            Some(d as u64)
        } else {
            None
        },
        None => None,
    }
}

impl AudioPlayer {
    /// The session keeps what every session keeps.
    pub closed spec fn wf(&self) -> bool {
        self@.valid()
    }

    /// What [`AudioPlayer::wf`] says of the view.
    pub proof fn lemma_valid(&self)
        requires
            self.wf(),
        ensures
            self@.valid(),
    {
    }

    /// A session with an empty queue, at full volume.
    pub fn new() -> (p: Self)
        ensures
            p.wf(),
            p@ == PlayerView::initial(),
    {
        let p = AudioPlayer {
            queue: Vec::new(),
            current_index: None,
            state: TransportState::Idle,
            volume: FULL_VOLUME,
            anchor: 0,
            seek_offset: 0,
        };
        assert(p@.queue =~= Seq::empty());
        p
    }

    /// Replaces the queue. No song is selected afterwards and the transport
    /// is idle; the volume stays.
    pub fn load_queue(&mut self, songs: Vec<Song>)
        requires
            old(self).wf(),
        ensures
            final(self).wf(),
            final(self)@ == (PlayerView {
                queue: song_views(songs@),
                current_index: None,
                state: TransportState::Idle,
                seek_offset: 0,
                ..old(self)@
            }),
    {
        self.queue = songs;
        self.current_index = None;
        self.state = TransportState::Idle;
        self.seek_offset = 0;
    }

    /// Adds songs to the end of the queue. Nothing else changes.
    pub fn add_songs(&mut self, songs: Vec<Song>)
        requires
            old(self).wf(),
        ensures
            final(self).wf(),
            final(self)@ == (PlayerView {
                queue: old(self)@.queue + song_views(songs@),
                ..old(self)@
            }),
    {
        let ghost before = self@;
        let mut songs = songs;
        let ghost added = song_views(songs@);
        self.queue.append(&mut songs);
        proof {
            assert(self@.queue =~= before.queue + added);
            if before.current_index is Some {
                let i = before.current_index.unwrap();
                assert(self@.queue[i] == before.queue[i]);
            }
        }
    }

    /// The queue.
    pub fn get_songs(&self) -> (songs: &Vec<Song>)
        ensures
            song_views(songs@) == self@.queue,
    {
        &self.queue
    }

    /// The song at `index` of the queue: the one that the audio device has to
    /// load before [`AudioPlayer::play_index`] is called for that index.
    /// Fails with `InvalidIndex` where the queue is shorter.
    pub fn track_at(&self, index: usize) -> (r: Result<&Song, LibraryError>)
        ensures
            r is Ok <==> index < self@.queue.len(),
            match r {
                Ok(song) => song@ == self@.queue[index as int],
                Err(e) => e == LibraryError::InvalidIndex,
            },
    {
        if index < self.queue.len() {
            Ok(&self.queue[index])
        } else {
            Err(LibraryError::InvalidIndex)
        }
    }

    /// Makes the song at `index` the current one and starts it: the transport
    /// is playing and the position is zero at `now`. `loaded` says whether
    /// the audio device could load and start the file.
    ///
    /// Fails with `InvalidIndex` where the queue is shorter, else with
    /// `TrackUnavailable` where the device could not load the file; either way
    /// nothing changes.
    pub fn play_index(&mut self, index: usize, loaded: bool, now: u64) -> (r: Result<
        (),
        LibraryError,
    >)
        requires
            old(self).wf(),
        ensures
            final(self).wf(),
            r is Ok <==> index < old(self)@.queue.len() && loaded,
            match r {
                Ok(_) => final(self)@ == old(self)@.started(index as int, now as int),
                Err(e) => {
                    &&& final(self)@ == old(self)@
                    &&& e == (if index < old(self)@.queue.len() {
                        LibraryError::TrackUnavailable
                    } else {
                        LibraryError::InvalidIndex
                    })
                },
            },
    {
        if index >= self.queue.len() {
            return Err(LibraryError::InvalidIndex);
        }
        if !loaded {
            return Err(LibraryError::TrackUnavailable);
        }
        self.current_index = Some(index);
        self.state = TransportState::Playing;
        self.anchor = now;
        self.seek_offset = 0;
        Ok(())
    }

    /// The place that [`AudioPlayer::next`] would go to. Fails with
    /// `InvalidState` where the queue is empty.
    pub fn next_index(&self) -> (r: Result<usize, LibraryError>)
        requires
            self.wf(),
        ensures
            r is Ok <==> self@.queue.len() > 0,
            match r {
                Ok(i) => i == self@.next_target() && i < self@.queue.len(),
                Err(e) => e == LibraryError::InvalidState,
            },
    {
        let n: usize = self.queue.len();
        if n == 0 {
            return Err(LibraryError::InvalidState);
        }
        match self.current_index {
            Some(i) => {
                if i < n - 1 {
                    Ok(i + 1)
                } else {
                    Ok(0)
                }
            },
            None => Ok(0),
        }
    }

    /// The place that [`AudioPlayer::previous`] would go to. Fails with
    /// `InvalidState` where the queue is empty.
    pub fn previous_index(&self) -> (r: Result<usize, LibraryError>)
        requires
            self.wf(),
        ensures
            r is Ok <==> self@.queue.len() > 0,
            match r {
                Ok(i) => i == self@.previous_target() && i < self@.queue.len(),
                Err(e) => e == LibraryError::InvalidState,
            },
    {
        let n: usize = self.queue.len();
        if n == 0 {
            return Err(LibraryError::InvalidState);
        }
        match self.current_index {
            Some(i) => {
                if i > 0 {
                    Ok(i - 1)
                } else {
                    Ok(n - 1)
                }
            },
            None => Ok(0),
        }
    }

    /// Goes to the song after the current one, from the last to the first,
    /// and starts it as [`AudioPlayer::play_index`] does. `loaded` says whether
    /// the audio device could load the song at [`AudioPlayer::next_index`].
    ///
    /// Fails with `InvalidState` where the queue is empty, else with
    /// `TrackUnavailable` where the device could not load the file; either way
    /// nothing changes.
    pub fn next(&mut self, loaded: bool, now: u64) -> (r: Result<(), LibraryError>)
        requires
            old(self).wf(),
        ensures
            final(self).wf(),
            r is Ok <==> old(self)@.queue.len() > 0 && loaded,
            match r {
                Ok(_) => final(self)@ == old(self)@.started(old(self)@.next_target(), now as int),
                Err(e) => {
                    &&& final(self)@ == old(self)@
                    &&& e == (if old(self)@.queue.len() > 0 {
                        LibraryError::TrackUnavailable
                    } else {
                        LibraryError::InvalidState
                    })
                },
            },
    {
        match self.next_index() {
            Ok(i) => self.play_index(i, loaded, now),
            Err(e) => Err(e),
        }
    }

    /// Goes to the song before the current one, from the first to the last,
    /// and starts it as [`AudioPlayer::play_index`] does. `loaded` says whether
    /// the audio device could load the song at
    /// [`AudioPlayer::previous_index`].
    ///
    /// Fails with `InvalidState` where the queue is empty, else with
    /// `TrackUnavailable` where the device could not load the file; either way
    /// nothing changes.
    pub fn previous(&mut self, loaded: bool, now: u64) -> (r: Result<(), LibraryError>)
        requires
            old(self).wf(),
        ensures
            final(self).wf(),
            r is Ok <==> old(self)@.queue.len() > 0 && loaded,
            match r {
                Ok(_) => final(self)@ == old(self)@.started(
                    old(self)@.previous_target(),
                    now as int,
                ),
                Err(e) => {
                    &&& final(self)@ == old(self)@
                    &&& e == (if old(self)@.queue.len() > 0 {
                        LibraryError::TrackUnavailable
                    } else {
                        LibraryError::InvalidState
                    })
                },
            },
    {
        match self.previous_index() {
            Ok(i) => self.play_index(i, loaded, now),
            Err(e) => Err(e),
        }
    }

    /// Makes `song` the whole queue and selects it, ready to play from the
    /// start. `loaded` says whether the audio device could load the file.
    /// Fails with `TrackUnavailable`, and changes nothing, where it could not.
    pub fn load_track(&mut self, song: Song, loaded: bool) -> (r: Result<(), LibraryError>)
        requires
            old(self).wf(),
        ensures
            final(self).wf(),
            r is Ok <==> loaded,
            match r {
                Ok(_) => final(self)@ == (PlayerView {
                    queue: seq![song@],
                    current_index: Some(0),
                    state: TransportState::Ready,
                    seek_offset: 0,
                    ..old(self)@
                }),
                Err(e) => e == LibraryError::TrackUnavailable && final(self)@ == old(self)@,
            },
    {
        if !loaded {
            return Err(LibraryError::TrackUnavailable);
        }
        let mut queue: Vec<Song> = Vec::new();
        queue.push(song);
        self.queue = queue;
        self.current_index = Some(0);
        self.state = TransportState::Ready;
        self.seek_offset = 0;
        assert(self@.queue =~= seq![song@]);
        Ok(())
    }

    /// Starts or resumes the current song at `now`, from the remembered
    /// position. Valid when the transport is ready or paused; fails with
    /// `InvalidState`, and changes nothing, otherwise.
    pub fn play(&mut self, now: u64) -> (r: Result<(), LibraryError>)
        requires
            old(self).wf(),
        ensures
            final(self).wf(),
            r is Ok <==> (old(self)@.state == TransportState::Ready || old(self)@.state
                == TransportState::Paused),
            match r {
                Ok(_) => final(self)@ == (PlayerView {
                    state: TransportState::Playing,
                    anchor: now as int,
                    ..old(self)@
                }),
                Err(e) => e == LibraryError::InvalidState && final(self)@ == old(self)@,
            },
    {
        match self.state {
            TransportState::Ready | TransportState::Paused => {
                self.state = TransportState::Playing;
                self.anchor = now;
                Ok(())
            },
            _ => Err(LibraryError::InvalidState),
        }
    }

    /// The same as [`AudioPlayer::play`].
    pub fn resume(&mut self, now: u64) -> (r: Result<(), LibraryError>)
        requires
            old(self).wf(),
        ensures
            final(self).wf(),
            r is Ok <==> (old(self)@.state == TransportState::Ready || old(self)@.state
                == TransportState::Paused),
            match r {
                Ok(_) => final(self)@ == (PlayerView {
                    state: TransportState::Playing,
                    anchor: now as int,
                    ..old(self)@
                }),
                Err(e) => e == LibraryError::InvalidState && final(self)@ == old(self)@,
            },
    {
        self.play(now)
    }

    /// Pauses at `now`: the position of that moment is remembered and stands
    /// still from then on. Valid when the transport is playing; fails with
    /// `InvalidState`, and changes nothing, otherwise.
    pub fn pause(&mut self, now: u64) -> (r: Result<(), LibraryError>)
        requires
            old(self).wf(),
        ensures
            final(self).wf(),
            r is Ok <==> old(self)@.state == TransportState::Playing,
            match r {
                Ok(_) => final(self)@ == (PlayerView {
                    state: TransportState::Paused,
                    anchor: now as int,
                    seek_offset: old(self)@.position_at(now as int),
                    ..old(self)@
                }),
                Err(e) => e == LibraryError::InvalidState && final(self)@ == old(self)@,
            },
    {
        match self.state {
            TransportState::Playing => {
                let position: u64 = self.position(now);
                self.seek_offset = position;
                self.anchor = now;
                self.state = TransportState::Paused;
                Ok(())
            },
            _ => Err(LibraryError::InvalidState),
        }
    }

    /// Stops: the current song stays selected, at position zero. Valid when
    /// the transport is playing or paused; fails with `InvalidState`, and
    /// changes nothing, otherwise.
    pub fn stop(&mut self) -> (r: Result<(), LibraryError>)
        requires
            old(self).wf(),
        ensures
            final(self).wf(),
            r is Ok <==> (old(self)@.state == TransportState::Playing || old(self)@.state
                == TransportState::Paused),
            match r {
                Ok(_) => final(self)@ == (PlayerView {
                    state: TransportState::Ready,
                    seek_offset: 0,
                    ..old(self)@
                }),
                Err(e) => e == LibraryError::InvalidState && final(self)@ == old(self)@,
            },
    {
        match self.state {
            TransportState::Playing | TransportState::Paused => {
                self.state = TransportState::Ready;
                self.seek_offset = 0;
                Ok(())
            },
            _ => Err(LibraryError::InvalidState),
        }
    }

    /// Moves to `seconds` into the current song, brought into the song's
    /// length, and returns the new position. From `now` on the position is
    /// counted from there; the transport state stays. Valid when a song of
    /// known length is selected; fails with `InvalidState`, and changes
    /// nothing, otherwise.
    pub fn seek(&mut self, seconds: i64, now: u64) -> (r: Result<u64, LibraryError>)
        requires
            old(self).wf(),
        ensures
            final(self).wf(),
            r is Ok <==> old(self)@.duration() is Some,
            match r {
                Ok(position) => {
                    &&& position == clamped(seconds as int, old(self)@.duration().unwrap())
                    &&& final(self)@ == (PlayerView {
                        anchor: now as int,
                        seek_offset: position as int,
                        ..old(self)@
                    })
                    &&& final(self)@.position_at(now as int) == position
                },
                Err(e) => e == LibraryError::InvalidState && final(self)@ == old(self)@,
            },
    {
        match self.get_duration() {
            Some(d) => {
                let position: u64 = if seconds < 0 {
                    0
                } else if seconds as u64 > d {
                    d
                } else {
                    seconds as u64
                };
                self.seek_offset = position;
                self.anchor = now;
                Ok(position)
            },
            None => Err(LibraryError::InvalidState),
        }
    }

    /// Sets the volume to `volume` thousandths of full volume, brought into
    /// `0..=1000`, and returns what was set, for the audio device. Valid in
    /// every state.
    pub fn set_volume(&mut self, volume: i32) -> (set: u16)
        requires
            old(self).wf(),
        ensures
            final(self).wf(),
            set == clamped(volume as int, FULL_VOLUME as int),
            final(self)@ == (PlayerView { volume: set as int, ..old(self)@ }),
    {
        let set: u16 = if volume < 0 {
            0
        } else if volume > 1000 {
            FULL_VOLUME
        } else {
            volume as u16
        };
        self.volume = set;
        set
    }

    /// The volume in thousandths of full volume.
    pub fn get_volume(&self) -> (v: u16)
        ensures
            v == self@.volume,
    {
        self.volume
    }

    /// Whether the transport is playing.
    pub fn is_playing(&self) -> (b: bool)
        ensures
            b == (self@.state == TransportState::Playing),
    {
        match self.state {
            TransportState::Playing => true,
            _ => false,
        }
    }

    /// The transport state.
    pub fn state(&self) -> (s: TransportState)
        ensures
            s == self@.state,
    {
        self.state
    }

    /// The place of the current song in the queue.
    pub fn current_index(&self) -> (i: Option<usize>)
        ensures
            i is Some <==> self@.current_index is Some,
            i matches Some(k) ==> self@.current_index == Some(k as int),
    {
        self.current_index
    }

    /// The current song.
    pub fn get_current_track(&self) -> (r: Option<&Song>)
        requires
            self.wf(),
        ensures
            r is Some <==> self@.current_index is Some,
            r matches Some(song) ==> song@ == self@.queue[self@.current_index.unwrap()],
    {
        match self.current_index {
            Some(i) => Some(&self.queue[i]),
            None => None,
        }
    }

    /// The length of the current song in seconds, where it is known.
    pub fn get_duration(&self) -> (r: Option<u64>)
        requires
            self.wf(),
        ensures
            r is Some <==> self@.duration() is Some,
            r matches Some(d) ==> self@.duration() == Some(d as int),
    {
        match self.current_index {
            Some(i) => duration_of(&self.queue[i]),
            None => None,
        }
    }

    /// The estimated position at `now`.
    fn position(&self, now: u64) -> (p: u64)
        requires
            self.wf(),
        ensures
            p == self@.position_at(now as int),
    {
        let playing: bool = self.is_playing();
        let run: u64 = if playing && now > self.anchor {
            now - self.anchor
        } else {
            0
        };
        let raw: u64 = if run > u64::MAX - self.seek_offset {
            u64::MAX
        } else {
            self.seek_offset + run
        };
        match self.get_duration() {
            Some(d) => if raw > d {
                d
            } else {
                raw
            },
            None => raw,
        }
    }

    /// The estimated position in the current song at clock reading `now`, in
    /// seconds; `None` where no song is selected.
    pub fn get_position(&self, now: u64) -> (r: Option<u64>)
        requires
            self.wf(),
        ensures
            r is Some <==> self@.current_index is Some,
            r matches Some(p) ==> p == self@.position_at(now as int),
    {
        match self.current_index {
            Some(_) => Some(self.position(now)),
            None => None,
        }
    }
}

/// Going on from the last song leads to the first, going back from the first
/// leads to the last, and going back after going on leads to where one was.
pub proof fn lemma_wraparound(len: int, index: int)
    requires
        0 <= index < len,
    ensures
        0 <= index_after(index, len) < len,
        0 <= index_before(index, len) < len,
        index == len - 1 ==> index_after(index, len) == 0,
        index == 0 ==> index_before(index, len) == len - 1,
        index_before(index_after(index, len), len) == index,
        index_after(index_before(index, len), len) == index,
{
}

/// The estimated position never leaves the song: it is at least zero and, where
/// the length of the current song is known, at most that length. While the
/// transport is not playing it does not move.
pub proof fn lemma_position_bounds(p: PlayerView, now: int, later: int)
    requires
        p.valid(),
        0 <= now <= later,
    ensures
        0 <= p.position_at(now),
        p.duration() matches Some(d) ==> p.position_at(now) <= d,
        p.position_at(now) <= p.position_at(later),
        p.state != TransportState::Playing ==> p.position_at(now) == p.seek_offset,
{
}

} // verus!
