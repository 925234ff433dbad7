//! The playback queue and the decisions of the audio player: which track is
//! current, which are loaded and waiting, whether an instruction can be carried
//! out, where a seek lands and how long to wait before playing.
//!
//! The player device, downloads and files are handled by the application; it
//! asks this state what to do and tells it what was done.

use vstd::prelude::*;
use std::collections::VecDeque;
use vstd::string::StringSliceAdditionalSpecFns;
use crate::constants::packet_types::{AUDIO_BACK, AUDIO_FWD, AUDIO_LOAD, AUDIO_PAUSE, AUDIO_PLAY, AUDIO_SWAP, AUDIO_VOL, MISC};

verus! {

/// A downloaded track.
pub struct Track {
    /// The track's title.
    pub title: String,
    /// Its length in seconds, when known.
    pub duration: Option<i64>,
    /// Where its audio file is.
    pub path: String,
}

/// The tracks of the player: the one swapped in (if any) and the loaded ones
/// waiting, first loaded first.
pub struct Audio {
    /// The track swapped in for playback.
    pub current: Option<Track>,
    /// The loaded tracks, in the order they were loaded.
    pub queue: VecDeque<Track>,
    /// The directory downloads go to.
    pub output_file_path: String,
}

/// What a swap did: the track it took out of playback (whose file is to be
/// deleted), and the track to swap in, if one was loaded.
pub struct SwapOutcome {
    /// The track that was current, if any.
    pub discarded: Option<Track>,
    /// The front of the queue, if the queue was not empty.
    pub next: Option<Track>,
}

/// Whether an instruction of type `action_type` can be carried out: a swap
/// needs a loaded track, play, pause and skips need a current one; anything
/// else can always be.
pub open spec fn preflight_spec(current_present: bool, queue_len: nat, action_type: u8) -> bool {
    if action_type == AUDIO_SWAP {
        queue_len > 0
    } else if action_type == AUDIO_PAUSE || action_type == AUDIO_PLAY || action_type == AUDIO_FWD
        || action_type == AUDIO_BACK {
        current_present
    } else {
        true
    }
}

/// Law (preflight): an instruction other than swap, play, pause, forward and
/// back (load, volume and misc among them) always passes, whatever is current
/// and queued; a swap passes exactly when a track is loaded; play, pause,
/// forward and back pass exactly when a track is current.
pub proof fn law_preflight(current_present: bool, queue_len: nat, action_type: u8)
    ensures
        (action_type != AUDIO_SWAP && action_type != AUDIO_PLAY && action_type != AUDIO_PAUSE
            && action_type != AUDIO_FWD && action_type != AUDIO_BACK) ==> preflight_spec(current_present, queue_len, action_type),
        preflight_spec(current_present, queue_len, AUDIO_LOAD),
        preflight_spec(current_present, queue_len, AUDIO_VOL),
        preflight_spec(current_present, queue_len, MISC),
        preflight_spec(current_present, queue_len, AUDIO_SWAP) == (queue_len > 0),
        preflight_spec(current_present, queue_len, AUDIO_PLAY) == current_present,
        preflight_spec(current_present, queue_len, AUDIO_PAUSE) == current_present,
        preflight_spec(current_present, queue_len, AUDIO_FWD) == current_present,
        preflight_spec(current_present, queue_len, AUDIO_BACK) == current_present,
{
}

impl Audio {
    /// A player with no track, downloading into `output_file_path`.
    pub fn new(output_file_path: String) -> (audio: Audio)
        ensures
            audio.current is None,
            audio.queue@ == Seq::<Track>::empty(),
            audio.output_file_path == output_file_path,
    {
        Audio { current: None, queue: VecDeque::new(), output_file_path }
    }

    /// The number of loaded tracks waiting.
    pub fn get_queue_len(&self) -> (n: usize)
        ensures
            n == self.queue@.len(),
    {
        self.queue.len()
    }

    /// The title of the current track.
    pub fn get_current_track_title(&self) -> (title: Option<String>)
        ensures
            match self.current {
                Some(track) => title == Some(track.title),
                None => title is None,
            },
    {
        match &self.current {
            Some(track) => Some(track.title.clone()),
            None => None,
        }
    }

    /// The titles of the loaded tracks, in queue order.
    pub fn get_queue_titles(&self) -> (titles: Vec<String>)
        ensures
            titles@.len() == self.queue@.len(),
            forall|i: int| 0 <= i < titles@.len() ==> #[trigger] titles@[i] == self.queue@[i].title,
    {
        let mut titles: Vec<String> = Vec::new();
        let mut i: usize = 0;
        while i < self.queue.len()
            invariant
                i <= self.queue@.len(),
                titles@.len() == i,
                forall|j: int| 0 <= j < i ==> #[trigger] titles@[j] == self.queue@[j].title,
            decreases self.queue@.len() - i,
        {
            titles.push(self.queue[i].title.clone());
            i = i + 1;
        }
        titles
    }

    /// Whether an instruction of type `action_type` can be carried out now.
    pub fn preflight_check(&self, action_type: u8) -> (ok: bool)
        ensures
            ok == preflight_spec(self.current is Some, self.queue@.len(), action_type),
    {
        if action_type == AUDIO_SWAP {
            self.queue.len() > 0
        } else if action_type == AUDIO_PAUSE || action_type == AUDIO_PLAY || action_type == AUDIO_FWD
            || action_type == AUDIO_BACK {
            self.current.is_some()
        } else {
            true
        }
    }

    /// Queues a downloaded track behind the others.
    pub fn enqueue(&mut self, track: Track)
        ensures
            final(self).queue@ == old(self).queue@.push(track),
            final(self).current == old(self).current,
            final(self).output_file_path == old(self).output_file_path,
    {
        self.queue.push_back(track);
    }

    /// Takes the current track out of playback, returning it.
    pub fn discard_current_playback(&mut self) -> (discarded: Option<Track>)
        ensures
            discarded == old(self).current,
            final(self).current is None,
            final(self).queue@ == old(self).queue@,
            final(self).output_file_path == old(self).output_file_path,
    {
        self.current.take()
    }

    /// Swaps: the current track is taken out of playback, and the front of the
    /// queue is taken off to become current once it is ready to play.
    pub fn swap(&mut self) -> (outcome: SwapOutcome)
        ensures
            outcome.discarded == old(self).current,
            final(self).current is None,
            old(self).queue@.len() == 0 ==> outcome.next is None && final(self).queue@ == old(self).queue@,
            old(self).queue@.len() > 0 ==> outcome.next == Some(old(self).queue@[0])
                && final(self).queue@ == old(self).queue@.drop_first(),
            final(self).output_file_path == old(self).output_file_path,
    {
        let discarded = self.discard_current_playback();
        let next = self.queue.pop_front();
        proof {
            if old(self).queue@.len() > 0 {
                assert(self.queue@ =~= old(self).queue@.drop_first());
            }
        }
        SwapOutcome { discarded, next }
    }

    /// Makes `track` the current track (once it is ready to play).
    pub fn set_current(&mut self, track: Track)
        ensures
            final(self).current == Some(track),
            final(self).queue@ == old(self).queue@,
            final(self).output_file_path == old(self).output_file_path,
    {
        self.current = Some(track);
    }
}

/// Law (queue order): loading tracks one after another and then swapping
/// makes the first loaded track current and leaves the others waiting in
/// order.
pub proof fn law_first_loaded_first_played(queue: Seq<Track>, track: Track)
    ensures
        (queue.push(track))[0] == (if queue.len() == 0 { track } else { queue[0] }),
        queue.len() > 0 ==> queue.push(track).drop_first() == queue.drop_first().push(track),
{
    if queue.len() > 0 {
        assert(queue.push(track).drop_first() =~= queue.drop_first().push(track));
    }
}

/// A position in a track (a `Duration`): whole seconds and the nanoseconds
/// beyond them.
#[derive(Clone, Copy, Debug, PartialEq, Eq, Structural)]
pub struct Position {
    /// Whole seconds.
    pub secs: u64,
    /// Nanoseconds beyond the whole seconds, below one billion.
    pub nanos: u32,
}

/// How far one skip moves, in seconds.
pub const SKIP_SECS: u64 = 5;

/// Whether a position is well formed.
pub open spec fn valid_position(p: Position) -> bool {
    p.nanos < 1_000_000_000
}

/// Five seconds after `pos`.
pub open spec fn skip_forward(pos: Position) -> Position {
    Position { secs: (pos.secs + SKIP_SECS) as u64, nanos: pos.nanos }
}

/// Five seconds before `pos`, or the start of the track when that is less
/// than five seconds away (`Duration::saturating_sub`).
pub open spec fn skip_back(pos: Position) -> Position {
    if pos.secs >= SKIP_SECS {
        Position { secs: (pos.secs - SKIP_SECS) as u64, nanos: pos.nanos }
    } else {
        Position { secs: 0, nanos: 0 }
    }
}

/// Where a skip forward from `pos` lands: five seconds later.
pub fn forward_position(pos: Position) -> (r: Position)
    requires
        valid_position(pos),
        pos.secs + SKIP_SECS <= u64::MAX,
    ensures
        r == skip_forward(pos),
        valid_position(r),
{
    Position { secs: pos.secs + SKIP_SECS, nanos: pos.nanos }
}

/// Where a skip back from `pos` lands: five seconds earlier, or the start of
/// the track when that is less than five seconds away.
pub fn backward_position(pos: Position) -> (r: Position)
    requires
        valid_position(pos),
    ensures
        r == skip_back(pos),
        valid_position(r),
{
    if pos.secs >= SKIP_SECS {
        Position { secs: pos.secs - SKIP_SECS, nanos: pos.nanos }
    } else {
        Position { secs: 0, nanos: 0 }
    }
}

/// Law: a skip back undoes a skip forward.
pub proof fn law_backward_undoes_forward(pos: Position)
    requires
        valid_position(pos),
        pos.secs + SKIP_SECS <= u64::MAX,
    ensures
        skip_back(skip_forward(pos)) == pos,
{
}

/// What a play instruction asks of the player: the whole second to seek to,
/// and how many milliseconds to wait before playing (none when the start time
/// has passed).
#[derive(Clone, Copy, Debug, PartialEq, Eq, Structural)]
pub struct PlaySchedule {
    /// The second of the track to seek to.
    pub seek_secs: u64,
    /// How long to wait before playing, in milliseconds.
    pub wait_ms: Option<u64>,
}

/// Plans a play instruction received at Unix time `now_ms`: seek to the
/// whole second of `to_set_ms`, then wait until `when_ms` if it is still ahead.
pub fn play_schedule(to_set_ms: u128, when_ms: u128, now_ms: u128) -> (s: PlaySchedule)
    ensures
        s.seek_secs == (to_set_ms / 1000) as u64,
        s.wait_ms == if when_ms > now_ms {
            Some((when_ms - now_ms) as u64)
        } else {
            None
        },
{
    let seek_secs = (to_set_ms / 1000) as u64;
    let wait_ms = if when_ms > now_ms {
        Some((when_ms - now_ms) as u64)
    } else {
        None
    };
    PlaySchedule { seek_secs, wait_ms }
}

/// The extension of downloaded audio files.
pub const MP3_EXTENSION: [u8; 4] = [0x2e, 0x6d, 0x70, 0x33];

/// Whether `s` holds `t` somewhere.
pub open spec fn has_substring(s: Seq<u8>, t: Seq<u8>) -> bool {
    exists|i: int| 0 <= i && i + t.len() <= s.len() && #[trigger] s.subrange(i, i + t.len()) == t
}

/// Whether `s` ends with `t`.
pub open spec fn has_suffix(s: Seq<u8>, t: Seq<u8>) -> bool {
    t.len() <= s.len() && s.skip(s.len() - t.len()) == t
}

/// Whether `t` occurs in `s` at `i`.
fn occurs_at(s: &[u8], t: &[u8], i: usize) -> (r: bool)
    requires
        i + t@.len() <= s@.len(),
    ensures
        r == (s@.subrange(i as int, i + t@.len()) == t@),
{
    let mut j: usize = 0;
    while j < t.len()
        invariant
            j <= t@.len(),
            i + t@.len() <= s@.len(),
            forall|k: int| 0 <= k < j ==> s@[i + k] == t@[k],
        decreases t@.len() - j,
    {
        assert(s@.len() == s.len());
        if s[i + j] != t[j] {
            assert(s@.subrange(i as int, i + t@.len())[j as int] != t@[j as int]);
            return false;
        }
        j = j + 1;
    }
    assert(s@.subrange(i as int, i + t@.len()) =~= t@);
    true
}

/// Whether `t` occurs in `s`.
fn contains_bytes(s: &[u8], t: &[u8]) -> (r: bool)
    ensures
        r == has_substring(s@, t@),
{
    if t.len() > s.len() {
        return false;
    }
    let last = s.len() - t.len();
    let mut i: usize = 0;
    while i < last
        invariant
            i <= last,
            last == s@.len() - t@.len(),
            t@.len() <= s@.len(),
            forall|k: int| 0 <= k < i ==> #[trigger] s@.subrange(k, k + t@.len()) != t@,
        decreases last - i,
    {
        if occurs_at(s, t, i) {
            return true;
        }
        i = i + 1;
    }
    if occurs_at(s, t, last) {
        return true;
    }
    assert forall|k: int| 0 <= k && k + t@.len() <= s@.len() implies
        #[trigger] s@.subrange(k, k + t@.len()) != t@ by {
        assert(k <= last);
    }
    false
}

/// Whether the downloaded file named `file_name` is the audio of the video
/// `video_id`: the name holds the identifier and ends in `.mp3`.
pub fn is_track_file(file_name: &str, video_id: &str) -> (r: bool)
    ensures
        r == (has_substring(file_name.spec_bytes(), video_id.spec_bytes())
            && has_suffix(file_name.spec_bytes(), MP3_EXTENSION@)),
{
    let name = file_name.as_bytes();
    let id = video_id.as_bytes();
    if !contains_bytes(name, id) {
        return false;
    }
    if name.len() < 4 {
        return false;
    }
    let start = name.len() - 4;
    let ends = occurs_at(name, MP3_EXTENSION.as_slice(), start);
    proof {
        assert(name@.skip(start as int) =~= name@.subrange(start as int, start + 4));
    }
    ends
}

} // verus!
