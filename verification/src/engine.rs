//! Playback decisions of the audio engine: sleep timers, what happens when
//! a track ends, seeking. The engine thread performs the audio work and
//! asks these functions what to do next.

use vstd::prelude::*;

use crate::models::RepeatMode;
use crate::text::{opt_chars, push_str, str_equal};

verus! {

/// When playback should stop by itself.
#[derive(Debug, Clone, Copy, PartialEq, Eq, Structural)]
pub enum SleepTimer {
    Off,
    Minutes(u64),
    EndOfTrack,
    EndOfAlbum,
}

/// The sleep timer as shown in the UI.
#[derive(Debug, Clone)]
pub struct SleepTimerUi {
    pub kind: String,
    pub remaining_secs: Option<u64>,
}

/// The UI name of a sleep timer's kind.
pub open spec fn spec_sleep_timer_kind(t: SleepTimer) -> Seq<char> {
    match t {
        SleepTimer::Off => "off"@,
        SleepTimer::Minutes(_) => "minutes"@,
        SleepTimer::EndOfTrack => "endOfTrack"@,
        SleepTimer::EndOfAlbum => "endOfAlbum"@,
    }
}

/// The UI name of a sleep timer's kind.
pub fn sleep_timer_kind(t: &SleepTimer) -> (r: &'static str)
    ensures
        r@ == spec_sleep_timer_kind(*t),
{
    match t {
        SleepTimer::Off => "off",
        SleepTimer::Minutes(_) => "minutes",
        SleepTimer::EndOfTrack => "endOfTrack",
        SleepTimer::EndOfAlbum => "endOfAlbum",
    }
}

/// Builds the UI view of a sleep timer.
pub fn sleep_timer_ui(t: &SleepTimer, remaining_secs: Option<u64>) -> (ui: SleepTimerUi)
    ensures
        ui.kind@ == spec_sleep_timer_kind(*t),
        ui.remaining_secs == remaining_secs,
{
    let mut kind = String::new();
    push_str(&mut kind, sleep_timer_kind(t));
    SleepTimerUi { kind, remaining_secs }
}

/// The timer that is armed for a request: a zero-minute timer is no timer.
pub open spec fn spec_normalize_sleep_timer(t: SleepTimer) -> SleepTimer {
    match t {
        SleepTimer::Minutes(0) => SleepTimer::Off,
        other => other,
    }
}

/// The timer that is armed for a request: a zero-minute timer is no timer.
pub fn normalize_sleep_timer(t: SleepTimer) -> (r: SleepTimer)
    ensures
        r == spec_normalize_sleep_timer(t),
{
    match t {
        SleepTimer::Minutes(0) => SleepTimer::Off,
        other => other,
    }
}

/// The timer named by the UI: "off", "minutes" (30 unless `minutes` says
/// otherwise), "endOfTrack" or "endOfAlbum".
pub open spec fn spec_parse_sleep_timer(kind: Seq<char>, minutes: Option<u64>) -> Option<
    SleepTimer,
> {
    if kind == "off"@ {
        Some(SleepTimer::Off)
    } else if kind == "minutes"@ {
        Some(
            SleepTimer::Minutes(
                match minutes {
                    Some(m) => m,
                    None => 30,
                },
            ),
        )
    } else if kind == "endOfTrack"@ {
        Some(SleepTimer::EndOfTrack)
    } else if kind == "endOfAlbum"@ {
        Some(SleepTimer::EndOfAlbum)
    } else {
        None
    }
}

/// Parses a sleep timer request from the UI; an unknown kind is an error
/// that names it.
pub fn parse_sleep_timer(kind: &str, minutes: Option<u64>) -> (r: Result<SleepTimer, String>)
    ensures
        r matches Ok(t) ==> spec_parse_sleep_timer(kind@, minutes) == Some(t),
        r is Err <==> spec_parse_sleep_timer(kind@, minutes) is None,
        r matches Err(msg) ==> msg@ == "unknown sleep timer kind: "@ + kind@,
{
    if str_equal(kind, "off") {
        Ok(SleepTimer::Off)
    } else if str_equal(kind, "minutes") {
        Ok(
            SleepTimer::Minutes(
                match minutes {
                    Some(m) => m,
                    None => 30,
                },
            ),
        )
    } else if str_equal(kind, "endOfTrack") {
        Ok(SleepTimer::EndOfTrack)
    } else if str_equal(kind, "endOfAlbum") {
        Ok(SleepTimer::EndOfAlbum)
    } else {
        let mut msg = String::new();
        push_str(&mut msg, "unknown sleep timer kind: ");
        push_str(&mut msg, kind);
        Err(msg)
    }
}

/// What the engine does when the playing track reaches its end.
#[derive(Debug, Clone, Copy, PartialEq, Eq, Structural)]
pub enum TrackEndAction {
    /// Repeat-one: start the same track again.
    RepeatCurrent,
    /// The end-of-track sleep timer fires: stop.
    StopEndOfTrack,
    /// The end-of-album sleep timer fires (the next track belongs to
    /// another album): stop.
    StopEndOfAlbum,
    /// Fade into the next track.
    Crossfade,
    /// Advance the cursor and start the next track.
    Advance,
    /// Nothing comes next: stop at the end of the queue.
    StopEndOfQueue,
}

/// The decision taken at the end of a track.
pub open spec fn spec_track_end_action(
    repeat: RepeatMode,
    sleep: SleepTimer,
    current_album: Option<Seq<char>>,
    next_album: Option<Seq<char>>,
    crossfade: bool,
) -> TrackEndAction {
    if sleep == SleepTimer::EndOfTrack {
        TrackEndAction::StopEndOfTrack
    } else if sleep == SleepTimer::EndOfAlbum && next_album is Some && current_album is Some
        && next_album->0 != current_album->0 {
        TrackEndAction::StopEndOfAlbum
    } else if repeat == RepeatMode::One {
        TrackEndAction::RepeatCurrent
    } else if next_album is Some {
        if crossfade {
            TrackEndAction::Crossfade
        } else {
            TrackEndAction::Advance
        }
    } else {
        TrackEndAction::StopEndOfQueue
    }
}

/// Decides what happens when the playing track ends. `next_album` is the
/// album of the track that would play next (`None` when nothing follows)
/// and `crossfade` says whether a crossfade window is configured.
pub fn track_end_action(
    repeat: RepeatMode,
    sleep: SleepTimer,
    current_album: Option<&str>,
    next_album: Option<&str>,
    crossfade: bool,
) -> (r: TrackEndAction)
    ensures
        r == spec_track_end_action(
            repeat,
            sleep,
            match current_album {
                Some(a) => Some(a@),
                None => None,
            },
            match next_album {
                Some(a) => Some(a@),
                None => None,
            },
            crossfade,
        ),
{
    match sleep {
        SleepTimer::EndOfTrack => {
            return TrackEndAction::StopEndOfTrack;
        },
        SleepTimer::EndOfAlbum => {
            if let (Some(next), Some(cur)) = (next_album, current_album) {
                if !str_equal(next, cur) {
                    return TrackEndAction::StopEndOfAlbum;
                }
            }
        },
        _ => {},
    }
    if repeat == RepeatMode::One {
        return TrackEndAction::RepeatCurrent;
    }
    match next_album {
        Some(_) => {
            if crossfade {
                TrackEndAction::Crossfade
            } else {
                TrackEndAction::Advance
            }
        },
        None => TrackEndAction::StopEndOfQueue,
    }
}

/// The position a seek lands on: the requested one, at most the track's
/// duration (a negative duration counts as zero).
pub open spec fn spec_seek_target(position_ms: u64, duration_ms: i64) -> u64 {
    let d: int = if duration_ms < 0 {
        0
    } else {
        duration_ms as int
    };
    if position_ms <= d {
        position_ms
    } else {
        d as u64
    }
}

/// The position a seek lands on.
pub fn seek_target(position_ms: u64, duration_ms: i64) -> (r: u64)
    ensures
        r == spec_seek_target(position_ms, duration_ms),
        r <= position_ms,
{
    let d: u64 = if duration_ms < 0 {
        0
    } else {
        duration_ms as u64
    };
    if position_ms <= d {
        position_ms
    } else {
        d
    }
}

// ---------------------------------------------------------------------------
// Transport
// ---------------------------------------------------------------------------

/// What the engine does to its output after a transport request.
#[derive(Debug, Clone, Copy, PartialEq, Eq, Structural)]
pub enum TransportAction {
    /// Nothing changes.
    Nothing,
    /// Pause the output and remember where playback stopped.
    PauseAndSave,
    /// Start or continue the output.
    Play,
    /// Stop the output and forget the current track.
    Stop,
}

/// The playback flags of the engine besides the queue: whether the output
/// plays, whether a track is loaded, the position, and the sleep timer
/// (with the album it waits for, for an end-of-album timer).
#[derive(Debug, Clone)]
pub struct Transport {
    pub playing: bool,
    pub has_current: bool,
    pub position_ms: u64,
    pub sleep: SleepTimer,
    pub sleep_album: Option<String>,
}

impl Transport {
    /// Nothing loaded, nothing playing, no timer.
    pub fn new() -> (t: Self)
        ensures
            !t.playing && !t.has_current && t.position_ms == 0 && t.sleep == SleepTimer::Off
                && t.sleep_album is None,
    {
        Transport {
            playing: false,
            has_current: false,
            position_ms: 0,
            sleep: SleepTimer::Off,
            sleep_album: None,
        }
    }

    /// Play/pause: pauses (saving the resume point) while playing, plays a
    /// loaded track otherwise.
    pub fn toggle(&mut self) -> (a: TransportAction)
        ensures
            a == (if old(self).playing {
                TransportAction::PauseAndSave
            } else if old(self).has_current {
                TransportAction::Play
            } else {
                TransportAction::Nothing
            }),
            final(self).playing == spec_toggled(old(self).playing, old(self).has_current),
            final(self).has_current == old(self).has_current,
            final(self).position_ms == old(self).position_ms,
            final(self).sleep == old(self).sleep,
            opt_chars(final(self).sleep_album) == opt_chars(old(self).sleep_album),
    {
        if self.playing {
            self.playing = false;
            TransportAction::PauseAndSave
        } else if self.has_current {
            self.playing = true;
            TransportAction::Play
        } else {
            TransportAction::Nothing
        }
    }

    /// Pause: only while playing.
    pub fn pause(&mut self) -> (a: TransportAction)
        ensures
            a == (if old(self).playing {
                TransportAction::PauseAndSave
            } else {
                TransportAction::Nothing
            }),
            !final(self).playing,
            final(self).has_current == old(self).has_current,
            final(self).position_ms == old(self).position_ms,
            final(self).sleep == old(self).sleep,
            opt_chars(final(self).sleep_album) == opt_chars(old(self).sleep_album),
    {
        if self.playing {
            self.playing = false;
            TransportAction::PauseAndSave
        } else {
            TransportAction::Nothing
        }
    }

    /// Resume: only when paused with a track loaded.
    pub fn resume(&mut self) -> (a: TransportAction)
        ensures
            a == (if !old(self).playing && old(self).has_current {
                TransportAction::Play
            } else {
                TransportAction::Nothing
            }),
            final(self).playing == (old(self).playing || old(self).has_current),
            final(self).has_current == old(self).has_current,
            final(self).position_ms == old(self).position_ms,
            final(self).sleep == old(self).sleep,
            opt_chars(final(self).sleep_album) == opt_chars(old(self).sleep_album),
    {
        if !self.playing && self.has_current {
            self.playing = true;
            TransportAction::Play
        } else {
            TransportAction::Nothing
        }
    }

    /// Stop: nothing plays, nothing is loaded, the position returns to 0.
    pub fn stop(&mut self) -> (a: TransportAction)
        ensures
            a == TransportAction::Stop,
            !final(self).playing,
            !final(self).has_current,
            final(self).position_ms == 0,
            final(self).sleep == old(self).sleep,
            opt_chars(final(self).sleep_album) == opt_chars(old(self).sleep_album),
    {
        self.playing = false;
        self.has_current = false;
        self.position_ms = 0;
        TransportAction::Stop
    }

    /// A track started: it plays from the beginning.
    pub fn started(&mut self)
        ensures
            final(self).playing,
            final(self).has_current,
            final(self).position_ms == 0,
            final(self).sleep == old(self).sleep,
            opt_chars(final(self).sleep_album) == opt_chars(old(self).sleep_album),
    {
        self.playing = true;
        self.has_current = true;
        self.position_ms = 0;
    }

    /// Arms a sleep timer: a zero-minute timer disarms it, and an
    /// end-of-album timer remembers the album of the current track. Returns
    /// the timer's length in seconds for a timed request.
    pub fn arm_sleep(&mut self, timer: SleepTimer, current_album: Option<String>) -> (secs: Option<
        u64,
    >)
        requires
            timer matches SleepTimer::Minutes(m) ==> m <= u64::MAX / 60,
        ensures
            final(self).sleep == spec_normalize_sleep_timer(timer),
            opt_chars(final(self).sleep_album) == (if spec_normalize_sleep_timer(timer)
                == SleepTimer::EndOfAlbum {
                opt_chars(current_album)
            } else {
                None
            }),
            secs == (match spec_normalize_sleep_timer(timer) {
                SleepTimer::Minutes(m) => Some((m * 60) as u64),
                _ => None,
            }),
            final(self).playing == old(self).playing,
            final(self).has_current == old(self).has_current,
            final(self).position_ms == old(self).position_ms,
    {
        let t = normalize_sleep_timer(timer);
        self.sleep = t;
        self.sleep_album = match t {
            SleepTimer::EndOfAlbum => current_album,
            _ => None,
        };
        match t {
            SleepTimer::Minutes(m) => Some(m * 60),
            _ => None,
        }
    }

    /// A timer fired (timed out, or at a track or album boundary):
    /// playback stops and the timer is disarmed.
    pub fn sleep_fired(&mut self) -> (a: TransportAction)
        ensures
            a == TransportAction::PauseAndSave,
            !final(self).playing,
            final(self).sleep == SleepTimer::Off,
            final(self).sleep_album is None,
            final(self).has_current == old(self).has_current,
            final(self).position_ms == old(self).position_ms,
    {
        self.playing = false;
        self.sleep = SleepTimer::Off;
        self.sleep_album = None;
        TransportAction::PauseAndSave
    }
}

/// Whether the output plays after play/pause: it pauses when playing and
/// plays when paused with a track loaded.
pub open spec fn spec_toggled(playing: bool, has_current: bool) -> bool {
    !playing && has_current
}

/// With a track loaded, play/pause twice returns to the playing state it
/// started from.
pub proof fn lemma_toggle_twice(playing: bool)
    ensures
        spec_toggled(spec_toggled(playing, true), true) == playing,
{
}


/// What ends playback at a track boundary: only the end-of-track timer,
/// or the end-of-album timer when the next track belongs to another album,
/// stops there. Any other timer (off, or a countdown in minutes) lets the
/// queue go on: with repeat-one the track restarts, otherwise the next
/// track is faded into or started when there is one, and playback stops
/// only at the end of the queue.
pub proof fn lemma_track_end_stops_only_for_boundary_timers(
    repeat: RepeatMode,
    sleep: SleepTimer,
    current_album: Option<Seq<char>>,
    next_album: Option<Seq<char>>,
    crossfade: bool,
)
    ensures
        ({
            let r = spec_track_end_action(repeat, sleep, current_album, next_album, crossfade);
            let album_boundary = next_album is Some && current_album is Some && next_album->0
                != current_album->0;
            &&& (r == TrackEndAction::StopEndOfTrack <==> sleep == SleepTimer::EndOfTrack)
            &&& (r == TrackEndAction::StopEndOfAlbum <==> (sleep == SleepTimer::EndOfAlbum
                && album_boundary))
            &&& (r == TrackEndAction::RepeatCurrent <==> (repeat == RepeatMode::One
                && sleep != SleepTimer::EndOfTrack && !(sleep == SleepTimer::EndOfAlbum
                && album_boundary)))
            &&& ((sleep is Off || sleep is Minutes) && repeat != RepeatMode::One && next_album
                is Some ==> r == (if crossfade {
                TrackEndAction::Crossfade
            } else {
                TrackEndAction::Advance
            }))
            &&& (r == TrackEndAction::StopEndOfQueue <==> (next_album is None && repeat
                != RepeatMode::One && sleep != SleepTimer::EndOfTrack))
            &&& (r == TrackEndAction::Advance || r == TrackEndAction::Crossfade ==> next_album
                is Some && (r == TrackEndAction::Crossfade <==> crossfade))
        }),
{
}
} // verus!
