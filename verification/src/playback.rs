//! Playing the project: the mix that is played, where the playhead is, and when playing stops.

use vstd::prelude::*;
use crate::app::{App, AppView};
use crate::audio::ClipView;
use crate::mix::{count_frames, mix_down, Mixer};
use crate::sample::{Sample, SILENCE};
use crate::time::{clamp_time, Secs, FLICKS};
use crate::track::{Track, TrackView};

verus! {

/// Where playing is.
#[derive(Clone, Copy, Debug, PartialEq, Eq, Structural)]
pub struct PlaybackState {
    pub playing: bool,
    pub frame_pos: u64,
    pub total_frames: u64,
    /// If non-zero, stop playback when frame_pos reaches this frame
    pub end_frame: u64,
}

impl PlaybackState {
    /// The playhead is on the mix, or at its end.
    pub open spec fn ok(self) -> bool {
        self.frame_pos <= self.total_frames <= i64::MAX
    }

    /// The frame before which playing stops.
    pub open spec fn stop(self) -> int {
        if self.end_frame > 0 && self.end_frame < self.total_frames {
            self.end_frame as int
        } else {
            self.total_frames as int
        }
    }

    /// How many frames can be played before playing stops.
    pub open spec fn playable(self) -> int {
        if self.playing && self.frame_pos < self.stop() {
            self.stop() - self.frame_pos
        } else {
            0
        }
    }

    /// Where playing is after `n` frames were asked for.
    pub open spec fn played(self, n: int) -> PlaybackState {
        PlaybackState {
            playing: self.playing && n <= self.playable(),
            frame_pos: (self.frame_pos + crate::time::smaller(n, self.playable())) as u64,
            ..self
        }
    }

    /// What is heard of a mix when `n` frames are asked for, left and right in turn.
    pub open spec fn heard(self, mixed: Seq<Sample>, n: nat) -> Seq<Sample> {
        Seq::new(
            2 * n,
            |i: int|
                if i / 2 < self.playable() {
                    mixed[2 * self.frame_pos + i]
                } else {
                    SILENCE
                },
        )
    }

    /// The playhead at `num / den` of the mix.
    pub open spec fn at_frac(self, num: int, den: int) -> PlaybackState {
        PlaybackState {
            frame_pos: (crate::time::clamp_between(num, 0, den) * self.total_frames / den) as u64,
            ..self
        }
    }

    /// The playhead at `secs` of a project that lasts `max_duration`.
    pub open spec fn at_secs(self, secs: Secs, max_duration: Secs) -> PlaybackState {
        if max_duration > 0 {
            self.at_frac(secs as int, max_duration as int)
        } else {
            self
        }
    }

    /// With playing to stop at `secs` of a project that lasts `max_duration`, or nowhere.
    pub open spec fn ending_at(self, secs: Secs, max_duration: Secs) -> PlaybackState {
        PlaybackState {
            end_frame: if max_duration > 0 && secs > 0 {
                let frame = secs * self.total_frames / max_duration as int;
                if frame > u64::MAX {
                    u64::MAX
                } else {
                    frame as u64
                }
            } else {
                0
            },
            ..self
        }
    }

    /// After play or pause: what plays is paused, and what is paused plays, from the beginning if
    /// it is at its end.
    pub open spec fn toggled(self) -> PlaybackState {
        if self.playing {
            PlaybackState { playing: false, end_frame: 0, ..self }
        } else {
            PlaybackState {
                playing: true,
                frame_pos: if self.frame_pos >= self.stop() {
                    0
                } else {
                    self.frame_pos
                },
                ..self
            }
        }
    }

    /// After the space bar: what is paused plays from the start of the selection to its end, if
    /// something is selected.
    pub open spec fn space_pressed(self, selection: Option<(Secs, Secs)>, max_duration: Secs) -> PlaybackState {
        if self.playing {
            self.toggled()
        } else {
            match selection {
                Some((s0, s1)) => self.at_secs(s0, max_duration).ending_at(s1, max_duration).toggled(),
                None => self.ending_at(0, max_duration).toggled(),
            }
        }
    }

    /// After an arrow key: the playhead moves by a twentieth of the view, or by a hundredth.
    pub open spec fn nudged(self, right: bool, fine: bool, view: Secs, max_duration: Secs) -> PlaybackState {
        if max_duration > 0 {
            let parts: int = if fine {
                100
            } else {
                20
            };
            let here = parts * self.frame_pos * max_duration;
            let there = if right {
                here + view * self.total_frames
            } else {
                here - view * self.total_frames
            };
            PlaybackState {
                frame_pos: (crate::time::clamp_between(
                    there,
                    0,
                    parts * self.total_frames * max_duration,
                ) / (parts * max_duration)) as u64,
                ..self
            }
        } else {
            self
        }
    }

    /// This state, playing on from where `prev` was, on a new mix.
    pub open spec fn resumed(self, prev: PlaybackState) -> PlaybackState {
        let v = if prev.total_frames == 0 {
            self.at_frac(0, 1)
        } else {
            self.at_frac(prev.frame_pos as int, prev.total_frames as int)
        };
        PlaybackState { playing: self.playing || prev.playing, ..v }
    }
}

/// A fraction of a number lies within it.
proof fn lemma_share(a: int, total: int, den: int)
    requires
        0 <= a <= den,
        0 <= total,
        0 < den,
    ensures
        0 <= a * total / den <= total,
        0 <= a * total <= den * total,
{
    assert(0 <= a * total <= den * total) by (nonlinear_arith)
        requires
            0 <= a <= den,
            0 <= total,
    ;
    assert(den * total / den == total) by (nonlinear_arith)
        requires
            den > 0,
    ;
    vstd::arithmetic::div_mod::lemma_div_is_ordered(a * total, den * total, den);
    vstd::arithmetic::div_mod::lemma_div_pos_is_pos(a * total, den);
}

/// Where steps of `num / den` frames forward and back from frame `p` of `t` lead.
proof fn lemma_steps(p: int, t: int, num: int, den: int)
    requires
        0 <= p <= t,
        0 <= num,
        0 < den,
    ensures
        crate::time::clamp_between(p * den + num, 0, t * den) / den == crate::time::smaller(
            p + num / den,
            t,
        ),
        crate::time::clamp_between(p * den - num, 0, t * den) / den == crate::time::larger(
            p - num / den - if num % den == 0 {
                0int
            } else {
                1int
            },
            0,
        ),
{
    let q = num / den;
    let m = num % den;
    vstd::arithmetic::div_mod::lemma_fundamental_div_mod(num, den);
    vstd::arithmetic::div_mod::lemma_mod_bound(num, den);
    vstd::arithmetic::div_mod::lemma_div_pos_is_pos(num, den);
    assert(0 <= p * den <= t * den) by (nonlinear_arith)
        requires
            0 <= p <= t,
            0 < den,
    ;
    let right = crate::time::clamp_between(p * den + num, 0, t * den);
    let left = crate::time::clamp_between(p * den - num, 0, t * den);
    assert(p * den + num == (p + q) * den + m) by (nonlinear_arith)
        requires
            num == den * q + m,
    ;
    if p + q >= t {
        assert((p + q) * den >= t * den) by (nonlinear_arith)
            requires
                p + q >= t,
                den > 0,
        ;
        assert(right == t * den);
        vstd::arithmetic::div_mod::lemma_fundamental_div_mod_converse(t * den, den, t, 0);
    } else {
        assert((p + q + 1) * den <= t * den) by (nonlinear_arith)
            requires
                p + q + 1 <= t,
                den > 0,
        ;
        assert((p + q + 1) * den == (p + q) * den + den) by (nonlinear_arith);
        vstd::arithmetic::div_mod::lemma_fundamental_div_mod_converse(
            p * den + num,
            den,
            p + q,
            m,
        );
    }
    let e: int = if m == 0 {
        0
    } else {
        1
    };
    let s = if m == 0 {
        0
    } else {
        den - m
    };
    assert(p * den - num == (p - q - e) * den + s) by (nonlinear_arith)
        requires
            num == den * q + m,
            e == 0 && m == 0 && s == 0 || e == 1 && s == den - m,
    ;
    if p - q - e < 0 {
        assert((p - q - e + 1) * den <= 0) by (nonlinear_arith)
            requires
                p - q - e + 1 <= 0,
                den > 0,
        ;
        assert((p - q - e + 1) * den == (p - q - e) * den + den) by (nonlinear_arith);
        assert(left == 0);
    } else {
        assert((p - q - e) * den >= 0) by (nonlinear_arith)
            requires
                p - q - e >= 0,
                den > 0,
        ;
        vstd::arithmetic::div_mod::lemma_fundamental_div_mod_converse(
            p * den - num,
            den,
            p - q - e,
            s,
        );
    }
}

/// A player of the project.
pub struct Player {
    pub state: PlaybackState,
    /// The mix that is played, left and right in turn
    pub mixed: Vec<Sample>,
    pub sample_rate: u32,
}

/// The rate of the first clip of some tracks, if there is one.
pub open spec fn first_rate(tracks: Seq<TrackView>) -> Option<u32>
    decreases tracks.len(),
{
    if tracks.len() == 0 {
        None
    } else if tracks[0].clips.len() > 0 {
        Some(tracks[0].clips[0].sample_rate)
    } else {
        first_rate(tracks.subrange(1, tracks.len() as int))
    }
}

/// The number of frames that are played of some tracks, at `rate`: the length of the project, rounded
/// down to a frame.
pub open spec fn played_frames(tracks: Seq<TrackView>, rate: u32) -> int {
    crate::mix::tracks_frames(tracks, rate, false)
}

/// The number of frames that are exported of some tracks, at `rate`: the length of the project, rounded
/// up to a frame.
pub open spec fn exported_frames(tracks: Seq<TrackView>, rate: u32) -> int {
    crate::mix::tracks_frames(tracks, rate, true)
}

impl Player {
    /// The mix has as many frames as the state says, and the playhead is on it.
    pub open spec fn ok(&self) -> bool {
        &&& self.state.ok()
        &&& self.state.total_frames > 0
        &&& self.mixed@.len() == 2 * self.state.total_frames
    }

    /// Mixes the tracks for playing, at the rate of the first clip. There is no player for a
    /// project without a frame to play. `plus` adds two samples, `times` multiplies two.
    pub fn new<P: Fn(Sample, Sample) -> Sample, T: Fn(Sample, Sample) -> Sample>(
        tracks: &Vec<Track>,
        plus: &P,
        times: &T,
    ) -> (r: Option<Player>)
        requires
            crate::track::tracks_ok(crate::track::track_views(tracks@)),
            first_rate(crate::track::track_views(tracks@)) matches Some(rate) ==> 2 * played_frames(
                crate::track::track_views(tracks@),
                rate,
            ) <= usize::MAX,
            crate::sample::is_function(*plus),
            crate::sample::is_function(*times),
        ensures
            match (r, first_rate(crate::track::track_views(tracks@))) {
                (Some(p), Some(rate)) => {
                    let all = crate::track::track_views(tracks@);
                    let frames = played_frames(all, rate);
                    &&& frames > 0
                    &&& p.ok()
                    &&& p.sample_rate == rate
                    &&& p.state == (PlaybackState {
                        playing: false,
                        frame_pos: 0,
                        total_frames: frames as u64,
                        end_frame: 0,
                    })
                    &&& p.mixed@ == (Mixer {
                        rate,
                        plus: crate::mix::as_spec(*plus),
                        times: crate::mix::as_spec(*times),
                    }).mix(all, frames as nat)
                },
                (Some(_), None) => false,
                (None, Some(rate)) => played_frames(crate::track::track_views(tracks@), rate) == 0,
                (None, None) => true,
            },
    {
        let ghost all = crate::track::track_views(tracks@);
        let rate: u32 = match find_rate(tracks) {
            Some(r) => r,
            None => return None,
        };
        let frames: usize = count_frames(tracks, rate, false) as usize;
        if frames == 0 {
            return None;
        }
        let mixed: Vec<Sample> = mix_down(tracks, rate, frames, plus, times);
        Some(
            Player {
                state: PlaybackState {
                    playing: false,
                    frame_pos: 0,
                    total_frames: frames as u64,
                    end_frame: 0,
                },
                mixed,
                sample_rate: rate,
            },
        )
    }

    /// Moves the playhead to `num / den` of the mix.
    pub fn seek_frac(&mut self, num: Secs, den: Secs)
        requires
            old(self).ok(),
            den > 0,
        ensures
            final(self).ok(),
            final(self).state == old(self).state.at_frac(num as int, den as int),
            final(self).mixed@ == old(self).mixed@,
            final(self).sample_rate == old(self).sample_rate,
    {
        let total: i128 = self.state.total_frames as i128;
        let n: i128 = clamp_time(num as i128, 0, den as i128);
        proof {
            lemma_share(n as int, total as int, den as int);
            assert(den * total <= i64::MAX * i64::MAX) by (nonlinear_arith)
                requires
                    0 < den <= i64::MAX,
                    0 <= total <= i64::MAX,
            ;
        }
        self.state.frame_pos = (n * total / den as i128) as u64;
    }

    /// Moves the playhead to `secs` of a project that lasts `max_duration`.
    pub fn seek_to_secs(&mut self, secs: Secs, max_duration: Secs)
        requires
            old(self).ok(),
        ensures
            final(self).ok(),
            final(self).state == old(self).state.at_secs(secs, max_duration),
            final(self).mixed@ == old(self).mixed@,
            final(self).sample_rate == old(self).sample_rate,
    {
        if max_duration > 0 {
            self.seek_frac(secs, max_duration);
        }
    }

    /// Sets where playing stops by itself: at `secs` of a project that lasts `max_duration`; 0 for
    /// nowhere.
    pub fn set_end_secs(&mut self, secs: Secs, max_duration: Secs)
        requires
            old(self).ok(),
        ensures
            final(self).ok(),
            final(self).state == old(self).state.ending_at(secs, max_duration),
            final(self).mixed@ == old(self).mixed@,
            final(self).sample_rate == old(self).sample_rate,
    {
        if max_duration > 0 && secs > 0 {
            let total: i128 = self.state.total_frames as i128;
            assert(0 <= secs * total <= i64::MAX * i64::MAX) by (nonlinear_arith)
                requires
                    0 < secs <= i64::MAX,
                    0 <= total <= i64::MAX,
            ;
            let frame: i128 = secs as i128 * total / max_duration as i128;
            proof {
                vstd::arithmetic::div_mod::lemma_div_pos_is_pos(secs * total, max_duration as int);
            }
            self.state.end_frame = if frame > u64::MAX as i128 {
                u64::MAX
            } else {
                frame as u64
            };
        } else {
            self.state.end_frame = 0;
        }
    }

    /// Plays or pauses.
    pub fn toggle(&mut self)
        requires
            old(self).ok(),
        ensures
            final(self).ok(),
            final(self).state == old(self).state.toggled(),
            final(self).mixed@ == old(self).mixed@,
            final(self).sample_rate == old(self).sample_rate,
    {
        if self.state.playing {
            self.state.playing = false;
            self.state.end_frame = 0;
        } else {
            let end: u64 = self.state.end_frame;
            let pos: u64 = self.state.frame_pos;
            if pos >= self.state.total_frames || (end > 0 && pos >= end) {
                self.state.frame_pos = 0;
            }
            self.state.playing = true;
        }
    }

    /// Whether the project is being played.
    pub fn is_playing(&self) -> (r: bool)
        ensures
            r == self.state.playing,
    {
        self.state.playing
    }

    /// Where the playhead is, as a fraction of the mix: numerator and denominator.
    pub fn position_frac(&self) -> (r: (u64, u64))
        ensures
            r == (if self.state.total_frames == 0 {
                (0u64, 1u64)
            } else {
                (self.state.frame_pos, self.state.total_frames)
            }),
            r.1 > 0,
    {
        if self.state.total_frames == 0 {
            (0, 1)
        } else {
            (self.state.frame_pos, self.state.total_frames)
        }
    }

    /// The space bar: plays or pauses; with a selection, plays the selection.
    pub fn press_space(&mut self, selection: Option<(Secs, Secs)>, max_duration: Secs)
        requires
            old(self).ok(),
        ensures
            final(self).ok(),
            final(self).state == old(self).state.space_pressed(selection, max_duration),
            final(self).mixed@ == old(self).mixed@,
            final(self).sample_rate == old(self).sample_rate,
    {
        if self.is_playing() {
            self.toggle();
        } else {
            match selection {
                Some((s0, s1)) => {
                    self.seek_to_secs(s0, max_duration);
                    self.set_end_secs(s1, max_duration);
                },
                None => {
                    self.set_end_secs(0, max_duration);
                },
            }
            self.toggle();
        }
    }

    /// An arrow key: moves the playhead by a twentieth of the view, or by a hundredth.
    #[verifier::spinoff_prover]
    pub fn nudge(&mut self, right: bool, fine: bool, view: Secs, max_duration: Secs)
        requires
            old(self).ok(),
            view >= 0,
        ensures
            final(self).ok(),
            final(self).state == old(self).state.nudged(right, fine, view, max_duration),
            final(self).mixed@ == old(self).mixed@,
            final(self).sample_rate == old(self).sample_rate,
    {
        if max_duration <= 0 {
            return;
        }
        let parts: u128 = if fine {
            100
        } else {
            20
        };
        let total: u128 = self.state.total_frames as u128;
        let max: u128 = max_duration as u128;
        let pos: u128 = self.state.frame_pos as u128;
        assert(0 <= view * total <= i64::MAX * i64::MAX) by (nonlinear_arith)
            requires
                0 <= view <= i64::MAX,
                0 <= total <= i64::MAX,
        ;
        assert(0 < parts * max <= 100 * i64::MAX) by (nonlinear_arith)
            requires
                0 < parts <= 100,
                0 < max <= i64::MAX,
        ;
        let den: u128 = parts * max;
        let num: u128 = view as u128 * total;
        let whole: u128 = num / den;
        let rest: u128 = num % den;
        assert(whole <= num) by (nonlinear_arith)
            requires
                whole == num / den,
                den > 0,
        ;
        proof {
            vstd::arithmetic::div_mod::lemma_fundamental_div_mod(num as int, den as int);
            vstd::arithmetic::div_mod::lemma_div_pos_is_pos(num as int, den as int);
            let p = pos as int;
            let t = total as int;
            assert(parts * p * max == p * den && parts * t * max == t * den) by (nonlinear_arith)
                requires
                    den == parts * max,
            ;
            lemma_steps(p, t, num as int, den as int);
        }
        self.state.frame_pos = if right {
            if whole < total - pos {
                (pos + whole) as u64
            } else {
                total as u64
            }
        } else {
            let back: u128 = if rest == 0 {
                whole
            } else {
                whole + 1
            };
            if back < pos {
                (pos - back) as u64
            } else {
                0
            }
        };
    }

    /// Plays on from where another player was.
    pub fn resume(&mut self, prev: PlaybackState)
        requires
            old(self).ok(),
            prev.ok(),
        ensures
            final(self).ok(),
            final(self).state == old(self).state.resumed(prev),
            final(self).mixed@ == old(self).mixed@,
            final(self).sample_rate == old(self).sample_rate,
    {
        if prev.total_frames == 0 {
            self.seek_frac(0, 1);
        } else {
            self.seek_frac(prev.frame_pos as Secs, prev.total_frames as Secs);
        }
        if prev.playing {
            self.state.playing = true;
        }
    }
}

/// The rate of the first clip of some tracks.
pub(crate) fn find_rate(tracks: &Vec<Track>) -> (r: Option<u32>)
    requires
        crate::track::tracks_ok(crate::track::track_views(tracks@)),
    ensures
        r == first_rate(crate::track::track_views(tracks@)),
{
    let ghost all = crate::track::track_views(tracks@);
    let mut i: usize = 0;
    assert(all.subrange(0, all.len() as int) =~= all);
    while i < tracks.len()
        invariant
            i <= tracks@.len(),
            all == crate::track::track_views(tracks@),
            crate::track::tracks_ok(all),
            first_rate(all) == first_rate(all.subrange(i as int, all.len() as int)),
        decreases tracks@.len() - i,
    {
        let ghost rest = all.subrange(i as int, all.len() as int);
        assert(rest[0] == all[i as int]);
        assert(all[i as int] == tracks@[i as int]@);
        if tracks[i].clips.len() > 0 {
            assert(crate::track::clips_ok(all[i as int].clips));
            assert(all[i as int].clips[0] == tracks@[i as int].clips@[0]@);
            return Some(tracks[i].clips[0].sample_rate);
        }
        assert(rest.subrange(1, rest.len() as int) =~= all.subrange(i + 1, all.len() as int));
        i = i + 1;
    }
    None
}

/// The next `n` frames of the mix, left and right in turn: silence where nothing is played.
/// Returns them with where playing is then.
pub fn play_frames(state: PlaybackState, mixed: &[Sample], n: usize) -> (r: (Vec<Sample>, PlaybackState))
    requires
        state.ok(),
        mixed@.len() == 2 * state.total_frames,
        2 * n <= usize::MAX,
    ensures
        r.1 == state.played(n as int),
        r.1.ok(),
        r.0@ == Seq::new(
            (2 * n) as nat,
            |i: int|
                if i / 2 < state.playable() {
                    mixed@[2 * state.frame_pos + i]
                } else {
                    SILENCE
                },
        ),
        r.0@ == state.heard(mixed@, n as nat),
{
    let ghost want = Seq::new(
        (2 * n) as nat,
        |i: int|
            if i / 2 < state.playable() {
                mixed@[2 * state.frame_pos + i]
            } else {
                SILENCE
            },
    );
    let size: usize = mixed.len();
    let mut out: Vec<Sample> = Vec::new();
    let mut s: PlaybackState = state;
    let mut k: usize = 0;
    while k < n
        invariant
            k <= n,
            2 * n <= usize::MAX,
            state.ok(),
            size == mixed@.len(),
            mixed@.len() == 2 * state.total_frames,
            want == Seq::new(
                (2 * n) as nat,
                |i: int|
                    if i / 2 < state.playable() {
                        mixed@[2 * state.frame_pos + i]
                    } else {
                        SILENCE
                    },
            ),
            s == state.played(k as int),
            out@.len() == 2 * k,
            forall|i: int| 0 <= i < 2 * k ==> #[trigger] out@[i] == want[i],
        decreases n - k,
    {
        let pos: u64 = s.frame_pos;
        let end: u64 = s.end_frame;
        let ghost before = out@;
        if !s.playing || pos >= s.total_frames || (end > 0 && pos >= end) {
            s.playing = false;
            out.push(SILENCE);
            out.push(SILENCE);
        } else {
            assert(pos < state.total_frames);
            let at: usize = 2 * pos as usize;
            out.push(mixed[at]);
            out.push(mixed[at + 1]);
            s.frame_pos = pos + 1;
        }
        proof {
            assert(want[2 * k] == out@[2 * k as int]);
            assert(want[2 * k + 1] == out@[2 * k + 1]);
            assert forall|i: int| 0 <= i < 2 * k + 2 implies #[trigger] out@[i] == want[i] by {
                if i < 2 * k {
                    assert(out@[i] == before[i]);
                }
            }
        }
        k = k + 1;
    }
    assert(out@ =~= want);
    assert(want =~= state.heard(mixed@, n as nat));
    (out, s)
}

impl AppView {
    /// Where the playhead is: a fraction of the project's length, rounded up to a flick, so that the
    /// playhead on a frame is not before that frame.
    pub open spec fn playhead(self, pos: u64, total: u64) -> int {
        (pos * self.max_duration() + total - 1) / total as int
    }
}

impl App {
    /// Where the playhead is, given where playing is; at the start without a player.
    pub fn playhead_secs(&self, state: Option<PlaybackState>) -> (r: Secs)
        requires
            self@.ok(),
            state matches Some(s) ==> s.ok(),
        ensures
            r == (match state {
                Some(s) => if s.total_frames == 0 {
                    0
                } else {
                    self@.playhead(s.frame_pos, s.total_frames)
                },
                None => 0,
            }),
    {
        match state {
            Some(s) => {
                if s.total_frames == 0 {
                    return 0;
                }
                let max: Secs = self.max_duration();
                let pos: i128 = s.frame_pos as i128;
                let total: i128 = s.total_frames as i128;
                proof {
                    lemma_share(pos as int, max as int, total as int);
                    assert(total * max <= i64::MAX * i64::MAX) by (nonlinear_arith)
                        requires
                            0 <= total <= i64::MAX,
                            0 <= max <= i64::MAX,
                    ;
                }
                proof {
                    let x = pos * max;
                    vstd::arithmetic::div_mod::lemma_div_is_ordered(
                        x + total - 1,
                        total * max + total - 1,
                        total as int,
                    );
                    assert(total * max == max * total) by (nonlinear_arith);
                    vstd::arithmetic::div_mod::lemma_fundamental_div_mod_converse(
                        total * max + total - 1,
                        total as int,
                        max as int,
                        total - 1,
                    );
                    vstd::arithmetic::div_mod::lemma_div_pos_is_pos(x + total - 1, total as int);
                }
                ((pos * max as i128 + total - 1) / total) as Secs
            },
            None => 0,
        }
    }

    /// The mix that is exported: the whole project at its own rate, or nothing if it has no
    /// length. `plus` adds two samples, `times` multiplies two.
    pub fn export_mix<P: Fn(Sample, Sample) -> Sample, T: Fn(Sample, Sample) -> Sample>(
        &self,
        plus: &P,
        times: &T,
    ) -> (r: Option<Vec<Sample>>)
        requires
            self@.ok(),
            2 * exported_frames(self@.tracks, self@.project_rate) <= usize::MAX,
            crate::sample::is_function(*plus),
            crate::sample::is_function(*times),
        ensures
            match r {
                Some(mix) => self@.max_duration() > 0 && mix@ == (Mixer {
                    rate: self@.project_rate,
                    plus: crate::mix::as_spec(*plus),
                    times: crate::mix::as_spec(*times),
                }).mix(
                    self@.tracks,
                    exported_frames(self@.tracks, self@.project_rate) as nat,
                ),
                None => self@.max_duration() == 0,
            },
            r matches Some(mix) ==> mix@ == export_of(
                self@.tracks,
                self@.project_rate,
                crate::mix::as_spec(*plus),
                crate::mix::as_spec(*times),
            ),
    {
        let max: Secs = self.max_duration();
        if max <= 0 {
            return None;
        }
        let rate: u32 = self.project_rate;
        let frames: usize = count_frames(&self.tracks, rate, true) as usize;
        let mix: Vec<Sample> = mix_down(&self.tracks, rate, frames, plus, times);
        Some(mix)
    }
}

/// What is exported of some tracks at `rate`.
pub open spec fn export_of(
    tracks: Seq<TrackView>,
    rate: u32,
    plus: spec_fn(Sample, Sample) -> Sample,
    times: spec_fn(Sample, Sample) -> Sample,
) -> Seq<Sample> {
    (Mixer { rate, plus, times }).mix(tracks, exported_frames(tracks, rate) as nat)
}

/// Whether no clip of some tracks ends after `c`.
pub open spec fn ends_last(c: ClipView, tracks: Seq<TrackView>) -> bool {
    forall|t: int, i: int|
        0 <= t < tracks.len() && 0 <= i < tracks[t].clips.len() ==> (
        #[trigger] tracks[t].clips[i]).sample_rate > 0 && tracks[t].clips[i].scaled_end()
            * c.sample_rate <= c.scaled_end() * tracks[t].clips[i].sample_rate
}

/// A clip that ends by the end of another takes no more frames.
proof fn lemma_earlier_end(d: ClipView, c: ClipView, rate: u32)
    requires
        d.sample_rate > 0,
        c.sample_rate > 0,
        d.scaled_end() * c.sample_rate <= c.scaled_end() * d.sample_rate,
    ensures
        d.frames_to_end(rate, true) <= c.frames_to_end(rate, true),
        0 <= c.frames_to_end(rate, true),
{
    let a = d.scaled_end();
    let b = c.scaled_end();
    let p = d.sample_rate as int;
    let q = c.sample_rate as int;
    let r = rate as int;
    let f = FLICKS as int;
    let x = (a * r + f * p - 1) / (f * p);
    let y = (b * r + f * q - 1) / (f * q);
    assert(f * p > 0 && f * q > 0) by (nonlinear_arith)
        requires
            f > 0,
            p > 0,
            q > 0,
    ;
    if r > 0 && b > 0 {
        assert(b * r >= 0) by (nonlinear_arith)
            requires
                b > 0,
                r > 0,
        ;
        vstd::arithmetic::div_mod::lemma_div_pos_is_pos(b * r + f * q - 1, f * q);
    }
    if r > 0 && a > 0 {
        assert(b > 0) by (nonlinear_arith)
            requires
                a * q <= b * p,
                a > 0,
                q > 0,
                p > 0,
        ;
        vstd::arithmetic::div_mod::lemma_fundamental_div_mod(b * r + f * q - 1, f * q);
        vstd::arithmetic::div_mod::lemma_mod_bound(b * r + f * q - 1, f * q);
        assert(b * r <= f * q * y);
        assert(a * r <= f * p * y) by (nonlinear_arith)
            requires
                a * q <= b * p,
                b * r <= f * q * y,
                r > 0,
                p > 0,
                q > 0,
                f > 0,
        {
            assert(a * q * r <= b * p * r);
            assert(b * r * p <= f * q * y * p);
            assert(a * r * q <= (f * p * y) * q);
        }
        assert(f * p * y == y * (f * p)) by (nonlinear_arith);
        assert(y * (f * p) + f * p - 1 == y * (f * p) + (f * p - 1));
        vstd::arithmetic::div_mod::lemma_fundamental_div_mod_converse(
            y * (f * p) + f * p - 1,
            f * p,
            y,
            f * p - 1,
        );
        vstd::arithmetic::div_mod::lemma_div_is_ordered(
            a * r + f * p - 1,
            y * (f * p) + f * p - 1,
            f * p,
        );
    }
}

proof fn lemma_last_clip_counts(c: ClipView, tracks: Seq<TrackView>, rate: u32)
    requires
        c.sample_rate > 0,
        ends_last(c, tracks),
    ensures
        crate::mix::tracks_frames(tracks, rate, true) <= c.frames_to_end(rate, true),
    decreases tracks.len(),
{
    lemma_earlier_end(c, c, rate);
    if tracks.len() > 0 {
        let d = tracks.drop_last();
        assert forall|t: int, i: int| 0 <= t < d.len() && 0 <= i < d[t].clips.len() implies (
        #[trigger] d[t].clips[i]).sample_rate > 0 && d[t].clips[i].scaled_end() * c.sample_rate
            <= c.scaled_end() * d[t].clips[i].sample_rate by {
            assert(d[t].clips[i] == tracks[t].clips[i]);
        }
        lemma_last_clip_counts(c, d, rate);
        let n = tracks.len() - 1;
        assert forall|i: int| 0 <= i < tracks.last().clips.len() implies (
        #[trigger] tracks.last().clips[i]).frames_to_end(rate, true) <= c.frames_to_end(rate, true) by {
            assert(tracks[n].clips[i] == tracks.last().clips[i]);
            lemma_earlier_end(tracks[n].clips[i], c, rate);
        }
        lemma_clips_bound(tracks.last().clips, rate, c.frames_to_end(rate, true));
    }
}

proof fn lemma_clips_bound(clips: Seq<ClipView>, rate: u32, bound: int)
    requires
        bound >= 0,
        forall|i: int|
            0 <= i < clips.len() ==> (#[trigger] clips[i]).frames_to_end(rate, true) <= bound,
    ensures
        crate::mix::clips_frames(clips, rate, true) <= bound,
    decreases clips.len(),
{
    if clips.len() > 0 {
        let d = clips.drop_last();
        assert forall|i: int| 0 <= i < d.len() implies (#[trigger] d[i]).frames_to_end(rate, true)
            <= bound by {
            assert(d[i] == clips[i]);
        }
        lemma_clips_bound(d, rate, bound);
        assert(clips.last() == clips[clips.len() - 1]);
    }
}

/// A project whose last clip has the rate of the project, and starts on a frame of it, is exported
/// with exactly the frames up to the end of that clip.
pub proof fn law_export_ends_on_a_frame(v: AppView, t: int, i: int)
    requires
        0 <= t < v.tracks.len(),
        0 <= i < v.tracks[t].clips.len(),
        ends_last(v.tracks[t].clips[i], v.tracks),
        v.tracks[t].clips[i].sample_rate == v.project_rate,
        v.tracks[t].clips[i].offset_secs >= 0,
        v.tracks[t].clips[i].offset_secs * v.project_rate % (FLICKS as int) == 0,
    ensures
        exported_frames(v.tracks, v.project_rate) == v.tracks[t].clips[i].offset_secs
            * v.project_rate / FLICKS as int + v.tracks[t].clips[i].mono.len(),
{
    let c = v.tracks[t].clips[i];
    crate::mix::lemma_frames_hold_clip(v.tracks, t, i, v.project_rate, true);
    lemma_last_clip_counts(c, v.tracks, v.project_rate);
    crate::mix::lemma_own_rate(c, v.project_rate, true);
}

/// It does not matter in which chunks the mix is played.
pub proof fn law_chunks_do_not_matter(s: PlaybackState, m: int, n: int)
    requires
        s.ok(),
        m >= 0,
        n >= 0,
    ensures
        s.played(m).played(n) == s.played(m + n),
{
}

/// Playing does not go beyond where it has to stop.
pub proof fn law_playing_stops(s: PlaybackState, n: int)
    requires
        s.ok(),
        n >= 0,
    ensures
        s.played(n).ok(),
        s.frame_pos <= s.stop() ==> s.played(n).frame_pos <= s.stop(),
        n > s.playable() ==> !s.played(n).playing,
{
}

/// A player that plays on from another keeps its place, if the mix is as long.
pub proof fn law_resume_keeps_place(s: PlaybackState, prev: PlaybackState)
    requires
        s.ok(),
        prev.ok(),
        prev.total_frames == s.total_frames,
        s.total_frames > 0,
    ensures
        s.resumed(prev).frame_pos == prev.frame_pos,
        prev.playing ==> s.resumed(prev).playing,
{
    let p = prev.frame_pos as int;
    let t = s.total_frames as int;
    assert(p * t / t == p) by (nonlinear_arith)
        requires
            t > 0,
    ;
}

/// The playhead lands on the frame that holds the time it is moved to: not after that time, and
/// less than a frame before it.
pub proof fn law_seek_lands_there(v: AppView, s: PlaybackState, secs: Secs)
    requires
        s.ok(),
        s.total_frames > 0,
        v.max_duration() > 0,
        0 <= secs <= v.max_duration(),
    ensures
        ({
            let p = s.at_secs(secs, v.max_duration());
            let there = v.playhead(p.frame_pos, p.total_frames);
            &&& there <= secs
            &&& (secs - there) * s.total_frames < v.max_duration()
        }),
{
    let max = v.max_duration() as int;
    let total = s.total_frames as int;
    let x = secs as int;
    lemma_share(x, total, max);
    let p = x * total / max;
    vstd::arithmetic::div_mod::lemma_fundamental_div_mod(x * total, max);
    vstd::arithmetic::div_mod::lemma_mod_bound(x * total, max);
    let up = p * max + total - 1;
    let t = up / total;
    vstd::arithmetic::div_mod::lemma_fundamental_div_mod(up, total);
    vstd::arithmetic::div_mod::lemma_mod_bound(up, total);
    assert(t <= x && (x - t) * total < max) by (nonlinear_arith)
        requires
            x * total == max * p + (x * total) % max,
            0 <= (x * total) % max < max,
            up == p * max + total - 1,
            up == total * t + up % total,
            0 <= up % total < total,
            total > 0,
    ;
}

/// The playhead on a frame is at that frame, in a project that is as long as its frames take: what
/// is cut there is cut at that frame.
pub proof fn law_playhead_is_on_its_frame(v: AppView, pos: u64, total: u64, rate: u32)
    requires
        pos <= total,
        0 < total,
        0 < 2 * rate <= FLICKS,
        v.max_duration() == crate::time::time_of(total as int, rate as int),
    ensures
        crate::time::frames_in(v.playhead(pos, total), rate as int) == pos,
{
    let k = pos as int;
    let n = total as int;
    let r = rate as int;
    let f = FLICKS as int;
    let top = n * f + r - 1;
    let max = v.max_duration() as int;
    vstd::arithmetic::div_mod::lemma_fundamental_div_mod(top, r);
    vstd::arithmetic::div_mod::lemma_mod_bound(top, r);
    let up = k * max + n - 1;
    let t = up / n;
    vstd::arithmetic::div_mod::lemma_fundamental_div_mod(up, n);
    vstd::arithmetic::div_mod::lemma_mod_bound(up, n);
    crate::time::lemma_time_of_grows(0, n, r);
    assert(max * r == r * max) by (nonlinear_arith);
    assert(n * f <= max * r <= n * f + r - 1);
    assert(k * max <= n * t <= k * max + n - 1);
    assert(k * f <= t * r) by (nonlinear_arith)
        requires
            n * f <= max * r,
            k * max <= n * t,
            0 <= k,
            0 < n,
            0 < r,
    {
        assert(k * (n * f) <= k * (max * r));
        assert((k * max) * r <= (n * t) * r);
        assert(n * (k * f) <= n * (t * r));
    }
    assert(t * r < (k + 1) * f) by (nonlinear_arith)
        requires
            max * r <= n * f + r - 1,
            n * t <= k * max + n - 1,
            0 <= k <= n,
            0 < n,
            0 < r,
            2 * r <= f,
    {
        assert((n * t) * r <= (k * max + n - 1) * r);
        assert(k * (max * r) <= k * (n * f + r - 1));
        assert(k * (r - 1) <= n * (r - 1));
        assert((n - 1) * r < n * r);
        assert(n * (t * r) < n * (k * f) + n * (2 * r));
        assert(n * (2 * r) <= n * f);
        assert(n * (t * r) < n * ((k + 1) * f));
    }
    assert(t >= 0) by (nonlinear_arith)
        requires
            k * f <= t * r,
            k >= 0,
            f > 0,
            r > 0,
    ;
    if t > 0 {
        assert((k + 1) * f == k * f + f) by (nonlinear_arith);
        vstd::arithmetic::div_mod::lemma_fundamental_div_mod_converse(t * r, f, k, t * r - k * f);
    } else {
        assert(k == 0) by (nonlinear_arith)
            requires
                k * f <= t * r,
                t <= 0,
                r > 0,
                f > 0,
                k >= 0,
        ;
    }
}

} // verus!
