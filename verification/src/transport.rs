//! What the transport does: playing, pausing, seeking, and how long a mix is.

use vstd::prelude::*;
use crate::app::AppView;
use crate::audio::ClipView;
use crate::playback::PlaybackState;
use crate::sample::Sample;
use crate::time::Secs;
use crate::track::TrackView;

verus! {

/// Seeking to a time puts the playhead on the frame that holds that time, at the beginning for a time
/// before the project, and at the end for one after it.
pub proof fn law_seek_is_in_proportion(s: PlaybackState, secs: Secs, max: Secs)
    requires
        s.ok(),
        max > 0,
    ensures
        ({
            let p = s.at_secs(secs, max);
            &&& p == (PlaybackState { frame_pos: p.frame_pos, ..s })
            &&& secs <= 0 ==> p.frame_pos == 0
            &&& secs >= max ==> p.frame_pos == s.total_frames
            &&& 0 <= secs <= max ==> p.frame_pos * max <= secs * s.total_frames < (p.frame_pos + 1) * max
        }),
        s.at_secs(secs, 0) == s,
{
    let total = s.total_frames as int;
    let x = crate::time::clamp_between(secs as int, 0, max as int);
    assert(0 <= x * total <= max * total) by (nonlinear_arith)
        requires
            0 <= x <= max,
            total >= 0,
    ;
    lemma_share(x * total, max as int);
    let q = x * total / max as int;
    assert(0 <= q <= total) by (nonlinear_arith)
        requires
            q * max <= x * total < (q + 1) * max,
            0 <= x * total <= max * total,
            max > 0,
    ;
    if x == 0 {
        assert(q == 0) by (nonlinear_arith)
            requires
                q * max <= x * total < (q + 1) * max,
                x == 0,
                max > 0,
        ;
    }
    if x == max {
        assert(q == total) by (nonlinear_arith)
            requires
                q * max <= x * total < (q + 1) * max,
                x == max,
                max > 0,
        ;
    }
}

proof fn lemma_share(n: int, d: int)
    requires
        d > 0,
    ensures
        n / d * d <= n < (n / d + 1) * d,
{
    let q = n / d;
    vstd::arithmetic::div_mod::lemma_fundamental_div_mod(n, d);
    vstd::arithmetic::div_mod::lemma_mod_bound(n, d);
    assert(q * d <= n < (q + 1) * d) by (nonlinear_arith)
        requires
            n == d * q + n % d,
            0 <= n % d < d,
    ;
}

/// An arrow key moves the playhead by a twentieth of what is shown, or by a hundredth with the shift key:
/// forward to the right and back to the left, but not beyond the beginning or the end.
pub proof fn law_arrow_keys_step(s: PlaybackState, right: bool, fine: bool, view: Secs, max: Secs)
    requires
        s.ok(),
        max > 0,
        view >= 0,
    ensures
        ({
            let p = s.nudged(right, fine, view, max);
            let steps = if fine {
                100int
            } else {
                20int
            };
            let unit = steps * max;
            let far = view * s.total_frames;
            &&& p == (PlaybackState { frame_pos: p.frame_pos, ..s })
            &&& p.frame_pos <= s.total_frames
            &&& right ==> s.frame_pos <= p.frame_pos
            &&& right ==> (p.frame_pos - s.frame_pos) * unit <= far
            &&& right && p.frame_pos < s.total_frames ==> far < (p.frame_pos - s.frame_pos + 1) * unit
            &&& !right ==> p.frame_pos <= s.frame_pos
            &&& !right && p.frame_pos > 0 ==> far <= (s.frame_pos - p.frame_pos) * unit
            &&& !right ==> (s.frame_pos - p.frame_pos - 1) * unit < far || p.frame_pos == s.frame_pos
        }),
{
    let steps = if fine {
        100int
    } else {
        20int
    };
    let unit = steps * max;
    let far = view * s.total_frames;
    let pos = s.frame_pos as int;
    let total = s.total_frames as int;
    assert(unit > 0 && far >= 0) by (nonlinear_arith)
        requires
            unit == steps * max,
            steps > 0,
            max > 0,
            far == view * total,
            view >= 0,
            total >= 0,
    ;
    assert(steps * pos * max == pos * unit && steps * total * max == total * unit) by (nonlinear_arith)
        requires
            unit == steps * max,
    ;
    assert(0 <= pos * unit <= total * unit) by (nonlinear_arith)
        requires
            0 <= pos <= total,
            unit > 0,
    ;
    let there = if right {
        pos * unit + far
    } else {
        pos * unit - far
    };
    let x = crate::time::clamp_between(there, 0, total * unit);
    lemma_share(x, unit);
    let q = x / unit;
    assert(0 <= q <= total) by (nonlinear_arith)
        requires
            q * unit <= x < (q + 1) * unit,
            0 <= x <= total * unit,
            unit > 0,
    ;
    assert((q - pos) * unit == q * unit - pos * unit && (q - pos + 1) * unit == q * unit - pos * unit
        + unit && (pos - q) * unit == pos * unit - q * unit && (pos - q - 1) * unit == pos * unit - q
        * unit - unit && (q + 1) * unit == q * unit + unit) by (nonlinear_arith);
    if right {
        assert(pos <= q) by (nonlinear_arith)
            requires
                pos * unit <= x,
                x < (q + 1) * unit,
                unit > 0,
        ;
        if q < total {
            assert((q + 1) * unit <= total * unit) by (nonlinear_arith)
                requires
                    q + 1 <= total,
                    unit > 0,
            ;
        }
    } else {
        assert(q <= pos) by (nonlinear_arith)
            requires
                q * unit <= x,
                x <= pos * unit,
                unit > 0,
        ;
        if q > 0 {
            assert(q * unit >= unit) by (nonlinear_arith)
                requires
                    q >= 1,
                    unit > 0,
            ;
        }
        if there < 0 && q < pos {
            assert((pos - q - 1) * unit < far || q == pos) by {
                assert(q == 0) by (nonlinear_arith)
                    requires
                        q * unit <= 0,
                        q >= 0,
                        unit > 0,
                ;
            }
        }
    }
}

/// Pausing keeps the place, and forgets where playing was to stop. Playing goes on from the place, or
/// from the beginning if it has come to where it stops.
pub proof fn law_play_and_pause(s: PlaybackState)
    requires
        s.ok(),
    ensures
        s.playing ==> !s.toggled().playing && s.toggled().frame_pos == s.frame_pos
            && s.toggled().end_frame == 0,
        !s.playing ==> s.toggled().playing && s.toggled().end_frame == s.end_frame,
        !s.playing && s.end_frame == 0 ==> s.toggled().frame_pos == if s.frame_pos < s.total_frames {
            s.frame_pos
        } else {
            0
        },
        !s.playing && 0 < s.end_frame <= s.total_frames ==> s.toggled().frame_pos == if s.frame_pos
            < s.end_frame {
            s.frame_pos
        } else {
            0
        },
        s.toggled().total_frames == s.total_frames,
{
}

/// The space bar pauses what plays. What is paused plays the selection, from the frame at its start up to
/// the frame at its end; without a selection it plays on from where it is, to the end.
pub proof fn law_the_space_bar_plays_the_selection(
    s: PlaybackState,
    selection: Option<(Secs, Secs)>,
    max: Secs,
)
    requires
        s.ok(),
        max > 0,
    ensures
        s.playing ==> s.space_pressed(selection, max) == (PlaybackState {
            playing: false,
            end_frame: 0,
            ..s
        }),
        !s.playing ==> s.space_pressed(selection, max).playing,
        !s.playing && selection is None ==> s.space_pressed(selection, max).end_frame == 0
            && s.space_pressed(selection, max).frame_pos == if s.frame_pos < s.total_frames {
            s.frame_pos
        } else {
            0
        },
        !s.playing ==> (selection matches Some((s0, s1)) ==> {
            let p = s.space_pressed(selection, max);
            0 <= s0 < s1 <= max ==> {
                &&& p.end_frame * max <= s1 * s.total_frames < (p.end_frame + 1) * max
                &&& p.frame_pos > 0 ==> p.frame_pos * max <= s0 * s.total_frames < (p.frame_pos + 1) * max
                &&& p.frame_pos == 0 ==> s0 * s.total_frames < max || p.end_frame * max <= s0
                    * s.total_frames
            }
        }),
{
    if !s.playing {
        if let Some((s0, s1)) = selection {
            if 0 <= s0 < s1 <= max {
                let total = s.total_frames as int;
                law_seek_is_in_proportion(s, s0, max);
                lemma_share(s1 * total, max as int);
                let e = s1 * total / max as int;
                assert(0 <= e <= total) by (nonlinear_arith)
                    requires
                        e * max <= s1 * total < (e + 1) * max,
                        0 <= s1 <= max,
                        max > 0,
                        total >= 0,
                ;
                let at = s.at_secs(s0, max);
                let q = at.frame_pos as int;
                if at.frame_pos >= e && e > 0 {
                    assert(e * max <= q * max) by (nonlinear_arith)
                        requires
                            e <= q,
                            max > 0,
                    ;
                }
            }
        }
    }
}

/// What is heard is the mix from the playhead on, frame by frame, both sides, as far as playing goes; then
/// silence. The playhead moves on by what was heard.
pub proof fn law_the_mix_is_heard_from_the_playhead(
    s: PlaybackState,
    mixed: Seq<Sample>,
    n: nat,
    k: int,
)
    requires
        s.ok(),
        mixed.len() == 2 * s.total_frames,
        0 <= k < n,
    ensures
        ({
            let out = s.heard(mixed, n);
            let stop = if 0 < s.end_frame < s.total_frames {
                s.end_frame
            } else {
                s.total_frames
            };
            &&& out.len() == 2 * n
            &&& if s.playing && s.frame_pos + k < stop {
                out[2 * k] == mixed[2 * (s.frame_pos + k)] && out[2 * k + 1] == mixed[2 * (s.frame_pos
                    + k) + 1]
            } else {
                out[2 * k] == 0 && out[2 * k + 1] == 0
            }
            &&& s.playing && s.frame_pos + n <= stop ==> s.played(n as int) == (PlaybackState {
                frame_pos: (s.frame_pos + n) as u64,
                ..s
            })
            &&& s.playing && s.frame_pos <= stop < s.frame_pos + n ==> s.played(n as int) == (
            PlaybackState { playing: false, frame_pos: stop, ..s })
            &&& !s.playing ==> s.played(n as int) == s
        }),
{
}

/// A player and an export are as long as the project: the last clip ends within the last frame of an
/// export, and within the frame behind the last one that is played.
pub proof fn law_a_mix_is_as_long_as_the_project(tracks: Seq<TrackView>, rate: u32)
    requires
        rate > 0,
        forall|t: int, i: int|
            0 <= t < tracks.len() && 0 <= i < tracks[t].clips.len() ==> (
            #[trigger] tracks[t].clips[i]).sample_rate > 0,
    ensures
        ({
            let n = crate::playback::exported_frames(tracks, rate);
            let m = crate::playback::played_frames(tracks, rate);
            &&& 0 <= m
            &&& 0 <= n
            &&& forall|t: int, i: int|
                0 <= t < tracks.len() && 0 <= i < tracks[t].clips.len() ==> {
                    &&& ends_by(#[trigger] tracks[t].clips[i], rate, n)
                    &&& !reaches(tracks[t].clips[i], rate, m + 1)
                }
            &&& n > 0 ==> exists|t: int, i: int|
                0 <= t < tracks.len() && 0 <= i < tracks[t].clips.len() && !ends_by(
                    #[trigger] tracks[t].clips[i],
                    rate,
                    n - 1,
                )
            &&& m > 0 ==> exists|t: int, i: int|
                0 <= t < tracks.len() && 0 <= i < tracks[t].clips.len() && reaches(
                    #[trigger] tracks[t].clips[i],
                    rate,
                    m,
                )
            &&& m <= n <= m + 1
        }),
{
    lemma_longest(tracks, rate, true);
    lemma_longest(tracks, rate, false);
    let n = crate::playback::exported_frames(tracks, rate);
    let m = crate::playback::played_frames(tracks, rate);
    assert forall|t: int, i: int| 0 <= t < tracks.len() && 0 <= i < tracks[t].clips.len() implies ends_by(
        #[trigger] tracks[t].clips[i],
        rate,
        n,
    ) && !reaches(tracks[t].clips[i], rate, m + 1) by {
        let c = tracks[t].clips[i];
        lemma_clip_frames(c, rate);
        lemma_ends_later(c, rate, c.frames_to_end(rate, true), n);
        let den = 705_600_000 * c.sample_rate;
        let k = c.frames_to_end(rate, false) + 1;
        assert(k * den <= (m + 1) * den) by (nonlinear_arith)
            requires
                k <= m + 1,
                den >= 0,
        ;
    }
    if n > 0 {
        let (t, i) = choose|t: int, i: int|
            0 <= t < tracks.len() && 0 <= i < tracks[t].clips.len() && (
            #[trigger] tracks[t].clips[i]).frames_to_end(rate, true) == n;
        lemma_clip_frames(tracks[t].clips[i], rate);
        crate::mix::lemma_frames_hold_clip(tracks, t, i, rate, false);
    }
    if m > 0 {
        let (t, i) = choose|t: int, i: int|
            0 <= t < tracks.len() && 0 <= i < tracks[t].clips.len() && (
            #[trigger] tracks[t].clips[i]).frames_to_end(rate, false) == m;
        lemma_clip_frames(tracks[t].clips[i], rate);
        crate::mix::lemma_frames_hold_clip(tracks, t, i, rate, true);
    }
}

/// Whether a clip ends by the end of the first `n` frames of a mix at `rate`.
pub open spec fn ends_by(c: ClipView, rate: u32, n: int) -> bool {
    (c.offset_secs * c.sample_rate + c.mono.len() * 705_600_000) * rate <= n * (705_600_000
        * c.sample_rate)
}

/// Whether a clip reaches to the end of the first `n` frames of a mix at `rate`.
pub open spec fn reaches(c: ClipView, rate: u32, n: int) -> bool {
    (c.offset_secs * c.sample_rate + c.mono.len() * 705_600_000) * rate >= n * (705_600_000
        * c.sample_rate)
}

proof fn lemma_ends_later(c: ClipView, rate: u32, m: int, n: int)
    requires
        ends_by(c, rate, m),
        m <= n,
    ensures
        ends_by(c, rate, n),
{
    let den = 705_600_000 * c.sample_rate;
    assert(m * den <= n * den) by (nonlinear_arith)
        requires
            m <= n,
            den >= 0,
    ;
}

proof fn lemma_clip_frames(c: ClipView, rate: u32)
    requires
        rate > 0,
        c.sample_rate > 0,
    ensures
        ({
            let n = c.frames_to_end(rate, true);
            let m = c.frames_to_end(rate, false);
            &&& 0 <= m <= n <= m + 1
            &&& ends_by(c, rate, n)
            &&& n > 0 ==> !ends_by(c, rate, n - 1)
            &&& m > 0 ==> reaches(c, rate, m)
            &&& !reaches(c, rate, m + 1)
        }),
{
    let end = c.offset_secs * c.sample_rate + c.mono.len() * 705_600_000;
    let den = 705_600_000 * c.sample_rate;
    let x = end * rate;
    assert(end == c.scaled_end());
    assert(1 * den == den && 0 * den == 0) by (nonlinear_arith);
    if end <= 0 {
        assert(x <= 0) by (nonlinear_arith)
            requires
                x == end * rate,
                end <= 0,
                rate > 0,
        ;
    } else {
        assert(x > 0) by (nonlinear_arith)
            requires
                x == end * rate,
                end > 0,
                rate > 0,
        ;
        lemma_share(x, den);
        lemma_share(x + den - 1, den);
        let m = x / den;
        let n = (x + den - 1) / den;
        vstd::arithmetic::div_mod::lemma_div_pos_is_pos(x, den);
        assert((n - 1) * den == n * den - den && (n + 1) * den == n * den + den && (m + 1) * den == m * den
            + den) by (nonlinear_arith);
        assert(m <= n <= m + 1) by (nonlinear_arith)
            requires
                m * den <= x < (m + 1) * den,
                n * den <= x + den - 1 < (n + 1) * den,
                den > 0,
        ;
    }
}

/// The frames of some tracks are those of one of their clips, or none.
proof fn lemma_longest(tracks: Seq<TrackView>, rate: u32, up: bool)
    ensures
        ({
            let n = crate::mix::tracks_frames(tracks, rate, up);
            &&& n >= 0
            &&& n == 0 || exists|t: int, i: int|
                0 <= t < tracks.len() && 0 <= i < tracks[t].clips.len() && (
                #[trigger] tracks[t].clips[i]).frames_to_end(rate, up) == n
            &&& forall|t: int, i: int|
                0 <= t < tracks.len() && 0 <= i < tracks[t].clips.len() ==> (
                #[trigger] tracks[t].clips[i]).frames_to_end(rate, up) <= n
        }),
    decreases tracks.len(),
{
    let n = crate::mix::tracks_frames(tracks, rate, up);
    assert forall|t: int, i: int| 0 <= t < tracks.len() && 0 <= i < tracks[t].clips.len() implies (
    #[trigger] tracks[t].clips[i]).frames_to_end(rate, up) <= n by {
        crate::mix::lemma_frames_hold_clip(tracks, t, i, rate, up);
    }
    if tracks.len() > 0 {
        let d = tracks.drop_last();
        let k = tracks.len() - 1;
        lemma_longest(d, rate, up);
        lemma_longest_clip(tracks[k].clips, rate, up);
        let less = crate::mix::tracks_frames(d, rate, up);
        if n > 0 {
            if n == less {
                let (t, i) = choose|t: int, i: int|
                    0 <= t < d.len() && 0 <= i < d[t].clips.len() && (
                    #[trigger] d[t].clips[i]).frames_to_end(rate, up) == less;
                assert(tracks[t].clips[i] == d[t].clips[i]);
            } else {
                let i = choose|i: int|
                    0 <= i < tracks[k].clips.len() && (#[trigger] tracks[k].clips[i]).frames_to_end(
                        rate,
                        up,
                    ) == crate::mix::clips_frames(tracks[k].clips, rate, up);
                assert(tracks[k].clips[i].frames_to_end(rate, up) == n);
            }
        }
    }
}

proof fn lemma_longest_clip(clips: Seq<ClipView>, rate: u32, up: bool)
    ensures
        crate::mix::clips_frames(clips, rate, up) >= 0,
        crate::mix::clips_frames(clips, rate, up) == 0 || exists|i: int|
            0 <= i < clips.len() && (#[trigger] clips[i]).frames_to_end(rate, up)
                == crate::mix::clips_frames(clips, rate, up),
    decreases clips.len(),
{
    if clips.len() > 0 {
        let d = clips.drop_last();
        let n = crate::mix::clips_frames(clips, rate, up);
        lemma_longest_clip(d, rate, up);
        if n > 0 {
            if n == crate::mix::clips_frames(d, rate, up) {
                let i = choose|i: int|
                    0 <= i < d.len() && (#[trigger] d[i]).frames_to_end(rate, up) == n;
                assert(clips[i] == d[i]);
            } else {
                assert(clips[clips.len() - 1].frames_to_end(rate, up) == n);
            }
        }
    }
}

/// A project is played at the rate of its first clip: the first of the first track that has one.
pub proof fn law_the_first_clip_sets_the_rate(tracks: Seq<TrackView>, t: int)
    requires
        0 <= t < tracks.len(),
        tracks[t].clips.len() > 0,
        forall|u: int| 0 <= u < t ==> (#[trigger] tracks[u]).clips.len() == 0,
    ensures
        crate::playback::first_rate(tracks) == Some(tracks[t].clips[0].sample_rate),
    decreases tracks.len(),
{
    if t > 0 {
        let rest = tracks.subrange(1, tracks.len() as int);
        assert(tracks[0].clips.len() == 0);
        assert forall|u: int| 0 <= u < t - 1 implies (#[trigger] rest[u]).clips.len() == 0 by {
            assert(rest[u] == tracks[u + 1]);
        }
        law_the_first_clip_sets_the_rate(rest, t - 1);
    }
}

/// The playhead is as far into the project as it is into the mix, rounded up to a flick.
pub proof fn law_the_playhead_is_in_proportion(v: AppView, pos: u64, total: u64)
    requires
        pos <= total,
        total > 0,
    ensures
        pos * v.max_duration() <= v.playhead(pos, total) * total < pos * v.max_duration() + total,
        v.playhead(0, total) == 0,
        v.playhead(total, total) == v.max_duration(),
{
    let n = pos * v.max_duration();
    let d = total as int;
    lemma_share(n + d - 1, d);
    let q = (n + d - 1) / d;
    assert((q + 1) * d == q * d + d) by (nonlinear_arith);
    let max = v.max_duration() as int;
    assert(0 * max == 0) by (nonlinear_arith);
    vstd::arithmetic::div_mod::lemma_fundamental_div_mod_converse(d - 1, d, 0, d - 1);
    assert(d * max + d - 1 == d * max + (d - 1) && d * max == max * d) by (nonlinear_arith);
    vstd::arithmetic::div_mod::lemma_fundamental_div_mod_converse(max * d + d - 1, d, max, d - 1);
}

/// A player that plays on from another is as far into its mix as the other was into its own, and plays if
/// the other did.
pub proof fn law_resume_is_in_proportion(s: PlaybackState, prev: PlaybackState)
    requires
        s.ok(),
        prev.ok(),
        prev.total_frames > 0,
    ensures
        ({
            let p = s.resumed(prev);
            &&& p.frame_pos * prev.total_frames <= prev.frame_pos * s.total_frames < (p.frame_pos + 1)
                * prev.total_frames
            &&& p.frame_pos <= s.total_frames
            &&& p.total_frames == s.total_frames
            &&& p.playing == (s.playing || prev.playing)
        }),
{
    let n = prev.frame_pos * s.total_frames;
    let d = prev.total_frames as int;
    lemma_share(n, d);
    let q = n / d;
    assert(0 <= q <= s.total_frames) by (nonlinear_arith)
        requires
            q * d <= n < (q + 1) * d,
            n == prev.frame_pos * s.total_frames,
            0 <= prev.frame_pos <= d,
            s.total_frames >= 0,
            d > 0,
    ;
}

} // verus!
