//! Mixing the tracks of a project down to stereo.

use vstd::prelude::*;
use crate::audio::{Clip, ClipView};
use crate::sample::{Sample, SILENCE};
use crate::time::{frame_at, FLICKS};
use crate::track::{Track, TrackView};

verus! {

/// What a function of two samples gives.
pub open spec fn as_spec<F: Fn(Sample, Sample) -> Sample>(f: F) -> spec_fn(Sample, Sample) -> Sample {
    |a: Sample, b: Sample| crate::sample::result_of(f, a, b)
}

/// The sample of a clip for the left or the right side of frame `k`: one of its first two
/// channels, or its only one.
pub open spec fn side_of(c: ClipView, k: int, right: bool) -> Sample {
    if right && c.channels > 1 {
        c.samples[k * c.channels + 1]
    } else {
        c.samples[k * c.channels]
    }
}

/// The frame of the mix that a clip starts at.
pub open spec fn first_frame(c: ClipView, rate: u32) -> usize {
    crate::time::sat_index(crate::time::frames_in(c.offset_secs as int, rate as int))
}

/// How a mix is made: the frames per second, how samples are added, and how a gain is applied.
pub struct Mixer {
    pub rate: u32,
    pub plus: spec_fn(Sample, Sample) -> Sample,
    pub times: spec_fn(Sample, Sample) -> Sample,
}

impl Mixer {
    /// One side of frame `f` with a clip added.
    pub open spec fn add_clip(
        self,
        acc: Sample,
        c: ClipView,
        track_gain: Sample,
        f: int,
        right: bool,
    ) -> Sample {
        let k = f - first_frame(c, self.rate);
        if 0 <= k < c.mono.len() {
            (self.plus)(
                acc,
                (self.times)(side_of(c, k, right), (self.times)(c.gain, track_gain)),
            )
        } else {
            acc
        }
    }

    /// One side of frame `f` with some clips added, one after the other.
    pub open spec fn add_clips(
        self,
        acc: Sample,
        clips: Seq<ClipView>,
        track_gain: Sample,
        f: int,
        right: bool,
    ) -> Sample
        decreases clips.len(),
    {
        if clips.len() == 0 {
            acc
        } else {
            self.add_clip(
                self.add_clips(acc, clips.drop_last(), track_gain, f, right),
                clips.last(),
                track_gain,
                f,
                right,
            )
        }
    }

    /// One side of frame `f` of the mix of some tracks: those that are not muted, added up.
    pub open spec fn mixed(self, tracks: Seq<TrackView>, f: int, right: bool) -> Sample
        decreases tracks.len(),
    {
        if tracks.len() == 0 {
            SILENCE
        } else {
            let acc = self.mixed(tracks.drop_last(), f, right);
            let t = tracks.last();
            if t.muted {
                acc
            } else {
                self.add_clips(acc, t.clips, t.gain, f, right)
            }
        }
    }

    /// The first `frames` frames of the mix, left and right in turn.
    pub open spec fn mix(self, tracks: Seq<TrackView>, frames: nat) -> Seq<Sample> {
        Seq::new(2 * frames, |i: int| self.mixed(tracks, i / 2, i % 2 == 1))
    }
}

/// One side of frame `f` of a mix in the making.
spec fn side_at(mix: Seq<Sample>, f: int, right: bool) -> Sample {
    if right {
        mix[2 * f + 1]
    } else {
        mix[2 * f]
    }
}

/// Adds a clip to the mix.
fn add_clip_to<P: Fn(Sample, Sample) -> Sample, T: Fn(Sample, Sample) -> Sample>(
    mix: &mut Vec<Sample>,
    clip: &Clip,
    track_gain: Sample,
    rate: u32,
    plus: &P,
    times: &T,
)
    requires
        clip@.ok(),
        old(mix)@.len() % 2 == 0,
        crate::sample::is_function(*plus),
        crate::sample::is_function(*times),
    ensures
        final(mix)@.len() == old(mix)@.len(),
        forall|f: int, right: bool|
            0 <= f < old(mix)@.len() / 2 ==> #[trigger] side_at(final(mix)@, f, right) == (Mixer {
                rate,
                plus: as_spec(*plus),
                times: as_spec(*times),
            }).add_clip(side_at(old(mix)@, f, right), clip@, track_gain, f, right),
{
    let ghost m = Mixer { rate, plus: as_spec(*plus), times: as_spec(*times) };
    let ghost before = mix@;
    let ghost c = clip@;
    let size: usize = mix.len();
    let total: usize = size / 2;
    let start: usize = frame_at(clip.offset_secs, rate);
    let gain: Sample = times(clip.gain, track_gain);
    let frames: usize = clip.mono.len();
    let len: usize = clip.samples.len();
    let ch: usize = clip.channels as usize;
    let mut k: usize = 0;
    while k < frames && start < total && k < total - start
        invariant
            m == (Mixer { rate, plus: as_spec(*plus), times: as_spec(*times) }),
            crate::sample::is_function(*plus),
            crate::sample::is_function(*times),
            c == clip@,
            c.ok(),
            frames == c.mono.len(),
            len == c.samples.len(),
            ch == c.channels,
            size == before.len(),
            size == 2 * total,
            mix@.len() == before.len(),
            start == first_frame(c, rate),
            gain == as_spec(*times)(c.gain, track_gain),
            k <= frames,
            start < total ==> k <= total - start,
            start >= total ==> k == 0,
            forall|f: int, right: bool|
                0 <= f < total ==> #[trigger] side_at(mix@, f, right) == (if f < start + k {
                    m.add_clip(side_at(before, f, right), c, track_gain, f, right)
                } else {
                    side_at(before, f, right)
                }),
        decreases frames - k,
    {
        let out: usize = start + k;
        let ghost then = mix@;
        proof {
            crate::audio::lemma_frame_in_bounds(len as int, ch as int, k as int);
            assert(side_at(then, out as int, false) == side_at(before, out as int, false));
            assert(side_at(then, out as int, true) == side_at(before, out as int, true));
        }
        let left: Sample = times(clip.samples[k * ch], gain);
        let right: Sample = if ch == 1 {
            left
        } else {
            times(clip.samples[k * ch + 1], gain)
        };
        let l: Sample = plus(mix[2 * out], left);
        let r: Sample = plus(mix[2 * out + 1], right);
        mix.set(2 * out, l);
        mix.set(2 * out + 1, r);
        proof {
            assert(side_at(mix@, out as int, false) == l);
            assert(side_at(mix@, out as int, true) == r);
            assert forall|f: int, right: bool| 0 <= f < total implies #[trigger] side_at(
                mix@,
                f,
                right,
            ) == (if f < start + k + 1 {
                m.add_clip(side_at(before, f, right), c, track_gain, f, right)
            } else {
                side_at(before, f, right)
            }) by {
                if f != out {
                    assert(side_at(mix@, f, right) == side_at(then, f, right));
                }
            }
        }
        k = k + 1;
    }
}

/// Mixes the tracks down to `frames` frames of stereo, left and right in turn: `plus` adds two
/// samples, and `times` applies a gain.
pub fn mix_down<P: Fn(Sample, Sample) -> Sample, T: Fn(Sample, Sample) -> Sample>(
    tracks: &Vec<Track>,
    rate: u32,
    frames: usize,
    plus: &P,
    times: &T,
) -> (r: Vec<Sample>)
    requires
        crate::track::tracks_ok(crate::track::track_views(tracks@)),
        2 * frames <= usize::MAX,
        crate::sample::is_function(*plus),
        crate::sample::is_function(*times),
    ensures
        r@ == (Mixer { rate, plus: as_spec(*plus), times: as_spec(*times) }).mix(
            crate::track::track_views(tracks@),
            frames as nat,
        ),
{
    let ghost m = Mixer { rate, plus: as_spec(*plus), times: as_spec(*times) };
    let ghost all = crate::track::track_views(tracks@);
    let mut mix: Vec<Sample> = Vec::new();
    let mut n: usize = 0;
    while n < 2 * frames
        invariant
            n <= 2 * frames,
            2 * frames <= usize::MAX,
            mix@.len() == n,
            forall|i: int| 0 <= i < n ==> mix@[i] == SILENCE,
        decreases 2 * frames - n,
    {
        mix.push(SILENCE);
        n = n + 1;
    }
    let mut t: usize = 0;
    assert(all.subrange(0, 0) =~= Seq::empty());
    while t < tracks.len()
        invariant
            t <= tracks@.len(),
            all == crate::track::track_views(tracks@),
            crate::track::tracks_ok(all),
            m == (Mixer { rate, plus: as_spec(*plus), times: as_spec(*times) }),
            crate::sample::is_function(*plus),
            crate::sample::is_function(*times),
            mix@.len() == 2 * frames,
            forall|f: int, right: bool|
                0 <= f < frames ==> #[trigger] side_at(mix@, f, right) == m.mixed(
                    all.subrange(0, t as int),
                    f,
                    right,
                ),
        decreases tracks@.len() - t,
    {
        let ghost upto = all.subrange(0, t + 1);
        let ghost track = all[t as int];
        let ghost before = mix@;
        assert(upto.drop_last() =~= all.subrange(0, t as int));
        assert(upto.last() == track);
        assert(track == tracks@[t as int]@);
        assert(crate::track::clips_ok(track.clips));
        if !tracks[t].muted {
            let gain: Sample = tracks[t].gain;
            let clips: &Vec<Clip> = &tracks[t].clips;
            let mut i: usize = 0;
            assert(track.clips.subrange(0, 0) =~= Seq::empty());
            while i < clips.len()
                invariant
                    i <= clips@.len(),
                    track.clips == crate::track::clip_views(clips@),
                    crate::track::clips_ok(track.clips),
                    gain == track.gain,
                    m == (Mixer { rate, plus: as_spec(*plus), times: as_spec(*times) }),
                    crate::sample::is_function(*plus),
                    crate::sample::is_function(*times),
                    mix@.len() == 2 * frames,
                    before.len() == 2 * frames,
                    forall|f: int, right: bool|
                        0 <= f < frames ==> #[trigger] side_at(mix@, f, right) == m.add_clips(
                            side_at(before, f, right),
                            track.clips.subrange(0, i as int),
                            gain,
                            f,
                            right,
                        ),
                decreases clips@.len() - i,
            {
                let ghost then = mix@;
                let ghost some = track.clips.subrange(0, i + 1);
                assert(some.drop_last() =~= track.clips.subrange(0, i as int));
                assert(some.last() == track.clips[i as int]);
                assert(track.clips[i as int] == clips@[i as int]@);
                add_clip_to(&mut mix, &clips[i], gain, rate, plus, times);
                proof {
                    assert forall|f: int, right: bool| 0 <= f < frames implies #[trigger] side_at(
                        mix@,
                        f,
                        right,
                    ) == m.add_clips(side_at(before, f, right), some, gain, f, right) by {
                        assert(side_at(then, f, right) == m.add_clips(
                            side_at(before, f, right),
                            some.drop_last(),
                            gain,
                            f,
                            right,
                        ));
                    }
                }
                i = i + 1;
            }
            assert(track.clips.subrange(0, i as int) =~= track.clips);
        }
        proof {
            assert forall|f: int, right: bool| 0 <= f < frames implies #[trigger] side_at(
                mix@,
                f,
                right,
            ) == m.mixed(upto, f, right) by {
                assert(side_at(before, f, right) == m.mixed(upto.drop_last(), f, right));
            }
        }
        t = t + 1;
    }
    proof {
        assert(all.subrange(0, t as int) =~= all);
        let want = m.mix(all, frames as nat);
        assert forall|i: int| 0 <= i < mix@.len() implies mix@[i] == want[i] by {
            let f = i / 2;
            assert(side_at(mix@, f, i % 2 == 1) == m.mixed(all, f, i % 2 == 1));
            assert(i == 2 * f || i == 2 * f + 1);
        }
        assert(mix@ =~= want);
    }
    mix
}

impl Mixer {
    /// What is in a muted track is not heard.
    pub proof fn law_muted_is_not_heard(
        self,
        tracks: Seq<TrackView>,
        t: int,
        clips: Seq<ClipView>,
        f: int,
        right: bool,
    )
        requires
            0 <= t < tracks.len(),
            tracks[t].muted,
        ensures
            self.mixed(crate::edit::with_clips(tracks, t, clips), f, right) == self.mixed(
                tracks,
                f,
                right,
            ),
        decreases tracks.len(),
    {
        let other = crate::edit::with_clips(tracks, t, clips);
        let n = tracks.len() - 1;
        if t == n {
            assert(other.drop_last() =~= tracks.drop_last());
        } else {
            self.law_muted_is_not_heard(tracks.drop_last(), t, clips, f, right);
            assert(other.drop_last() =~= crate::edit::with_clips(tracks.drop_last(), t, clips));
            assert(other.last() == tracks.last());
        }
    }
}

impl ClipView {
    /// The end of the clip on the timeline, exactly: in flicks, times the clip's rate.
    pub open spec fn scaled_end(self) -> int {
        self.offset_secs * self.sample_rate + self.mono.len() * FLICKS
    }

    /// The frames up to the end of the clip, at `rate` frames per second: with what the end has of a
    /// frame counted as a frame, or left out. A clip without a rate has no end.
    pub open spec fn frames_to_end(self, rate: u32, up: bool) -> int {
        if rate == 0 || self.sample_rate == 0 && self.mono.len() == 0 {
            0
        } else if self.sample_rate == 0 {
            u128::MAX as int
        } else if self.scaled_end() <= 0 {
            0
        } else {
            let den = FLICKS * self.sample_rate;
            if up {
                (self.scaled_end() * rate + den - 1) / den
            } else {
                self.scaled_end() * rate / den
            }
        }
    }
}

/// The frames up to the end of the last of some clips.
pub open spec fn clips_frames(clips: Seq<ClipView>, rate: u32, up: bool) -> int
    decreases clips.len(),
{
    if clips.len() == 0 {
        0
    } else {
        crate::time::larger(
            clips_frames(clips.drop_last(), rate, up),
            clips.last().frames_to_end(rate, up),
        )
    }
}

/// The frames up to the end of the last clip of some tracks.
pub open spec fn tracks_frames(tracks: Seq<TrackView>, rate: u32, up: bool) -> int
    decreases tracks.len(),
{
    if tracks.len() == 0 {
        0
    } else {
        crate::time::larger(
            tracks_frames(tracks.drop_last(), rate, up),
            clips_frames(tracks.last().clips, rate, up),
        )
    }
}

/// The frames up to the end of a clip.
fn count_clip(clip: &Clip, rate: u32, up: bool) -> (r: u128)
    ensures
        r == clip@.frames_to_end(rate, up),
{
    let n: usize = clip.mono.len();
    if rate == 0 || clip.sample_rate == 0 && n == 0 {
        return 0;
    }
    if clip.sample_rate == 0 {
        return u128::MAX;
    }
    let ghost c = clip@;
    proof {
        let o = clip.offset_secs as int;
        let s = clip.sample_rate as int;
        assert(-(0x8000_0000_0000_0000 * 0xFFFF_FFFF) <= o * s <= 0x8000_0000_0000_0000
            * 0xFFFF_FFFF) by (nonlinear_arith)
            requires
                -0x8000_0000_0000_0000 <= o <= 0x8000_0000_0000_0000,
                0 <= s <= 0xFFFF_FFFF,
        ;
        assert(0 < FLICKS * s <= FLICKS * 0xFFFF_FFFF) by (nonlinear_arith)
            requires
                0 < s <= 0xFFFF_FFFF,
                FLICKS == 705_600_000,
        ;
    }
    let end: i128 = clip.offset_secs as i128 * clip.sample_rate as i128 + n as i128 * FLICKS as i128;
    assert(end == c.scaled_end());
    if end <= 0 {
        return 0;
    }
    let den: u128 = FLICKS as u128 * clip.sample_rate as u128;
    assert(0 <= end * rate <= (0x8000_0000_0000_0000 * 0xFFFF_FFFF + 0xFFFF_FFFF_FFFF_FFFF
        * 705_600_000) * 0xFFFF_FFFF) by (nonlinear_arith)
        requires
            0 <= end <= 0x8000_0000_0000_0000 * 0xFFFF_FFFF + 0xFFFF_FFFF_FFFF_FFFF * 705_600_000,
            0 <= rate <= 0xFFFF_FFFF,
    ;
    let num: u128 = end as u128 * rate as u128;
    if up {
        (num + (den - 1)) / den
    } else {
        num / den
    }
}

/// The frames up to the end of the last clip of some tracks.
pub(crate) fn count_frames(tracks: &Vec<Track>, rate: u32, up: bool) -> (r: u128)
    ensures
        r == tracks_frames(crate::track::track_views(tracks@), rate, up),
{
    let ghost all = crate::track::track_views(tracks@);
    let mut most: u128 = 0;
    let mut t: usize = 0;
    assert(all.subrange(0, 0) =~= Seq::empty());
    while t < tracks.len()
        invariant
            t <= tracks@.len(),
            all == crate::track::track_views(tracks@),
            most == tracks_frames(all.subrange(0, t as int), rate, up),
        decreases tracks@.len() - t,
    {
        let ghost upto = all.subrange(0, t + 1);
        let ghost clips = all[t as int].clips;
        assert(upto.drop_last() =~= all.subrange(0, t as int));
        assert(upto.last() == tracks@[t as int]@);
        let list: &Vec<Clip> = &tracks[t].clips;
        let mut here: u128 = 0;
        let mut i: usize = 0;
        assert(clips.subrange(0, 0) =~= Seq::empty());
        while i < list.len()
            invariant
                i <= list@.len(),
                clips == crate::track::clip_views(list@),
                here == clips_frames(clips.subrange(0, i as int), rate, up),
            decreases list@.len() - i,
        {
            let ghost some = clips.subrange(0, i + 1);
            assert(some.drop_last() =~= clips.subrange(0, i as int));
            assert(some.last() == list@[i as int]@);
            let n: u128 = count_clip(&list[i], rate, up);
            if n > here {
                here = n;
            }
            i = i + 1;
        }
        assert(clips.subrange(0, i as int) =~= clips);
        if here > most {
            most = here;
        }
        t = t + 1;
    }
    assert(all.subrange(0, t as int) =~= all);
    most
}

/// The last clip of some tracks ends no earlier than any of them.
pub proof fn lemma_frames_hold_clip(tracks: Seq<TrackView>, t: int, i: int, rate: u32, up: bool)
    requires
        0 <= t < tracks.len(),
        0 <= i < tracks[t].clips.len(),
    ensures
        tracks[t].clips[i].frames_to_end(rate, up) <= tracks_frames(tracks, rate, up),
    decreases tracks.len(),
{
    if t == tracks.len() - 1 {
        lemma_clips_hold_clip(tracks[t].clips, i, rate, up);
    } else {
        lemma_frames_hold_clip(tracks.drop_last(), t, i, rate, up);
    }
}

proof fn lemma_clips_hold_clip(clips: Seq<ClipView>, i: int, rate: u32, up: bool)
    requires
        0 <= i < clips.len(),
    ensures
        clips[i].frames_to_end(rate, up) <= clips_frames(clips, rate, up),
    decreases clips.len(),
{
    if i < clips.len() - 1 {
        lemma_clips_hold_clip(clips.drop_last(), i, rate, up);
    }
}

/// A mix of the whole project, as it is played and as it is exported, holds every frame of a clip
/// that has the rate of the mix.
pub proof fn law_clip_fits_into_mix(tracks: Seq<TrackView>, t: int, i: int, rate: u32, up: bool)
    requires
        0 <= t < tracks.len(),
        0 <= i < tracks[t].clips.len(),
        tracks[t].clips[i].sample_rate == rate > 0,
        tracks[t].clips[i].offset_secs >= 0,
    ensures
        first_frame(tracks[t].clips[i], rate) + tracks[t].clips[i].mono.len() <= tracks_frames(
            tracks,
            rate,
            up,
        ),
{
    let c = tracks[t].clips[i];
    let n = c.mono.len() as int;
    let r = rate as int;
    let o = c.offset_secs as int;
    let flicks = FLICKS as int;
    lemma_frames_hold_clip(tracks, t, i, rate, up);
    lemma_own_rate(c, rate, up);
    assert(o * r >= 0) by (nonlinear_arith)
        requires
            o >= 0,
            r > 0,
    ;
    vstd::arithmetic::div_mod::lemma_div_pos_is_pos(o * r, flicks);
    assert(o == 0 ==> o * r / flicks == 0) by {
        if o == 0 {
            assert(o * r == 0) by (nonlinear_arith)
                requires
                    o == 0,
            ;
        }
    }
}

/// The frames up to the end of a clip that has the rate of the mix: those before it, and its own.
pub proof fn lemma_own_rate(c: ClipView, rate: u32, up: bool)
    requires
        c.sample_rate == rate > 0,
        c.offset_secs >= 0,
    ensures
        c.frames_to_end(rate, up) >= c.offset_secs * rate / FLICKS as int + c.mono.len(),
        c.offset_secs * rate % (FLICKS as int) == 0 ==> c.frames_to_end(rate, up) == c.offset_secs
            * rate / FLICKS as int + c.mono.len(),
{
    let n = c.mono.len() as int;
    let r = rate as int;
    let flicks = FLICKS as int;
    let x = c.offset_secs * r;
    let q = x / flicks;
    let m = x % flicks;
    let den = flicks * r;
    let end = c.scaled_end();
    assert(x >= 0) by (nonlinear_arith)
        requires
            x == c.offset_secs * r,
            c.offset_secs >= 0,
            r > 0,
    ;
    vstd::arithmetic::div_mod::lemma_fundamental_div_mod(x, flicks);
    vstd::arithmetic::div_mod::lemma_mod_bound(x, flicks);
    vstd::arithmetic::div_mod::lemma_div_pos_is_pos(x, flicks);
    assert(den > 0) by (nonlinear_arith)
        requires
            den == flicks * r,
            flicks > 0,
            r > 0,
    ;
    assert(end * r == (q + n) * den + m * r) by (nonlinear_arith)
        requires
            end == x + n * flicks,
            x == flicks * q + m,
            den == flicks * r,
    ;
    assert(0 <= m * r < den) by (nonlinear_arith)
        requires
            0 <= m < flicks,
            r > 0,
            den == flicks * r,
    ;
    vstd::arithmetic::div_mod::lemma_fundamental_div_mod_converse(end * r, den, q + n, m * r);
    if end <= 0 {
        assert(n == 0 && x == 0) by (nonlinear_arith)
            requires
                end == x + n * flicks,
                x >= 0,
                n >= 0,
                flicks > 0,
                end <= 0,
        ;
        assert(0int / flicks == 0);
    } else if up {
        if m == 0 {
            assert(m * r == 0) by (nonlinear_arith)
                requires
                    m == 0,
            ;
            vstd::arithmetic::div_mod::lemma_fundamental_div_mod_converse(
                end * r + den - 1,
                den,
                q + n,
                den - 1,
            );
        } else {
            assert(m * r >= 1) by (nonlinear_arith)
                requires
                    m >= 1,
                    r >= 1,
            ;
            assert((q + n + 1) * den == (q + n) * den + den) by (nonlinear_arith);
            vstd::arithmetic::div_mod::lemma_fundamental_div_mod_converse(
                end * r + den - 1,
                den,
                q + n + 1,
                m * r - 1,
            );
        }
    }
}

} // verus!
