//! What is heard of a mix: every track that is not muted, each clip where it lies.

use vstd::prelude::*;
use crate::audio::ClipView;
use crate::mix::Mixer;
use crate::sample::{Sample, SILENCE};
use crate::track::TrackView;

verus! {

/// Frame `f` of a mix at `rate` plays frame `k` of a clip, by the clock: the clip starts in the frame
/// of the mix that is `k` frames before.
pub open spec fn plays(c: ClipView, rate: u32, f: int, k: int) -> bool {
    &&& 0 <= k < c.mono.len()
    &&& k <= f
    &&& if c.offset_secs <= 0 {
        f == k
    } else {
        (f - k) * 705_600_000 <= c.offset_secs * rate < (f - k + 1) * 705_600_000
    }
}

/// Two mixes are alike in frame `f`, on both sides.
pub open spec fn alike(a: Seq<Sample>, b: Seq<Sample>, f: int) -> bool {
    a[2 * f] == b[2 * f] && a[2 * f + 1] == b[2 * f + 1]
}

proof fn lemma_sides(m: Mixer, tracks: Seq<TrackView>, frames: nat, f: int)
    requires
        0 <= f < frames,
    ensures
        m.mix(tracks, frames).len() == 2 * frames,
        m.mix(tracks, frames)[2 * f] == m.mixed(tracks, f, false),
        m.mix(tracks, frames)[2 * f + 1] == m.mixed(tracks, f, true),
{
    assert((2 * f) / 2 == f && (2 * f + 1) / 2 == f);
}

proof fn lemma_plays(c: ClipView, rate: u32, f: int, k: int)
    requires
        plays(c, rate, f, k),
        f < usize::MAX,
    ensures
        crate::mix::first_frame(c, rate) == f - k,
{
    if c.offset_secs > 0 {
        let x = c.offset_secs * rate;
        vstd::arithmetic::div_mod::lemma_fundamental_div_mod_converse(
            x,
            705_600_000,
            f - k,
            x - (f - k) * 705_600_000,
        );
    }
}

proof fn lemma_does_not_play(c: ClipView, rate: u32, f: int)
    requires
        0 <= f < usize::MAX,
        forall|k: int| !#[trigger] plays(c, rate, f, k),
    ensures
        !(0 <= f - crate::mix::first_frame(c, rate) < c.mono.len()),
{
    let s = crate::mix::first_frame(c, rate) as int;
    let x = c.offset_secs * rate;
    if c.offset_secs > 0 {
        assert(x >= 0) by (nonlinear_arith)
            requires
                x == c.offset_secs * rate,
                c.offset_secs > 0,
                rate >= 0,
        ;
        vstd::arithmetic::div_mod::lemma_fundamental_div_mod(x, 705_600_000);
        vstd::arithmetic::div_mod::lemma_mod_bound(x, 705_600_000);
        vstd::arithmetic::div_mod::lemma_div_pos_is_pos(x, 705_600_000);
    }
    if 0 <= f - s < c.mono.len() {
        assert(plays(c, rate, f, f - s));
    }
}

impl Mixer {
    /// A project without a track is silent, and a mix has a left and a right sample for each frame.
    pub proof fn law_nothing_is_silent(self, frames: nat, f: int)
        requires
            0 <= f < frames,
        ensures
            self.mix(Seq::empty(), frames).len() == 2 * frames,
            self.mix(Seq::empty(), frames)[2 * f] == 0,
            self.mix(Seq::empty(), frames)[2 * f + 1] == 0,
    {
        lemma_sides(self, Seq::empty(), frames, f);
    }

    /// Every clip of every track that is not muted is heard, whatever tracks and clips come before it:
    /// where it plays, its samples, with the gains of the clip and of the track, are added on the left
    /// and on the right to what is heard without it. A clip with one channel is heard on both sides.
    pub proof fn law_every_clip_is_heard(
        self,
        tracks: Seq<TrackView>,
        t: TrackView,
        c: ClipView,
        frames: nat,
        f: int,
        k: int,
    )
        requires
            0 <= f < frames <= usize::MAX,
            !t.muted,
            plays(c, self.rate, f, k),
        ensures
            ({
                let with = self.mix(
                    tracks.push(TrackView { clips: t.clips.push(c), ..t }),
                    frames,
                );
                let without = self.mix(tracks.push(t), frames);
                let left = c.samples[k * c.channels];
                let right = if c.channels > 1 {
                    c.samples[k * c.channels + 1]
                } else {
                    left
                };
                let gain = (self.times)(c.gain, t.gain);
                &&& with[2 * f] == (self.plus)(without[2 * f], (self.times)(left, gain))
                &&& with[2 * f + 1] == (self.plus)(without[2 * f + 1], (self.times)(right, gain))
            }),
    {
        self.lemma_last_clip(tracks, t, c, frames, f);
        lemma_plays(c, self.rate, f, k);
    }

    /// A clip adds nothing to a frame that it does not play in.
    pub proof fn law_a_clip_is_heard_where_it_is(
        self,
        tracks: Seq<TrackView>,
        t: TrackView,
        c: ClipView,
        frames: nat,
        f: int,
    )
        requires
            0 <= f < frames <= usize::MAX,
            forall|k: int| !#[trigger] plays(c, self.rate, f, k),
        ensures
            alike(
                self.mix(tracks.push(TrackView { clips: t.clips.push(c), ..t }), frames),
                self.mix(tracks.push(t), frames),
                f,
            ),
    {
        self.lemma_last_clip(tracks, t, c, frames, f);
        lemma_does_not_play(c, self.rate, f);
    }

    proof fn lemma_last_clip(
        self,
        tracks: Seq<TrackView>,
        t: TrackView,
        c: ClipView,
        frames: nat,
        f: int,
    )
        requires
            0 <= f < frames,
        ensures
            ({
                let u = TrackView { clips: t.clips.push(c), ..t };
                let with = self.mix(tracks.push(u), frames);
                let without = self.mix(tracks.push(t), frames);
                &&& t.muted ==> alike(with, without, f)
                &&& !t.muted ==> with[2 * f] == self.add_clip(without[2 * f], c, t.gain, f, false)
                &&& !t.muted ==> with[2 * f + 1] == self.add_clip(
                    without[2 * f + 1],
                    c,
                    t.gain,
                    f,
                    true,
                )
            }),
    {
        let u = TrackView { clips: t.clips.push(c), ..t };
        lemma_sides(self, tracks.push(u), frames, f);
        lemma_sides(self, tracks.push(t), frames, f);
        assert(tracks.push(u).drop_last() =~= tracks);
        assert(tracks.push(t).drop_last() =~= tracks);
        assert(u.clips.drop_last() =~= t.clips);
    }

    /// A track that is muted, or has no clips, adds nothing to what is heard without it.
    pub proof fn law_a_quiet_track_adds_nothing(
        self,
        tracks: Seq<TrackView>,
        t: TrackView,
        frames: nat,
        f: int,
    )
        requires
            0 <= f < frames,
            t.muted || t.clips.len() == 0,
        ensures
            alike(self.mix(tracks.push(t), frames), self.mix(tracks, frames), f),
    {
        lemma_sides(self, tracks.push(t), frames, f);
        lemma_sides(self, tracks, frames, f);
        assert(tracks.push(t).drop_last() =~= tracks);
    }

    /// The only track that is not muted is heard as it is alone, wherever it stands among the others.
    pub proof fn law_the_only_audible_track_is_heard_alone(
        self,
        tracks: Seq<TrackView>,
        i: int,
        frames: nat,
        f: int,
    )
        requires
            0 <= f < frames,
            0 <= i < tracks.len(),
            forall|j: int| 0 <= j < tracks.len() && j != i ==> (#[trigger] tracks[j]).muted,
        ensures
            alike(self.mix(tracks, frames), self.mix(seq![tracks[i]], frames), f),
    {
        lemma_sides(self, tracks, frames, f);
        lemma_sides(self, seq![tracks[i]], frames, f);
        self.lemma_alone(tracks, i, f, false);
        self.lemma_alone(tracks, i, f, true);
    }

    proof fn lemma_alone(self, tracks: Seq<TrackView>, i: int, f: int, right: bool)
        requires
            0 <= i < tracks.len(),
            forall|j: int| 0 <= j < tracks.len() && j != i ==> (#[trigger] tracks[j]).muted,
        ensures
            self.mixed(tracks, f, right) == self.mixed(seq![tracks[i]], f, right),
        decreases tracks.len(),
    {
        let rest = tracks.drop_last();
        let alone = seq![tracks[i]];
        assert(alone.drop_last() =~= Seq::empty());
        assert(alone.last() == tracks[i]);
        assert(self.mixed(alone.drop_last(), f, right) == SILENCE);
        if i == tracks.len() - 1 {
            assert forall|j: int| 0 <= j < rest.len() implies (#[trigger] rest[j]).muted by {
                assert(rest[j] == tracks[j]);
            }
            self.lemma_all_muted(rest, f, right);
        } else {
            assert(tracks[tracks.len() - 1].muted);
            assert forall|j: int| 0 <= j < rest.len() && j != i implies (#[trigger] rest[j]).muted by {
                assert(rest[j] == tracks[j]);
            }
            self.lemma_alone(rest, i, f, right);
            assert(rest[i] == tracks[i]);
        }
    }

    proof fn lemma_all_muted(self, tracks: Seq<TrackView>, f: int, right: bool)
        requires
            forall|j: int| 0 <= j < tracks.len() ==> (#[trigger] tracks[j]).muted,
        ensures
            self.mixed(tracks, f, right) == SILENCE,
        decreases tracks.len(),
    {
        if tracks.len() > 0 {
            let rest = tracks.drop_last();
            assert(tracks[tracks.len() - 1].muted);
            assert forall|j: int| 0 <= j < rest.len() implies (#[trigger] rest[j]).muted by {
                assert(rest[j] == tracks[j]);
            }
            self.lemma_all_muted(rest, f, right);
        }
    }
}

/// An export is a mix of all tracks at its rate, a left and a right sample for each frame: a clip in the
/// last track that is not muted is heard in it, where it plays, along with all that is heard without it.
pub proof fn law_every_clip_is_exported(
    tracks: Seq<TrackView>,
    rate: u32,
    plus: spec_fn(Sample, Sample) -> Sample,
    times: spec_fn(Sample, Sample) -> Sample,
    t: TrackView,
    c: ClipView,
    f: int,
    k: int,
)
    requires
        !t.muted,
        plays(c, rate, f, k),
        0 <= crate::playback::exported_frames(tracks.push(TrackView { clips: t.clips.push(c), ..t }), rate)
            <= usize::MAX,
        f < crate::playback::exported_frames(tracks.push(t), rate),
        f < crate::playback::exported_frames(
            tracks.push(TrackView { clips: t.clips.push(c), ..t }),
            rate,
        ),
    ensures
        ({
            let with = crate::playback::export_of(
                tracks.push(TrackView { clips: t.clips.push(c), ..t }),
                rate,
                plus,
                times,
            );
            let without = crate::playback::export_of(tracks.push(t), rate, plus, times);
            let left = c.samples[k * c.channels];
            let right = if c.channels > 1 {
                c.samples[k * c.channels + 1]
            } else {
                left
            };
            let gain = times(c.gain, t.gain);
            &&& with.len() == 2 * crate::playback::exported_frames(
                tracks.push(TrackView { clips: t.clips.push(c), ..t }),
                rate,
            )
            &&& with[2 * f] == plus(without[2 * f], times(left, gain))
            &&& with[2 * f + 1] == plus(without[2 * f + 1], times(right, gain))
        }),
{
    let m = Mixer { rate, plus, times };
    let u = TrackView { clips: t.clips.push(c), ..t };
    let n = crate::playback::exported_frames(tracks.push(u), rate) as nat;
    let l = crate::playback::exported_frames(tracks.push(t), rate) as nat;
    m.law_every_clip_is_heard(tracks, t, c, n, f, k);
    lemma_sides(m, tracks.push(t), n, f);
    lemma_sides(m, tracks.push(t), l, f);
    lemma_sides(m, tracks.push(u), n, f);
}

} // verus!
