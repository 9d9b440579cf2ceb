//! Clips and tracks.

use vstd::prelude::*;
use vstd::slice::{slice_subrange, slice_to_vec};
use crate::sample::{
    max_sample, min_sample, Sample, RANK_INF, RANK_MAX, RANK_MIN, RANK_NEG_INF, SILENCE,
};
use crate::time::{frame_at, time_for, to_secs, Secs};

verus! {

/// A stretch of audio on the timeline.
pub struct Clip {
    pub name: String,
    /// Interleaved samples, `channels` of them for each frame
    pub samples: Vec<Sample>,
    pub sample_rate: u32,
    pub channels: u32,
    /// Mono mixdown for display, one sample for each frame
    pub mono: Vec<Sample>,
    /// Least and greatest sample of each bucket of `mono`
    pub summary: Vec<(Sample, Sample)>,
    /// Position of this clip on the timeline
    pub offset_secs: Secs,
    /// Gain of this clip in playback and export
    pub gain: Sample,
    /// Original source file path (for project save metadata)
    pub source_path: Option<String>,
}

/// Frames in one bucket of a clip's summary.
pub const SUMMARY_BUCKET: usize = 256;

/// What a clip holds.
#[verifier::ext_equal]
pub struct ClipView {
    pub name: Seq<char>,
    pub samples: Seq<Sample>,
    pub sample_rate: u32,
    pub channels: u32,
    pub mono: Seq<Sample>,
    pub summary: Seq<(Sample, Sample)>,
    pub offset_secs: Secs,
    pub gain: Sample,
    pub source_path: Option<Seq<char>>,
}

/// The text of an optional string.
pub open spec fn text_of(s: Option<String>) -> Option<Seq<char>> {
    match s {
        Some(t) => Some(t@),
        None => None,
    }
}

impl View for Clip {
    type V = ClipView;

    open spec fn view(&self) -> ClipView {
        ClipView {
            name: self.name@,
            samples: self.samples@,
            sample_rate: self.sample_rate,
            channels: self.channels,
            mono: self.mono@,
            summary: self.summary@,
            offset_secs: self.offset_secs,
            gain: self.gain,
            source_path: text_of(self.source_path),
        }
    }
}

/// The frames of bucket `k`.
pub open spec fn bucket(mono: Seq<Sample>, k: int) -> Seq<Sample> {
    mono.subrange(
        k * SUMMARY_BUCKET,
        if (k + 1) * SUMMARY_BUCKET <= mono.len() {
            (k + 1) * SUMMARY_BUCKET
        } else {
            mono.len() as int
        },
    )
}

/// The least and the greatest number among some frames, within the finite range.
pub open spec fn bucket_range(frames: Seq<Sample>) -> (Sample, Sample) {
    (crate::sample::lowest(RANK_MAX, frames), crate::sample::highest(RANK_MIN, frames))
}

/// The summary of a mono mixdown: the range of each of its buckets.
pub open spec fn summary_of(mono: Seq<Sample>) -> Seq<(Sample, Sample)> {
    Seq::new(
        ((mono.len() + SUMMARY_BUCKET - 1) / SUMMARY_BUCKET as int) as nat,
        |k: int| bucket_range(bucket(mono, k)),
    )
}

impl ClipView {
    /// A clip has channels, one mono sample for each whole frame, and the summary of
    /// its mono mixdown.
    pub open spec fn ok(self) -> bool {
        &&& self.channels > 0
        &&& self.mono.len() == self.samples.len() / self.channels as nat
        &&& self.summary == summary_of(self.mono)
    }

    /// How long the clip lasts.
    pub open spec fn duration(self) -> int {
        crate::time::sat_secs(
            crate::time::time_of(self.mono.len() as int, self.sample_rate as int),
        ) as int
    }

    /// Where the clip ends on the timeline.
    pub open spec fn end(self) -> int {
        self.offset_secs + self.duration()
    }

    /// The clip, moved to `offset`.
    pub open spec fn at(self, offset: Secs) -> ClipView {
        ClipView { offset_secs: offset, ..self }
    }

    /// The number of the clip's frames that fit in the first `t` of it.
    pub open spec fn frames_before(self, t: int) -> int {
        crate::time::smaller(
            crate::time::frames_in(t, self.sample_rate as int),
            self.mono.len() as int,
        )
    }

    /// The first `n` frames of the clip.
    pub open spec fn head(self, n: int) -> ClipView {
        ClipView {
            samples: self.samples.subrange(0, n * self.channels),
            mono: self.mono.subrange(0, n),
            summary: summary_of(self.mono.subrange(0, n)),
            ..self
        }
    }

    /// The clip from frame `n` on, at `offset`.
    pub open spec fn tail(self, n: int, offset: Secs) -> ClipView {
        ClipView {
            samples: self.samples.subrange(n * self.channels, self.samples.len() as int),
            mono: self.mono.subrange(n, self.mono.len() as int),
            summary: summary_of(self.mono.subrange(n, self.mono.len() as int)),
            offset_secs: offset,
            ..self
        }
    }

    /// Frames `m` to `n` of the clip, at `offset`.
    pub open spec fn part(self, m: int, n: int, offset: Secs) -> ClipView {
        ClipView {
            samples: self.samples.subrange(m * self.channels, n * self.channels),
            mono: self.mono.subrange(m, n),
            summary: summary_of(self.mono.subrange(m, n)),
            offset_secs: offset,
            ..self
        }
    }

    /// Whether a split `secs` into the clip falls on one of its frames or right after the last.
    pub open spec fn split_inside(self, secs: Secs) -> bool {
        crate::time::sat_index(crate::time::frames_in(secs as int, self.sample_rate as int))
            <= self.mono.len()
    }

    /// The left half of the clip when it is split `secs` into it.
    pub open spec fn split_left(self, secs: Secs) -> ClipView {
        if self.split_inside(secs) {
            self.head(self.frames_before(secs as int))
        } else {
            self
        }
    }

    /// The right half of the clip when it is split `secs` into it.
    pub open spec fn split_right(self, secs: Secs) -> ClipView {
        let offset = crate::time::sat_secs(self.offset_secs + secs);
        if self.split_inside(secs) {
            self.tail(self.frames_before(secs as int), offset)
        } else {
            ClipView {
                samples: Seq::empty(),
                mono: Seq::empty(),
                summary: Seq::empty(),
                offset_secs: offset,
                ..self
            }
        }
    }

    /// The stretch of the clip from `from` to `to`, both counted from its start.
    pub open spec fn slice(self, from: Secs, to: Secs) -> ClipView {
        self.part(
            self.frames_before(from as int),
            self.frames_before(to as int),
            crate::time::sat_secs(self.offset_secs + from),
        )
    }

    /// What is left of the clip before `from`, if any frame is.
    pub open spec fn before(self, from: Secs) -> Option<ClipView> {
        let n = self.frames_before(from as int);
        if n > 0 {
            Some(self.head(n))
        } else {
            None
        }
    }

    /// What is left of the clip after `to`, if any frame is.
    pub open spec fn after(self, to: Secs) -> Option<ClipView> {
        let n = self.frames_before(to as int);
        if n < self.mono.len() {
            Some(self.tail(n, crate::time::sat_secs(self.offset_secs + to)))
        } else {
            None
        }
    }
}

/// The sum of the first `n` samples from index `at` on, added one by one to silence.
pub open spec fn frame_sum<A: Fn(Sample, Sample) -> Sample>(
    samples: Seq<Sample>,
    at: int,
    n: nat,
    plus: A,
) -> Sample
    decreases n,
{
    if n == 0 {
        SILENCE
    } else {
        crate::sample::result_of(
            plus,
            frame_sum(samples, at, (n - 1) as nat, plus),
            samples[at + n - 1],
        )
    }
}

/// The mono mixdown: for each whole frame, the sum of its samples divided by their number.
pub open spec fn mono_of<A: Fn(Sample, Sample) -> Sample, D: Fn(Sample, u32) -> Sample>(
    samples: Seq<Sample>,
    channels: u32,
    plus: A,
    over: D,
) -> Seq<Sample> {
    Seq::new(
        samples.len() / channels as nat,
        |i: int|
            crate::sample::result_of(
                over,
                frame_sum(samples, i * channels, channels as nat, plus),
                channels,
            ),
    )
}

impl Clone for Clip {
    fn clone(&self) -> (r: Self)
        ensures
            r@ == self@,
    {
        let r = Clip {
            name: self.name.clone(),
            samples: self.samples.clone(),
            sample_rate: self.sample_rate,
            channels: self.channels,
            mono: self.mono.clone(),
            summary: slice_to_vec(self.summary.as_slice()),
            offset_secs: self.offset_secs,
            gain: self.gain,
            source_path: self.source_path.clone(),
        };
        assert(r.samples@ =~= self.samples@);
        assert(r.mono@ =~= self.mono@);
        r
    }
}

impl Clip {
    /// How long the clip lasts.
    pub fn duration_secs(&self) -> (r: Secs)
        ensures
            r == self@.duration(),
            r >= 0,
    {
        proof {
            crate::time::lemma_time_of_grows(0, self.mono@.len() as int, self.sample_rate as int);
        }
        time_for(self.mono.len(), self.sample_rate)
    }

    /// Where the clip ends on the timeline.
    pub fn end_secs(&self) -> (r: i128)
        ensures
            r == self@.end(),
            r >= self.offset_secs,
    {
        self.offset_secs as i128 + self.duration_secs() as i128
    }

    /// Mixes interleaved samples down to mono.
    pub fn build_mono<A: Fn(Sample, Sample) -> Sample, D: Fn(Sample, u32) -> Sample>(
        samples: &[Sample],
        channels: u32,
        plus: &A,
        over: &D,
    ) -> (r: Vec<Sample>)
        requires
            channels > 0,
            crate::sample::is_function(*plus),
            crate::sample::is_function(*over),
        ensures
            r@ == mono_of(samples@, channels, *plus, *over),
    {
        let ch: usize = channels as usize;
        let len: usize = samples.len();
        let frames: usize = len / ch;
        let mut mono: Vec<Sample> = Vec::new();
        let mut i: usize = 0;
        while i < frames
            invariant
                channels > 0,
                ch == channels,
                len == samples@.len(),
                frames == len / ch,
                i <= frames,
                crate::sample::is_function(*plus),
                crate::sample::is_function(*over),
                mono@.len() == i,
                forall|j: int|
                    0 <= j < i ==> #[trigger] mono@[j] == mono_of(samples@, channels, *plus, *over)[j],
            decreases frames - i,
        {
            proof {
                lemma_frame_in_bounds(samples@.len() as int, ch as int, i as int);
            }
            let at: usize = i * ch;
            let mut s: Sample = SILENCE;
            let mut c: usize = 0;
            while c < ch
                invariant
                    channels > 0,
                    ch == channels,
                    at == i * ch,
                    len == samples@.len(),
                    at + ch <= len,
                    c <= ch,
                    crate::sample::is_function(*plus),
                    s == frame_sum(samples@, at as int, c as nat, *plus),
                decreases ch - c,
            {
                s = plus(s, samples[at + c]);
                c = c + 1;
            }
            mono.push(over(s, channels));
            i = i + 1;
        }
        assert(mono@ =~= mono_of(samples@, channels, *plus, *over));
        mono
    }

    /// Sums a mono mixdown up in buckets.
    pub fn build_summary(mono: &[Sample]) -> (r: Vec<(Sample, Sample)>)
        ensures
            r@ == summary_of(mono@),
    {
        let mut summary: Vec<(Sample, Sample)> = Vec::new();
        let mut at: usize = 0;
        while at < mono.len()
            invariant
                at == summary@.len() * SUMMARY_BUCKET || at == mono@.len(),
                at <= mono@.len(),
                at == mono@.len() ==> summary@.len() == summary_of(mono@).len(),
                summary@.len() <= summary_of(mono@).len(),
                forall|j: int|
                    0 <= j < summary@.len() ==> #[trigger] summary@[j] == summary_of(mono@)[j],
            decreases mono@.len() - at,
        {
            let ghost k = summary@.len() as int;
            let stop: usize = if mono.len() - at < SUMMARY_BUCKET {
                mono.len()
            } else {
                at + SUMMARY_BUCKET
            };
            let chunk = slice_subrange(mono, at, stop);
            assert(chunk@ =~= bucket(mono@, k));
            summary.push(range_of(chunk));
            at = stop;
        }
        assert(summary@ =~= summary_of(mono@));
        summary
    }

    /// The range of the mono samples `start .. end` that starts at the outermost finite numbers.
    /// Whole buckets are read off the summary.
    fn capped_range(&self, start: usize, end: usize) -> (r: (Sample, Sample))
        requires
            self@.summary == summary_of(self@.mono),
            start <= end <= self@.mono.len(),
        ensures
            r == bucket_range(self@.mono.subrange(start as int, end as int)),
    {
        let mono = self.mono.as_slice();
        let bucket_start: usize = start / SUMMARY_BUCKET + if start % SUMMARY_BUCKET == 0 {
            0usize
        } else {
            1usize
        };
        let bucket_end: usize = end / SUMMARY_BUCKET;
        let from: (Sample, Sample) = (RANK_MAX, RANK_MIN);
        if bucket_start < bucket_end {
            let mut range: (Sample, Sample) = widen(
                from,
                from,
                mono,
                start,
                start,
                bucket_start * SUMMARY_BUCKET,
            );
            let mut b: usize = bucket_start;
            while b < bucket_end
                invariant
                    mono@ == self.mono@,
                    self@.summary == summary_of(self@.mono),
                    bucket_start <= b <= bucket_end,
                    bucket_end * SUMMARY_BUCKET <= mono@.len(),
                    start <= bucket_start * SUMMARY_BUCKET,
                    range == bucket_range(mono@.subrange(start as int, b * SUMMARY_BUCKET)),
                decreases bucket_end - b,
            {
                let (least, greatest) = self.summary[b];
                proof {
                    let seen = mono@.subrange(start as int, b * SUMMARY_BUCKET);
                    let next = bucket(mono@, b as int);
                    assert(seen + next =~= mono@.subrange(start as int, (b + 1) * SUMMARY_BUCKET));
                    crate::sample::lemma_lowest_joins(RANK_MAX, RANK_MAX, seen, next);
                    crate::sample::lemma_highest_joins(RANK_MIN, RANK_MIN, seen, next);
                    assert(self.summary@[b as int] == bucket_range(next));
                }
                range = (min_sample(range.0, least), max_sample(range.1, greatest));
                b = b + 1;
            }
            widen(from, range, mono, start, bucket_end * SUMMARY_BUCKET, end)
        } else {
            widen(from, from, mono, start, start, end)
        }
    }

    /// The least and the greatest number among the mono samples `start .. end`, using the summary
    /// where possible. Without a number, both are silence.
    pub fn min_max_range(&self, start: usize, end: usize) -> (r: (Sample, Sample))
        requires
            self@.summary == summary_of(self@.mono),
            start <= end <= self@.mono.len(),
        ensures
            r == crate::sample::number_range(self@.mono.subrange(start as int, end as int)),
            ({
                let frames = self@.mono.subrange(start as int, end as int);
                if crate::sample::has_number(frames) {
                    &&& frames.contains(r.0)
                    &&& frames.contains(r.1)
                    &&& forall|i: int|
                        start <= i < end && crate::sample::is_number(#[trigger] self@.mono[i]) ==> r.0
                            <= self@.mono[i] <= r.1
                } else {
                    r == (SILENCE, SILENCE)
                }
            }),
    {
        let ghost frames = self@.mono.subrange(start as int, end as int);
        proof {
            crate::sample::lemma_number_range(frames);
            if crate::sample::has_number(frames) {
                crate::sample::law_number_range(frames);
                assert forall|i: int|
                    start <= i < end && crate::sample::is_number(
                        #[trigger] self@.mono[i],
                    ) implies crate::sample::number_range(frames).0 <= self@.mono[i]
                    <= crate::sample::number_range(frames).1 by {
                    assert(frames[i - start] == self@.mono[i]);
                }
            }
        }
        let capped: (Sample, Sample) = self.capped_range(start, end);
        if capped.0 < RANK_MAX && capped.1 > RANK_MIN {
            return capped;
        }
        let from: (Sample, Sample) = (RANK_INF, RANK_NEG_INF);
        let exact: (Sample, Sample) = widen(from, from, self.mono.as_slice(), start, start, end);
        if exact.0 <= exact.1 {
            exact
        } else {
            (SILENCE, SILENCE)
        }
    }
}

impl Clip {
    /// Splits this clip `secs` into it and returns the right half. This clip is truncated to the
    /// left half.
    pub fn split_at(&mut self, secs: Secs) -> (right: Clip)
        requires
            old(self)@.ok(),
        ensures
            final(self)@ == old(self)@.split_left(secs),
            right@ == old(self)@.split_right(secs),
            final(self)@.ok(),
            right@.ok(),
    {
        let ghost before = self@;
        let len: usize = self.samples.len();
        let at: usize = frame_at(secs, self.sample_rate);
        let offset: Secs = to_secs(self.offset_secs as i128 + secs as i128);
        let inside: bool = at <= self.mono.len();
        proof {
            lemma_channel_bounds(before, at as int);
        }
        let right_samples: Vec<Sample> = if inside {
            self.samples.split_off(at * self.channels as usize)
        } else {
            Vec::new()
        };
        let right_mono: Vec<Sample> = if inside {
            self.mono.split_off(at)
        } else {
            Vec::new()
        };
        self.summary = Clip::build_summary(self.mono.as_slice());
        let right_summary: Vec<(Sample, Sample)> = Clip::build_summary(right_mono.as_slice());
        let right = Clip {
            name: self.name.clone(),
            samples: right_samples,
            sample_rate: self.sample_rate,
            channels: self.channels,
            mono: right_mono,
            summary: right_summary,
            offset_secs: offset,
            gain: self.gain,
            source_path: self.source_path.clone(),
        };
        proof {
            let frames = before.frames_before(secs as int);
            crate::time::lemma_frames_in_grows(secs as int, secs as int, before.sample_rate as int);
            if before.split_inside(secs) {
                assert(at == frames);
                lemma_head_ok(before, frames);
                lemma_tail_ok(before, frames, offset);
                assert(self@ =~= before.head(frames));
                assert(right@ =~= before.tail(frames, offset));
            } else {
                assert(self@ =~= before);
                assert(right@.summary =~= Seq::empty());
                assert(right@ =~= before.split_right(secs));
                vstd::arithmetic::div_mod::lemma_basic_div(0, before.channels as int);
            }
        }
        right
    }

    /// The number of frames that fit in the first `t` of this clip.
    fn frames_until(&self, t: Secs) -> (r: usize)
        ensures
            r == self@.frames_before(t as int),
    {
        proof {
            crate::time::lemma_frames_in_grows(t as int, t as int, self.sample_rate as int);
        }
        let at: usize = frame_at(t, self.sample_rate);
        if at <= self.mono.len() {
            at
        } else {
            self.mono.len()
        }
    }

    /// Frames `m .. n` of this clip, with the samples `a .. b`, at `offset`.
    fn cut_out(&self, m: usize, n: usize, a: usize, b: usize, offset: Secs) -> (r: Clip)
        requires
            m <= n <= self@.mono.len(),
            a <= b <= self@.samples.len(),
        ensures
            r@ == (ClipView {
                samples: self@.samples.subrange(a as int, b as int),
                mono: self@.mono.subrange(m as int, n as int),
                summary: summary_of(self@.mono.subrange(m as int, n as int)),
                offset_secs: offset,
                ..self@
            }),
    {
        let mono: Vec<Sample> = slice_to_vec(slice_subrange(self.mono.as_slice(), m, n));
        let summary: Vec<(Sample, Sample)> = Clip::build_summary(mono.as_slice());
        Clip {
            name: self.name.clone(),
            samples: slice_to_vec(slice_subrange(self.samples.as_slice(), a, b)),
            sample_rate: self.sample_rate,
            channels: self.channels,
            mono,
            summary,
            offset_secs: offset,
            gain: self.gain,
            source_path: self.source_path.clone(),
        }
    }

    /// The stretch of this clip from `from` to `to`, both counted from its start.
    pub fn slice(&self, from: Secs, to: Secs) -> (r: Clip)
        requires
            self@.ok(),
            from <= to,
        ensures
            r@ == self@.slice(from, to),
            r@.ok(),
    {
        let len: usize = self.samples.len();
        let ch: usize = self.channels as usize;
        let m: usize = self.frames_until(from);
        let n: usize = self.frames_until(to);
        proof {
            crate::time::lemma_frames_in_grows(from as int, from as int, self.sample_rate as int);
            crate::time::lemma_frames_in_grows(from as int, to as int, self.sample_rate as int);
            lemma_channel_bounds(self@, m as int);
            lemma_channel_bounds(self@, n as int);
            lemma_part_ok(self@, m as int, n as int, crate::time::sat_secs(self.offset_secs + from));
        }
        self.cut_out(m, n, m * ch, n * ch, to_secs(self.offset_secs as i128 + from as i128))
    }

    /// Takes the stretch from `from` to `to` out of this clip and returns what is left of it
    /// before and after.
    pub fn remove_region(&self, from: Secs, to: Secs) -> (r: (Option<Clip>, Option<Clip>))
        requires
            self@.ok(),
        ensures
            clip_option(r.0) == self@.before(from),
            clip_option(r.1) == self@.after(to),
            self@.before(from) matches Some(c) ==> c.ok(),
            self@.after(to) matches Some(c) ==> c.ok(),
    {
        let len: usize = self.samples.len();
        let ch: usize = self.channels as usize;
        let m: usize = self.frames_until(from);
        let n: usize = self.frames_until(to);
        proof {
            crate::time::lemma_frames_in_grows(from as int, from as int, self.sample_rate as int);
            crate::time::lemma_frames_in_grows(to as int, to as int, self.sample_rate as int);
            lemma_channel_bounds(self@, m as int);
            lemma_channel_bounds(self@, n as int);
            lemma_head_ok(self@, m as int);
            lemma_tail_ok(self@, n as int, crate::time::sat_secs(self.offset_secs + to));
        }
        let left: Option<Clip> = if m > 0 {
            Some(self.cut_out(0, m, 0, m * ch, self.offset_secs))
        } else {
            None
        };
        let right: Option<Clip> = if n < self.mono.len() {
            Some(
                self.cut_out(
                    n,
                    self.mono.len(),
                    n * ch,
                    len,
                    to_secs(self.offset_secs as i128 + to as i128),
                ),
            )
        } else {
            None
        };
        (left, right)
    }
}

/// The clip of an option.
pub open spec fn clip_option(c: Option<Clip>) -> Option<ClipView> {
    match c {
        Some(c) => Some(c@),
        None => None,
    }
}

/// The samples of the frames before frame `n` lie within the clip.
proof fn lemma_channel_bounds(c: ClipView, n: int)
    requires
        c.ok(),
    ensures
        0 <= n <= c.mono.len() ==> 0 <= n * c.channels <= c.samples.len(),
        forall|m: int| 0 <= m <= n ==> 0 <= #[trigger] (m * c.channels) <= n * c.channels,
{
    let ch = c.channels as int;
    let len = c.samples.len() as int;
    vstd::arithmetic::div_mod::lemma_fundamental_div_mod(len, ch);
    vstd::arithmetic::div_mod::lemma_mod_bound(len, ch);
    if 0 <= n <= c.mono.len() {
        assert(0 <= n * ch <= len) by (nonlinear_arith)
            requires
                0 < ch,
                0 <= n <= len / ch,
                len == ch * (len / ch) + len % ch,
                0 <= len % ch,
        ;
    }
    assert forall|m: int| 0 <= m <= n implies 0 <= #[trigger] (m * c.channels) <= n
        * c.channels by {
        assert(0 <= m * ch <= n * ch) by (nonlinear_arith)
            requires
                0 < ch,
                0 <= m <= n,
        ;
    }
}

/// The first frames of a clip are a clip.
pub proof fn lemma_head_ok(c: ClipView, n: int)
    requires
        c.ok(),
        0 <= n <= c.mono.len(),
    ensures
        c.head(n).ok(),
{
    lemma_channel_bounds(c, n);
    vstd::arithmetic::div_mod::lemma_div_by_multiple(n, c.channels as int);
}

/// The last frames of a clip are a clip.
pub proof fn lemma_tail_ok(c: ClipView, n: int, offset: Secs)
    requires
        c.ok(),
        0 <= n <= c.mono.len(),
    ensures
        c.tail(n, offset).ok(),
{
    let ch = c.channels as int;
    let len = c.samples.len() as int;
    lemma_channel_bounds(c, n);
    vstd::arithmetic::div_mod::lemma_fundamental_div_mod(len, ch);
    vstd::arithmetic::div_mod::lemma_mod_bound(len, ch);
    assert(len - n * ch == (len / ch - n) * ch + len % ch) by (nonlinear_arith)
        requires
            len == ch * (len / ch) + len % ch,
    ;
    vstd::arithmetic::div_mod::lemma_fundamental_div_mod_converse(
        len - n * ch,
        ch,
        len / ch - n,
        len % ch,
    );
}

/// A stretch of frames of a clip is a clip.
pub proof fn lemma_part_ok(c: ClipView, m: int, n: int, offset: Secs)
    requires
        c.ok(),
        0 <= m <= n <= c.mono.len(),
    ensures
        c.part(m, n, offset).ok(),
{
    let ch = c.channels as int;
    lemma_channel_bounds(c, n);
    assert(m * c.channels <= n * c.channels);
    assert(n * ch - m * ch == (n - m) * ch) by (nonlinear_arith);
    vstd::arithmetic::div_mod::lemma_div_by_multiple(n - m, ch);
}

/// The least of `from.0` and some frames, and the greatest of `from.1` and the frames.
pub open spec fn range_from(from: (Sample, Sample), frames: Seq<Sample>) -> (Sample, Sample) {
    (crate::sample::lowest(from.0, frames), crate::sample::highest(from.1, frames))
}

/// Takes the frames `at .. stop` into the range of the frames `start .. at`.
fn widen(
    from: (Sample, Sample),
    range: (Sample, Sample),
    mono: &[Sample],
    start: usize,
    at: usize,
    stop: usize,
) -> (r: (Sample, Sample))
    requires
        start <= at <= stop <= mono@.len(),
        range == range_from(from, mono@.subrange(start as int, at as int)),
    ensures
        r == range_from(from, mono@.subrange(start as int, stop as int)),
{
    let mut out: (Sample, Sample) = range;
    let mut i: usize = at;
    while i < stop
        invariant
            start <= at <= i <= stop <= mono@.len(),
            out == range_from(from, mono@.subrange(start as int, i as int)),
        decreases stop - i,
    {
        assert(mono@.subrange(start as int, i + 1).drop_last() =~= mono@.subrange(start as int, i as int));
        out = (min_sample(out.0, mono[i]), max_sample(out.1, mono[i]));
        i = i + 1;
    }
    out
}

/// The range of the frames of one bucket.
fn range_of(frames: &[Sample]) -> (r: (Sample, Sample))
    ensures
        r == bucket_range(frames@),
{
    let mut least: Sample = RANK_MAX;
    let mut greatest: Sample = RANK_MIN;
    let mut i: usize = 0;
    while i < frames.len()
        invariant
            i <= frames@.len(),
            (least, greatest) == bucket_range(frames@.subrange(0, i as int)),
        decreases frames@.len() - i,
    {
        assert(frames@.subrange(0, i + 1).drop_last() =~= frames@.subrange(0, i as int));
        least = min_sample(least, frames[i]);
        greatest = max_sample(greatest, frames[i]);
        i = i + 1;
    }
    assert(frames@.subrange(0, i as int) =~= frames@);
    (least, greatest)
}

/// A frame lies within the samples that it is a frame of.
pub proof fn lemma_frame_in_bounds(len: int, ch: int, i: int)
    requires
        0 < ch,
        0 <= i < len / ch,
    ensures
        0 <= i * ch,
        i * ch + ch <= len,
{
    vstd::arithmetic::div_mod::lemma_fundamental_div_mod(len, ch);
    vstd::arithmetic::div_mod::lemma_mod_bound(len, ch);
    assert(0 <= i * ch && i * ch + ch <= len) by (nonlinear_arith)
        requires
            0 < ch,
            0 <= i,
            i + 1 <= len / ch,
            len == ch * (len / ch) + len % ch,
            0 <= len % ch,
    ;
}

/// A split loses nothing: the samples of the halves, one after the other, are those of the clip.
pub proof fn law_split_keeps_every_sample(c: ClipView, secs: Secs)
    requires
        c.ok(),
    ensures
        c.split_left(secs).samples + c.split_right(secs).samples == c.samples,
        c.split_left(secs).mono + c.split_right(secs).mono == c.mono,
        c.split_left(secs).offset_secs == c.offset_secs,
        c.split_right(secs).offset_secs == crate::time::sat_secs(c.offset_secs + secs),
{
    crate::time::lemma_frames_in_grows(secs as int, secs as int, c.sample_rate as int);
    let n = c.frames_before(secs as int);
    if c.split_inside(secs) {
        lemma_channel_bounds(c, n);
    }
    assert(c.split_left(secs).samples + c.split_right(secs).samples =~= c.samples);
    assert(c.split_left(secs).mono + c.split_right(secs).mono =~= c.mono);
}

/// A clip lasts as long as its frames take at its rate, rounded up to a flick, and ends that long after
/// it starts.
pub proof fn law_a_clip_lasts_as_long_as_its_frames(c: ClipView)
    requires
        c.sample_rate > 0,
        c.duration() < i64::MAX,
    ensures
        c.mono.len() * 705_600_000 <= c.duration() * c.sample_rate < c.mono.len() * 705_600_000
            + c.sample_rate,
        c.end() - c.offset_secs == c.duration(),
{
    let r = c.sample_rate as int;
    let n = c.mono.len() * 705_600_000;
    let q = (n + r - 1) / r;
    vstd::arithmetic::div_mod::lemma_fundamental_div_mod(n + r - 1, r);
    vstd::arithmetic::div_mod::lemma_mod_bound(n + r - 1, r);
    assert(n <= q * r < n + r) by (nonlinear_arith)
        requires
            n + r - 1 == r * q + (n + r - 1) % r,
            0 <= (n + r - 1) % r < r,
    ;
    vstd::arithmetic::div_mod::lemma_div_pos_is_pos(n + r - 1, r);
}

/// The mono mixdown has one sample for each whole frame: the samples of all its channels, added up one
/// after the other, and divided by their number. With one channel it is that channel divided by 1, and
/// with two it is made from the left and the right sample.
pub proof fn law_mono_takes_every_channel<A: Fn(Sample, Sample) -> Sample, D: Fn(Sample, u32) -> Sample>(
    samples: Seq<Sample>,
    channels: u32,
    plus: A,
    over: D,
    i: int,
    n: nat,
)
    requires
        channels > 0,
        0 <= i,
        (i + 1) * channels <= samples.len(),
        n < channels,
    ensures
        ({
            let mono = mono_of(samples, channels, plus, over);
            let first = i * channels;
            &&& mono.len() * channels <= samples.len() < (mono.len() + 1) * channels
            &&& i < mono.len()
            &&& mono[i] == crate::sample::result_of(
                over,
                frame_sum(samples, first, channels as nat, plus),
                channels,
            )
            &&& frame_sum(samples, first, 0, plus) == 0
            &&& frame_sum(samples, first, n + 1, plus) == crate::sample::result_of(
                plus,
                frame_sum(samples, first, n, plus),
                samples[first + n],
            )
            &&& channels == 1 ==> mono[i] == crate::sample::result_of(
                over,
                crate::sample::result_of(plus, 0i32, samples[i]),
                1u32,
            )
            &&& channels == 2 ==> mono[i] == crate::sample::result_of(
                over,
                crate::sample::result_of(
                    plus,
                    crate::sample::result_of(plus, 0i32, samples[2 * i]),
                    samples[2 * i + 1],
                ),
                2u32,
            )
        }),
{
    let len = samples.len() as int;
    let ch = channels as int;
    vstd::arithmetic::div_mod::lemma_fundamental_div_mod(len, ch);
    vstd::arithmetic::div_mod::lemma_mod_bound(len, ch);
    let q = len / ch;
    assert(q * ch <= len < (q + 1) * ch) by (nonlinear_arith)
        requires
            len == ch * q + len % ch,
            0 <= len % ch < ch,
    ;
    assert(i < q) by (nonlinear_arith)
        requires
            (i + 1) * ch <= len,
            len < (q + 1) * ch,
            ch > 0,
    ;
    let first = i * ch;
    assert(frame_sum(samples, first, 0, plus) == SILENCE);
    if channels == 1 {
        assert(first == i) by (nonlinear_arith)
            requires
                first == i * ch,
                ch == 1,
        ;
        assert(frame_sum(samples, first, 1, plus) == crate::sample::result_of(
            plus,
            SILENCE,
            samples[first],
        ));
    }
    if channels == 2 {
        assert(first == 2 * i) by (nonlinear_arith)
            requires
                first == i * ch,
                ch == 2,
        ;
        let one = frame_sum(samples, first, 1, plus);
        assert(one == crate::sample::result_of(plus, SILENCE, samples[first]));
        assert(frame_sum(samples, first, 2, plus) == crate::sample::result_of(
            plus,
            one,
            samples[first + 1],
        ));
    }
}

/// The summary has a range for every 256 frames, the last of them for what is left. A range takes in
/// every finite sample of its frames, and its ends are samples of theirs where they have a finite one.
pub proof fn law_the_summary_takes_in_every_frame(mono: Seq<Sample>, i: int)
    requires
        0 <= i < mono.len(),
    ensures
        summary_of(mono).len() * 256 >= mono.len(),
        (summary_of(mono).len() - 1) * 256 < mono.len(),
        i / 256 < summary_of(mono).len(),
        RANK_MIN <= mono[i] <= RANK_MAX ==> summary_of(mono)[i / 256].0 <= mono[i]
            <= summary_of(mono)[i / 256].1,
        RANK_MIN <= mono[i] <= RANK_MAX ==> exists|j: int|
            0 <= j < mono.len() && j / 256 == i / 256 && (#[trigger] mono[j]) == summary_of(mono)[i
                / 256].0,
        RANK_MIN <= mono[i] <= RANK_MAX ==> exists|j: int|
            0 <= j < mono.len() && j / 256 == i / 256 && (#[trigger] mono[j]) == summary_of(mono)[i
                / 256].1,
{
    let k = i / 256;
    let frames = bucket(mono, k);
    let at = i - 256 * k;
    assert(frames[at] == mono[i]);
    crate::sample::law_range_is_tight(RANK_MAX, frames, at);
    crate::sample::law_range_is_tight(RANK_MIN, frames, at);
    if RANK_MIN <= mono[i] <= RANK_MAX {
        let lo = crate::sample::lowest(RANK_MAX, frames);
        let hi = crate::sample::highest(RANK_MIN, frames);
        if lo == RANK_MAX {
            assert(mono[i] == lo);
        } else {
            let j = choose|j: int| 0 <= j < frames.len() && frames[j] == lo;
            assert(mono[256 * k + j] == lo);
        }
        if hi == RANK_MIN {
            assert(mono[i] == hi);
        } else {
            let j = choose|j: int| 0 <= j < frames.len() && frames[j] == hi;
            assert(mono[256 * k + j] == hi);
        }
    }
}

} // verus!
