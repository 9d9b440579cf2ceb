//! Where clips come from: decoded files, a change of sample rate, the click generator.

use vstd::prelude::*;
use vstd::string::StringExecFns;
use crate::audio::Clip;
use crate::sample::{Sample, SILENCE, UNITY};
use crate::time::{frame_at, Secs};

verus! {

/// What a decoder says of the audio stream that it found.
pub struct StreamInfo {
    pub sample_rate: Option<u32>,
    pub channels: Option<u32>,
}

/// Why an audio file cannot be loaded.
#[derive(Clone, Copy, Debug, PartialEq, Eq, Structural)]
pub enum LoadError {
    NoTrack,
    NoSampleRate,
    NoChannels,
}

impl LoadError {
    /// The error in words.
    pub fn message(&self) -> (r: &'static str)
        ensures
            r@ == (match self {
                LoadError::NoTrack => "no audio track found"@,
                LoadError::NoSampleRate => "no sample rate"@,
                LoadError::NoChannels => "no channel info"@,
            }),
    {
        match self {
            LoadError::NoTrack => "no audio track found",
            LoadError::NoSampleRate => "no sample rate",
            LoadError::NoChannels => "no channel info",
        }
    }
}

/// The sample rate and the number of channels of the stream to decode.
pub fn stream_format(stream: Option<StreamInfo>) -> (r: Result<(u32, u32), LoadError>)
    ensures
        r == (match stream {
            None => Err(LoadError::NoTrack),
            Some(s) => match (s.sample_rate, s.channels) {
                (None, _) => Err(LoadError::NoSampleRate),
                (Some(_), None) => Err(LoadError::NoChannels),
                (Some(rate), Some(channels)) => Ok((rate, channels)),
            },
        }),
{
    match stream {
        None => Err(LoadError::NoTrack),
        Some(s) => match s.sample_rate {
            None => Err(LoadError::NoSampleRate),
            Some(rate) => match s.channels {
                None => Err(LoadError::NoChannels),
                Some(channels) => Ok((rate, channels)),
            },
        },
    }
}

/// What came of asking a container for its next packet.
#[derive(Clone, Copy, Debug, PartialEq, Eq, Structural)]
pub enum PacketEvent {
    /// A packet of the track with this number
    Packet(u32),
    /// Reading failed, as it does at the end of the file
    ReadFailed,
    /// The container is damaged
    Damaged,
}

/// What to do next while a file is decoded.
#[derive(Clone, Copy, Debug, PartialEq, Eq, Structural)]
pub enum DecodeStep {
    Decode,
    Skip,
    Finish,
    Fail,
}

/// Decodes the packets of the wanted track, passes over those of other tracks, takes a failed
/// read for the end of the file, and gives up on a damaged one.
pub fn decode_step(event: PacketEvent, wanted: u32) -> (r: DecodeStep)
    ensures
        r == (match event {
            PacketEvent::Packet(id) => if id == wanted {
                DecodeStep::Decode
            } else {
                DecodeStep::Skip
            },
            PacketEvent::ReadFailed => DecodeStep::Finish,
            PacketEvent::Damaged => DecodeStep::Fail,
        }),
{
    match event {
        PacketEvent::Packet(id) => if id == wanted {
            DecodeStep::Decode
        } else {
            DecodeStep::Skip
        },
        PacketEvent::ReadFailed => DecodeStep::Finish,
        PacketEvent::Damaged => DecodeStep::Fail,
    }
}

/// A change of sample rate for interleaved audio.
#[derive(Clone, Copy, Debug, PartialEq, Eq, Structural)]
pub struct RateChange {
    pub channels: u32,
    pub from_rate: u32,
    pub to_rate: u32,
}

/// The samples of a loaded file: what was decoded, brought to the project's rate where it differs.
pub open spec fn loaded_samples<R: Fn(Vec<Sample>, RateChange) -> Vec<Sample>>(
    samples: Vec<Sample>,
    sample_rate: u32,
    channels: u32,
    project_rate: u32,
    resample: R,
) -> Seq<Sample> {
    if sample_rate == project_rate {
        samples@
    } else {
        crate::sample::result_of(
            resample,
            samples,
            (RateChange { channels, from_rate: sample_rate, to_rate: project_rate }),
        )@
    }
}

/// The clip of a decoded file, at the start of the timeline and at the project's rate.
pub fn load_file<
    R: Fn(Vec<Sample>, RateChange) -> Vec<Sample>,
    A: Fn(Sample, Sample) -> Sample,
    D: Fn(Sample, u32) -> Sample,
>(
    path: &str,
    file_name: Option<&str>,
    samples: Vec<Sample>,
    sample_rate: u32,
    channels: u32,
    project_rate: u32,
    resample: &R,
    plus: &A,
    over: &D,
) -> (r: Clip)
    requires
        channels > 0,
        crate::sample::is_function(*resample),
        crate::sample::is_function(*plus),
        crate::sample::is_function(*over),
    ensures
        r@.ok(),
        ({
            let audio = loaded_samples(samples, sample_rate, channels, project_rate, *resample);
            let mono = crate::audio::mono_of(audio, channels, *plus, *over);
            r@ == (crate::audio::ClipView {
                name: match file_name {
                    Some(n) => n@,
                    None => "Untitled"@,
                },
                samples: audio,
                sample_rate: project_rate,
                channels,
                mono,
                summary: crate::audio::summary_of(mono),
                offset_secs: 0,
                gain: UNITY,
                source_path: Some(path@),
            })
        }),
{
    let audio: Vec<Sample> = if sample_rate != project_rate {
        resample(
            samples,
            RateChange { channels, from_rate: sample_rate, to_rate: project_rate },
        )
    } else {
        samples
    };
    let mono: Vec<Sample> = Clip::build_mono(audio.as_slice(), channels, plus, over);
    let summary: Vec<(Sample, Sample)> = Clip::build_summary(mono.as_slice());
    let name: String = match file_name {
        Some(n) => n.to_owned(),
        None => "Untitled".to_owned(),
    };
    Clip {
        name,
        samples: audio,
        sample_rate: project_rate,
        channels,
        mono,
        summary,
        offset_secs: 0,
        gain: UNITY,
        source_path: Some(path.to_owned()),
    }
}

/// How far a resampler has come through its input and its output, in frames.
#[derive(Clone, Copy, Debug, PartialEq, Eq, Structural)]
pub struct ResampleRun {
    pub input_offset: usize,
    pub output_offset: usize,
    /// The frames of a last chunk that is shorter than the resampler asked for
    pub partial_len: Option<usize>,
    pub remaining: usize,
}

impl ResampleRun {
    /// The start of a run over `frames` frames.
    pub fn start(frames: usize) -> (r: Self)
        ensures
            r == (ResampleRun {
                input_offset: 0,
                output_offset: 0,
                partial_len: None,
                remaining: frames,
            }),
    {
        ResampleRun { input_offset: 0, output_offset: 0, partial_len: None, remaining: frames }
    }

    /// The frames that the output needs room for, given how many the resampler may hold back.
    pub fn output_room(frames: usize, from_rate: u32, to_rate: u32, slack: usize) -> (r: usize)
        requires
            from_rate > 0,
        ensures
            r == crate::time::sat_index(
                (frames * to_rate + from_rate - 1) / from_rate as int + slack,
            ),
    {
        assert(0 <= frames * to_rate <= u64::MAX * u32::MAX) by (nonlinear_arith)
            requires
                0 <= frames <= u64::MAX,
                0 <= to_rate <= u32::MAX,
        ;
        assert(0 <= (frames * to_rate + from_rate - 1) / from_rate as int <= frames * to_rate
            + from_rate - 1) by (nonlinear_arith)
            requires
                0 <= frames * to_rate,
                0 < from_rate,
        ;
        let whole: i128 = (frames as i128 * to_rate as i128 + from_rate as i128 - 1)
            / from_rate as i128;
        crate::time::to_index(whole + slack as i128)
    }

    /// Prepares the next chunk of `needed` frames: a chunk that the input cannot fill is partial.
    pub fn prepare(&mut self, needed: usize)
        ensures
            *final(self) == (ResampleRun {
                partial_len: if old(self).remaining < needed {
                    Some(old(self).remaining)
                } else {
                    old(self).partial_len
                },
                ..*old(self)
            }),
    {
        if self.remaining < needed {
            self.partial_len = Some(self.remaining);
        }
    }

    /// Takes a chunk into account and says whether the run goes on.
    pub fn advance(&mut self, consumed: usize, produced: usize) -> (more: bool)
        requires
            old(self).input_offset + consumed <= usize::MAX,
            old(self).output_offset + produced <= usize::MAX,
        ensures
            *final(self) == (ResampleRun {
                input_offset: (old(self).input_offset + consumed) as usize,
                output_offset: (old(self).output_offset + produced) as usize,
                remaining: if consumed <= old(self).remaining {
                    (old(self).remaining - consumed) as usize
                } else {
                    0
                },
                ..*old(self)
            }),
            more <==> 0 < consumed < old(self).remaining,
    {
        self.input_offset = self.input_offset + consumed;
        self.output_offset = self.output_offset + produced;
        self.remaining = if consumed <= self.remaining {
            self.remaining - consumed
        } else {
            0
        };
        consumed > 0 && self.remaining > 0
    }
}

/// The sample of a click track at position `p`: a click at the start of each beat, accented on
/// every fourth, and silence between.
pub open spec fn click_sample<T: Fn(usize, bool) -> Sample>(
    p: int,
    interval: int,
    click_len: int,
    tone: T,
) -> Sample {
    if p % interval < click_len {
        crate::sample::result_of(tone, (p % interval) as usize, (p / interval) % 4 == 0)
    } else {
        SILENCE
    }
}

/// The samples of a click track: each click lasts 15 ms, or until the next beat.
pub open spec fn click_samples<T: Fn(usize, bool) -> Sample>(
    interval: usize,
    duration_secs: Secs,
    sample_rate: u32,
    tone: T,
) -> Seq<Sample> {
    Seq::new(
        crate::time::sat_index(
            crate::time::frames_in(duration_secs as int, sample_rate as int),
        ) as nat,
        |p: int| click_sample(p, interval as int, sample_rate * 15 / 1000, tone),
    )
}

/// Generates a metronome. `interval` is the number of samples from beat to beat, `tone` the
/// sound of a click by its sample and whether it is accented, `bpm` the tempo in words.
pub fn generate_click_track<T: Fn(usize, bool) -> Sample>(
    bpm: &str,
    interval: usize,
    duration_secs: Secs,
    sample_rate: u32,
    tone: &T,
) -> (r: Clip)
    requires
        interval > 0 || crate::time::frames_in(duration_secs as int, sample_rate as int) == 0,
        crate::sample::is_function(*tone),
    ensures
        r@.ok(),
        ({
            let samples = click_samples(interval, duration_secs, sample_rate, *tone);
            r@ == (crate::audio::ClipView {
                name: "Click — "@ + bpm@ + " BPM"@,
                samples,
                sample_rate,
                channels: 1,
                mono: samples,
                summary: crate::audio::summary_of(samples),
                offset_secs: 0,
                gain: UNITY,
                source_path: None,
            })
        }),
{
    let total: usize = frame_at(duration_secs, sample_rate);
    let click_len: u64 = sample_rate as u64 * 15 / 1000;
    let mut samples: Vec<Sample> = Vec::new();
    let mut p: usize = 0;
    let mut beat: usize = 0;
    let mut i: usize = 0;
    while p < total
        invariant
            total > 0 ==> interval > 0,
            total > 0 ==> i < interval,
            p == beat * interval + i,
            p <= total,
            samples@.len() == p,
            click_len == sample_rate * 15 / 1000,
            crate::sample::is_function(*tone),
            forall|q: int|
                0 <= q < p ==> #[trigger] samples@[q] == click_sample(
                    q,
                    interval as int,
                    click_len as int,
                    *tone,
                ),
        decreases total - p,
    {
        proof {
            assert(p == interval * beat + i) by (nonlinear_arith)
                requires
                    p == beat * interval + i,
            ;
            vstd::arithmetic::div_mod::lemma_fundamental_div_mod_converse(
                p as int,
                interval as int,
                beat as int,
                i as int,
            );
        }
        if (i as u64) < click_len {
            samples.push(tone(i, beat % 4 == 0));
        } else {
            samples.push(SILENCE);
        }
        if i + 1 == interval {
            assert((beat + 1) * interval == beat * interval + interval) by (nonlinear_arith);
            assert(beat <= beat * interval) by (nonlinear_arith)
                requires
                    interval > 0,
                    beat >= 0,
            ;
            i = 0;
            beat = beat + 1;
        } else {
            i = i + 1;
        }
        p = p + 1;
    }
    let mono: Vec<Sample> = samples.clone();
    assert(mono@ =~= samples@);
    let summary: Vec<(Sample, Sample)> = Clip::build_summary(mono.as_slice());
    let mut name: String = "Click — ".to_owned();
    name.append(bpm);
    name.append(" BPM");
    proof {
        assert(samples@ =~= click_samples(interval, duration_secs, sample_rate, *tone));
        vstd::arithmetic::div_mod::lemma_div_basics(samples@.len() as int);
    }
    Clip {
        name,
        samples,
        sample_rate,
        channels: 1,
        mono,
        summary,
        offset_secs: 0,
        gain: UNITY,
        source_path: None,
    }
}

/// A click track counts four beats to the bar: the click that starts the first beat of each bar is
/// accented, and those that start the second, the third and the fourth are not. A click lasts 15 ms
/// and is cut off by the next beat; all else is silence. The track is as long as was asked for.
pub proof fn law_four_beats_to_the_bar<T: Fn(usize, bool) -> Sample>(
    interval: usize,
    duration_secs: Secs,
    sample_rate: u32,
    tone: T,
    bar: int,
    i: int,
)
    requires
        interval > 0,
        0 <= bar,
        0 <= i < interval,
    ensures
        ({
            let samples = click_samples(interval, duration_secs, sample_rate, tone);
            let first = 4 * bar * interval;
            let clicks = (i + 1) * 1000 <= 15 * sample_rate;
            &&& first + i < samples.len() ==> samples[first + i] == if clicks {
                crate::sample::result_of(tone, i as usize, true)
            } else {
                0
            }
            &&& forall|b: int|
                1 <= b <= 3 && first + b * interval + i < samples.len() ==> #[trigger] samples[first
                    + b * interval + i] == if clicks {
                    crate::sample::result_of(tone, i as usize, false)
                } else {
                    0
                }
            &&& duration_secs >= 0 && samples.len() < usize::MAX ==> samples.len() * 705_600_000
                <= duration_secs * sample_rate < (samples.len() + 1) * 705_600_000
        }),
{
    let samples = click_samples(interval, duration_secs, sample_rate, tone);
    let n = interval as int;
    let first = 4 * bar * n;
    let len = sample_rate * 15 / 1000;
    assert(i < len <==> (i + 1) * 1000 <= 15 * sample_rate);
    assert forall|b: int| 0 <= b <= 3 && first + b * n + i < samples.len() implies #[trigger] samples[first
        + b * n + i] == click_sample(first + b * n + i, n, len, tone) && (first + b * n + i) % n == i
        && (first + b * n + i) / n == 4 * bar + b by {
        assert(first + b * n + i == n * (4 * bar + b) + i && first + b * n >= 0) by (nonlinear_arith)
            requires
                first == 4 * bar * n,
                bar >= 0,
                b >= 0,
                n > 0,
        ;
        vstd::arithmetic::div_mod::lemma_fundamental_div_mod_converse(
            first + b * n + i,
            n,
            4 * bar + b,
            i,
        );
    }
    assert(0 * n == 0) by (nonlinear_arith);
    if first + i < samples.len() {
        assert(samples[first + 0 * n + i] == samples[first + i]);
        assert((4 * bar + 0) % 4 == 0);
    }
    assert forall|b: int| 1 <= b <= 3 && first + b * n + i < samples.len() implies #[trigger] samples[first
        + b * n + i] == if (i + 1) * 1000 <= 15 * sample_rate {
        crate::sample::result_of(tone, i as usize, false)
    } else {
        0
    } by {
        assert((4 * bar + b) % 4 != 0);
    }
    let x = duration_secs * sample_rate;
    if duration_secs >= 0 && samples.len() < usize::MAX {
        assert(x >= 0) by (nonlinear_arith)
            requires
                x == duration_secs * sample_rate,
                duration_secs >= 0,
                sample_rate >= 0,
        ;
        vstd::arithmetic::div_mod::lemma_fundamental_div_mod(x, 705_600_000);
        vstd::arithmetic::div_mod::lemma_mod_bound(x, 705_600_000);
        vstd::arithmetic::div_mod::lemma_div_pos_is_pos(x, 705_600_000);
        if duration_secs == 0 {
            assert(x == 0) by (nonlinear_arith)
                requires
                    x == duration_secs * sample_rate,
                    duration_secs == 0,
            ;
        }
    }
}

/// A click track repeats after four beats: what is heard in a bar is heard in the next.
pub proof fn law_click_track_repeats<T: Fn(usize, bool) -> Sample>(
    interval: usize,
    duration_secs: Secs,
    sample_rate: u32,
    tone: T,
    p: int,
)
    requires
        interval > 0,
        0 <= p,
        p + 4 * interval < click_samples(interval, duration_secs, sample_rate, tone).len(),
    ensures
        click_samples(interval, duration_secs, sample_rate, tone)[p + 4 * interval]
            == click_samples(interval, duration_secs, sample_rate, tone)[p],
{
    let n = interval as int;
    vstd::arithmetic::div_mod::lemma_fundamental_div_mod(p, n);
    vstd::arithmetic::div_mod::lemma_mod_bound(p, n);
    assert(p + 4 * n == n * (p / n + 4) + p % n) by (nonlinear_arith)
        requires
            p == n * (p / n) + p % n,
    ;
    vstd::arithmetic::div_mod::lemma_fundamental_div_mod_converse(p + 4 * n, n, p / n + 4, p % n);
}

/// What was decoded at the rate of the project is taken as it is; anything else is resampled, from its
/// own rate to that of the project.
pub proof fn law_only_other_rates_are_resampled<R: Fn(Vec<Sample>, RateChange) -> Vec<Sample>>(
    samples: Vec<Sample>,
    rate: u32,
    channels: u32,
    project_rate: u32,
    resample: R,
)
    ensures
        rate == project_rate ==> loaded_samples(samples, rate, channels, project_rate, resample)
            == samples@,
        rate != project_rate ==> loaded_samples(samples, rate, channels, project_rate, resample)
            == crate::sample::result_of(
            resample,
            samples,
            (RateChange { channels, from_rate: rate, to_rate: project_rate }),
        )@,
{
}

} // verus!
