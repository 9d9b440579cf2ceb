use audio_editor::audio::{Clip, SUMMARY_BUCKET};
use audio_editor::sample::{max_sample, min_sample, RANK_MAX, RANK_MIN, SILENCE, UNITY};
use audio_editor::time::{frame_at, time_for, FLICKS};
use audio_editor::track::{tracks_duration, Track};

fn rank(x: f32) -> i32 {
    let bits = x.to_bits();
    if bits >> 31 == 0 {
        bits as i32
    } else {
        -1 - (bits & 0x7FFF_FFFF) as i32
    }
}

fn value(r: i32) -> f32 {
    if r >= 0 {
        f32::from_bits(r as u32)
    } else {
        f32::from_bits(0x8000_0000 | (-1 - r) as u32)
    }
}

fn plus(a: i32, b: i32) -> i32 {
    rank(value(a) + value(b))
}

fn over(a: i32, n: u32) -> i32 {
    rank(value(a) / n as f32)
}

fn clip(samples: Vec<f32>, channels: u32, sample_rate: u32, offset_secs: i64) -> Clip {
    let samples: Vec<i32> = samples.into_iter().map(rank).collect();
    let mono = Clip::build_mono(&samples, channels, &plus, &over);
    let summary = Clip::build_summary(&mono);
    Clip {
        name: "clip".to_string(),
        samples,
        sample_rate,
        channels,
        mono,
        summary,
        offset_secs,
        gain: UNITY,
        source_path: None,
    }
}

fn ramp(n: usize) -> Vec<f32> {
    (0..n).map(|i| i as f32).collect()
}

#[test]
fn one_second_of_frames_lasts_one_second() {
    let c = clip(ramp(48_000), 1, 48_000, 0);
    assert_eq!(c.duration_secs(), FLICKS);
    assert_eq!(frame_at(FLICKS, 48_000), 48_000);
    assert_eq!(time_for(44_100, 44_100), FLICKS);
}

#[test]
fn time_of_frames_holds_those_frames() {
    for rate in [8_000u32, 11_025, 22_050, 44_100, 48_000, 96_000, 44_101] {
        for frames in [0usize, 1, 2, 333, 44_099] {
            assert_eq!(frame_at(time_for(frames, rate), rate), frames);
        }
    }
}

#[test]
fn frames_before_a_time_fit_into_it() {
    for t in [0i64, 1, FLICKS / 3, FLICKS, 7 * FLICKS + 11] {
        assert!(time_for(frame_at(t, 44_100), 44_100) <= t);
    }
    assert_eq!(frame_at(-5, 44_100), 0);
}

#[test]
fn mono_is_the_mean_of_the_channels() {
    let samples: Vec<i32> = [1.0, 3.0, -2.0, 4.0, 9.0].into_iter().map(rank).collect();
    let mono = Clip::build_mono(&samples, 2, &plus, &over);
    assert_eq!(mono.iter().map(|&r| value(r)).collect::<Vec<_>>(), vec![2.0, 1.0]);
}

#[test]
fn summary_has_a_range_for_each_bucket() {
    let mono: Vec<i32> = ramp(SUMMARY_BUCKET + 2).into_iter().map(rank).collect();
    let summary = Clip::build_summary(&mono);
    assert_eq!(summary.len(), 2);
    assert_eq!((value(summary[0].0), value(summary[0].1)), (0.0, 255.0));
    assert_eq!((value(summary[1].0), value(summary[1].1)), (256.0, 257.0));
    assert!(Clip::build_summary(&[]).is_empty());
}

#[test]
fn a_bucket_without_numbers_has_the_outermost_range() {
    let nan = rank(f32::NAN);
    assert_eq!(Clip::build_summary(&[nan]), vec![(RANK_MAX, RANK_MIN)]);
    assert_eq!(min_sample(rank(1.0), nan), rank(1.0));
    assert_eq!(max_sample(rank(1.0), nan), rank(1.0));
}

#[test]
fn ranges_are_those_of_a_scan() {
    let samples: Vec<f32> = (0..2000).map(|i| ((i * 37) % 101) as f32 - 50.0).collect();
    let c = clip(samples.clone(), 1, 48_000, 0);
    for (start, end) in [(0, 2000), (5, 9), (100, 700), (256, 512), (255, 1025), (3, 4)] {
        let (lo, hi) = c.min_max_range(start, end);
        let want_lo = samples[start..end].iter().fold(f32::INFINITY, |a, &b| a.min(b));
        let want_hi = samples[start..end].iter().fold(f32::NEG_INFINITY, |a, &b| a.max(b));
        assert_eq!((value(lo), value(hi)), (want_lo, want_hi));
    }
    assert_eq!(c.min_max_range(7, 7), (SILENCE, SILENCE));
}

#[test]
fn the_range_of_loud_samples_leaves_silence_out() {
    let c = clip(vec![0.5, 0.75], 1, 1, 0);
    assert_eq!(c.min_max_range(0, 2), (rank(0.5), rank(0.75)));
    let c = clip(vec![-0.5, f32::NAN, -0.75], 1, 1, 0);
    assert_eq!(c.min_max_range(0, 3), (rank(-0.75), rank(-0.5)));
    assert_eq!(c.min_max_range(1, 2), (SILENCE, SILENCE));
    let c = clip(vec![f32::INFINITY; 600], 1, 48_000, 0);
    assert_eq!(c.min_max_range(0, 600), (rank(f32::INFINITY), rank(f32::INFINITY)));
}

#[test]
fn split_keeps_every_sample() {
    let mut left = clip(ramp(1000), 2, 48_000, FLICKS);
    let whole = left.clone();
    let right = left.split_at(time_for(200, 48_000));
    assert_eq!(left.mono.len(), 200);
    assert_eq!(right.mono.len(), 300);
    assert_eq!(left.offset_secs, FLICKS);
    assert_eq!(right.offset_secs, FLICKS + time_for(200, 48_000));
    let joined: Vec<i32> = left.samples.iter().chain(right.samples.iter()).copied().collect();
    assert_eq!(joined, whole.samples);
    assert_eq!(left.summary, Clip::build_summary(&left.mono));
    assert_eq!(right.summary, Clip::build_summary(&right.mono));
}

#[test]
fn split_behind_the_end_leaves_the_clip_whole() {
    let mut left = clip(ramp(10), 1, 48_000, 0);
    let right = left.split_at(FLICKS);
    assert_eq!(left.mono.len(), 10);
    assert!(right.samples.is_empty());
    assert_eq!(right.offset_secs, FLICKS);
}

#[test]
fn slice_takes_the_stretch() {
    let c = clip(ramp(100), 1, 100, 0);
    let s = c.slice(FLICKS / 10, FLICKS / 2);
    assert_eq!(s.mono.len(), 40);
    assert_eq!(value(s.samples[0]), 10.0);
    assert_eq!(s.offset_secs, FLICKS / 10);
}

#[test]
fn removing_a_region_leaves_both_ends() {
    let c = clip(ramp(100), 1, 100, FLICKS);
    let (left, right) = c.remove_region(FLICKS / 10, FLICKS / 2);
    let (left, right) = (left.unwrap(), right.unwrap());
    assert_eq!(left.mono.len(), 10);
    assert_eq!(left.offset_secs, FLICKS);
    assert_eq!(right.mono.len(), 50);
    assert_eq!(right.offset_secs, FLICKS + FLICKS / 2);
    let (left, right) = c.remove_region(0, FLICKS);
    assert!(left.is_none() && right.is_none());
}

#[test]
fn a_track_lasts_until_its_last_clip_ends() {
    let a = clip(ramp(100), 1, 100, 0);
    let b = clip(ramp(50), 1, 100, 3 * FLICKS);
    let t = Track::with_clips(vec![b, a]);
    assert_eq!(t.duration_secs(), 3 * FLICKS + FLICKS / 2);
    assert!(!t.muted);
    assert_eq!(t.gain, UNITY);
    let empty = Track::with_clips(vec![]);
    assert_eq!(empty.duration_secs(), 0);
    assert_eq!(tracks_duration(&vec![empty, t]), 3 * FLICKS + FLICKS / 2);
    assert_eq!(tracks_duration(&vec![]), 0);
}
