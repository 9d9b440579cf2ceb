use audio_editor::sample::{SILENCE, UNITY};
use audio_editor::source::{
    decode_step, generate_click_track, load_file, stream_format, DecodeStep, LoadError,
    PacketEvent, RateChange, ResampleRun, StreamInfo,
};
use audio_editor::time::FLICKS;

#[test]
fn a_stream_needs_a_rate_and_channels() {
    let stream = |sample_rate, channels| Some(StreamInfo { sample_rate, channels });
    assert_eq!(stream_format(None), Err(LoadError::NoTrack));
    assert_eq!(stream_format(stream(None, Some(2))), Err(LoadError::NoSampleRate));
    assert_eq!(stream_format(stream(Some(44_100), None)), Err(LoadError::NoChannels));
    assert_eq!(stream_format(stream(Some(44_100), Some(2))), Ok((44_100, 2)));
    assert_eq!(LoadError::NoTrack.message(), "no audio track found");
    assert_eq!(LoadError::NoSampleRate.message(), "no sample rate");
    assert_eq!(LoadError::NoChannels.message(), "no channel info");
}

#[test]
fn packets_of_other_tracks_are_skipped() {
    assert_eq!(decode_step(PacketEvent::Packet(3), 3), DecodeStep::Decode);
    assert_eq!(decode_step(PacketEvent::Packet(4), 3), DecodeStep::Skip);
    assert_eq!(decode_step(PacketEvent::ReadFailed, 3), DecodeStep::Finish);
    assert_eq!(decode_step(PacketEvent::Damaged, 3), DecodeStep::Fail);
}

#[test]
fn a_file_at_the_project_rate_is_not_resampled() {
    let resample = |_: Vec<i32>, _: RateChange| -> Vec<i32> { vec![] };
    let c = load_file(
        "/music/take.wav",
        Some("take.wav"),
        vec![1, 2, 3, 4],
        48_000,
        2,
        48_000,
        &resample,
        &|a: i32, b: i32| a + b,
        &|a: i32, n: u32| a / n as i32,
    );
    assert_eq!(c.samples, vec![1, 2, 3, 4]);
    assert_eq!(c.mono, vec![1, 3]);
    assert_eq!(c.name, "take.wav");
    assert_eq!(c.source_path.as_deref(), Some("/music/take.wav"));
    assert_eq!((c.sample_rate, c.channels, c.offset_secs, c.gain), (48_000, 2, 0, UNITY));
}

#[test]
fn a_file_at_another_rate_is_resampled() {
    let resample = |s: Vec<i32>, change: RateChange| -> Vec<i32> {
        assert_eq!(change, RateChange { channels: 1, from_rate: 24_000, to_rate: 48_000 });
        s.iter().flat_map(|&x| [x, x]).collect()
    };
    let c = load_file(
        "take",
        None,
        vec![5, 6],
        24_000,
        1,
        48_000,
        &resample,
        &|a: i32, b: i32| a + b,
        &|a: i32, n: u32| a / n as i32,
    );
    assert_eq!(c.samples, vec![5, 5, 6, 6]);
    assert_eq!(c.sample_rate, 48_000);
    assert_eq!(c.name, "Untitled");
}

#[test]
fn a_resampling_run_ends_with_a_partial_chunk() {
    let mut run = ResampleRun::start(2500);
    run.prepare(1024);
    assert_eq!(run.partial_len, None);
    assert!(run.advance(1024, 2048));
    run.prepare(1024);
    assert!(run.advance(1024, 2048));
    run.prepare(1024);
    assert_eq!(run.partial_len, Some(452));
    assert!(!run.advance(452, 904));
    assert_eq!((run.input_offset, run.output_offset, run.remaining), (2500, 5000, 0));
    assert!(!ResampleRun::start(10).advance(0, 5));
    assert_eq!(ResampleRun::output_room(100, 44_100, 48_000, 7), 116);
}

#[test]
fn clicks_come_on_every_beat() {
    let tone = |i: usize, accented: bool| if accented { 1000 + i as i32 } else { 2000 + i as i32 };
    let c = generate_click_track("120", 500, FLICKS * 3, 1000, &tone);
    assert_eq!(c.name, "Click — 120 BPM");
    assert_eq!(c.samples.len(), 3000);
    assert_eq!(c.samples[0], 1000);
    assert_eq!(c.samples[14], 1014);
    assert_eq!(c.samples[15], SILENCE);
    assert_eq!(c.samples[500], 2000);
    assert_eq!(c.samples[1999], SILENCE);
    assert_eq!(c.samples[2000], 1000);
    assert_eq!(c.mono, c.samples);
    assert_eq!((c.channels, c.sample_rate, c.offset_secs), (1, 1000, 0));
}

#[test]
fn a_fast_beat_cuts_the_click_before_it() {
    let tone = |i: usize, _: bool| i as i32 + 1;
    let c = generate_click_track("9999", 4, FLICKS / 100, 1000, &tone);
    assert_eq!(c.samples, vec![1, 2, 3, 4, 1, 2, 3, 4, 1, 2]);
}
