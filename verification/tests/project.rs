use audio_editor::audio::Clip;
use audio_editor::project::{audio_dir_name, hash_samples, load_project, save_project};
use audio_editor::sample::UNITY;
use audio_editor::text::number;
use audio_editor::time::FLICKS;
use audio_editor::track::Track;
use std::hash::{DefaultHasher, Hash, Hasher};

fn plus(a: i32, b: i32) -> i32 {
    a + b
}

fn over(a: i32, n: u32) -> i32 {
    a / n as i32
}

fn clip(name: &str, samples: Vec<i32>, channels: u32, at: i64) -> Clip {
    let mono = Clip::build_mono(&samples, channels, &plus, &over);
    Clip {
        name: name.to_string(),
        summary: Clip::build_summary(&mono),
        mono,
        samples,
        sample_rate: 10,
        channels,
        offset_secs: at * FLICKS / 10,
        gain: UNITY,
        source_path: Some(format!("/in/{}", name)),
    }
}

fn tracks() -> Vec<Track> {
    let mut tracks = vec![
        Track::with_clips(vec![clip("a", vec![1, 2, 3], 1, 0), clip("b", vec![4, 6], 2, 9)]),
        Track::with_clips(vec![]),
        Track::with_clips(vec![clip("c", vec![1, 2, 3], 1, 4), clip("d", vec![], 1, 0)]),
    ];
    tracks[0].clips[1].gain = 5;
    tracks[1].muted = true;
    tracks[2].gain = 6;
    tracks
}

#[test]
fn the_audio_directory_is_named_after_the_project() {
    assert_eq!(audio_dir_name(Some("song")), "song_audio");
    assert_eq!(audio_dir_name(None), "project_audio");
}

#[test]
fn numbers_are_written_in_decimal() {
    for n in [0u64, 7, 10, 99, 100, 12_345, u64::MAX] {
        assert_eq!(number(n), n.to_string());
    }
}

#[test]
fn identical_samples_share_a_file() {
    let plan = save_project(Some("song"), &tracks(), 48_000);
    assert_eq!(plan.audio_dir, "song_audio");
    let wavs: Vec<(&str, usize, usize)> =
        plan.wavs.iter().map(|w| (w.path.as_str(), w.track_idx, w.clip_idx)).collect();
    assert_eq!(
        wavs,
        vec![("song_audio/0.wav", 0, 0), ("song_audio/1.wav", 0, 1), ("song_audio/2.wav", 2, 1)]
    );
    let p = &plan.project;
    assert_eq!(p.rate, 48_000);
    assert_eq!(p.tracks.iter().map(|t| t.clips.len()).collect::<Vec<_>>(), vec![2, 0, 2]);
    assert_eq!(p.tracks[0].clips[0].file, "song_audio/0.wav");
    assert_eq!(p.tracks[2].clips[0].file, "song_audio/0.wav");
    assert_eq!(p.tracks[2].clips[1].file, "song_audio/2.wav");
    let e = &p.tracks[0].clips[1];
    assert_eq!((e.name.as_str(), e.source.as_deref()), ("b", Some("/in/b")));
    assert_eq!((e.offset, e.sample_rate, e.channels), (9 * FLICKS / 10, 10, 2));
}

#[test]
fn what_is_loaded_is_what_was_saved() {
    let saved = tracks();
    let plan = save_project(None, &saved, 44_100);
    let audio: Vec<Vec<Vec<i32>>> = plan
        .project
        .tracks
        .iter()
        .map(|t| {
            t.clips
                .iter()
                .map(|e| {
                    let w = plan.wavs.iter().find(|w| w.path == e.file).unwrap();
                    saved[w.track_idx].clips[w.clip_idx].samples.clone()
                })
                .collect()
        })
        .collect();
    let (loaded, rate) = load_project(&plan.project, &audio, &plus, &over);
    assert_eq!(rate, 44_100);
    assert_eq!(loaded.len(), saved.len());
    for (l, s) in loaded.iter().zip(&saved) {
        assert_eq!(l.clips.len(), s.clips.len());
        assert_eq!((l.muted, l.gain), (s.muted, s.gain));
        for (c, d) in l.clips.iter().zip(&s.clips) {
            assert_eq!(c.name, d.name);
            assert_eq!(c.samples, d.samples);
            assert_eq!(c.mono, d.mono);
            assert_eq!(c.summary, d.summary);
            assert_eq!(c.source_path, d.source_path);
            assert_eq!(
                (c.sample_rate, c.channels, c.offset_secs, c.gain),
                (d.sample_rate, d.channels, d.offset_secs, d.gain)
            );
        }
    }
}

#[test]
fn samples_are_hashed_by_their_bytes() {
    let values = [0.0f32, 1.0, -1.0, -0.0, 0.25];
    let ranks: Vec<i32> = values
        .iter()
        .map(|x| {
            let b = x.to_bits();
            if b >> 31 == 0 {
                b as i32
            } else {
                -1 - (b & 0x7FFF_FFFF) as i32
            }
        })
        .collect();
    let mut hasher = DefaultHasher::new();
    let bytes: Vec<u8> = values.iter().flat_map(|x| x.to_le_bytes()).collect();
    bytes.as_slice().hash(&mut hasher);
    assert_eq!(hash_samples(&ranks), hasher.finish());
    assert_ne!(hash_samples(&[1]), hash_samples(&[2]));
    assert_ne!(hash_samples(&[]), hash_samples(&[0]));
}

#[test]
fn a_project_without_rates_is_loaded() {
    let mut saved = vec![Track::with_clips(vec![clip("a", vec![1, 2], 1, 0)])];
    saved[0].clips[0].sample_rate = 0;
    let plan = save_project(None, &saved, 0);
    let (loaded, rate) = load_project(&plan.project, &vec![vec![vec![1, 2]]], &plus, &over);
    assert_eq!((rate, loaded[0].clips[0].sample_rate), (0, 0));
    assert_eq!(loaded[0].clips[0].duration_secs(), i64::MAX);
}
