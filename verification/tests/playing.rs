use audio_editor::app::App;
use audio_editor::audio::Clip;
use audio_editor::guards::player_fits;
use audio_editor::mix::mix_down;
use audio_editor::playback::{play_frames, PlaybackState, Player};
use audio_editor::sample::{SILENCE, UNITY};
use audio_editor::scene::{track_label, TitleStyle};
use audio_editor::time::{time_for, FLICKS};
use audio_editor::track::Track;

fn plus(a: i32, b: i32) -> i32 {
    a + b
}

/// Gains are whole factors here, with `UNITY` for one.
fn times(s: i32, g: i32) -> i32 {
    if g == UNITY {
        s
    } else if s == UNITY {
        g
    } else {
        s * g
    }
}

fn clip(samples: Vec<i32>, channels: u32, at: i64) -> Clip {
    let mono: Vec<i32> = samples.chunks_exact(channels as usize).map(|c| c[0]).collect();
    Clip {
        name: "clip".to_string(),
        summary: Clip::build_summary(&mono),
        mono,
        samples,
        sample_rate: 10,
        channels,
        offset_secs: at * FLICKS / 10,
        gain: UNITY,
        source_path: None,
    }
}

fn state(playing: bool, frame_pos: u64, total_frames: u64, end_frame: u64) -> PlaybackState {
    PlaybackState { playing, frame_pos, total_frames, end_frame }
}

fn player(frames: usize) -> Player {
    let tracks = vec![Track::with_clips(vec![clip((1..=frames as i32).collect(), 1, 0)])];
    Player::new(&tracks, &plus, &times).unwrap()
}

#[test]
fn tracks_are_mixed_to_stereo() {
    let mut muted = Track::with_clips(vec![clip(vec![500; 9], 1, 0)]);
    muted.muted = true;
    let tracks = vec![
        Track::with_clips(vec![clip(vec![1, 2, 3], 1, 0), clip(vec![10, 20, 30, 40], 2, 2)]),
        muted,
    ];
    let mix = mix_down(&tracks, 10, 5, &plus, &times);
    assert_eq!(mix, vec![1, 1, 2, 2, 13, 23, 30, 40, 0, 0]);
    let p = Player::new(&tracks, &plus, &times).unwrap();
    assert_eq!(p.state, state(false, 0, 9, 0));
    assert_eq!(p.sample_rate, 10);
    assert_eq!(&p.mixed[..10], &mix[..]);
}

#[test]
fn gains_are_applied_in_playback_and_export() {
    let mut c = clip(vec![1, 2], 1, 0);
    c.gain = 3;
    let mut t = Track::with_clips(vec![c]);
    t.gain = 5;
    let p = Player::new(&vec![t.clone()], &plus, &times).unwrap();
    assert_eq!(p.mixed, vec![15, 15, 30, 30]);
    let mut app = App::new();
    app.project_rate = 10;
    app.tracks = vec![t];
    assert_eq!(app.export_mix(&plus, &times), Some(vec![15, 15, 30, 30]));
}

#[test]
fn an_export_holds_the_last_part_of_a_frame() {
    let mut app = App::new();
    app.project_rate = 10;
    assert_eq!(app.export_mix(&plus, &times), None);
    let mut c = clip(vec![7, 8], 1, 0);
    c.offset_secs = FLICKS / 20;
    app.tracks = vec![Track::with_clips(vec![c])];
    assert_eq!(app.export_mix(&plus, &times), Some(vec![7, 7, 8, 8, 0, 0]));
}

#[test]
fn there_is_no_player_without_frames() {
    assert!(Player::new(&vec![], &plus, &times).is_none());
    assert!(Player::new(&vec![Track::with_clips(vec![])], &plus, &times).is_none());
    let empty = vec![Track::with_clips(vec![clip(vec![], 1, 0)])];
    assert!(Player::new(&empty, &plus, &times).is_none());
}

#[test]
fn the_player_seeks() {
    let mut p = player(100);
    p.seek_frac(1, 4);
    assert_eq!(p.state.frame_pos, 25);
    p.seek_frac(9, 4);
    assert_eq!(p.state.frame_pos, 100);
    p.seek_frac(-1, 4);
    assert_eq!(p.position_frac(), (0, 100));
    p.seek_to_secs(5 * FLICKS, 10 * FLICKS);
    assert_eq!(p.state.frame_pos, 50);
    p.seek_to_secs(1, 0);
    assert_eq!(p.state.frame_pos, 50);
    p.set_end_secs(6 * FLICKS, 10 * FLICKS);
    assert_eq!(p.state.end_frame, 60);
    p.set_end_secs(0, 10 * FLICKS);
    assert_eq!(p.state.end_frame, 0);
}

#[test]
fn play_and_pause() {
    let mut p = player(10);
    p.toggle();
    assert!(p.is_playing());
    p.state.end_frame = 4;
    p.toggle();
    assert_eq!(p.state, state(false, 0, 10, 0));
    p.state.frame_pos = 10;
    p.toggle();
    assert_eq!(p.state, state(true, 0, 10, 0));
    p.toggle();
    p.state.frame_pos = 5;
    p.state.end_frame = 5;
    p.toggle();
    assert_eq!(p.state, state(true, 0, 10, 5));
}

#[test]
fn the_space_bar_plays_the_selection() {
    let mut p = player(100);
    p.press_space(Some((2 * FLICKS, 4 * FLICKS)), 10 * FLICKS);
    assert_eq!(p.state, state(true, 20, 100, 40));
    p.press_space(Some((2 * FLICKS, 4 * FLICKS)), 10 * FLICKS);
    assert_eq!(p.state, state(false, 20, 100, 0));
    p.press_space(None, 10 * FLICKS);
    assert_eq!(p.state, state(true, 20, 100, 0));
}

#[test]
fn arrow_keys_move_the_playhead() {
    let mut p = player(100);
    p.nudge(true, false, 10 * FLICKS, 10 * FLICKS);
    assert_eq!(p.state.frame_pos, 5);
    p.nudge(true, true, 10 * FLICKS, 10 * FLICKS);
    assert_eq!(p.state.frame_pos, 6);
    p.nudge(false, false, 10 * FLICKS, 10 * FLICKS);
    p.nudge(false, false, 10 * FLICKS, 10 * FLICKS);
    assert_eq!(p.state.frame_pos, 0);
    p.seek_frac(1, 1);
    p.nudge(true, false, 10 * FLICKS, 10 * FLICKS);
    assert_eq!(p.state.frame_pos, 100);
    p.nudge(false, false, 10 * FLICKS, 0);
    assert_eq!(p.state.frame_pos, 100);
}

#[test]
fn a_new_player_plays_on() {
    let mut p = player(100);
    p.resume(state(true, 30, 60, 50));
    assert_eq!(p.state, state(true, 50, 100, 0));
    let mut q = player(100);
    q.resume(state(false, 33, 100, 0));
    assert_eq!(q.state, state(false, 33, 100, 0));
    q.resume(state(false, 0, 0, 0));
    assert_eq!(q.state.frame_pos, 0);
}

#[test]
fn frames_are_played_until_the_end() {
    let p = player(3);
    let (out, s) = play_frames(state(true, 1, 3, 0), &p.mixed, 2);
    assert_eq!(out, vec![2, 2, 3, 3]);
    assert_eq!(s, state(true, 3, 3, 0));
    let (out, s) = play_frames(s, &p.mixed, 1);
    assert_eq!(out, vec![SILENCE, SILENCE]);
    assert_eq!(s, state(false, 3, 3, 0));
    let (out, s) = play_frames(state(true, 0, 3, 1), &p.mixed, 2);
    assert_eq!(out, vec![1, 1, 0, 0]);
    assert_eq!(s, state(false, 1, 3, 1));
    let (out, s) = play_frames(state(false, 1, 3, 0), &p.mixed, 1);
    assert_eq!(out, vec![0, 0]);
    assert_eq!(s, state(false, 1, 3, 0));
}

#[test]
fn chunks_do_not_matter() {
    let p = player(7);
    let whole = play_frames(state(true, 1, 7, 5), &p.mixed, 6);
    let first = play_frames(state(true, 1, 7, 5), &p.mixed, 4);
    let second = play_frames(first.1, &p.mixed, 2);
    assert_eq!([first.0, second.0].concat(), whole.0);
    assert_eq!(second.1, whole.1);
}

#[test]
fn the_playhead_is_a_fraction_of_the_project() {
    let mut app = App::new();
    app.tracks = vec![Track::with_clips(vec![clip(vec![0; 100], 1, 0)])];
    assert_eq!(app.playhead_secs(None), 0);
    assert_eq!(app.playhead_secs(Some(state(false, 25, 100, 0))), 10 * FLICKS / 4);
    assert_eq!(app.playhead_secs(Some(state(false, 0, 0, 0))), 0);
}

#[test]
fn visible_clips_are_drawn() {
    let mut app = App::new();
    app.resize(100, 100);
    app.tracks = vec![Track::with_clips(vec![
        clip((0..50).collect(), 1, 0),
        clip((0..50).map(|x| -x).collect(), 1, 60),
        clip(vec![1; 10], 1, 200),
    ])];
    app.view_start = FLICKS;
    app.view_duration = 10 * FLICKS;
    app.selected_track = Some(0);
    app.selected_clip = Some(1);
    app.selection = Some((4 * FLICKS, 3 * FLICKS));
    let lane = app.lane_pictures(0, 20);
    assert_eq!(lane.len(), 2);
    assert_eq!((lane[0].clip_idx, lane[0].style), (0, TitleStyle::InGroup));
    assert_eq!((lane[0].from, lane[0].to), (0, 4 * FLICKS));
    assert_eq!(lane[0].columns.len(), 8);
    let c = lane[0].columns[0];
    assert_eq!((c.col, c.least, c.greatest), (0, 0, 14));
    let c = lane[0].columns[7];
    assert_eq!((c.col, c.least, c.greatest), (7, 0, 49));
    assert_eq!((lane[1].clip_idx, lane[1].style), (1, TitleStyle::Selected));
    assert_eq!((lane[1].from, lane[1].to), (5 * FLICKS, 10 * FLICKS));
    let c = lane[1].columns[9];
    assert_eq!((c.col, c.least, c.greatest), (9, -49, 0));
    assert_eq!(app.shown_selection(), Some((2 * FLICKS as i128, 3 * FLICKS as i128)));
}

#[test]
fn a_magnified_clip_has_a_column_for_each_frame() {
    let mut app = App::new();
    app.tracks = vec![Track::with_clips(vec![clip(vec![5, 6, 7], 1, 0)])];
    let lane = app.lane_pictures(0, 90);
    let cols: Vec<(usize, i32)> = lane[0].columns.iter().map(|c| (c.col, c.greatest)).collect();
    assert_eq!(cols, vec![(0, 5), (1, 6), (2, 7)]);
    assert_eq!(lane[0].style, TitleStyle::Plain);
}

#[test]
fn selected_clips_are_marked() {
    let mut app = App::new();
    app.tracks = vec![Track::with_clips(vec![clip(vec![5; 9], 1, 0), clip(vec![5; 9], 1, 9)])];
    app.selected_track = Some(0);
    app.multi_selected_clips = vec![1];
    let lane = app.lane_pictures(0, 50);
    assert_eq!(lane[0].style, TitleStyle::Plain);
    assert_eq!(lane[1].style, TitleStyle::InGroup);
    assert_eq!(app.shown_selection(), None);
}

#[test]
fn the_scroll_bar_and_the_playhead() {
    let mut app = App::new();
    assert_eq!(app.scroll_thumb(), None);
    assert_eq!(app.shown_playhead(0), None);
    app.tracks = vec![Track::with_clips(vec![clip(vec![0; 100], 1, 0)])];
    app.view_start = FLICKS;
    app.view_duration = 2 * FLICKS;
    let f = FLICKS as i128;
    assert_eq!(app.scroll_thumb(), Some((f, 3 * f, 10 * f)));
    assert_eq!(app.shown_playhead(FLICKS), Some(0));
    assert_eq!(app.shown_playhead(3 * FLICKS), Some(2 * f));
    assert_eq!(app.shown_playhead(3 * FLICKS + 1), None);
    assert_eq!(app.shown_playhead(0), None);
    assert_eq!(track_label(0), "T1");
    assert_eq!(track_label(11), "T12");
}

#[test]
fn a_project_that_ends_on_a_frame_is_exported_with_its_frames() {
    let mut app = App::new();
    app.project_rate = 384_000;
    let mut c = clip(vec![7], 1, 0);
    c.sample_rate = 384_000;
    app.tracks = vec![Track::with_clips(vec![c.clone()])];
    assert_eq!(app.export_mix(&plus, &times).unwrap().len(), 2);
    assert_eq!(FLICKS * 2 / 384_000 * 384_000, FLICKS * 2);
    c.offset_secs = FLICKS * 2 / 384_000;
    app.tracks[0].clips.push(c);
    assert_eq!(app.export_mix(&plus, &times).unwrap().len(), 6);
    app.project_rate = 0;
    assert_eq!(app.export_mix(&plus, &times), Some(vec![]));
}

#[test]
fn an_export_covers_a_clip_that_starts_between_frames() {
    let mut app = App::new();
    app.project_rate = 48_000;
    let mut c = clip(vec![7], 1, 0);
    c.sample_rate = 48_000;
    c.offset_secs = 1;
    app.tracks = vec![Track::with_clips(vec![c.clone()])];
    assert!(app.export_fits());
    assert_eq!(app.export_mix(&plus, &times).unwrap().len(), 4);
    c.offset_secs = 1 - FLICKS / 48_000;
    app.tracks = vec![Track::with_clips(vec![c.clone()])];
    assert_eq!(app.max_duration(), 1);
    assert_eq!(app.export_mix(&plus, &times).unwrap().len(), 2);
    c.offset_secs = time_for(1, 384_000);
    c.sample_rate = 384_000;
    app.project_rate = 384_000;
    app.tracks = vec![Track::with_clips(vec![c])];
    assert_eq!(app.export_mix(&plus, &times).unwrap().len(), 6);
}

#[test]
fn a_player_counts_frames_without_rounding_the_length() {
    let mut first = clip(vec![1], 1, 0);
    first.sample_rate = 192_000;
    let mut longest = clip(vec![2; 377], 1, 0);
    longest.sample_rate = 44_056;
    let tracks = vec![Track::with_clips(vec![first, longest])];
    assert!(player_fits(&tracks));
    let p = Player::new(&tracks, &plus, &times).unwrap();
    assert_eq!(p.state.total_frames, 1642);
    assert_eq!(p.mixed.len(), 2 * 1642);
}

#[test]
fn a_mix_that_is_too_long_is_noticed() {
    let mut c = clip(vec![1], 1, 0);
    c.sample_rate = 1;
    c.offset_secs = i64::MAX - FLICKS;
    let mut app = App::new();
    app.project_rate = u32::MAX;
    app.tracks = vec![Track::with_clips(vec![clip(vec![1], 1, 0), c])];
    app.tracks[0].clips[0].sample_rate = u32::MAX;
    assert!(!app.export_fits());
    assert!(!player_fits(&app.tracks));
    app.tracks[0].clips[0].sample_rate = 0;
    app.project_rate = 10;
    assert!(!app.export_fits());
    assert!(player_fits(&app.tracks));
}

#[test]
fn an_arrow_key_steps_by_an_exact_share_of_the_view() {
    let mut p = player(100);
    p.state.frame_pos = 50;
    p.nudge(false, false, 294_010, 1_470_000);
    assert_eq!(p.state.frame_pos, 48);
    p.nudge(true, false, 294_010, 1_470_000);
    assert_eq!(p.state.frame_pos, 49);
    p.nudge(false, true, 1_470_001, 1_470_000);
    assert_eq!(p.state.frame_pos, 47);
    p.nudge(true, true, 1_469_999, 1_470_000);
    assert_eq!(p.state.frame_pos, 47);
}

#[test]
fn the_playhead_is_not_before_its_frame() {
    let mut c = clip(vec![1, 2, 3, 4], 1, 0);
    c.sample_rate = 37_800;
    let mut app = App::new();
    app.tracks = vec![Track::with_clips(vec![c])];
    app.selected_track = Some(0);
    app.selected_clip = Some(0);
    let p = Player::new(&app.tracks, &plus, &times).unwrap();
    assert_eq!(p.state.total_frames, 4);
    let at = app.playhead_secs(Some(state(false, 2, 4, 0)));
    assert_eq!(at, 37_334);
    app.split(at);
    let pieces: Vec<Vec<i32>> = app.tracks[0].clips.iter().map(|c| c.mono.clone()).collect();
    assert_eq!(pieces, vec![vec![1, 2], vec![3, 4]]);
}
