use audio_editor::app::{App, Effects, SelectionEdge};
use audio_editor::audio::Clip;
use audio_editor::pointer::{CursorShape, MIN_VIEW};
use audio_editor::sample::UNITY;
use audio_editor::time::FLICKS;
use audio_editor::track::Track;

/// A clip of `tenths` tenths of a second that starts `at` tenths into the timeline.
fn clip(name: &str, at: i64, tenths: usize) -> Clip {
    let samples: Vec<i32> = (0..tenths as i32 * 10).collect();
    Clip {
        name: name.to_string(),
        mono: samples.clone(),
        summary: Clip::build_summary(&samples),
        samples,
        sample_rate: 100,
        channels: 1,
        offset_secs: at * FLICKS / 10,
        gain: UNITY,
        source_path: None,
    }
}

fn tenths(n: i64) -> i64 {
    n * FLICKS / 10
}

fn px(x: i32) -> i32 {
    x * 256
}

/// A window whose content is 1000 pixels wide and shows 100 tenths of a second: ten pixels for
/// each tenth, after a label column of 36 pixels. Each of its lanes is 300 pixels high.
fn app(lanes: Vec<Vec<Clip>>) -> App {
    let mut app = App::new();
    app.resize(1036, 300 * lanes.len() as u32);
    app.tracks = lanes.into_iter().map(Track::with_clips).collect();
    app.view_duration = tenths(100);
    app
}

fn at(tenth: i64) -> i32 {
    px(36 + 10 * tenth as i32)
}

fn offsets(app: &App, t: usize) -> Vec<(String, i64)> {
    app.tracks[t].clips.iter().map(|c| (c.name.clone(), c.offset_secs)).collect()
}

/// How far a drag by `dx` pixels moves a clip, in a window of 1036 pixels.
fn moved(dx: i64) -> i64 {
    dx * tenths(100) / 1036
}

fn point(app: &mut App, x: i32, y: i32) {
    app.cursor_x = x;
    app.cursor_y = y;
}

#[test]
fn pixels_and_times_belong_together() {
    let app = app(vec![vec![clip("a", 10, 20)]]);
    assert_eq!(app.sidebar_width_px(), 36 * 256);
    assert_eq!(app.content_width(), 1000 * 256);
    assert_eq!(app.px_to_secs(at(0)), 0);
    assert_eq!(app.px_to_secs(at(25)), tenths(25));
    assert_eq!(app.px_to_secs(px(3)), 0);
    assert_eq!(app.secs_to_px(tenths(25)), Some(at(25) as i128));
    assert_eq!(app.secs_to_px(-1), Some(at(0) as i128 - 1));
    assert_eq!(App::new().secs_to_px(5), None);
}

#[test]
fn clips_are_hit() {
    let app = app(vec![vec![clip("a", 10, 20)], vec![clip("b", 0, 5), clip("c", 5, 5)]]);
    assert_eq!(app.hit_test_clip(at(15), px(100)), Some((0, 0)));
    assert_eq!(app.hit_test_clip(at(10), px(299)), Some((0, 0)));
    assert_eq!(app.hit_test_clip(at(30), px(299)), Some((0, 0)));
    assert_eq!(app.hit_test_clip(at(31), px(100)), None);
    assert_eq!(app.hit_test_clip(at(5), px(300)), Some((1, 0)));
    assert_eq!(app.hit_test_clip(at(6), px(450)), Some((1, 1)));
    assert_eq!(app.hit_test_clip(at(6), px(600)), None);
    assert_eq!(app.hit_test_clip(px(35), px(450)), None);
    assert_eq!(app.hit_test_title_bar(at(15), px(27)), Some((0, 0)));
    assert_eq!(app.hit_test_title_bar(at(15), px(28)), None);
    assert_eq!(app.hit_test_title_bar(at(6), px(327)), Some((1, 1)));
    assert_eq!(app.hit_test_title_bar(at(6), px(328)), None);
}

#[test]
fn the_nearer_edge_of_the_selection_is_hit() {
    let mut app = app(vec![vec![clip("a", 0, 100)]]);
    assert_eq!(app.hit_test_selection_edge(at(10)), None);
    app.selection = Some((tenths(10), tenths(11)));
    assert_eq!(app.hit_test_selection_edge(at(10) - px(6)), Some(SelectionEdge::Left));
    assert_eq!(app.hit_test_selection_edge(at(10) - px(7)), None);
    assert_eq!(app.hit_test_selection_edge(at(10) + px(5)), Some(SelectionEdge::Left));
    assert_eq!(app.hit_test_selection_edge(at(10) + px(6)), Some(SelectionEdge::Right));
    assert_eq!(app.hit_test_selection_edge(at(11) + px(6)), Some(SelectionEdge::Right));
}

#[test]
fn overlapping_clips_are_found() {
    let app = app(vec![vec![clip("a", 0, 10), clip("b", 10, 10), clip("c", 30, 10)]]);
    assert_eq!(app.clips_overlapping_range(0, tenths(5), tenths(11)), vec![0, 1]);
    assert_eq!(app.clips_overlapping_range(0, tenths(10), tenths(20)), vec![1]);
    assert_eq!(app.clips_overlapping_range(0, tenths(20), tenths(30)), Vec::<usize>::new());
    assert_eq!(app.clips_overlapping_range(4, 0, tenths(99)), Vec::<usize>::new());
}

#[test]
fn a_removed_region_is_gone_and_the_rest_is_kept() {
    let mut app = app(vec![vec![clip("a", 0, 10), clip("b", 10, 10), clip("c", 30, 10)]]);
    app.remove_region_from_track(0, tenths(5), tenths(35));
    assert!(app.clips_overlapping_range(0, tenths(5), tenths(35)).is_empty());
    let left = offsets(&app, 0);
    assert_eq!(left, vec![("a".to_string(), 0), ("c".to_string(), tenths(35))]);
    app.remove_region_from_track(9, 0, tenths(99));
    assert_eq!(offsets(&app, 0), left);
}

#[test]
fn offsets_snap_to_edges_in_reach() {
    let app = app(vec![vec![clip("a", 0, 10), clip("b", 50, 10)]]);
    let near = tenths(1) / 2;
    assert_eq!(app.snap_offset(0, 1, tenths(10) + near, tenths(10)), tenths(10));
    assert_eq!(app.snap_offset(0, 1, tenths(20), tenths(10)), tenths(20));
    assert_eq!(app.snap_offset(0, 1, near, tenths(10)), 0);
    assert_eq!(app.snap_offset(0, 1, near, tenths(8)), 0);
    assert_eq!(app.snap_offset(0, 0, tenths(40) - near, tenths(10)), tenths(40));
    assert_eq!(app.snap_offset_group(0, &[1], tenths(10) - near, tenths(10) as i128), tenths(10));
    assert_eq!(app.snap_offset_group(0, &[1], near, tenths(10) as i128), near);
    assert_eq!(app.snap_offset_group(0, &[0], tenths(30) + near, tenths(20) as i128), tenths(30));
    assert_eq!(app.snap_to_clip_edges(0, tenths(60) - near), tenths(60));
    assert_eq!(app.snap_to_clip_edges(0, tenths(30)), tenths(30));
    assert_eq!(app.snap_to_clip_edges(7, tenths(60) - near), tenths(60) - near);
    assert_eq!(App::new().snap_offset(0, 0, 77, 5), 77);
}

#[test]
fn offsets_are_clamped_to_the_nearest_gap() {
    let app = app(vec![vec![clip("a", 10, 10), clip("b", 40, 10), clip("x", 90, 5)]]);
    let clamp = |d: i64, len: i64| app.clamp_no_overlap(0, 2, tenths(d), tenths(len));
    assert_eq!(clamp(25, 10), tenths(25));
    assert_eq!(clamp(12, 10), tenths(20));
    assert_eq!(clamp(12, 5), tenths(5));
    assert_eq!(clamp(33, 10), tenths(30));
    assert_eq!(clamp(30, 20), tenths(20));
    assert_eq!(clamp(38, 20), tenths(50));
    assert_eq!(clamp(30, 21), tenths(50));
    assert_eq!(clamp(-3, 10), 0);
    assert_eq!(clamp(12, 20), tenths(20));
    assert_eq!(clamp(60, 10), tenths(60));
}

#[test]
fn of_equally_near_gaps_the_earlier_is_taken() {
    let app = app(vec![vec![clip("a", 10, 10), clip("x", 90, 5)]]);
    assert_eq!(app.clamp_no_overlap(0, 1, tenths(12), tenths(6)), tenths(4));
    let empty = app.clamp_no_overlap(0, 0, tenths(-4), tenths(6));
    assert_eq!(empty, 0);
}

#[test]
fn overlapping_neighbours_leave_no_gap_between_them() {
    let app = app(vec![vec![clip("long", 10, 50), clip("short", 20, 5), clip("x", 90, 5)]]);
    assert_eq!(app.clamp_no_overlap(0, 2, tenths(40), tenths(5)), tenths(60));
}

#[test]
fn groups_move_up_to_the_next_clip() {
    let app = app(vec![vec![clip("a", 0, 10), clip("b", 20, 10), clip("c", 50, 10)]]);
    let clamp = |left: i64| {
        app.clamp_group_no_overlap(0, &[0, 1], &[0, tenths(20)], tenths(left), 0)
    };
    assert_eq!(clamp(5), tenths(5));
    assert_eq!(clamp(25), tenths(20));
    assert_eq!(clamp(-5), 0);
    let all = app.clamp_group_no_overlap(
        0,
        &[0, 1, 2],
        &[0, tenths(20), tenths(50)],
        tenths(7),
        0,
    );
    assert_eq!(all, tenths(7));
}

#[test]
fn a_group_that_is_held_back_is_looked_at_again() {
    let app = app(vec![vec![
        clip("g0", 0, 10),
        clip("g1", 30, 10),
        clip("near", 15, 5),
        clip("far", 60, 10),
    ]]);
    let left = app.clamp_group_no_overlap(0, &[0, 1], &[0, tenths(30)], tenths(25), 0);
    for (offset, other) in [(0, 15), (30, 15), (0, 60), (30, 60)] {
        let start = tenths(offset) + left;
        let len = if other == 15 { 5 } else { 10 };
        let overlap = start < tenths(other + len) && start + tenths(10) > tenths(other);
        assert!(!overlap);
    }
    assert!(left >= 0 && left <= tenths(25));
}

#[test]
fn a_press_on_a_lane_begins_a_selection() {
    let mut app = app(vec![vec![clip("a", 10, 20)], vec![clip("b", 0, 5)]]);
    point(&mut app, at(15), px(100));
    assert!(app.can_press());
    assert_eq!(app.press(), Some(tenths(15)));
    assert_eq!(app.selection, Some((tenths(15), tenths(15))));
    assert_eq!((app.selected_track, app.selected_clip), (Some(0), Some(0)));
    let (shape, effects) = app.cursor_moved(at(25), px(110));
    assert_eq!((shape, effects), (CursorShape::EwResize, Effects::Redraw));
    assert_eq!(app.selection, Some((tenths(15), tenths(25))));
    app.cursor_moved(at(5), px(110));
    assert_eq!(app.release(), Effects::Redraw);
    assert_eq!(app.selection, Some((tenths(5), tenths(15))));
    assert_eq!(app.multi_selected_clips, vec![0]);
    assert!(!app.selecting);
}

#[test]
fn a_click_selects_no_stretch() {
    let mut app = app(vec![vec![clip("a", 10, 20)], vec![clip("b", 0, 5)]]);
    point(&mut app, at(50), px(700));
    app.press();
    assert_eq!((app.selected_track, app.selected_clip), (Some(1), None));
    app.cursor_moved(at(50) + px(3), px(700));
    assert_eq!(app.release(), Effects::Redraw);
    assert_eq!(app.selection, None);
    assert_eq!(app.release(), Effects::Nothing);
}

#[test]
fn an_edge_of_the_selection_is_dragged() {
    let mut app = app(vec![vec![clip("a", 10, 20)]]);
    app.selection = Some((tenths(40), tenths(60)));
    point(&mut app, at(40), px(100));
    assert_eq!(app.press(), None);
    assert_eq!(app.selecting_edge, Some(SelectionEdge::Left));
    app.cursor_moved(at(35), px(100));
    app.release();
    assert_eq!(app.selection, Some((tenths(35), tenths(60))));
}

#[test]
fn a_clip_is_dragged_and_the_drag_taken_back() {
    let mut app = app(vec![vec![clip("a", 10, 20), clip("b", 60, 10)]]);
    let before = offsets(&app, 0);
    point(&mut app, at(15), px(10));
    assert_eq!(app.press(), None);
    assert_eq!(app.cursor_moved(at(15) + px(3), px(10)), (CursorShape::Grab, Effects::Nothing));
    assert!(!app.is_dragging());
    assert!(app.can_drag(0, 0));
    assert_eq!(app.cursor_moved(at(30), px(10)).0, CursorShape::Grabbing);
    assert_eq!(app.tracks[0].clips[0].offset_secs, tenths(10) + moved(150));
    app.cursor_moved(at(50), px(10));
    assert_eq!(app.tracks[0].clips[0].offset_secs, tenths(40));
    assert!(app.can_drop());
    assert_eq!(app.release(), Effects::Refresh);
    assert!(app.undo_manager.is_dirty());
    assert_eq!((app.selected_track, app.selected_clip), (Some(0), Some(0)));
    app.perform_undo();
    assert_eq!(offsets(&app, 0), before);
    app.perform_redo();
    assert_eq!(app.tracks[0].clips[0].offset_secs, tenths(40));
}

#[test]
fn a_drag_back_to_the_start_is_not_recorded() {
    let mut app = app(vec![vec![clip("a", 10, 20)]]);
    point(&mut app, at(15), px(10));
    app.press();
    app.cursor_moved(at(30), px(10));
    app.cursor_moved(at(15), px(10));
    assert_eq!(app.release(), Effects::Refresh);
    assert!(!app.undo_manager.is_dirty());
    assert_eq!(offsets(&app, 0), vec![("a".to_string(), tenths(10))]);
}

#[test]
fn a_clip_is_dragged_to_another_track() {
    let mut app = app(vec![vec![clip("a", 10, 20)], vec![clip("b", 0, 20)], vec![clip("c", 0, 1)]]);
    point(&mut app, at(15), px(10));
    app.press();
    app.cursor_moved(at(15), px(350));
    assert_eq!((app.selected_track, app.selected_clip), (Some(1), Some(1)));
    assert!(app.tracks[0].clips.is_empty());
    assert_eq!(app.tracks[1].clips[1].offset_secs, tenths(20));
    app.release();
    assert_eq!(app.tracks.len(), 2);
    assert_eq!((app.selected_track, app.selected_clip), (Some(0), Some(1)));
    assert!(app.can_undo());
    app.perform_undo();
    assert_eq!(app.tracks.len(), 3);
    assert_eq!(offsets(&app, 0), vec![("a".to_string(), tenths(10))]);
    assert_eq!(offsets(&app, 1), vec![("b".to_string(), 0)]);
    app.perform_redo();
    assert_eq!(app.tracks.len(), 2);
    assert_eq!(
        offsets(&app, 0),
        vec![("b".to_string(), 0), ("a".to_string(), tenths(20))]
    );
    app.perform_undo();
    assert_eq!(offsets(&app, 0), vec![("a".to_string(), tenths(10))]);
}

/// The mute switch and the gain of each track.
fn switches(app: &App) -> Vec<(bool, i32)> {
    app.tracks.iter().map(|t| (t.muted, t.gain)).collect()
}

#[test]
fn undo_of_a_drag_into_an_empty_track_keeps_the_track() {
    let mut app = app(vec![vec![clip("a", 10, 20), clip("b", 50, 10)], vec![]]);
    app.tracks[1].muted = true;
    app.tracks[1].gain = 7;
    let before = switches(&app);
    point(&mut app, at(15), px(10));
    app.press();
    app.cursor_moved(at(15), px(350));
    app.release();
    assert_eq!(app.tracks.len(), 2);
    app.perform_undo();
    assert_eq!(offsets(&app, 0), vec![("a".to_string(), tenths(10)), ("b".to_string(), tenths(50))]);
    assert_eq!(offsets(&app, 1), vec![]);
    assert_eq!(switches(&app), before);
    app.perform_redo();
    assert_eq!(offsets(&app, 0), vec![("b".to_string(), tenths(50))]);
    assert_eq!(offsets(&app, 1), vec![("a".to_string(), tenths(10))]);
    assert_eq!(switches(&app), before);
    app.perform_undo();
    assert_eq!(offsets(&app, 1), vec![]);
    assert_eq!(switches(&app), before);
}

#[test]
fn a_new_track_can_be_undone_after_a_drag_into_it() {
    let mut app = app(vec![vec![clip("a", 10, 20), clip("b", 50, 10)]]);
    app.selected_track = Some(0);
    app.new_track();
    app.resize(1036, 600);
    app.view_duration = tenths(100);
    point(&mut app, at(15), px(10));
    app.press();
    app.cursor_moved(at(15), px(350));
    app.release();
    assert_eq!(offsets(&app, 1), vec![("a".to_string(), tenths(10))]);
    app.perform_undo();
    assert!(app.can_undo());
    app.perform_undo();
    assert_eq!(app.tracks.len(), 1);
    assert_eq!(offsets(&app, 0), vec![("a".to_string(), tenths(10)), ("b".to_string(), tenths(50))]);
}

#[test]
fn a_track_that_a_drag_empties_comes_back_as_it_was() {
    let mut app = app(vec![vec![clip("a", 10, 20)], vec![clip("b", 60, 20)]]);
    app.tracks[0].muted = true;
    app.tracks[0].gain = 9;
    let before = switches(&app);
    point(&mut app, at(15), px(10));
    app.press();
    app.cursor_moved(at(15), px(350));
    app.release();
    assert_eq!(app.tracks.len(), 1);
    app.perform_undo();
    assert_eq!(switches(&app), before);
    app.perform_redo();
    assert_eq!(switches(&app), before[1..].to_vec());
    app.perform_undo();
    assert_eq!(switches(&app), before);
    assert_eq!(offsets(&app, 0), vec![("a".to_string(), tenths(10))]);
}

#[test]
fn a_clip_that_comes_back_at_another_index_is_recorded() {
    let mut app = app(vec![vec![clip("a", 10, 20), clip("b", 50, 10)], vec![clip("c", 80, 5)]]);
    let before = offsets(&app, 0);
    point(&mut app, at(15), px(10));
    app.press();
    app.cursor_moved(at(15), px(350));
    app.cursor_moved(at(15), px(10));
    app.release();
    assert_eq!(offsets(&app, 0), vec![("b".to_string(), tenths(50)), ("a".to_string(), tenths(10))]);
    assert!(app.undo_manager.is_dirty());
    app.perform_undo();
    assert_eq!(offsets(&app, 0), before);
}

#[test]
fn pixels_come_back() {
    let app = app(vec![vec![]]);
    for x in [36 * 256, 36 * 256 + 1, 100_003, 264_191] {
        assert_eq!(app.secs_to_px(app.px_to_secs(x)), Some(x as i128));
    }
    for t in [0, 1, 12_345, tenths(37), tenths(100) - 1] {
        let x = app.secs_to_px(t).unwrap() as i32;
        let back = app.px_to_secs(x);
        assert!(back <= t && (t - back) * 256_000 < tenths(100));
    }
    assert_eq!(app.secs_to_px(app.view_start), Some(36 * 256));
}

#[test]
fn a_group_is_dragged_and_the_drag_taken_back() {
    let mut app = app(vec![vec![clip("a", 10, 10), clip("b", 25, 10), clip("c", 60, 10)]]);
    let before = offsets(&app, 0);
    app.selected_track = Some(0);
    app.multi_selected_clips = vec![0, 1];
    point(&mut app, at(28), px(10));
    assert!(app.can_press());
    app.press();
    app.cursor_moved(at(28) + px(153), px(10));
    assert_eq!(app.tracks[0].clips[0].offset_secs, tenths(10) + moved(153));
    assert_eq!(app.tracks[0].clips[1].offset_secs, tenths(25) + moved(153));
    app.cursor_moved(at(60), px(10));
    assert_eq!(app.tracks[0].clips[0].offset_secs, tenths(35));
    assert_eq!(app.tracks[0].clips[1].offset_secs, tenths(50));
    assert_eq!(app.tracks[0].clips[2].offset_secs, tenths(60));
    assert_eq!(app.release(), Effects::Refresh);
    app.perform_undo();
    assert_eq!(offsets(&app, 0), before);
    app.perform_redo();
    assert_eq!(app.tracks[0].clips[1].offset_secs, tenths(50));
}

#[test]
fn a_click_on_a_group_collapses_it() {
    let mut app = app(vec![vec![clip("a", 10, 10), clip("b", 25, 10)]]);
    app.selected_track = Some(0);
    app.multi_selected_clips = vec![0, 1];
    point(&mut app, at(28), px(10));
    app.press();
    assert_eq!(app.release(), Effects::Redraw);
    assert!(app.multi_selected_clips.is_empty());
    assert_eq!((app.selected_track, app.selected_clip), (Some(0), Some(1)));
}

#[test]
fn command_clicks_gather_clips() {
    let mut app = app(vec![vec![clip("a", 10, 10), clip("b", 25, 10)], vec![clip("c", 0, 10)]]);
    app.super_key = true;
    point(&mut app, at(15), px(10));
    app.press();
    assert_eq!(app.multi_selected_clips, vec![0]);
    assert!(app.dragging.is_none());
    point(&mut app, at(28), px(10));
    app.press();
    assert_eq!(app.multi_selected_clips, vec![0, 1]);
    app.press();
    assert_eq!(app.multi_selected_clips, vec![0]);
    point(&mut app, at(5), px(310));
    app.press();
    assert_eq!(app.multi_selected_clips, vec![0]);
    assert_eq!(app.selected_track, Some(1));
}

#[test]
fn shift_clicks_gather_clips() {
    let mut app = app(vec![vec![clip("a", 10, 10), clip("b", 25, 10)]]);
    point(&mut app, at(15), px(10));
    app.press();
    app.release();
    app.shift_key = true;
    point(&mut app, at(28), px(10));
    app.press();
    assert_eq!(app.multi_selected_clips, vec![1, 0]);
    assert!(app.dragging.is_none());
}

#[test]
fn a_stale_group_is_found_out() {
    let mut app = app(vec![vec![clip("a", 10, 10)]]);
    app.selected_track = Some(0);
    app.multi_selected_clips = vec![0, 7];
    point(&mut app, at(15), px(10));
    assert!(!app.can_press());
    app.super_key = true;
    assert!(app.can_press());
    app.super_key = false;
    app.multi_selected_clips = vec![7];
    assert!(app.can_press());
}

#[test]
fn the_wheel_scrolls_within_the_timeline() {
    let mut app = app(vec![vec![clip("a", 0, 200)]]);
    app.resize(1000, 300);
    assert_eq!(app.pan(px(-10), 0), Effects::Redraw);
    assert_eq!(app.view_start, tenths(1));
    assert_eq!(app.pan(px(10_000), 0), Effects::Redraw);
    assert_eq!(app.view_start, 0);
    app.pan(px(-10_000), 0);
    assert_eq!(app.view_start, tenths(100));
    assert_eq!(app.pan(0, px(10)), Effects::Nothing);
    app.shift_key = true;
    assert_eq!(app.pan(0, px(10)), Effects::Redraw);
    assert_eq!(app.view_start, tenths(99));
    assert_eq!(App::new().pan(5, 5), Effects::Nothing);
}

#[test]
fn zooming_keeps_what_is_at_the_pointer() {
    let mut app = app(vec![vec![clip("a", 0, 200)]]);
    app.resize(1000, 300);
    point(&mut app, px(500), 0);
    assert_eq!(app.zoom_wheel(px(200)), Effects::Redraw);
    assert_eq!(app.view_duration, tenths(50));
    assert_eq!(app.view_start, tenths(25));
    assert_eq!(app.pinch(-500_000), Effects::Redraw);
    assert_eq!((app.view_start, app.view_duration), (0, tenths(100)));
    app.pinch(-2_000_000);
    assert_eq!(app.view_duration, MIN_VIEW);
    app.pinch(-1_000_000);
    assert_eq!((app.view_start, app.view_duration), (0, tenths(200)));
    app.zoom_wheel(px(7_000_000));
    assert_eq!(app.view_duration, MIN_VIEW);
    assert_eq!(App::new().pinch(5), Effects::Nothing);
}

#[test]
fn the_window_is_never_empty() {
    let mut app = App::new();
    app.resize(0, 0);
    assert_eq!((app.config.unwrap().width, app.config.unwrap().height), (1, 1));
}
