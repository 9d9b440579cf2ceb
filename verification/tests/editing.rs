use audio_editor::app::{App, Effects, PendingLoad, MAX_UNDO};
use audio_editor::audio::Clip;
use audio_editor::commands::{export_name, progress_title, DialogStep, FileTask};
use audio_editor::app::DeferredAction;
use audio_editor::keys::{command_for, Command, Key, Request};
use audio_editor::sample::UNITY;
use audio_editor::time::{time_for, FLICKS};
use audio_editor::track::Track;
use audio_editor::undo::{UndoAction, UndoManager};

/// A clip of `tenths` tenths of a second that starts `at` tenths into the timeline.
fn clip(name: &str, at: i64, tenths: usize) -> Clip {
    let samples: Vec<i32> = (0..tenths as i32 * 10).collect();
    Clip {
        name: name.to_string(),
        mono: samples.clone(),
        summary: Clip::build_summary(&samples),
        samples,
        sample_rate: 100,
        channels: 1,
        offset_secs: at * FLICKS / 10,
        gain: UNITY,
        source_path: None,
    }
}

fn tenths(n: i64) -> i64 {
    n * FLICKS / 10
}

fn app(lanes: Vec<Vec<Clip>>) -> App {
    let mut app = App::new();
    app.resize(1000, 600);
    app.tracks = lanes.into_iter().map(Track::with_clips).collect();
    app
}

/// The clips of each track by name, start and length in tenths of a second.
fn lanes(app: &App) -> Vec<Vec<(String, i64, i64)>> {
    app.tracks
        .iter()
        .map(|t| {
            t.clips
                .iter()
                .map(|c| {
                    (c.name.clone(), c.offset_secs * 10 / FLICKS, c.duration_secs() * 10 / FLICKS)
                })
                .collect()
        })
        .collect()
}

fn lane(clips: &[(&str, i64, i64)]) -> Vec<(String, i64, i64)> {
    clips.iter().map(|&(n, a, d)| (n.to_string(), a, d)).collect()
}

fn select(app: &mut App, t: usize, c: usize) {
    app.selected_track = Some(t);
    app.selected_clip = Some(c);
}

/// Undo brings the lanes back, and redo the edit.
fn undo_and_redo(app: &mut App, before: &Vec<Vec<(String, i64, i64)>>) {
    let after = lanes(app);
    assert!(app.can_undo());
    assert_eq!(app.perform_undo(), Effects::Refresh);
    assert_eq!(&lanes(app), before);
    assert!(app.can_redo());
    assert_eq!(app.perform_redo(), Effects::Refresh);
    assert_eq!(lanes(app), after);
    assert!(app.can_undo());
    assert_eq!(app.perform_undo(), Effects::Refresh);
    assert_eq!(&lanes(app), before);
}

#[test]
fn a_new_editor_is_empty_and_clean() {
    let app = App::new();
    assert!(app.tracks.is_empty());
    assert_eq!(app.project_rate, 48_000);
    assert_eq!(app.view_duration, 0);
    assert_eq!(app.max_duration(), 0);
    assert!(!app.undo_manager.is_dirty());
    assert_eq!(app.title(None, "48.0"), "Audio Editor — Untitled");
}

#[test]
fn undo_without_history_does_nothing() {
    let mut app = app(vec![vec![clip("a", 0, 10)]]);
    assert_eq!(app.perform_undo(), Effects::Nothing);
    assert_eq!(app.perform_redo(), Effects::Nothing);
}

#[test]
fn copy_takes_the_selected_clip_to_the_start() {
    let mut app = app(vec![vec![clip("a", 5, 10)]]);
    select(&mut app, 0, 0);
    app.copy();
    assert_eq!(app.clipboard.len(), 1);
    assert_eq!(app.clipboard[0].offset_secs, 0);
    assert_eq!(app.clipboard[0].samples, app.tracks[0].clips[0].samples);
}

#[test]
fn copy_takes_the_selected_stretch() {
    let mut app = app(vec![vec![clip("a", 0, 10), clip("b", 12, 10)]]);
    app.selected_track = Some(0);
    app.selection = Some((tenths(5), tenths(15)));
    app.copy();
    assert_eq!(app.clipboard.len(), 2);
    assert_eq!(app.clipboard[0].offset_secs, 0);
    assert_eq!(app.clipboard[0].samples, (50..100).collect::<Vec<i32>>());
    assert_eq!(app.clipboard[1].offset_secs, tenths(7));
    assert_eq!(app.clipboard[1].samples, (0..30).collect::<Vec<i32>>());
    app.selection = Some((tenths(30), tenths(40)));
    app.copy();
    assert_eq!(app.clipboard.len(), 2);
}

#[test]
fn cut_and_undo_of_a_clip() {
    let mut app = app(vec![vec![clip("a", 0, 10), clip("b", 12, 10)]]);
    let before = lanes(&app);
    select(&mut app, 0, 1);
    assert_eq!(app.cut(), Effects::Remix);
    assert_eq!(lanes(&app), vec![lane(&[("a", 0, 10)])]);
    assert_eq!(app.clipboard[0].name, "b");
    assert_eq!(app.clipboard[0].offset_secs, 0);
    assert_eq!(app.selected_clip, Some(0));
    app.perform_undo();
    assert!(app.clipboard.is_empty());
    assert_eq!((app.selected_track, app.selected_clip), (Some(0), Some(1)));
    app.perform_redo();
    assert_eq!(app.clipboard[0].name, "b");
    undo_and_redo(&mut app, &before);
}

#[test]
fn cut_and_undo_of_a_stretch() {
    let mut app = app(vec![vec![clip("a", 0, 10), clip("b", 12, 10), clip("c", 30, 5)]]);
    let before = lanes(&app);
    select(&mut app, 0, 2);
    app.selection = Some((tenths(5), tenths(15)));
    assert_eq!(app.cut(), Effects::Remix);
    assert_eq!(lanes(&app), vec![lane(&[("a", 0, 5), ("b", 15, 7), ("c", 30, 5)])]);
    assert_eq!(app.tracks[0].clips[1].samples[0], 30);
    assert_eq!(app.selection, None);
    assert_eq!(app.selected_clip, Some(0));
    assert_eq!(app.clipboard.len(), 2);
    app.perform_undo();
    assert_eq!(app.selection, Some((tenths(5), tenths(15))));
    assert_eq!(app.selected_clip, Some(2));
    app.perform_redo();
    assert_eq!(app.selection, None);
    undo_and_redo(&mut app, &before);
}

#[test]
fn a_stretch_inside_a_clip_splits_it() {
    let mut app = app(vec![vec![clip("a", 0, 10)]]);
    app.selected_track = Some(0);
    app.selection = Some((tenths(3), tenths(6)));
    assert_eq!(app.delete(), Effects::Refresh);
    assert_eq!(lanes(&app), vec![lane(&[("a", 0, 3), ("a", 6, 4)])]);
    undo_and_redo(&mut app, &vec![lane(&[("a", 0, 10)])]);
}

#[test]
fn nothing_to_cut_changes_nothing() {
    let mut app = app(vec![vec![clip("a", 0, 10)]]);
    app.selected_track = Some(0);
    app.selection = Some((tenths(20), tenths(30)));
    assert_eq!(app.cut(), Effects::Nothing);
    assert_eq!(app.delete(), Effects::Nothing);
    app.selection = None;
    app.selected_clip = Some(7);
    assert_eq!(app.cut(), Effects::Nothing);
    assert_eq!(app.delete(), Effects::Nothing);
    app.selected_track = Some(9);
    app.selection = Some((0, tenths(5)));
    assert_eq!(app.cut(), Effects::Nothing);
    assert!(!app.undo_manager.is_dirty());
}

#[test]
fn paste_goes_to_the_playhead() {
    let mut app = app(vec![vec![clip("a", 0, 10)]]);
    let before = lanes(&app);
    select(&mut app, 0, 0);
    app.copy();
    assert_eq!(app.paste(tenths(15)), Effects::Remix);
    assert_eq!(lanes(&app), vec![lane(&[("a", 0, 10), ("a", 15, 10)])]);
    assert_eq!(app.selected_clip, Some(1));
    undo_and_redo(&mut app, &before);
    assert_eq!(app.selected_clip, Some(0));
}

#[test]
fn paste_does_not_overlap() {
    let mut app = app(vec![vec![clip("a", 0, 10)]]);
    select(&mut app, 0, 0);
    assert_eq!(app.paste(0), Effects::Nothing);
    app.copy();
    assert_eq!(app.paste(tenths(9)), Effects::Nothing);
    assert_eq!(app.paste(tenths(10)), Effects::Remix);
    app.selected_track = None;
    assert_eq!(app.paste(tenths(40)), Effects::Nothing);
}

#[test]
fn a_new_track_goes_below_the_selected_one() {
    let mut app = app(vec![vec![clip("a", 0, 10)], vec![clip("b", 0, 10)]]);
    let before = lanes(&app);
    select(&mut app, 0, 0);
    assert_eq!(app.new_track(), Effects::Refresh);
    assert_eq!(lanes(&app)[1], lane(&[]));
    assert_eq!((app.selected_track, app.selected_clip), (Some(1), None));
    undo_and_redo(&mut app, &before);
    app.selected_track = None;
    app.new_track();
    assert_eq!(lanes(&app)[2], lane(&[]));
}

#[test]
fn split_at_the_playhead() {
    let mut app = app(vec![vec![clip("a", 5, 10)]]);
    let before = lanes(&app);
    select(&mut app, 0, 0);
    assert_eq!(app.split(tenths(5)), Effects::Nothing);
    assert_eq!(app.split(tenths(15)), Effects::Nothing);
    assert_eq!(app.split(tenths(8)), Effects::Remix);
    assert_eq!(lanes(&app), vec![lane(&[("a", 5, 3), ("a", 8, 7)])]);
    assert_eq!(app.selected_clip, Some(1));
    undo_and_redo(&mut app, &before);
    assert_eq!(app.tracks[0].clips[0].samples, (0..100).collect::<Vec<i32>>());
}

#[test]
fn deleting_the_last_clip_removes_the_track() {
    let mut app = app(vec![vec![clip("a", 0, 10)], vec![clip("b", 0, 20)]]);
    let before = lanes(&app);
    select(&mut app, 1, 0);
    app.view_duration = tenths(20);
    app.view_start = tenths(5);
    assert_eq!(app.delete(), Effects::Refresh);
    assert_eq!(lanes(&app), vec![lane(&[("a", 0, 10)])]);
    assert_eq!((app.selected_track, app.selected_clip), (Some(0), None));
    assert_eq!((app.view_start, app.view_duration), (0, tenths(10)));
    undo_and_redo(&mut app, &before);
}

#[test]
fn deleting_a_clip_selects_the_next_one() {
    let mut app = app(vec![vec![clip("a", 0, 5), clip("b", 5, 5), clip("c", 10, 5)]]);
    select(&mut app, 0, 1);
    app.delete();
    assert_eq!(app.selected_clip, Some(1));
    app.delete();
    assert_eq!(app.selected_clip, Some(0));
    assert_eq!(lanes(&app), vec![lane(&[("a", 0, 5)])]);
    app.delete();
    assert_eq!((app.selected_track, app.selected_clip), (None, None));
    assert!(app.tracks.is_empty());
    for _ in 0..3 {
        assert!(app.can_undo());
        app.perform_undo();
    }
    assert_eq!(lanes(&app), vec![lane(&[("a", 0, 5), ("b", 5, 5), ("c", 10, 5)])]);
    for _ in 0..3 {
        assert!(app.can_redo());
        app.perform_redo();
    }
    assert!(app.tracks.is_empty());
}

#[test]
fn mute_is_toggled_and_taken_back() {
    let mut app = app(vec![vec![clip("a", 0, 5)]]);
    assert_eq!(app.toggle_mute(), Effects::Nothing);
    app.selected_track = Some(0);
    assert_eq!(app.toggle_mute(), Effects::Refresh);
    assert!(app.tracks[0].muted);
    app.perform_undo();
    assert!(!app.tracks[0].muted);
    app.perform_redo();
    assert!(app.tracks[0].muted);
}

#[test]
fn escape_clears_the_selection() {
    let mut app = app(vec![vec![clip("a", 0, 5)]]);
    assert_eq!(app.clear_selection(), Effects::Nothing);
    app.selection = Some((0, 1));
    app.selecting = true;
    assert_eq!(app.clear_selection(), Effects::Redraw);
    assert!(app.selection.is_none() && !app.selecting);
    app.multi_selected_clips = vec![0];
    assert_eq!(app.clear_selection(), Effects::Redraw);
    assert!(app.multi_selected_clips.is_empty());
}

#[test]
fn an_imported_clip_gets_a_track() {
    let mut app = app(vec![]);
    assert_eq!(app.end_import(None), Effects::Nothing);
    assert!(app.begin_import(tenths(3)));
    assert!(!app.begin_import(tenths(4)));
    assert!(app.is_busy(false));
    assert_eq!(app.end_import(Some(clip("a", 0, 10))), Effects::Refresh);
    assert_eq!(lanes(&app), vec![lane(&[("a", 3, 10)])]);
    assert_eq!((app.selected_track, app.selected_clip), (Some(0), Some(0)));
    assert_eq!((app.view_start, app.view_duration), (0, tenths(13)));
    assert!(!app.is_busy(false));
    app.view_duration = tenths(1);
    app.begin_import(0);
    app.end_import(Some(clip("b", 0, 10)));
    assert_eq!(app.view_duration, tenths(1));
    undo_and_redo(&mut app, &vec![lane(&[("a", 3, 10)])]);
    app.begin_import(0);
    assert_eq!(app.end_import(None), Effects::Retitle);
    assert_eq!(app.tracks.len(), 1);
}

#[test]
fn a_clip_can_be_imported_into_a_track() {
    let mut app = app(vec![vec![clip("a", 0, 10)]]);
    let before = lanes(&app);
    app.loading = Some(PendingLoad { target_track: Some(0), clip_offset_secs: tenths(20) });
    assert_eq!(app.end_import(Some(clip("b", 0, 10))), Effects::Refresh);
    assert_eq!(lanes(&app), vec![lane(&[("a", 0, 10), ("b", 20, 10)])]);
    undo_and_redo(&mut app, &before);
    app.loading = Some(PendingLoad { target_track: Some(5), clip_offset_secs: 0 });
    app.end_import(Some(clip("c", 0, 10)));
    assert_eq!(lanes(&app), before);
}

#[test]
fn a_click_track_is_as_long_as_the_project() {
    let mut app = app(vec![vec![clip("a", 0, 20)]]);
    app.project_rate = 1000;
    let before = lanes(&app);
    let tone = |i: usize, accented: bool| i as i32 + if accented { 100 } else { 1 };
    assert_eq!(app.add_click_track("60", 1000, &tone), Effects::Refresh);
    assert_eq!(app.tracks[1].clips[0].samples.len(), 2000);
    assert_eq!(app.tracks[1].clips[0].name, "Click — 60 BPM");
    assert_eq!(app.tracks[1].clips[0].samples[1001], 2);
    undo_and_redo(&mut app, &before);
    let mut empty = App::new();
    empty.project_rate = 100;
    empty.add_click_track("60", 100, &tone);
    assert_eq!(empty.tracks[0].clips[0].samples.len(), 3000);
    assert_eq!(empty.view_duration, 30 * FLICKS);
}

#[test]
fn opening_a_project_can_be_undone() {
    let mut app = app(vec![vec![clip("a", 0, 10)]]);
    select(&mut app, 0, 0);
    app.project_path = Some("/one.ron".to_string());
    let other = vec![Track::with_clips(vec![clip("x", 0, 30)])];
    assert_eq!(app.open_project(other, 44_100, "/two.ron".to_string()), Effects::Refresh);
    assert_eq!(app.project_rate, 44_100);
    assert_eq!(app.project_path.as_deref(), Some("/two.ron"));
    assert_eq!((app.selected_track, app.view_duration), (None, tenths(30)));
    assert!(!app.undo_manager.is_dirty());
    app.perform_undo();
    assert_eq!(lanes(&app), vec![lane(&[("a", 0, 10)])]);
    assert_eq!((app.project_rate, app.project_path.as_deref()), (48_000, Some("/one.ron")));
    assert_eq!((app.selected_track, app.view_duration), (Some(0), tenths(10)));
    assert!(app.undo_manager.is_dirty());
    app.perform_redo();
    assert_eq!(lanes(&app), vec![lane(&[("x", 0, 30)])]);
    assert!(!app.undo_manager.is_dirty());
}

#[test]
fn saving_makes_the_project_clean() {
    let mut app = app(vec![vec![clip("a", 0, 10)]]);
    app.selected_track = Some(0);
    app.toggle_mute();
    assert_eq!(app.title(Some("song"), "48.0"), "Audio Editor — song * — 1 track(s) — 48.0kHz");
    app.set_project_path("/song.ron".to_string());
    assert_eq!(app.project_saved(), Effects::Title);
    assert_eq!(app.title(Some("song"), "48.0"), "Audio Editor — song — 1 track(s) — 48.0kHz");
    app.perform_undo();
    assert!(app.undo_manager.is_dirty());
    app.perform_redo();
    assert!(!app.undo_manager.is_dirty());
    app.perform_undo();
    app.toggle_mute();
    assert!(app.undo_manager.is_dirty());
}

#[test]
fn the_history_is_bounded() {
    let mut app = app(vec![vec![clip("a", 0, 10)]]);
    app.selected_track = Some(0);
    for _ in 0..MAX_UNDO + 5 {
        app.toggle_mute();
    }
    let mut undone = 0;
    while app.perform_undo() == Effects::Refresh {
        undone += 1;
    }
    assert_eq!(undone, MAX_UNDO);
    assert!(app.tracks[0].muted);
}

#[test]
fn an_edit_drops_what_could_be_redone() {
    let mut m = UndoManager::new(3);
    m.push(UndoAction::ToggleMute { track_idx: 1 });
    let a = m.pop_undo().unwrap();
    m.push_redo(a);
    assert!(m.peek_redo().is_some());
    m.push(UndoAction::ToggleMute { track_idx: 2 });
    assert!(m.pop_redo().is_none());
    assert!(matches!(m.peek_undo(), Some(UndoAction::ToggleMute { track_idx: 2 })));
    m.mark_saved();
    assert!(!m.is_dirty());
    m.push_undo(UndoAction::ToggleMute { track_idx: 3 });
    assert!(m.is_dirty());
}

#[test]
fn a_record_that_does_not_apply_is_found_out() {
    let mut app = app(vec![vec![clip("a", 0, 10)]]);
    app.selected_track = Some(0);
    app.toggle_mute();
    app.tracks.clear();
    assert!(!app.can_undo());
    assert!(!app.can_do(Command::Undo));
    assert!(app.can_do(Command::Redo));
    assert!(!app.can_do(Command::NewTrack));
    app.selected_clip = Some(0);
    assert!(!app.can_do(Command::Split));
    assert!(app.can_do(Command::Delete));
}

#[test]
fn a_long_session_can_be_walked_through() {
    let mut app = app(vec![vec![clip("a", 0, 10), clip("b", 20, 10)]]);
    let mut states = vec![lanes(&app)];
    select(&mut app, 0, 0);
    app.split(tenths(4));
    states.push(lanes(&app));
    app.cut();
    states.push(lanes(&app));
    app.new_track();
    states.push(lanes(&app));
    app.paste(tenths(2));
    states.push(lanes(&app));
    app.begin_import(tenths(7));
    app.end_import(Some(clip("c", 0, 6)));
    states.push(lanes(&app));
    app.delete();
    states.push(lanes(&app));
    for s in states.iter().rev().skip(1) {
        assert!(app.can_undo());
        app.perform_undo();
        assert_eq!(&lanes(&app), s);
    }
    for s in states.iter().skip(1) {
        assert!(app.can_redo());
        app.perform_redo();
        assert_eq!(&lanes(&app), s);
    }
}

#[test]
fn keys_ask_for_commands() {
    let plain = |k| command_for(k, false, false, true);
    let cmd = |k| command_for(k, true, false, true);
    let shifted = |k| command_for(k, true, true, true);
    assert_eq!(cmd(Key::G), Command::AskTempo);
    assert_eq!(cmd(Key::O), Command::Dialog(DeferredAction::OpenProject));
    assert_eq!(cmd(Key::I), Command::Dialog(DeferredAction::OpenFile));
    assert_eq!(cmd(Key::S), Command::Dialog(DeferredAction::SaveProject));
    assert_eq!(shifted(Key::S), Command::Dialog(DeferredAction::SaveProjectAs));
    assert_eq!(plain(Key::S), Command::Split);
    assert_eq!(cmd(Key::E), Command::Dialog(DeferredAction::ExportWav));
    assert_eq!(command_for(Key::E, true, false, false), Command::Nothing);
    assert_eq!(cmd(Key::Z), Command::Undo);
    assert_eq!(shifted(Key::Z), Command::Redo);
    assert_eq!(cmd(Key::C), Command::Copy);
    assert_eq!(cmd(Key::X), Command::Cut);
    assert_eq!(cmd(Key::V), Command::Paste);
    assert_eq!(cmd(Key::T), Command::NewTrack);
    assert_eq!(plain(Key::M), Command::ToggleMute);
    assert_eq!(cmd(Key::M), Command::Nothing);
    assert_eq!(plain(Key::Backspace), Command::Delete);
    assert_eq!(command_for(Key::Backspace, false, false, false), Command::Nothing);
    assert_eq!(plain(Key::Escape), Command::ClearSelection);
    assert_eq!(plain(Key::Space), Command::PlayPause);
    assert_eq!(plain(Key::ArrowLeft), Command::Seek(false));
    assert_eq!(shifted(Key::ArrowRight), Command::Seek(true));
    for k in [Key::C, Key::E, Key::G, Key::I, Key::O, Key::T, Key::V, Key::X, Key::Z, Key::Enter] {
        assert_eq!(plain(k), Command::Nothing);
    }
    assert_eq!(cmd(Key::Other), Command::Nothing);
}

#[test]
fn commands_are_run() {
    let mut app = app(vec![vec![clip("a", 0, 10)]]);
    select(&mut app, 0, 0);
    app.super_key = true;
    assert_eq!(app.command(Key::X), Command::Cut);
    assert_eq!(app.run_command(Command::Copy, 0), (Effects::Nothing, None));
    assert_eq!(app.run_command(Command::Paste, tenths(10)), (Effects::Remix, None));
    assert_eq!(app.run_command(Command::Split, tenths(12)), (Effects::Remix, None));
    assert_eq!(app.run_command(Command::ToggleMute, 0), (Effects::Refresh, None));
    assert_eq!(app.run_command(Command::Delete, 0), (Effects::Refresh, None));
    assert_eq!(app.run_command(Command::NewTrack, 0), (Effects::Refresh, None));
    assert_eq!(app.run_command(Command::Undo, 0), (Effects::Refresh, None));
    assert_eq!(app.run_command(Command::Redo, 0), (Effects::Refresh, None));
    assert_eq!(app.run_command(Command::ClearSelection, 0), (Effects::Nothing, None));
    assert_eq!(app.run_command(Command::Nothing, 0), (Effects::Nothing, None));
    let play = app.run_command(Command::PlayPause, 0);
    assert_eq!(play, (Effects::Nothing, Some(Request::PlayPause)));
    assert_eq!(app.run_command(Command::Seek(true), 0).1, Some(Request::Right));
    assert_eq!(app.run_command(Command::Seek(false), 0).1, Some(Request::Left));
    assert_eq!(app.command(Key::ArrowUp), Command::AdjustGain(true));
    assert_eq!(app.command(Key::ArrowDown), Command::AdjustGain(false));
    let louder = app.run_command(Command::AdjustGain(true), 0);
    assert_eq!(louder, (Effects::Nothing, Some(Request::Louder)));
    assert_eq!(app.run_command(Command::AdjustGain(false), 0).1, Some(Request::Softer));
    app.super_key = false;
    assert_eq!(app.command(Key::ArrowUp), Command::Nothing);
    assert_eq!(lanes(&app), vec![lane(&[("a", 0, 10), ("a", 10, 2)]), lane(&[])]);
}

#[test]
fn dialogs_open_one_at_a_time() {
    let mut app = app(vec![]);
    assert_eq!(app.start_dialog(), DialogStep::Idle);
    app.run_command(Command::Dialog(DeferredAction::SaveProject), 0);
    assert_eq!(app.start_dialog(), DialogStep::Open(DeferredAction::SaveProject));
    app.run_command(Command::Dialog(DeferredAction::OpenFile), 0);
    assert_eq!(app.start_dialog(), DialogStep::Idle);
    assert!(app.is_busy(false));
    assert_eq!(app.end_dialog(true), Some(FileTask::SaveProject));
    assert!(!app.is_busy(false));
    assert!(app.is_busy(true));
    app.set_project_path("/p.ron".to_string());
    app.run_command(Command::Dialog(DeferredAction::SaveProject), 0);
    assert_eq!(app.start_dialog(), DialogStep::SaveNow);
    for (action, task) in [
        (DeferredAction::OpenFile, FileTask::Import),
        (DeferredAction::OpenProject, FileTask::OpenProject),
        (DeferredAction::SaveProjectAs, FileTask::SaveProject),
        (DeferredAction::ExportWav, FileTask::Export),
    ] {
        app.run_command(Command::Dialog(action), 0);
        assert_eq!(app.start_dialog(), DialogStep::Open(action));
        assert_eq!(app.end_dialog(true), Some(task));
        app.run_command(Command::Dialog(action), 0);
        app.start_dialog();
        assert_eq!(app.end_dialog(false), None);
    }
    assert_eq!(app.end_dialog(true), None);
}

#[test]
fn names_and_titles() {
    assert_eq!(export_name(Some("song")), "song.wav");
    assert_eq!(export_name(None), "export.wav");
    assert_eq!(progress_title(0), "Resampling… 0%");
    assert_eq!(progress_title(100), "Resampling… 100%");
    assert_eq!(time_for(1, 100), FLICKS / 100);
}

#[test]
fn a_gain_is_adjusted_and_taken_back() {
    let step = |g: i32, up: bool| if up { g + 10 } else { g - 10 };
    let mut app = app(vec![vec![clip("a", 0, 10), clip("b", 20, 10)]]);
    let before = app.tracks[0].clips[1].gain;
    assert_eq!(app.adjust_gain(true, &step), Effects::Nothing);
    select(&mut app, 0, 1);
    assert_eq!(app.adjust_gain(true, &step), Effects::Refresh);
    assert_eq!(app.adjust_gain(true, &step), Effects::Refresh);
    assert_eq!(app.adjust_gain(false, &step), Effects::Refresh);
    assert_eq!(app.tracks[0].clips[1].gain, before + 10);
    assert_eq!(app.tracks[0].clips[0].gain, before);
    assert!(app.can_undo());
    app.perform_undo();
    assert_eq!(app.tracks[0].clips[1].gain, before + 20);
    app.perform_undo();
    app.perform_undo();
    assert_eq!(app.tracks[0].clips[1].gain, before);
    assert!(app.can_redo());
    app.perform_redo();
    assert_eq!(app.tracks[0].clips[1].gain, before + 10);
}

#[test]
fn a_muted_track_comes_back_muted() {
    let mut app = app(vec![vec![clip("a", 0, 10)], vec![clip("b", 0, 10)]]);
    app.tracks[0].muted = true;
    app.tracks[0].gain = 5;
    select(&mut app, 0, 0);
    app.delete();
    assert_eq!(app.tracks.len(), 1);
    app.perform_undo();
    assert_eq!((app.tracks[0].muted, app.tracks[0].gain), (true, 5));
    assert_eq!(lanes(&app), vec![lane(&[("a", 0, 10)]), lane(&[("b", 0, 10)])]);
    app.perform_redo();
    assert_eq!(app.tracks.len(), 1);
    app.perform_undo();
    assert_eq!((app.tracks[0].muted, app.tracks[0].gain), (true, 5));
}

#[test]
fn a_click_track_comes_back_as_it_was() {
    let mut app = app(vec![]);
    let tone = |i: usize, accented: bool| if accented { i as i32 } else { 0 };
    app.add_click_track("120", 24_000, &tone);
    app.tracks[0].muted = true;
    app.tracks[0].gain = 5;
    app.perform_undo();
    assert!(app.tracks.is_empty());
    app.perform_redo();
    assert_eq!((app.tracks[0].muted, app.tracks[0].gain), (true, 5));
    assert_eq!(app.tracks[0].clips.len(), 1);
}

#[test]
fn a_track_gain_is_adjusted_and_taken_back() {
    let step = |g: i32, up: bool| if up { g + 10 } else { g - 10 };
    let mut app = app(vec![vec![clip("a", 0, 10)], vec![]]);
    assert_eq!(app.adjust_track_gain(true, &step), Effects::Nothing);
    app.selected_track = Some(1);
    assert_eq!(app.adjust_track_gain(true, &step), Effects::Refresh);
    assert_eq!(app.adjust_track_gain(false, &step), Effects::Refresh);
    assert_eq!(app.adjust_track_gain(false, &step), Effects::Refresh);
    assert_eq!((app.tracks[0].gain, app.tracks[1].gain), (UNITY, UNITY - 10));
    app.perform_undo();
    app.perform_undo();
    assert_eq!(app.tracks[1].gain, UNITY + 10);
    app.perform_undo();
    assert_eq!(app.tracks[1].gain, UNITY);
    app.perform_redo();
    assert_eq!(app.tracks[1].gain, UNITY + 10);
    app.super_key = true;
    app.shift_key = true;
    assert_eq!(app.command(Key::ArrowUp), Command::AdjustTrackGain(true));
    let softer = app.run_command(app.command(Key::ArrowDown), 0);
    assert_eq!(softer, (Effects::Nothing, Some(Request::TrackSofter)));
    assert_eq!(app.run_command(Command::AdjustTrackGain(true), 0).1, Some(Request::TrackLouder));
}

#[test]
fn a_second_removal_changes_nothing() {
    let mut app = app(vec![vec![clip("a", 0, 10), clip("b", 12, 3), clip("c", 20, 10)], vec![]]);
    app.remove_region_from_track(0, tenths(4), tenths(24));
    let once = lanes(&app);
    assert_eq!(once, vec![lane(&[("a", 0, 4), ("c", 24, 6)]), lane(&[])]);
    app.remove_region_from_track(0, tenths(4), tenths(24));
    assert_eq!(lanes(&app), once);
}
