//! The commands that reach beyond the timeline: importing, opening and saving, the click track,
//! file dialogs and the title.

use vstd::prelude::*;
use vstd::string::StringExecFns;
use crate::app::{App, AppView, DeferredAction, Effects, PendingLoad};
use crate::audio::{Clip, ClipView};
use crate::edit::{put_clip, put_track};
use crate::sample::Sample;
use crate::source::generate_click_track;
use crate::text::number;
use crate::time::Secs;
use crate::track::{Track, TrackView};
use crate::undo::{UndoAction, UndoRecord};

verus! {

/// How long a click track is in a project without clips: half a minute.
pub const CLICK_TRACK_LENGTH: Secs = 21_168_000_000;

/// The number of clips of some tracks.
pub open spec fn clip_count(tracks: Seq<TrackView>) -> nat
    decreases tracks.len(),
{
    if tracks.len() == 0 {
        0
    } else {
        clip_count(tracks.drop_last()) + tracks.last().clips.len()
    }
}

impl AppView {
    /// The editor after an import has begun, unless another is under way.
    pub open spec fn import_begun(self, playhead: Secs) -> AppView {
        AppView {
            loading: match self.loading {
                Some(p) => Some(p),
                None => Some(PendingLoad { target_track: None, clip_offset_secs: playhead }),
            },
            ..self
        }
    }

    /// The editor with an imported clip: in the track it is for, or in a new one.
    pub open spec fn clip_imported(self, pending: PendingLoad, clip: ClipView) -> AppView {
        let clip = clip.at(pending.clip_offset_secs);
        match pending.target_track {
            Some(t) => if t < self.tracks.len() {
                let at = self.tracks[t as int].clips.len();
                AppView {
                    tracks: crate::edit::with_clip(self.tracks, t as int, at as int, clip),
                    selected_track: Some(t),
                    selected_clip: Some(at as usize),
                    ..self
                }.recorded(
                    UndoRecord::ImportClip {
                        track_idx: t,
                        clip_idx: at as usize,
                        created_new_track: false,
                        prev_sel_track: self.selected_track,
                        prev_sel_clip: self.selected_clip,
                    },
                )
            } else {
                self
            },
            None => {
                let t = self.tracks.len();
                AppView {
                    tracks: self.tracks.push(crate::track::fresh_track(seq![clip])),
                    selected_track: Some(t as usize),
                    selected_clip: Some(0),
                    ..self
                }.recorded(
                    UndoRecord::ImportClip {
                        track_idx: t as usize,
                        clip_idx: 0,
                        created_new_track: true,
                        prev_sel_track: self.selected_track,
                        prev_sel_clip: self.selected_clip,
                    },
                )
            },
        }
    }

    /// The editor after loading has ended, with a clip or without; the first clip of a project
    /// resets the zoom.
    pub open spec fn load_ended(self, clip: Option<ClipView>) -> AppView {
        match self.loading {
            Some(pending) => {
                let v = AppView { loading: None, ..self };
                match clip {
                    Some(c) => {
                        let w = v.clip_imported(pending, c);
                        if clip_count(w.tracks) == 1 {
                            w.zoomed_out()
                        } else {
                            w
                        }
                    },
                    None => v,
                }
            },
            None => self,
        }
    }

    /// The editor with another project.
    pub open spec fn project_opened(self, tracks: Seq<TrackView>, rate: u32, path: Seq<char>) -> AppView {
        let v = AppView {
            tracks,
            project_path: Some(path),
            project_rate: rate,
            selected_track: None,
            selected_clip: None,
            ..self
        }.recorded(
            UndoRecord::LoadProject {
                prev_tracks: self.tracks,
                prev_project_path: self.project_path,
                prev_project_rate: self.project_rate,
                prev_sel_track: self.selected_track,
                prev_sel_clip: self.selected_clip,
            },
        ).zoomed_out();
        AppView { undo_manager: v.undo_manager.saved(), ..v }
    }

    /// How long a new click track is: as long as the project.
    pub open spec fn click_track_length(self) -> Secs {
        if self.max_duration() > 0 {
            self.max_duration()
        } else {
            CLICK_TRACK_LENGTH
        }
    }

    /// The editor with a click track.
    pub open spec fn click_track_added(self, clip: ClipView) -> AppView {
        AppView {
            tracks: self.tracks.push(crate::track::fresh_track(seq![clip])),
            ..self
        }.recorded(
            UndoRecord::GenerateClickTrack {
                track_idx: self.tracks.len() as usize,
                prev_sel_track: self.selected_track,
                prev_sel_clip: self.selected_clip,
            },
        ).zoomed_out()
    }

    /// The title of the window.
    pub open spec fn title(self, project_name: Option<Seq<char>>, khz: Seq<char>) -> Seq<char> {
        let name = match project_name {
            Some(n) => n,
            None => "Untitled"@,
        };
        let dirty = if self.undo_manager.is_dirty() {
            " *"@
        } else {
            ""@
        };
        let head = "Audio Editor — "@ + name + dirty;
        if self.tracks.len() == 0 {
            head
        } else {
            head + " — "@ + crate::text::decimal(self.tracks.len()) + " track(s) — "@ + khz + "kHz"@
        }
    }
}

/// What to do about a file dialog.
#[derive(Clone, Copy, Debug, PartialEq, Eq, Structural)]
pub enum DialogStep {
    /// Nothing
    Idle,
    /// Save the project where it was saved before; that takes no dialog
    SaveNow,
    /// Open the dialog
    Open(DeferredAction),
}

/// What to do with the file that was picked in a dialog.
#[derive(Clone, Copy, Debug, PartialEq, Eq, Structural)]
pub enum FileTask {
    /// Import it
    Import,
    /// Open it as a project
    OpenProject,
    /// Save the project to it
    SaveProject,
    /// Export the project to it
    Export,
}

impl AppView {
    /// What to do about the dialog that was asked for: none is opened while one is open.
    pub open spec fn dialog_step(self) -> DialogStep {
        match self.deferred_action {
            Some(a) => if self.pending_dialog is Some {
                DialogStep::Idle
            } else if a == DeferredAction::SaveProject && self.project_path is Some {
                DialogStep::SaveNow
            } else {
                DialogStep::Open(a)
            },
            None => DialogStep::Idle,
        }
    }

    /// The editor after the dialog that was asked for has been dealt with.
    pub open spec fn dialog_started(self) -> AppView {
        AppView {
            deferred_action: None,
            pending_dialog: match self.dialog_step() {
                DialogStep::Open(a) => Some(a),
                _ => self.pending_dialog,
            },
            ..self
        }
    }

    /// What to do with the file that was picked in the open dialog.
    pub open spec fn file_task(self) -> Option<FileTask> {
        match self.pending_dialog {
            Some(DeferredAction::OpenFile) => Some(FileTask::Import),
            Some(DeferredAction::OpenProject) => Some(FileTask::OpenProject),
            Some(DeferredAction::SaveProject) => Some(FileTask::SaveProject),
            Some(DeferredAction::SaveProjectAs) => Some(FileTask::SaveProject),
            Some(DeferredAction::ExportWav) => Some(FileTask::Export),
            None => None,
        }
    }
}

impl App {
    /// Whether the only clip of the project has just been added.
    fn has_one_clip(&self) -> (r: bool)
        ensures
            r == (clip_count(self@.tracks) == 1),
    {
        let ghost all = self@.tracks;
        let mut count: usize = 0;
        let mut i: usize = 0;
        assert(all.subrange(0, 0) =~= Seq::empty());
        while i < self.tracks.len()
            invariant
                i <= self.tracks@.len(),
                all == self@.tracks,
                count == clip_count(all.subrange(0, i as int)),
                count <= 1,
            decreases self.tracks@.len() - i,
        {
            assert(all[i as int] == self.tracks@[i as int]@);
            assert(all.subrange(0, i + 1).drop_last() =~= all.subrange(0, i as int));
            let n: usize = self.tracks[i].clips.len();
            if n > 1 - count {
                proof {
                    lemma_count_grows(all, i + 1);
                }
                return false;
            }
            count = count + n;
            i = i + 1;
        }
        assert(all.subrange(0, i as int) =~= all);
        count == 1
    }

    /// Starts loading an audio file for the position of the playhead. Returns false, and changes
    /// nothing, while another file is being loaded.
    pub fn begin_import(&mut self, playhead: Secs) -> (r: bool)
        requires
            old(self)@.ok(),
        ensures
            final(self)@.ok(),
            r == (old(self)@.loading is None),
            final(self)@ == old(self)@.import_begun(playhead),
            final(self)@ == (if r {
                AppView {
                    loading: Some(
                        PendingLoad { target_track: None, clip_offset_secs: playhead },
                    ),
                    ..old(self)@
                }
            } else {
                old(self)@
            }),
    {
        if self.loading.is_some() {
            return false;
        }
        self.loading = Some(PendingLoad { target_track: None, clip_offset_secs: playhead });
        true
    }

    /// Adds the imported clip.
    fn add_imported(&mut self, pending: PendingLoad, clip: Clip)
        requires
            old(self)@.ok(),
            clip@.ok(),
        ensures
            final(self)@ == old(self)@.clip_imported(pending, clip@),
            final(self)@.ok(),
    {
        let ghost before = self@;
        let mut clip: Clip = clip;
        clip.offset_secs = pending.clip_offset_secs;
        let prev_sel_track: Option<usize> = self.selected_track;
        let prev_sel_clip: Option<usize> = self.selected_clip;
        match pending.target_track {
            Some(t) => {
                if t >= self.tracks.len() {
                    return;
                }
                assert(before.tracks[t as int] == self.tracks@[t as int]@);
                let at: usize = self.tracks[t].clips.len();
                proof {
                    crate::edit::lemma_with_clip_ok(before.tracks, t as int, at as int, clip@);
                }
                put_clip(&mut self.tracks, t, at, clip);
                self.selected_track = Some(t);
                self.selected_clip = Some(at);
                let action = UndoAction::ImportClip {
                    track_idx: t,
                    clip_idx: at,
                    created_new_track: false,
                    prev_sel_track,
                    prev_sel_clip,
                };
                proof {
                    crate::edits::lemma_recorded_ok(self@, action@);
                }
                self.record(action);
            },
            None => {
                let t: usize = self.tracks.len();
                self.add_track(clip);
                self.selected_track = Some(t);
                self.selected_clip = Some(0);
                let action = UndoAction::ImportClip {
                    track_idx: t,
                    clip_idx: 0,
                    created_new_track: true,
                    prev_sel_track,
                    prev_sel_clip,
                };
                proof {
                    crate::edits::lemma_recorded_ok(self@, action@);
                }
                self.record(action);
            },
        }
        assert(self@ =~= before.clip_imported(pending, clip@));
    }

    /// Adds a track with one clip at the end.
    fn add_track(&mut self, clip: Clip)
        requires
            old(self)@.ok(),
            clip@.ok(),
        ensures
            final(self)@ == (AppView {
                tracks: old(self)@.tracks.push(crate::track::fresh_track(seq![clip@])),
                ..old(self)@
            }),
            final(self)@.ok(),
    {
        let ghost before = self@;
        let t: usize = self.tracks.len();
        let mut clips: Vec<Clip> = Vec::new();
        clips.push(clip);
        let ghost fresh = crate::track::fresh_track(seq![clip@]);
        proof {
            assert(crate::track::clip_views(clips@) =~= seq![clip@]);
            crate::edit::lemma_with_track_ok(before.tracks, t as int, fresh);
            assert(before.tracks.insert(t as int, fresh) =~= before.tracks.push(fresh));
        }
        put_track(&mut self.tracks, t, Track::with_clips(clips));
        assert(self@ =~= AppView { tracks: before.tracks.push(fresh), ..before });
    }

    /// Shows the whole timeline.
    fn zoom_out(&mut self)
        requires
            old(self)@.ok(),
        ensures
            final(self)@ == old(self)@.zoomed_out(),
            final(self)@.ok(),
    {
        self.view_duration = self.max_duration();
        self.view_start = 0;
        assert(self@ =~= old(self)@.zoomed_out());
    }

    /// Loading has ended, with a clip or without.
    pub fn end_import(&mut self, clip: Option<Clip>) -> (r: Effects)
        requires
            old(self)@.ok(),
            clip matches Some(c) ==> c@.ok(),
        ensures
            final(self)@ == old(self)@.load_ended(crate::audio::clip_option(clip)),
            final(self)@.ok(),
            r == (if old(self)@.loading is None {
                Effects::Nothing
            } else if clip is Some {
                Effects::Refresh
            } else {
                Effects::Retitle
            }),
    {
        let ghost before = self@;
        let pending: PendingLoad = match self.loading {
            Some(p) => p,
            None => return Effects::Nothing,
        };
        self.loading = None;
        assert(self@ =~= AppView { loading: None, ..before });
        match clip {
            Some(c) => {
                self.add_imported(pending, c);
                if self.has_one_clip() {
                    self.zoom_out();
                }
                Effects::Refresh
            },
            None => Effects::Retitle,
        }
    }

    /// Opens a project that was read from `path`.
    pub fn open_project(&mut self, tracks: Vec<Track>, rate: u32, path: String) -> (r: Effects)
        requires
            old(self)@.ok(),
            crate::track::tracks_ok(crate::track::track_views(tracks@)),
        ensures
            final(self)@ == old(self)@.project_opened(
                crate::track::track_views(tracks@),
                rate,
                path@,
            ),
            final(self)@.ok(),
            r == Effects::Refresh,
    {
        let ghost before = self@;
        let ghost new = crate::track::track_views(tracks@);
        let mut prev_tracks: Vec<Track> = tracks;
        core::mem::swap(&mut prev_tracks, &mut self.tracks);
        let mut prev_project_path: Option<String> = Some(path);
        core::mem::swap(&mut prev_project_path, &mut self.project_path);
        let action = UndoAction::LoadProject {
            prev_tracks,
            prev_project_path,
            prev_project_rate: self.project_rate,
            prev_sel_track: self.selected_track,
            prev_sel_clip: self.selected_clip,
        };
        self.project_rate = rate;
        self.selected_track = None;
        self.selected_clip = None;
        proof {
            crate::edits::lemma_recorded_ok(self@, action@);
        }
        self.record(action);
        self.zoom_out();
        self.undo_manager.mark_saved();
        assert(self@ =~= before.project_opened(new, rate, path@));
        Effects::Refresh
    }

    /// The project is about to be saved to `path`.
    pub fn set_project_path(&mut self, path: String)
        requires
            old(self)@.ok(),
        ensures
            final(self)@.ok(),
            final(self)@ == (AppView { project_path: Some(path@), ..old(self)@ }),
    {
        self.project_path = Some(path);
        assert(self@ =~= AppView { project_path: Some(path@), ..old(self)@ });
    }

    /// The project has been saved.
    pub fn project_saved(&mut self) -> (r: Effects)
        requires
            old(self)@.ok(),
        ensures
            final(self)@.ok(),
            final(self)@ == (AppView {
                undo_manager: old(self)@.undo_manager.saved(),
                ..old(self)@
            }),
            r == Effects::Title,
    {
        self.undo_manager.mark_saved();
        assert(self@ =~= AppView { undo_manager: old(self)@.undo_manager.saved(), ..old(self)@ });
        Effects::Title
    }

    /// Adds a click track: `bpm` is the tempo in words, `interval` the number of samples from beat
    /// to beat, `tone` the sound of a click.
    pub fn add_click_track<T: Fn(usize, bool) -> Sample>(
        &mut self,
        bpm: &str,
        interval: usize,
        tone: &T,
    ) -> (r: Effects)
        requires
            old(self)@.ok(),
            interval > 0 || crate::time::frames_in(
                old(self)@.click_track_length() as int,
                old(self)@.project_rate as int,
            ) == 0,
            crate::sample::is_function(*tone),
        ensures
            final(self)@.ok(),
            ({
                let samples = crate::source::click_samples(
                    interval,
                    old(self)@.click_track_length(),
                    old(self)@.project_rate,
                    *tone,
                );
                final(self)@ == old(self)@.click_track_added(
                    ClipView {
                        name: "Click — "@ + bpm@ + " BPM"@,
                        samples,
                        sample_rate: old(self)@.project_rate,
                        channels: 1,
                        mono: samples,
                        summary: crate::audio::summary_of(samples),
                        offset_secs: 0,
                        gain: crate::sample::UNITY,
                        source_path: None,
                    },
                )
            }),
            r == Effects::Refresh,
    {
        let ghost before = self@;
        let max: Secs = self.max_duration();
        let length: Secs = if max > 0 {
            max
        } else {
            CLICK_TRACK_LENGTH
        };
        let clip: Clip = generate_click_track(bpm, interval, length, self.project_rate, tone);
        let ghost view = clip@;
        let t: usize = self.tracks.len();
        self.add_track(clip);
        let action = UndoAction::GenerateClickTrack {
            track_idx: t,
            prev_sel_track: self.selected_track,
            prev_sel_clip: self.selected_clip,
        };
        proof {
            crate::edits::lemma_recorded_ok(self@, action@);
        }
        self.record(action);
        self.zoom_out();
        assert(self@ =~= before.click_track_added(view));
        Effects::Refresh
    }

    /// Deals with the dialog that was asked for.
    pub fn start_dialog(&mut self) -> (r: DialogStep)
        requires
            old(self)@.ok(),
        ensures
            final(self)@ == old(self)@.dialog_started(),
            final(self)@.ok(),
            r == old(self)@.dialog_step(),
    {
        let asked: Option<DeferredAction> = self.deferred_action;
        self.deferred_action = None;
        match asked {
            Some(a) => {
                if self.pending_dialog.is_some() {
                    DialogStep::Idle
                } else if a == DeferredAction::SaveProject && self.project_path.is_some() {
                    DialogStep::SaveNow
                } else {
                    self.pending_dialog = Some(a);
                    DialogStep::Open(a)
                }
            },
            None => DialogStep::Idle,
        }
    }

    /// The open dialog has been closed, with a file or without. Returns what to do with the file.
    pub fn end_dialog(&mut self, picked: bool) -> (r: Option<FileTask>)
        requires
            old(self)@.ok(),
        ensures
            final(self)@ == (AppView { pending_dialog: None, ..old(self)@ }),
            final(self)@.ok(),
            r == (if picked {
                old(self)@.file_task()
            } else {
                None
            }),
    {
        let open: Option<DeferredAction> = self.pending_dialog;
        self.pending_dialog = None;
        if !picked {
            return None;
        }
        match open {
            Some(DeferredAction::OpenFile) => Some(FileTask::Import),
            Some(DeferredAction::OpenProject) => Some(FileTask::OpenProject),
            Some(DeferredAction::SaveProject) => Some(FileTask::SaveProject),
            Some(DeferredAction::SaveProjectAs) => Some(FileTask::SaveProject),
            Some(DeferredAction::ExportWav) => Some(FileTask::Export),
            None => None,
        }
    }

    /// Whether the window has to be redrawn without an event: while something is loaded, a dialog
    /// is open or the project is played.
    pub fn is_busy(&self, playing: bool) -> (r: bool)
        ensures
            r == (self@.loading is Some || self@.pending_dialog is Some || playing),
    {
        self.loading.is_some() || self.pending_dialog.is_some() || playing
    }

    /// The title of the window: `project_name` is the name of the project's file, `khz` the sample
    /// rate of the project in kilohertz.
    pub fn title(&self, project_name: Option<&str>, khz: &str) -> (r: String)
        ensures
            r@ == self@.title(
                match project_name {
                    Some(n) => Some(n@),
                    None => None,
                },
                khz@,
            ),
    {
        let mut r: String = "Audio Editor — ".to_owned();
        match project_name {
            Some(n) => {
                r.append(n);
            },
            None => {
                r.append("Untitled");
            },
        }
        if self.undo_manager.is_dirty() {
            r.append(" *");
        } else {
            r.append("");
        }
        let n: usize = self.tracks.len();
        if n > 0 {
            r.append(" — ");
            let count: String = number(n as u64);
            r.append(count.as_str());
            r.append(" track(s) — ");
            r.append(khz);
            r.append("kHz");
        }
        r
    }
}

/// The number of clips grows with the tracks.
proof fn lemma_count_grows(tracks: Seq<TrackView>, n: int)
    requires
        0 <= n <= tracks.len(),
    ensures
        clip_count(tracks.subrange(0, n)) <= clip_count(tracks),
    decreases tracks.len(),
{
    if n == tracks.len() {
        assert(tracks.subrange(0, n) =~= tracks);
    } else {
        assert(tracks.drop_last().subrange(0, n) =~= tracks.subrange(0, n));
        lemma_count_grows(tracks.drop_last(), n);
    }
}

/// The title of the window while a file is being loaded.
pub fn progress_title(percent: u8) -> (r: String)
    ensures
        r@ == "Resampling… "@ + crate::text::decimal(percent as nat) + "%"@,
{
    let mut r: String = "Resampling… ".to_owned();
    let p: String = number(percent as u64);
    r.append(p.as_str());
    r.append("%");
    r
}

/// The name that is proposed for an export: that of the project's file, if it has one.
pub fn export_name(project_name: Option<&str>) -> (r: String)
    ensures
        r@ == (match project_name {
            Some(n) => n@ + ".wav"@,
            None => "export.wav"@,
        }),
{
    match project_name {
        Some(n) => {
            let mut r: String = n.to_owned();
            r.append(".wav");
            r
        },
        None => "export.wav".to_owned(),
    }
}

/// An imported clip comes to the playhead where it was when the import began, in a new track below all
/// others, which is heard. Every other track stays as it is, and the new clip is selected. A file that
/// cannot be loaded changes no track.
pub proof fn law_an_import_comes_to_the_playhead(v: AppView, playhead: Secs, clip: ClipView)
    requires
        v.loading is None,
        v.tracks.len() < usize::MAX,
    ensures
        ({
            let w = v.import_begun(playhead).load_ended(Some(clip));
            let n = v.tracks.len() as int;
            &&& w.tracks.len() == n + 1
            &&& w.tracks.subrange(0, n) == v.tracks
            &&& w.tracks[n].clips.len() == 1
            &&& w.tracks[n].clips[0] == (ClipView { offset_secs: playhead, ..clip })
            &&& !w.tracks[n].muted
            &&& w.tracks[n].gain == crate::sample::UNITY
            &&& w.selected_track == Some(n as usize)
            &&& w.selected_clip == Some(0usize)
            &&& w.loading is None
        }),
        v.import_begun(playhead).tracks == v.tracks,
        v.import_begun(playhead).load_ended(None) == v,
        forall|later: Secs| #[trigger]
            v.import_begun(playhead).import_begun(later) == v.import_begun(playhead),
{
    let w = v.import_begun(playhead).load_ended(Some(clip));
    assert(w.tracks.subrange(0, v.tracks.len() as int) =~= v.tracks);
}

/// The first clip of a project is shown whole; a later one leaves the view as it is.
pub proof fn law_the_first_clip_is_shown_whole(v: AppView, playhead: Secs, clip: ClipView)
    requires
        v.loading is None,
        v.tracks.len() < usize::MAX,
    ensures
        ({
            let w = v.import_begun(playhead).load_ended(Some(clip));
            let first = forall|t: int|
                0 <= t < v.tracks.len() ==> (#[trigger] v.tracks[t]).clips.len() == 0;
            if first {
                w.view_start == 0 && w.view_duration == w.max_duration()
            } else {
                w.view_start == v.view_start && w.view_duration == v.view_duration
            }
        }),
{
    let w = v.import_begun(playhead).load_ended(Some(clip));
    let with = v.tracks.push(crate::track::fresh_track(seq![clip.at(playhead)]));
    assert(with.drop_last() =~= v.tracks);
    lemma_no_clips(v.tracks);
}

proof fn lemma_no_clips(tracks: Seq<TrackView>)
    ensures
        clip_count(tracks) == 0 <==> forall|t: int|
            0 <= t < tracks.len() ==> (#[trigger] tracks[t]).clips.len() == 0,
    decreases tracks.len(),
{
    if tracks.len() > 0 {
        let d = tracks.drop_last();
        let n = tracks.len() - 1;
        lemma_no_clips(d);
        if clip_count(tracks) == 0 {
            assert forall|t: int| 0 <= t < tracks.len() implies (#[trigger] tracks[t]).clips.len()
                == 0 by {
                if t < n {
                    assert(d[t] == tracks[t]);
                }
            }
        }
        if forall|t: int| 0 <= t < tracks.len() ==> (#[trigger] tracks[t]).clips.len() == 0 {
            assert forall|t: int| 0 <= t < d.len() implies (#[trigger] d[t]).clips.len() == 0 by {
                assert(d[t] == tracks[t]);
            }
            assert(tracks[n].clips.len() == 0);
        }
    }
}

/// A project that is opened takes the place of the old one: its tracks, its rate and its path. Nothing
/// is selected, all of it is shown, and there is nothing to save.
pub proof fn law_an_opened_project_takes_over(
    v: AppView,
    tracks: Seq<TrackView>,
    rate: u32,
    path: Seq<char>,
)
    ensures
        ({
            let w = v.project_opened(tracks, rate, path);
            &&& w.tracks == tracks
            &&& w.project_rate == rate
            &&& w.project_path == Some(path)
            &&& w.selected_track is None
            &&& w.selected_clip is None
            &&& w.view_start == 0
            &&& w.view_duration == w.max_duration()
            &&& !w.undo_manager.is_dirty()
            &&& w.clipboard == v.clipboard
        }),
{
}

/// A click track comes in a new track below all others; the others stay as they are, what is selected
/// stays selected, and all of the project is shown. It is as long as the project, or 30 seconds for one
/// without length.
pub proof fn law_a_click_track_comes_last(v: AppView, clip: ClipView)
    ensures
        ({
            let w = v.click_track_added(clip);
            let n = v.tracks.len() as int;
            &&& w.tracks.len() == n + 1
            &&& w.tracks.subrange(0, n) == v.tracks
            &&& w.tracks[n].clips == seq![clip]
            &&& !w.tracks[n].muted
            &&& w.selected_track == v.selected_track
            &&& w.selected_clip == v.selected_clip
            &&& w.view_start == 0
            &&& w.view_duration == w.max_duration()
        }),
        v.max_duration() > 0 ==> v.click_track_length() == v.max_duration(),
        v.max_duration() == 0 ==> v.click_track_length() == 30 * 705_600_000,
{
    let w = v.click_track_added(clip);
    assert(w.tracks.subrange(0, v.tracks.len() as int) =~= v.tracks);
}

/// A dialog that was asked for is opened once, if none is open; a project that has a file is saved
/// without one. What is picked in a dialog goes to what the dialog was for.
pub proof fn law_a_dialog_does_what_it_was_opened_for(v: AppView, a: DeferredAction)
    requires
        v.deferred_action == Some(a),
        v.pending_dialog is None,
    ensures
        v.dialog_started().deferred_action is None,
        a == DeferredAction::SaveProject && v.project_path is Some ==> v.dialog_step()
            == DialogStep::SaveNow && v.dialog_started().pending_dialog is None,
        !(a == DeferredAction::SaveProject && v.project_path is Some) ==> v.dialog_step()
            == DialogStep::Open(a) && v.dialog_started().pending_dialog == Some(a)
            && v.dialog_started().file_task() == Some(
            match a {
                DeferredAction::OpenFile => FileTask::Import,
                DeferredAction::OpenProject => FileTask::OpenProject,
                DeferredAction::SaveProject => FileTask::SaveProject,
                DeferredAction::SaveProjectAs => FileTask::SaveProject,
                DeferredAction::ExportWav => FileTask::Export,
            },
        ),
{
}

/// A clip that was loaded for a track comes last in that track, at its time, and is selected; every other
/// clip stays as it is.
pub proof fn law_an_import_comes_last_in_its_track(v: AppView, t: usize, at: Secs, clip: ClipView)
    requires
        v.loading == Some(PendingLoad { target_track: Some(t), clip_offset_secs: at }),
        t < v.tracks.len(),
        v.tracks[t as int].clips.len() < usize::MAX,
    ensures
        ({
            let w = v.load_ended(Some(clip));
            &&& w.tracks == v.tracks.update(
                t as int,
                TrackView {
                    clips: v.tracks[t as int].clips.push(ClipView { offset_secs: at, ..clip }),
                    ..v.tracks[t as int]
                },
            )
            &&& w.selected_track == Some(t)
            &&& w.selected_clip == Some(v.tracks[t as int].clips.len() as usize)
            &&& w.loading is None
        }),
{
    let clips = v.tracks[t as int].clips;
    let c = clip.at(at);
    assert(clips.insert(clips.len() as int, c) =~= clips.push(c));
}

} // verus!
