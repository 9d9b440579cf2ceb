//! The state of the editor.

use vstd::prelude::*;
use crate::audio::{Clip, ClipView};
use crate::modal::{Modal, ModalView};
use crate::time::Secs;
use crate::track::{tracks_duration, Track, TrackView};
use crate::undo::{History, UndoManager};

verus! {

/// A pixel coordinate, counted in 256ths of a physical pixel.
pub type Px = i32;

/// The parts that a pixel is counted in.
pub const SUBPX: i64 = 256;

/// How far the pointer has to travel before a press becomes a drag, in pixels.
pub const DRAG_THRESHOLD_PX: i64 = 4;

/// How near to an edge of the selection the pointer has to be to grab it, in pixels.
pub const SELECTION_EDGE_PX: i64 = 6;

/// How near to an edge a dragged clip snaps to it, in pixels.
pub const SNAP_PX: i64 = 10;

/// How many edits can be undone.
pub const MAX_UNDO: usize = 100;

/// The sample rate of a new project.
pub const DEFAULT_RATE: u32 = 48_000;

/// Height of the title bar in logical pixels.
pub const TITLE_BAR_LP: i64 = 28;

/// Width of the track label column in logical pixels.
pub const TRACK_LABEL_LP: i64 = 36;

/// The size of the window in physical pixels.
#[derive(Clone, Copy, Debug, PartialEq, Eq, Structural)]
pub struct SurfaceSize {
    pub width: u32,
    pub height: u32,
}

/// An audio file that is being loaded.
#[derive(Clone, Copy, Debug, PartialEq, Eq, Structural)]
pub struct PendingLoad {
    /// Which track to add the clip to, or None to create a new track
    pub target_track: Option<usize>,
    /// Timeline position for the new clip
    pub clip_offset_secs: Secs,
}

/// A clip, or a group of clips, that is being dragged.
pub struct DragState {
    pub clip_idx: usize,
    pub start_offset: Secs,
    pub start_x: Px,
    pub start_y: Px,
    pub source_track_idx: usize,
    pub current_track_idx: usize,
    pub active: bool,
    pub source_clip_idx: usize,
    pub prev_selected_track: Option<usize>,
    pub prev_selected_clip: Option<usize>,
    /// Group drag: index and original offset of all clips that are dragged together.
    /// Empty means single-clip drag.
    pub group: Vec<(usize, Secs)>,
}

/// What a [`DragState`] holds.
#[verifier::ext_equal]
pub struct DragView {
    pub clip_idx: usize,
    pub start_offset: Secs,
    pub start_x: Px,
    pub start_y: Px,
    pub source_track_idx: usize,
    pub current_track_idx: usize,
    pub active: bool,
    pub source_clip_idx: usize,
    pub prev_selected_track: Option<usize>,
    pub prev_selected_clip: Option<usize>,
    pub group: Seq<(usize, Secs)>,
}

impl View for DragState {
    type V = DragView;

    open spec fn view(&self) -> DragView {
        DragView {
            clip_idx: self.clip_idx,
            start_offset: self.start_offset,
            start_x: self.start_x,
            start_y: self.start_y,
            source_track_idx: self.source_track_idx,
            current_track_idx: self.current_track_idx,
            active: self.active,
            source_clip_idx: self.source_clip_idx,
            prev_selected_track: self.prev_selected_track,
            prev_selected_clip: self.prev_selected_clip,
            group: self.group@,
        }
    }
}

/// An edge of the selection.
#[derive(Clone, Copy, Debug, PartialEq, Eq, Structural)]
pub enum SelectionEdge {
    Left,
    Right,
}

/// What a native file dialog is opened for.
#[derive(Clone, Copy, Debug, PartialEq, Eq, Structural)]
pub enum DeferredAction {
    OpenFile,
    OpenProject,
    SaveProject,
    SaveProjectAs,
    ExportWav,
}

/// What has to be brought up to date after an event.
#[derive(Clone, Copy, Debug, PartialEq, Eq, Structural)]
pub enum Effects {
    /// Nothing
    Nothing,
    /// The title
    Title,
    /// The window
    Redraw,
    /// The title and the window
    Retitle,
    /// The mix that is played, and the window
    Remix,
    /// The mix that is played, the title, and the window
    Refresh,
}

/// The editor.
pub struct App {
    pub config: Option<SurfaceSize>,
    /// How many physical pixels a logical pixel has, in 256ths
    pub scale: u16,
    pub tracks: Vec<Track>,
    pub project_path: Option<String>,
    pub super_key: bool,
    pub shift_key: bool,
    pub cursor_x: Px,
    pub cursor_y: Px,
    pub selected_track: Option<usize>,
    pub selected_clip: Option<usize>,
    pub multi_selected_clips: Vec<usize>,
    pub view_start: Secs,
    /// The stretch of the timeline that is shown; 0 shows all of it
    pub view_duration: Secs,
    pub modal: Option<Modal>,
    pub project_rate: u32,
    pub loading: Option<PendingLoad>,
    pub dragging: Option<DragState>,
    pub selection: Option<(Secs, Secs)>,
    pub selecting: bool,
    pub selecting_edge: Option<SelectionEdge>,
    pub clipboard: Vec<Clip>,
    pub undo_manager: UndoManager,
    pub deferred_action: Option<DeferredAction>,
    /// What the file dialog that is open was opened for
    pub pending_dialog: Option<DeferredAction>,
}

/// What an [`App`] holds.
#[verifier::ext_equal]
pub struct AppView {
    pub config: Option<SurfaceSize>,
    pub scale: u16,
    pub tracks: Seq<TrackView>,
    pub project_path: Option<Seq<char>>,
    pub super_key: bool,
    pub shift_key: bool,
    pub cursor_x: Px,
    pub cursor_y: Px,
    pub selected_track: Option<usize>,
    pub selected_clip: Option<usize>,
    pub multi_selected_clips: Seq<usize>,
    pub view_start: Secs,
    pub view_duration: Secs,
    pub modal: Option<ModalView>,
    pub project_rate: u32,
    pub loading: Option<PendingLoad>,
    pub dragging: Option<DragView>,
    pub selection: Option<(Secs, Secs)>,
    pub selecting: bool,
    pub selecting_edge: Option<SelectionEdge>,
    pub clipboard: Seq<ClipView>,
    pub undo_manager: History,
    pub deferred_action: Option<DeferredAction>,
    pub pending_dialog: Option<DeferredAction>,
}

/// What an optional modal holds.
pub open spec fn modal_view(m: Option<Modal>) -> Option<ModalView> {
    match m {
        Some(m) => Some(m@),
        None => None,
    }
}

/// What an optional drag holds.
pub open spec fn drag_view(d: Option<DragState>) -> Option<DragView> {
    match d {
        Some(d) => Some(d@),
        None => None,
    }
}

impl View for App {
    type V = AppView;

    open spec fn view(&self) -> AppView {
        AppView {
            config: self.config,
            scale: self.scale,
            tracks: crate::track::track_views(self.tracks@),
            project_path: crate::audio::text_of(self.project_path),
            super_key: self.super_key,
            shift_key: self.shift_key,
            cursor_x: self.cursor_x,
            cursor_y: self.cursor_y,
            selected_track: self.selected_track,
            selected_clip: self.selected_clip,
            multi_selected_clips: self.multi_selected_clips@,
            view_start: self.view_start,
            view_duration: self.view_duration,
            modal: modal_view(self.modal),
            project_rate: self.project_rate,
            loading: self.loading,
            dragging: drag_view(self.dragging),
            selection: self.selection,
            selecting: self.selecting,
            selecting_edge: self.selecting_edge,
            clipboard: crate::track::clip_views(self.clipboard@),
            undo_manager: self.undo_manager@,
            deferred_action: self.deferred_action,
            pending_dialog: self.pending_dialog,
        }
    }
}

impl AppView {
    /// Every clip is in order, the window has a size, the modal holds what can be typed, and no
    /// clip is selected twice.
    pub open spec fn ok(self) -> bool {
        &&& crate::track::tracks_ok(self.tracks)
        &&& crate::track::clips_ok(self.clipboard)
        &&& self.undo_manager.ok()
        &&& self.config matches Some(s) ==> s.width > 0 && s.height > 0
        &&& self.modal matches Some(m) ==> m.ok()
        &&& self.multi_selected_clips.no_duplicates()
    }

    /// Where the last clip of the project ends.
    pub open spec fn max_duration(self) -> Secs {
        crate::time::sat_secs(crate::track::project_end(self.tracks))
    }

    /// The stretch of the timeline that is shown.
    pub open spec fn effective_view_duration(self) -> Secs {
        if self.view_duration > 0 {
            self.view_duration
        } else {
            self.max_duration()
        }
    }

    /// Whether `t` is a track and `c` one of its clips.
    pub open spec fn has_clip(self, t: usize, c: usize) -> bool {
        t < self.tracks.len() && c < self.tracks[t as int].clips.len()
    }

    /// Shows the whole timeline.
    pub open spec fn zoomed_out(self) -> AppView {
        AppView { view_start: 0, view_duration: self.max_duration(), ..self }
    }
}

impl App {
    /// An editor with an empty project.
    pub fn new() -> (r: Self)
        ensures
            r@.ok(),
            r@ == (AppView {
                config: None,
                scale: 256,
                tracks: Seq::empty(),
                project_path: None,
                super_key: false,
                shift_key: false,
                cursor_x: 0,
                cursor_y: 0,
                selected_track: None,
                selected_clip: None,
                multi_selected_clips: Seq::empty(),
                view_start: 0,
                view_duration: 0,
                modal: None,
                project_rate: DEFAULT_RATE,
                loading: None,
                dragging: None,
                selection: None,
                selecting: false,
                selecting_edge: None,
                clipboard: Seq::empty(),
                undo_manager: History {
                    undo: Seq::empty(),
                    redo: Seq::empty(),
                    max_entries: MAX_UNDO,
                    saved_at: Some(0),
                },
                deferred_action: None,
                pending_dialog: None,
            }),
    {
        let r = App {
            config: None,
            scale: 256,
            tracks: Vec::new(),
            project_path: None,
            super_key: false,
            shift_key: false,
            cursor_x: 0,
            cursor_y: 0,
            selected_track: None,
            selected_clip: None,
            multi_selected_clips: Vec::new(),
            view_start: 0,
            view_duration: 0,
            modal: None,
            project_rate: DEFAULT_RATE,
            loading: None,
            dragging: None,
            selection: None,
            selecting: false,
            selecting_edge: None,
            clipboard: Vec::new(),
            undo_manager: UndoManager::new(MAX_UNDO),
            deferred_action: None,
            pending_dialog: None,
        };
        assert(r@.tracks =~= Seq::empty());
        assert(r@.clipboard =~= Seq::empty());
        r
    }

    /// Where the last clip of the project ends.
    pub fn max_duration(&self) -> (r: Secs)
        requires
            crate::track::tracks_ok(self@.tracks),
        ensures
            r == self@.max_duration(),
            r >= 0,
    {
        tracks_duration(&self.tracks)
    }

    /// The stretch of the timeline that is shown.
    pub fn effective_view_duration(&self) -> (r: Secs)
        requires
            crate::track::tracks_ok(self@.tracks),
        ensures
            r == self@.effective_view_duration(),
            r >= 0,
    {
        if self.view_duration > 0 {
            self.view_duration
        } else {
            self.max_duration()
        }
    }
}

} // verus!
