//! The undo history: what it takes to take back an edit, and the stacks of such records.

use vstd::prelude::*;
use crate::audio::{Clip, ClipView};
use crate::sample::Sample;
use crate::time::Secs;
use crate::track::{Switches, Track, TrackView};

verus! {

/// How to take back an edit. Taking it back yields the record that brings it about again.
pub enum UndoAction {
    /// Puts a deleted clip back, in a track of its own if its track went with it.
    DeleteClip {
        track_idx: usize,
        clip_idx: usize,
        clip: Clip,
        track_was_removed: bool,
        /// The switches of the track that went
        switches: Switches,
        prev_sel_track: Option<usize>,
        prev_sel_clip: Option<usize>,
    },
    /// Replaces the two halves of a split clip by the clip that was split.
    SplitClip {
        track_idx: usize,
        clip_idx: usize,
        original_clip: Clip,
        prev_sel_clip: Option<usize>,
    },
    /// Replaces a clip by the two halves that it was joined from.
    JoinClip {
        track_idx: usize,
        clip_idx: usize,
        left: Clip,
        right: Clip,
        prev_sel_clip: Option<usize>,
    },
    /// Puts a cut clip back and restores the clipboard.
    CutClip {
        track_idx: usize,
        clip_idx: usize,
        clip: Clip,
        prev_clipboard: Vec<Clip>,
        prev_sel_clip: Option<usize>,
    },
    /// Cuts a clip again and restores the clipboard.
    RecutClip {
        track_idx: usize,
        clip_idx: usize,
        prev_clipboard: Vec<Clip>,
        prev_sel_clip: Option<usize>,
    },
    /// Removes a created track.
    CreateTrack {
        track_idx: usize,
        prev_sel_track: Option<usize>,
        prev_sel_clip: Option<usize>,
    },
    /// Brings a removed track back.
    RestoreTrack {
        track_idx: usize,
        track: Track,
        prev_sel_track: Option<usize>,
        prev_sel_clip: Option<usize>,
    },
    /// Moves a clip back to where it came from.
    MoveClip {
        src_track: usize,
        src_clip_idx: usize,
        src_offset: Secs,
        dest_track: usize,
        dest_clip_idx: usize,
        dest_offset: Secs,
        src_track_was_removed: bool,
        /// The switches of the source track that was removed
        src_switches: Switches,
        /// Whether the destination was empty before the move, and stays when it is empty again
        dest_was_empty: bool,
        prev_sel_track: Option<usize>,
        prev_sel_clip: Option<usize>,
    },
    /// Takes an imported clip out, and its track if that was made for it.
    ImportClip {
        track_idx: usize,
        clip_idx: usize,
        created_new_track: bool,
        prev_sel_track: Option<usize>,
        prev_sel_clip: Option<usize>,
    },
    /// Removes a generated click track.
    GenerateClickTrack {
        track_idx: usize,
        prev_sel_track: Option<usize>,
        prev_sel_clip: Option<usize>,
    },
    /// Goes back to the project that was open before.
    LoadProject {
        prev_tracks: Vec<Track>,
        prev_project_path: Option<String>,
        prev_project_rate: u32,
        prev_sel_track: Option<usize>,
        prev_sel_clip: Option<usize>,
    },
    /// Toggles the mute switch of a track.
    ToggleMute {
        track_idx: usize,
    },
    /// Gives a track the gain that it had before.
    AdjustTrackGain {
        track_idx: usize,
        prev_gain: Sample,
    },
    /// Gives a clip the gain that it had before.
    AdjustGain {
        track_idx: usize,
        clip_idx: usize,
        prev_gain: Sample,
    },
    /// Restores the clips that a track had before a paste.
    PasteClips {
        track_idx: usize,
        prev_clips: Vec<Clip>,
        prev_sel_clip: Option<usize>,
    },
    /// Restores the clips and the clipboard from before a region was cut.
    CutRegion {
        track_idx: usize,
        prev_clips: Vec<Clip>,
        prev_clipboard: Vec<Clip>,
        prev_sel_clip: Option<usize>,
        prev_selection: Option<(Secs, Secs)>,
    },
    /// Restores the clips from before a region was deleted.
    DeleteRegionMulti {
        track_idx: usize,
        prev_clips: Vec<Clip>,
        prev_sel_clip: Option<usize>,
        prev_selection: Option<(Secs, Secs)>,
    },
    /// Moves a group of clips back: for each its index, the offset before and the offset after.
    MoveClips {
        track_idx: usize,
        moves: Vec<(usize, Secs, Secs)>,
        prev_sel_track: Option<usize>,
        prev_sel_clip: Option<usize>,
    },
}

/// What an [`UndoAction`] holds.
#[verifier::ext_equal]
pub enum UndoRecord {
    DeleteClip {
        track_idx: usize,
        clip_idx: usize,
        clip: ClipView,
        track_was_removed: bool,
        switches: Switches,
        prev_sel_track: Option<usize>,
        prev_sel_clip: Option<usize>,
    },
    SplitClip {
        track_idx: usize,
        clip_idx: usize,
        original_clip: ClipView,
        prev_sel_clip: Option<usize>,
    },
    JoinClip {
        track_idx: usize,
        clip_idx: usize,
        left: ClipView,
        right: ClipView,
        prev_sel_clip: Option<usize>,
    },
    CutClip {
        track_idx: usize,
        clip_idx: usize,
        clip: ClipView,
        prev_clipboard: Seq<ClipView>,
        prev_sel_clip: Option<usize>,
    },
    RecutClip {
        track_idx: usize,
        clip_idx: usize,
        prev_clipboard: Seq<ClipView>,
        prev_sel_clip: Option<usize>,
    },
    CreateTrack {
        track_idx: usize,
        prev_sel_track: Option<usize>,
        prev_sel_clip: Option<usize>,
    },
    RestoreTrack {
        track_idx: usize,
        track: TrackView,
        prev_sel_track: Option<usize>,
        prev_sel_clip: Option<usize>,
    },
    MoveClip {
        src_track: usize,
        src_clip_idx: usize,
        src_offset: Secs,
        dest_track: usize,
        dest_clip_idx: usize,
        dest_offset: Secs,
        src_track_was_removed: bool,
        src_switches: Switches,
        dest_was_empty: bool,
        prev_sel_track: Option<usize>,
        prev_sel_clip: Option<usize>,
    },
    ImportClip {
        track_idx: usize,
        clip_idx: usize,
        created_new_track: bool,
        prev_sel_track: Option<usize>,
        prev_sel_clip: Option<usize>,
    },
    GenerateClickTrack {
        track_idx: usize,
        prev_sel_track: Option<usize>,
        prev_sel_clip: Option<usize>,
    },
    LoadProject {
        prev_tracks: Seq<TrackView>,
        prev_project_path: Option<Seq<char>>,
        prev_project_rate: u32,
        prev_sel_track: Option<usize>,
        prev_sel_clip: Option<usize>,
    },
    ToggleMute {
        track_idx: usize,
    },
    AdjustTrackGain {
        track_idx: usize,
        prev_gain: Sample,
    },
    AdjustGain {
        track_idx: usize,
        clip_idx: usize,
        prev_gain: Sample,
    },
    PasteClips {
        track_idx: usize,
        prev_clips: Seq<ClipView>,
        prev_sel_clip: Option<usize>,
    },
    CutRegion {
        track_idx: usize,
        prev_clips: Seq<ClipView>,
        prev_clipboard: Seq<ClipView>,
        prev_sel_clip: Option<usize>,
        prev_selection: Option<(Secs, Secs)>,
    },
    DeleteRegionMulti {
        track_idx: usize,
        prev_clips: Seq<ClipView>,
        prev_sel_clip: Option<usize>,
        prev_selection: Option<(Secs, Secs)>,
    },
    MoveClips {
        track_idx: usize,
        moves: Seq<(usize, Secs, Secs)>,
        prev_sel_track: Option<usize>,
        prev_sel_clip: Option<usize>,
    },
}

impl View for UndoAction {
    type V = UndoRecord;

    open spec fn view(&self) -> UndoRecord {
        match *self {
            UndoAction::DeleteClip {
                track_idx,
                clip_idx,
                clip,
                track_was_removed,
                switches,
                prev_sel_track,
                prev_sel_clip,
            } => UndoRecord::DeleteClip {
                track_idx,
                clip_idx,
                clip: clip@,
                track_was_removed,
                switches,
                prev_sel_track,
                prev_sel_clip,
            },
            UndoAction::SplitClip { track_idx, clip_idx, original_clip, prev_sel_clip } => {
                UndoRecord::SplitClip {
                    track_idx,
                    clip_idx,
                    original_clip: original_clip@,
                    prev_sel_clip,
                }
            },
            UndoAction::JoinClip { track_idx, clip_idx, left, right, prev_sel_clip } => {
                UndoRecord::JoinClip {
                    track_idx,
                    clip_idx,
                    left: left@,
                    right: right@,
                    prev_sel_clip,
                }
            },
            UndoAction::CutClip { track_idx, clip_idx, clip, prev_clipboard, prev_sel_clip } => {
                UndoRecord::CutClip {
                    track_idx,
                    clip_idx,
                    clip: clip@,
                    prev_clipboard: crate::track::clip_views(prev_clipboard@),
                    prev_sel_clip,
                }
            },
            UndoAction::RecutClip { track_idx, clip_idx, prev_clipboard, prev_sel_clip } => {
                UndoRecord::RecutClip {
                    track_idx,
                    clip_idx,
                    prev_clipboard: crate::track::clip_views(prev_clipboard@),
                    prev_sel_clip,
                }
            },
            UndoAction::CreateTrack { track_idx, prev_sel_track, prev_sel_clip } => {
                UndoRecord::CreateTrack { track_idx, prev_sel_track, prev_sel_clip }
            },
            UndoAction::RestoreTrack { track_idx, track, prev_sel_track, prev_sel_clip } => {
                UndoRecord::RestoreTrack {
                    track_idx,
                    track: track@,
                    prev_sel_track,
                    prev_sel_clip,
                }
            },
            UndoAction::MoveClip {
                src_track,
                src_clip_idx,
                src_offset,
                dest_track,
                dest_clip_idx,
                dest_offset,
                src_track_was_removed,
                src_switches,
                dest_was_empty,
                prev_sel_track,
                prev_sel_clip,
            } => UndoRecord::MoveClip {
                src_track,
                src_clip_idx,
                src_offset,
                dest_track,
                dest_clip_idx,
                dest_offset,
                src_track_was_removed,
                src_switches,
                dest_was_empty,
                prev_sel_track,
                prev_sel_clip,
            },
            UndoAction::ImportClip {
                track_idx,
                clip_idx,
                created_new_track,
                prev_sel_track,
                prev_sel_clip,
            } => UndoRecord::ImportClip {
                track_idx,
                clip_idx,
                created_new_track,
                prev_sel_track,
                prev_sel_clip,
            },
            UndoAction::GenerateClickTrack { track_idx, prev_sel_track, prev_sel_clip } => {
                UndoRecord::GenerateClickTrack { track_idx, prev_sel_track, prev_sel_clip }
            },
            UndoAction::LoadProject {
                prev_tracks,
                prev_project_path,
                prev_project_rate,
                prev_sel_track,
                prev_sel_clip,
            } => UndoRecord::LoadProject {
                prev_tracks: crate::track::track_views(prev_tracks@),
                prev_project_path: crate::audio::text_of(prev_project_path),
                prev_project_rate,
                prev_sel_track,
                prev_sel_clip,
            },
            UndoAction::ToggleMute { track_idx } => UndoRecord::ToggleMute { track_idx },
            UndoAction::AdjustTrackGain { track_idx, prev_gain } => {
                UndoRecord::AdjustTrackGain { track_idx, prev_gain }
            },
            UndoAction::AdjustGain { track_idx, clip_idx, prev_gain } => {
                UndoRecord::AdjustGain { track_idx, clip_idx, prev_gain }
            },
            UndoAction::PasteClips { track_idx, prev_clips, prev_sel_clip } => {
                UndoRecord::PasteClips {
                    track_idx,
                    prev_clips: crate::track::clip_views(prev_clips@),
                    prev_sel_clip,
                }
            },
            UndoAction::CutRegion {
                track_idx,
                prev_clips,
                prev_clipboard,
                prev_sel_clip,
                prev_selection,
            } => UndoRecord::CutRegion {
                track_idx,
                prev_clips: crate::track::clip_views(prev_clips@),
                prev_clipboard: crate::track::clip_views(prev_clipboard@),
                prev_sel_clip,
                prev_selection,
            },
            UndoAction::DeleteRegionMulti {
                track_idx,
                prev_clips,
                prev_sel_clip,
                prev_selection,
            } => UndoRecord::DeleteRegionMulti {
                track_idx,
                prev_clips: crate::track::clip_views(prev_clips@),
                prev_sel_clip,
                prev_selection,
            },
            UndoAction::MoveClips { track_idx, moves, prev_sel_track, prev_sel_clip } => {
                UndoRecord::MoveClips {
                    track_idx,
                    moves: moves@,
                    prev_sel_track,
                    prev_sel_clip,
                }
            },
        }
    }
}

impl UndoRecord {
    /// Whether every clip that the record holds is in order.
    pub open spec fn ok(self) -> bool {
        match self {
            UndoRecord::DeleteClip { clip, .. } => clip.ok(),
            UndoRecord::SplitClip { original_clip, .. } => original_clip.ok(),
            UndoRecord::JoinClip { left, right, .. } => left.ok() && right.ok(),
            UndoRecord::CutClip { clip, prev_clipboard, .. } => clip.ok()
                && crate::track::clips_ok(prev_clipboard),
            UndoRecord::RecutClip { prev_clipboard, .. } => crate::track::clips_ok(prev_clipboard),
            UndoRecord::RestoreTrack { track, .. } => crate::track::clips_ok(track.clips),
            UndoRecord::LoadProject { prev_tracks, .. } => crate::track::tracks_ok(prev_tracks),
            UndoRecord::PasteClips { prev_clips, .. } => crate::track::clips_ok(prev_clips),
            UndoRecord::CutRegion { prev_clips, prev_clipboard, .. } => crate::track::clips_ok(
                prev_clips,
            ) && crate::track::clips_ok(prev_clipboard),
            UndoRecord::DeleteRegionMulti { prev_clips, .. } => crate::track::clips_ok(prev_clips),
            _ => true,
        }
    }
}

/// What each of some records holds.
pub open spec fn records(actions: Seq<UndoAction>) -> Seq<UndoRecord> {
    actions.map_values(|a: UndoAction| a@)
}

/// The undo and the redo stack. The undo stack keeps at most `max_entries` records.
pub struct UndoManager {
    undo_stack: Vec<UndoAction>,
    redo_stack: Vec<UndoAction>,
    max_entries: usize,
    /// How many records the undo stack holds in the state that was last saved, if that state can
    /// be reached by undo or redo
    saved_at: Option<usize>,
}

/// What an [`UndoManager`] holds: both stacks, the latest record last.
#[verifier::ext_equal]
pub struct History {
    pub undo: Seq<UndoRecord>,
    pub redo: Seq<UndoRecord>,
    pub max_entries: usize,
    pub saved_at: Option<usize>,
}

/// A stack with one more record on it; a record too many goes at the bottom.
pub open spec fn pushed(stack: Seq<UndoRecord>, a: UndoRecord, max_entries: usize) -> Seq<
    UndoRecord,
> {
    if stack.len() >= max_entries {
        stack.push(a).remove(0)
    } else {
        stack.push(a)
    }
}

/// Where the saved state is after the record at the bottom has gone.
pub open spec fn saved_below(saved_at: Option<usize>) -> Option<usize> {
    match saved_at {
        Some(k) => if k > 0 {
            Some((k - 1) as usize)
        } else {
            None
        },
        None => None,
    }
}

impl History {
    /// Whether every clip in the history is in order.
    pub open spec fn ok(self) -> bool {
        &&& forall|i: int| 0 <= i < self.undo.len() ==> (#[trigger] self.undo[i]).ok()
        &&& forall|i: int| 0 <= i < self.redo.len() ==> (#[trigger] self.redo[i]).ok()
    }

    /// The history after an edit with record `a`: what was undone cannot be redone any more.
    pub open spec fn push(self, a: UndoRecord) -> History {
        let reachable = match self.saved_at {
            Some(k) => if k <= self.undo.len() {
                Some(k)
            } else {
                None
            },
            None => None,
        };
        History {
            undo: pushed(self.undo, a, self.max_entries),
            redo: Seq::empty(),
            saved_at: if self.undo.len() >= self.max_entries {
                saved_below(reachable)
            } else {
                reachable
            },
            ..self
        }
    }

    /// The history with `a` on the undo stack, as redo puts it there.
    pub open spec fn push_undo(self, a: UndoRecord) -> History {
        History {
            undo: pushed(self.undo, a, self.max_entries),
            saved_at: if self.undo.len() >= self.max_entries {
                saved_below(self.saved_at)
            } else {
                self.saved_at
            },
            ..self
        }
    }

    /// The history with `a` on the redo stack.
    pub open spec fn push_redo(self, a: UndoRecord) -> History {
        History { redo: self.redo.push(a), ..self }
    }

    /// The history without the latest undo record.
    pub open spec fn pop_undo(self) -> History {
        History { undo: self.undo.drop_last(), ..self }
    }

    /// The history without the latest redo record.
    pub open spec fn pop_redo(self) -> History {
        History { redo: self.redo.drop_last(), ..self }
    }

    /// The history with its present state taken for saved.
    pub open spec fn saved(self) -> History {
        History { saved_at: Some(self.undo.len() as usize), ..self }
    }

    /// Whether the present state differs from the saved one.
    pub open spec fn is_dirty(self) -> bool {
        self.saved_at != Some(self.undo.len() as usize)
    }
}

impl View for UndoManager {
    type V = History;

    closed spec fn view(&self) -> History {
        History {
            undo: records(self.undo_stack@),
            redo: records(self.redo_stack@),
            max_entries: self.max_entries,
            saved_at: self.saved_at,
        }
    }
}

impl UndoManager {
    /// An empty history that keeps at most `max_entries` undo records.
    pub fn new(max_entries: usize) -> (r: Self)
        ensures
            r@ == (History {
                undo: Seq::empty(),
                redo: Seq::empty(),
                max_entries,
                saved_at: Some(0),
            }),
    {
        let r = UndoManager {
            undo_stack: Vec::new(),
            redo_stack: Vec::new(),
            max_entries,
            saved_at: Some(0),
        };
        assert(r@.undo =~= Seq::empty());
        assert(r@.redo =~= Seq::empty());
        r
    }

    /// Records an edit.
    pub fn push(&mut self, action: UndoAction)
        ensures
            final(self)@ == old(self)@.push(action@),
    {
        if let Some(k) = self.saved_at {
            if k > self.undo_stack.len() {
                self.saved_at = None;
            }
        }
        self.redo_stack.clear();
        self.push_undo(action);
        assert(self@.redo =~= Seq::empty());
    }

    /// Takes the latest undo record.
    pub fn pop_undo(&mut self) -> (r: Option<UndoAction>)
        ensures
            match r {
                Some(a) => old(self)@.undo.len() > 0 && a@ == old(self)@.undo.last()
                    && final(self)@ == old(self)@.pop_undo(),
                None => old(self)@.undo.len() == 0 && final(self)@ == old(self)@,
            },
    {
        let r: Option<UndoAction> = self.undo_stack.pop();
        assert(r is Some ==> self@.undo =~= old(self)@.undo.drop_last());
        r
    }

    /// Puts a record on the redo stack.
    pub fn push_redo(&mut self, action: UndoAction)
        ensures
            final(self)@ == old(self)@.push_redo(action@),
    {
        self.redo_stack.push(action);
        assert(self@.redo =~= old(self)@.redo.push(action@));
    }

    /// Takes the latest redo record.
    pub fn pop_redo(&mut self) -> (r: Option<UndoAction>)
        ensures
            match r {
                Some(a) => old(self)@.redo.len() > 0 && a@ == old(self)@.redo.last()
                    && final(self)@ == old(self)@.pop_redo(),
                None => old(self)@.redo.len() == 0 && final(self)@ == old(self)@,
            },
    {
        let r: Option<UndoAction> = self.redo_stack.pop();
        assert(r is Some ==> self@.redo =~= old(self)@.redo.drop_last());
        r
    }

    /// Puts a record on the undo stack without touching the redo stack.
    pub fn push_undo(&mut self, action: UndoAction)
        ensures
            final(self)@ == old(self)@.push_undo(action@),
    {
        let ghost stack = old(self)@.undo.push(action@);
        self.undo_stack.push(action);
        assert(self@.undo =~= stack);
        if self.undo_stack.len() > self.max_entries {
            self.undo_stack.remove(0);
            assert(self@.undo =~= stack.remove(0));
            self.saved_at = match self.saved_at {
                Some(k) => if k > 0 {
                    Some(k - 1)
                } else {
                    None
                },
                None => None,
            };
        }
    }

    /// Takes the present state for saved.
    pub fn mark_saved(&mut self)
        ensures
            final(self)@ == old(self)@.saved(),
    {
        self.saved_at = Some(self.undo_stack.len());
    }

    /// Whether the present state differs from the saved one.
    pub fn is_dirty(&self) -> (r: bool)
        ensures
            r == self@.is_dirty(),
    {
        match self.saved_at {
            Some(k) => k != self.undo_stack.len(),
            None => true,
        }
    }

    /// The latest undo record.
    pub fn peek_undo(&self) -> (r: Option<&UndoAction>)
        ensures
            match r {
                Some(a) => self@.undo.len() > 0 && a@ == self@.undo.last(),
                None => self@.undo.len() == 0,
            },
    {
        if self.undo_stack.len() > 0 {
            Some(&self.undo_stack[self.undo_stack.len() - 1])
        } else {
            None
        }
    }

    /// The latest redo record.
    pub fn peek_redo(&self) -> (r: Option<&UndoAction>)
        ensures
            match r {
                Some(a) => self@.redo.len() > 0 && a@ == self@.redo.last(),
                None => self@.redo.len() == 0,
            },
    {
        if self.redo_stack.len() > 0 {
            Some(&self.redo_stack[self.redo_stack.len() - 1])
        } else {
            None
        }
    }
}

/// The undo stack never holds more than `max_entries` records.
pub proof fn law_stack_is_bounded(h: History, a: UndoRecord)
    requires
        h.undo.len() <= h.max_entries,
    ensures
        h.push(a).undo.len() <= h.max_entries,
        h.push_undo(a).undo.len() <= h.max_entries,
        h.pop_undo().undo.len() <= h.max_entries || h.undo.len() == 0,
{
}

/// An edit makes a saved project dirty, taking the edit back makes it clean again, and so does
/// saving it.
pub proof fn law_dirty_until_undone_or_saved(h: History, a: UndoRecord, b: UndoRecord)
    requires
        !h.is_dirty(),
        h.undo.len() < h.max_entries,
    ensures
        h.push(a).is_dirty(),
        !h.push(a).pop_undo().push_redo(b).is_dirty(),
        !h.push(a).saved().is_dirty(),
        h.push(a).pop_undo().push_redo(b).pop_redo().push_undo(a).is_dirty(),
{
}

/// An edit after an undo leaves nothing to redo.
pub proof fn law_edit_drops_redo(h: History, a: UndoRecord)
    ensures
        h.push(a).redo.len() == 0,
        h.max_entries > 0 ==> h.push(a).undo.last() == a,
{
}

/// A record that is in order keeps the history in order, whichever way it gets there.
pub proof fn lemma_history_ok(h: History, a: UndoRecord)
    requires
        h.ok(),
        a.ok(),
    ensures
        h.push(a).ok(),
        h.push_undo(a).ok(),
        h.push_redo(a).ok(),
{
    let stack = pushed(h.undo, a, h.max_entries);
    assert forall|i: int| 0 <= i < stack.len() implies (#[trigger] stack[i]).ok() by {
        let j = if h.undo.len() >= h.max_entries { i + 1 } else { i };
        assert(stack[i] == h.undo.push(a)[j]);
        if j < h.undo.len() {
            assert(h.undo.push(a)[j] == h.undo[j]);
        }
    }
}

/// The history stays in order when a record is taken from it, and so is the record.
pub proof fn lemma_popped_ok(h: History)
    requires
        h.ok(),
    ensures
        h.undo.len() > 0 ==> h.undo.last().ok() && h.pop_undo().ok(),
        h.redo.len() > 0 ==> h.redo.last().ok() && h.pop_redo().ok(),
{
    if h.undo.len() > 0 {
        assert(h.undo.last() == h.undo[h.undo.len() - 1]);
        let u = h.undo.drop_last();
        assert forall|i: int| 0 <= i < u.len() implies (#[trigger] u[i]).ok() by {
            assert(u[i] == h.undo[i]);
        }
    }
    if h.redo.len() > 0 {
        assert(h.redo.last() == h.redo[h.redo.len() - 1]);
        let r = h.redo.drop_last();
        assert forall|i: int| 0 <= i < r.len() implies (#[trigger] r[i]).ok() by {
            assert(r[i] == h.redo[i]);
        }
    }
}

/// An edit is the next to be undone; once undone it is the next to be redone, and what was to be undone
/// before it is so again. Where there is no more room, the oldest edit is forgotten, and no other.
pub proof fn law_the_last_edit_is_undone_first(h: History, a: UndoRecord, b: UndoRecord)
    requires
        h.max_entries > 0,
        h.undo.len() <= h.max_entries,
    ensures
        h.push(a).undo.last() == a,
        h.undo.len() < h.max_entries ==> h.push(a).undo == h.undo.push(a),
        h.undo.len() == h.max_entries ==> h.push(a).undo == h.undo.subrange(
            1,
            h.undo.len() as int,
        ).push(a),
        h.undo.len() < h.max_entries ==> h.push(a).pop_undo().undo == h.undo,
        h.push_redo(b).redo.last() == b,
        h.push_redo(b).pop_redo().redo == h.redo,
        h.push_redo(b).undo == h.undo,
        h.push_undo(b).undo.last() == b,
        h.push_undo(b).redo == h.redo,
{
    assert(h.undo.push(a).drop_last() =~= h.undo);
    assert(h.redo.push(b).drop_last() =~= h.redo);
    if h.undo.len() == h.max_entries {
        assert(h.undo.push(a).remove(0) =~= h.undo.subrange(1, h.undo.len() as int).push(a));
    }
}

/// With a full history an edit still makes a saved project dirty, and taking it back makes it clean. A
/// saved state that was undone past and edited away is never reached again.
pub proof fn law_a_lost_saved_state_stays_dirty(h: History, a: UndoRecord, b: UndoRecord)
    requires
        h.max_entries > 0,
    ensures
        !h.is_dirty() && 0 < h.undo.len() == h.max_entries ==> h.push(a).is_dirty() && !h.push(
            a,
        ).pop_undo().push_redo(b).is_dirty(),
        (h.saved_at matches Some(k) && k > h.undo.len()) ==> h.push(a).saved_at is None && h.push(
            a,
        ).is_dirty(),
        h.saved_at is None ==> h.push(a).is_dirty() && h.push(a).pop_undo().is_dirty(),
        !h.saved().is_dirty(),
        h.saved().undo == h.undo && h.saved().redo == h.redo,
{
}

} // verus!
