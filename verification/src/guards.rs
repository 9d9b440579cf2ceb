//! Whether what an operation works on is there.

use vstd::prelude::*;
use crate::app::{App, DragState, Px};
use crate::keys::Command;
use crate::mix::count_frames;
use crate::playback::find_rate;
use crate::pointer::is_far;
use crate::track::Track;
use crate::undo::UndoAction;

verus! {

/// Whether there is a clip `c` of track `t`.
fn has_clip(tracks: &Vec<Track>, t: usize, c: usize) -> (r: bool)
    ensures
        r == (t < tracks@.len() && c < crate::track::track_views(tracks@)[t as int].clips.len()),
{
    assert(t < tracks@.len() ==> crate::track::track_views(tracks@)[t as int] == tracks@[t as int]@);
    t < tracks.len() && c < tracks[t].clips.len()
}

/// Whether a record can be applied to these tracks.
pub fn record_applies(tracks: &Vec<Track>, action: &UndoAction) -> (r: bool)
    ensures
        r == action@.applies_to(crate::track::track_views(tracks@)),
{
    let ghost views = crate::track::track_views(tracks@);
    let n: usize = tracks.len();
    assert(views.len() == n);
    match action {
        UndoAction::DeleteClip { track_idx, clip_idx, track_was_removed, .. } => {
            if *track_was_removed {
                *track_idx <= n && *clip_idx == 0
            } else {
                assert(*track_idx < n ==> views[*track_idx as int] == tracks@[*track_idx as int]@);
                *track_idx < n && *clip_idx <= tracks[*track_idx].clips.len()
            }
        },
        UndoAction::SplitClip { track_idx, clip_idx, .. } => {
            assert(*track_idx < n ==> views[*track_idx as int] == tracks@[*track_idx as int]@);
            *track_idx < n && tracks[*track_idx].clips.len() > 0 && *clip_idx
                < tracks[*track_idx].clips.len() - 1
        },
        UndoAction::JoinClip { track_idx, clip_idx, .. } => has_clip(tracks, *track_idx, *clip_idx),
        UndoAction::CutClip { track_idx, clip_idx, .. } => {
            assert(*track_idx < n ==> views[*track_idx as int] == tracks@[*track_idx as int]@);
            *track_idx < n && *clip_idx <= tracks[*track_idx].clips.len()
        },
        UndoAction::RecutClip { track_idx, clip_idx, .. } => has_clip(tracks, *track_idx, *clip_idx),
        UndoAction::CreateTrack { track_idx, .. } => *track_idx < n,
        UndoAction::RestoreTrack { track_idx, .. } => *track_idx <= n,
        UndoAction::MoveClip { src_track, dest_track, dest_clip_idx, src_track_was_removed, .. } => {
            !has_clip(tracks, *dest_track, *dest_clip_idx) || *src_track < n
                || *src_track_was_removed && *src_track == n
        },
        UndoAction::ImportClip { track_idx, clip_idx, .. } => has_clip(
            tracks,
            *track_idx,
            *clip_idx,
        ),
        UndoAction::GenerateClickTrack { track_idx, .. } => has_clip(tracks, *track_idx, 0),
        UndoAction::LoadProject { .. } => true,
        UndoAction::ToggleMute { track_idx } => *track_idx < n,
        UndoAction::AdjustTrackGain { track_idx, .. } => *track_idx < n,
        UndoAction::AdjustGain { track_idx, clip_idx, .. } => has_clip(
            tracks,
            *track_idx,
            *clip_idx,
        ),
        UndoAction::PasteClips { track_idx, .. } => *track_idx < n,
        UndoAction::CutRegion { track_idx, .. } => *track_idx < n,
        UndoAction::DeleteRegionMulti { track_idx, .. } => *track_idx < n,
        UndoAction::MoveClips { track_idx, .. } => *track_idx < n,
    }
}

/// Whether the mix of some tracks is short enough for a player.
pub fn player_fits(tracks: &Vec<Track>) -> (r: bool)
    requires
        crate::track::tracks_ok(crate::track::track_views(tracks@)),
    ensures
        r == (crate::playback::first_rate(crate::track::track_views(tracks@)) matches Some(rate)
            ==> 2 * crate::playback::played_frames(crate::track::track_views(tracks@), rate)
            <= usize::MAX),
{
    match find_rate(tracks) {
        Some(rate) => count_frames(tracks, rate, false) <= usize::MAX as u128 / 2,
        None => true,
    }
}

impl App {
    /// Whether the mix of the project is short enough for an export.
    pub fn export_fits(&self) -> (r: bool)
        ensures
            r == (2 * crate::playback::exported_frames(self@.tracks, self@.project_rate)
                <= usize::MAX),
    {
        count_frames(&self.tracks, self.project_rate, true) <= usize::MAX as u128 / 2
    }

    /// Whether undo finds the tracks as its record expects them.
    pub fn can_undo(&self) -> (r: bool)
        ensures
            r == self@.can_undo(),
    {
        match self.undo_manager.peek_undo() {
            Some(a) => record_applies(&self.tracks, a),
            None => true,
        }
    }

    /// Whether redo finds the tracks as its record expects them.
    pub fn can_redo(&self) -> (r: bool)
        ensures
            r == self@.can_redo(),
    {
        match self.undo_manager.peek_redo() {
            Some(a) => record_applies(&self.tracks, a),
            None => true,
        }
    }

    /// Whether what a command works on is there.
    pub fn can_do(&self, command: Command) -> (r: bool)
        ensures
            r == self@.can_do(command),
    {
        match command {
            Command::Undo => self.can_undo(),
            Command::Redo => self.can_redo(),
            Command::NewTrack => {
                match self.selected_track {
                    Some(t) => t < self.tracks.len(),
                    None => true,
                }
            },
            Command::Split => {
                match (self.selected_track, self.selected_clip) {
                    (Some(t), Some(c)) => has_clip(&self.tracks, t, c),
                    _ => true,
                }
            },
            _ => true,
        }
    }

    /// Whether the clips of a dragged group are there.
    fn has_group(&self, d: &DragState) -> (r: bool)
        ensures
            r == self@.has_group(d@),
    {
        let t: usize = d.current_track_idx;
        if t >= self.tracks.len() {
            return false;
        }
        assert(self@.tracks[t as int] == self.tracks@[t as int]@);
        let n: usize = self.tracks[t].clips.len();
        let mut k: usize = 0;
        while k < d.group.len()
            invariant
                k <= d.group@.len(),
                t == d.current_track_idx,
                t < self@.tracks.len(),
                n == self@.tracks[t as int].clips.len(),
                forall|j: int| 0 <= j < k ==> (#[trigger] d.group@[j]).0 < n,
            decreases d.group@.len() - k,
        {
            if d.group[k].0 >= n {
                assert(!(d@.group[k as int].0 < n));
                return false;
            }
            k = k + 1;
        }
        true
    }

    /// Whether what is dragged can follow the pointer to `px`, `py`.
    pub fn can_drag(&self, px: Px, py: Px) -> (r: bool)
        ensures
            r == (self@.pointed(px, py).dragging matches Some(d) ==> d.active ==> self@.can_drag(d)),
    {
        match &self.dragging {
            Some(d) => {
                let active: bool = d.active || is_far(d.start_x, d.start_y, px, py);
                !active || self.config.is_some() && if d.group.len() > 0 {
                    self.has_group(d)
                } else {
                    self.tracks.len() > 0
                }
            },
            None => true,
        }
    }

    /// Whether what is dragged can be let go.
    pub fn can_drop(&self) -> (r: bool)
        ensures
            r == (self@.dragging matches Some(d) ==> self@.can_drop(d)),
    {
        match &self.dragging {
            Some(d) => {
                if d.group.len() > 0 {
                    self.has_group(d)
                } else {
                    has_clip(&self.tracks, d.current_track_idx, d.clip_idx)
                }
            },
            None => true,
        }
    }

    /// Whether the clips are there that a press would take hold of.
    pub fn can_press(&self) -> (r: bool)
        requires
            self@.ok(),
        ensures
            r == self@.press_ready(),
    {
        if self.super_key || self.shift_key {
            return true;
        }
        match self.hit_test_title_bar(self.cursor_x, self.cursor_y) {
            Some((t, c)) => {
                let len: usize = self.tracks.len();
                assert(t < len);
                assert(self@.tracks[t as int] == self.tracks@[t as int]@);
                let n: usize = self.tracks[t].clips.len();
                let mut k: usize = 0;
                while k < self.multi_selected_clips.len()
                    invariant
                        k <= self.multi_selected_clips@.len(),
                        n == self@.tracks[t as int].clips.len(),
                        forall|j: int| 0 <= j < k ==> (#[trigger] self.multi_selected_clips@[j]) < n,
                        !self@.click_gathers(),
                        self@.hit_test_title_bar(self@.cursor_x as int, self@.cursor_y as int) == Some(
                            (t, c),
                        ),
                    decreases self.multi_selected_clips@.len() - k,
                {
                    if self.multi_selected_clips[k] >= n {
                        assert(!(self@.multi_selected_clips[k as int] < n));
                        return self.multi_selected_clips.len() < 2 || !crate::placement::is_listed(
                            self.multi_selected_clips.as_slice(),
                            c,
                        );
                    }
                    k = k + 1;
                }
                true
            },
            None => true,
        }
    }
}

} // verus!
