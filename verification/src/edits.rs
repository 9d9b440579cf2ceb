//! The edits that the keyboard makes: copy, cut, paste, split, delete, new track, mute.

use vstd::prelude::*;
use crate::app::{App, AppView, Effects};
use crate::audio::{Clip, ClipView};
use crate::edit::{
    copy_clips, flip_mute, put_clip, put_track, swap_gain, swap_track_gain, take_clip, take_track,
};
use crate::sample::Sample;
use crate::time::{clamp_time, later, to_secs, Secs};
use crate::track::{Switches, Track};
use crate::undo::UndoAction;
use crate::undo::UndoRecord;

verus! {

/// The clip to select after clip `i` has gone: the one that has taken its place, or the last one.
pub open spec fn next_clip(i: usize, left: int) -> Option<usize> {
    if left == 0 {
        None
    } else {
        Some(crate::time::smaller(i as int, left - 1) as usize)
    }
}

/// The first of some clips, if there is one.
pub open spec fn first_clip(clips: Seq<ClipView>) -> Option<usize> {
    if clips.len() == 0 {
        None
    } else {
        Some(0)
    }
}

/// The clips of the clipboard, each placed at its offset from the playhead.
pub open spec fn placed_at(clipboard: Seq<ClipView>, playhead: Secs) -> Seq<ClipView> {
    clipboard.map_values(|c: ClipView| c.at(crate::time::sat_secs(playhead + c.offset_secs)))
}

/// Whether one of the new clips overlaps one of the clips.
pub open spec fn any_overlap(clips: Seq<ClipView>, new: Seq<ClipView>) -> bool {
    exists|j: int, i: int|
        0 <= j < new.len() && 0 <= i < clips.len() && (#[trigger] clips[i]).overlaps(
            (#[trigger] new[j]).offset_secs as int,
            new[j].end(),
        )
}

impl AppView {
    /// The selected stretch of the selected track, if there is one.
    pub open spec fn selected_region(self) -> Option<(usize, Secs, Secs)> {
        match (self.selection, self.selected_track) {
            (Some((s0, s1)), Some(t)) => Some((t, s0, s1)),
            _ => None,
        }
    }

    /// The selected clip, if it is there.
    pub open spec fn selected(self) -> Option<(usize, usize)> {
        match (self.selected_track, self.selected_clip) {
            (Some(t), Some(c)) => if self.has_clip(t, c) {
                Some((t, c))
            } else {
                None
            },
            _ => None,
        }
    }

    /// The editor with the edit of record `a` in its history.
    pub open spec fn recorded(self, a: UndoRecord) -> AppView {
        AppView { undo_manager: self.undo_manager.push(a), ..self }
    }

    /// The editor after copy: the clipboard holds the selected stretch, or the selected clip.
    pub open spec fn copied(self) -> AppView {
        match self.selected_region() {
            Some((t, s0, s1)) => {
                let region = crate::region::region_of(crate::region::clips_of(self, t), s0, s1);
                if region.len() > 0 {
                    AppView { clipboard: region, ..self }
                } else {
                    self
                }
            },
            None => match self.selected() {
                Some((t, c)) => AppView {
                    clipboard: seq![self.tracks[t as int].clips[c as int].at(0)],
                    ..self
                },
                None => self,
            },
        }
    }

    /// Whether the selected stretch overlaps a clip of its track.
    pub open spec fn region_has_clips(self) -> bool {
        match self.selected_region() {
            Some((t, s0, s1)) => crate::region::overlapping(
                crate::region::clips_of(self, t),
                s0 as int,
                s1 as int,
            ).len() > 0,
            None => false,
        }
    }

    /// The editor without the selected stretch.
    pub open spec fn region_removed(self) -> AppView {
        let (t, s0, s1) = self.selected_region()->0;
        let clips = crate::region::without_region(self.tracks[t as int].clips, s0, s1);
        AppView {
            tracks: crate::edit::with_clips(self.tracks, t as int, clips),
            selection: None,
            selected_clip: first_clip(clips),
            ..self
        }
    }

    /// The editor after cut: the selected stretch, or the selected clip, goes to the clipboard.
    pub open spec fn cut(self) -> AppView {
        match self.selected_region() {
            Some((t, s0, s1)) => if self.region_has_clips() {
                AppView {
                    clipboard: crate::region::region_of(self.tracks[t as int].clips, s0, s1),
                    ..self.region_removed()
                }.recorded(
                    UndoRecord::CutRegion {
                        track_idx: t,
                        prev_clips: self.tracks[t as int].clips,
                        prev_clipboard: self.clipboard,
                        prev_sel_clip: self.selected_clip,
                        prev_selection: self.selection,
                    },
                )
            } else {
                self
            },
            None => match self.selected() {
                Some((t, c)) => {
                    let clip = self.tracks[t as int].clips[c as int];
                    let tracks = crate::edit::without_clip(self.tracks, t as int, c as int);
                    AppView {
                        tracks,
                        clipboard: seq![clip.at(0)],
                        selected_clip: next_clip(c, tracks[t as int].clips.len() as int),
                        ..self
                    }.recorded(
                        UndoRecord::CutClip {
                            track_idx: t,
                            clip_idx: c,
                            clip,
                            prev_clipboard: self.clipboard,
                            prev_sel_clip: self.selected_clip,
                        },
                    )
                },
                None => self,
            },
        }
    }

    /// Whether cut finds something to cut.
    pub open spec fn can_cut(self) -> bool {
        match self.selected_region() {
            Some(_) => self.region_has_clips(),
            None => self.selected() is Some,
        }
    }

    /// The track that the clipboard can be pasted into at the playhead: the selected one, if no
    /// pasted clip would overlap one of its clips.
    pub open spec fn paste_track(self, playhead: Secs) -> Option<usize> {
        match self.selected_track {
            Some(t) => if self.clipboard.len() > 0 && t < self.tracks.len() && !any_overlap(
                self.tracks[t as int].clips,
                placed_at(self.clipboard, playhead),
            ) {
                Some(t)
            } else {
                None
            },
            None => None,
        }
    }

    /// The editor after paste.
    pub open spec fn pasted(self, playhead: Secs) -> AppView {
        match self.paste_track(playhead) {
            Some(t) => {
                let clips = self.tracks[t as int].clips + placed_at(self.clipboard, playhead);
                AppView {
                    tracks: crate::edit::with_clips(self.tracks, t as int, clips),
                    selected_clip: Some((clips.len() - 1) as usize),
                    ..self
                }.recorded(
                    UndoRecord::PasteClips {
                        track_idx: t,
                        prev_clips: self.tracks[t as int].clips,
                        prev_sel_clip: self.selected_clip,
                    },
                )
            },
            None => self,
        }
    }

    /// Where a new track goes: below the selected one, or at the end.
    pub open spec fn new_track_index(self) -> int {
        match self.selected_track {
            Some(t) => t + 1,
            None => self.tracks.len() as int,
        }
    }

    /// The editor with a new track.
    pub open spec fn track_created(self) -> AppView {
        let at = self.new_track_index();
        AppView {
            tracks: self.tracks.insert(at, crate::track::fresh_track(Seq::empty())),
            selected_track: Some(at as usize),
            selected_clip: None,
            ..self
        }.recorded(
            UndoRecord::CreateTrack {
                track_idx: at as usize,
                prev_sel_track: self.selected_track,
                prev_sel_clip: self.selected_clip,
            },
        )
    }

    /// The clip that is split at the playhead: the selected one, if the playhead is inside it.
    pub open spec fn split_clip(self, playhead: Secs) -> Option<(usize, usize)> {
        match (self.selected_track, self.selected_clip) {
            (Some(t), Some(c)) => {
                let clip = self.tracks[t as int].clips[c as int];
                if clip.offset_secs < playhead < clip.end() {
                    Some((t, c))
                } else {
                    None
                }
            },
            _ => None,
        }
    }

    /// The editor after a split at the playhead; the right half is selected.
    pub open spec fn split(self, playhead: Secs) -> AppView {
        match self.split_clip(playhead) {
            Some((t, c)) => {
                let clips = self.tracks[t as int].clips;
                let clip = clips[c as int];
                let at = crate::time::sat_secs(playhead - clip.offset_secs);
                AppView {
                    tracks: crate::edit::with_clips(
                        self.tracks,
                        t as int,
                        clips.update(c as int, clip.split_left(at)).insert(c + 1, clip.split_right(at)),
                    ),
                    selected_clip: Some((c + 1) as usize),
                    ..self
                }.recorded(
                    UndoRecord::SplitClip {
                        track_idx: t,
                        clip_idx: c,
                        original_clip: clip,
                        prev_sel_clip: self.selected_clip,
                    },
                )
            },
            None => self,
        }
    }

    /// The view brought back to the timeline, without a change of zoom where it fits.
    pub open spec fn view_clamped(self) -> AppView {
        let max = self.max_duration();
        let view_duration = if self.view_duration > max {
            max
        } else {
            self.view_duration
        };
        AppView {
            view_duration,
            view_start: crate::time::clamp_between(
                self.view_start as int,
                0,
                crate::time::larger(max - view_duration, 0),
            ) as Secs,
            ..self
        }
    }

    /// The editor after delete: the selected stretch goes, or the selected clip, and with it its
    /// track if that has no other clip.
    pub open spec fn deleted(self) -> AppView {
        match self.selected_region() {
            Some((t, s0, s1)) => if self.region_has_clips() {
                self.region_removed().recorded(
                    UndoRecord::DeleteRegionMulti {
                        track_idx: t,
                        prev_clips: self.tracks[t as int].clips,
                        prev_sel_clip: self.selected_clip,
                        prev_selection: self.selection,
                    },
                )
            } else {
                self
            },
            None => match self.selected() {
                Some((t, c)) => {
                    let clips = self.tracks[t as int].clips;
                    let emptied = clips.len() == 1;
                    let tracks = if emptied {
                        self.tracks.remove(t as int)
                    } else {
                        crate::edit::without_clip(self.tracks, t as int, c as int)
                    };
                    AppView {
                        tracks,
                        selected_track: if emptied {
                            next_clip(t, tracks.len() as int)
                        } else {
                            self.selected_track
                        },
                        selected_clip: if emptied {
                            None
                        } else {
                            next_clip(c, clips.len() - 1)
                        },
                        ..self
                    }.recorded(
                        UndoRecord::DeleteClip {
                            track_idx: t,
                            clip_idx: c,
                            clip: clips[c as int],
                            track_was_removed: emptied,
                            switches: self.tracks[t as int].switches(),
                            prev_sel_track: self.selected_track,
                            prev_sel_clip: self.selected_clip,
                        },
                    ).view_clamped()
                },
                None => self,
            },
        }
    }

    /// Whether there is a selection to clear.
    pub open spec fn has_selection(self) -> bool {
        self.selection is Some || self.multi_selected_clips.len() > 0
    }

    /// The editor with the selection cleared.
    pub open spec fn selection_cleared(self) -> AppView {
        if self.has_selection() {
            AppView {
                selection: None,
                multi_selected_clips: Seq::empty(),
                selecting: false,
                ..self
            }
        } else {
            self
        }
    }

    /// Whether a track is selected.
    pub open spec fn has_selected_track(self) -> bool {
        self.selected_track matches Some(t) && t < self.tracks.len()
    }

    /// The editor with the mute switch of the selected track flipped.
    pub open spec fn mute_toggled(self) -> AppView {
        match self.selected_track {
            Some(t) => if t < self.tracks.len() {
                AppView {
                    tracks: crate::edit::with_mute_flipped(self.tracks, t as int),
                    ..self
                }.recorded(UndoRecord::ToggleMute { track_idx: t })
            } else {
                self
            },
            None => self,
        }
    }

    /// The editor with the gain of the selected track raised or lowered by a step.
    pub open spec fn track_gain_adjusted(
        self,
        up: bool,
        step: spec_fn(Sample, bool) -> Sample,
    ) -> AppView {
        if self.has_selected_track() {
            let t = self.selected_track->0;
            let gain = self.tracks[t as int].gain;
            AppView {
                tracks: crate::edit::with_track_gain(self.tracks, t as int, step(gain, up)),
                ..self
            }.recorded(UndoRecord::AdjustTrackGain { track_idx: t, prev_gain: gain })
        } else {
            self
        }
    }

    /// Whether a clip is selected.
    pub open spec fn has_selected_clip(self) -> bool {
        match (self.selected_track, self.selected_clip) {
            (Some(t), Some(c)) => self.has_clip(t, c),
            _ => false,
        }
    }

    /// The editor with the gain of the selected clip raised or lowered by a step.
    pub open spec fn gain_adjusted(self, up: bool, step: spec_fn(Sample, bool) -> Sample) -> AppView {
        if self.has_selected_clip() {
            let t = self.selected_track->0;
            let c = self.selected_clip->0;
            let gain = self.tracks[t as int].clips[c as int].gain;
            AppView {
                tracks: crate::edit::with_clip_gain(self.tracks, t as int, c as int, step(gain, up)),
                ..self
            }.recorded(UndoRecord::AdjustGain { track_idx: t, clip_idx: c, prev_gain: gain })
        } else {
            self
        }
    }
}

/// An edit whose record and tracks are in order leaves the editor in order.
pub proof fn lemma_recorded_ok(v: AppView, a: UndoRecord)
    requires
        v.ok(),
        a.ok(),
    ensures
        v.recorded(a).ok(),
{
    crate::undo::lemma_history_ok(v.undo_manager, a);
}

impl App {
    /// Puts the edit of `action` into the history.
    pub(crate) fn record(&mut self, action: UndoAction)
        ensures
            final(self)@ == old(self)@.recorded(action@),
    {
        self.undo_manager.push(action);
        assert(self@ =~= old(self)@.recorded(action@));
    }

    /// Copies the selected stretch, or the selected clip, to the clipboard.
    pub fn copy(&mut self)
        requires
            old(self)@.ok(),
        ensures
            final(self)@ == old(self)@.copied(),
            final(self)@.ok(),
    {
        let ghost before = self@;
        match (self.selection, self.selected_track) {
            (Some((s0, s1)), Some(t)) => {
                if t < self.tracks.len() {
                    let region: Vec<Clip> = self.copy_region_clips(t, s0, s1);
                    if region.len() > 0 {
                        self.clipboard = region;
                    }
                } else {
                    assert(crate::region::clips_of(before, t) =~= Seq::empty());
                }
            },
            _ => {
                match (self.selected_track, self.selected_clip) {
                    (Some(t), Some(c)) => {
                        assert(t < self.tracks@.len() ==> before.tracks[t as int]
                            == self.tracks@[t as int]@);
                        if t < self.tracks.len() && c < self.tracks[t].clips.len() {
                            let mut clip: Clip = self.tracks[t].clips[c].clone();
                            clip.offset_secs = 0;
                            let mut clipboard: Vec<Clip> = Vec::new();
                            clipboard.push(clip);
                            self.clipboard = clipboard;
                            proof {
                                assert(before.tracks[t as int].clips[c as int].ok());
                                assert(self@.clipboard =~= seq![
                                    before.tracks[t as int].clips[c as int].at(0),
                                ]);
                            }
                        }
                    },
                    _ => {},
                }
            },
        }
        assert(self@ =~= before.copied());
    }

    /// Takes the selected stretch out of its track.
    fn remove_selected_region(&mut self, t: usize, s0: Secs, s1: Secs)
        requires
            old(self)@.ok(),
            t < old(self)@.tracks.len(),
            old(self)@.selected_region() == Some((t, s0, s1)),
        ensures
            final(self)@ == old(self)@.region_removed(),
            final(self)@.ok(),
    {
        let ghost before = self@;
        self.remove_region_from_track(t, s0, s1);
        self.selection = None;
        assert(self.tracks@.len() == self@.tracks.len() == before.tracks.len());
        assert(self@.tracks[t as int] == self.tracks@[t as int]@);
        self.selected_clip = if self.tracks[t].clips.len() == 0 {
            None
        } else {
            Some(0)
        };
        assert(self@ =~= before.region_removed());
    }

    /// Cuts the selected stretch, or the selected clip, to the clipboard.
    pub fn cut(&mut self) -> (r: Effects)
        requires
            old(self)@.ok(),
        ensures
            final(self)@ == old(self)@.cut(),
            final(self)@.ok(),
            r == (if old(self)@.can_cut() {
                Effects::Remix
            } else {
                Effects::Nothing
            }),
    {
        let ghost before = self@;
        match (self.selection, self.selected_track) {
            (Some((s0, s1)), Some(t)) => {
                let found: Vec<usize> = self.clips_overlapping_range(t, s0, s1);
                if t >= self.tracks.len() || found.len() == 0 {
                    assert(t >= before.tracks.len() ==> crate::region::clips_of(before, t)
                        =~= Seq::empty());
                    return Effects::Nothing;
                }
                assert(before.tracks[t as int] == self.tracks@[t as int]@);
                let prev_clips: Vec<Clip> = copy_clips(&self.tracks[t].clips);
                let prev_sel_clip: Option<usize> = self.selected_clip;
                let prev_selection: Option<(Secs, Secs)> = self.selection;
                let mut clipboard: Vec<Clip> = self.copy_region_clips(t, s0, s1);
                core::mem::swap(&mut clipboard, &mut self.clipboard);
                let ghost copied = self@;
                assert(copied =~= AppView {
                    clipboard: crate::region::region_of(before.tracks[t as int].clips, s0, s1),
                    ..before
                });
                self.remove_selected_region(t, s0, s1);
                let action = UndoAction::CutRegion {
                    track_idx: t,
                    prev_clips,
                    prev_clipboard: clipboard,
                    prev_sel_clip,
                    prev_selection,
                };
                proof {
                    assert(crate::track::clips_ok(before.tracks[t as int].clips));
                    lemma_recorded_ok(self@, action@);
                }
                self.record(action);
                assert(self@ =~= before.cut());
                Effects::Remix
            },
            _ => {
                match (self.selected_track, self.selected_clip) {
                    (Some(t), Some(c)) => {
                        assert(t < self.tracks@.len() ==> before.tracks[t as int]
                            == self.tracks@[t as int]@);
                        if t < self.tracks.len() && c < self.tracks[t].clips.len() {
                            proof {
                                crate::edit::lemma_without_clip_ok(before.tracks, t as int, c as int);
                            }
                            let clip: Clip = take_clip(&mut self.tracks, t, c);
                            let mut moved: Clip = clip.clone();
                            moved.offset_secs = 0;
                            let mut clipboard: Vec<Clip> = Vec::new();
                            clipboard.push(moved);
                            assert(crate::track::clip_views(clipboard@) =~= seq![clip@.at(0)]);
                            core::mem::swap(&mut clipboard, &mut self.clipboard);
                            let prev_sel_clip: Option<usize> = self.selected_clip;
                            assert(self@.tracks[t as int] == self.tracks@[t as int]@);
                            let left: usize = self.tracks[t].clips.len();
                            self.selected_clip = after_removal(c, left);
                            let action = UndoAction::CutClip {
                                track_idx: t,
                                clip_idx: c,
                                clip,
                                prev_clipboard: clipboard,
                                prev_sel_clip,
                            };
                            proof {
                                lemma_recorded_ok(self@, action@);
                            }
                            self.record(action);
                            assert(self@ =~= before.cut());
                            return Effects::Remix;
                        }
                    },
                    _ => {},
                }
                Effects::Nothing
            },
        }
    }

    /// Pastes the clipboard into the selected track at the playhead, unless a pasted clip would
    /// overlap one that is there.
    pub fn paste(&mut self, playhead: Secs) -> (r: Effects)
        requires
            old(self)@.ok(),
        ensures
            final(self)@ == old(self)@.pasted(playhead),
            final(self)@.ok(),
            r == (if old(self)@.paste_track(playhead) is Some {
                Effects::Remix
            } else {
                Effects::Nothing
            }),
    {
        let ghost before = self@;
        let t: usize = match self.selected_track {
            Some(t) => t,
            None => return Effects::Nothing,
        };
        if self.clipboard.len() == 0 || t >= self.tracks.len() {
            return Effects::Nothing;
        }
        assert(before.tracks[t as int] == self.tracks@[t as int]@);
        let new: Vec<Clip> = place_clips(&self.clipboard, playhead);
        let ghost placed = placed_at(before.clipboard, playhead);
        if finds_overlap(&self.tracks[t].clips, &new) {
            return Effects::Nothing;
        }
        let prev_clips: Vec<Clip> = copy_clips(&self.tracks[t].clips);
        let prev_sel_clip: Option<usize> = self.selected_clip;
        let mut clips: Vec<Clip> = copy_clips(&self.tracks[t].clips);
        let mut rest: Vec<Clip> = new;
        let ghost old_clips = before.tracks[t as int].clips;
        clips.append(&mut rest);
        proof {
            assert(crate::track::clip_views(clips@) =~= old_clips + placed);
            assert(crate::track::clips_ok(old_clips));
            assert(crate::track::clips_ok(old_clips + placed));
            crate::edit::lemma_with_clips_ok(before.tracks, t as int, old_clips + placed);
        }
        let count: usize = clips.len();
        crate::edit::swap_clips(&mut self.tracks, t, clips);
        self.selected_clip = Some(count - 1);
        let action = UndoAction::PasteClips { track_idx: t, prev_clips, prev_sel_clip };
        proof {
            lemma_recorded_ok(self@, action@);
        }
        self.record(action);
        assert(self@ =~= before.pasted(playhead));
        Effects::Remix
    }

    /// Inserts a new empty track below the selected track, or at the end.
    pub fn new_track(&mut self) -> (r: Effects)
        requires
            old(self)@.ok(),
            old(self)@.selected_track matches Some(t) ==> t < old(self)@.tracks.len(),
        ensures
            final(self)@ == old(self)@.track_created(),
            final(self)@.ok(),
            r == Effects::Refresh,
    {
        let ghost before = self@;
        let len: usize = self.tracks.len();
        let at: usize = match self.selected_track {
            Some(t) => t + 1,
            None => len,
        };
        let action = UndoAction::CreateTrack {
            track_idx: at,
            prev_sel_track: self.selected_track,
            prev_sel_clip: self.selected_clip,
        };
        let clips: Vec<Clip> = Vec::new();
        proof {
            assert(crate::track::clip_views(clips@) =~= Seq::empty());
            crate::edit::lemma_with_track_ok(
                before.tracks,
                at as int,
                crate::track::fresh_track(Seq::empty()),
            );
        }
        put_track(&mut self.tracks, at, Track::with_clips(clips));
        self.selected_track = Some(at);
        self.selected_clip = None;
        proof {
            lemma_recorded_ok(self@, action@);
        }
        self.record(action);
        assert(self@ =~= before.track_created());
        Effects::Refresh
    }

    /// Splits the selected clip at the playhead, if the playhead is strictly inside it.
    pub fn split(&mut self, playhead: Secs) -> (r: Effects)
        requires
            old(self)@.ok(),
            match (old(self)@.selected_track, old(self)@.selected_clip) {
                (Some(t), Some(c)) => old(self)@.has_clip(t, c),
                _ => true,
            },
        ensures
            final(self)@ == old(self)@.split(playhead),
            final(self)@.ok(),
            r == (if old(self)@.split_clip(playhead) is Some {
                Effects::Remix
            } else {
                Effects::Nothing
            }),
    {
        let ghost before = self@;
        let (t, c): (usize, usize) = match (self.selected_track, self.selected_clip) {
            (Some(t), Some(c)) => (t, c),
            _ => return Effects::Nothing,
        };
        assert(before.tracks[t as int] == self.tracks@[t as int]@);
        let ghost clips = before.tracks[t as int].clips;
        assert(clips[c as int] == self.tracks@[t as int].clips@[c as int]@);
        assert(clips[c as int].ok());
        let count: usize = self.tracks[t].clips.len();
        let clip: &Clip = &self.tracks[t].clips[c];
        let start: Secs = clip.offset_secs;
        if !(playhead > start && (playhead as i128) < clip.end_secs()) {
            return Effects::Nothing;
        }
        let original_clip: Clip = clip.clone();
        let prev_sel_clip: Option<usize> = self.selected_clip;
        proof {
            crate::edit::lemma_without_clip_ok(before.tracks, t as int, c as int);
        }
        let mut left: Clip = take_clip(&mut self.tracks, t, c);
        let right: Clip = left.split_at(to_secs(playhead as i128 - start as i128));
        proof {
            let rest = crate::edit::without_clip(before.tracks, t as int, c as int);
            crate::edit::lemma_with_clip_ok(rest, t as int, c as int, left@);
            let one = crate::edit::with_clip(rest, t as int, c as int, left@);
            crate::edit::lemma_with_clip_ok(one, t as int, c + 1, right@);
            assert(clips.remove(c as int).insert(c as int, left@) =~= clips.update(c as int, left@));
        }
        put_clip(&mut self.tracks, t, c, left);
        put_clip(&mut self.tracks, t, c + 1, right);
        self.selected_clip = Some(c + 1);
        let action = UndoAction::SplitClip { track_idx: t, clip_idx: c, original_clip, prev_sel_clip };
        proof {
            lemma_recorded_ok(self@, action@);
        }
        self.record(action);
        assert(self@.tracks =~= before.split(playhead).tracks);
        assert(self@ =~= before.split(playhead));
        Effects::Remix
    }

    /// Brings the view back to the timeline.
    fn clamp_view(&mut self)
        requires
            old(self)@.ok(),
        ensures
            final(self)@ == old(self)@.view_clamped(),
            final(self)@.ok(),
    {
        let ghost before = self@;
        let max: Secs = self.max_duration();
        if self.view_duration > max {
            self.view_duration = max;
        }
        let room: i128 = later(max as i128 - self.view_duration as i128, 0);
        self.view_start = clamp_time(self.view_start as i128, 0, room) as Secs;
        assert(self@ =~= before.view_clamped());
    }

    /// Deletes the selected stretch, or the selected clip.
    pub fn delete(&mut self) -> (r: Effects)
        requires
            old(self)@.ok(),
        ensures
            final(self)@ == old(self)@.deleted(),
            final(self)@.ok(),
            r == (if old(self)@.can_cut() {
                Effects::Refresh
            } else {
                Effects::Nothing
            }),
    {
        let ghost before = self@;
        match (self.selection, self.selected_track) {
            (Some((s0, s1)), Some(t)) => {
                let found: Vec<usize> = self.clips_overlapping_range(t, s0, s1);
                if t >= self.tracks.len() || found.len() == 0 {
                    assert(t >= before.tracks.len() ==> crate::region::clips_of(before, t)
                        =~= Seq::empty());
                    return Effects::Nothing;
                }
                assert(before.tracks[t as int] == self.tracks@[t as int]@);
                let prev_clips: Vec<Clip> = copy_clips(&self.tracks[t].clips);
                let prev_sel_clip: Option<usize> = self.selected_clip;
                let prev_selection: Option<(Secs, Secs)> = self.selection;
                self.remove_selected_region(t, s0, s1);
                let action = UndoAction::DeleteRegionMulti {
                    track_idx: t,
                    prev_clips,
                    prev_sel_clip,
                    prev_selection,
                };
                proof {
                    assert(crate::track::clips_ok(before.tracks[t as int].clips));
                    lemma_recorded_ok(self@, action@);
                }
                self.record(action);
                assert(self@ =~= before.deleted());
                Effects::Refresh
            },
            _ => {
                match (self.selected_track, self.selected_clip) {
                    (Some(t), Some(c)) => {
                        assert(t < self.tracks@.len() ==> before.tracks[t as int]
                            == self.tracks@[t as int]@);
                        if t < self.tracks.len() && c < self.tracks[t].clips.len() {
                            self.delete_clip(t, c);
                            return Effects::Refresh;
                        }
                    },
                    _ => {},
                }
                Effects::Nothing
            },
        }
    }

    /// Deletes the selected clip, and its track if that has no other clip.
    fn delete_clip(&mut self, t: usize, c: usize)
        requires
            old(self)@.ok(),
            old(self)@.selected_region() is None,
            old(self)@.selected() == Some((t, c)),
        ensures
            final(self)@ == old(self)@.deleted(),
            final(self)@.ok(),
    {
        let ghost before = self@;
        let prev_sel_track: Option<usize> = self.selected_track;
        let prev_sel_clip: Option<usize> = self.selected_clip;
        proof {
            crate::edit::lemma_without_clip_ok(before.tracks, t as int, c as int);
            crate::edit::lemma_without_track_ok(before.tracks, t as int);
        }
        let clip: Clip = take_clip(&mut self.tracks, t, c);
        assert(self@.tracks[t as int] == self.tracks@[t as int]@);
        assert(self.tracks@[t as int].clips@.len() == before.tracks[t as int].clips.remove(
            c as int,
        ).len());
        let left: usize = self.tracks[t].clips.len();
        let switches: Switches = self.tracks[t].switches();
        let track_was_removed: bool = left == 0;
        if track_was_removed {
            take_track(&mut self.tracks, t);
            assert(self@.tracks =~= before.tracks.remove(t as int));
            let count: usize = self.tracks.len();
            self.selected_track = after_removal(t, count);
            self.selected_clip = None;
        } else {
            self.selected_clip = after_removal(c, left);
        }
        let action = UndoAction::DeleteClip {
            track_idx: t,
            clip_idx: c,
            clip,
            track_was_removed,
            switches,
            prev_sel_track,
            prev_sel_clip,
        };
        proof {
            lemma_recorded_ok(self@, action@);
        }
        self.record(action);
        self.clamp_view();
        assert(self@ =~= before.deleted());
    }

    /// Clears the selection.
    pub fn clear_selection(&mut self) -> (r: Effects)
        requires
            old(self)@.ok(),
        ensures
            final(self)@ == old(self)@.selection_cleared(),
            final(self)@.ok(),
            r == (if old(self)@.has_selection() {
                Effects::Redraw
            } else {
                Effects::Nothing
            }),
    {
        if self.selection.is_some() || self.multi_selected_clips.len() > 0 {
            self.selection = None;
            self.multi_selected_clips = Vec::new();
            self.selecting = false;
            assert(self@ =~= old(self)@.selection_cleared());
            Effects::Redraw
        } else {
            Effects::Nothing
        }
    }

    /// Flips the mute switch of the selected track.
    pub fn toggle_mute(&mut self) -> (r: Effects)
        requires
            old(self)@.ok(),
        ensures
            final(self)@ == old(self)@.mute_toggled(),
            final(self)@.ok(),
            r == (if old(self)@.has_selected_track() {
                Effects::Refresh
            } else {
                Effects::Nothing
            }),
    {
        let ghost before = self@;
        match self.selected_track {
            Some(t) => {
                if t < self.tracks.len() {
                    flip_mute(&mut self.tracks, t);
                    let action = UndoAction::ToggleMute { track_idx: t };
                    proof {
                        crate::edit::lemma_same_clips_ok(before.tracks, self@.tracks);
                        lemma_recorded_ok(self@, action@);
                    }
                    self.record(action);
                    assert(self@ =~= before.mute_toggled());
                    return Effects::Refresh;
                }
                Effects::Nothing
            },
            None => Effects::Nothing,
        }
    }

    /// Raises or lowers the gain of the selected track by a step: `step` gives the next gain, up or
    /// down.
    pub fn adjust_track_gain<S: Fn(Sample, bool) -> Sample>(&mut self, up: bool, step: &S) -> (r:
        Effects)
        requires
            old(self)@.ok(),
            crate::sample::is_function(*step),
        ensures
            final(self)@ == old(self)@.track_gain_adjusted(
                up,
                |g: Sample, u: bool| crate::sample::result_of(*step, g, u),
            ),
            final(self)@.ok(),
            r == (if old(self)@.has_selected_track() {
                Effects::Refresh
            } else {
                Effects::Nothing
            }),
    {
        let ghost before = self@;
        let ghost by = |g: Sample, u: bool| crate::sample::result_of(*step, g, u);
        match self.selected_track {
            Some(t) => {
                if t < self.tracks.len() {
                    assert(before.tracks[t as int] == self.tracks@[t as int]@);
                    let gain: Sample = step(self.tracks[t].gain, up);
                    let prev_gain: Sample = swap_track_gain(&mut self.tracks, t, gain);
                    let action = UndoAction::AdjustTrackGain { track_idx: t, prev_gain };
                    proof {
                        crate::edit::lemma_same_clips_ok(before.tracks, self@.tracks);
                        lemma_recorded_ok(self@, action@);
                    }
                    self.record(action);
                    assert(self@ =~= before.track_gain_adjusted(up, by));
                    return Effects::Refresh;
                }
                Effects::Nothing
            },
            None => Effects::Nothing,
        }
    }

    /// Raises or lowers the gain of the selected clip by a step: `step` gives the next gain, up or
    /// down.
    pub fn adjust_gain<S: Fn(Sample, bool) -> Sample>(&mut self, up: bool, step: &S) -> (r: Effects)
        requires
            old(self)@.ok(),
            crate::sample::is_function(*step),
        ensures
            final(self)@ == old(self)@.gain_adjusted(
                up,
                |g: Sample, u: bool| crate::sample::result_of(*step, g, u),
            ),
            final(self)@.ok(),
            r == (if old(self)@.has_selected_clip() {
                Effects::Refresh
            } else {
                Effects::Nothing
            }),
    {
        let ghost before = self@;
        let ghost by = |g: Sample, u: bool| crate::sample::result_of(*step, g, u);
        match (self.selected_track, self.selected_clip) {
            (Some(t), Some(c)) => {
                if t < self.tracks.len() {
                    assert(before.tracks[t as int] == self.tracks@[t as int]@);
                    if c < self.tracks[t].clips.len() {
                        let gain: Sample = step(self.tracks[t].clips[c].gain, up);
                        let prev_gain: Sample = swap_gain(&mut self.tracks, t, c, gain);
                        let action = UndoAction::AdjustGain { track_idx: t, clip_idx: c, prev_gain };
                        proof {
                            crate::edit::lemma_with_clip_gain_ok(
                                before.tracks,
                                t as int,
                                c as int,
                                gain,
                            );
                            lemma_recorded_ok(self@, action@);
                        }
                        self.record(action);
                        assert(self@ =~= before.gain_adjusted(up, by));
                        return Effects::Refresh;
                    }
                }
                Effects::Nothing
            },
            _ => Effects::Nothing,
        }
    }
}

/// What to select after item `i` has gone and `left` items are left.
fn after_removal(i: usize, left: usize) -> (r: Option<usize>)
    ensures
        r == next_clip(i, left as int),
{
    if left == 0 {
        None
    } else if i < left - 1 {
        Some(i)
    } else {
        Some(left - 1)
    }
}

/// The clips of the clipboard, each placed at its offset from the playhead.
fn place_clips(clipboard: &Vec<Clip>, playhead: Secs) -> (r: Vec<Clip>)
    requires
        crate::track::clips_ok(crate::track::clip_views(clipboard@)),
    ensures
        crate::track::clip_views(r@) == placed_at(crate::track::clip_views(clipboard@), playhead),
        crate::track::clips_ok(crate::track::clip_views(r@)),
{
    let ghost all = crate::track::clip_views(clipboard@);
    let mut r: Vec<Clip> = Vec::new();
    let mut i: usize = 0;
    assert(crate::track::clip_views(r@) =~= placed_at(all, playhead).subrange(0, 0));
    while i < clipboard.len()
        invariant
            i <= clipboard@.len(),
            all == crate::track::clip_views(clipboard@),
            crate::track::clips_ok(all),
            crate::track::clip_views(r@) == placed_at(all, playhead).subrange(0, i as int),
        decreases clipboard@.len() - i,
    {
        let ghost so_far = crate::track::clip_views(r@);
        assert(all[i as int] == clipboard@[i as int]@);
        let mut c: Clip = clipboard[i].clone();
        c.offset_secs = to_secs(playhead as i128 + clipboard[i].offset_secs as i128);
        assert(c@ == placed_at(all, playhead)[i as int]);
        r.push(c);
        assert(crate::track::clip_views(r@) =~= so_far.push(c@));
        i = i + 1;
        assert(crate::track::clip_views(r@) =~= placed_at(all, playhead).subrange(0, i as int));
    }
    proof {
        let placed = placed_at(all, playhead);
        assert(placed.subrange(0, i as int) =~= placed);
        assert forall|j: int| 0 <= j < placed.len() implies (#[trigger] placed[j]).ok() by {
            assert(all[j].ok());
        }
    }
    r
}

/// Whether one of the new clips overlaps one of the clips.
fn finds_overlap(clips: &Vec<Clip>, new: &Vec<Clip>) -> (r: bool)
    requires
        crate::track::clips_ok(crate::track::clip_views(clips@)),
        crate::track::clips_ok(crate::track::clip_views(new@)),
    ensures
        r == any_overlap(crate::track::clip_views(clips@), crate::track::clip_views(new@)),
{
    let ghost old_views = crate::track::clip_views(clips@);
    let ghost new_views = crate::track::clip_views(new@);
    let mut j: usize = 0;
    while j < new.len()
        invariant
            j <= new@.len(),
            old_views == crate::track::clip_views(clips@),
            new_views == crate::track::clip_views(new@),
            crate::track::clips_ok(old_views),
            crate::track::clips_ok(new_views),
            forall|m: int, n: int|
                0 <= m < j && 0 <= n < old_views.len() ==> !(#[trigger] old_views[n]).overlaps(
                    (#[trigger] new_views[m]).offset_secs as int,
                    new_views[m].end(),
                ),
        decreases new@.len() - j,
    {
        assert(new_views[j as int] == new@[j as int]@);
        let start: i128 = new[j].offset_secs as i128;
        let end: i128 = new[j].end_secs();
        let mut i: usize = 0;
        while i < clips.len()
            invariant
                i <= clips@.len(),
                j < new@.len(),
                old_views == crate::track::clip_views(clips@),
                new_views == crate::track::clip_views(new@),
                crate::track::clips_ok(old_views),
                start == new_views[j as int].offset_secs,
                end == new_views[j as int].end(),
                forall|n: int|
                    0 <= n < i ==> !(#[trigger] old_views[n]).overlaps(start as int, end as int),
            decreases clips@.len() - i,
        {
            assert(old_views[i as int] == clips@[i as int]@);
            if start < clips[i].end_secs() && end > clips[i].offset_secs as i128 {
                assert(old_views[i as int].overlaps(
                    new_views[j as int].offset_secs as int,
                    new_views[j as int].end(),
                ));
                return true;
            }
            i = i + 1;
        }
        j = j + 1;
    }
    false
}

} // verus!
