//! Undo and redo: what applying a record does to the project, and the record that reverses it.

use vstd::prelude::*;
use crate::app::{App, AppView, Effects};
use crate::audio::{Clip, ClipView};
use crate::edit::{
    flip_mute, put_clip, put_track, set_offset, swap_clips, swap_gain, swap_track_gain,
    take_clip, take_track,
};
use crate::sample::Sample;
use crate::time::Secs;
use crate::track::{Switches, Track, TrackView};
use crate::undo::{UndoAction, UndoRecord};

verus! {

/// The clips, each moved to the offset that `moves` gives for it as its offset before the move.
pub open spec fn moved_back(clips: Seq<ClipView>, moves: Seq<(usize, Secs, Secs)>) -> Seq<ClipView>
    decreases moves.len(),
{
    if moves.len() == 0 {
        clips
    } else {
        let rest = moved_back(clips, moves.drop_last());
        let (i, before, after) = moves.last();
        if i < rest.len() {
            rest.update(i as int, rest[i as int].at(before))
        } else {
            rest
        }
    }
}

/// The moves in the other direction.
pub open spec fn turned(moves: Seq<(usize, Secs, Secs)>) -> Seq<(usize, Secs, Secs)> {
    moves.map_values(|m: (usize, Secs, Secs)| (m.0, m.2, m.1))
}

/// A move of a clip from `dest` back to `src`.
#[derive(Clone, Copy)]
pub struct ClipMove {
    pub src_track: usize,
    pub src_clip_idx: usize,
    pub src_offset: Secs,
    pub dest_track: usize,
    pub dest_clip_idx: usize,
    pub src_track_was_removed: bool,
    /// The switches of the source track that was removed
    pub src_switches: Switches,
    /// Whether the track that the clip leaves stays when it is empty
    pub dest_was_empty: bool,
}

impl ClipMove {
    /// Whether the clip is where the move expects it.
    pub open spec fn finds_clip(self, tracks: Seq<TrackView>) -> bool {
        self.dest_track < tracks.len() && self.dest_clip_idx < tracks[self.dest_track as int].clips.len()
    }

    /// Whether there is a place to move the clip to.
    pub open spec fn fits(self, tracks: Seq<TrackView>) -> bool {
        if self.src_track_was_removed {
            self.src_track <= tracks.len()
        } else {
            self.src_track < tracks.len()
        }
    }

    /// The clip, moved.
    pub open spec fn clip(self, tracks: Seq<TrackView>) -> ClipView {
        tracks[self.dest_track as int].clips[self.dest_clip_idx as int].at(self.src_offset)
    }

    /// The tracks with the clip taken out.
    pub open spec fn lifted(self, tracks: Seq<TrackView>) -> Seq<TrackView> {
        crate::edit::without_clip(tracks, self.dest_track as int, self.dest_clip_idx as int)
    }

    /// Where in its track the clip is put: where it was, or at the end of what is there.
    pub open spec fn slot(self, tracks: Seq<TrackView>) -> int {
        if self.src_track_was_removed {
            0
        } else {
            crate::time::smaller(
                self.src_clip_idx as int,
                self.lifted(tracks)[self.src_track as int].clips.len() as int,
            )
        }
    }

    /// The tracks with the clip in its place, in a track of its own if its track was removed.
    pub open spec fn placed(self, tracks: Seq<TrackView>) -> Seq<TrackView> {
        let lifted = self.lifted(tracks);
        if self.src_track_was_removed {
            lifted.insert(
                self.src_track as int,
                crate::track::track_with(seq![self.clip(tracks)], self.src_switches),
            )
        } else {
            crate::edit::with_clip(
                lifted,
                self.src_track as int,
                self.slot(tracks),
                self.clip(tracks),
            )
        }
    }

    /// The track that the clip has left, after the clip is in its place.
    pub open spec fn left_track(self) -> int {
        if self.src_track_was_removed && self.dest_track >= self.src_track {
            self.dest_track + 1
        } else {
            self.dest_track as int
        }
    }

    /// Whether the track that the clip has left goes: it is empty, and was not so before the clip
    /// came.
    pub open spec fn removes_track(self, tracks: Seq<TrackView>) -> bool {
        !self.dest_was_empty && self.placed(tracks)[self.left_track()].clips.len() == 0
    }

    /// The tracks after the move.
    pub open spec fn result(self, tracks: Seq<TrackView>) -> Seq<TrackView> {
        if self.removes_track(tracks) {
            self.placed(tracks).remove(self.left_track())
        } else {
            self.placed(tracks)
        }
    }

    /// The move in the other direction.
    pub open spec fn forward(self, tracks: Seq<TrackView>) -> ClipMove {
        ClipMove {
            src_track: self.left_track() as usize,
            src_clip_idx: self.dest_clip_idx,
            src_offset: tracks[self.dest_track as int].clips[self.dest_clip_idx as int].offset_secs,
            dest_track: if self.removes_track(tracks) && self.left_track() < self.src_track {
                (self.src_track - 1) as usize
            } else {
                self.src_track
            },
            dest_clip_idx: self.slot(tracks) as usize,
            src_track_was_removed: self.removes_track(tracks),
            src_switches: tracks[self.dest_track as int].switches(),
            dest_was_empty: !self.src_track_was_removed
                && self.lifted(tracks)[self.src_track as int].clips.len() == 0,
        }
    }
}

/// Moves a clip back and returns the move in the other direction.
pub fn move_back(tracks: &mut Vec<Track>, m: ClipMove) -> (r: ClipMove)
    requires
        m.finds_clip(crate::track::track_views(old(tracks)@)),
        m.fits(crate::track::track_views(old(tracks)@)),
    ensures
        crate::track::track_views(final(tracks)@) == m.result(
            crate::track::track_views(old(tracks)@),
        ),
        r == m.forward(crate::track::track_views(old(tracks)@)),
{
    let ghost before = crate::track::track_views(tracks@);
    assert(before[m.dest_track as int] == tracks@[m.dest_track as int]@);
    let len: usize = tracks.len();
    let src_switches: Switches = tracks[m.dest_track].switches();
    let mut clip: Clip = take_clip(tracks, m.dest_track, m.dest_clip_idx);
    let src_offset: Secs = clip.offset_secs;
    clip.offset_secs = m.src_offset;
    assert(clip@ == m.clip(before));
    let slot: usize;
    let dest_was_empty: bool;
    if m.src_track_was_removed {
        slot = 0;
        dest_was_empty = false;
        let mut clips: Vec<Clip> = Vec::new();
        clips.push(clip);
        assert(crate::track::clip_views(clips@) =~= seq![m.clip(before)]);
        put_track(tracks, m.src_track, Track::with_switches(clips, m.src_switches));
    } else {
        assert(m.lifted(before)[m.src_track as int].clips.len() == tracks@[m.src_track as int].clips@.len());
        let room: usize = tracks[m.src_track].clips.len();
        slot = if m.src_clip_idx < room { m.src_clip_idx } else { room };
        dest_was_empty = room == 0;
        put_clip(tracks, m.src_track, slot, clip);
    }
    assert(crate::track::track_views(tracks@) == m.placed(before));
    let left: usize = if m.src_track_was_removed && m.dest_track >= m.src_track {
        m.dest_track + 1
    } else {
        m.dest_track
    };
    assert(m.placed(before)[left as int].clips.len() == tracks@[left as int].clips@.len());
    let emptied: bool = !m.dest_was_empty && tracks[left].clips.len() == 0;
    if emptied {
        take_track(tracks, left);
    }
    ClipMove {
        src_track: left,
        src_clip_idx: m.dest_clip_idx,
        src_offset,
        dest_track: if emptied && left < m.src_track {
            m.src_track - 1
        } else {
            m.src_track
        },
        dest_clip_idx: slot,
        src_track_was_removed: emptied,
        src_switches,
        dest_was_empty,
    }
}

/// Moves some clips of a track back and returns the moves in the other direction.
pub fn move_all_back(tracks: &mut Vec<Track>, t: usize, moves: &Vec<(usize, Secs, Secs)>) -> (r: Vec<
    (usize, Secs, Secs),
>)
    requires
        t < old(tracks)@.len(),
    ensures
        crate::track::track_views(final(tracks)@) == crate::edit::with_clips(
            crate::track::track_views(old(tracks)@),
            t as int,
            moved_back(crate::track::track_views(old(tracks)@)[t as int].clips, moves@),
        ),
        r@ == turned(moves@),
{
    let ghost before = crate::track::track_views(tracks@);
    let ghost clips = before[t as int].clips;
    let mut r: Vec<(usize, Secs, Secs)> = Vec::new();
    let mut i: usize = 0;
    assert(before =~= crate::edit::with_clips(before, t as int, clips));
    while i < moves.len()
        invariant
            i <= moves@.len(),
            t < before.len(),
            clips == before[t as int].clips,
            crate::track::track_views(tracks@) == crate::edit::with_clips(
                before,
                t as int,
                moved_back(clips, moves@.subrange(0, i as int)),
            ),
            r@ == turned(moves@.subrange(0, i as int)),
        decreases moves@.len() - i,
    {
        let ghost so_far = moved_back(clips, moves@.subrange(0, i as int));
        let ghost now = crate::track::track_views(tracks@);
        let (idx, from, to): (usize, Secs, Secs) = moves[i];
        proof {
            assert(now.len() == tracks@.len());
            assert(now[t as int] == tracks@[t as int]@);
            assert(moves@.subrange(0, i + 1).drop_last() =~= moves@.subrange(0, i as int));
        }
        if idx < tracks[t].clips.len() {
            set_offset(tracks, t, idx, from);
            assert(crate::track::track_views(tracks@) =~= crate::edit::with_clips(
                before,
                t as int,
                so_far.update(idx as int, so_far[idx as int].at(from)),
            ));
        }
        r.push((idx, to, from));
        i = i + 1;
        assert(r@ =~= turned(moves@.subrange(0, i as int)));
    }
    assert(moves@.subrange(0, i as int) =~= moves@);
    r
}

impl UndoRecord {
    /// The move that a record of a moved clip stands for.
    pub open spec fn clip_move(self) -> ClipMove {
        ClipMove {
            src_track: self->MoveClip_src_track,
            src_clip_idx: self->src_clip_idx,
            src_offset: self->src_offset,
            dest_track: self->dest_track,
            dest_clip_idx: self->dest_clip_idx,
            src_track_was_removed: self->src_track_was_removed,
            src_switches: self->src_switches,
            dest_was_empty: self->dest_was_empty,
        }
    }

    /// Whether the record can be applied to these tracks.
    pub open spec fn applies_to(self, tracks: Seq<TrackView>) -> bool {
        match self {
            UndoRecord::DeleteClip { track_idx, clip_idx, track_was_removed, .. } => {
                if track_was_removed {
                    track_idx <= tracks.len() && clip_idx == 0
                } else {
                    track_idx < tracks.len() && clip_idx <= tracks[track_idx as int].clips.len()
                }
            },
            UndoRecord::SplitClip { track_idx, clip_idx, .. } => track_idx < tracks.len()
                && clip_idx + 1 < tracks[track_idx as int].clips.len(),
            UndoRecord::JoinClip { track_idx, clip_idx, .. } => track_idx < tracks.len() && clip_idx
                < tracks[track_idx as int].clips.len(),
            UndoRecord::CutClip { track_idx, clip_idx, .. } => track_idx < tracks.len() && clip_idx
                <= tracks[track_idx as int].clips.len(),
            UndoRecord::RecutClip { track_idx, clip_idx, .. } => track_idx < tracks.len()
                && clip_idx < tracks[track_idx as int].clips.len(),
            UndoRecord::CreateTrack { track_idx, .. } => track_idx < tracks.len(),
            UndoRecord::RestoreTrack { track_idx, .. } => track_idx <= tracks.len(),
            UndoRecord::MoveClip { .. } => {
                self.clip_move().finds_clip(tracks) ==> self.clip_move().fits(tracks)
            },
            UndoRecord::ImportClip { track_idx, clip_idx, .. } => track_idx < tracks.len()
                && clip_idx < tracks[track_idx as int].clips.len(),
            UndoRecord::GenerateClickTrack { track_idx, .. } => track_idx < tracks.len()
                && tracks[track_idx as int].clips.len() > 0,
            UndoRecord::LoadProject { .. } => true,
            UndoRecord::ToggleMute { track_idx } => track_idx < tracks.len(),
            UndoRecord::AdjustTrackGain { track_idx, .. } => track_idx < tracks.len(),
            UndoRecord::AdjustGain { track_idx, clip_idx, .. } => track_idx < tracks.len()
                && clip_idx < tracks[track_idx as int].clips.len(),
            UndoRecord::PasteClips { track_idx, .. } => track_idx < tracks.len(),
            UndoRecord::CutRegion { track_idx, .. } => track_idx < tracks.len(),
            UndoRecord::DeleteRegionMulti { track_idx, .. } => track_idx < tracks.len(),
            UndoRecord::MoveClips { track_idx, .. } => track_idx < tracks.len(),
        }
    }

    /// The tracks after the record is applied to them.
    pub open spec fn applied_to(self, tracks: Seq<TrackView>) -> Seq<TrackView> {
        match self {
            UndoRecord::DeleteClip {
                track_idx,
                clip_idx,
                clip,
                track_was_removed,
                switches,
                ..
            } => {
                if track_was_removed {
                    tracks.insert(track_idx as int, crate::track::track_with(seq![clip], switches))
                } else {
                    crate::edit::with_clip(tracks, track_idx as int, clip_idx as int, clip)
                }
            },
            UndoRecord::SplitClip { track_idx, clip_idx, original_clip, .. } => {
                crate::edit::with_clips(
                    tracks,
                    track_idx as int,
                    tracks[track_idx as int].clips.remove(clip_idx as int).update(
                        clip_idx as int,
                        original_clip,
                    ),
                )
            },
            UndoRecord::JoinClip { track_idx, clip_idx, left, right, .. } => {
                crate::edit::with_clips(
                    tracks,
                    track_idx as int,
                    tracks[track_idx as int].clips.update(clip_idx as int, left).insert(
                        clip_idx + 1,
                        right,
                    ),
                )
            },
            UndoRecord::CutClip { track_idx, clip_idx, clip, .. } => crate::edit::with_clip(
                tracks,
                track_idx as int,
                clip_idx as int,
                clip,
            ),
            UndoRecord::RecutClip { track_idx, clip_idx, .. } => crate::edit::without_clip(
                tracks,
                track_idx as int,
                clip_idx as int,
            ),
            UndoRecord::CreateTrack { track_idx, .. } => tracks.remove(track_idx as int),
            UndoRecord::RestoreTrack { track_idx, track, .. } => tracks.insert(
                track_idx as int,
                track,
            ),
            UndoRecord::MoveClip { .. } => {
                if self.clip_move().finds_clip(tracks) {
                    self.clip_move().result(tracks)
                } else {
                    tracks
                }
            },
            UndoRecord::ImportClip { track_idx, clip_idx, created_new_track, .. } => {
                if created_new_track && tracks[track_idx as int].clips.len() == 1 {
                    tracks.remove(track_idx as int)
                } else {
                    crate::edit::without_clip(tracks, track_idx as int, clip_idx as int)
                }
            },
            UndoRecord::GenerateClickTrack { track_idx, .. } => tracks.remove(track_idx as int),
            UndoRecord::LoadProject { prev_tracks, .. } => prev_tracks,
            UndoRecord::ToggleMute { track_idx } => crate::edit::with_mute_flipped(
                tracks,
                track_idx as int,
            ),
            UndoRecord::AdjustTrackGain { track_idx, prev_gain } => crate::edit::with_track_gain(
                tracks,
                track_idx as int,
                prev_gain,
            ),
            UndoRecord::AdjustGain { track_idx, clip_idx, prev_gain } => {
                crate::edit::with_clip_gain(tracks, track_idx as int, clip_idx as int, prev_gain)
            },
            UndoRecord::PasteClips { track_idx, prev_clips, .. } => crate::edit::with_clips(
                tracks,
                track_idx as int,
                prev_clips,
            ),
            UndoRecord::CutRegion { track_idx, prev_clips, .. } => crate::edit::with_clips(
                tracks,
                track_idx as int,
                prev_clips,
            ),
            UndoRecord::DeleteRegionMulti { track_idx, prev_clips, .. } => crate::edit::with_clips(
                tracks,
                track_idx as int,
                prev_clips,
            ),
            UndoRecord::MoveClips { track_idx, moves, .. } => crate::edit::with_clips(
                tracks,
                track_idx as int,
                moved_back(tracks[track_idx as int].clips, moves),
            ),
        }
    }
}

impl AppView {
    /// The editor with the given tracks and selection.
    pub open spec fn showing(
        self,
        tracks: Seq<TrackView>,
        track: Option<usize>,
        clip: Option<usize>,
    ) -> AppView {
        AppView { tracks, selected_track: track, selected_clip: clip, ..self }
    }

    /// The editor after the record is applied: the tracks are changed, and the selection, the
    /// clipboard and the project are those that the record has kept.
    #[verifier::opaque]
    pub open spec fn applied(self, a: UndoRecord) -> AppView {
        let tracks = a.applied_to(self.tracks);
        match a {
            UndoRecord::DeleteClip { prev_sel_track, prev_sel_clip, .. } => self.showing(
                tracks,
                prev_sel_track,
                prev_sel_clip,
            ),
            UndoRecord::SplitClip { prev_sel_clip, .. } => self.showing(
                tracks,
                self.selected_track,
                prev_sel_clip,
            ),
            UndoRecord::JoinClip { prev_sel_clip, .. } => self.showing(
                tracks,
                self.selected_track,
                prev_sel_clip,
            ),
            UndoRecord::CutClip { track_idx, prev_clipboard, prev_sel_clip, .. } => AppView {
                clipboard: prev_clipboard,
                ..self.showing(tracks, Some(track_idx), prev_sel_clip)
            },
            UndoRecord::RecutClip { track_idx, prev_clipboard, prev_sel_clip, .. } => AppView {
                clipboard: prev_clipboard,
                ..self.showing(tracks, Some(track_idx), prev_sel_clip)
            },
            UndoRecord::CreateTrack { prev_sel_track, prev_sel_clip, .. } => self.showing(
                tracks,
                prev_sel_track,
                prev_sel_clip,
            ),
            UndoRecord::RestoreTrack { prev_sel_track, prev_sel_clip, .. } => self.showing(
                tracks,
                prev_sel_track,
                prev_sel_clip,
            ),
            UndoRecord::MoveClip { prev_sel_track, prev_sel_clip, .. } => {
                if a.clip_move().finds_clip(self.tracks) {
                    self.showing(tracks, prev_sel_track, prev_sel_clip)
                } else {
                    self
                }
            },
            UndoRecord::ImportClip { prev_sel_track, prev_sel_clip, .. } => self.showing(
                tracks,
                prev_sel_track,
                prev_sel_clip,
            ),
            UndoRecord::GenerateClickTrack { prev_sel_track, prev_sel_clip, .. } => self.showing(
                tracks,
                prev_sel_track,
                prev_sel_clip,
            ),
            UndoRecord::LoadProject {
                prev_project_path,
                prev_project_rate,
                prev_sel_track,
                prev_sel_clip,
                ..
            } => AppView {
                project_path: prev_project_path,
                project_rate: prev_project_rate,
                ..self.showing(tracks, prev_sel_track, prev_sel_clip)
            }.zoomed_out(),
            UndoRecord::ToggleMute { .. } => AppView { tracks, ..self },
            UndoRecord::AdjustTrackGain { .. } => AppView { tracks, ..self },
            UndoRecord::AdjustGain { .. } => AppView { tracks, ..self },
            UndoRecord::PasteClips { prev_sel_clip, .. } => self.showing(
                tracks,
                self.selected_track,
                prev_sel_clip,
            ),
            UndoRecord::CutRegion {
                track_idx,
                prev_clipboard,
                prev_sel_clip,
                prev_selection,
                ..
            } => AppView {
                clipboard: prev_clipboard,
                selection: prev_selection,
                ..self.showing(tracks, Some(track_idx), prev_sel_clip)
            },
            UndoRecord::DeleteRegionMulti { track_idx, prev_sel_clip, prev_selection, .. } => AppView {
                selection: prev_selection,
                ..self.showing(tracks, Some(track_idx), prev_sel_clip)
            },
            UndoRecord::MoveClips { prev_sel_track, prev_sel_clip, .. } => self.showing(
                tracks,
                prev_sel_track,
                prev_sel_clip,
            ),
        }
    }

    /// The record that brings back what applying `a` changes.
    #[verifier::opaque]
    pub open spec fn reverse(self, a: UndoRecord) -> UndoRecord {
        let sel_track = self.selected_track;
        let sel_clip = self.selected_clip;
        match a {
            UndoRecord::DeleteClip { track_idx, clip_idx, track_was_removed, .. } => {
                UndoRecord::ImportClip {
                    track_idx,
                    clip_idx,
                    created_new_track: track_was_removed,
                    prev_sel_track: sel_track,
                    prev_sel_clip: sel_clip,
                }
            },
            UndoRecord::SplitClip { track_idx, clip_idx, .. } => UndoRecord::JoinClip {
                track_idx,
                clip_idx,
                left: self.tracks[track_idx as int].clips[clip_idx as int],
                right: self.tracks[track_idx as int].clips[clip_idx + 1],
                prev_sel_clip: sel_clip,
            },
            UndoRecord::JoinClip { track_idx, clip_idx, .. } => UndoRecord::SplitClip {
                track_idx,
                clip_idx,
                original_clip: self.tracks[track_idx as int].clips[clip_idx as int],
                prev_sel_clip: sel_clip,
            },
            UndoRecord::CutClip { track_idx, clip_idx, .. } => UndoRecord::RecutClip {
                track_idx,
                clip_idx,
                prev_clipboard: self.clipboard,
                prev_sel_clip: sel_clip,
            },
            UndoRecord::RecutClip { track_idx, clip_idx, .. } => UndoRecord::CutClip {
                track_idx,
                clip_idx,
                clip: self.tracks[track_idx as int].clips[clip_idx as int],
                prev_clipboard: self.clipboard,
                prev_sel_clip: sel_clip,
            },
            UndoRecord::CreateTrack { track_idx, .. } => UndoRecord::RestoreTrack {
                track_idx,
                track: self.tracks[track_idx as int],
                prev_sel_track: sel_track,
                prev_sel_clip: sel_clip,
            },
            UndoRecord::RestoreTrack { track_idx, .. } => UndoRecord::CreateTrack {
                track_idx,
                prev_sel_track: sel_track,
                prev_sel_clip: sel_clip,
            },
            UndoRecord::MoveClip {
                src_track,
                src_clip_idx,
                src_offset,
                dest_track,
                dest_clip_idx,
                dest_offset,
                src_track_was_removed,
                src_switches,
                dest_was_empty,
                ..
            } => {
                if a.clip_move().finds_clip(self.tracks) {
                    let f = a.clip_move().forward(self.tracks);
                    UndoRecord::MoveClip {
                        src_track: f.src_track,
                        src_clip_idx: f.src_clip_idx,
                        src_offset: f.src_offset,
                        dest_track: f.dest_track,
                        dest_clip_idx: f.dest_clip_idx,
                        dest_offset: src_offset,
                        src_track_was_removed: f.src_track_was_removed,
                        src_switches: f.src_switches,
                        dest_was_empty: f.dest_was_empty,
                        prev_sel_track: sel_track,
                        prev_sel_clip: sel_clip,
                    }
                } else {
                    UndoRecord::MoveClip {
                        src_track,
                        src_clip_idx,
                        src_offset,
                        dest_track,
                        dest_clip_idx,
                        dest_offset,
                        src_track_was_removed,
                        src_switches,
                        dest_was_empty,
                        prev_sel_track: sel_track,
                        prev_sel_clip: sel_clip,
                    }
                }
            },
            UndoRecord::ImportClip { track_idx, clip_idx, created_new_track, .. } => {
                UndoRecord::DeleteClip {
                    track_idx,
                    clip_idx,
                    clip: self.tracks[track_idx as int].clips[clip_idx as int],
                    track_was_removed: created_new_track && self.tracks[track_idx as int].clips.len()
                        == 1,
                    switches: self.tracks[track_idx as int].switches(),
                    prev_sel_track: sel_track,
                    prev_sel_clip: sel_clip,
                }
            },
            UndoRecord::GenerateClickTrack { track_idx, .. } => UndoRecord::RestoreTrack {
                track_idx,
                track: self.tracks[track_idx as int],
                prev_sel_track: sel_track,
                prev_sel_clip: sel_clip,
            },
            UndoRecord::LoadProject { .. } => UndoRecord::LoadProject {
                prev_tracks: self.tracks,
                prev_project_path: self.project_path,
                prev_project_rate: self.project_rate,
                prev_sel_track: sel_track,
                prev_sel_clip: sel_clip,
            },
            UndoRecord::ToggleMute { track_idx } => UndoRecord::ToggleMute { track_idx },
            UndoRecord::AdjustTrackGain { track_idx, .. } => UndoRecord::AdjustTrackGain {
                track_idx,
                prev_gain: self.tracks[track_idx as int].gain,
            },
            UndoRecord::AdjustGain { track_idx, clip_idx, .. } => UndoRecord::AdjustGain {
                track_idx,
                clip_idx,
                prev_gain: self.tracks[track_idx as int].clips[clip_idx as int].gain,
            },
            UndoRecord::PasteClips { track_idx, .. } => UndoRecord::PasteClips {
                track_idx,
                prev_clips: self.tracks[track_idx as int].clips,
                prev_sel_clip: sel_clip,
            },
            UndoRecord::CutRegion { track_idx, .. } => UndoRecord::CutRegion {
                track_idx,
                prev_clips: self.tracks[track_idx as int].clips,
                prev_clipboard: self.clipboard,
                prev_sel_clip: sel_clip,
                prev_selection: self.selection,
            },
            UndoRecord::DeleteRegionMulti { track_idx, .. } => UndoRecord::DeleteRegionMulti {
                track_idx,
                prev_clips: self.tracks[track_idx as int].clips,
                prev_sel_clip: sel_clip,
                prev_selection: self.selection,
            },
            UndoRecord::MoveClips { track_idx, moves, .. } => UndoRecord::MoveClips {
                track_idx,
                moves: turned(moves),
                prev_sel_track: sel_track,
                prev_sel_clip: sel_clip,
            },
        }
    }

    /// The editor after undo.
    pub open spec fn undone(self) -> AppView {
        if self.undo_manager.undo.len() == 0 {
            self
        } else {
            let a = self.undo_manager.undo.last();
            let popped = AppView { undo_manager: self.undo_manager.pop_undo(), ..self };
            AppView {
                undo_manager: popped.undo_manager.push_redo(self.reverse(a)),
                ..popped.applied(a)
            }
        }
    }

    /// The editor after redo.
    pub open spec fn redone(self) -> AppView {
        if self.undo_manager.redo.len() == 0 {
            self
        } else {
            let a = self.undo_manager.redo.last();
            let popped = AppView { undo_manager: self.undo_manager.pop_redo(), ..self };
            AppView {
                undo_manager: popped.undo_manager.push_undo(self.reverse(a)),
                ..popped.applied(a)
            }
        }
    }

    /// Whether undo finds the tracks as its record expects them.
    pub open spec fn can_undo(self) -> bool {
        self.undo_manager.undo.len() > 0 ==> self.undo_manager.undo.last().applies_to(self.tracks)
    }

    /// Whether redo finds the tracks as its record expects them.
    pub open spec fn can_redo(self) -> bool {
        self.undo_manager.redo.len() > 0 ==> self.undo_manager.redo.last().applies_to(self.tracks)
    }
}

/// Moving clips keeps them in order.
pub proof fn lemma_moved_back_ok(clips: Seq<ClipView>, moves: Seq<(usize, Secs, Secs)>)
    requires
        crate::track::clips_ok(clips),
    ensures
        crate::track::clips_ok(moved_back(clips, moves)),
        moved_back(clips, moves).len() == clips.len(),
    decreases moves.len(),
{
    if moves.len() > 0 {
        let rest = moved_back(clips, moves.drop_last());
        lemma_moved_back_ok(clips, moves.drop_last());
        let new = moved_back(clips, moves);
        let i = moves.last().0;
        assert forall|j: int| 0 <= j < new.len() implies (#[trigger] new[j]).ok() by {
            assert(rest[j].ok());
        }
    }
}

/// Moving a clip back keeps the tracks in order.
proof fn lemma_move_ok(m: ClipMove, tracks: Seq<TrackView>)
    requires
        crate::track::tracks_ok(tracks),
        m.finds_clip(tracks),
        m.fits(tracks),
    ensures
        crate::track::tracks_ok(m.result(tracks)),
{
    crate::edit::lemma_without_clip_ok(tracks, m.dest_track as int, m.dest_clip_idx as int);
    let lifted = m.lifted(tracks);
    let c = m.clip(tracks);
    if m.src_track_was_removed {
        assert(crate::track::clips_ok(seq![c]));
        crate::edit::lemma_with_track_ok(
            lifted,
            m.src_track as int,
            crate::track::track_with(seq![c], m.src_switches),
        );
    } else {
        crate::edit::lemma_with_clip_ok(lifted, m.src_track as int, m.slot(tracks), c);
    }
    if m.removes_track(tracks) {
        crate::edit::lemma_without_track_ok(m.placed(tracks), m.left_track());
    }
}

/// Applying a record changes the tracks as the record says, and leaves the history alone, on which
/// neither it nor its reverse depends.
pub proof fn lemma_applied_apart_from_history(v: AppView, a: UndoRecord, h: crate::undo::History)
    ensures
        v.applied(a).tracks == a.applied_to(v.tracks),
        v.applied(a).undo_manager == v.undo_manager,
        (AppView { undo_manager: h, ..v }).applied(a) == (AppView { undo_manager: h, ..v.applied(a) }),
        (AppView { undo_manager: h, ..v }).reverse(a) == v.reverse(a),
{
    reveal(AppView::applied);
    reveal(AppView::reverse);
    let w = AppView { undo_manager: h, ..v };
    assert(w.applied(a) =~= (AppView { undo_manager: h, ..v.applied(a) }));
    assert(w.reverse(a) =~= v.reverse(a));
}

/// Applying a record keeps the editor in order, and so is the record that reverses it.
pub proof fn lemma_applied_ok(v: AppView, a: UndoRecord)
    requires
        v.ok(),
        a.ok(),
        a.applies_to(v.tracks),
    ensures
        v.applied(a).ok(),
        v.reverse(a).ok(),
{
    reveal(AppView::applied);
    reveal(AppView::reverse);
    let tracks = v.tracks;
    match a {
        UndoRecord::DeleteClip { track_idx, clip_idx, clip, track_was_removed, switches, .. } => {
            if track_was_removed {
                assert(crate::track::clips_ok(seq![clip]));
                crate::edit::lemma_with_track_ok(
                    tracks,
                    track_idx as int,
                    crate::track::track_with(seq![clip], switches),
                );
            } else {
                crate::edit::lemma_with_clip_ok(tracks, track_idx as int, clip_idx as int, clip);
            }
        },
        UndoRecord::SplitClip { track_idx, clip_idx, original_clip, .. } => {
            let t = track_idx as int;
            let i = clip_idx as int;
            crate::edit::lemma_without_clip_ok(tracks, t, i);
            crate::edit::lemma_without_clip_ok(tracks, t, i + 1);
            let rest = crate::edit::without_clip(tracks, t, i);
            crate::edit::lemma_without_clip_ok(rest, t, i);
            crate::edit::lemma_with_clip_ok(
                crate::edit::without_clip(rest, t, i),
                t,
                i,
                original_clip,
            );
            let clips = tracks[t].clips;
            assert(clips.remove(i).remove(i).insert(i, original_clip) =~= clips.remove(i).update(
                i,
                original_clip,
            ));
            assert(a.applied_to(tracks) =~= crate::edit::with_clip(
                crate::edit::without_clip(rest, t, i),
                t,
                i,
                original_clip,
            ));
        },
        UndoRecord::JoinClip { track_idx, clip_idx, left, right, .. } => {
            let t = track_idx as int;
            let i = clip_idx as int;
            crate::edit::lemma_without_clip_ok(tracks, t, i);
            let rest = crate::edit::without_clip(tracks, t, i);
            crate::edit::lemma_with_clip_ok(rest, t, i, left);
            let one = crate::edit::with_clip(rest, t, i, left);
            crate::edit::lemma_with_clip_ok(one, t, i + 1, right);
            let clips = tracks[t].clips;
            assert(clips.remove(i).insert(i, left) =~= clips.update(i, left));
            assert(a.applied_to(tracks) =~= crate::edit::with_clip(one, t, i + 1, right));
        },
        UndoRecord::CutClip { track_idx, clip_idx, clip, .. } => {
            crate::edit::lemma_with_clip_ok(tracks, track_idx as int, clip_idx as int, clip);
        },
        UndoRecord::RecutClip { track_idx, clip_idx, .. } => {
            crate::edit::lemma_without_clip_ok(tracks, track_idx as int, clip_idx as int);
        },
        UndoRecord::CreateTrack { track_idx, .. } => {
            crate::edit::lemma_without_track_ok(tracks, track_idx as int);
        },
        UndoRecord::RestoreTrack { track_idx, track, .. } => {
            crate::edit::lemma_with_track_ok(tracks, track_idx as int, track);
        },
        UndoRecord::MoveClip { .. } => {
            if a.clip_move().finds_clip(tracks) {
                lemma_move_ok(a.clip_move(), tracks);
            }
        },
        UndoRecord::ImportClip { track_idx, clip_idx, .. } => {
            crate::edit::lemma_without_clip_ok(tracks, track_idx as int, clip_idx as int);
            crate::edit::lemma_without_track_ok(tracks, track_idx as int);
        },
        UndoRecord::GenerateClickTrack { track_idx, .. } => {
            crate::edit::lemma_without_clip_ok(tracks, track_idx as int, 0);
            crate::edit::lemma_without_track_ok(tracks, track_idx as int);
        },
        UndoRecord::LoadProject { .. } => {},
        UndoRecord::ToggleMute { track_idx } => {
            crate::edit::lemma_same_clips_ok(tracks, a.applied_to(tracks));
        },
        UndoRecord::AdjustTrackGain { track_idx, .. } => {
            crate::edit::lemma_same_clips_ok(tracks, a.applied_to(tracks));
        },
        UndoRecord::AdjustGain { track_idx, clip_idx, prev_gain } => {
            crate::edit::lemma_with_clip_gain_ok(
                tracks,
                track_idx as int,
                clip_idx as int,
                prev_gain,
            );
        },
        UndoRecord::PasteClips { track_idx, prev_clips, .. } => {
            crate::edit::lemma_with_clips_ok(tracks, track_idx as int, prev_clips);
        },
        UndoRecord::CutRegion { track_idx, prev_clips, .. } => {
            crate::edit::lemma_with_clips_ok(tracks, track_idx as int, prev_clips);
        },
        UndoRecord::DeleteRegionMulti { track_idx, prev_clips, .. } => {
            crate::edit::lemma_with_clips_ok(tracks, track_idx as int, prev_clips);
        },
        UndoRecord::MoveClips { track_idx, moves, .. } => {
            lemma_moved_back_ok(tracks[track_idx as int].clips, moves);
            crate::edit::lemma_with_clips_ok(
                tracks,
                track_idx as int,
                moved_back(tracks[track_idx as int].clips, moves),
            );
        },
    }
}

impl App {
    /// Takes the latest edit back.
    pub fn perform_undo(&mut self) -> (r: Effects)
        requires
            old(self)@.ok(),
            old(self)@.can_undo(),
        ensures
            final(self)@ == old(self)@.undone(),
            final(self)@.ok(),
            r == (if old(self)@.undo_manager.undo.len() == 0 {
                Effects::Nothing
            } else {
                Effects::Refresh
            }),
    {
        let ghost before = self@;
        proof {
            crate::undo::lemma_popped_ok(before.undo_manager);
        }
        match self.undo_manager.pop_undo() {
            Some(action) => {
                proof {
                    assert(self@ =~= AppView { undo_manager: before.undo_manager.pop_undo(), ..before });
                    lemma_applied_ok(self@, action@);
                    lemma_applied_apart_from_history(before, action@, self@.undo_manager);
                }
                let reverse: UndoAction = self.apply_undo_action(action);
                let ghost applied = self@;
                self.undo_manager.push_redo(reverse);
                proof {
                    crate::undo::lemma_history_ok(applied.undo_manager, reverse@);
                    assert(self@ =~= before.undone());
                }
                Effects::Refresh
            },
            None => Effects::Nothing,
        }
    }

    /// Makes the latest edit that was taken back again.
    pub fn perform_redo(&mut self) -> (r: Effects)
        requires
            old(self)@.ok(),
            old(self)@.can_redo(),
        ensures
            final(self)@ == old(self)@.redone(),
            final(self)@.ok(),
            r == (if old(self)@.undo_manager.redo.len() == 0 {
                Effects::Nothing
            } else {
                Effects::Refresh
            }),
    {
        let ghost before = self@;
        proof {
            crate::undo::lemma_popped_ok(before.undo_manager);
        }
        match self.undo_manager.pop_redo() {
            Some(action) => {
                proof {
                    assert(self@ =~= AppView { undo_manager: before.undo_manager.pop_redo(), ..before });
                    lemma_applied_ok(self@, action@);
                    lemma_applied_apart_from_history(before, action@, self@.undo_manager);
                }
                let reverse: UndoAction = self.apply_undo_action(action);
                let ghost applied = self@;
                self.undo_manager.push_undo(reverse);
                proof {
                    crate::undo::lemma_history_ok(applied.undo_manager, reverse@);
                    assert(self@ =~= before.redone());
                }
                Effects::Refresh
            },
            None => Effects::Nothing,
        }
    }

    /// Applies the record of a clip that came, went, was split or was cut.
    fn apply_clip_record(&mut self, action: UndoAction) -> (r: UndoAction)
        requires
            old(self)@.ok(),
            action@.ok(),
            action@.applies_to(old(self)@.tracks),
            action is DeleteClip || action is ImportClip || action is SplitClip || action is JoinClip || action is CutClip || action is RecutClip,
        ensures
            final(self)@ == old(self)@.applied(action@),
            r@ == old(self)@.reverse(action@),
    {
        proof {
            reveal(AppView::applied);
            reveal(AppView::reverse);
        }
        let ghost before = self@;
        let ghost record = action@;
        let sel_track: Option<usize> = self.selected_track;
        let sel_clip: Option<usize> = self.selected_clip;
        let reverse: UndoAction = match action {
            UndoAction::DeleteClip {
                track_idx,
                clip_idx,
                clip,
                track_was_removed,
                switches,
                prev_sel_track,
                prev_sel_clip,
            } => {
                if track_was_removed {
                    let mut clips: Vec<Clip> = Vec::new();
                    clips.push(clip);
                    assert(crate::track::clip_views(clips@) =~= seq![clip@]);
                    put_track(&mut self.tracks, track_idx, Track::with_switches(clips, switches));
                } else {
                    put_clip(&mut self.tracks, track_idx, clip_idx, clip);
                }
                self.selected_track = prev_sel_track;
                self.selected_clip = prev_sel_clip;
                UndoAction::ImportClip {
                    track_idx,
                    clip_idx,
                    created_new_track: track_was_removed,
                    prev_sel_track: sel_track,
                    prev_sel_clip: sel_clip,
                }
            },
            UndoAction::ImportClip {
                track_idx,
                clip_idx,
                created_new_track,
                prev_sel_track,
                prev_sel_clip,
            } => {
                let clip: Clip = take_clip(&mut self.tracks, track_idx, clip_idx);
                assert(self@.tracks[track_idx as int] == self.tracks@[track_idx as int]@);
                let switches: Switches = self.tracks[track_idx].switches();
                let emptied: bool = created_new_track && self.tracks[track_idx].clips.len() == 0;
                assert(self.tracks@[track_idx as int].clips@.len() == before.tracks[track_idx as int].clips.remove(clip_idx as int).len());
                if emptied {
                    take_track(&mut self.tracks, track_idx);
                    assert(self@.tracks =~= before.tracks.remove(track_idx as int));
                }
                assert(self@.tracks == record.applied_to(before.tracks));
                self.selected_track = prev_sel_track;
                self.selected_clip = prev_sel_clip;
                UndoAction::DeleteClip {
                    track_idx,
                    clip_idx,
                    clip,
                    track_was_removed: emptied,
                    switches,
                    prev_sel_track: sel_track,
                    prev_sel_clip: sel_clip,
                }
            },
            UndoAction::SplitClip { track_idx, clip_idx, original_clip, prev_sel_clip } => {
                let left: Clip = take_clip(&mut self.tracks, track_idx, clip_idx);
                let right: Clip = take_clip(&mut self.tracks, track_idx, clip_idx);
                put_clip(&mut self.tracks, track_idx, clip_idx, original_clip);
                self.selected_clip = prev_sel_clip;
                proof {
                    let t = track_idx as int;
                    let i = clip_idx as int;
                    let clips = before.tracks[t].clips;
                    assert(clips.remove(i).remove(i).insert(i, original_clip@) =~= clips.remove(i).update(
                        i,
                        original_clip@,
                    ));
                    assert(self@.tracks =~= record.applied_to(before.tracks));
                }
                UndoAction::JoinClip { track_idx, clip_idx, left, right, prev_sel_clip: sel_clip }
            },
            UndoAction::JoinClip { track_idx, clip_idx, left, right, prev_sel_clip } => {
                assert(before.tracks[track_idx as int] == self.tracks@[track_idx as int]@);
                let len: usize = self.tracks[track_idx].clips.len();
                assert(clip_idx < len);
                let original_clip: Clip = take_clip(&mut self.tracks, track_idx, clip_idx);
                put_clip(&mut self.tracks, track_idx, clip_idx, left);
                put_clip(&mut self.tracks, track_idx, clip_idx + 1, right);
                self.selected_clip = prev_sel_clip;
                proof {
                    let t = track_idx as int;
                    let i = clip_idx as int;
                    let clips = before.tracks[t].clips;
                    assert(clips.remove(i).insert(i, left@).insert(i + 1, right@) =~= clips.update(
                        i,
                        left@,
                    ).insert(i + 1, right@));
                    assert(self@.tracks =~= record.applied_to(before.tracks));
                }
                UndoAction::SplitClip { track_idx, clip_idx, original_clip, prev_sel_clip: sel_clip }
            },
            UndoAction::CutClip { track_idx, clip_idx, clip, prev_clipboard, prev_sel_clip } => {
                let mut clipboard: Vec<Clip> = prev_clipboard;
                core::mem::swap(&mut clipboard, &mut self.clipboard);
                put_clip(&mut self.tracks, track_idx, clip_idx, clip);
                self.selected_track = Some(track_idx);
                self.selected_clip = prev_sel_clip;
                UndoAction::RecutClip {
                    track_idx,
                    clip_idx,
                    prev_clipboard: clipboard,
                    prev_sel_clip: sel_clip,
                }
            },
            UndoAction::RecutClip { track_idx, clip_idx, prev_clipboard, prev_sel_clip } => {
                let mut clipboard: Vec<Clip> = prev_clipboard;
                core::mem::swap(&mut clipboard, &mut self.clipboard);
                let clip: Clip = take_clip(&mut self.tracks, track_idx, clip_idx);
                self.selected_track = Some(track_idx);
                self.selected_clip = prev_sel_clip;
                UndoAction::CutClip {
                    track_idx,
                    clip_idx,
                    clip,
                    prev_clipboard: clipboard,
                    prev_sel_clip: sel_clip,
                }
            },
            _ => action,
        };
        assert(self@.tracks == record.applied_to(before.tracks));
        assert(self@ =~= before.applied(record));
        assert(reverse@ =~= before.reverse(record));
        reverse
    }

    /// Applies the record of a track, of a gain, or of a whole project.
    fn apply_track_record(&mut self, action: UndoAction) -> (r: UndoAction)
        requires
            old(self)@.ok(),
            action@.ok(),
            action@.applies_to(old(self)@.tracks),
            action is CreateTrack || action is RestoreTrack || action is GenerateClickTrack
                || action is LoadProject || action is ToggleMute || action is AdjustGain
                || action is AdjustTrackGain,
        ensures
            final(self)@ == old(self)@.applied(action@),
            r@ == old(self)@.reverse(action@),
    {
        proof {
            reveal(AppView::applied);
            reveal(AppView::reverse);
        }
        let ghost before = self@;
        let ghost record = action@;
        let sel_track: Option<usize> = self.selected_track;
        let sel_clip: Option<usize> = self.selected_clip;
        let reverse: UndoAction = match action {
            UndoAction::CreateTrack { track_idx, prev_sel_track, prev_sel_clip } => {
                let track: Track = take_track(&mut self.tracks, track_idx);
                self.selected_track = prev_sel_track;
                self.selected_clip = prev_sel_clip;
                UndoAction::RestoreTrack {
                    track_idx,
                    track,
                    prev_sel_track: sel_track,
                    prev_sel_clip: sel_clip,
                }
            },
            UndoAction::RestoreTrack { track_idx, track, prev_sel_track, prev_sel_clip } => {
                put_track(&mut self.tracks, track_idx, track);
                self.selected_track = prev_sel_track;
                self.selected_clip = prev_sel_clip;
                UndoAction::CreateTrack {
                    track_idx,
                    prev_sel_track: sel_track,
                    prev_sel_clip: sel_clip,
                }
            },
            UndoAction::GenerateClickTrack { track_idx, prev_sel_track, prev_sel_clip } => {
                let track: Track = take_track(&mut self.tracks, track_idx);
                self.selected_track = prev_sel_track;
                self.selected_clip = prev_sel_clip;
                UndoAction::RestoreTrack {
                    track_idx,
                    track,
                    prev_sel_track: sel_track,
                    prev_sel_clip: sel_clip,
                }
            },
            UndoAction::LoadProject {
                prev_tracks,
                prev_project_path,
                prev_project_rate,
                prev_sel_track,
                prev_sel_clip,
            } => {
                let mut tracks: Vec<Track> = prev_tracks;
                core::mem::swap(&mut tracks, &mut self.tracks);
                let mut project_path: Option<String> = prev_project_path;
                core::mem::swap(&mut project_path, &mut self.project_path);
                let project_rate: u32 = self.project_rate;
                self.project_rate = prev_project_rate;
                self.selected_track = prev_sel_track;
                self.selected_clip = prev_sel_clip;
                self.view_start = 0;
                self.view_duration = self.max_duration();
                UndoAction::LoadProject {
                    prev_tracks: tracks,
                    prev_project_path: project_path,
                    prev_project_rate: project_rate,
                    prev_sel_track: sel_track,
                    prev_sel_clip: sel_clip,
                }
            },
            UndoAction::ToggleMute { track_idx } => {
                flip_mute(&mut self.tracks, track_idx);
                UndoAction::ToggleMute { track_idx }
            },
            UndoAction::AdjustTrackGain { track_idx, prev_gain } => {
                assert(before.tracks[track_idx as int] == self.tracks@[track_idx as int]@);
                let gain: Sample = swap_track_gain(&mut self.tracks, track_idx, prev_gain);
                UndoAction::AdjustTrackGain { track_idx, prev_gain: gain }
            },
            UndoAction::AdjustGain { track_idx, clip_idx, prev_gain } => {
                let gain: Sample = swap_gain(&mut self.tracks, track_idx, clip_idx, prev_gain);
                UndoAction::AdjustGain { track_idx, clip_idx, prev_gain: gain }
            },
            _ => action,
        };
        assert(self@.tracks == record.applied_to(before.tracks));
        assert(self@ =~= before.applied(record));
        assert(reverse@ =~= before.reverse(record));
        reverse
    }

    /// Applies the record of a move.
    fn apply_move_record(&mut self, action: UndoAction) -> (r: UndoAction)
        requires
            old(self)@.ok(),
            action@.ok(),
            action@.applies_to(old(self)@.tracks),
            action is MoveClip || action is MoveClips,
        ensures
            final(self)@ == old(self)@.applied(action@),
            r@ == old(self)@.reverse(action@),
    {
        proof {
            reveal(AppView::applied);
            reveal(AppView::reverse);
        }
        let ghost before = self@;
        let ghost record = action@;
        let sel_track: Option<usize> = self.selected_track;
        let sel_clip: Option<usize> = self.selected_clip;
        let reverse: UndoAction = match action {
            UndoAction::MoveClip {
                src_track,
                src_clip_idx,
                src_offset,
                dest_track,
                dest_clip_idx,
                dest_offset,
                src_track_was_removed,
                src_switches,
                dest_was_empty,
                prev_sel_track,
                prev_sel_clip,
            } => {
                assert(dest_track < self.tracks@.len() ==> before.tracks[dest_track as int]
                    == self.tracks@[dest_track as int]@);
                if dest_track < self.tracks.len() && dest_clip_idx < self.tracks[dest_track].clips.len() {
                    let m = ClipMove {
                        src_track,
                        src_clip_idx,
                        src_offset,
                        dest_track,
                        dest_clip_idx,
                        src_track_was_removed,
                        src_switches,
                        dest_was_empty,
                    };
                    assert(m == record.clip_move());
                    let f: ClipMove = move_back(&mut self.tracks, m);
                    self.selected_track = prev_sel_track;
                    self.selected_clip = prev_sel_clip;
                    UndoAction::MoveClip {
                        src_track: f.src_track,
                        src_clip_idx: f.src_clip_idx,
                        src_offset: f.src_offset,
                        dest_track: f.dest_track,
                        dest_clip_idx: f.dest_clip_idx,
                        dest_offset: src_offset,
                        src_track_was_removed: f.src_track_was_removed,
                        src_switches: f.src_switches,
                        dest_was_empty: f.dest_was_empty,
                        prev_sel_track: sel_track,
                        prev_sel_clip: sel_clip,
                    }
                } else {
                    UndoAction::MoveClip {
                        src_track,
                        src_clip_idx,
                        src_offset,
                        dest_track,
                        dest_clip_idx,
                        dest_offset,
                        src_track_was_removed,
                        src_switches,
                        dest_was_empty,
                        prev_sel_track: sel_track,
                        prev_sel_clip: sel_clip,
                    }
                }
            },
            UndoAction::MoveClips { track_idx, moves, prev_sel_track, prev_sel_clip } => {
                let turned: Vec<(usize, Secs, Secs)> = move_all_back(
                    &mut self.tracks,
                    track_idx,
                    &moves,
                );
                self.selected_track = prev_sel_track;
                self.selected_clip = prev_sel_clip;
                UndoAction::MoveClips {
                    track_idx,
                    moves: turned,
                    prev_sel_track: sel_track,
                    prev_sel_clip: sel_clip,
                }
            },
            _ => action,
        };
        assert(self@.tracks == record.applied_to(before.tracks));
        assert(self@ =~= before.applied(record));
        assert(reverse@ =~= before.reverse(record));
        reverse
    }

    /// Applies a record that holds the clips that a track had.
    fn apply_snapshot_record(&mut self, action: UndoAction) -> (r: UndoAction)
        requires
            old(self)@.ok(),
            action@.ok(),
            action@.applies_to(old(self)@.tracks),
            action is PasteClips || action is CutRegion || action is DeleteRegionMulti,
        ensures
            final(self)@ == old(self)@.applied(action@),
            r@ == old(self)@.reverse(action@),
    {
        proof {
            reveal(AppView::applied);
            reveal(AppView::reverse);
        }
        let ghost before = self@;
        let ghost record = action@;
        let sel_track: Option<usize> = self.selected_track;
        let sel_clip: Option<usize> = self.selected_clip;
        let reverse: UndoAction = match action {
            UndoAction::PasteClips { track_idx, prev_clips, prev_sel_clip } => {
                let clips: Vec<Clip> = swap_clips(&mut self.tracks, track_idx, prev_clips);
                self.selected_clip = prev_sel_clip;
                UndoAction::PasteClips { track_idx, prev_clips: clips, prev_sel_clip: sel_clip }
            },
            UndoAction::CutRegion {
                track_idx,
                prev_clips,
                prev_clipboard,
                prev_sel_clip,
                prev_selection,
            } => {
                let clips: Vec<Clip> = swap_clips(&mut self.tracks, track_idx, prev_clips);
                let mut clipboard: Vec<Clip> = prev_clipboard;
                core::mem::swap(&mut clipboard, &mut self.clipboard);
                let selection: Option<(Secs, Secs)> = self.selection;
                self.selected_track = Some(track_idx);
                self.selected_clip = prev_sel_clip;
                self.selection = prev_selection;
                UndoAction::CutRegion {
                    track_idx,
                    prev_clips: clips,
                    prev_clipboard: clipboard,
                    prev_sel_clip: sel_clip,
                    prev_selection: selection,
                }
            },
            UndoAction::DeleteRegionMulti { track_idx, prev_clips, prev_sel_clip, prev_selection } => {
                let clips: Vec<Clip> = swap_clips(&mut self.tracks, track_idx, prev_clips);
                let selection: Option<(Secs, Secs)> = self.selection;
                self.selected_track = Some(track_idx);
                self.selected_clip = prev_sel_clip;
                self.selection = prev_selection;
                UndoAction::DeleteRegionMulti {
                    track_idx,
                    prev_clips: clips,
                    prev_sel_clip: sel_clip,
                    prev_selection: selection,
                }
            },
            _ => action,
        };
        assert(self@.tracks == record.applied_to(before.tracks));
        assert(self@ =~= before.applied(record));
        assert(reverse@ =~= before.reverse(record));
        reverse
    }

    /// Applies a record and returns the record that reverses it.
    pub fn apply_undo_action(&mut self, action: UndoAction) -> (r: UndoAction)
        requires
            old(self)@.ok(),
            action@.ok(),
            action@.applies_to(old(self)@.tracks),
        ensures
            final(self)@ == old(self)@.applied(action@),
            r@ == old(self)@.reverse(action@),
    {
        match &action {
            UndoAction::DeleteClip { .. }
            | UndoAction::ImportClip { .. }
            | UndoAction::SplitClip { .. }
            | UndoAction::JoinClip { .. }
            | UndoAction::CutClip { .. }
            | UndoAction::RecutClip { .. } => self.apply_clip_record(action),
            UndoAction::CreateTrack { .. }
            | UndoAction::RestoreTrack { .. }
            | UndoAction::GenerateClickTrack { .. }
            | UndoAction::LoadProject { .. }
            | UndoAction::ToggleMute { .. }
            | UndoAction::AdjustTrackGain { .. }
            | UndoAction::AdjustGain { .. } => self.apply_track_record(action),
            UndoAction::MoveClip { .. }
            | UndoAction::MoveClips { .. } => self.apply_move_record(action),
            UndoAction::PasteClips { .. }
            | UndoAction::CutRegion { .. }
            | UndoAction::DeleteRegionMulti { .. } => self.apply_snapshot_record(action),
        }
    }
}

} // verus!
