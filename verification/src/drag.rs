//! Dragging a clip, or a group of clips, with the pointer.

use vstd::prelude::*;
use crate::app::{App, AppView, DragState, DragView, Effects, Px, SurfaceSize, DRAG_THRESHOLD_PX, SUBPX};
use crate::audio::{Clip, ClipView};
use crate::edit::{put_clip, set_offset, take_clip, take_track};
use crate::geometry::lane_index;
use crate::time::{floor_div, later, to_secs, Secs};
use crate::track::{Switches, Track, TrackView};
use crate::undo::{UndoAction, UndoRecord};

verus! {

/// The indices of a group.
pub open spec fn group_indices(group: Seq<(usize, Secs)>) -> Seq<usize> {
    group.map_values(|g: (usize, Secs)| g.0)
}

/// The offsets of a group when the drag began.
pub open spec fn group_offsets(group: Seq<(usize, Secs)>) -> Seq<Secs> {
    group.map_values(|g: (usize, Secs)| g.1)
}

/// Where the last clip of a group ended when the drag began.
pub open spec fn group_right(clips: Seq<ClipView>, group: Seq<(usize, Secs)>) -> int
    decreases group.len(),
{
    if group.len() == 0 {
        0
    } else {
        let (i, offset) = group.last();
        let end = offset + clips[i as int].duration();
        if group.len() == 1 {
            end
        } else {
            crate::time::larger(group_right(clips, group.drop_last()), end)
        }
    }
}

/// The clips with those of the group moved by `delta` from where they were.
pub open spec fn group_moved(clips: Seq<ClipView>, group: Seq<(usize, Secs)>, delta: int) -> Seq<
    ClipView,
>
    decreases group.len(),
{
    if group.len() == 0 {
        clips
    } else {
        let rest = group_moved(clips, group.drop_last(), delta);
        let (i, offset) = group.last();
        rest.update(i as int, rest[i as int].at(crate::time::sat_secs(offset + delta)))
    }
}

/// The moves of a group: for each clip that is not where it was, its index, where it was and where
/// it is.
pub open spec fn group_moves(clips: Seq<ClipView>, group: Seq<(usize, Secs)>) -> Seq<
    (usize, Secs, Secs),
>
    decreases group.len(),
{
    if group.len() == 0 {
        Seq::empty()
    } else {
        let rest = group_moves(clips, group.drop_last());
        let (i, offset) = group.last();
        let now = clips[i as int].offset_secs;
        if now != offset {
            rest.push((i, offset, now))
        } else {
            rest
        }
    }
}

impl DragView {
    /// Whether the pointer at `px`, `py` is far enough from where the button was pressed.
    pub open spec fn is_far(self, px: int, py: int) -> bool {
        let dx = px - self.start_x;
        let dy = py - self.start_y;
        dx * dx + dy * dy >= (DRAG_THRESHOLD_PX * SUBPX) * (DRAG_THRESHOLD_PX * SUBPX)
    }

    /// The drag with the pointer at `px`, `py`.
    pub open spec fn at(self, px: int, py: int) -> DragView {
        DragView { active: self.active || self.is_far(px, py), ..self }
    }
}

impl AppView {
    /// Whether a clip is being dragged.
    pub open spec fn is_dragging(self) -> bool {
        self.dragging matches Some(d) && d.active
    }

    /// Whether the clips of the dragged group are there.
    pub open spec fn has_group(self, d: DragView) -> bool {
        &&& d.current_track_idx < self.tracks.len()
        &&& forall|k: int|
            0 <= k < d.group.len() ==> (#[trigger] d.group[k]).0
                < self.tracks[d.current_track_idx as int].clips.len()
    }

    /// Whether what is dragged can be moved: there is a window, and a group, or a track to drag a
    /// clip to.
    pub open spec fn can_drag(self, d: DragView) -> bool {
        &&& self.config is Some
        &&& if d.group.len() > 0 {
            self.has_group(d)
        } else {
            self.tracks.len() > 0
        }
    }

    /// Whether what is dragged can be let go: the clips are there.
    pub open spec fn can_drop(self, d: DragView) -> bool {
        if d.group.len() > 0 {
            self.has_group(d)
        } else {
            self.has_clip(d.current_track_idx, d.clip_idx)
        }
    }

    /// Where the pointer at `px` drags what is dragged to, on its own.
    pub open spec fn drag_target(self, d: DragView, px: int) -> Secs {
        let width = self.config->0.width * SUBPX;
        crate::time::sat_secs(
            crate::time::larger(
                d.start_offset + (px - d.start_x) * self.effective_view_duration() / width,
                0,
            ),
        )
    }

    /// The editor with the dragged group where the pointer at `px` takes it.
    pub open spec fn group_dragged(self, px: int) -> AppView {
        let d = self.dragging->0;
        let t = d.current_track_idx;
        let clips = self.tracks[t as int].clips;
        let rest = crate::placement::others(clips, group_indices(d.group));
        let snapped = self.snap_offset_group(
            rest,
            self.drag_target(d, px),
            group_right(clips, d.group) - d.start_offset,
        );
        let left = crate::time::sat_secs(
            crate::group::group_left(
                rest,
                crate::group::members(clips, group_indices(d.group), group_offsets(d.group)),
                snapped as int,
                d.start_offset as int,
            ),
        );
        AppView {
            tracks: crate::edit::with_clips(
                self.tracks,
                t as int,
                group_moved(clips, d.group, left - d.start_offset),
            ),
            ..self
        }
    }

    /// The editor with the dragged clip in the track at height `py`: at the end of that track, if
    /// it comes from another.
    pub open spec fn clip_lifted(self, py: int) -> AppView {
        let d = self.dragging->0;
        let target = crate::time::smaller(
            crate::geometry::lane_at(py, self.tracks.len() as int, self.config->0.height as int),
            self.tracks.len() - 1,
        );
        let from = d.current_track_idx as int;
        if target != from && self.has_clip(d.current_track_idx, d.clip_idx) {
            let clip = self.tracks[from].clips[d.clip_idx as int];
            let lifted = crate::edit::without_clip(self.tracks, from, d.clip_idx as int);
            let slot = lifted[target].clips.len();
            AppView {
                tracks: crate::edit::with_clip(lifted, target, slot as int, clip),
                dragging: Some(
                    DragView { current_track_idx: target as usize, clip_idx: slot as usize, ..d },
                ),
                selected_track: Some(target as usize),
                selected_clip: Some(slot as usize),
                ..self
            }
        } else {
            self
        }
    }

    /// The editor with the dragged clip, in the track where it is, where the pointer at `px` takes
    /// it: snapped to the edges of the other clips, and clear of them.
    pub open spec fn clip_dropped(self, target: Secs) -> AppView {
        let d = self.dragging->0;
        let t = d.current_track_idx as int;
        let i = d.clip_idx as int;
        let clips = self.tracks[t].clips;
        let dur = clips[i].duration() as Secs;
        let rest = crate::placement::others(clips, seq![d.clip_idx]);
        let snapped = self.snap_offset(rest, target, dur);
        let offset = crate::time::sat_secs(
            crate::placement::nearest_free(rest, snapped as int, dur as int),
        );
        if self.has_clip(d.current_track_idx, d.clip_idx) {
            AppView { tracks: crate::edit::with_offset(self.tracks, t, i, offset), ..self }
        } else {
            self
        }
    }

    /// The editor with what is dragged where the pointer takes it.
    pub open spec fn dragged(self, px: int, py: int) -> AppView {
        let d = self.dragging->0;
        if d.group.len() > 0 {
            self.group_dragged(px)
        } else {
            self.clip_lifted(py).clip_dropped(self.drag_target(d, px))
        }
    }

    /// Whether the drag of a single clip leaves its first track empty.
    pub open spec fn source_emptied(self, d: DragView) -> bool {
        d.source_track_idx < self.tracks.len()
            && self.tracks[d.source_track_idx as int].clips.len() == 0
    }

    /// The switches of the track that a single clip was dragged from, or of the track that it is in
    /// if that has gone.
    pub open spec fn source_switches(self, d: DragView) -> Switches {
        if d.source_track_idx < self.tracks.len() {
            self.tracks[d.source_track_idx as int].switches()
        } else {
            self.tracks[d.current_track_idx as int].switches()
        }
    }

    /// The track that the dragged clip ends in, once an emptied track is gone.
    pub open spec fn drop_track(self, d: DragView) -> usize {
        if self.source_emptied(d) && d.source_track_idx < d.current_track_idx {
            (d.current_track_idx - 1) as usize
        } else {
            d.current_track_idx
        }
    }

    /// Whether the drag of a single clip has changed anything.
    pub open spec fn clip_was_moved(self, d: DragView) -> bool {
        let dest_offset = self.tracks[d.current_track_idx as int].clips[d.clip_idx as int].offset_secs;
        d.source_track_idx != self.drop_track(d) || d.source_clip_idx != d.clip_idx
            || d.start_offset != dest_offset || self.source_emptied(d)
    }

    /// The editor after the drag of a single clip: a track that the drag has emptied goes, and the
    /// move is recorded if anything has changed.
    pub open spec fn clip_drag_ended(self, d: DragView) -> AppView {
        let emptied = self.source_emptied(d);
        let track = self.drop_track(d);
        let dest_offset = self.tracks[d.current_track_idx as int].clips[d.clip_idx as int].offset_secs;
        let after = AppView {
            tracks: if emptied {
                self.tracks.remove(d.source_track_idx as int)
            } else {
                self.tracks
            },
            selected_track: Some(track),
            selected_clip: Some(d.clip_idx),
            ..self
        };
        if self.clip_was_moved(d) {
            after.recorded(
                UndoRecord::MoveClip {
                    src_track: d.source_track_idx,
                    src_clip_idx: d.source_clip_idx,
                    src_offset: d.start_offset,
                    dest_track: track,
                    dest_clip_idx: d.clip_idx,
                    dest_offset,
                    src_track_was_removed: emptied,
                    src_switches: self.source_switches(d),
                    dest_was_empty: self.tracks[d.current_track_idx as int].clips.len() == 1,
                    prev_sel_track: d.prev_selected_track,
                    prev_sel_clip: d.prev_selected_clip,
                },
            )
        } else {
            after
        }
    }

    /// The editor after the drag of a group: the moves are recorded if there are any.
    pub open spec fn group_drag_ended(self, d: DragView) -> AppView {
        let t = d.current_track_idx;
        let moves = group_moves(self.tracks[t as int].clips, d.group);
        let after = AppView { selected_track: Some(t), selected_clip: Some(d.clip_idx), ..self };
        if moves.len() > 0 {
            after.recorded(
                UndoRecord::MoveClips {
                    track_idx: t,
                    moves,
                    prev_sel_track: d.prev_selected_track,
                    prev_sel_clip: d.prev_selected_clip,
                },
            )
        } else {
            after
        }
    }

    /// The editor after what was dragged is let go.
    pub open spec fn drag_ended(self) -> AppView {
        match self.dragging {
            Some(d) => {
                let v = AppView { dragging: None, ..self };
                if d.active {
                    if d.group.len() > 0 {
                        v.group_drag_ended(d)
                    } else {
                        v.clip_drag_ended(d)
                    }
                } else if d.group.len() > 0 {
                    AppView {
                        multi_selected_clips: Seq::empty(),
                        selected_track: Some(d.current_track_idx),
                        selected_clip: Some(d.clip_idx),
                        ..v
                    }
                } else {
                    v
                }
            },
            None => self,
        }
    }
}

/// Copies the two halves of a group.
fn split_group(group: &Vec<(usize, Secs)>) -> (r: (Vec<usize>, Vec<Secs>))
    ensures
        r.0@ == group_indices(group@),
        r.1@ == group_offsets(group@),
{
    let mut indices: Vec<usize> = Vec::new();
    let mut offsets: Vec<Secs> = Vec::new();
    let mut k: usize = 0;
    while k < group.len()
        invariant
            k <= group@.len(),
            indices@ == group_indices(group@).subrange(0, k as int),
            offsets@ == group_offsets(group@).subrange(0, k as int),
        decreases group@.len() - k,
    {
        let (i, offset): (usize, Secs) = group[k];
        indices.push(i);
        offsets.push(offset);
        k = k + 1;
        assert(indices@ =~= group_indices(group@).subrange(0, k as int));
        assert(offsets@ =~= group_offsets(group@).subrange(0, k as int));
    }
    assert(group_indices(group@).subrange(0, k as int) =~= group_indices(group@));
    assert(group_offsets(group@).subrange(0, k as int) =~= group_offsets(group@));
    (indices, offsets)
}

/// Where the last clip of a group ended when the drag began.
fn right_end(clips: &Vec<Clip>, group: &Vec<(usize, Secs)>) -> (r: i128)
    requires
        crate::track::clips_ok(crate::track::clip_views(clips@)),
        forall|k: int| 0 <= k < group@.len() ==> (#[trigger] group@[k]).0 < clips@.len(),
    ensures
        r == group_right(crate::track::clip_views(clips@), group@),
        -0x1_0000_0000_0000_0000 <= r <= 0x1_0000_0000_0000_0000,
{
    let ghost all = crate::track::clip_views(clips@);
    let mut r: i128 = 0;
    let mut k: usize = 0;
    assert(group@.subrange(0, 0) =~= Seq::empty());
    while k < group.len()
        invariant
            k <= group@.len(),
            all == crate::track::clip_views(clips@),
            crate::track::clips_ok(all),
            forall|j: int| 0 <= j < group@.len() ==> (#[trigger] group@[j]).0 < clips@.len(),
            r == group_right(all, group@.subrange(0, k as int)),
            -0x1_0000_0000_0000_0000 <= r <= 0x1_0000_0000_0000_0000,
        decreases group@.len() - k,
    {
        let ghost upto = group@.subrange(0, k + 1);
        assert(upto.drop_last() =~= group@.subrange(0, k as int));
        let (i, offset): (usize, Secs) = group[k];
        assert(upto.last() == (i, offset));
        assert(all[i as int] == clips@[i as int]@);
        let end: i128 = offset as i128 + clips[i].duration_secs() as i128;
        r = if k == 0 {
            end
        } else {
            later(r, end)
        };
        k = k + 1;
    }
    assert(group@.subrange(0, k as int) =~= group@);
    r
}

/// Moves the clips of a group of track `t` by `delta` from where they were.
fn move_group(tracks: &mut Vec<Track>, t: usize, group: &Vec<(usize, Secs)>, delta: i128)
    requires
        t < old(tracks)@.len(),
        -0x1_0000_0000_0000_0000 <= delta <= 0x1_0000_0000_0000_0000,
        forall|k: int|
            0 <= k < group@.len() ==> (#[trigger] group@[k]).0 < crate::track::track_views(
                old(tracks)@,
            )[t as int].clips.len(),
    ensures
        crate::track::track_views(final(tracks)@) == crate::edit::with_clips(
            crate::track::track_views(old(tracks)@),
            t as int,
            group_moved(
                crate::track::track_views(old(tracks)@)[t as int].clips,
                group@,
                delta as int,
            ),
        ),
{
    let ghost before = crate::track::track_views(tracks@);
    let ghost clips = before[t as int].clips;
    let mut k: usize = 0;
    assert(group@.subrange(0, 0) =~= Seq::empty());
    assert(before =~= crate::edit::with_clips(before, t as int, clips));
    while k < group.len()
        invariant
            k <= group@.len(),
            t < before.len(),
            tracks@.len() == before.len(),
            clips == before[t as int].clips,
            -0x1_0000_0000_0000_0000 <= delta <= 0x1_0000_0000_0000_0000,
            forall|j: int| 0 <= j < group@.len() ==> (#[trigger] group@[j]).0 < clips.len(),
            crate::track::track_views(tracks@) == crate::edit::with_clips(
                before,
                t as int,
                group_moved(clips, group@.subrange(0, k as int), delta as int),
            ),
            group_moved(clips, group@.subrange(0, k as int), delta as int).len() == clips.len(),
        decreases group@.len() - k,
    {
        let ghost upto = group@.subrange(0, k + 1);
        assert(upto.drop_last() =~= group@.subrange(0, k as int));
        let (i, offset): (usize, Secs) = group[k];
        assert(upto.last() == (i, offset));
        set_offset(tracks, t, i, to_secs(offset as i128 + delta));
        k = k + 1;
        assert(crate::track::track_views(tracks@) =~= crate::edit::with_clips(
            before,
            t as int,
            group_moved(clips, upto, delta as int),
        ));
    }
    assert(group@.subrange(0, k as int) =~= group@);
}

/// Moving clips keeps them in order.
proof fn lemma_group_moved_ok(clips: Seq<ClipView>, group: Seq<(usize, Secs)>, delta: int)
    requires
        crate::track::clips_ok(clips),
        forall|k: int| 0 <= k < group.len() ==> (#[trigger] group[k]).0 < clips.len(),
    ensures
        crate::track::clips_ok(group_moved(clips, group, delta)),
        group_moved(clips, group, delta).len() == clips.len(),
    decreases group.len(),
{
    if group.len() > 0 {
        let g = group.drop_last();
        assert forall|k: int| 0 <= k < g.len() implies (#[trigger] g[k]).0 < clips.len() by {
            assert(g[k] == group[k]);
        }
        lemma_group_moved_ok(clips, g, delta);
        assert(group.last() == group[group.len() - 1]);
        let rest = group_moved(clips, g, delta);
        let new = group_moved(clips, group, delta);
        assert forall|j: int| 0 <= j < new.len() implies (#[trigger] new[j]).ok() by {
            assert(rest[j].ok());
        }
    }
}

/// Moving a clip keeps the tracks in order.
pub proof fn lemma_with_offset_ok(tracks: Seq<TrackView>, t: int, i: int, offset: Secs)
    requires
        crate::track::tracks_ok(tracks),
        0 <= t < tracks.len(),
        0 <= i < tracks[t].clips.len(),
    ensures
        crate::track::tracks_ok(crate::edit::with_offset(tracks, t, i, offset)),
{
    let clips = tracks[t].clips;
    let new = clips.update(i, clips[i].at(offset));
    assert(crate::track::clips_ok(clips));
    assert forall|j: int| 0 <= j < new.len() implies (#[trigger] new[j]).ok() by {
        assert(clips[j].ok());
    }
    crate::edit::lemma_with_clips_ok(tracks, t, new);
}

impl App {
    /// Where the pointer at `px` drags what is dragged to, on its own.
    fn drag_target(&self, start_offset: Secs, start_x: Px, px: Px) -> (r: Secs)
        requires
            self@.ok(),
            self@.config is Some,
            self@.dragging is Some,
            start_offset == self@.dragging->0.start_offset,
            start_x == self@.dragging->0.start_x,
        ensures
            r == self@.drag_target(self@.dragging->0, px as int),
            r >= 0,
    {
        let width: u32 = match self.config {
            Some(s) => s.width,
            None => 1,
        };
        let view: Secs = self.effective_view_duration();
        let dx: i64 = px as i64 - start_x as i64;
        assert(-(0x1_0000_0000 * i64::MAX) <= dx * view <= 0x1_0000_0000 * i64::MAX) by (nonlinear_arith)
            requires
                -0x1_0000_0000 <= dx <= 0x1_0000_0000,
                0 <= view <= i64::MAX,
        ;
        assert(256 <= width * SUBPX <= u32::MAX * 256) by (nonlinear_arith)
            requires
                1 <= width <= u32::MAX,
                SUBPX == 256,
        ;
        let w: i128 = width as i128 * SUBPX as i128;
        let moved: i128 = floor_div(dx as i128 * view as i128, w);
        assert(-(0x1_0000_0000 * i64::MAX) <= moved <= 0x1_0000_0000 * i64::MAX) by (nonlinear_arith)
            requires
                -(0x1_0000_0000 * i64::MAX) <= dx * view <= 0x1_0000_0000 * i64::MAX,
                moved == (dx * view) / (w as int),
                w >= 1,
        ;
        to_secs(later(start_offset as i128 + moved, 0))
    }

    /// Moves the dragged group where the pointer at `px` takes it.
    fn drag_group(&mut self, px: Px)
        requires
            old(self)@.ok(),
            old(self)@.dragging matches Some(d) && d.group.len() > 0 && old(self)@.can_drag(d),
        ensures
            final(self)@ == old(self)@.group_dragged(px as int),
            final(self)@.ok(),
    {
        let ghost before = self@;
        let ghost d = before.dragging->0;
        match &self.dragging {
            Some(drag) => {
                let t: usize = drag.current_track_idx;
                let ghost clips = before.tracks[t as int].clips;
                assert(before.tracks[t as int] == self.tracks@[t as int]@);
                let from: Secs = drag.start_offset;
                let desired: Secs = self.drag_target(from, drag.start_x, px);
                let (indices, offsets): (Vec<usize>, Vec<Secs>) = split_group(&drag.group);
                assert forall|k: int| 0 <= k < indices@.len() implies (#[trigger] indices@[k])
                    < clips.len() by {
                    assert(indices@[k] == d.group[k].0);
                }
                let right: i128 = right_end(&self.tracks[t].clips, &drag.group);
                let snapped: Secs = self.snap_offset_group(
                    t,
                    indices.as_slice(),
                    desired,
                    right - from as i128,
                );
                let left: Secs = self.clamp_group_no_overlap(
                    t,
                    indices.as_slice(),
                    offsets.as_slice(),
                    snapped,
                    from,
                );
                let delta: i128 = left as i128 - from as i128;
                let group: Vec<(usize, Secs)> = vstd::slice::slice_to_vec(drag.group.as_slice());
                assert(group@ =~= d.group);
                proof {
                    lemma_group_moved_ok(clips, d.group, delta as int);
                    crate::edit::lemma_with_clips_ok(
                        before.tracks,
                        t as int,
                        group_moved(clips, d.group, delta as int),
                    );
                }
                move_group(&mut self.tracks, t, &group, delta);
                assert(self@ =~= before.group_dragged(px as int));
            },
            None => {},
        }
    }

    /// Moves the dragged clip into the track at height `py`.
    fn lift_clip(&mut self, py: Px)
        requires
            old(self)@.ok(),
            old(self)@.dragging matches Some(d) && d.group.len() == 0 && old(self)@.can_drag(d),
        ensures
            final(self)@ == old(self)@.clip_lifted(py as int),
            final(self)@.ok(),
    {
        let ghost before = self@;
        let n: usize = self.tracks.len();
        let (from, i): (usize, usize) = match &self.dragging {
            Some(d) => (d.current_track_idx, d.clip_idx),
            None => (0, 0),
        };
        let size: SurfaceSize = match self.config {
            Some(s) => s,
            None => SurfaceSize { width: 1, height: 1 },
        };
        let lane: usize = lane_index(py, n, size);
        proof {
            lemma_lane_is_natural(py as int, n as int, size.height as int);
        }
        let target: usize = if lane < n - 1 {
            lane
        } else {
            n - 1
        };
        assert(from < n ==> before.tracks[from as int] == self.tracks@[from as int]@);
        if target == from || from >= n || i >= self.tracks[from].clips.len() {
            return;
        }
        proof {
            crate::edit::lemma_without_clip_ok(before.tracks, from as int, i as int);
        }
        let ghost lifted = crate::edit::without_clip(before.tracks, from as int, i as int);
        let clip: Clip = take_clip(&mut self.tracks, from, i);
        assert(self@.tracks[target as int] == self.tracks@[target as int]@);
        let slot: usize = self.tracks[target].clips.len();
        proof {
            crate::edit::lemma_with_clip_ok(lifted, target as int, slot as int, clip@);
        }
        put_clip(&mut self.tracks, target, slot, clip);
        self.selected_track = Some(target);
        self.selected_clip = Some(slot);
        let mut dragging: Option<DragState> = None;
        core::mem::swap(&mut dragging, &mut self.dragging);
        match dragging {
            Some(d) => {
                let mut d: DragState = d;
                d.current_track_idx = target;
                d.clip_idx = slot;
                self.dragging = Some(d);
            },
            None => {},
        }
        assert(self@ =~= before.clip_lifted(py as int));
    }

    /// Moves the dragged clip, in the track where it is, to `target`: snapped to the edges of the
    /// other clips, and clear of them.
    fn drop_clip(&mut self, target: Secs)
        requires
            old(self)@.ok(),
            old(self)@.dragging is Some,
            old(self)@.config is Some,
        ensures
            final(self)@ == old(self)@.clip_dropped(target),
            final(self)@.ok(),
    {
        let ghost before = self@;
        let (t, i): (usize, usize) = match &self.dragging {
            Some(d) => (d.current_track_idx, d.clip_idx),
            None => (0, 0),
        };
        assert(t < self.tracks@.len() ==> before.tracks[t as int] == self.tracks@[t as int]@);
        if t >= self.tracks.len() || i >= self.tracks[t].clips.len() {
            return;
        }
        assert(before.tracks[t as int].clips[i as int] == self.tracks@[t as int].clips@[i as int]@);
        assert(before.tracks[t as int].clips[i as int].ok());
        let dur: Secs = self.tracks[t].clips[i].duration_secs();
        proof {
            let c = before.tracks[t as int].clips[i as int];
            crate::time::lemma_time_of_grows(0, c.mono.len() as int, c.sample_rate as int);
        }
        let snapped: Secs = self.snap_offset(t, i, target, dur);
        let offset: Secs = self.clamp_no_overlap(t, i, snapped, dur);
        proof {
            lemma_with_offset_ok(before.tracks, t as int, i as int, offset);
        }
        set_offset(&mut self.tracks, t, i, offset);
        assert(self@ =~= before.clip_dropped(target));
    }

    /// Moves what is dragged where the pointer takes it.
    pub fn drag_to(&mut self, px: Px, py: Px)
        requires
            old(self)@.ok(),
            old(self)@.dragging matches Some(d) && old(self)@.can_drag(d),
        ensures
            final(self)@ == old(self)@.dragged(px as int, py as int),
            final(self)@.ok(),
    {
        let (from, start_x, grouped): (Secs, Px, bool) = match &self.dragging {
            Some(d) => (d.start_offset, d.start_x, d.group.len() > 0),
            None => (0, 0, false),
        };
        if grouped {
            self.drag_group(px);
        } else {
            let target: Secs = self.drag_target(from, start_x, px);
            self.lift_clip(py);
            self.drop_clip(target);
        }
    }

    /// Puts a clip that was dragged in its place: a track that the drag has emptied goes, and the
    /// move is recorded if anything has changed.
    fn end_clip_drag(&mut self, d: DragState)
        requires
            old(self)@.ok(),
            old(self)@.has_clip(d.current_track_idx, d.clip_idx),
        ensures
            final(self)@ == old(self)@.clip_drag_ended(d@),
            final(self)@.ok(),
    {
        let ghost before = self@;
        let n: usize = self.tracks.len();
        let src: usize = d.source_track_idx;
        let mut track: usize = d.current_track_idx;
        assert(before.tracks[track as int] == self.tracks@[track as int]@);
        assert(before.tracks[track as int].clips[d.clip_idx as int]
            == self.tracks@[track as int].clips@[d.clip_idx as int]@);
        let dest_offset: Secs = self.tracks[track].clips[d.clip_idx].offset_secs;
        assert(src < n ==> before.tracks[src as int] == self.tracks@[src as int]@);
        let emptied: bool = src < n && self.tracks[src].clips.len() == 0;
        let src_switches: Switches = if src < n {
            self.tracks[src].switches()
        } else {
            self.tracks[track].switches()
        };
        let dest_was_empty: bool = self.tracks[track].clips.len() == 1;
        if emptied {
            proof {
                crate::edit::lemma_without_track_ok(before.tracks, src as int);
            }
            take_track(&mut self.tracks, src);
            if src < track {
                track = track - 1;
            }
        }
        self.selected_track = Some(track);
        self.selected_clip = Some(d.clip_idx);
        if src != track || d.source_clip_idx != d.clip_idx || d.start_offset != dest_offset
            || emptied {
            let action = UndoAction::MoveClip {
                src_track: src,
                src_clip_idx: d.source_clip_idx,
                src_offset: d.start_offset,
                dest_track: track,
                dest_clip_idx: d.clip_idx,
                dest_offset,
                src_track_was_removed: emptied,
                src_switches,
                dest_was_empty,
                prev_sel_track: d.prev_selected_track,
                prev_sel_clip: d.prev_selected_clip,
            };
            proof {
                crate::edits::lemma_recorded_ok(self@, action@);
            }
            self.record(action);
        }
        assert(self@ =~= before.clip_drag_ended(d@));
    }

    /// Puts a group that was dragged in its place: the moves are recorded if there are any.
    fn end_group_drag(&mut self, d: DragState)
        requires
            old(self)@.ok(),
            old(self)@.has_group(d@),
        ensures
            final(self)@ == old(self)@.group_drag_ended(d@),
            final(self)@.ok(),
    {
        let ghost before = self@;
        let t: usize = d.current_track_idx;
        assert(before.tracks[t as int] == self.tracks@[t as int]@);
        let moves: Vec<(usize, Secs, Secs)> = moves_of(&self.tracks[t].clips, &d.group);
        self.selected_track = Some(t);
        self.selected_clip = Some(d.clip_idx);
        if moves.len() > 0 {
            let action = UndoAction::MoveClips {
                track_idx: t,
                moves,
                prev_sel_track: d.prev_selected_track,
                prev_sel_clip: d.prev_selected_clip,
            };
            proof {
                crate::edits::lemma_recorded_ok(self@, action@);
            }
            self.record(action);
        }
        assert(self@ =~= before.group_drag_ended(d@));
    }

    /// Lets go of what is dragged.
    pub fn end_drag(&mut self) -> (r: Effects)
        requires
            old(self)@.ok(),
            old(self)@.dragging matches Some(d) ==> d.active ==> old(self)@.can_drop(d),
        ensures
            final(self)@ == old(self)@.drag_ended(),
            final(self)@.ok(),
            r == (match old(self)@.dragging {
                Some(d) => if d.active {
                    Effects::Refresh
                } else {
                    Effects::Redraw
                },
                None => Effects::Nothing,
            }),
    {
        let ghost before = self@;
        let mut dragging: Option<DragState> = None;
        core::mem::swap(&mut dragging, &mut self.dragging);
        let ghost v = AppView { dragging: None, ..before };
        assert(self@ =~= v);
        match dragging {
            Some(d) => {
                if d.active {
                    if d.group.len() > 0 {
                        self.end_group_drag(d);
                    } else {
                        self.end_clip_drag(d);
                    }
                    Effects::Refresh
                } else {
                    if d.group.len() > 0 {
                        self.multi_selected_clips = Vec::new();
                        self.selected_track = Some(d.current_track_idx);
                        self.selected_clip = Some(d.clip_idx);
                    }
                    assert(self@ =~= before.drag_ended());
                    Effects::Redraw
                }
            },
            None => Effects::Nothing,
        }
    }
}

/// The moves of a group.
fn moves_of(clips: &Vec<Clip>, group: &Vec<(usize, Secs)>) -> (r: Vec<(usize, Secs, Secs)>)
    requires
        forall|k: int| 0 <= k < group@.len() ==> (#[trigger] group@[k]).0 < clips@.len(),
    ensures
        r@ == group_moves(crate::track::clip_views(clips@), group@),
{
    let ghost all = crate::track::clip_views(clips@);
    let mut r: Vec<(usize, Secs, Secs)> = Vec::new();
    let mut k: usize = 0;
    assert(group@.subrange(0, 0) =~= Seq::empty());
    while k < group.len()
        invariant
            k <= group@.len(),
            all == crate::track::clip_views(clips@),
            forall|j: int| 0 <= j < group@.len() ==> (#[trigger] group@[j]).0 < clips@.len(),
            r@ == group_moves(all, group@.subrange(0, k as int)),
        decreases group@.len() - k,
    {
        let ghost upto = group@.subrange(0, k + 1);
        assert(upto.drop_last() =~= group@.subrange(0, k as int));
        let (i, offset): (usize, Secs) = group[k];
        assert(upto.last() == (i, offset));
        assert(all[i as int] == clips@[i as int]@);
        let now: Secs = clips[i].offset_secs;
        if now != offset {
            r.push((i, offset, now));
        }
        k = k + 1;
    }
    assert(group@.subrange(0, k as int) =~= group@);
    r
}

/// No lane is before the first one.
pub proof fn lemma_lane_is_natural(py: int, n: int, height: int)
    requires
        n >= 0,
        height > 0,
    ensures
        crate::geometry::lane_at(py, n, height) >= 0,
{
    if py > 0 {
        assert(py * n >= 0) by (nonlinear_arith)
            requires
                py > 0,
                n >= 0,
        ;
        assert(height * SUBPX > 0) by (nonlinear_arith)
            requires
                height > 0,
                SUBPX == 256,
        ;
        vstd::arithmetic::div_mod::lemma_div_pos_is_pos(py * n, height * SUBPX);
    }
}

/// Every clip that is not skipped is one of the others.
pub proof fn lemma_is_other(clips: Seq<ClipView>, skip: Seq<usize>, j: int)
    requires
        0 <= j < clips.len() <= usize::MAX,
        !skip.contains(j as usize),
    ensures
        crate::placement::others(clips, skip).contains(clips[j]),
    decreases clips.len(),
{
    let n = clips.len() - 1;
    let rest = crate::placement::others(clips.drop_last(), skip);
    let all = crate::placement::others(clips, skip);
    if j == n {
        assert(all[rest.len() as int] == clips[j]);
    } else {
        lemma_is_other(clips.drop_last(), skip, j);
        let k = choose|k: int| 0 <= k < rest.len() && rest[k] == clips.drop_last()[j];
        assert(all[k] == clips[j]);
    }
}

/// A dragged clip is never put where it overlaps another clip of the track, nor before the start
/// of the timeline, unless the track is full to the end of time.
pub proof fn law_dragged_clip_is_clear(v: AppView, target: Secs, j: int)
    requires
        v.ok(),
        v.dragging matches Some(d) && v.has_clip(d.current_track_idx, d.clip_idx) && j != d.clip_idx
            && v.tracks[d.current_track_idx as int].clips.len() <= usize::MAX && 0 <= j
            < v.tracks[d.current_track_idx as int].clips.len(),
    ensures
        ({
            let d = v.dragging->0;
            let clips = v.clip_dropped(target).tracks[d.current_track_idx as int].clips;
            let c = clips[d.clip_idx as int];
            c.offset_secs < i64::MAX ==> c.offset_secs >= 0 && !clips[j].overlaps(
                c.offset_secs as int,
                c.end(),
            )
        }),
{
    let d = v.dragging->0;
    let before = v.tracks[d.current_track_idx as int].clips;
    let i = d.clip_idx as int;
    let rest = crate::placement::others(before, seq![d.clip_idx]);
    let dur = before[i].duration() as Secs;
    assert(before[i].ok());
    crate::time::lemma_time_of_grows(0, before[i].mono.len() as int, before[i].sample_rate as int);
    let snapped = v.snap_offset(rest, target, dur);
    crate::placement::lemma_free_exists(rest, snapped as int, dur as int);
    assert(!seq![d.clip_idx].contains(j as usize));
    lemma_is_other(before, seq![d.clip_idx], j);
    let k = choose|k: int| 0 <= k < rest.len() && rest[k] == before[j];
    let x = crate::placement::nearest_free(rest, snapped as int, dur as int);
    assert(!rest[k].overlaps(x, x + dur));
}

} // verus!
