//! What undo and redo promise: a record and its reverse take each other back, and the history
//! stays one that can be walked through.

use vstd::prelude::*;
use crate::app::AppView;
use crate::audio::ClipView;
use crate::history::ClipMove;
use crate::time::Secs;
use crate::track::TrackView;
use crate::undo::UndoRecord;

verus! {

/// Whether each of the moves finds its clip where it ended, and no clip is moved twice.
pub open spec fn moves_end_at(clips: Seq<ClipView>, moves: Seq<(usize, Secs, Secs)>) -> bool {
    &&& forall|k: int|
        0 <= k < moves.len() && (#[trigger] moves[k]).0 < clips.len()
            ==> clips[moves[k].0 as int].offset_secs == moves[k].2
    &&& forall|j: int, k: int|
        0 <= j < k < moves.len() ==> (#[trigger] moves[j]).0 != (#[trigger] moves[k]).0
}

impl UndoRecord {
    /// Whether the record finds the clips that it moves where the edit left them, so that its
    /// reverse takes it back.
    pub open spec fn faithful(self, tracks: Seq<TrackView>) -> bool {
        match self {
            UndoRecord::MoveClips { track_idx, moves, .. } => moves_end_at(
                tracks[track_idx as int].clips,
                moves,
            ),
            _ => true,
        }
    }

    /// The track that the record selects whatever was selected before, if it does so.
    pub open spec fn picks_track(self) -> Option<usize> {
        match self {
            UndoRecord::CutClip { track_idx, .. } => Some(track_idx),
            UndoRecord::RecutClip { track_idx, .. } => Some(track_idx),
            UndoRecord::CutRegion { track_idx, .. } => Some(track_idx),
            UndoRecord::DeleteRegionMulti { track_idx, .. } => Some(track_idx),
            _ => None,
        }
    }
}

/// Whether a move back and the move in the other direction take each other back.
spec fn move_reversed(m: ClipMove, tracks: Seq<TrackView>) -> bool {
    let u = m.result(tracks);
    let f = m.forward(tracks);
    &&& f.finds_clip(u)
    &&& f.fits(u)
    &&& f.result(u) == tracks
}

/// The move of a clip into a track that is made anew for it is taken back by its reverse.
proof fn lemma_recreated_reversed(m: ClipMove, tracks: Seq<TrackView>)
    requires
        m.finds_clip(tracks),
        m.fits(tracks),
        tracks.len() <= usize::MAX,
        m.src_track_was_removed,
    ensures
        move_reversed(m, tracks),
{
    let u = m.result(tracks);
    let f = m.forward(tracks);
    let d = m.dest_track as int;
    let di = m.dest_clip_idx as int;
    let s = m.src_track as int;
    let clips = tracks[d].clips;
    let lifted = m.lifted(tracks);
    let placed = m.placed(tracks);
    let left = m.left_track();
    let c = m.clip(tracks);
    let made = crate::track::track_with(seq![c], m.src_switches);
    assert(clips.remove(di).insert(di, clips[di]) =~= clips);
    assert(c.at(clips[di].offset_secs) == clips[di]);
    assert(placed[s] == made);
    assert(placed[left] == lifted[d]);
    assert(seq![c].remove(0) =~= Seq::<ClipView>::empty());
    let fd = f.dest_track as int;
    if m.removes_track(tracks) {
        assert(clips.len() == 1);
        assert(clips =~= seq![clips[di]]);
        assert(u[fd] == made);
        let fl = f.lifted(u);
        let fp = f.placed(u);
        assert(f.clip(u) == clips[di]);
        assert(fl =~= crate::edit::with_clips(u, fd, Seq::empty()));
        assert(fp[f.left_track()] == fl[fd]);
        let r = f.result(u);
        assert(r =~= fp.remove(f.left_track()));
        assert(r.len() == tracks.len());
        assert forall|k: int| 0 <= k < tracks.len() implies (#[trigger] r[k]) == tracks[k] by {
            if k == d {
                assert(r[k] == crate::track::track_with(seq![clips[di]], tracks[d].switches()));
            }
        }
        assert(r =~= tracks);
    } else {
        assert(u == placed);
        assert(fd == s);
        let fl = f.lifted(u);
        let fp = f.placed(u);
        assert(f.clip(u) == clips[di]);
        assert(fl[left] == lifted[d]);
        assert(f.slot(u) == di);
        assert(fp[s].clips =~= Seq::<ClipView>::empty());
        let r = f.result(u);
        assert(r =~= fp.remove(s));
        assert(r =~= tracks);
    }
}

/// The move of a clip into a track that is there is taken back by its reverse.
proof fn lemma_returned_reversed(m: ClipMove, tracks: Seq<TrackView>)
    requires
        m.finds_clip(tracks),
        m.fits(tracks),
        tracks.len() <= usize::MAX,
        !m.src_track_was_removed,
    ensures
        move_reversed(m, tracks),
{
    let u = m.result(tracks);
    let f = m.forward(tracks);
    let d = m.dest_track as int;
    let di = m.dest_clip_idx as int;
    let s = m.src_track as int;
    let clips = tracks[d].clips;
    let lifted = m.lifted(tracks);
    let placed = m.placed(tracks);
    let slot = m.slot(tracks);
    let c = m.clip(tracks);
    assert(clips.remove(di).insert(di, clips[di]) =~= clips);
    assert(c.at(clips[di].offset_secs) == clips[di]);
    let home = lifted[s].clips;
    assert(home.insert(slot, c).remove(slot) =~= home);
    assert(placed[s].clips == home.insert(slot, c));
    let fd = f.dest_track as int;
    if m.removes_track(tracks) {
        assert(s != d);
        assert(clips.len() == 1);
        assert(clips =~= seq![clips[di]]);
        assert(u[fd] == placed[s]);
        let fl = f.lifted(u);
        let fp = f.placed(u);
        assert(f.clip(u) == clips[di]);
        assert(fl[fd].clips == home);
        assert(fp[f.left_track()] == fl[fd]);
        let r = f.result(u);
        assert(r == fp);
        assert(r.len() == tracks.len());
        assert forall|k: int| 0 <= k < tracks.len() implies (#[trigger] r[k]) == tracks[k] by {
            if k == d {
                assert(r[k] == crate::track::track_with(seq![clips[di]], tracks[d].switches()));
            }
        }
        assert(r =~= tracks);
    } else {
        assert(u == placed);
        let fl = f.lifted(u);
        let fp = f.placed(u);
        assert(f.clip(u) == clips[di]);
        assert(fl =~= lifted);
        assert(f.slot(u) == di);
        assert(fp =~= tracks);
        assert(fp[f.left_track()] == tracks[s]);
        assert(f.result(u) =~= tracks);
    }
}

/// Moves that end where the clips are, made backwards and then forwards, leave the clips as they
/// were.
proof fn lemma_moves_reversed(clips: Seq<ClipView>, moves: Seq<(usize, Secs, Secs)>)
    requires
        moves_end_at(clips, moves),
    ensures
        moves_end_at(crate::history::moved_back(clips, moves), crate::history::turned(moves)),
        crate::history::moved_back(
            crate::history::moved_back(clips, moves),
            crate::history::turned(moves),
        ) == clips,
{
    let back = crate::history::moved_back(clips, moves);
    let forth = crate::history::turned(moves);
    lemma_moved(clips, moves);
    lemma_moved(back, forth);
    let r = crate::history::moved_back(back, forth);
    assert forall|i: int| 0 <= i < clips.len() implies r[i] == clips[i] by {
        if exists|k: int| 0 <= k < moves.len() && (#[trigger] moves[k]).0 == i {
            let k = choose|k: int| 0 <= k < moves.len() && (#[trigger] moves[k]).0 == i;
            assert(back[moves[k].0 as int] == clips[moves[k].0 as int].at(moves[k].1));
            assert(forth[k] == (moves[k].0, moves[k].2, moves[k].1));
            assert(r[forth[k].0 as int] == back[forth[k].0 as int].at(forth[k].1));
        } else {
            assert forall|k: int| 0 <= k < forth.len() implies (#[trigger] forth[k]).0 != i by {
                assert(moves[k].0 != i);
            }
        }
    }
    assert(r =~= clips);
    assert forall|k: int| 0 <= k < forth.len() && (#[trigger] forth[k]).0 < back.len() implies back[forth[k].0 as int].offset_secs
        == forth[k].2 by {
        assert(back[moves[k].0 as int] == clips[moves[k].0 as int].at(moves[k].1));
    }
    assert forall|j: int, k: int| 0 <= j < k < forth.len() implies (#[trigger] forth[j]).0 != (
    #[trigger] forth[k]).0 by {
        assert(moves[j].0 != moves[k].0);
    }
}

/// What moving distinct clips does to each of them.
pub proof fn lemma_moved(clips: Seq<ClipView>, moves: Seq<(usize, Secs, Secs)>)
    requires
        forall|j: int, k: int|
            0 <= j < k < moves.len() ==> (#[trigger] moves[j]).0 != (#[trigger] moves[k]).0,
    ensures
        crate::history::moved_back(clips, moves).len() == clips.len(),
        forall|k: int|
            0 <= k < moves.len() && (#[trigger] moves[k]).0 < clips.len()
                ==> crate::history::moved_back(clips, moves)[moves[k].0 as int]
                == clips[moves[k].0 as int].at(moves[k].1),
        forall|i: int|
            0 <= i < clips.len() && (forall|k: int|
                0 <= k < moves.len() ==> (#[trigger] moves[k]).0 != i)
                ==> #[trigger] crate::history::moved_back(clips, moves)[i] == clips[i],
    decreases moves.len(),
{
    if moves.len() > 0 {
        let less = moves.drop_last();
        let rest = crate::history::moved_back(clips, less);
        let r = crate::history::moved_back(clips, moves);
        assert forall|j: int, k: int| 0 <= j < k < less.len() implies (#[trigger] less[j]).0 != (
        #[trigger] less[k]).0 by {
            assert(less[j] == moves[j] && less[k] == moves[k]);
        }
        lemma_moved(clips, less);
        let n = moves.len() - 1;
        assert(moves.last() == moves[n]);
        assert forall|k: int| 0 <= k < moves.len() && (#[trigger] moves[k]).0 < clips.len() implies r[moves[k].0 as int]
            == clips[moves[k].0 as int].at(moves[k].1) by {
            if k < n {
                assert(less[k] == moves[k]);
                assert(moves[k].0 != moves[n].0);
            } else {
                let i = moves[n].0 as int;
                assert forall|j: int| 0 <= j < less.len() implies (#[trigger] less[j]).0 != i by {
                    assert(less[j] == moves[j]);
                    assert(moves[j].0 != moves[n].0);
                }
                assert(rest[i] == clips[i]);
            }
        }
        assert forall|i: int|
            0 <= i < clips.len() && (forall|k: int|
                0 <= k < moves.len() ==> (#[trigger] moves[k]).0 != i) implies #[trigger] r[i]
            == clips[i] by {
            assert(moves[n].0 != i);
            assert forall|j: int| 0 <= j < less.len() implies (#[trigger] less[j]).0 != i by {
                assert(less[j] == moves[j]);
            }
            assert(rest[i] == clips[i]);
        }
    }
}

/// Undo is taken back by redo, and redo by undo: after a record is applied, its reverse applies,
/// and brings back the tracks with their clips, mute switches and gains, the clipboard, the
/// selection, the selected clip and the project.
#[verifier::rlimit(30)]
pub proof fn law_reverse_takes_back(v: AppView, a: UndoRecord)
    requires
        v.tracks.len() <= usize::MAX,
        a.applies_to(v.tracks),
        a.faithful(v.tracks),
    ensures
        v.reverse(a).applies_to(v.applied(a).tracks),
        v.reverse(a).faithful(v.applied(a).tracks),
        ({
            let back = v.applied(a).applied(v.reverse(a));
            &&& back.tracks == v.tracks
            &&& back.clipboard == v.clipboard
            &&& back.selection == v.selection
            &&& back.selected_clip == v.selected_clip
            &&& back.selected_track == (match a.picks_track() {
                Some(t) => Some(t),
                None => v.selected_track,
            })
            &&& back.project_path == v.project_path
            &&& back.project_rate == v.project_rate
        }),
{
    reveal(AppView::applied);
    reveal(AppView::reverse);
    let tracks = v.tracks;
    let w = v.applied(a);
    let r = v.reverse(a);
    let back = w.applied(r);
    match a {
        UndoRecord::DeleteClip { track_idx, clip_idx, clip, track_was_removed, switches, .. } => {
            let t = track_idx as int;
            let i = clip_idx as int;
            if track_was_removed {
                let track = crate::track::track_with(seq![clip], switches);
                assert(tracks.insert(t, track).remove(t) =~= tracks);
            } else {
                assert(tracks[t].clips.insert(i, clip).remove(i) =~= tracks[t].clips);
            }
            assert(back.tracks =~= tracks);
        },
        UndoRecord::SplitClip { track_idx, clip_idx, original_clip, .. } => {
            let t = track_idx as int;
            let i = clip_idx as int;
            let clips = tracks[t].clips;
            assert(clips.remove(i).update(i, original_clip).update(i, clips[i]).insert(
                i + 1,
                clips[i + 1],
            ) =~= clips);
            assert(back.tracks =~= tracks);
        },
        UndoRecord::JoinClip { track_idx, clip_idx, left, right, .. } => {
            let t = track_idx as int;
            let i = clip_idx as int;
            let clips = tracks[t].clips;
            assert(clips.update(i, left).insert(i + 1, right).remove(i).update(i, clips[i]) =~= clips);
            assert(back.tracks =~= tracks);
        },
        UndoRecord::CutClip { track_idx, clip_idx, clip, .. } => {
            let t = track_idx as int;
            let i = clip_idx as int;
            assert(tracks[t].clips.insert(i, clip).remove(i) =~= tracks[t].clips);
            assert(back.tracks =~= tracks);
        },
        UndoRecord::RecutClip { track_idx, clip_idx, .. } => {
            let t = track_idx as int;
            let i = clip_idx as int;
            let clips = tracks[t].clips;
            assert(clips.remove(i).insert(i, clips[i]) =~= clips);
            assert(back.tracks =~= tracks);
        },
        UndoRecord::CreateTrack { track_idx, .. } => {
            assert(back.tracks =~= tracks);
        },
        UndoRecord::RestoreTrack { track_idx, track, .. } => {
            assert(back.tracks =~= tracks);
        },
        UndoRecord::MoveClip { src_track_was_removed, .. } => {
            let m = a.clip_move();
            if m.finds_clip(tracks) {
                if src_track_was_removed {
                    lemma_recreated_reversed(m, tracks);
                } else {
                    lemma_returned_reversed(m, tracks);
                }
                assert(r.clip_move() == m.forward(tracks));
            } else {
                assert(r.clip_move() == m);
            }
        },
        UndoRecord::ImportClip { track_idx, clip_idx, created_new_track, .. } => {
            let t = track_idx as int;
            let i = clip_idx as int;
            let clips = tracks[t].clips;
            assert(clips.remove(i).insert(i, clips[i]) =~= clips);
            if created_new_track && clips.len() == 1 {
                assert(clips =~= seq![clips[i]]);
            }
            assert(back.tracks =~= tracks);
        },
        UndoRecord::GenerateClickTrack { track_idx, .. } => {
            assert(back.tracks =~= tracks);
        },
        UndoRecord::LoadProject { .. } => {},
        UndoRecord::ToggleMute { track_idx } => {
            assert(back.tracks =~= tracks);
        },
        UndoRecord::AdjustTrackGain { .. } => {
            assert(back.tracks =~= tracks);
        },
        UndoRecord::AdjustGain { track_idx, clip_idx, .. } => {
            let t = track_idx as int;
            let i = clip_idx as int;
            let clips = tracks[t].clips;
            assert(back.tracks[t].clips[i] == clips[i]);
            assert(back.tracks[t].clips =~= clips);
            assert(back.tracks =~= tracks);
        },
        UndoRecord::PasteClips { track_idx, prev_clips, .. } => {
            assert(back.tracks =~= tracks);
        },
        UndoRecord::CutRegion { track_idx, prev_clips, .. } => {
            assert(back.tracks =~= tracks);
        },
        UndoRecord::DeleteRegionMulti { track_idx, prev_clips, .. } => {
            assert(back.tracks =~= tracks);
        },
        UndoRecord::MoveClips { track_idx, moves, .. } => {
            lemma_moves_reversed(tracks[track_idx as int].clips, moves);
            assert(back.tracks =~= tracks);
        },
    }
}

/// Whether the records can be applied one after the other, the last one first, each finding the
/// tracks as it expects them.
pub open spec fn walkable(tracks: Seq<TrackView>, stack: Seq<UndoRecord>) -> bool
    decreases stack.len(),
{
    stack.len() > 0 ==> {
        &&& stack.last().applies_to(tracks)
        &&& stack.last().faithful(tracks)
        &&& walkable(stack.last().applied_to(tracks), stack.drop_last())
    }
}

/// A stack stays walkable when its lowest record goes.
pub proof fn lemma_walk_shorter(tracks: Seq<TrackView>, stack: Seq<UndoRecord>)
    requires
        stack.len() > 0,
        walkable(tracks, stack),
    ensures
        walkable(tracks, stack.remove(0)),
    decreases stack.len(),
{
    let less = stack.remove(0);
    if stack.len() > 1 {
        let a = stack.last();
        assert(less.last() == a);
        lemma_walk_shorter(a.applied_to(tracks), stack.drop_last());
        assert(less.drop_last() =~= stack.drop_last().remove(0));
    }
}

impl AppView {
    /// Whether undo can go back to the beginning of the history, and redo to its end.
    pub open spec fn history_walkable(self) -> bool {
        &&& walkable(self.tracks, self.undo_manager.undo)
        &&& walkable(self.tracks, self.undo_manager.redo)
    }
}

/// A walkable stack with one more record on it is walkable.
pub proof fn lemma_walk_pushed(
    tracks: Seq<TrackView>,
    stack: Seq<UndoRecord>,
    a: UndoRecord,
    before: Seq<TrackView>,
    max_entries: usize,
)
    requires
        walkable(before, stack),
        a.applies_to(tracks),
        a.faithful(tracks),
        a.applied_to(tracks) == before,
    ensures
        walkable(tracks, stack.push(a)),
        walkable(tracks, crate::undo::pushed(stack, a, max_entries)),
{
    assert(stack.push(a).drop_last() =~= stack);
    lemma_walk_shorter(tracks, stack.push(a));
}

/// Undo and redo leave a history that can be walked through: however often they are called, and
/// in whatever order, each finds the project as it expects it.
pub proof fn law_history_stays_walkable(v: AppView)
    requires
        v.history_walkable(),
        v.tracks.len() <= usize::MAX,
    ensures
        v.can_undo(),
        v.can_redo(),
        v.undone().history_walkable(),
        v.redone().history_walkable(),
{
    let h = v.undo_manager;
    if h.undo.len() > 0 {
        let a = h.undo.last();
        law_reverse_takes_back(v, a);
        crate::history::lemma_applied_apart_from_history(v, a, h.pop_undo());
        crate::history::lemma_applied_apart_from_history(v.applied(a), v.reverse(a), h);
        lemma_walk_pushed(v.applied(a).tracks, h.redo, v.reverse(a), v.tracks, 0);
    }
    if h.redo.len() > 0 {
        let a = h.redo.last();
        law_reverse_takes_back(v, a);
        crate::history::lemma_applied_apart_from_history(v, a, h.pop_redo());
        crate::history::lemma_applied_apart_from_history(v.applied(a), v.reverse(a), h);
        lemma_walk_pushed(v.applied(a).tracks, h.undo, v.reverse(a), v.tracks, h.max_entries);
    }
}

/// Redo after undo brings back the tracks as they were, with their clips, mute switches and gains,
/// and the clipboard, the selection, the selected clip and the project; the edit can be undone
/// once more.
pub proof fn law_redo_after_undo(v: AppView)
    requires
        v.history_walkable(),
        v.tracks.len() <= usize::MAX,
        v.undo_manager.undo.len() > 0,
    ensures
        ({
            let back = v.undone().redone();
            &&& back.tracks == v.tracks
            &&& back.clipboard == v.clipboard
            &&& back.selection == v.selection
            &&& back.selected_clip == v.selected_clip
            &&& back.selected_track == (match v.undo_manager.undo.last().picks_track() {
                Some(t) => Some(t),
                None => v.selected_track,
            })
            &&& back.project_path == v.project_path
            &&& back.project_rate == v.project_rate
            &&& back.undo_manager.redo == v.undo_manager.redo
            &&& v.undo_manager.undo.len() <= v.undo_manager.max_entries
                ==> back.undo_manager.undo.len() == v.undo_manager.undo.len()
        }),
{
    let h = v.undo_manager;
    let a = h.undo.last();
    law_reverse_takes_back(v, a);
    let w = v.undone();
    let r = v.reverse(a);
    assert(w.undo_manager.redo.last() == r);
    assert(w.undo_manager.redo.drop_last() =~= h.redo);
    crate::history::lemma_applied_apart_from_history(v, a, h.pop_undo());
    let x = v.applied(a);
    assert(w == (AppView { undo_manager: w.undo_manager, ..x }));
    crate::history::lemma_applied_apart_from_history(x, r, w.undo_manager.pop_redo());
    assert((AppView { undo_manager: w.undo_manager.pop_redo(), ..w }) == (AppView {
        undo_manager: w.undo_manager.pop_redo(),
        ..x
    }));
}

/// Undo after redo brings back the tracks as they were, with their clips, mute switches and gains,
/// and the clipboard, the selection, the selected clip and the project; the edit can be redone
/// once more.
pub proof fn law_undo_after_redo(v: AppView)
    requires
        v.history_walkable(),
        v.tracks.len() <= usize::MAX,
        v.undo_manager.redo.len() > 0,
        v.undo_manager.max_entries > 0,
    ensures
        ({
            let back = v.redone().undone();
            &&& back.tracks == v.tracks
            &&& back.undo_manager.redo.len() == v.undo_manager.redo.len()
            &&& back.clipboard == v.clipboard
            &&& back.selection == v.selection
            &&& back.selected_clip == v.selected_clip
            &&& back.project_path == v.project_path
            &&& back.project_rate == v.project_rate
        }),
{
    let h = v.undo_manager;
    let a = h.redo.last();
    law_reverse_takes_back(v, a);
    let w = v.redone();
    let r = v.reverse(a);
    assert(w.undo_manager.undo.last() == r);
    crate::history::lemma_applied_apart_from_history(v, a, h.pop_redo());
    let x = v.applied(a);
    assert(w == (AppView { undo_manager: w.undo_manager, ..x }));
    crate::history::lemma_applied_apart_from_history(x, r, w.undo_manager.pop_undo());
    assert((AppView { undo_manager: w.undo_manager.pop_undo(), ..w }) == (AppView {
        undo_manager: w.undo_manager.pop_undo(),
        ..x
    }));
}

} // verus!
