//! What undo gives back of each edit.

use vstd::prelude::*;
use crate::app::AppView;
use crate::audio::ClipView;
use crate::history::ClipMove;
use crate::sample::Sample;
use crate::time::Secs;
use crate::track::TrackView;
use crate::undo::UndoRecord;

verus! {

/// Whether undo in `w` is possible and gives back what `v` holds: the tracks with their clips, mute
/// switches and gains, the clipboard, what is selected, and the project. What is undone can be
/// redone.
pub open spec fn gives_back(w: AppView, v: AppView) -> bool {
    let u = w.undone();
    &&& w.can_undo()
    &&& u.tracks == v.tracks
    &&& u.clipboard == v.clipboard
    &&& u.selection == v.selection
    &&& u.selected_track == v.selected_track
    &&& u.selected_clip == v.selected_clip
    &&& u.project_path == v.project_path
    &&& u.project_rate == v.project_rate
    &&& u.undo_manager.undo == w.undo_manager.undo.drop_last()
    &&& u.undo_manager.redo.len() == w.undo_manager.redo.len() + 1
}

/// An edit that is recorded keeps the history walkable.
pub proof fn lemma_edit_walkable(v: AppView, w: AppView, a: UndoRecord)
    requires
        v.history_walkable(),
        w.undo_manager.undo == v.undo_manager.push(a).undo,
        w.undo_manager.redo == v.undo_manager.push(a).redo,
        a.applies_to(w.tracks),
        a.faithful(w.tracks),
        a.applied_to(w.tracks) == v.tracks,
    ensures
        w.history_walkable(),
{
    crate::replay::lemma_walk_pushed(
        w.tracks,
        v.undo_manager.undo,
        a,
        v.tracks,
        v.undo_manager.max_entries,
    );
}

/// Undo takes a cut back, and the history stays walkable.
pub proof fn law_undo_takes_back_cut(v: AppView)
    requires
        v.history_walkable(),
        v.undo_manager.max_entries > 0,
        v.can_cut(),
    ensures
        v.cut().history_walkable(),
        gives_back(v.cut(), v),
{
    let w = v.cut();
    let a = w.undo_manager.undo.last();
    reveal(AppView::applied);
    match v.selected_region() {
        Some((t, s0, s1)) => {
            assert(crate::region::clips_of(v, t).len() > 0) by {
                if crate::region::clips_of(v, t).len() == 0 {
                    assert(crate::region::overlapping(
                        crate::region::clips_of(v, t),
                        s0 as int,
                        s1 as int,
                    ).len() == 0);
                }
            }
            assert(a.applied_to(w.tracks) =~= v.tracks);
        },
        None => {
            let (t, c) = v.selected()->0;
            let clips = v.tracks[t as int].clips;
            assert(clips.remove(c as int).insert(c as int, clips[c as int]) =~= clips);
            assert(a.applied_to(w.tracks) =~= v.tracks);
        },
    }
    lemma_edit_walkable(v, w, a);
}

/// Undo takes a paste back, and the history stays walkable.
pub proof fn law_undo_takes_back_paste(v: AppView, playhead: Secs)
    requires
        v.history_walkable(),
        v.undo_manager.max_entries > 0,
        v.paste_track(playhead) is Some,
    ensures
        v.pasted(playhead).history_walkable(),
        gives_back(v.pasted(playhead), v),
{
    let w = v.pasted(playhead);
    let a = w.undo_manager.undo.last();
    reveal(AppView::applied);
    assert(a.applied_to(w.tracks) =~= v.tracks);
    lemma_edit_walkable(v, w, a);
}

/// Undo takes a new track back, and the history stays walkable.
pub proof fn law_undo_takes_back_new_track(v: AppView)
    requires
        v.history_walkable(),
        v.undo_manager.max_entries > 0,
        v.tracks.len() < usize::MAX,
        v.selected_track matches Some(t) ==> t < v.tracks.len(),
    ensures
        v.track_created().history_walkable(),
        gives_back(v.track_created(), v),
{
    let w = v.track_created();
    let a = w.undo_manager.undo.last();
    reveal(AppView::applied);
    assert(a.applied_to(w.tracks) =~= v.tracks);
    lemma_edit_walkable(v, w, a);
}

/// Undo takes a split back, and the history stays walkable.
pub proof fn law_undo_takes_back_split(v: AppView, playhead: Secs)
    requires
        v.history_walkable(),
        v.undo_manager.max_entries > 0,
        v.split_clip(playhead) matches Some((t, c)) && v.has_clip(t, c),
    ensures
        v.split(playhead).history_walkable(),
        gives_back(v.split(playhead), v),
{
    let w = v.split(playhead);
    let a = w.undo_manager.undo.last();
    reveal(AppView::applied);
    let (t, c) = v.split_clip(playhead)->0;
    let clips = v.tracks[t as int].clips;
    let i = c as int;
    let at = crate::time::sat_secs(playhead - clips[i].offset_secs);
    assert(clips.update(i, clips[i].split_left(at)).insert(i + 1, clips[i].split_right(at)).remove(
        i,
    ).update(i, clips[i]) =~= clips);
    assert(a.applied_to(w.tracks) =~= v.tracks);
    lemma_edit_walkable(v, w, a);
}

/// Undo takes a deletion back, and the history stays walkable. A track that goes with its last
/// clip comes back as it was.
pub proof fn law_undo_takes_back_delete(v: AppView)
    requires
        v.history_walkable(),
        v.undo_manager.max_entries > 0,
        v.can_cut(),
    ensures
        v.deleted().history_walkable(),
        gives_back(v.deleted(), v),
{
    let w = v.deleted();
    let a = w.undo_manager.undo.last();
    reveal(AppView::applied);
    match v.selected_region() {
        Some((t, s0, s1)) => {
            assert(crate::region::clips_of(v, t).len() > 0) by {
                if crate::region::clips_of(v, t).len() == 0 {
                    assert(crate::region::overlapping(
                        crate::region::clips_of(v, t),
                        s0 as int,
                        s1 as int,
                    ).len() == 0);
                }
            }
            assert(a.applied_to(w.tracks) =~= v.tracks);
        },
        None => {
            let (t, c) = v.selected()->0;
            let clips = v.tracks[t as int].clips;
            assert(clips.remove(c as int).insert(c as int, clips[c as int]) =~= clips);
            if clips.len() == 1 {
                assert(clips =~= seq![clips[c as int]]);
            }
            assert(a.applied_to(w.tracks) =~= v.tracks);
        },
    }
    lemma_edit_walkable(v, w, a);
}

/// Undo takes the switch of a mute back, and the history stays walkable.
pub proof fn law_undo_takes_back_mute(v: AppView)
    requires
        v.history_walkable(),
        v.undo_manager.max_entries > 0,
        v.has_selected_track(),
    ensures
        v.mute_toggled().history_walkable(),
        gives_back(v.mute_toggled(), v),
{
    let w = v.mute_toggled();
    let a = w.undo_manager.undo.last();
    reveal(AppView::applied);
    assert(a.applied_to(w.tracks) =~= v.tracks);
    lemma_edit_walkable(v, w, a);
}

/// Undo takes a change of a track's gain back, and the history stays walkable.
pub proof fn law_undo_takes_back_track_gain(
    v: AppView,
    up: bool,
    step: spec_fn(Sample, bool) -> Sample,
)
    requires
        v.history_walkable(),
        v.undo_manager.max_entries > 0,
        v.has_selected_track(),
    ensures
        v.track_gain_adjusted(up, step).history_walkable(),
        gives_back(v.track_gain_adjusted(up, step), v),
{
    let w = v.track_gain_adjusted(up, step);
    let a = w.undo_manager.undo.last();
    reveal(AppView::applied);
    assert(a.applied_to(w.tracks) =~= v.tracks);
    lemma_edit_walkable(v, w, a);
}

/// Undo takes a change of a clip's gain back, and the history stays walkable.
pub proof fn law_undo_takes_back_gain(v: AppView, up: bool, step: spec_fn(Sample, bool) -> Sample)
    requires
        v.history_walkable(),
        v.undo_manager.max_entries > 0,
        v.has_selected_clip(),
    ensures
        v.gain_adjusted(up, step).history_walkable(),
        gives_back(v.gain_adjusted(up, step), v),
{
    let w = v.gain_adjusted(up, step);
    let a = w.undo_manager.undo.last();
    reveal(AppView::applied);
    let t = v.selected_track->0 as int;
    assert(a.applied_to(w.tracks)[t].clips =~= v.tracks[t].clips);
    assert(a.applied_to(w.tracks) =~= v.tracks);
    lemma_edit_walkable(v, w, a);
}

/// Undo takes an import back, and the history stays walkable.
pub proof fn law_undo_takes_back_import(v: AppView, clip: ClipView)
    requires
        v.history_walkable(),
        v.undo_manager.max_entries > 0,
        crate::project::indexable(v.tracks),
        v.tracks.len() < usize::MAX,
        v.loading matches Some(p) && (p.target_track matches Some(t) ==> t < v.tracks.len()),
    ensures
        v.load_ended(Some(clip)).history_walkable(),
        gives_back(v.load_ended(Some(clip)), v),
{
    let w = v.load_ended(Some(clip));
    let a = w.undo_manager.undo.last();
    reveal(AppView::applied);
    let pending = v.loading->0;
    match pending.target_track {
        Some(t) => {
            let clips = v.tracks[t as int].clips;
            let c = clip.at(pending.clip_offset_secs);
            assert(clips.insert(clips.len() as int, c).remove(clips.len() as int) =~= clips);
        },
        None => {},
    }
    assert(a.applied_to(w.tracks) =~= v.tracks);
    lemma_edit_walkable(v, w, a);
}

/// Undo takes a click track back, and the history stays walkable.
pub proof fn law_undo_takes_back_click_track(v: AppView, clip: ClipView)
    requires
        v.history_walkable(),
        v.undo_manager.max_entries > 0,
        v.tracks.len() < usize::MAX,
    ensures
        v.click_track_added(clip).history_walkable(),
        gives_back(v.click_track_added(clip), v),
{
    let w = v.click_track_added(clip);
    let a = w.undo_manager.undo.last();
    reveal(AppView::applied);
    assert(a.applied_to(w.tracks) =~= v.tracks);
    lemma_edit_walkable(v, w, a);
}

/// Undo goes back to the project that was open before another was opened, and the history stays
/// walkable.
pub proof fn law_undo_takes_back_open(v: AppView, tracks: Seq<TrackView>, rate: u32, path: Seq<char>)
    requires
        v.history_walkable(),
        v.undo_manager.max_entries > 0,
    ensures
        v.project_opened(tracks, rate, path).history_walkable(),
        gives_back(v.project_opened(tracks, rate, path), v),
{
    let w = v.project_opened(tracks, rate, path);
    let a = w.undo_manager.undo.last();
    reveal(AppView::applied);
    assert(a.applied_to(w.tracks) == v.tracks);
    lemma_edit_walkable(v, w, a);
}

/// The tracks with clip `si` of track `s` taken out and put into track `d` at `di`, at `offset`.
pub open spec fn carried(
    base: Seq<TrackView>,
    s: int,
    si: int,
    d: int,
    di: int,
    offset: Secs,
) -> Seq<TrackView> {
    crate::edit::with_clip(
        crate::edit::without_clip(base, s, si),
        d,
        di,
        base[s].clips[si].at(offset),
    )
}

/// Whether the clips differ at most in the offsets of the group, which is where it was in `base`.
pub open spec fn shifted(base: Seq<ClipView>, clips: Seq<ClipView>, group: Seq<(usize, Secs)>) -> bool {
    &&& clips.len() == base.len()
    &&& forall|k: int|
        0 <= k < group.len() ==> (#[trigger] group[k]).0 < base.len()
            && base[group[k].0 as int].offset_secs == group[k].1
    &&& forall|j: int, k: int|
        0 <= j < k < group.len() ==> (#[trigger] group[j]).0 != (#[trigger] group[k]).0
    &&& forall|i: int|
        0 <= i < base.len() ==> (#[trigger] clips[i]) == base[i].at(clips[i].offset_secs)
    &&& forall|i: int|
        0 <= i < base.len() && (forall|k: int| 0 <= k < group.len() ==> (#[trigger] group[k]).0 != i)
            ==> (#[trigger] clips[i]) == base[i]
}

/// Whether a drag has brought the tracks from `base` to where they are in `v`.
pub open spec fn dragged_from(base: Seq<TrackView>, v: AppView) -> bool {
    v.dragging matches Some(d) && {
        let s = d.source_track_idx as int;
        let t = d.current_track_idx as int;
        &&& 0 <= s < base.len()
        &&& 0 <= t < base.len()
        &&& if d.group.len() > 0 {
            &&& s == t
            &&& shifted(base[t].clips, v.tracks[t].clips, d.group)
            &&& v.tracks == crate::edit::with_clips(base, t, v.tracks[t].clips)
        } else {
            let si = d.source_clip_idx as int;
            let i = d.clip_idx as int;
            &&& 0 <= si < base[s].clips.len()
            &&& d.start_offset == base[s].clips[si].offset_secs
            &&& 0 <= i <= crate::edit::without_clip(base, s, si)[t].clips.len()
            &&& v.tracks == carried(base, s, si, t, i, v.tracks[t].clips[i].offset_secs)
        }
    }
}

/// A carried clip, taken out again, leaves the tracks without it.
proof fn lemma_carried(base: Seq<TrackView>, s: int, si: int, d: int, di: int, offset: Secs)
    requires
        0 <= s < base.len(),
        0 <= d < base.len(),
        0 <= si < base[s].clips.len(),
        0 <= di <= crate::edit::without_clip(base, s, si)[d].clips.len(),
    ensures
        ({
            let tracks = carried(base, s, si, d, di, offset);
            &&& tracks.len() == base.len()
            &&& di < tracks[d].clips.len()
            &&& tracks[d].clips[di] == base[s].clips[si].at(offset)
            &&& crate::edit::without_clip(tracks, d, di) == crate::edit::without_clip(base, s, si)
        }),
{
    let lifted = crate::edit::without_clip(base, s, si);
    let c = base[s].clips[si].at(offset);
    let tracks = carried(base, s, si, d, di, offset);
    assert(lifted[d].clips.insert(di, c).remove(di) =~= lifted[d].clips);
    assert(crate::edit::without_clip(tracks, d, di) =~= lifted);
}

/// Taking hold of a clip, or of several, begins a drag from where they are.
pub proof fn law_press_begins_drag(v: AppView, t: usize, c: usize)
    requires
        v.ok(),
        v.has_clip(t, c),
        !v.click_gathers(),
        v.grabs_group(c) ==> v.multi_selection_in(t),
    ensures
        dragged_from(v.tracks, v.title_pressed(t, c)),
{
    let w = v.title_pressed(t, c);
    let d = w.dragging->0;
    let clips = v.tracks[t as int].clips;
    if v.grabs_group(c) {
        let list = v.multi_selected_clips;
        assert forall|k: int| 0 <= k < d.group.len() implies (#[trigger] d.group[k]).0 < clips.len()
            && clips[d.group[k].0 as int].offset_secs == d.group[k].1 by {
            assert(d.group[k] == (list[k], clips[list[k] as int].offset_secs));
        }
        assert forall|j: int, k: int| 0 <= j < k < d.group.len() implies (#[trigger] d.group[j]).0 != (
        #[trigger] d.group[k]).0 by {
            assert(d.group[j].0 == list[j] && d.group[k].0 == list[k]);
        }
        assert forall|i: int| 0 <= i < clips.len() implies (#[trigger] clips[i]) == clips[i].at(
            clips[i].offset_secs,
        ) by {}
        assert(v.tracks =~= crate::edit::with_clips(v.tracks, t as int, clips));
    } else {
        let i = c as int;
        assert(clips[i].at(clips[i].offset_secs) == clips[i]);
        assert(clips.remove(i).insert(i, clips[i]) =~= clips);
        assert(v.tracks =~= carried(v.tracks, t as int, i, t as int, i, clips[i].offset_secs));
    }
}

/// Group moves shift the clips of the group only.
proof fn lemma_group_moved(clips: Seq<ClipView>, group: Seq<(usize, Secs)>, delta: int)
    requires
        forall|k: int| 0 <= k < group.len() ==> (#[trigger] group[k]).0 < clips.len(),
    ensures
        ({
            let r = crate::drag::group_moved(clips, group, delta);
            &&& r.len() == clips.len()
            &&& forall|i: int|
                0 <= i < clips.len() ==> (#[trigger] r[i]) == clips[i].at(r[i].offset_secs)
            &&& forall|i: int|
                0 <= i < clips.len() && (forall|k: int|
                    0 <= k < group.len() ==> (#[trigger] group[k]).0 != i) ==> (#[trigger] r[i])
                    == clips[i]
        }),
    decreases group.len(),
{
    if group.len() > 0 {
        let g = group.drop_last();
        let n = group.len() - 1;
        assert forall|k: int| 0 <= k < g.len() implies (#[trigger] g[k]).0 < clips.len() by {
            assert(g[k] == group[k]);
        }
        lemma_group_moved(clips, g, delta);
        let rest = crate::drag::group_moved(clips, g, delta);
        let r = crate::drag::group_moved(clips, group, delta);
        assert(group.last() == group[n]);
        assert forall|i: int| 0 <= i < clips.len() implies (#[trigger] r[i]) == clips[i].at(
            r[i].offset_secs,
        ) by {
            assert(rest[i] == clips[i].at(rest[i].offset_secs));
        }
        assert forall|i: int|
            0 <= i < clips.len() && (forall|k: int|
                0 <= k < group.len() ==> (#[trigger] group[k]).0 != i) implies (#[trigger] r[i])
            == clips[i] by {
            assert(group[n].0 != i);
            assert forall|k: int| 0 <= k < g.len() implies (#[trigger] g[k]).0 != i by {
                assert(g[k] == group[k]);
            }
            assert(rest[i] == clips[i]);
        }
    }
}

/// A drag stays one from where it began as the pointer moves.
pub proof fn law_drag_keeps_its_start(base: Seq<TrackView>, v: AppView, px: crate::app::Px, py: crate::app::Px)
    requires
        dragged_from(base, v),
        base.len() <= usize::MAX,
        v.config matches Some(s) && s.height > 0,
        forall|t: int| 0 <= t < base.len() ==> (#[trigger] base[t]).clips.len() < usize::MAX,
    ensures
        dragged_from(base, v.cursor_moved(px, py)),
{
    let p = v.pointed(px, py);
    let d = p.dragging->0;
    assert(dragged_from(base, p));
    if p.is_dragging() {
        let t = d.current_track_idx as int;
        let s = d.source_track_idx as int;
        if d.group.len() > 0 {
            let w = p.group_dragged(px as int);
            let clips = p.tracks[t].clips;
            let rest = crate::placement::others(clips, crate::drag::group_indices(d.group));
            let snapped = p.snap_offset_group(
                rest,
                p.drag_target(d, px as int),
                crate::drag::group_right(clips, d.group) - d.start_offset,
            );
            let left = crate::time::sat_secs(
                crate::group::group_left(
                    rest,
                    crate::group::members(
                        clips,
                        crate::drag::group_indices(d.group),
                        crate::drag::group_offsets(d.group),
                    ),
                    snapped as int,
                    d.start_offset as int,
                ),
            );
            let delta = left - d.start_offset;
            lemma_group_moved(clips, d.group, delta);
            let r = crate::drag::group_moved(clips, d.group, delta);
            assert(w.tracks[t].clips == r);
            assert forall|i: int| 0 <= i < base[t].clips.len() implies (#[trigger] r[i])
                == base[t].clips[i].at(r[i].offset_secs) by {
                assert(clips[i] == base[t].clips[i].at(clips[i].offset_secs));
            }
            assert forall|i: int|
                0 <= i < base[t].clips.len() && (forall|k: int|
                    0 <= k < d.group.len() ==> (#[trigger] d.group[k]).0 != i) implies (
            #[trigger] r[i]) == base[t].clips[i] by {
                assert(clips[i] == base[t].clips[i]);
            }
            assert(w.tracks =~= crate::edit::with_clips(base, t, r));
        } else {
            let si = d.source_clip_idx as int;
            let i = d.clip_idx as int;
            lemma_carried(base, s, si, t, i, p.tracks[t].clips[i].offset_secs);
            let l = p.clip_lifted(py as int);
            let lifted = crate::edit::without_clip(base, s, si);
            let height = p.config->0.height as int;
            crate::drag::lemma_lane_is_natural(py as int, base.len() as int, height);
            let target = crate::time::smaller(
                crate::geometry::lane_at(py as int, base.len() as int, height),
                base.len() - 1,
            );
            if target != t {
                let slot = lifted[target].clips.len() as int;
                assert(l.tracks =~= carried(base, s, si, target, slot, p.tracks[t].clips[i].offset_secs));
                lemma_carried(base, s, si, target, slot, p.tracks[t].clips[i].offset_secs);
            }
            assert(dragged_from(base, l));
            let e = l.dragging->0;
            let to = p.drag_target(d, px as int);
            let w = l.clip_dropped(to);
            let u = e.current_track_idx as int;
            let j = e.clip_idx as int;
            assert(l.tracks[u].clips.len() <= usize::MAX);
            assert(l.has_clip(e.current_track_idx, e.clip_idx));
            let o = w.tracks[u].clips[j].offset_secs;
            lemma_carried(base, s, si, u, j, l.tracks[u].clips[j].offset_secs);
            assert(lifted[u].clips.insert(j, base[s].clips[si].at(l.tracks[u].clips[j].offset_secs)).update(
                j,
                base[s].clips[si].at(o),
            ) =~= lifted[u].clips.insert(j, base[s].clips[si].at(o)));
            assert(w.tracks =~= carried(base, s, si, u, j, o));
        }
    }
}

/// A carried clip that is moved back leaves the tracks as they were.
proof fn lemma_clip_returns(
    base: Seq<TrackView>,
    s: int,
    si: int,
    t: int,
    i: int,
    offset: Secs,
    m: ClipMove,
)
    requires
        0 <= s < base.len(),
        0 <= t < base.len(),
        0 <= si < base[s].clips.len(),
        0 <= i <= crate::edit::without_clip(base, s, si)[t].clips.len(),
        m.src_offset == base[s].clips[si].offset_secs,
        !m.src_track_was_removed,
        m.dest_was_empty || base[t].clips.len() > 0,
        m.src_track == s && m.src_clip_idx == si && m.dest_track == t && m.dest_clip_idx == i,
    ensures
        m.finds_clip(carried(base, s, si, t, i, offset)),
        m.fits(carried(base, s, si, t, i, offset)),
        m.result(carried(base, s, si, t, i, offset)) == base,
{
    let c = base[s].clips[si];
    let tracks = carried(base, s, si, t, i, offset);
    let lifted = crate::edit::without_clip(base, s, si);
    lemma_carried(base, s, si, t, i, offset);
    assert(base[s].clips.remove(si).insert(si, c) =~= base[s].clips);
    assert(c.at(offset).at(c.offset_secs) == c);
    assert(m.clip(tracks) == c);
    assert(m.lifted(tracks) == lifted);
    assert(m.slot(tracks) == si);
    assert(m.placed(tracks) =~= base);
}

/// A clip that was carried out of a track of its own, and is moved back, brings that track back.
proof fn lemma_emptied_track_returns(
    base: Seq<TrackView>,
    s: int,
    si: int,
    t: int,
    i: int,
    offset: Secs,
    m: ClipMove,
)
    requires
        0 <= s < base.len() <= usize::MAX,
        0 <= t < base.len(),
        s != t,
        si == 0,
        base[s].clips.len() == 1,
        0 <= i <= base[t].clips.len(),
        m.src_track == s,
        m.src_offset == base[s].clips[0].offset_secs,
        m.dest_track == (if s < t {
            t - 1
        } else {
            t
        }),
        m.dest_clip_idx == i,
        m.src_track_was_removed,
        m.src_switches == base[s].switches(),
        m.dest_was_empty || base[t].clips.len() > 0,
    ensures
        m.finds_clip(carried(base, s, si, t, i, offset).remove(s)),
        m.fits(carried(base, s, si, t, i, offset).remove(s)),
        m.result(carried(base, s, si, t, i, offset).remove(s)) == base,
{
    let c = base[s].clips[0];
    let tracks = carried(base, s, si, t, i, offset);
    let lifted = crate::edit::without_clip(base, s, si);
    let gone = tracks.remove(s);
    lemma_carried(base, s, si, t, i, offset);
    assert(base[s].clips =~= seq![c]);
    assert(c.at(offset).at(c.offset_secs) == c);
    assert(gone[m.dest_track as int] == tracks[t]);
    assert(m.clip(gone) == c);
    assert(lifted[t].clips.insert(i, c.at(offset)).remove(i) =~= lifted[t].clips);
    assert(m.lifted(gone) =~= lifted.remove(s));
    let placed = m.placed(gone);
    assert(placed[m.left_track()] == lifted[t]);
    assert(m.result(gone) == placed);
    assert(crate::track::track_with(seq![c], base[s].switches()) == base[s]);
    assert forall|k: int| 0 <= k < base.len() implies (#[trigger] placed[k]) == base[k] by {
        if k != s {
            assert(placed[k] == lifted[k]);
        }
    }
    assert(placed =~= base);
}

/// The editor as it was when the drag began.
pub open spec fn before_drag(base: Seq<TrackView>, v: AppView) -> AppView {
    let d = v.dragging->0;
    AppView {
        tracks: base,
        selected_track: d.prev_selected_track,
        selected_clip: d.prev_selected_clip,
        ..v
    }
}

/// The drag of a single clip that is let go: undo gives back what was there when the drag began,
/// and the history stays walkable. A drag that ends where it began is not recorded.
pub proof fn law_undo_takes_back_clip_drag(base: Seq<TrackView>, v: AppView)
    requires
        dragged_from(base, v),
        v.dragging matches Some(d) && d.active && d.group.len() == 0,
        base.len() <= usize::MAX,
        before_drag(base, v).history_walkable(),
        v.undo_manager.max_entries > 0,
    ensures
        v.drag_ended().history_walkable(),
        if (AppView { dragging: None, ..v }).clip_was_moved(v.dragging->0) {
            gives_back(v.drag_ended(), before_drag(base, v))
        } else {
            v.drag_ended().tracks == base
        },
{
    let d = v.dragging->0;
    let x = AppView { dragging: None, ..v };
    let w = v.drag_ended();
    let s = d.source_track_idx as int;
    let si = d.source_clip_idx as int;
    let t = d.current_track_idx as int;
    let i = d.clip_idx as int;
    let c = base[s].clips[si];
    let o = v.tracks[t].clips[i].offset_secs;
    let b = before_drag(base, v);
    lemma_carried(base, s, si, t, i, o);
    if x.clip_was_moved(d) {
        let a = w.undo_manager.undo.last();
        reveal(AppView::applied);
        let m = a.clip_move();
        if x.source_emptied(d) {
            lemma_emptied_track_returns(base, s, si, t, i, o, m);
        } else {
            lemma_clip_returns(base, s, si, t, i, o, m);
        }
        lemma_edit_walkable(b, w, a);
    } else {
        assert(c.at(c.offset_secs) == c);
        assert(base[s].clips.remove(si).insert(si, c) =~= base[s].clips);
        assert(v.tracks =~= base);
    }
}

/// The moves of a group are those of its clips that are not where they were.
proof fn lemma_group_moves(base: Seq<ClipView>, clips: Seq<ClipView>, group: Seq<(usize, Secs)>)
    requires
        clips.len() == base.len(),
        forall|k: int|
            0 <= k < group.len() ==> (#[trigger] group[k]).0 < base.len()
                && base[group[k].0 as int].offset_secs == group[k].1,
        forall|j: int, k: int|
            0 <= j < k < group.len() ==> (#[trigger] group[j]).0 != (#[trigger] group[k]).0,
    ensures
        ({
            let moves = crate::drag::group_moves(clips, group);
            &&& crate::replay::moves_end_at(clips, moves)
            &&& forall|k: int|
                0 <= k < moves.len() ==> (#[trigger] moves[k]).0 < clips.len()
                    && base[moves[k].0 as int].offset_secs == moves[k].1
                    && exists|j: int| 0 <= j < group.len() && (#[trigger] group[j]).0 == moves[k].0
            &&& forall|j: int|
                0 <= j < group.len() && clips[(#[trigger] group[j]).0 as int].offset_secs != group[j].1
                    ==> exists|k: int| 0 <= k < moves.len() && (#[trigger] moves[k]).0 == group[j].0
        }),
    decreases group.len(),
{
    if group.len() > 0 {
        let g = group.drop_last();
        let n = group.len() - 1;
        assert forall|k: int| 0 <= k < g.len() implies (#[trigger] g[k]).0 < base.len()
            && base[g[k].0 as int].offset_secs == g[k].1 by {
            assert(g[k] == group[k]);
        }
        assert forall|j: int, k: int| 0 <= j < k < g.len() implies (#[trigger] g[j]).0 != (
        #[trigger] g[k]).0 by {
            assert(g[j] == group[j] && g[k] == group[k]);
        }
        lemma_group_moves(base, clips, g);
        let rest = crate::drag::group_moves(clips, g);
        let moves = crate::drag::group_moves(clips, group);
        assert(group.last() == group[n]);
        let (i, offset) = group[n];
        assert forall|k: int| 0 <= k < rest.len() implies (#[trigger] rest[k]).0 != i by {
            let j = choose|j: int| 0 <= j < g.len() && (#[trigger] g[j]).0 == rest[k].0;
            assert(group[j] == g[j]);
            assert(group[j].0 != group[n].0);
        }
        assert forall|k: int| 0 <= k < moves.len() implies (#[trigger] moves[k]).0 < clips.len()
            && clips[moves[k].0 as int].offset_secs == moves[k].2
            && base[moves[k].0 as int].offset_secs == moves[k].1 && exists|j: int|
            0 <= j < group.len() && (#[trigger] group[j]).0 == moves[k].0 by {
            if k < rest.len() {
                assert(moves[k] == rest[k]);
                let j = choose|j: int| 0 <= j < g.len() && (#[trigger] g[j]).0 == rest[k].0;
                assert(group[j] == g[j]);
            } else {
                assert(group[n].0 == moves[k].0);
            }
        }
        assert forall|j: int, k: int| 0 <= j < k < moves.len() implies (#[trigger] moves[j]).0 != (
        #[trigger] moves[k]).0 by {
            assert(moves[j] == rest[j]);
            if k < rest.len() {
                assert(moves[k] == rest[k]);
            }
        }
        assert forall|j: int|
            0 <= j < group.len() && clips[(#[trigger] group[j]).0 as int].offset_secs
                != group[j].1 implies exists|k: int|
            0 <= k < moves.len() && (#[trigger] moves[k]).0 == group[j].0 by {
            if j < n {
                assert(g[j] == group[j]);
                let k = choose|k: int| 0 <= k < rest.len() && (#[trigger] rest[k]).0 == g[j].0;
                assert(moves[k] == rest[k]);
            } else {
                assert(moves[rest.len() as int].0 == group[j].0);
            }
        }
    }
}

/// The drag of a group that is let go: undo gives back what was there when the drag began, and the
/// history stays walkable. A drag that ends where it began is not recorded.
pub proof fn law_undo_takes_back_group_drag(base: Seq<TrackView>, v: AppView)
    requires
        dragged_from(base, v),
        v.dragging matches Some(d) && d.active && d.group.len() > 0,
        before_drag(base, v).history_walkable(),
        v.undo_manager.max_entries > 0,
    ensures
        v.drag_ended().history_walkable(),
        ({
            let d = v.dragging->0;
            if crate::drag::group_moves(
                v.tracks[d.current_track_idx as int].clips,
                d.group,
            ).len() > 0 {
                gives_back(v.drag_ended(), before_drag(base, v))
            } else {
                v.drag_ended().tracks == base
            }
        }),
{
    let d = v.dragging->0;
    let w = v.drag_ended();
    let t = d.current_track_idx as int;
    let from = base[t].clips;
    let clips = v.tracks[t].clips;
    let moves = crate::drag::group_moves(clips, d.group);
    let b = before_drag(base, v);
    lemma_group_moves(from, clips, d.group);
    crate::replay::lemma_moved(clips, moves);
    let back = crate::history::moved_back(clips, moves);
    assert forall|i: int| 0 <= i < from.len() implies back[i] == from[i] by {
        assert(clips[i] == from[i].at(clips[i].offset_secs));
        if exists|k: int| 0 <= k < moves.len() && (#[trigger] moves[k]).0 == i {
            let k = choose|k: int| 0 <= k < moves.len() && (#[trigger] moves[k]).0 == i;
            assert(back[moves[k].0 as int] == clips[moves[k].0 as int].at(moves[k].1));
        } else {
            assert(back[i] == clips[i]);
            if exists|j: int| 0 <= j < d.group.len() && (#[trigger] d.group[j]).0 == i {
                let j = choose|j: int| 0 <= j < d.group.len() && (#[trigger] d.group[j]).0 == i;
                assert(clips[d.group[j].0 as int].offset_secs == d.group[j].1);
            } else {
                assert(clips[i] == from[i]);
            }
        }
    }
    assert(back =~= from);
    if moves.len() > 0 {
        let a = w.undo_manager.undo.last();
        reveal(AppView::applied);
        assert(a.applied_to(w.tracks) =~= base);
        lemma_edit_walkable(b, w, a);
    } else {
        assert(back == clips);
        assert(v.tracks =~= base);
    }
}

} // verus!
