//! Where the pointer takes what is dragged.

use vstd::prelude::*;
use crate::app::{AppView, DragView};
use crate::audio::ClipView;
use crate::time::Secs;

verus! {

/// Whether `x` is where a pointer that has moved by `moved` takes what started at `from`, in a window
/// of `width` pixels that shows `view`: as far from `from` as the pointer has moved, to the side that it
/// has moved to, rounded down to a flick; or the start of the timeline, if that would be before it.
pub open spec fn follows(x: int, from: int, moved: int, width: int, view: int) -> bool {
    &&& x >= 0
    &&& moved * view < (x - from + 1) * (width * 256)
    &&& x > 0 ==> (x - from) * (width * 256) <= moved * view
}

/// No stretch that is shown is negative.
pub proof fn lemma_view_is_natural(v: AppView)
    ensures
        v.effective_view_duration() >= 0,
        v.max_duration() >= 0,
{
    crate::track::law_project_end(v.tracks);
}

/// There is one place where a pointer takes what is dragged.
proof fn lemma_follows_once(x: int, y: int, from: int, moved: int, width: int, view: int)
    requires
        width > 0,
        follows(x, from, moved, width, view),
        follows(y, from, moved, width, view),
    ensures
        x == y,
{
    let w = width * 256;
    if x < y {
        assert((x - from + 1) * w <= (y - from) * w) by (nonlinear_arith)
            requires
                x + 1 <= y,
                w > 0,
        ;
    }
    if y < x {
        assert((y - from + 1) * w <= (x - from) * w) by (nonlinear_arith)
            requires
                y + 1 <= x,
                w > 0,
        ;
    }
}

/// What is dragged is taken as far as the pointer moves, and to the side that it moves to: to the left
/// of where it started by a pointer that moves left, and to the right by one that moves right.
pub proof fn law_drag_follows_the_pointer(v: AppView, d: DragView, px: int)
    requires
        v.config matches Some(s) && s.width > 0,
    ensures
        v.drag_target(d, px) < i64::MAX ==> follows(
            v.drag_target(d, px) as int,
            d.start_offset as int,
            px - d.start_x,
            v.config->0.width as int,
            v.effective_view_duration() as int,
        ),
        v.drag_target(d, px) == i64::MAX ==> (i64::MAX - d.start_offset) * (v.config->0.width * 256)
            <= (px - d.start_x) * v.effective_view_duration(),
        d.start_offset >= 0 && px <= d.start_x ==> v.drag_target(d, px) <= d.start_offset,
        px >= d.start_x ==> v.drag_target(d, px) >= d.start_offset,
        d.start_offset >= 0 && px == d.start_x ==> v.drag_target(d, px) == d.start_offset,
{
    let width = v.config->0.width as int;
    let w = width * 256;
    let view = v.effective_view_duration() as int;
    let moved = px - d.start_x;
    let from = d.start_offset as int;
    lemma_view_is_natural(v);
    let n = moved * view;
    let q = n / w;
    vstd::arithmetic::div_mod::lemma_fundamental_div_mod(n, w);
    vstd::arithmetic::div_mod::lemma_mod_bound(n, w);
    assert(q * w <= n < (q + 1) * w) by (nonlinear_arith)
        requires
            n == w * q + n % w,
            0 <= n % w < w,
    ;
    let x = v.drag_target(d, px) as int;
    if from + q >= 0 {
        if x < i64::MAX {
            assert(x - from == q);
        } else {
            assert((i64::MAX - from) * w <= q * w) by (nonlinear_arith)
                requires
                    i64::MAX - from <= q,
                    w > 0,
            ;
        }
    } else {
        assert((q + 1) * w <= (0 - from + 1) * w) by (nonlinear_arith)
            requires
                q + 1 <= 0 - from,
                w > 0,
        ;
    }
    if moved <= 0 {
        assert(n <= 0) by (nonlinear_arith)
            requires
                n == moved * view,
                moved <= 0,
                view >= 0,
        ;
        assert(q <= 0) by (nonlinear_arith)
            requires
                q * w <= n,
                n <= 0,
                w > 0,
        ;
    }
    if moved >= 0 {
        assert(n >= 0) by (nonlinear_arith)
            requires
                n == moved * view,
                moved >= 0,
                view >= 0,
        ;
        assert(q >= 0) by (nonlinear_arith)
            requires
                n < (q + 1) * w,
                n >= 0,
                w > 0,
        ;
    }
}

/// A pointer that moves as far left as another moves right takes what is dragged as far to the other
/// side, to the flick.
pub proof fn law_left_and_right_are_opposite(v: AppView, d: DragView, far: int)
    requires
        v.config matches Some(s) && s.width > 0,
        v.drag_target(d, d.start_x + far) < i64::MAX,
        v.drag_target(d, d.start_x - far) < i64::MAX,
        v.drag_target(d, d.start_x + far) > 0,
        v.drag_target(d, d.start_x - far) > 0,
    ensures
        -1 <= (v.drag_target(d, d.start_x + far) - d.start_offset) + (v.drag_target(
            d,
            d.start_x - far,
        ) - d.start_offset) <= 0,
{
    law_drag_follows_the_pointer(v, d, d.start_x + far);
    law_drag_follows_the_pointer(v, d, d.start_x - far);
    let w = v.config->0.width as int * 256;
    let n = far * v.effective_view_duration();
    let a = v.drag_target(d, d.start_x + far) - d.start_offset;
    let b = v.drag_target(d, d.start_x - far) - d.start_offset;
    assert((d.start_x - far - d.start_x) * v.effective_view_duration() == -n) by (nonlinear_arith)
        requires
            n == far * v.effective_view_duration(),
    ;
    assert(-1 <= a + b <= 0) by (nonlinear_arith)
        requires
            a * w <= n < (a + 1) * w,
            b * w <= -n < (b + 1) * w,
            w > 0,
    ;
}

/// Each of the others is one of the clips that are not skipped.
proof fn lemma_others_are_clips(clips: Seq<ClipView>, skip: Seq<usize>, k: int) -> (j: int)
    requires
        clips.len() <= usize::MAX,
        0 <= k < crate::placement::others(clips, skip).len(),
    ensures
        0 <= j < clips.len(),
        !skip.contains(j as usize),
        crate::placement::others(clips, skip)[k] == clips[j],
    decreases clips.len(),
{
    let n = clips.len() - 1;
    let rest = crate::placement::others(clips.drop_last(), skip);
    if k < rest.len() {
        let j = lemma_others_are_clips(clips.drop_last(), skip, k);
        assert(clips.drop_last()[j] == clips[j]);
        j
    } else {
        n
    }
}

/// Where a clip snaps to: one of its edges comes to lie on an edge of another.
proof fn lemma_edge_targets(rest: Seq<ClipView>, dur: int, k: int) -> (i: int)
    requires
        0 <= k < crate::placement::edge_targets(rest, dur).len(),
    ensures
        0 <= i < rest.len(),
        ({
            let x = crate::placement::edge_targets(rest, dur)[k];
            x == rest[i].offset_secs || x == rest[i].end() || x + dur == rest[i].offset_secs || x + dur
                == rest[i].end()
        }),
    decreases rest.len(),
{
    let d = rest.drop_last();
    let less = crate::placement::edge_targets(d, dur);
    if k < less.len() {
        let i = lemma_edge_targets(d, dur, k);
        assert(d[i] == rest[i]);
        i
    } else {
        rest.len() - 1
    }
}

proof fn lemma_side_targets(rest: Seq<ClipView>, span: int, k: int) -> (i: int)
    requires
        0 <= k < crate::placement::side_targets(rest, span).len(),
    ensures
        0 <= i < rest.len(),
        ({
            let x = crate::placement::side_targets(rest, span)[k];
            x == rest[i].end() || x + span == rest[i].offset_secs
        }),
    decreases rest.len(),
{
    let d = rest.drop_last();
    let less = crate::placement::side_targets(d, span);
    if k < less.len() {
        let i = lemma_side_targets(d, span, k);
        assert(d[i] == rest[i]);
        i
    } else {
        rest.len() - 1
    }
}

/// Whether times `a` and `b` are ten pixels or more apart, in a window of `width` pixels that shows
/// `view`.
pub open spec fn far_apart(a: int, b: int, width: int, view: int) -> bool {
    (a - b) * width >= 10 * view || (b - a) * width >= 10 * view
}

proof fn lemma_out_of_reach(a: int, b: int, width: int, view: int)
    requires
        far_apart(a, b, width, view),
        width > 0,
        view >= 0,
    ensures
        !crate::placement::in_reach(b, a, width, view),
        !crate::placement::in_reach(a, b, width, view),
{
    let d = crate::time::distance(b, a);
    assert(d * width >= 10 * view) by (nonlinear_arith)
        requires
            (a - b) * width >= 10 * view || (b - a) * width >= 10 * view,
            d == a - b || d == b - a,
            d >= 0,
            width > 0,
            view >= 0,
    ;
    assert(crate::time::distance(a, b) == d);
}

/// Whether a clip can lie at `x` for `dur` undisturbed by `other`: it does not overlap it, and no edge
/// of the one is within ten pixels of an edge of the other.
pub open spec fn undisturbed(x: int, dur: int, other: ClipView, width: int, view: int) -> bool {
    &&& x + dur <= other.offset_secs || other.end() <= x
    &&& far_apart(x, other.offset_secs as int, width, view)
    &&& far_apart(x, other.end(), width, view)
    &&& far_apart(x + dur, other.offset_secs as int, width, view)
    &&& far_apart(x + dur, other.end(), width, view)
}

/// A dragged clip stays the clip that it is, and comes to lie in the lane at the height of the pointer:
/// in the first above all lanes, and in the last below them. It leaves every other clip where it is; a
/// clip that changes its track becomes the last clip of the new one.
pub proof fn law_only_the_dragged_clip_moves(v: AppView, px: int, py: int)
    requires
        v.config matches Some(s) && s.width > 0 && s.height > 0,
        v.dragging matches Some(d) && d.group.len() == 0 && v.has_clip(
            d.current_track_idx,
            d.clip_idx,
        ),
        v.tracks.len() <= usize::MAX,
        forall|t: int| 0 <= t < v.tracks.len() ==> (#[trigger] v.tracks[t]).clips.len() < usize::MAX,
    ensures
        ({
            let w = v.dragged(px, py);
            let d = v.dragging->0;
            let e = w.dragging->0;
            let from = d.current_track_idx as int;
            let to = e.current_track_idx as int;
            let clip = v.tracks[from].clips[d.clip_idx as int];
            let now = w.tracks[to].clips[e.clip_idx as int];
            let n = v.tracks.len();
            let lanes = v.config->0.height * 256;
            &&& w.dragging is Some
            &&& w.tracks.len() == n
            &&& 0 <= to < n
            &&& now == (ClipView { offset_secs: now.offset_secs, ..clip })
            &&& py <= 0 ==> to == 0
            &&& py > 0 ==> to * lanes <= py * n
            &&& py > 0 && to < n - 1 ==> py * n < (to + 1) * lanes
            &&& e.start_offset == d.start_offset && e.start_x == d.start_x && e.source_track_idx
                == d.source_track_idx && e.source_clip_idx == d.source_clip_idx
            &&& forall|t: int| 0 <= t < n && t != from && t != to ==> #[trigger] w.tracks[t] == v.tracks[t]
            &&& w.tracks[from].switches() == v.tracks[from].switches()
            &&& w.tracks[to].switches() == v.tracks[to].switches()
            &&& if to == from {
                e.clip_idx == d.clip_idx && w.tracks[to].clips == v.tracks[to].clips.update(
                    d.clip_idx as int,
                    now,
                )
            } else {
                w.tracks[from].clips == v.tracks[from].clips.remove(d.clip_idx as int)
                    && w.tracks[to].clips == v.tracks[to].clips.push(now) && e.clip_idx
                    == v.tracks[to].clips.len() && w.selected_track == Some(e.current_track_idx)
                    && w.selected_clip == Some(e.clip_idx)
            }
        }),
{
    let d = v.dragging->0;
    let n = v.tracks.len() as int;
    let height = v.config->0.height as int;
    let lanes = height * 256;
    let lane = crate::geometry::lane_at(py, n, height);
    crate::drag::lemma_lane_is_natural(py, n, height);
    if py > 0 {
        vstd::arithmetic::div_mod::lemma_fundamental_div_mod(py * n, lanes);
        vstd::arithmetic::div_mod::lemma_mod_bound(py * n, lanes);
        assert(lane * lanes <= py * n < (lane + 1) * lanes) by (nonlinear_arith)
            requires
                py * n == lanes * lane + (py * n) % lanes,
                0 <= (py * n) % lanes < lanes,
        ;
        let to = crate::time::smaller(lane, n - 1);
        assert(to * lanes <= lane * lanes) by (nonlinear_arith)
            requires
                to <= lane,
                lanes > 0,
        ;
    }
    let l = v.clip_lifted(py);
    let e = l.dragging->0;
    let to = e.current_track_idx as int;
    let from = d.current_track_idx as int;
    let w = v.dragged(px, py);
    assert(w.dragging == l.dragging);
    if to == from {
        assert(l == v);
    } else {
        assert(l.tracks[to].clips =~= v.tracks[to].clips.push(v.tracks[from].clips[d.clip_idx as int]));
        assert(w.tracks[to].clips =~= v.tracks[to].clips.push(w.tracks[to].clips[e.clip_idx as int]));
    }
}

/// A dragged clip goes where the pointer takes it, if it disturbs no other clip of the track there.
pub proof fn law_dragged_clip_goes_where_it_is_dragged(v: AppView, px: int, py: int, x: int)
    requires
        v.ok(),
        v.config is Some,
        v.dragging matches Some(d) && d.group.len() == 0 && v.has_clip(
            d.current_track_idx,
            d.clip_idx,
        ),
        v.tracks.len() <= usize::MAX,
        forall|t: int| 0 <= t < v.tracks.len() ==> (#[trigger] v.tracks[t]).clips.len() < usize::MAX,
        x < i64::MAX,
        follows(
            x,
            v.dragging->0.start_offset as int,
            px - v.dragging->0.start_x,
            v.config->0.width as int,
            v.effective_view_duration() as int,
        ),
        ({
            let e = v.dragged(px, py).dragging->0;
            let clips = v.dragged(px, py).tracks[e.current_track_idx as int].clips;
            forall|j: int|
                0 <= j < clips.len() && j != e.clip_idx ==> undisturbed(
                    x,
                    clips[e.clip_idx as int].duration(),
                    #[trigger] clips[j],
                    v.config->0.width as int,
                    v.clip_lifted(py).effective_view_duration() as int,
                )
        }),
    ensures
        ({
            let e = v.dragged(px, py).dragging->0;
            v.dragged(px, py).tracks[e.current_track_idx as int].clips[e.clip_idx as int].offset_secs
                == x
        }),
{
    law_only_the_dragged_clip_moves(v, px, py);
    let d = v.dragging->0;
    let l = v.clip_lifted(py);
    let w = v.dragged(px, py);
    let e = w.dragging->0;
    let t = e.current_track_idx as int;
    let i = e.clip_idx as int;
    let target = v.drag_target(d, px);
    let width = v.config->0.width as int;
    law_drag_follows_the_pointer(v, d, px);
    if target == i64::MAX {
        assert((x - d.start_offset + 1) * (width * 256) <= (i64::MAX - d.start_offset) * (width * 256))
            by (nonlinear_arith)
            requires
                x + 1 <= i64::MAX,
                width > 0,
        ;
    } else {
        lemma_follows_once(
            x,
            target as int,
            d.start_offset as int,
            px - d.start_x,
            width,
            v.effective_view_duration() as int,
        );
    }
    assert(target == x);
    let clips = l.tracks[t].clips;
    let rest = crate::placement::others(clips, seq![e.clip_idx]);
    let dur = clips[i].duration();
    let view = l.effective_view_duration() as int;
    lemma_view_is_natural(l);
    assert(v.tracks[d.current_track_idx as int].clips[d.clip_idx as int].ok());
    crate::time::lemma_time_of_grows(0, clips[i].mono.len() as int, clips[i].sample_rate as int);
    assert forall|k: int| 0 <= k < rest.len() implies undisturbed(
        x,
        dur,
        #[trigger] rest[k],
        width,
        view,
    ) by {
        let j = lemma_others_are_clips(clips, seq![e.clip_idx], k);
        assert(seq![e.clip_idx][0] == e.clip_idx);
        assert(j != i);
        assert(w.tracks[t].clips[j] == clips[j]);
    }
    let targets = crate::placement::edge_targets(rest, dur);
    assert forall|k: int| 0 <= k < targets.len() implies !crate::placement::in_reach(
        #[trigger] targets[k],
        x,
        width,
        view,
    ) by {
        let j = lemma_edge_targets(rest, dur, k);
        let y = targets[k];
        assert(undisturbed(x, dur, rest[j], width, view));
        if y == rest[j].offset_secs || y == rest[j].end() {
            lemma_out_of_reach(x, y, width, view);
        } else {
            lemma_out_of_reach(x + dur, y + dur, width, view);
            assert(crate::time::distance(y, x) == crate::time::distance(y + dur, x + dur));
        }
    }
    crate::placement::law_snaps_to_nearest(targets, x, width, view);
    crate::placement::lemma_free_exists(rest, x, dur);
    assert(crate::placement::is_free(rest, dur, x)) by {
        assert forall|k: int| 0 <= k < rest.len() implies !(#[trigger] rest[k]).overlaps(x, x + dur) by {
            assert(undisturbed(x, dur, rest[k], width, view));
        }
    }
    assert(crate::placement::nearest_free(rest, x, dur) == x);
}

/// Whether a clip that lies at `x` for `dur` has an edge on an edge of `other`.
pub open spec fn edge_on_edge(x: int, dur: int, other: ClipView) -> bool {
    x == other.offset_secs || x == other.end() || x + dur == other.offset_secs || x + dur
        == other.end()
}

/// Whether times `a` and `b` are less than ten pixels apart.
pub open spec fn near(a: int, b: int, width: int, view: int) -> bool {
    (a - b) * width < 10 * view && (b - a) * width < 10 * view
}

/// Whether `a` is at least as near to `x` as `b` is.
pub open spec fn no_farther(a: int, b: int, x: int) -> bool {
    &&& x - a <= x - b || x - a <= b - x
    &&& a - x <= x - b || a - x <= b - x
}

/// Two times are near just where one snaps to the other.
pub proof fn lemma_near(a: int, b: int, width: int, view: int)
    requires
        width > 0,
        view >= 0,
    ensures
        near(a, b, width, view) <==> crate::placement::in_reach(a, b, width, view),
{
    let d = crate::time::distance(a, b);
    assert((a - b) * width <= d * width && (b - a) * width <= d * width) by (nonlinear_arith)
        requires
            a - b <= d,
            b - a <= d,
            width > 0,
    ;
}

proof fn lemma_edge_is_target(rest: Seq<ClipView>, dur: int, i: int, x: int) -> (k: int)
    requires
        0 <= i < rest.len(),
        edge_on_edge(x, dur, rest[i]),
    ensures
        0 <= k < crate::placement::edge_targets(rest, dur).len(),
        crate::placement::edge_targets(rest, dur)[k] == x,
    decreases rest.len(),
{
    let d = rest.drop_last();
    let less = crate::placement::edge_targets(d, dur);
    let all = crate::placement::edge_targets(rest, dur);
    if i < d.len() {
        let k = lemma_edge_is_target(d, dur, i, x);
        assert(all[k] == less[k]);
        k
    } else {
        let n = less.len() as int;
        let c = rest[i];
        assert(all[n] == c.end() && all[n + 1] == c.offset_secs - dur && all[n + 2] == c.offset_secs
            && all[n + 3] == c.end() - dur);
        if x == c.end() {
            n
        } else if x + dur == c.offset_secs {
            n + 1
        } else if x == c.offset_secs {
            n + 2
        } else {
            n + 3
        }
    }
}

/// A clip snaps where one of its edges meets an edge of another clip, the nearest such place within ten
/// pixels; it stays where it is dragged if there is none.
pub proof fn law_a_clip_snaps_to_edges(v: AppView, rest: Seq<ClipView>, desired: Secs, dur: Secs)
    requires
        v.config matches Some(s) && s.width > 0,
        i64::MIN < v.snap_offset(rest, desired, dur) < i64::MAX,
    ensures
        ({
            let r = v.snap_offset(rest, desired, dur) as int;
            let width = v.config->0.width as int;
            let view = v.effective_view_duration() as int;
            &&& r != desired ==> near(r, desired as int, width, view) && exists|i: int|
                0 <= i < rest.len() && #[trigger] edge_on_edge(r, dur as int, rest[i])
            &&& forall|x: int, i: int|
                0 <= i < rest.len() && #[trigger] edge_on_edge(x, dur as int, rest[i]) && near(
                    x,
                    desired as int,
                    width,
                    view,
                ) ==> no_farther(r, x, desired as int) && exists|j: int|
                    0 <= j < rest.len() && #[trigger] edge_on_edge(r, dur as int, rest[j])
        }),
{
    let width = v.config->0.width as int;
    let view = v.effective_view_duration() as int;
    let targets = crate::placement::edge_targets(rest, dur as int);
    let r = crate::placement::snapped(targets, desired as int, width, view);
    lemma_view_is_natural(v);
    crate::placement::law_snaps_to_nearest(targets, desired as int, width, view);
    if crate::placement::any_in_reach(targets, desired as int, width, view) {
        let k = choose|k: int| 0 <= k < targets.len() && targets[k] == r;
        let i = lemma_edge_targets(rest, dur as int, k);
        assert(edge_on_edge(r, dur as int, rest[i]));
        lemma_near(r, desired as int, width, view);
    }
    assert forall|x: int, i: int|
        0 <= i < rest.len() && #[trigger] edge_on_edge(x, dur as int, rest[i]) && near(
            x,
            desired as int,
            width,
            view,
        ) implies no_farther(r, x, desired as int) && exists|j: int|
        0 <= j < rest.len() && #[trigger] edge_on_edge(r, dur as int, rest[j]) by {
        let k = lemma_edge_is_target(rest, dur as int, i, x);
        lemma_near(x, desired as int, width, view);
        assert(crate::placement::in_reach(targets[k], desired as int, width, view));
    }
}

proof fn lemma_side_is_target(rest: Seq<ClipView>, span: int, i: int, x: int) -> (k: int)
    requires
        0 <= i < rest.len(),
        x == rest[i].end() || x + span == rest[i].offset_secs,
    ensures
        0 <= k < crate::placement::side_targets(rest, span).len(),
        crate::placement::side_targets(rest, span)[k] == x,
    decreases rest.len(),
{
    let d = rest.drop_last();
    let less = crate::placement::side_targets(d, span);
    let all = crate::placement::side_targets(rest, span);
    if i < d.len() {
        let k = lemma_side_is_target(d, span, i, x);
        assert(all[k] == less[k]);
        k
    } else {
        let n = less.len() as int;
        let c = rest[i];
        assert(all[n] == c.end() && all[n + 1] == c.offset_secs - span);
        if x == c.end() {
            n
        } else {
            n + 1
        }
    }
}

/// A group snaps where it comes to lie against another clip, behind it or before it, the nearest such
/// place within ten pixels; it stays where it is dragged if there is none.
pub proof fn law_a_group_snaps_to_sides(v: AppView, rest: Seq<ClipView>, desired: Secs, span: int)
    requires
        v.config matches Some(s) && s.width > 0,
        i64::MIN < v.snap_offset_group(rest, desired, span) < i64::MAX,
    ensures
        ({
            let r = v.snap_offset_group(rest, desired, span) as int;
            let width = v.config->0.width as int;
            let view = v.effective_view_duration() as int;
            &&& r != desired ==> near(r, desired as int, width, view) && exists|i: int|
                0 <= i < rest.len() && (r == (#[trigger] rest[i]).end() || r + span
                    == rest[i].offset_secs)
            &&& forall|i: int|
                0 <= i < rest.len() && near(
                    (#[trigger] rest[i]).end(),
                    desired as int,
                    width,
                    view,
                ) ==> no_farther(r, rest[i].end(), desired as int)
            &&& forall|i: int|
                0 <= i < rest.len() && near(
                    (#[trigger] rest[i]).offset_secs - span,
                    desired as int,
                    width,
                    view,
                ) ==> no_farther(r, rest[i].offset_secs - span, desired as int)
        }),
{
    let width = v.config->0.width as int;
    let view = v.effective_view_duration() as int;
    let targets = crate::placement::side_targets(rest, span);
    let r = crate::placement::snapped(targets, desired as int, width, view);
    lemma_view_is_natural(v);
    crate::placement::law_snaps_to_nearest(targets, desired as int, width, view);
    if crate::placement::any_in_reach(targets, desired as int, width, view) {
        let k = choose|k: int| 0 <= k < targets.len() && targets[k] == r;
        let i = lemma_side_targets(rest, span, k);
        assert(r == rest[i].end() || r + span == rest[i].offset_secs);
        lemma_near(r, desired as int, width, view);
    }
    assert forall|i: int| 0 <= i < rest.len() implies (near(
        (#[trigger] rest[i]).end(),
        desired as int,
        width,
        view,
    ) ==> no_farther(r, rest[i].end(), desired as int)) && (near(
        rest[i].offset_secs - span,
        desired as int,
        width,
        view,
    ) ==> no_farther(r, rest[i].offset_secs - span, desired as int)) by {
        let k = lemma_side_is_target(rest, span, i, rest[i].end());
        lemma_near(rest[i].end(), desired as int, width, view);
        assert(crate::placement::in_reach(targets[k], desired as int, width, view) ==> no_farther(
            r,
            rest[i].end(),
            desired as int,
        ));
        let m = lemma_side_is_target(rest, span, i, rest[i].offset_secs - span);
        lemma_near(rest[i].offset_secs - span, desired as int, width, view);
        assert(crate::placement::in_reach(targets[m], desired as int, width, view) ==> no_farther(
            r,
            rest[i].offset_secs - span,
            desired as int,
        ));
    }
}

/// Whether a clip that lasts `dur` can lie at `x` beside every clip of the list but clip `i`.
pub open spec fn has_room(clips: Seq<ClipView>, i: int, dur: int, x: int) -> bool {
    x >= 0 && forall|j: int|
        0 <= j < clips.len() && j != i ==> x + dur <= (#[trigger] clips[j]).offset_secs
            || clips[j].end() <= x
}

/// A clip is let down at the place with room for it that is nearest to where it snaps to.
pub proof fn law_a_clip_takes_the_nearest_room(v: AppView, target: Secs, y: int)
    requires
        v.ok(),
        v.dragging matches Some(d) && v.has_clip(d.current_track_idx, d.clip_idx)
            && v.tracks[d.current_track_idx as int].clips.len() <= usize::MAX && has_room(
            v.tracks[d.current_track_idx as int].clips,
            d.clip_idx as int,
            v.tracks[d.current_track_idx as int].clips[d.clip_idx as int].duration(),
            y,
        ),
    ensures
        ({
            let d = v.dragging->0;
            let clips = v.tracks[d.current_track_idx as int].clips;
            let i = d.clip_idx as int;
            let x = v.clip_dropped(target).tracks[d.current_track_idx as int].clips[i].offset_secs;
            let s = v.snap_offset(
                crate::placement::others(clips, seq![d.clip_idx]),
                target,
                clips[i].duration() as Secs,
            );
            x < i64::MAX ==> x >= 0 && no_farther(x as int, y, s as int) && (no_farther(
                y,
                x as int,
                s as int,
            ) ==> x <= y)
        }),
{
    let d = v.dragging->0;
    let clips = v.tracks[d.current_track_idx as int].clips;
    let i = d.clip_idx as int;
    let rest = crate::placement::others(clips, seq![d.clip_idx]);
    let dur = clips[i].duration() as Secs;
    assert(clips[i].ok());
    crate::time::lemma_time_of_grows(0, clips[i].mono.len() as int, clips[i].sample_rate as int);
    let s = v.snap_offset(rest, target, dur);
    crate::placement::lemma_free_exists(rest, s as int, dur as int);
    assert(crate::placement::is_free(rest, dur as int, y)) by {
        assert forall|k: int| 0 <= k < rest.len() implies !(#[trigger] rest[k]).overlaps(y, y + dur) by {
            let j = lemma_others_are_clips(clips, seq![d.clip_idx], k);
            assert(seq![d.clip_idx][0] == d.clip_idx);
            assert(j != i);
        }
    }
}

/// Whether no clip is in the group twice.
pub open spec fn all_different(group: Seq<(usize, Secs)>) -> bool {
    forall|j: int, k: int|
        0 <= j < k < group.len() ==> (#[trigger] group[j]).0 != (#[trigger] group[k]).0
}

proof fn lemma_group_moved(clips: Seq<ClipView>, group: Seq<(usize, Secs)>, delta: int)
    requires
        all_different(group),
        forall|k: int| 0 <= k < group.len() ==> (#[trigger] group[k]).0 < clips.len(),
    ensures
        crate::drag::group_moved(clips, group, delta).len() == clips.len(),
        forall|k: int|
            0 <= k < group.len() ==> crate::drag::group_moved(clips, group, delta)[(
            #[trigger] group[k]).0 as int] == (ClipView {
                offset_secs: crate::time::sat_secs(group[k].1 + delta),
                ..clips[group[k].0 as int]
            }),
        forall|j: int|
            0 <= j < clips.len() && (forall|k: int|
                0 <= k < group.len() ==> (#[trigger] group[k]).0 != j)
                ==> #[trigger] crate::drag::group_moved(clips, group, delta)[j] == clips[j],
    decreases group.len(),
{
    if group.len() > 0 {
        let g = group.drop_last();
        let n = group.len() - 1;
        assert forall|k: int| 0 <= k < g.len() implies (#[trigger] g[k]).0 < clips.len() by {
            assert(g[k] == group[k]);
        }
        assert(all_different(g)) by {
            assert forall|j: int, k: int| 0 <= j < k < g.len() implies (#[trigger] g[j]).0 != (
            #[trigger] g[k]).0 by {
                assert(g[j] == group[j] && g[k] == group[k]);
            }
        }
        lemma_group_moved(clips, g, delta);
        let rest = crate::drag::group_moved(clips, g, delta);
        let new = crate::drag::group_moved(clips, group, delta);
        let (i, offset) = group[n];
        assert(group.last() == group[n]);
        assert(rest[i as int] == clips[i as int]) by {
            assert forall|k: int| 0 <= k < g.len() implies (#[trigger] g[k]).0 != i by {
                assert(g[k] == group[k]);
                assert(group[k].0 != group[n].0);
            }
        }
        assert forall|k: int| 0 <= k < group.len() implies new[(#[trigger] group[k]).0 as int] == (
        ClipView {
            offset_secs: crate::time::sat_secs(group[k].1 + delta),
            ..clips[group[k].0 as int]
        }) by {
            if k < n {
                assert(g[k] == group[k]);
                assert(group[k].0 != group[n].0);
            }
        }
        assert forall|j: int|
            0 <= j < clips.len() && (forall|k: int|
                0 <= k < group.len() ==> (#[trigger] group[k]).0 != j) implies #[trigger] new[j]
            == clips[j] by {
            assert forall|k: int| 0 <= k < g.len() implies (#[trigger] g[k]).0 != j by {
                assert(g[k] == group[k]);
            }
            assert(group[n].0 != j);
            assert(rest[j] == clips[j]);
        }
    }
}

/// Whether the clips of the group have all moved by `delta` from where they were when the drag began,
/// and nothing else has changed.
pub open spec fn moved_together(v: AppView, w: AppView, delta: int) -> bool {
    let d = v.dragging->0;
    let t = d.current_track_idx as int;
    &&& w.tracks.len() == v.tracks.len()
    &&& forall|u: int| 0 <= u < v.tracks.len() && u != t ==> #[trigger] w.tracks[u] == v.tracks[u]
    &&& w.tracks[t].switches() == v.tracks[t].switches()
    &&& w.tracks[t].clips.len() == v.tracks[t].clips.len()
    &&& forall|k: int|
        0 <= k < d.group.len() ==> w.tracks[t].clips[(#[trigger] d.group[k]).0 as int] == (ClipView {
            offset_secs: crate::time::sat_secs(d.group[k].1 + delta),
            ..v.tracks[t].clips[d.group[k].0 as int]
        })
    &&& forall|j: int|
        0 <= j < v.tracks[t].clips.len() && (forall|k: int|
            0 <= k < d.group.len() ==> (#[trigger] d.group[k]).0 != j)
            ==> #[trigger] w.tracks[t].clips[j] == v.tracks[t].clips[j]
    &&& w == (AppView { tracks: w.tracks, ..v })
}

/// The clips of a dragged group all move by the same distance from where they were when the drag began,
/// so that they keep their distances; every other clip stays where it is.
pub proof fn law_a_group_moves_together(v: AppView, px: int, py: int)
    requires
        v.dragging matches Some(d) && d.group.len() > 0 && v.has_group(d) && all_different(d.group),
    ensures
        exists|delta: int| moved_together(v, v.dragged(px, py), delta),
{
    let d = v.dragging->0;
    let t = d.current_track_idx as int;
    let clips = v.tracks[t].clips;
    let rest = crate::placement::others(clips, crate::drag::group_indices(d.group));
    let snapped = v.snap_offset_group(
        rest,
        v.drag_target(d, px),
        crate::drag::group_right(clips, d.group) - d.start_offset,
    );
    let left = crate::time::sat_secs(
        crate::group::group_left(
            rest,
            crate::group::members(
                clips,
                crate::drag::group_indices(d.group),
                crate::drag::group_offsets(d.group),
            ),
            snapped as int,
            d.start_offset as int,
        ),
    );
    let delta = left - d.start_offset;
    lemma_group_moved(clips, d.group, delta);
    assert(moved_together(v, v.dragged(px, py), delta));
}

proof fn lemma_group_right(clips: Seq<ClipView>, group: Seq<(usize, Secs)>, right: int)
    requires
        group.len() > 0,
        forall|k: int|
            0 <= k < group.len() ==> (#[trigger] group[k]).1 + clips[group[k].0 as int].duration()
                <= right,
        exists|k: int|
            0 <= k < group.len() && (#[trigger] group[k]).1 + clips[group[k].0 as int].duration()
                == right,
    ensures
        crate::drag::group_right(clips, group) == right,
{
    lemma_group_right_bounds(clips, group);
}

proof fn lemma_group_right_bounds(clips: Seq<ClipView>, group: Seq<(usize, Secs)>)
    requires
        group.len() > 0,
    ensures
        forall|k: int|
            0 <= k < group.len() ==> (#[trigger] group[k]).1 + clips[group[k].0 as int].duration()
                <= crate::drag::group_right(clips, group),
        exists|k: int|
            0 <= k < group.len() && (#[trigger] group[k]).1 + clips[group[k].0 as int].duration()
                == crate::drag::group_right(clips, group),
    decreases group.len(),
{
    let n = group.len() - 1;
    let g = group.drop_last();
    let end = group[n].1 + clips[group[n].0 as int].duration();
    let all = crate::drag::group_right(clips, group);
    if g.len() > 0 {
        lemma_group_right_bounds(clips, g);
        let less = crate::drag::group_right(clips, g);
        assert forall|k: int| 0 <= k < group.len() implies (#[trigger] group[k]).1
            + clips[group[k].0 as int].duration() <= all by {
            if k < n {
                assert(g[k] == group[k]);
            }
        }
        if all == end {
            assert(group[n].1 + clips[group[n].0 as int].duration() == all);
        } else {
            let k = choose|k: int|
                0 <= k < g.len() && (#[trigger] g[k]).1 + clips[g[k].0 as int].duration() == less;
            assert(group[k] == g[k]);
        }
    } else {
        assert(group[n].1 + clips[group[n].0 as int].duration() == all);
    }
}

/// A dragged group goes where the pointer takes it, if none of its clips would overlap another clip
/// there and neither side of the group is within ten pixels of a side of another clip. Its first clip
/// is then where the pointer takes it, and the rest are as far behind it as they were.
pub proof fn law_a_group_goes_where_it_is_dragged(v: AppView, px: int, py: int, x: int, right: int)
    requires
        v.ok(),
        v.config is Some,
        v.dragging matches Some(d) && d.group.len() > 0 && v.has_group(d) && all_different(d.group)
            && d.start_offset >= 0,
        v.tracks[v.dragging->0.current_track_idx as int].clips.len() <= usize::MAX,
        x < i64::MAX,
        follows(
            x,
            v.dragging->0.start_offset as int,
            px - v.dragging->0.start_x,
            v.config->0.width as int,
            v.effective_view_duration() as int,
        ),
        ({
            let d = v.dragging->0;
            let clips = v.tracks[d.current_track_idx as int].clips;
            let width = v.config->0.width as int;
            let view = v.effective_view_duration() as int;
            &&& forall|k: int|
                0 <= k < d.group.len() ==> d.start_offset <= (#[trigger] d.group[k]).1
                    && d.group[k].1 + clips[d.group[k].0 as int].duration() <= right
            &&& exists|k: int|
                0 <= k < d.group.len() && (#[trigger] d.group[k]).1
                    + clips[d.group[k].0 as int].duration() == right
            &&& forall|j: int|
                0 <= j < clips.len() && (forall|k: int|
                    0 <= k < d.group.len() ==> (#[trigger] d.group[k]).0 != j) ==> {
                    &&& far_apart(x, (#[trigger] clips[j]).end(), width, view)
                    &&& far_apart(
                        x + right - d.start_offset,
                        clips[j].offset_secs as int,
                        width,
                        view,
                    )
                    &&& forall|k: int|
                        0 <= k < d.group.len() ==> {
                            let at = (#[trigger] d.group[k]).1 + (x - d.start_offset);
                            at + clips[d.group[k].0 as int].duration() <= clips[j].offset_secs
                                || clips[j].end() <= at
                        }
                }
        }),
    ensures
        moved_together(v, v.dragged(px, py), x - v.dragging->0.start_offset),
{
    let d = v.dragging->0;
    let t = d.current_track_idx as int;
    let clips = v.tracks[t].clips;
    let indices = crate::drag::group_indices(d.group);
    let rest = crate::placement::others(clips, indices);
    let width = v.config->0.width as int;
    let view = v.effective_view_duration() as int;
    let span = right - d.start_offset;
    let target = v.drag_target(d, px);
    let members = crate::group::members(clips, indices, crate::drag::group_offsets(d.group));
    let delta = x - d.start_offset;
    lemma_view_is_natural(v);
    law_drag_follows_the_pointer(v, d, px);
    if target == i64::MAX {
        assert((x - d.start_offset + 1) * (width * 256) <= (i64::MAX - d.start_offset) * (width * 256))
            by (nonlinear_arith)
            requires
                x + 1 <= i64::MAX,
                width > 0,
        ;
    } else {
        lemma_follows_once(
            x,
            target as int,
            d.start_offset as int,
            px - d.start_x,
            width,
            view,
        );
    }
    assert(target == x);
    lemma_group_right(clips, d.group, right);
    assert forall|m: int| 0 <= m < rest.len() implies {
        &&& far_apart(x, (#[trigger] rest[m]).end(), width, view)
        &&& far_apart(x + span, rest[m].offset_secs as int, width, view)
        &&& forall|k: int|
            0 <= k < d.group.len() ==> {
                let at = (#[trigger] d.group[k]).1 + delta;
                at + clips[d.group[k].0 as int].duration() <= rest[m].offset_secs || rest[m].end() <= at
            }
    } by {
        let j = lemma_others_are_clips(clips, indices, m);
        assert forall|k: int| 0 <= k < d.group.len() implies (#[trigger] d.group[k]).0 != j by {
            assert(indices[k] == d.group[k].0);
            assert(indices.contains(indices[k]));
        }
        assert(rest[m] == clips[j]);
    }
    let targets = crate::placement::side_targets(rest, span);
    assert forall|k: int| 0 <= k < targets.len() implies !crate::placement::in_reach(
        #[trigger] targets[k],
        x,
        width,
        view,
    ) by {
        let j = lemma_side_targets(rest, span, k);
        let y = targets[k];
        if y == rest[j].end() {
            lemma_out_of_reach(x, y, width, view);
        } else {
            lemma_out_of_reach(x + span, y + span, width, view);
            assert(crate::time::distance(y, x) == crate::time::distance(y + span, x + span));
        }
    }
    crate::placement::law_snaps_to_nearest(targets, x, width, view);
    assert(v.snap_offset_group(rest, target, span) == x);
    assert forall|k: int| 0 <= k < members.len() implies (#[trigger] members[k]).offset
        == d.group[k].1 && members[k].duration == clips[d.group[k].0 as int].duration() by {
        assert(indices[k] == d.group[k].0);
        assert(clips[d.group[k].0 as int].ok());
    }
    assert(crate::group::clear(delta, members, rest)) by {
        assert forall|k: int, i: int| 0 <= k < members.len() && 0 <= i < rest.len() implies !(
        #[trigger] rest[i]).overlaps(
            (#[trigger] members[k]).offset + delta,
            members[k].offset + delta + members[k].duration,
        ) by {
            assert(d.group[k].1 == members[k].offset);
        }
    }
    assert forall|k: int| 0 <= k < members.len() implies (#[trigger] members[k]).offset + delta >= 0 by {
        assert(d.start_offset <= d.group[k].1);
    }
    crate::group::law_group_goes_where_it_is_dragged(delta, members, rest);
    lemma_group_moved(clips, d.group, delta);
}

/// A dragged group comes to lie where none of its clips overlaps another clip or is before the start of
/// the timeline, if it was dragged from such a place.
pub proof fn law_a_dragged_group_is_clear(v: AppView, px: int, py: int)
    requires
        v.ok(),
        v.config is Some,
        v.dragging matches Some(d) && d.group.len() > 0 && v.has_group(d) && all_different(d.group)
            && d.start_offset >= 0,
        v.tracks[v.dragging->0.current_track_idx as int].clips.len() <= usize::MAX,
        ({
            let d = v.dragging->0;
            let clips = v.tracks[d.current_track_idx as int].clips;
            forall|k: int|
                0 <= k < d.group.len() ==> (#[trigger] d.group[k]).1 >= d.start_offset && has_room_beside(
                    clips,
                    d.group,
                    d.group[k].1 as int,
                    clips[d.group[k].0 as int].duration(),
                )
        }),
    ensures
        ({
            let d = v.dragging->0;
            let clips = v.tracks[d.current_track_idx as int].clips;
            exists|delta: int| #[trigger]
                moved_together(v, v.dragged(px, py), delta) && forall|k: int|
                    0 <= k < d.group.len() ==> (#[trigger] d.group[k]).1 + delta >= 0
                        && has_room_beside(
                        clips,
                        d.group,
                        d.group[k].1 + delta,
                        clips[d.group[k].0 as int].duration(),
                    )
        }),
{
    let d = v.dragging->0;
    let t = d.current_track_idx as int;
    let clips = v.tracks[t].clips;
    let indices = crate::drag::group_indices(d.group);
    let rest = crate::placement::others(clips, indices);
    let members = crate::group::members(clips, indices, crate::drag::group_offsets(d.group));
    let target = v.drag_target(d, px);
    let snapped = v.snap_offset_group(
        rest,
        target,
        crate::drag::group_right(clips, d.group) - d.start_offset,
    );
    let from = d.start_offset as int;
    let left = crate::group::group_left(rest, members, snapped as int, from);
    assert forall|k: int| 0 <= k < members.len() implies (#[trigger] members[k]).offset
        == d.group[k].1 && members[k].duration == clips[d.group[k].0 as int].duration() by {
        assert(indices[k] == d.group[k].0);
        assert(clips[d.group[k].0 as int].ok());
    }
    assert(crate::group::clear(0, members, rest)) by {
        assert forall|k: int, i: int| 0 <= k < members.len() && 0 <= i < rest.len() implies !(
        #[trigger] rest[i]).overlaps(
            (#[trigger] members[k]).offset + 0,
            members[k].offset + 0 + members[k].duration,
        ) by {
            let j = lemma_others_are_clips(clips, indices, i);
            lemma_not_listed(d.group, j);
            assert(d.group[k].1 == members[k].offset);
        }
    }
    assert forall|k: int| 0 <= k < members.len() implies (#[trigger] members[k]).offset >= 0 by {
        assert(d.start_offset <= d.group[k].1);
    }
    crate::group::law_group_stays_clear(snapped - from, members, rest);
    if rest.len() == 0 {
        lemma_view_is_natural(v);
        law_drag_follows_the_pointer(v, d, px);
        assert(crate::placement::side_targets(rest, crate::drag::group_right(clips, d.group)
            - d.start_offset).len() == 0);
        assert(snapped == target);
        assert(left == snapped);
    }
    assert(i64::MIN <= left <= i64::MAX);
    let delta = left - from;
    lemma_group_moved(clips, d.group, delta);
    assert(moved_together(v, v.dragged(px, py), delta));
    assert forall|k: int| 0 <= k < d.group.len() implies (#[trigger] d.group[k]).1 + delta >= 0
        && has_room_beside(
        clips,
        d.group,
        d.group[k].1 + delta,
        clips[d.group[k].0 as int].duration(),
    ) by {
        assert(members[k].offset == d.group[k].1);
        assert forall|j: int| 0 <= j < clips.len() && !listed(d.group, j) implies d.group[k].1 + delta
            + clips[d.group[k].0 as int].duration() <= (#[trigger] clips[j]).offset_secs
            || clips[j].end() <= d.group[k].1 + delta by {
            assert(!indices.contains(j as usize)) by {
                if indices.contains(j as usize) {
                    let m = choose|m: int| 0 <= m < indices.len() && indices[m] == j as usize;
                    assert(d.group[m].0 == j);
                }
            }
            crate::drag::lemma_is_other(clips, indices, j);
            let i = choose|i: int| 0 <= i < rest.len() && rest[i] == clips[j];
            assert(!rest[i].overlaps(
                members[k].offset + delta,
                members[k].offset + delta + members[k].duration,
            ));
        }
    }
}

/// Whether clip `j` is in the group.
pub open spec fn listed(group: Seq<(usize, Secs)>, j: int) -> bool {
    exists|k: int| 0 <= k < group.len() && (#[trigger] group[k]).0 == j
}

/// Whether a clip that lasts `dur` can lie at `x` beside every clip that is not in the group.
pub open spec fn has_room_beside(
    clips: Seq<ClipView>,
    group: Seq<(usize, Secs)>,
    x: int,
    dur: int,
) -> bool {
    forall|j: int|
        0 <= j < clips.len() && !listed(group, j) ==> x + dur <= (#[trigger] clips[j]).offset_secs
            || clips[j].end() <= x
}

proof fn lemma_not_listed(group: Seq<(usize, Secs)>, j: int)
    requires
        0 <= j <= usize::MAX,
        !crate::drag::group_indices(group).contains(j as usize),
    ensures
        !listed(group, j),
{
    if listed(group, j) {
        let k = choose|k: int| 0 <= k < group.len() && (#[trigger] group[k]).0 == j;
        assert(crate::drag::group_indices(group)[k] == j as usize);
    }
}

} // verus!
