//! What is seen and pointed at: the view of the timeline, the lanes, the selection.

use vstd::prelude::*;
use crate::app::{AppView, Px, SelectionEdge};
use crate::time::Secs;

verus! {

/// Whether `q` is `n / d`, rounded down.
pub open spec fn is_share(q: int, n: int, d: int) -> bool {
    q * d <= n < (q + 1) * d
}

proof fn lemma_share_of(n: int, d: int)
    requires
        d > 0,
    ensures
        is_share(n / d, n, d),
{
    let q = n / d;
    vstd::arithmetic::div_mod::lemma_fundamental_div_mod(n, d);
    vstd::arithmetic::div_mod::lemma_mod_bound(n, d);
    assert(q * d <= n < (q + 1) * d) by (nonlinear_arith)
        requires
            n == d * q + n % d,
            0 <= n % d < d,
    ;
}

/// The width beside the track label column, which is 36 logical pixels wide.
pub open spec fn lane_width(v: AppView) -> int {
    v.config->0.width * 256 - 36 * v.scale
}

/// The view fills the window beside the track label column: a point is shown as far into the view as it
/// is across the lane. The left end of the lane shows the start of the view, and the right end its end.
pub proof fn law_the_view_fills_the_window(v: AppView, px: int)
    requires
        v.config is Some,
        lane_width(v) > 0,
        px >= 36 * v.scale,
        v.px_to_secs(px) < i64::MAX,
    ensures
        ({
            let t = v.px_to_secs(px) - v.view_start;
            let x = px - 36 * v.scale;
            let view = v.effective_view_duration();
            &&& (t - 1) * lane_width(v) < x * view <= t * lane_width(v)
            &&& px == 36 * v.scale ==> t == 0
            &&& px == v.config->0.width * 256 ==> t == view
        }),
        forall|q: int| q < 36 * v.scale ==> #[trigger] v.px_to_secs(q) == v.view_start,
{
    crate::motion::lemma_view_is_natural(v);
    let w = lane_width(v);
    let view = v.effective_view_duration() as int;
    let x = px - 36 * v.scale;
    let n = x * view + w - 1;
    lemma_share_of(n, w);
    let t = n / w;
    assert(v.content_width() == w);
    assert(x * view >= 0) by (nonlinear_arith)
        requires
            x >= 0,
            view >= 0,
    ;
    assert((t - 1) * w == t * w - w && (t + 1) * w == t * w + w) by (nonlinear_arith);
    vstd::arithmetic::div_mod::lemma_div_pos_is_pos(n, w);
    if x == w {
        assert(t == view) by (nonlinear_arith)
            requires
                (t - 1) * w < w * view <= t * w,
                w > 0,
        ;
    }
    if x == 0 {
        assert(x * view == 0) by (nonlinear_arith)
            requires
                x == 0,
        ;
        assert(t == 0) by (nonlinear_arith)
            requires
                (t - 1) * w < 0 <= t * w,
                w > 0,
        ;
    }
}

/// A time is shown as far across the lane as it is into the view.
pub proof fn law_a_time_is_shown_where_it_is(v: AppView, t: int)
    requires
        v.config is Some,
    ensures
        v.effective_view_duration() == 0 ==> v.secs_to_px(t) is None,
        v.effective_view_duration() > 0 ==> v.secs_to_px(t) is Some && is_share(
            v.secs_to_px(t)->0 - 36 * v.scale,
            (t - v.view_start) * lane_width(v),
            v.effective_view_duration() as int,
        ),
{
    if v.effective_view_duration() > 0 {
        lemma_share_of(
            (t - v.view_start) * lane_width(v),
            v.effective_view_duration() as int,
        );
    }
}

/// Whether `r` is where a view starts that shows `view` and is asked to start `moved / w` later than
/// `from`: there, or as near as the timeline goes.
pub open spec fn starts_at(r: int, from: int, moved: int, w: int, view: int, max: int) -> bool {
    let last = if max > view {
        max - view
    } else {
        0
    };
    &&& 0 <= r <= last
    &&& r > 0 ==> (r - from) * w <= moved
    &&& r < last ==> moved < (r - from + 1) * w
}

proof fn lemma_viewed(v: AppView, moved: int, w: int, view: Secs)
    requires
        w > 0,
        view >= 0,
    ensures
        starts_at(
            v.viewed(v.view_start + moved / w, view).view_start as int,
            v.view_start as int,
            moved,
            w,
            view as int,
            v.max_duration() as int,
        ),
{
    crate::motion::lemma_view_is_natural(v);
    let q = moved / w;
    lemma_share_of(moved, w);
    let r = v.viewed(v.view_start + q, view).view_start as int;
    let e = r - v.view_start;
    if e < q {
        assert(e * w <= q * w) by (nonlinear_arith)
            requires
                e <= q,
                w > 0,
        ;
    }
    if e > q {
        assert((q + 1) * w <= (e + 1) * w) by (nonlinear_arith)
            requires
                q <= e,
                w > 0,
        ;
    }
}

/// Scrolling moves the view along the timeline by as much as the wheel moves across the window, against
/// the movement of the wheel, as far as the timeline goes. The sideways movement counts, and, with the
/// shift key and without one, the other. Nothing else changes.
pub proof fn law_scrolling_moves_the_view(v: AppView, dx: int, dy: int)
    requires
        v.config matches Some(s) && s.width > 0,
        v.tracks.len() > 0,
    ensures
        ({
            let w = v.panned(dx, dy);
            let amount = if dx != 0 {
                dx
            } else if v.shift_key {
                dy
            } else {
                0
            };
            let r = w.view_start as int;
            let view = v.effective_view_duration() as int;
            &&& w == (AppView { view_start: w.view_start, ..v })
            &&& amount == 0 ==> w == v
            &&& amount != 0 ==> starts_at(
                r,
                v.view_start as int,
                -amount * view,
                v.config->0.width * 256,
                view,
                v.max_duration() as int,
            )
            &&& amount > 0 && v.view_start >= 0 ==> r <= v.view_start
            &&& amount < 0 && v.view_start + view <= v.max_duration() ==> r >= v.view_start
        }),
{
    crate::motion::lemma_view_is_natural(v);
    let amount = if dx != 0 {
        dx
    } else if v.shift_key {
        dy
    } else {
        0
    };
    let view = v.effective_view_duration();
    let w = v.config->0.width * 256;
    if amount != 0 {
        let n = -amount * view;
        lemma_viewed(v, n, w, view);
        lemma_share_of(n, w);
        let q = n / w;
        if amount > 0 {
            assert(n <= 0) by (nonlinear_arith)
                requires
                    n == -amount * view,
                    amount > 0,
                    view >= 0,
            ;
            assert(q <= 0) by (nonlinear_arith)
                requires
                    q * w <= n,
                    n <= 0,
                    w > 0,
            ;
        } else {
            assert(n >= 0) by (nonlinear_arith)
                requires
                    n == -amount * view,
                    amount < 0,
                    view >= 0,
            ;
            assert(q >= 0) by (nonlinear_arith)
                requires
                    n < (q + 1) * w,
                    n >= 0,
                    w > 0,
            ;
        }
    }
}

/// Zooming by `num / den` divides the stretch that is shown by that factor, but shows no less than a
/// hundredth of a second and no more than the timeline. The time at the pointer stays at the pointer, as
/// far as the timeline goes: what is shown to its left shrinks or grows in proportion. Nothing else
/// changes.
pub proof fn law_zooming_keeps_what_is_at_the_pointer(v: AppView, num: int, den: int)
    requires
        v.config matches Some(s) && s.width > 0,
        v.tracks.len() > 0,
        v.max_duration() >= 7_056_000,
        num > 0,
        den > 0,
    ensures
        ({
            let w = v.zoomed(num, den);
            let view = v.effective_view_duration() as int;
            let new = w.view_duration as int;
            &&& w == (AppView { view_start: w.view_start, view_duration: w.view_duration, ..v })
            &&& 7_056_000 <= new <= v.max_duration()
            &&& new > 7_056_000 ==> new * num <= view * den
            &&& new < v.max_duration() ==> view * den < (new + 1) * num
            &&& num >= den && view >= 7_056_000 ==> new <= view
            &&& num <= den && view <= v.max_duration() ==> new >= view
            &&& starts_at(
                w.view_start as int,
                v.view_start as int,
                v.cursor_x * (view - new),
                v.config->0.width * 256,
                new,
                v.max_duration() as int,
            )
        }),
{
    crate::motion::lemma_view_is_natural(v);
    let view = v.effective_view_duration() as int;
    let new = v.zoomed_duration(num, den);
    let q = view * den / num;
    lemma_share_of(view * den, num);
    lemma_viewed(v, v.cursor_x * (view - new), v.config->0.width * 256, new);
    if new < q {
        assert(new * num <= q * num) by (nonlinear_arith)
            requires
                new <= q,
                num > 0,
        ;
    }
    if new > q {
        assert((q + 1) * num <= (new + 1) * num) by (nonlinear_arith)
            requires
                q <= new,
                num > 0,
        ;
    }
    if num >= den {
        assert(q <= view) by (nonlinear_arith)
            requires
                q * num <= view * den,
                den <= num,
                num > 0,
                view >= 0,
        ;
    }
    if num <= den {
        assert(q >= view) by (nonlinear_arith)
            requires
                view * den < (q + 1) * num,
                den >= num,
                num > 0,
                view >= 0,
        ;
    }
}

/// The wheel zooms by half a percent for each pixel, and a pinch by as much as the fingers move apart,
/// counted in millionths: a wheel that goes up and fingers that go apart magnify, and show less.
pub proof fn law_wheel_and_pinch_zoom(v: AppView, dy: int, delta: int)
    requires
        v.config matches Some(s) && s.width > 0,
        v.tracks.len() > 0,
        v.max_duration() >= 7_056_000,
        7_056_000 <= v.effective_view_duration() <= v.max_duration(),
        -200 * 256 < dy,
        -1_000_000 < delta,
    ensures
        ({
            let view = v.effective_view_duration() as int;
            let wheel = v.wheel_zoomed(dy).view_duration as int;
            let pinch = v.pinched(delta).view_duration as int;
            &&& dy >= 0 ==> wheel <= view
            &&& dy <= 0 ==> wheel >= view
            &&& delta >= 0 ==> pinch <= view
            &&& delta <= 0 ==> pinch >= view
            &&& 7_056_000 < wheel < v.max_duration() ==> wheel * (51_200 + dy) <= view * 51_200 < (wheel
                + 1) * (51_200 + dy)
            &&& 7_056_000 < pinch < v.max_duration() ==> pinch * (1_000_000 + delta) <= view * 1_000_000
                < (pinch + 1) * (1_000_000 + delta)
        }),
{
    law_zooming_keeps_what_is_at_the_pointer(v, 51_200 + dy, 51_200);
    law_zooming_keeps_what_is_at_the_pointer(v, 1_000_000 + delta, 1_000_000);
}

/// The lanes share the height of the window: a height is in the lane that it lies in, the first above
/// the window; below all lanes there is none.
pub proof fn law_lanes_share_the_window(v: AppView, py: int, t: usize)
    requires
        v.config matches Some(s) && s.height > 0,
        v.tracks.len() <= usize::MAX,
    ensures
        ({
            let n = v.tracks.len() as int;
            let h = v.config->0.height * 256;
            v.lane_hit(py) == Some(t) <==> t < n && if py <= 0 {
                t == 0
            } else {
                t * h <= py * n < (t + 1) * h
            }
        }),
{
    let n = v.tracks.len() as int;
    let h = v.config->0.height * 256;
    crate::drag::lemma_lane_is_natural(py, n, v.config->0.height as int);
    if py > 0 {
        lemma_share_of(py * n, h);
        let q = py * n / h;
        if t * h <= py * n < (t + 1) * h {
            assert(q == t) by (nonlinear_arith)
                requires
                    t * h <= py * n < (t + 1) * h,
                    q * h <= py * n < (q + 1) * h,
                    h > 0,
            ;
        }
    }
}

/// A point hits the first clip of its lane that covers the time at the point; it hits nothing on the
/// track label column, or where no clip of the lane covers the time. It hits the title bar of the clip
/// if it is also less than 28 logical pixels below the top of the lane.
pub proof fn law_a_point_hits_the_clip_under_it(v: AppView, px: int, py: int, t: usize)
    requires
        v.config matches Some(s) && s.height > 0,
        v.tracks.len() <= usize::MAX,
        v.lane_hit(py) == Some(t),
        v.tracks[t as int].clips.len() <= usize::MAX,
    ensures
        ({
            let at = v.px_to_secs(px);
            let clips = v.tracks[t as int].clips;
            &&& match v.hit_test_clip(px, py) {
                Some((u, c)) => {
                    &&& u == t
                    &&& px >= 36 * v.scale
                    &&& c < clips.len()
                    &&& clips[c as int].offset_secs <= at <= clips[c as int].end()
                    &&& forall|j: int|
                        0 <= j < c ==> at < (#[trigger] clips[j]).offset_secs || clips[j].end() < at
                },
                None => px < 36 * v.scale || forall|j: int|
                    0 <= j < clips.len() ==> at < (#[trigger] clips[j]).offset_secs || clips[j].end()
                        < at,
            }
            &&& v.hit_test_title_bar(px, py) == if (py - 28 * v.scale) * v.tracks.len() < t * (
            v.config->0.height * 256) {
                v.hit_test_clip(px, py)
            } else {
                None
            }
        }),
{
    crate::geometry::law_clip_at(v.tracks[t as int].clips, v.px_to_secs(px) as int);
}

/// How far a point is from where time `t` is shown, counted across the lane times the length of the view.
pub open spec fn gap(v: AppView, px: int, t: Secs) -> int {
    let d = (px - 36 * v.scale) * v.effective_view_duration() - (t - v.view_start) * lane_width(v);
    if d >= 0 {
        d
    } else {
        -d
    }
}

/// An edge of the selection is grabbed within six pixels of it; of two edges within reach, the nearer
/// one, and the left one of equally near ones.
pub proof fn law_the_nearer_edge_is_grabbed(v: AppView, px: int, a: Secs, b: Secs)
    requires
        v.config is Some,
        v.selection == Some((a, b)),
        v.effective_view_duration() > 0,
    ensures
        ({
            let reach = 6 * 256 * v.effective_view_duration();
            match v.selection_edge_at(px) {
                Some(SelectionEdge::Left) => gap(v, px, a) <= reach && gap(v, px, a) <= gap(v, px, b),
                Some(SelectionEdge::Right) => gap(v, px, b) <= reach && gap(v, px, b) < gap(v, px, a),
                None => gap(v, px, a) > reach && gap(v, px, b) > reach,
            }
        }),
{
}

/// Pressing the button on a lane, moving the pointer and letting go selects the stretch between the two
/// times that were pointed at, the earlier one first, whichever way the pointer went. With it the clips
/// of the track are selected that overlap the stretch. A stretch of less than four pixels is a click,
/// which selects nothing.
pub proof fn law_dragging_selects_what_is_between(v: AppView, px: Px, py: Px, t: usize)
    requires
        v.config is Some,
        v.body_pressed().selected_track == Some(t),
        t < v.tracks.len(),
        v.tracks[t as int].clips.len() <= usize::MAX,
    ensures
        ({
            let a = v.px_to_secs(v.cursor_x as int);
            let b = v.px_to_secs(px as int);
            let w = v.body_pressed().cursor_moved(px, py).released();
            let clips = v.tracks[t as int].clips;
            let far = if a <= b {
                b - a
            } else {
                a - b
            };
            &&& !w.selecting
            &&& w.tracks == v.tracks
            &&& w.selected_track == Some(t)
            &&& if far * v.config->0.width < 4 * v.effective_view_duration() {
                w.selection is None && w.multi_selected_clips.len() == 0
            } else {
                &&& w.selection == Some(
                    if a <= b {
                        (a, b)
                    } else {
                        (b, a)
                    },
                )
                &&& forall|i: int|
                    0 <= i < clips.len() ==> (w.multi_selected_clips.contains(i as usize) <==> (
                    #[trigger] clips[i]).offset_secs < (w.selection->0).1 && (w.selection->0).0
                        < clips[i].end())
            }
        }),
{
    let a = v.px_to_secs(v.cursor_x as int);
    let b = v.px_to_secs(px as int);
    let p = v.body_pressed();
    let q = p.cursor_moved(px, py);
    assert(p.dragging is None);
    assert(q.px_to_secs(px as int) == b);
    assert(q.selection == Some((a, b)));
    assert(q.tracks == v.tracks);
    assert(q.effective_view_duration() == v.effective_view_duration());
    let (s0, s1) = if a <= b {
        (a, b)
    } else {
        (b, a)
    };
    let clips = v.tracks[t as int].clips;
    assert(crate::region::clips_of(q, t) == clips);
    crate::region::law_overlapping(clips, s0 as int, s1 as int);
}

/// Dragging the left edge of the selection moves its first time to the pointer, and dragging the right
/// edge its second; the other one stays.
pub proof fn law_dragging_an_edge_moves_that_edge(v: AppView, px: Px, py: Px, a: Secs, b: Secs)
    requires
        v.selecting,
        v.selection == Some((a, b)),
        v.dragging is None,
    ensures
        v.cursor_moved(px, py).selection == Some(
            if v.selecting_edge == Some(SelectionEdge::Left) {
                (v.px_to_secs(px as int), b)
            } else {
                (a, v.px_to_secs(px as int))
            },
        ),
        v.cursor_moved(px, py).tracks == v.tracks,
{
    assert((AppView { cursor_x: px, cursor_y: py, ..v }).px_to_secs(px as int) == v.px_to_secs(
        px as int,
    ));
}

/// A click with the command key or the shift key adds a clip of the selected track to the selected
/// clips, or takes it away from them; the other selected clips stay, and the clip that was selected
/// before is one of them. On another track the click starts anew.
pub proof fn law_a_gathering_click_adds_or_takes_away(v: AppView, t: usize, c: usize, i: usize)
    requires
        v.click_gathers(),
        v.multi_selected_clips.no_duplicates(),
    ensures
        ({
            let before = v.multi_selected_clips;
            let after = v.title_pressed(t, c).multi_selected_clips;
            &&& v.title_pressed(t, c).selected_track == Some(t)
            &&& v.title_pressed(t, c).selected_clip == Some(c)
            &&& v.title_pressed(t, c).tracks == v.tracks
            &&& v.selected_track != Some(t) ==> (after.contains(i) <==> i == c)
            &&& v.selected_track == Some(t) && i == c ==> after.contains(i) != before.contains(i)
            &&& v.selected_track == Some(t) && i != c ==> (after.contains(i) <==> before.contains(i)
                || v.selected_clip == Some(i))
        }),
{
    let before = v.multi_selected_clips;
    let after = v.title_pressed(t, c).multi_selected_clips;
    if v.selected_track == Some(t) {
        let mid = crate::pointer::toggled(before, c);
        assert(mid.contains(c) != before.contains(c) && (i != c ==> (mid.contains(i)
            <==> before.contains(i)))) by {
            if before.contains(c) {
                let k = crate::pointer::place_of(before, c);
                assert(0 <= k < before.len() && before[k] == c);
                assert(mid == before.remove(k));
                if mid.contains(c) {
                    let j = choose|j: int| 0 <= j < mid.len() && mid[j] == c;
                    let m = if j < k {
                        j
                    } else {
                        j + 1
                    };
                    assert(before[m] == c && m != k);
                }
                if before.contains(i) && i != c {
                    let j = choose|j: int| 0 <= j < before.len() && before[j] == i;
                    if j < k {
                        assert(mid[j] == i);
                    } else {
                        assert(mid[j - 1] == i);
                    }
                }
                if mid.contains(i) {
                    let j = choose|j: int| 0 <= j < mid.len() && mid[j] == i;
                    if j < k {
                        assert(before[j] == i);
                    } else {
                        assert(before[j + 1] == i);
                    }
                }
            } else {
                assert(mid[before.len() as int] == c);
                if before.contains(i) {
                    let j = choose|j: int| 0 <= j < before.len() && before[j] == i;
                    assert(mid[j] == i);
                }
                if mid.contains(i) && i != c {
                    let j = choose|j: int| 0 <= j < mid.len() && mid[j] == i;
                    assert(before[j] == i);
                }
            }
        }
        if after.len() > mid.len() {
            assert(after[mid.len() as int] == v.selected_clip->0);
            if mid.contains(i) {
                let j = choose|j: int| 0 <= j < mid.len() && mid[j] == i;
                assert(after[j] == i);
            }
            if mid.contains(c) {
                let j = choose|j: int| 0 <= j < mid.len() && mid[j] == c;
                assert(after[j] == c);
            }
            if after.contains(i) && i != v.selected_clip->0 {
                let j = choose|j: int| 0 <= j < after.len() && after[j] == i;
                assert(mid[j] == i);
            }
        }
    } else {
        assert(after[0] == c);
    }
}

/// A press on a title bar takes hold of the clip where it is, or of all selected clips if it is one of
/// several. Nothing moves until the pointer has gone four pixels from where the button was pressed.
pub proof fn law_a_press_takes_hold(v: AppView, t: usize, c: usize)
    requires
        !v.click_gathers(),
        v.has_clip(t, c),
        v.multi_selection_in(t),
    ensures
        ({
            let w = v.title_pressed(t, c);
            let d = w.dragging->0;
            let clips = v.tracks[t as int].clips;
            let several = v.multi_selected_clips.len() > 1 && v.multi_selected_clips.contains(c);
            &&& w.dragging is Some
            &&& w.tracks == v.tracks
            &&& d.current_track_idx == t && d.clip_idx == c && d.source_track_idx == t
                && d.source_clip_idx == c
            &&& d.start_x == v.cursor_x && d.start_y == v.cursor_y && !d.active
            &&& w.selected_track == Some(t) && w.selected_clip == Some(c)
            &&& !several ==> d.group.len() == 0 && d.start_offset == clips[c as int].offset_secs
            &&& several ==> {
                &&& d.group.len() == v.multi_selected_clips.len()
                &&& forall|k: int|
                    0 <= k < d.group.len() ==> #[trigger] d.group[k] == (
                        v.multi_selected_clips[k],
                        clips[v.multi_selected_clips[k] as int].offset_secs,
                    )
                &&& forall|k: int|
                    0 <= k < d.group.len() ==> d.start_offset <= (#[trigger] d.group[k]).1
                &&& exists|k: int| 0 <= k < d.group.len() && (#[trigger] d.group[k]).1 == d.start_offset
            }
        }),
{
    let clips = v.tracks[t as int].clips;
    if v.multi_selected_clips.len() > 1 && v.multi_selected_clips.contains(c) {
        lemma_group_start(crate::pointer::group_of(clips, v.multi_selected_clips));
    }
}

proof fn lemma_group_start(group: Seq<(usize, Secs)>)
    requires
        group.len() > 0,
    ensures
        i64::MIN <= crate::pointer::group_start(group) <= i64::MAX,
        forall|k: int|
            0 <= k < group.len() ==> crate::pointer::group_start(group) <= (#[trigger] group[k]).1,
        exists|k: int|
            0 <= k < group.len() && (#[trigger] group[k]).1 == crate::pointer::group_start(group),
    decreases group.len(),
{
    let n = group.len() - 1;
    let all = crate::pointer::group_start(group);
    if n > 0 {
        let g = group.drop_last();
        lemma_group_start(g);
        assert forall|k: int| 0 <= k < group.len() implies all <= (#[trigger] group[k]).1 by {
            if k < n {
                assert(g[k] == group[k]);
            }
        }
        if all == group[n].1 {
            assert(group[n].1 == all);
        } else {
            let k = choose|k: int|
                0 <= k < g.len() && (#[trigger] g[k]).1 == crate::pointer::group_start(g);
            assert(group[k] == g[k]);
        }
    } else {
        assert(group[0].1 == all);
    }
}

/// A press becomes a drag once the pointer is four pixels or more from where the button was pressed, in
/// whatever direction. Before that nothing moves.
pub proof fn law_a_drag_begins_four_pixels_away(v: AppView, px: Px, py: Px)
    requires
        v.dragging matches Some(d) && !d.active,
    ensures
        ({
            let d = v.dragging->0;
            let dx = px - d.start_x;
            let dy = py - d.start_y;
            let w = v.cursor_moved(px, py);
            dx * dx + dy * dy < 1024 * 1024 ==> w.tracks == v.tracks && w.dragging == v.dragging
        }),
        ({
            let d = v.dragging->0;
            let dx = px - d.start_x;
            let dy = py - d.start_y;
            dx * dx + dy * dy >= 1024 * 1024 ==> v.pointed(px, py).is_dragging()
        }),
{
}

/// What was dragged stays where it is when it is let go, and is selected. A track that the drag of a
/// single clip has left empty goes; no other track changes.
pub proof fn law_letting_go_keeps_the_place(v: AppView)
    requires
        v.dragging matches Some(d) && d.active && v.can_drop(d) && (d.group.len() > 0 ==> d.clip_idx
            < v.tracks[d.current_track_idx as int].clips.len()),
    ensures
        ({
            let w = v.drag_ended();
            let d = v.dragging->0;
            let emptied = d.group.len() == 0 && d.source_track_idx < v.tracks.len()
                && v.tracks[d.source_track_idx as int].clips.len() == 0;
            &&& w.dragging is None
            &&& w.tracks == if emptied {
                v.tracks.remove(d.source_track_idx as int)
            } else {
                v.tracks
            }
            &&& w.selected_track is Some && w.selected_clip is Some
            &&& w.has_clip(w.selected_track->0, w.selected_clip->0)
            &&& w.tracks[w.selected_track->0 as int].clips[w.selected_clip->0 as int]
                == v.tracks[d.current_track_idx as int].clips[d.clip_idx as int]
        }),
{
}

/// What is shown is what was zoomed to, or the whole timeline.
pub proof fn law_the_whole_timeline_is_shown_at_first(v: AppView)
    ensures
        v.view_duration > 0 ==> v.effective_view_duration() == v.view_duration,
        v.view_duration <= 0 ==> v.effective_view_duration() == v.max_duration(),
        v.zoomed_out().effective_view_duration() == v.max_duration(),
        v.zoomed_out().view_start == 0,
{
    crate::motion::lemma_view_is_natural(v);
    assert(v.zoomed_out().max_duration() == v.max_duration());
}

/// A press beside the title bars and the edges of the selection moves the playhead to the time that was
/// pointed at, and begins a selection there. It selects the clip at the point and its track; where there
/// is no clip, the track of the lane.
pub proof fn law_a_press_on_a_lane_seeks_and_selects(v: AppView)
    requires
        v.hit_test_title_bar(v.cursor_x as int, v.cursor_y as int) is None,
        v.selection_edge_at(v.cursor_x as int) is None,
        v.config matches Some(s) ==> s.height > 0,
        v.tracks.len() <= usize::MAX,
    ensures
        ({
            let w = v.pressed();
            let at = v.px_to_secs(v.cursor_x as int);
            &&& v.press_seeks() == if v.max_duration() > 0 {
                Some(at)
            } else {
                None
            }
            &&& w.selection == Some((at, at))
            &&& w.selecting
            &&& w.selecting_edge is None
            &&& w.dragging is None
            &&& w.multi_selected_clips.len() == 0
            &&& w.tracks == v.tracks
            &&& match v.hit_test_clip(v.cursor_x as int, v.cursor_y as int) {
                Some((t, c)) => w.selected_track == Some(t) && w.selected_clip == Some(c),
                None => w.selected_clip is None && (v.lane_hit(v.cursor_y as int) is Some
                    ==> w.selected_track == v.lane_hit(v.cursor_y as int)) && (v.lane_hit(
                    v.cursor_y as int,
                ) is None && v.config is Some && v.tracks.len() > 0 ==> w.selected_track == Some(
                    (v.tracks.len() - 1) as usize,
                )),
            }
        }),
{
    crate::motion::lemma_view_is_natural(v);
    if v.config is Some {
        crate::drag::lemma_lane_is_natural(
            v.cursor_y as int,
            v.tracks.len() as int,
            v.config->0.height as int,
        );
    }
}

/// A press on a title bar or on an edge of the selection leaves the playhead where it is; on an edge it
/// takes hold of that edge.
pub proof fn law_a_press_on_an_edge_takes_hold_of_it(v: AppView)
    requires
        v.hit_test_title_bar(v.cursor_x as int, v.cursor_y as int) is Some || v.selection_edge_at(
            v.cursor_x as int,
        ) is Some,
    ensures
        v.press_seeks() is None,
        v.pressed().tracks == v.tracks,
        match v.hit_test_title_bar(v.cursor_x as int, v.cursor_y as int) {
            Some((t, c)) => v.pressed() == v.title_pressed(t, c) && !v.pressed().selecting,
            None => v.pressed().selecting && v.pressed().selecting_edge == v.selection_edge_at(
                v.cursor_x as int,
            ) && v.pressed().selection == v.selection,
        },
{
}

/// The pointer shows what it does: it grabs what it drags, offers to grab a title bar, offers to move an
/// edge of the selection, or selects.
pub proof fn law_the_pointer_shows_what_it_does(v: AppView, px: Px, py: Px)
    ensures
        ({
            let w = v.pointed(px, py);
            let over_title = w.hit_test_title_bar(px as int, py as int) is Some;
            let on_edge = w.selection_edge_at(px as int) is Some;
            let shape = v.cursor_shape(px, py);
            &&& w.cursor_x == px && w.cursor_y == py
            &&& shape == crate::pointer::CursorShape::Grabbing <==> w.is_dragging()
            &&& shape == crate::pointer::CursorShape::Grab <==> !w.is_dragging() && over_title
            &&& shape == crate::pointer::CursorShape::EwResize <==> !w.is_dragging() && !over_title
                && on_edge
        }),
{
}

/// A deletion leaves no view beyond the end of the timeline.
pub proof fn law_the_view_shrinks_with_the_timeline(v: AppView)
    ensures
        ({
            let w = v.view_clamped();
            &&& w.view_duration <= v.max_duration() || w.view_duration == v.view_duration
            &&& v.view_duration <= v.max_duration() ==> w.view_duration == v.view_duration
            &&& v.view_duration > v.max_duration() ==> w.view_duration == v.max_duration()
            &&& 0 <= w.view_start
            &&& v.view_duration >= 0 ==> w.view_start + w.view_duration <= v.max_duration()
            &&& 0 <= v.view_start && v.view_start + v.view_duration <= v.max_duration()
                && v.view_duration >= 0 ==> w == v
            &&& w.tracks == v.tracks
        }),
{
    crate::motion::lemma_view_is_natural(v);
}

/// A time snaps to the nearest edge of a clip of the track within ten pixels, and stays where there is
/// none.
pub proof fn law_a_time_snaps_to_an_edge(v: AppView, t: usize, secs: Secs)
    requires
        v.config matches Some(s) && s.width > 0,
        t < v.tracks.len(),
        v.snap_to_clip_edges(t, secs) < i64::MAX,
    ensures
        ({
            let r = v.snap_to_clip_edges(t, secs) as int;
            let clips = v.tracks[t as int].clips;
            let width = v.config->0.width as int;
            let view = v.effective_view_duration() as int;
            &&& r != secs ==> crate::motion::near(r, secs as int, width, view) && exists|i: int|
                0 <= i < clips.len() && (r == (#[trigger] clips[i]).offset_secs || r == clips[i].end())
            &&& forall|i: int|
                0 <= i < clips.len() && crate::motion::near(
                    (#[trigger] clips[i]).offset_secs as int,
                    secs as int,
                    width,
                    view,
                ) ==> crate::motion::no_farther(r, clips[i].offset_secs as int, secs as int)
            &&& forall|i: int|
                0 <= i < clips.len() && crate::motion::near(
                    (#[trigger] clips[i]).end(),
                    secs as int,
                    width,
                    view,
                ) ==> crate::motion::no_farther(r, clips[i].end(), secs as int)
        }),
{
    let clips = v.tracks[t as int].clips;
    let width = v.config->0.width as int;
    let view = v.effective_view_duration() as int;
    let targets = crate::placement::edges(clips);
    let r = crate::placement::snapped(targets, secs as int, width, view);
    crate::motion::lemma_view_is_natural(v);
    crate::placement::law_snaps_to_nearest(targets, secs as int, width, view);
    lemma_edges(clips);
    if crate::placement::any_in_reach(targets, secs as int, width, view) {
        let k = choose|k: int| 0 <= k < targets.len() && targets[k] == r;
        assert(targets[2 * (k / 2)] == clips[k / 2].offset_secs);
        crate::motion::lemma_near(r, secs as int, width, view);
    }
    assert forall|i: int| 0 <= i < clips.len() implies (crate::motion::near(
        (#[trigger] clips[i]).offset_secs as int,
        secs as int,
        width,
        view,
    ) ==> crate::motion::no_farther(r, clips[i].offset_secs as int, secs as int)) && (
    crate::motion::near(clips[i].end(), secs as int, width, view) ==> crate::motion::no_farther(
        r,
        clips[i].end(),
        secs as int,
    )) by {
        crate::motion::lemma_near(clips[i].offset_secs as int, secs as int, width, view);
        crate::motion::lemma_near(clips[i].end(), secs as int, width, view);
        assert(targets[2 * i] == clips[i].offset_secs);
        assert(targets[2 * i + 1] == clips[i].end());
    }
}

proof fn lemma_edges(clips: Seq<crate::audio::ClipView>)
    ensures
        crate::placement::edges(clips).len() == 2 * clips.len(),
        forall|i: int|
            0 <= i < clips.len() ==> crate::placement::edges(clips)[2 * i] == (
            #[trigger] clips[i]).offset_secs && crate::placement::edges(clips)[2 * i + 1]
                == clips[i].end(),
    decreases clips.len(),
{
    if clips.len() > 0 {
        let d = clips.drop_last();
        lemma_edges(d);
        let less = crate::placement::edges(d);
        let all = crate::placement::edges(clips);
        assert forall|i: int| 0 <= i < clips.len() implies all[2 * i] == (
        #[trigger] clips[i]).offset_secs && all[2 * i + 1] == clips[i].end() by {
            if i < d.len() {
                assert(d[i] == clips[i]);
                assert(all[2 * i] == less[2 * i] && all[2 * i + 1] == less[2 * i + 1]);
            }
        }
    }
}

/// A press on one of several selected clips that is let go without a drag selects that clip alone; no
/// clip moves.
pub proof fn law_a_click_on_a_group_selects_one(v: AppView)
    requires
        v.dragging matches Some(d) && !d.active,
    ensures
        ({
            let w = v.drag_ended();
            let d = v.dragging->0;
            &&& w.dragging is None
            &&& w.tracks == v.tracks
            &&& d.group.len() > 0 ==> w.multi_selected_clips.len() == 0 && w.selected_track == Some(
                d.current_track_idx,
            ) && w.selected_clip == Some(d.clip_idx)
            &&& d.group.len() == 0 ==> w == (AppView { dragging: None, ..v })
        }),
{
}

/// Once a drag is under way, every move of the pointer takes what is dragged along, to where the pointer
/// is; without a drag no move of the pointer changes a track.
pub proof fn law_a_moving_pointer_drags(v: AppView, px: Px, py: Px)
    ensures
        (v.dragging matches Some(d) && d.active) && !v.selecting ==> v.cursor_moved(px, py) == (AppView {
            cursor_x: px,
            cursor_y: py,
            ..v
        }).dragged(px as int, py as int),
        v.dragging is None ==> v.cursor_moved(px, py).tracks == v.tracks,
        v.cursor_moved(px, py).cursor_x == px,
        v.cursor_moved(px, py).cursor_y == py,
{
}

} // verus!
