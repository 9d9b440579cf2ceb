//! Where things are in the window: from pixels to times, lanes, clips and the edges of the
//! selection.

use vstd::prelude::*;
use crate::app::{
    App, AppView, Px, SelectionEdge, SurfaceSize, SELECTION_EDGE_PX, SUBPX, TITLE_BAR_LP,
    TRACK_LABEL_LP,
};
use crate::audio::{Clip, ClipView};
use crate::time::{to_index, to_secs, Secs};

verus! {

/// The lane that height `py` is in, of `n` lanes that fill a window of `height` pixels.
pub open spec fn lane_at(py: int, n: int, height: int) -> int {
    if py <= 0 {
        0
    } else {
        py * n / (height * SUBPX)
    }
}

/// The first of the clips that covers time `t`, its ends counted in.
pub open spec fn clip_at(clips: Seq<ClipView>, t: int) -> Option<usize>
    decreases clips.len(),
{
    if clips.len() == 0 {
        None
    } else {
        let i = clips.len() - 1;
        match clip_at(clips.drop_last(), t) {
            Some(j) => Some(j),
            None => if clips[i].offset_secs <= t <= clips[i].end() {
                Some(i as usize)
            } else {
                None
            },
        }
    }
}

/// The first clip that covers a time is the one that is found, and none is found only if none
/// covers it.
pub proof fn law_clip_at(clips: Seq<ClipView>, t: int)
    requires
        clips.len() <= usize::MAX,
    ensures
        match clip_at(clips, t) {
            Some(i) => i < clips.len() && clips[i as int].offset_secs <= t
                <= clips[i as int].end() && forall|j: int|
                0 <= j < i ==> !((#[trigger] clips[j]).offset_secs <= t <= clips[j].end()),
            None => forall|j: int|
                0 <= j < clips.len() ==> !((#[trigger] clips[j]).offset_secs <= t <= clips[j].end()),
        },
    decreases clips.len(),
{
    if clips.len() > 0 {
        let d = clips.drop_last();
        law_clip_at(d, t);
        assert forall|j: int| 0 <= j < d.len() implies d[j] == clips[j] by {}
        match clip_at(d, t) {
            Some(i) => {
                assert(d[i as int] == clips[i as int]);
                assert forall|j: int| 0 <= j < i implies !((#[trigger] clips[j]).offset_secs <= t
                    <= clips[j].end()) by {
                    assert(d[j] == clips[j]);
                }
            },
            None => {
                assert forall|j: int| 0 <= j < d.len() implies !((#[trigger] clips[j]).offset_secs
                    <= t <= clips[j].end()) by {
                    assert(d[j] == clips[j]);
                }
            },
        }
    }
}

impl AppView {
    /// The width of the track label column.
    pub open spec fn sidebar(self) -> int {
        TRACK_LABEL_LP * self.scale
    }

    /// The height of a title bar.
    pub open spec fn title_bar(self) -> int {
        TITLE_BAR_LP * self.scale
    }

    /// The width of the window beside the track label column; 0 without a window.
    pub open spec fn content_width(self) -> int {
        match self.config {
            Some(s) => s.width * SUBPX - self.sidebar(),
            None => 0,
        }
    }

    /// The time on the timeline that is shown at `px`.
    pub open spec fn px_to_secs(self, px: int) -> Secs {
        if px < self.sidebar() || self.content_width() <= 0 {
            self.view_start
        } else {
            crate::time::sat_secs(self.view_start + self.time_in_view(px - self.sidebar()))
        }
    }

    /// How far into the view the time is that is shown `x` beside the track label column: the first
    /// flick that is shown there.
    pub open spec fn time_in_view(self, x: int) -> int {
        (x * self.effective_view_duration() + self.content_width() - 1) / self.content_width()
    }

    /// Where time `t` is shown, if anything is.
    pub open spec fn secs_to_px(self, t: int) -> Option<int> {
        if self.effective_view_duration() == 0 {
            None
        } else {
            Some(
                (t - self.view_start) * self.content_width() / self.effective_view_duration() as int
                    + self.sidebar(),
            )
        }
    }

    /// How far `px` is from where time `t` is shown, counted in pixels times the length of the view.
    pub open spec fn off_by(self, px: int, t: int) -> int {
        crate::time::distance(
            (px - self.sidebar()) * self.effective_view_duration(),
            (t - self.view_start) * self.content_width(),
        )
    }

    /// The edge of the selection that is at `px`: the nearer one, if it is near enough.
    pub open spec fn selection_edge_at(self, px: int) -> Option<SelectionEdge> {
        match self.selection {
            Some((a, b)) => {
                let reach = SELECTION_EDGE_PX * SUBPX * self.effective_view_duration();
                let left = self.off_by(px, a as int);
                let right = self.off_by(px, b as int);
                if self.effective_view_duration() == 0 {
                    None
                } else if left <= reach && left <= right {
                    Some(SelectionEdge::Left)
                } else if right <= reach {
                    Some(SelectionEdge::Right)
                } else {
                    None
                }
            },
            None => None,
        }
    }

    /// The track whose lane is at height `py`, if the window shows one there.
    pub open spec fn lane_hit(self, py: int) -> Option<usize> {
        match self.config {
            Some(s) => {
                let lane = lane_at(py, self.tracks.len() as int, s.height as int);
                if lane < self.tracks.len() {
                    Some(lane as usize)
                } else {
                    None
                }
            },
            None => None,
        }
    }

    /// The clip of track `t` that covers the time at `px`.
    pub open spec fn clip_hit(self, px: int, t: usize) -> Option<(usize, usize)> {
        match clip_at(self.tracks[t as int].clips, self.px_to_secs(px) as int) {
            Some(c) => Some((t, c)),
            None => None,
        }
    }

    /// The track and the clip at a point of the window.
    pub open spec fn hit_test_clip(self, px: int, py: int) -> Option<(usize, usize)> {
        if px < self.sidebar() {
            None
        } else {
            match self.lane_hit(py) {
                Some(t) => self.clip_hit(px, t),
                None => None,
            }
        }
    }

    /// Whether height `py` is in the title bar of lane `t`: less than its height below the top.
    pub open spec fn in_title_bar(self, py: int, t: usize) -> bool {
        self.config matches Some(s) && (py - self.title_bar()) * self.tracks.len() < t * (s.height
            * SUBPX)
    }

    /// The track and the clip whose title bar is at a point of the window.
    pub open spec fn hit_test_title_bar(self, px: int, py: int) -> Option<(usize, usize)> {
        if px < self.sidebar() {
            None
        } else {
            match self.lane_hit(py) {
                Some(t) => if self.in_title_bar(py, t) {
                    self.clip_hit(px, t)
                } else {
                    None
                },
                None => None,
            }
        }
    }
}

/// Products of window and timeline measures stay in range.
proof fn lemma_product_fits(a: int, b: int, limit: int, bound: int)
    by (nonlinear_arith)
    requires
        -limit <= a <= limit,
        -bound <= b <= bound,
        limit >= 0,
        bound >= 0,
    ensures
        -(limit * bound) <= a * b <= limit * bound,
{
}

impl App {
    /// The width of the track label column.
    pub fn sidebar_width_px(&self) -> (r: i64)
        ensures
            r == self@.sidebar(),
            0 <= r <= TRACK_LABEL_LP * u16::MAX,
    {
        TRACK_LABEL_LP * self.scale as i64
    }

    /// The width of the window beside the track label column.
    pub fn content_width(&self) -> (r: i64)
        ensures
            r == self@.content_width(),
            -(TRACK_LABEL_LP * u16::MAX) <= r <= u32::MAX * SUBPX,
    {
        match self.config {
            Some(s) => s.width as i64 * SUBPX - self.sidebar_width_px(),
            None => 0,
        }
    }

    /// The time on the timeline that is shown at `px`.
    pub fn px_to_secs(&self, px: Px) -> (r: Secs)
        requires
            crate::track::tracks_ok(self@.tracks),
        ensures
            r == self@.px_to_secs(px as int),
    {
        let sidebar: i64 = self.sidebar_width_px();
        let width: i64 = self.content_width();
        if (px as i64) < sidebar || width <= 0 {
            return self.view_start;
        }
        let view: Secs = self.effective_view_duration();
        let dx: i64 = px as i64 - sidebar;
        proof {
            lemma_product_fits(dx as int, view as int, 0x1_0000_0000, i64::MAX as int);
            assert(0 <= dx * view) by (nonlinear_arith)
                requires
                    dx >= 0,
                    view >= 0,
            ;
            assert(0 <= (dx * view + width - 1) / (width as int) <= dx * view + width - 1)
                by (nonlinear_arith)
                requires
                    0 <= dx * view,
                    width > 0,
            ;
        }
        to_secs(
            self.view_start as i128 + (dx as i128 * view as i128 + width as i128 - 1)
                / width as i128,
        )
    }

    /// Where time `secs` is shown, if anything is: counted from the left edge of the window in
    /// 256ths of a pixel, rounded down.
    pub fn secs_to_px(&self, secs: Secs) -> (r: Option<i128>)
        requires
            crate::track::tracks_ok(self@.tracks),
        ensures
            match r {
                Some(px) => self@.secs_to_px(secs as int) == Some(px as int),
                None => self@.secs_to_px(secs as int) is None,
            },
    {
        let view: Secs = self.effective_view_duration();
        if view == 0 {
            return None;
        }
        let width: i64 = self.content_width();
        let dt: i128 = secs as i128 - self.view_start as i128;
        proof {
            lemma_product_fits(dt as int, width as int, 0x1_0000_0000_0000_0000, 0x100_0000_0000);
        }
        let product: i128 = dt * width as i128;
        let x: i128 = if product >= 0 {
            product / view as i128
        } else {
            -((-product + view as i128 - 1) / view as i128)
        };
        proof {
            let v = view as int;
            let p = product as int;
            if p >= 0 {
                assert((p / v) * v <= p < (p / v + 1) * v && 0 <= p / v <= p) by (nonlinear_arith)
                    requires
                        p >= 0,
                        v > 0,
                ;
            } else {
                let q = (-p + v - 1) / v;
                assert(q * v >= -p && (q - 1) * v < -p && 0 <= q <= -p) by (nonlinear_arith)
                    requires
                        p < 0,
                        v > 0,
                        q == (-p + v - 1) / v,
                ;
                assert((-q) * v == -(q * v) && (-q + 1) * v == -((q - 1) * v)) by (nonlinear_arith);
            }
            assert(p == x * v + (p - x * v) && 0 <= p - x * v < v) by {
                assert((x + 1) * v == x * v + v) by (nonlinear_arith);
            }
            vstd::arithmetic::div_mod::lemma_fundamental_div_mod_converse(p, v, x as int, p - x * v);
        }
        Some(x + self.sidebar_width_px() as i128)
    }

    /// How far `px` is from where time `t` is shown, counted in pixels times the length of the view.
    fn off_by(&self, px: Px, t: Secs, view: Secs) -> (r: i128)
        requires
            view == self@.effective_view_duration(),
            view >= 0,
        ensures
            r == self@.off_by(px as int, t as int),
    {
        let sidebar: i64 = self.sidebar_width_px();
        let width: i64 = self.content_width();
        let dx: i64 = px as i64 - sidebar;
        let dt: i128 = t as i128 - self.view_start as i128;
        proof {
            lemma_product_fits(dx as int, view as int, 0x1_0000_0000, i64::MAX as int);
            lemma_product_fits(dt as int, width as int, 0x1_0000_0000_0000_0000, 0x100_0000_0000);
        }
        let a: i128 = dx as i128 * view as i128;
        let b: i128 = dt * width as i128;
        if a >= b {
            a - b
        } else {
            b - a
        }
    }

    /// The edge of the selection that is at `px`.
    pub fn hit_test_selection_edge(&self, px: Px) -> (r: Option<SelectionEdge>)
        requires
            crate::track::tracks_ok(self@.tracks),
        ensures
            r == self@.selection_edge_at(px as int),
    {
        match self.selection {
            Some((a, b)) => {
                let view: Secs = self.effective_view_duration();
                if view == 0 {
                    return None;
                }
                assert(SELECTION_EDGE_PX * SUBPX == 1536) by (nonlinear_arith);
                let reach: i128 = SELECTION_EDGE_PX as i128 * SUBPX as i128 * view as i128;
                let left: i128 = self.off_by(px, a, view);
                let right: i128 = self.off_by(px, b, view);
                if left <= reach && left <= right {
                    Some(SelectionEdge::Left)
                } else if right <= reach {
                    Some(SelectionEdge::Right)
                } else {
                    None
                }
            },
            None => None,
        }
    }

    /// The track whose lane is at height `py`, if the window shows one there.
    fn lane_hit(&self, py: Px) -> (r: Option<usize>)
        requires
            self@.ok(),
        ensures
            r == self@.lane_hit(py as int),
    {
        let n: usize = self.tracks.len();
        match self.config {
            Some(s) => {
                let lane: usize = lane_index(py, n, s);
                if lane < n {
                    Some(lane)
                } else {
                    None
                }
            },
            None => None,
        }
    }

    /// The clip of track `t` that covers the time at `px`.
    fn clip_hit(&self, px: Px, t: usize) -> (r: Option<(usize, usize)>)
        requires
            self@.ok(),
            t < self@.tracks.len(),
        ensures
            r == self@.clip_hit(px as int, t),
    {
        assert(self@.tracks[t as int] == self.tracks@[t as int]@);
        match find_clip(&self.tracks[t].clips, self.px_to_secs(px)) {
            Some(c) => Some((t, c)),
            None => None,
        }
    }

    /// The track and the clip at a point of the window.
    pub fn hit_test_clip(&self, px: Px, py: Px) -> (r: Option<(usize, usize)>)
        requires
            self@.ok(),
        ensures
            r == self@.hit_test_clip(px as int, py as int),
    {
        if (px as i64) < self.sidebar_width_px() {
            return None;
        }
        match self.lane_hit(py) {
            Some(t) => self.clip_hit(px, t),
            None => None,
        }
    }

    /// The track and the clip whose title bar is at a point of the window.
    pub fn hit_test_title_bar(&self, px: Px, py: Px) -> (r: Option<(usize, usize)>)
        requires
            self@.ok(),
        ensures
            r == self@.hit_test_title_bar(px as int, py as int),
    {
        if (px as i64) < self.sidebar_width_px() {
            return None;
        }
        let n: usize = self.tracks.len();
        match (self.lane_hit(py), self.config) {
            (Some(t), Some(s)) => {
                let below: i64 = py as i64 - TITLE_BAR_LP * self.scale as i64;
                proof {
                    lemma_product_fits(below as int, n as int, 0x1_0000_0000, u64::MAX as int);
                    lemma_product_fits(
                        t as int,
                        s.height as int * SUBPX,
                        u64::MAX as int,
                        0x100_0000_0000,
                    );
                }
                if below as i128 * (n as i128) < t as i128 * (s.height as i128 * SUBPX as i128) {
                    self.clip_hit(px, t)
                } else {
                    None
                }
            },
            _ => None,
        }
    }
}

/// The lane that height `py` is in, of `n` lanes that fill the window.
pub fn lane_index(py: Px, n: usize, s: SurfaceSize) -> (r: usize)
    requires
        s.height > 0,
    ensures
        r == crate::time::sat_index(lane_at(py as int, n as int, s.height as int)),
{
    if py <= 0 {
        return 0;
    }
    proof {
        lemma_product_fits(py as int, n as int, i32::MAX as int, u64::MAX as int);
        lemma_product_fits(s.height as int, SUBPX as int, u32::MAX as int, 256);
    }
    to_index(py as i128 * n as i128 / (s.height as i128 * SUBPX as i128))
}

/// The first of the clips that covers time `t`.
pub fn find_clip(clips: &Vec<Clip>, t: Secs) -> (r: Option<usize>)
    requires
        crate::track::clips_ok(crate::track::clip_views(clips@)),
    ensures
        r == clip_at(crate::track::clip_views(clips@), t as int),
{
    let ghost all = crate::track::clip_views(clips@);
    let mut i: usize = 0;
    while i < clips.len()
        invariant
            i <= clips@.len(),
            all == crate::track::clip_views(clips@),
            crate::track::clips_ok(all),
            clip_at(all.subrange(0, i as int), t as int) is None,
        decreases clips@.len() - i,
    {
        let ghost upto = all.subrange(0, i + 1);
        assert(upto.drop_last() =~= all.subrange(0, i as int));
        assert(all[i as int] == clips@[i as int]@);
        if clips[i].offset_secs <= t && t as i128 <= clips[i].end_secs() {
            proof {
                lemma_found_stays(all, i + 1, t as int);
            }
            return Some(i);
        }
        i = i + 1;
    }
    assert(all.subrange(0, i as int) =~= all);
    None
}

/// What is found among the first clips is found among all.
proof fn lemma_found_stays(clips: Seq<ClipView>, n: int, t: int)
    requires
        0 <= n <= clips.len(),
        clip_at(clips.subrange(0, n), t) is Some,
    ensures
        clip_at(clips, t) == clip_at(clips.subrange(0, n), t),
    decreases clips.len(),
{
    if n == clips.len() {
        assert(clips.subrange(0, n) =~= clips);
    } else {
        let d = clips.drop_last();
        assert(d.subrange(0, n) =~= clips.subrange(0, n));
        lemma_found_stays(d, n, t);
    }
}

/// The time at a pixel is shown at that pixel, where the view has at least a flick for each 256th of
/// a pixel; otherwise less than a flick's width beside it.
pub proof fn law_pixel_comes_back(v: AppView, px: int)
    requires
        v.content_width() > 0,
        v.effective_view_duration() > 0,
        px >= v.sidebar(),
        v.px_to_secs(px) < i64::MAX,
    ensures
        v.px_to_secs(px) >= v.view_start,
        ({
            let back = v.secs_to_px(v.px_to_secs(px) as int)->0;
            &&& px <= back
            &&& (back - px) * v.effective_view_duration() < v.content_width()
            &&& v.effective_view_duration() >= v.content_width() ==> back == px
        }),
{
    let w = v.content_width();
    let view = v.effective_view_duration() as int;
    let x = px - v.sidebar();
    let s = v.time_in_view(x);
    assert(x * view >= 0) by (nonlinear_arith)
        requires
            x >= 0,
            view > 0,
    ;
    lemma_ceil(x * view, w);
    assert(v.px_to_secs(px) == v.view_start + s);
    let y = s * w / view;
    vstd::arithmetic::div_mod::lemma_fundamental_div_mod(s * w, view);
    vstd::arithmetic::div_mod::lemma_mod_bound(s * w, view);
    assert(view * y == y * view) by (nonlinear_arith);
    assert((y + 1) * view == y * view + view) by (nonlinear_arith);
    assert(x <= y) by (nonlinear_arith)
        requires
            x * view < (y + 1) * view,
            view > 0,
    ;
    assert((y - x) * view == y * view - x * view) by (nonlinear_arith);
    if view >= w {
        assert(y - x < 1) by (nonlinear_arith)
            requires
                (y - x) * view < w,
                view >= w,
                w > 0,
        ;
    }
}

/// The time at the pixel where a time is shown is that time, rounded down to a 256th of a pixel; it
/// is exactly that time where a time falls on one. The start of the view is shown at the edge of the
/// track label column.
pub proof fn law_time_comes_back(v: AppView, t: Secs)
    requires
        v.content_width() > 0,
        v.effective_view_duration() > 0,
        t >= v.view_start,
    ensures
        v.secs_to_px(v.view_start as int) == Some(v.sidebar()),
        ({
            let px = v.secs_to_px(t as int)->0;
            let back = v.px_to_secs(px);
            &&& px >= v.sidebar()
            &&& v.view_start <= back <= t
            &&& (t - back) * v.content_width() < v.effective_view_duration()
            &&& (t - v.view_start) * v.content_width() % (v.effective_view_duration() as int) == 0
                ==> back == t
        }),
{
    let w = v.content_width();
    let view = v.effective_view_duration() as int;
    let dt = t - v.view_start;
    assert(0 * w / view == 0) by (nonlinear_arith)
        requires
            view > 0,
    ;
    assert(dt * w >= 0) by (nonlinear_arith)
        requires
            dt >= 0,
            w > 0,
    ;
    let x = dt * w / view;
    vstd::arithmetic::div_mod::lemma_fundamental_div_mod(dt * w, view);
    vstd::arithmetic::div_mod::lemma_mod_bound(dt * w, view);
    vstd::arithmetic::div_mod::lemma_div_pos_is_pos(dt * w, view);
    assert(x * view == view * x) by (nonlinear_arith);
    assert(x * view >= 0) by (nonlinear_arith)
        requires
            x >= 0,
            view > 0,
    ;
    let s = v.time_in_view(x);
    lemma_ceil(x * view, w);
    assert(s <= dt) by (nonlinear_arith)
        requires
            s * w < x * view + w,
            x * view <= dt * w,
            w > 0,
    ;
    assert((dt - s) * w == dt * w - s * w) by (nonlinear_arith);
    if dt * w % view == 0 {
        assert(s >= dt) by (nonlinear_arith)
            requires
                s * w >= dt * w,
                w > 0,
        ;
    }
}

/// What rounding up to a whole does.
proof fn lemma_ceil(a: int, w: int)
    requires
        a >= 0,
        w > 0,
    ensures
        (a + w - 1) / w >= 0,
        a <= (a + w - 1) / w * w < a + w,
{
    let s = (a + w - 1) / w;
    vstd::arithmetic::div_mod::lemma_fundamental_div_mod(a + w - 1, w);
    vstd::arithmetic::div_mod::lemma_mod_bound(a + w - 1, w);
    vstd::arithmetic::div_mod::lemma_div_pos_is_pos(a + w - 1, w);
    assert(w * s == s * w) by (nonlinear_arith);
}

} // verus!
