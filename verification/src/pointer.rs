//! What the pointer does: it selects, drags, scrolls and zooms.

use vstd::prelude::*;
use crate::app::{
    App, AppView, DragState, DragView, Effects, Px, SelectionEdge, SurfaceSize, DRAG_THRESHOLD_PX,
    SUBPX,
};
use crate::audio::{Clip, ClipView};
use crate::geometry::lane_index;
use crate::placement::is_listed;
use crate::time::{clamp_time, floor_div, later, to_secs, Secs};

verus! {

/// The shape of the pointer.
#[derive(Clone, Copy, Debug, PartialEq, Eq, Structural)]
pub enum CursorShape {
    /// A clip is being dragged
    Grabbing,
    /// A clip can be dragged
    Grab,
    /// An edge of the selection can be dragged
    EwResize,
    /// A stretch can be selected
    Text,
}

/// How far the wheel scrolls for one line, in pixels.
pub const WHEEL_LINE_PX: i64 = 40;

/// The shortest stretch of the timeline that can be shown: a hundredth of a second.
pub const MIN_VIEW: Secs = 7_056_000;

/// How many 256ths of a pixel the wheel has to scroll to double the zoom.
pub const ZOOM_UNIT: i64 = 51_200;

/// The factor by which a pinch zooms, counted in millionths.
pub const PINCH_UNIT: i64 = 1_000_000;

/// Where a clip is in a list, if it is.
pub open spec fn place_of(list: Seq<usize>, i: usize) -> int {
    choose|k: int| 0 <= k < list.len() && list[k] == i
}

/// The list with the clip taken out if it is there, and added if it is not.
pub open spec fn toggled(list: Seq<usize>, i: usize) -> Seq<usize> {
    if list.contains(i) {
        list.remove(place_of(list, i))
    } else {
        list.push(i)
    }
}

/// The list with another clip added, unless it is the one just clicked or there already.
pub open spec fn with_other(list: Seq<usize>, clicked: usize, other: Option<usize>) -> Seq<usize> {
    match other {
        Some(p) => if p != clicked && !list.contains(p) {
            list.push(p)
        } else {
            list
        },
        None => list,
    }
}

/// The group that is dragged: each selected clip with its offset.
pub open spec fn group_of(clips: Seq<ClipView>, list: Seq<usize>) -> Seq<(usize, Secs)> {
    list.map_values(|i: usize| (i, clips[i as int].offset_secs))
}

/// The least offset of a group.
pub open spec fn group_start(group: Seq<(usize, Secs)>) -> int
    decreases group.len(),
{
    if group.len() == 0 {
        0
    } else if group.len() == 1 {
        group[0].1 as int
    } else {
        crate::time::smaller(group_start(group.drop_last()), group.last().1 as int)
    }
}

impl AppView {
    /// The editor with the pointer at `px`, `py`; what is selected follows it.
    pub open spec fn pointed(self, px: Px, py: Px) -> AppView {
        let v = AppView { cursor_x: px, cursor_y: py, ..self };
        let secs = v.px_to_secs(px as int);
        AppView {
            selection: match (v.selecting, v.selection) {
                (true, Some((a, b))) => Some(
                    if v.selecting_edge == Some(SelectionEdge::Left) {
                        (secs, b)
                    } else {
                        (a, secs)
                    },
                ),
                _ => v.selection,
            },
            dragging: match v.dragging {
                Some(d) => Some(d.at(px as int, py as int)),
                None => None,
            },
            ..v
        }
    }

    /// The editor after the pointer has moved to `px`, `py`.
    pub open spec fn cursor_moved(self, px: Px, py: Px) -> AppView {
        let v = self.pointed(px, py);
        if v.is_dragging() {
            v.dragged(px as int, py as int)
        } else {
            v
        }
    }

    /// The shape of the pointer at `px`, `py`.
    pub open spec fn cursor_shape(self, px: Px, py: Px) -> CursorShape {
        let v = self.pointed(px, py);
        if v.is_dragging() {
            CursorShape::Grabbing
        } else if v.hit_test_title_bar(px as int, py as int) is Some {
            CursorShape::Grab
        } else if v.selection_edge_at(px as int) is Some {
            CursorShape::EwResize
        } else {
            CursorShape::Text
        }
    }

    /// Whether the dragged clip is there to be moved when the pointer moves.
    pub open spec fn drags_clip(self) -> bool {
        self.dragging matches Some(d) && (d.group.len() > 0 || self.has_clip(
            d.current_track_idx,
            d.clip_idx,
        ))
    }

    /// Whether a click on a title bar selects the clip along with others: a click with the command
    /// key or the shift key.
    pub open spec fn click_gathers(self) -> bool {
        self.super_key || self.shift_key
    }

    /// The clips that are selected after a click on title bar `t`, `c` that gathers clips.
    pub open spec fn multi_toggled(self, t: usize, c: usize) -> Seq<usize> {
        if self.selected_track == Some(t) {
            with_other(toggled(self.multi_selected_clips, c), c, self.selected_clip)
        } else {
            seq![c]
        }
    }

    /// Whether a click on clip `c` takes hold of several selected clips.
    pub open spec fn grabs_group(self, c: usize) -> bool {
        self.multi_selected_clips.len() > 1 && self.multi_selected_clips.contains(c)
    }

    /// Whether the selected clips are clips of track `t`.
    pub open spec fn multi_selection_in(self, t: usize) -> bool {
        forall|k: int|
            0 <= k < self.multi_selected_clips.len() ==> (#[trigger] self.multi_selected_clips[k])
                < self.tracks[t as int].clips.len()
    }

    /// Whether the clips are there that a press would take hold of.
    pub open spec fn press_ready(self) -> bool {
        match self.hit_test_title_bar(self.cursor_x as int, self.cursor_y as int) {
            Some((t, c)) => !self.click_gathers() && self.grabs_group(c) ==> self.multi_selection_in(t),
            None => true,
        }
    }

    /// The editor after a press on title bar `t`, `c`.
    pub open spec fn title_pressed(self, t: usize, c: usize) -> AppView {
        let v = AppView {
            selecting: false,
            selected_track: Some(t),
            selected_clip: Some(c),
            selection: None,
            ..self
        };
        if self.click_gathers() {
            AppView { multi_selected_clips: self.multi_toggled(t, c), ..v }
        } else {
            let clips = self.tracks[t as int].clips;
            let grouped = self.grabs_group(c);
            let group = if grouped {
                group_of(clips, self.multi_selected_clips)
            } else {
                Seq::empty()
            };
            AppView {
                multi_selected_clips: if grouped {
                    self.multi_selected_clips
                } else {
                    Seq::empty()
                },
                dragging: Some(
                    DragView {
                        clip_idx: c,
                        start_offset: if grouped {
                            group_start(group) as Secs
                        } else {
                            clips[c as int].offset_secs
                        },
                        start_x: self.cursor_x,
                        start_y: self.cursor_y,
                        source_track_idx: t,
                        current_track_idx: t,
                        active: false,
                        source_clip_idx: c,
                        prev_selected_track: Some(t),
                        prev_selected_clip: Some(c),
                        group,
                    },
                ),
                ..v
            }
        }
    }

    /// The track that is at the pointer's height: the last one below all lanes.
    pub open spec fn track_at_pointer(self) -> Option<usize> {
        match self.config {
            Some(s) => if self.tracks.len() > 0 {
                Some(
                    crate::time::smaller(
                        crate::geometry::lane_at(
                            self.cursor_y as int,
                            self.tracks.len() as int,
                            s.height as int,
                        ),
                        self.tracks.len() - 1,
                    ) as usize,
                )
            } else {
                None
            },
            None => None,
        }
    }

    /// The editor after a press on the body of a lane: a selection begins there.
    pub open spec fn body_pressed(self) -> AppView {
        let secs = self.px_to_secs(self.cursor_x as int);
        let v = AppView {
            selection: Some((secs, secs)),
            selecting: true,
            selecting_edge: None,
            dragging: None,
            multi_selected_clips: Seq::empty(),
            ..self
        };
        match self.hit_test_clip(self.cursor_x as int, self.cursor_y as int) {
            Some((t, c)) => AppView { selected_track: Some(t), selected_clip: Some(c), ..v },
            None => AppView {
                selected_track: match self.track_at_pointer() {
                    Some(t) => Some(t),
                    None => self.selected_track,
                },
                selected_clip: None,
                ..v
            },
        }
    }

    /// The editor after the left button is pressed.
    pub open spec fn pressed(self) -> AppView {
        match self.hit_test_title_bar(self.cursor_x as int, self.cursor_y as int) {
            Some((t, c)) => self.title_pressed(t, c),
            None => match self.selection_edge_at(self.cursor_x as int) {
                Some(edge) => AppView {
                    selecting: true,
                    selecting_edge: Some(edge),
                    dragging: None,
                    ..self
                },
                None => self.body_pressed(),
            },
        }
    }

    /// Where the playhead goes when the left button is pressed: to a press on the body of a lane.
    pub open spec fn press_seeks(self) -> Option<Secs> {
        if self.hit_test_title_bar(self.cursor_x as int, self.cursor_y as int) is None
            && self.selection_edge_at(self.cursor_x as int) is None && self.max_duration() > 0 {
            Some(self.px_to_secs(self.cursor_x as int))
        } else {
            None
        }
    }

    /// Whether the selection is too short on the screen to be one.
    pub open spec fn selection_is_click(self) -> bool {
        match (self.selection, self.config) {
            (Some((a, b)), Some(s)) => crate::time::distance(a as int, b as int) * s.width
                < DRAG_THRESHOLD_PX * self.effective_view_duration(),
            _ => false,
        }
    }

    /// The editor after a selection is finished.
    pub open spec fn selected_stretch(self) -> AppView {
        let v = AppView { selecting: false, selecting_edge: None, ..self };
        match (self.selection, self.config) {
            (Some((a, b)), Some(_)) => if self.selection_is_click() {
                AppView { selection: None, multi_selected_clips: Seq::empty(), ..v }
            } else {
                let (start, end) = if a <= b {
                    (a, b)
                } else {
                    (b, a)
                };
                AppView {
                    selection: Some((start, end)),
                    multi_selected_clips: match self.selected_track {
                        Some(t) => crate::region::overlapping(
                            crate::region::clips_of(self, t),
                            start as int,
                            end as int,
                        ),
                        None => self.multi_selected_clips,
                    },
                    ..v
                }
            },
            _ => v,
        }
    }

    /// The editor after the left button is released.
    pub open spec fn released(self) -> AppView {
        let v = if self.selecting {
            self.selected_stretch()
        } else {
            self
        };
        v.drag_ended()
    }

    /// The width of the window, for what is proportional to it.
    pub open spec fn width_px(self) -> int {
        match self.config {
            Some(s) => s.width as int,
            None => 1,
        }
    }

    /// How far the wheel scrolls: sideways, or, with the shift key, by its other axis.
    pub open spec fn scroll_amount(self, dx: int, dy: int) -> int {
        if dx != 0 {
            -dx
        } else if self.shift_key {
            -dy
        } else {
            0
        }
    }

    /// The editor with the view moved to `start`, as far as the timeline goes, showing `duration`.
    pub open spec fn viewed(self, start: int, duration: Secs) -> AppView {
        AppView {
            view_start: crate::time::clamp_between(
                start,
                0,
                crate::time::larger(self.max_duration() - duration, 0),
            ) as Secs,
            ..self
        }
    }

    /// The editor after the wheel has scrolled by `dx`, `dy`.
    pub open spec fn panned(self, dx: int, dy: int) -> AppView {
        let scroll = self.scroll_amount(dx, dy);
        if self.tracks.len() > 0 && scroll != 0 {
            let view = self.effective_view_duration();
            self.viewed(self.view_start + scroll * view / (self.width_px() * SUBPX), view)
        } else {
            self
        }
    }

    /// What is shown after a zoom by `num / den`.
    pub open spec fn zoomed_duration(self, num: int, den: int) -> Secs {
        let view = self.effective_view_duration();
        if num > 0 {
            crate::time::clamp_between(
                view * den / num,
                MIN_VIEW as int,
                self.max_duration() as int,
            ) as Secs
        } else if num == 0 {
            self.max_duration()
        } else {
            MIN_VIEW
        }
    }

    /// The editor after the wheel has scrolled by `dy` with the command key.
    pub open spec fn wheel_zoomed(self, dy: int) -> AppView {
        self.zoomed(ZOOM_UNIT + dy, ZOOM_UNIT as int)
    }

    /// The editor after a pinch by `delta`.
    pub open spec fn pinched(self, delta: int) -> AppView {
        self.zoomed(PINCH_UNIT + delta, PINCH_UNIT as int)
    }

    /// The editor after a zoom by `num / den`: what is at the pointer stays there.
    pub open spec fn zoomed(self, num: int, den: int) -> AppView {
        if self.tracks.len() > 0 {
            let view = self.effective_view_duration();
            let new = self.zoomed_duration(num, den);
            AppView {
                view_duration: new,
                ..self.viewed(
                    self.view_start + self.cursor_x * (view - new) / (self.width_px() * SUBPX),
                    new,
                )
            }
        } else {
            self
        }
    }
}

/// A lane's index, with the last track for what is below all lanes.
fn lane_or_last(py: Px, n: usize, s: SurfaceSize) -> (r: usize)
    requires
        s.height > 0,
        n > 0,
    ensures
        r == crate::time::smaller(
            crate::geometry::lane_at(py as int, n as int, s.height as int),
            n - 1,
        ),
{
    let lane: usize = lane_index(py, n, s);
    proof {
        crate::drag::lemma_lane_is_natural(py as int, n as int, s.height as int);
    }
    if lane < n - 1 {
        lane
    } else {
        n - 1
    }
}

/// Takes the clip out of the list if it is there, and adds it if it is not.
fn toggle(list: &mut Vec<usize>, i: usize)
    requires
        old(list)@.no_duplicates(),
    ensures
        final(list)@ == toggled(old(list)@, i),
        final(list)@.no_duplicates(),
{
    let ghost before = list@;
    let mut k: usize = 0;
    while k < list.len()
        invariant
            k <= list@.len(),
            list@ == before,
            before == old(list)@,
            before.no_duplicates(),
            forall|j: int| 0 <= j < k ==> list@[j] != i,
        decreases list@.len() - k,
    {
        if list[k] == i {
            list.remove(k);
            proof {
                assert(before[k as int] == i);
                assert(before.contains(i));
                let p = place_of(before, i);
                assert(0 <= p < before.len() && before[p] == i);
                assert(p == k);
                assert(list@ == before.remove(k as int));
                lemma_remove_distinct(before, k as int);
            }
            return;
        }
        k = k + 1;
    }
    assert(!before.contains(i));
    list.push(i);
    proof {
        lemma_push_distinct(before, i);
    }
}

/// A list without one of its items has no duplicates either.
proof fn lemma_remove_distinct(list: Seq<usize>, k: int)
    requires
        list.no_duplicates(),
        0 <= k < list.len(),
    ensures
        list.remove(k).no_duplicates(),
{
    let r = list.remove(k);
    assert forall|i: int, j: int| 0 <= i < r.len() && 0 <= j < r.len() && i != j implies r[i] != r[j] by {
        let a = if i < k { i } else { i + 1 };
        let b = if j < k { j } else { j + 1 };
        assert(r[i] == list[a] && r[j] == list[b]);
    }
}

/// A list with a new item has no duplicates either.
proof fn lemma_push_distinct(list: Seq<usize>, i: usize)
    requires
        list.no_duplicates(),
        !list.contains(i),
    ensures
        list.push(i).no_duplicates(),
{
    let r = list.push(i);
    assert forall|a: int, b: int| 0 <= a < r.len() && 0 <= b < r.len() && a != b implies r[a] != r[b] by {
        if a < list.len() {
            assert(r[a] == list[a]);
            assert(list.contains(list[a]));
        }
        if b < list.len() {
            assert(r[b] == list[b]);
            assert(list.contains(list[b]));
        }
    }
}

/// The group that is dragged, and its least offset.
fn make_group(clips: &Vec<Clip>, list: &Vec<usize>) -> (r: (Vec<(usize, Secs)>, Secs))
    requires
        list@.len() > 0,
        forall|k: int| 0 <= k < list@.len() ==> (#[trigger] list@[k]) < clips@.len(),
    ensures
        r.0@ == group_of(crate::track::clip_views(clips@), list@),
        r.1 == group_start(r.0@),
{
    let ghost all = crate::track::clip_views(clips@);
    let mut group: Vec<(usize, Secs)> = Vec::new();
    let mut start: Secs = 0;
    let mut k: usize = 0;
    while k < list.len()
        invariant
            k <= list@.len(),
            all == crate::track::clip_views(clips@),
            forall|j: int| 0 <= j < list@.len() ==> (#[trigger] list@[j]) < clips@.len(),
            group@ == group_of(all, list@).subrange(0, k as int),
            start == group_start(group@),
        decreases list@.len() - k,
    {
        let i: usize = list[k];
        assert(all[i as int] == clips@[i as int]@);
        let offset: Secs = clips[i].offset_secs;
        let ghost before = group@;
        group.push((i, offset));
        assert(group@.drop_last() =~= before);
        if k == 0 || offset < start {
            start = offset;
        }
        k = k + 1;
        assert(group@ =~= group_of(all, list@).subrange(0, k as int));
    }
    assert(group_of(all, list@).subrange(0, k as int) =~= group_of(all, list@));
    (group, start)
}

impl App {
    /// The pointer has moved to `px`, `py`: what is selected or dragged follows it.
    fn point(&mut self, px: Px, py: Px)
        requires
            old(self)@.ok(),
        ensures
            final(self)@ == old(self)@.pointed(px, py),
            final(self)@.ok(),
    {
        let ghost before = self@;
        self.cursor_x = px;
        self.cursor_y = py;
        let ghost v = AppView { cursor_x: px, cursor_y: py, ..before };
        assert(self@ =~= v);
        if self.selecting {
            let secs: Secs = self.px_to_secs(px);
            match self.selection {
                Some((a, b)) => {
                    self.selection = match self.selecting_edge {
                        Some(SelectionEdge::Left) => Some((secs, b)),
                        _ => Some((a, secs)),
                    };
                },
                None => {},
            }
        }
        let mut dragging: Option<DragState> = None;
        core::mem::swap(&mut dragging, &mut self.dragging);
        match dragging {
            Some(d) => {
                let mut d: DragState = d;
                if !d.active {
                    d.active = is_far(d.start_x, d.start_y, px, py);
                }
                self.dragging = Some(d);
            },
            None => {},
        }
        assert(self@ =~= before.pointed(px, py));
    }

    /// Whether a clip is being dragged.
    pub fn is_dragging(&self) -> (r: bool)
        ensures
            r == self@.is_dragging(),
    {
        match &self.dragging {
            Some(d) => d.active,
            None => false,
        }
    }

    /// The pointer has moved to `px`, `py`. Returns the shape of the pointer, and what has to be
    /// brought up to date.
    pub fn cursor_moved(&mut self, px: Px, py: Px) -> (r: (CursorShape, Effects))
        requires
            old(self)@.ok(),
            old(self)@.pointed(px, py).dragging matches Some(d) ==> d.active ==> old(self)@.can_drag(d),
        ensures
            final(self)@ == old(self)@.cursor_moved(px, py),
            final(self)@.ok(),
            r.0 == old(self)@.cursor_shape(px, py),
            r.1 == (if old(self)@.selecting || (old(self)@.pointed(px, py).is_dragging()
                && old(self)@.drags_clip()) {
                Effects::Redraw
            } else {
                Effects::Nothing
            }),
    {
        let ghost before = self@;
        self.point(px, py);
        let shape: CursorShape = if self.is_dragging() {
            CursorShape::Grabbing
        } else if self.hit_test_title_bar(px, py).is_some() {
            CursorShape::Grab
        } else if self.hit_test_selection_edge(px).is_some() {
            CursorShape::EwResize
        } else {
            CursorShape::Text
        };
        let mut redraw: bool = self.selecting;
        if self.is_dragging() {
            let moves: bool = match &self.dragging {
                Some(d) => {
                    let n: usize = self.tracks.len();
                    assert(d.current_track_idx < n ==> self@.tracks[d.current_track_idx as int]
                        == self.tracks@[d.current_track_idx as int]@);
                    d.group.len() > 0 || d.current_track_idx < n && d.clip_idx
                        < self.tracks[d.current_track_idx].clips.len()
                },
                None => false,
            };
            redraw = redraw || moves;
            self.drag_to(px, py);
        }
        if redraw {
            (shape, Effects::Redraw)
        } else {
            (shape, Effects::Nothing)
        }
    }

    /// A press on title bar `t`, `c`.
    fn press_title(&mut self, t: usize, c: usize)
        requires
            old(self)@.ok(),
            old(self)@.has_clip(t, c),
            !old(self)@.click_gathers() && old(self)@.grabs_group(c) ==> old(self)@.multi_selection_in(t),
        ensures
            final(self)@ == old(self)@.title_pressed(t, c),
            final(self)@.ok(),
    {
        let ghost before = self@;
        self.selecting = false;
        if self.super_key || self.shift_key {
            if self.selected_track == Some(t) {
                toggle(&mut self.multi_selected_clips, c);
                match self.selected_clip {
                    Some(p) => {
                        if p != c && !is_listed(self.multi_selected_clips.as_slice(), p) {
                            proof {
                                lemma_push_distinct(self.multi_selected_clips@, p);
                            }
                            self.multi_selected_clips.push(p);
                        }
                    },
                    None => {},
                }
            } else {
                self.selected_track = Some(t);
                let mut list: Vec<usize> = Vec::new();
                list.push(c);
                assert(list@ =~= seq![c]);
                self.multi_selected_clips = list;
            }
            self.selected_clip = Some(c);
            self.selection = None;
            assert(self@ =~= before.title_pressed(t, c));
            return;
        }
        self.selected_track = Some(t);
        self.selected_clip = Some(c);
        self.selection = None;
        assert(before.tracks[t as int] == self.tracks@[t as int]@);
        assert(before.tracks[t as int].clips[c as int] == self.tracks@[t as int].clips@[c as int]@);
        let grouped: bool = self.multi_selected_clips.len() > 1 && is_listed(
            self.multi_selected_clips.as_slice(),
            c,
        );
        let (group, start_offset): (Vec<(usize, Secs)>, Secs) = if grouped {
            make_group(&self.tracks[t].clips, &self.multi_selected_clips)
        } else {
            self.multi_selected_clips = Vec::new();
            (Vec::new(), self.tracks[t].clips[c].offset_secs)
        };
        self.dragging = Some(
            DragState {
                clip_idx: c,
                start_offset,
                start_x: self.cursor_x,
                start_y: self.cursor_y,
                source_track_idx: t,
                current_track_idx: t,
                active: false,
                source_clip_idx: c,
                prev_selected_track: Some(t),
                prev_selected_clip: Some(c),
                group,
            },
        );
        assert(self@ =~= before.title_pressed(t, c));
    }

    /// A press on the body of a lane.
    fn press_body(&mut self, secs: Secs)
        requires
            old(self)@.ok(),
            secs == old(self)@.px_to_secs(old(self)@.cursor_x as int),
        ensures
            final(self)@ == old(self)@.body_pressed(),
            final(self)@.ok(),
    {
        let ghost before = self@;
        let hit: Option<(usize, usize)> = self.hit_test_clip(self.cursor_x, self.cursor_y);
        self.selection = Some((secs, secs));
        self.selecting = true;
        self.selecting_edge = None;
        self.dragging = None;
        self.multi_selected_clips = Vec::new();
        let n: usize = self.tracks.len();
        match hit {
            Some((t, c)) => {
                self.selected_track = Some(t);
                self.selected_clip = Some(c);
            },
            None => {
                match self.config {
                    Some(s) => {
                        if n > 0 {
                            self.selected_track = Some(lane_or_last(self.cursor_y, n, s));
                        }
                    },
                    None => {},
                }
                self.selected_clip = None;
            },
        }
        assert(self@ =~= before.body_pressed());
    }

    /// The left button is pressed. Returns where the playhead goes, if it moves.
    pub fn press(&mut self) -> (r: Option<Secs>)
        requires
            old(self)@.ok(),
            old(self)@.press_ready(),
        ensures
            final(self)@ == old(self)@.pressed(),
            final(self)@.ok(),
            r == old(self)@.press_seeks(),
    {
        let ghost before = self@;
        match self.hit_test_title_bar(self.cursor_x, self.cursor_y) {
            Some((t, c)) => {
                proof {
                    let len = self.tracks@[t as int].clips.len();
                    assert(before.tracks[t as int] == self.tracks@[t as int]@);
                    crate::geometry::law_clip_at(
                        before.tracks[t as int].clips,
                        before.px_to_secs(before.cursor_x as int) as int,
                    );
                }
                self.press_title(t, c);
                None
            },
            None => {
                match self.hit_test_selection_edge(self.cursor_x) {
                    Some(edge) => {
                        self.selecting = true;
                        self.selecting_edge = Some(edge);
                        self.dragging = None;
                        assert(self@ =~= before.pressed());
                        None
                    },
                    None => {
                        let secs: Secs = self.px_to_secs(self.cursor_x);
                        let max: Secs = self.max_duration();
                        self.press_body(secs);
                        if max > 0 {
                            Some(secs)
                        } else {
                            None
                        }
                    },
                }
            },
        }
    }

    /// Finishes a selection.
    fn finish_selection(&mut self)
        requires
            old(self)@.ok(),
        ensures
            final(self)@ == old(self)@.selected_stretch(),
            final(self)@.ok(),
    {
        let ghost before = self@;
        self.selecting = false;
        self.selecting_edge = None;
        match (self.selection, self.config) {
            (Some((a, b)), Some(s)) => {
                let view: Secs = self.effective_view_duration();
                let (start, end): (Secs, Secs) = if a <= b {
                    (a, b)
                } else {
                    (b, a)
                };
                let length: i128 = end as i128 - start as i128;
                assert(0 <= length * s.width <= 0x1_0000_0000_0000_0000 * u32::MAX) by (nonlinear_arith)
                    requires
                        0 <= length <= 0x1_0000_0000_0000_0000,
                        0 <= s.width <= u32::MAX,
                ;
                assert(0 <= DRAG_THRESHOLD_PX * view <= 4 * i64::MAX) by (nonlinear_arith)
                    requires
                        0 <= view <= i64::MAX,
                        DRAG_THRESHOLD_PX == 4,
                ;
                if length * (s.width as i128) < DRAG_THRESHOLD_PX as i128 * view as i128 {
                    self.selection = None;
                    self.multi_selected_clips = Vec::new();
                } else {
                    self.selection = Some((start, end));
                    match self.selected_track {
                        Some(t) => {
                            let found: Vec<usize> = self.clips_overlapping_range(t, start, end);
                            proof {
                                let clips = crate::region::clips_of(before, t);
                                if t < before.tracks.len() {
                                    let len = self.tracks@[t as int].clips.len();
                                    assert(before.tracks[t as int] == self.tracks@[t as int]@);
                                }
                                crate::region::law_overlapping(clips, start as int, end as int);
                                lemma_rising_distinct(found@);
                            }
                            self.multi_selected_clips = found;
                        },
                        None => {},
                    }
                }
            },
            _ => {},
        }
        assert(self@ =~= before.selected_stretch());
    }

    /// The left button is released.
    pub fn release(&mut self) -> (r: Effects)
        requires
            old(self)@.ok(),
            old(self)@.dragging matches Some(d) ==> d.active ==> old(self)@.can_drop(d),
        ensures
            final(self)@ == old(self)@.released(),
            final(self)@.ok(),
            r == (if old(self)@.is_dragging() {
                Effects::Refresh
            } else if old(self)@.selecting || old(self)@.dragging is Some {
                Effects::Redraw
            } else {
                Effects::Nothing
            }),
    {
        let selecting: bool = self.selecting;
        if selecting {
            self.finish_selection();
        }
        match self.end_drag() {
            Effects::Nothing => {
                if selecting {
                    Effects::Redraw
                } else {
                    Effects::Nothing
                }
            },
            effects => effects,
        }
    }

    /// Moves the view to `start`, as far as the timeline goes.
    fn view_from(&mut self, start: i128, duration: Secs)
        requires
            old(self)@.ok(),
            duration >= 0,
        ensures
            final(self)@ == old(self)@.viewed(start as int, duration),
            final(self)@.ok(),
    {
        let max: Secs = self.max_duration();
        let room: i128 = later(max as i128 - duration as i128, 0);
        self.view_start = to_secs(clamp_time(start, 0, room));
        assert(self@ =~= old(self)@.viewed(start as int, duration));
    }

    /// The width of the window, in 256ths of a pixel.
    fn width_subpx(&self) -> (r: i128)
        requires
            self@.ok(),
        ensures
            r == self@.width_px() * SUBPX,
            256 <= r <= u32::MAX * 256,
    {
        let width: u32 = match self.config {
            Some(s) => s.width,
            None => 1,
        };
        assert(256 <= width * SUBPX <= u32::MAX * 256) by (nonlinear_arith)
            requires
                1 <= width <= u32::MAX,
                SUBPX == 256,
        ;
        width as i128 * SUBPX as i128
    }

    /// The wheel has scrolled by `dx`, `dy` without the command key.
    pub fn pan(&mut self, dx: Px, dy: Px) -> (r: Effects)
        requires
            old(self)@.ok(),
        ensures
            final(self)@ == old(self)@.panned(dx as int, dy as int),
            final(self)@.ok(),
            r == (if old(self)@.tracks.len() > 0 && old(self)@.scroll_amount(
                dx as int,
                dy as int,
            ) != 0 {
                Effects::Redraw
            } else {
                Effects::Nothing
            }),
    {
        let scroll: i64 = if dx != 0 {
            -(dx as i64)
        } else if self.shift_key {
            -(dy as i64)
        } else {
            0
        };
        if self.tracks.len() == 0 || scroll == 0 {
            return Effects::Nothing;
        }
        let view: Secs = self.effective_view_duration();
        let w: i128 = self.width_subpx();
        let moved: i128 = scaled(scroll as i128, view as i128, w);
        self.view_from(self.view_start as i128 + moved, view);
        Effects::Redraw
    }

    /// Zooms by `num / den` about the pointer.
    fn zoom(&mut self, num: i64, den: i64) -> (r: Effects)
        requires
            old(self)@.ok(),
            old(self)@.tracks.len() > 0 ==> old(self)@.max_duration() >= MIN_VIEW,
            0 < den <= 0x1_0000_0000,
        ensures
            final(self)@ == old(self)@.zoomed(num as int, den as int),
            final(self)@.ok(),
            r == (if old(self)@.tracks.len() > 0 {
                Effects::Redraw
            } else {
                Effects::Nothing
            }),
    {
        let ghost before = self@;
        if self.tracks.len() == 0 {
            return Effects::Nothing;
        }
        let max: Secs = self.max_duration();
        let view: Secs = self.effective_view_duration();
        let new: Secs = if num > 0 {
            assert(0 <= view * den <= i64::MAX * 0x1_0000_0000) by (nonlinear_arith)
                requires
                    0 <= view <= i64::MAX,
                    0 < den <= 0x1_0000_0000,
            ;
            clamp_time(view as i128 * den as i128 / num as i128, MIN_VIEW as i128, max as i128) as Secs
        } else if num == 0 {
            max
        } else {
            MIN_VIEW
        };
        assert(new == before.zoomed_duration(num as int, den as int));
        let w: i128 = self.width_subpx();
        let moved: i128 = scaled(self.cursor_x as i128, view as i128 - new as i128, w);
        self.view_from(self.view_start as i128 + moved, new);
        self.view_duration = new;
        assert(self@ =~= before.zoomed(num as int, den as int));
        Effects::Redraw
    }

    /// The wheel has scrolled by `dy` with the command key: zooms by half a percent for each
    /// pixel.
    pub fn zoom_wheel(&mut self, dy: Px) -> (r: Effects)
        requires
            old(self)@.ok(),
            old(self)@.tracks.len() > 0 ==> old(self)@.max_duration() >= MIN_VIEW,
        ensures
            final(self)@ == old(self)@.zoomed(ZOOM_UNIT + dy, ZOOM_UNIT as int),
            final(self)@ == old(self)@.wheel_zoomed(dy as int),
            final(self)@.ok(),
            r == (if old(self)@.tracks.len() > 0 {
                Effects::Redraw
            } else {
                Effects::Nothing
            }),
    {
        self.zoom(ZOOM_UNIT + dy as i64, ZOOM_UNIT)
    }

    /// A pinch by `delta`, counted in millionths.
    pub fn pinch(&mut self, delta: i32) -> (r: Effects)
        requires
            old(self)@.ok(),
            old(self)@.tracks.len() > 0 ==> old(self)@.max_duration() >= MIN_VIEW,
        ensures
            final(self)@ == old(self)@.zoomed(PINCH_UNIT + delta, PINCH_UNIT as int),
            final(self)@ == old(self)@.pinched(delta as int),
            final(self)@.ok(),
            r == (if old(self)@.tracks.len() > 0 {
                Effects::Redraw
            } else {
                Effects::Nothing
            }),
    {
        self.zoom(PINCH_UNIT + delta as i64, PINCH_UNIT)
    }

    /// The window has a new size; it is at least one pixel wide and high.
    pub fn resize(&mut self, width: u32, height: u32)
        requires
            old(self)@.ok(),
        ensures
            final(self)@.ok(),
            final(self)@ == (AppView {
                config: Some(
                    SurfaceSize {
                        width: crate::time::larger(width as int, 1) as u32,
                        height: crate::time::larger(height as int, 1) as u32,
                    },
                ),
                ..old(self)@
            }),
    {
        self.config = Some(
            SurfaceSize {
                width: if width >= 1 {
                    width
                } else {
                    1
                },
                height: if height >= 1 {
                    height
                } else {
                    1
                },
            },
        );
    }
}

/// `a * b / w`, rounded down.
fn scaled(a: i128, b: i128, w: i128) -> (r: i128)
    requires
        -0x1_0000_0000 <= a <= 0x1_0000_0000,
        -0x1_0000_0000_0000_0000 <= b <= 0x1_0000_0000_0000_0000,
        1 <= w <= 0x100_0000_0000,
    ensures
        r == a * b / (w as int),
        -0x1_0000_0000_0000_0000_0000_0000 <= r <= 0x1_0000_0000_0000_0000_0000_0000,
{
    assert(-0x1_0000_0000_0000_0000_0000_0000 <= a * b <= 0x1_0000_0000_0000_0000_0000_0000)
        by (nonlinear_arith)
        requires
            -0x1_0000_0000 <= a <= 0x1_0000_0000,
            -0x1_0000_0000_0000_0000 <= b <= 0x1_0000_0000_0000_0000,
    ;
    let r: i128 = floor_div(a * b, w);
    let ghost p = a * b;
    assert(-0x1_0000_0000_0000_0000_0000_0000 <= r <= 0x1_0000_0000_0000_0000_0000_0000)
        by (nonlinear_arith)
        requires
            -0x1_0000_0000_0000_0000_0000_0000 <= p <= 0x1_0000_0000_0000_0000_0000_0000,
            r == p / (w as int),
            w >= 1,
    ;
    r
}

/// Whether the pointer is far enough from where the button was pressed.
pub(crate) fn is_far(start_x: Px, start_y: Px, px: Px, py: Px) -> (r: bool)
    ensures
        r == ({
            let dx = px - start_x;
            let dy = py - start_y;
            dx * dx + dy * dy >= (DRAG_THRESHOLD_PX * SUBPX) * (DRAG_THRESHOLD_PX * SUBPX)
        }),
{
    let dx: i128 = px as i128 - start_x as i128;
    let dy: i128 = py as i128 - start_y as i128;
    let reach: i128 = 1024;
    assert(DRAG_THRESHOLD_PX * SUBPX == 1024) by (nonlinear_arith)
        requires
            DRAG_THRESHOLD_PX == 4,
            SUBPX == 256,
    ;
    assert(0 <= dx * dx <= 0x1_0000_0000 * 0x1_0000_0000) by (nonlinear_arith)
        requires
            -0x1_0000_0000 <= dx <= 0x1_0000_0000,
    ;
    assert(0 <= dy * dy <= 0x1_0000_0000 * 0x1_0000_0000) by (nonlinear_arith)
        requires
            -0x1_0000_0000 <= dy <= 0x1_0000_0000,
    ;
    dx * dx + dy * dy >= reach * reach
}

/// A rising list has no duplicates.
proof fn lemma_rising_distinct(list: Seq<usize>)
    requires
        forall|j: int, k: int| 0 <= j < k < list.len() ==> (#[trigger] list[j]) < (#[trigger] list[k]),
    ensures
        list.no_duplicates(),
{
    assert forall|a: int, b: int| 0 <= a < list.len() && 0 <= b < list.len() && a != b implies list[a]
        != list[b] by {
        if a < b {
            assert(list[a] < list[b]);
        } else {
            assert(list[b] < list[a]);
        }
    }
}

/// Scrolling and zooming stay on the timeline: the view starts on it, and does not go beyond its
/// end unless it shows all of it.
pub proof fn law_view_stays_on_timeline(v: AppView, start: int, duration: Secs)
    requires
        duration >= 0,
        v.max_duration() >= 0,
    ensures
        v.viewed(start, duration).view_start >= 0,
        v.viewed(start, duration).view_start + duration <= crate::time::larger(
            v.max_duration() as int,
            duration as int,
        ),
{
}

/// Zooming shows at least a hundredth of a second, and at most the whole timeline.
pub proof fn law_zoom_is_bounded(v: AppView, num: int, den: int)
    requires
        v.tracks.len() > 0,
        v.max_duration() >= MIN_VIEW,
    ensures
        MIN_VIEW <= v.zoomed(num, den).view_duration <= v.max_duration(),
        v.zoomed(num, den).tracks == v.tracks,
{
}

} // verus!
