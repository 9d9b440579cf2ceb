//! Where a dragged clip may go: it snaps to the edges of other clips and does not overlap them.

use vstd::prelude::*;
use crate::app::{App, AppView, SNAP_PX};
use crate::audio::{Clip, ClipView};
use crate::time::{clamp_time, later, to_secs, Secs};

verus! {

/// The clips that are not among those to skip, in order.
pub open spec fn others(clips: Seq<ClipView>, skip: Seq<usize>) -> Seq<ClipView>
    decreases clips.len(),
{
    if clips.len() == 0 {
        Seq::empty()
    } else {
        let rest = others(clips.drop_last(), skip);
        if skip.contains((clips.len() - 1) as usize) {
            rest
        } else {
            rest.push(clips.last())
        }
    }
}

/// Where a clip that lasts `dur` starts when one of its edges meets an edge of one of the others.
pub open spec fn edge_targets(others: Seq<ClipView>, dur: int) -> Seq<int>
    decreases others.len(),
{
    if others.len() == 0 {
        Seq::empty()
    } else {
        let c = others.last();
        edge_targets(others.drop_last(), dur) + seq![
            c.end(),
            c.offset_secs - dur,
            c.offset_secs as int,
            c.end() - dur,
        ]
    }
}

/// Where a group that spans `span` starts when it comes to lie against one of the others.
pub open spec fn side_targets(others: Seq<ClipView>, span: int) -> Seq<int>
    decreases others.len(),
{
    if others.len() == 0 {
        Seq::empty()
    } else {
        let c = others.last();
        side_targets(others.drop_last(), span) + seq![c.end(), c.offset_secs - span]
    }
}

/// The edges of some clips.
pub open spec fn edges(clips: Seq<ClipView>) -> Seq<int>
    decreases clips.len(),
{
    if clips.len() == 0 {
        Seq::empty()
    } else {
        let c = clips.last();
        edges(clips.drop_last()) + seq![c.offset_secs as int, c.end()]
    }
}

/// Whether `x` is near enough to `desired` to snap to, in a window of `width` pixels that shows
/// `view` of the timeline.
pub open spec fn in_reach(x: int, desired: int, width: int, view: int) -> bool {
    crate::time::distance(x, desired) * width < SNAP_PX * view
}

/// The target that is nearest to `desired` among those in reach, the first of equally near ones;
/// `desired` if none is in reach.
pub open spec fn snapped(targets: Seq<int>, desired: int, width: int, view: int) -> int
    decreases targets.len(),
{
    if targets.len() == 0 {
        desired
    } else {
        let best = snapped(targets.drop_last(), desired, width, view);
        let x = targets.last();
        let found = any_in_reach(targets.drop_last(), desired, width, view);
        if in_reach(x, desired, width, view) && (!found || crate::time::distance(x, desired)
            < crate::time::distance(best, desired)) {
            x
        } else {
            best
        }
    }
}

/// Whether one of the targets is in reach.
pub open spec fn any_in_reach(targets: Seq<int>, desired: int, width: int, view: int) -> bool {
    exists|k: int| 0 <= k < targets.len() && in_reach(#[trigger] targets[k], desired, width, view)
}

/// Snapping moves to the nearest target in reach, and moves nothing if none is in reach.
pub proof fn law_snaps_to_nearest(targets: Seq<int>, desired: int, width: int, view: int)
    ensures
        any_in_reach(targets, desired, width, view) ==> {
            let r = snapped(targets, desired, width, view);
            &&& targets.contains(r)
            &&& in_reach(r, desired, width, view)
            &&& forall|k: int|
                0 <= k < targets.len() && in_reach(#[trigger] targets[k], desired, width, view)
                    ==> crate::time::distance(r, desired) <= crate::time::distance(
                    targets[k],
                    desired,
                )
        },
        !any_in_reach(targets, desired, width, view) ==> snapped(targets, desired, width, view)
            == desired,
    decreases targets.len(),
{
    if targets.len() > 0 {
        let d = targets.drop_last();
        let n = targets.len() - 1;
        law_snaps_to_nearest(d, desired, width, view);
        let r = snapped(targets, desired, width, view);
        assert(targets.last() == targets[n]);
        if any_in_reach(d, desired, width, view) {
            let k = choose|k: int| 0 <= k < d.len() && in_reach(#[trigger] d[k], desired, width, view);
            assert(targets[k] == d[k]);
        }
        if any_in_reach(targets, desired, width, view) {
            let k = choose|k: int|
                0 <= k < targets.len() && in_reach(#[trigger] targets[k], desired, width, view);
            if k < n {
                assert(d[k] == targets[k]);
            }
            if r != targets[n] {
                let best = snapped(d, desired, width, view);
                let j = choose|j: int| 0 <= j < d.len() && d[j] == best;
                assert(targets[j] == best);
            }
            assert forall|i: int|
                0 <= i < targets.len() && in_reach(
                    #[trigger] targets[i],
                    desired,
                    width,
                    view,
                ) implies crate::time::distance(r, desired) <= crate::time::distance(
                targets[i],
                desired,
            ) by {
                if i < n {
                    assert(d[i] == targets[i]);
                }
            }
        }
    }
}

/// The search for the nearest target in reach.
struct Snap {
    desired: i128,
    width: i128,
    view: i128,
    best: i128,
    best_dist: i128,
    found: bool,
}

impl Snap {
    /// The search has looked at these targets.
    spec fn seen(self, targets: Seq<int>) -> bool {
        let d = self.desired as int;
        let w = self.width as int;
        let v = self.view as int;
        &&& 0 < w <= u32::MAX
        &&& 0 <= v <= i64::MAX
        &&& i64::MIN <= d <= i64::MAX
        &&& self.best == snapped(targets, d, w, v)
        &&& self.found == any_in_reach(targets, d, w, v)
        &&& self.found ==> self.best_dist == crate::time::distance(self.best as int, d)
    }

    fn begin(desired: Secs, width: u32, view: Secs) -> (r: Snap)
        requires
            width > 0,
            view >= 0,
        ensures
            r.seen(Seq::empty()),
            r.desired == desired,
            r.width == width,
            r.view == view,
    {
        Snap {
            desired: desired as i128,
            width: width as i128,
            view: view as i128,
            best: desired as i128,
            best_dist: 0,
            found: false,
        }
    }

    /// Looks at one more target.
    fn look(&mut self, x: i128, Ghost(targets): Ghost<Seq<int>>)
        requires
            old(self).seen(targets),
            -0x4_0000_0000_0000_0000 <= x <= 0x4_0000_0000_0000_0000,
        ensures
            final(self).seen(targets.push(x as int)),
            final(self).desired == old(self).desired,
            final(self).width == old(self).width,
            final(self).view == old(self).view,
    {
        let ghost more = targets.push(x as int);
        let dist: i128 = if x >= self.desired {
            x - self.desired
        } else {
            self.desired - x
        };
        assert(0 <= dist * self.width <= 0x8_0000_0000_0000_0000 * u32::MAX) by (nonlinear_arith)
            requires
                0 <= dist <= 0x8_0000_0000_0000_0000,
                0 < self.width <= u32::MAX,
        ;
        assert(0 <= SNAP_PX * self.view <= 10 * i64::MAX) by (nonlinear_arith)
            requires
                0 <= self.view <= i64::MAX,
                SNAP_PX == 10,
        ;
        let near: bool = dist * self.width < SNAP_PX as i128 * self.view;
        proof {
            let d = self.desired as int;
            let w = self.width as int;
            let v = self.view as int;
            assert(more.drop_last() =~= targets);
            assert(more.last() == x);
            assert(near == in_reach(x as int, d, w, v));
            if near {
                assert(in_reach(more[targets.len() as int], d, w, v));
            }
            if any_in_reach(targets, d, w, v) {
                let k = choose|k: int| 0 <= k < targets.len() && in_reach(#[trigger] targets[k], d, w, v);
                assert(more[k] == targets[k]);
            }
            if any_in_reach(more, d, w, v) && !near {
                let k = choose|k: int| 0 <= k < more.len() && in_reach(#[trigger] more[k], d, w, v);
                assert(more[k] == targets[k]);
            }
        }
        if near && (!self.found || dist < self.best_dist) {
            self.best = x;
            self.best_dist = dist;
            self.found = true;
        }
    }
}

/// Whether an index is in a list.
pub(crate) fn is_listed(list: &[usize], i: usize) -> (r: bool)
    ensures
        r == list@.contains(i),
{
    let mut k: usize = 0;
    while k < list.len()
        invariant
            k <= list@.len(),
            forall|j: int| 0 <= j < k ==> list@[j] != i,
        decreases list@.len() - k,
    {
        if list[k] == i {
            assert(list@[k as int] == i);
            return true;
        }
        k = k + 1;
    }
    false
}

impl AppView {
    /// Where a clip that lasts `dur`, dragged to `desired` among the other clips of a track, snaps
    /// to.
    pub open spec fn snap_offset(self, rest: Seq<ClipView>, desired: Secs, dur: Secs) -> Secs {
        match self.config {
            Some(s) => crate::time::sat_secs(
                snapped(
                    edge_targets(rest, dur as int),
                    desired as int,
                    s.width as int,
                    self.effective_view_duration() as int,
                ),
            ),
            None => desired,
        }
    }

    /// Where a group that spans `span`, dragged to `desired` among the other clips of a track,
    /// snaps to.
    pub open spec fn snap_offset_group(self, rest: Seq<ClipView>, desired: Secs, span: int) -> Secs {
        match self.config {
            Some(s) => crate::time::sat_secs(
                snapped(
                    side_targets(rest, span),
                    desired as int,
                    s.width as int,
                    self.effective_view_duration() as int,
                ),
            ),
            None => desired,
        }
    }

    /// The edge of a clip of track `t` that `secs` snaps to.
    pub open spec fn snap_to_clip_edges(self, t: usize, secs: Secs) -> Secs {
        match self.config {
            Some(s) => if t < self.tracks.len() {
                crate::time::sat_secs(
                    snapped(
                        edges(self.tracks[t as int].clips),
                        secs as int,
                        s.width as int,
                        self.effective_view_duration() as int,
                    ),
                )
            } else {
                secs
            },
            None => secs,
        }
    }
}

impl App {
    /// Snaps a clip's offset to the edges of the other clips of the track.
    pub fn snap_offset(&self, track_idx: usize, skip_clip: usize, desired: Secs, clip_dur: Secs) -> (r:
        Secs)
        requires
            self@.ok(),
            self@.config is Some ==> track_idx < self@.tracks.len(),
        ensures
            r == self@.snap_offset(
                others(self@.tracks[track_idx as int].clips, seq![skip_clip]),
                desired,
                clip_dur,
            ),
    {
        let width: u32 = match self.config {
            Some(s) => s.width,
            None => return desired,
        };
        let ghost clips = self@.tracks[track_idx as int].clips;
        let list: &Vec<Clip> = &self.tracks[track_idx].clips;
        assert(clips == crate::track::clip_views(list@));
        let ghost skip = seq![skip_clip];
        let mut snap: Snap = Snap::begin(desired, width, self.effective_view_duration());
        let mut i: usize = 0;
        assert(clips.subrange(0, 0) =~= Seq::empty());
        while i < list.len()
            invariant
                i <= list@.len(),
                clips == crate::track::clip_views(list@),
                crate::track::clips_ok(clips),
                skip == seq![skip_clip],
                snap.seen(edge_targets(others(clips.subrange(0, i as int), skip), clip_dur as int)),
                snap.desired == desired,
                snap.width == width,
                snap.view == self@.effective_view_duration(),
            decreases list@.len() - i,
        {
            let ghost upto = clips.subrange(0, i + 1);
            let ghost c = clips[i as int];
            assert(c == list@[i as int]@);
            assert(upto.drop_last() =~= clips.subrange(0, i as int));
            assert(skip.contains(i) <==> i == skip_clip) by {
                assert(skip[0] == skip_clip);
            }
            if i != skip_clip {
                let start: i128 = list[i].offset_secs as i128;
                let end: i128 = list[i].end_secs();
                let dur: i128 = clip_dur as i128;
                let ghost t0 = edge_targets(others(clips.subrange(0, i as int), skip), clip_dur as int);
                proof {
                    let o = others(upto, skip);
                    assert(o.drop_last() =~= others(clips.subrange(0, i as int), skip));
                    assert(edge_targets(o, clip_dur as int) =~= t0.push(end as int).push(
                        start - dur,
                    ).push(start as int).push(end - dur));
                }
                snap.look(end, Ghost(t0));
                snap.look(start - dur, Ghost(t0.push(end as int)));
                snap.look(start, Ghost(t0.push(end as int).push(start - dur)));
                snap.look(
                    end - dur,
                    Ghost(t0.push(end as int).push(start - dur).push(start as int)),
                );
            }
            i = i + 1;
        }
        assert(clips.subrange(0, i as int) =~= clips);
        to_secs(snap.best)
    }

    /// Snaps a group's outer edges to those of the clips outside the group: `skip_clips` are the
    /// indices of the group, `desired_left` is where its leftmost clip is dragged to, and
    /// `group_span` is the distance from there to the end of its rightmost clip.
    pub fn snap_offset_group(
        &self,
        track_idx: usize,
        skip_clips: &[usize],
        desired_left: Secs,
        group_span: i128,
    ) -> (r: Secs)
        requires
            self@.ok(),
            self@.config is Some ==> track_idx < self@.tracks.len(),
            -0x2_0000_0000_0000_0000 <= group_span <= 0x2_0000_0000_0000_0000,
        ensures
            r == self@.snap_offset_group(
                others(self@.tracks[track_idx as int].clips, skip_clips@),
                desired_left,
                group_span as int,
            ),
    {
        let width: u32 = match self.config {
            Some(s) => s.width,
            None => return desired_left,
        };
        let ghost clips = self@.tracks[track_idx as int].clips;
        let list: &Vec<Clip> = &self.tracks[track_idx].clips;
        assert(clips == crate::track::clip_views(list@));
        let ghost skip = skip_clips@;
        let mut snap: Snap = Snap::begin(desired_left, width, self.effective_view_duration());
        let mut i: usize = 0;
        assert(clips.subrange(0, 0) =~= Seq::empty());
        while i < list.len()
            invariant
                i <= list@.len(),
                clips == crate::track::clip_views(list@),
                crate::track::clips_ok(clips),
                skip == skip_clips@,
                -0x2_0000_0000_0000_0000 <= group_span <= 0x2_0000_0000_0000_0000,
                snap.seen(side_targets(others(clips.subrange(0, i as int), skip), group_span as int)),
                snap.desired == desired_left,
                snap.width == width,
                snap.view == self@.effective_view_duration(),
            decreases list@.len() - i,
        {
            let ghost upto = clips.subrange(0, i + 1);
            let ghost c = clips[i as int];
            assert(c == list@[i as int]@);
            assert(upto.drop_last() =~= clips.subrange(0, i as int));
            if !is_listed(skip_clips, i) {
                let start: i128 = list[i].offset_secs as i128;
                let end: i128 = list[i].end_secs();
                let ghost t0 = side_targets(
                    others(clips.subrange(0, i as int), skip),
                    group_span as int,
                );
                proof {
                    let o = others(upto, skip);
                    assert(o.drop_last() =~= others(clips.subrange(0, i as int), skip));
                    assert(side_targets(o, group_span as int) =~= t0.push(end as int).push(
                        start - group_span,
                    ));
                }
                snap.look(end, Ghost(t0));
                snap.look(start - group_span, Ghost(t0.push(end as int)));
            }
            i = i + 1;
        }
        assert(clips.subrange(0, i as int) =~= clips);
        to_secs(snap.best)
    }

    /// Snaps a time to the nearest clip edge (start or end) of a track.
    pub fn snap_to_clip_edges(&self, track_idx: usize, secs: Secs) -> (r: Secs)
        requires
            self@.ok(),
        ensures
            r == self@.snap_to_clip_edges(track_idx, secs),
    {
        let width: u32 = match self.config {
            Some(s) => s.width,
            None => return secs,
        };
        if track_idx >= self.tracks.len() {
            return secs;
        }
        let ghost clips = self@.tracks[track_idx as int].clips;
        let list: &Vec<Clip> = &self.tracks[track_idx].clips;
        assert(clips == crate::track::clip_views(list@));
        let mut snap: Snap = Snap::begin(secs, width, self.effective_view_duration());
        let mut i: usize = 0;
        assert(clips.subrange(0, 0) =~= Seq::empty());
        while i < list.len()
            invariant
                i <= list@.len(),
                clips == crate::track::clip_views(list@),
                crate::track::clips_ok(clips),
                snap.seen(edges(clips.subrange(0, i as int))),
                snap.desired == secs,
                snap.width == width,
                snap.view == self@.effective_view_duration(),
            decreases list@.len() - i,
        {
            let ghost upto = clips.subrange(0, i + 1);
            let ghost c = clips[i as int];
            assert(c == list@[i as int]@);
            assert(upto.drop_last() =~= clips.subrange(0, i as int));
            let start: i128 = list[i].offset_secs as i128;
            let end: i128 = list[i].end_secs();
            let ghost t0 = edges(clips.subrange(0, i as int));
            assert(edges(upto) =~= t0.push(start as int).push(end as int));
            snap.look(start, Ghost(t0));
            snap.look(end, Ghost(t0.push(start as int)));
            i = i + 1;
        }
        assert(clips.subrange(0, i as int) =~= clips);
        to_secs(snap.best)
    }
}

/// Whether a clip that lasts `dur` can start at `x`: not before the start of the timeline, and
/// overlapping none of the others.
pub open spec fn is_free(rest: Seq<ClipView>, dur: int, x: int) -> bool {
    &&& x >= 0
    &&& forall|i: int| 0 <= i < rest.len() ==> !(#[trigger] rest[i]).overlaps(x, x + dur)
}

/// Whether `x` is the free offset that is nearest to `desired`, the earlier of equally near ones.
pub open spec fn is_nearest_free(rest: Seq<ClipView>, desired: int, dur: int, x: int) -> bool {
    &&& is_free(rest, dur, x)
    &&& forall|y: int| #[trigger]
        is_free(rest, dur, y) ==> {
            ||| crate::time::distance(x, desired) < crate::time::distance(y, desired)
            ||| crate::time::distance(x, desired) == crate::time::distance(y, desired) && x <= y
        }
}

/// The free offset that is nearest to `desired`.
pub open spec fn nearest_free(rest: Seq<ClipView>, desired: int, dur: int) -> int {
    choose|x: int| is_nearest_free(rest, desired, dur, x)
}

/// There is one nearest free offset only.
proof fn lemma_nearest_free(rest: Seq<ClipView>, desired: int, dur: int, x: int)
    requires
        is_nearest_free(rest, desired, dur, x),
    ensures
        nearest_free(rest, desired, dur) == x,
{
    let y = nearest_free(rest, desired, dur);
    assert(is_nearest_free(rest, desired, dur, y));
    assert(is_free(rest, dur, x) && is_free(rest, dur, y));
}

/// There is always a free offset, so that one is the nearest.
pub proof fn lemma_free_exists(rest: Seq<ClipView>, desired: int, dur: int)
    requires
        dur >= 0,
    ensures
        is_nearest_free(rest, desired, dur, nearest_free(rest, desired, dur)),
{
    let end = crate::track::latest_end(rest);
    crate::track::law_latest_end(rest);
    assert(is_free(rest, dur, end));
    lemma_search_free(rest, desired, dur, end, 0);
}

/// Looks for the nearest free offset, from distance `d` on.
proof fn lemma_search_free(rest: Seq<ClipView>, desired: int, dur: int, end: int, d: int)
    requires
        is_free(rest, dur, end),
        0 <= d <= crate::time::distance(end, desired),
        forall|y: int| #[trigger]
            is_free(rest, dur, y) ==> crate::time::distance(y, desired) >= d,
    ensures
        is_nearest_free(rest, desired, dur, nearest_free(rest, desired, dur)),
    decreases crate::time::distance(end, desired) - d,
{
    if is_free(rest, dur, desired - d) {
        assert(is_nearest_free(rest, desired, dur, desired - d));
    } else if is_free(rest, dur, desired + d) {
        assert forall|y: int| #[trigger] is_free(rest, dur, y) implies crate::time::distance(
            desired + d,
            desired,
        ) < crate::time::distance(y, desired) || crate::time::distance(desired + d, desired)
            == crate::time::distance(y, desired) && desired + d <= y by {
            if crate::time::distance(y, desired) == d {
                assert(y == desired - d || y == desired + d);
            }
        }
        assert(is_nearest_free(rest, desired, dur, desired + d));
    } else {
        assert forall|y: int| #[trigger] is_free(rest, dur, y) implies crate::time::distance(
            y,
            desired,
        ) >= d + 1 by {
            if crate::time::distance(y, desired) == d {
                assert(y == desired - d || y == desired + d);
            }
        }
        lemma_search_free(rest, desired, dur, end, d + 1);
    }
}

/// Whether the clips are in the order in which they start.
spec fn in_order(list: Seq<(i128, i128)>) -> bool {
    forall|i: int, j: int| 0 <= i <= j < list.len() ==> (#[trigger] list[i]).0 <= (#[trigger] list[j]).0
}

/// Whether the intervals are those of the clips.
spec fn spans(list: Seq<(i128, i128)>, rest: Seq<ClipView>) -> bool {
    &&& forall|i: int|
        0 <= i < rest.len() ==> list.contains(((#[trigger] rest[i]).offset_secs as i128, rest[i].end() as i128))
    &&& forall|k: int|
        0 <= k < list.len() ==> exists|i: int|
            0 <= i < rest.len() && (#[trigger] rest[i]).offset_secs == (#[trigger] list[k]).0
                && rest[i].end() == list[k].1
    &&& forall|k: int|
        0 <= k < list.len() ==> i64::MIN <= (#[trigger] list[k]).0 <= list[k].1 <= list[k].0 + i64::MAX
            && list[k].0 <= i64::MAX
}

/// Puts an interval in its place among those that are in order.
fn put_in_order(list: &mut Vec<(i128, i128)>, x: (i128, i128))
    requires
        in_order(old(list)@),
    ensures
        in_order(final(list)@),
        exists|k: int| 0 <= k <= old(list)@.len() && final(list)@ == #[trigger] old(list)@.insert(k, x),
{
    let mut k: usize = list.len();
    while k > 0 && list[k - 1].0 > x.0
        invariant
            0 <= k <= list@.len(),
            in_order(list@),
            forall|j: int| k <= j < list@.len() ==> (#[trigger] list@[j]).0 > x.0,
        decreases k,
    {
        k = k - 1;
    }
    let ghost before = list@;
    list.insert(k, x);
    proof {
        assert(list@ == before.insert(k as int, x));
        assert forall|i: int, j: int| 0 <= i <= j < list@.len() implies (#[trigger] list@[i]).0 <= (
        #[trigger] list@[j]).0 by {
            if k > 0 {
                assert(before[k - 1].0 <= x.0);
            }
            if i < k {
                assert(list@[i] == before[i]);
            } else if i > k {
                assert(list@[i] == before[i - 1]);
            }
            if j < k {
                assert(list@[j] == before[j]);
            } else if j > k {
                assert(list@[j] == before[j - 1]);
            }
        }
    }
}

/// The intervals of some clips, with that of one more clip put in, are those of all of them.
proof fn lemma_spans_more(list: Seq<(i128, i128)>, rest: Seq<ClipView>, k: int, c: ClipView)
    requires
        spans(list, rest),
        0 <= k <= list.len(),
        c.ok(),
    ensures
        spans(list.insert(k, (c.offset_secs as i128, c.end() as i128)), rest.push(c)),
{
    let x = (c.offset_secs as i128, c.end() as i128);
    let r = list.insert(k, x);
    let more = rest.push(c);
    crate::time::lemma_time_of_grows(0, c.mono.len() as int, c.sample_rate as int);
    assert forall|j: int| 0 <= j < more.len() implies r.contains(
        ((#[trigger] more[j]).offset_secs as i128, more[j].end() as i128),
    ) by {
        if j < rest.len() {
            assert(more[j] == rest[j]);
            let y = (rest[j].offset_secs as i128, rest[j].end() as i128);
            let n = choose|n: int| 0 <= n < list.len() && list[n] == y;
            if n < k {
                assert(r[n] == y);
            } else {
                assert(r[n + 1] == y);
            }
        } else {
            assert(r[k] == x);
        }
    }
    assert forall|n: int| 0 <= n < r.len() implies exists|j: int|
        0 <= j < more.len() && (#[trigger] more[j]).offset_secs == (#[trigger] r[n]).0
            && more[j].end() == r[n].1 by {
        if n == k {
            assert(more[rest.len() as int] == c);
        } else {
            let m = if n < k { n } else { n - 1 };
            assert(r[n] == list[m]);
            let j = choose|j: int|
                0 <= j < rest.len() && (#[trigger] rest[j]).offset_secs == list[m].0
                    && rest[j].end() == list[m].1;
            assert(more[j] == rest[j]);
        }
    }
    assert forall|n: int| 0 <= n < r.len() implies i64::MIN <= (#[trigger] r[n]).0 <= r[n].1
        <= r[n].0 + i64::MAX && r[n].0 <= i64::MAX by {
        if n != k {
            let m = if n < k { n } else { n - 1 };
            assert(r[n] == list[m]);
        }
    }
}

/// The intervals of the clips that are not to skip, in the order in which they start.
fn intervals(clips: &Vec<Clip>, skip: &[usize]) -> (r: Vec<(i128, i128)>)
    requires
        crate::track::clips_ok(crate::track::clip_views(clips@)),
    ensures
        in_order(r@),
        spans(r@, others(crate::track::clip_views(clips@), skip@)),
{
    let ghost all = crate::track::clip_views(clips@);
    let mut r: Vec<(i128, i128)> = Vec::new();
    let mut i: usize = 0;
    assert(all.subrange(0, 0) =~= Seq::empty());
    while i < clips.len()
        invariant
            i <= clips@.len(),
            all == crate::track::clip_views(clips@),
            crate::track::clips_ok(all),
            in_order(r@),
            spans(r@, others(all.subrange(0, i as int), skip@)),
        decreases clips@.len() - i,
    {
        let ghost upto = all.subrange(0, i + 1);
        let ghost c = all[i as int];
        assert(c == clips@[i as int]@);
        assert(upto.drop_last() =~= all.subrange(0, i as int));
        assert(upto.len() - 1 == i);
        if !is_listed(skip, i) {
            let ghost rest = others(all.subrange(0, i as int), skip@);
            let ghost before = r@;
            let x: (i128, i128) = (clips[i].offset_secs as i128, clips[i].end_secs());
            put_in_order(&mut r, x);
            proof {
                let k = choose|k: int| 0 <= k <= before.len() && r@ == #[trigger] before.insert(k, x);
                assert(others(upto, skip@) == rest.push(c));
                lemma_spans_more(before, rest, k, c);
            }
        } else {
            assert(others(upto, skip@) == others(all.subrange(0, i as int), skip@));
        }
        i = i + 1;
    }
    assert(all.subrange(0, i as int) =~= all);
    r
}

/// The free offset nearest to `desired` among intervals in order.
fn free_offset(list: &Vec<(i128, i128)>, desired: i128, dur: i128, Ghost(rest): Ghost<Seq<ClipView>>) -> (r:
    i128)
    requires
        in_order(list@),
        spans(list@, rest),
        i64::MIN <= desired <= i64::MAX,
        0 <= dur <= i64::MAX,
    ensures
        is_nearest_free(rest, desired as int, dur as int, r as int),
{
    let mut from: i128 = 0;
    let mut best: Option<i128> = None;
    let mut i: usize = 0;
    while i < list.len()
        invariant
            i <= list@.len(),
            in_order(list@),
            spans(list@, rest),
            i64::MIN <= desired <= i64::MAX,
            0 <= dur <= i64::MAX,
            0 <= from <= 2 * i64::MAX,
            forall|k: int| 0 <= k < i ==> (#[trigger] list@[k]).1 <= from,
            from == 0 || exists|k: int| 0 <= k < i && (#[trigger] list@[k]).1 == from,
            best matches Some(b) ==> is_free(rest, dur as int, b as int) && 0 <= b <= from,
            forall|y: int| #[trigger]
                is_free(rest, dur as int, y) && y < from ==> {
                    &&& best matches Some(b)
                    &&& (crate::time::distance(b as int, desired as int) < crate::time::distance(
                        y,
                        desired as int,
                    ) || crate::time::distance(b as int, desired as int) == crate::time::distance(
                        y,
                        desired as int,
                    ) && b <= y)
                },
        decreases list@.len() - i,
    {
        let (start, end): (i128, i128) = list[i];
        let ghost best_before = best;
        if start - from >= dur {
            let x: i128 = clamp_time(desired, from, start - dur);
            proof {
                lemma_gap_is_free(list@, rest, i as int, from as int, dur as int, x as int);
            }
            match best {
                Some(b) => {
                    if apart(x, desired) < apart(b, desired) {
                        best = Some(x);
                    }
                },
                None => {
                    best = Some(x);
                },
            }
        }
        let next: i128 = later(from, end);
        proof {
            assert forall|y: int| #[trigger]
                is_free(rest, dur as int, y) && y < next implies {
                    &&& best matches Some(b)
                    &&& (crate::time::distance(b as int, desired as int) < crate::time::distance(
                        y,
                        desired as int,
                    ) || crate::time::distance(b as int, desired as int) == crate::time::distance(
                        y,
                        desired as int,
                    ) && b <= y)
                } by {
                if y < from {
                    assert(best_before is Some);
                } else {
                    let j = choose|j: int|
                        0 <= j < rest.len() && (#[trigger] rest[j]).offset_secs == list@[i as int].0
                            && rest[j].end() == list@[i as int].1;
                    assert(!rest[j].overlaps(y, y + dur));
                    assert(y + dur <= start);
                }
            }
            assert(list@[i as int].1 == end);
        }
        from = next;
        i = i + 1;
    }
    let last: i128 = later(desired, from);
    proof {
        lemma_end_is_free(list@, rest, from as int, dur as int, last as int);
    }
    match best {
        Some(b) => {
            if apart(last, desired) < apart(b, desired) {
                last
            } else {
                b
            }
        },
        None => last,
    }
}

/// How far two times are apart.
fn apart(a: i128, b: i128) -> (r: i128)
    requires
        -0x4_0000_0000_0000_0000 <= a <= 0x4_0000_0000_0000_0000,
        -0x4_0000_0000_0000_0000 <= b <= 0x4_0000_0000_0000_0000,
    ensures
        r == crate::time::distance(a as int, b as int),
{
    if a >= b {
        a - b
    } else {
        b - a
    }
}

/// A clip that starts after the first intervals and ends before the next is free.
proof fn lemma_gap_is_free(
    list: Seq<(i128, i128)>,
    rest: Seq<ClipView>,
    i: int,
    from: int,
    dur: int,
    x: int,
)
    requires
        in_order(list),
        spans(list, rest),
        0 <= i < list.len(),
        0 <= from <= x,
        x + dur <= list[i].0,
        forall|k: int| 0 <= k < i ==> (#[trigger] list[k]).1 <= from,
    ensures
        is_free(rest, dur, x),
{
    assert forall|j: int| 0 <= j < rest.len() implies !(#[trigger] rest[j]).overlaps(x, x + dur) by {
        let y = (rest[j].offset_secs as i128, rest[j].end() as i128);
        let k = choose|k: int| 0 <= k < list.len() && list[k] == y;
        if k >= i {
            assert(list[i].0 <= list[k].0);
        }
    }
}

/// A clip that starts after all intervals is free.
proof fn lemma_end_is_free(list: Seq<(i128, i128)>, rest: Seq<ClipView>, from: int, dur: int, x: int)
    requires
        spans(list, rest),
        0 <= from <= x,
        forall|k: int| 0 <= k < list.len() ==> (#[trigger] list[k]).1 <= from,
    ensures
        is_free(rest, dur, x),
{
    assert forall|j: int| 0 <= j < rest.len() implies !(#[trigger] rest[j]).overlaps(x, x + dur) by {
        let y = (rest[j].offset_secs as i128, rest[j].end() as i128);
        let k = choose|k: int| 0 <= k < list.len() && list[k] == y;
    }
}

impl App {
    /// Clamps a clip's offset so that the clip overlaps no other clip of the track: returns the
    /// nearest free offset.
    pub fn clamp_no_overlap(
        &self,
        track_idx: usize,
        skip_clip: usize,
        desired: Secs,
        clip_dur: Secs,
    ) -> (r: Secs)
        requires
            self@.ok(),
            track_idx < self@.tracks.len(),
            clip_dur >= 0,
        ensures
            r == crate::time::sat_secs(
                nearest_free(
                    others(self@.tracks[track_idx as int].clips, seq![skip_clip]),
                    desired as int,
                    clip_dur as int,
                ),
            ),
            r < i64::MAX ==> is_nearest_free(
                others(self@.tracks[track_idx as int].clips, seq![skip_clip]),
                desired as int,
                clip_dur as int,
                r as int,
            ),
    {
        let ghost clips = self@.tracks[track_idx as int].clips;
        assert(self@.tracks[track_idx as int] == self.tracks@[track_idx as int]@);
        let skip: [usize; 1] = [skip_clip];
        let ghost rest = others(clips, seq![skip_clip]);
        assert(skip@ =~= seq![skip_clip]);
        let list: Vec<(i128, i128)> = intervals(&self.tracks[track_idx].clips, &skip);
        let x: i128 = free_offset(&list, desired as i128, clip_dur as i128, Ghost(rest));
        proof {
            lemma_nearest_free(rest, desired as int, clip_dur as int, x as int);
        }
        to_secs(x)
    }
}

} // verus!
