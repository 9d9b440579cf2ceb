//! Stretches of a track: which clips overlap one, copying it and taking it out.

use vstd::prelude::*;
use crate::app::{App, AppView};
use crate::audio::{Clip, ClipView};
use crate::edit::swap_clips;
use crate::time::{earlier, later, to_secs, Secs};

verus! {

impl ClipView {
    /// Whether the clip overlaps the stretch from `s0` to `s1`.
    pub open spec fn overlaps(self, s0: int, s1: int) -> bool {
        s0 < self.end() && s1 > self.offset_secs
    }

    /// Where the stretch that starts at `s0` starts in the clip.
    pub open spec fn region_start(self, s0: int) -> int {
        crate::time::larger(s0 - self.offset_secs, 0)
    }

    /// Where the stretch that ends at `s1` ends in the clip.
    pub open spec fn region_end(self, s1: int) -> int {
        crate::time::smaller(s1 - self.offset_secs, self.duration())
    }

    /// Whether the clip has something of the stretch from `s0` to `s1`.
    pub open spec fn holds_region(self, s0: int, s1: int) -> bool {
        self.overlaps(s0, s1) && self.region_end(s1) > self.region_start(s0)
    }

    /// What the clip has of the stretch from `s0` to `s1`, placed relative to `s0`.
    pub open spec fn copied(self, s0: Secs, s1: Secs) -> ClipView {
        self.slice(self.region_start(s0 as int) as Secs, self.region_end(s1 as int) as Secs).at(
            crate::time::sat_secs(self.offset_secs + self.region_start(s0 as int) - s0),
        )
    }

    /// What is left of the clip without the stretch from `s0` to `s1`.
    pub open spec fn without(self, s0: Secs, s1: Secs) -> Seq<ClipView> {
        if self.holds_region(s0 as int, s1 as int) {
            option_seq(self.before(self.region_start(s0 as int) as Secs)) + option_seq(
                self.after(self.region_end(s1 as int) as Secs),
            )
        } else {
            seq![self]
        }
    }
}

/// The clip of an option, if there is one.
pub open spec fn option_seq(c: Option<ClipView>) -> Seq<ClipView> {
    match c {
        Some(c) => seq![c],
        None => Seq::empty(),
    }
}

/// The indices of the clips that overlap the stretch from `s0` to `s1`, in order.
pub open spec fn overlapping(clips: Seq<ClipView>, s0: int, s1: int) -> Seq<usize>
    decreases clips.len(),
{
    if clips.len() == 0 {
        Seq::empty()
    } else {
        let rest = overlapping(clips.drop_last(), s0, s1);
        if clips.last().overlaps(s0, s1) {
            rest.push((clips.len() - 1) as usize)
        } else {
            rest
        }
    }
}

/// What some clips have of the stretch from `s0` to `s1`, placed relative to `s0`.
pub open spec fn region_of(clips: Seq<ClipView>, s0: Secs, s1: Secs) -> Seq<ClipView>
    decreases clips.len(),
{
    if clips.len() == 0 {
        Seq::empty()
    } else {
        let rest = region_of(clips.drop_last(), s0, s1);
        if clips.last().holds_region(s0 as int, s1 as int) {
            rest.push(clips.last().copied(s0, s1))
        } else {
            rest
        }
    }
}

/// What is left of some clips without the stretch from `s0` to `s1`.
pub open spec fn without_region(clips: Seq<ClipView>, s0: Secs, s1: Secs) -> Seq<ClipView>
    decreases clips.len(),
{
    if clips.len() == 0 {
        Seq::empty()
    } else {
        without_region(clips.drop_last(), s0, s1) + clips.last().without(s0, s1)
    }
}

/// The clips of track `t`, or none if there is no such track.
pub open spec fn clips_of(v: AppView, t: usize) -> Seq<ClipView> {
    if t < v.tracks.len() {
        v.tracks[t as int].clips
    } else {
        Seq::empty()
    }
}

/// The indices that are found are those of the clips that overlap the stretch, each once, in
/// order.
pub proof fn law_overlapping(clips: Seq<ClipView>, s0: int, s1: int)
    requires
        clips.len() <= usize::MAX,
    ensures
        forall|i: int|
            0 <= i < clips.len() ==> ((#[trigger] clips[i]).overlaps(s0, s1) <==> overlapping(
                clips,
                s0,
                s1,
            ).contains(i as usize)),
        forall|k: int|
            0 <= k < overlapping(clips, s0, s1).len() ==> #[trigger] overlapping(clips, s0, s1)[k]
                < clips.len(),
        forall|j: int, k: int|
            0 <= j < k < overlapping(clips, s0, s1).len() ==> #[trigger] overlapping(
                clips,
                s0,
                s1,
            )[j] < #[trigger] overlapping(clips, s0, s1)[k],
    decreases clips.len(),
{
    if clips.len() > 0 {
        let d = clips.drop_last();
        let n = (clips.len() - 1) as usize;
        law_overlapping(d, s0, s1);
        let rest = overlapping(d, s0, s1);
        let r = overlapping(clips, s0, s1);
        assert(clips.last() == clips[n as int]);
        assert forall|i: int| 0 <= i < clips.len() implies ((#[trigger] clips[i]).overlaps(s0, s1)
            <==> r.contains(i as usize)) by {
            if i < n {
                assert(d[i] == clips[i]);
                if rest.contains(i as usize) {
                    let k = choose|k: int| 0 <= k < rest.len() && rest[k] == i as usize;
                    assert(r[k] == i as usize);
                }
                if r.contains(i as usize) {
                    let k = choose|k: int| 0 <= k < r.len() && r[k] == i as usize;
                    assert(k < rest.len());
                    assert(rest[k] == i as usize);
                }
            } else {
                if clips[i].overlaps(s0, s1) {
                    assert(r[rest.len() as int] == n);
                } else {
                    assert(r == rest);
                }
            }
        }
    }
}

impl App {
    /// The indices of the clips of a track that overlap the time range [s0, s1).
    pub fn clips_overlapping_range(&self, track_idx: usize, s0: Secs, s1: Secs) -> (r: Vec<usize>)
        requires
            self@.ok(),
        ensures
            r@ == overlapping(clips_of(self@, track_idx), s0 as int, s1 as int),
    {
        let mut r: Vec<usize> = Vec::new();
        if track_idx >= self.tracks.len() {
            return r;
        }
        let ghost clips = self@.tracks[track_idx as int].clips;
        let list: &Vec<Clip> = &self.tracks[track_idx].clips;
        assert(clips == crate::track::clip_views(list@));
        let mut i: usize = 0;
        assert(clips.subrange(0, 0) =~= Seq::empty());
        while i < list.len()
            invariant
                i <= list@.len(),
                clips == crate::track::clip_views(list@),
                crate::track::clips_ok(clips),
                r@ == overlapping(clips.subrange(0, i as int), s0 as int, s1 as int),
            decreases list@.len() - i,
        {
            assert(clips[i as int] == list@[i as int]@);
            assert(clips.subrange(0, i + 1).drop_last() =~= clips.subrange(0, i as int));
            if (s0 as i128) < list[i].end_secs() && s1 > list[i].offset_secs {
                r.push(i);
            }
            i = i + 1;
        }
        assert(clips.subrange(0, i as int) =~= clips);
        r
    }

    /// Copies the region [s0, s1) from all overlapping clips of a track. Each returned clip is
    /// sliced to the selection bounds, with its offset relative to s0.
    pub fn copy_region_clips(&self, track_idx: usize, s0: Secs, s1: Secs) -> (r: Vec<Clip>)
        requires
            self@.ok(),
        ensures
            crate::track::clip_views(r@) == region_of(clips_of(self@, track_idx), s0, s1),
            crate::track::clips_ok(crate::track::clip_views(r@)),
    {
        let mut r: Vec<Clip> = Vec::new();
        assert(crate::track::clip_views(r@) =~= Seq::empty());
        if track_idx >= self.tracks.len() {
            return r;
        }
        let ghost clips = self@.tracks[track_idx as int].clips;
        let list: &Vec<Clip> = &self.tracks[track_idx].clips;
        assert(clips == crate::track::clip_views(list@));
        let mut i: usize = 0;
        assert(clips.subrange(0, 0) =~= Seq::empty());
        while i < list.len()
            invariant
                i <= list@.len(),
                clips == crate::track::clip_views(list@),
                crate::track::clips_ok(clips),
                crate::track::clip_views(r@) == region_of(clips.subrange(0, i as int), s0, s1),
                crate::track::clips_ok(crate::track::clip_views(r@)),
            decreases list@.len() - i,
        {
            let ghost c = clips[i as int];
            assert(c == list@[i as int]@);
            assert(clips.subrange(0, i + 1).drop_last() =~= clips.subrange(0, i as int));
            let clip: &Clip = &list[i];
            let end: i128 = clip.end_secs();
            if (s0 as i128) < end && s1 > clip.offset_secs {
                let from: i128 = later(s0 as i128 - clip.offset_secs as i128, 0);
                let to: i128 = earlier(s1 as i128 - clip.offset_secs as i128, clip.duration_secs() as i128);
                if to > from {
                    let ghost so_far = crate::track::clip_views(r@);
                    let mut sliced: Clip = clip.slice(from as Secs, to as Secs);
                    sliced.offset_secs = to_secs(clip.offset_secs as i128 + from - s0 as i128);
                    assert(sliced@ == c.copied(s0, s1));
                    r.push(sliced);
                    assert(crate::track::clip_views(r@) =~= so_far.push(c.copied(s0, s1)));
                }
            }
            i = i + 1;
        }
        assert(clips.subrange(0, i as int) =~= clips);
        r
    }

    /// Removes the time range [s0, s1) from all overlapping clips of a track.
    pub fn remove_region_from_track(&mut self, track_idx: usize, s0: Secs, s1: Secs)
        requires
            old(self)@.ok(),
        ensures
            final(self)@.ok(),
            final(self)@ == (if track_idx < old(self)@.tracks.len() {
                AppView {
                    tracks: crate::edit::with_clips(
                        old(self)@.tracks,
                        track_idx as int,
                        without_region(old(self)@.tracks[track_idx as int].clips, s0, s1),
                    ),
                    ..old(self)@
                }
            } else {
                old(self)@
            }),
    {
        if track_idx >= self.tracks.len() {
            return;
        }
        let ghost clips = self@.tracks[track_idx as int].clips;
        assert(clips == crate::track::clip_views(self.tracks@[track_idx as int].clips@));
        let r: Vec<Clip> = cut_region(&self.tracks[track_idx].clips, s0, s1);
        swap_clips(&mut self.tracks, track_idx, r);
        proof {
            crate::edit::lemma_with_clips_ok(
                old(self)@.tracks,
                track_idx as int,
                without_region(clips, s0, s1),
            );
        }
    }
}

/// Takes the time range [s0, s1) out of some clips.
fn cut_region(list: &Vec<Clip>, s0: Secs, s1: Secs) -> (r: Vec<Clip>)
    requires
        crate::track::clips_ok(crate::track::clip_views(list@)),
    ensures
        crate::track::clip_views(r@) == without_region(crate::track::clip_views(list@), s0, s1),
        crate::track::clips_ok(crate::track::clip_views(r@)),
{
    let ghost clips = crate::track::clip_views(list@);
    let mut r: Vec<Clip> = Vec::new();
    let mut i: usize = 0;
    assert(crate::track::clip_views(r@) =~= Seq::empty());
    assert(clips.subrange(0, 0) =~= Seq::empty());
    while i < list.len()
        invariant
            i <= list@.len(),
            clips == crate::track::clip_views(list@),
            crate::track::clips_ok(clips),
            crate::track::clip_views(r@) == without_region(clips.subrange(0, i as int), s0, s1),
            crate::track::clips_ok(crate::track::clip_views(r@)),
        decreases list@.len() - i,
    {
        let ghost c = clips[i as int];
        let ghost so_far = crate::track::clip_views(r@);
        assert(c == list@[i as int]@);
        assert(c.ok());
        assert(clips.subrange(0, i + 1).drop_last() =~= clips.subrange(0, i as int));
        assert(clips.subrange(0, i + 1).last() == c);
        let clip: &Clip = &list[i];
        let from: i128 = later(s0 as i128 - clip.offset_secs as i128, 0);
        let to: i128 = earlier(s1 as i128 - clip.offset_secs as i128, clip.duration_secs() as i128);
        if (s0 as i128) < clip.end_secs() && s1 > clip.offset_secs && to > from {
            let (left, right): (Option<Clip>, Option<Clip>) = clip.remove_region(
                from as Secs,
                to as Secs,
            );
            let ghost before = c.before(from as Secs);
            let ghost after = c.after(to as Secs);
            match left {
                Some(l) => {
                    r.push(l);
                },
                None => {},
            }
            assert(crate::track::clip_views(r@) =~= so_far + option_seq(before));
            match right {
                Some(right) => {
                    r.push(right);
                },
                None => {},
            }
            assert(crate::track::clip_views(r@) =~= so_far + option_seq(before) + option_seq(after));
            assert(crate::track::clip_views(r@) =~= so_far + c.without(s0, s1));
        } else {
            r.push(clip.clone());
            assert(crate::track::clip_views(r@) =~= so_far + c.without(s0, s1));
        }
        i = i + 1;
    }
    assert(clips.subrange(0, i as int) =~= clips);
    r
}

impl ClipView {
    /// Whether the clip's length can be told exactly: it has a rate, its length fits in a [`Secs`],
    /// and its frames are no shorter than a flick.
    pub open spec fn measurable(self) -> bool {
        &&& crate::time::time_of(self.mono.len() as int, self.sample_rate as int) <= i64::MAX
        &&& 0 < self.sample_rate <= crate::time::FLICKS
    }
}

/// What is left of a clip without a stretch does not overlap the stretch.
proof fn lemma_pieces_clear(c: ClipView, s0: Secs, s1: Secs, k: int)
    requires
        c.ok(),
        c.measurable(),
        s0 < s1,
        0 <= k < c.without(s0, s1).len(),
        c.without(s0, s1)[k].duration() > 0,
    ensures
        !c.without(s0, s1)[k].overlaps(s0 as int, s1 as int),
{
    let p = c.without(s0, s1)[k];
    let rate = c.sample_rate as int;
    let frames = c.mono.len() as int;
    crate::time::law_time_holds_its_frames(frames, rate);
    if c.holds_region(s0 as int, s1 as int) {
        let from = c.region_start(s0 as int) as Secs;
        let to = c.region_end(s1 as int) as Secs;
        let before = option_seq(c.before(from));
        let after = option_seq(c.after(to));
        if k < before.len() {
            assert(p == before[k]);
            let n = c.frames_before(from as int);
            crate::time::law_frames_fit_their_time(from as int, rate);
            crate::time::lemma_time_of_grows(n, crate::time::frames_in(from as int, rate), rate);
            assert(p.mono.len() == n);
            assert(p.end() <= s0);
        } else {
            assert(p == after[k - before.len()]);
            assert(p.offset_secs == s1);
        }
    }
}

/// After the time range [s0, s1) is taken out of some clips, no clip with anything in it overlaps
/// the range.
pub proof fn law_region_is_gone(clips: Seq<ClipView>, s0: Secs, s1: Secs)
    requires
        crate::track::clips_ok(clips),
        forall|i: int| 0 <= i < clips.len() ==> (#[trigger] clips[i]).measurable(),
        s0 < s1,
    ensures
        forall|k: int|
            0 <= k < without_region(clips, s0, s1).len() && (#[trigger] without_region(
                clips,
                s0,
                s1,
            )[k]).duration() > 0 ==> !without_region(clips, s0, s1)[k].overlaps(
                s0 as int,
                s1 as int,
            ),
    decreases clips.len(),
{
    if clips.len() > 0 {
        let d = clips.drop_last();
        assert forall|i: int| 0 <= i < d.len() implies (#[trigger] d[i]).ok() && d[i].measurable() by {
            assert(d[i] == clips[i]);
        }
        law_region_is_gone(d, s0, s1);
        let c = clips.last();
        assert(c == clips[clips.len() - 1]);
        let rest = without_region(d, s0, s1);
        let r = without_region(clips, s0, s1);
        assert forall|k: int| 0 <= k < r.len() && (#[trigger] r[k]).duration() > 0 implies !r[k].overlaps(
            s0 as int,
            s1 as int,
        ) by {
            if k < rest.len() {
                assert(r[k] == rest[k]);
            } else {
                assert(r[k] == c.without(s0, s1)[k - rest.len()]);
                lemma_pieces_clear(c, s0, s1, k - rest.len());
            }
        }
    }
}

/// What is left of a clip without a time range: what was before the range, and ends by its start,
/// and then what was after the range, which starts at its end. A clip that does not overlap the
/// range is left as it is.
pub proof fn law_pieces_of_a_clip(c: ClipView, s0: Secs, s1: Secs)
    requires
        c.ok(),
        c.measurable(),
        s0 < s1,
    ensures
        !c.overlaps(s0 as int, s1 as int) ==> c.without(s0, s1) == seq![c],
        c.holds_region(s0 as int, s1 as int) ==> {
            let left = c.before(c.region_start(s0 as int) as Secs);
            let right = c.after(c.region_end(s1 as int) as Secs);
            &&& c.without(s0, s1) == option_seq(left) + option_seq(right)
            &&& left matches Some(p) ==> p.offset_secs == c.offset_secs && p.end() <= s0
            &&& right matches Some(p) ==> p.offset_secs == s1
        },
{
    if c.holds_region(s0 as int, s1 as int) {
        let rate = c.sample_rate as int;
        let from = c.region_start(s0 as int) as Secs;
        let n = c.frames_before(from as int);
        crate::time::law_time_holds_its_frames(c.mono.len() as int, rate);
        crate::time::law_frames_fit_their_time(from as int, rate);
        crate::time::lemma_time_of_grows(n, crate::time::frames_in(from as int, rate), rate);
        match c.before(from) {
            Some(p) => {
                assert(p.mono.len() == n);
            },
            None => {},
        }
    }
}

/// What is left of each clip stands in the place of the clip.
pub proof fn law_pieces_stay_in_place(clips: Seq<ClipView>, i: int, s0: Secs, s1: Secs)
    requires
        0 <= i < clips.len(),
    ensures
        without_region(clips, s0, s1) == without_region(clips.subrange(0, i), s0, s1)
            + clips[i].without(s0, s1) + without_region(
            clips.subrange(i + 1, clips.len() as int),
            s0,
            s1,
        ),
    decreases clips.len(),
{
    let n = clips.len() as int;
    let d = clips.drop_last();
    if i == n - 1 {
        assert(d =~= clips.subrange(0, i));
        assert(clips.subrange(n, n) =~= Seq::empty());
        assert(without_region(clips, s0, s1) =~= without_region(d, s0, s1) + clips[i].without(s0, s1)
            + Seq::empty());
    } else {
        law_pieces_stay_in_place(d, i, s0, s1);
        let tail = clips.subrange(i + 1, n);
        assert(d.subrange(0, i) =~= clips.subrange(0, i));
        assert(d.subrange(i + 1, n - 1) =~= tail.drop_last());
        assert(tail.last() == clips.last());
        assert(without_region(clips, s0, s1) =~= without_region(clips.subrange(0, i), s0, s1)
            + clips[i].without(s0, s1) + without_region(tail, s0, s1));
    }
}

/// Clips that have nothing of a time range stay as they are when the range is taken out.
proof fn lemma_nothing_to_remove(clips: Seq<ClipView>, s0: Secs, s1: Secs)
    requires
        forall|i: int|
            0 <= i < clips.len() ==> !(#[trigger] clips[i]).holds_region(s0 as int, s1 as int),
    ensures
        without_region(clips, s0, s1) == clips,
    decreases clips.len(),
{
    if clips.len() > 0 {
        let d = clips.drop_last();
        assert forall|i: int| 0 <= i < d.len() implies !(#[trigger] d[i]).holds_region(
            s0 as int,
            s1 as int,
        ) by {
            assert(d[i] == clips[i]);
        }
        lemma_nothing_to_remove(d, s0, s1);
        assert(clips.last() == clips[clips.len() - 1]);
        assert(without_region(clips, s0, s1) =~= clips);
    }
}

/// Taking the same time range out again changes nothing.
pub proof fn law_second_removal_changes_nothing(clips: Seq<ClipView>, s0: Secs, s1: Secs)
    requires
        crate::track::clips_ok(clips),
        forall|i: int| 0 <= i < clips.len() ==> (#[trigger] clips[i]).measurable(),
        s0 < s1,
    ensures
        without_region(without_region(clips, s0, s1), s0, s1) == without_region(clips, s0, s1),
{
    let r = without_region(clips, s0, s1);
    law_region_is_gone(clips, s0, s1);
    assert forall|k: int| 0 <= k < r.len() implies !(#[trigger] r[k]).holds_region(
        s0 as int,
        s1 as int,
    ) by {
        assert(r[k] == without_region(clips, s0, s1)[k]);
    }
    lemma_nothing_to_remove(r, s0, s1);
}

/// Taking a time range out of some clips keeps every clip that does not overlap it.
pub proof fn law_rest_is_kept(clips: Seq<ClipView>, s0: Secs, s1: Secs)
    ensures
        forall|i: int|
            0 <= i < clips.len() && !(#[trigger] clips[i]).overlaps(s0 as int, s1 as int)
                ==> without_region(clips, s0, s1).contains(clips[i]),
    decreases clips.len(),
{
    if clips.len() > 0 {
        let d = clips.drop_last();
        law_rest_is_kept(d, s0, s1);
        let rest = without_region(d, s0, s1);
        let r = without_region(clips, s0, s1);
        assert forall|i: int|
            0 <= i < clips.len() && !(#[trigger] clips[i]).overlaps(
                s0 as int,
                s1 as int,
            ) implies r.contains(clips[i]) by {
            if i < d.len() {
                assert(d[i] == clips[i]);
                let k = choose|k: int| 0 <= k < rest.len() && rest[k] == clips[i];
                assert(r[k] == clips[i]);
            } else {
                assert(r[rest.len() as int] == clips[i]);
            }
        }
    }
}

/// A copied clip starts no earlier than the range that was copied, and before its end.
pub proof fn law_copies_start_in_range(clips: Seq<ClipView>, s0: Secs, s1: Secs)
    requires
        crate::track::clips_ok(clips),
    ensures
        forall|k: int|
            0 <= k < region_of(clips, s0, s1).len() ==> 0 <= (#[trigger] region_of(
                clips,
                s0,
                s1,
            )[k]).offset_secs && region_of(clips, s0, s1)[k].offset_secs < s1 - s0,
    decreases clips.len(),
{
    if clips.len() > 0 {
        law_copies_start_in_range(clips.drop_last(), s0, s1);
        let rest = region_of(clips.drop_last(), s0, s1);
        let r = region_of(clips, s0, s1);
        assert forall|k: int| 0 <= k < r.len() implies 0 <= (#[trigger] r[k]).offset_secs
            && r[k].offset_secs < s1 - s0 by {
            if k < rest.len() {
                assert(r[k] == rest[k]);
            } else {
                assert(r[k] == clips.last().copied(s0, s1));
            }
        }
    }
}

} // verus!
