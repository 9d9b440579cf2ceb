//! What the edits do to the arrangement of the clips: which frames go where, and what stays.

use vstd::prelude::*;
use crate::app::AppView;
use crate::audio::ClipView;
use crate::sample::Sample;
use crate::time::Secs;
use crate::track::TrackView;

verus! {

/// Whether `n` is the number of whole frames that a clip has before time `t` of the timeline.
pub open spec fn frames_until(c: ClipView, t: int, n: int) -> bool {
    &&& 0 <= n <= c.mono.len()
    &&& n * 705_600_000 <= crate::time::larger((t - c.offset_secs) * c.sample_rate, 0)
    &&& n < c.mono.len() ==> crate::time::larger((t - c.offset_secs) * c.sample_rate, 0) < (n + 1)
        * 705_600_000
}

/// Whether `p` is frames `a` to `b` of clip `c`, at `offset`; all else is as in `c`.
pub open spec fn is_stretch(p: ClipView, c: ClipView, a: int, b: int, offset: int) -> bool {
    &&& p.mono == c.mono.subrange(a, b)
    &&& p.samples == c.samples.subrange(
        a * c.channels,
        if b == c.mono.len() && p.samples.len() > (b - a) * c.channels {
            c.samples.len() as int
        } else {
            b * c.channels
        },
    )
    &&& p.offset_secs == offset
    &&& p.name == c.name
    &&& p.sample_rate == c.sample_rate
    &&& p.channels == c.channels
    &&& p.gain == c.gain
    &&& p.source_path == c.source_path
}

/// Whether a clip has anything of the stretch from `s0` to `s1`.
pub open spec fn has_of(c: ClipView, s0: int, s1: int) -> bool {
    c.offset_secs < s1 && s0 < s1 && s0 < c.end() && c.offset_secs < c.end()
}

proof fn lemma_frames_until(c: ClipView, t: int, n: int)
    requires
        frames_until(c, t, n),
    ensures
        c.frames_before(t - c.offset_secs) == n,
{
    let d = t - c.offset_secs;
    let x = d * c.sample_rate;
    if d > 0 {
        assert(x >= 0) by (nonlinear_arith)
            requires
                x == d * c.sample_rate,
                d > 0,
                c.sample_rate >= 0,
        ;
        vstd::arithmetic::div_mod::lemma_fundamental_div_mod(x, 705_600_000);
        vstd::arithmetic::div_mod::lemma_mod_bound(x, 705_600_000);
    } else {
        assert(x <= 0) by (nonlinear_arith)
            requires
                x == d * c.sample_rate,
                d <= 0,
                c.sample_rate >= 0,
        ;
    }
}

/// The frames of a clip before its end are all its frames.
proof fn lemma_frames_until_end(c: ClipView, t: int, n: int)
    requires
        c.measurable(),
        frames_until(c, t, n),
        t >= c.end(),
    ensures
        n == c.mono.len(),
        c.frames_before(c.duration()) == c.mono.len(),
{
    let len = c.mono.len() as int;
    let rate = c.sample_rate as int;
    let d = c.duration();
    crate::time::law_time_holds_its_frames(len, rate);
    crate::time::lemma_time_of_grows(0, len, rate);
    let x = d * rate;
    if d > 0 {
        vstd::arithmetic::div_mod::lemma_fundamental_div_mod(x, 705_600_000);
        vstd::arithmetic::div_mod::lemma_mod_bound(x, 705_600_000);
        assert((t - c.offset_secs) * rate >= x) by (nonlinear_arith)
            requires
                t - c.offset_secs >= d,
                rate > 0,
                x == d * rate,
        ;
    }
}

/// What the clip has of a stretch, when the stretch is copied: its frames from the start of the stretch
/// to its end, as far behind the start of the clipboard as they were behind the start of the stretch.
pub proof fn law_copy_takes_the_stretch(
    clips: Seq<ClipView>,
    c: ClipView,
    s0: Secs,
    s1: Secs,
    a: int,
    b: int,
)
    requires
        c.ok(),
        c.measurable(),
        c.offset_secs >= 0,
        s0 >= 0,
        frames_until(c, s0 as int, a),
        frames_until(c, s1 as int, b),
    ensures
        crate::region::region_of(Seq::empty(), s0, s1).len() == 0,
        ({
            let some = crate::region::region_of(clips, s0, s1);
            let more = crate::region::region_of(clips.push(c), s0, s1);
            if has_of(c, s0 as int, s1 as int) {
                &&& more.len() == some.len() + 1
                &&& more.drop_last() == some
                &&& is_stretch(
                    more.last(),
                    c,
                    a,
                    b,
                    if c.offset_secs > s0 {
                        c.offset_secs - s0
                    } else {
                        0
                    },
                )
            } else {
                more == some
            }
        }),
{
    let all = clips.push(c);
    assert(all.drop_last() =~= clips);
    lemma_copied(c, s0, s1, a, b);
    let some = crate::region::region_of(clips, s0, s1);
    if has_of(c, s0 as int, s1 as int) {
        assert(some.push(c.copied(s0, s1)).drop_last() =~= some);
    }
}

proof fn lemma_copied(c: ClipView, s0: Secs, s1: Secs, a: int, b: int)
    requires
        c.ok(),
        c.measurable(),
        c.offset_secs >= 0,
        s0 >= 0,
        frames_until(c, s0 as int, a),
        frames_until(c, s1 as int, b),
    ensures
        c.holds_region(s0 as int, s1 as int) == has_of(c, s0 as int, s1 as int),
        has_of(c, s0 as int, s1 as int) ==> is_stretch(
            c.copied(s0, s1),
            c,
            a,
            b,
            if c.offset_secs > s0 {
                c.offset_secs - s0
            } else {
                0
            },
        ) && 0 <= a <= b <= c.mono.len(),
{
    if has_of(c, s0 as int, s1 as int) {
        let p = c.copied(s0, s1);
        lemma_frames_until(c, s0 as int, a);
        lemma_frames_until(c, s1 as int, b);
        if s1 >= c.end() {
            lemma_frames_until_end(c, s1 as int, b);
        }
        let rate = c.sample_rate as int;
        let f = s0 - c.offset_secs;
        let t = s1 - c.offset_secs;
        assert(f * rate <= t * rate) by (nonlinear_arith)
            requires
                f <= t,
                rate > 0,
        ;
        assert(a <= b);
        let ch = c.channels as int;
        assert(a * ch <= b * ch && b * ch - a * ch == (b - a) * ch) by (nonlinear_arith)
            requires
                0 <= a <= b,
                ch > 0,
        ;
        assert(b * ch <= c.samples.len()) by {
            crate::audio::lemma_part_ok(c, 0, b, 0);
            let len = c.samples.len() as int;
            vstd::arithmetic::div_mod::lemma_fundamental_div_mod(len, ch);
            vstd::arithmetic::div_mod::lemma_mod_bound(len, ch);
            assert(b * ch <= len) by (nonlinear_arith)
                requires
                    b <= len / ch,
                    ch > 0,
                    len == ch * (len / ch) + len % ch,
                    len % ch >= 0,
            ;
        }
        assert(p.samples.len() == (b - a) * ch);
    }
}

/// Copy takes what the selected track has of the selected stretch, and changes nothing else.
pub proof fn law_copy_takes_from_the_selected_track(v: AppView, t: usize, s0: Secs, s1: Secs)
    requires
        v.selection == Some((s0, s1)),
        v.selected_track == Some(t),
        t < v.tracks.len(),
    ensures
        ({
            let region = crate::region::region_of(v.tracks[t as int].clips, s0, s1);
            v.copied() == if region.len() > 0 {
                AppView { clipboard: region, ..v }
            } else {
                v
            }
        }),
{
}

/// Without a selected stretch, copy takes the selected clip whole, and places it at the start of the
/// clipboard. Nothing else changes.
pub proof fn law_copy_takes_the_selected_clip(v: AppView, t: usize, c: usize)
    requires
        v.selection is None,
        v.selected_track == Some(t),
        v.selected_clip == Some(c),
        v.has_clip(t, c),
    ensures
        v.copied().clipboard.len() == 1,
        v.copied().clipboard[0] == (ClipView { offset_secs: 0, ..v.tracks[t as int].clips[c as int] }),
        v.copied() == (AppView { clipboard: v.copied().clipboard, ..v }),
{
}

/// Whether the clips of the clipboard, from `playhead` on, have room beside some clips.
pub open spec fn fits_at(clipboard: Seq<ClipView>, playhead: int, clips: Seq<ClipView>) -> bool {
    forall|k: int, i: int|
        0 <= k < clipboard.len() && 0 <= i < clips.len() ==> {
            let start = playhead + (#[trigger] clipboard[k]).offset_secs;
            start + clipboard[k].duration() <= (#[trigger] clips[i]).offset_secs || clips[i].end()
                <= start
        }
}

/// Whether each clip of the clipboard, from `playhead` on, starts within the range of times.
pub open spec fn in_range(clipboard: Seq<ClipView>, playhead: int) -> bool {
    forall|k: int|
        0 <= k < clipboard.len() ==> i64::MIN <= playhead + (#[trigger] clipboard[k]).offset_secs
            <= i64::MAX
}

proof fn lemma_placed(clipboard: Seq<ClipView>, playhead: Secs, clips: Seq<ClipView>)
    requires
        in_range(clipboard, playhead as int),
    ensures
        crate::edits::any_overlap(clips, crate::edits::placed_at(clipboard, playhead)) == !fits_at(
            clipboard,
            playhead as int,
            clips,
        ),
        crate::edits::placed_at(clipboard, playhead).len() == clipboard.len(),
        forall|k: int|
            0 <= k < clipboard.len() ==> #[trigger] crate::edits::placed_at(clipboard, playhead)[k] == (
            ClipView {
                offset_secs: (playhead + clipboard[k].offset_secs) as Secs,
                ..clipboard[k]
            }),
{
    let new = crate::edits::placed_at(clipboard, playhead);
    assert forall|k: int| 0 <= k < clipboard.len() implies #[trigger] new[k] == (ClipView {
        offset_secs: (playhead + clipboard[k].offset_secs) as Secs,
        ..clipboard[k]
    }) by {
        let at = playhead + clipboard[k].offset_secs;
        assert(i64::MIN <= at <= i64::MAX);
    }
    if crate::edits::any_overlap(clips, new) {
        let (j, i) = choose|j: int, i: int|
            0 <= j < new.len() && 0 <= i < clips.len() && (#[trigger] clips[i]).overlaps(
                (#[trigger] new[j]).offset_secs as int,
                new[j].end(),
            );
        assert(clipboard[j].duration() == new[j].duration());
        assert(!fits_at(clipboard, playhead as int, clips)) by {
            let c = clipboard[j];
            let d = clips[i];
            let start = playhead + c.offset_secs;
            assert(!(start + c.duration() <= d.offset_secs || d.end() <= start));
        }
    }
    if !fits_at(clipboard, playhead as int, clips) {
        let (k, i) = choose|k: int, i: int|
            0 <= k < clipboard.len() && 0 <= i < clips.len() && !({
                let start = playhead + (#[trigger] clipboard[k]).offset_secs;
                start + clipboard[k].duration() <= (#[trigger] clips[i]).offset_secs || clips[i].end()
                    <= start
            });
        assert(new[k].duration() == clipboard[k].duration());
        assert(clips[i].overlaps(new[k].offset_secs as int, new[k].end()));
    }
}

/// Paste puts every clip of the clipboard behind the clips of the selected track, each as far behind the
/// playhead as it is behind the start of the clipboard, so that the clips keep their distances. The
/// clips that are there stay as they are, and so does all else; the last pasted clip is selected.
pub proof fn law_paste_keeps_the_arrangement(v: AppView, playhead: Secs, t: usize)
    requires
        v.selected_track == Some(t),
        t < v.tracks.len(),
        v.clipboard.len() > 0,
        v.tracks[t as int].clips.len() + v.clipboard.len() <= usize::MAX,
        in_range(v.clipboard, playhead as int),
        fits_at(v.clipboard, playhead as int, v.tracks[t as int].clips),
    ensures
        ({
            let w = v.pasted(playhead);
            let before = v.tracks[t as int].clips;
            let after = w.tracks[t as int].clips;
            &&& after.len() == before.len() + v.clipboard.len()
            &&& after.subrange(0, before.len() as int) == before
            &&& forall|k: int|
                0 <= k < v.clipboard.len() ==> #[trigger] after[before.len() + k] == (ClipView {
                    offset_secs: (playhead + v.clipboard[k].offset_secs) as Secs,
                    ..v.clipboard[k]
                })
            &&& forall|j: int, k: int|
                0 <= j < v.clipboard.len() && 0 <= k < v.clipboard.len() ==> (
                #[trigger] after[before.len() + k]).offset_secs - (
                #[trigger] after[before.len() + j]).offset_secs == v.clipboard[k].offset_secs
                    - v.clipboard[j].offset_secs
            &&& w.tracks.len() == v.tracks.len()
            &&& forall|u: int| 0 <= u < v.tracks.len() && u != t ==> #[trigger] w.tracks[u] == v.tracks[u]
            &&& w.tracks[t as int].switches() == v.tracks[t as int].switches()
            &&& w.selected_clip == Some((after.len() - 1) as usize)
            &&& w == (AppView {
                tracks: w.tracks,
                selected_clip: w.selected_clip,
                undo_manager: w.undo_manager,
                ..v
            })
        }),
{
    lemma_placed(v.clipboard, playhead, v.tracks[t as int].clips);
    let w = v.pasted(playhead);
    let before = v.tracks[t as int].clips;
    let after = w.tracks[t as int].clips;
    let placed = crate::edits::placed_at(v.clipboard, playhead);
    assert(after == before + placed);
    assert(after.subrange(0, before.len() as int) =~= before);
    assert forall|k: int| 0 <= k < v.clipboard.len() implies #[trigger] after[before.len() + k] == (
    ClipView { offset_secs: (playhead + v.clipboard[k].offset_secs) as Secs, ..v.clipboard[k] })
        && i64::MIN <= playhead + v.clipboard[k].offset_secs <= i64::MAX by {
        assert(after[before.len() + k] == placed[k]);
    }
}

/// Paste does nothing where a pasted clip would overlap a clip of the track, or where there is nothing
/// to paste, or no track to paste into.
pub proof fn law_paste_needs_room(v: AppView, playhead: Secs)
    requires
        in_range(v.clipboard, playhead as int),
        v.clipboard.len() == 0 || v.selected_track is None || (v.selected_track matches Some(t) && (
        t >= v.tracks.len() || !fits_at(
            v.clipboard,
            playhead as int,
            v.tracks[t as int].clips,
        ))),
    ensures
        v.pasted(playhead) == v,
{
    if v.selected_track is Some && v.selected_track->0 < v.tracks.len() {
        lemma_placed(v.clipboard, playhead, v.tracks[v.selected_track->0 as int].clips);
    }
}

proof fn lemma_region_has(clips: Seq<ClipView>, s0: Secs, s1: Secs, i: int) -> (k: int)
    requires
        0 <= i < clips.len(),
        clips[i].holds_region(s0 as int, s1 as int),
    ensures
        0 <= k < crate::region::region_of(clips, s0, s1).len(),
        crate::region::region_of(clips, s0, s1)[k] == clips[i].copied(s0, s1),
    decreases clips.len(),
{
    let d = clips.drop_last();
    let less = crate::region::region_of(d, s0, s1);
    let all = crate::region::region_of(clips, s0, s1);
    if i == clips.len() - 1 {
        assert(all[less.len() as int] == clips[i].copied(s0, s1));
        less.len() as int
    } else {
        assert(d[i] == clips[i]);
        let k = lemma_region_has(d, s0, s1, i);
        assert(all[k] == less[k]);
        k
    }
}

/// Copying a stretch and pasting it at the start of the stretch, into an empty track, puts what each
/// clip has of the stretch back at the time where it was.
pub proof fn law_copy_and_paste_puts_back(
    v: AppView,
    t: usize,
    empty: usize,
    s0: Secs,
    s1: Secs,
    i: int,
    a: int,
    b: int,
)
    requires
        v.selection == Some((s0, s1)),
        v.selected_track == Some(t),
        t < v.tracks.len(),
        empty < v.tracks.len(),
        v.tracks[empty as int].clips.len() == 0,
        crate::track::clips_ok(v.tracks[t as int].clips),
        0 <= s0,
        0 <= i < v.tracks[t as int].clips.len() <= usize::MAX,
        v.tracks[t as int].clips[i].measurable(),
        v.tracks[t as int].clips[i].offset_secs >= 0,
        has_of(v.tracks[t as int].clips[i], s0 as int, s1 as int),
        frames_until(v.tracks[t as int].clips[i], s0 as int, a),
        frames_until(v.tracks[t as int].clips[i], s1 as int, b),
    ensures
        ({
            let c = v.tracks[t as int].clips[i];
            let w = (AppView { selected_track: Some(empty), ..v.copied() }).pasted(s0);
            exists|k: int|
                0 <= k < w.tracks[empty as int].clips.len() && is_stretch(
                    #[trigger] w.tracks[empty as int].clips[k],
                    c,
                    a,
                    b,
                    if c.offset_secs > s0 {
                        c.offset_secs as int
                    } else {
                        s0 as int
                    },
                )
        }),
{
    let clips = v.tracks[t as int].clips;
    let c = clips[i];
    assert(c.ok());
    lemma_copied(c, s0, s1, a, b);
    let k = lemma_region_has(clips, s0, s1, i);
    let region = crate::region::region_of(clips, s0, s1);
    let x = AppView { selected_track: Some(empty), ..v.copied() };
    let placed = crate::edits::placed_at(region, s0);
    let none = v.tracks[empty as int].clips;
    assert(x.clipboard == region);
    assert(!crate::edits::any_overlap(none, placed));
    let w = x.pasted(s0);
    assert(w.tracks[empty as int].clips =~= placed);
    let p = placed[k];
    assert(p == c.copied(s0, s1).at(
        crate::time::sat_secs(s0 + c.copied(s0, s1).offset_secs),
    ));
    assert(is_stretch(
        w.tracks[empty as int].clips[k],
        c,
        a,
        b,
        if c.offset_secs > s0 {
            c.offset_secs as int
        } else {
            s0 as int
        },
    ));
}

/// Taking a stretch out of a clip leaves its frames before the stretch where they are, and its frames
/// after the stretch at the end of the stretch; a side without a frame is left out. A clip that has
/// nothing of the stretch stays as it is.
pub proof fn law_removal_keeps_the_other_frames(c: ClipView, s0: Secs, s1: Secs, a: int, b: int)
    requires
        c.ok(),
        c.measurable(),
        c.offset_secs >= 0,
        s0 >= 0,
        frames_until(c, s0 as int, a),
        frames_until(c, s1 as int, b),
    ensures
        ({
            let left = c.without(s0, s1);
            let n = c.mono.len() as int;
            if !has_of(c, s0 as int, s1 as int) {
                left == seq![c]
            } else if a > 0 && b < n {
                left.len() == 2 && is_stretch(left[0], c, 0, a, c.offset_secs as int) && is_stretch(
                    left[1],
                    c,
                    b,
                    n,
                    s1 as int,
                )
            } else if a > 0 {
                left.len() == 1 && is_stretch(left[0], c, 0, a, c.offset_secs as int)
            } else if b < n {
                left.len() == 1 && is_stretch(left[0], c, b, n, s1 as int)
            } else {
                left.len() == 0
            }
        }),
{
    lemma_copied(c, s0, s1, a, b);
    if has_of(c, s0 as int, s1 as int) {
        let n = c.mono.len() as int;
        let ch = c.channels as int;
        lemma_frames_until(c, s0 as int, a);
        lemma_frames_until(c, s1 as int, b);
        if s1 >= c.end() {
            lemma_frames_until_end(c, s1 as int, b);
        }
        crate::audio::lemma_head_ok(c, a);
        crate::audio::lemma_tail_ok(c, b, s1);
        let len = c.samples.len() as int;
        vstd::arithmetic::div_mod::lemma_fundamental_div_mod(len, ch);
        vstd::arithmetic::div_mod::lemma_mod_bound(len, ch);
        assert(0 <= a * ch <= b * ch && b * ch <= n * ch && n * ch <= len && (a - 0) * ch == a * ch && 0
            * ch == 0 && n * ch - b * ch == (n - b) * ch) by (nonlinear_arith)
            requires
                0 <= a <= b <= n,
                n == len / ch,
                ch > 0,
                len == ch * (len / ch) + len % ch,
                len % ch >= 0,
        ;
        let before = crate::region::option_seq(c.before(c.region_start(s0 as int) as Secs));
        let after = crate::region::option_seq(c.after(c.region_end(s1 as int) as Secs));
        assert(c.without(s0, s1) == before + after);
        if a > 0 {
            assert(before =~= seq![c.head(a)]);
        } else {
            assert(before =~= Seq::empty());
        }
        if b < n {
            assert(after =~= seq![c.tail(b, s1)]);
        } else {
            assert(after =~= Seq::empty());
        }
    }
}

/// Cutting a stretch is copying it and then deleting it.
pub proof fn law_cut_is_copy_and_delete(v: AppView)
    requires
        v.region_has_clips(),
        v.selection matches Some((s0, s1)) && v.selected_track matches Some(t) && t < v.tracks.len()
            && crate::region::region_of(v.tracks[t as int].clips, s0, s1).len() > 0,
    ensures
        v.cut().clipboard == v.copied().clipboard,
        v.cut().tracks == v.deleted().tracks,
        v.cut().selected_clip == v.deleted().selected_clip,
        v.cut().selection == v.deleted().selection,
{
}

/// Deleting a stretch takes it out of the selected track, and changes no other track; the selection is
/// gone, and the first clip that is left is selected.
pub proof fn law_delete_takes_out_the_selected_stretch(v: AppView, t: usize, s0: Secs, s1: Secs)
    requires
        v.selection == Some((s0, s1)),
        v.selected_track == Some(t),
        t < v.tracks.len(),
        exists|i: int|
            0 <= i < v.tracks[t as int].clips.len() && s0 < (
            #[trigger] v.tracks[t as int].clips[i]).end() && s1 > v.tracks[t as int].clips[i].offset_secs,
        v.tracks[t as int].clips.len() <= usize::MAX,
    ensures
        ({
            let w = v.deleted();
            let clips = crate::region::without_region(v.tracks[t as int].clips, s0, s1);
            &&& w.tracks.len() == v.tracks.len()
            &&& w.tracks[t as int] == (TrackView { clips, ..v.tracks[t as int] })
            &&& forall|u: int| 0 <= u < v.tracks.len() && u != t ==> #[trigger] w.tracks[u] == v.tracks[u]
            &&& w.selection is None
            &&& w.selected_clip == if clips.len() > 0 {
                Some(0usize)
            } else {
                None
            }
            &&& w.selected_track == Some(t)
            &&& w.clipboard == v.clipboard
        }),
{
    let clips = v.tracks[t as int].clips;
    crate::region::law_overlapping(clips, s0 as int, s1 as int);
    let i = choose|i: int|
        0 <= i < clips.len() && s0 < (#[trigger] clips[i]).end() && s1 > clips[i].offset_secs;
    let found = crate::region::overlapping(clips, s0 as int, s1 as int);
    assert(clips[i].overlaps(s0 as int, s1 as int));
    assert(found.contains(i as usize));
}

/// Without a selected stretch, delete takes away the selected clip and leaves every other clip as it is.
/// A track that loses its only clip goes with it. The clip that takes its place is selected, or the last
/// one.
pub proof fn law_delete_takes_the_selected_clip(v: AppView, t: usize, c: usize)
    requires
        v.selection is None,
        v.selected_track == Some(t),
        v.selected_clip == Some(c),
        v.has_clip(t, c),
        v.tracks.len() <= usize::MAX,
    ensures
        ({
            let w = v.deleted();
            let clips = v.tracks[t as int].clips;
            &&& clips.len() == 1 ==> w.tracks == v.tracks.remove(t as int) && w.selected_clip is None
                && w.selected_track == if v.tracks.len() == 1 {
                None
            } else if t < v.tracks.len() - 1 {
                Some(t)
            } else {
                Some((t - 1) as usize)
            }
            &&& v.view_duration >= 0 ==> 0 <= w.view_start && w.view_start + w.view_duration
                <= w.max_duration()
            &&& clips.len() > 1 ==> w.tracks == v.tracks.update(
                t as int,
                TrackView { clips: clips.remove(c as int), ..v.tracks[t as int] },
            ) && w.selected_track == Some(t) && w.selected_clip == Some(
                if c < clips.len() - 1 {
                    c
                } else {
                    (clips.len() - 2) as usize
                },
            )
            &&& w.clipboard == v.clipboard
        }),
{
    crate::motion::lemma_view_is_natural(v.deleted());
}

/// Without a selected stretch, cut moves the selected clip to the clipboard: it is there alone, at the
/// start, and every other clip stays as it is. An emptied track stays.
pub proof fn law_cut_moves_the_selected_clip(v: AppView, t: usize, c: usize)
    requires
        v.selection is None,
        v.selected_track == Some(t),
        v.selected_clip == Some(c),
        v.has_clip(t, c),
    ensures
        v.cut().clipboard.len() == 1,
        v.cut().clipboard[0] == (ClipView { offset_secs: 0, ..v.tracks[t as int].clips[c as int] }),
        v.cut().tracks == v.tracks.update(
            t as int,
            TrackView {
                clips: v.tracks[t as int].clips.remove(c as int),
                ..v.tracks[t as int]
            },
        ),
{
}

/// A split puts two clips in the place of the selected one: its frames before the playhead, which stay
/// where they are, and the rest of its frames, at the playhead. Every other clip stays as it is, and the
/// right half is selected.
pub proof fn law_split_is_at_the_playhead(v: AppView, playhead: Secs, t: usize, c: usize, a: int)
    requires
        v.selected_track == Some(t),
        v.selected_clip == Some(c),
        v.has_clip(t, c),
        v.tracks[t as int].clips.len() < usize::MAX,
        v.tracks[t as int].clips[c as int].ok(),
        v.tracks[t as int].clips[c as int].measurable(),
        v.tracks[t as int].clips[c as int].offset_secs >= 0,
        v.tracks[t as int].clips[c as int].offset_secs < playhead
            < v.tracks[t as int].clips[c as int].end(),
        frames_until(v.tracks[t as int].clips[c as int], playhead as int, a),
    ensures
        ({
            let w = v.split(playhead);
            let clip = v.tracks[t as int].clips[c as int];
            let before = v.tracks[t as int].clips;
            let after = w.tracks[t as int].clips;
            &&& after.len() == before.len() + 1
            &&& is_stretch(after[c as int], clip, 0, a, clip.offset_secs as int)
            &&& is_stretch(after[c + 1], clip, a, clip.mono.len() as int, playhead as int)
            &&& after.subrange(0, c as int) == before.subrange(0, c as int)
            &&& after.subrange(c + 2, after.len() as int) == before.subrange(
                c + 1,
                before.len() as int,
            )
            &&& w.tracks.len() == v.tracks.len()
            &&& forall|u: int| 0 <= u < v.tracks.len() && u != t ==> #[trigger] w.tracks[u] == v.tracks[u]
            &&& w.tracks[t as int].switches() == v.tracks[t as int].switches()
            &&& w.selected_track == Some(t)
            &&& w.selected_clip == Some((c + 1) as usize)
        }),
{
    let clip = v.tracks[t as int].clips[c as int];
    let before = v.tracks[t as int].clips;
    let w = v.split(playhead);
    let after = w.tracks[t as int].clips;
    let ch = clip.channels as int;
    let n = clip.mono.len() as int;
    let at = (playhead - clip.offset_secs) as Secs;
    lemma_frames_until(clip, playhead as int, a);
    crate::audio::lemma_head_ok(clip, a);
    crate::audio::lemma_tail_ok(clip, a, playhead);
    let len = clip.samples.len() as int;
    vstd::arithmetic::div_mod::lemma_fundamental_div_mod(len, ch);
    vstd::arithmetic::div_mod::lemma_mod_bound(len, ch);
    assert(0 <= a * ch && a * ch <= n * ch && n * ch <= len && (a - 0) * ch == a * ch && 0 * ch == 0 && n
        * ch - a * ch == (n - a) * ch) by (nonlinear_arith)
        requires
            0 <= a <= n,
            n == len / ch,
            ch > 0,
            len == ch * (len / ch) + len % ch,
            len % ch >= 0,
    ;
    assert(clip.split_inside(at)) by {
        let rate = clip.sample_rate as int;
        crate::time::law_time_holds_its_frames(n, rate);
        crate::time::lemma_time_of_grows(0, n, rate);
        let d = clip.duration();
        let x = at * rate;
        let y = d * rate;
        assert(x <= y) by (nonlinear_arith)
            requires
                x == at * rate,
                y == d * rate,
                at <= d,
                rate > 0,
        ;
        vstd::arithmetic::div_mod::lemma_div_is_ordered(x, y, 705_600_000);
    }
    assert(after == before.update(c as int, clip.split_left(at)).insert(
        c + 1,
        clip.split_right(at),
    ));
    assert(after.subrange(0, c as int) =~= before.subrange(0, c as int));
    assert(after.subrange(c + 2, after.len() as int) =~= before.subrange(c + 1, before.len() as int));
}

/// A new track is empty, heard, and selected. It comes right below the selected track, or last if none
/// is; the others keep their order.
pub proof fn law_a_new_track_comes_below(v: AppView)
    requires
        v.selected_track matches Some(t) ==> t < v.tracks.len(),
        v.tracks.len() < usize::MAX,
    ensures
        ({
            let w = v.track_created();
            let at = if v.selected_track is Some {
                v.selected_track->0 + 1
            } else {
                v.tracks.len() as int
            };
            &&& w.tracks.len() == v.tracks.len() + 1
            &&& w.tracks[at].clips.len() == 0
            &&& !w.tracks[at].muted
            &&& w.tracks[at].gain == crate::sample::UNITY
            &&& w.tracks.remove(at) == v.tracks
            &&& w.selected_track == Some(at as usize)
            &&& w.selected_clip is None
        }),
{
    let at = v.new_track_index();
    assert(v.track_created().tracks.remove(at) =~= v.tracks);
}

/// The mute switch flips for the selected track alone, and flips back the next time.
pub proof fn law_mute_flips_the_selected_track(v: AppView, t: usize)
    requires
        v.selected_track == Some(t),
        t < v.tracks.len(),
    ensures
        v.mute_toggled().tracks[t as int].muted == !v.tracks[t as int].muted,
        v.mute_toggled().tracks[t as int].clips == v.tracks[t as int].clips,
        v.mute_toggled().tracks[t as int].gain == v.tracks[t as int].gain,
        v.mute_toggled().tracks.len() == v.tracks.len(),
        forall|u: int|
            0 <= u < v.tracks.len() && u != t ==> #[trigger] v.mute_toggled().tracks[u] == v.tracks[u],
        v.mute_toggled().mute_toggled().tracks == v.tracks,
        v.mute_toggled().selected_track == Some(t),
{
    assert(v.mute_toggled().mute_toggled().tracks =~= v.tracks);
}

/// A change of gain applies one step, up or down, to the gain of the selected clip, or of the selected
/// track, and to nothing else.
pub proof fn law_gain_steps_the_selected(
    v: AppView,
    up: bool,
    step: spec_fn(Sample, bool) -> Sample,
    t: usize,
    c: usize,
)
    requires
        v.selected_track == Some(t),
        v.selected_clip == Some(c),
        v.has_clip(t, c),
    ensures
        v.gain_adjusted(up, step).tracks == v.tracks.update(
            t as int,
            TrackView {
                clips: v.tracks[t as int].clips.update(
                    c as int,
                    ClipView {
                        gain: step(v.tracks[t as int].clips[c as int].gain, up),
                        ..v.tracks[t as int].clips[c as int]
                    },
                ),
                ..v.tracks[t as int]
            },
        ),
        v.track_gain_adjusted(up, step).tracks == v.tracks.update(
            t as int,
            TrackView { gain: step(v.tracks[t as int].gain, up), ..v.tracks[t as int] },
        ),
{
}

/// Where nothing is selected that could be cut, cut and delete change nothing; a playhead that is not
/// inside the selected clip splits nothing; without a selected track or clip no switch and no gain
/// changes.
pub proof fn law_nothing_selected_changes_nothing(
    v: AppView,
    playhead: Secs,
    up: bool,
    step: spec_fn(Sample, bool) -> Sample,
)
    ensures
        v.selection is None && !v.has_selected_clip() ==> v.copied() == v && v.cut() == v && v.deleted()
            == v,
        v.selected_track is None ==> v.mute_toggled() == v && v.track_gain_adjusted(up, step) == v
            && v.pasted(playhead) == v,
        !v.has_selected_clip() ==> v.gain_adjusted(up, step) == v,
        v.has_selected_clip() ==> {
            let c = v.tracks[v.selected_track->0 as int].clips[v.selected_clip->0 as int];
            playhead <= c.offset_secs || c.end() <= playhead ==> v.split(playhead) == v
        },
        v.selected_track is None || v.selected_clip is None ==> v.split(playhead) == v,
        (v.selection matches Some((s0, s1)) && v.selected_track matches Some(t) && t < v.tracks.len()
            && forall|i: int|
            0 <= i < v.tracks[t as int].clips.len() ==> (
            #[trigger] v.tracks[t as int].clips[i]).end() <= s0 || s1
                <= v.tracks[t as int].clips[i].offset_secs) ==> v.cut() == v && v.deleted() == v,
{
    if v.selection is Some && v.selected_track is Some && v.selected_track->0 < v.tracks.len() {
        let (s0, s1) = v.selection->0;
        let clips = v.tracks[v.selected_track->0 as int].clips;
        if forall|i: int|
            0 <= i < clips.len() ==> (#[trigger] clips[i]).end() <= s0 || s1 <= clips[i].offset_secs {
            lemma_none_overlapping(clips, s0 as int, s1 as int);
        }
    }
}

proof fn lemma_none_overlapping(clips: Seq<ClipView>, s0: int, s1: int)
    requires
        forall|i: int|
            0 <= i < clips.len() ==> (#[trigger] clips[i]).end() <= s0 || s1 <= clips[i].offset_secs,
    ensures
        crate::region::overlapping(clips, s0, s1).len() == 0,
    decreases clips.len(),
{
    if clips.len() > 0 {
        let d = clips.drop_last();
        assert forall|i: int| 0 <= i < d.len() implies (#[trigger] d[i]).end() <= s0 || s1
            <= d[i].offset_secs by {
            assert(d[i] == clips[i]);
        }
        lemma_none_overlapping(d, s0, s1);
        assert(clips[clips.len() - 1] == clips.last());
    }
}

} // verus!
