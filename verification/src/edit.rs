//! The basic changes to the tracks of a project.

use vstd::prelude::*;
use crate::audio::{Clip, ClipView};
use crate::sample::Sample;
use crate::time::Secs;
use crate::track::{Track, TrackView};

verus! {

/// The tracks, with the clips of track `t` replaced.
pub open spec fn with_clips(tracks: Seq<TrackView>, t: int, clips: Seq<ClipView>) -> Seq<TrackView> {
    tracks.update(t, TrackView { clips, ..tracks[t] })
}

/// The tracks, with a clip inserted into track `t` at `i`.
pub open spec fn with_clip(tracks: Seq<TrackView>, t: int, i: int, c: ClipView) -> Seq<TrackView> {
    with_clips(tracks, t, tracks[t].clips.insert(i, c))
}

/// The tracks, without clip `i` of track `t`.
pub open spec fn without_clip(tracks: Seq<TrackView>, t: int, i: int) -> Seq<TrackView> {
    with_clips(tracks, t, tracks[t].clips.remove(i))
}

/// The tracks, with clip `i` of track `t` moved to `offset`.
pub open spec fn with_offset(tracks: Seq<TrackView>, t: int, i: int, offset: Secs) -> Seq<
    TrackView,
> {
    with_clips(tracks, t, tracks[t].clips.update(i, tracks[t].clips[i].at(offset)))
}

/// The tracks, with the gain of clip `i` of track `t` replaced.
pub open spec fn with_clip_gain(tracks: Seq<TrackView>, t: int, i: int, gain: Sample) -> Seq<
    TrackView,
> {
    let c = ClipView { gain, ..tracks[t].clips[i] };
    with_clips(tracks, t, tracks[t].clips.update(i, c))
}

/// The tracks, with the gain of track `t` replaced.
pub open spec fn with_track_gain(tracks: Seq<TrackView>, t: int, gain: Sample) -> Seq<TrackView> {
    tracks.update(t, TrackView { gain, ..tracks[t] })
}

/// The tracks, with the mute switch of track `t` flipped.
pub open spec fn with_mute_flipped(tracks: Seq<TrackView>, t: int) -> Seq<TrackView> {
    tracks.update(t, TrackView { muted: !tracks[t].muted, ..tracks[t] })
}

/// Inserts a clip into track `t`.
pub fn put_clip(tracks: &mut Vec<Track>, t: usize, i: usize, clip: Clip)
    requires
        t < old(tracks)@.len(),
        i <= crate::track::track_views(old(tracks)@)[t as int].clips.len(),
    ensures
        final(tracks)@.len() == old(tracks)@.len(),
        crate::track::track_views(final(tracks)@) == with_clip(
            crate::track::track_views(old(tracks)@),
            t as int,
            i as int,
            clip@,
        ),
{
    let ghost before = crate::track::track_views(tracks@);
    tracks[t].clips.insert(i, clip);
    proof {
        assert(tracks@[t as int]@.clips =~= before[t as int].clips.insert(i as int, clip@));
        assert(crate::track::track_views(tracks@) =~= with_clip(before, t as int, i as int, clip@));
    }
}

/// Takes a clip out of track `t`.
pub fn take_clip(tracks: &mut Vec<Track>, t: usize, i: usize) -> (clip: Clip)
    requires
        t < old(tracks)@.len(),
        i < crate::track::track_views(old(tracks)@)[t as int].clips.len(),
    ensures
        final(tracks)@.len() == old(tracks)@.len(),
        clip@ == crate::track::track_views(old(tracks)@)[t as int].clips[i as int],
        crate::track::track_views(final(tracks)@) == without_clip(
            crate::track::track_views(old(tracks)@),
            t as int,
            i as int,
        ),
{
    let ghost before = crate::track::track_views(tracks@);
    let clip: Clip = tracks[t].clips.remove(i);
    proof {
        assert(tracks@[t as int]@.clips =~= before[t as int].clips.remove(i as int));
        assert(crate::track::track_views(tracks@) =~= without_clip(before, t as int, i as int));
    }
    clip
}

/// Replaces the clips of track `t` and returns those that it had.
pub fn swap_clips(tracks: &mut Vec<Track>, t: usize, clips: Vec<Clip>) -> (r: Vec<Clip>)
    requires
        t < old(tracks)@.len(),
    ensures
        final(tracks)@.len() == old(tracks)@.len(),
        crate::track::clip_views(r@) == crate::track::track_views(old(tracks)@)[t as int].clips,
        crate::track::track_views(final(tracks)@) == with_clips(
            crate::track::track_views(old(tracks)@),
            t as int,
            crate::track::clip_views(clips@),
        ),
{
    let ghost before = crate::track::track_views(tracks@);
    let ghost new = crate::track::clip_views(clips@);
    let mut r: Vec<Clip> = clips;
    core::mem::swap(&mut r, &mut tracks[t].clips);
    assert(crate::track::track_views(tracks@) =~= with_clips(before, t as int, new));
    r
}

/// Moves a clip of track `t` to `offset`.
pub fn set_offset(tracks: &mut Vec<Track>, t: usize, i: usize, offset: Secs)
    requires
        t < old(tracks)@.len(),
        i < crate::track::track_views(old(tracks)@)[t as int].clips.len(),
    ensures
        final(tracks)@.len() == old(tracks)@.len(),
        crate::track::track_views(final(tracks)@) == with_offset(
            crate::track::track_views(old(tracks)@),
            t as int,
            i as int,
            offset,
        ),
{
    let ghost before = crate::track::track_views(tracks@);
    tracks[t].clips[i].offset_secs = offset;
    proof {
        let c = before[t as int].clips[i as int];
        assert(tracks@[t as int]@.clips =~= before[t as int].clips.update(i as int, c.at(offset)));
        assert(crate::track::track_views(tracks@) =~= with_offset(before, t as int, i as int, offset));
    }
}

/// Replaces the gain of a clip of track `t` and returns the gain that it had.
pub fn swap_gain(tracks: &mut Vec<Track>, t: usize, i: usize, gain: Sample) -> (r: Sample)
    requires
        t < old(tracks)@.len(),
        i < crate::track::track_views(old(tracks)@)[t as int].clips.len(),
    ensures
        final(tracks)@.len() == old(tracks)@.len(),
        r == crate::track::track_views(old(tracks)@)[t as int].clips[i as int].gain,
        crate::track::track_views(final(tracks)@) == with_clip_gain(
            crate::track::track_views(old(tracks)@),
            t as int,
            i as int,
            gain,
        ),
{
    let ghost before = crate::track::track_views(tracks@);
    assert(before[t as int].clips[i as int] == tracks@[t as int].clips@[i as int]@);
    let r: Sample = tracks[t].clips[i].gain;
    tracks[t].clips[i].gain = gain;
    proof {
        let c = ClipView { gain, ..before[t as int].clips[i as int] };
        assert(tracks@[t as int]@.clips =~= before[t as int].clips.update(i as int, c));
        assert(crate::track::track_views(tracks@) =~= with_clip_gain(before, t as int, i as int, gain));
    }
    r
}

/// Replaces the gain of track `t` and returns the gain that it had.
pub fn swap_track_gain(tracks: &mut Vec<Track>, t: usize, gain: Sample) -> (r: Sample)
    requires
        t < old(tracks)@.len(),
    ensures
        final(tracks)@.len() == old(tracks)@.len(),
        r == crate::track::track_views(old(tracks)@)[t as int].gain,
        crate::track::track_views(final(tracks)@) == with_track_gain(
            crate::track::track_views(old(tracks)@),
            t as int,
            gain,
        ),
{
    let ghost before = crate::track::track_views(tracks@);
    let r: Sample = tracks[t].gain;
    tracks[t].gain = gain;
    assert(crate::track::track_views(tracks@) =~= with_track_gain(before, t as int, gain));
    r
}

/// Flips the mute switch of track `t`.
pub fn flip_mute(tracks: &mut Vec<Track>, t: usize)
    requires
        t < old(tracks)@.len(),
    ensures
        final(tracks)@.len() == old(tracks)@.len(),
        crate::track::track_views(final(tracks)@) == with_mute_flipped(
            crate::track::track_views(old(tracks)@),
            t as int,
        ),
{
    let ghost before = crate::track::track_views(tracks@);
    let muted: bool = tracks[t].muted;
    tracks[t].muted = !muted;
    assert(crate::track::track_views(tracks@) =~= with_mute_flipped(before, t as int));
}

/// Inserts a track.
pub fn put_track(tracks: &mut Vec<Track>, t: usize, track: Track)
    requires
        t <= old(tracks)@.len(),
    ensures
        final(tracks)@.len() == old(tracks)@.len() + 1,
        crate::track::track_views(final(tracks)@) == crate::track::track_views(
            old(tracks)@,
        ).insert(t as int, track@),
{
    tracks.insert(t, track);
    assert(crate::track::track_views(tracks@) =~= crate::track::track_views(old(tracks)@).insert(
        t as int,
        track@,
    ));
}

/// Takes a track out.
pub fn take_track(tracks: &mut Vec<Track>, t: usize) -> (track: Track)
    requires
        t < old(tracks)@.len(),
    ensures
        final(tracks)@.len() == old(tracks)@.len() - 1,
        track@ == crate::track::track_views(old(tracks)@)[t as int],
        crate::track::track_views(final(tracks)@) == crate::track::track_views(
            old(tracks)@,
        ).remove(t as int),
{
    let track: Track = tracks.remove(t);
    assert(crate::track::track_views(tracks@) =~= crate::track::track_views(old(tracks)@).remove(
        t as int,
    ));
    track
}

/// Copies some clips.
pub fn copy_clips(clips: &Vec<Clip>) -> (r: Vec<Clip>)
    ensures
        crate::track::clip_views(r@) == crate::track::clip_views(clips@),
{
    let r: Vec<Clip> = clips.clone();
    assert(crate::track::clip_views(r@) =~= crate::track::clip_views(clips@));
    r
}

/// Putting clips that are in order into a track keeps the tracks in order.
pub proof fn lemma_with_clips_ok(tracks: Seq<TrackView>, t: int, clips: Seq<ClipView>)
    requires
        crate::track::tracks_ok(tracks),
        crate::track::clips_ok(clips),
        0 <= t < tracks.len(),
    ensures
        crate::track::tracks_ok(with_clips(tracks, t, clips)),
{
    let new = with_clips(tracks, t, clips);
    assert forall|u: int| 0 <= u < new.len() implies crate::track::clips_ok(
        (#[trigger] new[u]).clips,
    ) by {
        if u != t {
            assert(new[u] == tracks[u]);
        }
    }
}

/// Putting a clip that is in order into a track keeps the tracks in order.
pub proof fn lemma_with_clip_ok(tracks: Seq<TrackView>, t: int, i: int, c: ClipView)
    requires
        crate::track::tracks_ok(tracks),
        c.ok(),
        0 <= t < tracks.len(),
        0 <= i <= tracks[t].clips.len(),
    ensures
        crate::track::tracks_ok(with_clip(tracks, t, i, c)),
{
    let clips = tracks[t].clips;
    let new = clips.insert(i, c);
    assert forall|j: int| 0 <= j < new.len() implies (#[trigger] new[j]).ok() by {
        if j < i {
            assert(new[j] == clips[j]);
        } else if j > i {
            assert(new[j] == clips[j - 1]);
        }
    }
    lemma_with_clips_ok(tracks, t, new);
}

/// Taking a clip out of a track keeps the tracks in order.
pub proof fn lemma_without_clip_ok(tracks: Seq<TrackView>, t: int, i: int)
    requires
        crate::track::tracks_ok(tracks),
        0 <= t < tracks.len(),
        0 <= i < tracks[t].clips.len(),
    ensures
        crate::track::tracks_ok(without_clip(tracks, t, i)),
        tracks[t].clips[i].ok(),
{
    let clips = tracks[t].clips;
    assert(crate::track::clips_ok(clips));
    let new = clips.remove(i);
    assert forall|j: int| 0 <= j < new.len() implies (#[trigger] new[j]).ok() by {
        if j < i {
            assert(new[j] == clips[j]);
        } else {
            assert(new[j] == clips[j + 1]);
        }
    }
    lemma_with_clips_ok(tracks, t, new);
}

/// Other switches for a track keep the tracks in order.
pub proof fn lemma_same_clips_ok(tracks: Seq<TrackView>, new: Seq<TrackView>)
    requires
        crate::track::tracks_ok(tracks),
        new.len() == tracks.len(),
        forall|u: int| 0 <= u < new.len() ==> (#[trigger] new[u]).clips == tracks[u].clips,
    ensures
        crate::track::tracks_ok(new),
{
    assert forall|u: int| 0 <= u < new.len() implies crate::track::clips_ok(
        (#[trigger] new[u]).clips,
    ) by {
        assert(crate::track::clips_ok(tracks[u].clips));
    }
}

/// Another gain for a clip keeps the tracks in order.
pub proof fn lemma_with_clip_gain_ok(tracks: Seq<TrackView>, t: int, i: int, gain: Sample)
    requires
        crate::track::tracks_ok(tracks),
        0 <= t < tracks.len(),
        0 <= i < tracks[t].clips.len(),
    ensures
        crate::track::tracks_ok(with_clip_gain(tracks, t, i, gain)),
{
    let clips = tracks[t].clips;
    assert(crate::track::clips_ok(clips));
    let c = ClipView { gain, ..clips[i] };
    let new = clips.update(i, c);
    assert forall|j: int| 0 <= j < new.len() implies (#[trigger] new[j]).ok() by {
        assert(clips[j].ok());
    }
    lemma_with_clips_ok(tracks, t, new);
}

/// Inserting a track whose clips are in order keeps the tracks in order.
pub proof fn lemma_with_track_ok(tracks: Seq<TrackView>, t: int, track: TrackView)
    requires
        crate::track::tracks_ok(tracks),
        crate::track::clips_ok(track.clips),
        0 <= t <= tracks.len(),
    ensures
        crate::track::tracks_ok(tracks.insert(t, track)),
{
    let new = tracks.insert(t, track);
    assert forall|u: int| 0 <= u < new.len() implies crate::track::clips_ok(
        (#[trigger] new[u]).clips,
    ) by {
        if u < t {
            assert(new[u] == tracks[u]);
        } else if u > t {
            assert(new[u] == tracks[u - 1]);
        }
    }
}

/// Taking a track out keeps the tracks in order.
pub proof fn lemma_without_track_ok(tracks: Seq<TrackView>, t: int)
    requires
        crate::track::tracks_ok(tracks),
        0 <= t < tracks.len(),
    ensures
        crate::track::tracks_ok(tracks.remove(t)),
        crate::track::clips_ok(tracks[t].clips),
{
    let new = tracks.remove(t);
    assert forall|u: int| 0 <= u < new.len() implies crate::track::clips_ok(
        (#[trigger] new[u]).clips,
    ) by {
        if u < t {
            assert(new[u] == tracks[u]);
        } else {
            assert(new[u] == tracks[u + 1]);
        }
    }
}

} // verus!
