//! Tracks, and where their clips end.

use vstd::prelude::*;
use crate::audio::{Clip, ClipView};
use crate::sample::{Sample, UNITY};
use crate::time::{to_secs, Secs};

verus! {

/// A lane of the timeline with its clips.
pub struct Track {
    pub clips: Vec<Clip>,
    pub muted: bool,
    /// Gain of this track in playback and export
    pub gain: Sample,
}

/// What a track holds.
#[verifier::ext_equal]
pub struct TrackView {
    pub clips: Seq<ClipView>,
    pub muted: bool,
    pub gain: Sample,
}

/// The switches of a track: whether it is muted, and its gain.
#[derive(Clone, Copy, Debug, PartialEq, Eq, Structural)]
pub struct Switches {
    pub muted: bool,
    pub gain: Sample,
}

impl TrackView {
    /// The switches of the track.
    pub open spec fn switches(self) -> Switches {
        Switches { muted: self.muted, gain: self.gain }
    }
}

/// A track with these clips and switches.
pub open spec fn track_with(clips: Seq<ClipView>, s: Switches) -> TrackView {
    TrackView { clips, muted: s.muted, gain: s.gain }
}

/// What each of some clips holds.
pub open spec fn clip_views(clips: Seq<Clip>) -> Seq<ClipView> {
    clips.map_values(|c: Clip| c@)
}

/// What each of some tracks holds.
pub open spec fn track_views(tracks: Seq<Track>) -> Seq<TrackView> {
    tracks.map_values(|t: Track| t@)
}

impl View for Track {
    type V = TrackView;

    open spec fn view(&self) -> TrackView {
        TrackView { clips: clip_views(self.clips@), muted: self.muted, gain: self.gain }
    }
}

/// A new track with these clips: not muted, at unity gain.
pub open spec fn fresh_track(clips: Seq<ClipView>) -> TrackView {
    TrackView { clips, muted: false, gain: UNITY }
}

/// Whether each of some clips is in order.
pub open spec fn clips_ok(clips: Seq<ClipView>) -> bool {
    forall|i: int| 0 <= i < clips.len() ==> (#[trigger] clips[i]).ok()
}

/// Whether each clip of each of some tracks is in order.
pub open spec fn tracks_ok(tracks: Seq<TrackView>) -> bool {
    forall|t: int| 0 <= t < tracks.len() ==> clips_ok((#[trigger] tracks[t]).clips)
}

/// The latest end among some clips, at least 0.
pub open spec fn latest_end(clips: Seq<ClipView>) -> int
    decreases clips.len(),
{
    if clips.len() == 0 {
        0
    } else {
        crate::time::larger(latest_end(clips.drop_last()), clips.last().end())
    }
}

/// The latest end among the clips of some tracks, at least 0.
pub open spec fn project_end(tracks: Seq<TrackView>) -> int
    decreases tracks.len(),
{
    if tracks.len() == 0 {
        0
    } else {
        crate::time::larger(project_end(tracks.drop_last()), latest_end(tracks.last().clips))
    }
}

impl Clone for Track {
    fn clone(&self) -> (r: Self)
        ensures
            r@ == self@,
    {
        let clips: Vec<Clip> = self.clips.clone();
        assert(clip_views(clips@) =~= clip_views(self.clips@));
        Track { clips, muted: self.muted, gain: self.gain }
    }
}

impl Track {
    /// A new track with these clips.
    pub fn with_clips(clips: Vec<Clip>) -> (r: Track)
        ensures
            r@ == fresh_track(clip_views(clips@)),
    {
        Track { clips, muted: false, gain: UNITY }
    }

    /// A track with these clips and switches.
    pub fn with_switches(clips: Vec<Clip>, s: Switches) -> (r: Track)
        ensures
            r@ == track_with(clip_views(clips@), s),
    {
        Track { clips, muted: s.muted, gain: s.gain }
    }

    /// The switches of this track.
    pub fn switches(&self) -> (r: Switches)
        ensures
            r == self@.switches(),
    {
        Switches { muted: self.muted, gain: self.gain }
    }

    /// Where the last clip of this track ends.
    pub fn duration_secs(&self) -> (r: Secs)
        requires
            clips_ok(self@.clips),
        ensures
            r == crate::time::sat_secs(latest_end(self@.clips)),
            r >= 0,
    {
        let mut end: i128 = 0;
        let mut i: usize = 0;
        while i < self.clips.len()
            invariant
                i <= self.clips@.len(),
                clips_ok(self@.clips),
                end == latest_end(self@.clips.subrange(0, i as int)),
                end >= 0,
            decreases self.clips@.len() - i,
        {
            assert(self@.clips[i as int] == self.clips@[i as int]@);
            assert(self@.clips.subrange(0, i + 1).drop_last() =~= self@.clips.subrange(0, i as int));
            end = crate::time::later(end, self.clips[i].end_secs());
            i = i + 1;
        }
        assert(self@.clips.subrange(0, i as int) =~= self@.clips);
        to_secs(end)
    }
}

/// No clip ends after the latest end, which is 0 or the end of a clip.
pub proof fn law_latest_end(clips: Seq<ClipView>)
    ensures
        latest_end(clips) >= 0,
        forall|i: int| 0 <= i < clips.len() ==> (#[trigger] clips[i]).end() <= latest_end(clips),
        latest_end(clips) == 0 || exists|i: int|
            0 <= i < clips.len() && (#[trigger] clips[i]).end() == latest_end(clips),
    decreases clips.len(),
{
    if clips.len() > 0 {
        let d = clips.drop_last();
        law_latest_end(d);
        assert(clips[clips.len() - 1] == clips.last());
        assert forall|i: int| 0 <= i < clips.len() implies (#[trigger] clips[i]).end() <= latest_end(
            clips,
        ) by {
            if i < d.len() {
                assert(d[i] == clips[i]);
            }
        }
        if latest_end(clips) != 0 && latest_end(clips) == latest_end(d) {
            let k = choose|i: int| 0 <= i < d.len() && (#[trigger] d[i]).end() == latest_end(d);
            assert(clips[k] == d[k]);
        }
    }
}

/// No clip of any track ends after the end of the project, which is 0 or the end of one of the clips.
pub proof fn law_project_end(tracks: Seq<TrackView>)
    ensures
        project_end(tracks) >= 0,
        forall|t: int, i: int|
            0 <= t < tracks.len() && 0 <= i < tracks[t].clips.len() ==> (
            #[trigger] tracks[t].clips[i]).end() <= project_end(tracks),
        project_end(tracks) == 0 || exists|t: int, i: int|
            0 <= t < tracks.len() && 0 <= i < tracks[t].clips.len() && (
            #[trigger] tracks[t].clips[i]).end() == project_end(tracks),
    decreases tracks.len(),
{
    if tracks.len() > 0 {
        let d = tracks.drop_last();
        let n = tracks.len() - 1;
        law_project_end(d);
        law_latest_end(tracks[n].clips);
        assert forall|t: int, i: int|
            0 <= t < tracks.len() && 0 <= i < tracks[t].clips.len() implies (
        #[trigger] tracks[t].clips[i]).end() <= project_end(tracks) by {
            if t < n {
                assert(d[t].clips[i] == tracks[t].clips[i]);
            }
        }
        if project_end(tracks) != 0 {
            if project_end(tracks) == project_end(d) {
                let (t, i) = choose|t: int, i: int|
                    0 <= t < d.len() && 0 <= i < d[t].clips.len() && (#[trigger] d[t].clips[i]).end()
                        == project_end(d);
                assert(tracks[t].clips[i] == d[t].clips[i]);
            } else {
                let i = choose|i: int|
                    0 <= i < tracks[n].clips.len() && (#[trigger] tracks[n].clips[i]).end()
                        == latest_end(tracks[n].clips);
                assert(tracks[n].clips[i].end() == project_end(tracks));
            }
        }
    }
}

/// Where the last clip of some tracks ends.
pub fn tracks_duration(tracks: &Vec<Track>) -> (r: Secs)
    requires
        tracks_ok(track_views(tracks@)),
    ensures
        r == crate::time::sat_secs(project_end(track_views(tracks@))),
        r >= 0,
{
    let ghost all = track_views(tracks@);
    let mut end: Secs = 0;
    let mut i: usize = 0;
    while i < tracks.len()
        invariant
            i <= tracks@.len(),
            all == track_views(tracks@),
            tracks_ok(all),
            end == crate::time::sat_secs(project_end(all.subrange(0, i as int))),
            end >= 0,
        decreases tracks@.len() - i,
    {
        assert(all[i as int] == tracks@[i as int]@);
        assert(all.subrange(0, i + 1).drop_last() =~= all.subrange(0, i as int));
        let d: Secs = tracks[i].duration_secs();
        if d > end {
            end = d;
        }
        i = i + 1;
    }
    assert(all.subrange(0, i as int) =~= all);
    end
}

} // verus!
