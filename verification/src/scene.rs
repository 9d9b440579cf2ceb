//! What the window shows: the lanes with the visible parts of their clips, the columns of the
//! waveforms, the selection, the scroll bar and the playhead.

use vstd::prelude::*;
use vstd::string::StringExecFns;
use crate::app::{App, AppView};
use crate::audio::{Clip, ClipView};
use crate::placement::is_listed;
use crate::sample::{max_sample, min_sample, Sample, SILENCE};
use crate::text::number;
use crate::time::{earlier, frame_at, later, to_secs, Secs};

verus! {

/// A column of a waveform: the least and the greatest sample that it shows, and silence.
#[derive(Clone, Copy)]
pub struct Column {
    pub col: usize,
    pub least: Sample,
    pub greatest: Sample,
}

/// How the title bar of a clip looks.
#[derive(Clone, Copy, Debug, PartialEq, Eq, Structural)]
pub enum TitleStyle {
    Plain,
    /// The clip is in the selected stretch, or one of several selected clips
    InGroup,
    /// The clip is the selected one
    Selected,
}

/// The visible part of a clip. Times are counted from the left edge of the view.
pub struct ClipPicture {
    pub clip_idx: usize,
    pub style: TitleStyle,
    pub from: Secs,
    pub to: Secs,
    pub columns: Vec<Column>,
}

/// What a [`ClipPicture`] holds.
#[verifier::ext_equal]
pub struct PictureView {
    pub clip_idx: usize,
    pub style: TitleStyle,
    pub from: Secs,
    pub to: Secs,
    pub columns: Seq<Column>,
}

impl View for ClipPicture {
    type V = PictureView;

    open spec fn view(&self) -> PictureView {
        PictureView {
            clip_idx: self.clip_idx,
            style: self.style,
            from: self.from,
            to: self.to,
            columns: self.columns@,
        }
    }
}

/// What each of some pictures holds.
pub open spec fn picture_views(p: Seq<ClipPicture>) -> Seq<PictureView> {
    p.map_values(|c: ClipPicture| c@)
}

/// The number of columns that a stretch of the view takes, in a window of `width` pixels.
pub open spec fn column_count(stretch: int, width: int, view: int) -> int {
    stretch * width / view
}

/// The first of `frames` frames that column `col` of `cols` shows: they are spread over the
/// columns, at least one to each.
pub open spec fn column_start(col: int, cols: int, frames: int) -> int {
    if frames >= cols {
        col * frames / cols
    } else {
        col
    }
}

/// The first `n` of `cols` columns over frames `first` to `last`; a column that has no frame is
/// left out.
pub open spec fn columns_upto(mono: Seq<Sample>, first: int, last: int, cols: int, n: int) -> Seq<Column>
    decreases n,
{
    if n <= 0 {
        Seq::empty()
    } else {
        let rest = columns_upto(mono, first, last, cols, n - 1);
        let start = first + column_start(n - 1, cols, last - first);
        let end = crate::time::smaller(first + column_start(n, cols, last - first), last);
        if start < end {
            let (least, greatest) = crate::sample::number_range(mono.subrange(start, end));
            rest.push(
                Column {
                    col: (n - 1) as usize,
                    least: crate::sample::low(SILENCE, least),
                    greatest: crate::sample::high(SILENCE, greatest),
                },
            )
        } else {
            rest
        }
    }
}

impl AppView {
    /// Where the visible part of a clip starts.
    pub open spec fn shown_from(self, c: ClipView) -> int {
        crate::time::larger(c.offset_secs as int, self.view_start as int)
    }

    /// Where the visible part of a clip ends.
    pub open spec fn shown_to(self, c: ClipView) -> int {
        crate::time::smaller(c.end(), self.view_start + self.effective_view_duration())
    }

    /// Whether a clip is visible.
    pub open spec fn shows(self, c: ClipView) -> bool {
        self.shown_from(c) < self.shown_to(c)
    }

    /// How the title bar of clip `i` of track `t` looks.
    pub open spec fn title_style(self, t: usize, i: usize) -> TitleStyle {
        let c = self.tracks[t as int].clips[i as int];
        if self.selected_track != Some(t) {
            TitleStyle::Plain
        } else if self.selected_clip == Some(i) {
            TitleStyle::Selected
        } else if (match self.selection {
            Some((s0, s1)) => c.overlaps(s0 as int, s1 as int),
            None => false,
        }) || self.multi_selected_clips.contains(i) {
            TitleStyle::InGroup
        } else {
            TitleStyle::Plain
        }
    }

    /// The columns of the waveform of a clip, in a window of `width` pixels.
    pub open spec fn columns(self, c: ClipView, width: u32) -> Seq<Column> {
        let from = self.shown_from(c);
        let to = self.shown_to(c);
        let first = crate::time::frames_in(from - c.offset_secs, c.sample_rate as int);
        let last = c.frames_before(to - c.offset_secs);
        let cols = column_count(to - from, width as int, self.effective_view_duration() as int);
        if first < last && cols > 0 {
            columns_upto(c.mono, first, last, cols, cols)
        } else {
            Seq::empty()
        }
    }

    /// The picture of clip `i` of track `t`.
    pub open spec fn picture(self, t: usize, i: usize, width: u32) -> PictureView {
        let c = self.tracks[t as int].clips[i as int];
        PictureView {
            clip_idx: i,
            style: self.title_style(t, i),
            from: (self.shown_from(c) - self.view_start) as Secs,
            to: (self.shown_to(c) - self.view_start) as Secs,
            columns: self.columns(c, width),
        }
    }

    /// The pictures of the visible ones of the first `n` clips of track `t`.
    pub open spec fn pictures(self, t: usize, width: u32, n: int) -> Seq<PictureView>
        decreases n,
    {
        if n <= 0 {
            Seq::empty()
        } else {
            let rest = self.pictures(t, width, n - 1);
            if self.shows(self.tracks[t as int].clips[n - 1]) {
                rest.push(self.picture(t, (n - 1) as usize, width))
            } else {
                rest
            }
        }
    }

    /// The visible part of the selection, counted from the left edge of the view.
    pub open spec fn shown_selection(self) -> Option<(int, int)> {
        match self.selection {
            Some((a, b)) => {
                let s0 = crate::time::smaller(a as int, b as int) - self.view_start;
                let s1 = crate::time::larger(a as int, b as int) - self.view_start;
                let view = self.effective_view_duration() as int;
                if s1 > 0 && s0 < view {
                    Some((crate::time::larger(s0, 0), crate::time::smaller(s1, view)))
                } else {
                    None
                }
            },
            None => None,
        }
    }

    /// The playhead, counted from the left edge of the view, if it is in view.
    pub open spec fn shown_playhead(self, playhead: Secs) -> Option<int> {
        let view = self.effective_view_duration();
        if view > 0 && self.view_start <= playhead <= self.view_start + view {
            Some(playhead - self.view_start)
        } else {
            None
        }
    }
}

/// The first frame that a column shows.
fn column_begin(col: usize, cols: usize, frames: usize) -> (r: i128)
    requires
        cols > 0,
        col <= cols,
        cols <= u32::MAX,
    ensures
        r == column_start(col as int, cols as int, frames as int),
        0 <= r <= u64::MAX * u32::MAX,
{
    if frames >= cols {
        assert(0 <= col * frames <= u32::MAX * u64::MAX) by (nonlinear_arith)
            requires
                0 <= col <= u32::MAX,
                0 <= frames <= u64::MAX,
        ;
        let r: i128 = col as i128 * frames as i128 / cols as i128;
        assert(0 <= r <= col * frames) by (nonlinear_arith)
            requires
                r == (col * frames) / (cols as int),
                0 <= col * frames,
                cols > 0,
        ;
        r
    } else {
        col as i128
    }
}

/// The columns of frames `first` to `last` of a clip.
fn make_columns(clip: &Clip, first: usize, last: usize, cols: usize) -> (r: Vec<Column>)
    requires
        clip@.ok(),
        first < last <= clip@.mono.len(),
        0 < cols <= u32::MAX,
    ensures
        r@ == columns_upto(clip@.mono, first as int, last as int, cols as int, cols as int),
{
    let frames: usize = last - first;
    let mut r: Vec<Column> = Vec::new();
    let mut n: usize = 0;
    while n < cols
        invariant
            n <= cols,
            0 < cols <= u32::MAX,
            clip@.ok(),
            first < last <= clip@.mono.len(),
            frames == last - first,
            r@ == columns_upto(clip@.mono, first as int, last as int, cols as int, n as int),
        decreases cols - n,
    {
        let start: i128 = first as i128 + column_begin(n, cols, frames);
        let end: i128 = earlier(first as i128 + column_begin(n + 1, cols, frames), last as i128);
        if start < end {
            let (least, greatest): (Sample, Sample) = clip.min_max_range(start as usize, end as usize);
            r.push(
                Column {
                    col: n,
                    least: min_sample(SILENCE, least),
                    greatest: max_sample(SILENCE, greatest),
                },
            );
        }
        n = n + 1;
    }
    r
}

/// A stretch of the view takes at most the columns of the window.
proof fn lemma_columns_fit(stretch: int, width: int, view: int)
    requires
        0 <= stretch <= view,
        0 < view,
        0 <= width,
    ensures
        0 <= stretch * width <= view * width,
        0 <= column_count(stretch, width, view) <= width,
{
    assert(0 <= stretch * width <= view * width) by (nonlinear_arith)
        requires
            0 <= stretch <= view,
            0 <= width,
    ;
    assert(view * width / view == width) by (nonlinear_arith)
        requires
            view > 0,
    ;
    vstd::arithmetic::div_mod::lemma_div_is_ordered(stretch * width, view * width, view);
    vstd::arithmetic::div_mod::lemma_div_pos_is_pos(stretch * width, view);
}

impl App {
    /// How the title bar of clip `i` of track `t` looks.
    fn title_style(&self, t: usize, i: usize, clip: &Clip) -> (r: TitleStyle)
        requires
            self@.ok(),
            self@.has_clip(t, i),
            clip@ == self@.tracks[t as int].clips[i as int],
            clip@.ok(),
        ensures
            r == self@.title_style(t, i),
    {
        if self.selected_track != Some(t) {
            return TitleStyle::Plain;
        }
        if self.selected_clip == Some(i) {
            return TitleStyle::Selected;
        }
        let in_stretch: bool = match self.selection {
            Some((s0, s1)) => (s0 as i128) < clip.end_secs() && s1 > clip.offset_secs,
            None => false,
        };
        if in_stretch || is_listed(self.multi_selected_clips.as_slice(), i) {
            TitleStyle::InGroup
        } else {
            TitleStyle::Plain
        }
    }

    /// The picture of clip `i` of track `t`, if it is visible.
    fn clip_picture(&self, t: usize, i: usize, clip: &Clip, width: u32) -> (r: Option<ClipPicture>)
        requires
            self@.ok(),
            self@.has_clip(t, i),
            clip@ == self@.tracks[t as int].clips[i as int],
            clip@.ok(),
        ensures
            match r {
                Some(p) => self@.shows(clip@) && p@ == self@.picture(t, i, width),
                None => !self@.shows(clip@),
            },
    {
        let view: Secs = self.effective_view_duration();
        let start: i128 = clip.offset_secs as i128;
        let from: i128 = later(start, self.view_start as i128);
        let to: i128 = earlier(clip.end_secs(), self.view_start as i128 + view as i128);
        if from >= to {
            return None;
        }
        let ghost c = clip@;
        let style: TitleStyle = self.title_style(t, i, clip);
        let first: usize = frame_at(to_secs(from - start), clip.sample_rate);
        let until: usize = frame_at(to_secs(to - start), clip.sample_rate);
        let len: usize = clip.mono.len();
        let last: usize = if until < len {
            until
        } else {
            len
        };
        proof {
            crate::time::lemma_time_of_grows(0, c.mono.len() as int, c.sample_rate as int);
            crate::time::lemma_frames_in_grows(from - start, from - start, c.sample_rate as int);
            crate::time::lemma_frames_in_grows(to - start, to - start, c.sample_rate as int);
            assert(last == c.frames_before(to - start));
            lemma_columns_fit(to - from, width as int, view as int);
            assert(view * width <= i64::MAX * u32::MAX) by (nonlinear_arith)
                requires
                    0 <= view <= i64::MAX,
                    0 <= width <= u32::MAX,
            ;
        }
        let cols: usize = ((to - from) * width as i128 / view as i128) as usize;
        let columns: Vec<Column> = if first < last && cols > 0 {
            make_columns(clip, first, last, cols)
        } else {
            Vec::new()
        };
        assert(columns@ =~= self@.columns(c, width));
        Some(
            ClipPicture {
                clip_idx: i,
                style,
                from: to_secs(from - self.view_start as i128),
                to: to_secs(to - self.view_start as i128),
                columns,
            },
        )
    }

    /// The visible clips of track `t`, in a window of `width` pixels.
    pub fn lane_pictures(&self, t: usize, width: u32) -> (r: Vec<ClipPicture>)
        requires
            self@.ok(),
            t < self@.tracks.len(),
        ensures
            picture_views(r@) == self@.pictures(
                t,
                width,
                self@.tracks[t as int].clips.len() as int,
            ),
    {
        let ghost clips = self@.tracks[t as int].clips;
        let list: &Vec<Clip> = &self.tracks[t].clips;
        assert(clips == crate::track::clip_views(list@));
        let mut r: Vec<ClipPicture> = Vec::new();
        let mut i: usize = 0;
        assert(picture_views(r@) =~= Seq::empty());
        while i < list.len()
            invariant
                i <= list@.len(),
                t < self@.tracks.len(),
                self@.ok(),
                clips == self@.tracks[t as int].clips,
                clips == crate::track::clip_views(list@),
                picture_views(r@) == self@.pictures(t, width, i as int),
            decreases list@.len() - i,
        {
            let ghost before = picture_views(r@);
            assert(clips[i as int] == list@[i as int]@);
            assert(crate::track::clips_ok(clips));
            match self.clip_picture(t, i, &list[i], width) {
                Some(p) => {
                    r.push(p);
                    assert(picture_views(r@) =~= before.push(p@));
                },
                None => {},
            }
            i = i + 1;
        }
        r
    }

    /// The visible part of the selection, counted from the left edge of the view.
    pub fn shown_selection(&self) -> (r: Option<(i128, i128)>)
        requires
            self@.ok(),
        ensures
            match r {
                Some((a, b)) => self@.shown_selection() == Some((a as int, b as int)),
                None => self@.shown_selection() is None,
            },
    {
        match self.selection {
            Some((a, b)) => {
                let vs: i128 = self.view_start as i128;
                let s0: i128 = earlier(a as i128, b as i128) - vs;
                let s1: i128 = later(a as i128, b as i128) - vs;
                let view: i128 = self.effective_view_duration() as i128;
                if s1 > 0 && s0 < view {
                    Some((later(s0, 0), earlier(s1, view)))
                } else {
                    None
                }
            },
            None => None,
        }
    }

    /// The thumb of the scroll bar, where it starts and ends of the whole: start, end and length
    /// of the timeline. There is none for a timeline without length.
    pub fn scroll_thumb(&self) -> (r: Option<(i128, i128, i128)>)
        requires
            self@.ok(),
        ensures
            match r {
                Some((from, to, of)) => {
                    &&& from == self@.view_start
                    &&& to == self@.view_start + self@.effective_view_duration()
                    &&& of == self@.max_duration()
                    &&& of > 0
                },
                None => self@.max_duration() == 0,
            },
    {
        let max: Secs = self.max_duration();
        if max <= 0 {
            return None;
        }
        let from: i128 = self.view_start as i128;
        Some((from, from + self.effective_view_duration() as i128, max as i128))
    }

    /// The playhead, counted from the left edge of the view, if it is in view.
    pub fn shown_playhead(&self, playhead: Secs) -> (r: Option<i128>)
        requires
            self@.ok(),
        ensures
            match r {
                Some(x) => self@.shown_playhead(playhead) == Some(x as int),
                None => self@.shown_playhead(playhead) is None,
            },
    {
        let view: Secs = self.effective_view_duration();
        let x: i128 = playhead as i128 - self.view_start as i128;
        if view > 0 && x >= 0 && x <= view as i128 {
            Some(x)
        } else {
            None
        }
    }
}

/// The label of a track: the first one is T1.
pub fn track_label(t: usize) -> (r: String)
    requires
        t < usize::MAX,
    ensures
        r@ == "T"@ + crate::text::decimal((t + 1) as nat),
{
    let mut r: String = "T".to_owned();
    let n: String = number(t as u64 + 1);
    r.append(n.as_str());
    r
}

/// The columns of a waveform show every frame of its visible part.
pub proof fn law_columns_show_every_frame(first: int, last: int, cols: int, f: int)
    requires
        0 <= first <= f < last,
        0 < cols <= last - first,
    ensures
        exists|n: int|
            0 <= n < cols && first + #[trigger] column_start(n, cols, last - first) <= f && f < first
                + column_start(n + 1, cols, last - first),
{
    let frames = last - first;
    assert(cols * frames / cols == frames) by (nonlinear_arith)
        requires
            cols > 0,
    ;
    lemma_find_column(first, frames, cols, f, cols);
}

/// A frame before the end of column `n - 1` is in one of the first `n` columns.
proof fn lemma_find_column(first: int, frames: int, cols: int, f: int, n: int)
    requires
        0 < cols <= frames,
        0 <= n <= cols,
        first <= f < first + column_start(n, cols, frames),
    ensures
        exists|k: int|
            0 <= k < cols && first + #[trigger] column_start(k, cols, frames) <= f && f < first
                + column_start(k + 1, cols, frames),
    decreases n,
{
    if n == 0 {
        assert(0 * frames / cols == 0);
    } else if f < first + column_start(n - 1, cols, frames) {
        lemma_find_column(first, frames, cols, f, n - 1);
    } else {
        assert(first + column_start(n - 1, cols, frames) <= f);
    }
}

/// A clip is drawn if it has something in view, once, in the order of the clips; its picture is the part
/// of it that is in view, counted from the left edge of the view.
pub proof fn law_what_is_in_view_is_drawn(v: AppView, t: usize, width: u32, n: int)
    requires
        0 <= n < v.tracks[t as int].clips.len(),
        v.tracks[t as int].clips.len() <= usize::MAX,
    ensures
        v.pictures(t, width, 0).len() == 0,
        ({
            let c = v.tracks[t as int].clips[n];
            let some = v.pictures(t, width, n);
            let more = v.pictures(t, width, n + 1);
            let left = v.view_start;
            let right = v.view_start + v.effective_view_duration();
            if c.offset_secs < right && left < c.end() && c.offset_secs < c.end() && left < right {
                let p = more.last();
                &&& more.len() == some.len() + 1
                &&& more.drop_last() == some
                &&& p.clip_idx == n
                &&& c.offset_secs >= left && c.offset_secs - left <= i64::MAX ==> p.from
                    == c.offset_secs - left
                &&& c.offset_secs <= left ==> p.from == 0
                &&& c.end() >= right ==> p.to == v.effective_view_duration()
                &&& c.end() <= right ==> p.to == c.end() - left
            } else {
                more == some
            }
        }),
{
    crate::track::law_project_end(v.tracks);
    let c = v.tracks[t as int].clips[n];
    let some = v.pictures(t, width, n);
    if v.shows(c) {
        assert(some.push(v.picture(t, n as usize, width)).drop_last() =~= some);
    }
}

/// The title bar of the selected clip is marked as such; those of the other selected clips, and of the
/// clips that overlap the selected stretch, are marked as a group. Only the selected track has marks.
pub proof fn law_the_selected_clips_are_marked(v: AppView, t: usize, i: usize)
    ensures
        ({
            let c = v.tracks[t as int].clips[i as int];
            let here = v.selected_track == Some(t);
            let in_stretch = v.selection is Some && (v.selection->0).0 < c.end() && (v.selection->0).1
                > c.offset_secs;
            let style = v.title_style(t, i);
            &&& style == TitleStyle::Selected <==> here && v.selected_clip == Some(i)
            &&& style == TitleStyle::InGroup <==> here && v.selected_clip != Some(i) && (in_stretch
                || v.multi_selected_clips.contains(i))
        }),
{
}

/// What is drawn of the selection is the part of it that is in view, whichever end comes first; and the
/// playhead is drawn where it is, if it is in view.
pub proof fn law_selection_and_playhead_are_drawn_in_view(v: AppView, a: Secs, b: Secs, playhead: Secs)
    requires
        v.selection == Some((a, b)),
        a <= b,
    ensures
        v.shown_selection() == (AppView { selection: Some((b, a)), ..v }).shown_selection(),
        ({
            let left = v.view_start;
            let view = v.effective_view_duration();
            match v.shown_selection() {
                Some((x, y)) => {
                    &&& a >= left ==> x == a - left
                    &&& a <= left ==> x == 0
                    &&& b <= left + view ==> y == b - left
                    &&& b >= left + view ==> y == view
                    &&& a < left + view && left < b
                },
                None => b <= left || left + view <= a,
            }
        }),
        match v.shown_playhead(playhead) {
            Some(x) => x == playhead - v.view_start && 0 <= x <= v.effective_view_duration(),
            None => v.effective_view_duration() == 0 || playhead < v.view_start || playhead
                > v.view_start + v.effective_view_duration(),
        },
{
    crate::track::law_project_end(v.tracks);
    assert((AppView { selection: Some((b, a)), ..v }).effective_view_duration()
        == v.effective_view_duration());
}

proof fn lemma_column_of(mono: Seq<Sample>, first: int, last: int, cols: int, n: int, k: int) -> (j: int)
    requires
        0 <= k < n <= cols,
        first + column_start(k, cols, last - first) < crate::time::smaller(
            first + column_start(k + 1, cols, last - first),
            last,
        ),
    ensures
        0 <= j < columns_upto(mono, first, last, cols, n).len(),
        ({
            let start = first + column_start(k, cols, last - first);
            let end = crate::time::smaller(first + column_start(k + 1, cols, last - first), last);
            let range = crate::sample::number_range(mono.subrange(start, end));
            columns_upto(mono, first, last, cols, n)[j] == (Column {
                col: k as usize,
                least: crate::sample::low(SILENCE, range.0),
                greatest: crate::sample::high(SILENCE, range.1),
            })
        }),
    decreases n,
{
    let rest = columns_upto(mono, first, last, cols, n - 1);
    let all = columns_upto(mono, first, last, cols, n);
    if k == n - 1 {
        assert(all.len() == rest.len() + 1);
        rest.len() as int
    } else {
        let j = lemma_column_of(mono, first, last, cols, n - 1, k);
        assert(all[j] == rest[j]);
        j
    }
}

/// The waveform of a clip shows every frame that is in view: it is in the range of a column, or it is the
/// silence that every column takes in.
pub proof fn law_the_waveform_shows_every_frame(v: AppView, c: ClipView, width: u32, f: int)
    requires
        v.shows(c),
        v.effective_view_duration() > 0,
        0 <= f < c.mono.len(),
        crate::sample::is_number(c.mono[f]),
        ({
            let from = v.shown_from(c) - c.offset_secs;
            let to = v.shown_to(c) - c.offset_secs;
            &&& crate::time::frames_in(from, c.sample_rate as int) <= f < crate::time::frames_in(
                to,
                c.sample_rate as int,
            )
            &&& (to - from) * width >= v.effective_view_duration()
        }),
    ensures
        exists|j: int|
            0 <= j < v.columns(c, width).len() && {
                let q = #[trigger] v.columns(c, width)[j];
                q.least <= c.mono[f] <= q.greatest && q.least <= 0 <= q.greatest && {
                    let from = v.shown_from(c) - c.offset_secs;
                    let to = v.shown_to(c) - c.offset_secs;
                    let first = crate::time::frames_in(from, c.sample_rate as int);
                    let frames = c.frames_before(to) - first;
                    let cols = (to - from) * width / v.effective_view_duration() as int;
                    if cols <= frames {
                        q.col * frames / cols <= f - first < (q.col + 1) * frames / cols
                    } else {
                        q.col == f - first
                    }
                }
            },
{
    let from = v.shown_from(c);
    let to = v.shown_to(c);
    let view = v.effective_view_duration() as int;
    let first = crate::time::frames_in(from - c.offset_secs, c.sample_rate as int);
    let last = c.frames_before(to - c.offset_secs);
    let x = (to - from) * width;
    let cols = x / view;
    vstd::arithmetic::div_mod::lemma_fundamental_div_mod(x, view);
    vstd::arithmetic::div_mod::lemma_mod_bound(x, view);
    assert(cols > 0) by (nonlinear_arith)
        requires
            x >= view,
            x == view * cols + x % view,
            0 <= x % view < view,
            view > 0,
    ;
    crate::time::law_frames_before_a_time(from - c.offset_secs, c.sample_rate as int);
    assert(first >= 0) by (nonlinear_arith)
        requires
            (first + 1) * 705_600_000 > (from - c.offset_secs) * c.sample_rate,
            from - c.offset_secs >= 0,
            c.sample_rate >= 0,
    ;
    assert(first <= f < last);
    let k = if cols <= last - first {
        law_columns_show_every_frame(first, last, cols, f);
        choose|n: int|
            0 <= n < cols && first + #[trigger] column_start(n, cols, last - first) <= f && f < first
                + column_start(n + 1, cols, last - first)
    } else {
        f - first
    };
    let start = first + column_start(k, cols, last - first);
    let end = crate::time::smaller(first + column_start(k + 1, cols, last - first), last);
    assert(0 <= start) by {
        if cols <= last - first {
            let frames = last - first;
            assert(k * frames >= 0) by (nonlinear_arith)
                requires
                    k >= 0,
                    frames >= 0,
            ;
            vstd::arithmetic::div_mod::lemma_div_pos_is_pos(k * frames, cols);
        }
    }
    let part = c.mono.subrange(start, end);
    assert(part[f - start] == c.mono[f]);
    assert(crate::sample::has_number(part)) by {
        assert(crate::sample::is_number(part[f - start]));
    }
    crate::sample::law_number_range(part);
    let j = lemma_column_of(c.mono, first, last, cols, cols, k);
    assert(cols <= width) by (nonlinear_arith)
        requires
            x == (to - from) * width,
            to - from <= view,
            x == view * cols + x % view,
            0 <= x % view < view,
            width >= 0,
            view > 0,
    ;
    let q = v.columns(c, width)[j];
    assert(q.col == k);
    assert((to - c.offset_secs) - (from - c.offset_secs) == to - from);
    if cols <= last - first {
        let frames = last - first;
        assert(column_start(k, cols, frames) == k * frames / cols);
        assert(column_start(k + 1, cols, frames) == (k + 1) * frames / cols);
    }
}

/// A column reaches no farther than the samples that it shows: each of its ends is silence, or a sample
/// of the clip that is in view.
pub proof fn law_a_column_is_tight(v: AppView, c: ClipView, width: u32, j: int)
    requires
        v.shows(c),
        v.effective_view_duration() > 0,
        0 <= j < v.columns(c, width).len(),
    ensures
        ({
            let q = v.columns(c, width)[j];
            let first = crate::time::frames_in(v.shown_from(c) - c.offset_secs, c.sample_rate as int);
            let last = c.frames_before(v.shown_to(c) - c.offset_secs);
            &&& q.least == 0 || exists|f: int| first <= f < last && q.least == #[trigger] c.mono[f]
            &&& q.greatest == 0 || exists|f: int| first <= f < last && q.greatest == #[trigger] c.mono[f]
            &&& q.least <= 0 <= q.greatest
        }),
{
    let from = v.shown_from(c);
    let to = v.shown_to(c);
    let first = crate::time::frames_in(from - c.offset_secs, c.sample_rate as int);
    let last = c.frames_before(to - c.offset_secs);
    let cols = column_count(to - from, width as int, v.effective_view_duration() as int);
    crate::time::law_frames_before_a_time(from - c.offset_secs, c.sample_rate as int);
    assert(first >= 0) by (nonlinear_arith)
        requires
            (first + 1) * 705_600_000 > (from - c.offset_secs) * c.sample_rate,
            from - c.offset_secs >= 0,
            c.sample_rate >= 0,
    ;
    lemma_columns_tight(c.mono, first, last, cols, cols, j);
}

proof fn lemma_columns_tight(mono: Seq<Sample>, first: int, last: int, cols: int, n: int, j: int)
    requires
        0 <= first < last <= mono.len(),
        0 < cols,
        n <= cols,
        0 <= j < columns_upto(mono, first, last, cols, n).len(),
    ensures
        ({
            let q = columns_upto(mono, first, last, cols, n)[j];
            &&& q.least == 0 || exists|f: int| first <= f < last && q.least == #[trigger] mono[f]
            &&& q.greatest == 0 || exists|f: int| first <= f < last && q.greatest == #[trigger] mono[f]
            &&& q.least <= 0 <= q.greatest
        }),
    decreases n,
{
    let rest = columns_upto(mono, first, last, cols, n - 1);
    let all = columns_upto(mono, first, last, cols, n);
    if j < rest.len() {
        lemma_columns_tight(mono, first, last, cols, n - 1, j);
        assert(all[j] == rest[j]);
    } else {
        let frames = last - first;
        let start = first + column_start(n - 1, cols, frames);
        let end = crate::time::smaller(first + column_start(n, cols, frames), last);
        assert(start >= first) by {
            if frames >= cols {
                assert((n - 1) * frames >= 0) by (nonlinear_arith)
                    requires
                        n >= 1,
                        frames >= 0,
                ;
                vstd::arithmetic::div_mod::lemma_div_pos_is_pos((n - 1) * frames, cols);
            }
        }
        let part = mono.subrange(start, end);
        if crate::sample::has_number(part) {
            crate::sample::law_number_range(part);
            let (least, greatest) = crate::sample::number_range(part);
            let a = choose|a: int| 0 <= a < part.len() && part[a] == least;
            let b = choose|b: int| 0 <= b < part.len() && part[b] == greatest;
            assert(mono[start + a] == least);
            assert(mono[start + b] == greatest);
        }
    }
}

} // verus!
