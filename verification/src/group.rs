//! Where a dragged group of clips may go: as far as it can without overlapping the other clips.

use vstd::prelude::*;
use crate::app::App;
use crate::audio::{Clip, ClipView};
use crate::placement::is_listed;
use crate::time::{earlier, later, to_secs, Secs};

verus! {

/// A clip of a dragged group: where it was when the drag began, and how long it lasts.
#[derive(Clone, Copy)]
pub struct Member {
    pub offset: Secs,
    pub duration: Secs,
}

/// How far the group may move instead of `delta`, seen from a member that would come to lie from
/// `start` to `start + m.duration`, and one other clip: up to that clip, and not backwards.
pub open spec fn held_by(delta: int, m: Member, start: int, c: ClipView) -> int {
    if c.overlaps(start, start + m.duration) {
        if delta > 0 {
            crate::time::larger(
                0,
                crate::time::smaller(c.offset_secs - (m.offset + m.duration), delta),
            )
        } else {
            crate::time::smaller(0, crate::time::larger(c.end() - m.offset, delta))
        }
    } else {
        delta
    }
}

/// How far the group may move, seen from a member and all other clips.
pub open spec fn held_by_all(delta: int, m: Member, start: int, rest: Seq<ClipView>) -> int
    decreases rest.len(),
{
    if rest.len() == 0 {
        delta
    } else {
        held_by(held_by_all(delta, m, start, rest.drop_last()), m, start, rest.last())
    }
}

/// How far the group may move, seen from each member in turn.
pub open spec fn held(delta: int, group: Seq<Member>, rest: Seq<ClipView>) -> int
    decreases group.len(),
{
    if group.len() == 0 {
        delta
    } else {
        let d = held(delta, group.drop_last(), rest);
        held_by_all(d, group.last(), group.last().offset + d, rest)
    }
}

/// How far the group may move with no member before the start of the timeline.
pub open spec fn held_at_start(delta: int, group: Seq<Member>) -> int
    decreases group.len(),
{
    if group.len() == 0 {
        delta
    } else {
        let d = held_at_start(delta, group.drop_last());
        if group.last().offset + d < 0 {
            -(group.last().offset as int)
        } else {
            d
        }
    }
}

/// How far the group may move after one look at each member.
pub open spec fn held_once(delta: int, group: Seq<Member>, rest: Seq<ClipView>) -> int {
    held_at_start(held(delta, group, rest), group)
}

/// How far `d` is from no move at all.
pub open spec fn size(d: int) -> nat {
    crate::time::distance(d, 0) as nat
}

/// How far the group moves: it is looked at again for as long as that makes the move shorter.
pub open spec fn settled(delta: int, group: Seq<Member>, rest: Seq<ClipView>) -> int
    decreases size(delta),
{
    let d = held_once(delta, group, rest);
    if size(d) < size(delta) {
        settled(d, group, rest)
    } else {
        d
    }
}

/// Where the leftmost clip of the group goes, if it is dragged from `from` to `desired`.
pub open spec fn group_left(rest: Seq<ClipView>, group: Seq<Member>, desired: int, from: int) -> int {
    if rest.len() == 0 {
        crate::time::larger(desired, desired - from)
    } else {
        from + settled(desired - from, group, rest)
    }
}

/// Whether a move by `e` goes in the direction of a move by `d`, but no farther.
pub open spec fn within(e: int, d: int) -> bool {
    &&& d >= 0 ==> 0 <= e <= d
    &&& d <= 0 ==> d <= e <= 0
}

/// Whether each member, moved by `d`, overlaps none of the other clips.
pub open spec fn clear(d: int, group: Seq<Member>, rest: Seq<ClipView>) -> bool {
    forall|k: int, i: int|
        0 <= k < group.len() && 0 <= i < rest.len() ==> !(#[trigger] rest[i]).overlaps(
            (#[trigger] group[k]).offset + d,
            group[k].offset + d + group[k].duration,
        )
}

proof fn lemma_held_by_all(delta: int, m: Member, start: int, rest: Seq<ClipView>)
    requires
        start == m.offset + delta,
    ensures
        within(held_by_all(delta, m, start, rest), delta),
        held_by_all(delta, m, start, rest) == delta && delta != 0 ==> forall|i: int|
            0 <= i < rest.len() ==> !(#[trigger] rest[i]).overlaps(start, start + m.duration),
    decreases rest.len(),
{
    if rest.len() > 0 {
        let d = rest.drop_last();
        lemma_held_by_all(delta, m, start, d);
        if held_by_all(delta, m, start, rest) == delta && delta != 0 {
            assert forall|i: int| 0 <= i < rest.len() implies !(#[trigger] rest[i]).overlaps(
                start,
                start + m.duration,
            ) by {
                if i < d.len() {
                    assert(d[i] == rest[i]);
                } else {
                    assert(rest.last() == rest[i]);
                }
            }
        }
    }
}

proof fn lemma_held(delta: int, group: Seq<Member>, rest: Seq<ClipView>)
    ensures
        within(held(delta, group, rest), delta),
        held(delta, group, rest) == delta && delta != 0 ==> clear(delta, group, rest),
    decreases group.len(),
{
    if group.len() > 0 {
        let g = group.drop_last();
        lemma_held(delta, g, rest);
        let d = held(delta, g, rest);
        let m = group.last();
        lemma_held_by_all(d, m, m.offset + d, rest);
        if held(delta, group, rest) == delta && delta != 0 {
            assert(d == delta);
            assert forall|k: int, i: int|
                0 <= k < group.len() && 0 <= i < rest.len() implies !(#[trigger] rest[i]).overlaps(
                (#[trigger] group[k]).offset + delta,
                group[k].offset + delta + group[k].duration,
            ) by {
                if k < g.len() {
                    assert(g[k] == group[k]);
                } else {
                    assert(m == group[k]);
                }
            }
        }
    }
}

proof fn lemma_held_at_start(delta: int, group: Seq<Member>)
    requires
        forall|k: int| 0 <= k < group.len() ==> (#[trigger] group[k]).offset >= 0,
    ensures
        within(held_at_start(delta, group), delta),
        held_at_start(delta, group) >= delta,
        forall|k: int|
            0 <= k < group.len() ==> (#[trigger] group[k]).offset + held_at_start(delta, group) >= 0,
    decreases group.len(),
{
    if group.len() > 0 {
        let g = group.drop_last();
        assert forall|k: int| 0 <= k < g.len() implies (#[trigger] g[k]).offset >= 0 by {
            assert(g[k] == group[k]);
        }
        lemma_held_at_start(delta, g);
        assert(group.last() == group[group.len() - 1]);
        assert forall|k: int| 0 <= k < group.len() implies (#[trigger] group[k]).offset
            + held_at_start(delta, group) >= 0 by {
            if k < g.len() {
                assert(g[k] == group[k]);
            }
        }
    }
}

/// A group of clips that overlap no other clip where they are overlaps none where it is dragged
/// to either, goes no farther than it was dragged, and does not go before the start of the
/// timeline.
pub proof fn law_group_stays_clear(delta: int, group: Seq<Member>, rest: Seq<ClipView>)
    requires
        clear(0, group, rest),
        forall|k: int| 0 <= k < group.len() ==> (#[trigger] group[k]).offset >= 0,
    ensures
        clear(settled(delta, group, rest), group, rest),
        within(settled(delta, group, rest), delta),
        forall|k: int|
            0 <= k < group.len() ==> (#[trigger] group[k]).offset + settled(delta, group, rest) >= 0,
    decreases size(delta),
{
    let h = held(delta, group, rest);
    let d = held_once(delta, group, rest);
    lemma_held(delta, group, rest);
    lemma_held_at_start(h, group);
    if size(d) < size(delta) {
        law_group_stays_clear(d, group, rest);
    } else {
        assert(d == delta);
        assert(h == delta);
    }
}

proof fn lemma_free_way(delta: int, m: Member, rest: Seq<ClipView>)
    requires
        forall|i: int|
            0 <= i < rest.len() ==> !(#[trigger] rest[i]).overlaps(
                m.offset + delta,
                m.offset + delta + m.duration,
            ),
    ensures
        held_by_all(delta, m, m.offset + delta, rest) == delta,
    decreases rest.len(),
{
    if rest.len() > 0 {
        let d = rest.drop_last();
        assert forall|i: int| 0 <= i < d.len() implies !(#[trigger] d[i]).overlaps(
            m.offset + delta,
            m.offset + delta + m.duration,
        ) by {
            assert(d[i] == rest[i]);
        }
        lemma_free_way(delta, m, d);
        assert(rest.last() == rest[rest.len() - 1]);
    }
}

/// A group goes where it is dragged, if no clip is in the way there and no member would come to lie
/// before the start of the timeline.
pub proof fn law_group_goes_where_it_is_dragged(delta: int, group: Seq<Member>, rest: Seq<ClipView>)
    requires
        clear(delta, group, rest),
        forall|k: int| 0 <= k < group.len() ==> (#[trigger] group[k]).offset + delta >= 0,
    ensures
        held(delta, group, rest) == delta,
        held_at_start(delta, group) == delta,
        settled(delta, group, rest) == delta,
    decreases group.len(),
{
    if group.len() > 0 {
        let g = group.drop_last();
        let m = group.last();
        assert(m == group[group.len() - 1]);
        assert forall|k: int, i: int|
            0 <= k < g.len() && 0 <= i < rest.len() implies !(#[trigger] rest[i]).overlaps(
            (#[trigger] g[k]).offset + delta,
            g[k].offset + delta + g[k].duration,
        ) by {
            assert(g[k] == group[k]);
        }
        assert forall|k: int| 0 <= k < g.len() implies (#[trigger] g[k]).offset + delta >= 0 by {
            assert(g[k] == group[k]);
        }
        law_group_goes_where_it_is_dragged(delta, g, rest);
        lemma_free_way(delta, m, rest);
    }
}

/// Whether a member, moved by `d`, ends where a clip starts or starts where it ends.
pub open spec fn touches(m: Member, c: ClipView, d: int) -> bool {
    m.offset + m.duration + d == c.offset_secs || m.offset + d == c.end()
}

/// Whether a group that is moved by `d` is stopped there: it stays where it was, or a member has come
/// to the start of the timeline or to another clip.
pub open spec fn stopped(d: int, group: Seq<Member>, rest: Seq<ClipView>) -> bool {
    ||| d == 0
    ||| exists|k: int| 0 <= k < group.len() && (#[trigger] group[k]).offset + d == 0
    ||| exists|k: int, i: int|
        0 <= k < group.len() && 0 <= i < rest.len() && #[trigger] touches(group[k], rest[i], d)
}

proof fn lemma_member_stops(delta: int, m: Member, start: int, rest: Seq<ClipView>)
    ensures
        ({
            let d = held_by_all(delta, m, start, rest);
            d == delta || d == 0 || exists|i: int|
                0 <= i < rest.len() && #[trigger] touches(m, rest[i], d)
        }),
    decreases rest.len(),
{
    if rest.len() > 0 {
        let less = rest.drop_last();
        lemma_member_stops(delta, m, start, less);
        let e = held_by_all(delta, m, start, less);
        let d = held_by_all(delta, m, start, rest);
        let n = rest.len() - 1;
        if d != delta && d != 0 {
            if d == e {
                let i = choose|i: int| 0 <= i < less.len() && #[trigger] touches(m, less[i], e);
                assert(touches(m, rest[i], d));
            } else {
                assert(touches(m, rest[n], d));
            }
        }
    }
}

proof fn lemma_members_stop(delta: int, group: Seq<Member>, rest: Seq<ClipView>)
    ensures
        held(delta, group, rest) == delta || stopped(held(delta, group, rest), group, rest),
    decreases group.len(),
{
    if group.len() > 0 {
        let g = group.drop_last();
        let n = group.len() - 1;
        lemma_members_stop(delta, g, rest);
        let e = held(delta, g, rest);
        let d = held(delta, group, rest);
        lemma_member_stops(e, group.last(), group.last().offset + e, rest);
        if d != delta && d != 0 {
            if d == e {
                lemma_stopped_grows(d, group, rest);
            } else {
                let i = choose|i: int|
                    0 <= i < rest.len() && #[trigger] touches(group.last(), rest[i], d);
                assert(touches(group[n], rest[i], d));
            }
        }
    }
}

proof fn lemma_stopped_grows(d: int, group: Seq<Member>, rest: Seq<ClipView>)
    requires
        group.len() > 0,
        stopped(d, group.drop_last(), rest),
    ensures
        stopped(d, group, rest),
{
    let g = group.drop_last();
    if d != 0 {
        if exists|k: int| 0 <= k < g.len() && (#[trigger] g[k]).offset + d == 0 {
            let k = choose|k: int| 0 <= k < g.len() && (#[trigger] g[k]).offset + d == 0;
            assert(group[k] == g[k]);
        } else {
            let (k, i) = choose|k: int, i: int|
                0 <= k < g.len() && 0 <= i < rest.len() && #[trigger] touches(g[k], rest[i], d);
            assert(touches(group[k], rest[i], d));
        }
    }
}

proof fn lemma_start_stops(delta: int, group: Seq<Member>, rest: Seq<ClipView>)
    ensures
        held_at_start(delta, group) == delta || stopped(held_at_start(delta, group), group, rest),
    decreases group.len(),
{
    if group.len() > 0 {
        lemma_start_stops(delta, group.drop_last(), rest);
        let e = held_at_start(delta, group.drop_last());
        let d = held_at_start(delta, group);
        if d == e {
            if d != delta {
                lemma_stopped_grows(d, group, rest);
            }
        } else {
            assert(group[group.len() - 1].offset + d == 0);
        }
    }
}

/// A group that does not go where it is dragged is stopped: it stays where it was, or goes up to
/// another clip or the start of the timeline.
pub proof fn law_group_stops_at_an_edge(delta: int, group: Seq<Member>, rest: Seq<ClipView>)
    ensures
        settled(delta, group, rest) == delta || stopped(settled(delta, group, rest), group, rest),
    decreases size(delta),
{
    let h = held(delta, group, rest);
    let d = held_once(delta, group, rest);
    lemma_members_stop(delta, group, rest);
    lemma_start_stops(h, group, rest);
    if size(d) < size(delta) {
        law_group_stops_at_an_edge(d, group, rest);
    }
}

/// The members of a group: where each was, and how long it lasts.
pub open spec fn members(clips: Seq<ClipView>, indices: Seq<usize>, offsets: Seq<Secs>) -> Seq<Member> {
    Seq::new(
        indices.len(),
        |k: int| Member { offset: offsets[k], duration: clips[indices[k] as int].duration() as Secs },
    )
}

/// The clips' intervals, in order.
spec fn intervals_of(list: Seq<(i128, i128)>, rest: Seq<ClipView>) -> bool {
    &&& list.len() == rest.len()
    &&& forall|i: int|
        0 <= i < rest.len() ==> (#[trigger] list[i]).0 == rest[i].offset_secs && list[i].1
            == rest[i].end() && -0x2_0000_0000_0000_0000 <= list[i].1 <= 0x2_0000_0000_0000_0000
}

/// A bound that every move of a group keeps.
spec fn fits(d: int) -> bool {
    -0x4_0000_0000_0000_0000 <= d <= 0x4_0000_0000_0000_0000
}

/// How far the group may move, seen from a member.
fn hold_member(delta: i128, m: Member, list: &Vec<(i128, i128)>, Ghost(rest): Ghost<Seq<ClipView>>) -> (r:
    i128)
    requires
        intervals_of(list@, rest),
        fits(delta as int),
    ensures
        r == held_by_all(delta as int, m, m.offset + delta, rest),
        fits(r as int),
{
    let start: i128 = m.offset as i128 + delta;
    let end: i128 = start + m.duration as i128;
    let mut d: i128 = delta;
    let mut i: usize = 0;
    assert(rest.subrange(0, 0) =~= Seq::empty());
    while i < list.len()
        invariant
            i <= list@.len(),
            intervals_of(list@, rest),
            start == m.offset + delta,
            end == start + m.duration,
            d == held_by_all(delta as int, m, start as int, rest.subrange(0, i as int)),
            fits(delta as int),
            within(d as int, delta as int),
        decreases list@.len() - i,
    {
        let (os, oe): (i128, i128) = list[i];
        let ghost upto = rest.subrange(0, i + 1);
        assert(upto.drop_last() =~= rest.subrange(0, i as int));
        assert(upto.last() == rest[i as int]);
        if start < oe && end > os {
            if d > 0 {
                d = later(0, earlier(os - (m.offset as i128 + m.duration as i128), d));
            } else {
                d = earlier(0, later(oe - m.offset as i128, d));
            }
        }
        i = i + 1;
    }
    assert(rest.subrange(0, i as int) =~= rest);
    d
}

/// How far the group may move after one look at each member.
fn hold_once(delta: i128, group: &Vec<Member>, list: &Vec<(i128, i128)>, Ghost(rest): Ghost<
    Seq<ClipView>,
>) -> (r: i128)
    requires
        intervals_of(list@, rest),
        fits(delta as int),
    ensures
        r == held_once(delta as int, group@, rest),
        fits(r as int),
{
    let mut d: i128 = delta;
    let mut k: usize = 0;
    assert(group@.subrange(0, 0) =~= Seq::empty());
    while k < group.len()
        invariant
            k <= group@.len(),
            intervals_of(list@, rest),
            d == held(delta as int, group@.subrange(0, k as int), rest),
            fits(d as int),
        decreases group@.len() - k,
    {
        assert(group@.subrange(0, k + 1).drop_last() =~= group@.subrange(0, k as int));
        d = hold_member(d, group[k], list, Ghost(rest));
        k = k + 1;
    }
    assert(group@.subrange(0, k as int) =~= group@);
    let ghost h = d;
    let mut j: usize = 0;
    while j < group.len()
        invariant
            j <= group@.len(),
            d == held_at_start(h as int, group@.subrange(0, j as int)),
            fits(d as int),
        decreases group@.len() - j,
    {
        assert(group@.subrange(0, j + 1).drop_last() =~= group@.subrange(0, j as int));
        let offset: i128 = group[j].offset as i128;
        if offset + d < 0 {
            d = -offset;
        }
        j = j + 1;
    }
    assert(group@.subrange(0, j as int) =~= group@);
    d
}

/// How far a move is from none.
fn size_of_move(d: i128) -> (r: i128)
    requires
        fits(d as int),
    ensures
        r == size(d as int),
{
    if d >= 0 {
        d
    } else {
        -d
    }
}

/// How far the group moves.
fn settle(delta: i128, group: &Vec<Member>, list: &Vec<(i128, i128)>, Ghost(rest): Ghost<
    Seq<ClipView>,
>) -> (r: i128)
    requires
        intervals_of(list@, rest),
        fits(delta as int),
    ensures
        r == settled(delta as int, group@, rest),
        fits(r as int),
    decreases size(delta as int),
{
    let d: i128 = hold_once(delta, group, list, Ghost(rest));
    if size_of_move(d) < size_of_move(delta) {
        settle(d, group, list, Ghost(rest))
    } else {
        d
    }
}

/// The intervals of the clips that are not in the group.
fn other_intervals(clips: &Vec<Clip>, group: &[usize]) -> (r: Vec<(i128, i128)>)
    requires
        crate::track::clips_ok(crate::track::clip_views(clips@)),
    ensures
        intervals_of(r@, crate::placement::others(crate::track::clip_views(clips@), group@)),
{
    let ghost all = crate::track::clip_views(clips@);
    let mut r: Vec<(i128, i128)> = Vec::new();
    let mut i: usize = 0;
    assert(all.subrange(0, 0) =~= Seq::empty());
    while i < clips.len()
        invariant
            i <= clips@.len(),
            all == crate::track::clip_views(clips@),
            crate::track::clips_ok(all),
            intervals_of(r@, crate::placement::others(all.subrange(0, i as int), group@)),
        decreases clips@.len() - i,
    {
        let ghost upto = all.subrange(0, i + 1);
        assert(all[i as int] == clips@[i as int]@);
        assert(upto.drop_last() =~= all.subrange(0, i as int));
        assert(upto.len() - 1 == i);
        if !is_listed(group, i) {
            r.push((clips[i].offset_secs as i128, clips[i].end_secs()));
        }
        i = i + 1;
    }
    assert(all.subrange(0, i as int) =~= all);
    r
}

impl App {
    /// Clamps the move of a group so that no clip of the group overlaps a clip outside it, and
    /// returns where the leftmost clip of the group goes.
    pub fn clamp_group_no_overlap(
        &self,
        track_idx: usize,
        group_indices: &[usize],
        group_orig_offsets: &[Secs],
        desired_left: Secs,
        orig_group_left: Secs,
    ) -> (r: Secs)
        requires
            self@.ok(),
            track_idx < self@.tracks.len(),
            group_indices@.len() == group_orig_offsets@.len(),
            forall|k: int|
                0 <= k < group_indices@.len() ==> (#[trigger] group_indices@[k])
                    < self@.tracks[track_idx as int].clips.len(),
        ensures
            r == crate::time::sat_secs(
                group_left(
                    crate::placement::others(
                        self@.tracks[track_idx as int].clips,
                        group_indices@,
                    ),
                    members(
                        self@.tracks[track_idx as int].clips,
                        group_indices@,
                        group_orig_offsets@,
                    ),
                    desired_left as int,
                    orig_group_left as int,
                ),
            ),
    {
        let ghost clips = self@.tracks[track_idx as int].clips;
        let list: &Vec<Clip> = &self.tracks[track_idx].clips;
        assert(clips == crate::track::clip_views(list@));
        let delta: i128 = desired_left as i128 - orig_group_left as i128;
        let ghost rest = crate::placement::others(clips, group_indices@);
        let others: Vec<(i128, i128)> = other_intervals(list, group_indices);
        if others.len() == 0 {
            return to_secs(later(desired_left as i128, delta));
        }
        let mut group: Vec<Member> = Vec::new();
        let mut k: usize = 0;
        while k < group_indices.len()
            invariant
                k <= group_indices@.len(),
                group_indices@.len() == group_orig_offsets@.len(),
                clips == crate::track::clip_views(list@),
                crate::track::clips_ok(clips),
                forall|j: int|
                    0 <= j < group_indices@.len() ==> (#[trigger] group_indices@[j]) < clips.len(),
                group@ == members(clips, group_indices@, group_orig_offsets@).subrange(0, k as int),
            decreases group_indices@.len() - k,
        {
            let i: usize = group_indices[k];
            assert(clips[i as int] == list@[i as int]@);
            let m = Member { offset: group_orig_offsets[k], duration: list[i].duration_secs() };
            group.push(m);
            k = k + 1;
            assert(group@ =~= members(clips, group_indices@, group_orig_offsets@).subrange(
                0,
                k as int,
            ));
        }
        assert(group@ =~= members(clips, group_indices@, group_orig_offsets@));
        let d: i128 = settle(delta, &group, &others, Ghost(rest));
        to_secs(orig_group_left as i128 + d)
    }
}

/// Whether a member, moved by `d`, lies against a clip that is in its way: it ends where the clip starts
/// if it goes to the right, and starts where the clip ends if it goes to the left.
pub open spec fn lies_against(m: Member, c: ClipView, d: int, right: bool) -> bool {
    if right {
        m.offset + m.duration + d == c.offset_secs
    } else {
        m.offset + d == c.end()
    }
}

/// Whether a group that is moved by `d` can go no farther: a member lies against a clip, or, if the group
/// goes to the left, at the start of the timeline.
pub open spec fn blocked(d: int, group: Seq<Member>, rest: Seq<ClipView>, right: bool) -> bool {
    ||| !right && exists|k: int| 0 <= k < group.len() && (#[trigger] group[k]).offset + d == 0
    ||| exists|k: int, i: int|
        0 <= k < group.len() && 0 <= i < rest.len() && #[trigger] lies_against(
            group[k],
            rest[i],
            d,
            right,
        )
}

proof fn lemma_member_blocked(delta: int, m: Member, rest: Seq<ClipView>, n: int, right: bool)
    requires
        0 <= n <= rest.len(),
        right ==> delta >= 0,
        !right ==> delta <= 0,
        forall|i: int| 0 <= i < rest.len() ==> !(#[trigger] rest[i]).overlaps(
            m.offset as int,
            m.offset + m.duration,
        ),
    ensures
        ({
            let d = held_by_all(delta, m, m.offset + delta, rest.subrange(0, n));
            &&& right ==> 0 <= d <= delta
            &&& !right ==> delta <= d <= 0
            &&& d == delta || exists|i: int|
                0 <= i < rest.len() && #[trigger] lies_against(m, rest[i], d, right)
        }),
    decreases n,
{
    if n > 0 {
        lemma_member_blocked(delta, m, rest, n - 1, right);
        let some = rest.subrange(0, n);
        assert(some.drop_last() =~= rest.subrange(0, n - 1));
        let c = rest[n - 1];
        assert(some.last() == c);
        let start = m.offset + delta;
        let e = held_by_all(delta, m, start, rest.subrange(0, n - 1));
        let d = held_by(e, m, start, c);
        assert(!c.overlaps(m.offset as int, m.offset + m.duration));
        if d != e {
            assert(lies_against(m, rest[n - 1], d, right));
        }
    }
}

proof fn lemma_members_blocked(delta: int, group: Seq<Member>, rest: Seq<ClipView>, n: int, right: bool)
    requires
        0 <= n <= group.len(),
        right ==> delta >= 0,
        !right ==> delta <= 0,
        clear(0, group, rest),
    ensures
        ({
            let d = held(delta, group.subrange(0, n), rest);
            &&& right ==> 0 <= d <= delta
            &&& !right ==> delta <= d <= 0
            &&& d == delta || blocked(d, group, rest, right)
        }),
    decreases n,
{
    if n > 0 {
        lemma_members_blocked(delta, group, rest, n - 1, right);
        let some = group.subrange(0, n);
        assert(some.drop_last() =~= group.subrange(0, n - 1));
        let m = group[n - 1];
        assert(some.last() == m);
        let e = held(delta, group.subrange(0, n - 1), rest);
        let d = held(delta, some, rest);
        assert forall|i: int| 0 <= i < rest.len() implies !(#[trigger] rest[i]).overlaps(
            m.offset as int,
            m.offset + m.duration,
        ) by {
            assert(!rest[i].overlaps(group[n - 1].offset + 0, group[n - 1].offset + 0 + m.duration));
        }
        lemma_member_blocked(e, m, rest, rest.len() as int, right);
        assert(rest.subrange(0, rest.len() as int) =~= rest);
        if d != e {
            let i = choose|i: int| 0 <= i < rest.len() && #[trigger] lies_against(m, rest[i], d, right);
            assert(lies_against(group[n - 1], rest[i], d, right));
        }
    }
}

proof fn lemma_start_blocks(delta: int, group: Seq<Member>, n: int)
    requires
        0 <= n <= group.len(),
        forall|k: int| 0 <= k < group.len() ==> (#[trigger] group[k]).offset >= 0,
    ensures
        ({
            let d = held_at_start(delta, group.subrange(0, n));
            d == delta || delta < 0 && exists|k: int|
                0 <= k < group.len() && (#[trigger] group[k]).offset + d == 0
        }),
    decreases n,
{
    if n > 0 {
        lemma_start_blocks(delta, group, n - 1);
        let some = group.subrange(0, n);
        assert(some.drop_last() =~= group.subrange(0, n - 1));
        assert(some.last() == group[n - 1]);
        let e = held_at_start(delta, group.subrange(0, n - 1));
        let d = held_at_start(delta, some);
        if d != e {
            assert(group[n - 1].offset + d == 0);
        }
    }
}

/// A group that cannot go where it is dragged goes on until something is in its way: a clip, on the side
/// that it goes to, or the start of the timeline.
pub proof fn law_a_group_goes_until_it_is_blocked(delta: int, group: Seq<Member>, rest: Seq<ClipView>)
    requires
        clear(0, group, rest),
        forall|k: int| 0 <= k < group.len() ==> (#[trigger] group[k]).offset >= 0,
    ensures
        settled(delta, group, rest) == delta || blocked(
            settled(delta, group, rest),
            group,
            rest,
            delta > 0,
        ),
    decreases size(delta),
{
    let right = delta > 0;
    let h = held(delta, group, rest);
    let d = held_once(delta, group, rest);
    lemma_members_blocked(delta, group, rest, group.len() as int, right);
    lemma_start_blocks(h, group, group.len() as int);
    assert(group.subrange(0, group.len() as int) =~= group);
    lemma_held_at_start(h, group);
    if size(d) < size(delta) {
        law_a_group_goes_until_it_is_blocked(d, group, rest);
        law_group_stays_clear(d, group, rest);
        if d == 0 {
            assert(settled(d, group, rest) == d);
        }
    } else {
        assert(d == delta);
    }
}

} // verus!
