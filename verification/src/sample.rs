//! Samples.
//!
//! A sample is a single-precision number. It is held by its rank, the 32-bit integer that orders
//! such numbers as their values do: 0 for zero, positive for positive numbers, negative for
//! negative ones, the infinities next to the outermost finite numbers, and every rank beyond the
//! infinities for a value that is not a number. Ranks are compared here; arithmetic on the values
//! is done by functions that the caller hands in.

use vstd::prelude::*;

verus! {

/// The rank of a sample value, or of a gain.
pub type Sample = i32;

/// The rank of positive infinity.
pub const RANK_INF: i32 = 0x7F80_0000;

/// The rank of negative infinity.
pub const RANK_NEG_INF: i32 = -0x7F80_0001;

/// The rank of the greatest finite value.
pub const RANK_MAX: i32 = 0x7F7F_FFFF;

/// The rank of the least finite value.
pub const RANK_MIN: i32 = -0x7F80_0000;

/// The rank of zero.
pub const SILENCE: i32 = 0;

/// The rank of one, the gain that changes nothing.
pub const UNITY: i32 = 0x3F80_0000;

/// Whether the rank stands for a number.
pub open spec fn is_number(s: Sample) -> bool {
    RANK_NEG_INF <= s <= RANK_INF
}

/// The lesser of a number and a sample; what is not a number is passed over.
pub open spec fn low(a: Sample, s: Sample) -> Sample {
    if is_number(s) && s < a {
        s
    } else {
        a
    }
}

/// The greater of a number and a sample; what is not a number is passed over.
pub open spec fn high(a: Sample, s: Sample) -> Sample {
    if is_number(s) && s > a {
        s
    } else {
        a
    }
}

/// The least of `from` and the samples of `s`.
pub open spec fn lowest(from: Sample, s: Seq<Sample>) -> Sample
    decreases s.len(),
{
    if s.len() == 0 {
        from
    } else {
        low(lowest(from, s.drop_last()), s.last())
    }
}

/// The greatest of `from` and the samples of `s`.
pub open spec fn highest(from: Sample, s: Seq<Sample>) -> Sample
    decreases s.len(),
{
    if s.len() == 0 {
        from
    } else {
        high(highest(from, s.drop_last()), s.last())
    }
}

/// The lesser of a number and a sample.
pub fn min_sample(a: Sample, s: Sample) -> (r: Sample)
    ensures
        r == low(a, s),
{
    if RANK_NEG_INF <= s && s <= RANK_INF && s < a {
        s
    } else {
        a
    }
}

/// The greater of a number and a sample.
pub fn max_sample(a: Sample, s: Sample) -> (r: Sample)
    ensures
        r == high(a, s),
{
    if RANK_NEG_INF <= s && s <= RANK_INF && s > a {
        s
    } else {
        a
    }
}

/// Taking in the least of a stretch of samples, capped at `cap`, is taking in the samples
/// themselves, when the number at hand is not above the cap.
pub proof fn lemma_lowest_joins(from: Sample, cap: Sample, s: Seq<Sample>, t: Seq<Sample>)
    requires
        is_number(from),
        is_number(cap),
        from <= cap,
    ensures
        lowest(from, s + t) == low(lowest(from, s), lowest(cap, t)),
        is_number(lowest(from, s + t)),
        lowest(from, s + t) <= from,
    decreases t.len(),
{
    if t.len() == 0 {
        assert(s + t =~= s);
        lemma_lowest_bounds(from, s);
    } else {
        lemma_lowest_joins(from, cap, s, t.drop_last());
        lemma_lowest_bounds(cap, t.drop_last());
        lemma_lowest_bounds(from, s);
        assert((s + t).drop_last() =~= s + t.drop_last());
        assert((s + t).last() == t.last());
    }
}

/// Taking in the greatest of a stretch of samples, capped at `cap`, is taking in the samples
/// themselves, when the number at hand is not below the cap.
pub proof fn lemma_highest_joins(from: Sample, cap: Sample, s: Seq<Sample>, t: Seq<Sample>)
    requires
        is_number(from),
        is_number(cap),
        from >= cap,
    ensures
        highest(from, s + t) == high(highest(from, s), highest(cap, t)),
        is_number(highest(from, s + t)),
        highest(from, s + t) >= from,
    decreases t.len(),
{
    if t.len() == 0 {
        assert(s + t =~= s);
        lemma_highest_bounds(from, s);
    } else {
        lemma_highest_joins(from, cap, s, t.drop_last());
        lemma_highest_bounds(cap, t.drop_last());
        lemma_highest_bounds(from, s);
        assert((s + t).drop_last() =~= s + t.drop_last());
        assert((s + t).last() == t.last());
    }
}

proof fn lemma_lowest_bounds(from: Sample, s: Seq<Sample>)
    requires
        is_number(from),
    ensures
        is_number(lowest(from, s)),
        lowest(from, s) <= from,
    decreases s.len(),
{
    if s.len() > 0 {
        lemma_lowest_bounds(from, s.drop_last());
    }
}

proof fn lemma_highest_bounds(from: Sample, s: Seq<Sample>)
    requires
        is_number(from),
    ensures
        is_number(highest(from, s)),
        highest(from, s) >= from,
    decreases s.len(),
{
    if s.len() > 0 {
        lemma_highest_bounds(from, s.drop_last());
    }
}

/// The range of a stretch of samples takes in each number of it, and each end of the range is
/// the starting number or one of the samples.
pub proof fn law_range_is_tight(from: Sample, s: Seq<Sample>, i: int)
    requires
        0 <= i < s.len(),
        is_number(from),
    ensures
        is_number(s[i]) ==> lowest(from, s) <= s[i] <= highest(from, s),
        lowest(from, s) == from || s.contains(lowest(from, s)),
        highest(from, s) == from || s.contains(highest(from, s)),
    decreases s.len(),
{
    let d = s.drop_last();
    lemma_lowest_bounds(from, d);
    lemma_highest_bounds(from, d);
    assert(s[s.len() - 1] == s.last());
    if d.len() > 0 {
        law_range_is_tight(from, d, if i < d.len() { i } else { 0 });
        if d.contains(lowest(from, d)) {
            let k = choose|k: int| 0 <= k < d.len() && d[k] == lowest(from, d);
            assert(s[k] == lowest(from, d));
        }
        if d.contains(highest(from, d)) {
            let k = choose|k: int| 0 <= k < d.len() && d[k] == highest(from, d);
            assert(s[k] == highest(from, d));
        }
    }
}

/// Whether there is a number among the samples.
pub open spec fn has_number(s: Seq<Sample>) -> bool {
    exists|i: int| 0 <= i < s.len() && is_number(#[trigger] s[i])
}

/// The least and the greatest number among the samples; silence, if there is no number.
pub open spec fn number_range(s: Seq<Sample>) -> (Sample, Sample) {
    if has_number(s) {
        (lowest(RANK_INF, s), highest(RANK_NEG_INF, s))
    } else {
        (SILENCE, SILENCE)
    }
}

/// The range of the numbers among some samples takes in each of them, and its ends are among them.
pub proof fn law_number_range(s: Seq<Sample>)
    requires
        has_number(s),
    ensures
        is_number(number_range(s).0) && s.contains(number_range(s).0),
        is_number(number_range(s).1) && s.contains(number_range(s).1),
        forall|i: int|
            0 <= i < s.len() && is_number(#[trigger] s[i]) ==> number_range(s).0 <= s[i]
                <= number_range(s).1,
{
    let (least, greatest) = number_range(s);
    lemma_lowest_bounds(RANK_INF, s);
    lemma_highest_bounds(RANK_NEG_INF, s);
    assert forall|i: int| 0 <= i < s.len() && is_number(#[trigger] s[i]) implies least <= s[i]
        <= greatest by {
        law_range_is_tight(RANK_INF, s, i);
        law_range_is_tight(RANK_NEG_INF, s, i);
    }
    let k = choose|k: int| 0 <= k < s.len() && is_number(#[trigger] s[k]);
    law_range_is_tight(RANK_INF, s, k);
    law_range_is_tight(RANK_NEG_INF, s, k);
    if least == RANK_INF {
        assert(s[k] == least);
    }
    if greatest == RANK_NEG_INF {
        assert(s[k] == greatest);
    }
}

/// Without a number, nothing is taken in.
proof fn lemma_no_number(s: Seq<Sample>)
    requires
        !has_number(s),
    ensures
        lowest(RANK_INF, s) == RANK_INF,
        highest(RANK_NEG_INF, s) == RANK_NEG_INF,
    decreases s.len(),
{
    if s.len() > 0 {
        let d = s.drop_last();
        assert(!is_number(s[s.len() - 1]));
        assert forall|i: int| 0 <= i < d.len() implies !is_number(#[trigger] d[i]) by {
            assert(d[i] == s[i]);
        }
        lemma_no_number(d);
    }
}

/// How the range of the numbers among some samples is found: where the range that starts at the
/// outermost finite numbers is inside of them, it is that one.
pub proof fn lemma_number_range(s: Seq<Sample>)
    ensures
        lowest(RANK_MAX, s) < RANK_MAX && highest(RANK_MIN, s) > RANK_MIN ==> number_range(s) == (
            lowest(RANK_MAX, s),
            highest(RANK_MIN, s),
        ),
        has_number(s) <==> lowest(RANK_INF, s) <= highest(RANK_NEG_INF, s),
{
    let none = Seq::<Sample>::empty();
    lemma_lowest_joins(RANK_MAX, RANK_INF, none, s);
    lemma_highest_joins(RANK_MIN, RANK_NEG_INF, none, s);
    assert(none + s =~= s);
    if has_number(s) {
        law_number_range(s);
    } else {
        lemma_no_number(s);
    }
}

/// Whether `f` can be called on any two values and gives one result for each pair.
pub open spec fn is_function<A, B, R, F: Fn(A, B) -> R>(f: F) -> bool {
    &&& forall|a: A, b: B| #[trigger] call_requires(f, (a, b))
    &&& forall|a: A, b: B, r: R, s: R|
        #[trigger] call_ensures(f, (a, b), r) && #[trigger] call_ensures(f, (a, b), s) ==> r == s
}

/// The result of `f` on `a` and `b`.
pub open spec fn result_of<A, B, R, F: Fn(A, B) -> R>(f: F, a: A, b: B) -> R {
    choose|r: R| call_ensures(f, (a, b), r)
}

} // verus!
