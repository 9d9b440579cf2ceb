//! Times on the timeline.
//!
//! A time in seconds is held as a whole number of flicks, 1/705 600 000 of a second: every common
//! sample rate divides that number, so the frames of a clip fall on whole flicks. One flick is
//! longer than a nanosecond; two times that are within a nanosecond of each other are equal.

use vstd::prelude::*;

verus! {

/// A time in seconds, counted in flicks.
pub type Secs = i64;

/// The number of flicks in one second.
pub const FLICKS: i64 = 705_600_000;

/// The number nearest to `x` that fits in a [`Secs`].
pub open spec fn sat_secs(x: int) -> Secs {
    if x > i64::MAX {
        i64::MAX
    } else if x < i64::MIN {
        i64::MIN
    } else {
        x as i64
    }
}

/// The number nearest to `x` that fits in an index.
pub open spec fn sat_index(x: int) -> usize {
    if x > usize::MAX {
        usize::MAX
    } else if x < 0 {
        0
    } else {
        x as usize
    }
}

/// The whole frames that fit between the start and time `t`, at `rate` frames per second.
pub open spec fn frames_in(t: int, rate: int) -> int {
    if t <= 0 {
        0
    } else {
        t * rate / FLICKS as int
    }
}

/// The time that `frames` frames take at `rate` frames per second, rounded up to a flick. At no frame
/// per second they take longer than any time.
pub open spec fn time_of(frames: int, rate: int) -> int {
    if rate != 0 {
        (frames * FLICKS + rate - 1) / rate
    } else if frames > 0 {
        i64::MAX + 1
    } else {
        0
    }
}

/// The greater of two numbers.
pub open spec fn larger(a: int, b: int) -> int {
    if a >= b {
        a
    } else {
        b
    }
}

/// The lesser of two numbers.
pub open spec fn smaller(a: int, b: int) -> int {
    if a <= b {
        a
    } else {
        b
    }
}

/// The number of `lo ..= hi` that is nearest to `x`.
pub open spec fn clamp_between(x: int, lo: int, hi: int) -> int {
    if x < lo {
        lo
    } else if x > hi {
        hi
    } else {
        x
    }
}

/// How far `a` and `b` are apart.
pub open spec fn distance(a: int, b: int) -> int {
    if a >= b {
        a - b
    } else {
        b - a
    }
}

/// Brings a time back into the range of [`Secs`].
pub fn to_secs(x: i128) -> (r: Secs)
    ensures
        r == sat_secs(x as int),
{
    if x > i64::MAX as i128 {
        i64::MAX
    } else if x < i64::MIN as i128 {
        i64::MIN
    } else {
        x as i64
    }
}

/// Brings a number back into the range of an index.
pub fn to_index(x: i128) -> (r: usize)
    ensures
        r == sat_index(x as int),
{
    if x < 0 {
        0
    } else if x > usize::MAX as i128 {
        usize::MAX
    } else {
        x as usize
    }
}

/// The greater of two times.
pub fn later(a: i128, b: i128) -> (r: i128)
    ensures
        r == larger(a as int, b as int),
{
    if a >= b {
        a
    } else {
        b
    }
}

/// The lesser of two times.
pub fn earlier(a: i128, b: i128) -> (r: i128)
    ensures
        r == smaller(a as int, b as int),
{
    if a <= b {
        a
    } else {
        b
    }
}

/// The time of `lo ..= hi` that is nearest to `x`.
pub fn clamp_time(x: i128, lo: i128, hi: i128) -> (r: i128)
    ensures
        r == clamp_between(x as int, lo as int, hi as int),
{
    if x < lo {
        lo
    } else if x > hi {
        hi
    } else {
        x
    }
}

/// Divides and rounds down.
pub fn floor_div(a: i128, b: i128) -> (r: i128)
    requires
        0 < b <= 0x1_0000_0000_0000_0000,
        -0x4000_0000_0000_0000_0000_0000_0000_0000 <= a <= 0x4000_0000_0000_0000_0000_0000_0000_0000,
    ensures
        r == a as int / (b as int),
{
    if a >= 0 {
        a / b
    } else {
        let q: i128 = -((-a + b - 1) / b);
        proof {
            let n = a as int;
            let d = b as int;
            let k = (-n + d - 1) / d;
            vstd::arithmetic::div_mod::lemma_fundamental_div_mod(-n + d - 1, d);
            vstd::arithmetic::div_mod::lemma_mod_bound(-n + d - 1, d);
            assert(n == (-k) * d + (n + k * d) && 0 <= n + k * d < d) by (nonlinear_arith)
                requires
                    -n + d - 1 == d * k + (-n + d - 1) % d,
                    0 <= (-n + d - 1) % d < d,
            ;
            vstd::arithmetic::div_mod::lemma_fundamental_div_mod_converse(n, d, -k, n + k * d);
        }
        q
    }
}

/// The number of whole frames that fit between the start and time `t`.
pub fn frame_at(t: Secs, rate: u32) -> (r: usize)
    ensures
        r == sat_index(frames_in(t as int, rate as int)),
{
    if t <= 0 {
        0
    } else {
        assert(0 <= t * rate <= i64::MAX * u32::MAX) by (nonlinear_arith)
            requires
                0 < t <= i64::MAX,
                0 <= rate <= u32::MAX,
        ;
        to_index((t as i128 * rate as i128) / FLICKS as i128)
    }
}

/// The time that `frames` frames take at `rate` frames per second.
pub fn time_for(frames: usize, rate: u32) -> (r: Secs)
    ensures
        r == sat_secs(time_of(frames as int, rate as int)),
{
    if rate == 0 {
        return if frames > 0 {
            i64::MAX
        } else {
            0
        };
    }
    assert(0 <= frames * FLICKS <= u64::MAX * FLICKS) by (nonlinear_arith)
        requires
            0 <= frames <= u64::MAX,
    ;
    to_secs((frames as i128 * FLICKS as i128 + rate as i128 - 1) / rate as i128)
}

/// The frames that fit into the time of `frames` frames are those frames, at any rate up to one
/// frame per flick.
pub proof fn law_time_holds_its_frames(frames: int, rate: int)
    requires
        0 <= frames,
        0 < rate <= FLICKS,
    ensures
        frames_in(time_of(frames, rate), rate) == frames,
{
    let t = time_of(frames, rate);
    let top = frames * FLICKS + rate - 1;
    assert(0 <= frames * FLICKS) by (nonlinear_arith)
        requires
            0 <= frames,
    ;
    vstd::arithmetic::div_mod::lemma_fundamental_div_mod(top, rate);
    vstd::arithmetic::div_mod::lemma_mod_bound(top, rate);
    assert(t * rate == rate * t) by (nonlinear_arith);
    assert(frames * FLICKS <= t * rate < (frames + 1) * FLICKS) by (nonlinear_arith)
        requires
            t * rate == top - top % rate,
            top == frames * FLICKS + rate - 1,
            0 <= top % rate < rate,
            rate <= FLICKS,
    ;
    assert(t >= 0) by (nonlinear_arith)
        requires
            0 <= t * rate,
            rate > 0,
    ;
    if t > 0 {
        vstd::arithmetic::div_mod::lemma_fundamental_div_mod_converse(
            t * rate,
            FLICKS as int,
            frames,
            t * rate - frames * FLICKS,
        );
    } else {
        assert(t * rate == 0) by (nonlinear_arith)
            requires
                t == 0,
        ;
        assert(frames == 0) by (nonlinear_arith)
            requires
                frames * FLICKS <= 0,
                0 <= frames,
        ;
    }
}

/// The frames that fit before a time take no longer than that time.
pub proof fn law_frames_fit_their_time(t: int, rate: int)
    requires
        0 <= t,
        0 < rate,
    ensures
        time_of(frames_in(t, rate), rate) <= t,
        0 <= frames_in(t, rate),
{
    let n = frames_in(t, rate);
    if t > 0 {
        assert(0 <= t * rate) by (nonlinear_arith)
            requires
                0 <= t,
                0 < rate,
        ;
        vstd::arithmetic::div_mod::lemma_fundamental_div_mod(t * rate, FLICKS as int);
        vstd::arithmetic::div_mod::lemma_mod_bound(t * rate, FLICKS as int);
        vstd::arithmetic::div_mod::lemma_div_pos_is_pos(t * rate, FLICKS as int);
        assert(n * FLICKS <= t * rate) by (nonlinear_arith)
            requires
                t * rate == FLICKS * n + (t * rate) % (FLICKS as int),
                0 <= (t * rate) % (FLICKS as int),
        ;
    } else {
        assert(0 * FLICKS == 0);
    }
    let top = n * FLICKS + rate - 1;
    vstd::arithmetic::div_mod::lemma_fundamental_div_mod(top, rate);
    vstd::arithmetic::div_mod::lemma_mod_bound(top, rate);
    assert(top / rate <= t) by (nonlinear_arith)
        requires
            top == rate * (top / rate) + top % rate,
            0 <= top % rate,
            top <= t * rate + rate - 1,
            0 < rate,
    ;
}

/// More time holds at least as many frames.
pub proof fn lemma_frames_in_grows(s: int, t: int, rate: int)
    requires
        s <= t,
        0 <= rate,
    ensures
        0 <= frames_in(s, rate) <= frames_in(t, rate),
{
    if s > 0 {
        assert(0 <= s * rate <= t * rate) by (nonlinear_arith)
            requires
                0 < s <= t,
                0 <= rate,
        ;
        vstd::arithmetic::div_mod::lemma_div_is_ordered(s * rate, t * rate, FLICKS as int);
        vstd::arithmetic::div_mod::lemma_div_pos_is_pos(s * rate, FLICKS as int);
    } else if t > 0 {
        assert(0 <= t * rate) by (nonlinear_arith)
            requires
                0 < t,
                0 <= rate,
        ;
        vstd::arithmetic::div_mod::lemma_div_pos_is_pos(t * rate, FLICKS as int);
    }
}

/// More frames take at least as long, and no number of frames takes a negative time.
pub proof fn lemma_time_of_grows(m: int, n: int, rate: int)
    requires
        0 <= m <= n,
        0 <= rate,
    ensures
        0 <= time_of(m, rate) <= time_of(n, rate),
        n > 0 ==> time_of(n, rate) > 0,
        time_of(0, rate) == 0,
{
    if rate == 0 {
        return;
    }
    assert(0 <= m * FLICKS <= n * FLICKS) by (nonlinear_arith)
        requires
            0 <= m <= n,
    ;
    vstd::arithmetic::div_mod::lemma_div_is_ordered(m * FLICKS + rate - 1, n * FLICKS + rate - 1, rate);
    vstd::arithmetic::div_mod::lemma_div_pos_is_pos(m * FLICKS + rate - 1, rate);
    vstd::arithmetic::div_mod::lemma_basic_div(rate - 1, rate);
    if n > 0 {
        assert(n * FLICKS + rate - 1 >= rate) by (nonlinear_arith)
            requires
                n > 0,
        ;
        vstd::arithmetic::div_mod::lemma_div_non_zero(n * FLICKS + rate - 1, rate);
    }
}

/// A second has as many frames as the rate says, and those frames take a second; so for any number of
/// seconds.
pub proof fn law_seconds_and_frames(seconds: int, rate: int)
    requires
        seconds >= 0,
        rate > 0,
    ensures
        frames_in(seconds * 705_600_000, rate) == seconds * rate,
        time_of(seconds * rate, rate) == seconds * 705_600_000,
{
    let s = seconds * 705_600_000;
    assert(s * rate == 705_600_000 * (seconds * rate)) by (nonlinear_arith)
        requires
            s == seconds * 705_600_000,
    ;
    assert(seconds * rate >= 0) by (nonlinear_arith)
        requires
            seconds >= 0,
            rate > 0,
    ;
    vstd::arithmetic::div_mod::lemma_fundamental_div_mod_converse(
        s * rate,
        705_600_000,
        seconds * rate,
        0,
    );
    if seconds == 0 {
        assert(seconds * rate == 0) by (nonlinear_arith)
            requires
                seconds == 0,
        ;
    }
    assert((seconds * rate) * 705_600_000 + rate - 1 == s * rate + (rate - 1)) by (nonlinear_arith)
        requires
            s == seconds * 705_600_000,
    ;
    vstd::arithmetic::div_mod::lemma_fundamental_div_mod_converse(
        s * rate + (rate - 1),
        rate,
        s,
        rate - 1,
    );
}

/// The frames before a time start before it, and the next frame does not end by it.
pub proof fn law_frames_before_a_time(t: int, rate: int)
    requires
        t >= 0,
        rate >= 0,
    ensures
        frames_in(t, rate) * 705_600_000 <= t * rate < (frames_in(t, rate) + 1) * 705_600_000,
{
    let x = t * rate;
    assert(x >= 0) by (nonlinear_arith)
        requires
            x == t * rate,
            t >= 0,
            rate >= 0,
    ;
    vstd::arithmetic::div_mod::lemma_fundamental_div_mod(x, 705_600_000);
    vstd::arithmetic::div_mod::lemma_mod_bound(x, 705_600_000);
    if t == 0 {
        assert(x == 0) by (nonlinear_arith)
            requires
                x == t * rate,
                t == 0,
        ;
    }
}

} // verus!
