//! How small a typed number may be and still be above zero as a double.

use vstd::prelude::*;
use vstd::string::StrSliceExecFns;

verus! {

/// Half of the least positive double is two to minus this power: what is not above it rounds to zero.
pub const HALF_LEAST: u64 = 1075;

/// So many digits behind the point are never too many for a number to be above that half.
pub const SAFE_PLACES: u64 = 323;

/// The number that the digits of a text make, whatever points stand between them.
pub open spec fn digits_value(s: Seq<char>) -> int
    decreases s.len(),
{
    if s.len() == 0 {
        0
    } else if s.last() == '.' {
        digits_value(s.drop_last())
    } else {
        digits_value(s.drop_last()) * 10 + (s.last() as int - '0' as int)
    }
}

/// The number of digits behind the last point of a text, or 0 where there is none.
pub open spec fn places(s: Seq<char>) -> nat
    decreases s.len(),
{
    if s.len() == 0 || s.last() == '.' || crate::modal::points(s) == 0 {
        0
    } else {
        places(s.drop_last()) + 1
    }
}

/// Whether a number with digits that make `value`, `after` of them behind the point, is above zero
/// when it is rounded to the nearest double, ties to even.
pub open spec fn above_underflow(value: int, after: nat) -> bool {
    value * vstd::arithmetic::power::pow(2, HALF_LEAST as nat) > vstd::arithmetic::power::pow(
        10,
        after,
    )
}

/// The number that some decimal digits make, least digit first.
pub open spec fn number_of(d: Seq<u8>) -> int
    decreases d.len(),
{
    if d.len() == 0 {
        0
    } else {
        number_of(d.drop_last()) + d.last() * vstd::arithmetic::power::pow(
            10,
            (d.len() - 1) as nat,
        )
    }
}

/// Every one of some digits is a decimal digit.
pub open spec fn are_digits(d: Seq<u8>) -> bool {
    forall|i: int| 0 <= i < d.len() ==> #[trigger] d[i] < 10
}

/// A power of ten is ten times the one before.
proof fn lemma_next_power(e: nat)
    ensures
        vstd::arithmetic::power::pow(10, e + 1) == 10 * vstd::arithmetic::power::pow(10, e),
        vstd::arithmetic::power::pow(10, e) > 0,
{
    vstd::arithmetic::power::lemma_pow_adds(10, 1, e);
    vstd::arithmetic::power::lemma_pow1(10);
    vstd::arithmetic::power::lemma_pow_positive(10, e);
}

/// Some digits make less than one with as many zeros.
proof fn lemma_number_below(d: Seq<u8>)
    requires
        are_digits(d),
    ensures
        0 <= number_of(d) < vstd::arithmetic::power::pow(10, d.len()),
    decreases d.len(),
{
    if d.len() == 0 {
        vstd::arithmetic::power::lemma_pow0(10);
    } else {
        let low = d.drop_last();
        assert(are_digits(low)) by {
            assert forall|i: int| 0 <= i < low.len() implies #[trigger] low[i] < 10 by {
                assert(low[i] == d[i]);
            }
        }
        lemma_number_below(low);
        lemma_next_power(low.len());
        let p = vstd::arithmetic::power::pow(10, low.len());
        let x = d.last() as int;
        assert(d[d.len() - 1] < 10);
        assert(0 <= x * p <= 9 * p) by (nonlinear_arith)
            requires
                0 <= x <= 9,
                p > 0,
        ;
    }
}

/// Digits that are all 0 make 0, and others make more.
proof fn lemma_number_is_zero(d: Seq<u8>)
    requires
        are_digits(d),
    ensures
        number_of(d) == 0 <==> forall|i: int| 0 <= i < d.len() ==> #[trigger] d[i] == 0,
    decreases d.len(),
{
    if d.len() > 0 {
        let low = d.drop_last();
        assert forall|i: int| 0 <= i < low.len() implies #[trigger] low[i] < 10 && low[i] == d[i] by {
            assert(low[i] == d[i]);
        }
        lemma_number_is_zero(low);
        lemma_number_below(low);
        let p = vstd::arithmetic::power::pow(10, low.len());
        let x = d.last() as int;
        assert(p > 0) by {
            lemma_next_power(low.len());
        }
        if x == 0 {
            assert(x * p == 0) by (nonlinear_arith)
                requires
                    x == 0,
            ;
            if number_of(d) == 0 {
                assert forall|i: int| 0 <= i < d.len() implies #[trigger] d[i] == 0 by {
                    if i < low.len() {
                        assert(low[i] == 0);
                    }
                }
            }
        } else {
            assert(x * p > 0) by (nonlinear_arith)
                requires
                    x > 0,
                    p > 0,
            ;
            assert(d[d.len() - 1] != 0);
        }
    }
}

/// A number with a leading digit is at least one with as many zeros as digits follow.
proof fn lemma_number_from_top(d: Seq<u8>)
    requires
        are_digits(d),
        d.len() > 0,
        d.last() != 0,
    ensures
        number_of(d) >= vstd::arithmetic::power::pow(10, (d.len() - 1) as nat),
        number_of(d) == vstd::arithmetic::power::pow(10, (d.len() - 1) as nat) <==> d.last() == 1
            && number_of(d.drop_last()) == 0,
{
    let low = d.drop_last();
    assert(are_digits(low)) by {
        assert forall|i: int| 0 <= i < low.len() implies #[trigger] low[i] < 10 by {
            assert(low[i] == d[i]);
        }
    }
    lemma_number_below(low);
    let p = vstd::arithmetic::power::pow(10, low.len());
    let x = d.last() as int;
    if x == 1 {
        assert(x * p == p) by (nonlinear_arith)
            requires
                x == 1,
        ;
    } else {
        assert(x * p >= 2 * p) by (nonlinear_arith)
            requires
                x >= 2,
                p > 0,
        ;
    }
}

/// Doubles a number.
fn double(d: &Vec<u8>) -> (r: Vec<u8>)
    requires
        are_digits(d@),
        d@.len() > 0,
        d@.last() != 0,
    ensures
        are_digits(r@),
        r@.len() > 0,
        r@.last() != 0,
        number_of(r@) == 2 * number_of(d@),
{
    let mut out: Vec<u8> = Vec::new();
    let mut carry: u8 = 0;
    let mut i: usize = 0;
    assert(d@.subrange(0, 0) =~= Seq::empty());
    while i < d.len()
        invariant
            i <= d@.len(),
            carry <= 1,
            are_digits(d@),
            are_digits(out@),
            out@.len() == i,
            number_of(out@) + carry * vstd::arithmetic::power::pow(10, i as nat) == 2 * number_of(
                d@.subrange(0, i as int),
            ),
            i > 0 && d@[i - 1] != 0 && carry == 0 ==> out@.last() != 0,
        decreases d@.len() - i,
    {
        assert(d@[i as int] < 10);
        let x: u8 = 2 * d[i] + carry;
        let ghost before = out@;
        out.push(x % 10);
        proof {
            let p = vstd::arithmetic::power::pow(10, i as nat);
            let upto = d@.subrange(0, i + 1);
            let c = carry as int;
            let y = d@[i as int] as int;
            let low = (x % 10) as int;
            let high = (x / 10) as int;
            assert(upto.drop_last() =~= d@.subrange(0, i as int));
            assert(out@.drop_last() =~= before);
            lemma_next_power(i as nat);
            assert(c * p + 2 * (y * p) == low * p + high * (10 * p)) by (nonlinear_arith)
                requires
                    2 * y + c == 10 * high + low,
            ;
        }
        carry = x / 10;
        i = i + 1;
    }
    assert(d@.subrange(0, i as int) =~= d@);
    if carry > 0 {
        let ghost before = out@;
        out.push(carry);
        assert(out@.drop_last() =~= before);
    } else {
        assert(carry * vstd::arithmetic::power::pow(10, i as nat) == 0) by (nonlinear_arith)
            requires
                carry == 0,
        ;
    }
    out
}

/// The digits of a text, least first and without leading zeros.
fn digits_of(s: &str) -> (r: Vec<u8>)
    requires
        forall|i: int| 0 <= i < s@.len() ==> crate::modal::is_typable(#[trigger] s@[i]),
    ensures
        are_digits(r@),
        number_of(r@) == digits_value(s@),
        r@.len() > 0 ==> r@.last() != 0,
{
    let mut out: Vec<u8> = Vec::new();
    let mut i: usize = s.unicode_len();
    proof {
        vstd::arithmetic::power::lemma_pow0(10);
        assert(s@.subrange(0, i as int) =~= s@);
    }
    while i > 0
        invariant
            i <= s@.len(),
            forall|j: int| 0 <= j < s@.len() ==> crate::modal::is_typable(#[trigger] s@[j]),
            are_digits(out@),
            digits_value(s@) == digits_value(s@.subrange(0, i as int))
                * vstd::arithmetic::power::pow(10, out@.len()) + number_of(out@),
        decreases i,
    {
        let ghost upto = s@.subrange(0, i as int);
        i = i - 1;
        assert(upto.drop_last() =~= s@.subrange(0, i as int));
        assert(upto.last() == s@[i as int]);
        let c: char = s.get_char(i);
        if c != '.' {
            let ghost before = out@;
            out.push((c as u32 - '0' as u32) as u8);
            proof {
                let m = digits_value(s@.subrange(0, i as int));
                let y = out@.last() as int;
                let p = vstd::arithmetic::power::pow(10, before.len());
                assert(out@.drop_last() =~= before);
                lemma_next_power(before.len());
                assert((m * 10 + y) * p == m * (10 * p) + y * p) by (nonlinear_arith);
            }
        }
    }
    assert(digits_value(s@) == number_of(out@)) by {
        let p = vstd::arithmetic::power::pow(10, out@.len());
        assert(s@.subrange(0, 0) =~= Seq::empty());
        assert(0 * p == 0) by (nonlinear_arith);
    }
    while out.len() > 0 && out[out.len() - 1] == 0
        invariant
            are_digits(out@),
            number_of(out@) == digits_value(s@),
        decreases out@.len(),
    {
        let ghost before = out@;
        let _zero: Option<u8> = out.pop();
        proof {
            let p = vstd::arithmetic::power::pow(10, (before.len() - 1) as nat);
            assert(out@ =~= before.drop_last());
            assert(0 * p == 0) by (nonlinear_arith);
        }
    }
    out
}

/// The number of digits behind the last point of a text.
fn count_places(s: &str) -> (r: usize)
    ensures
        r == places(s@),
{
    let n: usize = s.unicode_len();
    let mut seen: bool = false;
    let mut count: usize = 0;
    let mut i: usize = 0;
    while i < n
        invariant
            n == s@.len(),
            i <= n,
            count <= i,
            seen == (crate::modal::points(s@.subrange(0, i as int)) > 0),
            count == places(s@.subrange(0, i as int)),
        decreases n - i,
    {
        let ghost upto = s@.subrange(0, i + 1);
        assert(upto.drop_last() =~= s@.subrange(0, i as int));
        assert(upto.last() == s@[i as int]);
        let c: char = s.get_char(i);
        if c == '.' {
            seen = true;
            count = 0;
        } else if seen {
            count = count + 1;
        }
        i = i + 1;
    }
    assert(s@.subrange(0, n as int) =~= s@);
    count
}

/// Whether a number is above one with `zeros` zeros.
fn exceeds(d: &Vec<u8>, zeros: usize) -> (r: bool)
    requires
        are_digits(d@),
        d@.len() > 0,
        d@.last() != 0,
    ensures
        r == (number_of(d@) > vstd::arithmetic::power::pow(10, zeros as nat)),
{
    let len: usize = d.len();
    proof {
        lemma_number_below(d@);
        lemma_number_from_top(d@);
    }
    if len <= zeros {
        proof {
            vstd::arithmetic::power::lemma_pow_increases(10, len as nat, zeros as nat);
        }
        return false;
    }
    if len - 1 > zeros {
        proof {
            vstd::arithmetic::power::lemma_pow_strictly_increases(
                10,
                zeros as nat,
                (len - 1) as nat,
            );
        }
        return true;
    }
    let ghost low = d@.drop_last();
    proof {
        assert forall|j: int| 0 <= j < low.len() implies #[trigger] low[j] < 10 by {
            assert(low[j] == d@[j]);
        }
        lemma_number_is_zero(low);
    }
    if d[len - 1] != 1 {
        return true;
    }
    let mut i: usize = 0;
    while i < len - 1
        invariant
            i <= len - 1,
            len == d@.len(),
            low == d@.drop_last(),
            forall|j: int| 0 <= j < i ==> #[trigger] low[j] == 0,
            number_of(low) == 0 <==> forall|j: int| 0 <= j < low.len() ==> #[trigger] low[j] == 0,
            number_of(d@) >= vstd::arithmetic::power::pow(10, zeros as nat),
            number_of(d@) == vstd::arithmetic::power::pow(10, zeros as nat) <==> number_of(low) == 0,
        decreases len - i,
    {
        if d[i] != 0 {
            assert(low[i as int] != 0);
            return true;
        }
        i = i + 1;
    }
    false
}

/// Whether a text of digits and points is above zero as a double.
pub(crate) fn is_above_underflow(s: &str) -> (r: bool)
    requires
        forall|i: int| 0 <= i < s@.len() ==> crate::modal::is_typable(#[trigger] s@[i]),
    ensures
        r == above_underflow(digits_value(s@), places(s@)),
{
    let after: usize = count_places(s);
    let mut d: Vec<u8> = digits_of(s);
    let ghost value = digits_value(s@);
    if d.len() == 0 {
        proof {
            vstd::arithmetic::power::lemma_pow_positive(10, after as nat);
            let p = vstd::arithmetic::power::pow(2, HALF_LEAST as nat);
            assert(0 * p == 0) by (nonlinear_arith);
        }
        return false;
    }
    let mut k: u64 = 0;
    proof {
        vstd::arithmetic::power::lemma_pow0(2);
    }
    while k < HALF_LEAST
        invariant
            k <= HALF_LEAST,
            are_digits(d@),
            d@.len() > 0,
            d@.last() != 0,
            number_of(d@) == value * vstd::arithmetic::power::pow(2, k as nat),
        decreases HALF_LEAST - k,
    {
        d = double(&d);
        proof {
            let p = vstd::arithmetic::power::pow(2, k as nat);
            vstd::arithmetic::power::lemma_pow_adds(2, 1, k as nat);
            vstd::arithmetic::power::lemma_pow1(2);
            assert(2 * (value * p) == value * (2 * p)) by (nonlinear_arith);
        }
        k = k + 1;
    }
    exceeds(&d, after)
}

/// A power of 1024 is above the same power of 1000 by more than 24 thousandths for each step.
proof fn lemma_kibi(n: nat)
    ensures
        vstd::arithmetic::power::pow(1024, n) * 1000 >= vstd::arithmetic::power::pow(1000, n) * (1000
            + 24 * n),
        vstd::arithmetic::power::pow(1000, n) > 0,
    decreases n,
{
    vstd::arithmetic::power::lemma_pow_positive(1000, n);
    if n == 0 {
        vstd::arithmetic::power::lemma_pow0(1024);
        vstd::arithmetic::power::lemma_pow0(1000);
    } else {
        let m = (n - 1) as nat;
        lemma_kibi(m);
        vstd::arithmetic::power::lemma_pow_adds(1024, 1, m);
        vstd::arithmetic::power::lemma_pow1(1024);
        vstd::arithmetic::power::lemma_pow_adds(1000, 1, m);
        vstd::arithmetic::power::lemma_pow1(1000);
        let a = vstd::arithmetic::power::pow(1024, m);
        let b = vstd::arithmetic::power::pow(1000, m);
        let k = m as int;
        assert(1024 * a * 1000 >= 1000 * b * (1000 + 24 * (k + 1))) by (nonlinear_arith)
            requires
                a * 1000 >= b * (1000 + 24 * k),
                b > 0,
                k >= 0,
        {
            assert(1024 * (a * 1000) >= 1024 * (b * (1000 + 24 * k)));
            assert(1024 * (b * (1000 + 24 * k)) == b * (1024 * (1000 + 24 * k)));
            assert(1024 * (1000 + 24 * k) >= 1000 * (1000 + 24 * (k + 1)));
            assert(b * (1024 * (1000 + 24 * k)) >= b * (1000 * (1000 + 24 * (k + 1))));
            assert(b * (1000 * (1000 + 24 * (k + 1))) == 1000 * b * (1000 + 24 * (k + 1)));
        }
    }
}

/// A number of few places is above zero as a double just where it has a digit other than 0.
pub proof fn lemma_few_places(value: int, after: nat)
    requires
        value >= 0,
        after <= SAFE_PLACES,
    ensures
        above_underflow(value, after) == (value > 0),
{
    let two = vstd::arithmetic::power::pow(2, HALF_LEAST as nat);
    let ten = vstd::arithmetic::power::pow(10, after);
    vstd::arithmetic::power::lemma_pow_positive(10, after);
    vstd::arithmetic::power::lemma_pow_increases(10, after, SAFE_PLACES as nat);
    lemma_kibi(107);
    vstd::arithmetic::power::lemma_pow_multiplies(2, 10, 107);
    vstd::arithmetic::power::lemma_pow_multiplies(10, 3, 107);
    assert(vstd::arithmetic::power::pow(2, 5) == 32 && vstd::arithmetic::power::pow(2, 10) == 1024
        && vstd::arithmetic::power::pow(10, 3) == 1000 && vstd::arithmetic::power::pow(10, 2)
        == 100) by {
        reveal_with_fuel(vstd::arithmetic::power::pow, 12);
    }
    vstd::arithmetic::power::lemma_pow_adds(2, 1070, 5);
    vstd::arithmetic::power::lemma_pow_adds(10, 321, 2);
    let kibi = vstd::arithmetic::power::pow(1024, 107);
    let kilo = vstd::arithmetic::power::pow(1000, 107);
    assert(kibi == vstd::arithmetic::power::pow(2, 1070));
    assert(kilo == vstd::arithmetic::power::pow(10, 321));
    assert(kibi * 1000 >= kilo * 3568);
    assert(two == kibi * 32);
    assert(ten <= kilo * 100);
    if value > 0 {
        assert(value * two >= two) by (nonlinear_arith)
            requires
                value >= 1,
                two > 0,
        ;
    } else {
        assert(value * two == 0) by (nonlinear_arith)
            requires
                value == 0,
        ;
    }
}

/// The digits of a text make 0 just where each of them is 0.
pub proof fn lemma_digits_value(s: Seq<char>)
    requires
        forall|i: int| 0 <= i < s.len() ==> crate::modal::is_typable(#[trigger] s[i]),
    ensures
        digits_value(s) >= 0,
        digits_value(s) > 0 <==> crate::modal::has_nonzero_digit(s),
    decreases s.len(),
{
    if s.len() > 0 {
        let t = s.drop_last();
        let n = s.len() - 1;
        assert forall|i: int| 0 <= i < t.len() implies crate::modal::is_typable(#[trigger] t[i])
            && t[i] == s[i] by {
            assert(t[i] == s[i]);
        }
        lemma_digits_value(t);
        assert(crate::modal::is_typable(s[n]));
        if crate::modal::has_nonzero_digit(t) {
            let i = choose|i: int|
                0 <= i < t.len() && crate::modal::is_digit(#[trigger] t[i]) && t[i] != '0';
            assert(crate::modal::is_digit(s[i]) && s[i] != '0');
        }
        if crate::modal::has_nonzero_digit(s) {
            let i = choose|i: int|
                0 <= i < s.len() && crate::modal::is_digit(#[trigger] s[i]) && s[i] != '0';
            if i < n {
                assert(crate::modal::is_digit(t[i]) && t[i] != '0');
            }
        }
    }
}

/// The digits behind the point are counted, and every digit counts ten times as much as the next: a text
/// before the point and a text of digits behind it make the number that they are without the point.
pub proof fn law_digits_behind_the_point(whole: Seq<char>, part: Seq<char>)
    requires
        forall|i: int| 0 <= i < part.len() ==> crate::modal::is_digit(#[trigger] part[i]),
        forall|i: int| 0 <= i < whole.len() ==> crate::modal::is_digit(#[trigger] whole[i]),
    ensures
        places(whole) == 0,
        places(whole.push('.') + part) == part.len(),
        crate::modal::points(whole.push('.') + part) == 1,
        digits_value(whole.push('.') + part) == digits_value(whole + part),
        forall|c: char|
            crate::modal::is_digit(c) ==> #[trigger] digits_value(whole.push(c)) == 10 * digits_value(
                whole,
            ) + (c as int - '0' as int),
    decreases part.len(),
{
    lemma_no_points(whole);
    if part.len() == 0 {
        assert(whole.push('.') + part =~= whole.push('.'));
        assert(whole.push('.').drop_last() =~= whole);
        assert(whole + part =~= whole);
    } else {
        let d = part.drop_last();
        assert forall|i: int| 0 <= i < d.len() implies crate::modal::is_digit(#[trigger] d[i]) by {
            assert(d[i] == part[i]);
        }
        law_digits_behind_the_point(whole, d);
        let all = whole.push('.') + part;
        assert(all.drop_last() =~= whole.push('.') + d);
        assert((whole + part).drop_last() =~= whole + d);
        assert(all.last() == part.last());
        assert((whole + part).last() == part.last());
        assert(crate::modal::is_digit(part[part.len() - 1]));
    }
    assert forall|c: char| crate::modal::is_digit(c) implies #[trigger] digits_value(whole.push(c)) == 10
        * digits_value(whole) + (c as int - '0' as int) by {
        assert(whole.push(c).drop_last() =~= whole);
    }
}

proof fn lemma_no_points(s: Seq<char>)
    requires
        forall|i: int| 0 <= i < s.len() ==> crate::modal::is_digit(#[trigger] s[i]),
    ensures
        crate::modal::points(s) == 0,
    decreases s.len(),
{
    if s.len() > 0 {
        let d = s.drop_last();
        assert forall|i: int| 0 <= i < d.len() implies crate::modal::is_digit(#[trigger] d[i]) by {
            assert(d[i] == s[i]);
        }
        lemma_no_points(d);
        assert(crate::modal::is_digit(s[s.len() - 1]));
    }
}

} // verus!
