//! A reusable popup that collects a single numeric input from the user: a title and a text field,
//! Enter to confirm, Escape to cancel.

use crate::numeral::{is_above_underflow, SAFE_PLACES};
use vstd::prelude::*;
use vstd::string::StrSliceExecFns;

verus! {

pub struct Modal {
    pub title: String,
    pub input: String,
    pub visible: bool,
    /// What the number is for
    pub kind: ModalKind,
}

#[derive(Clone, Copy, Debug, PartialEq, Eq, Structural)]
pub enum ModalKind {
    ClickTrackBpm,
}

/// The confirmed number, as it was typed.
pub enum ModalResult {
    ClickTrackBpm(String),
}

/// What a [`Modal`] holds.
#[verifier::ext_equal]
pub struct ModalView {
    pub title: Seq<char>,
    pub input: Seq<char>,
    pub visible: bool,
    pub kind: ModalKind,
}

impl View for Modal {
    type V = ModalView;

    open spec fn view(&self) -> ModalView {
        ModalView {
            title: self.title@,
            input: self.input@,
            visible: self.visible,
            kind: self.kind,
        }
    }
}

/// Whether a character is a decimal digit.
pub open spec fn is_digit(c: char) -> bool {
    '0' <= c && c <= '9'
}

/// Whether a character may be typed into the field.
pub open spec fn is_typable(c: char) -> bool {
    is_digit(c) || c == '.'
}

/// The number of points in a text.
pub open spec fn points(s: Seq<char>) -> nat
    decreases s.len(),
{
    if s.len() == 0 {
        0
    } else {
        points(s.drop_last()) + if s.last() == '.' {
            1nat
        } else {
            0nat
        }
    }
}

/// Whether a text has a digit other than 0.
pub open spec fn has_nonzero_digit(s: Seq<char>) -> bool {
    exists|i: int| 0 <= i < s.len() && is_digit(#[trigger] s[i]) && s[i] != '0'
}

/// Whether a text of digits and points is a number above zero as a double: at most one point, a
/// digit other than 0, and not so many places that the number is rounded to zero.
pub open spec fn is_positive_number(s: Seq<char>) -> bool {
    &&& points(s) <= 1
    &&& has_nonzero_digit(s)
    &&& crate::numeral::places(s) <= SAFE_PLACES || crate::numeral::above_underflow(
        crate::numeral::digits_value(s),
        crate::numeral::places(s),
    )
}

impl ModalView {
    /// The field holds nothing but digits and points.
    pub open spec fn ok(self) -> bool {
        forall|i: int| 0 <= i < self.input.len() ==> is_typable(#[trigger] self.input[i])
    }

    /// The modal after a character was typed.
    pub open spec fn typed(self, c: char) -> ModalView {
        if c == '\r' || c == '\n' {
            if is_positive_number(self.input) {
                ModalView { visible: false, ..self }
            } else {
                self
            }
        } else if is_typable(c) {
            ModalView { input: self.input.push(c), ..self }
        } else {
            self
        }
    }

    /// Whether a typed character confirms the input.
    pub open spec fn confirms(self, c: char) -> bool {
        (c == '\r' || c == '\n') && is_positive_number(self.input)
    }

    /// The modal after Backspace.
    pub open spec fn erased(self) -> ModalView {
        if self.input.len() > 0 {
            ModalView { input: self.input.drop_last(), ..self }
        } else {
            self
        }
    }
}

impl ModalResult {
    /// The confirmed text.
    pub open spec fn text(self) -> Seq<char> {
        match self {
            ModalResult::ClickTrackBpm(t) => t@,
        }
    }

    /// What the number is for.
    pub open spec fn kind(self) -> ModalKind {
        match self {
            ModalResult::ClickTrackBpm(_) => ModalKind::ClickTrackBpm,
        }
    }
}

impl Modal {
    /// Opens a modal with an empty field.
    pub fn new(title: &str, kind: ModalKind) -> (r: Self)
        ensures
            r@ == (ModalView { title: title@, input: Seq::empty(), visible: true, kind }),
            r@.ok(),
    {
        Modal { title: title.to_owned(), input: String::new(), visible: true, kind }
    }

    /// Handles a character. Returns the result if the character confirms the input, which closes
    /// the modal; otherwise the modal stays open.
    pub fn handle_char(&mut self, c: char) -> (r: Option<ModalResult>)
        requires
            old(self)@.ok(),
        ensures
            final(self)@ == old(self)@.typed(c),
            final(self)@.ok(),
            match r {
                Some(res) => old(self)@.confirms(c) && res.text() == old(self)@.input && res.kind()
                    == old(self)@.kind,
                None => !old(self)@.confirms(c),
            },
    {
        if c == '\r' || c == '\n' {
            if self.input_is_positive() {
                self.visible = false;
                return Some(self.make_result());
            }
            None
        } else if ('0' <= c && c <= '9') || c == '.' {
            self.input.push(c);
            None
        } else {
            None
        }
    }

    /// Takes the last character off the field.
    pub fn handle_backspace(&mut self)
        ensures
            final(self)@ == old(self)@.erased(),
            old(self)@.ok() ==> final(self)@.ok(),
    {
        let _erased: Option<char> = self.input.pop();
    }

    /// Closes the modal without a result.
    pub fn cancel(&mut self)
        ensures
            final(self)@ == (ModalView { visible: false, ..old(self)@ }),
    {
        self.visible = false;
    }

    fn make_result(&self) -> (r: ModalResult)
        ensures
            r.text() == self@.input,
            r.kind() == self@.kind,
    {
        match self.kind {
            ModalKind::ClickTrackBpm => ModalResult::ClickTrackBpm(self.input.clone()),
        }
    }

    fn input_is_positive(&self) -> (r: bool)
        requires
            self@.ok(),
        ensures
            r == is_positive_number(self@.input),
    {
        let s = self.input.as_str();
        let n: usize = s.unicode_len();
        assert(self@.input == s@);
        let mut seen: usize = 0;
        let mut nonzero: bool = false;
        let mut i: usize = 0;
        while i < n
            invariant
                s@ == self.input@,
                n == s@.len(),
                i <= n,
                seen <= i,
                seen == points(s@.subrange(0, i as int)),
                nonzero == exists|j: int| 0 <= j < i && is_digit(#[trigger] s@[j]) && s@[j] != '0',
                forall|j: int| 0 <= j < n ==> is_typable(#[trigger] s@[j]),
            decreases n - i,
        {
            let c: char = s.get_char(i);
            assert(s@.subrange(0, i + 1).drop_last() =~= s@.subrange(0, i as int));
            if c == '.' {
                seen = seen + 1;
            } else if '1' <= c && c <= '9' {
                assert(is_digit(s@[i as int]));
                nonzero = true;
            }
            i = i + 1;
        }
        assert(s@.subrange(0, n as int) =~= s@);
        proof {
            crate::numeral::lemma_digits_value(s@);
            if crate::numeral::places(s@) <= SAFE_PLACES {
                crate::numeral::lemma_few_places(
                    crate::numeral::digits_value(s@),
                    crate::numeral::places(s@),
                );
            }
        }
        seen <= 1 && nonzero && is_above_underflow(s)
    }
}

/// A typed number is above zero just where its exact value is above half of the least positive
/// double.
pub proof fn law_positive_above_underflow(m: ModalView)
    requires
        m.ok(),
    ensures
        is_positive_number(m.input) <==> points(m.input) <= 1 && crate::numeral::above_underflow(
            crate::numeral::digits_value(m.input),
            crate::numeral::places(m.input),
        ),
{
    let value = crate::numeral::digits_value(m.input);
    let after = crate::numeral::places(m.input);
    crate::numeral::lemma_digits_value(m.input);
    if after <= SAFE_PLACES {
        crate::numeral::lemma_few_places(value, after);
    }
    if value == 0 {
        let p = vstd::arithmetic::power::pow(2, crate::numeral::HALF_LEAST as nat);
        vstd::arithmetic::power::lemma_pow_positive(10, after);
        assert(value * p == 0) by (nonlinear_arith)
            requires
                value == 0,
        ;
    }
}

/// Backspace takes back the last character that was typed into the field.
pub proof fn law_backspace_takes_back(m: ModalView, c: char)
    requires
        is_typable(c),
    ensures
        m.typed(c).erased() == m,
{
    assert(m.input.push(c).drop_last() =~= m.input);
}

/// A digit or a point is added at the end of the field; Enter closes the modal, with what was typed, just
/// where that is a number above zero; any other character changes nothing.
pub proof fn law_typing_fills_the_field(m: ModalView, c: char)
    ensures
        ('0' <= c && c <= '9') || c == '.' ==> m.typed(c).input == m.input.push(c) && m.typed(c).visible
            == m.visible && !m.confirms(c),
        c == '\n' || c == '\r' ==> m.typed(c).input == m.input && m.confirms(c) == is_positive_number(
            m.input,
        ) && (m.confirms(c) ==> !m.typed(c).visible) && (!m.confirms(c) ==> m.typed(c) == m),
        !(('0' <= c && c <= '9') || c == '.' || c == '\n' || c == '\r') ==> m.typed(c) == m
            && !m.confirms(c),
        m.typed(c).title == m.title && m.typed(c).kind == m.kind,
{
}

/// Backspace takes the last character off the field, and does nothing to an empty one.
pub proof fn law_backspace_erases_the_last(m: ModalView)
    ensures
        m.input.len() > 0 ==> m.erased().input == m.input.subrange(0, m.input.len() - 1),
        m.input.len() == 0 ==> m.erased() == m,
        m.erased() == (ModalView { input: m.erased().input, ..m }),
{
    if m.input.len() > 0 {
        assert(m.input.drop_last() =~= m.input.subrange(0, m.input.len() - 1));
    }
}

} // verus!
