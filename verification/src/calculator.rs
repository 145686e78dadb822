use vstd::prelude::*;

use crate::operator::Operator;
use crate::text::{contains_char, first_char, last_char, push_char, without_last_char};

verus! {

broadcast use vstd::string::group_string_axioms;

/// What the display shows before anything is typed.
pub open spec fn zero_text() -> Seq<char> {
    seq!['0']
}

/// The text that new input extends: nothing when the display is to be
/// replaced or shows a lone zero, the display text otherwise.
pub open spec fn typing_base(display: Seq<char>, replace_display: bool) -> Seq<char> {
    if replace_display || display == zero_text() {
        Seq::empty()
    } else {
        display
    }
}

/// The display after typing `input` (a digit or the decimal comma), or
/// `None` when the display stays as it is: a second comma is ignored, and a
/// comma typed into an empty number becomes `0,`.
pub open spec fn typed_display(display: Seq<char>, replace_display: bool, input: Seq<char>) -> Option<
    Seq<char>,
> {
    let base = typing_base(display, replace_display);
    if input == seq![','] {
        if base.contains(',') {
            None
        } else if base.len() == 0 {
            Some(seq!['0', ','])
        } else {
            Some(base + input)
        }
    } else {
        Some(base + input)
    }
}

/// The display after a backspace, or `None` when it stays: nothing is erased
/// from a result that is about to be replaced, and a display of at most one
/// byte, or of a minus sign and one more byte, falls back to `0`.
pub open spec fn erased_display(display: Seq<char>, replace_display: bool) -> Option<Seq<char>> {
    let bytes: nat = vstd::utf8::encode_utf8(display).len();
    if replace_display {
        None
    } else if bytes <= 1 || (bytes == 2 && display[0] == '-') {
        Some(zero_text())
    } else {
        Some(display.drop_last())
    }
}

/// The state of a calculation in progress: the left operand and operator
/// once an operator has been chosen, and whether the next input replaces
/// the display.
pub struct CalculatorState<N> {
    pub left: Option<N>,
    pub operator: Option<Operator>,
    pub replace_display: bool,
}

/// The first step of `=`: what to do with the number on the display.
pub enum Evaluation<N> {
    /// The display does not hold a number.
    InvalidNumber,
    /// No operator has been chosen yet; nothing happens.
    Incomplete,
    /// Compute `left operator right`.
    Compute { left: N, operator: Operator, right: N },
}

/// What the computation of `left operator right` came to.
pub enum Outcome<N> {
    /// A finite result.
    Finite(N),
    /// A result too large to show.
    NotFinite,
    /// The operation was refused (division by zero).
    Refused,
}

impl<N: Copy> CalculatorState<N> {
    /// The state at start and after clearing: nothing chosen, the display
    /// is extended by input.
    pub fn new() -> (state: Self)
        ensures
            state.left is None,
            state.operator is None,
            !state.replace_display,
    {
        CalculatorState { left: None, operator: None, replace_display: false }
    }

    /// Types `input` into the display; returns the new display text, or
    /// `None` when the display stays. Either way the display is no longer
    /// marked for replacement.
    pub fn type_input(&mut self, display: &str, input: &str) -> (shown: Option<String>)
        ensures
            shown matches Some(t) ==> typed_display(display@, old(self).replace_display, input@)
                == Some(t@),
            shown is None ==> typed_display(display@, old(self).replace_display, input@) is None,
            final(self).left == old(self).left,
            final(self).operator == old(self).operator,
            !final(self).replace_display,
    {
        proof {
            reveal_strlit("0");
            reveal_strlit(",");
        }
        let replace = self.replace_display;
        self.replace_display = false;
        let lone_zero = is_lone_char(display, '0');
        let mut text = if replace || lone_zero {
            String::new()
        } else {
            String::from_str(display)
        };
        let comma = is_lone_char(input, ',');
        if comma {
            if contains_char(text.as_str(), ',') {
                return None;
            }
            if text.as_str().unicode_len() == 0 {
                push_char(&mut text, '0');
            }
        }
        text.append(input);
        Some(text)
    }

    /// Erases the last character of the display; returns the new display
    /// text, or `None` when the display stays.
    pub fn backspace(&self, display: &str) -> (shown: Option<String>)
        ensures
            shown matches Some(t) ==> erased_display(display@, self.replace_display) == Some(t@),
            shown is None ==> erased_display(display@, self.replace_display) is None,
    {
        if self.replace_display {
            return None;
        }
        let n: usize = display.unicode_len();
        let first = first_char(display);
        let last = last_char(display);
        let one_byte_last = match last {
            Some(c) => (c as u32) <= 0x7f,
            None => false,
        };
        let minus_first = match first {
            Some(c) => c == '-',
            None => false,
        };
        proof {
            lemma_short_utf8(display@);
        }
        if n == 0 || (n == 1 && one_byte_last) || (n == 2 && minus_first && one_byte_last) {
            let z = String::from_str("0");
            proof { reveal_strlit("0"); }
            Some(z)
        } else {
            Some(without_last_char(display))
        }
    }

    /// Chooses an operator with the number on the display (`None` when the
    /// display does not hold one, and nothing changes); returns whether the
    /// choice was taken.
    pub fn select_operator(&mut self, value: Option<N>, operator: Operator) -> (taken: bool)
        ensures
            taken == value is Some,
            taken ==> final(self).left == value && final(self).operator == Some(operator)
                && final(self).replace_display,
            !taken ==> *final(self) == *old(self),
    {
        match value {
            Some(v) => {
                self.left = Some(v);
                self.operator = Some(operator);
                self.replace_display = true;
                true
            },
            None => false,
        }
    }

    /// The first step of `=` with the number on the display (`None` when
    /// the display does not hold one).
    pub fn begin_evaluation(&self, right: Option<N>) -> (step: Evaluation<N>)
        ensures
            right is None ==> step is InvalidNumber,
            right is Some && (self.left is None || self.operator is None) ==> step is Incomplete,
            right is Some && self.left is Some && self.operator is Some ==> step == (
            Evaluation::Compute {
                left: self.left->0,
                operator: self.operator->0,
                right: right->0,
            }),
    {
        match right {
            None => Evaluation::InvalidNumber,
            Some(r) => match (self.left, self.operator) {
                (Some(l), Some(op)) => Evaluation::Compute { left: l, operator: op, right: r },
                _ => Evaluation::Incomplete,
            },
        }
    }

    /// The second step of `=`: a finite result becomes the left operand of
    /// the next calculation and replaces the display on the next input; it
    /// is to be shown and recorded (the result is `true`). Otherwise the
    /// state stays and the result is `false`.
    pub fn finish_evaluation(&mut self, outcome: Outcome<N>) -> (accepted: bool)
        ensures
            accepted == outcome is Finite,
            accepted ==> final(self).left == Some(outcome->Finite_0) && final(self).operator is None
                && final(self).replace_display,
            !accepted ==> *final(self) == *old(self),
    {
        match outcome {
            Outcome::Finite(r) => {
                self.left = Some(r);
                self.operator = None;
                self.replace_display = true;
                true
            },
            _ => false,
        }
    }

    /// Back to the state at start.
    pub fn clear(&mut self)
        ensures
            final(self).left is None,
            final(self).operator is None,
            !final(self).replace_display,
    {
        self.left = None;
        self.operator = None;
        self.replace_display = false;
    }
}

proof fn lemma_scalar_width(v: u32)
    ensures
        vstd::utf8::encode_scalar(v).len() >= 1,
        (vstd::utf8::encode_scalar(v).len() == 1) == (v <= 0x7f),
{
}

proof fn lemma_utf8_at_least_chars(s: Seq<char>)
    ensures
        vstd::utf8::encode_utf8(s).len() >= s.len(),
    decreases s.len(),
{
    if s.len() > 0 {
        lemma_scalar_width(s[0] as u32);
        lemma_utf8_at_least_chars(s.drop_first());
    }
}

/// How the byte length of a short text follows from its characters.
proof fn lemma_short_utf8(s: Seq<char>)
    ensures
        vstd::utf8::encode_utf8(s).len() <= 1 <==> (s.len() == 0 || (s.len() == 1 && (s.last()
            as u32) <= 0x7f)),
        (vstd::utf8::encode_utf8(s).len() == 2 && s[0] == '-') <==> (s.len() == 2 && s[0] == '-'
            && (s.last() as u32) <= 0x7f),
{
    reveal_with_fuel(vstd::utf8::encode_utf8, 3);
    lemma_utf8_at_least_chars(s);
    if s.len() >= 1 {
        lemma_scalar_width(s[0] as u32);
        lemma_utf8_at_least_chars(s.drop_first());
    }
    if s.len() >= 2 {
        lemma_scalar_width(s[1] as u32);
        assert(s.drop_first()[0] == s[1]);
        lemma_utf8_at_least_chars(s.drop_first().drop_first());
    }
    if s.len() == 1 {
        assert(s.drop_first().len() == 0);
    }
    if s.len() == 2 {
        assert(s.drop_first().drop_first().len() == 0);
    }
}

/// Whether `text` consists of the single character `c`.
fn is_lone_char(text: &str, c: char) -> (b: bool)
    ensures
        b == (text@ == seq![c]),
{
    if text.unicode_len() != 1 {
        return false;
    }
    let first = text.get_char(0);
    proof {
        if text@.len() == 1 {
            assert(text@ == seq![text@[0]]);
        }
    }
    first == c
}

/// After an operator has been chosen or a result shown, the next input
/// starts a new number, whatever the display showed: a digit stands alone
/// and a comma becomes `0,`.
pub proof fn lemma_input_after_result_starts_new_number(display: Seq<char>, input: Seq<char>)
    ensures
        typed_display(display, true, input) == (if input == seq![','] {
            Some(seq!['0', ','])
        } else {
            Some(input)
        }),
{
    assert(Seq::<char>::empty() + input == input);
    assert(!Seq::<char>::empty().contains(','));
}

/// A second decimal comma is refused: typing a comma into a number that
/// already has one leaves the display as it is.
pub proof fn lemma_second_comma_is_ignored(display: Seq<char>, replace_display: bool)
    requires
        typing_base(display, replace_display).contains(','),
    ensures
        typed_display(display, replace_display, seq![',']) is None,
{
}

/// Backspace never leaves the display empty, except from a display of one
/// character that takes more than one byte.
pub proof fn lemma_backspace_keeps_a_number(display: Seq<char>, replace_display: bool)
    requires
        !(display.len() == 1 && (display[0] as u32) > 0x7f),
    ensures
        erased_display(display, replace_display) matches Some(t) ==> t.len() > 0,
{
    lemma_short_utf8(display);
}


/// Typing a digit (any input other than the comma) into a display that is
/// not marked for replacement appends it to the display text, unless the
/// display is a lone `0`, which the digit replaces.
pub proof fn lemma_digit_appends_to_display(display: Seq<char>, digit: Seq<char>)
    requires
        digit != seq![','],
    ensures
        display != seq!['0'] ==> typed_display(display, false, digit) == Some(display + digit),
        display == seq!['0'] ==> typed_display(display, false, digit) == Some(digit),
{
    assert(Seq::<char>::empty() + digit == digit);
}

/// Typing the comma into a display that is not marked for replacement,
/// holds no comma yet and is neither empty nor a lone `0` appends the
/// comma to the display text.
pub proof fn lemma_comma_appends_to_display(display: Seq<char>)
    requires
        display != seq!['0'],
        display.len() > 0,
        !display.contains(','),
    ensures
        typed_display(display, false, seq![',']) == Some(display.push(',')),
{
    assert(display + seq![','] == display.push(','));
}

/// Backspace on a display of at least two characters that does not start
/// with a minus sign, or on any display of at least three characters,
/// removes exactly the last character (when the display is not marked for
/// replacement). A display of one single-byte character becomes `0`.
pub proof fn lemma_backspace_removes_last_character(display: Seq<char>)
    ensures
        (display.len() >= 2 && display[0] != '-') || display.len() >= 3 ==> erased_display(
            display,
            false,
        ) == Some(display.drop_last()),
        display.len() == 1 && (display[0] as u32) <= 0x7f ==> erased_display(display, false) == Some(
            seq!['0'],
        ),
        erased_display(display, true) is None,
{
    lemma_short_utf8(display);
    lemma_utf8_at_least_chars(display);
    if display.len() == 1 {
        assert(display.last() == display[0]);
    }
}


/// The comma on a display that is empty or a lone `0` (not marked for
/// replacement) gives `0,`; on a display that already holds a comma and is
/// not a lone `0` it is ignored.
pub proof fn lemma_comma_on_empty_or_repeated(display: Seq<char>)
    ensures
        display.len() == 0 || display == seq!['0'] ==> typed_display(display, false, seq![','])
            == Some(seq!['0', ',']),
        display != seq!['0'] && display.contains(',') ==> typed_display(display, false, seq![','])
            is None,
{
    assert(!Seq::<char>::empty().contains(','));
}

/// Backspace on a minus sign followed by one single-byte character gives
/// `0`; after a minus sign and a character of more bytes it removes that
/// character.
pub proof fn lemma_backspace_after_minus(display: Seq<char>)
    requires
        display.len() == 2,
        display[0] == '-',
    ensures
        (display[1] as u32) <= 0x7f ==> erased_display(display, false) == Some(seq!['0']),
        (display[1] as u32) > 0x7f ==> erased_display(display, false) == Some(seq!['-']),
{
    lemma_short_utf8(display);
    assert(display.last() == display[1]);
    assert(display.drop_last() == seq!['-']);
}

} // verus!
