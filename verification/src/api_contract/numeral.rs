//! Decimal numerals, kept as they are written.
use crate::text::{
    all_digits, chars_of, decimal, decimal_text, digits, digits_text, is_digit, lower,
    lower_text, same_text, slice_text,
};
use vstd::prelude::*;

verus! {

/// The end of the run of digits that starts at `from`.
pub open spec fn digits_end(s: Seq<char>, from: int) -> int
    decreases s.len() - from,
{
    if 0 <= from < s.len() && is_digit(s[from]) {
        digits_end(s, from + 1)
    } else {
        from
    }
}

/// `s` without the sign that it may start with.
pub open spec fn unsigned(s: Seq<char>) -> Seq<char> {
    if s.len() > 0 && (s[0] == '+' || s[0] == '-') {
        s.skip(1)
    } else {
        s
    }
}

/// An exponent: `e`, a sign or none, and digits.
pub open spec fn is_exponent(s: Seq<char>) -> bool {
    &&& s.len() > 0
    &&& s[0] == 'e' || s[0] == 'E'
    &&& unsigned(s.skip(1)).len() > 0
    &&& all_digits(unsigned(s.skip(1)))
}

/// Where the digits before an exponent end: digits, and with a point also the
/// digits behind it.
pub open spec fn mantissa_end(s: Seq<char>) -> int {
    let whole = digits_end(s, 0);
    if whole < s.len() && s[whole] == '.' {
        digits_end(s, whole + 1)
    } else {
        whole
    }
}

/// Digits with a point or none, at least one digit, and an exponent or none.
pub open spec fn is_decimal(s: Seq<char>) -> bool {
    let end = mantissa_end(s);
    &&& digits_end(s, 0) > 0 || end > 1
    &&& end == s.len() || is_exponent(s.skip(end))
}

/// The text of a number: a sign or none, and then a decimal numeral or one of
/// the words `inf`, `infinity` and `nan` in some mix of cases.
pub open spec fn is_number(s: Seq<char>) -> bool {
    let body = unsigned(s);
    ||| lower(body) == "inf"@
    ||| lower(body) == "infinity"@
    ||| lower(body) == "nan"@
    ||| is_decimal(body)
}

proof fn lemma_digits_end(s: Seq<char>, from: int)
    requires
        0 <= from <= s.len(),
    ensures
        from <= digits_end(s, from) <= s.len(),
        forall|i: int| from <= i < digits_end(s, from) ==> is_digit(#[trigger] s[i]),
        digits_end(s, from) < s.len() ==> !is_digit(s[digits_end(s, from)]),
    decreases s.len() - from,
{
    if from < s.len() && is_digit(s[from]) {
        lemma_digits_end(s, from + 1);
    }
}

fn find_digits_end(chars: &Vec<char>, from: usize) -> (end: usize)
    requires
        from <= chars@.len(),
    ensures
        end == digits_end(chars@, from as int),
        from <= end <= chars@.len(),
        forall|i: int| from <= i < end ==> is_digit(#[trigger] chars@[i]),
        end < chars@.len() ==> !is_digit(chars@[end as int]),
{
    let mut i: usize = from;
    while i < chars.len() && '0' <= chars[i] && chars[i] <= '9'
        invariant
            from <= i <= chars@.len(),
            digits_end(chars@, from as int) == digits_end(chars@, i as int),
        decreases chars@.len() - i,
    {
        i += 1;
    }
    proof {
        lemma_digits_end(chars@, from as int);
    }
    i
}

/// Whether an exponent stands from `from` on.
fn exponent_from(chars: &Vec<char>, from: usize) -> (found: bool)
    requires
        from < chars@.len(),
    ensures
        found == is_exponent(chars@.skip(from as int)),
{
    let ghost s = chars@.skip(from as int);
    let len: usize = chars.len();
    if chars[from] != 'e' && chars[from] != 'E' {
        return false;
    }
    let mut start: usize = from + 1;
    assert(s.skip(1) =~= chars@.skip(from + 1));
    if start < len && (chars[start] == '+' || chars[start] == '-') {
        start += 1;
    }
    let ghost row = unsigned(s.skip(1));
    assert(row =~= chars@.skip(start as int));
    if start == len {
        return false;
    }
    let end: usize = find_digits_end(chars, start);
    if end < len {
        assert(row[end - start] == chars@[end as int]);
        assert(!all_digits(row));
        false
    } else {
        assert(all_digits(row));
        true
    }
}

/// The text starts with a minus sign.
pub open spec fn is_negative(s: Seq<char>) -> bool {
    s.len() > 0 && s[0] == '-'
}

/// Whether `s` starts with a minus sign, and the rest of it behind a sign.
fn split_sign(s: &str) -> (r: (bool, String))
    ensures
        r.0 == is_negative(s@),
        r.1@ == unsigned(s@),
{
    let chars = chars_of(s);
    let len: usize = chars.len();
    let negative = len > 0 && chars[0] == '-';
    let start: usize = if negative || (len > 0 && chars[0] == '+') { 1 } else { 0 };
    let body = slice_text(&chars, start, len);
    assert(body@ =~= unsigned(s@));
    (negative, body)
}

/// Whether `s` is a decimal numeral, behind a sign or none.
pub(crate) fn finite_text(s: &str) -> (found: bool)
    ensures
        found == is_decimal(unsigned(s@)),
{
    let (_, body) = split_sign(s);
    let digits = chars_of(body.as_str());
    let whole: usize = find_digits_end(&digits, 0);
    let end: usize = if whole < digits.len() && digits[whole] == '.' {
        find_digits_end(&digits, whole + 1)
    } else {
        whole
    };
    if whole == 0 && end <= 1 {
        return false;
    }
    end == digits.len() || exponent_from(&digits, end)
}

/// Whether `s` is the text of a number.
fn number_text(s: &str) -> (found: bool)
    ensures
        found == is_number(s@),
{
    let (_, body) = split_sign(s);
    let small = lower_text(body.as_str());
    same_text(small.as_str(), "inf") || same_text(small.as_str(), "infinity") || same_text(
        small.as_str(),
        "nan",
    ) || finite_text(s)
}

/// A number as it is written. Two numerals are equal where they write the same
/// double-precision number: `1` and `1.0` are, and a numeral that writes no number
/// equals none, not even itself.
#[derive(Debug)]
pub struct Numeral {
    text: String,
}

impl View for Numeral {
    type V = Seq<char>;

    closed spec fn view(&self) -> Seq<char> {
        self.text@
    }
}

impl Clone for Numeral {
    fn clone(&self) -> (numeral: Self)
        ensures
            numeral@ == self@,
    {
        proof {
            use_type_invariant(self);
        }
        Numeral { text: self.text.clone() }
    }
}

impl Numeral {
    #[verifier::type_invariant]
    spec fn is_written_number(self) -> bool {
        is_number(self.text@)
    }

    /// The numeral that `text` writes, if it is the text of a number.
    pub fn parse(text: &str) -> (numeral: Option<Numeral>)
        ensures
            numeral is Some <==> is_number(text@),
            numeral is Some ==> numeral->0@ == text@,
    {
        if number_text(text) {
            Some(Numeral { text: text.to_owned() })
        } else {
            None
        }
    }

    /// The text of the numeral, which is always the text of a number.
    pub fn text(&self) -> (text: &str)
        ensures
            text@ == self@,
            is_number(text@),
    {
        proof {
            use_type_invariant(self);
        }
        self.text.as_str()
    }
}

/// Whether two numbers without a sign are the same double-precision number, once
/// each is rounded to the nearest one.
pub uninterp spec fn same_magnitude(a: Seq<char>, b: Seq<char>) -> bool;

/// The text of a number without a sign, and not of the word that stands for none.
pub open spec fn is_magnitude(s: Seq<char>) -> bool {
    lower(s) == "inf"@ || lower(s) == "infinity"@ || is_decimal(s)
}

/// `serde_json::Number::from_f64` of the numbers that std reads from the two texts,
/// which has no number for an infinite one, and `==` on the two results. Stated
/// here: the outcome is a function of the texts alone, and true of a text and
/// itself.
#[verifier::external_body]
fn magnitudes_equal(a: &str, b: &str) -> (same: bool)
    requires
        is_magnitude(a@),
        is_magnitude(b@),
    ensures
        same == same_magnitude(a@, b@),
        a@ == b@ ==> same,
{
    let left = a.parse().ok().and_then(serde_json::Number::from_f64);
    let right = b.parse().ok().and_then(serde_json::Number::from_f64);
    left == right
}

/// The text writes no number.
pub open spec fn is_nan(s: Seq<char>) -> bool {
    lower(unsigned(s)) == "nan"@
}

/// Whether two texts write equal numbers, given whether their magnitudes are the
/// same and whether the first is zero, which has the same value under both signs.
pub open spec fn equal_given(a: Seq<char>, b: Seq<char>, same: bool, zero: bool) -> bool {
    !is_nan(a) && !is_nan(b) && same && (is_negative(a) == is_negative(b) || zero)
}

/// Whether two texts write equal numbers.
pub open spec fn equal_numbers(a: Seq<char>, b: Seq<char>) -> bool {
    equal_given(
        a,
        b,
        same_magnitude(unsigned(a), unsigned(b)),
        same_magnitude(unsigned(a), "0"@),
    )
}

impl Numeral {
    /// Whether the two numerals write equal numbers, given whether their magnitudes
    /// are the same and whether the first is zero.
    pub fn equals_given(&self, other: &Numeral, same: bool, zero: bool) -> (equal: bool)
        ensures
            equal == equal_given(self@, other@, same, zero),
    {
        let (negative, body) = split_sign(self.text.as_str());
        let (other_negative, other_body) = split_sign(other.text.as_str());
        let word = lower_text(body.as_str());
        let other_word = lower_text(other_body.as_str());
        !same_text(word.as_str(), "nan") && !same_text(other_word.as_str(), "nan") && same && (
        negative == other_negative || zero)
    }

    /// Whether the two numerals write equal numbers. Every numeral that writes a
    /// number equals itself.
    pub fn equals(&self, other: &Numeral) -> (equal: bool)
        ensures
            equal == equal_numbers(self@, other@),
            self@ == other@ ==> equal == !is_nan(self@),
    {
        proof {
            use_type_invariant(self);
            use_type_invariant(other);
            reveal_strlit("0");
            lemma_zero_is_decimal();
        }
        let (_, body) = split_sign(self.text.as_str());
        let (_, other_body) = split_sign(other.text.as_str());
        let word = lower_text(body.as_str());
        let other_word = lower_text(other_body.as_str());
        if same_text(word.as_str(), "nan") || same_text(other_word.as_str(), "nan") {
            return false;
        }
        let same = magnitudes_equal(body.as_str(), other_body.as_str());
        let zero = magnitudes_equal(body.as_str(), "0");
        self.equals_given(other, same, zero)
    }
}

proof fn lemma_zero_is_decimal()
    ensures
        is_decimal("0"@),
{
    reveal_strlit("0");
    reveal_with_fuel(digits_end, 2);
}

impl PartialEq for Numeral {
    fn eq(&self, other: &Numeral) -> (equal: bool) {
        self.equals(other)
    }
}

impl vstd::std_specs::cmp::PartialEqSpecImpl for Numeral {
    open spec fn obeys_eq_spec() -> bool {
        true
    }

    open spec fn eq_spec(&self, other: &Numeral) -> bool {
        equal_numbers(self@, other@)
    }
}

proof fn lemma_digits_are_digits(n: nat)
    ensures
        digits(n).len() > 0,
        all_digits(digits(n)),
    decreases n,
{
    if n >= 10 {
        lemma_digits_are_digits(n / 10);
    }
}

proof fn lemma_digits_end_at_end(s: Seq<char>, from: int)
    requires
        0 <= from <= s.len(),
        all_digits(s),
    ensures
        digits_end(s, from) == s.len(),
    decreases s.len() - from,
{
    if from < s.len() {
        lemma_digits_end_at_end(s, from + 1);
    }
}

/// The decimal text of an integer is the text of a number.
pub proof fn lemma_decimal_is_number(n: int)
    ensures
        is_number(decimal(n)),
{
    let row = if n < 0 {
        digits((-n) as nat)
    } else {
        digits(n as nat)
    };
    lemma_digits_are_digits(if n < 0 { (-n) as nat } else { n as nat });
    lemma_digits_end_at_end(row, 0);
    assert(is_digit(row[0]));
    if n < 0 {
        assert(decimal(n).skip(1) =~= row);
    }
    assert(unsigned(decimal(n)) =~= row);
    assert(is_decimal(row));
}

impl Numeral {
    /// The numeral of an unsigned integer.
    pub fn of_unsigned(n: u64) -> (numeral: Numeral)
        ensures
            numeral@ == decimal(n as int),
    {
        proof {
            lemma_decimal_is_number(n as int);
        }
        Numeral { text: digits_text(n as u128) }
    }

    /// The numeral of a signed integer.
    pub fn of_signed(n: i64) -> (numeral: Numeral)
        ensures
            numeral@ == decimal(n as int),
    {
        proof {
            lemma_decimal_is_number(n as int);
        }
        Numeral { text: decimal_text(n) }
    }
}

/// The parts of a decimal numeral: the digits before the point, those behind it where
/// there is one, and the letter, the sign and the digits of an exponent where there is
/// one.
pub struct NumeralParts {
    pub whole: Seq<char>,
    pub fraction: Option<Seq<char>>,
    pub exponent: Option<(char, Seq<char>, Seq<char>)>,
}

/// A plus sign, a minus sign, or nothing.
pub open spec fn is_sign(s: Seq<char>) -> bool {
    s.len() == 0 || s == seq!['+'] || s == seq!['-']
}

/// Nothing but the digits zero to nine.
pub open spec fn is_row(s: Seq<char>) -> bool {
    forall|i: int| 0 <= i < s.len() ==> '0' <= #[trigger] s[i] <= '9'
}

impl NumeralParts {
    /// There is a digit before the point or behind it, and one in an exponent.
    pub open spec fn valid(self) -> bool {
        &&& is_row(self.whole)
        &&& match self.fraction {
            Some(digits) => is_row(digits) && self.whole.len() + digits.len() > 0,
            None => self.whole.len() > 0,
        }
        &&& match self.exponent {
            Some((letter, sign, digits)) => (letter == 'e' || letter == 'E') && is_sign(sign)
                && is_row(digits) && digits.len() > 0,
            None => true,
        }
    }

    pub open spec fn mantissa(self) -> Seq<char> {
        self.whole + (match self.fraction {
            Some(digits) => seq!['.'] + digits,
            None => Seq::empty(),
        })
    }

    pub open spec fn text(self) -> Seq<char> {
        self.mantissa() + (match self.exponent {
            Some((letter, sign, digits)) => seq![letter] + sign + digits,
            None => Seq::empty(),
        })
    }
}

proof fn lemma_row_end(s: Seq<char>, from: int, end: int)
    requires
        0 <= from <= end <= s.len(),
        forall|i: int| from <= i < end ==> '0' <= #[trigger] s[i] <= '9',
        end < s.len() ==> !is_digit(s[end]),
    ensures
        digits_end(s, from) == end,
    decreases end - from,
{
    if from < end {
        assert('0' <= s[from] <= '9');
        lemma_row_end(s, from + 1, end);
    }
}

proof fn lemma_decimal_parts(parts: NumeralParts)
    requires
        parts.valid(),
    ensures
        is_decimal(parts.text()),
{
    let s = parts.text();
    let whole = parts.whole.len() as int;
    let front = parts.mantissa();
    let end = front.len() as int;
    assert forall|i: int| 0 <= i < end implies s[i] == #[trigger] front[i] by {}
    assert forall|i: int| 0 <= i < whole implies '0' <= #[trigger] s[i] <= '9' by {
        assert(front[i] == parts.whole[i]);
    }
    if let Some((letter, sign, digits)) = parts.exponent {
        assert(s[end] == letter);
    }
    if let Some(digits) = parts.fraction {
        assert(front[whole] == '.');
        lemma_row_end(s, 0, whole);
        assert forall|i: int| whole + 1 <= i < end implies '0' <= #[trigger] s[i] <= '9' by {
            assert(front[i] == digits[i - whole - 1]);
        }
        lemma_row_end(s, whole + 1, end);
    } else {
        assert(front =~= parts.whole);
        lemma_row_end(s, 0, whole);
    }
    assert(mantissa_end(s) == end);
    match parts.exponent {
        Some((letter, sign, digits)) => {
            let tail = s.skip(end);
            assert(tail =~= seq![letter] + sign + digits);
            let rest = tail.skip(1);
            assert(rest =~= sign + digits);
            if sign.len() == 0 {
                assert(rest =~= digits);
                assert('0' <= digits[0] <= '9');
                assert(unsigned(rest) == digits);
            } else {
                assert(rest[0] == sign[0]);
                assert(rest.skip(1) =~= digits);
                assert(unsigned(rest) == digits);
            }
            assert(all_digits(digits));
        },
        None => {
            assert(s =~= front);
        },
    }
}

/// Every numeral is a number, behind a sign or none: digits with a point or none, at
/// least one digit, and an exponent or none.
pub proof fn numerals_are_numbers(sign: Seq<char>, parts: NumeralParts)
    requires
        is_sign(sign),
        parts.valid(),
    ensures
        is_number(sign + parts.text()),
{
    let s = sign + parts.text();
    let body = parts.text();
    lemma_decimal_parts(parts);
    if sign.len() == 0 {
        assert(s =~= body);
        assert(body.len() > 0);
        if parts.whole.len() > 0 {
            assert(body[0] == parts.whole[0]);
        } else {
            assert(body[0] == '.');
        }
        assert(unsigned(s) == body);
    } else {
        assert(s[0] == sign[0]);
        assert(s.skip(1) =~= body);
    }
}

/// The sign and the digits of an exponent.
proof fn lemma_exponent_parts(tail: Seq<char>) -> (r: (Seq<char>, Seq<char>))
    requires
        is_exponent(tail),
    ensures
        is_sign(r.0),
        is_row(r.1),
        r.1.len() > 0,
        tail == seq![tail[0]] + r.0 + r.1,
{
    let behind = tail.skip(1);
    let digits = unsigned(behind);
    let mark = if behind[0] == '+' || behind[0] == '-' {
        seq![behind[0]]
    } else {
        Seq::empty()
    };
    assert forall|i: int| 0 <= i < digits.len() implies '0' <= #[trigger] digits[i] <= '9' by {
        assert(is_digit(digits[i]));
    }
    assert(tail =~= seq![tail[0]] + mark + digits);
    (mark, digits)
}

/// The digits before the point, and those behind it.
proof fn lemma_mantissa_parts(body: Seq<char>) -> (r: (Seq<char>, Option<Seq<char>>))
    requires
        is_decimal(body),
    ensures
        ({
            let parts = NumeralParts { whole: r.0, fraction: r.1, exponent: None };
            &&& parts.valid()
            &&& 0 <= mantissa_end(body) <= body.len()
            &&& parts.mantissa() == body.take(mantissa_end(body))
        }),
{
    let whole = digits_end(body, 0);
    let end = mantissa_end(body);
    lemma_digits_end(body, 0);
    let row = body.take(whole);
    assert forall|i: int| 0 <= i < row.len() implies '0' <= #[trigger] row[i] <= '9' by {
        assert(is_digit(body[i]));
    }
    if whole < body.len() && body[whole] == '.' {
        lemma_digits_end(body, whole + 1);
        let digits = body.subrange(whole + 1, end);
        assert forall|i: int| 0 <= i < digits.len() implies '0' <= #[trigger] digits[i] <= '9' by {
            assert(is_digit(body[whole + 1 + i]));
        }
        assert(row + (seq!['.'] + digits) =~= body.take(end));
        (row, Some(digits))
    } else {
        assert(row + Seq::<char>::empty() =~= body.take(end));
        (row, None)
    }
}

/// Every number is such a numeral, or one of the words for infinity and for no number,
/// behind a sign or none.
pub proof fn numbers_are_numerals(s: Seq<char>) -> (r: (Seq<char>, Option<NumeralParts>))
    requires
        is_number(s),
    ensures
        is_sign(r.0),
        match r.1 {
            Some(parts) => parts.valid() && s == r.0 + parts.text(),
            None => s == r.0 + unsigned(s) && (lower(unsigned(s)) == "inf"@ || lower(unsigned(s))
                == "infinity"@ || lower(unsigned(s)) == "nan"@),
        },
{
    let body = unsigned(s);
    let sign = if body.len() < s.len() {
        seq![s[0]]
    } else {
        Seq::empty()
    };
    assert(s =~= sign + body);
    if is_decimal(body) {
        let end = mantissa_end(body);
        let (whole, fraction) = lemma_mantissa_parts(body);
        let front = NumeralParts { whole, fraction, exponent: None };
        let parts = if end == body.len() {
            assert(body.take(end) =~= body);
            assert(front.text() =~= front.mantissa());
            front
        } else {
            let tail = body.skip(end);
            let (mark, digits) = lemma_exponent_parts(tail);
            let parts = NumeralParts { exponent: Some((tail[0], mark, digits)), ..front };
            assert(parts.mantissa() == front.mantissa());
            assert(parts.text() == body.take(end) + tail);
            assert(body.take(end) + tail =~= body);
            parts
        };
        (sign, Some(parts))
    } else {
        (sign, None)
    }
}

} // verus!
