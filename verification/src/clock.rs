//! The time of day that ends the working day, and how it is read from text.

use vstd::prelude::*;
use vstd::string::*;
use crate::error::TTError;
use crate::text::{
    decimal_nat, digit, lemma_text_less_at_difference, lemma_text_less_irreflexive, push_decimal,
    push_two_digits, text_less, two_digits,
};

verus! {

/// An hour and a minute of the day.
#[derive(Eq, PartialEq, Debug, Clone, Copy)]
pub struct HourMinute(pub u32, pub u32);

/// The two runs of digits that the pattern of a time of day finds in a text.
#[derive(Eq, PartialEq, Debug)]
pub struct HourMinuteText {
    pub hour: String,
    pub minute: String,
}

/// `c` is one of the ten decimal digits.
pub open spec fn is_digit(c: char) -> bool {
    '0' <= c && c <= '9'
}

/// The number that the digit `c` stands for.
pub open spec fn digit_value(c: char) -> int {
    c as int - '0' as int
}

/// The number that one or two digits stand for.
pub open spec fn number(digits: Seq<char>) -> int {
    if digits.len() == 1 {
        digit_value(digits[0])
    } else {
        digit_value(digits[0]) * 10 + digit_value(digits[1])
    }
}

/// How many digits the hour takes: two where the second character is a digit too.
pub open spec fn hour_len(s: Seq<char>) -> int {
    if s.len() > 1 && is_digit(s[1]) {
        2
    } else {
        1
    }
}

/// The text is a time of day: one or two digits, a colon, one or two
/// digits, and nothing more.
pub open spec fn matches_pattern(s: Seq<char>) -> bool {
    &&& s.len() > 0
    &&& is_digit(s[0])
    &&& s.len() > hour_len(s) + 1
    &&& s[hour_len(s)] == ':'
    &&& is_digit(s[hour_len(s) + 1])
    &&& s.len() == hour_len(s) + 1 + minute_len(s)
}

/// How many digits the minute takes: two where a second digit follows the first.
pub open spec fn minute_len(s: Seq<char>) -> int {
    if s.len() > hour_len(s) + 2 && is_digit(s[hour_len(s) + 2]) {
        2
    } else {
        1
    }
}

/// The digits of the hour in a text that matches.
pub open spec fn hour_text(s: Seq<char>) -> Seq<char> {
    s.subrange(0, hour_len(s))
}

/// The digits of the minute in a text that matches.
pub open spec fn minute_text(s: Seq<char>) -> Seq<char> {
    s.subrange(hour_len(s) + 1, hour_len(s) + 1 + minute_len(s))
}

/// The time of day that a text gives: the numbers of its hour and minute,
/// where the text matches and the hour is at most 23 and the minute at most 59.
pub open spec fn parsed(s: Seq<char>) -> Option<HourMinute> {
    if matches_pattern(s) && number(hour_text(s)) <= 23 && number(minute_text(s)) <= 59 {
        Some(HourMinute(number(hour_text(s)) as u32, number(minute_text(s)) as u32))
    } else {
        None
    }
}

/// The message for a text that does not match the pattern.
pub open spec fn format_message() -> Seq<char> {
    "Time must a 24-hour time formatted like HH:MM (i.e. 10:30, 09:15, 8:00, etc)"@
}

/// The message for an hour above 23.
pub open spec fn hour_message(hour: nat) -> Seq<char> {
    "Got hour="@ + decimal_nat(hour) + ", but hour must be 0-23"@
}

/// The message for a minute above 59.
pub open spec fn minute_message(minute: nat) -> Seq<char> {
    "Got minute="@ + decimal_nat(minute) + ", but minute must be 0-59"@
}

/// The message with which a text that gives no time of day is refused.
pub open spec fn parse_error_message(s: Seq<char>) -> Seq<char> {
    if !matches_pattern(s) {
        format_message()
    } else if number(hour_text(s)) > 23 {
        hour_message(number(hour_text(s)) as nat)
    } else {
        minute_message(number(minute_text(s)) as nat)
    }
}

impl HourMinute {
    /// The hour is below 24 and the minute below 60.
    pub open spec fn valid(self) -> bool {
        self.0 < 24 && self.1 < 60
    }

    /// The text form: hour and minute, two digits each, with a colon between.
    pub open spec fn text(self) -> Seq<char> {
        two_digits(self.0 as nat) + seq![':'] + two_digits(self.1 as nat)
    }

    /// This time of day comes before `other` on the clock. For valid times
    /// that is the order of their text forms.
    pub open spec fn precedes(self, other: HourMinute) -> bool {
        self.0 < other.0 || (self.0 == other.0 && self.1 < other.1)
    }

    /// The text form of the time of day, as in `09:05`.
    pub fn to_string(&self) -> (r: String)
        ensures
            r@ == self.text(),
    {
        let mut r = String::new();
        push_two_digits(&mut r, self.0 as u128);
        proof {
            reveal_strlit(":");
        }
        r.append(":");
        push_two_digits(&mut r, self.1 as u128);
        assert(r@ =~= self.text());
        r
    }

    /// Whether this time of day comes before `other`.
    pub fn is_before(&self, other: &HourMinute) -> (r: bool)
        ensures
            r == self.precedes(*other),
    {
        self.0 < other.0 || (self.0 == other.0 && self.1 < other.1)
    }
}

/// The text form of a valid time of day is five characters: two digits, a
/// colon, two digits.
pub proof fn lemma_text_of_valid(t: HourMinute)
    requires
        t.valid(),
    ensures
        t.text() == seq![
            digit(t.0 as int / 10),
            digit(t.0 as int % 10),
            ':',
            digit(t.1 as int / 10),
            digit(t.1 as int % 10),
        ],
{
    let h = t.0 as nat;
    let m = t.1 as nat;
    assert(two_digits(h) =~= seq![digit(h as int / 10), digit(h as int % 10)]) by {
        if h >= 10 {
            assert(decimal_nat(h / 10) == seq![digit((h / 10) as int)]);
        }
    }
    assert(two_digits(m) =~= seq![digit(m as int / 10), digit(m as int % 10)]) by {
        if m >= 10 {
            assert(decimal_nat(m / 10) == seq![digit((m / 10) as int)]);
        }
    }
    assert(t.text() =~= seq![
        digit(t.0 as int / 10),
        digit(t.0 as int % 10),
        ':',
        digit(t.1 as int / 10),
        digit(t.1 as int % 10),
    ]);
}

/// Valid times of day are ordered by the clock exactly as their text forms
/// are ordered as texts.
pub proof fn law_order_is_text_order(a: HourMinute, b: HourMinute)
    requires
        a.valid(),
        b.valid(),
    ensures
        a.precedes(b) == text_less(a.text(), b.text()),
{
    lemma_text_of_valid(a);
    lemma_text_of_valid(b);
    let ta = a.text();
    let tb = b.text();
    let ah = a.0 as int;
    let bh = b.0 as int;
    let am = a.1 as int;
    let bm = b.1 as int;
    if ah / 10 != bh / 10 {
        lemma_text_less_at_difference(ta, tb, 0);
    } else if ah % 10 != bh % 10 {
        lemma_text_less_at_difference(ta, tb, 1);
    } else if am / 10 != bm / 10 {
        assert(ta[2] == tb[2]);
        lemma_text_less_at_difference(ta, tb, 3);
    } else if am % 10 != bm % 10 {
        assert(ta[2] == tb[2]);
        lemma_text_less_at_difference(ta, tb, 4);
    } else {
        assert(ta =~= tb);
        lemma_text_less_irreflexive(ta);
    }
}

/// Whether `c` is a decimal digit.
fn digit_at(text: &str, i: usize) -> (r: bool)
    requires
        i < text@.len(),
    ensures
        r == is_digit(text@[i as int]),
{
    let c = text.get_char(i);
    '0' <= c && c <= '9'
}

/// The number that the one or two digits of `text` from `from` on stand for.
fn number_at(text: &str, from: usize, len: usize) -> (r: u32)
    requires
        len == 1 || len == 2,
        from + len <= text@.len() <= usize::MAX,
        forall|i: int| from <= i < from + len ==> is_digit(text@[i]),
    ensures
        r == number(text@.subrange(from as int, from + len)),
        r < 100,
{
    let first = text.get_char(from) as u32 - '0' as u32;
    if len == 1 {
        first
    } else {
        let second = text.get_char(from + 1) as u32 - '0' as u32;
        first * 10 + second
    }
}

/// How many digits the hour and the minute of `text` take, where the text
/// is a time of day.
fn scan(text: &str) -> (r: Option<(usize, usize)>)
    ensures
        r is Some == matches_pattern(text@),
        r matches Some((hours, minutes)) ==> hours == hour_len(text@) && minutes == minute_len(
            text@,
        ) && text@.len() <= usize::MAX,
{
    let n = text.unicode_len();
    if n == 0 || !digit_at(text, 0) {
        return None;
    }
    let hours: usize = if n > 1 && digit_at(text, 1) {
        2
    } else {
        1
    };
    if n <= hours + 1 {
        return None;
    }
    if text.get_char(hours) != ':' || !digit_at(text, hours + 1) {
        return None;
    }
    let minutes: usize = if n > hours + 2 && digit_at(text, hours + 2) {
        2
    } else {
        1
    };
    if n != hours + 1 + minutes {
        return None;
    }
    Some((hours, minutes))
}

/// Takes a time of day apart: one or two digits, a colon, and one or two
/// digits, with nothing before or after. Returns the digits of the hour and
/// of the minute, or `None` where the text is not of that form.
pub fn match_hour_minute(text: &str) -> (r: Option<HourMinuteText>)
    ensures
        r is Some == matches_pattern(text@),
        r matches Some(m) ==> m.hour@ == hour_text(text@) && m.minute@ == minute_text(text@),
{
    match scan(text) {
        Some((hours, minutes)) => {
            let hour = String::from_str(text.substring_char(0, hours));
            let minute = String::from_str(text.substring_char(hours + 1, hours + 1 + minutes));
            Some(HourMinuteText { hour, minute })
        },
        None => None,
    }
}

/// Reads a time of day from a text of the form `HH:MM`, each part of one
/// or two digits. A text of another form, text after the minute included,
/// an hour above 23 and a minute above 59 are refused, each with its own
/// message.
pub fn parse_time(time_string: &String) -> (res: Result<HourMinute, TTError>)
    ensures
        res is Ok == parsed(time_string@) is Some,
        res matches Ok(hm) ==> parsed(time_string@) == Some(hm),
        res matches Ok(hm) ==> hm.valid(),
        res matches Err(e) ==> (e matches TTError::TTError { message } && message@
            == parse_error_message(time_string@)),
{
    let text = time_string.as_str();
    let (hours, minutes) = match scan(text) {
        Some(lengths) => lengths,
        None => {
            return Err(TTError::TTError { message: no_match_message() });
        },
    };
    let hour = number_at(text, 0, hours);
    let minute = number_at(text, hours + 1, minutes);
    if hour > 23 {
        let mut message = String::from_str("Got hour=");
        push_decimal(&mut message, hour as u128);
        message.append(", but hour must be 0-23");
        Err(TTError::TTError { message })
    } else if minute > 59 {
        let mut message = String::from_str("Got minute=");
        push_decimal(&mut message, minute as u128);
        message.append(", but minute must be 0-59");
        Err(TTError::TTError { message })
    } else {
        Ok(HourMinute(hour, minute))
    }
}

/// The message for a text that does not match the pattern.
fn no_match_message() -> (r: String)
    ensures
        r@ == format_message(),
{
    String::from_str("Time must a 24-hour time formatted like HH:MM (i.e. 10:30, 09:15, 8:00, etc)")
}

} // verus!
