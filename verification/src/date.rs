//! Calendar deadlines with minute precision, and their fixed textual form
//! `(YYYY-MM-DD HH:MM)`: an 18-character, zero-padded, 24-hour pattern.

use vstd::prelude::*;

use crate::chars::{char_is_digit, digit_char, digit_to_char, digit_val, is_digit, push_char};

verus! {

/// A checklist deadline: a proleptic-Gregorian calendar date plus a time of
/// day with minute precision.
#[derive(Clone, Copy, Debug, PartialEq, Eq, Structural)]
pub struct Deadline {
    pub year: u16,
    pub month: u8,
    pub day: u8,
    pub hour: u8,
    pub minute: u8,
}

/// Whether a proleptic-Gregorian year is a leap year.
pub open spec fn is_leap_year(y: int) -> bool {
    (y % 4 == 0 && y % 100 != 0) || y % 400 == 0
}

/// Number of days in a month of the proleptic-Gregorian calendar.
pub open spec fn days_in_month(y: int, m: int) -> int {
    if m == 2 {
        if is_leap_year(y) {
            29
        } else {
            28
        }
    } else if m == 4 || m == 6 || m == 9 || m == 11 {
        30
    } else {
        31
    }
}

/// A deadline is well formed when it denotes a real calendar date (with a
/// four-digit year) and a real time of day.
pub open spec fn deadline_wf(d: Deadline) -> bool {
    &&& d.year <= 9999
    &&& 1 <= d.month <= 12
    &&& 1 <= d.day <= days_in_month(d.year as int, d.month as int)
    &&& d.hour <= 23
    &&& d.minute <= 59
}

/// The two zero-padded decimal digits of a number below 100.
pub open spec fn two_digits(n: int) -> Seq<char> {
    seq![digit_char(n / 10 % 10), digit_char(n % 10)]
}

/// The four zero-padded decimal digits of a number below 10000.
pub open spec fn four_digits(n: int) -> Seq<char> {
    seq![
        digit_char(n / 1000 % 10),
        digit_char(n / 100 % 10),
        digit_char(n / 10 % 10),
        digit_char(n % 10),
    ]
}

/// The canonical 18-character textual form of a deadline.
pub open spec fn deadline_chars(d: Deadline) -> Seq<char> {
    seq!['('] + four_digits(d.year as int) + seq!['-'] + two_digits(d.month as int) + seq!['-']
        + two_digits(d.day as int) + seq![' '] + two_digits(d.hour as int) + seq![':'] + two_digits(
        d.minute as int,
    ) + seq![')']
}

/// Whether an 18-character window has the shape `(dddd-dd-dd dd:dd)`.
pub open spec fn window_shape_ok(w: Seq<char>) -> bool {
    &&& w.len() == 18
    &&& w[0] == '(' && w[5] == '-' && w[8] == '-' && w[11] == ' ' && w[14] == ':' && w[17] == ')'
    &&& is_digit(w[1]) && is_digit(w[2]) && is_digit(w[3]) && is_digit(w[4])
    &&& is_digit(w[6]) && is_digit(w[7])
    &&& is_digit(w[9]) && is_digit(w[10])
    &&& is_digit(w[12]) && is_digit(w[13])
    &&& is_digit(w[15]) && is_digit(w[16])
}

/// The year encoded in a well-shaped window.
pub open spec fn window_year(w: Seq<char>) -> int {
    digit_val(w[1]) * 1000 + digit_val(w[2]) * 100 + digit_val(w[3]) * 10 + digit_val(w[4])
}

/// The month encoded in a well-shaped window.
pub open spec fn window_month(w: Seq<char>) -> int {
    digit_val(w[6]) * 10 + digit_val(w[7])
}

/// The day encoded in a well-shaped window.
pub open spec fn window_day(w: Seq<char>) -> int {
    digit_val(w[9]) * 10 + digit_val(w[10])
}

/// The hour encoded in a well-shaped window.
pub open spec fn window_hour(w: Seq<char>) -> int {
    digit_val(w[12]) * 10 + digit_val(w[13])
}

/// The minute encoded in a well-shaped window.
pub open spec fn window_minute(w: Seq<char>) -> int {
    digit_val(w[15]) * 10 + digit_val(w[16])
}

/// Strict parse of an 18-character window against the deadline pattern:
/// the shape must match and every field must be a real calendar/clock value.
pub open spec fn parse_deadline_window(w: Seq<char>) -> Option<Deadline> {
    if window_shape_ok(w) {
        let y = window_year(w);
        let mo = window_month(w);
        let d = window_day(w);
        let h = window_hour(w);
        let mi = window_minute(w);
        if 1 <= mo <= 12 && 1 <= d <= days_in_month(y, mo) && h <= 23 && mi <= 59 {
            Some(
                Deadline {
                    year: y as u16,
                    month: mo as u8,
                    day: d as u8,
                    hour: h as u8,
                    minute: mi as u8,
                },
            )
        } else {
            None
        }
    } else {
        None
    }
}

/// A well-formed deadline's canonical text parses back to the same deadline.
pub proof fn lemma_deadline_round_trip(d: Deadline)
    requires
        deadline_wf(d),
    ensures
        parse_deadline_window(deadline_chars(d)) == Some(d),
{
    let w = deadline_chars(d);
    assert(w.len() == 18);
    lemma_four_digits_val(d.year as int);
    lemma_two_digits_val(d.month as int);
    lemma_two_digits_val(d.day as int);
    lemma_two_digits_val(d.hour as int);
    lemma_two_digits_val(d.minute as int);
    assert(w[1] == four_digits(d.year as int)[0]);
    assert(w[2] == four_digits(d.year as int)[1]);
    assert(w[3] == four_digits(d.year as int)[2]);
    assert(w[4] == four_digits(d.year as int)[3]);
    assert(w[6] == two_digits(d.month as int)[0]);
    assert(w[7] == two_digits(d.month as int)[1]);
    assert(w[9] == two_digits(d.day as int)[0]);
    assert(w[10] == two_digits(d.day as int)[1]);
    assert(w[12] == two_digits(d.hour as int)[0]);
    assert(w[13] == two_digits(d.hour as int)[1]);
    assert(w[15] == two_digits(d.minute as int)[0]);
    assert(w[16] == two_digits(d.minute as int)[1]);
    assert(window_shape_ok(w));
    assert(window_year(w) == d.year as int);
    assert(window_month(w) == d.month as int);
    assert(window_day(w) == d.day as int);
    assert(window_hour(w) == d.hour as int);
    assert(window_minute(w) == d.minute as int);
}

/// A digit character's value is the digit.
proof fn lemma_digit_char_val(n: int)
    requires
        0 <= n < 10,
    ensures
        is_digit(digit_char(n)),
        digit_val(digit_char(n)) == n,
{
}

/// The two-digit form of a number below 100 encodes that number.
proof fn lemma_two_digits_val(n: int)
    requires
        0 <= n < 100,
    ensures
        is_digit(two_digits(n)[0]),
        is_digit(two_digits(n)[1]),
        digit_val(two_digits(n)[0]) * 10 + digit_val(two_digits(n)[1]) == n,
{
    lemma_digit_char_val(n / 10 % 10);
    lemma_digit_char_val(n % 10);
    assert(n / 10 % 10 == n / 10);
    assert(n / 10 * 10 + n % 10 == n);
}

/// The four-digit form of a number below 10000 encodes that number.
proof fn lemma_four_digits_val(n: int)
    requires
        0 <= n < 10000,
    ensures
        is_digit(four_digits(n)[0]),
        is_digit(four_digits(n)[1]),
        is_digit(four_digits(n)[2]),
        is_digit(four_digits(n)[3]),
        digit_val(four_digits(n)[0]) * 1000 + digit_val(four_digits(n)[1]) * 100 + digit_val(
            four_digits(n)[2],
        ) * 10 + digit_val(four_digits(n)[3]) == n,
{
    lemma_digit_char_val(n / 1000 % 10);
    lemma_digit_char_val(n / 100 % 10);
    lemma_digit_char_val(n / 10 % 10);
    lemma_digit_char_val(n % 10);
    assert(n / 1000 % 10 == n / 1000);
    assert(n / 1000 * 1000 + n / 100 % 10 * 100 + n / 10 % 10 * 10 + n % 10 == n) by {
        assert(n / 100 == n / 100 % 100 + n / 10000 * 100);
        assert(n / 1000 * 1000 + n % 1000 == n);
        assert(n / 100 % 10 * 100 + n % 100 == n % 1000) by {
            assert(n % 1000 / 100 == n / 100 % 10);
            assert(n % 1000 / 100 * 100 + n % 1000 % 100 == n % 1000);
            assert(n % 1000 % 100 == n % 100);
        }
        assert(n / 10 % 10 * 10 + n % 10 == n % 100) by {
            assert(n % 100 / 10 == n / 10 % 10);
            assert(n % 100 / 10 * 10 + n % 100 % 10 == n % 100);
            assert(n % 100 % 10 == n % 10);
        }
    }
}

/// Whether a year is a leap year; matches [`is_leap_year`].
pub fn year_is_leap(y: u16) -> (r: bool)
    ensures
        r == is_leap_year(y as int),
{
    (y % 4 == 0 && y % 100 != 0) || y % 400 == 0
}

/// Number of days in a month; matches [`days_in_month`].
pub fn month_days(y: u16, m: u8) -> (r: u8)
    ensures
        r as int == days_in_month(y as int, m as int),
{
    if m == 2 {
        if year_is_leap(y) {
            29
        } else {
            28
        }
    } else if m == 4 || m == 6 || m == 9 || m == 11 {
        30
    } else {
        31
    }
}

/// Appends a number's two low-order zero-padded digits to a string.
fn push_two_digits(out: &mut String, n: u8)
    ensures
        final(out)@ == old(out)@ + two_digits(n as int),
{
    push_char(out, digit_to_char((n / 10 % 10) as u32));
    push_char(out, digit_to_char((n % 10) as u32));
    proof {
        assert(final(out)@ =~= old(out)@ + two_digits(n as int));
    }
}

/// Appends a number's four low-order zero-padded digits to a string.
fn push_four_digits(out: &mut String, n: u16)
    ensures
        final(out)@ == old(out)@ + four_digits(n as int),
{
    push_char(out, digit_to_char((n / 1000 % 10) as u32));
    push_char(out, digit_to_char((n / 100 % 10) as u32));
    push_char(out, digit_to_char((n / 10 % 10) as u32));
    push_char(out, digit_to_char((n % 10) as u32));
    proof {
        assert(final(out)@ =~= old(out)@ + four_digits(n as int));
    }
}

/// Appends a deadline's canonical 18-character text to a string.
pub fn push_deadline(out: &mut String, d: &Deadline)
    ensures
        final(out)@ == old(out)@ + deadline_chars(*d),
{
    push_char(out, '(');
    push_four_digits(out, d.year);
    push_char(out, '-');
    push_two_digits(out, d.month);
    push_char(out, '-');
    push_two_digits(out, d.day);
    push_char(out, ' ');
    push_two_digits(out, d.hour);
    push_char(out, ':');
    push_two_digits(out, d.minute);
    push_char(out, ')');
    proof {
        assert(final(out)@ =~= old(out)@ + deadline_chars(*d));
    }
}

/// Reads the two-digit number at a position of a character vector.
fn read_two_digits(s: &Vec<char>, i: usize) -> (r: Option<u8>)
    requires
        i + 2 <= s@.len(),
    ensures
        match r {
            Some(n) => is_digit(s@[i as int]) && is_digit(s@[i + 1]) && n as int == digit_val(
                s@[i as int],
            ) * 10 + digit_val(s@[i + 1]),
            None => !(is_digit(s@[i as int]) && is_digit(s@[i + 1])),
        },
{
    let n = s.len();
    let c0 = s[i];
    let c1 = s[i + 1];
    if char_is_digit(c0) && char_is_digit(c1) {
        Some((((c0 as u32) - 48) * 10 + ((c1 as u32) - 48)) as u8)
    } else {
        None
    }
}

/// Attempts a strict parse of the 18-character window starting at `i`;
/// matches [`parse_deadline_window`] on that window.
pub fn parse_window_at(s: &Vec<char>, i: usize) -> (r: Option<Deadline>)
    requires
        i + 18 <= s@.len(),
    ensures
        r == parse_deadline_window(s@.subrange(i as int, i + 18)),
{
    let ghost w = s@.subrange(i as int, i + 18);
    let n = s.len();
    if !(s[i] == '(' && s[i + 5] == '-' && s[i + 8] == '-' && s[i + 11] == ' ' && s[i + 14] == ':'
        && s[i + 17] == ')') {
        assert(!window_shape_ok(w));
        return None;
    }
    let y0 = match read_two_digits(s, i + 1) {
        Some(n) => n,
        None => {
            assert(!window_shape_ok(w));
            return None;
        },
    };
    let y1 = match read_two_digits(s, i + 3) {
        Some(n) => n,
        None => {
            assert(!window_shape_ok(w));
            return None;
        },
    };
    let mo = match read_two_digits(s, i + 6) {
        Some(n) => n,
        None => {
            assert(!window_shape_ok(w));
            return None;
        },
    };
    let d = match read_two_digits(s, i + 9) {
        Some(n) => n,
        None => {
            assert(!window_shape_ok(w));
            return None;
        },
    };
    let h = match read_two_digits(s, i + 12) {
        Some(n) => n,
        None => {
            assert(!window_shape_ok(w));
            return None;
        },
    };
    let mi = match read_two_digits(s, i + 15) {
        Some(n) => n,
        None => {
            assert(!window_shape_ok(w));
            return None;
        },
    };
    assert(window_shape_ok(w));
    let year: u16 = (y0 as u16) * 100 + (y1 as u16);
    assert(year as int == window_year(w));
    assert(mo as int == window_month(w));
    assert(d as int == window_day(w));
    assert(h as int == window_hour(w));
    assert(mi as int == window_minute(w));
    if 1 <= mo && mo <= 12 && 1 <= d && d <= month_days(year, mo) && h <= 23 && mi <= 59 {
        Some(Deadline { year, month: mo, day: d, hour: h, minute: mi })
    } else {
        None
    }
}

} // verus!
