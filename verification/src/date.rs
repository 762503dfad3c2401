//! Calendar dates for due dates: a proleptic Gregorian date within the
//! four-digit years that the `YYYY-MM-DD` field can carry, with
//! ordering, day-by-day arithmetic for rescheduling, and the text codec
//! for the date field.

use crate::text::append_digit;
use crate::text::char_digit;
use crate::text::digit_char;
use crate::text::digit_val;
use crate::text::is_digit;
use crate::text::lemma_digit_char;
use vstd::prelude::*;
use vstd::string::StrSliceExecFns;
use vstd::string::StringExecFns;

verus! {

/// A calendar date, day precision only.
#[derive(Clone, Copy, PartialEq, Eq, Structural, Debug)]
pub struct Date {
    pub year: u32,
    pub month: u32,
    pub day: u32,
}

pub open spec fn is_leap_year(y: int) -> bool {
    y % 4 == 0 && (y % 100 != 0 || y % 400 == 0)
}

pub open spec fn days_in_month(y: int, m: int) -> int {
    if m == 2 {
        if is_leap_year(y) {
            29
        } else {
            28
        }
    } else if m == 4 || m == 6 || m == 9 || m == 11 {
        30
    } else {
        31
    }
}

/// A real calendar date that the four-digit year field can hold.
pub open spec fn valid_date(d: Date) -> bool {
    &&& d.year <= 9999
    &&& 1 <= d.month <= 12
    &&& 1 <= d.day <= days_in_month(d.year as int, d.month as int)
}

/// Executable month length.
pub fn month_length(y: u32, m: u32) -> (r: u32)
    ensures
        r == days_in_month(y as int, m as int),
{
    if m == 2 {
        if y % 4 == 0 && (y % 100 != 0 || y % 400 == 0) {
            29
        } else {
            28
        }
    } else if m == 4 || m == 6 || m == 9 || m == 11 {
        30
    } else {
        31
    }
}

/// Executable validity check for a date.
pub fn date_ok(d: &Date) -> (r: bool)
    ensures
        r == valid_date(*d),
{
    d.year <= 9999 && 1 <= d.month && d.month <= 12 && 1 <= d.day && d.day <= month_length(
        d.year,
        d.month,
    )
}

/// Strict calendar order: `a` falls on an earlier day than `b`.
pub open spec fn date_lt(a: Date, b: Date) -> bool {
    ||| a.year < b.year
    ||| (a.year == b.year && a.month < b.month)
    ||| (a.year == b.year && a.month == b.month && a.day < b.day)
}

pub fn date_before(a: &Date, b: &Date) -> (r: bool)
    ensures
        r == date_lt(*a, *b),
{
    if a.year != b.year {
        a.year < b.year
    } else if a.month != b.month {
        a.month < b.month
    } else {
        a.day < b.day
    }
}

/// The day after a date; `None` past the last representable date.
pub open spec fn next_day_spec(d: Date) -> Option<Date> {
    if d.day < days_in_month(d.year as int, d.month as int) {
        Some(Date { year: d.year, month: d.month, day: (d.day + 1) as u32 })
    } else if d.month < 12 {
        Some(Date { year: d.year, month: (d.month + 1) as u32, day: 1 })
    } else if d.year < 9999 {
        Some(Date { year: (d.year + 1) as u32, month: 1, day: 1 })
    } else {
        None
    }
}

pub proof fn lemma_next_day_valid(d: Date)
    requires
        valid_date(d),
        next_day_spec(d) is Some,
    ensures
        valid_date(next_day_spec(d)->Some_0),
{
}

pub fn next_day(d: &Date) -> (r: Option<Date>)
    requires
        valid_date(*d),
    ensures
        r == next_day_spec(*d),
{
    let len = month_length(d.year, d.month);
    if d.day < len {
        Some(Date { year: d.year, month: d.month, day: d.day + 1 })
    } else if d.month < 12 {
        Some(Date { year: d.year, month: d.month + 1, day: 1 })
    } else if d.year < 9999 {
        Some(Date { year: d.year + 1, month: 1, day: 1 })
    } else {
        None
    }
}

/// The date a number of days after a date; `None` when the walk leaves
/// the representable range.
pub open spec fn add_days_spec(d: Date, n: nat) -> Option<Date>
    decreases n,
{
    if n == 0 {
        Some(d)
    } else {
        match next_day_spec(d) {
            None => None,
            Some(e) => add_days_spec(e, (n - 1) as nat),
        }
    }
}

pub proof fn lemma_add_days_valid(d: Date, n: nat)
    requires
        valid_date(d),
        add_days_spec(d, n) is Some,
    ensures
        valid_date(add_days_spec(d, n)->Some_0),
    decreases n,
{
    if n == 0 {
    } else {
        match next_day_spec(d) {
            None => {},
            Some(e) => {
                lemma_next_day_valid(d);
                lemma_add_days_valid(e, (n - 1) as nat);
            },
        }
    }
}

/// Walks the calendar forward one day at a time.
pub fn add_days(d: &Date, n: u32) -> (r: Option<Date>)
    requires
        valid_date(*d),
    ensures
        r == add_days_spec(*d, n as nat),
        r is Some ==> valid_date(r->Some_0),
{
    let mut cur: Date = *d;
    let mut i: u32 = 0;
    while i < n
        invariant
            0 <= i <= n,
            valid_date(cur),
            add_days_spec(*d, n as nat) == add_days_spec(cur, (n - i) as nat),
        decreases n - i,
    {
        match next_day(&cur) {
            Some(e) => {
                proof {
                    lemma_next_day_valid(cur);
                }
                cur = e;
            },
            None => {
                return None;
            },
        }
        i += 1;
    }
    proof {
        lemma_add_days_valid(*d, n as nat);
    }
    Some(cur)
}

/// The ten characters `YYYY-MM-DD` of a date.
pub open spec fn date_chars(d: Date) -> Seq<char> {
    let y = d.year as int;
    let m = d.month as int;
    let dd = d.day as int;
    seq![
        digit_char((y / 1000) as nat),
        digit_char((y / 100 % 10) as nat),
        digit_char((y / 10 % 10) as nat),
        digit_char((y % 10) as nat),
        '-',
        digit_char((m / 10) as nat),
        digit_char((m % 10) as nat),
        '-',
        digit_char((dd / 10) as nat),
        digit_char((dd % 10) as nat),
    ]
}

pub proof fn lemma_date_chars_clean(d: Date)
    requires
        valid_date(d),
    ensures
        date_chars(d).len() == 10,
        forall|j: int|
            0 <= j < date_chars(d).len() ==> date_chars(d)[j] != ',' && date_chars(d)[j] != '\n',
{
    let s = date_chars(d);
    assert forall|j: int| 0 <= j < s.len() implies s[j] != ',' && s[j] != '\n' by {
        if j == 4 || j == 7 {
        } else {
            assert(s[j] != ',' && s[j] != '\n') by {
                assert(forall|k: nat| digit_char(k) != ',' && digit_char(k) != '\n');
            }
        }
    }
}

/// Appends the `YYYY-MM-DD` form of a date.
pub fn append_date(out: &mut String, d: &Date)
    requires
        valid_date(*d),
    ensures
        final(out)@ == old(out)@ + date_chars(*d),
{
    proof {
        assert(d.year / 1000 < 10) by (nonlinear_arith)
            requires
                d.year <= 9999,
        ;
    }
    append_digit(out, d.year / 1000);
    append_digit(out, d.year / 100 % 10);
    append_digit(out, d.year / 10 % 10);
    append_digit(out, d.year % 10);
    out.append("-");
    append_digit(out, d.month / 10);
    append_digit(out, d.month % 10);
    out.append("-");
    append_digit(out, d.day / 10);
    append_digit(out, d.day % 10);
    proof {
        reveal_strlit("-");
        assert(("-")@ =~= seq!['-']);
        assert(out@ =~= old(out)@ + date_chars(*d));
    }
}

/// What parsing a due-date field yields: the date, when the field is
/// exactly `YYYY-MM-DD` and names a real calendar date.
pub open spec fn parse_date_spec(s: Seq<char>) -> Option<Date> {
    if s.len() == 10 && s[4] == '-' && s[7] == '-' && is_digit(s[0]) && is_digit(s[1]) && is_digit(
        s[2],
    ) && is_digit(s[3]) && is_digit(s[5]) && is_digit(s[6]) && is_digit(s[8]) && is_digit(s[9]) {
        let y = digit_val(s[0]) * 1000 + digit_val(s[1]) * 100 + digit_val(s[2]) * 10 + digit_val(
            s[3],
        );
        let m = digit_val(s[5]) * 10 + digit_val(s[6]);
        let dd = digit_val(s[8]) * 10 + digit_val(s[9]);
        if 1 <= m <= 12 && 1 <= dd <= days_in_month(y as int, m as int) {
            Some(Date { year: y as u32, month: m as u32, day: dd as u32 })
        } else {
            None
        }
    } else {
        None
    }
}

/// A parsed due-date field is always a real calendar date.
pub proof fn lemma_parse_date_valid(s: Seq<char>)
    requires
        parse_date_spec(s) is Some,
    ensures
        valid_date(parse_date_spec(s)->Some_0),
{
}

/// Parses a due-date field; accepts exactly `YYYY-MM-DD` naming a real
/// calendar date, rejects everything else.
pub fn parse_date(s: &str) -> (res: Option<Date>)
    ensures
        res == parse_date_spec(s@),
        res is Some ==> valid_date(res->Some_0),
{
    let n = s.unicode_len();
    if n != 10 {
        return None;
    }
    if s.get_char(4) != '-' || s.get_char(7) != '-' {
        return None;
    }
    let c0 = char_digit(s.get_char(0));
    let c1 = char_digit(s.get_char(1));
    let c2 = char_digit(s.get_char(2));
    let c3 = char_digit(s.get_char(3));
    let c5 = char_digit(s.get_char(5));
    let c6 = char_digit(s.get_char(6));
    let c8 = char_digit(s.get_char(8));
    let c9 = char_digit(s.get_char(9));
    if c0 >= 10 || c1 >= 10 || c2 >= 10 || c3 >= 10 || c5 >= 10 || c6 >= 10 || c8 >= 10 || c9
        >= 10 {
        return None;
    }
    let y = c0 * 1000 + c1 * 100 + c2 * 10 + c3;
    let m = c5 * 10 + c6;
    let dd = c8 * 10 + c9;
    if 1 <= m && m <= 12 && 1 <= dd && dd <= month_length(y, m) {
        Some(Date { year: y, month: m, day: dd })
    } else {
        None
    }
}

/// A date written out and read back is the same date.
pub proof fn lemma_date_roundtrip(d: Date)
    requires
        valid_date(d),
    ensures
        parse_date_spec(date_chars(d)) == Some(d),
{
    let y = d.year as int;
    let m = d.month as int;
    let dd = d.day as int;
    let s = date_chars(d);
    assert(y / 1000 <= 9) by (nonlinear_arith)
        requires
            0 <= y <= 9999,
    ;
    lemma_digit_char((y / 1000) as nat);
    lemma_digit_char((y / 100 % 10) as nat);
    lemma_digit_char((y / 10 % 10) as nat);
    lemma_digit_char((y % 10) as nat);
    lemma_digit_char((m / 10) as nat);
    lemma_digit_char((m % 10) as nat);
    lemma_digit_char((dd / 10) as nat);
    lemma_digit_char((dd % 10) as nat);
    vstd::arithmetic::div_mod::lemma_fundamental_div_mod(y, 10);
    vstd::arithmetic::div_mod::lemma_div_denominator(y, 10, 10);
    vstd::arithmetic::div_mod::lemma_fundamental_div_mod(y / 10, 10);
    vstd::arithmetic::div_mod::lemma_div_denominator(y, 100, 10);
    vstd::arithmetic::div_mod::lemma_fundamental_div_mod(y / 100, 10);
    assert(y == (y / 1000) * 1000 + (y / 100 % 10) * 100 + (y / 10 % 10) * 10 + y % 10);
    vstd::arithmetic::div_mod::lemma_fundamental_div_mod(m, 10);
    vstd::arithmetic::div_mod::lemma_fundamental_div_mod(dd, 10);
    assert(digit_val(s[0]) * 1000 + digit_val(s[1]) * 100 + digit_val(s[2]) * 10 + digit_val(s[3])
        == y);
    assert(digit_val(s[5]) * 10 + digit_val(s[6]) == m);
    assert(digit_val(s[8]) * 10 + digit_val(s[9]) == dd);
}

} // verus!
