//! Calendar dates as plain year/month/day values, with the arithmetic the
//! recurrence rules need: day stepping, month advance with day clamping,
//! year advance, and business-day stepping that skips weekends.

use vstd::prelude::*;

verus! {

/// A calendar date. `month` runs from 1 to 12 and `day` from 1 to the length
/// of the month when the date is well formed (see [`Date::wf`]).
#[derive(Clone, Copy, Debug, PartialEq, Eq, Structural)]
pub struct Date {
    pub year: u32,
    pub month: u32,
    pub day: u32,
}

pub open spec fn spec_is_leap_year(y: int) -> bool {
    y % 4 == 0 && (y % 100 != 0 || y % 400 == 0)
}

pub open spec fn spec_days_in_month(y: int, m: int) -> int {
    if m == 2 {
        if spec_is_leap_year(y) {
            29
        } else {
            28
        }
    } else if m == 4 || m == 6 || m == 9 || m == 11 {
        30
    } else {
        31
    }
}

impl Date {
    pub open spec fn wf(self) -> bool {
        &&& 1 <= self.month <= 12
        &&& 1 <= self.day <= spec_days_in_month(self.year as int, self.month as int)
    }

    pub open spec fn spec_eq(self, other: Date) -> bool {
        self.year == other.year && self.month == other.month && self.day == other.day
    }

    /// Lexicographic order on (year, month, day).
    pub open spec fn spec_le(self, other: Date) -> bool {
        if self.year != other.year {
            self.year < other.year
        } else if self.month != other.month {
            self.month < other.month
        } else {
            self.day <= other.day
        }
    }
}

pub fn is_leap_year(y: u32) -> (r: bool)
    ensures
        r == spec_is_leap_year(y as int),
{
    y % 4 == 0 && (y % 100 != 0 || y % 400 == 0)
}

pub fn days_in_month(y: u32, m: u32) -> (r: u32)
    ensures
        r == spec_days_in_month(y as int, m as int),
{
    if m == 2 {
        if is_leap_year(y) {
            29
        } else {
            28
        }
    } else if m == 4 || m == 6 || m == 9 || m == 11 {
        30
    } else {
        31
    }
}

pub fn date_eq(a: Date, b: Date) -> (r: bool)
    ensures
        r == a.spec_eq(b),
{
    a.year == b.year && a.month == b.month && a.day == b.day
}

pub fn date_le(a: Date, b: Date) -> (r: bool)
    ensures
        r == a.spec_le(b),
{
    if a.year != b.year {
        a.year < b.year
    } else if a.month != b.month {
        a.month < b.month
    } else {
        a.day <= b.day
    }
}

pub open spec fn spec_next_day(d: Date) -> Date {
    if d.day < spec_days_in_month(d.year as int, d.month as int) {
        Date { day: (d.day + 1) as u32, ..d }
    } else if d.month < 12 {
        Date { year: d.year, month: (d.month + 1) as u32, day: 1 }
    } else {
        Date { year: (d.year + 1) as u32, month: 1, day: 1 }
    }
}

pub fn next_day(d: Date) -> (r: Date)
    requires
        d.year < u32::MAX,
        d.day <= 31,
        d.month <= 12,
    ensures
        r == spec_next_day(d),
        r.year <= d.year + 1,
{
    if d.day < days_in_month(d.year, d.month) {
        Date { day: d.day + 1, ..d }
    } else if d.month < 12 {
        Date { year: d.year, month: d.month + 1, day: 1 }
    } else {
        Date { year: d.year + 1, month: 1, day: 1 }
    }
}

pub open spec fn spec_add_days(d: Date, n: nat) -> Date
    decreases n,
{
    if n == 0 {
        d
    } else {
        spec_add_days(spec_next_day(d), (n - 1) as nat)
    }
}

pub fn add_days(d: Date, n: u64) -> (r: Date)
    requires
        d.year + n <= u32::MAX,
        d.day <= 31,
        d.month <= 12,
    ensures
        r == spec_add_days(d, n as nat),
{
    let mut cur: Date = d;
    let mut i: u64 = 0;
    while i < n
        invariant
            i <= n,
            cur.year + (n - i) <= u32::MAX,
            cur.day <= 31,
            cur.month <= 12,
            spec_add_days(cur, (n - i) as nat) == spec_add_days(d, n as nat),
        decreases n - i,
    {
        cur = next_day(cur);
        i = i + 1;
    }
    cur
}

/// Clamp `day` to the length of the month given by `year` and `month`.
pub open spec fn spec_clamp_day(year: int, month: int, day: int) -> int {
    if day <= spec_days_in_month(year, month) {
        day
    } else {
        spec_days_in_month(year, month)
    }
}

/// Advance the month field by `n`, carrying into the year and clamping the
/// day-of-month to the last valid day of the resulting month.
pub open spec fn spec_add_months(d: Date, n: nat) -> Date {
    let total = d.month - 1 + n;
    let year = d.year + total / 12;
    let month = total % 12 + 1;
    Date {
        year: year as u32,
        month: month as u32,
        day: spec_clamp_day(year as int, month as int, d.day as int) as u32,
    }
}

pub fn add_months(d: Date, n: u32) -> (r: Date)
    requires
        1 <= d.month <= 12,
        d.year + n <= u32::MAX,
    ensures
        r == spec_add_months(d, n as nat),
{
    let total: u64 = (d.month - 1) as u64 + n as u64;
    assert(total / 12 <= n) by {
        assert(total <= 11 + n);
        assert((11 + n as u64) / 12 <= n);
    };
    let year: u32 = d.year + (total / 12) as u32;
    let month: u32 = (total % 12) as u32 + 1;
    let dim = days_in_month(year, month);
    let day: u32 = if d.day <= dim {
        d.day
    } else {
        dim
    };
    Date { year, month, day }
}

/// Advance the year field by `n`, clamping the day (February 29 falls back to
/// 28 in a non-leap target year).
pub open spec fn spec_add_years(d: Date, n: nat) -> Date {
    let year = d.year + n;
    Date {
        year: year as u32,
        month: d.month,
        day: spec_clamp_day(year as int, d.month as int, d.day as int) as u32,
    }
}

pub fn add_years(d: Date, n: u32) -> (r: Date)
    requires
        d.year + n <= u32::MAX,
    ensures
        r == spec_add_years(d, n as nat),
{
    let year: u32 = d.year + n;
    let dim = days_in_month(year, d.month);
    let day: u32 = if d.day <= dim {
        d.day
    } else {
        dim
    };
    Date { year, month: d.month, day }
}

/// Day of the week by Zeller's congruence: 0 is Saturday, 1 Sunday, 2 Monday,
/// and so on up to 6 for Friday. The year is shifted by 400 (a full Gregorian
/// cycle, which preserves the weekday) so the January/February adjustment
/// never goes below zero.
pub open spec fn spec_weekday(d: Date) -> int {
    let shifted = d.year + 400;
    let y: int = if d.month < 3 {
        shifted - 1
    } else {
        shifted as int
    };
    let m: int = if d.month < 3 {
        d.month + 12
    } else {
        d.month as int
    };
    let k = y % 100;
    let j = y / 100;
    (d.day + (13 * (m + 1)) / 5 + k + k / 4 + j / 4 + 5 * j) % 7
}

pub fn weekday(d: Date) -> (r: u32)
    requires
        d.month <= 12,
        d.day <= 31,
    ensures
        r == spec_weekday(d),
        r < 7,
{
    let shifted: u64 = d.year as u64 + 400;
    let y: u64 = if d.month < 3 {
        shifted - 1
    } else {
        shifted
    };
    let m: u64 = if d.month < 3 {
        d.month as u64 + 12
    } else {
        d.month as u64
    };
    let k: u64 = y % 100;
    let j: u64 = y / 100;
    ((d.day as u64 + (13 * (m + 1)) / 5 + k + k / 4 + j / 4 + 5 * j) % 7) as u32
}

pub open spec fn spec_is_weekend(d: Date) -> bool {
    spec_weekday(d) == 0 || spec_weekday(d) == 1
}

pub fn is_weekend(d: Date) -> (r: bool)
    requires
        d.month <= 12,
        d.day <= 31,
    ensures
        r == spec_is_weekend(d),
{
    let w = weekday(d);
    w == 0 || w == 1
}

/// The next day that is not a Saturday or Sunday. At most two weekend days
/// can follow each other, so stepping looks at most three days ahead.
pub open spec fn spec_next_business_day(d: Date) -> Date {
    let e = spec_next_day(d);
    if !spec_is_weekend(e) {
        e
    } else {
        let f = spec_next_day(e);
        if !spec_is_weekend(f) {
            f
        } else {
            spec_next_day(f)
        }
    }
}

pub fn next_business_day(d: Date) -> (r: Date)
    requires
        d.year + 3 <= u32::MAX,
        d.day <= 31,
        d.month <= 12,
    ensures
        r == spec_next_business_day(d),
        r.year <= d.year + 3,
        r.day <= 31,
        r.month <= 12,
{
    let e = next_day(d);
    if !is_weekend(e) {
        e
    } else {
        let f = next_day(e);
        if !is_weekend(f) {
            f
        } else {
            next_day(f)
        }
    }
}

pub open spec fn spec_add_business_days(d: Date, n: nat) -> Date
    decreases n,
{
    if n == 0 {
        d
    } else {
        spec_add_business_days(spec_next_business_day(d), (n - 1) as nat)
    }
}

pub fn add_business_days(d: Date, n: u32) -> (r: Date)
    requires
        d.year + 3 * (n as int) <= u32::MAX,
        d.day <= 31,
        d.month <= 12,
    ensures
        r == spec_add_business_days(d, n as nat),
{
    let mut cur: Date = d;
    let mut i: u32 = 0;
    while i < n
        invariant
            i <= n,
            cur.year + 3 * ((n - i) as int) <= u32::MAX,
            cur.day <= 31,
            cur.month <= 12,
            spec_add_business_days(cur, (n - i) as nat) == spec_add_business_days(d, n as nat),
        decreases n - i,
    {
        cur = next_business_day(cur);
        i = i + 1;
    }
    cur
}

pub open spec fn spec_digit_char(n: int) -> char {
    if n == 0 {
        '0'
    } else if n == 1 {
        '1'
    } else if n == 2 {
        '2'
    } else if n == 3 {
        '3'
    } else if n == 4 {
        '4'
    } else if n == 5 {
        '5'
    } else if n == 6 {
        '6'
    } else if n == 7 {
        '7'
    } else if n == 8 {
        '8'
    } else {
        '9'
    }
}

pub open spec fn spec_is_digit(c: char) -> bool {
    '0' <= c <= '9'
}

pub open spec fn spec_char_digit(c: char) -> int {
    c as int - '0' as int
}

pub fn digit_char(n: u32) -> (r: char)
    requires
        n <= 9,
    ensures
        r == spec_digit_char(n as int),
{
    match n {
        0 => '0',
        1 => '1',
        2 => '2',
        3 => '3',
        4 => '4',
        5 => '5',
        6 => '6',
        7 => '7',
        8 => '8',
        _ => '9',
    }
}

/// A date written as `YYYY-MM-DD`: the only date syntax of the line format.
/// The year takes exactly four digits, so only years up to 9999 can be
/// written at all.
pub open spec fn spec_fmt_date(d: Date) -> Seq<char> {
    seq![
        spec_digit_char(d.year as int / 1000 % 10),
        spec_digit_char(d.year as int / 100 % 10),
        spec_digit_char(d.year as int / 10 % 10),
        spec_digit_char(d.year as int % 10),
        '-',
        spec_digit_char(d.month as int / 10 % 10),
        spec_digit_char(d.month as int % 10),
        '-',
        spec_digit_char(d.day as int / 10 % 10),
        spec_digit_char(d.day as int % 10),
    ]
}

pub fn fmt_date(d: Date) -> (r: Vec<char>)
    requires
        d.year <= 9999,
        d.month <= 99,
        d.day <= 99,
    ensures
        r@ == spec_fmt_date(d),
{
    let mut out: Vec<char> = Vec::new();
    out.push(digit_char(d.year / 1000 % 10));
    out.push(digit_char(d.year / 100 % 10));
    out.push(digit_char(d.year / 10 % 10));
    out.push(digit_char(d.year % 10));
    out.push('-');
    out.push(digit_char(d.month / 10 % 10));
    out.push(digit_char(d.month % 10));
    out.push('-');
    out.push(digit_char(d.day / 10 % 10));
    out.push(digit_char(d.day % 10));
    proof {
        assert(out@ =~= spec_fmt_date(d));
    }
    out
}

/// Reads a `YYYY-MM-DD` word. Anything else, and any triple that is not a
/// well-formed calendar date, is no date.
pub open spec fn spec_parse_date(w: Seq<char>) -> Option<Date> {
    if w.len() == 10 && spec_is_digit(w[0]) && spec_is_digit(w[1]) && spec_is_digit(w[2])
        && spec_is_digit(w[3]) && w[4] == '-' && spec_is_digit(w[5]) && spec_is_digit(w[6])
        && w[7] == '-' && spec_is_digit(w[8]) && spec_is_digit(w[9]) {
        let y = spec_char_digit(w[0]) * 1000 + spec_char_digit(w[1]) * 100 + spec_char_digit(w[2])
            * 10 + spec_char_digit(w[3]);
        let m = spec_char_digit(w[5]) * 10 + spec_char_digit(w[6]);
        let d = spec_char_digit(w[8]) * 10 + spec_char_digit(w[9]);
        if 1 <= m <= 12 && 1 <= d <= spec_days_in_month(y, m) {
            Some(Date { year: y as u32, month: m as u32, day: d as u32 })
        } else {
            None
        }
    } else {
        None
    }
}

pub fn char_digit(c: char) -> (r: u32)
    requires
        spec_is_digit(c),
    ensures
        r == spec_char_digit(c),
        r <= 9,
{
    (c as u32) - ('0' as u32)
}

pub fn is_digit(c: char) -> (r: bool)
    ensures
        r == spec_is_digit(c),
{
    '0' <= c && c <= '9'
}

pub fn parse_date(w: &Vec<char>) -> (r: Option<Date>)
    ensures
        r == spec_parse_date(w@),
        r is Some ==> r->Some_0.wf() && r->Some_0.year <= 9999,
{
    if !(w.len() == 10 && is_digit(w[0]) && is_digit(w[1]) && is_digit(w[2]) && is_digit(w[3])
        && w[4] == '-' && is_digit(w[5]) && is_digit(w[6]) && w[7] == '-' && is_digit(w[8])
        && is_digit(w[9])) {
        return None;
    }
    let y: u32 = char_digit(w[0]) * 1000 + char_digit(w[1]) * 100 + char_digit(w[2]) * 10
        + char_digit(w[3]);
    let m: u32 = char_digit(w[5]) * 10 + char_digit(w[6]);
    let d: u32 = char_digit(w[8]) * 10 + char_digit(w[9]);
    if 1 <= m && m <= 12 && 1 <= d && d <= days_in_month(y, m) {
        Some(Date { year: y, month: m, day: d })
    } else {
        None
    }
}

/// Writing a well-formed date and reading the word back yields the same date.
pub proof fn lemma_date_roundtrip(d: Date)
    requires
        d.wf(),
        d.year <= 9999,
    ensures
        spec_parse_date(spec_fmt_date(d)) == Some(d),
{
    let w = spec_fmt_date(d);
    let y = d.year as int;
    let m = d.month as int;
    let dy = d.day as int;
    assert(spec_char_digit(w[0]) == y / 1000 % 10);
    assert(spec_char_digit(w[1]) == y / 100 % 10);
    assert(spec_char_digit(w[2]) == y / 10 % 10);
    assert(spec_char_digit(w[3]) == y % 10);
    assert(y / 1000 % 10 * 1000 + y / 100 % 10 * 100 + y / 10 % 10 * 10 + y % 10 == y)
        by (nonlinear_arith)
        requires
            0 <= y <= 9999,
    ;
    assert(m / 10 % 10 * 10 + m % 10 == m) by (nonlinear_arith)
        requires
            0 <= m <= 99,
    ;
    assert(dy / 10 % 10 * 10 + dy % 10 == dy) by (nonlinear_arith)
        requires
            0 <= dy <= 99,
    ;
}

} // verus!
