//! Civil-calendar arithmetic: proleptic Gregorian dates, epoch-second
//! conversion in both directions, and the `YYYYMMDD` / `YYYYMMDDTHHMMSS`
//! value formats of calendar feeds.

use vstd::prelude::*;
use vstd::string::StrSliceExecFns;
use vstd::string::StringExecFns;

verus! {

pub const SECS_PER_DAY: i64 = 86400;

/// A broken-down civil date and time of day, with no timezone attached.
#[derive(Debug, Clone, Copy, PartialEq, Eq, Structural)]
pub struct DateTimeParts {
    pub year: i32,
    pub month: u32,
    pub day: u32,
    pub hour: u32,
    pub minute: u32,
    pub second: u32,
}

/// Gregorian leap-year rule.
pub open spec fn spec_is_leap(y: int) -> bool {
    (y % 4 == 0 && y % 100 != 0) || y % 400 == 0
}

pub open spec fn spec_days_in_year(y: int) -> int {
    if spec_is_leap(y) {
        366
    } else {
        365
    }
}

pub open spec fn spec_days_in_month(y: int, m: int) -> int {
    if m == 1 {
        31
    } else if m == 2 {
        if spec_is_leap(y) {
            29
        } else {
            28
        }
    } else if m == 3 {
        31
    } else if m == 4 {
        30
    } else if m == 5 {
        31
    } else if m == 6 {
        30
    } else if m == 7 {
        31
    } else if m == 8 {
        31
    } else if m == 9 {
        30
    } else if m == 10 {
        31
    } else if m == 11 {
        30
    } else {
        31
    }
}

/// Days in months `1 .. m` of year `y`.
pub open spec fn spec_days_before_month(y: int, m: int) -> int
    decreases m,
{
    if m <= 1 {
        0
    } else {
        spec_days_before_month(y, m - 1) + spec_days_in_month(y, m - 1)
    }
}

/// Days from 1970-01-01 to the first day of year `y` (negative for earlier
/// years).
pub open spec fn spec_days_before_year(y: int) -> int
    decreases (if y >= 1970 {
        y - 1970
    } else {
        1970 - y
    }),
{
    if y == 1970 {
        0
    } else if y > 1970 {
        spec_days_before_year(y - 1) + spec_days_in_year(y - 1)
    } else {
        spec_days_before_year(y + 1) - spec_days_in_year(y)
    }
}

/// Day number of a civil date, with 1970-01-01 as day zero.
pub open spec fn spec_day_number(y: int, m: int, d: int) -> int {
    spec_days_before_year(y) + spec_days_before_month(y, m) + d - 1
}

/// The epoch second of a civil date and time of day taken as UTC.
pub open spec fn spec_epoch_of(p: DateTimeParts) -> int {
    spec_day_number(p.year as int, p.month as int, p.day as int) * 86400 + p.hour * 3600
        + p.minute * 60 + p.second
}

/// A date that exists in the calendar, within the year range the library
/// supports (the four-digit years of the feed formats).
pub open spec fn spec_valid_date(y: int, m: int, d: int) -> bool {
    &&& 1 <= y <= 9999
    &&& 1 <= m <= 12
    &&& 1 <= d <= spec_days_in_month(y, m)
}

pub open spec fn spec_valid_time(h: int, mi: int, s: int) -> bool {
    &&& 0 <= h < 24
    &&& 0 <= mi < 60
    &&& 0 <= s < 60
}

/// A fully valid broken-down date and time.
pub open spec fn spec_valid_parts(p: DateTimeParts) -> bool {
    &&& spec_valid_date(p.year as int, p.month as int, p.day as int)
    &&& spec_valid_time(p.hour as int, p.minute as int, p.second as int)
}

pub fn is_leap_year(y: i32) -> (r: bool)
    ensures
        r == spec_is_leap(y as int),
{
    (y % 4 == 0 && y % 100 != 0) || y % 400 == 0
}

pub fn days_in_year(y: i32) -> (r: i64)
    ensures
        r == spec_days_in_year(y as int),
{
    if is_leap_year(y) {
        366
    } else {
        365
    }
}

pub fn days_in_month(y: i32, m: u32) -> (r: u32)
    requires
        1 <= m <= 12,
    ensures
        r == spec_days_in_month(y as int, m as int),
        28 <= r <= 31,
{
    if m == 1 {
        31
    } else if m == 2 {
        if is_leap_year(y) {
            29
        } else {
            28
        }
    } else if m == 3 {
        31
    } else if m == 4 {
        30
    } else if m == 5 {
        31
    } else if m == 6 {
        30
    } else if m == 7 {
        31
    } else if m == 8 {
        31
    } else if m == 9 {
        30
    } else if m == 10 {
        31
    } else if m == 11 {
        30
    } else {
        31
    }
}

/// Every year has between 365 and 366 days, and the months of a year sum to
/// its length.
pub proof fn lemma_months_fill_year(y: int, m: int)
    requires
        1 <= m <= 13,
    ensures
        0 <= spec_days_before_month(y, m) <= 31 * (m - 1),
        m == 13 ==> spec_days_before_month(y, m) == spec_days_in_year(y),
    decreases m,
{
    if m > 1 {
        lemma_months_fill_year(y, m - 1);
    }
    if m == 13 {
        assert(spec_days_before_month(y, 13) == spec_days_in_year(y)) by {
            reveal_with_fuel(spec_days_before_month, 14);
        }
    }
}

/// Bounds on the day-number of years in the supported range.
pub proof fn lemma_days_before_year_bounds(y: int)
    requires
        1 <= y <= 10001,
    ensures
        y > 1970 ==> 365 * (y - 1970) <= spec_days_before_year(y) <= 366 * (y - 1970),
        y <= 1970 ==> -366 * (1970 - y) <= spec_days_before_year(y) <= -365 * (1970 - y),
    decreases (if y >= 1970 {
        y - 1970
    } else {
        1970 - y
    }),
{
    if y > 1970 {
        lemma_days_before_year_bounds(y - 1);
    } else if y < 1970 {
        lemma_days_before_year_bounds(y + 1);
    }
}

/// Day number of a valid civil date, 1970-01-01 being day zero.
pub fn day_number(y: i32, m: u32, d: u32) -> (r: i64)
    requires
        spec_valid_date(y as int, m as int, d as int),
    ensures
        r == spec_day_number(y as int, m as int, d as int),
        -721000 <= r <= 2939000,
{
    let mut days: i64 = 0;
    let mut cy: i32 = 1970;
    if y >= 1970 {
        while cy < y
            invariant
                1970 <= cy <= y <= 9999,
                days == spec_days_before_year(cy as int),
                0 <= days <= 366 * (cy - 1970),
            decreases y - cy,
        {
            days = days + days_in_year(cy);
            cy = cy + 1;
        }
    } else {
        while cy > y
            invariant
                1 <= y <= cy <= 1970,
                days == spec_days_before_year(cy as int),
                -366 * (1970 - cy) <= days <= 0,
            decreases cy - y,
        {
            cy = cy - 1;
            days = days - days_in_year(cy);
        }
    }
    let mut cm: u32 = 1;
    let mut mdays: i64 = 0;
    while cm < m
        invariant
            1 <= cm <= m <= 12,
            mdays == spec_days_before_month(y as int, cm as int),
            0 <= mdays <= 31 * (cm - 1),
        decreases m - cm,
    {
        mdays = mdays + days_in_month(y, cm) as i64;
        cm = cm + 1;
    }
    proof {
        lemma_days_before_year_bounds(y as int);
    }
    days + mdays + d as i64 - 1
}

/// Days before the first month never shrink as the month advances.
pub proof fn lemma_days_before_month_mono(y: int, m1: int, m2: int)
    requires
        1 <= m1 <= m2 <= 13,
    ensures
        spec_days_before_month(y, m1) <= spec_days_before_month(y, m2),
    decreases m2 - m1,
{
    if m1 < m2 {
        lemma_days_before_month_mono(y, m1, m2 - 1);
    }
}

/// Days before a year never shrink as the year advances.
pub proof fn lemma_days_before_year_mono(y1: int, y2: int)
    requires
        y1 <= y2,
    ensures
        spec_days_before_year(y1) <= spec_days_before_year(y2),
    decreases y2 - y1,
{
    if y1 < y2 {
        lemma_days_before_year_mono(y1, y2 - 1);
    }
}

/// The epoch second of a valid date and time lies inside its own year.
pub proof fn lemma_epoch_within_year(p: DateTimeParts)
    requires
        spec_valid_parts(p),
    ensures
        spec_days_before_year(p.year as int) * 86400 <= spec_epoch_of(p) < spec_days_before_year(
            p.year as int + 1,
        ) * 86400,
{
    let y = p.year as int;
    let m = p.month as int;
    lemma_months_fill_year(y, m);
    lemma_months_fill_year(y, 13);
    lemma_days_before_month_mono(y, m + 1, 13);
    assert(spec_days_before_month(y, m + 1) == spec_days_before_month(y, m)
        + spec_days_in_month(y, m));
    assert(spec_days_before_month(y, m) + p.day - 1 < spec_days_in_year(y));
    assert(spec_days_before_year(y + 1) == spec_days_before_year(y) + spec_days_in_year(y));
}

/// The broken-down UTC date and time of an epoch second: `Some` exactly when
/// the instant falls within the supported year range, and then the unique
/// valid parts whose epoch second is `t`.
pub fn parts_of_epoch(t: i64) -> (r: Option<DateTimeParts>)
    ensures
        match r {
            Some(p) => spec_valid_parts(p) && spec_epoch_of(p) == t,
            None => forall|p: DateTimeParts|
                spec_valid_parts(p) ==> #[trigger] spec_epoch_of(p) != t,
        },
{
    let mut y: i32 = 1970;
    let mut rem: i64 = t;
    if rem >= 0 {
        while rem >= days_in_year(y) * 86400
            invariant
                1970 <= y <= 9999,
                t == spec_days_before_year(y as int) * 86400 + rem,
                rem >= 0,
            decreases rem,
        {
            if y >= 9999 {
                proof {
                    assert forall|p: DateTimeParts| spec_valid_parts(p) implies #[trigger]
                    spec_epoch_of(p) != t by {
                        lemma_epoch_within_year(p);
                        lemma_days_before_year_mono(p.year as int + 1, 10000);
                    }
                }
                return None;
            }
            rem = rem - days_in_year(y) * 86400;
            y = y + 1;
        }
    } else {
        while rem < 0
            invariant
                1 <= y <= 1970,
                t == spec_days_before_year(y as int) * 86400 + rem,
                rem < spec_days_in_year(y as int) * 86400 || rem < 0,
            decreases (if rem < 0 {
                0 - rem
            } else {
                0
            }),
        {
            if y <= 1 {
                proof {
                    assert forall|p: DateTimeParts| spec_valid_parts(p) implies #[trigger]
                    spec_epoch_of(p) != t by {
                        lemma_epoch_within_year(p);
                        lemma_days_before_year_mono(1, p.year as int);
                    }
                }
                return None;
            }
            y = y - 1;
            rem = rem + days_in_year(y) * 86400;
        }
    }
    let mut day_left: i64 = rem / 86400;
    let tod: i64 = rem % 86400;
    proof {
        assert(rem == 86400 * (rem / 86400) + rem % 86400) by (nonlinear_arith);
        assert(day_left * 86400 <= rem);
        assert(day_left < spec_days_in_year(y as int));
    }
    let ghost day_in_year: int = day_left as int;
    let mut m: u32 = 1;
    while day_left >= days_in_month(y, m) as i64
        invariant
            1 <= m <= 12,
            1 <= y <= 9999,
            day_in_year == spec_days_before_month(y as int, m as int) + day_left,
            day_in_year < spec_days_in_year(y as int),
            day_left >= 0,
        decreases 12 - m,
    {
        proof {
            if m == 12 {
                lemma_months_fill_year(y as int, 13);
                assert(false);
            }
        }
        day_left = day_left - days_in_month(y, m) as i64;
        m = m + 1;
    }
    let p = DateTimeParts {
        year: y,
        month: m,
        day: (day_left + 1) as u32,
        hour: (tod / 3600) as u32,
        minute: ((tod % 3600) / 60) as u32,
        second: (tod % 60) as u32,
    };
    proof {
        assert(tod == 3600 * (tod / 3600) + tod % 3600) by (nonlinear_arith);
        assert(tod % 3600 == 60 * ((tod % 3600) / 60) + (tod % 3600) % 60) by (nonlinear_arith);
        assert((tod % 60) == (tod % 3600) % 60) by (nonlinear_arith);
        assert(spec_valid_parts(p));
        assert(spec_epoch_of(p) == t);
    }
    Some(p)
}

/// The epoch second (UTC) of a valid broken-down date and time.
pub fn epoch_of_parts(p: &DateTimeParts) -> (r: i64)
    requires
        spec_valid_parts(*p),
    ensures
        r == spec_epoch_of(*p),
        -62400000000 <= r <= 254000000000,
    {
    let days = day_number(p.year, p.month, p.day);
    days * 86400 + p.hour as i64 * 3600 + p.minute as i64 * 60 + p.second as i64
}

pub open spec fn spec_is_digit(c: char) -> bool {
    48 <= c as u32 <= 57
}

pub open spec fn spec_digit_val(c: char) -> int {
    c as u32 - 48
}

pub open spec fn spec_all_digits(s: Seq<char>) -> bool {
    forall|i: int| 0 <= i < s.len() ==> spec_is_digit(#[trigger] s[i])
}

/// The numeric value of a string of decimal digits, most significant first.
pub open spec fn spec_num_val(s: Seq<char>) -> int
    decreases s.len(),
{
    if s.len() == 0 {
        0
    } else {
        spec_num_val(s.drop_last()) * 10 + spec_digit_val(s.last())
    }
}

pub open spec fn spec_pow10(n: int) -> int
    decreases n,
{
    if n <= 0 {
        1
    } else {
        10 * spec_pow10(n - 1)
    }
}

/// A run of decimal digits is bounded by the corresponding power of ten.
pub proof fn lemma_num_val_bounds(s: Seq<char>)
    requires
        spec_all_digits(s),
    ensures
        0 <= spec_num_val(s) < spec_pow10(s.len() as int),
    decreases s.len(),
{
    if s.len() > 0 {
        assert(spec_all_digits(s.drop_last()));
        lemma_num_val_bounds(s.drop_last());
    }
}

pub proof fn lemma_pow10_mono(a: int, b: int)
    requires
        a <= b,
    ensures
        spec_pow10(a) <= spec_pow10(b),
    decreases b - a,
{
    if a < b {
        lemma_pow10_mono(a, b - 1);
        if b > 0 {
            assert(spec_pow10(b) == 10 * spec_pow10(b - 1));
            assert(spec_pow10(b - 1) >= 1) by {
                lemma_pow10_pos(b - 1);
            }
        }
    }
}

pub proof fn lemma_pow10_pos(n: int)
    ensures
        spec_pow10(n) >= 1,
    decreases (if n > 0 {
        n
    } else {
        0
    }),
{
    if n > 0 {
        lemma_pow10_pos(n - 1);
    }
}

/// Reads the decimal number in `s[from .. to]`; `None` when any character
/// there is not a digit.
pub fn read_num(s: &str, from: usize, to: usize) -> (r: Option<u32>)
    requires
        from <= to <= s@.len(),
        to - from <= 8,
    ensures
        match r {
            Some(v) => spec_all_digits(s@.subrange(from as int, to as int)) && v == spec_num_val(
                s@.subrange(from as int, to as int),
            ),
            None => !spec_all_digits(s@.subrange(from as int, to as int)),
        },
{
    let mut acc: u32 = 0;
    let mut i: usize = from;
    while i < to
        invariant
            from <= i <= to <= s@.len(),
            to - from <= 8,
            spec_all_digits(s@.subrange(from as int, i as int)),
            acc == spec_num_val(s@.subrange(from as int, i as int)),
            acc < 100000000,
        decreases to - i,
    {
        let c = s.get_char(i);
        let d = c as u32;
        if d < 48 || d > 57 {
            proof {
                assert(s@.subrange(from as int, to as int)[i - from] == c);
            }
            return None;
        }
        proof {
            assert(s@.subrange(from as int, i + 1).drop_last() =~= s@.subrange(
                from as int,
                i as int,
            ));
            assert(s@.subrange(from as int, i + 1).last() == c);
            lemma_num_val_bounds(s@.subrange(from as int, i as int));
            assert(spec_pow10(7) == 10000000) by {
                reveal_with_fuel(spec_pow10, 9);
            }
            if i - from < 7 {
                lemma_pow10_mono(i - from, 7);
            }
        }
        acc = acc * 10 + (d - 48);
        i = i + 1;
    }
    proof {
        assert(s@.subrange(from as int, i as int) =~= s@.subrange(from as int, to as int));
    }
    Some(acc)
}

/// What parsing a `YYYYMMDDTHHMMSS` value yields: the broken-down parts if
/// the shape is right and they name an existing date and time, nothing
/// otherwise.
pub open spec fn spec_parse_datetime(s: Seq<char>) -> Option<DateTimeParts> {
    if s.len() == 15 && s[8] == 'T' && spec_all_digits(s.subrange(0, 8)) && spec_all_digits(
        s.subrange(9, 15),
    ) {
        let p = DateTimeParts {
            year: spec_num_val(s.subrange(0, 4)) as i32,
            month: spec_num_val(s.subrange(4, 6)) as u32,
            day: spec_num_val(s.subrange(6, 8)) as u32,
            hour: spec_num_val(s.subrange(9, 11)) as u32,
            minute: spec_num_val(s.subrange(11, 13)) as u32,
            second: spec_num_val(s.subrange(13, 15)) as u32,
        };
        if spec_valid_parts(p) {
            Some(p)
        } else {
            None
        }
    } else {
        None
    }
}

/// What parsing a `YYYYMMDD` date value yields: the date at midnight if the
/// shape is right and the date exists, nothing otherwise.
pub open spec fn spec_parse_date(s: Seq<char>) -> Option<DateTimeParts> {
    if s.len() == 8 && spec_all_digits(s) {
        let p = DateTimeParts {
            year: spec_num_val(s.subrange(0, 4)) as i32,
            month: spec_num_val(s.subrange(4, 6)) as u32,
            day: spec_num_val(s.subrange(6, 8)) as u32,
            hour: 0,
            minute: 0,
            second: 0,
        };
        if spec_valid_parts(p) {
            Some(p)
        } else {
            None
        }
    } else {
        None
    }
}

/// Parse a `YYYYMMDDTHHMMSS` date-time value of a feed property.
pub fn parse_datetime_value(s: &str) -> (r: Option<DateTimeParts>)
    ensures
        r == spec_parse_datetime(s@),
{
    if s.unicode_len() != 15 {
        return None;
    }
    if s.get_char(8) != 'T' {
        return None;
    }
    let year = read_num(s, 0, 4);
    let month = read_num(s, 4, 6);
    let day = read_num(s, 6, 8);
    let hour = read_num(s, 9, 11);
    let minute = read_num(s, 11, 13);
    let second = read_num(s, 13, 15);
    match (year, month, day, hour, minute, second) {
        (Some(y), Some(mo), Some(d), Some(h), Some(mi), Some(sec)) => {
            proof {
                lemma_digit_subranges_cover(s@);
                lemma_num_val_bounds(s@.subrange(0, 4));
                lemma_num_val_bounds(s@.subrange(4, 6));
                lemma_num_val_bounds(s@.subrange(6, 8));
                lemma_num_val_bounds(s@.subrange(9, 11));
                lemma_num_val_bounds(s@.subrange(11, 13));
                lemma_num_val_bounds(s@.subrange(13, 15));
                assert(spec_pow10(4) == 10000) by {
                    reveal_with_fuel(spec_pow10, 6);
                }
            }
            let p = DateTimeParts {
                year: y as i32,
                month: mo,
                day: d,
                hour: h,
                minute: mi,
                second: sec,
            };
            if p.year < 1 || p.month < 1 || p.month > 12 || p.day < 1 || p.day > days_in_month(
                p.year,
                p.month,
            ) || p.hour > 23 || p.minute > 59 || p.second > 59 {
                None
            } else {
                Some(p)
            }
        },
        _ => {
            proof {
                lemma_digit_subranges_cover(s@);
            }
            None
        },
    }
}

/// Parse a `YYYYMMDD` date value of a feed property.
pub fn parse_date_value(s: &str) -> (r: Option<DateTimeParts>)
    ensures
        r == spec_parse_date(s@),
{
    if s.unicode_len() != 8 {
        return None;
    }
    let year = read_num(s, 0, 4);
    let month = read_num(s, 4, 6);
    let day = read_num(s, 6, 8);
    match (year, month, day) {
        (Some(y), Some(mo), Some(d)) => {
            proof {
                lemma_date_subranges_cover(s@);
                lemma_num_val_bounds(s@.subrange(0, 4));
                lemma_num_val_bounds(s@.subrange(4, 6));
                lemma_num_val_bounds(s@.subrange(6, 8));
                assert(spec_pow10(4) == 10000) by {
                    reveal_with_fuel(spec_pow10, 6);
                }
            }
            let p = DateTimeParts {
                year: y as i32,
                month: mo,
                day: d,
                hour: 0,
                minute: 0,
                second: 0,
            };
            if p.year < 1 || p.month < 1 || p.month > 12 || p.day < 1 || p.day > days_in_month(
                p.year,
                p.month,
            ) {
                None
            } else {
                Some(p)
            }
        },
        _ => {
            proof {
                lemma_date_subranges_cover(s@);
            }
            None
        },
    }
}

pub open spec fn spec_digit_char(d: int) -> char {
    if d == 0 {
        '0'
    } else if d == 1 {
        '1'
    } else if d == 2 {
        '2'
    } else if d == 3 {
        '3'
    } else if d == 4 {
        '4'
    } else if d == 5 {
        '5'
    } else if d == 6 {
        '6'
    } else if d == 7 {
        '7'
    } else if d == 8 {
        '8'
    } else {
        '9'
    }
}

/// A number rendered as exactly two decimal digits.
pub open spec fn spec_format_2(v: int) -> Seq<char> {
    seq![spec_digit_char(v / 10 % 10), spec_digit_char(v % 10)]
}

/// A number rendered as exactly four decimal digits.
pub open spec fn spec_format_4(v: int) -> Seq<char> {
    seq![
        spec_digit_char(v / 1000 % 10),
        spec_digit_char(v / 100 % 10),
        spec_digit_char(v / 10 % 10),
        spec_digit_char(v % 10),
    ]
}

/// The `YYYYMMDDTHHMMSS` rendering of a broken-down date and time.
pub open spec fn spec_format_datetime(p: DateTimeParts) -> Seq<char> {
    spec_format_4(p.year as int) + spec_format_2(p.month as int) + spec_format_2(p.day as int)
        + seq!['T'] + spec_format_2(p.hour as int) + spec_format_2(p.minute as int)
        + spec_format_2(p.second as int)
}

/// The single character of a decimal digit.
pub fn digit_str(d: u32) -> (r: &'static str)
    requires
        d < 10,
    ensures
        r@ =~= seq![spec_digit_char(d as int)],
{
    proof {
        reveal_strlit("0");
        reveal_strlit("1");
        reveal_strlit("2");
        reveal_strlit("3");
        reveal_strlit("4");
        reveal_strlit("5");
        reveal_strlit("6");
        reveal_strlit("7");
        reveal_strlit("8");
        reveal_strlit("9");
    }
    if d == 0 {
        "0"
    } else if d == 1 {
        "1"
    } else if d == 2 {
        "2"
    } else if d == 3 {
        "3"
    } else if d == 4 {
        "4"
    } else if d == 5 {
        "5"
    } else if d == 6 {
        "6"
    } else if d == 7 {
        "7"
    } else if d == 8 {
        "8"
    } else {
        "9"
    }
}

/// Append a number as exactly two decimal digits.
pub fn push_two_digits(out: &mut String, v: u32)
    requires
        v < 100,
    ensures
        final(out)@ == old(out)@ + spec_format_2(v as int),
{
    out.append(digit_str(v / 10));
    out.append(digit_str(v % 10));
    proof {
        assert(final(out)@ =~= old(out)@ + spec_format_2(v as int));
    }
}

/// Append a number as exactly four decimal digits.
pub fn push_four_digits(out: &mut String, v: u32)
    requires
        v < 10000,
    ensures
        final(out)@ == old(out)@ + spec_format_4(v as int),
{
    out.append(digit_str(v / 1000));
    out.append(digit_str(v / 100 % 10));
    out.append(digit_str(v / 10 % 10));
    out.append(digit_str(v % 10));
    proof {
        assert(final(out)@ =~= old(out)@ + spec_format_4(v as int));
    }
}

/// Render a valid broken-down date and time as `YYYYMMDDTHHMMSS`.
pub fn format_datetime_value(p: &DateTimeParts) -> (r: String)
    requires
        spec_valid_parts(*p),
    ensures
        r@ == spec_format_datetime(*p),
{
    let mut out = String::new();
    push_four_digits(&mut out, p.year as u32);
    push_two_digits(&mut out, p.month);
    push_two_digits(&mut out, p.day);
    out.append("T");
    push_two_digits(&mut out, p.hour);
    push_two_digits(&mut out, p.minute);
    push_two_digits(&mut out, p.second);
    proof {
        reveal_strlit("T");
        assert(out@ =~= spec_format_datetime(*p));
    }
    out
}

/// The digit fields of a 15-character date-time value cover its two digit
/// runs exactly.
proof fn lemma_digit_subranges_cover(s: Seq<char>)
    requires
        s.len() == 15,
    ensures
        spec_all_digits(s.subrange(0, 4)) && spec_all_digits(s.subrange(4, 6)) && spec_all_digits(
            s.subrange(6, 8),
        ) <==> spec_all_digits(s.subrange(0, 8)),
        spec_all_digits(s.subrange(9, 11)) && spec_all_digits(s.subrange(11, 13))
            && spec_all_digits(s.subrange(13, 15)) <==> spec_all_digits(s.subrange(9, 15)),
{
    if spec_all_digits(s.subrange(0, 4)) && spec_all_digits(s.subrange(4, 6)) && spec_all_digits(
        s.subrange(6, 8),
    ) {
        assert forall|i: int| 0 <= i < 8 implies spec_is_digit(#[trigger] s.subrange(0, 8)[i]) by {
            if i < 4 {
                assert(s.subrange(0, 8)[i] == s.subrange(0, 4)[i]);
            } else if i < 6 {
                assert(s.subrange(0, 8)[i] == s.subrange(4, 6)[i - 4]);
            } else {
                assert(s.subrange(0, 8)[i] == s.subrange(6, 8)[i - 6]);
            }
        }
    }
    if spec_all_digits(s.subrange(0, 8)) {
        assert forall|i: int| 0 <= i < 4 implies spec_is_digit(#[trigger] s.subrange(0, 4)[i]) by {
            assert(s.subrange(0, 4)[i] == s.subrange(0, 8)[i]);
        }
        assert forall|i: int| 0 <= i < 2 implies spec_is_digit(#[trigger] s.subrange(4, 6)[i]) by {
            assert(s.subrange(4, 6)[i] == s.subrange(0, 8)[i + 4]);
        }
        assert forall|i: int| 0 <= i < 2 implies spec_is_digit(#[trigger] s.subrange(6, 8)[i]) by {
            assert(s.subrange(6, 8)[i] == s.subrange(0, 8)[i + 6]);
        }
    }
    if spec_all_digits(s.subrange(9, 11)) && spec_all_digits(s.subrange(11, 13))
        && spec_all_digits(s.subrange(13, 15)) {
        assert forall|i: int| 0 <= i < 6 implies spec_is_digit(#[trigger] s.subrange(9, 15)[i]) by {
            if i < 2 {
                assert(s.subrange(9, 15)[i] == s.subrange(9, 11)[i]);
            } else if i < 4 {
                assert(s.subrange(9, 15)[i] == s.subrange(11, 13)[i - 2]);
            } else {
                assert(s.subrange(9, 15)[i] == s.subrange(13, 15)[i - 4]);
            }
        }
    }
    if spec_all_digits(s.subrange(9, 15)) {
        assert forall|i: int| 0 <= i < 2 implies spec_is_digit(#[trigger] s.subrange(9, 11)[i]) by {
            assert(s.subrange(9, 11)[i] == s.subrange(9, 15)[i]);
        }
        assert forall|i: int| 0 <= i < 2 implies spec_is_digit(
            #[trigger] s.subrange(11, 13)[i],
        ) by {
            assert(s.subrange(11, 13)[i] == s.subrange(9, 15)[i + 2]);
        }
        assert forall|i: int| 0 <= i < 2 implies spec_is_digit(
            #[trigger] s.subrange(13, 15)[i],
        ) by {
            assert(s.subrange(13, 15)[i] == s.subrange(9, 15)[i + 4]);
        }
    }
}

/// The digit fields of an 8-character date value cover it exactly.
proof fn lemma_date_subranges_cover(s: Seq<char>)
    requires
        s.len() == 8,
    ensures
        spec_all_digits(s.subrange(0, 4)) && spec_all_digits(s.subrange(4, 6)) && spec_all_digits(
            s.subrange(6, 8),
        ) <==> spec_all_digits(s),
{
    if spec_all_digits(s.subrange(0, 4)) && spec_all_digits(s.subrange(4, 6)) && spec_all_digits(
        s.subrange(6, 8),
    ) {
        assert forall|i: int| 0 <= i < 8 implies spec_is_digit(#[trigger] s[i]) by {
            if i < 4 {
                assert(s[i] == s.subrange(0, 4)[i]);
            } else if i < 6 {
                assert(s[i] == s.subrange(4, 6)[i - 4]);
            } else {
                assert(s[i] == s.subrange(6, 8)[i - 6]);
            }
        }
    }
    if spec_all_digits(s) {
        assert forall|i: int| 0 <= i < 4 implies spec_is_digit(#[trigger] s.subrange(0, 4)[i]) by {
            assert(s.subrange(0, 4)[i] == s[i]);
        }
        assert forall|i: int| 0 <= i < 2 implies spec_is_digit(#[trigger] s.subrange(4, 6)[i]) by {
            assert(s.subrange(4, 6)[i] == s[i + 4]);
        }
        assert forall|i: int| 0 <= i < 2 implies spec_is_digit(#[trigger] s.subrange(6, 8)[i]) by {
            assert(s.subrange(6, 8)[i] == s[i + 6]);
        }
    }
}

} // verus!
