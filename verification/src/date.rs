//! Calendar dates and Gregorian date arithmetic.

use vstd::prelude::*;

verus! {

/// The first year a `CalendarDate` may carry.
pub const MIN_YEAR: i32 = 1;

/// The last year a `CalendarDate` may carry.
pub const MAX_YEAR: i32 = 9999;

/// A calendar day: year, month (1..=12), day of month (1..=31).
/// Equality is structural.
#[derive(Clone, Copy, Debug, PartialEq, Eq, Structural)]
pub struct CalendarDate {
    pub year: i32,
    pub month: u8,
    pub day: u8,
}

/// A Gregorian leap year: divisible by 4, except centuries not divisible by 400.
pub open spec fn is_leap_year(y: int) -> bool {
    (y % 4 == 0 && y % 100 != 0) || y % 400 == 0
}

/// How many days the given month of the given year has.
pub open spec fn days_in_month(y: int, m: int) -> int {
    if m == 2 {
        if is_leap_year(y) {
            29
        } else {
            28
        }
    } else if m == 4 || m == 6 || m == 9 || m == 11 {
        30
    } else {
        31
    }
}

/// A well-formed date: month and day in range for its year, year in range.
pub open spec fn valid_date(d: CalendarDate) -> bool {
    &&& MIN_YEAR <= d.year <= MAX_YEAR
    &&& 1 <= d.month <= 12
    &&& 1 <= d.day <= days_in_month(d.year as int, d.month as int)
}

/// Lexicographic order on dates: `a` is strictly earlier than `b`.
pub open spec fn date_lt(a: CalendarDate, b: CalendarDate) -> bool {
    ||| a.year < b.year
    ||| (a.year == b.year && a.month < b.month)
    ||| (a.year == b.year && a.month == b.month && a.day < b.day)
}

/// The first day of `d`'s month.
pub open spec fn first_of_month(d: CalendarDate) -> CalendarDate {
    CalendarDate { year: d.year, month: d.month, day: 1 }
}

/// Year of the month before month `m` of year `y`.
pub open spec fn prev_month_year(y: int, m: int) -> int {
    if m == 1 {
        y - 1
    } else {
        y
    }
}

/// Month number of the month before month `m` of year `y`.
pub open spec fn prev_month_month(y: int, m: int) -> int {
    if m == 1 {
        12
    } else {
        m - 1
    }
}

/// Year of the month after month `m` of year `y`.
pub open spec fn next_month_year(y: int, m: int) -> int {
    if m == 12 {
        y + 1
    } else {
        y
    }
}

/// Month number of the month after month `m` of year `y`.
pub open spec fn next_month_month(y: int, m: int) -> int {
    if m == 12 {
        1
    } else {
        m + 1
    }
}

/// Days in all years strictly before year `y` (year 1 is the first year,
/// so `days_before_year(1) == 0`).
pub open spec fn days_before_year(y: int) -> int {
    let n = y - 1;
    365 * n + n / 4 - n / 100 + n / 400
}

/// Days in the months of year `y` strictly before month `m`.
pub open spec fn days_before_month(y: int, m: int) -> int
    decreases m,
{
    if m <= 1 {
        0
    } else {
        days_before_month(y, m - 1) + days_in_month(y, m - 1)
    }
}

/// Days from January 1 of year 1 (that day itself has index 0).
pub open spec fn day_index(d: CalendarDate) -> int {
    days_before_year(d.year as int) + days_before_month(d.year as int, d.month as int) + d.day - 1
}

/// Weekday of a date, 0 = Sunday .. 6 = Saturday.
/// January 1 of year 1 (day index 0) is a Monday in the proleptic
/// Gregorian calendar, hence the offset of 1.
pub open spec fn weekday_of(d: CalendarDate) -> int {
    (day_index(d) + 1) % 7
}

/// The day after `d`, rolling over month and year ends.
pub open spec fn next_date(d: CalendarDate) -> CalendarDate {
    if d.day < days_in_month(d.year as int, d.month as int) {
        CalendarDate { year: d.year, month: d.month, day: (d.day + 1) as u8 }
    } else if d.month < 12 {
        CalendarDate { year: d.year, month: (d.month + 1) as u8, day: 1 }
    } else {
        CalendarDate { year: (d.year + 1) as i32, month: 1, day: 1 }
    }
}

/// The day before `d`, rolling over month and year starts.
pub open spec fn prev_date(d: CalendarDate) -> CalendarDate {
    if d.day > 1 {
        CalendarDate { year: d.year, month: d.month, day: (d.day - 1) as u8 }
    } else if d.month > 1 {
        CalendarDate {
            year: d.year,
            month: (d.month - 1) as u8,
            day: days_in_month(d.year as int, d.month as int - 1) as u8,
        }
    } else {
        CalendarDate { year: (d.year - 1) as i32, month: 12, day: 31 }
    }
}

/// `d` stepped forward by `n` single days.
pub open spec fn plus_days(d: CalendarDate, n: nat) -> CalendarDate
    decreases n,
{
    if n == 0 {
        d
    } else {
        plus_days(next_date(d), (n - 1) as nat)
    }
}

/// Months since month 1 of year 0; a linear scale on which shifting
/// a date by whole months is plain addition.
pub open spec fn month_index(y: int, m: int) -> int {
    12 * y + m - 1
}

/// Year after shifting month `m` of year `y` by `delta` whole months.
pub open spec fn shifted_year(y: int, m: int, delta: int) -> int {
    (month_index(y, m) + delta) / 12
}

/// Month number after shifting month `m` of year `y` by `delta` whole months.
pub open spec fn shifted_month(y: int, m: int, delta: int) -> int {
    (month_index(y, m) + delta) % 12 + 1
}

/// `d` shifted by `delta` whole months, the day clamped to the last
/// valid day of the target month.
pub open spec fn shifted_date(d: CalendarDate, delta: int) -> CalendarDate {
    let y = shifted_year(d.year as int, d.month as int, delta);
    let m = shifted_month(d.year as int, d.month as int, delta);
    CalendarDate {
        year: y as i32,
        month: m as u8,
        day: if d.day as int <= days_in_month(y, m) {
            d.day
        } else {
            days_in_month(y, m) as u8
        },
    }
}

/// A month a grid can be built for: both adjacent months must also
/// carry representable dates, so the year keeps a step from the bounds.
pub open spec fn month_in_range(d: CalendarDate) -> bool {
    &&& MIN_YEAR < d.year < MAX_YEAR
    &&& 1 <= d.month <= 12
}

/// Well-formedness test for a date.
pub fn is_valid_date(d: CalendarDate) -> (b: bool)
    ensures
        b == valid_date(d),
{
    MIN_YEAR <= d.year && d.year <= MAX_YEAR && 1 <= d.month && d.month <= 12 && 1 <= d.day
        && d.day <= days_in_month_exec(d.year, d.month)
}

/// Leap-year test.
pub fn is_leap_year_exec(y: i32) -> (b: bool)
    requires
        y >= 1,
    ensures
        b == is_leap_year(y as int),
{
    (y % 4 == 0 && y % 100 != 0) || y % 400 == 0
}

/// Day count of a month.
pub fn days_in_month_exec(y: i32, m: u8) -> (d: u8)
    requires
        y >= 1,
        1 <= m <= 12,
    ensures
        d as int == days_in_month(y as int, m as int),
{
    if m == 2 {
        if is_leap_year_exec(y) {
            29
        } else {
            28
        }
    } else if m == 4 || m == 6 || m == 9 || m == 11 {
        30
    } else {
        31
    }
}

/// Weekday of a valid date, 0 = Sunday .. 6 = Saturday.
pub fn weekday_of_exec(d: CalendarDate) -> (w: u8)
    requires
        valid_date(d),
    ensures
        w as int == weekday_of(d),
        w < 7,
{
    let n: u32 = (d.year - 1) as u32;
    let dby: u32 = 365 * n + n / 4 - n / 100 + n / 400;
    let mut dbm: u32 = 0;
    let mut m: u8 = 1;
    while m < d.month
        invariant
            valid_date(d),
            1 <= m <= d.month,
            dbm as int == days_before_month(d.year as int, m as int),
            dbm <= 31 * (m as u32 - 1),
        decreases d.month as int - m as int,
    {
        dbm = dbm + days_in_month_exec(d.year, m) as u32;
        m = m + 1;
    }
    let idx: u32 = dby + dbm + (d.day - 1) as u32;
    ((idx + 1) % 7) as u8
}

/// The day after a valid date; the caller keeps the result in range.
pub fn next_date_exec(d: CalendarDate) -> (r: CalendarDate)
    requires
        valid_date(d),
        !(d.year == MAX_YEAR && d.month == 12 && d.day == 31),
    ensures
        r == next_date(d),
        valid_date(r),
{
    let dim: u8 = days_in_month_exec(d.year, d.month);
    if d.day < dim {
        CalendarDate { year: d.year, month: d.month, day: d.day + 1 }
    } else if d.month < 12 {
        CalendarDate { year: d.year, month: d.month + 1, day: 1 }
    } else {
        CalendarDate { year: d.year + 1, month: 1, day: 1 }
    }
}

/// The day before a valid date; the caller keeps the result in range.
pub fn prev_date_exec(d: CalendarDate) -> (r: CalendarDate)
    requires
        valid_date(d),
        !(d.year == MIN_YEAR && d.month == 1 && d.day == 1),
    ensures
        r == prev_date(d),
        valid_date(r),
{
    if d.day > 1 {
        CalendarDate { year: d.year, month: d.month, day: d.day - 1 }
    } else if d.month > 1 {
        let pdim: u8 = days_in_month_exec(d.year, d.month - 1);
        CalendarDate { year: d.year, month: d.month - 1, day: pdim }
    } else {
        CalendarDate { year: d.year - 1, month: 12, day: 31 }
    }
}

/// `d` shifted by `delta` whole months, the day clamped to the last valid
/// day of the target month; `None` exactly when the target year would
/// leave the representable range.
pub fn shift_months(d: CalendarDate, delta: i32) -> (r: Option<CalendarDate>)
    requires
        valid_date(d),
    ensures
        r is Some <==> MIN_YEAR <= shifted_year(d.year as int, d.month as int, delta as int)
            <= MAX_YEAR,
        r is Some ==> r->0 == shifted_date(d, delta as int) && valid_date(r->0),
{
    let t: i64 = 12 * (d.year as i64) + (d.month as i64) - 1 + (delta as i64);
    if t < 12 * (MIN_YEAR as i64) || t > 12 * (MAX_YEAR as i64) + 11 {
        proof {
            lemma_month_index_div_bounds(t as int);
        }
        return None;
    }
    let tu: u64 = t as u64;
    let y: i32 = (tu / 12) as i32;
    let m: u8 = (tu % 12 + 1) as u8;
    proof {
        lemma_month_index_div_bounds(t as int);
        assert(tu as int == t as int);
        assert(tu as int / 12 == t as int / 12) by (nonlinear_arith)
            requires tu as int == t as int;
        assert(tu as int % 12 == t as int % 12) by (nonlinear_arith)
            requires tu as int == t as int;
    }
    let dim: u8 = days_in_month_exec(y, m);
    let day: u8 = if d.day <= dim {
        d.day
    } else {
        dim
    };
    Some(CalendarDate { year: y, month: m, day })
}

/// On the month-index scale, `MIN_YEAR <= t / 12 <= MAX_YEAR` holds exactly
/// when `t` lies between the first month of `MIN_YEAR` and the last of
/// `MAX_YEAR`; and the quotient and remainder land in year and month range.
proof fn lemma_month_index_div_bounds(t: int)
    ensures
        12 * MIN_YEAR <= t <= 12 * MAX_YEAR + 11 <==> MIN_YEAR <= t / 12 <= MAX_YEAR,
        0 <= t % 12 < 12,
{
    vstd::arithmetic::div_mod::lemma_fundamental_div_mod(t, 12);
    vstd::arithmetic::div_mod::lemma_mod_bound(t, 12);
}

/// For a positive divisor, the quotient grows by one exactly at the
/// multiples of the divisor.
proof fn lemma_div_step(n: int, d: int)
    requires
        d > 0,
    ensures
        n / d - (n - 1) / d == if n % d == 0 {
            1int
        } else {
            0int
        },
{
    vstd::arithmetic::div_mod::lemma_fundamental_div_mod(n, d);
    vstd::arithmetic::div_mod::lemma_mod_bound(n, d);
    let q = n / d;
    let r = n % d;
    if r == 0 {
        assert(n - 1 == (q - 1) * d + (d - 1)) by (nonlinear_arith)
            requires
                n == d * q + r,
                r == 0,
        ;
        vstd::arithmetic::div_mod::lemma_fundamental_div_mod_converse_div(n - 1, d, q - 1, d - 1);
    } else {
        assert(n - 1 == q * d + (r - 1)) by (nonlinear_arith)
            requires
                n == d * q + r,
        ;
        vstd::arithmetic::div_mod::lemma_fundamental_div_mod_converse_div(n - 1, d, q, r - 1);
    }
}

/// A multiple of 400 is a multiple of 100 and of 4; a multiple of 100 is
/// a multiple of 4.
proof fn lemma_divisibility_chain(y: int)
    ensures
        y % 400 == 0 ==> y % 100 == 0 && y % 4 == 0,
        y % 100 == 0 ==> y % 4 == 0,
{
    if y % 400 == 0 {
        vstd::arithmetic::div_mod::lemma_fundamental_div_mod(y, 400);
        let k = y / 400;
        vstd::arithmetic::div_mod::lemma_fundamental_div_mod_converse_mod(y, 100, 4 * k, 0);
        vstd::arithmetic::div_mod::lemma_fundamental_div_mod_converse_mod(y, 4, 100 * k, 0);
    }
    if y % 100 == 0 {
        vstd::arithmetic::div_mod::lemma_fundamental_div_mod(y, 100);
        let k = y / 100;
        vstd::arithmetic::div_mod::lemma_fundamental_div_mod_converse_mod(y, 4, 25 * k, 0);
    }
}

/// The months of a year sum to its day count: 366 in a leap year, 365
/// otherwise.
proof fn lemma_days_in_year(y: int)
    ensures
        days_before_month(y, 13) == if is_leap_year(y) {
            366int
        } else {
            365int
        },
{
    assert(days_before_month(y, 1) == 0);
    assert(days_before_month(y, 2) == 31);
    assert(days_before_month(y, 3) == 31 + days_in_month(y, 2));
    assert(days_before_month(y, 4) == 62 + days_in_month(y, 2));
    assert(days_before_month(y, 5) == 92 + days_in_month(y, 2));
    assert(days_before_month(y, 6) == 123 + days_in_month(y, 2));
    assert(days_before_month(y, 7) == 153 + days_in_month(y, 2));
    assert(days_before_month(y, 8) == 184 + days_in_month(y, 2));
    assert(days_before_month(y, 9) == 215 + days_in_month(y, 2));
    assert(days_before_month(y, 10) == 245 + days_in_month(y, 2));
    assert(days_before_month(y, 11) == 276 + days_in_month(y, 2));
    assert(days_before_month(y, 12) == 306 + days_in_month(y, 2));
    assert(days_before_month(y, 13) == 337 + days_in_month(y, 2));
}

/// A year's days, counted through `days_before_year`, match its length.
proof fn lemma_days_before_year_step(y: int)
    ensures
        days_before_year(y + 1) - days_before_year(y) == if is_leap_year(y) {
            366int
        } else {
            365int
        },
{
    lemma_div_step(y, 4);
    lemma_div_step(y, 100);
    lemma_div_step(y, 400);
    lemma_divisibility_chain(y);
}

/// The day after a date has the next day index.
pub proof fn lemma_day_index_next(d: CalendarDate)
    requires
        valid_date(d),
    ensures
        day_index(next_date(d)) == day_index(d) + 1,
{
    if d.day < days_in_month(d.year as int, d.month as int) {
    } else if d.month < 12 {
        assert(days_before_month(d.year as int, d.month as int + 1) == days_before_month(
            d.year as int,
            d.month as int,
        ) + days_in_month(d.year as int, d.month as int));
    } else {
        lemma_days_in_year(d.year as int);
        lemma_days_before_year_step(d.year as int);
    }
}

/// The day before a date has the previous day index.
pub proof fn lemma_day_index_prev(d: CalendarDate)
    requires
        valid_date(d),
        !(d.year == MIN_YEAR && d.month == 1 && d.day == 1),
    ensures
        valid_date(prev_date(d)),
        next_date(prev_date(d)) == d,
        day_index(prev_date(d)) == day_index(d) - 1,
{
    lemma_day_index_next(prev_date(d));
}

/// Weekdays cycle through the seven-day week: the day after a date has
/// the next weekday.
pub proof fn lemma_weekday_next(d: CalendarDate)
    requires
        valid_date(d),
    ensures
        weekday_of(next_date(d)) == (weekday_of(d) + 1) % 7,
{
    lemma_day_index_next(d);
    let a = day_index(d) + 1;
    vstd::arithmetic::div_mod::lemma_add_mod_noop(a, 1, 7);
    vstd::arithmetic::div_mod::lemma_small_mod(1, 7);
    vstd::arithmetic::div_mod::lemma_mod_twice(a, 7);
}

/// Shifting by `d1` months and then by `d2` lands on the same year and
/// month as shifting once by `d1 + d2`, for any integers `d1` and `d2`.
pub proof fn lemma_shift_additive(y: int, m: int, d1: int, d2: int)
    requires
        1 <= m <= 12,
    ensures
        shifted_year(shifted_year(y, m, d1), shifted_month(y, m, d1), d2) == shifted_year(
            y,
            m,
            d1 + d2,
        ),
        shifted_month(shifted_year(y, m, d1), shifted_month(y, m, d1), d2) == shifted_month(
            y,
            m,
            d1 + d2,
        ),
{
    let t = month_index(y, m) + d1;
    vstd::arithmetic::div_mod::lemma_fundamental_div_mod(t, 12);
    assert(month_index(t / 12, t % 12 + 1) == t);
}

} // verus!
