//! Calendar arithmetic for the real-time clock: dates, time zones, Unix
//! timestamps, and the encoding of dates into the clock's registers.

use vstd::prelude::*;
use crate::text::{push_padded, string_from_chars, zero_padded};
use vstd::arithmetic::div_mod::{
    lemma_fundamental_div_mod_converse,
    lemma_add_mod_noop,
    lemma_mod_bound,
    lemma_fundamental_div_mod,
};

verus! {

// ----------------------------------------------------------------------------
// The calendar model
// ----------------------------------------------------------------------------

/// Gregorian leap-year rule.
pub open spec fn is_leap(y: int) -> bool {
    (y % 4 == 0 && y % 100 != 0) || y % 400 == 0
}

/// Number of days in year `y`.
pub open spec fn year_len(y: int) -> int {
    if is_leap(y) { 366 } else { 365 }
}

/// Number of days in month `m` (1 to 12) of year `y`.
pub open spec fn month_len(y: int, m: int) -> int {
    if m == 2 {
        if is_leap(y) { 29 } else { 28 }
    } else if m == 4 || m == 6 || m == 9 || m == 11 {
        30
    } else {
        31
    }
}

/// Days in the months of year `y` that come before month `m`.
pub open spec fn days_before_month(y: int, m: int) -> int
    decreases m,
{
    if m <= 1 { 0 } else { days_before_month(y, m - 1) + month_len(y, m - 1) }
}

/// Days from 1970-01-01 to the first day of year `y` (negative before 1970).
pub open spec fn days_to_year(y: int) -> int
    decreases (if y >= 1970 { y - 1970 } else { 1970 - y }),
{
    if y == 1970 {
        0
    } else if y > 1970 {
        days_to_year(y - 1) + year_len(y - 1)
    } else {
        days_to_year(y + 1) - year_len(y)
    }
}

/// The day number of a date: days since 1970-01-01. Day 1 of a month is its first
/// day, and a day past the month's end counts on into the following days.
pub open spec fn day_number(y: int, m: int, d: int) -> int {
    days_to_year(y) + days_before_month(y, m) + d - 1
}

/// First day number past the calendar years that a `u16` can hold.
pub open spec fn day_number_limit() -> int {
    day_number(65536, 1, 1)
}

/// Whether a day number falls within the years 0 to 65535.
pub open spec fn day_in_range(n: int) -> bool {
    day_number(0, 1, 1) <= n < day_number_limit()
}

/// Whether `(y, m, d)` names a real calendar day.
pub open spec fn valid_date(y: int, m: int, d: int) -> bool {
    1 <= m <= 12 && 1 <= d <= month_len(y, m)
}

/// Weekday (1 to 7) that follows weekday `w` after `n` days.
pub open spec fn weekday_after(w: int, n: int) -> int {
    (w - 1 + n) % 7 + 1
}

pub proof fn lemma_days_to_year_step(y: int)
    ensures
        days_to_year(y + 1) == days_to_year(y) + year_len(y),
    decreases (if y >= 1970 { y - 1970 } else { 1970 - y }),
{
    if y >= 1970 {
    } else {
        assert(days_to_year(y) == days_to_year(y + 1) - year_len(y));
    }
}

pub proof fn lemma_days_to_year_monotone(a: int, b: int)
    requires
        a <= b,
    ensures
        days_to_year(a) + 365 * (b - a) <= days_to_year(b),
    decreases b - a,
{
    if a < b {
        lemma_days_to_year_monotone(a, b - 1);
        lemma_days_to_year_step(b - 1);
    }
}

pub proof fn lemma_year_months(y: int)
    ensures
        days_before_month(y, 13) == year_len(y),
        days_before_month(y, 12) + 31 == year_len(y),
{
    reveal_with_fuel(days_before_month, 13);
}

pub proof fn lemma_days_before_month_bound(y: int, m: int)
    requires
        m <= 13,
    ensures
        0 <= days_before_month(y, m) <= days_before_month(y, 13),
        days_before_month(y, m) <= 31 * (if m >= 1 { m - 1 } else { 0 }),
    decreases 13 - m,
{
    lemma_days_before_month_nonneg(y, m);
    lemma_days_before_month_nonneg(y, 13);
    if m < 13 {
        lemma_days_before_month_bound(y, m + 1);
    }
    lemma_days_before_month_upper(y, m);
}

proof fn lemma_days_before_month_nonneg(y: int, m: int)
    ensures
        0 <= days_before_month(y, m),
        days_before_month(y, m) <= days_before_month(y, m + 1),
    decreases m,
{
    if m > 1 {
        lemma_days_before_month_nonneg(y, m - 1);
    }
}

proof fn lemma_days_before_month_upper(y: int, m: int)
    ensures
        days_before_month(y, m) <= 31 * (if m >= 1 { m - 1 } else { 0 }),
    decreases m,
{
    if m > 1 {
        lemma_days_before_month_upper(y, m - 1);
    }
}

/// The first day of the month after `m` follows the last day of month `m`.
pub proof fn lemma_next_month(y: int, m: int)
    requires
        1 <= m <= 12,
    ensures
        m < 12 ==> day_number(y, m + 1, 1) == day_number(y, m, 1) + month_len(y, m),
        m == 12 ==> day_number(y + 1, 1, 1) == day_number(y, m, 1) + month_len(y, m),
{
    lemma_days_to_year_step(y);
    lemma_year_months(y);
}

/// Day numbers of the first days of years grow with the year.
pub proof fn lemma_year_start_order(a: int, b: int)
    requires
        a < b,
    ensures
        day_number(a, 1, 1) < day_number(b, 1, 1),
{
    lemma_days_to_year_monotone(a, b);
}

// ----------------------------------------------------------------------------
// Date helpers
// ----------------------------------------------------------------------------

/// Gregorian leap-year rule on a `u16` year.
pub fn is_leap_year(year: u16) -> (b: bool)
    ensures
        b == is_leap(year as int),
{
    (year % 4 == 0 && year % 100 != 0) || (year % 400 == 0)
}

/// Number of days in `month` of `year`.
pub fn days_in_month(year: u16, month: u8) -> (n: u8)
    requires
        1 <= month <= 12,
    ensures
        n == month_len(year as int, month as int),
{
    if month == 2 {
        if is_leap_year(year) { 29 } else { 28 }
    } else if month == 4 || month == 6 || month == 9 || month == 11 {
        30
    } else {
        31
    }
}

/// Splits the seconds of a day into hours, minutes and seconds (each truncated to a byte).
pub fn seconds_to_hms(total_seconds: u32) -> (r: (u8, u8, u8))
    ensures
        r.0 == (total_seconds / 3600) as u8,
        r.1 == ((total_seconds % 3600) / 60) as u8,
        r.2 == ((total_seconds % 3600) % 60) as u8,
{
    let hours = (total_seconds / 3600) as u8;
    let remaining = total_seconds % 3600;
    let minutes = (remaining / 60) as u8;
    let seconds = (remaining % 60) as u8;
    (hours, minutes, seconds)
}

/// Whether `add_days_to_date` can move `(year, month, day, weekday)` by `days_to_add`
/// without leaving the years a `u16` holds or the range of an `i32`.
pub open spec fn add_days_ok(year: u16, month: u8, day: u8, weekday: u8, days_to_add: i32) -> bool {
    &&& 1 <= month <= 12
    &&& day + days_to_add <= i32::MAX
    &&& i32::MIN <= weekday - 1 + days_to_add <= i32::MAX
    &&& day_in_range(day_number(year as int, month as int, day as int) + days_to_add)
}

/// Moves a date by a number of days, forwards or backwards, and its weekday with it.
/// Returns `(year, month, day, weekday)`; the date returned is a valid calendar day.
pub fn add_days_to_date(year: u16, month: u8, day: u8, weekday: u8, days_to_add: i32) -> (r: (
    u16,
    u8,
    u8,
    u8,
))
    requires
        add_days_ok(year, month, day, weekday, days_to_add),
    ensures
        valid_date(r.0 as int, r.1 as int, r.2 as int),
        day_number(r.0 as int, r.1 as int, r.2 as int) == day_number(
            year as int,
            month as int,
            day as int,
        ) + days_to_add,
        r.3 == weekday_after(weekday as int, days_to_add as int),
{
    let ghost target = day_number(year as int, month as int, day as int) + days_to_add;
    let mut new_year = year;
    let mut new_month = month;
    let mut new_day = day as i32;
    let mut new_weekday = weekday as i32;

    let shifted = new_weekday - 1 + days_to_add;
    let m = shifted % 7;
    new_weekday = (m + 7) % 7 + 1;
    proof {
        lemma_weekday_wrap(shifted as int, m as int, new_weekday as int);
    }

    new_day = new_day + days_to_add;

    while new_day > 0
        invariant_except_break
            1 <= new_month <= 12,
            day_number(new_year as int, new_month as int, 1) + new_day - 1 == target,
            day_in_range(target),
        ensures
            1 <= new_month <= 12,
            day_number(new_year as int, new_month as int, 1) + new_day - 1 == target,
            day_in_range(target),
            new_day > 0 ==> new_day <= month_len(new_year as int, new_month as int),
        decreases new_day,
    {
        let days_in_current_month = days_in_month(new_year, new_month) as i32;
        if new_day <= days_in_current_month {
            break;
        }
        proof {
            lemma_next_month(new_year as int, new_month as int);
        }
        new_day = new_day - days_in_current_month;
        if new_month == 12 {
            proof {
                assert(day_number(new_year as int + 1, 1, 1) <= target);
                if new_year as int + 1 >= 65536 {
                    if new_year as int + 1 > 65536 {
                        lemma_year_start_order(65536, new_year as int + 1);
                    }
                }
            }
            new_month = 1;
            new_year = new_year + 1;
        } else {
            new_month = new_month + 1;
        }
    }

    while new_day <= 0
        invariant
            1 <= new_month <= 12,
            day_number(new_year as int, new_month as int, 1) + new_day - 1 == target,
            day_in_range(target),
            new_day > 0 ==> new_day <= month_len(new_year as int, new_month as int),
        decreases (if new_day <= 0 { 1 - new_day } else { 0 }),
    {
        if new_month == 1 {
            proof {
                lemma_next_month(new_year as int - 1, 12);
                if new_year == 0 {
                    assert(target < day_number(0, 1, 1));
                }
            }
            new_month = 12;
            new_year = new_year - 1;
        } else {
            proof {
                lemma_next_month(new_year as int, new_month as int - 1);
            }
            new_month = new_month - 1;
        }
        let days_in_prev_month = days_in_month(new_year, new_month) as i32;
        new_day = new_day + days_in_prev_month;
    }

    (new_year, new_month, new_day as u8, new_weekday as u8)
}

proof fn lemma_weekday_wrap(shifted: int, m: int, w: int)
    requires
        m == shifted % 7 || m == shifted % 7 - 7,
        w == (m + 7) % 7 + 1,
    ensures
        w == shifted % 7 + 1,
{
    lemma_mod_bound(shifted, 7);
}


// ----------------------------------------------------------------------------
// Dates with a time zone
// ----------------------------------------------------------------------------

/// The configured default offset from UTC, in hours.
pub const DEFAULT_TIMEZONE: i8 = 8;

/// A date and time of day, with its offset from UTC in hours.
#[derive(Debug, Clone, Copy, PartialEq, Eq, Structural)]
pub struct DateTime {
    pub year: u16,
    pub month: u8,
    pub day: u8,
    pub hour: u8,
    pub minute: u8,
    pub second: u8,
    pub weekday: u8,
    /// Offset from UTC in hours.
    pub timezone_offset: i8,
}

/// Seconds since midnight of a date's time of day.
pub open spec fn seconds_of_day(dt: DateTime) -> int {
    dt.hour * 3600 + dt.minute * 60 + dt.second
}

/// The day number of a date's calendar fields.
pub open spec fn date_number(dt: DateTime) -> int {
    day_number(dt.year as int, dt.month as int, dt.day as int)
}

/// The moment a date denotes: seconds since 1970-01-01 00:00 UTC.
pub open spec fn instant(dt: DateTime) -> int {
    date_number(dt) * 86400 + seconds_of_day(dt) - dt.timezone_offset * 3600
}

/// Whether `dt` is a real calendar day with a time of day in range.
pub open spec fn well_formed(dt: DateTime) -> bool {
    &&& valid_date(dt.year as int, dt.month as int, dt.day as int)
    &&& dt.hour < 24
    &&& dt.minute < 60
    &&& dt.second < 60
}

/// The day number of the date that `dt` falls on in the zone `tz`.
pub open spec fn zoned_day(dt: DateTime, tz: int) -> int {
    date_number(dt) + (seconds_of_day(dt) - dt.timezone_offset * 3600 + tz * 3600) / 86400
}

/// Whether `dt` can be moved to the zone `tz` within the years a `u16` holds.
pub open spec fn zone_shift_ok(dt: DateTime, tz: int) -> bool {
    1 <= dt.month <= 12 && day_in_range(zoned_day(dt, tz))
}

/// `r` is `dt` moved to the zone `tz`: the same moment, a well-formed date in
/// that zone, and the weekday advanced by the days crossed.
pub open spec fn moved_to_zone(dt: DateTime, r: DateTime, tz: int) -> bool {
    &&& r.timezone_offset == tz
    &&& well_formed(r)
    &&& instant(r) == instant(dt)
    &&& date_number(r) == zoned_day(dt, tz)
    &&& r.weekday == weekday_after(dt.weekday as int, date_number(r) - date_number(dt))
}

impl DateTime {
    /// A date in the default time zone.
    pub fn new(year: u16, month: u8, day: u8, hour: u8, minute: u8, second: u8, weekday: u8) -> (r: Self)
        ensures
            r == (DateTime { year, month, day, hour, minute, second, weekday, timezone_offset: DEFAULT_TIMEZONE }),
    {
        DateTime { year, month, day, hour, minute, second, weekday, timezone_offset: DEFAULT_TIMEZONE }
    }

    /// A date with an explicit offset from UTC.
    pub fn with_timezone(
        year: u16,
        month: u8,
        day: u8,
        hour: u8,
        minute: u8,
        second: u8,
        weekday: u8,
        timezone_offset: i8,
    ) -> (r: Self)
        ensures
            r == (DateTime { year, month, day, hour, minute, second, weekday, timezone_offset }),
    {
        DateTime { year, month, day, hour, minute, second, weekday, timezone_offset }
    }

    /// A date in UTC.
    pub fn new_utc(year: u16, month: u8, day: u8, hour: u8, minute: u8, second: u8, weekday: u8) -> (r: Self)
        ensures
            r == (DateTime { year, month, day, hour, minute, second, weekday, timezone_offset: 0 }),
    {
        DateTime { year, month, day, hour, minute, second, weekday, timezone_offset: 0 }
    }

    /// Seconds since midnight.
    pub fn to_seconds_of_day(&self) -> (s: u32)
        ensures
            s == seconds_of_day(*self),
    {
        (self.hour as u32) * 3600 + (self.minute as u32) * 60 + (self.second as u32)
    }

    /// The same moment in UTC. A date already in UTC is returned unchanged.
    pub fn to_utc(&self) -> (r: Self)
        requires
            self.timezone_offset == 0 || zone_shift_ok(*self, 0),
        ensures
            self.timezone_offset == 0 ==> r == *self,
            self.timezone_offset != 0 ==> moved_to_zone(*self, r, 0),
    {
        if self.timezone_offset == 0 {
            return *self;
        }
        self.shift_zone(0)
    }

    /// The same moment in the zone `timezone_offset`. A date already in that zone
    /// is returned unchanged.
    pub fn to_timezone(&self, timezone_offset: i8) -> (r: Self)
        requires
            timezone_offset == self.timezone_offset || (
                (self.timezone_offset == 0 || zone_shift_ok(*self, 0))
                && zone_shift_ok(*self, timezone_offset as int)),
        ensures
            timezone_offset == self.timezone_offset ==> r == *self,
            timezone_offset != self.timezone_offset ==> moved_to_zone(*self, r, timezone_offset as int),
    {
        if timezone_offset == self.timezone_offset {
            return *self;
        }
        let utc = if self.timezone_offset == 0 {
            *self
        } else {
            self.to_utc()
        };
        if timezone_offset == 0 {
            return utc;
        }
        proof {
            if self.timezone_offset != 0 {
                lemma_zoned_day_compose(*self, utc, timezone_offset as int);
            }
        }
        let r = utc.shift_zone(timezone_offset);
        proof {
            if self.timezone_offset != 0 {
                lemma_weekday_compose(self.weekday as int, date_number(utc) - date_number(*self),
                    date_number(r) - date_number(utc));
            }
        }
        r
    }

    /// The same moment in the configured default time zone.
    pub fn to_local(&self) -> (r: Self)
        requires
            DEFAULT_TIMEZONE == self.timezone_offset || (
                (self.timezone_offset == 0 || zone_shift_ok(*self, 0))
                && zone_shift_ok(*self, DEFAULT_TIMEZONE as int)),
        ensures
            DEFAULT_TIMEZONE == self.timezone_offset ==> r == *self,
            DEFAULT_TIMEZONE != self.timezone_offset ==> moved_to_zone(*self, r, DEFAULT_TIMEZONE as int),
    {
        self.to_timezone(DEFAULT_TIMEZONE)
    }

    /// Moves the date to zone `tz` through its seconds and day count.
    fn shift_zone(&self, tz: i8) -> (r: Self)
        requires
            zone_shift_ok(*self, tz as int),
        ensures
            moved_to_zone(*self, r, tz as int),
    {
        let total_seconds = self.to_seconds_of_day();
        let shifted = total_seconds as i32 - (self.timezone_offset as i32 * 3600) + (tz as i32 * 3600);
        let mut days: i32 = 0;
        let mut sod = shifted;
        while sod < 0
            invariant
                shifted == sod + 86400 * days,
                -200 <= days <= 0,
                sod == shifted || sod < 86400,
                -1_000_000 <= shifted <= 2_000_000,
            decreases (if sod < 0 { 0 - sod } else { 0 }),
        {
            sod = sod + 86400;
            days = days - 1;
        }
        while sod >= 86400
            invariant
                shifted == sod + 86400 * days,
                -200 <= days <= 200,
                sod >= 0,
                sod <= shifted || sod < 86400,
                -1_000_000 <= shifted <= 2_000_000,
            decreases sod,
        {
            sod = sod - 86400;
            days = days + 1;
        }
        proof {
            lemma_fundamental_div_mod_converse(shifted as int, 86400, days as int, sod as int);
            assert(zoned_day(*self, tz as int) == date_number(*self) + days);
            assert(add_days_ok(self.year, self.month, self.day, self.weekday, days));
        }
        let (y, m, d, w) = add_days_to_date(self.year, self.month, self.day, self.weekday, days);
        let (h, mi, s) = seconds_to_hms(sod as u32);
        proof {
            lemma_hms(sod as int);
        }
        let r = Self::with_timezone(y, m, d, h, mi, s, w, tz);
        proof {
            assert(seconds_of_day(r) == sod);
            assert(date_number(r) == date_number(*self) + days);
            assert(instant(r) == (date_number(*self) + days) * 86400 + sod - tz * 3600);
        }
        r
    }

    /// ISO 8601 text with the zone, such as `2024-06-15 14:30:45+08:00`.
    pub fn to_iso8601(&self) -> (s: String)
        requires
            self.timezone_offset != i8::MIN,
        ensures
            s@ == naive_iso8601(*self) + seq![if self.timezone_offset >= 0 { '+' } else { '-' }]
                + zero_padded(abs_hours(self.timezone_offset), 2) + seq![':', '0', '0'],
    {
        let mut out = self.naive_chars();
        let tz_sign = if self.timezone_offset >= 0 { '+' } else { '-' };
        let tz_hours: u8 = if self.timezone_offset >= 0 {
            self.timezone_offset as u8
        } else {
            (0 - self.timezone_offset) as u8
        };
        out.push(tz_sign);
        push_padded(&mut out, tz_hours as u64, 2);
        out.push(':');
        out.push('0');
        out.push('0');
        proof {
            assert(out@ =~= naive_iso8601(*self) + seq![tz_sign] + zero_padded(abs_hours(
                self.timezone_offset,
            ), 2) + seq![':', '0', '0']);
        }
        string_from_chars(&out)
    }

    /// ISO 8601 text without the zone, such as `2024-06-15 14:30:45`.
    pub fn to_naive_iso8601(&self) -> (s: String)
        ensures
            s@ == naive_iso8601(*self),
    {
        let out = self.naive_chars();
        string_from_chars(&out)
    }

    fn naive_chars(&self) -> (out: Vec<char>)
        ensures
            out@ == naive_iso8601(*self),
    {
        let mut out: Vec<char> = Vec::new();
        push_padded(&mut out, self.year as u64, 4);
        out.push('-');
        push_padded(&mut out, self.month as u64, 2);
        out.push('-');
        push_padded(&mut out, self.day as u64, 2);
        out.push(' ');
        push_padded(&mut out, self.hour as u64, 2);
        out.push(':');
        push_padded(&mut out, self.minute as u64, 2);
        out.push(':');
        push_padded(&mut out, self.second as u64, 2);
        proof {
            assert(out@ =~= naive_iso8601(*self));
        }
        out
    }
}

impl Default for DateTime {
    /// 2000-01-01 00:00:00, a Saturday, in the default time zone.
    fn default() -> (r: Self)
        ensures
            r == (DateTime { year: 2000, month: 1, day: 1, hour: 0, minute: 0, second: 0, weekday: 6, timezone_offset: DEFAULT_TIMEZONE }),
    {
        DateTime { year: 2000, month: 1, day: 1, hour: 0, minute: 0, second: 0, weekday: 6, timezone_offset: DEFAULT_TIMEZONE }
    }
}

/// Magnitude of an hour offset.
pub open spec fn abs_hours(tz: i8) -> nat {
    if tz >= 0 { tz as nat } else { (0 - tz) as nat }
}

/// `YYYY-MM-DD HH:MM:SS`, each field zero-padded to its width.
pub open spec fn naive_iso8601(dt: DateTime) -> Seq<char> {
    zero_padded(dt.year as nat, 4) + seq!['-'] + zero_padded(dt.month as nat, 2) + seq!['-']
        + zero_padded(dt.day as nat, 2) + seq![' '] + zero_padded(dt.hour as nat, 2) + seq![':']
        + zero_padded(dt.minute as nat, 2) + seq![':'] + zero_padded(dt.second as nat, 2)
}

proof fn lemma_hms(t: int)
    requires
        0 <= t < 86400,
    ensures
        t / 3600 < 24,
        (t % 3600) / 60 < 60,
        (t % 3600) % 60 < 60,
        (t / 3600) * 3600 + ((t % 3600) / 60) * 60 + (t % 3600) % 60 == t,
{
    lemma_fundamental_div_mod(t, 3600);
    lemma_fundamental_div_mod(t % 3600, 60);
}

proof fn lemma_zoned_day_compose(dt: DateTime, utc: DateTime, tz: int)
    requires
        moved_to_zone(dt, utc, 0),
    ensures
        zoned_day(utc, tz) == zoned_day(dt, tz),
{
    let a = seconds_of_day(dt) - dt.timezone_offset * 3600;
    lemma_fundamental_div_mod(a, 86400);
    assert(date_number(utc) == date_number(dt) + a / 86400);
    assert(seconds_of_day(utc) == a % 86400) by {
        assert(date_number(utc) * 86400 + seconds_of_day(utc) == date_number(dt) * 86400 + a);
    }
    let q = a / 86400;
    let b = a % 86400 + tz * 3600;
    lemma_fundamental_div_mod(b, 86400);
    lemma_fundamental_div_mod_converse(a + tz * 3600, 86400, q + b / 86400, b % 86400);
}

proof fn lemma_weekday_compose(w: int, n1: int, n2: int)
    ensures
        weekday_after(weekday_after(w, n1), n2) == weekday_after(w, n1 + n2),
{
    lemma_add_mod_noop(w - 1 + n1, n2, 7);
    lemma_mod_bound(w - 1 + n1, 7);
    assert((w - 1 + n1) % 7 % 7 == (w - 1 + n1) % 7) by {
        vstd::arithmetic::div_mod::lemma_mod_twice(w - 1 + n1, 7);
    }
    lemma_add_mod_noop(w - 1 + n1, n2, 7);
    vstd::arithmetic::div_mod::lemma_mod_twice(n2, 7);
}


// ----------------------------------------------------------------------------
// Unix timestamps
// ----------------------------------------------------------------------------

/// Days the timestamp counts for a date: the whole years from 1970 (none before it),
/// the months before `month`, and the days before `day`.
pub open spec fn unix_days(dt: DateTime) -> int {
    (if dt.year >= 1970 { days_to_year(dt.year as int) } else { 0 })
        + days_before_month(dt.year as int, dt.month as int) + dt.day - 1
}

/// The Unix timestamp of a date's fields, read as UTC.
pub open spec fn unix_seconds(dt: DateTime) -> int {
    unix_days(dt) * 86400 + seconds_of_day(dt)
}

/// Seconds since 1970-01-01 00:00, reading the date's fields as UTC
/// (its zone offset is not applied).
pub fn datetime_to_unix_timestamp(dt: &DateTime) -> (t: u64)
    requires
        dt.day >= 1,
        dt.month <= 13,
    ensures
        t == unix_seconds(*dt),
{
    let mut days: u64 = 0;
    let mut year: u16 = 1970;
    while year < dt.year
        invariant
            1970 <= year,
            year <= dt.year || year == 1970,
            days == days_to_year(year as int),
            days <= 366 * (year - 1970),
        decreases dt.year - year,
    {
        proof {
            lemma_days_to_year_step(year as int);
        }
        days = days + if is_leap_year(year) { 366 } else { 365 };
        year = year + 1;
    }
    proof {
        if dt.year < 1970 {
            assert(year == 1970);
        }
    }
    let ghost base = days;
    let mut month: u8 = 1;
    while month < dt.month
        invariant
            1 <= month,
            month <= dt.month || month == 1,
            dt.month <= 13,
            days == base + days_before_month(dt.year as int, month as int),
            base <= 366 * 65536,
        decreases dt.month - month,
    {
        proof {
            lemma_days_before_month_bound(dt.year as int, month as int);
        }
        let month_days: u64 = days_in_month(dt.year, month) as u64;
        days = days + month_days;
        month = month + 1;
    }
    proof {
        if dt.month < 1 {
            assert(days_before_month(dt.year as int, dt.month as int) == 0);
            assert(month == 1);
        }
        lemma_days_before_month_bound(dt.year as int, dt.month as int);
    }
    days = days + (dt.day - 1) as u64;
    let seconds = days * 86400 + (dt.hour as u64) * 3600 + (dt.minute as u64) * 60 + (dt.second as u64);
    seconds
}

/// The configured default offset from UTC, in hours.
pub fn default_timezone() -> (tz: i8)
    ensures
        tz == DEFAULT_TIMEZONE,
{
    DEFAULT_TIMEZONE
}

/// A UTC timestamp moved by the default offset, with the wrap-around of
/// the two's-complement casts the computation goes through.
pub fn utc_to_local_timestamp(utc_timestamp: u64) -> (t: u64)
    requires
        i64::MIN <= (utc_timestamp as i64) + DEFAULT_TIMEZONE * 3600 <= i64::MAX,
    ensures
        t == ((utc_timestamp as i64) + DEFAULT_TIMEZONE * 3600) as u64,
{
    (utc_timestamp as i64 + (DEFAULT_TIMEZONE as i64 * 3600)) as u64
}

/// A local timestamp moved back to UTC by the default offset, with the wrap-around
/// of the two's-complement casts the computation goes through.
pub fn local_to_utc_timestamp(local_timestamp: u64) -> (t: u64)
    requires
        i64::MIN <= (local_timestamp as i64) - DEFAULT_TIMEZONE * 3600 <= i64::MAX,
    ensures
        t == ((local_timestamp as i64) - DEFAULT_TIMEZONE * 3600) as u64,
{
    (local_timestamp as i64 - (DEFAULT_TIMEZONE as i64 * 3600)) as u64
}

/// For timestamps that stay within `0..=i64::MAX`, converting to local time and back
/// gives the timestamp back.
pub proof fn lemma_local_utc_round_trip(ts: u64)
    requires
        ts <= i64::MAX,
        0 <= ts + DEFAULT_TIMEZONE * 3600 <= i64::MAX,
    ensures
        ((((ts as i64) + DEFAULT_TIMEZONE * 3600) as u64) as i64 - DEFAULT_TIMEZONE * 3600) as u64 == ts,
{
}

/// The timestamp of a well-formed date from 1970 on is its moment plus its zone offset:
/// the fields are read as UTC.
pub proof fn lemma_timestamp_is_instant(dt: DateTime)
    requires
        dt.year >= 1970,
    ensures
        unix_seconds(dt) == instant(dt) + dt.timezone_offset * 3600,
{
}

/// Converting a date to UTC keeps its Unix timestamp minus the zone offset, when
/// both dates fall in 1970 or later.
pub proof fn lemma_to_utc_keeps_moment(dt: DateTime, utc: DateTime)
    requires
        moved_to_zone(dt, utc, 0),
        dt.year >= 1970,
        utc.year >= 1970,
    ensures
        unix_seconds(utc) == unix_seconds(dt) - dt.timezone_offset * 3600,
{
}

// ----------------------------------------------------------------------------
// Clock registers
// ----------------------------------------------------------------------------

/// How the clock encodes its values (from status register B) and whether it
/// has a century register.
#[derive(Debug, Clone, Copy, PartialEq, Eq, Structural)]
pub struct Rtc {
    /// Whether the century register is present.
    pub has_century_register: bool,
}

/// The raw values of the clock's time registers.
#[derive(Debug, Clone, Copy, PartialEq, Eq, Structural)]
pub struct RtcRegisters {
    pub second: u8,
    pub minute: u8,
    pub hour: u8,
    pub day: u8,
    pub month: u8,
    pub year: u8,
    pub weekday: u8,
    /// The century register, or 0 where there is none.
    pub century: u8,
}

/// The values to write to the clock's time registers; `century` is `None` when
/// the century register is not to be written.
#[derive(Debug, Clone, Copy, PartialEq, Eq, Structural)]
pub struct RtcWrite {
    pub second: u8,
    pub minute: u8,
    pub hour: u8,
    pub weekday: u8,
    pub day: u8,
    pub month: u8,
    pub year: u8,
    pub century: Option<u8>,
}

/// The binary value of a BCD byte: ten times the high nibble plus the low nibble.
pub open spec fn bcd_value(b: u8) -> u8 {
    ((b / 16) * 10 + b % 16) as u8
}

/// The BCD byte for `v`: its tens in the high nibble and its units in the low one
/// (the tens truncated to four bits).
pub open spec fn bcd_byte(v: int) -> u8 {
    (((v / 10) * 16) % 256 + v % 10) as u8
}

/// A register value read as BCD or binary.
pub open spec fn register_value(b: u8, is_bcd: bool) -> u8 {
    if is_bcd { bcd_value(b) } else { b }
}

/// The hour a clock register holds after format conversion: bit 7 (the
/// afternoon mark in 12-hour mode, unused otherwise) is taken off before the
/// rest is read as BCD or binary.
pub open spec fn decoded_hour(raw: u8, is_bcd: bool, is_12_hour: bool) -> u8 {
    let h = register_value((raw % 128) as u8, is_bcd);
    if is_12_hour {
        let pm = raw >= 128;
        let h12 = h;
        if h12 == 12 {
            if pm { 12 } else { 0 }
        } else if pm {
            (h12 + 12) as u8
        } else {
            h12 as u8
        }
    } else {
        h
    }
}

/// The full year that the year and century registers denote.
pub open spec fn decoded_year(year: u8, century: u8, is_bcd: bool, has_century: bool) -> u16 {
    let y = register_value(year, is_bcd);
    if has_century && century != 0 {
        let c = register_value(century, is_bcd);
        (c * 100 + y) as u16
    } else if y < 80 {
        (2000 + y) as u16
    } else {
        (1900 + y) as u16
    }
}

/// The date that a set of register values denotes, in UTC.
pub open spec fn decoded_datetime(regs: RtcRegisters, is_bcd: bool, is_12_hour: bool, has_century: bool) -> DateTime {
    DateTime {
        year: decoded_year(regs.year, regs.century, is_bcd, has_century),
        month: register_value(regs.month, is_bcd),
        day: register_value(regs.day, is_bcd),
        hour: decoded_hour(regs.hour, is_bcd, is_12_hour),
        minute: register_value(regs.minute, is_bcd),
        second: register_value(regs.second, is_bcd),
        weekday: regs.weekday,
        timezone_offset: 0,
    }
}

/// A register value: BCD or binary.
pub open spec fn encoded_value(v: int, is_bcd: bool) -> u8 {
    if is_bcd { bcd_byte(v) } else { v as u8 }
}

/// The hour register for a 24-hour value; in 12-hour mode the afternoon bit is bit 7.
pub open spec fn encoded_hour(h: u8, is_bcd: bool, is_12_hour: bool) -> u8 {
    if is_12_hour {
        if h == 0 {
            encoded_value(12, is_bcd)
        } else if h < 12 {
            encoded_value(h as int, is_bcd)
        } else if h == 12 {
            (encoded_value(12, is_bcd) + 128) as u8
        } else {
            (encoded_value(h - 12, is_bcd) % 128 + 128) as u8
        }
    } else {
        encoded_value(h as int, is_bcd)
    }
}

/// The register values that store a UTC date.
pub open spec fn encoded_registers(u: DateTime, is_bcd: bool, is_12_hour: bool, has_century: bool) -> RtcWrite {
    RtcWrite {
        second: encoded_value(u.second as int, is_bcd),
        minute: encoded_value(u.minute as int, is_bcd),
        hour: encoded_hour(u.hour, is_bcd, is_12_hour),
        weekday: u.weekday,
        day: encoded_value(u.day as int, is_bcd),
        month: encoded_value(u.month as int, is_bcd),
        year: encoded_value((u.year % 100) as int, is_bcd),
        century: if has_century { Some(encoded_value(((u.year / 100) % 256) as int, is_bcd)) } else { None },
    }
}

fn bcd_encode(v: u8) -> (b: u8)
    ensures
        b == bcd_byte(v as int),
{
    // The tens go to the high nibble (keeping its four bits), the units to the low one.
    let tens = (v / 10) as u32;
    let units = (v % 10) as u32;
    ((tens * 16) % 256 + units) as u8
}

impl Rtc {
    /// Converts a BCD byte to binary.
    pub fn bcd_to_binary(bcd: u8) -> (v: u8)
        ensures
            v == bcd_value(bcd),
    {
        // High nibble times ten plus low nibble.
        ((bcd / 16) * 10) + (bcd % 16)
    }

    /// The UTC date that raw register values denote, given the clock's format
    /// (BCD or binary, 12- or 24-hour). Years without a century register are
    /// read as 1980 to 2079.
    pub fn datetime_from_registers(&self, regs: RtcRegisters, is_bcd: bool, is_12_hour: bool) -> (dt: DateTime)
        ensures
            dt == decoded_datetime(regs, is_bcd, is_12_hour, self.has_century_register),
    {
        let mut second = regs.second;
        let mut minute = regs.minute;
        let mut hour = regs.hour;
        let mut day = regs.day;
        let mut month = regs.month;
        let mut year = regs.year;
        let century = if self.has_century_register { regs.century } else { 0 };
        // Bit 7 of the hour marks the afternoon in 12-hour mode and is unused
        // otherwise; it is taken off before the hour is decoded.
        let is_pm = hour >= 0x80;
        hour = hour % 0x80;
        if is_bcd {
            second = Self::bcd_to_binary(second);
            minute = Self::bcd_to_binary(minute);
            hour = Self::bcd_to_binary(hour);
            day = Self::bcd_to_binary(day);
            month = Self::bcd_to_binary(month);
            year = Self::bcd_to_binary(year);
        }
        if is_12_hour {
            if hour == 12 {
                if !is_pm {
                    hour = 0;
                }
            } else if is_pm {
                hour = hour + 12;
            }
        }
        let full_year: u16 = if self.has_century_register && century != 0 {
            let century_bin = if is_bcd { Self::bcd_to_binary(century) } else { century };
            (century_bin as u16 * 100) + year as u16
        } else {
            if year < 80 {
                2000 + year as u16
            } else {
                1900 + year as u16
            }
        };
        DateTime::new_utc(full_year, month, day, hour, minute, second, regs.weekday)
    }

    /// The register values that store `dt`, after it is moved to UTC, in the
    /// clock's format; the century is included only when the clock has the register.
    pub fn registers_for_datetime(&self, dt: &DateTime, is_bcd: bool, is_12_hour: bool) -> (w: RtcWrite)
        requires
            dt.timezone_offset == 0 || zone_shift_ok(*dt, 0),
        ensures
            dt.timezone_offset == 0 ==> w == encoded_registers(*dt, is_bcd, is_12_hour, self.has_century_register),
            dt.timezone_offset != 0 ==> exists|u: DateTime| moved_to_zone(*dt, u, 0)
                && w == encoded_registers(u, is_bcd, is_12_hour, self.has_century_register),
    {
        let u = if dt.timezone_offset == 0 { *dt } else { dt.to_utc() };
        let enc = |v: u8| -> (r: u8)
            ensures
                r == encoded_value(v as int, is_bcd),
            {
                if is_bcd { bcd_encode(v) } else { v }
            };
        let hour = if is_12_hour {
            if u.hour == 0 {
                enc(12)
            } else if u.hour < 12 {
                enc(u.hour)
            } else if u.hour == 12 {
                let h = enc(12);
                assert(h < 128) by {
                    if is_bcd {
                        assert(bcd_byte(12) == 18);
                    }
                }
                h + 0x80
            } else {
                let h = enc(u.hour - 12);
                // Set bit 7, the afternoon mark.
                h % 0x80 + 0x80
            }
        } else {
            enc(u.hour)
        };
        let year_low = (u.year % 100) as u8;
        let century_val = ((u.year / 100) % 256) as u8;
        let century = if self.has_century_register { Some(enc(century_val)) } else { None };
        RtcWrite {
            second: enc(u.second),
            minute: enc(u.minute),
            hour,
            weekday: u.weekday,
            day: enc(u.day),
            month: enc(u.month),
            year: enc(year_low),
            century,
        }
    }
}

/// Reading back what was written gives the date back, for a well-formed UTC date
/// whose year the clock can tell apart: years 100 to 9999 with a century register,
/// 1980 to 2079 without one.
#[verifier::rlimit(50)]
pub proof fn lemma_registers_round_trip(u: DateTime, is_bcd: bool, is_12_hour: bool, has_century: bool)
    requires
        well_formed(u),
        u.timezone_offset == 0,
        has_century ==> 100 <= u.year <= 9999,
        !has_century ==> 1980 <= u.year <= 2079,
    ensures
        ({
            let w = encoded_registers(u, is_bcd, is_12_hour, has_century);
            let regs = RtcRegisters {
                second: w.second,
                minute: w.minute,
                hour: w.hour,
                day: w.day,
                month: w.month,
                year: w.year,
                weekday: w.weekday,
                century: match w.century { Some(c) => c, None => 0 },
            };
            decoded_datetime(regs, is_bcd, is_12_hour, has_century) == u
        }),
{
    let w = encoded_registers(u, is_bcd, is_12_hour, has_century);
    let century = match w.century { Some(c) => c, None => 0 };
    assert(u.day <= 31 && u.month <= 12);
    lemma_value_round_trip(u.second as int, is_bcd);
    lemma_value_round_trip(u.minute as int, is_bcd);
    lemma_value_round_trip(u.day as int, is_bcd);
    lemma_value_round_trip(u.month as int, is_bcd);
    lemma_hour_round_trip(u.hour, is_bcd, is_12_hour);
    lemma_year_round_trip(u.year, w.year, century, is_bcd, has_century);
}

proof fn lemma_year_round_trip(year: u16, y: u8, century: u8, is_bcd: bool, has_century: bool)
    requires
        has_century ==> 100 <= year <= 9999,
        !has_century ==> 1980 <= year <= 2079,
        y == encoded_value((year % 100) as int, is_bcd),
        has_century ==> century == encoded_value(((year / 100) % 256) as int, is_bcd),
    ensures
        decoded_year(y, century, is_bcd, has_century) == year,
{
    lemma_value_round_trip((year % 100) as int, is_bcd);
    assert(register_value(y, is_bcd) == year % 100);
    if has_century {
        let c = ((year / 100) % 256) as int;
        assert(year / 100 < 100);
        assert(c == year / 100);
        lemma_value_round_trip(c, is_bcd);
        assert(register_value(century, is_bcd) == c);
        assert(century != 0);
        assert(c * 100 + year % 100 == year) by {
            lemma_fundamental_div_mod(year as int, 100);
        }
    } else if year >= 2000 {
        assert(year % 100 == year - 2000);
    } else {
        assert(year % 100 == year - 1900);
    }
}

proof fn lemma_bcd_round_trip(v: int)
    requires
        0 <= v < 100,
    ensures
        bcd_value(bcd_byte(v)) == v,
        bcd_byte(v) < 160,
{
    lemma_fundamental_div_mod(v, 10);
    let b = bcd_byte(v) as int;
    assert(b == (v / 10) * 16 + v % 10);
    lemma_fundamental_div_mod_converse(b, 16, v / 10, v % 10);
}

proof fn lemma_value_round_trip(v: int, is_bcd: bool)
    requires
        0 <= v < 100,
    ensures
        register_value(encoded_value(v, is_bcd), is_bcd) == v,
        encoded_value(v, is_bcd) < 160,
        encoded_value(v, is_bcd) != 0 <==> v != 0,
{
    if is_bcd {
        lemma_bcd_round_trip(v);
    }
}

proof fn lemma_hour_round_trip(h: u8, is_bcd: bool, is_12_hour: bool)
    requires
        h < 24,
    ensures
        decoded_hour(encoded_hour(h, is_bcd, is_12_hour), is_bcd, is_12_hour) == h,
{
    lemma_value_round_trip(h as int, is_bcd);
    lemma_value_round_trip(12, is_bcd);
    if is_12_hour && h > 12 {
        lemma_value_round_trip(h - 12, is_bcd);
    }
}

} // verus!
