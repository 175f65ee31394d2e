//! The proleptic Gregorian calendar, and the timestamps written with it.
//!
//! Written out rather than pulled in: the one thing wanted here is the calendar
//! arithmetic, and a date library would bring a timezone database along.

#[allow(unused_imports)]
use vstd::arithmetic::div_mod::{lemma_fundamental_div_mod, lemma_fundamental_div_mod_converse};
use vstd::prelude::*;

use crate::text;
#[allow(unused_imports)]
use crate::text::{digits, limit, number, padded, padded_signed, sorts_before};

verus! {

/// Seconds in one day.
pub const SECS_PER_DAY: i64 = 86_400;

/// Whether `year` has a 29 February.
pub open spec fn is_leap(year: int) -> bool {
    year % 4 == 0 && (year % 100 != 0 || year % 400 == 0)
}

/// How many days `month` of `year` has.
pub open spec fn days_in_month(year: int, month: int) -> int {
    if month == 2 {
        if is_leap(year) {
            29
        } else {
            28
        }
    } else if month == 4 || month == 6 || month == 9 || month == 11 {
        30
    } else {
        31
    }
}

/// How many days of `year` lie before `month`.
pub open spec fn days_before_month(year: int, month: int) -> int
    decreases month,
{
    if month <= 1 {
        0
    } else {
        days_before_month(year, month - 1) + days_in_month(year, month - 1)
    }
}

/// Leap years from year 1 up to, and not counting, `year` (negative before
/// year 1).
pub open spec fn leaps_before(year: int) -> int {
    (year - 1) / 4 - (year - 1) / 100 + (year - 1) / 400
}

/// Whether the three numbers are a date.
pub open spec fn is_date(year: int, month: int, day: int) -> bool {
    1 <= month <= 12 && 1 <= day <= days_in_month(year, month)
}

/// The number of days from 1 January 1970 to the first day of `year`.
pub open spec fn year_start(year: int) -> int {
    365 * (year - 1970) + leaps_before(year) - leaps_before(1970)
}

/// The number of days from 1 January 1970 to a date.
#[verifier::opaque]
pub open spec fn days_from_civil(year: int, month: int, day: int) -> int {
    year_start(year) + days_before_month(year, month) + (day - 1)
}

/// Calendar order.
pub open spec fn date_before(y1: int, m1: int, d1: int, y2: int, m2: int, d2: int) -> bool {
    y1 < y2 || (y1 == y2 && (m1 < m2 || (m1 == m2 && d1 < d2)))
}

/// The days before each month, in figures.
proof fn lemma_month_starts(year: int)
    ensures
        days_before_month(year, 1) == 0,
        days_before_month(year, 2) == 31,
        ({
            let leap: int = if is_leap(year) { 1 } else { 0 };
            &&& days_before_month(year, 3) == 59 + leap
            &&& days_before_month(year, 4) == 90 + leap
            &&& days_before_month(year, 5) == 120 + leap
            &&& days_before_month(year, 6) == 151 + leap
            &&& days_before_month(year, 7) == 181 + leap
            &&& days_before_month(year, 8) == 212 + leap
            &&& days_before_month(year, 9) == 243 + leap
            &&& days_before_month(year, 10) == 273 + leap
            &&& days_before_month(year, 11) == 304 + leap
            &&& days_before_month(year, 12) == 334 + leap
        }),
{
    reveal_with_fuel(days_before_month, 13);
}

/// A year is as long as its leap day makes it.
proof fn lemma_year_length(year: int)
    ensures
        year_start(year + 1) - year_start(year) == if is_leap(year) {
            366int
        } else {
            365int
        },
{
}

/// Later years start later.
proof fn lemma_year_starts_grow(a: int, b: int)
    requires
        a <= b,
    ensures
        year_start(a) <= year_start(b),
    decreases b - a,
{
    if a < b {
        lemma_year_starts_grow(a, b - 1);
        lemma_year_length(b - 1);
    }
}

/// A date lies inside its year.
proof fn lemma_date_in_year(y: int, m: int, d: int)
    requires
        is_date(y, m, d),
    ensures
        year_start(y) <= days_from_civil(y, m, d) < year_start(y + 1),
{
    reveal(days_from_civil);
    lemma_month_starts(y);
    lemma_year_length(y);
}

/// Days are counted in calendar order: an earlier date is fewer days after the
/// epoch.
pub proof fn earlier_dates_are_fewer_days_away(
    y1: int,
    m1: int,
    d1: int,
    y2: int,
    m2: int,
    d2: int,
)
    requires
        is_date(y1, m1, d1),
        is_date(y2, m2, d2),
        date_before(y1, m1, d1, y2, m2, d2),
    ensures
        days_from_civil(y1, m1, d1) < days_from_civil(y2, m2, d2),
{
    lemma_date_in_year(y1, m1, d1);
    lemma_date_in_year(y2, m2, d2);
    if y1 < y2 {
        lemma_year_starts_grow(y1 + 1, y2);
    } else {
        reveal(days_from_civil);
        lemma_month_starts(y1);
    }
}

/// No two dates are the same number of days from the epoch.
pub proof fn a_day_has_one_date(y1: int, m1: int, d1: int, y2: int, m2: int, d2: int)
    requires
        is_date(y1, m1, d1),
        is_date(y2, m2, d2),
        days_from_civil(y1, m1, d1) == days_from_civil(y2, m2, d2),
    ensures
        y1 == y2,
        m1 == m2,
        d1 == d2,
{
    if date_before(y1, m1, d1, y2, m2, d2) {
        earlier_dates_are_fewer_days_away(y1, m1, d1, y2, m2, d2);
    } else if date_before(y2, m2, d2, y1, m1, d1) {
        earlier_dates_are_fewer_days_away(y2, m2, d2, y1, m1, d1);
    }
}

/// Splitting a 400-year cycle into years that begin on 1 March.
proof fn lemma_year_of_era(doe: int)
    requires
        0 <= doe < 146_097,
    ensures
        ({
            let yoe = (doe - doe / 1_460 + doe / 36_524 - doe / 146_096) / 365;
            let doy = doe - (365 * yoe + yoe / 4 - yoe / 100);
            &&& 0 <= yoe < 400
            &&& 0 <= doy <= 365
            &&& doy == 365 ==> is_leap(yoe + 1)
        }),
{
}

/// Adding `n` times the divisor adds `n` to the quotient.
proof fn lemma_shift(x: int, d: int, n: int)
    requires
        d > 0,
    ensures
        (x + n * d) / d == x / d + n,
        (x + n * d) % d == x % d,
{
    lemma_fundamental_div_mod(x, d);
    assert((x / d + n) * d + x % d == x + n * d) by (nonlinear_arith)
        requires
            x == d * (x / d) + x % d,
    ;
    lemma_fundamental_div_mod_converse(x + n * d, d, x / d + n, x % d);
}

/// The calendar repeats every 400 years.
proof fn lemma_cycle(year: int, era: int)
    ensures
        is_leap(year + 400 * era) == is_leap(year),
        year_start(year + 400 * era) == year_start(year) + 146_097 * era,
{
    lemma_shift(year, 4, 100 * era);
    lemma_shift(year, 100, 4 * era);
    lemma_shift(year, 400, era);
    lemma_shift(year - 1, 4, 100 * era);
    lemma_shift(year - 1, 100, 4 * era);
    lemma_shift(year - 1, 400, era);
}

/// The date on day `doy` of the year that begins on 1 March of `yoe`.
pub open spec fn date_in_year(yoe: int, doy: int) -> (int, int, int) {
    let mp = (5 * doy + 2) / 153;
    let d = doy - (153 * mp + 2) / 5 + 1;
    let m = if mp < 10 {
        mp + 3
    } else {
        mp - 9
    };
    (if m <= 2 {
        yoe + 1
    } else {
        yoe
    }, m, d)
}

/// Inside the first cycle the date found is a date, and on the right day.
proof fn lemma_date_in_year_is_right(yoe: int, doy: int)
    requires
        0 <= yoe < 400,
        0 <= doy <= 365,
        doy == 365 ==> is_leap(yoe + 1),
    ensures
        ({
            let (y, m, d) = date_in_year(yoe, doy);
            &&& is_date(y, m, d)
            &&& days_from_civil(y, m, d) == 365 * yoe + yoe / 4 - yoe / 100 + doy - 719_468
        }),
{
    reveal(days_from_civil);
    let (y, m, d) = date_in_year(yoe, doy);
    lemma_month_starts(y);
    let mp = (5 * doy + 2) / 153;
    assert(0 <= mp <= 11);
    assert(leaps_before(1970) == 477);
    if m <= 2 {
        assert(leaps_before(y) == yoe / 4 - yoe / 100 + yoe / 400);
        assert(yoe / 400 == 0);
    } else {
        assert(leaps_before(y) == (yoe - 1) / 4 - (yoe - 1) / 100 + (yoe - 1) / 400);
        if yoe == 0 {
            assert(is_leap(yoe));
        } else {
            let leap: int = if is_leap(yoe) {
                1
            } else {
                0
            };
            assert((yoe - 1) / 400 == 0);
            assert(yoe / 4 - yoe / 100 == (yoe - 1) / 4 - (yoe - 1) / 100 + leap);
        }
    }
}

/// The date `days` days after 1 January 1970.
pub fn civil_from_days(days: i64) -> (date: (i64, i64, i64))
    requires
        days <= i64::MAX - 719_468,
    ensures
        is_date(date.0 as int, date.1 as int, date.2 as int),
        days_from_civil(date.0 as int, date.1 as int, date.2 as int) == days,
{
    let z: i64 = days + 719_468;
    // Rounded down, before the epoch of the cycles as after it.
    let era: i64 = if z >= 0 {
        z / 146_097
    } else {
        -((146_096 - z) / 146_097)
    };
    assert(era * 146_097 <= z < era * 146_097 + 146_097);
    let doe: i64 = z - era * 146_097;
    proof {
        lemma_year_of_era(doe as int);
    }
    let yoe: i64 = (doe - doe / 1_460 + doe / 36_524 - doe / 146_096) / 365;
    let y: i64 = yoe + era * 400;
    let doy: i64 = doe - (365 * yoe + yoe / 4 - yoe / 100);
    let mp: i64 = (5 * doy + 2) / 153;
    let d: i64 = doy - (153 * mp + 2) / 5 + 1;
    let m: i64 = if mp < 10 {
        mp + 3
    } else {
        mp - 9
    };
    let year: i64 = if m <= 2 {
        y + 1
    } else {
        y
    };
    proof {
        reveal(days_from_civil);
        lemma_date_in_year_is_right(yoe as int, doy as int);
        let (y0, m0, d0) = date_in_year(yoe as int, doy as int);
        lemma_cycle(y0, era as int);
        lemma_month_starts(y0);
        lemma_month_starts(year as int);
    }
    (year, m, d)
}

/// The hour, the minute and the second on the clock, from the seconds of a day.
#[verifier::opaque]
pub open spec fn clock(of_day: int) -> (int, int, int) {
    (of_day / 3_600, of_day % 3_600 / 60, of_day % 60)
}

/// A clock shows each second of the day once, and they follow one another.
proof fn lemma_clock(of_day: int)
    requires
        0 <= of_day < 86_400,
    ensures
        ({
            let (h, m, s) = clock(of_day);
            &&& 0 <= h < 24
            &&& 0 <= m < 60
            &&& 0 <= s < 60
            &&& of_day == 3_600 * h + 60 * m + s
        }),
{
    reveal(clock);
}

/// A point in time, in seconds from the epoch, as `YYYYMMDDThhmmssZ`.
pub open spec fn iso_of(secs: int, year: int, month: int, day: int) -> Seq<char> {
    let (h, m, s) = clock(secs % 86_400);
    padded_signed(year, 4) + (padded(month as nat, 2) + (padded(day as nat, 2) + (seq!['T'] + (
    padded(h as nat, 2) + (padded(m as nat, 2) + (padded(s as nat, 2) + seq!['Z']))))))
}

/// Whether `text` is the moment `secs` seconds from the epoch, in the basic form
/// of ISO 8601.
pub open spec fn is_iso_basic(secs: int, text: Seq<char>) -> bool {
    exists|y: int, m: int, d: int|
        {
            &&& is_date(y, m, d)
            &&& #[trigger] days_from_civil(y, m, d) == secs / 86_400
            &&& text == iso_of(secs, y, m, d)
        }
}

/// The first second of the year 10000, from which on a year takes five digits.
pub open spec fn five_digit_years() -> int {
    253_402_300_800
}

/// A date from 1970 on has a year from 1970 on, and before the year 10000 the
/// year has four digits.
proof fn lemma_year_range(y: int, m: int, d: int)
    requires
        is_date(y, m, d),
        days_from_civil(y, m, d) >= 0,
    ensures
        y >= 1970,
        days_from_civil(y, m, d) < 2_932_897 ==> y <= 9_999,
{
    lemma_date_in_year(y, m, d);
    if y < 1970 {
        lemma_year_starts_grow(y + 1, 1970);
    }
    if y > 9_999 {
        lemma_year_starts_grow(10_000, y);
        assert(year_start(10_000) == 2_932_897);
    }
}

/// Two digits hold what is below one hundred.
proof fn lemma_two_digits(n: int)
    requires
        0 <= n < 100,
    ensures
        padded(n as nat, 2) == digits(n as nat, 2),
        padded(n as nat, 2).len() == 2,
        number(padded(n as nat, 2)) == n,
        forall|i: int| 0 <= i < 2 ==> '0' <= #[trigger] padded(n as nat, 2)[i] <= '9',
{
    reveal_with_fuel(limit, 3);
    text::lemma_padded_is_digits(n as nat, 2);
    text::lemma_digits_read_back(n as nat, 2);
}

/// A two-digit field decides the order before anything that follows it.
proof fn lemma_field_order(a: int, b: int, c: Seq<char>, d: Seq<char>)
    requires
        0 <= a < 100,
        0 <= b < 100,
        a < b || (a == b && sorts_before(c, d)),
    ensures
        sorts_before(padded(a as nat, 2) + c, padded(b as nat, 2) + d),
{
    lemma_two_digits(a);
    lemma_two_digits(b);
    reveal_with_fuel(limit, 3);
    if a < b {
        text::lemma_digits_sort(a as nat, b as nat, 2);
    }
    text::lemma_sorts_by_parts(padded(a as nat, 2), padded(b as nat, 2), c, d);
}

/// Timestamps sort as they happened: of two moments, the text of the earlier
/// one comes first. (From the year 10000 on a fifth digit spoils it.)
pub proof fn timestamps_sort_chronologically(s1: int, s2: int, t1: Seq<char>, t2: Seq<char>)
    requires
        0 <= s1 < s2 < five_digit_years(),
        is_iso_basic(s1, t1),
        is_iso_basic(s2, t2),
    ensures
        sorts_before(t1, t2),
{
    let (y1, m1, d1) = choose|y: int, m: int, d: int|
        {
            &&& is_date(y, m, d)
            &&& #[trigger] days_from_civil(y, m, d) == s1 / 86_400
            &&& t1 == iso_of(s1, y, m, d)
        };
    let (y2, m2, d2) = choose|y: int, m: int, d: int|
        {
            &&& is_date(y, m, d)
            &&& #[trigger] days_from_civil(y, m, d) == s2 / 86_400
            &&& t2 == iso_of(s2, y, m, d)
        };
    lemma_year_range(y1, m1, d1);
    lemma_year_range(y2, m2, d2);
    let (h1, i1, e1) = clock(s1 % 86_400);
    let (h2, i2, e2) = clock(s2 % 86_400);
    lemma_clock(s1 % 86_400);
    lemma_clock(s2 % 86_400);
    let z = seq!['Z'];
    let t = seq!['T'];
    let sec1 = padded(e1 as nat, 2) + z;
    let sec2 = padded(e2 as nat, 2) + z;
    let min1 = padded(i1 as nat, 2) + sec1;
    let min2 = padded(i2 as nat, 2) + sec2;
    let hour1 = padded(h1 as nat, 2) + min1;
    let hour2 = padded(h2 as nat, 2) + min2;
    let day1 = padded(d1 as nat, 2) + (t + hour1);
    let day2 = padded(d2 as nat, 2) + (t + hour2);
    let month1 = padded(m1 as nat, 2) + day1;
    let month2 = padded(m2 as nat, 2) + day2;
    let same_day = s1 / 86_400 == s2 / 86_400;
    if same_day {
        a_day_has_one_date(y1, m1, d1, y2, m2, d2);
        assert(s1 % 86_400 < s2 % 86_400);
        if h1 == h2 {
            if i1 == i2 {
                lemma_field_order(e1, e2, z, z);
            }
            lemma_field_order(i1, i2, sec1, sec2);
        }
        lemma_field_order(h1, h2, min1, min2);
        text::lemma_sorts_by_parts(t, t, hour1, hour2);
    } else {
        if !date_before(y1, m1, d1, y2, m2, d2) && date_before(y2, m2, d2, y1, m1, d1) {
            earlier_dates_are_fewer_days_away(y2, m2, d2, y1, m1, d1);
        }
        assert(date_before(y1, m1, d1, y2, m2, d2));
    }
    if y1 == y2 {
        if m1 == m2 {
            lemma_field_order(d1, d2, t + hour1, t + hour2);
        }
        lemma_field_order(m1, m2, day1, day2);
    }
    reveal_with_fuel(limit, 5);
    text::lemma_padded_is_digits(y1 as nat, 4);
    text::lemma_padded_is_digits(y2 as nat, 4);
    text::lemma_digits_len(y1 as nat, 4);
    text::lemma_digits_len(y2 as nat, 4);
    if y1 < y2 {
        text::lemma_digits_sort(y1 as nat, y2 as nat, 4);
    }
    text::lemma_sorts_by_parts(padded(y1 as nat, 4), padded(y2 as nat, 4), month1, month2);
}

/// The parts of the text of a moment from 1970 on: the digits of the year, then
/// twelve characters more.
proof fn lemma_iso_parts(secs: int, y: int, m: int, d: int)
    requires
        secs >= 0,
        is_date(y, m, d),
        days_from_civil(y, m, d) == secs / 86_400,
    ensures
        y >= 1970,
        ({
            let s = iso_of(secs, y, m, d);
            let n = s.len() - 12;
            let (h, i, e) = clock(secs % 86_400);
            &&& n >= 1
            &&& number(s.subrange(0, n)) == y
            &&& number(s.subrange(n, n + 2)) == m
            &&& number(s.subrange(n + 2, n + 4)) == d
            &&& number(s.subrange(n + 5, n + 7)) == h
            &&& number(s.subrange(n + 7, n + 9)) == i
            &&& number(s.subrange(n + 9, n + 11)) == e
            &&& forall|k: int| 0 <= k < s.len() ==> #[trigger] s[k] != ':'
        }),
{
    lemma_year_range(y, m, d);
    let s = iso_of(secs, y, m, d);
    let (h, mi, e) = clock(secs % 86_400);
    lemma_clock(secs % 86_400);
    let year = padded(y as nat, 4);
    let n = year.len() as int;
    text::lemma_decimal_reads_back(y as nat);
    if text::decimal(y as nat).len() < 4 {
        reveal_with_fuel(text::decimal, 4);
        assert(false);
    }
    lemma_two_digits(m);
    lemma_two_digits(d);
    lemma_two_digits(h);
    lemma_two_digits(mi);
    lemma_two_digits(e);
    assert(s.subrange(0, n) =~= year);
    assert(s.subrange(n, n + 2) =~= padded(m as nat, 2));
    assert(s.subrange(n + 2, n + 4) =~= padded(d as nat, 2));
    assert(s.subrange(n + 5, n + 7) =~= padded(h as nat, 2));
    assert(s.subrange(n + 7, n + 9) =~= padded(mi as nat, 2));
    assert(s.subrange(n + 9, n + 11) =~= padded(e as nat, 2));
    assert forall|i: int| 0 <= i < s.len() implies #[trigger] s[i] != ':' by {
        if i < n {
            assert(s[i] == year[i]);
        } else if i < n + 2 {
            assert(s[i] == padded(m as nat, 2)[i - n]);
        } else if i < n + 4 {
            assert(s[i] == padded(d as nat, 2)[i - n - 2]);
        } else if i == n + 4 {
            assert(s[i] == 'T');
        } else if i < n + 7 {
            assert(s[i] == padded(h as nat, 2)[i - n - 5]);
        } else if i < n + 9 {
            assert(s[i] == padded(mi as nat, 2)[i - n - 7]);
        } else if i < n + 11 {
            assert(s[i] == padded(e as nat, 2)[i - n - 9]);
        } else {
            assert(s[i] == 'Z');
        }
    }
}

/// Every second from 1970 on has a timestamp of its own, and none of them holds
/// a colon.
pub proof fn timestamps_are_distinct_and_colon_free(s1: int, s2: int, t1: Seq<char>, t2: Seq<char>)
    requires
        0 <= s1,
        0 <= s2,
        is_iso_basic(s1, t1),
        is_iso_basic(s2, t2),
    ensures
        t1 == t2 <==> s1 == s2,
        !t1.contains(':'),
{
    let (y1, m1, d1) = choose|y: int, m: int, d: int|
        {
            &&& is_date(y, m, d)
            &&& #[trigger] days_from_civil(y, m, d) == s1 / 86_400
            &&& t1 == iso_of(s1, y, m, d)
        };
    let (y2, m2, d2) = choose|y: int, m: int, d: int|
        {
            &&& is_date(y, m, d)
            &&& #[trigger] days_from_civil(y, m, d) == s2 / 86_400
            &&& t2 == iso_of(s2, y, m, d)
        };
    lemma_iso_parts(s1, y1, m1, d1);
    lemma_iso_parts(s2, y2, m2, d2);
    if s1 == s2 {
        a_day_has_one_date(y1, m1, d1, y2, m2, d2);
    }
    if t1 == t2 {
        lemma_clock(s1 % 86_400);
        lemma_clock(s2 % 86_400);
        assert(y1 == y2 && m1 == m2 && d1 == d2);
        assert(s1 % 86_400 == s2 % 86_400);
    }
}

/// The whole days since the epoch, rounded down, and the seconds left over.
pub(crate) fn split_days(epoch_secs: i64) -> (parts: (i64, i64))
    ensures
        parts.0 == epoch_secs as int / 86_400,
        parts.1 == epoch_secs as int % 86_400,
        -110_000_000_000_000 < parts.0 < 110_000_000_000_000,
{
    let days: i64 = if epoch_secs >= 0 {
        epoch_secs / SECS_PER_DAY
    } else {
        (-((86_399 - epoch_secs as i128) / 86_400)) as i64
    };
    let of_day: i64 = (epoch_secs as i128 - days as i128 * 86_400) as i64;
    assert(days * 86_400 + of_day == epoch_secs);
    (days, of_day)
}

/// What the clock shows that many seconds into a day.
pub(crate) fn clock_at(of_day: i64) -> (shown: (u64, u64, u64))
    requires
        0 <= of_day < 86_400,
    ensures
        (shown.0 as int, shown.1 as int, shown.2 as int) == clock(of_day as int),
{
    proof {
        reveal(clock);
    }
    ((of_day / 3_600) as u64, ((of_day % 3_600) / 60) as u64, (of_day % 60) as u64)
}

/// The timestamp of a moment.
pub open spec fn timestamp(secs: int) -> Seq<char> {
    choose|text: Seq<char>| is_iso_basic(secs, text)
}

/// A moment has one timestamp.
pub proof fn a_moment_has_one_timestamp(secs: int, text: Seq<char>)
    requires
        is_iso_basic(secs, text),
    ensures
        text == timestamp(secs),
        is_iso_basic(secs, timestamp(secs)),
{
    let other = timestamp(secs);
    assert(is_iso_basic(secs, other));
    let (y1, m1, d1) = choose|y: int, m: int, d: int|
        {
            &&& is_date(y, m, d)
            &&& #[trigger] days_from_civil(y, m, d) == secs / 86_400
            &&& text == iso_of(secs, y, m, d)
        };
    let (y2, m2, d2) = choose|y: int, m: int, d: int|
        {
            &&& is_date(y, m, d)
            &&& #[trigger] days_from_civil(y, m, d) == secs / 86_400
            &&& other == iso_of(secs, y, m, d)
        };
    a_day_has_one_date(y1, m1, d1, y2, m2, d2);
}

/// Every day has a date.
pub proof fn every_day_has_a_date(days: int)
    ensures
        exists|y: int, m: int, d: int| is_date(y, m, d) && #[trigger] days_from_civil(y, m, d) == days,
{
    let z = days + 719_468;
    let era = z / 146_097;
    let doe = z % 146_097;
    lemma_year_of_era(doe);
    let yoe = (doe - doe / 1_460 + doe / 36_524 - doe / 146_096) / 365;
    let doy = doe - (365 * yoe + yoe / 4 - yoe / 100);
    lemma_date_in_year_is_right(yoe, doy);
    let (y, m, d) = date_in_year(yoe, doy);
    lemma_cycle(y, era);
    lemma_month_starts(y);
    lemma_month_starts(y + 400 * era);
    reveal(days_from_civil);
    assert(is_date(y + 400 * era, m, d));
    assert(days_from_civil(y + 400 * era, m, d) == days);
}

/// Every moment has a timestamp.
pub proof fn every_moment_has_a_timestamp(secs: int)
    ensures
        is_iso_basic(secs, timestamp(secs)),
{
    every_day_has_a_date(secs / 86_400);
    let (y, m, d) = choose|y: int, m: int, d: int|
        is_date(y, m, d) && #[trigger] days_from_civil(y, m, d) == secs / 86_400;
    assert(is_iso_basic(secs, iso_of(secs, y, m, d)));
}

/// Epoch seconds as `YYYYMMDDThhmmssZ` in UTC.
///
/// The basic form, without colons: a colon is the one character that means
/// something in an archive reference. The `Z` makes the instant unambiguous.
pub fn iso8601_basic(epoch_secs: i64) -> (text: String)
    ensures
        is_iso_basic(epoch_secs as int, text@),
        text@ == timestamp(epoch_secs as int),
{
    let (days, of_day) = split_days(epoch_secs);
    let (y, m, d) = civil_from_days(days);
    let (hour, minute, second) = clock_at(of_day);
    proof {
        reveal_strlit("T");
        reveal_strlit("Z");
        assert("T"@ =~= seq!['T']);
        assert("Z"@ =~= seq!['Z']);
    }
    let s = text::joined(text::padded_text(second, 2).as_str(), "Z");
    let s = text::joined(text::padded_text(minute, 2).as_str(), s.as_str());
    let s = text::joined(text::padded_text(hour, 2).as_str(), s.as_str());
    let s = text::joined("T", s.as_str());
    let s = text::joined(text::padded_text(d as u64, 2).as_str(), s.as_str());
    let s = text::joined(text::padded_text(m as u64, 2).as_str(), s.as_str());
    let s = text::joined(text::padded_signed_text(y, 4).as_str(), s.as_str());
    assert(s@ == iso_of(epoch_secs as int, y as int, m as int, d as int));
    proof {
        a_moment_has_one_timestamp(epoch_secs as int, s@);
    }
    s
}

/// The calendar is the Gregorian one, and counts from the first of January 1970: each
/// day is one more than the day before it, over the ends of months and of years, and
/// February has a 29th in every fourth year but for the centuries that do not divide
/// by four hundred.
pub proof fn the_calendar_is_gregorian(year: int, month: int, day: int)
    requires
        1 <= month <= 12,
    ensures
        days_from_civil(1970, 1, 1) == 0,
        days_from_civil(year, month, day + 1) == days_from_civil(year, month, day) + 1,
        month < 12 ==> days_from_civil(year, month + 1, 1) == days_from_civil(year, month, 1)
            + if month == 2 {
            if year % 4 == 0 && (year % 100 != 0 || year % 400 == 0) {
                29int
            } else {
                28
            }
        } else if month == 4 || month == 6 || month == 9 || month == 11 {
            30
        } else {
            31
        },
        days_from_civil(year + 1, 1, 1) == days_from_civil(year, 12, 31) + 1,
        is_date(year, month, day) <==> day >= 1 && day <= if month == 2 {
            if year % 4 == 0 && (year % 100 != 0 || year % 400 == 0) {
                29int
            } else {
                28
            }
        } else if month == 4 || month == 6 || month == 9 || month == 11 {
            30
        } else {
            31
        },
{
    reveal(days_from_civil);
    lemma_month_starts(1970);
    lemma_month_starts(year);
    lemma_month_starts(year + 1);
    lemma_year_length(year);
}

/// A clock shows every second of the day, each as so many hours, minutes and seconds.
pub proof fn a_clock_shows_every_second(of_day: int)
    requires
        0 <= of_day < 86_400,
    ensures
        0 <= clock(of_day).0 < 24,
        0 <= clock(of_day).1 < 60,
        0 <= clock(of_day).2 < 60,
        of_day == 3_600 * clock(of_day).0 + 60 * clock(of_day).1 + clock(of_day).2,
{
    lemma_clock(of_day);
}

/// A timestamp is read back: its year, month and day are a date, and that date with
/// its hour, minute and second is the moment it was made of.
pub proof fn a_timestamp_is_read_back(secs: int)
    requires
        secs >= 0,
    ensures
        ({
            let s = timestamp(secs);
            let n = s.len() - 12;
            let (y, m, d) = (
                number(s.subrange(0, n)),
                number(s.subrange(n, n + 2)),
                number(s.subrange(n + 2, n + 4)),
            );
            &&& n >= 4
            &&& s[n + 4] == 'T'
            &&& s[n + 11] == 'Z'
            &&& is_date(y, m, d)
            &&& days_from_civil(y, m, d) * 86_400 + number(s.subrange(n + 5, n + 7)) * 3_600
                + number(s.subrange(n + 7, n + 9)) * 60 + number(s.subrange(n + 9, n + 11)) == secs
        }),
{
    every_moment_has_a_timestamp(secs);
    let s = timestamp(secs);
    let (y, m, d) = choose|y: int, m: int, d: int|
        {
            &&& is_date(y, m, d)
            &&& #[trigger] days_from_civil(y, m, d) == secs / 86_400
            &&& s == iso_of(secs, y, m, d)
        };
    lemma_iso_parts(secs, y, m, d);
    lemma_clock(secs % 86_400);
    let (h, mi, e) = clock(secs % 86_400);
    lemma_two_digits(m);
    lemma_two_digits(d);
    lemma_two_digits(h);
    lemma_two_digits(mi);
    lemma_two_digits(e);
    let year = padded(y as nat, 4);
    text::filling_up_keeps_the_number(y as nat, 4);
    let n = year.len() as int;
    assert(s.len() == n + 12);
    assert(s[n + 4] == 'T');
    assert(s[n + 11] == 'Z');
}

} // verus!
