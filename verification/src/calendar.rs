//! Moments of the Gregorian calendar, in UTC.
use vstd::prelude::*;

use crate::text;
use crate::text::{dec_u64, zero_padded};

verus! {

// ---------------------------------------------------------------------------
// The calendar
// ---------------------------------------------------------------------------

pub open spec fn is_leap(year: int) -> bool {
    year % 4 == 0 && (year % 100 != 0 || year % 400 == 0)
}

/// The number of days of a month.
pub open spec fn month_len(year: int, month: int) -> int {
    if month == 2 {
        if is_leap(year) {
            29
        } else {
            28
        }
    } else if month == 4 || month == 6 || month == 9 || month == 11 {
        30
    } else {
        31
    }
}

/// The number of days of a year before a month.
pub open spec fn days_to_month(year: int, month: int) -> int
    decreases month,
{
    if month <= 1 {
        0
    } else {
        days_to_month(year, month - 1) + month_len(year, month - 1)
    }
}

/// The number of leap years before a year.
pub open spec fn leaps_before(year: int) -> int {
    (year - 1) / 4 - (year - 1) / 100 + (year - 1) / 400
}

/// The number of days from the start of 1970 to the start of a year.
pub open spec fn days_to_year(year: int) -> int {
    365 * (year - 1970) + leaps_before(year) - leaps_before(1970)
}

/// A day of the calendar.
pub open spec fn is_date(year: int, month: int, day: int) -> bool {
    1 <= month <= 12 && 1 <= day <= month_len(year, month)
}

/// The number of days from the start of 1970 to a day.
pub open spec fn day_number(year: int, month: int, day: int) -> int {
    days_to_year(year) + days_to_month(year, month) + day - 1
}

/// A date and a time of day in the notation of ISO 8601.
pub open spec fn date_text(year: int, month: int, day: int, time: nat) -> Seq<char> {
    text::zero_pad(text::dec(year as nat), 4) + "-"@ + text::zero_pad(text::dec(month as nat), 2)
        + "-"@ + text::zero_pad(text::dec(day as nat), 2) + "T"@ + text::zero_pad(
        text::dec(time / 3600),
        2,
    ) + ":"@ + text::zero_pad(text::dec(time % 3600 / 60), 2) + ":"@ + text::zero_pad(
        text::dec(time % 60),
        2,
    ) + "Z"@
}

/// `told` is the moment so many seconds after the start of 1970.
pub open spec fn tells_moment(told: Seq<char>, seconds: nat) -> bool {
    exists|year: int, month: int, day: int|
        {
            &&& #[trigger] is_date(year, month, day)
            &&& 1970 <= year
            &&& day_number(year, month, day) == seconds / 86400
            &&& told == date_text(year, month, day, seconds % 86400)
        }
}

// ---------------------------------------------------------------------------
// From days to dates
// ---------------------------------------------------------------------------

/// The days before each month.
proof fn lemma_days_to_month(year: int)
    ensures
        days_to_month(year, 1) == 0,
        days_to_month(year, 2) == 31,
        ({
            let feb = month_len(year, 2);
            &&& days_to_month(year, 3) == 31 + feb
            &&& days_to_month(year, 4) == 62 + feb
            &&& days_to_month(year, 5) == 92 + feb
            &&& days_to_month(year, 6) == 123 + feb
            &&& days_to_month(year, 7) == 153 + feb
            &&& days_to_month(year, 8) == 184 + feb
            &&& days_to_month(year, 9) == 215 + feb
            &&& days_to_month(year, 10) == 245 + feb
            &&& days_to_month(year, 11) == 276 + feb
            &&& days_to_month(year, 12) == 306 + feb
            &&& days_to_month(year, 13) == 337 + feb
        }),
{
    reveal_with_fuel(days_to_month, 13);
}

/// The days of a year.
pub proof fn law_years_have_their_days(year: int)
    ensures
        days_to_year(1970) == 0,
        days_to_year(year + 1) == days_to_year(year) + days_to_month(year, 13),
        days_to_month(year, 13) == (if is_leap(year) {
            366int
        } else {
            365int
        }),
{
    lemma_days_to_month(year);
    let n = year - 1;
    // a multiple of four, of a hundred, of four hundred adds one to its quotient
    assert(year / 4 == n / 4 + if year % 4 == 0 {
        1int
    } else {
        0int
    });
    assert(year / 100 == n / 100 + if year % 100 == 0 {
        1int
    } else {
        0int
    });
    assert(year / 400 == n / 400 + if year % 400 == 0 {
        1int
    } else {
        0int
    });
    assert(year % 100 == 0 ==> year % 4 == 0);
    assert(year % 400 == 0 ==> year % 100 == 0);
}

/// A date: the year, the month and the day.
pub struct Date {
    pub year: u64,
    pub month: u64,
    pub day: u64,
}

/// The number of days from the first of March of year 0 to that of a year.
pub open spec fn days_to_march(year: int) -> int {
    365 * year + year / 4 - year / 100 + year / 400
}

/// A year by the cycles of four hundred, a hundred and four years that it is in.
proof fn lemma_cycles(era: int, century: int, group: int, single: int)
    requires
        0 <= century <= 3,
        0 <= group <= 24,
        0 <= single <= 3,
    ensures
        days_to_march(era * 400 + century * 100 + group * 4 + single) == era * 146097 + century
            * 36524 + group * 1461 + single * 365,
{
    let year = era * 400 + century * 100 + group * 4 + single;
    vstd::arithmetic::div_mod::lemma_fundamental_div_mod_converse(
        year,
        4,
        era * 100 + century * 25 + group,
        single,
    );
    vstd::arithmetic::div_mod::lemma_fundamental_div_mod_converse(
        year,
        100,
        era * 4 + century,
        group * 4 + single,
    );
    vstd::arithmetic::div_mod::lemma_fundamental_div_mod_converse(
        year,
        400,
        era,
        century * 100 + group * 4 + single,
    );
}

/// The year after four years without a leap day is a leap year, unless a century
/// ends that no fourth one ends with.
proof fn lemma_leap_end(era: int, century: int, group: int)
    requires
        0 <= century <= 3,
        0 <= group <= 24,
        group == 24 ==> century == 3,
    ensures
        is_leap(era * 400 + century * 100 + group * 4 + 4),
{
    let year = era * 400 + century * 100 + group * 4 + 4;
    vstd::arithmetic::div_mod::lemma_fundamental_div_mod_converse(
        year,
        4,
        era * 100 + century * 25 + group + 1,
        0,
    );
    if group == 24 {
        vstd::arithmetic::div_mod::lemma_fundamental_div_mod_converse(
            year,
            400,
            era + 1,
            0,
        );
    } else {
        vstd::arithmetic::div_mod::lemma_fundamental_div_mod_converse(
            year,
            100,
            era * 4 + century,
            group * 4 + 4,
        );
    }
}

/// The year that begins on a first of March, and the day in it counted from
/// zero, so many days after the first of March of year 0. The leap day comes last
/// in such a year.
fn march_year_of(days: u64) -> (r: (u64, u64))
    requires
        days <= 0x1_0000_0000_0000,
    ensures
        days == days_to_march(r.0 as int) + r.1,
        r.0 <= days,
        r.1 <= 365,
        r.1 == 365 ==> is_leap(r.0 + 1),
        719468 <= days ==> r.0 >= 1969,
{
    let era: u64 = days / 146097;
    let of_era: u64 = days % 146097;
    let century: u64 = if of_era / 36524 > 3 {
        3
    } else {
        of_era / 36524
    };
    let of_century: u64 = of_era - century * 36524;
    let group: u64 = of_century / 1461;
    let of_group: u64 = of_century - group * 1461;
    let single: u64 = if of_group / 365 > 3 {
        3
    } else {
        of_group / 365
    };
    let of_year: u64 = of_group - single * 365;
    let year: u64 = era * 400 + century * 100 + group * 4 + single;
    proof {
        lemma_cycles(era as int, century as int, group as int, single as int);
        if of_year == 365 {
            assert(single == 3);
            assert(group == 24 ==> century == 3);
            lemma_leap_end(era as int, century as int, group as int);
        }
    }
    (year, of_year)
}

/// Where a day of a year that begins on a first of March lies in the calendar.
proof fn lemma_march_day(year: int, of_year: int, shifted: int, day: int)
    requires
        1969 <= year,
        0 <= of_year <= 365,
        of_year == 365 ==> is_leap(year + 1),
        shifted == (5 * of_year + 2) / 153,
        day == of_year - (153 * shifted + 2) / 5 + 1,
    ensures
        0 <= shifted <= 11,
        shifted < 10 <==> of_year < 306,
        shifted < 10 ==> is_date(year, shifted + 3, day) && day_number(year, shifted + 3, day)
            == days_to_march(year) + of_year - 719468,
        shifted >= 10 ==> is_date(year + 1, shifted - 9, day) && day_number(
            year + 1,
            shifted - 9,
            day,
        ) == days_to_march(year) + of_year - 719468,
{
    law_years_have_their_days(year);
    lemma_days_to_month(year);
    lemma_days_to_month(year + 1);
    assert(leaps_before(1970) == 477);
    assert(leaps_before(year + 1) == year / 4 - year / 100 + year / 400);
}

/// The date so many days after the start of 1970.
pub fn date_of(days: u64) -> (r: Date)
    requires
        days <= u64::MAX / 86400,
    ensures
        is_date(r.year as int, r.month as int, r.day as int),
        1970 <= r.year,
        day_number(r.year as int, r.month as int, r.day as int) == days,
{
    let (year, of_year) = march_year_of(days + 719468);
    let shifted: u64 = (5 * of_year + 2) / 153;
    let day: u64 = of_year - (153 * shifted + 2) / 5 + 1;
    proof {
        lemma_march_day(year as int, of_year as int, shifted as int, day as int);
    }
    if shifted < 10 {
        Date { year, month: shifted + 3, day }
    } else {
        Date { year: year + 1, month: shifted - 9, day }
    }
}

/// A number with zeros before it up to a width.
fn padded(n: u64, width: usize) -> (r: String)
    ensures
        r@ == text::zero_pad(text::dec(n as nat), width as nat),
{
    let digits = dec_u64(n);
    zero_padded(digits.as_str(), width)
}

/// Writes the moment so many seconds after the start of 1970.
pub fn iso8601_at(seconds: u64) -> (r: String)
    ensures
        tells_moment(r@, seconds as nat),
{
    let date = date_of(seconds / 86400);
    let time: u64 = seconds % 86400;
    let mut r = padded(date.year, 4);
    r.append("-");
    r.append(padded(date.month, 2).as_str());
    r.append("-");
    r.append(padded(date.day, 2).as_str());
    r.append("T");
    r.append(padded(time / 3600, 2).as_str());
    r.append(":");
    r.append(padded(time % 3600 / 60, 2).as_str());
    r.append(":");
    r.append(padded(time % 60, 2).as_str());
    r.append("Z");
    proof {
        let (y, m, d) = (date.year as int, date.month as int, date.day as int);
        assert(r@ =~= date_text(y, m, d, seconds as nat % 86400));
        assert(is_date(y, m, d));
    }
    r
}

// ---------------------------------------------------------------------------
// Laws
// ---------------------------------------------------------------------------

/// Earlier months take fewer days.
proof fn lemma_months_grow(year: int, a: int, b: int)
    requires
        1 <= a < b <= 13,
    ensures
        days_to_month(year, a) + month_len(year, a) <= days_to_month(year, b),
    decreases b,
{
    if b > a + 1 {
        lemma_months_grow(year, a, b - 1);
    }
}

/// Earlier years take fewer days.
proof fn lemma_years_grow(a: int, b: int)
    requires
        a < b,
    ensures
        days_to_year(a) + days_to_month(a, 13) <= days_to_year(b),
    decreases b - a,
{
    law_years_have_their_days(b - 1);
    if b > a + 1 {
        lemma_years_grow(a, b - 1);
    }
}

/// Two dates with the same number of days are the same date.
pub proof fn law_dates_are_unique(y1: int, m1: int, d1: int, y2: int, m2: int, d2: int)
    requires
        is_date(y1, m1, d1),
        is_date(y2, m2, d2),
        day_number(y1, m1, d1) == day_number(y2, m2, d2),
    ensures
        y1 == y2 && m1 == m2 && d1 == d2,
{
    lemma_months_grow(y1, m1, 13);
    lemma_months_grow(y2, m2, 13);
    lemma_days_to_month(y1);
    lemma_days_to_month(y2);
    if y1 < y2 {
        lemma_years_grow(y1, y2);
        lemma_first_of_year(y2, m2);
    } else if y2 < y1 {
        lemma_years_grow(y2, y1);
        lemma_first_of_year(y1, m1);
    } else if m1 < m2 {
        lemma_months_grow(y1, m1, m2);
    } else if m2 < m1 {
        lemma_months_grow(y1, m2, m1);
    }
}

/// No month begins before its year.
proof fn lemma_first_of_year(year: int, month: int)
    requires
        1 <= month,
    ensures
        days_to_month(year, month) >= 0,
    decreases month,
{
    if month > 1 {
        lemma_first_of_year(year, month - 1);
    }
}

/// The text of a moment is one text: two texts that tell the same moment are the
/// same.
pub proof fn law_moment_has_one_text(a: Seq<char>, b: Seq<char>, seconds: nat)
    requires
        tells_moment(a, seconds),
        tells_moment(b, seconds),
    ensures
        a == b,
{
    let (y1, m1, d1) = choose|year: int, month: int, day: int|
        {
            &&& #[trigger] is_date(year, month, day)
            &&& 1970 <= year
            &&& day_number(year, month, day) == seconds / 86400
            &&& a == date_text(year, month, day, seconds % 86400)
        };
    let (y2, m2, d2) = choose|year: int, month: int, day: int|
        {
            &&& #[trigger] is_date(year, month, day)
            &&& 1970 <= year
            &&& day_number(year, month, day) == seconds / 86400
            &&& b == date_text(year, month, day, seconds % 86400)
        };
    law_dates_are_unique(y1, m1, d1, y2, m2, d2);
}

/// Every fourth year is a leap year, except for full centuries that four hundred does
/// not divide.
pub proof fn law_leap_years(n: int)
    ensures
        is_leap(400 * n),
        is_leap(4 * n) <==> n % 25 != 0 || n % 100 == 0,
        !is_leap(4 * n + 1) && !is_leap(4 * n + 2) && !is_leap(4 * n + 3),
{
    assert((4 * n) % 4 == 0);
    assert((4 * n) % 100 == 0 <==> n % 25 == 0);
    assert((4 * n) % 400 == 0 <==> n % 100 == 0);
}

/// The days follow one another: the next day of a month, the first of the next month
/// behind its last day, and the first of January behind the last of December.
pub proof fn law_days_follow_one_another(year: int, month: int, day: int)
    requires
        is_date(year, month, day),
    ensures
        is_date(year, month, day + 1) ==> day_number(year, month, day + 1) == day_number(
            year,
            month,
            day,
        ) + 1,
        !is_date(year, month, day + 1) && month < 12 ==> day_number(year, month + 1, 1)
            == day_number(year, month, day) + 1,
        !is_date(year, month, day + 1) && month == 12 ==> day_number(year + 1, 1, 1)
            == day_number(year, month, day) + 1,
        day_number(1970, 1, 1) == 0,
        !is_date(year, month, day + 1) ==> day == (if month == 2 {
            if is_leap(year) {
                29int
            } else {
                28int
            }
        } else if month == 4 || month == 6 || month == 9 || month == 11 {
            30int
        } else {
            31int
        }),
{
    law_years_have_their_days(year);
    law_years_have_their_days(1970);
}

} // verus!
