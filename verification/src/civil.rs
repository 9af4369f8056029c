//! Dates of the Gregorian calendar, counted in days from 1970-01-01, and the
//! texts made from Unix timestamps.
use vstd::prelude::*;
use crate::text;

verus! {

pub open spec fn is_leap(year: int) -> bool {
    year % 4 == 0 && (year % 100 != 0 || year % 400 == 0)
}

pub open spec fn month_days(year: int, month: int) -> int {
    if month == 2 {
        if is_leap(year) {
            29
        } else {
            28
        }
    } else if month == 4 || month == 6 || month == 9 || month == 11 {
        30
    } else {
        31
    }
}

pub open spec fn is_date(year: int, month: int, day: int) -> bool {
    1 <= month <= 12 && 1 <= day <= month_days(year, month)
}

/// The days of a year before a month begins.
pub open spec fn days_before_month(year: int, month: int) -> int
    decreases month,
{
    if month <= 1 {
        0
    } else {
        days_before_month(year, month - 1) + month_days(year, month - 1)
    }
}

/// The days from 0001-01-01 to the beginning of a year.
pub open spec fn days_before_year(year: int) -> int {
    365 * (year - 1) + (year - 1) / 4 - (year - 1) / 100 + (year - 1) / 400
}

/// The days from 1970-01-01 to a date.
pub open spec fn day_number(year: int, month: int, day: int) -> int {
    days_before_year(year) + days_before_month(year, month) + (day - 1) - 719162
}

/// `y`, `m`, `d` is the date `days` days after 1970-01-01.
pub open spec fn is_day(days: int, y: int, m: int, d: int) -> bool {
    is_date(y, m, d) && day_number(y, m, d) == days
}

/// The year, month and day of the date `days` days after 1970-01-01.
pub open spec fn civil(days: int) -> (int, int, int) {
    choose|t: (int, int, int)| #[trigger] is_day(days, t.0, t.1, t.2)
}

proof fn lemma_before_month(y: int)
    ensures
        days_before_month(y, 1) == 0,
        days_before_month(y, 2) == 31,
        days_before_month(y, 3) == 59 + if is_leap(y) { 1int } else { 0 },
        days_before_month(y, 4) == days_before_month(y, 3) + 31,
        days_before_month(y, 5) == days_before_month(y, 3) + 61,
        days_before_month(y, 6) == days_before_month(y, 3) + 92,
        days_before_month(y, 7) == days_before_month(y, 3) + 122,
        days_before_month(y, 8) == days_before_month(y, 3) + 153,
        days_before_month(y, 9) == days_before_month(y, 3) + 184,
        days_before_month(y, 10) == days_before_month(y, 3) + 214,
        days_before_month(y, 11) == days_before_month(y, 3) + 245,
        days_before_month(y, 12) == days_before_month(y, 3) + 275,
        days_before_month(y, 13) == days_before_month(y, 3) + 306,
{
    reveal_with_fuel(days_before_month, 14);
}

proof fn lemma_quarter(y: int)
    ensures
        y / 4 == (y - 1) / 4 + if y % 4 == 0 { 1int } else { 0 },
{
}

proof fn lemma_century(y: int)
    ensures
        y / 100 == (y - 1) / 100 + if y % 100 == 0 { 1int } else { 0 },
        y % 100 == 0 ==> y % 4 == 0,
{
}

proof fn lemma_era(y: int)
    ensures
        y / 400 == (y - 1) / 400 + if y % 400 == 0 { 1int } else { 0 },
        y % 400 == 0 ==> y % 100 == 0,
{
}

/// A year has 365 days, a leap year one more.
proof fn lemma_year_length(y: int)
    ensures
        days_before_year(y + 1) == days_before_year(y) + 365 + if is_leap(y) { 1int } else { 0 },
{
    lemma_quarter(y);
    lemma_century(y);
    lemma_era(y);
}

proof fn lemma_years_ascend(a: int, b: int)
    requires
        a < b,
    ensures
        days_before_year(a + 1) <= days_before_year(b),
    decreases b - a,
{
    if a + 1 < b {
        lemma_years_ascend(a, b - 1);
        lemma_year_length(b - 1);
    }
}

proof fn lemma_months_ascend(y: int, a: int, b: int)
    requires
        1 <= a < b <= 13,
    ensures
        days_before_month(y, a) + month_days(y, a) <= days_before_month(y, b),
    decreases b - a,
{
    if a + 1 < b {
        lemma_months_ascend(y, a, b - 1);
    }
}

proof fn lemma_within_year(y: int, m: int, d: int)
    requires
        is_date(y, m, d),
    ensures
        days_before_year(y) <= day_number(y, m, d) + 719162 < days_before_year(y + 1),
{
    lemma_year_length(y);
    lemma_before_month(y);
    lemma_months_ascend(y, m, 13);
    if m > 1 {
        lemma_months_ascend(y, 1, m);
    }
}

/// Two dates with the same number of days are the same date.
pub proof fn law_dates_are_distinct(y1: int, m1: int, d1: int, y2: int, m2: int, d2: int)
    requires
        is_date(y1, m1, d1),
        is_date(y2, m2, d2),
        day_number(y1, m1, d1) == day_number(y2, m2, d2),
    ensures
        y1 == y2,
        m1 == m2,
        d1 == d2,
{
    lemma_within_year(y1, m1, d1);
    lemma_within_year(y2, m2, d2);
    if y1 < y2 {
        lemma_years_ascend(y1, y2);
    } else if y2 < y1 {
        lemma_years_ascend(y2, y1);
    }
    if m1 < m2 {
        lemma_months_ascend(y1, m1, m2);
    } else if m2 < m1 {
        lemma_months_ascend(y1, m2, m1);
    }
}

/// Finds the year of an era of 400 years from the day of the era. Years begin in
/// March here, so that a leap day is the last of its year.
proof fn lemma_year_of_era(doe: int)
    requires
        0 <= doe <= 146096,
    ensures
        ({
            let yoe = (doe - doe / 1460 + doe / 36524 - doe / 146096) / 365;
            &&& 0 <= yoe <= 399
            &&& 365 * yoe + yoe / 4 - yoe / 100 <= doe
            &&& doe < 365 * (yoe + 1) + (yoe + 1) / 4 - (yoe + 1) / 100 + (yoe + 1) / 400
        }),
{
}

/// Finds month and day from the day of a year that begins in March.
proof fn lemma_month_of_year(y: int, doy: int)
    requires
        0 <= doy < 365 + if is_leap(y + 1) { 1int } else { 0 },
    ensures
        ({
            let mp = (5 * doy + 2) / 153;
            let d = doy - (153 * mp + 2) / 5 + 1;
            let m = if mp < 10 { mp + 3 } else { mp - 9 };
            let year = if m <= 2 { y + 1 } else { y };
            &&& 0 <= mp <= 11
            &&& (153 * mp + 2) / 5 <= doy
            &&& is_date(year, m, d)
            &&& day_number(year, m, d) + 719162 == days_before_year(y + 1) - 306 + doy
        }),
{
    lemma_before_month(y);
    lemma_before_month(y + 1);
    lemma_year_length(y);
    let mp = (5 * doy + 2) / 153;
    assert(0 <= mp <= 11);
    if mp == 0 {
    } else if mp == 1 {
    } else if mp == 2 {
    } else if mp == 3 {
    } else if mp == 4 {
    } else if mp == 5 {
    } else if mp == 6 {
    } else if mp == 7 {
    } else if mp == 8 {
    } else if mp == 9 {
    } else if mp == 10 {
    } else {
        assert(mp == 11);
    }
}

/// Shifts a count of years by whole eras.
#[verifier::spinoff_prover]
#[verifier::rlimit(40)]
proof fn lemma_eras(yoe: int, era: int)
    requires
        0 <= yoe <= 399,
    ensures
        days_before_year(yoe + era * 400 + 1) == era * 146097 + 365 * yoe + yoe / 4 - yoe / 100,
        is_leap(yoe + era * 400 + 1) == is_leap(yoe + 1),
{
    let y = yoe + era * 400;
    assert(y / 4 == yoe / 4 + era * 100);
    assert(y / 100 == yoe / 100 + era * 4);
    assert(y / 400 == era);
    assert((y + 1) % 4 == (yoe + 1) % 4);
    assert((y + 1) % 100 == (yoe + 1) % 100);
    assert((y + 1) % 400 == (yoe + 1) % 400);
}

/// The computed date is the date of the day.
proof fn lemma_civil(days: int)
    requires
        0 <= days,
    ensures
        ({
            let z = days + 719468;
            let era = z / 146097;
            let doe = z - era * 146097;
            let yoe = (doe - doe / 1460 + doe / 36524 - doe / 146096) / 365;
            let doy = doe - (365 * yoe + yoe / 4 - yoe / 100);
            let mp = (5 * doy + 2) / 153;
            let d = doy - (153 * mp + 2) / 5 + 1;
            let m = if mp < 10 { mp + 3 } else { mp - 9 };
            let y = yoe + era * 400;
            let year = if m <= 2 { y + 1 } else { y };
            &&& 0 <= doe <= 146096
            &&& 0 <= yoe <= 399
            &&& 0 <= doy <= 365
            &&& 0 <= mp <= 11
            &&& is_day(days, year, m, d)
            &&& civil(days) == (year, m, d)
            &&& 1 <= d <= 31
        }),
{
    let z = days + 719468;
    let era = z / 146097;
    let doe = z - era * 146097;
    lemma_year_of_era(doe);
    let yoe = (doe - doe / 1460 + doe / 36524 - doe / 146096) / 365;
    let doy = doe - (365 * yoe + yoe / 4 - yoe / 100);
    lemma_eras(yoe, era);
    let y = yoe + era * 400;
    assert(doy < 365 + if is_leap(y + 1) { 1int } else { 0 }) by {
        let k = yoe + 1;
        assert(k / 4 == yoe / 4 + if k % 4 == 0 { 1int } else { 0 });
        assert(k / 100 == yoe / 100 + if k % 100 == 0 { 1int } else { 0 });
        assert(k / 400 == if k % 400 == 0 { 1int } else { 0 });
    }
    lemma_month_of_year(y, doy);
    let mp = (5 * doy + 2) / 153;
    let d = doy - (153 * mp + 2) / 5 + 1;
    let m = if mp < 10 {
        mp + 3
    } else {
        mp - 9
    };
    let year = if m <= 2 {
        y + 1
    } else {
        y
    };
    let t = (year, m, d);
    assert(is_day(days, t.0, t.1, t.2));
    let c = civil(days);
    assert(is_day(days, c.0, c.1, c.2));
    law_dates_are_distinct(year, m, d, c.0, c.1, c.2);
}

/// Every day from 1970-01-01 on has a date, and [`civil`] is it.
pub proof fn law_every_day_has_a_date(days: int)
    requires
        0 <= days,
    ensures
        is_day(days, civil(days).0, civil(days).1, civil(days).2),
{
    lemma_civil(days);
}

/// The date `days` days after 1970-01-01. The year is reduced to 32 bits.
pub fn days_to_ymd(days: u64) -> (r: (u32, u32, u32))
    requires
        days <= i64::MAX - 719468,
    ensures
        r.0 as int == civil(days as int).0 % 0x1_0000_0000,
        r.1 as int == civil(days as int).1,
        r.2 as int == civil(days as int).2,
        is_day(days as int, civil(days as int).0, civil(days as int).1, civil(days as int).2),
        1 <= r.1 <= 12,
        1 <= r.2 <= 31,
{
    let z: i64 = days as i64 + 719_468;
    let era: i64 = z / 146_097;
    let doe: u64 = (z - era * 146_097) as u64;
    proof {
        lemma_civil(days as int);
    }
    let yoe: u64 = (doe - doe / 1_460 + doe / 36_524 - doe / 146_096) / 365;
    let y: i64 = yoe as i64 + era * 400;
    let doy: u64 = doe - (365 * yoe + yoe / 4 - yoe / 100);
    let mp: u64 = (5 * doy + 2) / 153;
    let d: u64 = doy + 1 - (153 * mp + 2) / 5;
    let m: u64 = if mp < 10 {
        mp + 3
    } else {
        mp - 9
    };
    let y: u64 = if m <= 2 {
        (y + 1) as u64
    } else {
        y as u64
    };
    assert((y as u32) as u64 == y % 0x1_0000_0000) by (bit_vector);
    (y as u32, m as u32, d as u32)
}

// ---------------------------------------------------------------------------
// Timestamps as text
// ---------------------------------------------------------------------------

/// `YYYY-MM-DD`.
pub open spec fn date_text(days: int) -> Seq<char> {
    text::dec_padded((civil(days).0 % 0x1_0000_0000) as nat, 4) + "-"@ + text::dec_padded(
        civil(days).1 as nat,
        2,
    ) + "-"@ + text::dec_padded(civil(days).2 as nat, 2)
}

/// `HH:MM` of a second of the day.
pub open spec fn minute_text(second: nat) -> Seq<char> {
    text::dec_padded(second / 3600, 2) + ":"@ + text::dec_padded(second % 3600 / 60, 2)
}

/// The date of a Unix timestamp; a dash stands for the timestamp 0.
pub open spec fn ts_date(ts: nat) -> Seq<char> {
    if ts == 0 {
        "\u{2014}"@
    } else {
        date_text((ts / 86400) as int)
    }
}

/// Date, hour and minute of a Unix timestamp.
pub open spec fn ts_minute(ts: nat) -> Seq<char> {
    if ts == 0 {
        "\u{2014}"@
    } else {
        date_text((ts / 86400) as int) + " "@ + minute_text(ts % 86400)
    }
}

/// Date and time of a Unix timestamp.
pub open spec fn ts_second(ts: nat) -> Seq<char> {
    if ts == 0 {
        "\u{2014}"@
    } else {
        date_text((ts / 86400) as int) + " "@ + minute_text(ts % 86400) + ":"@ + text::dec_padded(
            ts % 60,
            2,
        ) + " UTC"@
    }
}

/// Shorter forms of a timestamp are the beginnings of the longer ones.
pub proof fn law_timestamp_texts_agree(ts: nat)
    requires
        ts > 0,
    ensures
        ts_date(ts).is_prefix_of(ts_minute(ts)),
        ts_minute(ts).is_prefix_of(ts_second(ts)),
{
    let a = ts_date(ts);
    let b = ts_minute(ts);
    let c = ts_second(ts);
    assert(b.subrange(0, a.len() as int) =~= a);
    assert(c.subrange(0, b.len() as int) =~= b);
}

fn day_text(days: u64) -> (r: String)
    requires
        days <= i64::MAX - 719468,
    ensures
        r@ == date_text(days as int),
{
    let (y, m, d) = days_to_ymd(days);
    text::decimal_padded(y as u64, 4).concat("-").concat(
        text::decimal_padded(m as u64, 2).as_str(),
    ).concat("-").concat(text::decimal_padded(d as u64, 2).as_str())
}

fn hour_minute(second: u64) -> (r: String)
    ensures
        r@ == minute_text(second as nat),
{
    text::decimal_padded(second / 3600, 2).concat(":").concat(
        text::decimal_padded(second % 3600 / 60, 2).as_str(),
    )
}

/// A Unix timestamp as `YYYY-MM-DD HH:MM:SS UTC`.
pub fn format_ts(ts: u64) -> (r: String)
    ensures
        r@ == ts_second(ts as nat),
{
    if ts == 0 {
        return "\u{2014}".to_owned();
    }
    assert(ts % 86400 % 60 == ts % 60);
    day_text(ts / 86400).concat(" ").concat(hour_minute(ts % 86400).as_str()).concat(":").concat(
        text::decimal_padded(ts % 86400 % 60, 2).as_str(),
    ).concat(" UTC")
}

/// A Unix timestamp as `YYYY-MM-DD HH:MM`.
pub fn format_ts_short(ts: u64) -> (r: String)
    ensures
        r@ == ts_minute(ts as nat),
{
    if ts == 0 {
        return "\u{2014}".to_owned();
    }
    day_text(ts / 86400).concat(" ").concat(hour_minute(ts % 86400).as_str())
}

/// A Unix timestamp as `YYYY-MM-DD`.
pub fn format_date(ts: u64) -> (r: String)
    ensures
        r@ == ts_date(ts as nat),
{
    if ts == 0 {
        return "\u{2014}".to_owned();
    }
    day_text(ts / 86400)
}

// ---------------------------------------------------------------------------
// Spans of time
// ---------------------------------------------------------------------------

/// A count with its unit in singular or plural.
pub open spec fn counted(n: nat, unit: Seq<char>) -> Seq<char> {
    text::dec(n) + " "@ + unit + (if n == 1 { ""@ } else { "s"@ })
}

pub fn count_of(n: u64, unit: &str) -> (r: String)
    ensures
        r@ == counted(n as nat, unit@),
{
    text::decimal(n).concat(" ").concat(unit).concat(if n == 1 {
        ""
    } else {
        "s"
    })
}

/// A span in the largest unit that fits into it, rounded down: years of 365
/// days, months of 30, weeks, days, else hours.
pub open spec fn span_text(secs: nat) -> Seq<char> {
    if secs >= 365 * 86400 {
        counted(secs / (365 * 86400), "year"@)
    } else if secs >= 30 * 86400 {
        counted(secs / (30 * 86400), "month"@)
    } else if secs >= 7 * 86400 {
        counted(secs / (7 * 86400), "week"@)
    } else if secs >= 86400 {
        counted(secs / 86400, "day"@)
    } else {
        counted(secs / 3600, "hour"@)
    }
}

pub fn duration_label(secs: u64) -> (r: String)
    ensures
        r@ == span_text(secs as nat),
{
    if secs >= 365 * 86400 {
        return count_of(secs / (365 * 86400), "year");
    }
    if secs >= 30 * 86400 {
        return count_of(secs / (30 * 86400), "month");
    }
    if secs >= 7 * 86400 {
        return count_of(secs / (7 * 86400), "week");
    }
    if secs >= 86400 {
        return count_of(secs / 86400, "day");
    }
    count_of(secs / 3600, "hour")
}

/// Why a span of time cannot be read.
#[derive(Debug, PartialEq, Eq)]
pub enum SinceError {
    Empty,
    /// What stands before the last character is no number.
    NotANumber(String),
    Zero(String),
    UnknownSuffix(char),
}

/// The seconds of a unit.
pub open spec fn unit_secs(c: char) -> Option<nat> {
    if c == 'h' {
        Some(3600)
    } else if c == 'd' {
        Some(86400)
    } else if c == 'w' {
        Some(7 * 86400)
    } else if c == 'm' {
        Some(30 * 86400)
    } else if c == 'y' {
        Some(365 * 86400)
    } else {
        None
    }
}

/// The number that a span begins with.
pub open spec fn span_count(s: Seq<char>) -> Option<nat> {
    text::number_text(text::trimmed(s).drop_last(), u64::MAX as nat)
}

/// The seconds of a span, or what is said of a text that is none.
pub open spec fn read_span(s: Seq<char>) -> Result<nat, Seq<char>> {
    let t = text::trimmed(s);
    if t.len() == 0 {
        Err("--since value must not be empty"@)
    } else {
        match span_count(s) {
            None => Err(
                "invalid --since format '"@ + t + "': expected <number><h|d|w|m|y>"@,
            ),
            Some(n) => if n == 0 {
                Err("--since value must be positive, got '"@ + t + "'"@)
            } else {
                match unit_secs(t.last()) {
                    None => Err(
                        "unknown --since suffix '"@ + seq![t.last()]
                            + "': expected h, d, w, m, or y"@,
                    ),
                    Some(u) => Ok(
                        if n * u > u64::MAX as nat {
                            u64::MAX as nat
                        } else {
                            n * u
                        },
                    ),
                }
            },
        }
    }
}

/// Reads a span such as `7d`. The product is capped at the largest `u64`.
pub fn parse_since_duration(s: &str) -> (r: Result<u64, SinceError>)
    ensures
        ({
            let t = text::trimmed(s@);
            match r {
                Ok(secs) => {
                    &&& t.len() > 0
                    &&& span_count(s@) matches Some(n) && n > 0
                    &&& unit_secs(t.last()) is Some
                    &&& secs as nat == (if span_count(s@)->0 * unit_secs(t.last())->0
                        > u64::MAX as nat {
                        u64::MAX as nat
                    } else {
                        span_count(s@)->0 * unit_secs(t.last())->0
                    })
                },
                Err(SinceError::Empty) => t.len() == 0,
                Err(SinceError::NotANumber(x)) => t.len() > 0 && span_count(s@) is None && x@ == t,
                Err(SinceError::Zero(x)) => t.len() > 0 && span_count(s@) == Some(0nat) && x@ == t,
                Err(SinceError::UnknownSuffix(c)) => {
                    &&& t.len() > 0
                    &&& span_count(s@) matches Some(n) && n > 0
                    &&& unit_secs(t.last()) is None
                    &&& c == t.last()
                },
            }
        }),
{
    let t = text::trim(s);
    let v = text::chars(t.as_str());
    if v.len() == 0 {
        return Err(SinceError::Empty);
    }
    let suffix = v[v.len() - 1];
    let digits = text::string_of(&v, 0, v.len() - 1);
    assert(digits@ =~= t@.drop_last());
    let n: u64 = match text::parse_number(digits.as_str(), u64::MAX) {
        Some(n) => n,
        None => return Err(SinceError::NotANumber(t)),
    };
    if n == 0 {
        return Err(SinceError::Zero(t));
    }
    let unit: u64 = if suffix == 'h' {
        3600
    } else if suffix == 'd' {
        86400
    } else if suffix == 'w' {
        7 * 86400
    } else if suffix == 'm' {
        30 * 86400
    } else if suffix == 'y' {
        365 * 86400
    } else {
        return Err(SinceError::UnknownSuffix(suffix));
    };
    Ok(
        match n.checked_mul(unit) {
            Some(p) => p,
            None => u64::MAX,
        },
    )
}

impl SinceError {
    /// The message for the user.
    pub fn message(&self) -> (r: String)
        ensures
            r@ == (match *self {
                SinceError::Empty => "--since value must not be empty"@,
                SinceError::NotANumber(s) => "invalid --since format '"@ + s@
                    + "': expected <number><h|d|w|m|y>"@,
                SinceError::Zero(s) => "--since value must be positive, got '"@ + s@ + "'"@,
                SinceError::UnknownSuffix(c) => "unknown --since suffix '"@ + seq![c]
                    + "': expected h, d, w, m, or y"@,
            }),
    {
        match self {
            SinceError::Empty => "--since value must not be empty".to_owned(),
            SinceError::NotANumber(s) => "invalid --since format '".to_owned().concat(
                s.as_str(),
            ).concat("': expected <number><h|d|w|m|y>"),
            SinceError::Zero(s) => "--since value must be positive, got '".to_owned().concat(
                s.as_str(),
            ).concat("'"),
            SinceError::UnknownSuffix(c) => {
                let mut m = "unknown --since suffix '".to_owned();
                m.push(*c);
                assert(m@ =~= "unknown --since suffix '"@ + seq![*c]);
                m.concat("': expected h, d, w, m, or y")
            },
        }
    }
}

/// The days are counted one by one: within a month, from its last day to the next
/// month, and from the last day of a year to the next year, starting in 1970.
pub proof fn law_days_follow_each_other(y: int, m: int, d: int)
    requires
        is_date(y, m, d),
    ensures
        d < month_days(y, m) ==> is_date(y, m, d + 1) && day_number(y, m, d + 1) == day_number(
            y,
            m,
            d,
        ) + 1,
        d == month_days(y, m) && m < 12 ==> is_date(y, m + 1, 1) && day_number(y, m + 1, 1)
            == day_number(y, m, d) + 1,
        d == month_days(y, m) && m == 12 ==> is_date(y + 1, 1, 1) && day_number(y + 1, 1, 1)
            == day_number(y, m, d) + 1,
        day_number(1970, 1, 1) == 0,
{
    lemma_before_month(y);
    lemma_before_month(y + 1);
    lemma_year_length(y);
    assert(days_before_month(1970, 1) == 0);
}

/// A year has an extra day in February exactly every fourth year, leaving out three of
/// four centuries; the other months keep their lengths.
pub proof fn law_leap_years_are_one_day_longer(y: int, m: int)
    requires
        1 <= m <= 12,
    ensures
        days_before_year(y + 1) - days_before_year(y) == (if y % 400 == 0 || (y % 4 == 0 && y % 100
            != 0) {
            366
        } else {
            365int
        }),
        m != 2 ==> month_days(y, m) == month_days(y + 1, m),
        month_days(y, 2) == days_before_year(y + 1) - days_before_year(y) - 337,
{
    lemma_year_length(y);
}

/// A time of day is told by its hour, minute and second, behind the day it belongs to.
pub proof fn law_time_of_day_is_told(day: nat, h: nat, m: nat, s: nat)
    requires
        h < 24,
        m < 60,
        s < 60,
        day > 0,
    ensures
        ts_second(day * 86400 + h * 3600 + m * 60 + s) == date_text(day as int) + " "@
            + text::dec_padded(h, 2) + ":"@ + text::dec_padded(m, 2) + ":"@ + text::dec_padded(s, 2)
            + " UTC"@,
        ts_minute(day * 86400 + h * 3600 + m * 60 + s) == date_text(day as int) + " "@
            + text::dec_padded(h, 2) + ":"@ + text::dec_padded(m, 2),
        ts_date(day * 86400 + h * 3600 + m * 60 + s) == date_text(day as int),
{
    let ts = day * 86400 + h * 3600 + m * 60 + s;
    let r = h * 3600 + m * 60 + s;
    assert(ts / 86400 == day && ts % 86400 == r);
    assert(r / 3600 == h && r % 3600 == m * 60 + s);
    assert((m * 60 + s) / 60 == m);
    assert(ts % 60 == s) by {
        assert(ts == 60 * (1440 * day + 60 * h + m) + s);
    }
    let a = date_text(day as int);
    assert(ts_second(ts) =~= a + " "@ + text::dec_padded(h, 2) + ":"@ + text::dec_padded(m, 2)
        + ":"@ + text::dec_padded(s, 2) + " UTC"@);
    assert(ts_minute(ts) =~= a + " "@ + text::dec_padded(h, 2) + ":"@ + text::dec_padded(m, 2));
}

/// A span is told in the largest unit of which it holds one, in whole units.
pub proof fn law_spans_are_told_in_the_largest_unit(secs: nat, k: nat)
    ensures
        k * 3600 <= secs < (k + 1) * 3600 && secs < 86400 ==> span_text(secs) == counted(
            k,
            "hour"@,
        ),
        k * 86400 <= secs < (k + 1) * 86400 && 86400 <= secs < 604800 ==> span_text(secs)
            == counted(k, "day"@),
        k * 604800 <= secs < (k + 1) * 604800 && 604800 <= secs < 2592000 ==> span_text(secs)
            == counted(k, "week"@),
        k * 2592000 <= secs < (k + 1) * 2592000 && 2592000 <= secs < 31536000 ==> span_text(secs)
            == counted(k, "month"@),
        k * 31536000 <= secs < (k + 1) * 31536000 && 31536000 <= secs ==> span_text(secs)
            == counted(k, "year"@),
        "s"@.is_suffix_of(counted(k, "day"@)) <==> k != 1,
        text::dec(k).is_prefix_of(counted(k, "day"@)),
{
    if k * 3600 <= secs < (k + 1) * 3600 {
        assert(secs / 3600 == k);
    }
    if k * 86400 <= secs < (k + 1) * 86400 {
        assert(secs / 86400 == k);
    }
    if k * 604800 <= secs < (k + 1) * 604800 {
        assert(secs / 604800 == k);
    }
    if k * 2592000 <= secs < (k + 1) * 2592000 {
        assert(secs / 2592000 == k);
    }
    if k * 31536000 <= secs < (k + 1) * 31536000 {
        assert(secs / 31536000 == k);
    }
    reveal_strlit("s");
    reveal_strlit("day");
    reveal_strlit("");
    let c = counted(k, "day"@);
    let s = "s"@;
    let d = text::dec(k);
    assert(c.subrange(0, d.len() as int) =~= d);
    if k != 1 {
        assert(c.subrange(c.len() - 1, c.len() as int) =~= s);
    } else {
        assert(c.last() == 'y');
        if s.is_suffix_of(c) {
            assert(c.subrange(c.len() - 1, c.len() as int)[0] == 's');
        }
    }
}

/// A span is read as its number times its unit, where that can be held: an hour, 24 of
/// them to a day, seven days to a week, thirty to a month and 365 to a year. White space
/// around it does not count; no number, nothing, and another unit are refused.
pub proof fn law_spans_are_read_in_their_unit(pre: Seq<char>, n: u64, c: char, post: Seq<char>)
    requires
        text::all_space(pre),
        text::all_space(post),
        !text::is_space(c),
    ensures
        ({
            let r = read_span(pre + (text::dec(n as nat) + seq![c]) + post);
            &&& r is Ok <==> n > 0 && (c == 'h' || c == 'd' || c == 'w' || c == 'm' || c == 'y')
            &&& n > 0 && n * 31536000 <= u64::MAX ==> (c == 'h' ==> r == Ok::<nat, Seq<char>>(
                n as nat * 3600,
            )) && (c == 'd' ==> r == Ok::<nat, Seq<char>>(n as nat * (24 * 3600))) && (c == 'w'
                ==> r == Ok::<nat, Seq<char>>(n as nat * (7 * 24 * 3600))) && (c == 'm' ==> r
                == Ok::<nat, Seq<char>>(n as nat * (30 * 24 * 3600))) && (c == 'y' ==> r == Ok::<
                nat,
                Seq<char>,
            >(n as nat * (365 * 24 * 3600)))
            &&& r matches Ok(secs) ==> secs <= u64::MAX && secs >= n
        }),
        read_span(pre) is Err,
{
    let d = text::dec(n as nat);
    let t = d + seq![c];
    text::lemma_dec_value(n as nat);
    assert(text::is_digit(d[0]));
    assert(t[0] == d[0] && t.last() == c);
    text::law_trimming_drops_the_outer_space(pre, t, post);
    assert(t.drop_last() =~= d);
    text::law_numbers_are_read_back(n as nat, u64::MAX as nat);
    let k = n as nat;
    if let Some(u) = unit_secs(c) {
        assert(span_count(pre + t + post) == Some(k));
        if c == 'h' {
            assert(k * u == k * 3600);
        } else if c == 'd' {
            assert(k * u == k * 86400);
        } else if c == 'w' {
            assert(k * u == k * 604800);
        } else if c == 'm' {
            assert(k * u == k * 2592000);
        } else {
            assert(k * u == k * 31536000);
        }
    }
    let none = Seq::<char>::empty();
    text::law_trimming_drops_the_outer_space(pre, none, none);
    assert(pre + none + none =~= pre);
}

} // verus!
