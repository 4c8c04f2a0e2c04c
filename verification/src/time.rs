//! Points in time, and the calendar calls into `chrono`.
//!
//! The rules of the salon carry a time as two integers; `chrono` is asked only
//! for the clock and for turning those integers into calendar text and back.
use crate::json::text_less;
use crate::text::{digit, is_space};
use vstd::prelude::*;

verus! {

/// A point in time: seconds since the Unix epoch, and nanoseconds within the
/// second. In a leap second `nanos` runs from 1,000,000,000 on.
#[derive(Debug, Clone, Copy, PartialEq, Eq, Structural)]
pub struct Timestamp {
    pub secs: i64,
    pub nanos: u32,
}

impl Timestamp {
    /// The times that `chrono::DateTime<Utc>` can hold.
    pub open spec fn wf(self) -> bool {
        in_range(self.secs as int) && valid_nanos(self.secs as int, self.nanos as int)
    }

    /// Whether a time comes before another.
    pub open spec fn before(self, other: Timestamp) -> bool {
        self.secs < other.secs || (self.secs == other.secs && self.nanos < other.nanos)
    }

    /// The RFC 3339 text that is stored for a time.
    pub open spec fn rfc3339_text(self) -> Seq<char> {
        rfc3339(self.secs, self.nanos)
    }
}

/// From the first second of the year -262143 to the last of 262142.
pub open spec fn in_range(secs: int) -> bool {
    -8_334_601_228_800 <= secs <= 8_210_266_876_799
}

/// Nanoseconds below a second, or in the leap second that ends a minute.
pub open spec fn valid_nanos(secs: int, nanos: int) -> bool {
    0 <= nanos < 1_000_000_000 || (nanos < 2_000_000_000 && nanos >= 0 && secs % 60 == 59)
}

/// The years 0 to 9999, which RFC 3339 can write.
pub open spec fn in_four_digit_years(secs: int) -> bool {
    -62_167_219_200 <= secs <= 253_402_300_799
}

/// Whether a text has the form `YYYY-MM-DDTHH:MM:SS.mmmZ`.
pub open spec fn millis_form(s: Seq<char>) -> bool {
    &&& s.len() == 24
    &&& s[4] == '-' && s[7] == '-' && s[10] == 'T' && s[13] == ':' && s[16] == ':'
    &&& s[19] == '.' && s[23] == 'Z'
    &&& forall|i: int|
        0 <= i < 23 && i != 4 && i != 7 && i != 10 && i != 13 && i != 16 && i != 19 ==> '0'
            <= #[trigger] s[i] <= '9'
}

// ---------------------------------------------------------------------------
// The calendar
// ---------------------------------------------------------------------------

/// Whether a year has a 29th of February.
pub open spec fn is_leap_year(y: int) -> bool {
    y % 4 == 0 && (y % 100 != 0 || y % 400 == 0)
}

/// How many days a month has.
pub open spec fn month_days(y: int, m: int) -> int {
    if m == 2 {
        if is_leap_year(y) {
            29
        } else {
            28
        }
    } else if m == 4 || m == 6 || m == 9 || m == 11 {
        30
    } else {
        31
    }
}

/// How many days of a year come before a month.
pub open spec fn days_before_month(y: int, m: int) -> int
    decreases m,
{
    if m <= 1 {
        0
    } else {
        days_before_month(y, m - 1) + month_days(y, m - 1)
    }
}

/// How many days come before a year, counted from the year 0.
pub open spec fn days_before_year(y: int) -> int
    decreases y,
{
    if y <= 0 {
        0
    } else {
        days_before_year(y - 1) + if is_leap_year(y - 1) {
            366int
        } else {
            365int
        }
    }
}

/// What a calendar and a clock on the wall show.
pub struct Wall {
    pub year: int,
    pub month: int,
    pub day: int,
    pub hour: int,
    pub minute: int,
    pub second: int,
}

impl Wall {
    /// Whether there is such a second in the years 0 to 9999.
    pub open spec fn valid(self) -> bool {
        &&& 0 <= self.year <= 9999
        &&& 1 <= self.month <= 12
        &&& 1 <= self.day <= month_days(self.year, self.month)
        &&& 0 <= self.hour < 24
        &&& 0 <= self.minute < 60
        &&& 0 <= self.second < 60
    }

    /// The days from the year 0 to this one.
    pub open spec fn days(self) -> int {
        days_before_year(self.year) + days_before_month(self.year, self.month) + self.day - 1
    }

    /// The seconds from the start of 1970 to this one.
    pub open spec fn secs(self) -> int {
        (self.days() - days_before_year(1970)) * 86_400 + self.hour * 3_600 + self.minute * 60
            + self.second
    }

    /// The date and the time to the minute, in digits, with separators between.
    pub open spec fn minute_text(self, a: char, b: char, c: char, d: char) -> Seq<char> {
        two_digits(self.year / 100) + two_digits(self.year % 100) + seq![a] + two_digits(self.month)
            + seq![b] + two_digits(self.day) + seq![c] + two_digits(self.hour) + seq![d]
            + two_digits(self.minute)
    }

    /// The same with the second, which in a leap second is one more.
    pub open spec fn second_text(
        self,
        a: char,
        b: char,
        c: char,
        d: char,
        e: char,
        leap: bool,
    ) -> Seq<char> {
        self.minute_text(a, b, c, d) + seq![e] + two_digits(
            self.second + if leap {
                1int
            } else {
                0int
            },
        )
    }
}

/// A number below a hundred in two digits.
pub open spec fn two_digits(n: int) -> Seq<char> {
    seq![digit(n / 10), digit(n % 10)]
}

/// The format that writes year, month, day, hour and minute, in this order.
pub open spec fn minute_format(a: char, b: char, c: char, d: char) -> Seq<char> {
    seq!['%', 'Y', a, '%', 'm', b, '%', 'd', c, '%', 'H', d, '%', 'M']
}

/// The format that writes the second too.
pub open spec fn second_format(a: char, b: char, c: char, d: char, e: char) -> Seq<char> {
    minute_format(a, b, c, d) + seq![e, '%', 'S']
}

/// Whether a character can stand between two numbers that are read.
pub open spec fn parts_numbers(c: char) -> bool {
    c != '%' && !is_space(c) && !('0' <= c <= '9')
}

/// Offsets from UTC shorter than a day.
pub open spec fn valid_offset(offset: int) -> bool {
    -86_400 < offset < 86_400
}

/// A format string whose only directives are `%Y %m %d %H %M %S`.
pub open spec fn plain_format(format: Seq<char>) -> bool {
    forall|i: int|
        0 <= i < format.len() && #[trigger] format[i] == '%' ==> i + 1 < format.len() && (
        format[i + 1] == 'Y' || format[i + 1] == 'm' || format[i + 1] == 'd' || format[i + 1] == 'H'
            || format[i + 1] == 'M' || format[i + 1] == 'S')
}

/// How many digits of the second RFC 3339 text carries.
#[derive(Debug, Clone, Copy, PartialEq, Eq, Structural)]
pub enum Precision {
    /// Three digits, always.
    Millis,
    /// None, three, six or nine, as many as the time needs.
    Auto,
}

/// What `DateTime::<Utc>::to_rfc3339_opts` writes for a time.
pub uninterp spec fn rfc3339_opts(secs: i64, nanos: u32, millis: bool, use_z: bool) -> Seq<char>;

/// What `DateTime::<Utc>::to_rfc3339` writes for a time.
pub uninterp spec fn rfc3339(secs: i64, nanos: u32) -> Seq<char>;

/// The time that `DateTime::parse_from_rfc3339` reads, in UTC, if it reads one.
pub uninterp spec fn rfc3339_time(text: Seq<char>) -> Option<(i64, u32)>;

/// What `DateTime::format` writes for a time at an offset east of UTC.
pub uninterp spec fn formatted(
    secs: i64,
    nanos: u32,
    offset: i32,
    format: Seq<char>,
) -> Seq<char>;

/// The wall-clock time that `NaiveDateTime::parse_from_str` reads, if it reads
/// one, counted as if it were UTC.
pub uninterp spec fn naive_time(text: Seq<char>, format: Seq<char>) -> Option<(i64, u32)>;

/// The error of `chrono`'s parsers.
#[verifier::external_type_specification]
#[verifier::external_body]
pub struct ExParseError(chrono::ParseError);

/// Calls `chrono::Utc::now`. Of the clock's reading only that it is a time
/// `chrono` can hold is claimed; it differs from call to call.
#[verifier::external_body]
pub(crate) fn utc_now() -> (r: Timestamp)
    ensures
        r.wf(),
{
    let now = chrono::Utc::now();
    Timestamp { secs: now.timestamp(), nanos: now.timestamp_subsec_nanos() }
}

/// Calls `DateTime::<Utc>::to_rfc3339`. The text is named; besides, in the years
/// 0 to 9999 such texts are in the order of their times: every field has a fixed
/// width, and a fraction is left out or cut short only where zeros are left out.
#[verifier::external_body]
pub(crate) fn to_rfc3339(t: Timestamp) -> (r: String)
    requires
        t.wf(),
    ensures
        r@ == rfc3339(t.secs, t.nanos),
        forall|u: Timestamp|
            u.wf() && in_four_digit_years(u.secs as int) && in_four_digit_years(t.secs as int) ==> (
            text_less(r@, #[trigger] u.rfc3339_text()) <==> t.before(u)),
        forall|u: Timestamp|
            u.wf() && in_four_digit_years(u.secs as int) && in_four_digit_years(t.secs as int) ==> (
            text_less(#[trigger] u.rfc3339_text(), r@) <==> u.before(t)),
{
    chrono::DateTime::from_timestamp(t.secs, t.nanos).unwrap().to_rfc3339()
}

/// Calls `DateTime::<Utc>::to_rfc3339_opts`. The text is named; besides, with
/// millisecond precision and a `Z`, it has one form in the years 0 to 9999.
#[verifier::external_body]
pub(crate) fn to_rfc3339_opts(t: Timestamp, precision: Precision, use_z: bool) -> (r: String)
    requires
        t.wf(),
    ensures
        r@ == rfc3339_opts(t.secs, t.nanos, precision == Precision::Millis, use_z),
        precision == Precision::Millis && use_z && in_four_digit_years(t.secs as int)
            ==> millis_form(r@),
{
    let form = match precision {
        Precision::Millis => chrono::SecondsFormat::Millis,
        Precision::Auto => chrono::SecondsFormat::AutoSi,
    };
    chrono::DateTime::from_timestamp(t.secs, t.nanos).unwrap().to_rfc3339_opts(form, use_z)
}

/// Calls `DateTime::parse_from_rfc3339` and takes the result to UTC. What is
/// read is named; besides, the text that `to_rfc3339` writes for a time in the
/// years 0 to 9999 is read back as that time.
#[verifier::external_body]
pub(crate) fn parse_rfc3339(text: &str) -> (r: Result<Timestamp, chrono::ParseError>)
    ensures
        match r {
            Ok(t) => rfc3339_time(text@) == Some((t.secs, t.nanos)) && t.wf(),
            Err(_) => rfc3339_time(text@) is None,
        },
        forall|t: Timestamp|
            t.wf() && in_four_digit_years(t.secs as int) && text@ == (#[trigger] t.rfc3339_text())
                ==> r is Ok && r->Ok_0 == t,
{
    let t = chrono::DateTime::parse_from_rfc3339(text)?.with_timezone(&chrono::Utc);
    Ok(Timestamp { secs: t.timestamp(), nanos: t.timestamp_subsec_nanos() })
}

/// Calls `DateTime::with_timezone` with a fixed offset east of UTC, and
/// `DateTime::format`. The text is named; besides, a format of year, month, day,
/// hour, minute and second writes in their places, for the years 0 to 9999, the
/// digits of the calendar and the clock at that offset. A format with a directive
/// that `chrono` does not know makes it panic: only plain formats are admitted.
#[verifier::external_body]
pub(crate) fn format_at(t: Timestamp, offset: i32, format: &str) -> (r: String)
    requires
        t.wf(),
        valid_offset(offset as int),
        plain_format(format@),
    ensures
        r@ == formatted(t.secs, t.nanos, offset, format@),
        forall|w: Wall, a: char, b: char, c: char, d: char, e: char, leap: bool|
            w.valid() && w.secs() == t.secs + offset && leap == (t.nanos >= 1_000_000_000)
                && format@ == second_format(a, b, c, d, e) && a != '%' && b != '%' && c != '%' && d
                != '%' && e != '%' ==> r@ == #[trigger] w.second_text(a, b, c, d, e, leap),
{
    let zone = chrono::FixedOffset::east_opt(offset).unwrap();
    chrono::DateTime::from_timestamp(t.secs, t.nanos).unwrap().with_timezone(&zone).format(
        format,
    ).to_string()
}

/// Calls `NaiveDateTime::parse_from_str`. What is read is named; it is a time
/// that `chrono` can hold. Besides, what a format of year, month, day, hour and
/// minute, with or without the second, writes for a wall-clock time is read as
/// that time; and a format without the second does not read a text with one.
#[verifier::external_body]
pub(crate) fn parse_naive(text: &str, format: &str) -> (r: Result<Timestamp, chrono::ParseError>)
    requires
        plain_format(format@),
    ensures
        match r {
            Ok(t) => naive_time(text@, format@) == Some((t.secs, t.nanos)) && t.wf(),
            Err(_) => naive_time(text@, format@) is None,
        },
        forall|w: Wall, a: char, b: char, c: char, d: char|
            w.valid() && w.second == 0 && format@ == minute_format(a, b, c, d) && parts_numbers(a)
                && parts_numbers(b) && parts_numbers(c) && parts_numbers(d) && text@
                == #[trigger] w.minute_text(a, b, c, d) ==> r is Ok && r->Ok_0.secs == w.secs()
                && r->Ok_0.nanos == 0,
        forall|w: Wall, a: char, b: char, c: char, d: char, e: char|
            w.valid() && format@ == second_format(a, b, c, d, e) && parts_numbers(a)
                && parts_numbers(b) && parts_numbers(c) && parts_numbers(d) && parts_numbers(e)
                && text@ == #[trigger] w.second_text(a, b, c, d, e, false) ==> r is Ok
                && r->Ok_0.secs == w.secs() && r->Ok_0.nanos == 0,
        forall|w: Wall, a: char, b: char, c: char, d: char, e: char|
            w.valid() && format@ == minute_format(a, b, c, d) && parts_numbers(a) && parts_numbers(
                b,
            ) && parts_numbers(c) && parts_numbers(d) && parts_numbers(e) && text@
                == #[trigger] w.second_text(a, b, c, d, e, false) ==> r is Err,
{
    let t = chrono::NaiveDateTime::parse_from_str(text, format)?.and_utc();
    Ok(Timestamp { secs: t.timestamp(), nanos: t.timestamp_subsec_nanos() })
}

/// The UTC time of a wall-clock time at an offset east of UTC, where the
/// calendar holds it.
pub open spec fn local_to_utc(secs: i64, nanos: u32, offset: i32) -> Option<(i64, u32)> {
    if in_range(secs - offset) {
        Some(((secs - offset) as i64, nanos))
    } else {
        None
    }
}

/// Calls `NaiveDateTime::and_local_timezone` with a fixed offset east of UTC,
/// and `single` on its result. A fixed offset maps every wall-clock time to the
/// one UTC time that lies the offset earlier, unless that leaves the calendar.
#[verifier::external_body]
pub(crate) fn at_offset(naive: Timestamp, offset: i32) -> (r: Option<Timestamp>)
    requires
        naive.wf(),
        valid_offset(offset as int),
        offset % 60 == 0,
    ensures
        match r {
            Some(t) => local_to_utc(naive.secs, naive.nanos, offset) == Some((t.secs, t.nanos)),
            None => local_to_utc(naive.secs, naive.nanos, offset) is None,
        },
{
    let zone = chrono::FixedOffset::east_opt(offset).unwrap();
    let naive = chrono::DateTime::from_timestamp(naive.secs, naive.nanos).unwrap().naive_utc();
    let t = naive.and_local_timezone(zone).single()?.with_timezone(&chrono::Utc);
    Some(Timestamp { secs: t.timestamp(), nanos: t.timestamp_subsec_nanos() })
}

/// Where a wall-clock time a minute-exact offset from UTC is a time, so is the
/// UTC time it stands for.
pub proof fn lemma_local_to_utc_wf(secs: i64, nanos: u32, offset: i32)
    requires
        in_range(secs as int),
        valid_nanos(secs as int, nanos as int),
        offset % 60 == 0,
        valid_offset(offset as int),
    ensures
        local_to_utc(secs, nanos, offset) matches Some(t) ==> in_range(t.0 as int) && valid_nanos(
            t.0 as int,
            t.1 as int,
        ),
{
}

// ---------------------------------------------------------------------------
// Laws of the calendar
// ---------------------------------------------------------------------------

/// Whether one wall-clock time comes before another: by year, then by month, and
/// so on down to the second.
pub open spec fn earlier(v: Wall, w: Wall) -> bool {
    ||| v.year < w.year
    ||| v.year == w.year && v.month < w.month
    ||| v.year == w.year && v.month == w.month && v.day < w.day
    ||| v.year == w.year && v.month == w.month && v.day == w.day && v.hour < w.hour
    ||| v.year == w.year && v.month == w.month && v.day == w.day && v.hour == w.hour && v.minute
        < w.minute
    ||| v.year == w.year && v.month == w.month && v.day == w.day && v.hour == w.hour && v.minute
        == w.minute && v.second < w.second
}

proof fn lemma_months_before(y: int, m: int, n: int)
    requires
        1 <= m <= n,
    ensures
        days_before_month(y, m) <= days_before_month(y, n),
        m < n ==> days_before_month(y, m) + month_days(y, m) <= days_before_month(y, n),
    decreases n,
{
    if m < n {
        lemma_months_before(y, m, n - 1);
    }
}

proof fn lemma_year_of_months(y: int)
    ensures
        days_before_month(y, 13) == if is_leap_year(y) {
            366int
        } else {
            365int
        },
        days_before_month(y, 1) == 0,
{
    reveal_with_fuel(days_before_month, 14);
}

proof fn lemma_years_before(y: int, z: int)
    requires
        0 <= y <= z,
    ensures
        0 <= days_before_year(y) <= days_before_year(z),
        y < z ==> days_before_year(y + 1) <= days_before_year(z),
    decreases z,
{
    if y < z {
        lemma_years_before(y, z - 1);
    } else if y > 0 {
        lemma_years_before(y - 1, y - 1);
    }
}

proof fn lemma_day_in_year(w: Wall)
    requires
        w.valid(),
    ensures
        days_before_year(w.year) <= w.days() < days_before_year(w.year + 1),
{
    lemma_months_before(w.year, 1, w.month);
    lemma_months_before(w.year, w.month, 13);
    lemma_year_of_months(w.year);
}

/// Of two wall-clock times the one that comes first is fewer seconds after the
/// start of 1970.
pub proof fn law_calendar_runs_forward(v: Wall, w: Wall)
    requires
        v.valid(),
        w.valid(),
    ensures
        v.secs() < w.secs() <==> earlier(v, w),
        v.secs() == w.secs() ==> v == w,
{
    lemma_in_order(v, w);
    lemma_in_order(w, v);
}

proof fn lemma_in_order(v: Wall, w: Wall)
    requires
        v.valid(),
        w.valid(),
    ensures
        earlier(v, w) ==> v.secs() < w.secs(),
{
    if v.year < w.year {
        lemma_day_in_year(v);
        lemma_day_in_year(w);
        lemma_years_before(v.year, w.year);
        assert(v.days() < w.days());
    } else if v.year == w.year && v.month < w.month {
        lemma_months_before(v.year, v.month, w.month);
        assert(v.days() < w.days());
    } else if v.year == w.year && v.month == w.month && v.day < w.day {
        assert(v.days() < w.days());
    }
}

proof fn lemma_year_of(day: int, y: int) -> (r: int)
    requires
        0 <= y <= 9999,
        days_before_year(y) <= day < days_before_year(10_000),
    ensures
        y <= r <= 9999,
        days_before_year(r) <= day < days_before_year(r + 1),
    decreases 10_000 - y,
{
    if day < days_before_year(y + 1) {
        y
    } else {
        assert(y + 1 < 10_000);
        lemma_year_of(day, y + 1)
    }
}

proof fn lemma_month_of(y: int, day: int, m: int) -> (r: int)
    requires
        1 <= m <= 12,
        days_before_month(y, m) <= day < days_before_month(y, 13),
    ensures
        m <= r <= 12,
        days_before_month(y, r) <= day < days_before_month(y, r) + month_days(y, r),
    decreases 13 - m,
{
    if day < days_before_month(y, m + 1) {
        m
    } else {
        lemma_month_of(y, day, m + 1)
    }
}

proof fn lemma_centuries(y: int)
    requires
        0 <= y,
    ensures
        days_before_year(y) == 365 * y + (y + 3) / 4 - (y + 99) / 100 + (y + 399) / 400,
    decreases y,
{
    if y > 0 {
        lemma_centuries(y - 1);
    }
}

/// A date in the years 0 to 9999 lies in them.
pub proof fn lemma_seconds_of_dates(w: Wall)
    requires
        w.valid(),
    ensures
        in_four_digit_years(w.secs()),
{
    lemma_centuries(1970);
    lemma_centuries(10_000);
    lemma_day_in_year(w);
    lemma_years_before(0, w.year);
    lemma_years_before(w.year, 10_000);
}

/// Every second of the years 0 to 9999 is on the calendar.
pub proof fn law_every_second_has_a_date(secs: int) -> (w: Wall)
    requires
        in_four_digit_years(secs),
    ensures
        w.valid(),
        w.secs() == secs,
{
    lemma_centuries(1970);
    lemma_centuries(10_000);
    let day = secs / 86_400 + days_before_year(1970);
    let rest = secs % 86_400;
    let y = lemma_year_of(day, 0);
    let in_year = day - days_before_year(y);
    lemma_year_of_months(y);
    let m = lemma_month_of(y, in_year, 1);
    Wall {
        year: y,
        month: m,
        day: in_year - days_before_month(y, m) + 1,
        hour: rest / 3_600,
        minute: rest % 3_600 / 60,
        second: rest % 60,
    }
}

} // verus!
