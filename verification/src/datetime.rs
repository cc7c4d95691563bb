//! Instants and calendar dates as plain integers; the calendar itself is
//! chrono's.
use vstd::prelude::*;
use crate::text;

verus! {

/// An instant: whole seconds since 1970-01-01T00:00:00Z and the nanoseconds
/// after them.
#[derive(Clone, Copy, Debug, PartialEq, Eq, Structural)]
pub struct Timestamp {
    pub secs: i64,
    pub nanos: u32,
}

impl Timestamp {
    /// The instant is one that chrono's `DateTime<Utc>` can hold; a leap
    /// second counts its nanoseconds on from the last second of its minute.
    pub open spec fn wf(self) -> bool {
        &&& -8334601228800 <= self.secs <= 8210266876799
        &&& self.nanos < 2_000_000_000
        &&& self.nanos >= 1_000_000_000 ==> self.secs % 60 == 59
    }

    /// `self` comes before `other`.
    pub open spec fn before(self, other: Timestamp) -> bool {
        self.secs < other.secs || (self.secs == other.secs && self.nanos < other.nanos)
    }

    /// Whether `self` comes before `other`.
    pub fn is_before(self, other: Timestamp) -> (r: bool)
        ensures
            r == self.before(other),
    {
        self.secs < other.secs || (self.secs == other.secs && self.nanos < other.nanos)
    }
}

/// Days from 1970-01-01 to the first of January of `year` in the proleptic
/// Gregorian calendar.
pub open spec fn days_before_year(year: int) -> int {
    365 * (year - 1970) + (year - 1) / 4 - (year - 1) / 100 + (year - 1) / 400 - 477
}

/// The second in which `year` begins, in UTC.
pub open spec fn year_start(year: int) -> int {
    86400 * days_before_year(year)
}

/// The decimal digit of `n`, for `n` below ten.
pub open spec fn digit(n: int) -> char {
    (48 + n) as char
}

/// `n`, below ten thousand, in four digits.
pub open spec fn four_digits(n: int) -> Seq<char> {
    seq![digit(n / 1000 % 10), digit(n / 100 % 10), digit(n / 10 % 10), digit(n % 10)]
}

/// `n`, below a thousand, in three digits.
pub open spec fn three_digits(n: int) -> Seq<char> {
    seq![digit(n / 100 % 10), digit(n / 10 % 10), digit(n % 10)]
}

/// `n`, below a hundred, in two digits.
pub open spec fn two_digits(n: int) -> Seq<char> {
    seq![digit(n / 10 % 10), digit(n % 10)]
}

/// The UTC year that an instant lies in.
pub open spec fn year_of(secs: int) -> int {
    choose|y: int| #[trigger] year_start(y) <= secs < year_start(y + 1)
}

/// A year in four digits; one outside 0..=9999 with its sign, and with more digits
/// where it has them.
pub open spec fn year_digits(y: int) -> Seq<char> {
    if 0 <= y <= 9999 {
        four_digits(y)
    } else if y > 9999 {
        seq!['+'] + text::decimal_text(y as nat)
    } else if y >= -9999 {
        seq!['-'] + four_digits(-y)
    } else {
        seq!['-'] + text::decimal_text((-y) as nat)
    }
}

/// The year of an instant, in UTC.
pub open spec fn year_text(secs: int) -> Seq<char> {
    year_digits(year_of(secs))
}

/// Every instant of the calendar lies in a year.
pub proof fn lemma_year_of(secs: int)
    requires
        year_start(-300000) <= secs < year_start(300000),
    ensures
        year_start(year_of(secs)) <= secs < year_start(year_of(secs) + 1),
{
    lemma_year_below(secs, 300000);
}

proof fn lemma_year_below(secs: int, n: int)
    requires
        -300000 < n <= 300000,
        year_start(-300000) <= secs < year_start(n),
    ensures
        exists|y: int| #[trigger] year_start(y) <= secs < year_start(y + 1),
    decreases n + 300000,
{
    if year_start(n - 1) <= secs {
        assert(year_start(n - 1 + 1) == year_start(n));
    } else {
        lemma_year_below(secs, n - 1);
    }
}

/// An instant lies in one year only: where that is 2021, `2021` is what is written.
pub proof fn law_instants_have_one_year(secs: int, y: int)
    requires
        year_start(y) <= secs < year_start(y + 1),
    ensures
        year_of(secs) == y,
        year_text(secs) == year_digits(y),
{
    let z = year_of(secs);
    if z < y {
        lemma_years_ascend(z + 1, y);
    } else if y < z {
        lemma_years_ascend(y + 1, z);
    }
}

proof fn lemma_years_ascend(a: int, b: int)
    requires
        a <= b,
    ensures
        year_start(a) <= year_start(b),
    decreases b - a,
{
    if a < b {
        lemma_years_ascend(a, b - 1);
    }
}

/// `chrono::DateTime::<Utc>::format` with `%Y`: the UTC year, in four digits from 0
/// to 9999, with its sign otherwise.
#[verifier::external_body]
fn chrono_format_year(t: Timestamp) -> (r: String)
    requires
        t.wf(),
    ensures
        forall|y: int|
            #[trigger] year_start(y) <= t.secs < year_start(y + 1) ==> r@ == year_digits(y),
{
    chrono::DateTime::from_timestamp(t.secs, t.nanos).unwrap().format("%Y").to_string()
}

/// The UTC year of an instant.
pub fn format_year(t: Timestamp) -> (r: String)
    requires
        t.wf(),
    ensures
        r@ == year_text(t.secs as int),
{
    let r = chrono_format_year(t);
    proof {
        lemma_year_of(t.secs as int);
    }
    r
}

/// A day of the proleptic Gregorian calendar.
#[derive(Clone, Copy, Debug, PartialEq, Eq, Structural)]
pub struct Date {
    pub year: i32,
    pub month: u32,
    pub day: u32,
}

/// `year` has a 29th of February.
pub open spec fn is_leap(year: int) -> bool {
    year % 4 == 0 && (year % 100 != 0 || year % 400 == 0)
}

/// The number of days of a month.
pub open spec fn days_in_month(year: int, month: int) -> int {
    if month == 2 {
        if is_leap(year) {
            29
        } else {
            28
        }
    } else if month == 4 || month == 6 || month == 9 || month == 11 {
        30
    } else {
        31
    }
}

impl Date {
    /// The day exists, in a year that chrono's `NaiveDate` can hold.
    pub open spec fn wf(self) -> bool {
        &&& -262143 <= self.year <= 262142
        &&& 1 <= self.month <= 12
        &&& 1 <= self.day <= days_in_month(self.year as int, self.month as int)
    }
}

/// A day in the form `2026-05-22`.
pub open spec fn iso_date(d: Date) -> Seq<char> {
    year_digits(d.year as int) + seq!['-'] + two_digits(d.month as int) + seq!['-'] + two_digits(
        d.day as int,
    )
}

/// `chrono::NaiveDate::format` with `%Y-%m-%d`: the year in four digits, outside
/// 0..=9999 with its sign, month and day in two.
#[verifier::external_body]
fn chrono_format_date(d: Date) -> (r: String)
    requires
        d.wf(),
    ensures
        r@ == iso_date(d),
{
    chrono::NaiveDate::from_ymd_opt(d.year, d.month, d.day).unwrap().format("%Y-%m-%d").to_string()
}

/// The day in ISO 8601 form.
pub fn format_date(d: Date) -> (r: String)
    requires
        d.wf(),
    ensures
        r@ == iso_date(d),
{
    chrono_format_date(d)
}

/// Days from the first of January to the first of a month.
pub open spec fn days_before_month(year: int, month: int) -> int
    decreases month,
{
    if month <= 1 {
        0
    } else {
        days_before_month(year, month - 1) + days_in_month(year, month - 1)
    }
}

/// The instant in which a day begins, in UTC.
pub open spec fn day_start(d: Date) -> int {
    86400 * (days_before_year(d.year as int) + days_before_month(d.year as int, d.month as int)
        + d.day - 1)
}

/// `chrono::Utc::with_ymd_and_hms` for midnight on the first of January, an
/// instant that every year has.
#[verifier::external_body]
pub(crate) fn first_of_january(year: i32) -> (r: Option<Timestamp>)
    requires
        1000 <= year <= 9999,
    ensures
        r == Some(Timestamp { secs: year_start(year as int) as i64, nanos: 0 }),
{
    let t = chrono::TimeZone::with_ymd_and_hms(&chrono::Utc, year, 1, 1, 0, 0, 0).single();
    t.map(|t| Timestamp { secs: t.timestamp(), nanos: t.timestamp_subsec_nanos() })
}

/// What chrono reads a text in the form of RFC 3339 as: the instant, in UTC, or
/// what is wrong with the text.
pub uninterp spec fn rfc3339_reading(s: Seq<char>) -> Result<Timestamp, Seq<char>>;

/// The instant that a text names in the form of RFC 3339.
pub open spec fn rfc3339_instant(s: Seq<char>) -> Option<Timestamp> {
    match rfc3339_reading(s) {
        Ok(t) => Some(t),
        Err(_) => None,
    }
}

/// `chrono::DateTime::parse_from_rfc3339`, the result in UTC, the error as its
/// text. It is a function of the text, and an instant that chrono can hold.
#[verifier::external_body]
pub(crate) fn read_instant(s: &str) -> (r: Result<Timestamp, String>)
    ensures
        match r {
            Ok(t) => rfc3339_reading(s@) == Ok::<Timestamp, Seq<char>>(t) && t.wf(),
            Err(m) => rfc3339_reading(s@) == Err::<Timestamp, Seq<char>>(m@),
        },
{
    match chrono::DateTime::parse_from_rfc3339(s) {
        Ok(t) => Ok(Timestamp { secs: t.timestamp(), nanos: t.timestamp_subsec_nanos() }),
        Err(e) => Err(e.to_string()),
    }
}

/// The instant that a text names in the form of RFC 3339.
pub fn read_rfc3339(s: &str) -> (r: Option<Timestamp>)
    ensures
        r == rfc3339_instant(s@),
        r matches Some(t) ==> t.wf(),
{
    match read_instant(s) {
        Ok(t) => Some(t),
        Err(_) => None,
    }
}

/// An instant in the form of RFC 3339, as chrono writes it.
pub uninterp spec fn rfc3339_text(secs: int, nanos: int) -> Seq<char>;

/// `chrono::DateTime::<Utc>::to_rfc3339`. It is a function of the instant.
#[verifier::external_body]
pub(crate) fn format_rfc3339(t: Timestamp) -> (r: String)
    requires
        t.wf(),
    ensures
        r@ == rfc3339_text(t.secs as int, t.nanos as int),
{
    chrono::DateTime::from_timestamp(t.secs, t.nanos).unwrap().to_rfc3339()
}

/// The day that a text names in the form `%Y-%m-%d`, as chrono reads it.
pub uninterp spec fn ymd_date(s: Seq<char>) -> Option<Date>;

/// `chrono::NaiveDate::parse_from_str` with `%Y-%m-%d`. It is a function of the
/// text, and a day that exists.
#[verifier::external_body]
pub(crate) fn read_ymd(s: &str) -> (r: Option<Date>)
    ensures
        r == ymd_date(s@),
        r matches Some(d) ==> d.wf(),
{
    let d = chrono::NaiveDate::parse_from_str(s, "%Y-%m-%d").ok();
    d.map(
        |d|
            Date {
                year: chrono::Datelike::year(&d),
                month: chrono::Datelike::month(&d),
                day: chrono::Datelike::day(&d),
            },
    )
}

/// `chrono::NaiveDate::and_hms_opt` for midnight, in UTC: an instant that every
/// day has.
#[verifier::external_body]
pub(crate) fn midnight(d: Date) -> (r: Timestamp)
    requires
        d.wf(),
    ensures
        r.secs == day_start(d),
        r.nanos == 0,
        r.wf(),
{
    let day = chrono::NaiveDate::from_ymd_opt(d.year, d.month, d.day).unwrap();
    let t = day.and_hms_opt(0, 0, 0).unwrap().and_utc();
    Timestamp { secs: t.timestamp(), nanos: t.timestamp_subsec_nanos() }
}

/// A leap year has a day more than another, and the days of the months add up to it.
pub proof fn law_years_have_their_days(year: int)
    ensures
        days_before_year(year + 1) - days_before_year(year) == if is_leap(year) {
            366int
        } else {
            365int
        },
        days_before_month(year, 13) == days_before_year(year + 1) - days_before_year(year),
        days_before_year(1970) == 0,
{
    reveal_with_fuel(days_before_month, 14);
    lemma_leap_days(year);
}

proof fn lemma_leap_days(year: int)
    ensures
        year / 4 - (year - 1) / 4 == (if year % 4 == 0 {
            1int
        } else {
            0int
        }),
        year / 100 - (year - 1) / 100 == (if year % 100 == 0 {
            1int
        } else {
            0int
        }),
        year / 400 - (year - 1) / 400 == (if year % 400 == 0 {
            1int
        } else {
            0int
        }),
{
}

/// Days follow one another: each begins a day's length after the one before it, across
/// the ends of months and years too.
pub proof fn law_days_follow_one_another(d: Date)
    requires
        d.wf(),
        d.year < 262142,
    ensures
        d.day < days_in_month(d.year as int, d.month as int) ==> day_start(
            Date { day: (d.day + 1) as u32, ..d },
        ) == day_start(d) + 86400,
        d.day == days_in_month(d.year as int, d.month as int) && d.month < 12 ==> day_start(
            Date { year: d.year, month: (d.month + 1) as u32, day: 1 },
        ) == day_start(d) + 86400,
        d.day == 31 && d.month == 12 ==> day_start(
            Date { year: (d.year + 1) as i32, month: 1, day: 1 },
        ) == day_start(d) + 86400,
        day_start(Date { year: 1970, month: 1, day: 1 }) == 0,
{
    law_years_have_their_days(d.year as int);
    law_years_have_their_days(1970);
    if d.month == 12 {
        assert(days_before_month(d.year as int, 13) == days_before_month(d.year as int, 12)
            + days_in_month(d.year as int, 12));
    }
}

/// Four digits are read back as the year that was written, the thousands first.
pub proof fn law_years_are_written_in_four_digits(y: int)
    requires
        0 <= y <= 9999,
    ensures
        year_digits(y).len() == 4,
        forall|i: int| 0 <= i < 4 ==> text::is_digit(#[trigger] year_digits(y)[i]),
        1000 * (year_digits(y)[0] as int - 48) + 100 * (year_digits(y)[1] as int - 48) + 10 * (
        year_digits(y)[2] as int - 48) + (year_digits(y)[3] as int - 48) == y,
{
    assert(y == 1000 * (y / 1000 % 10) + 100 * (y / 100 % 10) + 10 * (y / 10 % 10) + y % 10);
}

/// A day is written with its year first, then its month, then its day.
pub proof fn law_days_are_written_year_first(d: Date)
    requires
        0 <= d.year <= 9999,
        d.month < 100,
        d.day < 100,
    ensures
        iso_date(d).len() == 10,
        iso_date(d).take(4) == year_digits(d.year as int),
        iso_date(d)[4] == '-' && iso_date(d)[7] == '-',
        10 * (iso_date(d)[5] as int - 48) + (iso_date(d)[6] as int - 48) == d.month,
        10 * (iso_date(d)[8] as int - 48) + (iso_date(d)[9] as int - 48) == d.day,
{
    assert(iso_date(d).take(4) =~= year_digits(d.year as int));
}

/// Of two instants that differ one comes before the other, and never both.
pub proof fn law_instants_are_ordered(a: Timestamp, b: Timestamp, c: Timestamp)
    ensures
        !(a.before(b) && b.before(a)),
        a != b ==> a.before(b) || b.before(a),
        a.before(b) && b.before(c) ==> a.before(c),
        a.secs < b.secs ==> a.before(b),
{
}

/// Two and three digits are read back as the number that was written.
pub proof fn law_digits_are_read_back(n: int)
    requires
        0 <= n < 1000,
    ensures
        n < 100 ==> 10 * (two_digits(n)[0] as int - 48) + (two_digits(n)[1] as int - 48) == n,
        100 * (three_digits(n)[0] as int - 48) + 10 * (three_digits(n)[1] as int - 48) + (
        three_digits(n)[2] as int - 48) == n,
{
    assert(n == 100 * (n / 100 % 10) + 10 * (n / 10 % 10) + n % 10);
}

/// How long the months are, and that a year begins with its first day.
pub proof fn law_months_have_their_days(year: int, month: int, d: Date)
    ensures
        month == 4 || month == 6 || month == 9 || month == 11 ==> days_in_month(year, month) == 30,
        month == 1 || month == 3 || month == 5 || month == 7 || month == 8 || month == 10 || month
            == 12 ==> days_in_month(year, month) == 31,
        year % 4 != 0 || (year % 100 == 0 && year % 400 != 0) ==> days_in_month(year, 2) == 28,
        year % 4 == 0 && year % 100 != 0 ==> days_in_month(year, 2) == 29,
        year % 400 == 0 ==> days_in_month(year, 2) == 29,
        d.month == 1 && d.day == 1 ==> year_start(d.year as int) == day_start(d),
        1 <= d.month <= 12 && 1 <= d.day <= 28 && -262143 <= d.year <= 262142 ==> d.wf(),
        d.wf() ==> 1 <= d.month <= 12 && 1 <= d.day <= 31,
{
    assert(year % 400 == 0 ==> year % 4 == 0);
}

} // verus!
