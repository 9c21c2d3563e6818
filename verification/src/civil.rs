//! The calendar: written dates, the boundaries a moment can be rounded to, and the range of
//! moments that round to one.

use vstd::prelude::*;
use crate::text::{bytes, dec, push_dec};

verus! {

/// A calendar boundary.
#[derive(Clone, Copy, PartialEq, Eq, Debug, Structural)]
pub enum Unit {
    Year,
    Quarter,
    Month,
    Week,
    Day,
    Hour,
    Minute,
    Second,
}

impl Unit {
    /// The word a boundary is written with.
    pub open spec fn word(self) -> Seq<char> {
        match self {
            Unit::Year => "year"@,
            Unit::Quarter => "quarter"@,
            Unit::Month => "month"@,
            Unit::Week => "week"@,
            Unit::Day => "day"@,
            Unit::Hour => "hour"@,
            Unit::Minute => "minute"@,
            Unit::Second => "second"@,
        }
    }

    /// The boundary a word names, in any case.
    pub open spec fn spelled(s: Seq<char>) -> Option<Unit> {
        if crate::text::same_word(s, "year"@) {
            Some(Unit::Year)
        } else if crate::text::same_word(s, "quarter"@) {
            Some(Unit::Quarter)
        } else if crate::text::same_word(s, "month"@) {
            Some(Unit::Month)
        } else if crate::text::same_word(s, "week"@) {
            Some(Unit::Week)
        } else if crate::text::same_word(s, "day"@) {
            Some(Unit::Day)
        } else if crate::text::same_word(s, "hour"@) {
            Some(Unit::Hour)
        } else if crate::text::same_word(s, "minute"@) {
            Some(Unit::Minute)
        } else if crate::text::same_word(s, "second"@) {
            Some(Unit::Second)
        } else {
            None
        }
    }

    /// The boundary a word names, in any case.
    pub fn parse(s: &str) -> (r: Option<Unit>)
        ensures
            r == Unit::spelled(s@),
    {
        if s.eq_ignore_ascii_case("year") {
            Some(Unit::Year)
        } else if s.eq_ignore_ascii_case("quarter") {
            Some(Unit::Quarter)
        } else if s.eq_ignore_ascii_case("month") {
            Some(Unit::Month)
        } else if s.eq_ignore_ascii_case("week") {
            Some(Unit::Week)
        } else if s.eq_ignore_ascii_case("day") {
            Some(Unit::Day)
        } else if s.eq_ignore_ascii_case("hour") {
            Some(Unit::Hour)
        } else if s.eq_ignore_ascii_case("minute") {
            Some(Unit::Minute)
        } else if s.eq_ignore_ascii_case("second") {
            Some(Unit::Second)
        } else {
            None
        }
    }

    /// The word this boundary is written with.
    pub fn name(self) -> (r: &'static str)
        ensures
            r@ == self.word(),
    {
        match self {
            Unit::Year => "year",
            Unit::Quarter => "quarter",
            Unit::Month => "month",
            Unit::Week => "week",
            Unit::Day => "day",
            Unit::Hour => "hour",
            Unit::Minute => "minute",
            Unit::Second => "second",
        }
    }
}

/// A date and a time of day.
#[derive(Clone, Copy, PartialEq, Eq, Debug, Structural)]
pub struct Moment {
    pub year: i64,
    pub month: u8,
    pub day: u8,
    pub hour: u8,
    pub minute: u8,
    pub second: u8,
}

/// A year with a 29th of February.
pub open spec fn leap(y: int) -> bool {
    y % 4 == 0 && (y % 100 != 0 || y % 400 == 0)
}

/// How many days a month has.
pub open spec fn month_len(y: int, m: int) -> int {
    if m == 2 {
        if leap(y) {
            29
        } else {
            28
        }
    } else if m == 4 || m == 6 || m == 9 || m == 11 {
        30
    } else {
        31
    }
}

/// How many days of a year come before a month.
pub open spec fn days_before_month(y: int, m: int) -> int
    decreases m,
{
    if m <= 1 {
        0
    } else {
        days_before_month(y, m - 1) + month_len(y, m - 1)
    }
}

/// How many days come before a year, from the start of the year 1.
pub open spec fn days_before_year(y: int) -> int {
    365 * (y - 1) + (y - 1) / 4 - (y - 1) / 100 + (y - 1) / 400
}

/// The number of a day, counted from the first of January 1970.
pub open spec fn day_number(y: int, m: int, d: int) -> int {
    days_before_year(y) + days_before_month(y, m) + d - 1 - 719162
}

impl Moment {
    /// A moment the calendar has.
    pub open spec fn valid(self) -> bool {
        &&& 1 <= self.month <= 12
        &&& 1 <= self.day <= month_len(self.year as int, self.month as int)
        &&& self.hour < 24 && self.minute < 60 && self.second < 60
    }

    /// The number of the day this is on.
    pub open spec fn day_count(self) -> int {
        day_number(self.year as int, self.month as int, self.day as int)
    }

    /// Seconds from the start of 1970.
    pub open spec fn seconds(self) -> int {
        self.day_count() * 86400 + self.hour * 3600 + self.minute * 60 + self.second
    }

    /// Midnight of a date.
    pub open spec fn midnight(year: i64, month: u8, day: u8) -> Moment {
        Moment { year, month, day, hour: 0, minute: 0, second: 0 }
    }

    /// Midnight of the day after.
    pub open spec fn tomorrow(self) -> Moment {
        if self.day < month_len(self.year as int, self.month as int) {
            Moment::midnight(self.year, self.month, (self.day + 1) as u8)
        } else if self.month < 12 {
            Moment::midnight(self.year, (self.month + 1) as u8, 1)
        } else {
            Moment::midnight((self.year + 1) as i64, 1, 1)
        }
    }

    /// Midnight of the day before.
    pub open spec fn yesterday(self) -> Moment {
        if self.day > 1 {
            Moment::midnight(self.year, self.month, (self.day - 1) as u8)
        } else if self.month > 1 {
            Moment::midnight(
                self.year,
                (self.month - 1) as u8,
                month_len(self.year as int, self.month - 1) as u8,
            )
        } else {
            Moment::midnight((self.year - 1) as i64, 12, 31)
        }
    }

    /// Midnight so many days before.
    pub open spec fn days_back(self, n: nat) -> Moment
        decreases n,
    {
        if n == 0 {
            Moment::midnight(self.year, self.month, self.day)
        } else {
            self.days_back((n - 1) as nat).yesterday()
        }
    }

    /// Midnight so many days after.
    pub open spec fn days_on(self, n: nat) -> Moment
        decreases n,
    {
        if n == 0 {
            Moment::midnight(self.year, self.month, self.day)
        } else {
            self.days_on((n - 1) as nat).tomorrow()
        }
    }

    /// How many days have passed since Monday.
    pub open spec fn since_monday(self) -> nat {
        ((self.day_count() + 3) % 7) as nat
    }

    /// The first month of the quarter this is in.
    pub open spec fn quarter_month(self) -> u8 {
        ((self.month - 1) / 3 * 3 + 1) as u8
    }

    /// The boundary at or before this.
    pub open spec fn floor(self, unit: Unit) -> Moment {
        match unit {
            Unit::Year => Moment::midnight(self.year, 1, 1),
            Unit::Quarter => Moment::midnight(self.year, self.quarter_month(), 1),
            Unit::Month => Moment::midnight(self.year, self.month, 1),
            Unit::Week => self.days_back(self.since_monday()),
            Unit::Day => Moment::midnight(self.year, self.month, self.day),
            Unit::Hour => Moment { minute: 0, second: 0, ..self },
            Unit::Minute => Moment { second: 0, ..self },
            Unit::Second => self,
        }
    }

    /// The boundary after that one.
    pub open spec fn after(self, unit: Unit) -> Moment {
        match unit {
            Unit::Year => Moment::midnight((self.year + 1) as i64, 1, 1),
            Unit::Quarter => if self.quarter_month() == 10 {
                Moment::midnight((self.year + 1) as i64, 1, 1)
            } else {
                Moment::midnight(self.year, (self.quarter_month() + 3) as u8, 1)
            },
            Unit::Month => if self.month == 12 {
                Moment::midnight((self.year + 1) as i64, 1, 1)
            } else {
                Moment::midnight(self.year, (self.month + 1) as u8, 1)
            },
            Unit::Week => self.floor(Unit::Week).days_on(7),
            Unit::Day => self.tomorrow(),
            Unit::Hour => if self.hour == 23 {
                self.tomorrow()
            } else {
                Moment { hour: (self.hour + 1) as u8, minute: 0, second: 0, ..self }
            },
            Unit::Minute => if self.minute == 59 {
                self.after_hour()
            } else {
                Moment { minute: (self.minute + 1) as u8, second: 0, ..self }
            },
            Unit::Second => if self.second == 59 {
                if self.minute == 59 {
                    self.after_hour()
                } else {
                    Moment { minute: (self.minute + 1) as u8, second: 0, ..self }
                }
            } else {
                Moment { second: (self.second + 1) as u8, ..self }
            },
        }
    }

    /// The next full hour.
    pub open spec fn after_hour(self) -> Moment {
        if self.hour == 23 {
            self.tomorrow()
        } else {
            Moment { hour: (self.hour + 1) as u8, minute: 0, second: 0, ..self }
        }
    }
}

/// One day on is one more in the count, and a day the calendar has.
pub proof fn tomorrow_is_one_day_on(m: Moment)
    requires
        m.valid(),
        -1_000_000 <= m.year <= 1_000_000,
    ensures
        m.tomorrow().valid(),
        m.tomorrow().day_count() == m.day_count() + 1,
{
    let (y, mo) = (m.year as int, m.month as int);
    if m.day < month_len(y, mo) {
    } else if m.month < 12 {
        assert(days_before_month(y, mo + 1) == days_before_month(y, mo) + month_len(y, mo));
    } else {
        lemma_year_length(y);
        assert(days_before_month(y + 1, 1) == 0);
    }
}

/// One day back is one less in the count, and a day the calendar has.
pub proof fn yesterday_is_one_day_back(m: Moment)
    requires
        m.valid(),
        -1_000_000 <= m.year <= 1_000_000,
    ensures
        m.yesterday().valid(),
        m.yesterday().day_count() == m.day_count() - 1,
{
    let (y, mo) = (m.year as int, m.month as int);
    if m.day > 1 {
    } else if m.month > 1 {
        assert(days_before_month(y, mo) == days_before_month(y, mo - 1) + month_len(y, mo - 1));
    } else {
        lemma_year_length(y - 1);
        assert(days_before_month(y, 1) == 0);
    }
}

/// A year is 365 days, or 366 when it is leap.
pub proof fn lemma_year_length(y: int)
    ensures
        days_before_month(y, 12) + 31 == (if leap(y) {
            366int
        } else {
            365
        }),
        days_before_year(y + 1) == days_before_year(y) + (if leap(y) {
            366int
        } else {
            365
        }),
{
    reveal_with_fuel(days_before_month, 13);
}

pub proof fn lemma_days_back(m: Moment, n: nat)
    requires
        m.valid(),
        -1_000 <= m.year <= 1_000_000,
        n <= 7,
    ensures
        m.days_back(n).valid(),
        m.days_back(n).day_count() == m.day_count() - n,
        m.year - n <= m.days_back(n).year <= m.year,
        m.days_back(n).hour == 0 && m.days_back(n).minute == 0 && m.days_back(n).second == 0,
    decreases n,
{
    if n > 0 {
        lemma_days_back(m, (n - 1) as nat);
        yesterday_is_one_day_back(m.days_back((n - 1) as nat));
    }
}

pub proof fn lemma_days_on(m: Moment, n: nat)
    requires
        m.valid(),
        -1_000_000 <= m.year <= 900_000,
        n <= 7,
    ensures
        m.days_on(n).valid(),
        m.days_on(n).day_count() == m.day_count() + n,
        m.year <= m.days_on(n).year <= m.year + n,
        m.days_on(n).hour == 0 && m.days_on(n).minute == 0 && m.days_on(n).second == 0,
    decreases n,
{
    if n > 0 {
        lemma_days_on(m, (n - 1) as nat);
        tomorrow_is_one_day_on(m.days_on((n - 1) as nat));
    }
}

pub proof fn lemma_within_year(y: int, m: int, k: int)
    requires
        1 <= m <= k <= 12,
    ensures
        days_before_month(y, m) <= days_before_month(y, k),
        m < k ==> days_before_month(y, m) + month_len(y, m) <= days_before_month(y, k),
        days_before_month(y, k) + month_len(y, k) <= (if leap(y) {
            366int
        } else {
            365
        }),
{
    reveal_with_fuel(days_before_month, 13);
}

/// What rounds to a boundary lies between it and the next one.
pub proof fn a_moment_lies_in_its_bucket(m: Moment, unit: Unit)
    requires
        m.valid(),
        0 <= m.year <= 9_999,
    ensures
        m.floor(unit).valid(),
        m.after(unit).valid(),
        m.floor(unit).seconds() <= m.seconds() < m.after(unit).seconds(),
{
    tomorrow_is_one_day_on(m);
    let (y, mo, d) = (m.year as int, m.month as int, m.day as int);
    lemma_year_length(y);
    lemma_within_year(y, mo, mo);
    assert(days_before_month(y, 1) == 0);
    assert(days_before_month(y + 1, 1) == 0);
    match unit {
        Unit::Year => {
            lemma_within_year(y, 1, mo);
        },
        Unit::Quarter => {
            let q = m.quarter_month() as int;
            assert(q == 1 || q == 4 || q == 7 || q == 10);
            assert(q <= mo <= q + 2);
            lemma_within_year(y, q, mo);
            if q < 10 {
                lemma_within_year(y, mo, q + 3);
            }
        },
        Unit::Month => {
            if mo < 12 {
                lemma_within_year(y, mo, mo + 1);
            }
        },
        Unit::Week => {
            lemma_days_back(m, m.since_monday());
            lemma_days_on(m.floor(Unit::Week), 7);
        },
        _ => {},
    }
}

/// A boundary is its own boundary: rounding twice is rounding once.
pub proof fn a_boundary_rounds_to_itself(m: Moment, unit: Unit)
    requires
        m.valid(),
        0 <= m.year <= 9_999,
        m.floor(unit).year >= 0,
    ensures
        m.floor(unit).floor(unit) == m.floor(unit),
{
    match unit {
        Unit::Week => {
            lemma_days_back(m, m.since_monday());
            let f = m.floor(unit);
            assert(f.since_monday() == 0);
        },
        _ => {},
    }
}

/// A number in decimal, with zeros in front up to a width.
pub open spec fn padded(n: nat, width: nat) -> Seq<char> {
    if dec(n).len() >= width {
        dec(n)
    } else {
        Seq::new((width - dec(n).len()) as nat, |i: int| '0') + dec(n)
    }
}

/// A year as it is written: four digits at least, and a `-` in front of a negative one.
pub open spec fn year_text(y: int) -> Seq<char> {
    if y < 0 {
        seq!['-'] + padded((-y) as nat, 4)
    } else {
        padded(y as nat, 4)
    }
}

impl Moment {
    /// `2024-01-31`.
    pub open spec fn date_text(self) -> Seq<char> {
        year_text(self.year as int) + "-"@ + padded(self.month as nat, 2) + "-"@ + padded(
            self.day as nat,
            2,
        )
    }

    /// `2024-01-31 23:59:59`.
    pub open spec fn text(self) -> Seq<char> {
        self.date_text() + " "@ + padded(self.hour as nat, 2) + ":"@ + padded(
            self.minute as nat,
            2,
        ) + ":"@ + padded(self.second as nat, 2)
    }
}

/// Appends a number with zeros in front up to a width.
fn push_padded(out: &mut String, n: u64, width: usize)
    requires
        width <= 4,
    ensures
        final(out)@ == old(out)@ + padded(n as nat, width as nat),
{
    let mut digits = String::new();
    push_dec(&mut digits, n as u128);
    let ghost all = dec(n as nat);
    assert(digits@ =~= all);
    let len = digits.as_str().unicode_len();
    let mut k: usize = len;
    let ghost was = out@;
    while k < width
        invariant
            len == all.len(),
            len <= k,
            k <= width || k == len,
            out@ == was + Seq::new((k - len) as nat, |i: int| '0'),
        decreases width - k,
    {
        out.push('0');
        k += 1;
        assert(out@ =~= was + Seq::new((k - len) as nat, |i: int| '0'));
    }
    out.append(digits.as_str());
    assert(out@ =~= was + padded(n as nat, width as nat));
}

impl Moment {
    /// The date, written out.
    pub fn write_date(self) -> (r: String)
        requires
            self.year > i64::MIN,
        ensures
            r@ == self.date_text(),
    {
        let mut out = String::new();
        if self.year < 0 {
            out.push('-');
            push_padded(&mut out, (-self.year) as u64, 4);
        } else {
            push_padded(&mut out, self.year as u64, 4);
        }
        assert(out@ =~= year_text(self.year as int));
        out.append("-");
        push_padded(&mut out, self.month as u64, 2);
        out.append("-");
        push_padded(&mut out, self.day as u64, 2);
        out
    }

    /// The date and the time, written out.
    pub fn write(self) -> (r: String)
        requires
            self.year > i64::MIN,
        ensures
            r@ == self.text(),
    {
        let mut out = self.write_date();
        out.append(" ");
        push_padded(&mut out, self.hour as u64, 2);
        out.append(":");
        push_padded(&mut out, self.minute as u64, 2);
        out.append(":");
        push_padded(&mut out, self.second as u64, 2);
        out
    }
}

/// The digit at a position of a written date, if one is there.
pub open spec fn digit_value(b: Seq<u8>, i: int) -> Option<int> {
    if 0 <= i < b.len() && 48 <= b[i] <= 57 {
        Some(b[i] - 48)
    } else {
        None
    }
}

/// A number of two digits.
pub open spec fn two_digits(b: Seq<u8>, i: int) -> Option<int> {
    match (digit_value(b, i), digit_value(b, i + 1)) {
        (Some(x), Some(y)) => Some(x * 10 + y),
        _ => None,
    }
}

/// The moment a text writes, as `2024-01-31` or `2024-01-31 23:59:59`, with a space or a `T`
/// before the time. A date alone is its midnight.
pub open spec fn moment_of(b: Seq<u8>) -> Option<Moment> {
    if b.len() != 10 && b.len() != 19 {
        None
    } else {
        match (two_digits(b, 0), two_digits(b, 2), two_digits(b, 5), two_digits(b, 8)) {
            (Some(century), Some(year), Some(month), Some(day)) => {
                let date = Moment::midnight((century * 100 + year) as i64, month as u8, day as u8);
                if b[4] != 45 || b[7] != 45 || !date.valid() {
                    None
                } else if b.len() == 10 {
                    Some(date)
                } else {
                    match (two_digits(b, 11), two_digits(b, 14), two_digits(b, 17)) {
                        (Some(hour), Some(minute), Some(second)) => {
                            let m = Moment {
                                hour: hour as u8,
                                minute: minute as u8,
                                second: second as u8,
                                ..date
                            };
                            if (b[10] != 32 && b[10] != 84) || b[13] != 58 || b[16] != 58
                                || !m.valid() {
                                None
                            } else {
                                Some(m)
                            }
                        },
                        _ => None,
                    }
                }
            },
            _ => None,
        }
    }
}

fn read_two(b: &[u8], i: usize) -> (r: Option<u8>)
    requires
        i + 1 < b@.len(),
    ensures
        match r {
            Some(v) => two_digits(b@, i as int) == Some(v as int) && v <= 99,
            None => two_digits(b@, i as int) is None,
        },
{
    let x = b[i];
    let y = b[i + 1];
    if 48 <= x && x <= 57 && 48 <= y && y <= 57 {
        Some((x - 48) * 10 + (y - 48))
    } else {
        None
    }
}

/// How many days a month has.
fn length_of_month(y: i64, m: u8) -> (r: u8)
    requires
        -1_000_000 <= y <= 1_000_000,
    ensures
        r == month_len(y as int, m as int),
        28 <= r <= 31,
{
    if m == 2 {
        if leap_year(y) {
            29
        } else {
            28
        }
    } else if m == 4 || m == 6 || m == 9 || m == 11 {
        30
    } else {
        31
    }
}

fn leap_year(y: i64) -> (r: bool)
    requires
        -1_000_000 <= y <= 1_000_000,
    ensures
        r == leap(y as int),
{
    let z: u64 = (y + 4_000_000) as u64;
    z % 4 == 0 && (z % 100 != 0 || z % 400 == 0)
}

fn is_valid(m: Moment) -> (r: bool)
    requires
        -1_000_000 <= m.year <= 1_000_000,
    ensures
        r == m.valid(),
{
    1 <= m.month && m.month <= 12 && 1 <= m.day && m.day <= length_of_month(m.year, m.month)
        && m.hour < 24 && m.minute < 60 && m.second < 60
}

/// The moment a text writes.
pub fn parse_datetime(s: &str) -> (r: Option<Moment>)
    ensures
        r == moment_of(bytes(s@)),
        r matches Some(m) ==> m.valid() && 0 <= m.year <= 9_999,
{
    let b = s.as_bytes();
    if b.len() != 10 && b.len() != 19 {
        return None;
    }
    let (century, year, month, day) = match (
        read_two(b, 0),
        read_two(b, 2),
        read_two(b, 5),
        read_two(b, 8),
    ) {
        (Some(c), Some(y), Some(m), Some(d)) => (c, y, m, d),
        _ => {
            return None;
        },
    };
    let date = Moment {
        year: (century as i64) * 100 + (year as i64),
        month,
        day,
        hour: 0,
        minute: 0,
        second: 0,
    };
    if b[4] != 45 || b[7] != 45 || !is_valid(date) {
        return None;
    }
    if b.len() == 10 {
        return Some(date);
    }
    let (hour, minute, second) = match (read_two(b, 11), read_two(b, 14), read_two(b, 17)) {
        (Some(h), Some(m), Some(s)) => (h, m, s),
        _ => {
            return None;
        },
    };
    let m = Moment { year: date.year, month, day, hour, minute, second };
    if (b[10] != 32 && b[10] != 84) || b[13] != 58 || b[16] != 58 || !is_valid(m) {
        return None;
    }
    Some(m)
}

fn at_midnight(year: i64, month: u8, day: u8) -> (r: Moment)
    ensures
        r == Moment::midnight(year, month, day),
{
    Moment { year, month, day, hour: 0, minute: 0, second: 0 }
}

fn day_after(m: Moment) -> (r: Moment)
    requires
        m.valid(),
        -1_000_000 <= m.year < 1_000_000,
    ensures
        r == m.tomorrow(),
{
    if m.day < length_of_month(m.year, m.month) {
        at_midnight(m.year, m.month, m.day + 1)
    } else if m.month < 12 {
        at_midnight(m.year, m.month + 1, 1)
    } else {
        at_midnight(m.year + 1, 1, 1)
    }
}

fn day_before(m: Moment) -> (r: Moment)
    requires
        m.valid(),
        -1_000_000 < m.year <= 1_000_000,
    ensures
        r == m.yesterday(),
{
    if m.day > 1 {
        at_midnight(m.year, m.month, m.day - 1)
    } else if m.month > 1 {
        at_midnight(m.year, m.month - 1, length_of_month(m.year, m.month - 1))
    } else {
        at_midnight(m.year - 1, 12, 31)
    }
}

fn count_days(m: Moment) -> (r: i64)
    requires
        m.valid(),
        0 <= m.year <= 9_999,
    ensures
        r == m.day_count(),
        -2_000_000 <= r <= 10_000_000,
{
    let z: u64 = (m.year + 399) as u64;
    let mut days: i64 = 365 * (m.year - 1) + (z / 4 - z / 100 + z / 400) as i64 - 97;
    let mut k: u8 = 1;
    assert(days_before_month(m.year as int, 1) == 0);
    while k < m.month
        invariant
            1 <= k <= m.month,
            m.month <= 12,
            0 <= m.year <= 9_999,
            days == days_before_year(m.year as int) + days_before_month(m.year as int, k as int),
            -1_000_000 <= days <= 10_000_000 + 31 * k,
        decreases m.month - k,
    {
        days = days + length_of_month(m.year, k) as i64;
        k += 1;
    }
    days + (m.day as i64) - 1 - 719162
}

impl Moment {
    /// The boundary at or before this.
    pub fn truncate(self, unit: Unit) -> (r: Moment)
        requires
            self.valid(),
            0 <= self.year <= 9_999,
        ensures
            r == self.floor(unit),
            r.valid(),
            -10 <= r.year <= 9_999,
    {
        proof {
            a_moment_lies_in_its_bucket(self, unit);
        }
        match unit {
            Unit::Year => at_midnight(self.year, 1, 1),
            Unit::Quarter => at_midnight(self.year, (self.month - 1) / 3 * 3 + 1, 1),
            Unit::Month => at_midnight(self.year, self.month, 1),
            Unit::Week => {
                let n: i64 = ((count_days(self) + 3 + 7_000_000) as u64 % 7) as i64;
                let mut r = at_midnight(self.year, self.month, self.day);
                let mut k: i64 = 0;
                proof {
                    lemma_days_back(self, n as nat);
                }
                while k < n
                    invariant
                        0 <= k <= n < 7,
                        self.valid(),
                        0 <= self.year <= 9_999,
                        r == self.days_back(k as nat),
                    decreases n - k,
                {
                    proof {
                        lemma_days_back(self, k as nat);
                    }
                    r = day_before(r);
                    k += 1;
                }
                r
            },
            Unit::Day => at_midnight(self.year, self.month, self.day),
            Unit::Hour => Moment {
                year: self.year,
                month: self.month,
                day: self.day,
                hour: self.hour,
                minute: 0,
                second: 0,
            },
            Unit::Minute => Moment {
                year: self.year,
                month: self.month,
                day: self.day,
                hour: self.hour,
                minute: self.minute,
                second: 0,
            },
            Unit::Second => self,
        }
    }

    /// The next full hour.
    fn next_hour(self) -> (r: Moment)
        requires
            self.valid(),
            0 <= self.year <= 9_999,
        ensures
            r == self.after_hour(),
            r.year <= 10_000,
    {
        if self.hour == 23 {
            day_after(self)
        } else {
            Moment {
                year: self.year,
                month: self.month,
                day: self.day,
                hour: self.hour + 1,
                minute: 0,
                second: 0,
            }
        }
    }

    /// The boundary after that one.
    pub fn next(self, unit: Unit) -> (r: Moment)
        requires
            self.valid(),
            0 <= self.year <= 9_999,
        ensures
            r == self.after(unit),
            r.valid(),
            -10 <= r.year <= 20_000,
    {
        proof {
            a_moment_lies_in_its_bucket(self, unit);
        }
        match unit {
            Unit::Year => at_midnight(self.year + 1, 1, 1),
            Unit::Quarter => {
                let q = (self.month - 1) / 3 * 3 + 1;
                if q == 10 {
                    at_midnight(self.year + 1, 1, 1)
                } else {
                    at_midnight(self.year, q + 3, 1)
                }
            },
            Unit::Month => {
                if self.month == 12 {
                    at_midnight(self.year + 1, 1, 1)
                } else {
                    at_midnight(self.year, self.month + 1, 1)
                }
            },
            Unit::Week => {
                let start = self.truncate(Unit::Week);
                let mut r = at_midnight(start.year, start.month, start.day);
                let mut k: i64 = 0;
                while k < 7
                    invariant
                        0 <= k <= 7,
                        start.valid(),
                        -10 <= start.year <= 9_999,
                        r == start.days_on(k as nat),
                    decreases 7 - k,
                {
                    proof {
                        lemma_days_on(start, k as nat);
                    }
                    r = day_after(r);
                    k += 1;
                }
                proof {
                    lemma_days_on(start, 7);
                }
                r
            },
            Unit::Day => day_after(self),
            Unit::Hour => self.next_hour(),
            Unit::Minute => {
                if self.minute == 59 {
                    self.next_hour()
                } else {
                    Moment {
                        year: self.year,
                        month: self.month,
                        day: self.day,
                        hour: self.hour,
                        minute: self.minute + 1,
                        second: 0,
                    }
                }
            },
            Unit::Second => {
                if self.second == 59 {
                    if self.minute == 59 {
                        self.next_hour()
                    } else {
                        Moment {
                            year: self.year,
                            month: self.month,
                            day: self.day,
                            hour: self.hour,
                            minute: self.minute + 1,
                            second: 0,
                        }
                    }
                } else {
                    Moment {
                        year: self.year,
                        month: self.month,
                        day: self.day,
                        hour: self.hour,
                        minute: self.minute,
                        second: self.second + 1,
                    }
                }
            },
        }
    }
}

impl Unit {
    /// Whether every boundary of this kind is a midnight.
    pub open spec fn whole_days(self) -> bool {
        !(self is Hour || self is Minute || self is Second)
    }

    /// Whether every boundary of this kind is a midnight.
    pub fn is_whole_days(self) -> (r: bool)
        ensures
            r == self.whole_days(),
    {
        match self {
            Unit::Hour | Unit::Minute | Unit::Second => false,
            _ => true,
        }
    }
}

/// How many days a year has.
fn length_of_year(y: i64) -> (r: u32)
    requires
        -1_000_000 <= y <= 1_000_000,
    ensures
        r == (if leap(y as int) {
            366int
        } else {
            365
        }),
{
    if leap_year(y) {
        366
    } else {
        365
    }
}

/// The moment some seconds after the start of 1970.
pub open spec fn moment_at(seconds: int) -> Moment {
    choose|m: Moment| m.valid() && m.seconds() == seconds
}

pub proof fn lemma_years_rise(a: int, b: int)
    requires
        a <= b,
    ensures
        days_before_year(a) <= days_before_year(b),
    decreases b - a,
{
    if a < b {
        lemma_year_length(a);
        lemma_years_rise(a + 1, b);
    }
}

pub proof fn lemma_in_year(m: Moment)
    requires
        m.valid(),
    ensures
        days_before_year(m.year as int) <= m.day_count() + 719162 < days_before_year(m.year + 1),
{
    let (y, mo) = (m.year as int, m.month as int);
    lemma_year_length(y);
    lemma_within_year(y, 1, mo);
    lemma_within_year(y, mo, mo);
}

/// No two moments are the same number of seconds after the start of 1970.
pub proof fn seconds_tell_moments_apart(a: Moment, b: Moment)
    requires
        a.valid(),
        b.valid(),
        a.seconds() == b.seconds(),
    ensures
        a == b,
{
    assert(a.day_count() == b.day_count());
    lemma_in_year(a);
    lemma_in_year(b);
    if a.year < b.year {
        lemma_years_rise(a.year + 1, b.year as int);
    }
    if b.year < a.year {
        lemma_years_rise(b.year + 1, a.year as int);
    }
    let y = a.year as int;
    if a.month < b.month {
        lemma_within_year(y, a.month as int, b.month as int);
    }
    if b.month < a.month {
        lemma_within_year(y, b.month as int, a.month as int);
    }
}

/// The calendar repeats every four hundred years, which are 146097 days.
proof fn lemma_eras(k: int, j: int)
    ensures
        days_before_year(400 * k + 1 + j) == 146097 * k + days_before_year(1 + j),
        leap(400 * k + 1 + j) == leap(1 + j),
{
    let y = 400 * k + j;
    assert(y / 4 == 100 * k + j / 4) by (nonlinear_arith)
        requires
            y == 400 * k + j,
    ;
    assert(y / 100 == 4 * k + j / 100) by (nonlinear_arith)
        requires
            y == 400 * k + j,
    ;
    assert(y / 400 == k + j / 400) by (nonlinear_arith)
        requires
            y == 400 * k + j,
    ;
    assert((y + 1) % 4 == (j + 1) % 4) by (nonlinear_arith)
        requires
            y == 400 * k + j,
    ;
    assert((y + 1) % 100 == (j + 1) % 100) by (nonlinear_arith)
        requires
            y == 400 * k + j,
    ;
    assert((y + 1) % 400 == (j + 1) % 400) by (nonlinear_arith)
        requires
            y == 400 * k + j,
    ;
}

impl Moment {
    /// The moment some seconds after the start of 1970.
    pub fn from_unix(seconds: i64) -> (r: Moment)
        ensures
            r.valid(),
            r.seconds() == seconds,
            r == moment_at(seconds as int),
            -1_000_000_000_000 < r.year < 1_000_000_000_000,
    {
        // Counted from a start of an era long enough ago that nothing is negative.
        let total: i128 = seconds as i128 + 62_135_596_800 + 1_000_000_000 * 12_622_780_800;
        let shifted: u128 = total as u128;
        let days: u128 = shifted / 86_400;
        let rest: u32 = (shifted % 86_400) as u32;
        let era: u128 = days / 146_097;
        let mut left: u32 = (days % 146_097) as u32;
        let ghost k = era - 1_000_000_000;
        let ghost in_era = left as int;
        let mut j: u32 = 0;
        proof {
            assert(days_before_year(1) == 0);
        }
        while j < 399 && left >= length_of_year(1 + j as i64)
            invariant
                j <= 399,
                in_era < 146_097,
                left + days_before_year(1 + j) == in_era,
            decreases 399 - j,
        {
            let length = length_of_year(1 + j as i64);
            proof {
                lemma_year_length(1 + j);
            }
            left = left - length;
            j += 1;
        }
        proof {
            lemma_year_length(1 + j);
            assert(days_before_year(401) == 146_097);
            assert(left < if leap(1 + j) { 366int } else { 365int });
        }
        let year: i64 = ((era as i128 - 1_000_000_000) * 400 + 1 + j as i128) as i64;
        let ghost of_year = left as int;
        let mut month: u8 = 1;
        while month < 12 && left >= length_of_month(1 + j as i64, month) as u32
            invariant
                1 <= month <= 12,
                j <= 399,
                of_year < (if leap(1 + j) { 366int } else { 365int }),
                left + days_before_month(1 + j, month as int) == of_year,
            decreases 12 - month,
        {
            let length = length_of_month(1 + j as i64, month);
            left = left - length as u32;
            month += 1;
        }
        proof {
            lemma_year_length(1 + j);
        }
        let r = Moment {
            year,
            month,
            day: (left + 1) as u8,
            hour: (rest / 3600) as u8,
            minute: (rest % 3600 / 60) as u8,
            second: (rest % 60) as u8,
        };
        proof {
            lemma_eras(k, j as int);
            lemma_same_months(year as int, 1 + j, month as int);
            assert(r.valid());
            assert(r.day_count() == 146_097 * k + in_era - 719_162);
            assert(r.seconds() == seconds);
            seconds_tell_moments_apart(r, moment_at(seconds as int));
        }
        r
    }
}

/// Two years that are both leap, or both not, have the same months.
proof fn lemma_same_months(a: int, b: int, m: int)
    requires
        leap(a) == leap(b),
        1 <= m <= 12,
    ensures
        days_before_month(a, m) == days_before_month(b, m),
        month_len(a, m) == month_len(b, m),
    decreases m,
{
    if m > 1 {
        lemma_same_months(a, b, m - 1);
    }
}

/// `2024-01-31 23:59:59`, for some seconds after the start of 1970.
pub fn format_datetime(unix_seconds: i64) -> (r: String)
    ensures
        r@ == moment_at(unix_seconds as int).text(),
{
    Moment::from_unix(unix_seconds).write()
}

} // verus!
