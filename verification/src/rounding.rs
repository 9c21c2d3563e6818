//! What rounding keeps: a written moment reads back, and a comparison of a rounded column selects
//! what the range it is turned into selects.

use vstd::prelude::*;
use crate::civil::{a_boundary_rounds_to_itself, a_moment_lies_in_its_bucket, day_number, days_before_month, digit_value, lemma_days_back, lemma_days_on, lemma_in_year, lemma_within_year, lemma_year_length, lemma_years_rise, moment_of, padded, seconds_tell_moments_apart, tomorrow_is_one_day_on, two_digits, year_text, Moment, Unit};
use crate::ast::{CondView, NameView};
use crate::parse::cursor::Env;
use crate::parse::rounded::{boundary_text, bucket_for, BucketView};
use crate::pql::LiteralView;
use crate::readback::{lemma_ascii, lemma_ascii_parts};
use crate::text::{bytes, dec, digit};

verus! {

/// The two characters of a number below a hundred.
pub open spec fn pair(n: nat) -> Seq<char> {
    seq![digit(n / 10), digit(n % 10)]
}

proof fn lemma_pair(n: nat)
    requires
        n < 100,
    ensures
        padded(n, 2) == pair(n),
{
    reveal_with_fuel(dec, 3);
    assert(digit(0) == '0');
    if n < 10 {
        assert(dec(n).len() == 1);
        assert(padded(n, 2) =~= pair(n));
    } else {
        assert(dec(n / 10) == seq![digit(n / 10)]);
        assert(dec(n).len() == 2);
        assert(padded(n, 2) =~= pair(n));
    }
}

proof fn lemma_year(n: nat)
    requires
        n < 10_000,
    ensures
        year_text(n as int) == pair(n / 100) + pair(n % 100),
{
    reveal_with_fuel(dec, 5);
    assert(digit(0) == '0');
    let all = pair(n / 100) + pair(n % 100);
    if n < 10 {
        assert(dec(n).len() == 1);
        assert(padded(n, 4) =~= all);
    } else if n < 100 {
        assert(dec(n).len() == 2);
        assert(padded(n, 4) =~= all);
    } else if n < 1_000 {
        assert(dec(n).len() == 3);
        assert(n / 10 / 10 == n / 100);
        assert(n / 10 % 10 == n % 100 / 10);
        assert(padded(n, 4) =~= all);
    } else {
        assert(dec(n).len() == 4);
        assert(n / 10 / 10 / 10 == n / 100 / 10);
        assert(n / 10 / 10 % 10 == n / 100 % 10);
        assert(n / 10 % 10 == n % 100 / 10);
        assert(padded(n, 4) =~= all);
    }
}

/// A moment the calendar has, in a year of four digits.
pub open spec fn writable(m: Moment) -> bool {
    m.valid() && 0 <= m.year <= 9_999
}

/// A number below a hundred that stands somewhere in a text is read from there.
proof fn lemma_read(s: Seq<char>, i: int, n: nat)
    requires
        vstd::utf8::is_ascii_chars(s),
        0 <= i,
        i + 2 <= s.len(),
        n < 100,
        s[i] == digit(n / 10),
        s[i + 1] == digit(n % 10),
    ensures
        two_digits(bytes(s), i) == Some(n as int),
{
    lemma_ascii(s);
    assert(bytes(s)[i] == digit(n / 10) as u8);
    assert(bytes(s)[i + 1] == digit(n % 10) as u8);
    assert(digit_value(bytes(s), i) == Some((n / 10) as int));
    assert(digit_value(bytes(s), i + 1) == Some((n % 10) as int));
}

/// The characters of a written date.
proof fn lemma_date(m: Moment)
    requires
        writable(m),
    ensures
        m.date_text() == pair((m.year / 100) as nat) + pair((m.year % 100) as nat) + seq!['-'] + pair(
            m.month as nat,
        ) + seq!['-'] + pair(m.day as nat),
{
    lemma_year(m.year as nat);
    lemma_pair(m.month as nat);
    lemma_pair(m.day as nat);
    reveal_strlit("-");
    assert("-"@ =~= seq!['-']);
}

/// A date that is written out is read back as its midnight.
pub proof fn a_written_date_reads_back(m: Moment)
    requires
        writable(m),
    ensures
        moment_of(bytes(m.date_text())) == Some(Moment::midnight(m.year, m.month, m.day)),
{
    lemma_date(m);
    let s = m.date_text();
    assert(s.len() == 10);
    lemma_date_ascii(m);
    lemma_ascii(s);
    lemma_read(s, 0, (m.year / 100) as nat);
    lemma_read(s, 2, (m.year % 100) as nat);
    lemma_read(s, 5, m.month as nat);
    lemma_read(s, 8, m.day as nat);
    assert(bytes(s)[4] == s[4] as u8);
    assert(bytes(s)[7] == s[7] as u8);
    assert(m.year == m.year / 100 * 100 + m.year % 100);
}

/// Where the parts of a written moment stand.
proof fn lemma_parts(date: Seq<char>, h: Seq<char>, n: Seq<char>, s: Seq<char>)
    requires
        date.len() == 10,
        h.len() == 2 && n.len() == 2 && s.len() == 2,
    ensures
        ({
            let all = date + seq![' '] + h + seq![':'] + n + seq![':'] + s;
            &&& all.len() == 19
            &&& all.subrange(0, 10) == date
            &&& all[10] == ' ' && all[13] == ':' && all[16] == ':'
            &&& all.subrange(11, 13) == h
            &&& all.subrange(14, 16) == n
            &&& all.subrange(17, 19) == s
        }),
{
    let all = date + seq![' '] + h + seq![':'] + n + seq![':'] + s;
    assert(all.subrange(0, 10) =~= date);
    assert(all.subrange(11, 13) =~= h);
    assert(all.subrange(14, 16) =~= n);
    assert(all.subrange(17, 19) =~= s);
}

/// The characters of a written time, after those of the date.
proof fn lemma_time(m: Moment)
    requires
        writable(m),
    ensures
        m.text() == m.date_text() + seq![' '] + pair(m.hour as nat) + seq![':'] + pair(
            m.minute as nat,
        ) + seq![':'] + pair(m.second as nat),
        m.text().len() == 19,
        m.date_text().len() == 10,
        m.text().subrange(0, 10) == m.date_text(),
        m.text()[10] == ' ' && m.text()[13] == ':' && m.text()[16] == ':',
        m.text().subrange(11, 13) == pair(m.hour as nat),
        m.text().subrange(14, 16) == pair(m.minute as nat),
        m.text().subrange(17, 19) == pair(m.second as nat),
{
    lemma_date(m);
    lemma_pair(m.hour as nat);
    lemma_pair(m.minute as nat);
    lemma_pair(m.second as nat);
    assert(" "@ == seq![' ']) by {
        reveal_strlit(" ");
        assert(" "@ =~= seq![' ']);
    }
    assert(":"@ == seq![':']) by {
        reveal_strlit(":");
        assert(":"@ =~= seq![':']);
    }
    lemma_parts(
        m.date_text(),
        pair(m.hour as nat),
        pair(m.minute as nat),
        pair(m.second as nat),
    );
}

/// Two digits are ASCII.
proof fn lemma_pair_ascii(n: nat)
    requires
        n < 100,
    ensures
        vstd::utf8::is_ascii_chars(pair(n)),
{
}

/// A written date is ASCII.
proof fn lemma_date_ascii(m: Moment)
    requires
        writable(m),
    ensures
        vstd::utf8::is_ascii_chars(m.date_text()),
{
    let (c, y) = (pair((m.year / 100) as nat), pair((m.year % 100) as nat));
    let (mo, d) = (pair(m.month as nat), pair(m.day as nat));
    let dash = seq!['-'];
    lemma_date(m);
    lemma_pair_ascii((m.year / 100) as nat);
    lemma_pair_ascii((m.year % 100) as nat);
    lemma_pair_ascii(m.month as nat);
    lemma_pair_ascii(m.day as nat);
    assert(vstd::utf8::is_ascii_chars(dash));
    lemma_ascii_parts(c, y);
    lemma_ascii_parts(c + y, dash);
    lemma_ascii_parts(c + y + dash, mo);
    lemma_ascii_parts(c + y + dash + mo, dash);
    lemma_ascii_parts(c + y + dash + mo + dash, d);
}

/// A written moment is ASCII.
proof fn lemma_moment_ascii(m: Moment)
    requires
        writable(m),
    ensures
        vstd::utf8::is_ascii_chars(m.text()),
{
    let date = m.date_text();
    let (h, n, s) = (pair(m.hour as nat), pair(m.minute as nat), pair(m.second as nat));
    let (space, colon) = (seq![' '], seq![':']);
    lemma_time(m);
    lemma_date_ascii(m);
    lemma_pair_ascii(m.hour as nat);
    lemma_pair_ascii(m.minute as nat);
    lemma_pair_ascii(m.second as nat);
    assert(vstd::utf8::is_ascii_chars(space));
    assert(vstd::utf8::is_ascii_chars(colon));
    lemma_ascii_parts(date, space);
    lemma_ascii_parts(date + space, h);
    lemma_ascii_parts(date + space + h, colon);
    lemma_ascii_parts(date + space + h + colon, n);
    lemma_ascii_parts(date + space + h + colon + n, colon);
    lemma_ascii_parts(date + space + h + colon + n + colon, s);
}

/// A moment that is written out is read back.
pub proof fn a_written_moment_reads_back(m: Moment)
    requires
        writable(m),
    ensures
        moment_of(bytes(m.text())) == Some(m),
{
    let s = m.text();
    let date = m.date_text();
    lemma_date(m);
    lemma_time(m);
    lemma_moment_ascii(m);
    lemma_ascii(s);
    assert forall|k: int| 0 <= k < 10 implies s[k] == #[trigger] date[k] by {
        assert(s.subrange(0, 10)[k] == s[k]);
    }
    assert(s.subrange(11, 13)[0] == s[11] && s.subrange(11, 13)[1] == s[12]);
    assert(s.subrange(14, 16)[0] == s[14] && s.subrange(14, 16)[1] == s[15]);
    assert(s.subrange(17, 19)[0] == s[17] && s.subrange(17, 19)[1] == s[18]);
    assert(s[0] == date[0] && s[1] == date[1] && s[2] == date[2] && s[3] == date[3]);
    assert(s[4] == date[4] && s[5] == date[5] && s[6] == date[6] && s[7] == date[7]);
    assert(s[8] == date[8] && s[9] == date[9]);
    lemma_read(s, 0, (m.year / 100) as nat);
    lemma_read(s, 2, (m.year % 100) as nat);
    lemma_read(s, 5, m.month as nat);
    lemma_read(s, 8, m.day as nat);
    lemma_read(s, 11, m.hour as nat);
    lemma_read(s, 14, m.minute as nat);
    lemma_read(s, 17, m.second as nat);
    assert(bytes(s)[4] == s[4] as u8 && bytes(s)[7] == s[7] as u8);
    assert(bytes(s)[10] == s[10] as u8 && bytes(s)[13] == s[13] as u8 && bytes(s)[16] == s[16] as u8);
    assert(m.year == m.year / 100 * 100 + m.year % 100);
}

/// Where a moment falls, held against the bucket of another: one inside rounds to its start, one
/// below rounds below it, and one above rounds to its end or beyond.
pub open spec fn falls(x: Moment, v: Moment, unit: Unit) -> bool {
    &&& x.seconds() < v.floor(unit).seconds() ==> x.floor(unit).seconds() < v.floor(unit).seconds()
    &&& v.floor(unit).seconds() <= x.seconds() < v.after(unit).seconds() ==> x.floor(unit)
        == v.floor(unit)
    &&& x.seconds() >= v.after(unit).seconds() ==> x.floor(unit).seconds() >= v.after(
        unit,
    ).seconds()
}

/// Boundaries that are `k` seconds apart.
proof fn lemma_even(x: Moment, v: Moment, unit: Unit, k: int, c: int)
    requires
        writable(x),
        writable(v),
        k > 0,
        x.floor(unit).seconds() == (x.seconds() + c) / k * k - c,
        v.floor(unit).seconds() == (v.seconds() + c) / k * k - c,
        v.after(unit).seconds() == v.floor(unit).seconds() + k,
    ensures
        falls(x, v, unit),
{
    a_moment_lies_in_its_bucket(x, unit);
    a_moment_lies_in_its_bucket(v, unit);
    let (a, b) = (x.seconds() + c, v.seconds() + c);
    let (p, q) = (a / k, b / k);
    assert(p * k <= a < p * k + k) by (nonlinear_arith)
        requires
            p == a / k,
            k > 0,
    ;
    if q * k <= a && a < q * k + k {
        assert(p == q) by (nonlinear_arith)
            requires
                q * k <= a,
                a < q * k + k,
                p * k <= a,
                a < p * k + k,
                k > 0,
        ;
        seconds_tell_moments_apart(x.floor(unit), v.floor(unit));
    }
    if a >= q * k + k {
        assert(p * k >= q * k + k) by (nonlinear_arith)
            requires
                a >= q * k + k,
                a < p * k + k,
                k > 0,
        ;
    }
}

/// The later of two moments is not in an earlier month.
proof fn lemma_months_rise(a: Moment, b: Moment)
    requires
        a.valid(),
        b.valid(),
        a.seconds() <= b.seconds(),
    ensures
        a.year < b.year || (a.year == b.year && a.month <= b.month),
{
    assert(a.day_count() <= b.day_count());
    lemma_in_year(a);
    lemma_in_year(b);
    if b.year < a.year {
        lemma_years_rise(b.year + 1, a.year as int);
    }
    if a.year == b.year && b.month < a.month {
        lemma_within_year(a.year as int, b.month as int, a.month as int);
    }
}

/// The start of a later month is later.
proof fn lemma_starts_rise(y: int, m: int, y2: int, m2: int)
    requires
        1 <= m <= 12,
        1 <= m2 <= 12,
        y < y2 || (y == y2 && m <= m2),
    ensures
        day_number(y, m, 1) <= day_number(y2, m2, 1),
{
    if y == y2 {
        lemma_within_year(y, m, m2);
    } else {
        lemma_within_year(y, m, m);
        lemma_year_length(y);
        lemma_years_rise(y + 1, y2);
        lemma_within_year(y2, 1, m2);
        assert(days_before_month(y2, 1) == 0);
    }
}

/// Boundaries that are the first of a month.
proof fn lemma_monthly(x: Moment, v: Moment, unit: Unit)
    requires
        writable(x),
        writable(v),
        unit is Year || unit is Quarter || unit is Month,
    ensures
        falls(x, v, unit),
{
    a_moment_lies_in_its_bucket(x, unit);
    a_moment_lies_in_its_bucket(v, unit);
    let (low, high, f) = (v.floor(unit), v.after(unit), x.floor(unit));
    if x.seconds() >= high.seconds() {
        lemma_months_rise(high, x);
        lemma_starts_rise(high.year as int, high.month as int, f.year as int, f.month as int);
    } else if x.seconds() >= low.seconds() {
        lemma_months_rise(low, x);
        if !(x.year < high.year || (x.year == high.year && x.month < high.month)) {
            lemma_starts_rise(high.year as int, high.month as int, f.year as int, f.month as int);
        }
    }
}

/// Rounding keeps the order of moments.
pub proof fn rounding_keeps_the_order(x: Moment, v: Moment, unit: Unit)
    requires
        writable(x),
        writable(v),
    ensures
        falls(x, v, unit),
{
    match unit {
        Unit::Year | Unit::Quarter | Unit::Month => lemma_monthly(x, v, unit),
        Unit::Week => {
            lemma_week(x);
            lemma_week(v);
            lemma_even(x, v, unit, 604_800, 259_200);
        },
        Unit::Day => {
            lemma_day(x);
            lemma_day(v);
            lemma_even(x, v, unit, 86_400, 0);
        },
        Unit::Hour => {
            lemma_hour(x);
            lemma_hour(v);
            lemma_even(x, v, unit, 3_600, 0);
        },
        Unit::Minute => {
            lemma_minute(x);
            lemma_minute(v);
            lemma_even(x, v, unit, 60, 0);
        },
        Unit::Second => {
            lemma_second(v);
            lemma_even(x, v, unit, 1, 0);
        },
    }
}

proof fn lemma_week(m: Moment)
    requires
        writable(m),
    ensures
        m.floor(Unit::Week).seconds() == (m.seconds() + 259_200) / 604_800 * 604_800 - 259_200,
        m.after(Unit::Week).seconds() == m.floor(Unit::Week).seconds() + 604_800,
{
    lemma_days_back(m, m.since_monday());
    lemma_days_on(m.floor(Unit::Week), 7);
    let d = m.day_count();
    let t = m.seconds() - d * 86_400;
    assert(0 <= t < 86_400);
    let w = (d + 3) / 7;
    assert(d + 3 == w * 7 + (d + 3) % 7);
    assert((m.seconds() + 259_200) / 604_800 == w) by (nonlinear_arith)
        requires
            m.seconds() + 259_200 == (d + 3) * 86_400 + t,
            d + 3 == w * 7 + (d + 3) % 7,
            0 <= (d + 3) % 7 <= 6,
            0 <= t < 86_400,
    ;
}

proof fn lemma_day(m: Moment)
    requires
        writable(m),
    ensures
        m.floor(Unit::Day).seconds() == m.seconds() / 86_400 * 86_400,
        m.after(Unit::Day).seconds() == m.floor(Unit::Day).seconds() + 86_400,
{
    tomorrow_is_one_day_on(m);
    assert(m.seconds() / 86_400 == m.day_count());
}

proof fn lemma_hour(m: Moment)
    requires
        writable(m),
    ensures
        m.floor(Unit::Hour).seconds() == m.seconds() / 3_600 * 3_600,
        m.after(Unit::Hour).seconds() == m.floor(Unit::Hour).seconds() + 3_600,
        m.after_hour().seconds() == m.floor(Unit::Hour).seconds() + 3_600,
{
    tomorrow_is_one_day_on(m);
    assert(m.seconds() / 3_600 == m.day_count() * 24 + m.hour);
}

proof fn lemma_minute(m: Moment)
    requires
        writable(m),
    ensures
        m.floor(Unit::Minute).seconds() == m.seconds() / 60 * 60,
        m.after(Unit::Minute).seconds() == m.floor(Unit::Minute).seconds() + 60,
{
    lemma_hour(m);
    assert(m.seconds() / 60 == m.day_count() * 1_440 + m.hour * 60 + m.minute);
}

proof fn lemma_second(m: Moment)
    requires
        writable(m),
    ensures
        m.after(Unit::Second).seconds() == m.seconds() + 1,
{
    lemma_hour(m);
}

/// One of the six comparisons.
pub open spec fn is_comparison(op: Seq<char>) -> bool {
    op == "="@ || op == "!="@ || op == "<"@ || op == "<="@ || op == ">"@ || op == ">="@
}

/// Whether two numbers compare as a comparison says.
pub open spec fn compare(a: int, op: Seq<char>, b: int) -> bool {
    if op == "="@ {
        a == b
    } else if op == "!="@ {
        a != b
    } else if op == "<"@ {
        a < b
    } else if op == "<="@ {
        a <= b
    } else if op == ">"@ {
        a > b
    } else {
        op == ">="@ && a >= b
    }
}

/// Whether a stored moment is one a condition on written dates selects.
pub open spec fn selects(c: CondView, x: Moment) -> bool
    decreases c,
{
    match c {
        CondView::And(a, b) => selects(*a, x) && selects(*b, x),
        CondView::Or(a, b) => selects(*a, x) || selects(*b, x),
        CondView::Not(a) => !selects(*a, x),
        CondView::Cmp { op, value: LiteralView::Str(written), .. } => match moment_of(
            bytes(written),
        ) {
            Some(m) => compare(x.seconds(), op, m.seconds()),
            None => false,
        },
        _ => false,
    }
}

proof fn lemma_comparisons()
    ensures
        "="@ != "!="@ && "="@ != "<"@ && "="@ != "<="@ && "="@ != ">"@ && "="@ != ">="@,
        "!="@ != "<"@ && "!="@ != "<="@ && "!="@ != ">"@ && "!="@ != ">="@,
        "<"@ != "<="@ && "<"@ != ">"@ && "<"@ != ">="@,
        "<="@ != ">"@ && "<="@ != ">="@ && ">"@ != ">="@,
{
    reveal_strlit("=");
    reveal_strlit("!=");
    reveal_strlit("<");
    reveal_strlit("<=");
    reveal_strlit(">");
    reveal_strlit(">=");
    assert("="@[0] == '=' && "<"@[0] == '<' && ">"@[0] == '>');
    assert("!="@[0] == '!' && "<="@[0] == '<' && ">="@[0] == '>');
    assert("="@.len() == 1 && "<"@.len() == 1 && ">"@.len() == 1);
    assert("!="@.len() == 2 && "<="@.len() == 2 && ">="@.len() == 2);
}

/// A boundary that is written back is read as itself.
proof fn lemma_boundary(m: Moment, unit: Unit)
    requires
        writable(m),
        unit.whole_days() ==> m == Moment::midnight(m.year, m.month, m.day),
    ensures
        moment_of(bytes(boundary_text(m, unit))) == Some(m),
{
    a_written_date_reads_back(m);
    a_written_moment_reads_back(m);
}

/// The condition a bucket is turned into, for what the bucket's two ends are.
proof fn lemma_bucket(
    b: BucketView,
    low: Moment,
    high: Moment,
    column: NameView,
    op: Seq<char>,
    at: usize,
    x: Moment,
)
    requires
        is_comparison(op),
        moment_of(bytes(b.low)) == Some(low),
        moment_of(bytes(b.high)) == Some(high),
    ensures
        match b.compared(column, op, at) {
            Err(_) => !b.exact && (op == "="@ || op == "!="@),
            Ok(c) => selects(c, x) == if op == "="@ {
                low.seconds() <= x.seconds() < high.seconds()
            } else if op == "!="@ {
                !(low.seconds() <= x.seconds() < high.seconds())
            } else if op == ">="@ && b.exact {
                x.seconds() >= low.seconds()
            } else if op == ">="@ || op == ">"@ {
                x.seconds() >= high.seconds()
            } else if op == "<"@ && b.exact {
                x.seconds() < low.seconds()
            } else {
                x.seconds() < high.seconds()
            },
        },
        (op == "="@ || op == "!="@) && !b.exact ==> b.compared(column, op, at) is Err,
{
    lemma_comparisons();
    reveal_with_fuel(selects, 4);
}

/// The moment a text writes is one the calendar has.
proof fn lemma_read_is_writable(written: Seq<char>)
    ensures
        moment_of(bytes(written)) matches Some(m) ==> writable(m),
{
}

/// A comparison of a rounded column with a written date selects exactly the moments whose rounding
/// compares so, and is refused only where no moment rounds to the date. Both ends of the range
/// have to be dates that can be written, with a year of four digits.
pub proof fn a_rounded_comparison_is_a_range(
    e: Env,
    i: int,
    at: usize,
    unit: Unit,
    written: Seq<char>,
    column: NameView,
    op: Seq<char>,
    x: Moment,
)
    requires
        writable(x),
        is_comparison(op),
        moment_of(bytes(written)) matches Some(v) ==> v.floor(unit).year >= 0 && v.after(unit).year
            <= 9_999,
    ensures
        match moment_of(bytes(written)) {
            None => bucket_for(e, i, unit, LiteralView::Str(written), false, at) is Err,
            Some(v) => match bucket_for(e, i, unit, LiteralView::Str(written), false, at) {
                Err(_) => false,
                Ok(b) => match b.compared(column, op, at) {
                    Ok(c) => selects(c, x) == compare(x.floor(unit).seconds(), op, v.seconds()),
                    Err(_) => (op == "="@ || op == "!="@) && x.floor(unit) != v,
                },
            },
        },
{
    if let Some(v) = moment_of(bytes(written)) {
        lemma_read_is_writable(written);
        lemma_comparisons();
        rounding_keeps_the_order(x, v, unit);
        a_moment_lies_in_its_bucket(x, unit);
        a_moment_lies_in_its_bucket(v, unit);
        a_boundary_rounds_to_itself(v, unit);
        let (low, high) = (v.floor(unit), v.after(unit));
        lemma_ends(v, unit);
        lemma_boundary(low, unit);
        lemma_boundary(high, unit);
        let b = BucketView {
            low: boundary_text(low, unit),
            high: boundary_text(high, unit),
            exact: low == v,
        };
        lemma_bucket(b, low, high, column, op, at, x);
        if low.seconds() == v.seconds() {
            seconds_tell_moments_apart(low, v);
        }
    }
}

/// Both ends of a bucket of whole days are midnights.
proof fn lemma_ends(v: Moment, unit: Unit)
    requires
        writable(v),
        v.floor(unit).year >= 0,
        v.after(unit).year <= 9_999,
    ensures
        writable(v.floor(unit)),
        writable(v.after(unit)),
        unit.whole_days() ==> {
            let (a, b) = (v.floor(unit), v.after(unit));
            a == Moment::midnight(a.year, a.month, a.day) && b == Moment::midnight(
                b.year,
                b.month,
                b.day,
            )
        },
{
    a_moment_lies_in_its_bucket(v, unit);
    if unit is Week {
        lemma_days_back(v, v.since_monday());
        lemma_days_on(v.floor(unit), 7);
    }
    if v.floor(unit).year > v.year {
        lemma_months_rise(v.floor(unit), v);
    }
    lemma_months_rise(v, v.after(unit));
    lemma_months_rise(v.floor(unit), v);
}

/// A comparison of a column's year with a number selects exactly the moments whose year compares
/// so. Both ends of the range have to be dates that can be written, with a year of four digits.
pub proof fn a_compared_year_is_a_range(
    e: Env,
    i: int,
    at: usize,
    n: u64,
    column: NameView,
    op: Seq<char>,
    x: Moment,
)
    requires
        writable(x),
        is_comparison(op),
        n < 9_999,
    ensures
        match bucket_for(e, i, Unit::Year, LiteralView::Int(n), true, at) {
            Err(_) => false,
            Ok(b) => match b.compared(column, op, at) {
                Ok(c) => selects(c, x) == compare(x.year as int, op, n as int),
                Err(_) => false,
            },
        },
{
    let low = Moment::midnight(n as i64, 1, 1);
    let high = Moment::midnight((n + 1) as i64, 1, 1);
    lemma_comparisons();
    a_written_date_reads_back(low);
    a_written_date_reads_back(high);
    let b = BucketView { low: low.date_text(), high: high.date_text(), exact: true };
    lemma_bucket(b, low, high, column, op, at, x);
    if x.seconds() >= low.seconds() {
        lemma_months_rise(low, x);
    } else {
        lemma_months_rise(x, low);
        if x.year >= n {
            lemma_starts_rise(n as int, 1, x.year as int, x.month as int);
        }
    }
    if x.seconds() >= high.seconds() {
        lemma_months_rise(high, x);
    } else if x.year > n {
        lemma_starts_rise(n + 1, 1, x.year as int, x.month as int);
    }
}

} // verus!
