use vstd::prelude::*;

use crate::text::all_digits;
use crate::text::digits_val;
use crate::text::digits_value_capped;
use crate::text::field_ok;
use crate::text::find_at;
use crate::text::find_char;
use crate::text::lemma_digits_bound;
use crate::text::str_eq;
use crate::value::Value;
use vstd::string::StrSliceExecFns;

verus! {

/// The field or shape a date failed on.
#[derive(Clone, Copy, Debug, PartialEq, Eq, Structural)]
pub enum DateError {
    /// The year is outside [1900, 2200].
    YearOutOfRange,
    /// The month is outside [1, 12].
    MonthOutOfRange,
    /// The day is outside the month's length for that year.
    DayOutOfRange,
    /// The slash form's month field is not an unsigned number that fits.
    BadMonthField,
    /// The slash form's day field is not an unsigned number that fits.
    BadDayField,
    /// The slash form's year field is not an unsigned number that fits.
    BadYearField,
    /// The quarter form names no quarter among Q1..Q4.
    BadQuarter,
    /// The quarter form's year is not two or four digits.
    BadQuarterYear,
    /// The text matches none of the accepted shapes.
    UnrecognizedFormat,
}

/// A failed parse: the error kind together with the offending input text.
#[derive(Debug, Clone)]
pub struct DateParseError {
    pub input: String,
    pub kind: DateError,
}

/// Proleptic Gregorian leap year.
pub open spec fn is_leap_year(y: int) -> bool {
    y % 4 == 0 && (y % 100 != 0 || y % 400 == 0)
}

/// Days in a month of a year.
pub open spec fn days_in_month(y: int, m: int) -> int {
    if m == 2 {
        if is_leap_year(y) {
            29
        } else {
            28
        }
    } else if m == 4 || m == 6 || m == 9 || m == 11 {
        30
    } else {
        31
    }
}

/// The dates this library accepts: year within [1900, 2200], month within
/// [1, 12], day valid for that month and year.
pub open spec fn valid_date(y: int, m: int, d: int) -> bool {
    &&& 1900 <= y <= 2200
    &&& 1 <= m <= 12
    &&& 1 <= d <= days_in_month(y, m)
}

/// Days in a year.
pub open spec fn days_in_year(y: int) -> int {
    if is_leap_year(y) {
        366
    } else {
        365
    }
}

/// Days from 1970-01-01 to the first day of year `y` (negative before 1970).
pub open spec fn days_before_year(y: int) -> int
    decreases
            if y >= 1970 {
                y - 1970
            } else {
                1970 - y
            },
{
    if y == 1970 {
        0
    } else if y > 1970 {
        days_before_year(y - 1) + days_in_year(y - 1)
    } else {
        days_before_year(y + 1) - days_in_year(y)
    }
}

/// Days from the first day of year `y` to the first day of its month `m`.
pub open spec fn days_before_month(y: int, m: int) -> int
    decreases m,
{
    if m <= 1 {
        0
    } else {
        days_before_month(y, m - 1) + days_in_month(y, m - 1)
    }
}

/// Days from 1970-01-01 to the date (negative before the epoch).
pub open spec fn days_from_epoch(y: int, m: int, d: int) -> int {
    days_before_year(y) + days_before_month(y, m) + (d - 1)
}

/// The date at midnight UTC, as seconds since 1970-01-01T00:00:00Z.
pub open spec fn unix_seconds_of(y: int, m: int, d: int) -> int {
    86400 * days_from_epoch(y, m, d)
}

/// A calendar date, held as plain year, month and day-of-month fields.
#[derive(Clone, Copy, Debug, PartialEq, Eq, Structural)]
pub struct Date {
    pub year: u16,
    pub month: u8,
    pub mday: u8,
}

/// Years between 1900 and 2200 keep `days_before_year` within four-digit-year
/// bounds, so the day and second counts fit comfortably in an i64.
proof fn lemma_days_before_year_bounds(y: int)
    requires
        1900 <= y <= 2201,
    ensures
        -26000 <= days_before_year(y) <= 85000,
    decreases
            if y >= 1970 {
                y - 1970
            } else {
                1970 - y
            },
{
    if y == 1970 {
    } else if y > 1970 {
        lemma_days_before_year_bounds(y - 1);
        assert(days_before_year(y) - days_before_year(y - 1) <= 366);
        assert(days_before_year(y) >= days_before_year(y - 1) + 365);
        assert(days_before_year(y - 1) <= 366 * (y - 1 - 1970) + 0) by {
            lemma_days_before_year_growth(1970, y - 1);
        }
        assert(days_before_year(y) <= 366 * (y - 1970));
        assert(366 * (y - 1970) <= 366 * 231);
    } else {
        lemma_days_before_year_bounds(y + 1);
        assert(days_before_year(y) == days_before_year(y + 1) - days_in_year(y));
        assert(days_before_year(y) >= 366 * (y - 1970)) by {
            lemma_days_before_year_growth(y, 1970);
        }
        assert(366 * (y - 1970) >= 366 * (1900 - 1970));
    }
}

/// Between two years, `days_before_year` grows by at least 365 and at most
/// 366 days per year.
proof fn lemma_days_before_year_growth(y1: int, y2: int)
    requires
        y1 <= y2,
    ensures
        365 * (y2 - y1) <= days_before_year(y2) - days_before_year(y1) <= 366 * (y2 - y1),
    decreases y2 - y1,
{
    if y1 < y2 {
        lemma_days_before_year_growth(y1, y2 - 1);
        assert(days_before_year(y2) == days_before_year(y2 - 1) + days_in_year(y2 - 1));
    }
}

/// `days_before_month` grows by at most 31 days per month.
proof fn lemma_days_before_month_bounds(y: int, m: int)
    requires
        1 <= m <= 13,
    ensures
        0 <= days_before_month(y, m) <= 31 * (m - 1),
    decreases m,
{
    if m > 1 {
        lemma_days_before_month_bounds(y, m - 1);
    }
}

impl Date {
    /// Range-checks the fields and constructs the date, reporting the first
    /// field out of range, in the order year, month, day.
    pub fn new(year: u16, month: u8, mday: u8) -> (r: Result<Date, DateError>)
        ensures
            r matches Ok(d) ==> valid_date(year as int, month as int, mday as int) && d.year
                == year && d.month == month && d.mday == mday,
            r matches Err(e) ==> !valid_date(year as int, month as int, mday as int) && e == (
            if !(1900 <= year <= 2200) {
                DateError::YearOutOfRange
            } else if !(1 <= month <= 12) {
                DateError::MonthOutOfRange
            } else {
                DateError::DayOutOfRange
            }),
    {
        if year < 1900 || year > 2200 {
            return Err(DateError::YearOutOfRange);
        }
        if month < 1 || month > 12 {
            return Err(DateError::MonthOutOfRange);
        }
        let dim = days_in_month_exec(year, month);
        if mday < 1 || mday > dim {
            return Err(DateError::DayOutOfRange);
        }
        Ok(Date { year, month, mday })
    }

    /// Invariant: the fields form an accepted calendar date.
    pub open spec fn wf(self) -> bool {
        valid_date(self.year as int, self.month as int, self.mday as int)
    }

    /// The date at midnight UTC as signed seconds since the Unix epoch.
    pub fn unixtime(&self) -> (r: i64)
        requires
            self.wf(),
        ensures
            r == unix_seconds_of(self.year as int, self.month as int, self.mday as int),
    {
        let days = days_from_epoch_exec(self.year, self.month, self.mday);
        proof {
            lemma_days_before_year_bounds(self.year as int);
            lemma_days_before_month_bounds(self.year as int, self.month as int);
        }
        86400 * days
    }
}

/// Days in a month, executable twin of `days_in_month`.
fn days_in_month_exec(y: u16, m: u8) -> (r: u8)
    ensures
        r == days_in_month(y as int, m as int),
{
    if m == 2 {
        if (y % 4 == 0) && (y % 100 != 0 || y % 400 == 0) {
            29
        } else {
            28
        }
    } else if m == 4 || m == 6 || m == 9 || m == 11 {
        30
    } else {
        31
    }
}

/// Signed days since the epoch, executable twin of `days_from_epoch`.
fn days_from_epoch_exec(year: u16, month: u8, mday: u8) -> (r: i64)
    requires
        valid_date(year as int, month as int, mday as int),
    ensures
        r == days_from_epoch(year as int, month as int, mday as int),
        -26000 <= r <= 86000,
{
    let mut days: i64 = 0;
    proof {
        lemma_days_before_year_bounds(year as int);
    }
    if year >= 1970 {
        let mut y: u16 = 1970;
        while y < year
            invariant
                1970 <= y <= year <= 2200,
                days == days_before_year(y as int),
                -26000 <= days <= 85000,
            decreases year - y,
        {
            proof {
                lemma_days_before_year_bounds(y as int + 1);
            }
            if (y % 4 == 0) && (y % 100 != 0 || y % 400 == 0) {
                days = days + 366;
            } else {
                days = days + 365;
            }
            y = y + 1;
        }
    } else {
        let mut y: u16 = year;
        while y < 1970
            invariant
                1900 <= year <= y <= 1970,
                days == days_before_year(year as int) - days_before_year(y as int),
                -26000 <= days + days_before_year(y as int) <= 85000,
                -26000 <= days_before_year(y as int) <= 85000,
                -26000 <= days_before_year(year as int) <= 85000,
            decreases 1970 - y,
        {
            proof {
                lemma_days_before_year_bounds(y as int);
                lemma_days_before_year_bounds(y as int + 1);
            }
            if (y % 4 == 0) && (y % 100 != 0 || y % 400 == 0) {
                days = days - 366;
            } else {
                days = days - 365;
            }
            y = y + 1;
        }
    }
    proof {
        lemma_days_before_year_bounds(year as int);
    }
    let mut m: u8 = 1;
    while m < month
        invariant
            1 <= m <= month <= 12,
            1900 <= year <= 2200,
            days == days_before_year(year as int) + days_before_month(year as int, m as int),
            -26000 <= days_before_year(year as int) <= 85000,
            0 <= days_before_month(year as int, m as int) <= 31 * (m as int - 1),
        decreases month - m,
    {
        proof {
            lemma_days_before_month_bounds(year as int, m as int + 1);
        }
        days = days + days_in_month_exec(year, m) as i64;
        m = m + 1;
    }
    days + (mday as i64) - 1
}

/// The month a long-form month name denotes.
pub open spec fn month_of_name(s: Seq<char>) -> Option<int> {
    if s == "January"@ {
        Some(1)
    } else if s == "February"@ {
        Some(2)
    } else if s == "March"@ {
        Some(3)
    } else if s == "April"@ {
        Some(4)
    } else if s == "May"@ {
        Some(5)
    } else if s == "June"@ {
        Some(6)
    } else if s == "July"@ {
        Some(7)
    } else if s == "August"@ {
        Some(8)
    } else if s == "September"@ {
        Some(9)
    } else if s == "October"@ {
        Some(10)
    } else if s == "November"@ {
        Some(11)
    } else if s == "December"@ {
        Some(12)
    } else {
        None
    }
}

/// The long form: a month name, a space, a one- or two-digit day, a comma, a
/// space, and a four-digit year. Yields the raw (year, month, day) numbers.
pub open spec fn long_form_of(s: Seq<char>) -> Option<(int, int, int)> {
    let p = find_at(s, ' ');
    if p < s.len() {
        match month_of_name(s.take(p)) {
            Some(m) => {
                let rest = s.skip(p + 1);
                let q = find_at(rest, ',');
                if q < rest.len() && 1 <= q <= 2 && all_digits(rest.take(q)) && rest.len() == q
                    + 6 && rest[q + 1] == ' ' && all_digits(rest.skip(q + 2)) {
                    Some((digits_val(rest.skip(q + 2)), m, digits_val(rest.take(q))))
                } else {
                    None
                }
            },
            None => None,
        }
    } else {
        None
    }
}

/// The text splits on `c` into exactly three parts: two occurrences.
pub open spec fn splits_in_three(s: Seq<char>, c: char) -> bool {
    let p1 = find_at(s, c);
    p1 < s.len() && {
        let rest = s.skip(p1 + 1);
        let p2 = find_at(rest, c);
        p2 < rest.len() && find_at(rest.skip(p2 + 1), c) == rest.skip(p2 + 1).len()
    }
}

/// The text splits on `c` into exactly two parts: one occurrence.
pub open spec fn splits_in_two(s: Seq<char>, c: char) -> bool {
    let p1 = find_at(s, c);
    p1 < s.len() && find_at(s.skip(p1 + 1), c) == s.skip(p1 + 1).len()
}

/// Range checking of raw (year, month, day) numbers, reporting the first
/// field out of range, in the order year, month, day.
pub open spec fn date_new_spec(y: int, m: int, d: int) -> Result<(int, int, int), DateError> {
    if !(1900 <= y <= 2200) {
        Err(DateError::YearOutOfRange)
    } else if !(1 <= m <= 12) {
        Err(DateError::MonthOutOfRange)
    } else if !(1 <= d <= days_in_month(y, m)) {
        Err(DateError::DayOutOfRange)
    } else {
        Ok((y, m, d))
    }
}

/// The slash form month/day/year: each field an unsigned number that fits
/// its machine field, read in the order year, month, day, then range-checked.
pub open spec fn slash_result(s: Seq<char>) -> Result<(int, int, int), DateError> {
    let p1 = find_at(s, '/');
    let rest = s.skip(p1 + 1);
    let p2 = find_at(rest, '/');
    let mf = s.take(p1);
    let df = rest.take(p2);
    let yf = rest.skip(p2 + 1);
    if !field_ok(yf, 65535) {
        Err(DateError::BadYearField)
    } else if !field_ok(mf, 255) {
        Err(DateError::BadMonthField)
    } else if !field_ok(df, 255) {
        Err(DateError::BadDayField)
    } else {
        date_new_spec(digits_val(yf), digits_val(mf), digits_val(df))
    }
}

/// The quarter form Q<n>'<yy|yyyy>: a two-digit year means 2000 + yy, and
/// each quarter maps to its fixed mid-quarter day.
pub open spec fn quarter_result(s: Seq<char>) -> Result<(int, int, int), DateError> {
    let p = find_at(s, '\'');
    let qf = s.take(p);
    let yf = s.skip(p + 1);
    if !(yf.len() == 2 || yf.len() == 4) {
        Err(DateError::BadQuarterYear)
    } else if !all_digits(yf) {
        Err(DateError::BadQuarterYear)
    } else {
        let y = digits_val(yf) + if yf.len() == 2 {
            2000int
        } else {
            0int
        };
        if qf == "Q1"@ {
            date_new_spec(y, 2, 15)
        } else if qf == "Q2"@ {
            date_new_spec(y, 5, 15)
        } else if qf == "Q3"@ {
            date_new_spec(y, 8, 15)
        } else if qf == "Q4"@ {
            date_new_spec(y, 11, 15)
        } else {
            Err(DateError::BadQuarter)
        }
    }
}

/// What parsing a date text yields: the three shapes tried in fixed order —
/// long form, slash form, quarter form — and any other shape refused.
pub open spec fn parse_spec(s: Seq<char>) -> Result<(int, int, int), DateError> {
    match long_form_of(s) {
        Some(t) => date_new_spec(t.0, t.1, t.2),
        None => if splits_in_three(s, '/') {
            slash_result(s)
        } else if splits_in_two(s, '\'') {
            quarter_result(s)
        } else {
            Err(DateError::UnrecognizedFormat)
        },
    }
}

/// The executable outcome agrees with the specified one, field for field.
pub open spec fn result_matches(r: Result<Date, DateError>, sr: Result<
    (int, int, int),
    DateError,
>) -> bool {
    match r {
        Ok(d) => sr matches Ok(t) && d.year as int == t.0 && d.month as int == t.1
            && d.mday as int == t.2,
        Err(e) => sr matches Err(k) && e == k,
    }
}

/// Recognizes a month name.
fn month_from_name(s: &str) -> (r: Option<u8>)
    ensures
        r is Some <==> month_of_name(s@) is Some,
        r matches Some(v) ==> month_of_name(s@) == Some(v as int),
{
    if str_eq(s, "January") {
        Some(1)
    } else if str_eq(s, "February") {
        Some(2)
    } else if str_eq(s, "March") {
        Some(3)
    } else if str_eq(s, "April") {
        Some(4)
    } else if str_eq(s, "May") {
        Some(5)
    } else if str_eq(s, "June") {
        Some(6)
    } else if str_eq(s, "July") {
        Some(7)
    } else if str_eq(s, "August") {
        Some(8)
    } else if str_eq(s, "September") {
        Some(9)
    } else if str_eq(s, "October") {
        Some(10)
    } else if str_eq(s, "November") {
        Some(11)
    } else if str_eq(s, "December") {
        Some(12)
    } else {
        None
    }
}

/// Whether the text splits on `c` into exactly three parts.
fn splits_in_three_exec(s: &str, c: char) -> (r: bool)
    ensures
        r == splits_in_three(s@, c),
{
    let n = s.unicode_len();
    let p1 = find_char(s, c);
    if p1 == n {
        return false;
    }
    let rest = s.substring_char(p1 + 1, n);
    proof {
        assert(rest@ =~= s@.skip(p1 as int + 1));
    }
    let rl = rest.unicode_len();
    let p2 = find_char(rest, c);
    if p2 == rl {
        return false;
    }
    let rest2 = rest.substring_char(p2 + 1, rl);
    proof {
        assert(rest2@ =~= rest@.skip(p2 as int + 1));
    }
    let p3 = find_char(rest2, c);
    p3 == rest2.unicode_len()
}

/// Whether the text splits on `c` into exactly two parts.
fn splits_in_two_exec(s: &str, c: char) -> (r: bool)
    ensures
        r == splits_in_two(s@, c),
{
    let n = s.unicode_len();
    let p1 = find_char(s, c);
    if p1 == n {
        return false;
    }
    let rest = s.substring_char(p1 + 1, n);
    proof {
        assert(rest@ =~= s@.skip(p1 as int + 1));
    }
    let p2 = find_char(rest, c);
    p2 == rest.unicode_len()
}

/// Tries the long form; `None` means the shape did not match and the next
/// format is to be tried.
fn try_long(s: &str) -> (r: Option<Result<Date, DateError>>)
    ensures
        r is None <==> long_form_of(s@) is None,
        r matches Some(x) ==> (long_form_of(s@) matches Some(t) && result_matches(
            x,
            date_new_spec(t.0, t.1, t.2),
        )),
{
    let n = s.unicode_len();
    let p = find_char(s, ' ');
    if p == n {
        return None;
    }
    let mstr = s.substring_char(0, p);
    proof {
        assert(mstr@ =~= s@.take(p as int));
    }
    let mv: u8 = match month_from_name(mstr) {
        Some(x) => x,
        None => {
            return None;
        },
    };
    let rest = s.substring_char(p + 1, n);
    proof {
        assert(rest@ =~= s@.skip(p as int + 1));
    }
    let rl = rest.unicode_len();
    let q = find_char(rest, ',');
    if q == rl || q < 1 || q > 2 {
        return None;
    }
    let df = rest.substring_char(0, q);
    proof {
        assert(df@ =~= rest@.take(q as int));
    }
    let dv: u16 = match digits_value_capped(df, 255) {
        Some(v) => v,
        None => {
            proof {
                if all_digits(df@) {
                    lemma_digits_bound(df@);
                }
            }
            return None;
        },
    };
    if rl != q + 6 {
        return None;
    }
    if rest.get_char(q + 1) != ' ' {
        return None;
    }
    let yf = rest.substring_char(q + 2, rl);
    proof {
        assert(yf@ =~= rest@.skip(q as int + 2));
    }
    let yv: u16 = match digits_value_capped(yf, 9999) {
        Some(v) => v,
        None => {
            proof {
                if all_digits(yf@) {
                    lemma_digits_bound(yf@);
                }
            }
            return None;
        },
    };
    proof {
        lemma_digits_bound(df@);
    }
    Some(Date::new(yv, mv, dv as u8))
}

/// Parses the slash form month/day/year.
fn try_slash(s: &str) -> (r: Result<Date, DateError>)
    requires
        splits_in_three(s@, '/'),
    ensures
        result_matches(r, slash_result(s@)),
{
    let n = s.unicode_len();
    let p1 = find_char(s, '/');
    let rest = s.substring_char(p1 + 1, n);
    proof {
        assert(rest@ =~= s@.skip(p1 as int + 1));
    }
    let rl = rest.unicode_len();
    let p2 = find_char(rest, '/');
    let mf = s.substring_char(0, p1);
    let df = rest.substring_char(0, p2);
    let yf = rest.substring_char(p2 + 1, rl);
    proof {
        assert(mf@ =~= s@.take(p1 as int));
        assert(df@ =~= rest@.take(p2 as int));
        assert(yf@ =~= rest@.skip(p2 as int + 1));
    }
    let yv: u16 = match digits_value_capped(yf, 65535) {
        Some(v) => v,
        None => {
            return Err(DateError::BadYearField);
        },
    };
    let mv: u16 = match digits_value_capped(mf, 255) {
        Some(v) => v,
        None => {
            return Err(DateError::BadMonthField);
        },
    };
    let dv: u16 = match digits_value_capped(df, 255) {
        Some(v) => v,
        None => {
            return Err(DateError::BadDayField);
        },
    };
    Date::new(yv, mv as u8, dv as u8)
}

/// Parses the quarter form Q<n>'<yy|yyyy>.
fn try_quarter(s: &str) -> (r: Result<Date, DateError>)
    requires
        splits_in_two(s@, '\''),
    ensures
        result_matches(r, quarter_result(s@)),
{
    let n = s.unicode_len();
    let p = find_char(s, '\'');
    let qf = s.substring_char(0, p);
    let yf = s.substring_char(p + 1, n);
    proof {
        assert(qf@ =~= s@.take(p as int));
        assert(yf@ =~= s@.skip(p as int + 1));
    }
    let yl = yf.unicode_len();
    if yl != 2 && yl != 4 {
        return Err(DateError::BadQuarterYear);
    }
    let yv: u16 = match digits_value_capped(yf, 9999) {
        Some(v) => v,
        None => {
            proof {
                if all_digits(yf@) {
                    lemma_digits_bound(yf@);
                }
            }
            return Err(DateError::BadQuarterYear);
        },
    };
    let year: u16 = if yl == 2 {
        yv + 2000
    } else {
        yv
    };
    let month: u8 = if str_eq(qf, "Q1") {
        2
    } else if str_eq(qf, "Q2") {
        5
    } else if str_eq(qf, "Q3") {
        8
    } else if str_eq(qf, "Q4") {
        11
    } else {
        return Err(DateError::BadQuarter);
    };
    Date::new(year, month, 15)
}

impl Date {
    /// Parses date text into an uncertain-value record field: an accepted
    /// date lifts to the present state.
    pub fn parse_value(s: &str) -> (r: Result<Value<Date>, DateParseError>)
        ensures
            r matches Ok(v) ==> (parse_spec(s@) matches Ok(t) && v matches Value::Present(d)
                && d.year as int == t.0 && d.month as int == t.1 && d.mday as int == t.2
                && d.wf()),
            r matches Err(e) ==> (parse_spec(s@) matches Err(k) && e.kind == k && e.input@
                == s@),
    {
        match Date::parse(s) {
            Ok(d) => Ok(Value::Present(d)),
            Err(e) => Err(e),
        }
    }

    /// Parses free-form date text, trying the long, slash and quarter forms
    /// in that fixed order; any other shape is refused with an error that
    /// wraps the input text.
    pub fn parse(s: &str) -> (r: Result<Date, DateParseError>)
        ensures
            r matches Ok(d) ==> (parse_spec(s@) matches Ok(t) && d.year as int == t.0
                && d.month as int == t.1 && d.mday as int == t.2 && d.wf()),
            r matches Err(e) ==> (parse_spec(s@) matches Err(k) && e.kind == k && e.input@
                == s@),
    {
        let inner: Result<Date, DateError> = match try_long(s) {
            Some(x) => x,
            None => {
                if splits_in_three_exec(s, '/') {
                    try_slash(s)
                } else if splits_in_two_exec(s, '\'') {
                    try_quarter(s)
                } else {
                    Err(DateError::UnrecognizedFormat)
                }
            },
        };
        match inner {
            Ok(d) => Ok(d),
            Err(k) => Err(DateParseError { input: s.to_owned(), kind: k }),
        }
    }
}

/// Law: parsing is a pure function of the text — equal inputs parse to equal
/// outcomes, and an accepted date re-derives the same unix-seconds value on
/// every call.
pub proof fn lemma_parse_deterministic(s1: Seq<char>, s2: Seq<char>)
    requires
        s1 == s2,
    ensures
        parse_spec(s1) == parse_spec(s2),
        parse_spec(s1) matches Ok(t) ==> unix_seconds_of(t.0, t.1, t.2) == unix_seconds_of(
            (parse_spec(s2)->Ok_0).0,
            (parse_spec(s2)->Ok_0).1,
            (parse_spec(s2)->Ok_0).2,
        ),
{
}


} // verus!
