use crate::text::{copy_range, decimal, push_char, push_decimal};
use vstd::prelude::*;

verus! {

/// A calendar date as its three numbers.
#[derive(Debug, Clone, Copy, PartialEq, Eq, Structural)]
pub struct Date {
    pub year: u32,
    pub month: u32,
    pub day: u32,
}

/// Whether `year` has a 29th of February.
pub open spec fn is_leap_year(year: int) -> bool {
    year % 4 == 0 && (year % 100 != 0 || year % 400 == 0)
}

/// The number of days of a month; 0 where `month` is none of the twelve.
pub open spec fn days_in_month(year: int, month: int) -> int {
    if month == 2 {
        if is_leap_year(year) {
            29
        } else {
            28
        }
    } else if month == 4 || month == 6 || month == 9 || month == 11 {
        30
    } else if 1 <= month <= 12 {
        31
    } else {
        0
    }
}

/// Whether the three numbers name a day of the calendar, in a year of at most
/// four digits.
pub open spec fn is_calendar_date(year: int, month: int, day: int) -> bool {
    &&& 0 <= year <= 9999
    &&& 1 <= month <= 12
    &&& 1 <= day <= days_in_month(year, month)
}

impl Date {
    /// The date's place in time: an earlier date has a smaller key, and two
    /// dates with one key are the same date.
    pub open spec fn key(self) -> int {
        (self.year as int * 0x1_0000_0000 + self.month as int) * 0x1_0000_0000 + self.day as int
    }

    /// Whether the date exists in the calendar.
    pub open spec fn is_valid(self) -> bool {
        is_calendar_date(self.year as int, self.month as int, self.day as int)
    }

    /// Whether `self` comes before `other`.
    pub fn is_before(&self, other: &Date) -> (b: bool)
        ensures
            b == (self.key() < other.key()),
    {
        self.year < other.year || (self.year == other.year && (self.month < other.month || (
        self.month == other.month && self.day < other.day)))
    }
}

/// Two dates with the same key are the same date.
pub proof fn key_is_injective(a: Date, b: Date)
    requires
        a.key() == b.key(),
    ensures
        a == b,
{
}

/// Why a date expression or a range of them was refused.
#[derive(Debug, Clone, Copy, PartialEq, Eq, Structural)]
pub enum DateError {
    /// The expression holds nothing but delimiters, or nothing at all.
    EmptyDate,
    /// The expression has more than three parts.
    TooManyParts,
    /// The expression has one part, of neither four nor six nor eight
    /// characters.
    InvalidCompact,
    /// The year holds a character that is no digit.
    InvalidYear,
    /// The year does not have four digits.
    YearNotFourDigits,
    /// The month is no number from 1 to 12.
    InvalidMonth,
    /// The day holds a character that is no digit.
    InvalidDay,
    /// The month has no such day.
    InvalidDate,
    /// The range has more than two sides.
    InvalidRange,
}

impl DateError {
    /// The text of the error.
    pub open spec fn text(self) -> Seq<char> {
        match self {
            DateError::EmptyDate => "Empty date string"@,
            DateError::TooManyParts => "Too many parts"@,
            DateError::InvalidCompact => "Invalid compact date format"@,
            DateError::InvalidYear => "Invalid year"@,
            DateError::YearNotFourDigits => "Year must be 4 digits"@,
            DateError::InvalidMonth => "Invalid month"@,
            DateError::InvalidDay => "Invalid day"@,
            DateError::InvalidDate => "Invalid date"@,
            DateError::InvalidRange => "Invalid range format"@,
        }
    }

    /// The text of the error.
    pub fn message(&self) -> (s: String)
        ensures
            s@ == self.text(),
    {
        match self {
            DateError::EmptyDate => "Empty date string".to_owned(),
            DateError::TooManyParts => "Too many parts".to_owned(),
            DateError::InvalidCompact => "Invalid compact date format".to_owned(),
            DateError::InvalidYear => "Invalid year".to_owned(),
            DateError::YearNotFourDigits => "Year must be 4 digits".to_owned(),
            DateError::InvalidMonth => "Invalid month".to_owned(),
            DateError::InvalidDay => "Invalid day".to_owned(),
            DateError::InvalidDate => "Invalid date".to_owned(),
            DateError::InvalidRange => "Invalid range format".to_owned(),
        }
    }
}

/// Whether `c` parts the numbers of a date expression.
pub open spec fn is_delimiter(c: char) -> bool {
    c == '-' || c == '/' || c == '.'
}

/// Whether `c` is one of the ten digits.
pub open spec fn is_digit(c: char) -> bool {
    '0' <= c <= '9'
}

/// Whether `s` holds digits only.
pub open spec fn all_digits(s: Seq<char>) -> bool {
    forall|i: int| 0 <= i < s.len() ==> is_digit(#[trigger] s[i])
}

/// The number that the digits of `s` write.
pub open spec fn digits_value(s: Seq<char>) -> nat
    decreases s.len(),
{
    if s.len() == 0 {
        0
    } else {
        digits_value(s.drop_last()) * 10 + if is_digit(s.last()) {
            (s.last() as u32 - '0' as u32) as nat
        } else {
            0
        }
    }
}

/// The parts of `s` that are complete, and the part that its last character
/// belongs to, which is empty after a delimiter. A part is a run of characters
/// between delimiters; empty parts are left out.
pub open spec fn scanned(s: Seq<char>) -> (Seq<Seq<char>>, Seq<char>)
    decreases s.len(),
{
    if s.len() == 0 {
        (Seq::empty(), Seq::empty())
    } else {
        let (done, part) = scanned(s.drop_last());
        if !is_delimiter(s.last()) {
            (done, part.push(s.last()))
        } else if part.len() > 0 {
            (done.push(part), Seq::empty())
        } else {
            (done, Seq::empty())
        }
    }
}

/// The parts of a date expression: the runs of characters between its
/// delimiters, without the empty ones.
pub open spec fn fields(s: Seq<char>) -> Seq<Seq<char>> {
    let (done, part) = scanned(s);
    if part.len() > 0 {
        done.push(part)
    } else {
        done
    }
}

/// The texts of the year, the month and the day of a date expression; the
/// month and the day are empty where the expression does not give them.
pub open spec fn components(s: Seq<char>) -> Result<(Seq<char>, Seq<char>, Seq<char>), DateError> {
    let f = fields(s);
    if f.len() == 0 {
        Err(DateError::EmptyDate)
    } else if f.len() == 1 {
        let compact = f[0];
        if compact.len() == 8 {
            Ok((compact.subrange(0, 4), compact.subrange(4, 6), compact.subrange(6, 8)))
        } else if compact.len() == 6 {
            Ok((compact.subrange(0, 4), compact.subrange(4, 6), Seq::empty()))
        } else if compact.len() == 4 {
            Ok((compact, Seq::empty(), Seq::empty()))
        } else {
            Err(DateError::InvalidCompact)
        }
    } else if f.len() == 2 {
        Ok((f[0], f[1], Seq::empty()))
    } else if f.len() == 3 {
        Ok((f[0], f[1], f[2]))
    } else {
        Err(DateError::TooManyParts)
    }
}

/// The date that the three texts give. A day that is not given is the first of
/// the month, or its last where `end` is set; a month that is not given is
/// January, or December where `end` is set.
pub open spec fn date_from(year: Seq<char>, month: Seq<char>, day: Seq<char>, end: bool) -> Result<
    Date,
    DateError,
> {
    if !all_digits(year) {
        Err(DateError::InvalidYear)
    } else if year.len() != 4 {
        Err(DateError::YearNotFourDigits)
    } else if month.len() == 0 {
        Ok(
            Date {
                year: digits_value(year) as u32,
                month: if end {
                    12
                } else {
                    1
                },
                day: if end {
                    31
                } else {
                    1
                },
            },
        )
    } else if !all_digits(month) || digits_value(month) < 1 || digits_value(month) > 12 {
        Err(DateError::InvalidMonth)
    } else if day.len() == 0 {
        Ok(
            Date {
                year: digits_value(year) as u32,
                month: digits_value(month) as u32,
                day: if end {
                    days_in_month(digits_value(year) as int, digits_value(month) as int) as u32
                } else {
                    1
                },
            },
        )
    } else if !all_digits(day) {
        Err(DateError::InvalidDay)
    } else if !is_calendar_date(
        digits_value(year) as int,
        digits_value(month) as int,
        digits_value(day) as int,
    ) {
        Err(DateError::InvalidDate)
    } else {
        Ok(
            Date {
                year: digits_value(year) as u32,
                month: digits_value(month) as u32,
                day: digits_value(day) as u32,
            },
        )
    }
}

/// The date that a date expression stands for, as the start of a period or,
/// where `end` is set, as its end.
pub open spec fn boundary(s: Seq<char>, end: bool) -> Result<Date, DateError> {
    match components(s) {
        Ok((year, month, day)) => date_from(year, month, day, end),
        Err(e) => Err(e),
    }
}

/// The views of a run of character vectors.
pub open spec fn texts(parts: Seq<Vec<char>>) -> Seq<Seq<char>> {
    parts.map_values(|p: Vec<char>| p@)
}

fn split_fields(chars: &Vec<char>) -> (parts: Vec<Vec<char>>)
    ensures
        texts(parts@) == fields(chars@),
{
    let mut parts: Vec<Vec<char>> = Vec::new();
    let mut part: Vec<char> = Vec::new();
    let mut i: usize = 0;
    while i < chars.len()
        invariant
            i <= chars@.len(),
            (texts(parts@), part@) == scanned(chars@.subrange(0, i as int)),
        decreases chars@.len() - i,
    {
        let ghost head = chars@.subrange(0, i as int);
        let ghost next = chars@.subrange(0, i as int + 1);
        let ghost done = texts(parts@);
        assert(next.drop_last() =~= head);
        let c = chars[i];
        if !(c == '-' || c == '/' || c == '.') {
            part.push(c);
        } else if part.len() > 0 {
            let ghost finished = part@;
            parts.push(part);
            part = Vec::new();
            assert(texts(parts@) =~= done.push(finished));
        }
        i += 1;
    }
    assert(chars@.subrange(0, i as int) =~= chars@);
    if part.len() > 0 {
        let ghost done = texts(parts@);
        let ghost finished = part@;
        parts.push(part);
        assert(texts(parts@) =~= done.push(finished));
    }
    parts
}

/// The number that `s` writes, where `s` holds digits only and the number is
/// below 100000.
fn read_number(s: &Vec<char>) -> (n: Option<u32>)
    ensures
        n == if all_digits(s@) && digits_value(s@) < 100_000 {
            Some(digits_value(s@) as u32)
        } else {
            None::<u32>
        },
{
    let mut value: u32 = 0;
    let mut too_large = false;
    let mut i: usize = 0;
    while i < s.len()
        invariant
            i <= s@.len(),
            all_digits(s@.subrange(0, i as int)),
            value < 100_000,
            !too_large ==> value == digits_value(s@.subrange(0, i as int)),
            too_large ==> digits_value(s@.subrange(0, i as int)) >= 100_000,
        decreases s@.len() - i,
    {
        let ghost head = s@.subrange(0, i as int);
        let ghost next = s@.subrange(0, i as int + 1);
        assert(next.drop_last() =~= head);
        let c = s[i];
        if !('0' <= c && c <= '9') {
            assert(!is_digit(s@[i as int]));
            return None;
        }
        assert forall|k: int| 0 <= k < next.len() implies is_digit(#[trigger] next[k]) by {
            if k < i {
                assert(head[k] == next[k]);
            }
        }
        if !too_large {
            value = value * 10 + (c as u32 - '0' as u32);
            if value >= 100_000 {
                too_large = true;
                value = 0;
            }
        }
        i += 1;
    }
    assert(s@.subrange(0, i as int) =~= s@);
    if too_large {
        None
    } else {
        Some(value)
    }
}

fn only_digits(s: &Vec<char>) -> (b: bool)
    ensures
        b == all_digits(s@),
{
    let mut i: usize = 0;
    while i < s.len()
        invariant
            i <= s@.len(),
            forall|k: int| 0 <= k < i ==> is_digit(#[trigger] s@[k]),
        decreases s@.len() - i,
    {
        let c = s[i];
        if !('0' <= c && c <= '9') {
            assert(!is_digit(s@[i as int]));
            return false;
        }
        i += 1;
    }
    true
}

/// Whether `chrono::NaiveDate::from_ymd_opt` gives a date. It gives none where
/// the month is none of the twelve, where the month of that year has no such
/// day, or where the year is beyond the crate's range, which no year of four
/// digits is.
#[verifier::external_body]
fn calendar_has(year: u32, month: u32, day: u32) -> (b: bool)
    requires
        year <= 9999,
    ensures
        b == is_calendar_date(year as int, month as int, day as int),
{
    chrono::NaiveDate::from_ymd_opt(year as i32, month, day).is_some()
}

/// The day of the month of the day before the first of a month, as
/// `chrono::NaiveDate` counts back by a `chrono::Duration` of one day: the last
/// day of the month before.
#[verifier::external_body]
fn day_before_first(year: u32, month: u32) -> (day: u32)
    requires
        year <= 10000,
        1 <= month <= 12,
    ensures
        day == if month == 1 {
            31
        } else {
            days_in_month(year as int, month - 1)
        },
{
    let first = chrono::NaiveDate::from_ymd_opt(year as i32, month, 1).unwrap();
    chrono::Datelike::day(&(first - chrono::Duration::days(1)))
}

fn last_day_of(year: u32, month: u32) -> (day: u32)
    requires
        year <= 9999,
        1 <= month <= 12,
    ensures
        day == days_in_month(year as int, month as int),
{
    if month == 12 {
        day_before_first(year + 1, 1)
    } else {
        day_before_first(year, month + 1)
    }
}

fn make_date(year: &Vec<char>, month: &Vec<char>, day: &Vec<char>, end: bool) -> (res: Result<
    Date,
    DateError,
>)
    ensures
        res == date_from(year@, month@, day@, end),
{
    if !only_digits(year) {
        return Err(DateError::InvalidYear);
    }
    if year.len() != 4 {
        return Err(DateError::YearNotFourDigits);
    }
    proof {
        lemma_digits_bound(year@);
    }
    let y = read_number(year).unwrap();
    if month.len() == 0 {
        return Ok(
            if end {
                Date { year: y, month: 12, day: 31 }
            } else {
                Date { year: y, month: 1, day: 1 }
            },
        );
    }
    let m = match read_number(month) {
        Some(m) => m,
        None => {
            return Err(DateError::InvalidMonth);
        },
    };
    if m == 0 || m > 12 {
        return Err(DateError::InvalidMonth);
    }
    if day.len() == 0 {
        let d = if end {
            last_day_of(y, m)
        } else {
            1
        };
        return Ok(Date { year: y, month: m, day: d });
    }
    if !only_digits(day) {
        return Err(DateError::InvalidDay);
    }
    match read_number(day) {
        Some(d) => {
            if calendar_has(y, m, d) {
                Ok(Date { year: y, month: m, day: d })
            } else {
                Err(DateError::InvalidDate)
            }
        },
        None => Err(DateError::InvalidDate),
    }
}

/// Digits write a number below the power of ten of their count.
proof fn lemma_digits_bound(s: Seq<char>)
    requires
        s.len() <= 4,
    ensures
        s.len() == 0 ==> digits_value(s) == 0,
        s.len() == 1 ==> digits_value(s) < 10,
        s.len() == 2 ==> digits_value(s) < 100,
        s.len() == 3 ==> digits_value(s) < 1000,
        s.len() == 4 ==> digits_value(s) < 10000,
    decreases s.len(),
{
    if s.len() > 0 {
        lemma_digits_bound(s.drop_last());
    }
}

/// The date that a date expression stands for.
///
/// The expression gives a year, a year and a month, or a year, a month and a
/// day: as numbers with `-`, `/` or `.` between them, or as four, six or eight
/// digits in a row. The year has four digits. Where the day is missing, the
/// date is the first of the month, or its last where `end` is set; where the
/// month is missing too, it is the first of January, or the last of December.
pub fn parse_date_boundary(s: &str, end: bool) -> (res: Result<Date, DateError>)
    ensures
        res == boundary(s@, end),
        res matches Ok(d) ==> d.is_valid(),
{
    let chars = crate::text::chars_of(s);
    proof {
        boundary_is_valid(s@, end);
    }
    boundary_of(&chars, end)
}

fn boundary_of(chars: &Vec<char>, end: bool) -> (res: Result<Date, DateError>)
    ensures
        res == boundary(chars@, end),
{
    let parts = split_fields(chars);
    let empty: Vec<char> = Vec::new();
    let n = parts.len();
    proof {
        assert(forall|k: int| 0 <= k < n ==> (#[trigger] texts(parts@)[k]) == parts@[k]@);
    }
    if n == 1 {
        let compact = &parts[0];
        if compact.len() == 8 {
            let year = copy_range(compact, 0, 4);
            let month = copy_range(compact, 4, 6);
            let day = copy_range(compact, 6, 8);
            make_date(&year, &month, &day, end)
        } else if compact.len() == 6 {
            let year = copy_range(compact, 0, 4);
            let month = copy_range(compact, 4, 6);
            make_date(&year, &month, &empty, end)
        } else if compact.len() == 4 {
            make_date(compact, &empty, &empty, end)
        } else {
            Err(DateError::InvalidCompact)
        }
    } else if n == 2 {
        make_date(&parts[0], &parts[1], &empty, end)
    } else if n == 3 {
        make_date(&parts[0], &parts[1], &parts[2], end)
    } else if n == 0 {
        Err(DateError::EmptyDate)
    } else {
        Err(DateError::TooManyParts)
    }
}

/// Whether two dots stand together at `k`.
pub open spec fn dots_at(s: Seq<char>, k: int) -> bool {
    0 <= k && k + 1 < s.len() && s[k] == '.' && s[k + 1] == '.'
}

/// The first place from `from` on where two dots stand together; the length of
/// `s` where there is none.
pub open spec fn first_dots(s: Seq<char>, from: int) -> int
    decreases s.len() - from,
{
    if from < 0 || from + 1 >= s.len() {
        s.len() as int
    } else if dots_at(s, from) {
        from
    } else {
        first_dots(s, from + 1)
    }
}

/// The two dates, where both were read; else the error of the first that was
/// not.
pub open spec fn both(start: Result<Date, DateError>, end: Result<Date, DateError>) -> Result<
    (Date, Date),
    DateError,
> {
    match start {
        Err(e) => Err(e),
        Ok(a) => match end {
            Err(e) => Err(e),
            Ok(b) => Ok((a, b)),
        },
    }
}

/// The first and the last day that a range stands for. A range is one date
/// expression, which stands for its own period, or two of them with `..`
/// between, of which the first gives the start and the second the end.
pub open spec fn range_of(s: Seq<char>) -> Result<(Date, Date), DateError> {
    let i = first_dots(s, 0);
    if i >= s.len() {
        both(boundary(s, false), boundary(s, true))
    } else {
        let rest = s.subrange(i + 2, s.len() as int);
        if first_dots(rest, 0) < rest.len() {
            Err(DateError::InvalidRange)
        } else {
            both(boundary(s.subrange(0, i), false), boundary(rest, true))
        }
    }
}

fn find_dots(chars: &Vec<char>) -> (at: usize)
    ensures
        at == first_dots(chars@, 0),
        at <= chars@.len(),
        at < chars@.len() ==> at + 2 <= chars@.len(),
{
    let n = chars.len();
    if n < 2 {
        return n;
    }
    let mut k: usize = 0;
    while k < n - 1
        invariant
            n == chars@.len(),
            n >= 2,
            k <= n - 1,
            first_dots(chars@, 0) == first_dots(chars@, k as int),
        decreases n - k,
    {
        if chars[k] == '.' && chars[k + 1] == '.' {
            return k;
        }
        k += 1;
    }
    n
}

/// The first and the last day that a range stands for.
///
/// One date expression stands for its own period: a year for its first and
/// last day, a month likewise, a day for itself. Two expressions with `..`
/// between them give the start and the end, which are taken as they are
/// written, also where the end comes before the start. A range with `..` in
/// it more than once is refused.
pub fn parse_date_range(range: &str) -> (res: Result<(Date, Date), DateError>)
    ensures
        res == range_of(range@),
        res matches Ok(r) ==> r.0.is_valid() && r.1.is_valid(),
{
    let chars = crate::text::chars_of(range);
    let at = find_dots(&chars);
    proof {
        range_is_valid(range@);
    }
    if at >= chars.len() {
        let start = match boundary_of(&chars, false) {
            Ok(d) => d,
            Err(e) => {
                return Err(e);
            },
        };
        let end = match boundary_of(&chars, true) {
            Ok(d) => d,
            Err(e) => {
                return Err(e);
            },
        };
        Ok((start, end))
    } else {
        let left = copy_range(&chars, 0, at);
        let rest = copy_range(&chars, at + 2, chars.len());
        if find_dots(&rest) < rest.len() {
            return Err(DateError::InvalidRange);
        }
        let start = match boundary_of(&left, false) {
            Ok(d) => d,
            Err(e) => {
                return Err(e);
            },
        };
        let end = match boundary_of(&rest, true) {
            Ok(d) => d,
            Err(e) => {
                return Err(e);
            },
        };
        Ok((start, end))
    }
}

/// No part of a date expression is empty.
pub proof fn fields_are_not_empty(s: Seq<char>)
    ensures
        forall|k: int| 0 <= k < fields(s).len() ==> (#[trigger] fields(s)[k]).len() > 0,
{
    lemma_scanned_parts(s);
}

proof fn lemma_scanned_parts(s: Seq<char>)
    ensures
        forall|k: int| 0 <= k < scanned(s).0.len() ==> (#[trigger] scanned(s).0[k]).len() > 0,
    decreases s.len(),
{
    if s.len() > 0 {
        lemma_scanned_parts(s.drop_last());
        let (done, part) = scanned(s.drop_last());
        assert forall|k: int| 0 <= k < scanned(s).0.len() implies (#[trigger] scanned(
            s,
        ).0[k]).len() > 0 by {
            if k < done.len() {
                assert(scanned(s).0[k] == done[k]);
            }
        }
    }
}

/// A date expression is read as a start exactly when it is read as an end, and
/// it is refused for the same reason either way.
pub proof fn boundary_errors_agree(s: Seq<char>)
    ensures
        boundary(s, false) is Ok <==> boundary(s, true) is Ok,
        boundary(s, false) matches Err(e) ==> boundary(s, true) == Err::<Date, DateError>(e),
{
}

/// A date that a date expression stands for exists in the calendar.
pub proof fn boundary_is_valid(s: Seq<char>, end: bool)
    ensures
        boundary(s, end) matches Ok(d) ==> d.is_valid(),
{
    if let Ok((year, month, day)) = components(s) {
        if all_digits(year) && year.len() == 4 {
            lemma_digits_bound(year);
        }
    }
}

/// The two dates that a range stands for exist in the calendar.
pub proof fn range_is_valid(s: Seq<char>)
    ensures
        range_of(s) matches Ok(r) ==> r.0.is_valid() && r.1.is_valid(),
{
    let i = first_dots(s, 0);
    if i >= s.len() {
        boundary_is_valid(s, false);
        boundary_is_valid(s, true);
    } else {
        boundary_is_valid(s.subrange(0, i), false);
        boundary_is_valid(s.subrange(i + 2, s.len() as int), true);
    }
}

/// An expression that gives the day stands for that day, as a start and as an
/// end.
pub proof fn boundary_with_day(s: Seq<char>)
    requires
        components(s) is Ok,
        components(s)->Ok_0.2.len() > 0,
    ensures
        boundary(s, false) == boundary(s, true),
{
    fields_are_not_empty(s);
}

/// The period of a date expression does not end before it starts.
pub proof fn period_is_ordered(s: Seq<char>)
    ensures
        boundary(s, false) matches Ok(a) ==> boundary(s, true) matches Ok(b) && a.key() <= b.key(),
{
    boundary_errors_agree(s);
    boundary_is_valid(s, true);
    if let Ok((year, month, day)) = components(s) {
        if all_digits(year) && year.len() == 4 {
            lemma_digits_bound(year);
        }
    }
}

/// The decimal digits of `n` with zeros before them, as many as it takes to
/// fill `width` places.
pub open spec fn padded(n: nat, width: nat) -> Seq<char> {
    if decimal(n).len() >= width {
        decimal(n)
    } else {
        Seq::new((width - decimal(n).len()) as nat, |k: int| '0') + decimal(n)
    }
}

/// The date as year, month and day with `-` between them; the year in at
/// least four digits and the others in at least two.
pub open spec fn ymd_text(d: Date) -> Seq<char> {
    padded(d.year as nat, 4) + "-"@ + padded(d.month as nat, 2) + "-"@ + padded(d.day as nat, 2)
}

/// How many digits a number below ten thousand has.
proof fn lemma_decimal_len(n: nat)
    requires
        n < 10000,
    ensures
        decimal(n).len() == if n < 10 {
            1nat
        } else if n < 100 {
            2nat
        } else if n < 1000 {
            3nat
        } else {
            4nat
        },
    decreases n,
{
    if n >= 10 {
        lemma_decimal_len(n / 10);
    }
}

/// A number of any size has at least as many digits as a smaller one with
/// four.
proof fn lemma_decimal_long(n: nat)
    requires
        n >= 1000,
    ensures
        decimal(n).len() >= 4,
    decreases n,
{
    if n >= 10000 {
        lemma_decimal_long(n / 10);
    } else {
        lemma_decimal_len(n);
    }
}

fn push_padded(out: &mut String, n: u32, width: usize)
    requires
        width == 2 || width == 4,
    ensures
        final(out)@ == old(out)@ + padded(n as nat, width as nat),
{
    proof {
        if n < 10000 {
            lemma_decimal_len(n as nat);
        } else {
            lemma_decimal_long(n as nat);
        }
    }
    let ghost zeros = if decimal(n as nat).len() >= width {
        Seq::<char>::empty()
    } else {
        Seq::new((width - decimal(n as nat).len()) as nat, |k: int| '0')
    };
    if width == 4 && n < 1000 {
        push_char(out, '0');
    }
    if width == 4 && n < 100 {
        push_char(out, '0');
    }
    if n < 10 {
        push_char(out, '0');
    }
    assert(out@ =~= old(out)@ + zeros);
    push_decimal(out, n as u64);
    assert(out@ =~= old(out)@ + padded(n as nat, width as nat));
}

impl Date {
    /// The date as the service writes it: `2025-05-27`.
    pub fn to_ymd(&self) -> (s: String)
        ensures
            s@ == ymd_text(*self),
    {
        let mut s = String::new();
        push_padded(&mut s, self.year, 4);
        s.append("-");
        push_padded(&mut s, self.month, 2);
        s.append("-");
        push_padded(&mut s, self.day, 2);
        s
    }
}

/// The date of a day stamp of the service, which begins with four digits of
/// the year, two of the month and two of the day, with one character between
/// each two of them. Whatever follows these ten characters is not read.
pub open spec fn stamp_date(s: Seq<char>) -> Option<Date> {
    if s.len() >= 10 && all_digits(s.subrange(0, 4)) && all_digits(s.subrange(5, 7)) && all_digits(
        s.subrange(8, 10),
    ) {
        Some(
            Date {
                year: digits_value(s.subrange(0, 4)) as u32,
                month: digits_value(s.subrange(5, 7)) as u32,
                day: digits_value(s.subrange(8, 10)) as u32,
            },
        )
    } else {
        None
    }
}

/// The date of a day stamp of the service; none where the stamp is too short
/// or has something else than digits in the place of a number.
pub fn parse_stamp(on: &str) -> (date: Option<Date>)
    ensures
        date == stamp_date(on@),
{
    let chars = crate::text::chars_of(on);
    if chars.len() < 10 {
        return None;
    }
    let year = copy_range(&chars, 0, 4);
    let month = copy_range(&chars, 5, 7);
    let day = copy_range(&chars, 8, 10);
    proof {
        lemma_digits_bound(year@);
        lemma_digits_bound(month@);
        lemma_digits_bound(day@);
    }
    match (read_number(&year), read_number(&month), read_number(&day)) {
        (Some(y), Some(m), Some(d)) => Some(Date { year: y, month: m, day: d }),
        _ => None,
    }
}

} // verus!
