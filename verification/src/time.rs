//! Resolution of a partial local-time string (fixed UTC+8 offset) against a
//! reference instant into an absolute UTC timestamp.

use chrono::{Datelike, TimeZone, Timelike};
use vstd::prelude::*;

verus! {

/// A calendar date in the proleptic Gregorian calendar, years 0 through 9999
/// (the range writable as `DD/MM/YYYY`).
#[derive(Clone, Copy, Debug, PartialEq, Eq, Structural)]
pub struct Date {
    pub year: u16,
    pub month: u8,
    pub day: u8,
}

/// A time of day, sub-second precision included.
#[derive(Clone, Copy, Debug, PartialEq, Eq, Structural)]
pub struct TimeOfDay {
    pub hour: u8,
    pub minute: u8,
    pub second: u8,
    pub nanosecond: u32,
}

pub open spec fn is_leap_year(y: int) -> bool {
    y % 4 == 0 && (y % 100 != 0 || y % 400 == 0)
}

pub open spec fn days_in_month(y: int, m: int) -> int {
    if m == 2 {
        if is_leap_year(y) { 29 } else { 28 }
    } else if m == 4 || m == 6 || m == 9 || m == 11 {
        30
    } else {
        31
    }
}

impl Date {
    pub open spec fn valid(self) -> bool {
        self.year <= 9999
        && 1 <= self.month <= 12
        && 1 <= self.day <= days_in_month(self.year as int, self.month as int)
    }

    /// The last representable date, `31/12/9999`.
    pub open spec fn is_max(self) -> bool {
        self.year == 9999 && self.month == 12 && self.day == 31
    }

    /// The first representable date, `01/01/0000`.
    pub open spec fn is_min(self) -> bool {
        self.year == 0 && self.month == 1 && self.day == 1
    }
}

impl TimeOfDay {
    pub open spec fn valid(self) -> bool {
        self.hour < 24 && self.minute < 60 && self.second < 60
        && self.nanosecond < 1_000_000_000
    }

    /// Seconds elapsed since midnight, ignoring the sub-second part.
    pub open spec fn seconds_of_day(self) -> int {
        self.hour as int * 3600 + self.minute as int * 60 + self.second as int
    }

    /// Nanoseconds elapsed since midnight; the total order on times of day.
    pub open spec fn nanos_of_day(self) -> int {
        self.seconds_of_day() * 1_000_000_000 + self.nanosecond as int
    }
}

/// The reference "now": a civil date and time of day read in the fixed
/// UTC+8 local offset.
#[derive(Clone, Copy, Debug, PartialEq, Eq, Structural)]
pub struct ReferenceInstant {
    pub date: Date,
    pub time: TimeOfDay,
}

impl ReferenceInstant {
    pub open spec fn valid(self) -> bool {
        self.date.valid() && self.time.valid()
    }
}

/// An absolute instant, held as its civil date and time of day in UTC.
#[derive(Clone, Copy, Debug, PartialEq, Eq, Structural)]
pub struct UtcInstant {
    pub date: Date,
    pub time: TimeOfDay,
}

impl UtcInstant {
    pub open spec fn valid(self) -> bool {
        self.date.valid() && self.time.valid()
    }
}

/// The successor calendar date. At the last representable date the result
/// leaves the valid range; callers guard with `!is_max()`.
pub open spec fn succ_date(d: Date) -> Date {
    if d.day < days_in_month(d.year as int, d.month as int) {
        Date { year: d.year, month: d.month, day: (d.day + 1) as u8 }
    } else if d.month < 12 {
        Date { year: d.year, month: (d.month + 1) as u8, day: 1 }
    } else {
        Date { year: (d.year + 1) as u16, month: 1, day: 1 }
    }
}

/// The predecessor calendar date. At the first representable date the result
/// leaves the valid range; callers guard with `!is_min()`.
pub open spec fn pred_date(d: Date) -> Date {
    if d.day > 1 {
        Date { year: d.year, month: d.month, day: (d.day - 1) as u8 }
    } else if d.month > 1 {
        Date {
            year: d.year,
            month: (d.month - 1) as u8,
            day: days_in_month(d.year as int, d.month as int - 1) as u8,
        }
    } else {
        Date { year: (d.year - 1) as u16, month: 12, day: 31 }
    }
}

/// Stepping back one day and forward again returns to the same date.
pub proof fn lemma_succ_pred_date(d: Date)
    requires
        d.valid(),
        !d.is_min(),
    ensures
        succ_date(pred_date(d)) == d,
{
}

pub open spec fn is_space_char(c: char) -> bool {
    c == ' ' || c == '\t' || c == '\n' || c == '\r' || c == '\u{b}' || c == '\u{c}'
}

pub open spec fn is_digit_char(c: char) -> bool {
    48 <= c as int <= 57
}

/// The numeric value of a decimal digit character.
pub open spec fn digit_val(c: char) -> int {
    c as int - 48
}

/// The input with its maximal prefix of whitespace removed.
pub open spec fn drop_spaces(s: Seq<char>) -> Seq<char>
    decreases s.len(),
{
    if s.len() > 0 && is_space_char(s[0]) {
        drop_spaces(s.drop_first())
    } else {
        s
    }
}

/// The length of the maximal non-whitespace prefix of the input.
pub open spec fn token_len(s: Seq<char>) -> int
    decreases s.len(),
{
    if s.len() > 0 && !is_space_char(s[0]) {
        1 + token_len(s.drop_first())
    } else {
        0
    }
}

pub proof fn lemma_drop_spaces_at(s: Seq<char>, i: int)
    requires
        0 <= i <= s.len(),
        forall|j: int| 0 <= j < i ==> is_space_char(s[j]),
        i == s.len() || !is_space_char(s[i]),
    ensures
        drop_spaces(s) == s.skip(i),
    decreases i,
{
    if i == 0 {
        assert(s.skip(0) =~= s);
    } else {
        assert(is_space_char(s[0]));
        lemma_drop_spaces_at(s.drop_first(), i - 1);
        assert(s.drop_first().skip(i - 1) =~= s.skip(i));
    }
}

pub proof fn lemma_token_len_at(s: Seq<char>, i: int)
    requires
        0 <= i <= s.len(),
        forall|j: int| 0 <= j < i ==> !is_space_char(s[j]),
        i == s.len() || is_space_char(s[i]),
    ensures
        token_len(s) == i,
    decreases i,
{
    if i == 0 {
    } else {
        assert(!is_space_char(s[0]));
        lemma_token_len_at(s.drop_first(), i - 1);
    }
}

/// The `(hour, minute)` a token denotes under the strict `HH:MM` grammar
/// (one- or two-digit hour, two-digit minute), or `None` where the token
/// has another shape. Range checking is separate.
pub open spec fn time_token_value(t: Seq<char>) -> Option<(int, int)> {
    if t.len() == 4 && is_digit_char(t[0]) && t[1] == ':' && is_digit_char(t[2])
        && is_digit_char(t[3]) {
        Some((digit_val(t[0]), digit_val(t[2]) * 10 + digit_val(t[3])))
    } else if t.len() == 5 && is_digit_char(t[0]) && is_digit_char(t[1]) && t[2] == ':'
        && is_digit_char(t[3]) && is_digit_char(t[4]) {
        Some((digit_val(t[0]) * 10 + digit_val(t[1]), digit_val(t[3]) * 10 + digit_val(t[4])))
    } else {
        None
    }
}

/// The value of the four-digit year starting at position `i`.
pub open spec fn year4_val(t: Seq<char>, i: int) -> int {
    ((digit_val(t[i]) * 10 + digit_val(t[i + 1])) * 10 + digit_val(t[i + 2])) * 10 + digit_val(
        t[i + 3],
    )
}

pub open spec fn year4_digits(t: Seq<char>, i: int) -> bool {
    is_digit_char(t[i]) && is_digit_char(t[i + 1]) && is_digit_char(t[i + 2]) && is_digit_char(
        t[i + 3],
    )
}

/// The `(day, month, year)` a token denotes under the strict `DD/MM/YYYY`
/// grammar (one- or two-digit day and month, four-digit year), or `None`
/// where the token has another shape. Range checking is separate.
pub open spec fn date_token_value(t: Seq<char>) -> Option<(int, int, int)> {
    if t.len() == 8 && is_digit_char(t[0]) && t[1] == '/' && is_digit_char(t[2]) && t[3] == '/'
        && year4_digits(t, 4) {
        Some((digit_val(t[0]), digit_val(t[2]), year4_val(t, 4)))
    } else if t.len() == 9 && is_digit_char(t[0]) && t[1] == '/' && is_digit_char(t[2])
        && is_digit_char(t[3]) && t[4] == '/' && year4_digits(t, 5) {
        Some((digit_val(t[0]), digit_val(t[2]) * 10 + digit_val(t[3]), year4_val(t, 5)))
    } else if t.len() == 9 && is_digit_char(t[0]) && is_digit_char(t[1]) && t[2] == '/'
        && is_digit_char(t[3]) && t[4] == '/' && year4_digits(t, 5) {
        Some((digit_val(t[0]) * 10 + digit_val(t[1]), digit_val(t[3]), year4_val(t, 5)))
    } else if t.len() == 10 && is_digit_char(t[0]) && is_digit_char(t[1]) && t[2] == '/'
        && is_digit_char(t[3]) && is_digit_char(t[4]) && t[5] == '/' && year4_digits(t, 6) {
        Some((digit_val(t[0]) * 10 + digit_val(t[1]), digit_val(t[3]) * 10 + digit_val(t[4]),
        year4_val(t, 6)))
    } else {
        None
    }
}

/// The ways resolution can fail.
#[derive(Clone, Copy, Debug, PartialEq, Eq, Structural)]
pub enum TimeParseError {
    /// The time token does not match `HH:MM`, or a component is out of range.
    TimeFormat,
    /// The date token does not match `DD/MM/YYYY`.
    DateFormat,
    /// The date token matches `DD/MM/YYYY` but a component is out of range.
    DateRange,
    /// The resolved instant precedes the representable range (the UTC
    /// conversion would step before the first representable date).
    Unrepresentable,
}

/// A time of day with whole-minute precision, as a parsed `HH:MM` denotes.
pub open spec fn hm_time(h: int, mi: int) -> TimeOfDay {
    TimeOfDay { hour: h as u8, minute: mi as u8, second: 0, nanosecond: 0 }
}

/// Whether shifting the given local date and time back by the fixed eight
/// hour offset would leave the representable range.
pub open spec fn offset_underflows(d: Date, t: TimeOfDay) -> bool {
    d.is_min() && t.hour < 8
}

/// The given UTC+8 local date and time, expressed in UTC: the same civil
/// instant with exactly eight hours subtracted. Meaningful only where
/// `!offset_underflows(d, t)`.
pub open spec fn offset_to_utc(d: Date, t: TimeOfDay) -> UtcInstant {
    if t.hour >= 8 {
        UtcInstant {
            date: d,
            time: TimeOfDay {
                hour: (t.hour - 8) as u8,
                minute: t.minute,
                second: t.second,
                nanosecond: t.nanosecond,
            },
        }
    } else {
        UtcInstant {
            date: pred_date(d),
            time: TimeOfDay {
                hour: (t.hour + 16) as u8,
                minute: t.minute,
                second: t.second,
                nanosecond: t.nanosecond,
            },
        }
    }
}

/// The local date and time that the input resolves to against `now`:
/// the time token (defaulting to `now`'s time of day), and the date token
/// (defaulting by the roll-forward rule).
pub open spec fn local_resolution(s: Seq<char>, now: ReferenceInstant) -> Result<
    (Date, TimeOfDay),
    TimeParseError,
> {
    let s1 = drop_spaces(s);
    if s1.len() == 0 {
        Ok((now.date, now.time))
    } else {
        let t1 = s1.take(token_len(s1));
        let rest = drop_spaces(s1.skip(token_len(s1)));
        match time_token_value(t1) {
            Option::None => Err(TimeParseError::TimeFormat),
            Option::Some((h, mi)) => if !(h < 24 && mi < 60) {
                Err(TimeParseError::TimeFormat)
            } else {
                let tod = hm_time(h, mi);
                if rest.len() == 0 {
                    let date = if tod.nanos_of_day() >= now.time.nanos_of_day() {
                        now.date
                    } else {
                        succ_date(now.date)
                    };
                    Ok((date, tod))
                } else {
                    let t2 = rest.take(token_len(rest));
                    match date_token_value(t2) {
                        Option::None => Err(TimeParseError::DateFormat),
                        Option::Some((d, m, y)) => {
                            let date = Date { year: y as u16, month: m as u8, day: d as u8 };
                            if 1 <= m <= 12 && 1 <= d <= days_in_month(y, m) {
                                Ok((date, tod))
                            } else {
                                Err(TimeParseError::DateRange)
                            }
                        },
                    }
                }
            },
        }
    }
}

/// What resolution returns: the resolved local date and time, expressed
/// in UTC by subtracting the fixed eight hour offset.
pub open spec fn resolve_spec(s: Seq<char>, now: ReferenceInstant) -> Result<
    UtcInstant,
    TimeParseError,
> {
    match local_resolution(s, now) {
        Err(e) => Err(e),
        Ok((d, t)) => if offset_underflows(d, t) {
            Err(TimeParseError::Unrepresentable)
        } else {
            Ok(offset_to_utc(d, t))
        },
    }
}

fn is_space_exec(c: char) -> (b: bool)
    ensures
        b == is_space_char(c),
{
    c == ' ' || c == '\t' || c == '\n' || c == '\r' || c == '\u{b}' || c == '\u{c}'
}

fn is_digit_exec(c: char) -> (b: bool)
    ensures
        b == is_digit_char(c),
{
    let v = c as u32;
    48 <= v && v <= 57
}

fn digit_exec(c: char) -> (v: u8)
    requires
        is_digit_char(c),
    ensures
        v == digit_val(c),
{
    (c as u32 - 48) as u8
}

/// The first index at or after `from` holding a non-whitespace character,
/// or the length where none exists.
fn scan_past_spaces(s: &str, n: usize, from: usize) -> (r: usize)
    requires
        n == s@.len(),
        from <= n,
    ensures
        from <= r <= n,
        forall|j: int| from <= j < r ==> is_space_char(s@[j]),
        r < n ==> !is_space_char(s@[r as int]),
{
    let mut i = from;
    while i < n
        invariant
            from <= i <= n,
            n == s@.len(),
            forall|j: int| from <= j < i ==> is_space_char(s@[j]),
        decreases n - i,
    {
        let c = s.get_char(i);
        if !is_space_exec(c) {
            return i;
        }
        i = i + 1;
    }
    i
}

/// The first index at or after `from` holding a whitespace character,
/// or the length where none exists.
fn scan_token_end(s: &str, n: usize, from: usize) -> (r: usize)
    requires
        n == s@.len(),
        from <= n,
    ensures
        from <= r <= n,
        forall|j: int| from <= j < r ==> !is_space_char(s@[j]),
        r < n ==> is_space_char(s@[r as int]),
{
    let mut i = from;
    while i < n
        invariant
            from <= i <= n,
            n == s@.len(),
            forall|j: int| from <= j < i ==> !is_space_char(s@[j]),
        decreases n - i,
    {
        let c = s.get_char(i);
        if is_space_exec(c) {
            return i;
        }
        i = i + 1;
    }
    i
}

/// Parses the characters `[a, b)` of `s` as an `HH:MM` time token.
fn parse_time_token(s: &str, a: usize, b: usize) -> (r: Option<(u8, u8)>)
    requires
        a <= b <= s@.len(),
    ensures
        match r {
            Option::Some((h, mi)) => time_token_value(s@.subrange(a as int, b as int))
                == Option::Some((h as int, mi as int)),
            Option::None => time_token_value(s@.subrange(a as int, b as int)) is None,
        },
{
    let ghost t = s@.subrange(a as int, b as int);
    let len = b - a;
    if len == 4 {
        let c0 = s.get_char(a);
        let c1 = s.get_char(a + 1);
        let c2 = s.get_char(a + 2);
        let c3 = s.get_char(a + 3);
        assert(t[0] == c0 && t[1] == c1 && t[2] == c2 && t[3] == c3);
        if is_digit_exec(c0) && c1 == ':' && is_digit_exec(c2) && is_digit_exec(c3) {
            Some((digit_exec(c0), digit_exec(c2) * 10 + digit_exec(c3)))
        } else {
            None
        }
    } else if len == 5 {
        let c0 = s.get_char(a);
        let c1 = s.get_char(a + 1);
        let c2 = s.get_char(a + 2);
        let c3 = s.get_char(a + 3);
        let c4 = s.get_char(a + 4);
        assert(t[0] == c0 && t[1] == c1 && t[2] == c2 && t[3] == c3 && t[4] == c4);
        if is_digit_exec(c0) && is_digit_exec(c1) && c2 == ':' && is_digit_exec(c3)
            && is_digit_exec(c4) {
            Some((digit_exec(c0) * 10 + digit_exec(c1), digit_exec(c3) * 10 + digit_exec(c4)))
        } else {
            None
        }
    } else {
        None
    }
}

/// Parses the four characters starting at `a` as a year.
fn parse_year4(s: &str, a: usize) -> (y: u16)
    requires
        a + 4 <= s@.len(),
        a + 4 <= usize::MAX,
        year4_digits(s@, a as int),
    ensures
        y == year4_val(s@, a as int),
        y <= 9999,
{
    let c0 = s.get_char(a);
    let c1 = s.get_char(a + 1);
    let c2 = s.get_char(a + 2);
    let c3 = s.get_char(a + 3);
    ((digit_exec(c0) as u16 * 10 + digit_exec(c1) as u16) * 10 + digit_exec(c2) as u16) * 10
        + digit_exec(c3) as u16
}

/// Parses the characters `[a, b)` of `s` as a `DD/MM/YYYY` date token.
fn parse_date_token(s: &str, a: usize, b: usize) -> (r: Option<(u8, u8, u16)>)
    requires
        a <= b <= s@.len(),
    ensures
        match r {
            Option::Some((d, m, y)) => date_token_value(s@.subrange(a as int, b as int))
                == Option::Some((d as int, m as int, y as int)),
            Option::None => date_token_value(s@.subrange(a as int, b as int)) is None,
        },
{
    let ghost t = s@.subrange(a as int, b as int);
    let len = b - a;
    if len < 8 || len > 10 {
        return None;
    }
    let c0 = s.get_char(a);
    let c1 = s.get_char(a + 1);
    let c2 = s.get_char(a + 2);
    let c3 = s.get_char(a + 3);
    let c4 = s.get_char(a + 4);
    let c5 = s.get_char(a + 5);
    assert(t[0] == c0 && t[1] == c1 && t[2] == c2 && t[3] == c3 && t[4] == c4 && t[5] == c5);
    assert(forall|j: int| 0 <= j < t.len() ==> t[j] == s@[a + j]);
    if len == 8 {
        if is_digit_exec(c0) && c1 == '/' && is_digit_exec(c2) && c3 == '/' && is_digit_exec(c4)
            && is_digit_exec(c5) && is_digit_exec(s.get_char(a + 6))
            && is_digit_exec(s.get_char(a + 7)) {
            Some((digit_exec(c0), digit_exec(c2), parse_year4(s, a + 4)))
        } else {
            None
        }
    } else if len == 9 {
        if is_digit_exec(c0) && c1 == '/' && is_digit_exec(c2) && is_digit_exec(c3) && c4 == '/'
            && is_digit_exec(c5) && is_digit_exec(s.get_char(a + 6))
            && is_digit_exec(s.get_char(a + 7)) && is_digit_exec(s.get_char(a + 8)) {
            Some((digit_exec(c0), digit_exec(c2) * 10 + digit_exec(c3), parse_year4(s, a + 5)))
        } else if is_digit_exec(c0) && is_digit_exec(c1) && c2 == '/' && is_digit_exec(c3)
            && c4 == '/' && is_digit_exec(c5) && is_digit_exec(s.get_char(a + 6))
            && is_digit_exec(s.get_char(a + 7)) && is_digit_exec(s.get_char(a + 8)) {
            Some((digit_exec(c0) * 10 + digit_exec(c1), digit_exec(c3), parse_year4(s, a + 5)))
        } else {
            None
        }
    } else {
        if is_digit_exec(c0) && is_digit_exec(c1) && c2 == '/' && is_digit_exec(c3)
            && is_digit_exec(c4) && c5 == '/' && is_digit_exec(s.get_char(a + 6))
            && is_digit_exec(s.get_char(a + 7)) && is_digit_exec(s.get_char(a + 8))
            && is_digit_exec(s.get_char(a + 9)) {
            Some((
                digit_exec(c0) * 10 + digit_exec(c1),
                digit_exec(c3) * 10 + digit_exec(c4),
                parse_year4(s, a + 6),
            ))
        } else {
            None
        }
    }
}

/// The number of days in the given month, leap years included.
pub fn days_in_month_exec(y: u16, m: u8) -> (r: u8)
    requires
        1 <= m <= 12,
    ensures
        r == days_in_month(y as int, m as int),
{
    if m == 2 {
        if y % 4 == 0 && (y % 100 != 0 || y % 400 == 0) {
            29
        } else {
            28
        }
    } else if m == 4 || m == 6 || m == 9 || m == 11 {
        30
    } else {
        31
    }
}

impl Date {
    /// The next calendar date.
    pub fn succ(self) -> (r: Date)
        requires
            self.valid(),
            !self.is_max(),
        ensures
            r == succ_date(self),
            r.valid(),
    {
        if self.day < days_in_month_exec(self.year, self.month) {
            Date { year: self.year, month: self.month, day: self.day + 1 }
        } else if self.month < 12 {
            Date { year: self.year, month: self.month + 1, day: 1 }
        } else {
            Date { year: self.year + 1, month: 1, day: 1 }
        }
    }

    /// The previous calendar date.
    pub fn pred(self) -> (r: Date)
        requires
            self.valid(),
            !self.is_min(),
        ensures
            r == pred_date(self),
            r.valid(),
    {
        if self.day > 1 {
            Date { year: self.year, month: self.month, day: self.day - 1 }
        } else if self.month > 1 {
            Date {
                year: self.year,
                month: self.month - 1,
                day: days_in_month_exec(self.year, self.month - 1),
            }
        } else {
            Date { year: self.year - 1, month: 12, day: 31 }
        }
    }
}

impl TimeOfDay {
    /// Nanoseconds elapsed since midnight.
    pub fn nanos(self) -> (r: u64)
        requires
            self.valid(),
        ensures
            r == self.nanos_of_day(),
    {
        (self.hour as u64 * 3600 + self.minute as u64 * 60 + self.second as u64) * 1_000_000_000
            + self.nanosecond as u64
    }
}

/// Expresses a UTC+8 local date and time in UTC by subtracting exactly
/// eight hours. Only the hour and possibly the date change.
pub fn local8_to_utc(d: Date, t: TimeOfDay) -> (r: Result<UtcInstant, TimeParseError>)
    requires
        d.valid(),
        t.valid(),
    ensures
        !offset_underflows(d, t) ==> r == Ok::<UtcInstant, TimeParseError>(offset_to_utc(d, t)),
        offset_underflows(d, t) ==> r == Err::<UtcInstant, TimeParseError>(
            TimeParseError::Unrepresentable,
        ),
        r matches Ok(u) ==> u.valid(),
{
    if t.hour >= 8 {
        Ok(
            UtcInstant {
                date: d,
                time: TimeOfDay {
                    hour: t.hour - 8,
                    minute: t.minute,
                    second: t.second,
                    nanosecond: t.nanosecond,
                },
            },
        )
    } else if d.year == 0 && d.month == 1 && d.day == 1 {
        Err(TimeParseError::Unrepresentable)
    } else {
        Ok(
            UtcInstant {
                date: d.pred(),
                time: TimeOfDay {
                    hour: t.hour + 16,
                    minute: t.minute,
                    second: t.second,
                    nanosecond: t.nanosecond,
                },
            },
        )
    }
}

/// Resolves a human-entered UTC+8 local time string against the reference
/// instant `now` into an absolute UTC instant.
///
/// The input holds at most two whitespace-separated tokens: an optional
/// `HH:MM` time (defaulting to `now`'s time of day) and an optional
/// `DD/MM/YYYY` date. An absent date defaults to `now`'s date, or to the
/// next day where the named time of day lies strictly before `now`'s.
/// An explicit date is taken as written, past dates included.
pub fn parse_time_to_utc(input: &str, now: ReferenceInstant) -> (r: Result<
    UtcInstant,
    TimeParseError,
>)
    requires
        now.valid(),
        !now.date.is_max(),
    ensures
        r == resolve_spec(input@, now),
        r matches Ok(u) ==> u.valid(),
{
    let n = input.unicode_len();
    let i0 = scan_past_spaces(input, n, 0);
    if i0 == n {
        proof {
            lemma_drop_spaces_at(input@, n as int);
            assert(input@.skip(n as int) =~= Seq::<char>::empty());
        }
        return local8_to_utc(now.date, now.time);
    }
    let i1 = scan_token_end(input, n, i0);
    let ghost s1 = input@.skip(i0 as int);
    proof {
        lemma_drop_spaces_at(input@, i0 as int);
        assert(forall|j: int| 0 <= j < i1 - i0 ==> s1[j] == input@[i0 + j]);
        lemma_token_len_at(s1, i1 - i0);
        assert(s1.take(i1 - i0) =~= input@.subrange(i0 as int, i1 as int));
    }
    let parsed_time = parse_time_token(input, i0, i1);
    let (h, mi) = match parsed_time {
        Option::None => {
            return Err(TimeParseError::TimeFormat);
        },
        Option::Some((h, mi)) => (h, mi),
    };
    if !(h < 24 && mi < 60) {
        return Err(TimeParseError::TimeFormat);
    }
    let tod = TimeOfDay { hour: h, minute: mi, second: 0, nanosecond: 0 };
    assert(tod == hm_time(h as int, mi as int));
    let i2 = scan_past_spaces(input, n, i1);
    let ghost rest0 = s1.skip(i1 - i0);
    proof {
        assert(forall|j: int| 0 <= j < rest0.len() ==> rest0[j] == input@[i1 + j]);
        lemma_drop_spaces_at(rest0, i2 - i1);
        assert(rest0.skip(i2 - i1) =~= input@.skip(i2 as int));
    }
    if i2 == n {
        proof {
            assert(input@.skip(n as int) =~= Seq::<char>::empty());
        }
        let date = if tod.nanos() >= now.time.nanos() {
            now.date
        } else {
            now.date.succ()
        };
        return local8_to_utc(date, tod);
    }
    let i3 = scan_token_end(input, n, i2);
    let ghost rest = input@.skip(i2 as int);
    proof {
        assert(forall|j: int| 0 <= j < i3 - i2 ==> rest[j] == input@[i2 + j]);
        lemma_token_len_at(rest, i3 - i2);
        assert(rest.take(i3 - i2) =~= input@.subrange(i2 as int, i3 as int));
    }
    let parsed_date = parse_date_token(input, i2, i3);
    match parsed_date {
        Option::None => Err(TimeParseError::DateFormat),
        Option::Some((d, m, y)) => {
            if 1 <= m && m <= 12 && 1 <= d && d <= days_in_month_exec(y, m) {
                local8_to_utc(Date { year: y, month: m, day: d }, tod)
            } else {
                Err(TimeParseError::DateRange)
            }
        },
    }
}

/// The UTC instant expressed in UTC+8 local time: exactly eight hours
/// added. Meaningful only below the last representable date's `16:00`.
pub open spec fn utc_to_local8_spec(u: UtcInstant) -> ReferenceInstant {
    if u.time.hour < 16 {
        ReferenceInstant {
            date: u.date,
            time: TimeOfDay {
                hour: (u.time.hour + 8) as u8,
                minute: u.time.minute,
                second: u.time.second,
                nanosecond: u.time.nanosecond,
            },
        }
    } else {
        ReferenceInstant {
            date: succ_date(u.date),
            time: TimeOfDay {
                hour: (u.time.hour - 16) as u8,
                minute: u.time.minute,
                second: u.time.second,
                nanosecond: u.time.nanosecond,
            },
        }
    }
}

/// Expresses a UTC instant in UTC+8 local time.
pub fn utc_to_local8(u: UtcInstant) -> (r: ReferenceInstant)
    requires
        u.valid(),
        !(u.date.is_max() && u.time.hour >= 16),
    ensures
        r == utc_to_local8_spec(u),
        r.valid(),
{
    if u.time.hour < 16 {
        ReferenceInstant {
            date: u.date,
            time: TimeOfDay {
                hour: u.time.hour + 8,
                minute: u.time.minute,
                second: u.time.second,
                nanosecond: u.time.nanosecond,
            },
        }
    } else {
        ReferenceInstant {
            date: u.date.succ(),
            time: TimeOfDay {
                hour: u.time.hour - 16,
                minute: u.time.minute,
                second: u.time.second,
                nanosecond: u.time.nanosecond,
            },
        }
    }
}

/// Subtracting the eight hour offset and adding it back returns to the
/// very local date and time started from.
pub proof fn lemma_offset_round_trip(d: Date, t: TimeOfDay)
    requires
        d.valid(),
        t.valid(),
        !offset_underflows(d, t),
    ensures
        utc_to_local8_spec(offset_to_utc(d, t)) == (ReferenceInstant { date: d, time: t }),
{
    if t.hour < 8 {
        lemma_succ_pred_date(d);
    }
}

/// A lone token: no leading or trailing whitespace, so it is the whole of
/// what tokenization yields.
proof fn lemma_single_token_shape(s: Seq<char>)
    requires
        s.len() > 0,
        forall|j: int| 0 <= j < s.len() ==> !is_space_char(s[j]),
    ensures
        drop_spaces(s) == s,
        token_len(s) == s.len(),
        s.take(s.len() as int) == s,
        drop_spaces(s.skip(s.len() as int)).len() == 0,
{
    lemma_token_len_at(s, s.len() as int);
    assert(s.take(s.len() as int) =~= s);
    assert(s.skip(s.len() as int) =~= Seq::<char>::empty());
}

/// A time token, whitespace, and a date token: how tokenization carves
/// such an input.
proof fn lemma_two_token_shape(st: Seq<char>, sp: Seq<char>, sd: Seq<char>)
    requires
        st.len() > 0,
        forall|j: int| 0 <= j < st.len() ==> !is_space_char(st[j]),
        sp.len() > 0,
        forall|j: int| 0 <= j < sp.len() ==> is_space_char(sp[j]),
        sd.len() > 0,
        forall|j: int| 0 <= j < sd.len() ==> !is_space_char(sd[j]),
    ensures
        ({
            let s = st + sp + sd;
            drop_spaces(s) == s && token_len(s) == st.len() && s.take(st.len() as int) == st
                && drop_spaces(s.skip(st.len() as int)) == sd && token_len(sd) == sd.len()
                && sd.take(sd.len() as int) == sd
        }),
{
    let s = st + sp + sd;
    assert(forall|j: int| 0 <= j < st.len() ==> s[j] == st[j]);
    assert(forall|j: int|
        st.len() <= j < st.len() + sp.len() ==> s[j] == sp[j - st.len()]);
    assert(forall|j: int|
        st.len() + sp.len() <= j < s.len() ==> s[j] == sd[j - st.len() - sp.len()]);
    lemma_drop_spaces_at(s, 0);
    assert(s.skip(0) =~= s);
    lemma_token_len_at(s, st.len() as int);
    assert(s.take(st.len() as int) =~= st);
    let tail = s.skip(st.len() as int);
    assert(tail =~= sp + sd);
    assert(forall|j: int| 0 <= j < sp.len() ==> (sp + sd)[j] == sp[j]);
    assert(forall|j: int| sp.len() <= j < sp.len() + sd.len() ==> (sp + sd)[j] == sd[j - sp.len()]);
    lemma_drop_spaces_at(sp + sd, sp.len() as int);
    assert((sp + sd).skip(sp.len() as int) =~= sd);
    lemma_token_len_at(sd, sd.len() as int);
    assert(sd.take(sd.len() as int) =~= sd);
}

/// Roll-forward rule: for a lone in-range `HH:MM` token, the resolved date
/// is `now`'s own date when the named time of day lies at or after `now`'s
/// time of day, and the very next day otherwise — never any other day.
pub proof fn lemma_roll_forward(s: Seq<char>, now: ReferenceInstant, h: int, mi: int)
    requires
        now.valid(),
        s.len() > 0,
        forall|j: int| 0 <= j < s.len() ==> !is_space_char(s[j]),
        time_token_value(s) == Option::Some((h, mi)),
        0 <= h < 24,
        0 <= mi < 60,
    ensures
        hm_time(h, mi).nanos_of_day() >= now.time.nanos_of_day() ==> local_resolution(s, now)
            == Ok::<(Date, TimeOfDay), TimeParseError>((now.date, hm_time(h, mi))),
        hm_time(h, mi).nanos_of_day() < now.time.nanos_of_day() ==> local_resolution(s, now)
            == Ok::<(Date, TimeOfDay), TimeParseError>((succ_date(now.date), hm_time(h, mi))),
{
    lemma_single_token_shape(s);
}

/// Empty (or all-whitespace) input resolves to exactly `now`, expressed
/// in UTC: both the time of day and the date default to `now`'s own.
pub proof fn lemma_empty_input(s: Seq<char>, now: ReferenceInstant)
    requires
        now.valid(),
        forall|j: int| 0 <= j < s.len() ==> is_space_char(s[j]),
        !offset_underflows(now.date, now.time),
    ensures
        resolve_spec(s, now) == Ok::<UtcInstant, TimeParseError>(
            offset_to_utc(now.date, now.time),
        ),
{
    lemma_drop_spaces_at(s, s.len() as int);
    assert(s.skip(s.len() as int) =~= Seq::<char>::empty());
}

/// An explicit in-range `DD/MM/YYYY` date bypasses roll-forward entirely:
/// the result names exactly that date, whatever `now` is — dates in the
/// past included, as nothing here constrains them against `now`.
pub proof fn lemma_explicit_date(
    st: Seq<char>,
    sp: Seq<char>,
    sd: Seq<char>,
    now: ReferenceInstant,
    h: int,
    mi: int,
    d: int,
    m: int,
    y: int,
)
    requires
        st.len() > 0,
        forall|j: int| 0 <= j < st.len() ==> !is_space_char(st[j]),
        sp.len() > 0,
        forall|j: int| 0 <= j < sp.len() ==> is_space_char(sp[j]),
        sd.len() > 0,
        forall|j: int| 0 <= j < sd.len() ==> !is_space_char(sd[j]),
        time_token_value(st) == Option::Some((h, mi)),
        0 <= h < 24,
        0 <= mi < 60,
        date_token_value(sd) == Option::Some((d, m, y)),
        1 <= m <= 12,
        1 <= d <= days_in_month(y, m),
        0 <= y <= 9999,
    ensures
        local_resolution(st + sp + sd, now) == Ok::<(Date, TimeOfDay), TimeParseError>(
            (Date { year: y as u16, month: m as u8, day: d as u8 }, hm_time(h, mi)),
        ),
{
    lemma_two_token_shape(st, sp, sd);
}

/// A date token of the right shape whose components are out of range
/// (month 20, day 31 of a 30-day month) fails with a date-range error —
/// never a silent fallback to some other date.
pub proof fn lemma_date_out_of_range(
    st: Seq<char>,
    sp: Seq<char>,
    sd: Seq<char>,
    now: ReferenceInstant,
    h: int,
    mi: int,
    d: int,
    m: int,
    y: int,
)
    requires
        st.len() > 0,
        forall|j: int| 0 <= j < st.len() ==> !is_space_char(st[j]),
        sp.len() > 0,
        forall|j: int| 0 <= j < sp.len() ==> is_space_char(sp[j]),
        sd.len() > 0,
        forall|j: int| 0 <= j < sd.len() ==> !is_space_char(sd[j]),
        time_token_value(st) == Option::Some((h, mi)),
        0 <= h < 24,
        0 <= mi < 60,
        date_token_value(sd) == Option::Some((d, m, y)),
        !(1 <= m <= 12 && 1 <= d <= days_in_month(y, m)),
    ensures
        resolve_spec(st + sp + sd, now) == Err::<UtcInstant, TimeParseError>(
            TimeParseError::DateRange,
        ),
{
    lemma_two_token_shape(st, sp, sd);
}

/// Round trip: resolving `"HH:MM DD/MM/YYYY"` against any reference
/// instant and expressing the result back in UTC+8 local time reproduces
/// exactly `HH:MM` on `DD/MM/YYYY`.
pub proof fn lemma_round_trip(
    st: Seq<char>,
    sp: Seq<char>,
    sd: Seq<char>,
    now: ReferenceInstant,
    h: int,
    mi: int,
    d: int,
    m: int,
    y: int,
)
    requires
        st.len() > 0,
        forall|j: int| 0 <= j < st.len() ==> !is_space_char(st[j]),
        sp.len() > 0,
        forall|j: int| 0 <= j < sp.len() ==> is_space_char(sp[j]),
        sd.len() > 0,
        forall|j: int| 0 <= j < sd.len() ==> !is_space_char(sd[j]),
        time_token_value(st) == Option::Some((h, mi)),
        0 <= h < 24,
        0 <= mi < 60,
        date_token_value(sd) == Option::Some((d, m, y)),
        1 <= m <= 12,
        1 <= d <= days_in_month(y, m),
        0 <= y <= 9999,
        !offset_underflows(
            Date { year: y as u16, month: m as u8, day: d as u8 },
            hm_time(h, mi),
        ),
    ensures
        resolve_spec(st + sp + sd, now) == Ok::<UtcInstant, TimeParseError>(
            offset_to_utc(Date { year: y as u16, month: m as u8, day: d as u8 }, hm_time(h, mi)),
        ),
        utc_to_local8_spec(
            offset_to_utc(Date { year: y as u16, month: m as u8, day: d as u8 }, hm_time(h, mi)),
        ) == (ReferenceInstant {
            date: Date { year: y as u16, month: m as u8, day: d as u8 },
            time: hm_time(h, mi),
        }),
{
    lemma_explicit_date(st, sp, sd, now, h, mi, d, m, y);
    lemma_offset_round_trip(Date { year: y as u16, month: m as u8, day: d as u8 }, hm_time(h, mi));
}

/// Reads the clock. Relies on chrono's `Utc::now` for the current instant
/// (whose sub-second part lies below one second) and on
/// `FixedOffset::east_opt(8 * 3600)` with `from_utc_datetime` to express it
/// in the fixed UTC+8 offset; the `Datelike`/`Timelike` accessors hand the
/// civil fields over unchanged. Assumes the clock reads a year no later
/// than 9999.
#[verifier::external_body]
pub fn utc8_now() -> (r: ReferenceInstant)
    ensures
        r.valid(),
{
    let now = chrono::FixedOffset::east_opt(8 * 3600)
        .unwrap()
        .from_utc_datetime(&chrono::Utc::now().naive_utc());
    let date = Date {
        year: u16::try_from(now.year()).unwrap(),
        month: now.month() as u8,
        day: now.day() as u8,
    };
    let time = TimeOfDay {
        hour: now.hour() as u8,
        minute: now.minute() as u8,
        second: now.second() as u8,
        nanosecond: now.nanosecond(),
    };
    ReferenceInstant { date, time }
}

} // verus!
