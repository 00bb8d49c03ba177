//! Calendar days in UTC, at date precision, and the window of days a pass
//! scans.
use crate::endpoints::digits;
use vstd::prelude::*;

verus! {

/// Day number (January 1 of year 1 is day 1) of the earliest date the
/// calendar can represent: January 1 of year -262143.
pub const MIN_DAY: i32 = -95746129;

/// Day number of the latest date the calendar can represent: December 31 of
/// year 262142.
pub const MAX_DAY: i32 = 95745399;

/// Earliest year the calendar can represent.
pub const MIN_YEAR: i32 = -262143;

/// Latest year the calendar can represent.
pub const MAX_YEAR: i32 = 262142;

pub open spec fn is_leap_year(y: int) -> bool {
    (y % 4 == 0 && y % 100 != 0) || y % 400 == 0
}

pub open spec fn days_in_month(y: int, m: int) -> int {
    if m == 2 {
        if is_leap_year(y) { 29 } else { 28 }
    } else if m == 4 || m == 6 || m == 9 || m == 11 {
        30
    } else {
        31
    }
}

/// Days from the start of the count to the end of year `y - 1`.
pub open spec fn days_before_year(y: int) -> int {
    let p = y - 1;
    365 * p + p / 4 - p / 100 + p / 400
}

/// Days of year `y` before month `m` begins.
pub open spec fn days_before_month(y: int, m: int) -> int
    decreases m,
{
    if m <= 1 {
        0
    } else {
        days_before_month(y, m - 1) + days_in_month(y, m - 1)
    }
}

/// The day number of year `y`, month `m`, day `d`, if that is a date the
/// calendar can represent.
pub open spec fn day_of_ymd(y: int, m: int, d: int) -> Option<int> {
    if MIN_YEAR <= y <= MAX_YEAR && 1 <= m <= 12 && 1 <= d <= days_in_month(y, m) {
        Some(days_before_year(y) + days_before_month(y, m) + d)
    } else {
        None
    }
}

/// `n` in decimal, with zeros in front up to `width` digits.
pub open spec fn padded(n: nat, width: int) -> Seq<char> {
    let t = digits(n);
    if t.len() >= width {
        t
    } else {
        Seq::new((width - t.len()) as nat, |i: int| '0') + t
    }
}

/// A year as `%Y` writes it: four digits for years 0 to 9999, and a sign
/// before at least four digits otherwise.
pub open spec fn year_text(y: int) -> Seq<char> {
    if 0 <= y <= 9999 {
        padded(y as nat, 4)
    } else if y < 0 {
        seq!['-'] + padded((-y) as nat, 4)
    } else {
        seq!['+'] + padded(y as nat, 4)
    }
}

/// The date of a day number written as year, month and day, zero-padded,
/// with no separators (`20230315`).
pub open spec fn compact_date_text(day: int) -> Seq<char> {
    let ymd = choose|ymd: (int, int, int)| day_of_ymd(ymd.0, ymd.1, ymd.2) == Some(day);
    year_text(ymd.0) + padded(ymd.1 as nat, 2) + padded(ymd.2 as nat, 2)
}

/// Relies on chrono's `NaiveDate::from_ymd_opt`: the date of a valid
/// year, month and day, and `None` for an invalid or unrepresentable one.
#[verifier::external_body]
fn ymd_to_day(year: i32, month: u32, day: u32) -> (r: Option<i32>)
    ensures
        r matches Some(n) ==> day_of_ymd(year as int, month as int, day as int) == Some(n as int),
        r is None ==> day_of_ymd(year as int, month as int, day as int) is None,
        r matches Some(n) ==> MIN_DAY <= n <= MAX_DAY,
{
    chrono::NaiveDate::from_ymd_opt(year, month, day).map(|d| chrono::Datelike::num_days_from_ce(&d))
}

/// Relies on chrono's `NaiveDate::checked_sub_days`: the date `n` days
/// earlier, or `None` when that falls before the earliest representable date.
#[verifier::external_body]
fn checked_sub_days(day: i32, n: u64) -> (r: Option<i32>)
    requires
        MIN_DAY <= day <= MAX_DAY,
    ensures
        r == (if day - n >= MIN_DAY { Some((day - n) as i32) } else { None::<i32> }),
{
    match chrono::NaiveDate::from_num_days_from_ce_opt(day) {
        Some(d) => d.checked_sub_days(chrono::Days::new(n)).map(|e| chrono::Datelike::num_days_from_ce(&e)),
        None => None,
    }
}

/// Relies on chrono's `NaiveDate::format` with the pattern `%Y%m%d`.
#[verifier::external_body]
fn format_compact(day: i32) -> (r: String)
    requires
        MIN_DAY <= day <= MAX_DAY,
    ensures
        r@ == compact_date_text(day as int),
{
    match chrono::NaiveDate::from_num_days_from_ce_opt(day) {
        Some(d) => d.format("%Y%m%d").to_string(),
        None => String::new(),
    }
}

/// A calendar day, counted in the proleptic Gregorian calendar with
/// January 1 of year 1 as day 1.
#[derive(Clone, Copy, Debug, PartialEq, Eq, Structural)]
pub struct CalendarDay {
    days_from_ce: i32,
}

impl CalendarDay {
    #[verifier::type_invariant]
    spec fn in_range(self) -> bool {
        MIN_DAY <= self.days_from_ce <= MAX_DAY
    }

    /// The day number.
    pub closed spec fn day(self) -> int {
        self.days_from_ce as int
    }

    /// The day with the given number, if the calendar can represent it.
    pub fn from_days_from_ce(days: i32) -> (r: Option<CalendarDay>)
        ensures
            r is Some <==> MIN_DAY <= days <= MAX_DAY,
            r matches Some(d) ==> d.day() == days,
    {
        if MIN_DAY <= days && days <= MAX_DAY {
            Some(CalendarDay { days_from_ce: days })
        } else {
            None
        }
    }

    /// The day of a year, month and day, if that date is valid and
    /// representable.
    pub fn from_ymd(year: i32, month: u32, day: u32) -> (r: Option<CalendarDay>)
        ensures
            r is Some <==> day_of_ymd(year as int, month as int, day as int) is Some,
            r matches Some(d) ==> day_of_ymd(year as int, month as int, day as int) == Some(d.day()),
    {
        match ymd_to_day(year, month, day) {
            Some(n) => Some(CalendarDay { days_from_ce: n }),
            None => None,
        }
    }

    /// The date as an eight-character token such as `20230315`, the form
    /// the history feed uses in its paths.
    pub fn compact(&self) -> (r: String)
        ensures
            r@ == compact_date_text(self.day()),
    {
        proof {
            use_type_invariant(self);
        }
        format_compact(self.days_from_ce)
    }

    pub fn days_from_ce(&self) -> (r: i32)
        ensures
            r == self.day(),
            MIN_DAY <= r <= MAX_DAY,
    {
        proof {
            use_type_invariant(self);
        }
        self.days_from_ce
    }
}

/// Whether the window of `num_days` days before `reference` stays within
/// the representable dates.
pub fn window_fits(reference: CalendarDay, num_days: u64) -> (r: bool)
    ensures
        r == (reference.day() - num_days >= MIN_DAY),
{
    let start = reference.days_from_ce();
    let room = (start as i64 - MIN_DAY as i64) as u64;
    num_days <= room
}

/// The days a pass scans: the reference day and each of the `num_days`
/// days before it, most recent first. A window reaching before the earliest
/// representable date is a configuration error, which the caller rules out.
pub fn day_window(reference: CalendarDay, num_days: u64) -> (w: Vec<CalendarDay>)
    requires
        reference.day() - num_days >= MIN_DAY,
    ensures
        w@.len() == num_days + 1,
        forall|k: int| 0 <= k < w@.len() ==> #[trigger] w@[k].day() == reference.day() - k,
        forall|i: int, j: int| 0 <= i < j < w@.len() ==> #[trigger] w@[i].day() != #[trigger] w@[j].day(),
{
    let start = reference.days_from_ce();
    let mut window: Vec<CalendarDay> = Vec::new();
    let mut k: u64 = 0;
    loop
        invariant
            MIN_DAY <= start <= MAX_DAY,
            start == reference.day(),
            start - num_days >= MIN_DAY,
            k <= num_days,
            window@.len() == k,
            forall|i: int| 0 <= i < window@.len() ==> #[trigger] window@[i].day() == start - i,
        decreases num_days - k,
    {
        match checked_sub_days(start, k) {
            Some(d) => {
                window.push(CalendarDay { days_from_ce: d });
            },
            None => {
                return window;
            },
        }
        if k == num_days {
            return window;
        }
        k = k + 1;
    }
}

} // verus!
