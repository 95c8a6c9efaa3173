//! When a screenshot was taken, as parts of a path.

use vstd::prelude::*;

use crate::text::digit;

verus! {

/// A moment in local time.
#[derive(Debug, Clone, Copy, PartialEq, Eq, Structural)]
pub struct Stamp {
    pub year: i32,
    pub month: u8,
    pub day: u8,
    pub hour: u8,
    pub minute: u8,
    pub second: u8,
}

pub const YEAR: &'static str = "[year]";

pub const MONTH: &'static str = "[month]";

pub const YEAR_MONTH: &'static str = "[year]-[month]";

pub const DAY_TIME: &'static str = "[day]_[hour]-[minute]-[second]";

pub const MONTH_DAY_TIME: &'static str = "[month]-[day]_[hour]-[minute]-[second]";

pub const DATE_TIME: &'static str = "[year]-[month]-[day]_[hour]-[minute]-[second]";

/// The year has a twenty-ninth of February.
pub open spec fn leap(year: int) -> bool {
    year % 4 == 0 && (year % 100 != 0 || year % 400 == 0)
}

/// How many days a month has.
pub open spec fn days_in(year: int, month: int) -> int {
    if month == 2 {
        if leap(year) {
            29
        } else {
            28
        }
    } else if month == 4 || month == 6 || month == 9 || month == 11 {
        30
    } else {
        31
    }
}

/// `n` in two digits.
pub open spec fn two(n: int) -> Seq<char> {
    seq![digit(n / 10 % 10), digit(n % 10)]
}

/// `n` in four digits.
pub open spec fn four(n: int) -> Seq<char> {
    two(n / 100) + two(n % 100)
}

impl Stamp {
    /// There is such a moment, in a year of at most four digits.
    pub open spec fn wf(self) -> bool {
        &&& 0 <= self.year <= 9999
        &&& 1 <= self.month <= 12
        &&& 1 <= self.day <= days_in(self.year as int, self.month as int)
        &&& self.hour <= 23
        &&& self.minute <= 59
        &&& self.second <= 59
    }

    /// Whether there is such a moment, in a year of at most four digits.
    pub fn valid(&self) -> (r: bool)
        ensures
            r == self.wf(),
    {
        if self.year < 0 || self.year > 9999 || self.month < 1 || self.month > 12 {
            return false;
        }
        let leap: bool = self.year % 4 == 0 && (self.year % 100 != 0 || self.year % 400 == 0);
        let days: u8 = if self.month == 2 {
            if leap {
                29
            } else {
                28
            }
        } else if self.month == 4 || self.month == 6 || self.month == 9 || self.month == 11 {
            30
        } else {
            31
        };
        1 <= self.day && self.day <= days && self.hour <= 23 && self.minute <= 59 && self.second
            <= 59
    }

    /// Day and time of day, such as `05_14-03-59`.
    pub open spec fn day_time(self) -> Seq<char> {
        two(self.day as int) + seq!['_'] + two(self.hour as int) + seq!['-'] + two(
            self.minute as int,
        ) + seq!['-'] + two(self.second as int)
    }

    /// Year and month, such as `2024-01`.
    pub open spec fn year_month(self) -> Seq<char> {
        four(self.year as int) + seq!['-'] + two(self.month as int)
    }

    /// Month, day and time of day, such as `01-05_14-03-59`.
    pub open spec fn month_day_time(self) -> Seq<char> {
        two(self.month as int) + seq!['-'] + self.day_time()
    }

    /// Date and time of day, such as `2024-01-05_14-03-59`.
    pub open spec fn date_time(self) -> Seq<char> {
        four(self.year as int) + seq!['-'] + self.month_day_time()
    }
}

/// `time::PrimitiveDateTime::format` for the descriptions of this module: each component in
/// brackets is replaced by the number that it names, the year in four digits and the others in
/// two, and what stands between them stays.
#[verifier::external_body]
pub(crate) fn format_time(stamp: &Stamp, description: &str) -> (r: String)
    requires
        stamp.wf(),
        description@ == YEAR@ || description@ == MONTH@ || description@ == YEAR_MONTH@
            || description@ == DAY_TIME@ || description@ == MONTH_DAY_TIME@ || description@
            == DATE_TIME@,
    ensures
        description@ == YEAR@ ==> r@ == four(stamp.year as int),
        description@ == MONTH@ ==> r@ == two(stamp.month as int),
        description@ == YEAR_MONTH@ ==> r@ == stamp.year_month(),
        description@ == DAY_TIME@ ==> r@ == stamp.day_time(),
        description@ == MONTH_DAY_TIME@ ==> r@ == stamp.month_day_time(),
        description@ == DATE_TIME@ ==> r@ == stamp.date_time(),
{
    let month = time::Month::try_from(stamp.month).unwrap();
    let date = time::Date::from_calendar_date(stamp.year, month, stamp.day).unwrap();
    let moment = date.with_hms(stamp.hour, stamp.minute, stamp.second).unwrap();
    let items = time::format_description::parse_borrowed::<1>(description).unwrap();
    moment.format(&items).unwrap()
}

/// No two moments share a name: the date and the time of day can be read back from it.
pub proof fn names_tell_moments_apart(a: Stamp, b: Stamp)
    requires
        a.wf(),
        b.wf(),
        a.date_time() == b.date_time(),
    ensures
        a == b,
{
    lemma_fields(a);
    lemma_fields(b);
    lemma_two(a.year as int / 100, b.year as int / 100);
    lemma_two(a.year as int % 100, b.year as int % 100);
    lemma_two(a.month as int, b.month as int);
    lemma_two(a.day as int, b.day as int);
    lemma_two(a.hour as int, b.hour as int);
    lemma_two(a.minute as int, b.minute as int);
    lemma_two(a.second as int, b.second as int);
}

/// Where the parts of a date and time stand.
proof fn lemma_fields(a: Stamp)
    ensures
        a.date_time().subrange(0, 2) == two(a.year as int / 100),
        a.date_time().subrange(2, 4) == two(a.year as int % 100),
        a.date_time().subrange(5, 7) == two(a.month as int),
        a.date_time().subrange(8, 10) == two(a.day as int),
        a.date_time().subrange(11, 13) == two(a.hour as int),
        a.date_time().subrange(14, 16) == two(a.minute as int),
        a.date_time().subrange(17, 19) == two(a.second as int),
{
    let s = a.date_time();
    let d = a.day_time();
    assert(d.subrange(0, 2) =~= two(a.day as int));
    assert(d.subrange(3, 5) =~= two(a.hour as int));
    assert(d.subrange(6, 8) =~= two(a.minute as int));
    assert(d.subrange(9, 11) =~= two(a.second as int));
    assert(s.subrange(8, 19) =~= d);
    assert(s.subrange(0, 2) =~= two(a.year as int / 100));
    assert(s.subrange(2, 4) =~= two(a.year as int % 100));
    assert(s.subrange(5, 7) =~= two(a.month as int));
    assert(s.subrange(8, 10) =~= d.subrange(0, 2));
    assert(s.subrange(11, 13) =~= d.subrange(3, 5));
    assert(s.subrange(14, 16) =~= d.subrange(6, 8));
    assert(s.subrange(17, 19) =~= d.subrange(9, 11));
}

proof fn lemma_digits_differ()
    ensures
        forall|i: int, j: int|
            0 <= i < 10 && 0 <= j < 10 && #[trigger] digit(i) == #[trigger] digit(j) ==> i == j,
{
}

proof fn lemma_two(a: int, b: int)
    requires
        0 <= a < 100,
        0 <= b < 100,
        two(a) == two(b),
    ensures
        a == b,
{
    lemma_digits_differ();
    assert(two(a)[0] == digit(a / 10 % 10) && two(a)[1] == digit(a % 10));
    assert(two(b)[0] == digit(b / 10 % 10) && two(b)[1] == digit(b % 10));
}

/// `s` holds the digits of `n` at positions `at` and `at + 1`.
pub open spec fn two_digits_at(s: Seq<char>, at: int, n: int) -> bool {
    &&& 0 <= at && at + 2 <= s.len()
    &&& s[at] as int == 0x30 + n / 10
    &&& s[at + 1] as int == 0x30 + n % 10
}

proof fn lemma_two_digits(n: int)
    requires
        0 <= n <= 99,
    ensures
        two(n).len() == 2,
        two_digits_at(two(n), 0, n),
{
}

/// The name of a moment is the year in four digits, then month, day, hour, minute and second in two
/// digits each, in this order, with hyphens in the date and in the time and an underscore between
/// them. The shorter names are the ends of it, or the start.
pub proof fn names_are_dates_and_times(s: Stamp)
    requires
        s.wf(),
    ensures
        s.date_time().len() == 19,
        two_digits_at(s.date_time(), 0, s.year as int / 100),
        two_digits_at(s.date_time(), 2, s.year as int % 100),
        s.date_time()[4] == '-',
        two_digits_at(s.date_time(), 5, s.month as int),
        s.date_time()[7] == '-',
        two_digits_at(s.date_time(), 8, s.day as int),
        s.date_time()[10] == '_',
        two_digits_at(s.date_time(), 11, s.hour as int),
        s.date_time()[13] == '-',
        two_digits_at(s.date_time(), 14, s.minute as int),
        s.date_time()[16] == '-',
        two_digits_at(s.date_time(), 17, s.second as int),
        s.month_day_time() == s.date_time().subrange(5, 19),
        s.day_time() == s.date_time().subrange(8, 19),
        s.year_month() == s.date_time().subrange(0, 7),
        four(s.year as int) == s.date_time().subrange(0, 4),
        two(s.month as int) == s.date_time().subrange(5, 7),
{
    let d = s.date_time();
    lemma_fields(s);
    lemma_two_digits(s.year as int / 100);
    lemma_two_digits(s.year as int % 100);
    lemma_two_digits(s.month as int);
    lemma_two_digits(s.day as int);
    lemma_two_digits(s.hour as int);
    lemma_two_digits(s.minute as int);
    lemma_two_digits(s.second as int);
    assert(s.month_day_time() =~= d.subrange(5, 19));
    assert(s.day_time() =~= d.subrange(8, 19));
    assert(s.year_month() =~= d.subrange(0, 7));
    assert(four(s.year as int) =~= d.subrange(0, 4));
    assert(d.subrange(0, 2)[0] == d[0] && d.subrange(0, 2)[1] == d[1]);
    assert(d.subrange(2, 4)[0] == d[2] && d.subrange(2, 4)[1] == d[3]);
    assert(d.subrange(5, 7)[0] == d[5] && d.subrange(5, 7)[1] == d[6]);
    assert(d.subrange(8, 10)[0] == d[8] && d.subrange(8, 10)[1] == d[9]);
    assert(d.subrange(11, 13)[0] == d[11] && d.subrange(11, 13)[1] == d[12]);
    assert(d.subrange(14, 16)[0] == d[14] && d.subrange(14, 16)[1] == d[15]);
    assert(d.subrange(17, 19)[0] == d[17] && d.subrange(17, 19)[1] == d[18]);
}

/// A year has 365 days, and one more every four years, but not at the turn of a century unless that
/// is divisible by 400. Every month has 28 to 31 days.
pub proof fn years_have_their_days(year: int, month: int)
    ensures
        days_in(year, 1) + days_in(year, 2) + days_in(year, 3) + days_in(year, 4) + days_in(year, 5)
            + days_in(year, 6) + days_in(year, 7) + days_in(year, 8) + days_in(year, 9) + days_in(
            year,
            10,
        ) + days_in(year, 11) + days_in(year, 12) == if year % 400 == 0 || (year % 4 == 0 && year
            % 100 != 0) {
            366int
        } else {
            365int
        },
        28 <= days_in(year, month) <= 31,
        days_in(year, month) <= 29 <==> month == 2,
{
    assert(year % 400 == 0 ==> year % 4 == 0);
}

} // verus!
