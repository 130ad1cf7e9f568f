//! Calendar days: their order, the day after, and the fixed `YYYY-MM-DD` text.

use vstd::prelude::*;

verus! {

/// The last year a date of this library can lie in: the text holds four digits.
pub const MAX_YEAR: u16 = 9999;

/// Length of the text of a date.
pub const DATE_TEXT_LEN: usize = 10;

/// A day of the proleptic Gregorian calendar, as a mathematical triple.
pub struct CivilDay {
    pub year: int,
    pub month: int,
    pub day: int,
}

/// Leap years: every fourth, but of the centuries only every fourth.
pub open spec fn is_leap(year: int) -> bool {
    year % 4 == 0 && (year % 100 != 0 || year % 400 == 0)
}

/// Number of days of a month.
pub open spec fn days_in_month(year: int, month: int) -> int {
    if month == 2 {
        if is_leap(year) {
            29
        } else {
            28
        }
    } else if month == 4 || month == 6 || month == 9 || month == 11 {
        30
    } else {
        31
    }
}

/// The byte of a decimal digit.
pub open spec fn digit(n: int) -> u8 {
    (48 + n) as u8
}

impl CivilDay {
    /// The triple names a day of the calendar, in a year that is not negative.
    pub open spec fn on_calendar(self) -> bool {
        &&& 0 <= self.year
        &&& 1 <= self.month <= 12
        &&& 1 <= self.day <= days_in_month(self.year, self.month)
    }

    /// A day of the calendar that the text form can hold.
    pub open spec fn wf(self) -> bool {
        self.on_calendar() && self.year <= MAX_YEAR
    }

    /// The day after.
    pub open spec fn next(self) -> CivilDay {
        if self.day < days_in_month(self.year, self.month) {
            CivilDay { year: self.year, month: self.month, day: self.day + 1 }
        } else if self.month < 12 {
            CivilDay { year: self.year, month: self.month + 1, day: 1 }
        } else {
            CivilDay { year: self.year + 1, month: 1, day: 1 }
        }
    }

    /// The day `k` days after.
    pub open spec fn plus_days(self, k: nat) -> CivilDay
        decreases k,
    {
        if k == 0 {
            self
        } else {
            self.plus_days((k - 1) as nat).next()
        }
    }

    /// Strictly earlier in the calendar.
    pub open spec fn before(self, other: CivilDay) -> bool {
        self.year < other.year || (self.year == other.year && (self.month < other.month || (
        self.month == other.month && self.day < other.day)))
    }

    /// The ten bytes `YYYY-MM-DD`.
    pub open spec fn text(self) -> Seq<u8> {
        seq![
            digit(self.year / 1000),
            digit(self.year / 100 % 10),
            digit(self.year / 10 % 10),
            digit(self.year % 10),
            45u8,
            digit(self.month / 10),
            digit(self.month % 10),
            45u8,
            digit(self.day / 10),
            digit(self.day % 10),
        ]
    }
}

/// The day after a calendar day is a calendar day, and a later one.
pub proof fn lemma_next_is_later(c: CivilDay)
    requires
        c.on_calendar(),
    ensures
        c.next().on_calendar(),
        c.before(c.next()),
        c.next().year == c.year || c.next().year == c.year + 1,
{
}

/// Counting days forward stays on the calendar and never goes back a year.
pub proof fn lemma_plus_days_on_calendar(c: CivilDay, k: nat)
    requires
        c.on_calendar(),
    ensures
        c.plus_days(k).on_calendar(),
        c.plus_days(k).year >= c.year,
    decreases k,
{
    if k > 0 {
        lemma_plus_days_on_calendar(c, (k - 1) as nat);
        lemma_next_is_later(c.plus_days((k - 1) as nat));
    }
}

/// Of two day counts the larger one leads to the later day.
pub proof fn lemma_plus_days_increasing(c: CivilDay, j: nat, k: nat)
    requires
        c.on_calendar(),
        j < k,
    ensures
        c.plus_days(j).before(c.plus_days(k)),
        c.plus_days(j).year <= c.plus_days(k).year,
    decreases k,
{
    lemma_plus_days_on_calendar(c, (k - 1) as nat);
    lemma_next_is_later(c.plus_days((k - 1) as nat));
    if j < k - 1 {
        lemma_plus_days_increasing(c, j, (k - 1) as nat);
    }
}

/// The text of a date is ten bytes, digits but for two hyphens, and the
/// digits spell the year, the month and the day.
#[verifier::rlimit(50)]
pub proof fn lemma_text_shape(c: CivilDay)
    requires
        c.wf(),
    ensures
        c.text().len() == 10,
        c.text()[4] == 45 && c.text()[7] == 45,
        forall|i: int| 0 <= i < 10 && i != 4 && i != 7 ==> 48 <= #[trigger] c.text()[i] <= 57,
        c.year == (c.text()[0] - 48) * 1000 + (c.text()[1] - 48) * 100 + (c.text()[2] - 48) * 10 + (
        c.text()[3] - 48),
        c.month == (c.text()[5] - 48) * 10 + (c.text()[6] - 48),
        c.day == (c.text()[8] - 48) * 10 + (c.text()[9] - 48),
{
}

/// Two days with the same text are the same day.
pub proof fn lemma_text_tells_days_apart(a: CivilDay, b: CivilDay)
    requires
        a.wf(),
        b.wf(),
        a.text() == b.text(),
    ensures
        a == b,
{
    lemma_text_shape(a);
    lemma_text_shape(b);
}

/// Whether a byte is a decimal digit.
pub open spec fn is_digit(b: u8) -> bool {
    48 <= b <= 57
}

/// The day that ten bytes spell, where they are the text of a date.
pub open spec fn day_of_text(t: Seq<u8>) -> Option<CivilDay> {
    if t.len() == 10 && is_digit(t[0]) && is_digit(t[1]) && is_digit(t[2]) && is_digit(t[3])
        && t[4] == 45 && is_digit(t[5]) && is_digit(t[6]) && t[7] == 45 && is_digit(t[8])
        && is_digit(t[9]) {
        let c = CivilDay {
            year: (t[0] - 48) * 1000 + (t[1] - 48) * 100 + (t[2] - 48) * 10 + (t[3] - 48),
            month: (t[5] - 48) * 10 + (t[6] - 48),
            day: (t[8] - 48) * 10 + (t[9] - 48),
        };
        if c.wf() {
            Some(c)
        } else {
            None
        }
    } else {
        None
    }
}

/// Reading the text of a date gives the date back.
#[verifier::rlimit(50)]
pub proof fn lemma_text_round_trip(c: CivilDay)
    requires
        c.wf(),
    ensures
        day_of_text(c.text()) == Some(c),
{
    lemma_text_shape(c);
}

/// Bytes that spell a day are the text of that day.
#[verifier::rlimit(50)]
pub proof fn lemma_day_of_text_is_exact(t: Seq<u8>)
    requires
        day_of_text(t).is_some(),
    ensures
        day_of_text(t).unwrap().wf(),
        day_of_text(t).unwrap().text() == t,
{
    let c = day_of_text(t).unwrap();
    lemma_text_shape(c);
    assert(c.text() =~= t);
}

/// A calendar day between the years 0 and 9999.
#[derive(Clone, Copy, Debug, PartialEq, Eq, Structural)]
pub struct Date {
    pub year: u16,
    pub month: u8,
    pub day: u8,
}

impl View for Date {
    type V = CivilDay;

    open spec fn view(&self) -> CivilDay {
        CivilDay { year: self.year as int, month: self.month as int, day: self.day as int }
    }
}

/// Whether a year is a leap year.
pub fn leap_year(year: u16) -> (b: bool)
    ensures
        b == is_leap(year as int),
{
    year % 4 == 0 && (year % 100 != 0 || year % 400 == 0)
}

/// The number of days of a month of a year.
pub fn month_length(year: u16, month: u8) -> (n: u8)
    ensures
        n == days_in_month(year as int, month as int),
{
    if month == 2 {
        if leap_year(year) {
            29
        } else {
            28
        }
    } else if month == 4 || month == 6 || month == 9 || month == 11 {
        30
    } else {
        31
    }
}

fn digit_value(b: u8) -> (r: Option<u16>)
    ensures
        r.is_some() <==> 48 <= b <= 57,
        r.is_some() ==> r.unwrap() == b - 48,
{
    if 48 <= b && b <= 57 {
        Some((b - 48) as u16)
    } else {
        None
    }
}

fn digit_byte(n: u16) -> (b: u8)
    requires
        n <= 9,
    ensures
        b == digit(n as int),
        48 <= b <= 57,
{
    48 + (n as u8)
}

impl Date {
    /// The date is a day of the calendar.
    pub open spec fn wf(self) -> bool {
        self@.wf()
    }

    /// The date of a year, a month and a day of the month, where there is one.
    pub fn new(year: u16, month: u8, day: u8) -> (r: Option<Date>)
        ensures
            r.is_some() <==> (CivilDay {
                year: year as int,
                month: month as int,
                day: day as int,
            }).wf(),
            r.is_some() ==> r.unwrap() == (Date { year, month, day }),
    {
        if year <= MAX_YEAR && 1 <= month && month <= 12 && 1 <= day && day <= month_length(
            year,
            month,
        ) {
            Some(Date { year, month, day })
        } else {
            None
        }
    }

    /// Decides whether the fields name a day of the calendar.
    pub fn is_valid(self) -> (b: bool)
        ensures
            b == self.wf(),
    {
        self.year <= MAX_YEAR && 1 <= self.month && self.month <= 12 && 1 <= self.day && self.day
            <= month_length(self.year, self.month)
    }

    /// The day after; `None` after the last day of the year 9999.
    pub fn succ(self) -> (r: Option<Date>)
        requires
            self.wf(),
        ensures
            r.is_some() <==> self@.next().year <= MAX_YEAR,
            r.is_some() ==> r.unwrap()@ == self@.next() && r.unwrap().wf(),
    {
        proof {
            lemma_next_is_later(self@);
        }
        if self.day < month_length(self.year, self.month) {
            Some(Date { year: self.year, month: self.month, day: self.day + 1 })
        } else if self.month < 12 {
            Some(Date { year: self.year, month: self.month + 1, day: 1 })
        } else if self.year < MAX_YEAR {
            Some(Date { year: self.year + 1, month: 1, day: 1 })
        } else {
            None
        }
    }

    /// Whether this date comes strictly before the other.
    pub fn is_before(self, other: Date) -> (b: bool)
        ensures
            b == self@.before(other@),
    {
        self.year < other.year || (self.year == other.year && (self.month < other.month || (
        self.month == other.month && self.day < other.day)))
    }

    /// The text `YYYY-MM-DD`.
    #[verifier::rlimit(50)]
    pub fn to_text(self) -> (out: Vec<u8>)
        requires
            self.wf(),
        ensures
            out@ == self@.text(),
    {
        let mut out: Vec<u8> = Vec::new();
        let month: u16 = self.month as u16;
        let day: u16 = self.day as u16;
        out.push(digit_byte(self.year / 1000));
        out.push(digit_byte(self.year / 100 % 10));
        out.push(digit_byte(self.year / 10 % 10));
        out.push(digit_byte(self.year % 10));
        out.push(45u8);
        out.push(digit_byte(month / 10));
        out.push(digit_byte(month % 10));
        out.push(45u8);
        out.push(digit_byte(day / 10));
        out.push(digit_byte(day % 10));
        assert(out@ =~= self@.text());
        out
    }

    /// Reads a date from a stretch of bytes: `Some` exactly where the bytes
    /// from `start` up to `end` are the text of a date, and then that date.
    #[verifier::rlimit(50)]
    pub fn parse_range(bytes: &Vec<u8>, start: usize, end: usize) -> (r: Option<Date>)
        requires
            start <= end <= bytes.len(),
        ensures
            r.is_some() <==> day_of_text(bytes@.subrange(start as int, end as int)).is_some(),
            r.is_some() ==> Some(r.unwrap()@) == day_of_text(
                bytes@.subrange(start as int, end as int),
            ),
            match r {
                Some(d) => d.wf() && d@.text() == bytes@.subrange(start as int, end as int),
                None => forall|c: CivilDay|
                    c.wf() ==> #[trigger] c.text() != bytes@.subrange(start as int, end as int),
            },
    {
        let ghost t = bytes@.subrange(start as int, end as int);
        let r = Date::read_range(bytes, start, end);
        proof {
            match r {
                Some(d) => {
                    lemma_day_of_text_is_exact(t);
                },
                None => {
                    assert forall|c: CivilDay| c.wf() implies #[trigger] c.text() != t by {
                        lemma_text_round_trip(c);
                    }
                },
            }
        }
        r
    }

    #[verifier::rlimit(50)]
    fn read_range(bytes: &Vec<u8>, start: usize, end: usize) -> (r: Option<Date>)
        requires
            start <= end <= bytes.len(),
        ensures
            r.is_some() <==> day_of_text(bytes@.subrange(start as int, end as int)).is_some(),
            r.is_some() ==> Some(r.unwrap()@) == day_of_text(
                bytes@.subrange(start as int, end as int),
            ),
    {
        let ghost t = bytes@.subrange(start as int, end as int);
        if end - start != DATE_TEXT_LEN {
            return None;
        }
        assert(forall|i: int| 0 <= i < 10 ==> t[i] == bytes@[start + i]);
        let y3 = digit_value(bytes[start]);
        let y2 = digit_value(bytes[start + 1]);
        let y1 = digit_value(bytes[start + 2]);
        let y0 = digit_value(bytes[start + 3]);
        let m1 = digit_value(bytes[start + 5]);
        let m0 = digit_value(bytes[start + 6]);
        let d1 = digit_value(bytes[start + 8]);
        let d0 = digit_value(bytes[start + 9]);
        if y3.is_none() || y2.is_none() || y1.is_none() || y0.is_none() || m1.is_none()
            || m0.is_none() || d1.is_none() || d0.is_none() || bytes[start + 4] != 45
            || bytes[start + 7] != 45 {
            return None;
        }
        let year: u16 = y3.unwrap() * 1000 + y2.unwrap() * 100 + y1.unwrap() * 10 + y0.unwrap();
        let month: u16 = m1.unwrap() * 10 + m0.unwrap();
        let day: u16 = d1.unwrap() * 10 + d0.unwrap();
        Date::new(year, month as u8, day as u8)
    }

    /// Reads a date from its text.
    pub fn parse(text: &Vec<u8>) -> (r: Option<Date>)
        ensures
            r.is_some() <==> day_of_text(text@).is_some(),
            r.is_some() ==> Some(r.unwrap()@) == day_of_text(text@),
            match r {
                Some(d) => d.wf() && d@.text() == text@,
                None => forall|c: CivilDay| c.wf() ==> #[trigger] c.text() != text@,
            },
    {
        assert(text@.subrange(0, text@.len() as int) =~= text@);
        Date::parse_range(text, 0, text.len())
    }
}

} // verus!
