//! Calendar dates and the due-date text of a task.
use vstd::prelude::*;

verus! {

/// A day of the proleptic Gregorian calendar.
#[derive(Clone, Copy, Debug, PartialEq, Eq, Structural)]
pub struct Date {
    pub year: u32,
    pub month: u8,
    pub day: u8,
}

pub open spec fn is_leap(y: int) -> bool {
    (y % 4 == 0 && y % 100 != 0) || y % 400 == 0
}

pub open spec fn days_in_month(y: int, m: int) -> int {
    if m == 2 {
        if is_leap(y) { 29 } else { 28 }
    } else if m == 4 || m == 6 || m == 9 || m == 11 {
        30
    } else {
        31
    }
}

impl Date {
    /// A real day, with a four-digit year.
    pub open spec fn wf(self) -> bool {
        &&& 1 <= self.year <= 9999
        &&& 1 <= self.month <= 12
        &&& 1 <= self.day <= days_in_month(self.year as int, self.month as int)
    }

    /// Calendar order: `self` is a strictly earlier day than `o`.
    pub open spec fn before(self, o: Date) -> bool {
        ||| self.year < o.year
        ||| self.year == o.year && self.month < o.month
        ||| self.year == o.year && self.month == o.month && self.day < o.day
    }

    pub fn is_before(&self, o: &Date) -> (r: bool)
        ensures
            r == self.before(*o),
    {
        self.year < o.year || (self.year == o.year && (self.month < o.month || (self.month
            == o.month && self.day < o.day)))
    }
}

pub fn month_length(y: u32, m: u8) -> (r: u8)
    ensures
        r == days_in_month(y as int, m as int),
{
    if m == 2 {
        if (y % 4 == 0 && y % 100 != 0) || y % 400 == 0 {
            29
        } else {
            28
        }
    } else if m == 4 || m == 6 || m == 9 || m == 11 {
        30
    } else {
        31
    }
}

/// The day after `d`.
pub open spec fn next_day(d: Date) -> Date {
    if (d.day as int) < days_in_month(d.year as int, d.month as int) {
        Date { day: (d.day + 1) as u8, ..d }
    } else if d.month < 12 {
        Date { year: d.year, month: (d.month + 1) as u8, day: 1 }
    } else {
        Date { year: (d.year + 1) as u32, month: 1, day: 1 }
    }
}

/// The day before `d`.
pub open spec fn prev_day(d: Date) -> Date {
    if d.day > 1 {
        Date { day: (d.day - 1) as u8, ..d }
    } else if d.month > 1 {
        Date {
            year: d.year,
            month: (d.month - 1) as u8,
            day: days_in_month(d.year as int, d.month - 1) as u8,
        }
    } else {
        Date { year: (d.year - 1) as u32, month: 12, day: 31 }
    }
}

pub fn day_after(d: Date) -> (r: Date)
    requires
        d.wf(),
    ensures
        r == next_day(d),
{
    if d.day < month_length(d.year, d.month) {
        Date { day: d.day + 1, ..d }
    } else if d.month < 12 {
        Date { year: d.year, month: d.month + 1, day: 1 }
    } else {
        Date { year: d.year + 1, month: 1, day: 1 }
    }
}

pub fn day_before(d: Date) -> (r: Date)
    requires
        d.wf(),
    ensures
        r == prev_day(d),
{
    if d.day > 1 {
        Date { day: d.day - 1, ..d }
    } else if d.month > 1 {
        Date { year: d.year, month: d.month - 1, day: month_length(d.year, d.month - 1) }
    } else {
        Date { year: d.year - 1, month: 12, day: 31 }
    }
}


/// A due date as the remote service writes it: a calendar day, and, where
/// the task is due at a set time, the seconds since midnight. `utc` marks a
/// time given in UTC (text ending in `Z`); otherwise the time is local.
#[derive(Clone, Copy, Debug, PartialEq, Eq)]
pub struct DueAt {
    pub date: Date,
    pub seconds: Option<u32>,
    pub utc: bool,
}

/// A point on the local calendar: a day and, where known, the seconds since
/// its midnight.
#[derive(Clone, Copy, Debug, PartialEq, Eq)]
pub struct Moment {
    pub date: Date,
    pub seconds: Option<u32>,
}

/// What the caller knows of "now" in the configured time zone: today's date
/// there, and the zone's offset from UTC in seconds (east positive).
#[derive(Clone, Copy, Debug, PartialEq, Eq)]
pub struct LocalClock {
    pub today: Date,
    pub utc_offset: i32,
}

impl LocalClock {
    pub open spec fn wf(self) -> bool {
        &&& self.today.wf()
        &&& -86400 < self.utc_offset < 86400
    }
}

pub open spec fn is_digit(b: u8) -> bool {
    48 <= b <= 57
}

pub open spec fn digits_at(b: Seq<u8>, i: int, n: int) -> bool {
    forall|k: int| i <= k < i + n ==> #[trigger] is_digit(b[k])
}

pub open spec fn num2(b: Seq<u8>, i: int) -> int {
    (b[i] - 48) * 10 + (b[i + 1] - 48)
}

pub open spec fn num4(b: Seq<u8>, i: int) -> int {
    num2(b, i) * 100 + num2(b, i + 2)
}

/// `YYYY-MM-DD` at the start of `b`.
pub open spec fn date_shape(b: Seq<u8>) -> bool {
    &&& b.len() >= 10
    &&& digits_at(b, 0, 4)
    &&& b[4] == 45
    &&& digits_at(b, 5, 2)
    &&& b[7] == 45
    &&& digits_at(b, 8, 2)
}

pub open spec fn date_of_text(b: Seq<u8>) -> Date {
    Date { year: num4(b, 0) as u32, month: num2(b, 5) as u8, day: num2(b, 8) as u8 }
}

/// `THH:MM:SS` right after the date.
pub open spec fn time_shape(b: Seq<u8>) -> bool {
    &&& b.len() >= 19
    &&& b[10] == 84
    &&& digits_at(b, 11, 2)
    &&& b[13] == 58
    &&& digits_at(b, 14, 2)
    &&& b[16] == 58
    &&& digits_at(b, 17, 2)
    &&& num2(b, 11) < 24
    &&& num2(b, 14) < 60
    &&& num2(b, 17) < 60
}

pub open spec fn seconds_of_text(b: Seq<u8>) -> int {
    num2(b, 11) * 3600 + num2(b, 14) * 60 + num2(b, 17)
}

/// The due date written as `YYYY-MM-DD`, `YYYY-MM-DDTHH:MM:SS` (local time)
/// or `YYYY-MM-DDTHH:MM:SSZ` (UTC); `None` for any other text or a day that
/// does not exist.
pub open spec fn due_of_bytes(b: Seq<u8>) -> Option<DueAt> {
    if !date_shape(b) || !date_of_text(b).wf() {
        None
    } else if b.len() == 10 {
        Some(DueAt { date: date_of_text(b), seconds: None, utc: false })
    } else if time_shape(b) && (b.len() == 19 || (b.len() == 20 && b[19] == 90)) {
        Some(
            DueAt {
                date: date_of_text(b),
                seconds: Some(seconds_of_text(b) as u32),
                utc: b.len() == 20,
            },
        )
    } else {
        None
    }
}

pub open spec fn due_of_text(s: Seq<char>) -> Option<DueAt> {
    due_of_bytes(vstd::utf8::encode_utf8(s))
}

/// Where a due date falls on the local calendar of a zone `offset` seconds
/// east of UTC: a UTC time is moved by the offset, possibly to the next or
/// the previous day; a local time or a bare day stays as written.
pub open spec fn local_moment(due: DueAt, offset: int) -> Moment {
    match due.seconds {
        Some(s) if due.utc => {
            let t = s + offset;
            if t < 0 {
                Moment { date: prev_day(due.date), seconds: Some((t + 86400) as u32) }
            } else if t >= 86400 {
                Moment { date: next_day(due.date), seconds: Some((t - 86400) as u32) }
            } else {
                Moment { date: due.date, seconds: Some(t as u32) }
            }
        },
        _ => Moment { date: due.date, seconds: due.seconds },
    }
}

/// Order of moments: by day, and within a day a bare day first, then by time.
pub open spec fn moment_before(p: Moment, q: Moment) -> bool {
    ||| p.date.before(q.date)
    ||| p.date == q.date && match (p.seconds, q.seconds) {
        (None, Some(_)) => true,
        (Some(x), Some(y)) => x < y,
        _ => false,
    }
}

proof fn lemma_num2_range(b: Seq<u8>, i: int)
    requires
        0 <= i,
        i + 2 <= b.len(),
        digits_at(b, i, 2),
    ensures
        0 <= num2(b, i) <= 99,
{
    assert(is_digit(b[i]));
    assert(is_digit(b[i + 1]));
}

fn digit_at(b: &[u8], i: usize) -> (r: Option<u32>)
    requires
        i < b@.len(),
    ensures
        r is Some <==> is_digit(b@[i as int]),
        r is Some ==> r->0 == b@[i as int] - 48,
{
    let c = b[i];
    if 48 <= c && c <= 57 {
        Some((c - 48) as u32)
    } else {
        None
    }
}

fn two_digits(b: &[u8], i: usize) -> (r: Option<u32>)
    requires
        i + 2 <= b@.len(),
        i <= 20,
    ensures
        r is Some <==> digits_at(b@, i as int, 2),
        r is Some ==> r->0 == num2(b@, i as int),
{
    match (digit_at(b, i), digit_at(b, i + 1)) {
        (Some(x), Some(y)) => {
            proof {
                assert forall|k: int| i <= k < i + 2 implies #[trigger] is_digit(b@[k]) by {
                    if k == i + 1 {
                    }
                }
            }
            Some(x * 10 + y)
        },
        _ => None,
    }
}

/// Reads a due date written as `due_of_bytes` describes.
pub fn parse_due(text: &str) -> (r: Option<DueAt>)
    ensures
        r == due_of_text(text@),
{
    let b = text.as_bytes();
    let n = b.len();
    if n < 10 {
        return None;
    }
    let y1 = two_digits(b, 0);
    let y2 = two_digits(b, 2);
    let mo = two_digits(b, 5);
    let d = two_digits(b, 8);
    if y1.is_none() || y2.is_none() || mo.is_none() || d.is_none() || b[4] != 45 || b[7] != 45 {
        proof {
            if y1.is_none() {
                assert(!digits_at(b@, 0, 2));
            } else if y2.is_none() {
                assert(!digits_at(b@, 2, 2));
            }
        }
        return None;
    }
    proof {
        lemma_num2_range(b@, 0);
        lemma_num2_range(b@, 2);
        lemma_num2_range(b@, 5);
        lemma_num2_range(b@, 8);
    }
    let year = y1.unwrap() * 100 + y2.unwrap();
    let month = mo.unwrap();
    let day = d.unwrap();
    proof {
        assert(digits_at(b@, 0, 4)) by {
            assert(digits_at(b@, 0, 2));
            assert(digits_at(b@, 2, 2));
        }
    }
    if year < 1 || month < 1 || month > 12 || day < 1 || day > month_length(year, month as u8)
        as u32 {
        return None;
    }
    let date = Date { year, month: month as u8, day: day as u8 };
    assert(date == date_of_text(b@));
    if n == 10 {
        return Some(DueAt { date, seconds: None, utc: false });
    }
    if n != 19 && !(n == 20 && b[19] == 90) {
        return None;
    }
    let h = two_digits(b, 11);
    let mi = two_digits(b, 14);
    let s = two_digits(b, 17);
    if b[10] != 84 || b[13] != 58 || b[16] != 58 || h.is_none() || mi.is_none() || s.is_none() {
        return None;
    }
    let (h, mi, s) = (h.unwrap(), mi.unwrap(), s.unwrap());
    proof {
        lemma_num2_range(b@, 11);
        lemma_num2_range(b@, 14);
        lemma_num2_range(b@, 17);
    }
    if h >= 24 || mi >= 60 || s >= 60 {
        return None;
    }
    Some(DueAt { date, seconds: Some(h * 3600 + mi * 60 + s), utc: n == 20 })
}

/// Where `due` falls on the local calendar of `clock`'s zone.
pub fn to_local(due: &DueAt, clock: &LocalClock) -> (r: Moment)
    requires
        due.date.wf(),
        due.seconds is Some ==> due.seconds->0 < 86400,
        clock.wf(),
    ensures
        r == local_moment(*due, clock.utc_offset as int),
{
    match due.seconds {
        Some(s) if due.utc => {
            let t: i64 = s as i64 + clock.utc_offset as i64;
            if t < 0 {
                Moment { date: day_before(due.date), seconds: Some((t + 86400) as u32) }
            } else if t >= 86400 {
                Moment { date: day_after(due.date), seconds: Some((t - 86400) as u32) }
            } else {
                Moment { date: due.date, seconds: Some(t as u32) }
            }
        },
        _ => Moment { date: due.date, seconds: due.seconds },
    }
}

pub fn is_moment_before(p: &Moment, q: &Moment) -> (r: bool)
    ensures
        r == moment_before(*p, *q),
{
    if p.date.is_before(&q.date) {
        true
    } else if p.date == q.date {
        match (p.seconds, q.seconds) {
            (None, Some(_)) => true,
            (Some(x), Some(y)) => x < y,
            _ => false,
        }
    } else {
        false
    }
}

/// A parsed due date is a real day, and its time lies within that day.
pub proof fn lemma_due_wf(b: Seq<u8>)
    ensures
        due_of_bytes(b) matches Some(d) ==> d.date.wf() && (d.seconds is Some ==> d.seconds->0
            < 86400),
{
    if date_shape(b) && date_of_text(b).wf() && b.len() != 10 && time_shape(b) {
        lemma_num2_range(b, 11);
        lemma_num2_range(b, 14);
        lemma_num2_range(b, 17);
    }
}

} // verus!
