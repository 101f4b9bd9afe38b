//! Times of day and local date-times, held as plain integers.

use vstd::prelude::*;

verus! {

/// Milliseconds in one calendar day.
pub const MS_PER_DAY: i64 = 86_400_000;

/// Bound on the day number of a `DateTime`, in both directions.
pub const DAY_LIMIT: i64 = 2_147_483_648;

/// A clock reading within one day, to the second.
#[derive(Clone, Copy, Debug, PartialEq, Eq, Structural)]
pub struct TimeOfDay {
    pub hour: u32,
    pub minute: u32,
    pub second: u32,
}

impl TimeOfDay {
    pub open spec fn wf(self) -> bool {
        self.hour < 24 && self.minute < 60 && self.second < 60
    }

    /// Milliseconds from midnight to this reading.
    pub open spec fn millis(self) -> int {
        ((self.hour * 60 + self.minute) * 60 + self.second) * 1000
    }

    pub fn midnight() -> (r: TimeOfDay)
        ensures
            r.wf(),
            r.hour == 0 && r.minute == 0 && r.second == 0,
            r.millis() == 0,
    {
        TimeOfDay { hour: 0, minute: 0, second: 0 }
    }

    pub fn to_millis(&self) -> (r: u32)
        requires
            self.wf(),
        ensures
            r == self.millis(),
            r < MS_PER_DAY,
    {
        ((self.hour * 60 + self.minute) * 60 + self.second) * 1000
    }
}

/// A local date-time: a day number and the milliseconds elapsed on that day.
#[derive(Clone, Copy, Debug, PartialEq, Eq, Structural)]
pub struct DateTime {
    pub day: i64,
    pub ms: u32,
}

/// The earliest instant a `DateTime` can hold.
pub open spec fn min_instant() -> int {
    -DAY_LIMIT * MS_PER_DAY
}

/// The latest instant a `DateTime` can hold.
pub open spec fn max_instant() -> int {
    DAY_LIMIT * MS_PER_DAY + MS_PER_DAY - 1
}

impl DateTime {
    pub open spec fn wf(self) -> bool {
        -DAY_LIMIT <= self.day <= DAY_LIMIT && self.ms < MS_PER_DAY
    }

    /// Milliseconds from the midnight that opens day zero.
    pub open spec fn instant(self) -> int {
        self.day * MS_PER_DAY + self.ms
    }

    /// The given clock reading on the given day.
    pub fn on_day(day: i32, time: TimeOfDay) -> (r: DateTime)
        requires
            time.wf(),
        ensures
            r.wf(),
            r.day == day,
            r.ms == time.millis(),
    {
        DateTime { day: day as i64, ms: time.to_millis() }
    }

    /// The same clock reading one day later.
    pub fn next_day(&self) -> (r: DateTime)
        requires
            self.wf(),
            self.day < DAY_LIMIT,
        ensures
            r.wf(),
            r.day == self.day + 1,
            r.ms == self.ms,
            r.instant() == self.instant() + MS_PER_DAY,
    {
        DateTime { day: self.day + 1, ms: self.ms }
    }

    fn to_instant(&self) -> (r: i64)
        requires
            self.wf(),
        ensures
            r == self.instant(),
            min_instant() <= r <= max_instant(),
    {
        proof {
            assert(-DAY_LIMIT * MS_PER_DAY <= self.day * MS_PER_DAY <= DAY_LIMIT * MS_PER_DAY)
                by (nonlinear_arith)
                requires
                    -DAY_LIMIT <= self.day <= DAY_LIMIT,
            ;
        }
        self.day * MS_PER_DAY + self.ms as i64
    }

    /// Milliseconds from `self` to `later` (negative when `later` comes first).
    pub fn millis_until(&self, later: &DateTime) -> (r: i64)
        requires
            self.wf(),
            later.wf(),
        ensures
            r == later.instant() - self.instant(),
    {
        later.to_instant() - self.to_instant()
    }

    /// `self` moved by `delta` milliseconds, or `None` where that instant
    /// lies outside the range a `DateTime` can hold.
    pub fn checked_add_ms(&self, delta: i64) -> (r: Option<DateTime>)
        requires
            self.wf(),
        ensures
            r is None <==> !(min_instant() <= self.instant() + delta <= max_instant()),
            r matches Some(d) ==> d.wf() && d.instant() == self.instant() + delta,
    {
        let base = self.to_instant();
        let lowest: i64 = -DAY_LIMIT * MS_PER_DAY;
        let highest: i64 = DAY_LIMIT * MS_PER_DAY + MS_PER_DAY - 1;
        if delta < lowest - base || delta > highest - base {
            return None;
        }
        let shifted: i64 = base + delta - lowest;
        let day: i64 = shifted / MS_PER_DAY;
        let ms: i64 = shifted % MS_PER_DAY;
        proof {
            assert(shifted == day * MS_PER_DAY + ms);
            assert(day <= 2 * DAY_LIMIT) by (nonlinear_arith)
                requires
                    day == shifted / MS_PER_DAY,
                    0 <= shifted <= 2 * DAY_LIMIT * MS_PER_DAY + MS_PER_DAY - 1,
                    MS_PER_DAY == 86_400_000,
            ;
        }
        Some(DateTime { day: day - DAY_LIMIT, ms: ms as u32 })
    }

    /// The clock reading of this date-time, to the whole second.
    pub fn time_of_day(&self) -> (r: TimeOfDay)
        requires
            self.wf(),
        ensures
            r.wf(),
            r.hour == self.ms / 3_600_000,
            r.minute == (self.ms / 60_000) % 60,
            r.second == (self.ms / 1000) % 60,
    {
        TimeOfDay {
            hour: self.ms / 3_600_000,
            minute: (self.ms / 60_000) % 60,
            second: (self.ms / 1000) % 60,
        }
    }
}

/// The decimal digit for `d < 10`.
pub open spec fn digit_char(d: int) -> char {
    if d == 0 { '0' } else if d == 1 { '1' } else if d == 2 { '2' } else if d == 3 { '3' }
    else if d == 4 { '4' } else if d == 5 { '5' } else if d == 6 { '6' } else if d == 7 { '7' }
    else if d == 8 { '8' } else { '9' }
}

/// `n < 100` written with two digits, zero first where needed.
pub open spec fn two_digits(n: int) -> Seq<char> {
    seq![digit_char(n / 10), digit_char(n % 10)]
}

/// `HH:MM:SS`.
pub open spec fn clock_text(t: TimeOfDay) -> Seq<char> {
    two_digits(t.hour as int) + seq![':'] + two_digits(t.minute as int) + seq![':']
        + two_digits(t.second as int)
}

fn digit_text(d: u32) -> (r: &'static str)
    requires
        d < 10,
    ensures
        r@ == seq![digit_char(d as int)],
{
    proof {
        reveal_strlit("0");
        reveal_strlit("1");
        reveal_strlit("2");
        reveal_strlit("3");
        reveal_strlit("4");
        reveal_strlit("5");
        reveal_strlit("6");
        reveal_strlit("7");
        reveal_strlit("8");
        reveal_strlit("9");
    }
    let r = match d {
        0 => "0",
        1 => "1",
        2 => "2",
        3 => "3",
        4 => "4",
        5 => "5",
        6 => "6",
        7 => "7",
        8 => "8",
        _ => "9",
    };
    assert(r@ =~= seq![digit_char(d as int)]);
    r
}

fn push_two_digits(out: &mut String, n: u32)
    requires
        n < 100,
    ensures
        final(out)@ == old(out)@ + two_digits(n as int),
{
    out.append(digit_text(n / 10));
    out.append(digit_text(n % 10));
    assert(out@ =~= old(out)@ + two_digits(n as int));
}

impl TimeOfDay {
    /// The reading as `HH:MM:SS`.
    pub fn to_text(&self) -> (r: String)
        requires
            self.wf(),
        ensures
            r@ == clock_text(*self),
    {
        proof {
            reveal_strlit(":");
        }
        let mut out = String::new();
        push_two_digits(&mut out, self.hour);
        out.append(":");
        push_two_digits(&mut out, self.minute);
        out.append(":");
        push_two_digits(&mut out, self.second);
        assert(out@ =~= clock_text(*self));
        out
    }
}

} // verus!
