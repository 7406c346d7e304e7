//! Calendar model used throughout the core: a second-precision local
//! timestamp held as plain values, and a weekday type. The only place the
//! wall clock enters the library is through the two trusted wrappers at the
//! bottom; everything else computes on the plain values.

use vstd::prelude::*;

verus! {

/// Seconds in one civil day.
pub open spec fn day_secs() -> int {
    86400
}

/// Largest day number the model admits, comfortably past the range a
/// calendar library produces, while keeping day arithmetic far from `i32`
/// overflow.
pub open spec fn max_day() -> int {
    100_000_000
}

/// A day of the week.
#[derive(Clone, Copy, Debug, PartialEq, Eq, Structural)]
pub enum Weekday {
    Mon,
    Tue,
    Wed,
    Thu,
    Fri,
    Sat,
    Sun,
}

impl Weekday {
    /// Index of this weekday counting Monday as 0 and Sunday as 6.
    pub open spec fn idx(self) -> int {
        match self {
            Weekday::Mon => 0,
            Weekday::Tue => 1,
            Weekday::Wed => 2,
            Weekday::Thu => 3,
            Weekday::Fri => 4,
            Weekday::Sat => 5,
            Weekday::Sun => 6,
        }
    }

    /// Days from Monday to this weekday, 0 through 6.
    pub fn num_from_monday(self) -> (r: u32)
        ensures
            r == self.idx(),
    {
        match self {
            Weekday::Mon => 0,
            Weekday::Tue => 1,
            Weekday::Wed => 2,
            Weekday::Thu => 3,
            Weekday::Fri => 4,
            Weekday::Sat => 5,
            Weekday::Sun => 6,
        }
    }
}

/// A point in local civil time with second precision: a day number in the
/// proleptic Gregorian calendar (January 1 of year 1 is day 1) and the
/// second within that day.
#[derive(Clone, Copy, Debug, PartialEq, Eq, Structural, Hash)]
pub struct Timestamp {
    /// Day count with January 1 of year 1 (CE) as day 1.
    pub days: i32,
    /// Seconds past midnight, below `86400`.
    pub secs: u32,
}

impl Timestamp {
    /// A well-formed timestamp: the second lies within a day and the day
    /// number within the calendar range the model admits.
    pub open spec fn wf(self) -> bool {
        &&& 0 <= self.secs < day_secs()
        &&& -max_day() <= self.days <= max_day()
    }

    /// The timestamp as a single count of seconds, for comparisons.
    pub open spec fn as_secs(self) -> int {
        self.days * day_secs() + self.secs
    }

    pub fn new(days: i32, secs: u32) -> (r: Timestamp)
        requires
            0 <= secs < day_secs(),
            -max_day() <= days <= max_day(),
        ensures
            r == (Timestamp { days, secs }),
            r.wf(),
    {
        Timestamp { days, secs }
    }

    /// `self` is no later than `other`.
    pub fn le(self, other: Timestamp) -> (r: bool)
        requires
            self.wf(),
            other.wf(),
        ensures
            r == (self.as_secs() <= other.as_secs()),
    {
        proof {
            lemma_day_order(self, other);
        }
        self.days < other.days || (self.days == other.days && self.secs <= other.secs)
    }

    /// `self` is strictly earlier than `other`.
    pub fn lt(self, other: Timestamp) -> (r: bool)
        requires
            self.wf(),
            other.wf(),
        ensures
            r == (self.as_secs() < other.as_secs()),
    {
        proof {
            lemma_day_order(self, other);
        }
        self.days < other.days || (self.days == other.days && self.secs < other.secs)
    }

    /// The same time of day, `n` days later.
    pub fn plus_days(self, n: u32) -> (r: Timestamp)
        requires
            self.wf(),
            n <= 7,
        ensures
            r.days == self.days + n,
            r.secs == self.secs,
            r.wf() <==> self.days + n <= max_day(),
    {
        Timestamp { days: self.days + n as i32, secs: self.secs }
    }
}

/// Lexicographic day-then-second order agrees with the flat second count.
proof fn lemma_day_order(a: Timestamp, b: Timestamp)
    requires
        a.wf(),
        b.wf(),
    ensures
        (a.as_secs() <= b.as_secs()) <==> (a.days < b.days || (a.days == b.days && a.secs
            <= b.secs)),
        (a.as_secs() < b.as_secs()) <==> (a.days < b.days || (a.days == b.days && a.secs < b.secs)),
{
    if a.days < b.days {
        assert(a.days * day_secs() + day_secs() <= b.days * day_secs()) by {
            assert((a.days + 1) * day_secs() <= b.days * day_secs()) by (nonlinear_arith)
                requires
                    a.days + 1 <= b.days,
            ;
        }
    }
    if b.days < a.days {
        assert(b.days * day_secs() + day_secs() <= a.days * day_secs()) by {
            assert((b.days + 1) * day_secs() <= a.days * day_secs()) by (nonlinear_arith)
                requires
                    b.days + 1 <= a.days,
            ;
        }
    }
}

/// The current local wall-clock time as a plain timestamp.
///
/// Relies on `chrono::Local::now` together with `Datelike::num_days_from_ce`
/// (day 1 is January 1 of year 1, and chrono's year range keeps the count
/// within a hundred million days) and `Timelike::num_seconds_from_midnight`
/// (documented to lie in 0..=86399). Nothing is promised about which moment
/// comes back.
#[verifier::external_body]
pub fn now_stamp() -> (r: Timestamp)
    ensures
        r.wf(),
{
    let n = chrono::Local::now().naive_local();
    Timestamp {
        days: chrono::Datelike::num_days_from_ce(&n),
        secs: chrono::Timelike::num_seconds_from_midnight(&n),
    }
}

/// The current local day of the week.
///
/// Relies on `chrono::Local::now` and `Datelike::weekday`; the result
/// depends on the wall clock and the machine's time zone, so nothing is
/// promised about which weekday comes back.
#[verifier::external_body]
pub fn today_weekday() -> Weekday {
    match chrono::Datelike::weekday(&chrono::Local::now().date_naive()) {
        chrono::Weekday::Mon => Weekday::Mon,
        chrono::Weekday::Tue => Weekday::Tue,
        chrono::Weekday::Wed => Weekday::Wed,
        chrono::Weekday::Thu => Weekday::Thu,
        chrono::Weekday::Fri => Weekday::Fri,
        chrono::Weekday::Sat => Weekday::Sat,
        chrono::Weekday::Sun => Weekday::Sun,
    }
}

} // verus!
