use vstd::prelude::*;

verus! {

/// A wall-clock reading in some time zone, reduced to the fields that the
/// triggers read. `weekday` counts from Monday as 1 to Sunday as 7.
#[derive(Debug, Clone, Copy, PartialEq, Eq, Structural)]
pub struct CivilTime {
    pub year: i16,
    pub month: i8,
    pub day: i8,
    pub hour: i8,
    pub minute: i8,
    pub weekday: i8,
}

impl CivilTime {
    /// Each field lies in its calendar range.
    pub open spec fn wf(&self) -> bool {
        &&& -9999 <= self.year <= 9999
        &&& 1 <= self.month <= 12
        &&& 1 <= self.day <= 31
        &&& 0 <= self.hour <= 23
        &&& 0 <= self.minute <= 59
        &&& 1 <= self.weekday <= 7
    }

    /// The calendar date of this reading.
    pub open spec fn date(&self) -> (i16, i8, i8) {
        (self.year, self.month, self.day)
    }
}

/// The span between two readings: after `exclusive_start`, when known, up to
/// and including `inclusive_end`.
#[derive(Debug, Clone, Copy, PartialEq, Eq, Structural)]
pub struct Interval {
    pub exclusive_start: Option<CivilTime>,
    pub inclusive_end: CivilTime,
}

/// A scheduling boundary: whether an interval crosses it.
pub trait TimeContains {
    /// The predicate that `matches` computes.
    spec fn contains(&self, interval: Interval) -> bool;

    fn matches(&self, interval: Interval) -> (r: bool)
        ensures
            r == self.contains(interval),
    ;
}

/// The boundary between calendar days: crossed when the start is known and
/// lies on another date than the end.
#[derive(Debug, Clone, Copy)]
pub struct DailyContains;

impl TimeContains for DailyContains {
    open spec fn contains(&self, interval: Interval) -> bool {
        match interval.exclusive_start {
            Some(start) => start.date() != interval.inclusive_end.date(),
            None => false,
        }
    }

    fn matches(&self, interval: Interval) -> (r: bool) {
        match interval.exclusive_start {
            Some(start) => {
                let end = interval.inclusive_end;
                !(start.year == end.year && start.month == end.month && start.day == end.day)
            },
            None => false,
        }
    }
}

/// Turns successive readings into intervals and asks a boundary whether each
/// one crosses it.
#[derive(Debug, Copy)]
pub struct TimePast<C> {
    prev: Option<CivilTime>,
    time_contains: C,
}

impl<C: Copy> Clone for TimePast<C> {
    fn clone(&self) -> (r: Self)
        ensures
            r == *self,
    {
        *self
    }
}

impl<C: TimeContains> TimePast<C> {
    /// The reading polled last, if any.
    pub closed spec fn prev(&self) -> Option<CivilTime> {
        self.prev
    }

    pub closed spec fn boundary(&self) -> C {
        self.time_contains
    }

    /// Whether polling `now` reports a crossing.
    pub open spec fn crosses(self, now: CivilTime) -> bool {
        self.boundary().contains(Interval { exclusive_start: self.prev(), inclusive_end: now })
    }

    pub fn new(time_contains: C) -> (r: Self)
        ensures
            r.prev() is None,
            r.boundary() == time_contains,
    {
        TimePast { prev: None, time_contains }
    }

    /// Asks whether the span from the reading polled last to `now` crosses the
    /// boundary, and keeps `now` as the reading polled last.
    pub fn poll(&mut self, now: CivilTime) -> (r: bool)
        ensures
            r == old(self).crosses(now),
            final(self).prev() == Some(now),
            final(self).boundary() == old(self).boundary(),
    {
        let interval = Interval { exclusive_start: self.prev, inclusive_end: now };
        self.prev = Some(now);
        self.time_contains.matches(interval)
    }
}

/// The day boundary seen through polling: the first poll never fires, and a
/// poll fires exactly when its date differs from that of the poll before it.
pub proof fn lemma_daily_polls(first: CivilTime, prev: CivilTime, now: CivilTime)
    ensures
        !DailyContains.contains(Interval { exclusive_start: None, inclusive_end: first }),
        DailyContains.contains(Interval { exclusive_start: Some(prev), inclusive_end: now })
            <==> prev.date() != now.date(),
{
}

/// Relies on jiff's `Zoned::try_from` on `SystemTime::now()` for the current
/// time in the system time zone (an error where the clock lies outside the
/// years jiff supports), and on the getters of `Zoned` and
/// `Weekday::to_monday_one_offset` for the ranges they document.
#[verifier::external_body]
pub(crate) fn now_civil() -> (r: Option<CivilTime>)
    ensures
        r matches Some(t) ==> t.wf(),
{
    let z = jiff::Zoned::try_from(std::time::SystemTime::now()).ok()?;
    Some(
        CivilTime {
            year: z.year(),
            month: z.month(),
            day: z.day(),
            hour: z.hour(),
            minute: z.minute(),
            weekday: z.weekday().to_monday_one_offset(),
        },
    )
}

} // verus!
