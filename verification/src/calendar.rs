//! The weekly hours of a market.

use vstd::prelude::*;

verus! {

/// Nanoseconds in one minute.
pub const NS_PER_MINUTE: u64 = 60_000_000_000;

/// Minutes in one week.
pub const MINUTES_PER_WEEK: i64 = 10_080;

/// The minute of the week, counted from Sunday's midnight, at which the epoch
/// falls: a Thursday's midnight.
pub const EPOCH_WEEK_MINUTE: i64 = 5_760;

/// A part of each week, from one minute up to another.
#[derive(Clone, Copy, Debug, PartialEq, Eq, Structural)]
pub struct WeeklyWindow {
    pub start_minute: u32,
    pub end_minute: u32,
}

/// The hours of a market. The minutes of the week are local, and count from
/// Sunday's midnight. The day may have a minute at which positions settle.
#[derive(Clone, Debug, PartialEq, Eq)]
pub struct SessionCalendar {
    pub utc_offset_minutes: i32,
    pub open_windows: Vec<WeeklyWindow>,
    pub settlement_minute_of_day: Option<u32>,
}

/// The local minute of the week at an instant.
pub open spec fn week_minute(ts: u64, utc_offset_minutes: i32) -> int {
    (ts as int / NS_PER_MINUTE as int + utc_offset_minutes + EPOCH_WEEK_MINUTE)
        % MINUTES_PER_WEEK as int
}

/// Whether a minute of the week is in a window.
pub open spec fn within(window: WeeklyWindow, minute: int) -> bool {
    window.start_minute <= minute < window.end_minute
}

impl SessionCalendar {
    /// Whether the market is open at an instant.
    pub open spec fn opens(self, ts: u64) -> bool {
        exists|i: int|
            0 <= i < self.open_windows@.len() && within(
                #[trigger] self.open_windows@[i],
                week_minute(ts, self.utc_offset_minutes),
            )
    }

    /// Whether the market is open at an instant.
    pub fn is_open(&self, ts: u64) -> (answer: bool)
        ensures
            answer == self.opens(ts),
    {
        let minutes: i64 = (ts / NS_PER_MINUTE) as i64;
        let shifted: i64 = minutes + self.utc_offset_minutes as i64 + EPOCH_WEEK_MINUTE;
        let rest: i64 = if shifted >= 0 {
            shifted % MINUTES_PER_WEEK
        } else {
            let below: i64 = (-shifted) % MINUTES_PER_WEEK;
            if below == 0 {
                0
            } else {
                MINUTES_PER_WEEK - below
            }
        };
        assert(rest == week_minute(ts, self.utc_offset_minutes)) by {
            if shifted < 0 {
                let below = (-shifted) as int % 10_080;
                let times = (-shifted) as int / 10_080;
                assert(-shifted == 10_080 * times + below);
                if below == 0 {
                    assert(shifted == 10_080 * (-times));
                } else {
                    assert(shifted == 10_080 * (-times - 1) + (10_080 - below));
                }
            }
        }
        let mut i: usize = 0;
        while i < self.open_windows.len()
            invariant
                i <= self.open_windows.len(),
                0 <= rest < 10_080,
                rest == week_minute(ts, self.utc_offset_minutes),
                forall|k: int|
                    0 <= k < i ==> !within(#[trigger] self.open_windows@[k], rest as int),
            decreases self.open_windows.len() - i,
        {
            let window = self.open_windows[i];
            if window.start_minute as i64 <= rest && rest < window.end_minute as i64 {
                assert(within(self.open_windows@[i as int], rest as int));
                return true;
            }
            i += 1;
        }
        false
    }
}

/// Whether a market, which may have no hours, is open at an instant.
pub open spec fn open_at(calendar: Option<&SessionCalendar>, ts: u64) -> bool {
    calendar is Some ==> calendar->0.opens(ts)
}

/// Whether a market is open from one instant to another, at each between them.
pub open spec fn stays_open(calendar: Option<&SessionCalendar>, from: u64, until: u64) -> bool {
    &&& open_at(calendar, from)
    &&& open_at(calendar, until)
    &&& forall|ts: u64| from <= ts <= until ==> #[trigger] open_at(calendar, ts)
}

/// Two instants of one minute are open or closed alike.
pub proof fn a_minute_is_open_or_closed(
    calendar: Option<&SessionCalendar>,
    one: u64,
    other: u64,
)
    requires
        one / NS_PER_MINUTE == other / NS_PER_MINUTE,
    ensures
        open_at(calendar, one) == open_at(calendar, other),
{
}

/// Whether a market is open from one instant to another. It is enough to look
/// at both, and at each minute that starts between them.
pub fn open_throughout(calendar: Option<&SessionCalendar>, from: u64, until: u64) -> (answer: bool)
    ensures
        answer == stays_open(calendar, from, until),
{
    let hours = match calendar {
        Some(hours) => hours,
        None => {
            return true;
        },
    };
    if !hours.is_open(from) || !hours.is_open(until) {
        assert(!(open_at(calendar, from) && open_at(calendar, until)));
        return false;
    }
    let mut minute: u64 = from / NS_PER_MINUTE + 1;
    let last: u64 = until / NS_PER_MINUTE;
    while minute <= last && minute * NS_PER_MINUTE < until
        invariant
            calendar == Some(hours),
            last == until / NS_PER_MINUTE,
            from / NS_PER_MINUTE + 1 <= minute <= u64::MAX / NS_PER_MINUTE + 1,
            open_at(calendar, from),
            open_at(calendar, until),
            forall|ts: u64|
                from <= ts && ts / NS_PER_MINUTE < minute ==> #[trigger] open_at(calendar, ts),
        decreases u64::MAX / NS_PER_MINUTE + 1 - minute,
    {
        let ts: u64 = minute * NS_PER_MINUTE;
        if !hours.is_open(ts) {
            assert(!open_at(calendar, ts));
            assert(from <= ts <= until);
            return false;
        }
        assert forall|other: u64|
            from <= other && other / NS_PER_MINUTE < minute + 1 implies #[trigger] open_at(
            calendar,
            other,
        ) by {
            if other / NS_PER_MINUTE == minute {
                assert(ts / NS_PER_MINUTE == minute);
                a_minute_is_open_or_closed(calendar, other, ts);
            }
        }
        minute += 1;
    }
    assert forall|ts: u64| from <= ts <= until implies #[trigger] open_at(calendar, ts) by {
        if ts / NS_PER_MINUTE >= minute {
            assert(minute <= last);
            assert(minute * NS_PER_MINUTE == until);
            assert(ts == until);
        }
    }
    true
}

/// The epoch fell on a Thursday at midnight in UTC: the local minute of the week
/// is as many minutes after the fifth midnight as have passed since, moved by the
/// offset, and weeks do not tell.
pub proof fn the_epoch_was_a_thursday(ts: u64, utc_offset_minutes: i32, week: int)
    requires
        0 <= ts as int / 60_000_000_000 + utc_offset_minutes + 4 * 24 * 60 - week * 7 * 24 * 60 < 7
            * 24 * 60,
    ensures
        week_minute(ts, utc_offset_minutes) == ts as int / 60_000_000_000 + utc_offset_minutes + 4
            * 24 * 60 - week * 7 * 24 * 60,
{
    let minutes = ts as int / 60_000_000_000 + utc_offset_minutes + 5_760;
    let rest = minutes - week * 10_080;
    vstd::arithmetic::div_mod::lemma_fundamental_div_mod_converse(minutes, 10_080, week, rest);
}

/// A market is open just in its windows: from the first minute of one up to, and
/// not with, its last.
pub proof fn a_market_is_open_in_its_windows(calendar: SessionCalendar, ts: u64, i: int)
    requires
        0 <= i < calendar.open_windows@.len(),
    ensures
        calendar.open_windows@[i].start_minute <= week_minute(ts, calendar.utc_offset_minutes)
            < calendar.open_windows@[i].end_minute ==> calendar.opens(ts),
        (forall|k: int|
            0 <= k < calendar.open_windows@.len() ==> !(((
            #[trigger] calendar.open_windows@[k]).start_minute <= week_minute(
                ts,
                calendar.utc_offset_minutes,
            )) && week_minute(ts, calendar.utc_offset_minutes)
                < calendar.open_windows@[k].end_minute)) ==> !calendar.opens(ts),
{
    if calendar.open_windows@[i].start_minute <= week_minute(ts, calendar.utc_offset_minutes)
        < calendar.open_windows@[i].end_minute {
        assert(within(
            calendar.open_windows@[i],
            week_minute(ts, calendar.utc_offset_minutes),
        ));
    }
}

/// A market without hours is always open, one with hours just in its windows, and
/// it stays open for as long as it is open at every instant from the first to the
/// last.
pub proof fn a_market_stays_open_while_it_is_open(
    calendar: Option<&SessionCalendar>,
    from: u64,
    until: u64,
)
    requires
        from <= until,
    ensures
        calendar is None ==> stays_open(calendar, from, until),
        calendar is Some ==> stays_open(calendar, from, until) == forall|ts: u64|
            from <= ts <= until ==> #[trigger] calendar->0.opens(ts),
{
    if calendar is Some {
        assert forall|ts: u64| #[trigger] open_at(calendar, ts) == calendar->0.opens(ts) by {}
        if stays_open(calendar, from, until) {
            assert forall|ts: u64| from <= ts <= until implies #[trigger] calendar->0.opens(ts) by {
                assert(open_at(calendar, ts));
            }
        }
    }
}

} // verus!
