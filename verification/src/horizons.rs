//! How the middle of the quotes moves over fixed times.
//!
//! Boundaries lie a fixed time apart from the start of the span on. At each one
//! the last quote at or before it counts, and what is measured is how the
//! middle moved from one boundary to the next, where the market was open all
//! the while.

use vstd::prelude::*;

use crate::calendar::open_throughout;
use crate::calendar::stays_open;
use crate::calendar::SessionCalendar;
use crate::parents::Book;
use crate::parents::Observation;

verus! {

/// The shorter of the two fixed times, in seconds.
pub const SHORT_HORIZON_S: u64 = 60;

/// The longer of the two fixed times, in seconds.
pub const LONG_HORIZON_S: u64 = 300;

/// Nanoseconds in one second.
pub const NS_PER_S: u64 = 1_000_000_000;

/// One fixed time: which boundary comes next, and the quote at the one before.
#[derive(Clone, Copy, Debug, PartialEq, Eq, Structural)]
pub struct Horizon {
    pub seconds: u64,
    pub next_k: u64,
    pub prev: Option<Book>,
}

/// Both fixed times, the last quote, the quote at the start of the span, and
/// whether that one is known.
#[derive(Clone, Copy, Debug, PartialEq, Eq, Structural)]
pub struct Horizons {
    pub short: Horizon,
    pub long: Horizon,
    pub last: Option<Book>,
    pub at_start: Option<Book>,
    pub frozen: bool,
}

/// A boundary that may be past what the clock can tell.
pub open spec fn boundary(seconds: u64, k: int, start: u64) -> int {
    start + k * (seconds * NS_PER_S)
}

/// What is measured at a boundary: how the middle moved since the one before.
pub open spec fn measured_at(
    seconds: u64,
    at: int,
    from: Option<Book>,
    to: Option<Book>,
    calendar: Option<&SessionCalendar>,
) -> Seq<Observation> {
    if from is Some && to is Some && stays_open(
        calendar,
        (at - seconds * NS_PER_S) as u64,
        at as u64,
    ) {
        seq![Observation::HorizonReturn { seconds, from: from->0, to: to->0 }]
    } else {
        Seq::empty()
    }
}

/// The quote that counts at the boundary before: the one at the start of the
/// span, where no boundary had one.
pub open spec fn since(prev: Option<Book>, at_start: Option<Book>) -> Option<Book> {
    if prev is Some {
        prev
    } else {
        at_start
    }
}

/// A fixed time once every boundary before `limit` is passed, and what is
/// measured at them.
pub open spec fn passed(
    horizon: Horizon,
    limit: int,
    last: Option<Book>,
    at_start: Option<Book>,
    start: u64,
    calendar: Option<&SessionCalendar>,
) -> (Horizon, Seq<Observation>)
    decreases
            (if limit > boundary(horizon.seconds, horizon.next_k as int, start) {
                limit - boundary(horizon.seconds, horizon.next_k as int, start)
            } else {
                0
            }),
{
    let at = boundary(horizon.seconds, horizon.next_k as int, start);
    if at >= limit || horizon.seconds == 0 || horizon.next_k == u64::MAX {
        (horizon, Seq::empty())
    } else {
        proof {
            boundaries_rise(horizon.seconds, horizon.next_k as int, start);
        }
        let here = measured_at(
            horizon.seconds,
            at,
            since(horizon.prev, at_start),
            last,
            calendar,
        );
        let next = Horizon {
            seconds: horizon.seconds,
            next_k: (horizon.next_k + 1) as u64,
            prev: last,
        };
        let (after, more) = passed(next, limit, last, at_start, start, calendar);
        (after, here + more)
    }
}

/// Each boundary is one fixed time after the one before.
pub proof fn boundaries_rise(seconds: u64, k: int, start: u64)
    ensures
        boundary(seconds, k + 1, start) == boundary(seconds, k, start) + seconds * NS_PER_S,
{
    assert((k + 1) * (seconds * NS_PER_S) == k * (seconds * NS_PER_S) + seconds * NS_PER_S)
        by (nonlinear_arith);
}

/// Whether a fixed time is one of the two.
pub open spec fn is_fixed(horizon: Horizon) -> bool {
    (horizon.seconds == SHORT_HORIZON_S || horizon.seconds == LONG_HORIZON_S) && 1
        <= horizon.next_k <= 0x4_0000_0000
}

fn pass(
    horizon: &mut Horizon,
    limit: u64,
    last: Option<Book>,
    at_start: Option<Book>,
    start: u64,
    calendar: Option<&SessionCalendar>,
    observations: &mut Vec<Observation>,
)
    requires
        is_fixed(*old(horizon)),
    ensures
        is_fixed(*final(horizon)),
        ({
            let (after, more) = passed(
                *old(horizon),
                limit as int,
                last,
                at_start,
                start,
                calendar,
            );
            *final(horizon) == after && final(observations)@ == old(observations)@ + more
        }),
{
    let ghost first = *horizon;
    let ghost held = observations@;
    let ghost whole = passed(first, limit as int, last, at_start, start, calendar);
    assert(held + passed(first, limit as int, last, at_start, start, calendar).1 =~= held
        + whole.1);
    loop
        invariant
            is_fixed(*horizon),
            passed(*horizon, limit as int, last, at_start, start, calendar).0 == whole.0,
            observations@ + passed(*horizon, limit as int, last, at_start, start, calendar).1
                == held + whole.1,
        ensures
            is_fixed(*horizon),
            *horizon == whole.0,
            observations@ == held + whole.1,
        decreases 0x4_0000_0001 - horizon.next_k,
    {
        let span: u64 = horizon.seconds * NS_PER_S;
        assert(0 <= horizon.next_k * span <= 0x4_0000_0000 * 300_000_000_000) by (nonlinear_arith)
            requires
                0 <= horizon.next_k <= 0x4_0000_0000,
                0 <= span <= 300_000_000_000,
        ;
        let at: u128 = start as u128 + horizon.next_k as u128 * span as u128;
        assert(horizon.next_k * span == horizon.next_k as int * (horizon.seconds * NS_PER_S));
        assert(at == boundary(horizon.seconds, horizon.next_k as int, start));
        if at >= limit as u128 {
            assert(observations@ + Seq::<Observation>::empty() =~= observations@);
            break;
        }
        assert(horizon.next_k < 0x4_0000_0000) by (nonlinear_arith)
            requires
                start + horizon.next_k * span < limit,
                limit <= u64::MAX,
                start >= 0,
                span >= 60_000_000_000,
        ;
        let boundary_ns: u64 = at as u64;
        assert(horizon.next_k * span >= span) by (nonlinear_arith)
            requires
                horizon.next_k >= 1,
                span > 0,
        ;
        let from = match horizon.prev {
            Some(book) => Some(book),
            None => at_start,
        };
        let ghost before = observations@;
        let ghost was = *horizon;
        if let Some(from) = from {
            if let Some(to) = last {
                if open_throughout(calendar, boundary_ns - span, boundary_ns) {
                    observations.push(
                        Observation::HorizonReturn { seconds: horizon.seconds, from, to },
                    );
                }
            }
        }
        horizon.prev = last;
        horizon.next_k = horizon.next_k + 1;
        proof {
            let here = measured_at(was.seconds, at as int, from, last, calendar);
            assert(observations@ =~= before + here);
            let more = passed(*horizon, limit as int, last, at_start, start, calendar).1;
            assert(passed(was, limit as int, last, at_start, start, calendar).1 == here + more);
            assert(observations@ + more =~= before + (here + more));
        }
    }
}

/// Both fixed times after a quote, as far as they depend on it.
pub open spec fn after_quote(
    horizons: Horizons,
    ts: u64,
    book: Book,
    start: u64,
    calendar: Option<&SessionCalendar>,
) -> (Horizons, Seq<Observation>) {
    let freezes = ts > start && !horizons.frozen;
    let at_start = if freezes {
        horizons.last
    } else {
        horizons.at_start
    };
    let (short, some) = passed(
        horizons.short,
        ts as int,
        horizons.last,
        at_start,
        start,
        calendar,
    );
    let (long, more) = passed(horizons.long, ts as int, horizons.last, at_start, start, calendar);
    (
        Horizons {
            short,
            long,
            last: Some(book),
            at_start,
            frozen: horizons.frozen || freezes,
        },
        some + more,
    )
}

/// Both fixed times at the end of the span: the boundaries that no quote came
/// after are passed too.
pub open spec fn at_end(
    horizons: Horizons,
    start: u64,
    end: u64,
    calendar: Option<&SessionCalendar>,
) -> (Horizons, Seq<Observation>) {
    let at_start = if horizons.frozen {
        horizons.at_start
    } else {
        horizons.last
    };
    let (short, some) = passed(horizons.short, end + 1, horizons.last, at_start, start, calendar);
    let (long, more) = passed(horizons.long, end + 1, horizons.last, at_start, start, calendar);
    (
        Horizons { short, long, last: horizons.last, at_start, frozen: horizons.frozen },
        some + more,
    )
}

/// Before any quote.
pub open spec fn unquoted() -> Horizons {
    Horizons {
        short: Horizon { seconds: SHORT_HORIZON_S, next_k: 1, prev: None },
        long: Horizon { seconds: LONG_HORIZON_S, next_k: 1, prev: None },
        last: None,
        at_start: None,
        frozen: false,
    }
}

impl Horizons {
    /// Whether the fixed times are the two.
    pub open spec fn wf(self) -> bool {
        is_fixed(self.short) && is_fixed(self.long)
    }

    /// Before any quote.
    pub fn new() -> (horizons: Horizons)
        ensures
            horizons == unquoted(),
            horizons.wf(),
    {
        Horizons {
            short: Horizon { seconds: SHORT_HORIZON_S, next_k: 1, prev: None },
            long: Horizon { seconds: LONG_HORIZON_S, next_k: 1, prev: None },
            last: None,
            at_start: None,
            frozen: false,
        }
    }

    /// Takes a quote in, and measures what it passes.
    pub fn quote(
        &mut self,
        ts: u64,
        book: Book,
        start: u64,
        calendar: Option<&SessionCalendar>,
    ) -> (observations: Vec<Observation>)
        requires
            old(self).wf(),
        ensures
            final(self).wf(),
            (*final(self), observations@) == after_quote(*old(self), ts, book, start, calendar),
    {
        let mut observations: Vec<Observation> = Vec::new();
        if ts > start && !self.frozen {
            self.at_start = self.last;
            self.frozen = true;
        }
        let last = self.last;
        let at_start = self.at_start;
        let mut short = self.short;
        let mut long = self.long;
        pass(&mut short, ts, last, at_start, start, calendar, &mut observations);
        pass(&mut long, ts, last, at_start, start, calendar, &mut observations);
        self.short = short;
        self.long = long;
        self.last = Some(book);
        assert(observations@ =~= after_quote(*old(self), ts, book, start, calendar).1);
        observations
    }

    /// Passes the boundaries that are left in the span, and measures them.
    pub fn finish(&mut self, start: u64, end: u64, calendar: Option<&SessionCalendar>) -> (
        observations: Vec<Observation>)
        requires
            old(self).wf(),
            end < u64::MAX,
        ensures
            final(self).wf(),
            (*final(self), observations@) == at_end(*old(self), start, end, calendar),
    {
        let mut observations: Vec<Observation> = Vec::new();
        if !self.frozen {
            self.at_start = self.last;
        }
        let last = self.last;
        let at_start = self.at_start;
        let mut short = self.short;
        let mut long = self.long;
        pass(&mut short, end + 1, last, at_start, start, calendar, &mut observations);
        pass(&mut long, end + 1, last, at_start, start, calendar, &mut observations);
        self.short = short;
        self.long = long;
        assert(observations@ =~= at_end(*old(self), start, end, calendar).1);
        observations
    }
}

/// A move is measured at a boundary just where a quote stood there and one stood
/// at the boundary before, and the market was open all the while between them: it
/// is the move from the one to the other.
pub proof fn a_move_is_between_two_quotes(
    seconds: u64,
    at: int,
    from: Option<Book>,
    to: Option<Book>,
    calendar: Option<&SessionCalendar>,
)
    requires
        seconds * 1_000_000_000 <= at <= u64::MAX,
    ensures
        ({
            let seen = measured_at(seconds, at, from, to, calendar);
            let open = stays_open(calendar, (at - seconds * 1_000_000_000) as u64, at as u64);
            &&& from is Some && to is Some && open ==> seen == seq![
                Observation::HorizonReturn { seconds, from: from->0, to: to->0 },
            ]
            &&& from is None || to is None || !open ==> seen.len() == 0
        }),
        forall|k: int, start: u64|
            #![trigger boundary(seconds, k, start)]
            boundary(seconds, k + 1, start) - boundary(seconds, k, start) == seconds
                * 1_000_000_000 && boundary(seconds, 0, start) == start,
{
    assert forall|k: int, start: u64|
        #![trigger boundary(seconds, k, start)]
        boundary(seconds, k + 1, start) - boundary(seconds, k, start) == seconds * 1_000_000_000
            && boundary(seconds, 0, start) == start by {
        let step = seconds * NS_PER_S;
        assert((k + 1) * step == k * step + step) by (nonlinear_arith);
    }
}

} // verus!
