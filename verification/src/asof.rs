//! What the fixed times measure of a tape as a whole: at each boundary, how the
//! quote that stood there moved since the boundary before.

use vstd::prelude::*;

use crate::calendar::SessionCalendar;
use crate::horizons::after_quote;
use crate::horizons::at_end;
use crate::horizons::boundaries_rise;
use crate::horizons::boundary;
use crate::horizons::measured_at;
use crate::horizons::passed;
use crate::horizons::since;
use crate::horizons::unquoted;
use crate::horizons::Horizon;
use crate::horizons::Horizons;
use crate::horizons::LONG_HORIZON_S;
use crate::horizons::NS_PER_S;
use crate::horizons::SHORT_HORIZON_S;
use crate::parents::Book;
use crate::parents::Observation;

verus! {

/// The quote that stands at an instant: the last one at or before it.
pub open spec fn as_of(quotes: Seq<(u64, Book)>, at: int) -> Option<Book>
    decreases quotes.len(),
{
    if quotes.len() == 0 {
        None
    } else if quotes.last().0 <= at {
        Some(quotes.last().1)
    } else {
        as_of(quotes.drop_last(), at)
    }
}

/// Whether no quote comes before an earlier one.
pub open spec fn in_time(quotes: Seq<(u64, Book)>) -> bool {
    forall|i: int, j: int|
        0 <= i <= j < quotes.len() ==> (#[trigger] quotes[i]).0 <= (#[trigger] quotes[j]).0
}

/// What is measured at a boundary of a tape.
pub open spec fn at_boundary(
    seconds: u64,
    quotes: Seq<(u64, Book)>,
    start: u64,
    k: int,
    calendar: Option<&SessionCalendar>,
) -> Seq<Observation> {
    measured_at(
        seconds,
        boundary(seconds, k, start),
        as_of(quotes, boundary(seconds, k - 1, start)),
        as_of(quotes, boundary(seconds, k, start)),
        calendar,
    )
}

/// What is measured at the boundaries from one up to another.
pub open spec fn at_boundaries(
    seconds: u64,
    quotes: Seq<(u64, Book)>,
    start: u64,
    from: int,
    to: int,
    calendar: Option<&SessionCalendar>,
) -> Seq<Observation>
    decreases to - from,
{
    if from >= to {
        Seq::empty()
    } else {
        at_boundary(seconds, quotes, start, from, calendar) + at_boundaries(
            seconds,
            quotes,
            start,
            from + 1,
            to,
            calendar,
        )
    }
}

/// The boundaries of a span, counted from one.
pub open spec fn boundaries_in(seconds: u64, start: u64, end: u64) -> int {
    if end < start || seconds == 0 {
        0
    } else {
        (end - start) / (seconds * NS_PER_S)
    }
}

/// Both fixed times after the quotes of a tape, and what was measured.
pub open spec fn told(
    quotes: Seq<(u64, Book)>,
    start: u64,
    calendar: Option<&SessionCalendar>,
) -> (Horizons, Seq<Observation>)
    decreases quotes.len(),
{
    if quotes.len() == 0 {
        (unquoted(), Seq::empty())
    } else {
        let (before, seen) = told(quotes.drop_last(), start, calendar);
        let (after, more) = after_quote(
            before,
            quotes.last().0,
            quotes.last().1,
            start,
            calendar,
        );
        (after, seen + more)
    }
}

/// What was measured of one fixed time.
pub open spec fn of_horizon(seen: Seq<Observation>, seconds: u64) -> Seq<Observation>
    decreases seen.len(),
{
    if seen.len() == 0 {
        Seq::empty()
    } else {
        let before = of_horizon(seen.drop_last(), seconds);
        match seen.last() {
            Observation::HorizonReturn { seconds: of, .. } if of == seconds => before.push(
                seen.last(),
            ),
            _ => before,
        }
    }
}

/// What was measured of one fixed time is told apart on either side.
pub(crate) proof fn parted(a: Seq<Observation>, b: Seq<Observation>, seconds: u64)
    ensures
        of_horizon(a + b, seconds) == of_horizon(a, seconds) + of_horizon(b, seconds),
    decreases b.len(),
{
    if b.len() == 0 {
        assert(a + b =~= a);
        assert(of_horizon(a, seconds) + of_horizon(b, seconds) =~= of_horizon(a, seconds));
    } else {
        parted(a, b.drop_last(), seconds);
        assert((a + b).drop_last() =~= a + b.drop_last());
        assert((a + b).last() == b.last());
        assert(of_horizon(a + b, seconds) =~= of_horizon(a, seconds) + of_horizon(b, seconds));
    }
}

proof fn one_is_its_own(
    seconds: u64,
    at: int,
    from: Option<Book>,
    to: Option<Book>,
    calendar: Option<&SessionCalendar>,
    other: u64,
)
    ensures
        of_horizon(measured_at(seconds, at, from, to, calendar), other) == (if other == seconds {
            measured_at(seconds, at, from, to, calendar)
        } else {
            Seq::empty()
        }),
{
    let here = measured_at(seconds, at, from, to, calendar);
    if here.len() > 0 {
        assert(here.drop_last() =~= Seq::<Observation>::empty());
        assert(of_horizon(here.drop_last(), other) =~= Seq::<Observation>::empty());
        assert(here =~= Seq::<Observation>::empty().push(here.last()));
    }
}

/// What is measured in passing boundaries is all of the one fixed time.
proof fn all_of_one(
    horizon: Horizon,
    limit: int,
    last: Option<Book>,
    at_start: Option<Book>,
    start: u64,
    calendar: Option<&SessionCalendar>,
    other: u64,
)
    ensures
        of_horizon(passed(horizon, limit, last, at_start, start, calendar).1, other) == (if other
            == horizon.seconds {
            passed(horizon, limit, last, at_start, start, calendar).1
        } else {
            Seq::empty()
        }),
    decreases
            (if limit > boundary(horizon.seconds, horizon.next_k as int, start) {
                limit - boundary(horizon.seconds, horizon.next_k as int, start)
            } else {
                0
            }),
{
    let at = boundary(horizon.seconds, horizon.next_k as int, start);
    if at >= limit || horizon.seconds == 0 || horizon.next_k == u64::MAX {
    } else {
        boundaries_rise(horizon.seconds, horizon.next_k as int, start);
        let from = since(horizon.prev, at_start);
        let next = Horizon {
            seconds: horizon.seconds,
            next_k: (horizon.next_k + 1) as u64,
            prev: last,
        };
        let here = measured_at(horizon.seconds, at, from, last, calendar);
        let more = passed(next, limit, last, at_start, start, calendar).1;
        one_is_its_own(horizon.seconds, at, from, last, calendar, other);
        all_of_one(next, limit, last, at_start, start, calendar, other);
        parted(here, more, other);
        assert(passed(horizon, limit, last, at_start, start, calendar).1 == here + more);
        assert(Seq::<Observation>::empty() + Seq::<Observation>::empty() =~= Seq::<
            Observation,
        >::empty());
    }
}

proof fn boundaries_join(
    seconds: u64,
    quotes: Seq<(u64, Book)>,
    start: u64,
    a: int,
    b: int,
    c: int,
    calendar: Option<&SessionCalendar>,
)
    requires
        a <= b <= c,
    ensures
        at_boundaries(seconds, quotes, start, a, b, calendar) + at_boundaries(
            seconds,
            quotes,
            start,
            b,
            c,
            calendar,
        ) == at_boundaries(seconds, quotes, start, a, c, calendar),
    decreases b - a,
{
    if a == b {
        assert(Seq::<Observation>::empty() + at_boundaries(seconds, quotes, start, b, c, calendar)
            =~= at_boundaries(seconds, quotes, start, b, c, calendar));
    } else {
        boundaries_join(seconds, quotes, start, a + 1, b, c, calendar);
        let here = at_boundary(seconds, quotes, start, a, calendar);
        let some = at_boundaries(seconds, quotes, start, a + 1, b, calendar);
        let rest = at_boundaries(seconds, quotes, start, b, c, calendar);
        assert((here + some) + rest =~= here + (some + rest));
    }
}

/// A boundary is below another just where it is counted before it.
proof fn boundaries_are_ordered(seconds: u64, j: int, k: int, start: u64)
    requires
        seconds > 0,
        j <= k,
    ensures
        boundary(seconds, j, start) <= boundary(seconds, k, start),
        j < k ==> boundary(seconds, j, start) < boundary(seconds, k, start),
        boundary(seconds, 0, start) == start,
{
    let span = seconds * NS_PER_S;
    assert(j * span <= k * span) by (nonlinear_arith)
        requires
            j <= k,
            span > 0,
    ;
    assert(j < k ==> j * span < k * span) by (nonlinear_arith)
        requires
            span > 0,
    ;
}

proof fn counts_stay_small(seconds: u64, k: int, start: u64, limit: int)
    requires
        seconds >= 60,
        boundary(seconds, k, start) < limit,
        limit <= 0x1_0000_0000_0000_0000,
    ensures
        k < 0x4_0000_0000,
{
    let span = seconds * NS_PER_S;
    assert(k < 0x4_0000_0000) by (nonlinear_arith)
        requires
            start >= 0,
            start + k * span < 0x1_0000_0000_0000_0000,
            span >= 60_000_000_000,
    ;
}

/// Where the last quote stands at every boundary up to a limit, passing them
/// measures them as of the tape.
proof fn passing_measures_the_tape(
    horizon: Horizon,
    limit: int,
    last: Option<Book>,
    at_start: Option<Book>,
    start: u64,
    calendar: Option<&SessionCalendar>,
    quotes: Seq<(u64, Book)>,
)
    requires
        horizon.seconds >= 60,
        horizon.next_k >= 1,
        limit <= 0x1_0000_0000_0000_0000,
        forall|k: int|
            horizon.next_k <= k && #[trigger] boundary(horizon.seconds, k, start) < limit
                ==> as_of(quotes, boundary(horizon.seconds, k, start)) == last,
        boundary(horizon.seconds, horizon.next_k as int, start) < limit ==> since(
            horizon.prev,
            at_start,
        ) == as_of(quotes, boundary(horizon.seconds, horizon.next_k - 1, start)),
        last is None && limit > start ==> at_start is None,
    ensures
        ({
            let (after, more) = passed(horizon, limit, last, at_start, start, calendar);
            &&& after.seconds == horizon.seconds
            &&& after.next_k >= horizon.next_k
            &&& boundary(after.seconds, after.next_k as int, start) >= limit
            &&& after.next_k > horizon.next_k ==> boundary(
                after.seconds,
                after.next_k - 1,
                start,
            ) < limit && after.prev == last
            &&& after.next_k == horizon.next_k ==> after == horizon
            &&& more == at_boundaries(
                horizon.seconds,
                quotes,
                start,
                horizon.next_k as int,
                after.next_k as int,
                calendar,
            )
        }),
    decreases
            (if limit > boundary(horizon.seconds, horizon.next_k as int, start) {
                limit - boundary(horizon.seconds, horizon.next_k as int, start)
            } else {
                0
            }),
{
    let k = horizon.next_k as int;
    let at = boundary(horizon.seconds, k, start);
    if at < limit {
        boundaries_are_ordered(horizon.seconds, 0, k, start);
        counts_stay_small(horizon.seconds, k, start, limit);
        boundaries_rise(horizon.seconds, k, start);
        let next = Horizon {
            seconds: horizon.seconds,
            next_k: (horizon.next_k + 1) as u64,
            prev: last,
        };
        passing_measures_the_tape(next, limit, last, at_start, start, calendar, quotes);
    }
}

/// A quote changes nothing of what stood before it.
proof fn later_quotes_leave_the_past(quotes: Seq<(u64, Book)>, at: int)
    requires
        quotes.len() > 0,
        at < quotes.last().0,
    ensures
        as_of(quotes, at) == as_of(quotes.drop_last(), at),
{
}

proof fn the_past_measures_alike(
    seconds: u64,
    quotes: Seq<(u64, Book)>,
    start: u64,
    from: int,
    to: int,
    calendar: Option<&SessionCalendar>,
)
    requires
        quotes.len() > 0,
        seconds > 0,
        from < to ==> boundary(seconds, to - 1, start) < quotes.last().0,
    ensures
        at_boundaries(seconds, quotes, start, from, to, calendar) == at_boundaries(
            seconds,
            quotes.drop_last(),
            start,
            from,
            to,
            calendar,
        ),
    decreases to - from,
{
    if from < to {
        boundaries_are_ordered(seconds, from, to - 1, start);
        boundaries_are_ordered(seconds, from - 1, from, start);
        later_quotes_leave_the_past(quotes, boundary(seconds, from, start));
        later_quotes_leave_the_past(quotes, boundary(seconds, from - 1, start));
        the_past_measures_alike(seconds, quotes, start, from + 1, to, calendar);
    }
}

/// Where one fixed time stands after the quotes of a tape.
spec fn stands(
    horizon: Horizon,
    seconds: u64,
    quotes: Seq<(u64, Book)>,
    start: u64,
    seen: Seq<Observation>,
    calendar: Option<&SessionCalendar>,
) -> bool {
    &&& horizon.seconds == seconds
    &&& horizon.next_k >= 1
    &&& horizon.next_k > 1 ==> quotes.len() > 0 && boundary(seconds, horizon.next_k - 1, start)
        < quotes.last().0
    &&& quotes.len() > 0 ==> quotes.last().0 <= boundary(seconds, horizon.next_k as int, start)
    &&& horizon.prev == (if horizon.next_k == 1 {
        None
    } else {
        as_of(quotes, boundary(seconds, horizon.next_k - 1, start))
    })
    &&& of_horizon(seen, seconds) == at_boundaries(
        seconds,
        quotes,
        start,
        1,
        horizon.next_k as int,
        calendar,
    )
}

/// Where both fixed times stand after the quotes of a tape.
spec fn both_stand(
    horizons: Horizons,
    quotes: Seq<(u64, Book)>,
    start: u64,
    seen: Seq<Observation>,
    calendar: Option<&SessionCalendar>,
) -> bool {
    &&& stands(horizons.short, SHORT_HORIZON_S, quotes, start, seen, calendar)
    &&& stands(horizons.long, LONG_HORIZON_S, quotes, start, seen, calendar)
    &&& horizons.last == (if quotes.len() == 0 {
        None
    } else {
        Some(quotes.last().1)
    })
    &&& horizons.frozen == (quotes.len() > 0 && quotes.last().0 > start)
    &&& horizons.at_start == (if horizons.frozen {
        as_of(quotes, start as int)
    } else {
        None
    })
}

/// A tape without a quote at an instant has none before it.
proof fn none_before_none(quotes: Seq<(u64, Book)>, early: int, late: int)
    requires
        early <= late,
        as_of(quotes, late) is None,
    ensures
        as_of(quotes, early) is None,
    decreases quotes.len(),
{
    if quotes.len() > 0 {
        none_before_none(quotes.drop_last(), early, late);
    }
}

/// Where all quotes are passed, the last one stands.
proof fn the_last_stands(quotes: Seq<(u64, Book)>, at: int)
    requires
        quotes.len() > 0 ==> quotes.last().0 <= at,
    ensures
        as_of(quotes, at) == (if quotes.len() == 0 {
            None
        } else {
            Some(quotes.last().1)
        }),
{
}

/// One fixed time passes the boundaries up to a limit.
proof fn one_passes(
    horizon: Horizon,
    seconds: u64,
    quotes: Seq<(u64, Book)>,
    start: u64,
    seen: Seq<Observation>,
    calendar: Option<&SessionCalendar>,
    limit: int,
    at_start: Option<Book>,
    last: Option<Book>,
)
    requires
        stands(horizon, seconds, quotes, start, seen, calendar),
        seconds >= 60,
        limit <= 0x1_0000_0000_0000_0000,
        quotes.len() > 0 ==> quotes.last().0 <= limit,
        limit > start ==> at_start == as_of(quotes, start as int),
        last == (if quotes.len() == 0 {
            None
        } else {
            Some(quotes.last().1)
        }),
    ensures
        ({
            let (after, more) = passed(horizon, limit, last, at_start, start, calendar);
            &&& after.seconds == seconds
            &&& after.next_k >= horizon.next_k
            &&& boundary(seconds, after.next_k as int, start) >= limit
            &&& after.next_k > 1 ==> boundary(seconds, after.next_k - 1, start) < limit
            &&& after.prev == (if after.next_k == 1 {
                None
            } else {
                as_of(quotes, boundary(seconds, after.next_k - 1, start))
            })
            &&& of_horizon(seen, seconds) + more == at_boundaries(
                seconds,
                quotes,
                start,
                1,
                after.next_k as int,
                calendar,
            )
        }),
{
    let k0 = horizon.next_k as int;
    boundaries_are_ordered(seconds, 0, k0, start);
    assert forall|k: int| k0 <= k && #[trigger] boundary(seconds, k, start) < limit implies as_of(
        quotes,
        boundary(seconds, k, start),
    ) == last by {
        boundaries_are_ordered(seconds, k0, k, start);
        the_last_stands(quotes, boundary(seconds, k, start));
    }
    if boundary(seconds, k0, start) < limit {
        let before = boundary(seconds, k0 - 1, start);
        boundaries_are_ordered(seconds, 0, k0 - 1, start);
        if as_of(quotes, before) is None {
            none_before_none(quotes, start as int, before);
        }
    }
    if last is None {
        the_last_stands(quotes, start as int);
    }
    passing_measures_the_tape(horizon, limit, last, at_start, start, calendar, quotes);
    let (after, more) = passed(horizon, limit, last, at_start, start, calendar);
    boundaries_join(seconds, quotes, start, 1, k0, after.next_k as int, calendar);
    if after.next_k > horizon.next_k {
        assert(boundary(seconds, after.next_k - 1, start) < limit);
        assert(as_of(quotes, boundary(seconds, after.next_k - 1, start)) == last);
    }
}

/// One fixed time after one more quote.
proof fn one_takes_a_quote(
    horizon: Horizon,
    seconds: u64,
    quotes: Seq<(u64, Book)>,
    start: u64,
    seen: Seq<Observation>,
    calendar: Option<&SessionCalendar>,
    at_start: Option<Book>,
    last: Option<Book>,
    all: Seq<Observation>,
)
    requires
        quotes.len() > 0,
        in_time(quotes),
        seconds >= 60,
        stands(horizon, seconds, quotes.drop_last(), start, seen, calendar),
        quotes.last().0 > start ==> at_start == as_of(quotes.drop_last(), start as int),
        last == (if quotes.len() == 1 {
            None
        } else {
            Some(quotes.drop_last().last().1)
        }),
        of_horizon(all, seconds) == of_horizon(seen, seconds) + passed(
            horizon,
            quotes.last().0 as int,
            last,
            at_start,
            start,
            calendar,
        ).1,
    ensures
        stands(
            passed(horizon, quotes.last().0 as int, last, at_start, start, calendar).0,
            seconds,
            quotes,
            start,
            all,
            calendar,
        ),
{
    let held = quotes.drop_last();
    let limit = quotes.last().0 as int;
    if held.len() > 0 {
        assert(held.last() == quotes[quotes.len() - 2]);
    }
    one_passes(horizon, seconds, held, start, seen, calendar, limit, at_start, last);
    let after = passed(horizon, limit, last, at_start, start, calendar).0;
    the_past_measures_alike(seconds, quotes, start, 1, after.next_k as int, calendar);
    if after.next_k > 1 {
        later_quotes_leave_the_past(quotes, boundary(seconds, after.next_k - 1, start));
    }
}

proof fn seen_with(a: Seq<Observation>, b: Seq<Observation>, c: Seq<Observation>, seconds: u64)
    ensures
        of_horizon(a + (b + c), seconds) == of_horizon(a, seconds) + (of_horizon(b, seconds)
            + of_horizon(c, seconds)),
{
    parted(b, c, seconds);
    parted(a, b + c, seconds);
}

proof fn both_are_told(
    quotes: Seq<(u64, Book)>,
    start: u64,
    calendar: Option<&SessionCalendar>,
)
    requires
        in_time(quotes),
    ensures
        both_stand(
            told(quotes, start, calendar).0,
            quotes,
            start,
            told(quotes, start, calendar).1,
            calendar,
        ),
    decreases quotes.len(),
{
    if quotes.len() > 0 {
        let held = quotes.drop_last();
        assert(in_time(held)) by {
            assert forall|i: int, j: int| 0 <= i <= j < held.len() implies (#[trigger] held[i]).0
                <= (#[trigger] held[j]).0 by {
                assert(held[i] == quotes[i] && held[j] == quotes[j]);
            }
        }
        both_are_told(held, start, calendar);
        let (before, seen) = told(held, start, calendar);
        let ts = quotes.last().0;
        if held.len() > 0 {
            assert(held.last() == quotes[quotes.len() - 2]);
        }
        let freezes = ts > start && !before.frozen;
        let at_start = if freezes {
            before.last
        } else {
            before.at_start
        };
        if freezes {
            the_last_stands(held, start as int);
        }
        let some = passed(before.short, ts as int, before.last, at_start, start, calendar).1;
        let more = passed(before.long, ts as int, before.last, at_start, start, calendar).1;
        all_of_one(
            before.short,
            ts as int,
            before.last,
            at_start,
            start,
            calendar,
            SHORT_HORIZON_S,
        );
        all_of_one(
            before.short,
            ts as int,
            before.last,
            at_start,
            start,
            calendar,
            LONG_HORIZON_S,
        );
        all_of_one(before.long, ts as int, before.last, at_start, start, calendar, SHORT_HORIZON_S);
        all_of_one(before.long, ts as int, before.last, at_start, start, calendar, LONG_HORIZON_S);
        seen_with(seen, some, more, SHORT_HORIZON_S);
        seen_with(seen, some, more, LONG_HORIZON_S);
        let all = seen + (some + more);
        assert(some + Seq::<Observation>::empty() =~= some);
        assert(Seq::<Observation>::empty() + more =~= more);
        one_takes_a_quote(
            before.short,
            SHORT_HORIZON_S,
            quotes,
            start,
            seen,
            calendar,
            at_start,
            before.last,
            all,
        );
        one_takes_a_quote(
            before.long,
            LONG_HORIZON_S,
            quotes,
            start,
            seen,
            calendar,
            at_start,
            before.last,
            all,
        );
        if ts > start {
            later_quotes_leave_the_past(quotes, start as int);
        }
    }
}

/// The boundaries that are passed by the end are those of the span.
proof fn the_span_is_passed(seconds: u64, start: u64, end: u64, next_k: int)
    requires
        seconds >= 60,
        next_k >= 1,
        boundary(seconds, next_k, start) >= end + 1,
        next_k > 1 ==> boundary(seconds, next_k - 1, start) < end + 1,
    ensures
        next_k == boundaries_in(seconds, start, end) + 1,
{
    let span = seconds * NS_PER_S;
    if end < start {
        if next_k > 1 {
            boundaries_are_ordered(seconds, 0, next_k - 1, start);
        }
    } else {
        let n = (end - start) / span;
        assert(n * span <= end - start < (n + 1) * span) by (nonlinear_arith)
            requires
                n == (end - start) / span,
                span > 0,
        ;
        assert(n + 1 <= next_k) by (nonlinear_arith)
            requires
                n * span <= end - start,
                start + next_k * span >= end + 1,
                span > 0,
        ;
        assert(n >= 0) by (nonlinear_arith)
            requires
                (n + 1) * span > end - start,
                end >= start,
                span > 0,
        ;
        if next_k > 1 {
            assert(next_k - 1 < n + 1) by (nonlinear_arith)
                requires
                    end - start < (n + 1) * span,
                    start + (next_k - 1) * span < end + 1,
                    span > 0,
            ;
        }
    }
}

/// At every boundary of a span what is measured is how the quote that stood
/// there moved since the one that stood at the boundary before, for both fixed
/// times and whenever the quotes came.
pub proof fn the_tape_is_measured_as_of_its_boundaries(
    quotes: Seq<(u64, Book)>,
    start: u64,
    end: u64,
    calendar: Option<&SessionCalendar>,
)
    requires
        in_time(quotes),
        quotes.len() > 0 ==> quotes.last().0 <= end,
    ensures
        ({
            let (horizons, seen) = told(quotes, start, calendar);
            let all = seen + at_end(horizons, start, end, calendar).1;
            &&& of_horizon(all, SHORT_HORIZON_S) == at_boundaries(
                SHORT_HORIZON_S,
                quotes,
                start,
                1,
                boundaries_in(SHORT_HORIZON_S, start, end) + 1,
                calendar,
            )
            &&& of_horizon(all, LONG_HORIZON_S) == at_boundaries(
                LONG_HORIZON_S,
                quotes,
                start,
                1,
                boundaries_in(LONG_HORIZON_S, start, end) + 1,
                calendar,
            )
        }),
{
    both_are_told(quotes, start, calendar);
    let (held, seen) = told(quotes, start, calendar);
    let limit = end + 1;
    let at_start = if held.frozen {
        held.at_start
    } else {
        held.last
    };
    if !held.frozen {
        the_last_stands(quotes, start as int);
    }
    let (short, some) = passed(held.short, limit, held.last, at_start, start, calendar);
    let (long, more) = passed(held.long, limit, held.last, at_start, start, calendar);
    all_of_one(held.short, limit, held.last, at_start, start, calendar, SHORT_HORIZON_S);
    all_of_one(held.short, limit, held.last, at_start, start, calendar, LONG_HORIZON_S);
    all_of_one(held.long, limit, held.last, at_start, start, calendar, SHORT_HORIZON_S);
    all_of_one(held.long, limit, held.last, at_start, start, calendar, LONG_HORIZON_S);
    seen_with(seen, some, more, SHORT_HORIZON_S);
    seen_with(seen, some, more, LONG_HORIZON_S);
    assert(some + Seq::<Observation>::empty() =~= some);
    assert(Seq::<Observation>::empty() + more =~= more);
    one_passes(
        held.short,
        SHORT_HORIZON_S,
        quotes,
        start,
        seen,
        calendar,
        limit,
        at_start,
        held.last,
    );
    one_passes(held.long, LONG_HORIZON_S, quotes, start, seen, calendar, limit, at_start, held.last);
    the_span_is_passed(SHORT_HORIZON_S, start, end, short.next_k as int);
    the_span_is_passed(LONG_HORIZON_S, start, end, long.next_k as int);
}

/// The quote that stands at an instant is the last of those at or before it, and
/// there is none where all come after.
pub proof fn the_last_quote_in_time_stands(quotes: Seq<(u64, Book)>, at: int, i: int)
    requires
        -1 <= i < quotes.len(),
        i >= 0 ==> quotes[i].0 <= at,
        forall|k: int| i < k < quotes.len() ==> (#[trigger] quotes[k]).0 > at,
    ensures
        as_of(quotes, at) == if i >= 0 {
            Some(quotes[i].1)
        } else {
            None
        },
    decreases quotes.len(),
{
    if i < quotes.len() - 1 {
        assert(quotes.last() == quotes[quotes.len() - 1]);
        let held = quotes.drop_last();
        assert forall|k: int| i < k < held.len() implies (#[trigger] held[k]).0 > at by {
            assert(held[k] == quotes[k]);
        }
        if i >= 0 {
            assert(held[i] == quotes[i]);
        }
        the_last_quote_in_time_stands(held, at, i);
    }
}

} // verus!
