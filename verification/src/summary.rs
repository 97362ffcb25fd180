//! The summary of a tape: what is counted of its bursts, sizes and quotes, and
//! what is left to be measured in floating point.

use vstd::prelude::*;

use crate::asof::at_boundaries;
use crate::asof::boundaries_in;
use crate::asof::in_time;
use crate::asof::of_horizon;
use crate::asof::parted;
use crate::asof::the_tape_is_measured_as_of_its_boundaries;
use crate::asof::told;
use crate::calendar::SessionCalendar;
use crate::decimal::add_up;
use crate::decimal::aligned_fit;
use crate::decimal::comes_out;
use crate::decimal::comes_to;
use crate::decimal::decimal_key;
use crate::decimal::difference;
use crate::decimal::digits_with_places;
use crate::decimal::divide;
use crate::decimal::finer;
use crate::decimal::half_even;
use crate::decimal::is_quotient;
use crate::decimal::no_whole_number_is_nearer;
use crate::decimal::nearest_whole;
use crate::decimal::quotient;
use crate::decimal::round_off;
use crate::decimal::rounding_is_of_the_quotient;
use crate::decimal::shortest;
use crate::decimal::subtract;
use crate::decimal::sum;
use crate::decimal::ten;
use crate::decimal::ten_adds_up;
use crate::decimal::ten_is_positive;
use crate::decimal::written;
use crate::decimal::Dec;
use crate::horizons::after_quote;
use crate::horizons::at_end;
use crate::horizons::boundaries_rise;
use crate::horizons::boundary;
use crate::horizons::measured_at;
use crate::horizons::passed;
use crate::horizons::since;
use crate::horizons::unquoted;
use crate::horizons::Horizon;
use crate::horizons::Horizons;
use crate::horizons::LONG_HORIZON_S;
use crate::horizons::SHORT_HORIZON_S;
use crate::parents::finish_measured;
use crate::parents::finished;
use crate::parents::measured;
use crate::parents::traded;
use crate::parents::unbroken;
use crate::parents::within_reach;
use crate::parents::Book;
use crate::parents::BookQuote;
use crate::parents::Counts;
use crate::parents::Observation;
use crate::parents::Parents;
use crate::parents::ParentsView;
use crate::tally::a_bump_adds_one;
use crate::tally::at_most;
use crate::tally::bumped;
use crate::tally::total;
use crate::tally::Tally;
use crate::text::decimal;
use crate::ticks::QuoteTick;
use crate::ticks::TickEvent;
use crate::ticks::TradeTick;

verus! {

/// What a summary is of: the least price step, the hours of the market, and the
/// span.
#[derive(Debug)]
pub struct Scope {
    pub tick: Dec,
    pub calendar: Option<SessionCalendar>,
    pub start: u64,
    pub end: u64,
}

/// The hours of the market, where it has any.
pub open spec fn hours(scope: &Scope) -> Option<&SessionCalendar> {
    match &scope.calendar {
        Some(calendar) => Some(calendar),
        None => None,
    }
}

/// How many ticks lie between the prices of a quote, rounded. `None` where no
/// amount is left of the prices, or none is how often the tick goes into it.
pub open spec fn width_of(quote: QuoteTick, tick: Dec) -> Option<u64> {
    match difference(quote.ask_px, quote.bid_px) {
        None => None,
        Some(apart) => match quotient(apart, tick) {
            None => None,
            Some(ticks) => Some(
                if 0 <= nearest_whole(ticks) <= u64::MAX {
                    nearest_whole(ticks) as u64
                } else {
                    u64::MAX
                },
            ),
        },
    }
}

/// The middle of a quote, written out.
pub open spec fn middle_of(quote: QuoteTick) -> Option<Seq<char>> {
    match sum(quote.bid_px, quote.ask_px) {
        None => None,
        Some(both) => match quotient(both, Dec::of_whole(2)) {
            None => None,
            Some(middle) => Some(written(shortest(middle))),
        },
    }
}

/// How far a quote's prices are apart, in the last decimal place of the finer of
/// them.
pub open spec fn spread(quote: QuoteTick) -> int {
    let p = finer(quote.ask_px, quote.bid_px);
    quote.ask_px.aligned(p) - quote.bid_px.aligned(p)
}

/// Whether the width of a quote is told without rounding its quotient: the
/// prices are few digits apart, and either the tick goes into a power of ten, or
/// the prices are whole ticks apart.
pub open spec fn is_even(quote: QuoteTick, tick: Dec) -> bool {
    let p = finer(quote.ask_px, quote.bid_px);
    &&& aligned_fit(quote.ask_px, quote.bid_px, spread(quote))
    &&& -0x1_0000_0000_0000_0000 < spread(quote) < 0x1_0000_0000_0000_0000
    &&& 0 < tick.digits() < 0x1_0000_0000
    &&& tick.places() <= 9
    &&& p <= tick.places() + 19
    &&& 1_000_000_000int % tick.digits() == 0 || (spread(quote) * ten(tick.places())) % (
    tick.digits() * ten(p)) == 0
}

/// How many ticks a number of the last decimal place is, rounded, the even one
/// of two that are as near.
pub open spec fn ticks_in(apart: int, p: nat, tick: Dec) -> int {
    let by = (tick.digits() * ten(p)) as nat;
    if apart >= 0 {
        half_even((apart * ten(tick.places())) as nat, by) as int
    } else {
        -(half_even(((-apart) * ten(tick.places())) as nat, by) as int)
    }
}

/// The width of a quote in ticks.
pub open spec fn even_width(quote: QuoteTick, tick: Dec) -> u64 {
    let ticks = ticks_in(spread(quote), finer(quote.ask_px, quote.bid_px), tick);
    if 0 <= ticks <= u64::MAX {
        ticks as u64
    } else {
        u64::MAX
    }
}

/// Whether an amount is halfway between a quote's prices.
pub open spec fn is_halfway(half: Dec, quote: QuoteTick) -> bool {
    let p = finer(quote.bid_px, quote.ask_px);
    half.digits() * (2 * ten(p)) == (quote.bid_px.aligned(p) + quote.ask_px.aligned(p)) * ten(
        half.places(),
    )
}

/// Whether the prices of a quote leave room to tell its middle exactly.
pub open spec fn has_middle(quote: QuoteTick) -> bool {
    let p = finer(quote.bid_px, quote.ask_px);
    let both = quote.bid_px.aligned(p) + quote.ask_px.aligned(p);
    &&& aligned_fit(quote.bid_px, quote.ask_px, both)
    &&& -0x1_0000_0000_0000_0000 < both < 0x1_0000_0000_0000_0000
    &&& p <= 19
}

/// Whether the middle that is told of a quote is the one halfway.
pub open spec fn middle_is_halfway(quote: QuoteTick) -> bool {
    exists|half: Dec| #[trigger]
        is_halfway(half, quote) && middle_of(quote) == Some(written(shortest(half)))
}

proof fn within_its_places(d: Dec, n: int, p: nat, most: int)
    requires
        d.places() <= p,
        comes_to(d, n, p),
        -most < n < most,
    ensures
        d.aligned(p) == n,
        -most < d.digits() < most,
{
    digits_with_places(d, n, p);
    let t = ten((p - d.places()) as nat) as int;
    ten_is_positive((p - d.places()) as nat);
    let dd = d.digits();
    assert(-most < dd < most) by (nonlinear_arith)
        requires
            t >= 1,
            dd * t == n,
            -most < n < most,
    ;
}

/// The tick goes evenly into the amount that a quote's prices are apart.
proof fn the_tick_goes_in(quote: QuoteTick, tick: Dec, apart: Dec)
    requires
        is_even(quote, tick),
        apart.places() <= finer(quote.ask_px, quote.bid_px),
        comes_to(apart, spread(quote), finer(quote.ask_px, quote.bid_px)),
    ensures
        comes_out(apart, tick),
{
    let p = finer(quote.ask_px, quote.bid_px);
    let d = spread(quote);
    within_its_places(apart, d, p, 0x1_0000_0000_0000_0000);
    let (ad, td) = (apart.digits(), tick.digits());
    if 1_000_000_000int % td == 0 {
        vstd::arithmetic::div_mod::lemma_fundamental_div_mod(1_000_000_000int, td);
        let q = 1_000_000_000int / td;
        assert(ad * 1_000_000_000 == (ad * q) * td) by (nonlinear_arith)
            requires
                1_000_000_000 == td * q,
        ;
        vstd::arithmetic::div_mod::lemma_mod_multiples_basic(ad * q, td);
    } else {
        let tp = ten(tick.places()) as int;
        let by = td * ten(p);
        ten_is_positive(p);
        ten_is_positive(tick.places());
        assert(by > 0) by (nonlinear_arith)
            requires
                by == td * ten(p),
                td > 0,
                ten(p) > 0,
        ;
        vstd::arithmetic::div_mod::lemma_fundamental_div_mod(d * tp, by);
        let w = (d * tp) / by;
        // The digits of the amount, with the tick's places, are whole ticks.
        let (ta, rest) = (
            ten(apart.places()) as int,
            ten((9 - tick.places()) as nat) as int,
        );
        let tpp = ten(p) as int;
        assert(ad * tp == (w * td) * ta) by (nonlinear_arith)
            requires
                ad * tpp == d * ta,
                d * tp == (td * tpp) * w,
                tpp > 0,
        {
            assert((ad * tp) * tpp == (ad * tpp) * tp);
            assert((ad * tpp) * tp == (d * ta) * tp);
            assert((d * ta) * tp == (d * tp) * ta);
            assert((d * tp) * ta == ((w * td) * ta) * tpp);
        }
        ten_adds_up(tick.places(), (9 - tick.places()) as nat);
        assert(ten(9) == 1_000_000_000) by {
            reveal_with_fuel(ten, 10);
        }
        assert(ad * 1_000_000_000 == ((w * ta) * rest) * td) by (nonlinear_arith)
            requires
                tp * rest == 1_000_000_000,
                ad * tp == (w * td) * ta,
        {
            assert(ad * (tp * rest) == (ad * tp) * rest);
        }
        vstd::arithmetic::div_mod::lemma_mod_multiples_basic((w * ta) * rest, td);
    }
}

/// The rounded quotient of the spread and the tick.
proof fn rounded_to_ticks(quote: QuoteTick, tick: Dec, apart: Dec, ticks: Dec)
    requires
        is_even(quote, tick),
        comes_to(apart, spread(quote), finer(quote.ask_px, quote.bid_px)),
        is_quotient(ticks, apart, tick),
    ensures
        nearest_whole(ticks) == ticks_in(
            spread(quote),
            finer(quote.ask_px, quote.bid_px),
            tick,
        ),
{
    let p = finer(quote.ask_px, quote.bid_px);
    let d = spread(quote);
    let (c, tc) = (ticks.digits(), ten(ticks.places()) as int);
    let (ad, ta) = (apart.digits(), ten(apart.places()) as int);
    let (td, tp, tpp) = (tick.digits(), ten(tick.places()) as int, ten(p) as int);
    ten_is_positive(ticks.places());
    ten_is_positive(apart.places());
    ten_is_positive(tick.places());
    ten_is_positive(p);
    let n = d * tp;
    let by = td * tpp;
    assert(by > 0) by (nonlinear_arith)
        requires
            by == td * tpp,
            td > 0,
            tpp > 0,
    ;
    assert(c * by == n * tc) by (nonlinear_arith)
        requires
            c * (td * ta) == (ad * tp) * tc,
            ad * tpp == d * ta,
            by == td * tpp,
            n == d * tp,
            ta > 0,
    {
        assert((c * by) * ta == (c * (td * ta)) * tpp);
        assert((c * (td * ta)) * tpp == ((ad * tp) * tc) * tpp);
        assert(((ad * tp) * tc) * tpp == (ad * tpp) * (tp * tc));
        assert((ad * tpp) * (tp * tc) == (d * ta) * (tp * tc));
        assert((d * ta) * (tp * tc) == (n * tc) * ta);
    }
    assert((d >= 0) == (c >= 0)) by (nonlinear_arith)
        requires
            c * by == (d * tp) * tc,
            by > 0,
            tp > 0,
            tc > 0,
    {
        if d >= 0 {
            assert((d * tp) * tc >= 0);
        } else {
            assert((d * tp) * tc < 0);
        }
    }
    if d >= 0 {
        assert(n >= 0) by (nonlinear_arith)
            requires
                n == d * tp,
                d >= 0,
                tp > 0,
        ;
        rounding_is_of_the_quotient(c as nat, tc as nat, n as nat, by as nat);
    } else {
        assert(-n >= 0 && (-d) * tp == -n) by (nonlinear_arith)
            requires
                n == d * tp,
                d < 0,
                tp > 0,
        ;
        assert((-c) * by == (-n) * tc) by (nonlinear_arith)
            requires
                c * by == n * tc,
        ;
        rounding_is_of_the_quotient((-c) as nat, tc as nat, (-n) as nat, by as nat);
    }
}

fn width(quote: &QuoteTick, tick: Dec) -> (width: Option<u64>)
    ensures
        width == width_of(*quote, tick),
        is_even(*quote, tick) ==> width == Some(even_width(*quote, tick)),
{
    let apart = match subtract(quote.ask_px, quote.bid_px) {
        Some(apart) => apart,
        None => {
            return None;
        },
    };
    proof {
        if is_even(*quote, tick) {
            the_tick_goes_in(*quote, tick, apart);
        }
    }
    let ticks = match divide(apart, tick) {
        Some(ticks) => ticks,
        None => {
            return None;
        },
    };
    proof {
        if is_even(*quote, tick) {
            rounded_to_ticks(*quote, tick, apart, ticks);
        }
    }
    let whole: i128 = round_off(ticks).mantissa();
    if 0 <= whole && whole <= u64::MAX as i128 {
        Some(whole as u64)
    } else {
        Some(u64::MAX)
    }
}

/// Half of what a quote's prices come to is halfway between them.
proof fn half_is_halfway(quote: QuoteTick, both: Dec, two: Dec, half: Dec)
    requires
        two.digits() == 2,
        two.places() == 0,
        comes_to(
            both,
            quote.bid_px.aligned(finer(quote.bid_px, quote.ask_px)) + quote.ask_px.aligned(
                finer(quote.bid_px, quote.ask_px),
            ),
            finer(quote.bid_px, quote.ask_px),
        ),
        is_quotient(half, both, two),
    ensures
        is_halfway(half, quote),
{
    let p = finer(quote.bid_px, quote.ask_px);
    let n = quote.bid_px.aligned(p) + quote.ask_px.aligned(p);
    let (h, th, tpp) = (half.digits(), ten(half.places()) as int, ten(p) as int);
    let (bd, tb) = (both.digits(), ten(both.places()) as int);
    ten_is_positive(both.places());
    assert(ten(0) == 1);
    assert(h * (2 * tpp) == n * th) by (nonlinear_arith)
        requires
            h * (2 * tb) == (bd * 1) * th,
            bd * tpp == n * tb,
            tb > 0,
    {
        assert((h * (2 * tpp)) * tb == (h * (2 * tb)) * tpp);
        assert((h * (2 * tb)) * tpp == (bd * tpp) * th);
        assert((bd * tpp) * th == (n * th) * tb);
    }
}

fn middle(quote: &QuoteTick) -> (middle: Option<String>)
    ensures
        middle is Some == middle_of(*quote) is Some,
        middle is Some ==> middle->0@ == middle_of(*quote)->0,
        has_middle(*quote) ==> middle_is_halfway(*quote),
{
    let both = match add_up(quote.bid_px, quote.ask_px) {
        Some(both) => both,
        None => {
            return None;
        },
    };
    let two = Dec::whole(2);
    proof {
        if has_middle(*quote) {
            let p = finer(quote.bid_px, quote.ask_px);
            within_its_places(
                both,
                quote.bid_px.aligned(p) + quote.ask_px.aligned(p),
                p,
                0x1_0000_0000_0000_0000,
            );
            let bd = both.digits();
            assert(bd * 1_000_000_000 == (bd * 500_000_000) * 2) by (nonlinear_arith);
            vstd::arithmetic::div_mod::lemma_mod_multiples_basic(bd * 500_000_000, 2);
            assert(comes_out(both, two));
        }
    }
    match divide(both, two) {
        Some(half) => {
            proof {
                if has_middle(*quote) {
                    half_is_halfway(*quote, both, two, half);
                }
            }
            Some(decimal_key(half))
        },
        None => None,
    }
}

/// Whether what is told of a quote is told without rounding, as far as it can
/// be.
pub open spec fn is_told_evenly(summary: SummaryView, quote: QuoteTick, scope: Scope) -> bool {
    &&& is_even(quote, scope.tick) ==> width_of(quote, scope.tick) == Some(
        even_width(quote, scope.tick),
    )
    &&& quote.ts_event >= scope.start && summary.first_book_mid is None && has_middle(quote)
        && width_of(quote, scope.tick) is Some ==> middle_is_halfway(quote)
}

/// A summary in the making.
pub struct Summarizer {
    scope: Scope,
    seen: u64,
    over: bool,
    parents: Parents,
    horizons: Horizons,
    sizes: Tally,
    first_book_mid: Option<String>,
}

/// A summary in the making, in the abstract.
pub struct SummaryView {
    /// How many ticks were taken in.
    pub seen: u64,
    /// Whether a tick has come that is not before the end.
    pub over: bool,
    pub parents: ParentsView,
    pub horizons: Horizons,
    /// How often each size traded.
    pub sizes: Map<Seq<char>, u64>,
    /// The middle of the first quote of the span.
    pub first_book_mid: Option<Seq<char>>,
}

/// What became of a tick.
#[derive(Debug)]
pub enum Taken {
    /// It was taken in, and this is to be measured.
    In { observations: Vec<Observation> },
    /// It is not before the end: the walk is over.
    Over,
    /// An amount cannot be told of it.
    OutOfRange,
}

/// Whether a quote's amounts can be told.
pub open spec fn is_told(summary: SummaryView, quote: QuoteTick, scope: Scope) -> bool {
    &&& width_of(quote, scope.tick) is Some
    &&& quote.ts_event >= scope.start && summary.first_book_mid is None ==> middle_of(quote) is Some
}

/// The summary with one more quote: it ends the burst before it.
pub open spec fn with_quote(summary: SummaryView, quote: QuoteTick, scope: Scope) -> SummaryView {
    let book = Book { bid: quote.bid_px, ask: quote.ask_px };
    SummaryView {
        seen: (summary.seen + 1) as u64,
        over: summary.over,
        parents: ParentsView {
            pending: Some(
                BookQuote {
                    book,
                    width_ticks: width_of(quote, scope.tick)->0,
                    bid_sz: quote.bid_sz,
                    ask_sz: quote.ask_sz,
                },
            ),
            ..finished(summary.parents, hours(&scope), scope.start, scope.end)
        },
        horizons: after_quote(summary.horizons, quote.ts_event, book, scope.start, hours(&scope)).0,
        sizes: summary.sizes,
        first_book_mid: if quote.ts_event >= scope.start && summary.first_book_mid is None {
            middle_of(quote)
        } else {
            summary.first_book_mid
        },
    }
}

/// What a quote leaves to be measured.
pub open spec fn quote_measured(
    summary: SummaryView,
    quote: QuoteTick,
    scope: Scope,
) -> Seq<Observation> {
    let book = Book { bid: quote.bid_px, ask: quote.ask_px };
    finish_measured(summary.parents, hours(&scope), scope.start, scope.end) + after_quote(
        summary.horizons,
        quote.ts_event,
        book,
        scope.start,
        hours(&scope),
    ).1
}

/// The summary with one more trade.
pub open spec fn with_trade(summary: SummaryView, trade: TradeTick, scope: Scope) -> SummaryView {
    SummaryView {
        seen: (summary.seen + 1) as u64,
        parents: traded(summary.parents, trade),
        sizes: if scope.start <= trade.ts_event < scope.end {
            bumped(summary.sizes, written(shortest(trade.size)))
        } else {
            summary.sizes
        },
        ..summary
    }
}

/// Before any tick.
pub open spec fn unseen() -> SummaryView {
    SummaryView {
        seen: 0,
        over: false,
        parents: ParentsView {
            pending: None,
            open: None,
            prev: None,
            counts: Counts {
                parents: 0,
                sided_rows: 0,
                single_parents: 0,
                level_count_sum: 0,
                gap_sum_ns: 0,
                eligible_gaps: 0,
            },
            widths: Map::empty(),
            bid_sizes: Map::empty(),
            ask_sizes: Map::empty(),
        },
        horizons: unquoted(),
        sizes: Map::empty(),
        first_book_mid: None,
    }
}

impl View for Summarizer {
    type V = SummaryView;

    closed spec fn view(&self) -> SummaryView {
        SummaryView {
            seen: self.seen,
            over: self.over,
            parents: self.parents@,
            horizons: self.horizons,
            sizes: self.sizes@,
            first_book_mid: match self.first_book_mid {
                Some(middle) => Some(middle@),
                None => None,
            },
        }
    }
}

/// What a summary counted, once it is made.
pub struct Summary {
    pub counts: Counts,
    pub sizes: Tally,
    pub bid_sizes: Tally,
    pub ask_sizes: Tally,
    pub widths: Tally,
    pub first_book_mid: Option<String>,
}

/// What is left to be measured once a walk is over.
pub open spec fn left_to_measure(held: SummaryView, scope: Scope) -> Seq<Observation> {
    finish_measured(held.parents, hours(&scope), scope.start, scope.end) + at_end(
        held.horizons,
        scope.start,
        scope.end,
        hours(&scope),
    ).1
}

/// Whether a summary says what a walk counted.
pub open spec fn is_made(summary: Summary, held: SummaryView, scope: Scope) -> bool {
    let done = finished(held.parents, hours(&scope), scope.start, scope.end);
    &&& summary.counts == done.counts
    &&& summary.sizes@ == held.sizes
    &&& summary.bid_sizes@ == done.bid_sizes
    &&& summary.ask_sizes@ == done.ask_sizes
    &&& summary.widths@ == done.widths
    &&& match (summary.first_book_mid, held.first_book_mid) {
        (Some(middle), Some(said)) => middle@ == said,
        (None, None) => true,
        _ => false,
    }
}

/// A walk over ticks: what it counted, and what it left to be measured on the
/// way. `None` where an amount of a quote cannot be told.
pub open spec fn walked(ticks: Seq<TickEvent>, scope: Scope) -> Option<
    (SummaryView, Seq<Observation>),
>
    decreases ticks.len(),
{
    if ticks.len() == 0 {
        Some((unseen(), Seq::empty()))
    } else {
        match walked(ticks.drop_last(), scope) {
            None => None,
            Some((held, seen)) => if held.over || ticks.last().at() >= scope.end {
                Some((SummaryView { over: true, ..held }, seen))
            } else {
                match ticks.last() {
                    TickEvent::Trade(trade) => Some((with_trade(held, trade, scope), seen)),
                    TickEvent::Quote(quote) => if is_told(held, quote, scope) {
                        Some(
                            (
                                with_quote(held, quote, scope),
                                seen + quote_measured(held, quote, scope),
                            ),
                        )
                    } else {
                        None
                    },
                }
            },
        }
    }
}

impl Summarizer {
    /// Whether no more was counted than the ticks that were taken in can make.
    pub closed spec fn wf(self) -> bool {
        &&& within_reach(self.parents@, self.seen)
        &&& self.horizons.wf()
        &&& at_most(self.sizes@, self.seen)
    }

    /// What the summary is of.
    pub closed spec fn of(self) -> Scope {
        self.scope
    }

    /// Before any tick.
    pub fn new(scope: Scope) -> (summarizer: Summarizer)
        ensures
            summarizer.wf(),
            summarizer.of() == scope,
            summarizer@ == unseen(),
    {
        Summarizer {
            scope,
            seen: 0,
            over: false,
            parents: Parents::new(),
            horizons: Horizons::new(),
            sizes: Tally::new(),
            first_book_mid: None,
        }
    }

    fn quote(&mut self, quote: &QuoteTick) -> (taken: Option<Vec<Observation>>)
        requires
            old(self).wf(),
            old(self)@.seen < u64::MAX,
        ensures
            final(self).wf(),
            final(self).of() == old(self).of(),
            taken is Some == is_told(old(self)@, *quote, old(self).of()),
            is_told_evenly(old(self)@, *quote, old(self).of()),
            taken is Some ==> {
                &&& final(self)@ == with_quote(old(self)@, *quote, old(self).of())
                &&& taken->0@ == quote_measured(old(self)@, *quote, old(self).of())
            },
            taken is None ==> final(self)@ == old(self)@,
    {
        let width_ticks: u64 = match width(quote, self.scope.tick) {
            Some(width_ticks) => width_ticks,
            None => {
                return None;
            },
        };
        let first = quote.ts_event >= self.scope.start && self.first_book_mid.is_none();
        let mut found: Option<String> = None;
        if first {
            match middle(quote) {
                Some(middle) => {
                    found = Some(middle);
                },
                None => {
                    return None;
                },
            }
        }
        let calendar = match &self.scope.calendar {
            Some(calendar) => Some(calendar),
            None => None,
        };
        let book = Book { bid: quote.bid_px, ask: quote.ask_px };
        let mut observations = self.parents.finish(
            calendar,
            self.scope.start,
            self.scope.end,
            Ghost(self.seen),
        );
        self.parents.pending = Some(
            BookQuote { book, width_ticks, bid_sz: quote.bid_sz, ask_sz: quote.ask_sz },
        );
        let mut more = self.horizons.quote(quote.ts_event, book, self.scope.start, calendar);
        observations.append(&mut more);
        if first {
            self.first_book_mid = found;
        }
        self.seen = self.seen + 1;
        Some(observations)
    }

    fn trade(&mut self, trade: &TradeTick)
        requires
            old(self).wf(),
            old(self)@.seen < u64::MAX,
        ensures
            final(self).wf(),
            final(self).of() == old(self).of(),
            final(self)@ == with_trade(old(self)@, *trade, old(self).of()),
    {
        if self.scope.start <= trade.ts_event && trade.ts_event < self.scope.end {
            self.sizes.bump(decimal_key(trade.size).as_str());
        }
        self.parents.trade(*trade, Ghost(self.seen));
        self.seen = self.seen + 1;
    }

    /// Takes a tick in. The first one that is not before the end ends the walk.
    pub fn observe(&mut self, tick: &TickEvent) -> (taken: Taken)
        requires
            old(self).wf(),
            old(self)@.seen < u64::MAX,
        ensures
            final(self).wf(),
            final(self).of() == old(self).of(),
            if old(self)@.over || tick.at() >= old(self).of().end {
                &&& taken is Over
                &&& final(self)@ == (SummaryView { over: true, ..old(self)@ })
            } else {
                match *tick {
                    TickEvent::Trade(trade) => {
                        &&& taken is In
                        &&& taken->observations@ == Seq::<Observation>::empty()
                        &&& final(self)@ == with_trade(old(self)@, trade, old(self).of())
                    },
                    TickEvent::Quote(quote) => is_told_evenly(
                        old(self)@,
                        quote,
                        old(self).of(),
                    ) && if is_told(old(self)@, quote, old(self).of()) {
                        &&& taken is In
                        &&& taken->observations@ == quote_measured(
                            old(self)@,
                            quote,
                            old(self).of(),
                        )
                        &&& final(self)@ == with_quote(old(self)@, quote, old(self).of())
                    } else {
                        &&& taken is OutOfRange
                        &&& final(self)@ == old(self)@
                    },
                }
            },
    {
        if self.over || tick.ts_event() >= self.scope.end {
            self.over = true;
            return Taken::Over;
        }
        match tick {
            TickEvent::Trade(trade) => {
                self.trade(trade);
                Taken::In { observations: Vec::new() }
            },
            TickEvent::Quote(quote) => match self.quote(quote) {
                Some(observations) => Taken::In { observations },
                None => Taken::OutOfRange,
            },
        }
    }

    /// Ends the walk: the burst that is going on is over, and the boundaries
    /// that are left are passed.
    pub fn finish(self) -> (made: (Summary, Vec<Observation>))
        requires
            self.wf(),
            self.of().end < u64::MAX,
        ensures
            is_made(made.0, self@, self.of()),
            made.1@ == left_to_measure(self@, self.of()),
    {
        let Summarizer { scope, seen, over, mut parents, mut horizons, sizes, first_book_mid } = self;
        let calendar = match &scope.calendar {
            Some(calendar) => Some(calendar),
            None => None,
        };
        let mut observations = parents.finish(calendar, scope.start, scope.end, Ghost(seen));
        let mut more = horizons.finish(scope.start, scope.end, calendar);
        observations.append(&mut more);
        let summary = Summary {
            counts: parents.counts,
            sizes,
            bid_sizes: parents.bid_sizes,
            ask_sizes: parents.ask_sizes,
            widths: parents.widths,
            first_book_mid,
        };
        (summary, observations)
    }
}

/// A walk that is over, or that an amount stopped, is not changed by what
/// follows.
proof fn a_stopped_walk_stays(ticks: Seq<TickEvent>, scope: Scope, i: int)
    requires
        0 <= i <= ticks.len(),
        match walked(ticks.take(i), scope) {
            None => true,
            Some((held, seen)) => held.over,
        },
    ensures
        walked(ticks, scope) == walked(ticks.take(i), scope),
    decreases ticks.len(),
{
    if i == ticks.len() {
        assert(ticks.take(i) =~= ticks);
    } else {
        assert(ticks.drop_last().take(i) =~= ticks.take(i));
        a_stopped_walk_stays(ticks.drop_last(), scope, i);
    }
}

/// Whether what is told of a tick is told without rounding, as far as it can be,
/// where the tick is a quote.
pub open spec fn quote_is_told_evenly(ticks: Seq<TickEvent>, scope: Scope, k: int) -> bool {
    match (walked(ticks.take(k), scope), ticks[k]) {
        (Some((held, seen)), TickEvent::Quote(quote)) => is_told_evenly(held, quote, scope),
        _ => true,
    }
}

/// A walk that is over has met its end, and what has met its end stays so.
proof fn an_end_stays(ticks: Seq<TickEvent>, scope: Scope, i: int, j: int)
    requires
        0 <= i <= j <= ticks.len(),
        match walked(ticks.take(i), scope) {
            None => false,
            Some((held, seen)) => held.over,
        },
    ensures
        ended(ticks.take(j), scope.end),
    decreases j,
{
    if i < j {
        assert(ticks.take(j).drop_last() =~= ticks.take(j - 1));
        an_end_stays(ticks, scope, i, j - 1);
    } else {
        over_is_ended(ticks.take(i), scope);
    }
}

proof fn over_is_ended(ticks: Seq<TickEvent>, scope: Scope)
    requires
        walked(ticks, scope) is Some,
    ensures
        (walked(ticks, scope)->0).0.over == ended(ticks, scope.end),
    decreases ticks.len(),
{
    if ticks.len() > 0 {
        over_is_ended(ticks.drop_last(), scope);
    }
}

/// Walks a tape up to the end of the span: what it counts, and all that is to
/// be measured, in order. `None` where an amount of a quote cannot be told.
pub fn summarize(ticks: &Vec<TickEvent>, scope: Scope) -> (made: Option<
    (Summary, Vec<Observation>),
>)
    requires
        scope.end < u64::MAX,
    ensures
        match (walked(ticks@, scope), made) {
            (Some((held, seen)), Some((summary, observations))) => is_made(summary, held, scope)
                && observations@ == seen + left_to_measure(held, scope),
            (None, None) => true,
            _ => false,
        },
        made is Some ==> forall|k: int|
            0 <= k < ticks@.len() && !ended(#[trigger] ticks@.take(k + 1), scope.end)
                ==> quote_is_told_evenly(ticks@, scope, k),
{
    let mut summarizer = Summarizer::new(scope);
    let mut observations: Vec<Observation> = Vec::new();
    let mut i: usize = 0;
    loop
        invariant_except_break
            walked(ticks@.take(i as int), scope) == Some((summarizer@, observations@)),
            summarizer@.seen <= i,
            forall|k: int| 0 <= k < i ==> #[trigger] quote_is_told_evenly(ticks@, scope, k),
        invariant
            i <= ticks.len(),
            summarizer.wf(),
            summarizer.of() == scope,
        ensures
            walked(ticks@, scope) == Some((summarizer@, observations@)),
            forall|k: int|
                0 <= k < ticks@.len() && !ended(#[trigger] ticks@.take(k + 1), scope.end)
                    ==> quote_is_told_evenly(ticks@, scope, k),
        decreases ticks.len() - i,
    {
        if i >= ticks.len() {
            assert(ticks@.take(i as int) =~= ticks@);
            break;
        }
        let ghost before = ticks@.take(i as int);
        let ghost with = ticks@.take(i + 1);
        assert(with.drop_last() =~= before);
        assert(with.last() == ticks@[i as int]);
        match summarizer.observe(&ticks[i]) {
            Taken::In { observations: more } => {
                let mut more = more;
                proof {
                    assert(observations@ + Seq::<Observation>::empty() =~= observations@);
                }
                observations.append(&mut more);
            },
            Taken::Over => {
                proof {
                    a_stopped_walk_stays(ticks@, scope, i + 1);
                    assert forall|k: int|
                        0 <= k < ticks@.len() && !ended(
                            #[trigger] ticks@.take(k + 1),
                            scope.end,
                        ) implies quote_is_told_evenly(ticks@, scope, k) by {
                        if k >= i {
                            an_end_stays(ticks@, scope, i + 1, k + 1);
                        }
                    }
                }
                break;
            },
            Taken::OutOfRange => {
                proof {
                    a_stopped_walk_stays(ticks@, scope, i + 1);
                }
                return None;
            },
        }
        i += 1;
    }
    let (summary, mut rest) = summarizer.finish();
    observations.append(&mut rest);
    Some((summary, observations))
}

/// Nothing that follows the end of the span is read.
pub proof fn what_follows_the_end_is_not_read(
    ticks: Seq<TickEvent>,
    more: Seq<TickEvent>,
    scope: Scope,
)
    requires
        exists|i: int| 0 <= i < ticks.len() && (#[trigger] ticks[i]).at() >= scope.end,
    ensures
        walked(ticks + more, scope) == walked(ticks, scope),
{
    the_end_is_met(ticks, scope);
    assert((ticks + more).take(ticks.len() as int) =~= ticks);
    a_stopped_walk_stays(ticks + more, scope, ticks.len() as int);
}

proof fn the_end_is_met(ticks: Seq<TickEvent>, scope: Scope)
    requires
        exists|i: int| 0 <= i < ticks.len() && (#[trigger] ticks[i]).at() >= scope.end,
    ensures
        match walked(ticks, scope) {
            None => true,
            Some((held, seen)) => held.over,
        },
    decreases ticks.len(),
{
    let i = choose|i: int| 0 <= i < ticks.len() && (#[trigger] ticks[i]).at() >= scope.end;
    if i < ticks.len() - 1 {
        assert(ticks.drop_last()[i] == ticks[i]);
        the_end_is_met(ticks.drop_last(), scope);
    }
}

/// Whether the counts of bursts agree with each other.
pub open spec fn agree(counts: Counts) -> bool {
    &&& counts.single_parents <= counts.parents <= counts.level_count_sum <= counts.sided_rows
    &&& counts.eligible_gaps <= if counts.parents == 0 {
        0
    } else {
        counts.parents - 1
    }
    &&& counts.gap_sum_ns <= counts.eligible_gaps * 0xffff_ffff_ffff_ffff
}

/// How many trades of the span a walk meets before its end.
pub open spec fn trades_met(ticks: Seq<TickEvent>, scope: Scope) -> nat
    decreases ticks.len(),
{
    if ticks.len() == 0 {
        0
    } else {
        let before = trades_met(ticks.drop_last(), scope);
        match ticks.last() {
            TickEvent::Trade(trade) if !ended(ticks, scope.end) && trade.ts_event >= scope.start =>
                before + 1,
            _ => before,
        }
    }
}

/// Whether the widths and the sizes of the quotes that bursts are measured
/// against are counted once for each burst.
pub open spec fn counted_once(parents: ParentsView) -> bool {
    &&& parents.widths.dom().finite() && total(parents.widths) == parents.counts.parents
    &&& parents.bid_sizes.dom().finite() && total(parents.bid_sizes) == parents.counts.parents
    &&& parents.ask_sizes.dom().finite() && total(parents.ask_sizes) == parents.counts.parents
}

proof fn a_burst_is_counted_once(parents: ParentsView, scope: Scope, seen: u64)
    requires
        within_reach(parents, seen),
        counted_once(parents),
        seen < u64::MAX,
    ensures
        counted_once(finished(parents, hours(&scope), scope.start, scope.end)),
{
    if let Some(parent) = parents.open {
        a_bump_adds_one(parents.widths, decimal(parent.quote.width_ticks as nat));
        a_bump_adds_one(parents.bid_sizes, written(shortest(parent.quote.bid_sz)));
        a_bump_adds_one(parents.ask_sizes, written(shortest(parent.quote.ask_sz)));
    }
}

proof fn a_walk_counts(ticks: Seq<TickEvent>, scope: Scope)
    requires
        ticks.len() < u64::MAX,
    ensures
        match walked(ticks, scope) {
            None => true,
            Some((held, seen)) => {
                &&& held.seen <= ticks.len()
                &&& held.over == ended(ticks, scope.end)
                &&& within_reach(held.parents, held.seen)
                &&& agree(held.parents.counts)
                &&& held.parents.prev is Some == (held.parents.counts.parents > 0)
                &&& agree(finished(held.parents, hours(&scope), scope.start, scope.end).counts)
                &&& counted_once(held.parents)
                &&& counted_once(finished(held.parents, hours(&scope), scope.start, scope.end))
                &&& at_most(held.sizes, held.seen)
                &&& held.sizes.dom().finite()
                &&& total(held.sizes) == trades_met(ticks, scope)
            },
        },
    decreases ticks.len(),
{
    if ticks.len() > 0 {
        a_walk_counts(ticks.drop_last(), scope);
        if let Some((held, seen)) = walked(ticks.drop_last(), scope) {
            if !held.over && ticks.last().at() < scope.end {
                if let TickEvent::Trade(trade) = ticks.last() {
                    a_bump_adds_one(held.sizes, written(shortest(trade.size)));
                }
            }
        }
    }
    if let Some((held, seen)) = walked(ticks, scope) {
        a_burst_is_counted_once(held.parents, scope, held.seen);
    }
}

/// Each burst is counted once by the width of its quote and by the size on
/// either side of it, and each trade of the span once by its size.
pub proof fn everything_is_counted_once(ticks: Seq<TickEvent>, scope: Scope)
    requires
        ticks.len() < u64::MAX,
        walked(ticks, scope) is Some,
    ensures
        ({
            let held = (walked(ticks, scope)->0).0;
            let done = finished(held.parents, hours(&scope), scope.start, scope.end);
            &&& total(done.widths) == done.counts.parents
            &&& total(done.bid_sizes) == done.counts.parents
            &&& total(done.ask_sizes) == done.counts.parents
            &&& total(held.sizes) == trades_met(ticks, scope)
        }),
{
    a_walk_counts(ticks, scope);
}

/// Every burst that a summary counts has at least one trade and one price, and
/// no more prices than trades, and there are fewer gaps between bursts than
/// bursts.
pub proof fn a_burst_has_a_trade_and_a_price(ticks: Seq<TickEvent>, scope: Scope)
    requires
        ticks.len() < u64::MAX,
        walked(ticks, scope) is Some,
    ensures
        agree(
            finished(
                (walked(ticks, scope)->0).0.parents,
                hours(&scope),
                scope.start,
                scope.end,
            ).counts,
        ),
{
    a_walk_counts(ticks, scope);
}

/// How many moves from one burst to the next are to be measured.
pub open spec fn mid_returns(seen: Seq<Observation>) -> nat
    decreases seen.len(),
{
    if seen.len() == 0 {
        0
    } else {
        mid_returns(seen.drop_last()) + if seen.last() is MidReturn {
            1nat
        } else {
            0
        }
    }
}

proof fn moves_add_up(one: Seq<Observation>, other: Seq<Observation>)
    ensures
        mid_returns(one + other) == mid_returns(one) + mid_returns(other),
    decreases other.len(),
{
    if other.len() == 0 {
        assert(one + other =~= one);
    } else {
        assert((one + other).drop_last() =~= one + other.drop_last());
        moves_add_up(one, other.drop_last());
    }
}

/// A fixed time measures no move from one burst to the next.
proof fn a_fixed_time_is_of_no_burst(
    horizon: Horizon,
    limit: int,
    last: Option<Book>,
    at_start: Option<Book>,
    start: u64,
    calendar: Option<&SessionCalendar>,
)
    ensures
        mid_returns(passed(horizon, limit, last, at_start, start, calendar).1) == 0,
    decreases
            (if limit > boundary(horizon.seconds, horizon.next_k as int, start) {
                limit - boundary(horizon.seconds, horizon.next_k as int, start)
            } else {
                0
            }),
{
    let at = boundary(horizon.seconds, horizon.next_k as int, start);
    if !(at >= limit || horizon.seconds == 0 || horizon.next_k == u64::MAX) {
        boundaries_rise(horizon.seconds, horizon.next_k as int, start);
        let here = measured_at(
            horizon.seconds,
            at,
            since(horizon.prev, at_start),
            last,
            calendar,
        );
        let next = Horizon {
            seconds: horizon.seconds,
            next_k: (horizon.next_k + 1) as u64,
            prev: last,
        };
        a_fixed_time_is_of_no_burst(next, limit, last, at_start, start, calendar);
        let more = passed(next, limit, last, at_start, start, calendar).1;
        reveal_with_fuel(mid_returns, 3);
        moves_add_up(here, more);
    }
}

proof fn a_quote_is_of_no_burst(
    horizons: Horizons,
    ts: u64,
    book: Book,
    start: u64,
    end: u64,
    calendar: Option<&SessionCalendar>,
)
    ensures
        mid_returns(after_quote(horizons, ts, book, start, calendar).1) == 0,
        mid_returns(at_end(horizons, start, end, calendar).1) == 0,
{
    let frozen = if ts > start && !horizons.frozen {
        horizons.last
    } else {
        horizons.at_start
    };
    let (short, long, last) = (horizons.short, horizons.long, horizons.last);
    a_fixed_time_is_of_no_burst(short, ts as int, last, frozen, start, calendar);
    a_fixed_time_is_of_no_burst(long, ts as int, last, frozen, start, calendar);
    moves_add_up(
        passed(short, ts as int, last, frozen, start, calendar).1,
        passed(long, ts as int, last, frozen, start, calendar).1,
    );
    let held = if horizons.frozen {
        horizons.at_start
    } else {
        last
    };
    a_fixed_time_is_of_no_burst(short, end + 1, last, held, start, calendar);
    a_fixed_time_is_of_no_burst(long, end + 1, last, held, start, calendar);
    moves_add_up(
        passed(short, end + 1, last, held, start, calendar).1,
        passed(long, end + 1, last, held, start, calendar).1,
    );
}

/// Ending a burst measures a move just where it counts a gap.
proof fn a_gap_is_a_move(parents: ParentsView, scope: Scope, seen: u64)
    requires
        within_reach(parents, seen),
        seen < u64::MAX,
    ensures
        mid_returns(finish_measured(parents, hours(&scope), scope.start, scope.end))
            == finished(parents, hours(&scope), scope.start, scope.end).counts.eligible_gaps
            - parents.counts.eligible_gaps,
{
    reveal_with_fuel(mid_returns, 3);
    if let Some(parent) = parents.open {
        let away = measured(parent, parents.prev, false);
        assert(away.len() == 0 || away.drop_last() =~= Seq::<Observation>::empty());
        assert(mid_returns(away) == 0);
        if parents.prev is Some && unbroken(parents, parent, hours(&scope)) {
            let all = measured(parent, parents.prev, true);
            assert(all.drop_last() =~= away);
        }
    }
}

proof fn gaps_are_moves(ticks: Seq<TickEvent>, scope: Scope)
    requires
        ticks.len() < u64::MAX,
        walked(ticks, scope) is Some,
    ensures
        ({
            let (held, seen) = walked(ticks, scope)->0;
            mid_returns(seen) == held.parents.counts.eligible_gaps
        }),
    decreases ticks.len(),
{
    if ticks.len() > 0 {
        gaps_are_moves(ticks.drop_last(), scope);
        a_walk_counts(ticks.drop_last(), scope);
        let (held, seen) = walked(ticks.drop_last(), scope)->0;
        if !held.over && ticks.last().at() < scope.end {
            if let TickEvent::Quote(quote) = ticks.last() {
                let book = Book { bid: quote.bid_px, ask: quote.ask_px };
                let burst = finish_measured(held.parents, hours(&scope), scope.start, scope.end);
                let more = after_quote(
                    held.horizons,
                    quote.ts_event,
                    book,
                    scope.start,
                    hours(&scope),
                ).1;
                a_gap_is_a_move(held.parents, scope, held.seen);
                a_quote_is_of_no_burst(
                    held.horizons,
                    quote.ts_event,
                    book,
                    scope.start,
                    scope.end,
                    hours(&scope),
                );
                moves_add_up(burst, more);
                moves_add_up(seen, burst + more);
            }
        }
    }
}

/// A summary leaves one move of the middle to be measured for each gap that it
/// counts, and none besides, so no more are measured than there are gaps.
pub proof fn each_gap_is_measured_once(ticks: Seq<TickEvent>, scope: Scope)
    requires
        ticks.len() < u64::MAX,
        walked(ticks, scope) is Some,
    ensures
        ({
            let (held, seen) = walked(ticks, scope)->0;
            mid_returns(seen + left_to_measure(held, scope)) == finished(
                held.parents,
                hours(&scope),
                scope.start,
                scope.end,
            ).counts.eligible_gaps
        }),
{
    gaps_are_moves(ticks, scope);
    a_walk_counts(ticks, scope);
    let (held, seen) = walked(ticks, scope)->0;
    let burst = finish_measured(held.parents, hours(&scope), scope.start, scope.end);
    let book = Book { bid: scope.tick, ask: scope.tick };
    a_gap_is_a_move(held.parents, scope, held.seen);
    a_quote_is_of_no_burst(held.horizons, 0, book, scope.start, scope.end, hours(&scope));
    let rest = at_end(held.horizons, scope.start, scope.end, hours(&scope)).1;
    moves_add_up(burst, rest);
    moves_add_up(seen, burst + rest);
}

/// Whether a tick has come that is not before the end.
pub open spec fn ended(ticks: Seq<TickEvent>, end: u64) -> bool
    decreases ticks.len(),
{
    ticks.len() > 0 && (ended(ticks.drop_last(), end) || ticks.last().at() >= end)
}

/// The quotes that come before the end.
pub open spec fn quotes_before(ticks: Seq<TickEvent>, end: u64) -> Seq<(u64, Book)>
    decreases ticks.len(),
{
    if ticks.len() == 0 {
        Seq::empty()
    } else {
        let before = quotes_before(ticks.drop_last(), end);
        match ticks.last() {
            TickEvent::Quote(quote) if !ended(ticks, end) => before.push(
                (quote.ts_event, Book { bid: quote.bid_px, ask: quote.ask_px }),
            ),
            _ => before,
        }
    }
}

proof fn a_burst_is_of_no_fixed_time(parents: ParentsView, scope: Scope, seconds: u64)
    ensures
        of_horizon(
            finish_measured(parents, hours(&scope), scope.start, scope.end),
            seconds,
        ) == Seq::<Observation>::empty(),
{
    reveal_with_fuel(of_horizon, 4);
}

proof fn a_walk_tells_its_quotes(ticks: Seq<TickEvent>, scope: Scope, seconds: u64)
    requires
        walked(ticks, scope) is Some,
    ensures
        ({
            let (held, seen) = walked(ticks, scope)->0;
            let quotes = quotes_before(ticks, scope.end);
            let (horizons, measured) = told(quotes, scope.start, hours(&scope));
            &&& held.over == ended(ticks, scope.end)
            &&& held.horizons == horizons
            &&& of_horizon(seen, seconds) == of_horizon(measured, seconds)
            &&& quotes.len() > 0 ==> quotes.last().0 < scope.end
        }),
    decreases ticks.len(),
{
    if ticks.len() > 0 {
        a_walk_tells_its_quotes(ticks.drop_last(), scope, seconds);
        let (held, seen) = walked(ticks.drop_last(), scope)->0;
        let before = quotes_before(ticks.drop_last(), scope.end);
        if !ended(ticks, scope.end) {
            match ticks.last() {
                TickEvent::Quote(quote) => {
                    let book = Book { bid: quote.bid_px, ask: quote.ask_px };
                    let with = before.push((quote.ts_event, book));
                    assert(with.drop_last() =~= before);
                    let (horizons, measured) = told(before, scope.start, hours(&scope));
                    let more = after_quote(
                        held.horizons,
                        quote.ts_event,
                        book,
                        scope.start,
                        hours(&scope),
                    ).1;
                    let burst = finish_measured(
                        held.parents,
                        hours(&scope),
                        scope.start,
                        scope.end,
                    );
                    a_burst_is_of_no_fixed_time(held.parents, scope, seconds);
                    parted(burst, more, seconds);
                    parted(seen, burst + more, seconds);
                    parted(measured, more, seconds);
                    assert(Seq::<Observation>::empty() + of_horizon(more, seconds) =~= of_horizon(
                        more,
                        seconds,
                    ));
                },
                TickEvent::Trade(trade) => {},
            }
        }
    }
}

proof fn all_of_a_walk(ticks: Seq<TickEvent>, scope: Scope, seconds: u64)
    requires
        walked(ticks, scope) is Some,
    ensures
        ({
            let (held, seen) = walked(ticks, scope)->0;
            let quotes = quotes_before(ticks, scope.end);
            let (horizons, measured) = told(quotes, scope.start, hours(&scope));
            of_horizon(seen + left_to_measure(held, scope), seconds) == of_horizon(
                measured + at_end(horizons, scope.start, scope.end, hours(&scope)).1,
                seconds,
            )
        }),
{
    a_walk_tells_its_quotes(ticks, scope, seconds);
    let (held, seen) = walked(ticks, scope)->0;
    let quotes = quotes_before(ticks, scope.end);
    let (horizons, measured) = told(quotes, scope.start, hours(&scope));
    let burst = finish_measured(held.parents, hours(&scope), scope.start, scope.end);
    let rest = at_end(horizons, scope.start, scope.end, hours(&scope)).1;
    a_burst_is_of_no_fixed_time(held.parents, scope, seconds);
    parted(burst, rest, seconds);
    parted(seen, burst + rest, seconds);
    parted(measured, rest, seconds);
    assert(Seq::<Observation>::empty() + of_horizon(rest, seconds) =~= of_horizon(rest, seconds));
}

/// What a summary leaves to be measured of either fixed time is, for each
/// boundary of the span, how the quote that stood there moved since the one that
/// stood at the boundary before.
pub proof fn a_summary_measures_its_boundaries(ticks: Seq<TickEvent>, scope: Scope)
    requires
        walked(ticks, scope) is Some,
        in_time(quotes_before(ticks, scope.end)),
    ensures
        ({
            let (held, seen) = walked(ticks, scope)->0;
            let quotes = quotes_before(ticks, scope.end);
            let all = seen + left_to_measure(held, scope);
            &&& of_horizon(all, SHORT_HORIZON_S) == at_boundaries(
                SHORT_HORIZON_S,
                quotes,
                scope.start,
                1,
                boundaries_in(SHORT_HORIZON_S, scope.start, scope.end) + 1,
                hours(&scope),
            )
            &&& of_horizon(all, LONG_HORIZON_S) == at_boundaries(
                LONG_HORIZON_S,
                quotes,
                scope.start,
                1,
                boundaries_in(LONG_HORIZON_S, scope.start, scope.end) + 1,
                hours(&scope),
            )
        }),
{
    all_of_a_walk(ticks, scope, SHORT_HORIZON_S);
    all_of_a_walk(ticks, scope, LONG_HORIZON_S);
    a_walk_tells_its_quotes(ticks, scope, SHORT_HORIZON_S);
    the_tape_is_measured_as_of_its_boundaries(
        quotes_before(ticks, scope.end),
        scope.start,
        scope.end,
        hours(&scope),
    );
}

/// The middle that a summary opens with is that of the first quote of the span,
/// whatever came before the span and whatever follows; without such a quote there
/// is none.
pub proof fn a_summary_opens_with_the_first_middle(ticks: Seq<TickEvent>, scope: Scope, k: int)
    requires
        walked(ticks, scope) is Some,
        0 <= k <= ticks.len(),
        forall|i: int| 0 <= i < ticks.len() && i <= k ==> (#[trigger] ticks[i]).at() < scope.end,
        forall|i: int|
            0 <= i < k ==> !((#[trigger] ticks[i]) is Quote && ticks[i].at() >= scope.start),
        k < ticks.len() ==> ticks[k] is Quote && ticks[k].at() >= scope.start,
    ensures
        (walked(ticks, scope)->0).0.first_book_mid == if k < ticks.len() {
            middle_of(ticks[k]->Quote_0)
        } else {
            None
        },
        k < ticks.len() ==> middle_of(ticks[k]->Quote_0) is Some,
        k == ticks.len() ==> !(walked(ticks, scope)->0).0.over,
    decreases ticks.len(),
{
    if ticks.len() > 0 {
        let held = ticks.drop_last();
        let last = ticks.last();
        assert(last == ticks[ticks.len() - 1]);
        assert forall|i: int| 0 <= i < held.len() && i <= k implies (#[trigger] held[i]).at()
            < scope.end by {
            assert(held[i] == ticks[i]);
        }
        assert forall|i: int| 0 <= i < k && i < held.len() implies !((#[trigger] held[i]) is Quote
            && held[i].at() >= scope.start) by {
            assert(held[i] == ticks[i]);
        }
        if k < held.len() {
            assert(held[k] == ticks[k]);
            a_summary_opens_with_the_first_middle(held, scope, k);
        } else {
            a_summary_opens_with_the_first_middle(held, scope, held.len() as int);
        }
    }
}

/// A trade of the span is counted once under its size, however many zeros that is
/// written with, and under no other; one before the span is not counted. Nothing
/// is measured at a trade.
pub proof fn a_trade_is_counted_under_its_size(
    ticks: Seq<TickEvent>,
    trade: TradeTick,
    scope: Scope,
    other: Seq<char>,
)
    requires
        walked(ticks, scope) is Some,
        !(walked(ticks, scope)->0).0.over,
        trade.ts_event < scope.end,
        other != written(shortest(trade.size)),
    ensures
        ({
            let (held, seen) = walked(ticks, scope)->0;
            let more = walked(ticks.push(TickEvent::Trade(trade)), scope);
            let after = (more->0).0;
            let key = written(shortest(trade.size));
            let before: int = if held.sizes.dom().contains(key) {
                held.sizes[key] as int
            } else {
                0
            };
            &&& more is Some
            &&& (more->0).1 == seen
            &&& trade.ts_event < scope.start ==> after.sizes == held.sizes
            &&& trade.ts_event >= scope.start && before < u64::MAX ==> after.sizes.dom().contains(
                key,
            ) && after.sizes[key] == before + 1
            &&& after.sizes.dom().contains(other) == held.sizes.dom().contains(other)
            &&& held.sizes.dom().contains(other) ==> after.sizes[other] == held.sizes[other]
            &&& after.first_book_mid == held.first_book_mid
            &&& after.horizons == held.horizons
        }),
{
    assert(ticks.push(TickEvent::Trade(trade)).drop_last() =~= ticks);
}

/// The trades that follow a quote trade against it: against its own prices, sizes
/// and width.
pub proof fn a_quote_stands_for_what_follows(
    ticks: Seq<TickEvent>,
    quote: QuoteTick,
    scope: Scope,
)
    requires
        walked(ticks.push(TickEvent::Quote(quote)), scope) is Some,
        walked(ticks, scope) is Some,
        !(walked(ticks, scope)->0).0.over,
        quote.ts_event < scope.end,
    ensures
        ({
            let held = (walked(ticks, scope)->0).0;
            let after = (walked(ticks.push(TickEvent::Quote(quote)), scope)->0).0;
            let stands = after.parents.pending->0;
            &&& after.parents.pending is Some
            &&& after.parents.open is None
            &&& stands.book.bid == quote.bid_px
            &&& stands.book.ask == quote.ask_px
            &&& stands.bid_sz == quote.bid_sz
            &&& stands.ask_sz == quote.ask_sz
            &&& width_of(quote, scope.tick) == Some(stands.width_ticks)
            &&& after.sizes == held.sizes
        }),
{
    assert(ticks.push(TickEvent::Quote(quote)).drop_last() =~= ticks);
}

/// A summary has what was counted of the bursts, with the last one among them, and
/// of the trades.
pub proof fn a_summary_has_what_was_counted(summary: Summary, held: SummaryView, scope: Scope)
    requires
        is_made(summary, held, scope),
    ensures
        ({
            let done = finished(held.parents, hours(&scope), scope.start, scope.end);
            &&& summary.counts == done.counts
            &&& summary.sizes@ == held.sizes
            &&& summary.bid_sizes@ == done.bid_sizes
            &&& summary.ask_sizes@ == done.ask_sizes
            &&& summary.widths@ == done.widths
            &&& summary.first_book_mid is Some == held.first_book_mid is Some
            &&& summary.first_book_mid is Some ==> summary.first_book_mid->0@
                == held.first_book_mid->0
        }),
{
}

/// The width of a spread in ticks is the whole number of ticks that comes nearest
/// to it; a spread below zero is as many ticks below zero.
pub proof fn a_width_is_the_nearest(apart: int, p: nat, tick: Dec)
    requires
        apart >= 0,
        tick.digits() > 0,
    ensures
        ({
            let by = tick.digits() * ten(p);
            let off = ticks_in(apart, p, tick) * by - apart * ten(tick.places());
            &&& -by <= 2 * off <= by
            &&& ticks_in(apart, p, tick) >= 0
        }),
        apart > 0 ==> ticks_in(-apart, p, tick) == -ticks_in(apart, p, tick),
{
    ten_is_positive(p);
    ten_is_positive(tick.places());
    let by = tick.digits() * ten(p);
    let n = apart * ten(tick.places());
    assert(by > 0) by (nonlinear_arith)
        requires
            by == tick.digits() * ten(p),
            tick.digits() > 0,
            ten(p) > 0,
    ;
    assert(n >= 0) by (nonlinear_arith)
        requires
            n == apart * ten(tick.places()),
            apart >= 0,
            ten(tick.places()) > 0,
    ;
    no_whole_number_is_nearer(n as nat, by as nat);
}

} // verus!
