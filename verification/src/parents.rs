//! The bursts of trades of a tape, told apart by the quotes between them, and
//! what is counted of them.

use vstd::prelude::*;

use crate::calendar::open_throughout;
use crate::calendar::stays_open;
use crate::calendar::SessionCalendar;
use crate::decimal::decimal_key;
use crate::decimal::shortest;
use crate::decimal::written;
use crate::decimal::Dec;
use crate::duration::span_since;
use crate::tally::at_most;
use crate::tally::bumped;
use crate::tally::Tally;
use crate::text::decimal;
use crate::text::push_decimal;
use crate::ticks::AggressorSide;
use crate::ticks::TradeTick;

verus! {

/// The two prices of a quote.
#[derive(Clone, Copy, Debug, PartialEq, Eq, Structural)]
pub struct Book {
    pub bid: Dec,
    pub ask: Dec,
}

/// A quote as a burst is measured against it: its prices, its sizes, and how
/// many ticks lie between its prices.
#[derive(Clone, Copy, Debug, PartialEq, Eq, Structural)]
pub struct BookQuote {
    pub book: Book,
    pub width_ticks: u64,
    pub bid_sz: Dec,
    pub ask_sz: Dec,
}

/// Something that is measured in floating point.
#[derive(Clone, Copy, Debug, PartialEq, Eq, Structural)]
pub enum Observation {
    /// How far a burst's first price is from the middle of its quote, seen from
    /// its side.
    Displacement { side: AggressorSide, price: Dec, book: Book },
    /// How the middle of the quote moved from one burst to the next.
    MidReturn { from: Book, to: Book },
    /// How it moved over a fixed time.
    HorizonReturn { seconds: u64, from: Book, to: Book },
}

/// A burst that is still going on: its quote, its first trade, how many trades
/// it has and at which prices.
#[derive(Debug)]
pub struct OpenParent {
    pub quote: BookQuote,
    pub first: TradeTick,
    pub rows: u64,
    pub levels: Vec<Dec>,
}

/// A burst in the abstract.
pub struct ParentView {
    pub quote: BookQuote,
    pub first: TradeTick,
    pub rows: u64,
    pub levels: Seq<Dec>,
}

impl View for OpenParent {
    type V = ParentView;

    open spec fn view(&self) -> ParentView {
        ParentView {
            quote: self.quote,
            first: self.first,
            rows: self.rows,
            levels: self.levels@,
        }
    }
}

/// What is counted of the bursts.
#[derive(Clone, Copy, Debug, PartialEq, Eq, Structural)]
pub struct Counts {
    pub parents: u64,
    pub sided_rows: u64,
    pub single_parents: u64,
    pub level_count_sum: u64,
    pub gap_sum_ns: u128,
    pub eligible_gaps: u64,
}

/// Whether a price is among others.
pub open spec fn has_level(levels: Seq<Dec>, price: Dec) -> bool {
    exists|i: int| 0 <= i < levels.len() && (#[trigger] levels[i]).equals(price)
}

/// A burst of one trade.
pub open spec fn burst(quote: BookQuote, trade: TradeTick) -> ParentView {
    ParentView { quote, first: trade, rows: 1, levels: seq![trade.price] }
}

/// A burst with one more trade.
pub open spec fn extended(parent: ParentView, trade: TradeTick) -> ParentView {
    ParentView {
        quote: parent.quote,
        first: parent.first,
        rows: (parent.rows + 1) as u64,
        levels: if has_level(parent.levels, trade.price) {
            parent.levels
        } else {
            parent.levels.push(trade.price)
        },
    }
}

impl OpenParent {
    fn has_level(&self, price: Dec) -> (answer: bool)
        ensures
            answer == has_level(self.levels@, price),
    {
        let mut i: usize = 0;
        while i < self.levels.len()
            invariant
                i <= self.levels.len(),
                forall|k: int| 0 <= k < i ==> !(#[trigger] self.levels@[k]).equals(price),
            decreases self.levels.len() - i,
        {
            if self.levels[i].is_equal(&price) {
                assert(self.levels@[i as int].equals(price));
                return true;
            }
            i += 1;
        }
        false
    }

    /// A burst of one trade.
    pub fn new(quote: BookQuote, trade: TradeTick) -> (parent: OpenParent)
        ensures
            parent@ == burst(quote, trade),
    {
        let mut levels: Vec<Dec> = Vec::new();
        levels.push(trade.price);
        assert(levels@ =~= seq![trade.price]);
        OpenParent { quote, first: trade, rows: 1, levels }
    }

    /// Puts one more trade into the burst.
    pub fn extend(&mut self, trade: TradeTick)
        requires
            old(self)@.rows < u64::MAX,
        ensures
            final(self)@ == extended(old(self)@, trade),
    {
        self.rows = self.rows + 1;
        if !self.has_level(trade.price) {
            self.levels.push(trade.price);
        }
    }
}

/// The counts with one more burst, the one before it being `prev`.
pub open spec fn counted(
    counts: Counts,
    parent: ParentView,
    prev: Option<(u64, Book)>,
    open: bool,
) -> Counts {
    Counts {
        parents: (counts.parents + 1) as u64,
        sided_rows: (counts.sided_rows + parent.rows) as u64,
        single_parents: if parent.rows == 1 {
            (counts.single_parents + 1) as u64
        } else {
            counts.single_parents
        },
        level_count_sum: (counts.level_count_sum + parent.levels.len()) as u64,
        gap_sum_ns: if prev is Some && open {
            (counts.gap_sum_ns + span_since(parent.first.ts_event, (prev->0).0)) as u128
        } else {
            counts.gap_sum_ns
        },
        eligible_gaps: if prev is Some && open {
            (counts.eligible_gaps + 1) as u64
        } else {
            counts.eligible_gaps
        },
    }
}

/// What is measured of a burst in floating point.
pub open spec fn measured(
    parent: ParentView,
    prev: Option<(u64, Book)>,
    open: bool,
) -> Seq<Observation> {
    let away = if parent.first.aggressor == AggressorSide::NoAggressor {
        Seq::empty()
    } else {
        seq![
            Observation::Displacement {
                side: parent.first.aggressor,
                price: parent.first.price,
                book: parent.quote.book,
            },
        ]
    };
    if prev is Some && open {
        away.push(Observation::MidReturn { from: (prev->0).1, to: parent.quote.book })
    } else {
        away
    }
}

/// The bursts of a tape: the quote that the next one is measured against, the
/// one that is going on, the one before it, and what was counted.
pub struct Parents {
    pub pending: Option<BookQuote>,
    pub open: Option<OpenParent>,
    pub prev: Option<(u64, Book)>,
    pub counts: Counts,
    pub widths: Tally,
    pub bid_sizes: Tally,
    pub ask_sizes: Tally,
}

/// The bursts of a tape in the abstract.
pub struct ParentsView {
    pub pending: Option<BookQuote>,
    pub open: Option<ParentView>,
    pub prev: Option<(u64, Book)>,
    pub counts: Counts,
    pub widths: Map<Seq<char>, u64>,
    pub bid_sizes: Map<Seq<char>, u64>,
    pub ask_sizes: Map<Seq<char>, u64>,
}

impl View for Parents {
    type V = ParentsView;

    open spec fn view(&self) -> ParentsView {
        ParentsView {
            pending: self.pending,
            open: match self.open {
                Some(parent) => Some(parent@),
                None => None,
            },
            prev: self.prev,
            counts: self.counts,
            widths: self.widths@,
            bid_sizes: self.bid_sizes@,
            ask_sizes: self.ask_sizes@,
        }
    }
}

/// Whether no more was counted than so many trades can make.
pub open spec fn within_reach(parents: ParentsView, seen: u64) -> bool {
    let rows: int = if parents.open is Some {
        parents.open->0.rows as int
    } else {
        0
    };
    &&& parents.open is Some ==> 1 <= parents.open->0.levels.len() <= parents.open->0.rows
    &&& parents.counts.parents + rows <= seen
    &&& parents.counts.sided_rows + rows <= seen
    &&& parents.counts.single_parents + rows <= seen
    &&& parents.counts.level_count_sum + rows <= seen
    &&& parents.counts.eligible_gaps + rows <= seen
    &&& parents.counts.gap_sum_ns <= parents.counts.eligible_gaps * 0xffff_ffff_ffff_ffff
    &&& at_most(parents.widths, parents.counts.parents)
    &&& at_most(parents.bid_sizes, parents.counts.parents)
    &&& at_most(parents.ask_sizes, parents.counts.parents)
}

/// Whether a burst is in the span by its first trade.
pub open spec fn in_span(parent: ParentView, start: u64, end: u64) -> bool {
    start <= parent.first.ts_event < end
}

/// Whether the market was open from the burst before to this one.
pub open spec fn unbroken(
    parents: ParentsView,
    parent: ParentView,
    calendar: Option<&SessionCalendar>,
) -> bool {
    parents.prev is Some && stays_open(calendar, (parents.prev->0).0, parent.first.ts_event)
}

/// The bursts once the one that was going on is over. One outside the span is
/// as if it had not been.
pub open spec fn finished(
    parents: ParentsView,
    calendar: Option<&SessionCalendar>,
    start: u64,
    end: u64,
) -> ParentsView {
    match parents.open {
        None => parents,
        Some(parent) => if !in_span(parent, start, end) {
            ParentsView { open: None, ..parents }
        } else {
            ParentsView {
                pending: parents.pending,
                open: None,
                prev: Some((parent.first.ts_event, parent.quote.book)),
                counts: counted(
                    parents.counts,
                    parent,
                    parents.prev,
                    unbroken(parents, parent, calendar),
                ),
                widths: bumped(parents.widths, decimal(parent.quote.width_ticks as nat)),
                bid_sizes: bumped(parents.bid_sizes, written(shortest(parent.quote.bid_sz))),
                ask_sizes: bumped(parents.ask_sizes, written(shortest(parent.quote.ask_sz))),
            }
        },
    }
}

/// What is measured once the burst that was going on is over.
pub open spec fn finish_measured(
    parents: ParentsView,
    calendar: Option<&SessionCalendar>,
    start: u64,
    end: u64,
) -> Seq<Observation> {
    match parents.open {
        None => Seq::empty(),
        Some(parent) => if !in_span(parent, start, end) {
            Seq::empty()
        } else {
            measured(parent, parents.prev, unbroken(parents, parent, calendar))
        },
    }
}

/// The bursts with one more trade: it belongs to the burst that is going on, or
/// starts one, where a quote has come before.
pub open spec fn traded(parents: ParentsView, trade: TradeTick) -> ParentsView {
    match parents.open {
        Some(parent) => ParentsView { open: Some(extended(parent, trade)), ..parents },
        None => match parents.pending {
            Some(quote) => ParentsView { open: Some(burst(quote, trade)), ..parents },
            None => parents,
        },
    }
}

impl Parents {
    /// No bursts.
    pub fn new() -> (parents: Parents)
        ensures
            parents@ == (ParentsView {
                pending: None,
                open: None,
                prev: None,
                counts: Counts {
                    parents: 0,
                    sided_rows: 0,
                    single_parents: 0,
                    level_count_sum: 0,
                    gap_sum_ns: 0,
                    eligible_gaps: 0,
                },
                widths: Map::empty(),
                bid_sizes: Map::empty(),
                ask_sizes: Map::empty(),
            }),
            within_reach(parents@, 0),
    {
        Parents {
            pending: None,
            open: None,
            prev: None,
            counts: Counts {
                parents: 0,
                sided_rows: 0,
                single_parents: 0,
                level_count_sum: 0,
                gap_sum_ns: 0,
                eligible_gaps: 0,
            },
            widths: Tally::new(),
            bid_sizes: Tally::new(),
            ask_sizes: Tally::new(),
        }
    }

    /// Puts one more trade into the burst that is going on, or starts one.
    pub(crate) fn trade(&mut self, trade: TradeTick, Ghost(seen): Ghost<u64>)
        requires
            within_reach(old(self)@, seen),
            seen < u64::MAX,
        ensures
            final(self)@ == traded(old(self)@, trade),
            within_reach(final(self)@, (seen + 1) as u64),
    {
        let mut open: Option<OpenParent> = None;
        std::mem::swap(&mut open, &mut self.open);
        match open {
            Some(mut parent) => {
                parent.extend(trade);
                self.open = Some(parent);
            },
            None => {
                if let Some(quote) = self.pending {
                    self.open = Some(OpenParent::new(quote, trade));
                }
            },
        }
    }

    /// Ends the burst that is going on, and measures it.
    pub(crate) fn finish(
        &mut self,
        calendar: Option<&SessionCalendar>,
        start: u64,
        end: u64,
        Ghost(seen): Ghost<u64>,
    ) -> (observations: Vec<Observation>)
        requires
            within_reach(old(self)@, seen),
        ensures
            final(self)@ == finished(old(self)@, calendar, start, end),
            observations@ == finish_measured(old(self)@, calendar, start, end),
            within_reach(final(self)@, seen),
    {
        let ghost before = self@;
        let mut observations: Vec<Observation> = Vec::new();
        let mut open: Option<OpenParent> = None;
        std::mem::swap(&mut open, &mut self.open);
        let parent = match open {
            Some(parent) => parent,
            None => {
                assert(observations@ =~= Seq::<Observation>::empty());
                return observations;
            },
        };
        if parent.first.ts_event < start || parent.first.ts_event >= end {
            assert(observations@ =~= Seq::<Observation>::empty());
            return observations;
        }
        let unbroken = match self.prev {
            Some((ts, _)) => open_throughout(calendar, ts, parent.first.ts_event),
            None => false,
        };
        let ghost was = self.counts;
        let mut counts = self.counts;
        counts.parents = counts.parents + 1;
        counts.sided_rows = counts.sided_rows + parent.rows;
        if parent.rows == 1 {
            counts.single_parents = counts.single_parents + 1;
        }
        counts.level_count_sum = counts.level_count_sum + parent.levels.len() as u64;
        let mut width = String::new();
        push_decimal(&mut width, parent.quote.width_ticks as u128);
        assert(width@ =~= decimal(parent.quote.width_ticks as nat));
        self.widths.bump(width.as_str());
        self.bid_sizes.bump(decimal_key(parent.quote.bid_sz).as_str());
        self.ask_sizes.bump(decimal_key(parent.quote.ask_sz).as_str());
        let sided = match parent.first.aggressor {
            AggressorSide::NoAggressor => false,
            _ => true,
        };
        if sided {
            observations.push(
                Observation::Displacement {
                    side: parent.first.aggressor,
                    price: parent.first.price,
                    book: parent.quote.book,
                },
            );
        }
        if let Some((ts, book)) = self.prev {
            if unbroken {
                counts.gap_sum_ns = counts.gap_sum_ns + parent.first.ts_event.saturating_sub(
                    ts,
                ) as u128;
                counts.eligible_gaps = counts.eligible_gaps + 1;
                observations.push(Observation::MidReturn { from: book, to: parent.quote.book });
            }
        }
        self.counts = counts;
        self.prev = Some((parent.first.ts_event, parent.quote.book));
        assert(self.counts == counted(was, parent@, before.prev, unbroken));
        assert(observations@ =~= finish_measured(before, calendar, start, end));
        observations
    }
}

/// A burst of trades, one after the other.
pub open spec fn burst_of(quote: BookQuote, trades: Seq<TradeTick>) -> ParentView
    recommends
        trades.len() > 0,
    decreases trades.len(),
{
    if trades.len() <= 1 {
        burst(quote, trades[0])
    } else {
        extended(burst_of(quote, trades.drop_last()), trades.last())
    }
}

/// A burst knows its quote, its first trade, how many trades it has and at which
/// prices: each price that traded is among them once, however often it traded and
/// however many decimal places it is written with, and no other price is.
pub proof fn a_burst_knows_its_prices(quote: BookQuote, trades: Seq<TradeTick>)
    requires
        0 < trades.len() < u64::MAX,
    ensures
        ({
            let parent = burst_of(quote, trades);
            &&& parent.quote == quote
            &&& parent.first == trades[0]
            &&& parent.rows == trades.len()
            &&& 1 <= parent.levels.len() <= trades.len()
            &&& forall|i: int|
                0 <= i < trades.len() ==> has_level(parent.levels, (#[trigger] trades[i]).price)
            &&& forall|k: int|
                0 <= k < parent.levels.len() ==> exists|i: int|
                    0 <= i < trades.len() && (#[trigger] trades[i]).price
                        == #[trigger] parent.levels[k]
            &&& forall|k: int, j: int|
                #![trigger parent.levels[k], parent.levels[j]]
                0 <= k < j < parent.levels.len() ==> !parent.levels[k].equals(parent.levels[j])
        }),
    decreases trades.len(),
{
    let parent = burst_of(quote, trades);
    if trades.len() == 1 {
        let trade = trades[0];
        assert(parent.levels[0] == trade.price);
        assert(trade.price.equals(trade.price));
        assert(has_level(parent.levels, trade.price));
    } else {
        let held = trades.drop_last();
        let trade = trades.last();
        let before = burst_of(quote, held);
        a_burst_knows_its_prices(quote, held);
        assert(held[0] == trades[0]);
        assert(trade.price.equals(trade.price));
        if !has_level(before.levels, trade.price) {
            assert(parent.levels == before.levels.push(trade.price));
            assert(parent.levels[before.levels.len() as int] == trade.price);
            assert forall|k: int, j: int|
                #![trigger parent.levels[k], parent.levels[j]]
                0 <= k < j < parent.levels.len() implies !parent.levels[k].equals(
                parent.levels[j],
            ) by {
                assert(parent.levels[k] == before.levels[k]);
                if j < before.levels.len() {
                    assert(parent.levels[j] == before.levels[j]);
                }
            }
        }
        assert forall|i: int| 0 <= i < trades.len() implies has_level(
            parent.levels,
            (#[trigger] trades[i]).price,
        ) by {
            if i < held.len() {
                assert(held[i] == trades[i]);
                assert(has_level(before.levels, held[i].price));
                let k = choose|k: int|
                    0 <= k < before.levels.len() && (#[trigger] before.levels[k]).equals(
                        held[i].price,
                    );
                assert(parent.levels[k] == before.levels[k]);
            }
        }
        assert forall|k: int| 0 <= k < parent.levels.len() implies exists|i: int|
            0 <= i < trades.len() && (#[trigger] trades[i]).price == #[trigger] parent.levels[k] by {
            if k < before.levels.len() {
                assert(parent.levels[k] == before.levels[k]);
                let i = choose|i: int|
                    0 <= i < held.len() && (#[trigger] held[i]).price == before.levels[k];
                assert(trades[i].price == parent.levels[k]);
            } else {
                assert(trades[trades.len() - 1].price == parent.levels[k]);
            }
        }
    }
}

/// A burst of the span is counted once, with its trades and its prices, as a
/// single one just where it has one trade, and with its gap just where one burst
/// came before it and the market was open all the while. One that starts outside
/// the span is as if it had not been.
pub proof fn a_burst_of_the_span_is_counted(
    parents: ParentsView,
    calendar: Option<&SessionCalendar>,
    start: u64,
    end: u64,
)
    requires
        parents.open is Some,
        parents.counts.parents < u64::MAX,
        parents.counts.sided_rows + parents.open->0.rows <= u64::MAX,
        parents.counts.level_count_sum + parents.open->0.levels.len() <= u64::MAX,
        parents.counts.single_parents < u64::MAX,
        parents.counts.eligible_gaps < u64::MAX,
        parents.counts.gap_sum_ns + u64::MAX <= u128::MAX,
    ensures
        ({
            let parent = parents.open->0;
            let at = parent.first.ts_event;
            let after = finished(parents, calendar, start, end);
            let seen = finish_measured(parents, calendar, start, end);
            let gap = parents.prev is Some && stays_open(calendar, (parents.prev->0).0, at);
            &&& after.open is None
            &&& after.pending == parents.pending
            &&& at < start || at >= end ==> {
                &&& after.counts == parents.counts
                &&& after.prev == parents.prev
                &&& after.widths == parents.widths
                &&& after.bid_sizes == parents.bid_sizes
                &&& after.ask_sizes == parents.ask_sizes
                &&& seen.len() == 0
            }
            &&& start <= at < end ==> {
                &&& after.counts.parents == parents.counts.parents + 1
                &&& after.counts.sided_rows == parents.counts.sided_rows + parent.rows
                &&& after.counts.level_count_sum == parents.counts.level_count_sum
                    + parent.levels.len()
                &&& after.counts.single_parents == parents.counts.single_parents + (
                if parent.rows == 1 {
                    1int
                } else {
                    0
                })
                &&& after.counts.eligible_gaps == parents.counts.eligible_gaps + (if gap {
                    1int
                } else {
                    0
                })
                &&& gap && (parents.prev->0).0 <= at ==> after.counts.gap_sum_ns
                    == parents.counts.gap_sum_ns + (at - (parents.prev->0).0)
                &&& !gap ==> after.counts.gap_sum_ns == parents.counts.gap_sum_ns
                &&& after.prev == Some((at, parent.quote.book))
                &&& (parent.first.aggressor != AggressorSide::NoAggressor) == seen.contains(
                    Observation::Displacement {
                        side: parent.first.aggressor,
                        price: parent.first.price,
                        book: parent.quote.book,
                    },
                )
                &&& seen.len() == (if parent.first.aggressor == AggressorSide::NoAggressor {
                    0int
                } else {
                    1
                }) + (if gap {
                    1int
                } else {
                    0
                })
                &&& gap ==> seen.last() == (Observation::MidReturn {
                    from: (parents.prev->0).1,
                    to: parent.quote.book,
                })
            }
        }),
{
    let parent = parents.open->0;
    let seen = finish_measured(parents, calendar, start, end);
    if start <= parent.first.ts_event < end && parent.first.aggressor
        != AggressorSide::NoAggressor {
        assert(seen[0] is Displacement);
    }
}

/// A trade goes on with the burst that is going on; where there is none it starts
/// one against the last quote, and before any quote it is in no burst.
pub proof fn a_trade_goes_on_or_starts_a_burst(parents: ParentsView, trade: TradeTick)
    ensures
        ({
            let after = traded(parents, trade);
            &&& after.counts == parents.counts
            &&& after.pending == parents.pending
            &&& after.prev == parents.prev
            &&& parents.open is Some ==> after.open is Some && after.open->0.first
                == parents.open->0.first && after.open->0.quote == parents.open->0.quote
            &&& parents.open is None && parents.pending is Some ==> after.open is Some
                && after.open->0.first == trade && after.open->0.quote == parents.pending->0
                && after.open->0.rows == 1
            &&& parents.open is None && parents.pending is None ==> after.open is None
        }),
{
}

/// A burst of the span is counted under the width and the sizes of the quote that
/// it traded against, each under its own.
pub proof fn a_burst_is_counted_under_its_quote(
    parents: ParentsView,
    calendar: Option<&SessionCalendar>,
    start: u64,
    end: u64,
)
    requires
        parents.open is Some,
        start <= parents.open->0.first.ts_event < end,
    ensures
        ({
            let quote = parents.open->0.quote;
            let after = finished(parents, calendar, start, end);
            &&& after.widths == bumped(parents.widths, decimal(quote.width_ticks as nat))
            &&& after.bid_sizes == bumped(parents.bid_sizes, written(shortest(quote.bid_sz)))
            &&& after.ask_sizes == bumped(parents.ask_sizes, written(shortest(quote.ask_sz)))
        }),
{
}

} // verus!
