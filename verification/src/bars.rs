//! Trades gathered into bars, and both written out as lines of
//! comma-separated values.
//!
//! A window in which nothing traded is a bar too: flat, at the price before it.
//! Only before the first bar there is none.

use vstd::prelude::*;

use crate::decimal::add_up;
use crate::decimal::amounts_are_ordered;
use crate::decimal::order_is_transitive;
use crate::decimal::sum;
use crate::decimal::write_out;
use crate::decimal::written;
use crate::ranked::joined;
use crate::decimal::Dec;
use crate::text::decimal;
use crate::text::push_decimal;
use crate::ticks::AggressorSide;
use crate::ticks::TradeTick;

verus! {

/// A bar: what traded in the window that closes at `close_ts`.
#[derive(Clone, Copy, Debug, PartialEq, Eq, Structural)]
pub struct BarAcc {
    pub open: Dec,
    pub high: Dec,
    pub low: Dec,
    pub close: Dec,
    pub volume: Dec,
    pub count: u64,
    pub close_ts: u128,
}

/// When the window closes that an instant falls in. Windows start at the epoch.
pub open spec fn window_close(ts: u64, interval: u64) -> u128 {
    ((ts as int / interval as int + 1) * interval) as u128
}

/// The bar of one trade.
pub open spec fn opened_bar(trade: TradeTick, interval: u64) -> BarAcc {
    BarAcc {
        open: trade.price,
        high: trade.price,
        low: trade.price,
        close: trade.price,
        volume: trade.size,
        count: 1,
        close_ts: window_close(trade.ts_event, interval),
    }
}

/// A bar with one more trade, whose sizes add up to `volume`.
pub open spec fn extended_bar(bar: BarAcc, trade: TradeTick, volume: Dec) -> BarAcc {
    BarAcc {
        open: bar.open,
        high: if bar.high.below(trade.price) {
            trade.price
        } else {
            bar.high
        },
        low: if trade.price.below(bar.low) {
            trade.price
        } else {
            bar.low
        },
        close: trade.price,
        volume,
        count: (bar.count + 1) as u64,
        close_ts: bar.close_ts,
    }
}

/// The bar that is open after a trade, and the one that the trade closed.
/// `None` where the sizes of a bar do not add up to an amount.
pub open spec fn folded(bar: Option<BarAcc>, trade: TradeTick, interval: u64) -> Option<
    (BarAcc, Option<BarAcc>),
> {
    match bar {
        None => Some((opened_bar(trade, interval), None)),
        Some(bar) => if trade.ts_event >= bar.close_ts {
            Some((opened_bar(trade, interval), Some(bar)))
        } else {
            match sum(bar.volume, trade.size) {
                Some(volume) => Some((extended_bar(bar, trade, volume), None)),
                None => None,
            }
        },
    }
}

fn close_of(ts: u64, interval: u64) -> (close: u128)
    requires
        interval > 0,
    ensures
        close == window_close(ts, interval),
        close > ts,
{
    let whole: u128 = (ts / interval) as u128 + 1;
    assert(0 < whole * interval <= u64::MAX + interval && whole * interval > ts) by (nonlinear_arith)
        requires
            interval > 0,
            whole == ts / interval + 1,
            ts <= u64::MAX,
    ;
    whole * interval as u128
}

/// Puts a trade into the open bar, and hands the bar out that the trade closed.
/// `None` where the sizes of the bar do not add up to an amount: the bar then
/// stays as it is.
pub fn fold_trade(bar: &mut Option<BarAcc>, trade: &TradeTick, interval: u64) -> (closed: Option<
    Option<BarAcc>,
>)
    requires
        interval > 0,
        *old(bar) is Some ==> old(bar)->0.count < u64::MAX,
    ensures
        match folded(*old(bar), *trade, interval) {
            Some((open, shut)) => closed == Some(shut) && *final(bar) == Some(open),
            None => closed is None && *final(bar) == *old(bar),
        },
{
    match *bar {
        Some(acc) => {
            if (trade.ts_event as u128) < acc.close_ts {
                match add_up(acc.volume, trade.size) {
                    Some(volume) => {
                        let high = if acc.high.is_below(&trade.price) {
                            trade.price
                        } else {
                            acc.high
                        };
                        let low = if trade.price.is_below(&acc.low) {
                            trade.price
                        } else {
                            acc.low
                        };
                        *bar = Some(
                            BarAcc {
                                open: acc.open,
                                high,
                                low,
                                close: trade.price,
                                volume,
                                count: acc.count + 1,
                                close_ts: acc.close_ts,
                            },
                        );
                        return Some(None);
                    },
                    None => {
                        return None;
                    },
                }
            }
        },
        None => {},
    }
    let shut = *bar;
    *bar = Some(
        BarAcc {
            open: trade.price,
            high: trade.price,
            low: trade.price,
            close: trade.price,
            volume: trade.size,
            count: 1,
            close_ts: close_of(trade.ts_event, interval),
        },
    );
    Some(shut)
}

/// The bars written so far: where the last one closed and at what price.
pub struct Sheet {
    pub rows: Seq<BarAcc>,
    pub prev_close: Option<u128>,
    pub carry: Option<Dec>,
}

/// A flat bar, in which nothing traded.
pub open spec fn flat_bar(price: Dec, close_ts: u128) -> BarAcc {
    BarAcc {
        open: price,
        high: price,
        low: price,
        close: price,
        volume: Dec::of_whole(0),
        count: 0,
        close_ts,
    }
}

/// The sheet with a flat bar for each window after the last one that closes
/// before `target`, where there is one, and not after `end`.
pub open spec fn filled(sheet: Sheet, target: Option<u128>, end: u64, interval: u64) -> Sheet
    decreases
            (if sheet.prev_close is Some {
                end as int - sheet.prev_close->0 + 1
            } else {
                0
            }),
{
    if sheet.prev_close is None || sheet.carry is None || interval == 0 {
        sheet
    } else {
        let next = sheet.prev_close->0 + interval;
        if (target is Some && next >= target->0) || next > end {
            sheet
        } else {
            filled(
                Sheet {
                    rows: sheet.rows.push(flat_bar(sheet.carry->0, next as u128)),
                    prev_close: Some(next as u128),
                    carry: sheet.carry,
                },
                target,
                end,
                interval,
            )
        }
    }
}

/// The sheet with a bar of trades. A bar whose window started before the span
/// is left out.
pub open spec fn emitted(sheet: Sheet, bar: BarAcc, interval: u64, start: u64) -> Sheet {
    if bar.close_ts - interval < start {
        sheet
    } else {
        Sheet {
            rows: sheet.rows.push(bar),
            prev_close: Some(bar.close_ts),
            carry: Some(bar.close),
        }
    }
}

/// The sheet with a bar of trades, and with the flat ones before it.
pub open spec fn reached(sheet: Sheet, bar: BarAcc, start: u64, end: u64, interval: u64) -> Sheet {
    emitted(filled(sheet, Some(bar.close_ts), end, interval), bar, interval, start)
}

/// The sheet and the open bar after trades. `None` where the sizes of a bar do
/// not add up to an amount.
pub open spec fn gathered(trades: Seq<TradeTick>, start: u64, end: u64, interval: u64) -> Option<
    (Sheet, Option<BarAcc>),
>
    decreases trades.len(),
{
    if trades.len() == 0 {
        Some((Sheet { rows: Seq::empty(), prev_close: None, carry: None }, None))
    } else {
        match gathered(trades.drop_last(), start, end, interval) {
            None => None,
            Some((sheet, bar)) => match folded(bar, trades.last(), interval) {
                None => None,
                Some((open, None)) => Some((sheet, Some(open))),
                Some((open, Some(shut))) => Some(
                    (reached(sheet, shut, start, end, interval), Some(open)),
                ),
            },
        }
    }
}

/// The sheet at the end of the span: the open bar is on it where its window is
/// over by then, and flat bars follow to the end.
pub open spec fn ended(sheet: Sheet, open: Option<BarAcc>, start: u64, end: u64, interval: u64) -> Sheet {
    let flushed = if open is Some && open->0.close_ts <= end {
        reached(sheet, open->0, start, end, interval)
    } else {
        sheet
    };
    filled(flushed, None, end, interval)
}

/// The bars of trades in a span.
pub open spec fn bars_of(trades: Seq<TradeTick>, start: u64, end: u64, interval: u64) -> Option<
    Seq<BarAcc>,
> {
    match gathered(trades, start, end, interval) {
        Some((sheet, open)) => Some(ended(sheet, open, start, end, interval).rows),
        None => None,
    }
}

/// A bar as a line.
pub open spec fn bar_line(bar: BarAcc, interval: u64) -> Seq<char> {
    decimal((bar.close_ts - interval) as nat) + ","@ + decimal(bar.close_ts as nat) + ","@
        + written(bar.open) + ","@ + written(bar.high) + ","@ + written(bar.low) + ","@
        + written(bar.close) + ","@ + written(bar.volume) + ","@ + decimal(bar.count as nat)
        + "\n"@
}

/// Bars as lines.
pub open spec fn bar_lines(bars: Seq<BarAcc>, interval: u64) -> Seq<char>
    decreases bars.len(),
{
    if bars.len() == 0 {
        Seq::empty()
    } else {
        bar_lines(bars.drop_last(), interval) + bar_line(bars.last(), interval)
    }
}

fn write_bar_row(out: &mut String, bar: &BarAcc, interval: u64)
    requires
        bar.close_ts >= interval,
    ensures
        final(out)@ == old(out)@ + bar_line(*bar, interval),
{
    let ghost start = out@;
    push_decimal(out, bar.close_ts - interval as u128);
    out.append(",");
    push_decimal(out, bar.close_ts);
    out.append(",");
    out.append(write_out(bar.open).as_str());
    out.append(",");
    out.append(write_out(bar.high).as_str());
    out.append(",");
    out.append(write_out(bar.low).as_str());
    out.append(",");
    out.append(write_out(bar.close).as_str());
    out.append(",");
    out.append(write_out(bar.volume).as_str());
    out.append(",");
    push_decimal(out, bar.count as u128);
    out.append("\n");
    assert(out@ =~= start + bar_line(*bar, interval));
}

/// The lines written so far.
struct FillState {
    prev_close: Option<u128>,
    carry: Option<Dec>,
    lines: String,
}

impl FillState {
    spec fn stands_for(self, head: Seq<char>, sheet: Sheet, interval: u64) -> bool {
        &&& self.prev_close == sheet.prev_close
        &&& self.carry == sheet.carry
        &&& self.prev_close is Some == self.carry is Some
        &&& self.lines@ == head + bar_lines(sheet.rows, interval)
        &&& self.prev_close is Some ==> self.prev_close->0 <= u64::MAX + interval
    }

    fn push_bar(
        &mut self,
        bar: &BarAcc,
        interval: u64,
        Ghost(head): Ghost<Seq<char>>,
        Ghost(sheet): Ghost<Sheet>,
    )
        requires
            old(self).stands_for(head, sheet, interval),
            interval <= bar.close_ts <= u64::MAX + interval,
        ensures
            final(self).stands_for(
                head,
                Sheet {
                    rows: sheet.rows.push(*bar),
                    prev_close: Some(bar.close_ts),
                    carry: Some(bar.close),
                },
                interval,
            ),
    {
        write_bar_row(&mut self.lines, bar, interval);
        self.prev_close = Some(bar.close_ts);
        self.carry = Some(bar.close);
        proof {
            let rows = sheet.rows.push(*bar);
            assert(rows.drop_last() =~= sheet.rows);
            assert(self.lines@ =~= head + bar_lines(rows, interval));
        }
    }

    /// Writes a flat bar for each window up to `target`, or up to the end.
    fn fill_empty_to(
        &mut self,
        target: Option<u128>,
        end: u64,
        interval: u64,
        Ghost(head): Ghost<Seq<char>>,
        Ghost(sheet): Ghost<Sheet>,
    )
        requires
            interval > 0,
            old(self).stands_for(head, sheet, interval),
        ensures
            final(self).stands_for(head, filled(sheet, target, end, interval), interval),
    {
        let ghost mut now = sheet;
        loop
            invariant
                interval > 0,
                self.stands_for(head, now, interval),
                filled(now, target, end, interval) == filled(sheet, target, end, interval),
            ensures
                now == filled(sheet, target, end, interval),
            decreases
                    (if self.prev_close is Some {
                        end as int - self.prev_close->0 + 1 + interval
                    } else {
                        0
                    }),
        {
            let (closed, price) = match (self.prev_close, self.carry) {
                (Some(closed), Some(price)) => (closed, price),
                _ => {
                    break;
                },
            };
            let next: u128 = closed + interval as u128;
            if let Some(target) = target {
                if next >= target {
                    break;
                }
            }
            if next > end as u128 {
                break;
            }
            let empty = BarAcc {
                open: price,
                high: price,
                low: price,
                close: price,
                volume: Dec::whole(0),
                count: 0,
                close_ts: next,
            };
            self.push_bar(&empty, interval, Ghost(head), Ghost(now));
            proof {
                now =
                Sheet {
                    rows: now.rows.push(flat_bar(price, next)),
                    prev_close: Some(next),
                    carry: Some(price),
                };
            }
        }
    }

    /// Writes a bar of trades, unless its window started before the span.
    fn emit_real(
        &mut self,
        bar: &BarAcc,
        interval: u64,
        start: u64,
        Ghost(head): Ghost<Seq<char>>,
        Ghost(sheet): Ghost<Sheet>,
    )
        requires
            old(self).stands_for(head, sheet, interval),
            bar.close_ts <= u64::MAX + interval,
        ensures
            final(self).stands_for(head, emitted(sheet, *bar, interval, start), interval),
    {
        if bar.close_ts < interval as u128 || bar.close_ts - (interval as u128) < start as u128 {
            return;
        }
        self.push_bar(bar, interval, Ghost(head), Ghost(sheet));
    }
}

/// The first line of a file of bars.
pub open spec fn bar_header() -> Seq<char> {
    "open_ts,close_ts,open,high,low,close,volume,trade_count\n"@
}

/// Writes the bars of trades in a span, one line for each window that lies
/// within it from the first bar on. `None` where the sizes of a bar do not add
/// up to an amount.
pub fn write_bars(trades: &Vec<TradeTick>, start: u64, end: u64, interval: u64) -> (text: Option<
    String,
>)
    requires
        interval > 0,
    ensures
        text is Some == bars_of(trades@, start, end, interval) is Some,
        text is Some ==> text->0@ == bar_header() + bar_lines(
            bars_of(trades@, start, end, interval)->0,
            interval,
        ),
{
    let lines = "open_ts,close_ts,open,high,low,close,volume,trade_count\n".to_owned();
    let ghost head = bar_header();
    let mut state = FillState { prev_close: None, carry: None, lines };
    let mut acc: Option<BarAcc> = None;
    let ghost mut sheet = Sheet { rows: Seq::empty(), prev_close: None, carry: None };
    assert(state.lines@ =~= head + bar_lines(sheet.rows, interval));
    let mut i: usize = 0;
    while i < trades.len()
        invariant
            i <= trades.len(),
            interval > 0,
            state.stands_for(head, sheet, interval),
            gathered(trades@.take(i as int), start, end, interval) == Some((sheet, acc)),
            acc is Some ==> acc->0.count <= i && acc->0.close_ts <= u64::MAX + interval,
        decreases trades.len() - i,
    {
        let ghost before = sheet;
        proof {
            assert(trades@.take(i + 1).drop_last() =~= trades@.take(i as int));
            close_is_near(trades@[i as int].ts_event, interval);
        }
        match fold_trade(&mut acc, &trades[i], interval) {
            None => {
                proof {
                    gathering_stops(trades@, start, end, interval, i + 1);
                }
                return None;
            },
            Some(None) => {},
            Some(Some(closed)) => {
                state.fill_empty_to(Some(closed.close_ts), end, interval, Ghost(head), Ghost(before));
                let ghost full = filled(before, Some(closed.close_ts), end, interval);
                state.emit_real(&closed, interval, start, Ghost(head), Ghost(full));
                proof {
                    sheet = reached(before, closed, start, end, interval);
                }
            },
        }
        i += 1;
    }
    assert(trades@.take(i as int) =~= trades@);
    let ghost open_sheet = sheet;
    if let Some(open) = acc {
        if open.close_ts <= end as u128 {
            state.fill_empty_to(Some(open.close_ts), end, interval, Ghost(head), Ghost(sheet));
            let ghost full = filled(sheet, Some(open.close_ts), end, interval);
            state.emit_real(&open, interval, start, Ghost(head), Ghost(full));
            proof {
                sheet = reached(open_sheet, open, start, end, interval);
            }
        }
    }
    state.fill_empty_to(None, end, interval, Ghost(head), Ghost(sheet));
    Some(state.lines)
}

proof fn close_is_near(ts: u64, interval: u64)
    requires
        interval > 0,
    ensures
        ts < window_close(ts, interval) <= u64::MAX + interval,
        window_close(ts, interval) == (ts as int / interval as int + 1) * interval,
{
    let whole = ts as int / interval as int + 1;
    assert(0 < whole * interval <= u64::MAX + interval && whole * interval > ts) by (nonlinear_arith)
        requires
            interval > 0,
            whole == ts as int / interval as int + 1,
            ts <= u64::MAX,
    ;
}

proof fn gathering_stops(trades: Seq<TradeTick>, start: u64, end: u64, interval: u64, i: int)
    requires
        0 <= i <= trades.len(),
        gathered(trades.take(i), start, end, interval) is None,
    ensures
        gathered(trades, start, end, interval) is None,
    decreases trades.len() - i,
{
    if i == trades.len() {
        assert(trades.take(i) =~= trades);
    } else {
        assert(trades.take(i + 1).drop_last() =~= trades.take(i));
        gathering_stops(trades, start, end, interval, i + 1);
    }
}

/// Who took the price, in a word.
pub open spec fn word_of(side: AggressorSide) -> Seq<char> {
    match side {
        AggressorSide::Buyer => "buyer"@,
        AggressorSide::Seller => "seller"@,
        AggressorSide::NoAggressor => "none"@,
    }
}

/// Who took the price, in a word.
pub fn aggressor_word(side: AggressorSide) -> (word: &'static str)
    ensures
        word@ == word_of(side),
{
    match side {
        AggressorSide::Buyer => "buyer",
        AggressorSide::Seller => "seller",
        AggressorSide::NoAggressor => "none",
    }
}

/// A trade as a line.
pub open spec fn trade_line(trade: TradeTick) -> Seq<char> {
    decimal(trade.ts_event as nat) + ","@ + written(trade.price) + ","@ + written(trade.size) + ","@
        + word_of(trade.aggressor) + "\n"@
}

/// Trades as lines.
pub open spec fn trade_lines(trades: Seq<TradeTick>) -> Seq<char>
    decreases trades.len(),
{
    if trades.len() == 0 {
        Seq::empty()
    } else {
        trade_lines(trades.drop_last()) + trade_line(trades.last())
    }
}

/// Writes trades, one line each.
pub fn write_trades(trades: &Vec<TradeTick>) -> (text: String)
    ensures
        text@ == "ts_event,price,size,aggressor\n"@ + trade_lines(trades@),
{
    let ghost head = "ts_event,price,size,aggressor\n"@;
    let mut text = "ts_event,price,size,aggressor\n".to_owned();
    let mut i: usize = 0;
    assert(text@ =~= head + trade_lines(trades@.take(0)));
    while i < trades.len()
        invariant
            i <= trades.len(),
            text@ == head + trade_lines(trades@.take(i as int)),
        decreases trades.len() - i,
    {
        let ghost before = text@;
        let trade = &trades[i];
        push_decimal(&mut text, trade.ts_event as u128);
        text.append(",");
        text.append(write_out(trade.price).as_str());
        text.append(",");
        text.append(write_out(trade.size).as_str());
        text.append(",");
        text.append(aggressor_word(trade.aggressor));
        text.append("\n");
        proof {
            assert(text@ =~= before + trade_line(trades@[i as int]));
            assert(trades@.take(i + 1).drop_last() =~= trades@.take(i as int));
            assert(text@ =~= head + trade_lines(trades@.take(i + 1)));
        }
        i += 1;
    }
    assert(trades@.take(i as int) =~= trades@);
    text
}

/// Whether bars follow each other without a gap, each in a window of its own
/// within the span.
pub open spec fn in_a_row(rows: Seq<BarAcc>, start: u64, end: u64, interval: u64) -> bool {
    &&& forall|i: int|
        0 <= i < rows.len() ==> {
            &&& (#[trigger] rows[i]).close_ts as int % interval as int == 0
            &&& start <= rows[i].close_ts - interval
            &&& rows[i].close_ts <= end
        }
    &&& forall|i: int, j: int|
        #![trigger rows[i], rows[j]]
        0 <= i < rows.len() && j == i + 1 && j < rows.len() ==> rows[j].close_ts
            == rows[i].close_ts + interval
}

spec fn kept(sheet: Sheet, start: u64, end: u64, interval: u64) -> bool {
    &&& in_a_row(sheet.rows, start, end, interval)
    &&& sheet.prev_close is Some == (sheet.rows.len() > 0)
    &&& sheet.carry is Some == (sheet.rows.len() > 0)
    &&& sheet.rows.len() > 0 ==> sheet.prev_close == Some(sheet.rows.last().close_ts)
}

proof fn grid_steps(one: int, other: int, interval: int)
    requires
        interval > 0,
        one >= 0,
        other >= 0,
        one % interval == 0,
        other % interval == 0,
    ensures
        (one + interval) % interval == 0,
        one < other ==> one + interval <= other,
{
    let a = one / interval;
    let b = other / interval;
    vstd::arithmetic::div_mod::lemma_fundamental_div_mod(one, interval);
    vstd::arithmetic::div_mod::lemma_fundamental_div_mod(other, interval);
    assert(one == interval * a && other == interval * b);
    assert(one < other ==> one + interval <= other) by (nonlinear_arith)
        requires
            one == interval * a,
            other == interval * b,
            interval > 0,
    ;
    vstd::arithmetic::div_mod::lemma_mod_multiples_vanish(1, one, interval);
    assert(interval * 1 + one == one + interval);
}

proof fn pushing_keeps(sheet: Sheet, bar: BarAcc, start: u64, end: u64, interval: u64)
    requires
        interval > 0,
        kept(sheet, start, end, interval),
        bar.close_ts as int % interval as int == 0,
        start <= bar.close_ts - interval,
        bar.close_ts <= end,
        sheet.rows.len() > 0 ==> bar.close_ts == sheet.prev_close->0 + interval,
    ensures
        kept(
            Sheet {
                rows: sheet.rows.push(bar),
                prev_close: Some(bar.close_ts),
                carry: Some(bar.close),
            },
            start,
            end,
            interval,
        ),
{
    let rows = sheet.rows.push(bar);
    assert(rows.last() == bar);
    assert forall|i: int| 0 <= i < rows.len() implies {
        &&& (#[trigger] rows[i]).close_ts as int % interval as int == 0
        &&& start <= rows[i].close_ts - interval
        &&& rows[i].close_ts <= end
    } by {
        if i < sheet.rows.len() {
            assert(rows[i] == sheet.rows[i]);
        }
    }
    assert forall|i: int, j: int|
        #![trigger rows[i], rows[j]]
        0 <= i < rows.len() && j == i + 1 && j < rows.len() implies rows[j].close_ts
        == rows[i].close_ts + interval by {
        assert(rows[i] == sheet.rows[i]);
        if j < sheet.rows.len() {
            assert(rows[j] == sheet.rows[j]);
        } else {
            assert(sheet.rows[i] == sheet.rows.last());
        }
    }
}

proof fn filling_keeps(sheet: Sheet, target: Option<u128>, start: u64, end: u64, interval: u64)
    requires
        interval > 0,
        kept(sheet, start, end, interval),
    ensures
        ({
            let full = filled(sheet, target, end, interval);
            &&& kept(full, start, end, interval)
            &&& (full.rows.len() > 0) == (sheet.rows.len() > 0)
            &&& sheet.rows.len() > 0 && target is Some && target->0 <= end && target->0 as int
                % interval as int == 0 && sheet.prev_close->0 < target->0
                ==> full.prev_close->0 + interval == target->0
            &&& target is None && full.rows.len() > 0 ==> full.prev_close->0 + interval > end
        }),
    decreases
            (if sheet.prev_close is Some {
                end as int - sheet.prev_close->0 + 1
            } else {
                0
            }),
{
    if sheet.rows.len() > 0 {
        let last = sheet.rows[sheet.rows.len() - 1];
        let next = sheet.prev_close->0 + interval;
        grid_steps(last.close_ts as int, last.close_ts as int, interval as int);
        if target is Some {
            if target->0 as int % interval as int == 0 {
                grid_steps(last.close_ts as int, target->0 as int, interval as int);
            }
        }
        if !((target is Some && next >= target->0) || next > end) {
            let bar = flat_bar(sheet.carry->0, next as u128);
            pushing_keeps(sheet, bar, start, end, interval);
            let more = Sheet {
                rows: sheet.rows.push(bar),
                prev_close: Some(next as u128),
                carry: sheet.carry,
            };
            filling_keeps(more, target, start, end, interval);
        }
    }
}

proof fn reaching_keeps(sheet: Sheet, bar: BarAcc, start: u64, end: u64, interval: u64)
    requires
        interval > 0,
        kept(sheet, start, end, interval),
        bar.close_ts as int % interval as int == 0,
        bar.close_ts <= end,
        sheet.prev_close is Some ==> sheet.prev_close->0 < bar.close_ts,
    ensures
        kept(reached(sheet, bar, start, end, interval), start, end, interval),
        reached(sheet, bar, start, end, interval).prev_close is Some ==> reached(
            sheet,
            bar,
            start,
            end,
            interval,
        ).prev_close->0 <= bar.close_ts,
{
    filling_keeps(sheet, Some(bar.close_ts), start, end, interval);
    let full = filled(sheet, Some(bar.close_ts), end, interval);
    if bar.close_ts - interval >= start {
        pushing_keeps(full, bar, start, end, interval);
    }
}

proof fn gathering_keeps(trades: Seq<TradeTick>, start: u64, end: u64, interval: u64)
    requires
        interval > 0,
        forall|i: int| 0 <= i < trades.len() ==> (#[trigger] trades[i]).ts_event < end,
        gathered(trades, start, end, interval) is Some,
    ensures
        ({
            let (sheet, bar) = gathered(trades, start, end, interval)->0;
            &&& kept(sheet, start, end, interval)
            &&& bar is Some ==> bar->0.close_ts as int % interval as int == 0
            &&& bar is Some && sheet.prev_close is Some ==> sheet.prev_close->0 < bar->0.close_ts
            &&& bar is None ==> sheet.prev_close is None
        }),
    decreases trades.len(),
{
    if trades.len() > 0 {
        assert forall|i: int| 0 <= i < trades.drop_last().len() implies (
        #[trigger] trades.drop_last()[i]).ts_event < end by {
            assert(trades.drop_last()[i] == trades[i]);
        }
        gathering_keeps(trades.drop_last(), start, end, interval);
        let (sheet, bar) = gathered(trades.drop_last(), start, end, interval)->0;
        let trade = trades[trades.len() - 1];
        close_is_near(trade.ts_event, interval);
        let whole = trade.ts_event as int / interval as int + 1;
        vstd::arithmetic::div_mod::lemma_mod_multiples_basic(whole, interval as int);
        if bar is Some && trade.ts_event >= bar->0.close_ts {
            reaching_keeps(sheet, bar->0, start, end, interval);
        }
    }
}

/// Bars leave no gap: from the first one on every window that lies within the
/// span has exactly one, however few trades there are, and none lies outside
/// the span.
pub proof fn bars_leave_no_gap(trades: Seq<TradeTick>, start: u64, end: u64, interval: u64)
    requires
        interval > 0,
        forall|i: int| 0 <= i < trades.len() ==> (#[trigger] trades[i]).ts_event < end,
        bars_of(trades, start, end, interval) is Some,
    ensures
        ({
            let rows = bars_of(trades, start, end, interval)->0;
            &&& in_a_row(rows, start, end, interval)
            &&& rows.len() > 0 ==> rows.last().close_ts + interval > end
        }),
{
    gathering_keeps(trades, start, end, interval);
    let (sheet, open) = gathered(trades, start, end, interval)->0;
    let flushed = if open is Some && open->0.close_ts <= end {
        reached(sheet, open->0, start, end, interval)
    } else {
        sheet
    };
    if open is Some && open->0.close_ts <= end {
        reaching_keeps(sheet, open->0, start, end, interval);
    }
    filling_keeps(flushed, None, start, end, interval);
}

/// How many of some trades fall in the window that closes at an instant.
pub open spec fn traded_in(trades: Seq<TradeTick>, close_ts: u128, interval: u64) -> nat
    decreases trades.len(),
{
    if trades.len() == 0 {
        0
    } else {
        traded_in(trades.drop_last(), close_ts, interval) + if window_close(
            trades.last().ts_event,
            interval,
        ) == close_ts {
            1nat
        } else {
            0
        }
    }
}

/// Whether no trade comes before an earlier one.
pub open spec fn in_order(trades: Seq<TradeTick>) -> bool {
    forall|i: int, j: int|
        0 <= i <= j < trades.len() ==> (#[trigger] trades[i]).ts_event <= (
        #[trigger] trades[j]).ts_event
}

/// Whether a bar closes at an instant.
pub open spec fn has_bar(rows: Seq<BarAcc>, close_ts: u128) -> bool {
    exists|i: int| 0 <= i < rows.len() && (#[trigger] rows[i]).close_ts == close_ts
}

spec fn tallied(sheet: Sheet, trades: Seq<TradeTick>, interval: u64) -> bool {
    forall|i: int|
        0 <= i < sheet.rows.len() ==> {
            &&& (#[trigger] sheet.rows[i]).count == traded_in(
                trades,
                sheet.rows[i].close_ts,
                interval,
            )
            &&& sheet.prev_close is Some
            &&& sheet.rows[i].close_ts <= sheet.prev_close->0
        }
}

/// Later instants have later windows, and an instant before the close of a
/// window is in that window or an earlier one.
proof fn windows_rise(one: u64, other: u64, interval: u64)
    requires
        interval > 0,
        one <= other,
    ensures
        window_close(one, interval) <= window_close(other, interval),
        other < window_close(one, interval) ==> window_close(other, interval) == window_close(
            one,
            interval,
        ),
        window_close(other, interval) > other,
{
    close_is_near(one, interval);
    close_is_near(other, interval);
    let (a, b, t) = (one as int / interval as int, other as int / interval as int, interval as int);
    vstd::arithmetic::div_mod::lemma_fundamental_div_mod(one as int, t);
    vstd::arithmetic::div_mod::lemma_fundamental_div_mod(other as int, t);
    vstd::arithmetic::div_mod::lemma_div_is_ordered(one as int, other as int, t);
    assert((a + 1) * t <= (b + 1) * t) by (nonlinear_arith)
        requires
            a <= b,
            t > 0,
    ;
    if other < (a + 1) * t {
        assert(b < a + 1) by (nonlinear_arith)
            requires
                other == t * b + other as int % t,
                other as int % t >= 0,
                other < (a + 1) * t,
                t > 0,
        ;
    }
}

/// No trade is in a window that closes after that of the last trade.
proof fn none_is_later(trades: Seq<TradeTick>, close_ts: u128, interval: u64)
    requires
        interval > 0,
        in_order(trades),
        trades.len() > 0 ==> close_ts > window_close(trades.last().ts_event, interval),
    ensures
        traded_in(trades, close_ts, interval) == 0,
    decreases trades.len(),
{
    if trades.len() > 0 {
        let held = trades.drop_last();
        in_order_before(trades);
        if held.len() > 0 {
            assert(held.last() == trades[trades.len() - 2]);
            windows_rise(held.last().ts_event, trades.last().ts_event, interval);
        }
        none_is_later(held, close_ts, interval);
    }
}

proof fn in_order_before(trades: Seq<TradeTick>)
    requires
        in_order(trades),
        trades.len() > 0,
    ensures
        in_order(trades.drop_last()),
{
    let held = trades.drop_last();
    assert forall|i: int, j: int| 0 <= i <= j < held.len() implies (#[trigger] held[i]).ts_event
        <= (#[trigger] held[j]).ts_event by {
        assert(held[i] == trades[i] && held[j] == trades[j]);
    }
}

proof fn no_more_than_trades(trades: Seq<TradeTick>, close_ts: u128, interval: u64)
    ensures
        traded_in(trades, close_ts, interval) <= trades.len(),
    decreases trades.len(),
{
    if trades.len() > 0 {
        no_more_than_trades(trades.drop_last(), close_ts, interval);
    }
}

/// Flat bars are put where nothing traded.
proof fn filling_tallies(
    sheet: Sheet,
    target: Option<u128>,
    end: u64,
    interval: u64,
    trades: Seq<TradeTick>,
)
    requires
        interval > 0,
        tallied(sheet, trades, interval),
        sheet.prev_close is Some ==> forall|close_ts: u128|
            close_ts > sheet.prev_close->0 && (target is Some ==> close_ts < target->0) && close_ts
                <= end ==> #[trigger] traded_in(trades, close_ts, interval) == 0,
    ensures
        ({
            let full = filled(sheet, target, end, interval);
            &&& tallied(full, trades, interval)
            &&& forall|close_ts: u128| #[trigger]
                has_bar(sheet.rows, close_ts) ==> has_bar(full.rows, close_ts)
            &&& sheet.prev_close is Some ==> full.prev_close is Some && full.prev_close->0
                >= sheet.prev_close->0
            &&& full.prev_close is Some && target is Some && sheet.prev_close->0 < target->0
                ==> full.prev_close->0 < target->0
        }),
    decreases
            (if sheet.prev_close is Some {
                end as int - sheet.prev_close->0 + 1
            } else {
                0
            }),
{
    if sheet.prev_close is Some && sheet.carry is Some {
        let next = sheet.prev_close->0 + interval;
        if !((target is Some && next >= target->0) || next > end) {
            let bar = flat_bar(sheet.carry->0, next as u128);
            let more = Sheet {
                rows: sheet.rows.push(bar),
                prev_close: Some(next as u128),
                carry: sheet.carry,
            };
            assert(traded_in(trades, next as u128, interval) == 0);
            assert forall|i: int| 0 <= i < more.rows.len() implies {
                &&& (#[trigger] more.rows[i]).count == traded_in(
                    trades,
                    more.rows[i].close_ts,
                    interval,
                )
                &&& more.rows[i].close_ts <= more.prev_close->0
            } by {
                if i < sheet.rows.len() {
                    assert(more.rows[i] == sheet.rows[i]);
                }
            }
            pushing_shows(sheet.rows, bar);
            filling_tallies(more, target, end, interval, trades);
        }
    }
}

proof fn pushing_shows(rows: Seq<BarAcc>, bar: BarAcc)
    ensures
        forall|close_ts: u128| #[trigger]
            has_bar(rows, close_ts) ==> has_bar(rows.push(bar), close_ts),
        has_bar(rows.push(bar), bar.close_ts),
{
    let now = rows.push(bar);
    assert(now[rows.len() as int] == bar);
    assert forall|close_ts: u128| #[trigger] has_bar(rows, close_ts) implies has_bar(
        now,
        close_ts,
    ) by {
        let i = choose|i: int| 0 <= i < rows.len() && (#[trigger] rows[i]).close_ts == close_ts;
        assert(now[i].close_ts == close_ts);
    }
}

/// A bar of trades is put in its place, with all the trades of its window.
proof fn reaching_tallies(
    sheet: Sheet,
    bar: BarAcc,
    start: u64,
    end: u64,
    interval: u64,
    trades: Seq<TradeTick>,
)
    requires
        interval > 0,
        tallied(sheet, trades, interval),
        bar.count == traded_in(trades, bar.close_ts, interval),
        sheet.prev_close is Some ==> sheet.prev_close->0 < bar.close_ts,
        sheet.prev_close is Some ==> forall|close_ts: u128|
            close_ts > sheet.prev_close->0 && close_ts < bar.close_ts ==> #[trigger] traded_in(
                trades,
                close_ts,
                interval,
            ) == 0,
    ensures
        ({
            let after = reached(sheet, bar, start, end, interval);
            &&& tallied(after, trades, interval)
            &&& forall|close_ts: u128| #[trigger]
                has_bar(sheet.rows, close_ts) ==> has_bar(after.rows, close_ts)
            &&& bar.close_ts - interval >= start ==> has_bar(after.rows, bar.close_ts)
            &&& after.prev_close is Some ==> after.prev_close->0 <= bar.close_ts
        }),
{
    filling_tallies(sheet, Some(bar.close_ts), end, interval, trades);
    let full = filled(sheet, Some(bar.close_ts), end, interval);
    if bar.close_ts - interval >= start {
        let after = reached(sheet, bar, start, end, interval);
        pushing_shows(full.rows, bar);
        assert forall|i: int| 0 <= i < after.rows.len() implies {
            &&& (#[trigger] after.rows[i]).count == traded_in(
                trades,
                after.rows[i].close_ts,
                interval,
            )
            &&& after.rows[i].close_ts <= after.prev_close->0
        } by {
            if i < full.rows.len() {
                assert(after.rows[i] == full.rows[i]);
            }
        }
    }
}

/// Whether every window of the span before some instant that something traded in
/// has its bar.
spec fn shown_before(
    sheet: Sheet,
    before: u128,
    trades: Seq<TradeTick>,
    start: u64,
    interval: u64,
) -> bool {
    forall|close_ts: u128|
        close_ts < before && close_ts - interval >= start && #[trigger] traded_in(
            trades,
            close_ts,
            interval,
        ) > 0 ==> has_bar(sheet.rows, close_ts)
}

/// Between the last bar and an open one nothing traded.
proof fn nothing_between(
    sheet: Sheet,
    before: u128,
    trades: Seq<TradeTick>,
    start: u64,
    end: u64,
    interval: u64,
)
    requires
        interval > 0,
        kept(sheet, start, end, interval),
        tallied(sheet, trades, interval),
        shown_before(sheet, before, trades, start, interval),
    ensures
        sheet.prev_close is Some ==> forall|close_ts: u128|
            close_ts > sheet.prev_close->0 && close_ts < before ==> #[trigger] traded_in(
                trades,
                close_ts,
                interval,
            ) == 0,
{
    if sheet.prev_close is Some {
        let last = sheet.rows[sheet.rows.len() - 1];
        assert(last == sheet.rows.last());
        assert forall|close_ts: u128|
            close_ts > sheet.prev_close->0 && close_ts < before implies #[trigger] traded_in(
            trades,
            close_ts,
            interval,
        ) == 0 by {
            if traded_in(trades, close_ts, interval) > 0 {
                assert(has_bar(sheet.rows, close_ts));
                let i = choose|i: int|
                    0 <= i < sheet.rows.len() && (#[trigger] sheet.rows[i]).close_ts == close_ts;
                assert(sheet.rows[i].close_ts <= sheet.prev_close->0);
            }
        }
    }
}

proof fn gathering_tallies(trades: Seq<TradeTick>, start: u64, end: u64, interval: u64)
    requires
        interval > 0,
        trades.len() < u64::MAX,
        in_order(trades),
        forall|i: int| 0 <= i < trades.len() ==> (#[trigger] trades[i]).ts_event < end,
        gathered(trades, start, end, interval) is Some,
    ensures
        ({
            let (sheet, bar) = gathered(trades, start, end, interval)->0;
            &&& tallied(sheet, trades, interval)
            &&& bar is Some == (trades.len() > 0)
            &&& bar is Some ==> {
                &&& bar->0.close_ts == window_close(trades.last().ts_event, interval)
                &&& bar->0.count == traded_in(trades, bar->0.close_ts, interval)
                &&& shown_before(sheet, bar->0.close_ts, trades, start, interval)
            }
        }),
    decreases trades.len(),
{
    if trades.len() > 0 {
        let held = trades.drop_last();
        let trade = trades.last();
        in_order_before(trades);
        assert forall|i: int| 0 <= i < held.len() implies (#[trigger] held[i]).ts_event < end by {
            assert(held[i] == trades[i]);
        }
        gathering_tallies(held, start, end, interval);
        gathering_keeps(held, start, end, interval);
        let (sheet, bar) = gathered(held, start, end, interval)->0;
        let (after, open) = gathered(trades, start, end, interval)->0;
        let now = window_close(trade.ts_event, interval);
        no_more_than_trades(held, now, interval);
        assert forall|close_ts: u128| close_ts != now implies #[trigger] traded_in(
            trades,
            close_ts,
            interval,
        ) == traded_in(held, close_ts, interval) by {}
        if held.len() == 0 {
            assert forall|close_ts: u128|
                close_ts < now && close_ts - interval >= start implies #[trigger] traded_in(
                trades,
                close_ts,
                interval,
            ) == 0 by {}
        } else {
            let last = held.last();
            assert(last == trades[trades.len() - 2]);
            windows_rise(last.ts_event, trade.ts_event, interval);
            let shut = bar->0;
            if trade.ts_event < shut.close_ts {
                assert(now == shut.close_ts);
                assert forall|i: int| 0 <= i < sheet.rows.len() implies (
                #[trigger] sheet.rows[i]).close_ts != now by {
                    assert(sheet.rows[i].close_ts <= sheet.prev_close->0);
                }
                assert(tallied(after, trades, interval));
                assert(shown_before(after, now, trades, start, interval)) by {
                    assert forall|close_ts: u128|
                        close_ts < now && close_ts - interval >= start && #[trigger] traded_in(
                            trades,
                            close_ts,
                            interval,
                        ) > 0 implies has_bar(after.rows, close_ts) by {
                        assert(traded_in(held, close_ts, interval) > 0);
                    }
                }
            } else {
                assert(now > shut.close_ts);
                nothing_between(sheet, shut.close_ts, held, start, end, interval);
                reaching_tallies(sheet, shut, start, end, interval, held);
                none_is_later(held, now, interval);
                assert forall|i: int| 0 <= i < after.rows.len() implies (
                #[trigger] after.rows[i]).count == traded_in(
                    trades,
                    after.rows[i].close_ts,
                    interval,
                ) by {
                    assert(after.rows[i].close_ts <= after.prev_close->0);
                    assert(traded_in(trades, after.rows[i].close_ts, interval) == traded_in(
                        held,
                        after.rows[i].close_ts,
                        interval,
                    ));
                }
                assert(shown_before(after, now, trades, start, interval)) by {
                    assert forall|close_ts: u128|
                        close_ts < now && close_ts - interval >= start && #[trigger] traded_in(
                            trades,
                            close_ts,
                            interval,
                        ) > 0 implies has_bar(after.rows, close_ts) by {
                        assert(traded_in(held, close_ts, interval) > 0);
                        if close_ts > shut.close_ts {
                            none_is_later(held, close_ts, interval);
                        } else if close_ts < shut.close_ts {
                            assert(has_bar(sheet.rows, close_ts));
                        }
                    }
                }
            }
        }
    }
}

/// Every trade of a window that lies within the span is counted once, in the bar
/// of that window: a bar counts the trades of its window, and a window of the
/// span that something traded in has a bar.
pub proof fn every_trade_is_in_its_bar(
    trades: Seq<TradeTick>,
    start: u64,
    end: u64,
    interval: u64,
)
    requires
        interval > 0,
        trades.len() < u64::MAX,
        in_order(trades),
        forall|i: int| 0 <= i < trades.len() ==> (#[trigger] trades[i]).ts_event < end,
        bars_of(trades, start, end, interval) is Some,
    ensures
        ({
            let rows = bars_of(trades, start, end, interval)->0;
            &&& forall|i: int|
                0 <= i < rows.len() ==> (#[trigger] rows[i]).count == traded_in(
                    trades,
                    rows[i].close_ts,
                    interval,
                )
            &&& forall|close_ts: u128|
                start + interval <= close_ts <= end && #[trigger] traded_in(
                    trades,
                    close_ts,
                    interval,
                ) > 0 ==> has_bar(rows, close_ts)
        }),
{
    gathering_tallies(trades, start, end, interval);
    gathering_keeps(trades, start, end, interval);
    let (sheet, open) = gathered(trades, start, end, interval)->0;
    if open is Some {
        let bar = open->0;
        nothing_between(sheet, bar.close_ts, trades, start, end, interval);
        let flushed = if bar.close_ts <= end {
            reached(sheet, bar, start, end, interval)
        } else {
            sheet
        };
        if bar.close_ts <= end {
            reaching_tallies(sheet, bar, start, end, interval, trades);
        }
        assert forall|close_ts: u128| close_ts > bar.close_ts implies #[trigger] traded_in(
            trades,
            close_ts,
            interval,
        ) == 0 by {
            none_is_later(trades, close_ts, interval);
        }
        if flushed.prev_close is Some {
            assert forall|close_ts: u128|
                close_ts > flushed.prev_close->0 && close_ts <= end implies #[trigger] traded_in(
                trades,
                close_ts,
                interval,
            ) == 0 by {
                if bar.close_ts <= end && sheet.prev_close is Some {
                    let last = sheet.rows[sheet.rows.len() - 1];
                    assert(last.close_ts - interval >= start);
                    assert(flushed.prev_close == Some(bar.close_ts));
                }
            }
        }
        filling_tallies(flushed, None, end, interval, trades);
    }
}

/// Whether the first of some bars has traded, and each that has not is flat at
/// the close of the one before it.
pub open spec fn is_carried(rows: Seq<BarAcc>) -> bool {
    &&& rows.len() > 0 ==> rows[0].count > 0
    &&& forall|i: int, j: int|
        #![trigger rows[i], rows[j]]
        0 <= i < rows.len() && j == i + 1 && j < rows.len() && rows[j].count == 0 ==> rows[j]
            == flat_bar(rows[i].close, rows[j].close_ts)
}

spec fn carries(sheet: Sheet) -> bool {
    &&& is_carried(sheet.rows)
    &&& sheet.carry is Some == (sheet.rows.len() > 0)
    &&& sheet.rows.len() > 0 ==> sheet.carry == Some(sheet.rows.last().close)
}

proof fn pushing_carries(sheet: Sheet, bar: BarAcc)
    requires
        carries(sheet),
        bar.count > 0 || sheet.carry is Some && bar == flat_bar(sheet.carry->0, bar.close_ts),
    ensures
        carries(
            Sheet {
                rows: sheet.rows.push(bar),
                prev_close: Some(bar.close_ts),
                carry: Some(bar.close),
            },
        ),
{
    let rows = sheet.rows.push(bar);
    assert(rows.last() == bar);
    if sheet.rows.len() > 0 {
        assert(rows[0] == sheet.rows[0]);
    }
    assert forall|i: int, j: int|
        #![trigger rows[i], rows[j]]
        0 <= i < rows.len() && j == i + 1 && j < rows.len() && rows[j].count == 0 implies rows[j]
        == flat_bar(rows[i].close, rows[j].close_ts) by {
        assert(rows[i] == sheet.rows[i]);
        if j < sheet.rows.len() {
            assert(rows[j] == sheet.rows[j]);
        } else {
            assert(sheet.rows[i] == sheet.rows.last());
        }
    }
}

proof fn filling_carries(sheet: Sheet, target: Option<u128>, end: u64, interval: u64)
    requires
        carries(sheet),
    ensures
        carries(filled(sheet, target, end, interval)),
    decreases
            (if sheet.prev_close is Some {
                end as int - sheet.prev_close->0 + 1
            } else {
                0
            }),
{
    if sheet.prev_close is Some && sheet.carry is Some && interval > 0 {
        let next = sheet.prev_close->0 + interval;
        if !((target is Some && next >= target->0) || next > end) {
            let bar = flat_bar(sheet.carry->0, next as u128);
            pushing_carries(sheet, bar);
            let more = Sheet {
                rows: sheet.rows.push(bar),
                prev_close: Some(next as u128),
                carry: sheet.carry,
            };
            filling_carries(more, target, end, interval);
        }
    }
}

proof fn reaching_carries(sheet: Sheet, bar: BarAcc, start: u64, end: u64, interval: u64)
    requires
        carries(sheet),
        bar.count > 0,
    ensures
        carries(reached(sheet, bar, start, end, interval)),
{
    filling_carries(sheet, Some(bar.close_ts), end, interval);
    pushing_carries(filled(sheet, Some(bar.close_ts), end, interval), bar);
}

proof fn gathering_carries(trades: Seq<TradeTick>, start: u64, end: u64, interval: u64)
    requires
        trades.len() < u64::MAX,
        gathered(trades, start, end, interval) is Some,
    ensures
        ({
            let (sheet, bar) = gathered(trades, start, end, interval)->0;
            &&& carries(sheet)
            &&& bar is Some ==> 0 < bar->0.count <= trades.len()
        }),
    decreases trades.len(),
{
    if trades.len() > 0 {
        gathering_carries(trades.drop_last(), start, end, interval);
        let (sheet, bar) = gathered(trades.drop_last(), start, end, interval)->0;
        if bar is Some && trades.last().ts_event >= bar->0.close_ts {
            reaching_carries(sheet, bar->0, start, end, interval);
        }
    }
}

/// The first bar is one that something traded in, and a bar that nothing traded
/// in repeats the close of the bar before it: its prices are all that close, and
/// its volume and its count are zero.
pub proof fn an_empty_bar_repeats_the_close(
    trades: Seq<TradeTick>,
    start: u64,
    end: u64,
    interval: u64,
)
    requires
        trades.len() < u64::MAX,
        bars_of(trades, start, end, interval) is Some,
    ensures
        is_carried(bars_of(trades, start, end, interval)->0),
{
    gathering_carries(trades, start, end, interval);
    let (sheet, open) = gathered(trades, start, end, interval)->0;
    let flushed = if open is Some && open->0.close_ts <= end {
        reached(sheet, open->0, start, end, interval)
    } else {
        sheet
    };
    if open is Some && open->0.close_ts <= end {
        reaching_carries(sheet, open->0, start, end, interval);
    }
    filling_carries(flushed, None, end, interval);
}

/// The trades that fall in the window that closes at an instant, in their order.
pub open spec fn window_trades(trades: Seq<TradeTick>, close_ts: u128, interval: u64) -> Seq<
    TradeTick,
> {
    trades.filter(|trade: TradeTick| close_ts - interval <= trade.ts_event < close_ts)
}

/// What some amounts come to, one after the other; `None` where no amount holds
/// it, and where there are none.
pub open spec fn total(amounts: Seq<Dec>) -> Option<Dec>
    decreases amounts.len(),
{
    if amounts.len() == 0 {
        None
    } else if amounts.len() == 1 {
        Some(amounts[0])
    } else {
        match total(amounts.drop_last()) {
            Some(before) => sum(before, amounts.last()),
            None => None,
        }
    }
}

/// Whether a bar tells these trades: it opens at the first price and closes at
/// the last, its high and its low are prices that traded and none that traded is
/// beyond them, its volume is what the sizes come to, and its count is how many
/// there are.
pub open spec fn tells(bar: BarAcc, trades: Seq<TradeTick>) -> bool {
    &&& trades.len() > 0
    &&& bar.open == trades.first().price
    &&& bar.close == trades.last().price
    &&& exists|i: int| 0 <= i < trades.len() && (#[trigger] trades[i]).price == bar.high
    &&& exists|i: int| 0 <= i < trades.len() && (#[trigger] trades[i]).price == bar.low
    &&& forall|i: int|
        0 <= i < trades.len() ==> !bar.high.below((#[trigger] trades[i]).price)
            && !trades[i].price.below(bar.low)
    &&& total(trades.map_values(|trade: TradeTick| trade.size)) == Some(bar.volume)
    &&& bar.count == trades.len()
}

/// An instant is in the window that it falls in, and in no other.
proof fn windows_are_apart(ts: u64, close_ts: u128, interval: u64)
    requires
        interval > 0,
        close_ts as int % interval as int == 0,
    ensures
        (close_ts - interval <= ts < close_ts) == (window_close(ts, interval) == close_ts),
{
    close_is_near(ts, interval);
    let (w, t, c) = (ts as int / interval as int, interval as int, close_ts as int / interval as int);
    vstd::arithmetic::div_mod::lemma_fundamental_div_mod(ts as int, t);
    vstd::arithmetic::div_mod::lemma_fundamental_div_mod(close_ts as int, t);
    let rest = ts as int % t;
    assert((c * t - t <= ts < c * t) == ((w + 1) * t == c * t)) by (nonlinear_arith)
        requires
            ts == t * w + rest,
            0 <= rest < t,
            t > 0,
    {
        if c * t - t <= ts < c * t {
            assert((c - 1) * t <= ts);
            assert(w < c);
            assert(c - 1 < w + 1);
            assert(w + 1 == c);
        }
        if (w + 1) * t == c * t {
            assert(w + 1 == c);
        }
    }
    assert(t * c == c * t) by (nonlinear_arith);
}

/// One more trade is in its own window, and in no other.
proof fn one_more_trade(trades: Seq<TradeTick>, close_ts: u128, interval: u64)
    requires
        interval > 0,
        trades.len() > 0,
        close_ts as int % interval as int == 0,
    ensures
        window_trades(trades, close_ts, interval) == (if window_close(
            trades.last().ts_event,
            interval,
        ) == close_ts {
            window_trades(trades.drop_last(), close_ts, interval).push(trades.last())
        } else {
            window_trades(trades.drop_last(), close_ts, interval)
        }),
{
    windows_are_apart(trades.last().ts_event, close_ts, interval);
    reveal(Seq::filter);
}

proof fn counted_alike(trades: Seq<TradeTick>, close_ts: u128, interval: u64)
    requires
        interval > 0,
        close_ts as int % interval as int == 0,
    ensures
        window_trades(trades, close_ts, interval).len() == traded_in(trades, close_ts, interval),
    decreases trades.len(),
{
    reveal(Seq::filter);
    if trades.len() > 0 {
        one_more_trade(trades, close_ts, interval);
        counted_alike(trades.drop_last(), close_ts, interval);
    }
}

/// A bar that is extended by a trade tells that trade too.
proof fn extending_tells(bar: BarAcc, trades: Seq<TradeTick>, trade: TradeTick, volume: Dec)
    requires
        tells(bar, trades),
        trades.len() < u64::MAX,
        sum(bar.volume, trade.size) == Some(volume),
    ensures
        tells(extended_bar(bar, trade, volume), trades.push(trade)),
{
    let more = trades.push(trade);
    let now = extended_bar(bar, trade, volume);
    let size = |trade: TradeTick| trade.size;
    assert(more.map_values(size).drop_last() =~= trades.map_values(size));
    let top = choose|i: int| 0 <= i < trades.len() && (#[trigger] trades[i]).price == bar.high;
    let bottom = choose|i: int| 0 <= i < trades.len() && (#[trigger] trades[i]).price == bar.low;
    assert(more[top] == trades[top] && more[bottom] == trades[bottom]);
    assert(more[trades.len() as int] == trade);
    amounts_are_ordered(bar.high, trade.price);
    amounts_are_ordered(trade.price, bar.low);
    amounts_are_ordered(trade.price, trade.price);
    order_is_transitive(bar.high, bar.high, now.high);
    order_is_transitive(now.low, bar.low, bar.low);
    assert forall|i: int| 0 <= i < more.len() implies !now.high.below((#[trigger] more[i]).price)
        && !more[i].price.below(now.low) by {
        if i < trades.len() {
            assert(more[i] == trades[i]);
            order_is_transitive(trades[i].price, bar.high, now.high);
            order_is_transitive(now.low, bar.low, trades[i].price);
        }
    }
}

/// Whether each bar of a sheet that traded tells the trades of its window.
spec fn all_tell(sheet: Sheet, trades: Seq<TradeTick>, interval: u64) -> bool {
    forall|i: int|
        0 <= i < sheet.rows.len() && (#[trigger] sheet.rows[i]).count > 0 ==> tells(
            sheet.rows[i],
            window_trades(trades, sheet.rows[i].close_ts, interval),
        )
}

proof fn filling_tells(
    sheet: Sheet,
    target: Option<u128>,
    end: u64,
    interval: u64,
    trades: Seq<TradeTick>,
)
    requires
        all_tell(sheet, trades, interval),
    ensures
        all_tell(filled(sheet, target, end, interval), trades, interval),
    decreases
            (if sheet.prev_close is Some {
                end as int - sheet.prev_close->0 + 1
            } else {
                0
            }),
{
    if sheet.prev_close is Some && sheet.carry is Some && interval > 0 {
        let next = sheet.prev_close->0 + interval;
        if !((target is Some && next >= target->0) || next > end) {
            let more = Sheet {
                rows: sheet.rows.push(flat_bar(sheet.carry->0, next as u128)),
                prev_close: Some(next as u128),
                carry: sheet.carry,
            };
            assert(all_tell(more, trades, interval)) by {
                assert forall|i: int|
                    0 <= i < more.rows.len() && (#[trigger] more.rows[i]).count > 0 implies tells(
                    more.rows[i],
                    window_trades(trades, more.rows[i].close_ts, interval),
                ) by {
                    assert(more.rows[i] == sheet.rows[i]);
                }
            }
            filling_tells(more, target, end, interval, trades);
        }
    }
}

proof fn reaching_tells(
    sheet: Sheet,
    bar: BarAcc,
    start: u64,
    end: u64,
    interval: u64,
    trades: Seq<TradeTick>,
)
    requires
        all_tell(sheet, trades, interval),
        tells(bar, window_trades(trades, bar.close_ts, interval)),
    ensures
        all_tell(reached(sheet, bar, start, end, interval), trades, interval),
{
    filling_tells(sheet, Some(bar.close_ts), end, interval, trades);
    let full = filled(sheet, Some(bar.close_ts), end, interval);
    let after = reached(sheet, bar, start, end, interval);
    assert forall|i: int|
        0 <= i < after.rows.len() && (#[trigger] after.rows[i]).count > 0 implies tells(
        after.rows[i],
        window_trades(trades, after.rows[i].close_ts, interval),
    ) by {
        if i < full.rows.len() {
            assert(after.rows[i] == full.rows[i]);
        }
    }
}

proof fn gathering_tells(trades: Seq<TradeTick>, start: u64, end: u64, interval: u64)
    requires
        interval > 0,
        trades.len() < u64::MAX,
        in_order(trades),
        forall|i: int| 0 <= i < trades.len() ==> (#[trigger] trades[i]).ts_event < end,
        gathered(trades, start, end, interval) is Some,
    ensures
        ({
            let (sheet, bar) = gathered(trades, start, end, interval)->0;
            &&& all_tell(sheet, trades, interval)
            &&& bar is Some ==> tells(bar->0, window_trades(trades, bar->0.close_ts, interval))
        }),
    decreases trades.len(),
{
    if trades.len() > 0 {
        let held = trades.drop_last();
        let trade = trades.last();
        in_order_before(trades);
        assert forall|i: int| 0 <= i < held.len() implies (#[trigger] held[i]).ts_event < end by {
            assert(held[i] == trades[i]);
        }
        gathering_tells(held, start, end, interval);
        gathering_keeps(held, start, end, interval);
        gathering_keeps(trades, start, end, interval);
        gathering_tallies(held, start, end, interval);
        let (sheet, bar) = gathered(held, start, end, interval)->0;
        let (after, open) = gathered(trades, start, end, interval)->0;
        let now = window_close(trade.ts_event, interval);
        close_is_near(trade.ts_event, interval);
        let whole = trade.ts_event as int / interval as int + 1;
        vstd::arithmetic::div_mod::lemma_mod_multiples_basic(whole, interval as int);
        one_more_trade(trades, now, interval);
        counted_alike(held, now, interval);
        let grown = window_trades(held, now, interval);
        if held.len() > 0 {
            assert(held.last() == trades[trades.len() - 2]);
            windows_rise(held.last().ts_event, trade.ts_event, interval);
            no_more_than_trades(held, now, interval);
        }
        if held.len() > 0 && trade.ts_event < bar->0.close_ts {
            let volume = sum(bar->0.volume, trade.size)->0;
            extending_tells(bar->0, grown, trade, volume);
        } else {
            if held.len() > 0 {
                none_is_later(held, now, interval);
                reaching_tells(sheet, bar->0, start, end, interval, held);
            }
            assert(grown =~= Seq::empty());
            let one = window_trades(trades, now, interval);
            assert(one =~= seq![trade]);
            assert(one.map_values(|trade: TradeTick| trade.size) =~= seq![trade.size]);
            assert(one[0].price == open->0.high && one[0].price == open->0.low);
            amounts_are_ordered(trade.price, trade.price);
            assert(tells(open->0, one));
        }
        assert forall|i: int|
            0 <= i < after.rows.len() && (#[trigger] after.rows[i]).count > 0 implies tells(
            after.rows[i],
            window_trades(trades, after.rows[i].close_ts, interval),
        ) by {
            row_closes_by(after, start, end, interval, i);
            assert(after.rows[i].close_ts < now);
            one_more_trade(trades, after.rows[i].close_ts, interval);
        }
    }
}

/// No bar of a sheet closes after its last one.
proof fn row_closes_by(sheet: Sheet, start: u64, end: u64, interval: u64, i: int)
    requires
        kept(sheet, start, end, interval),
        0 <= i < sheet.rows.len(),
    ensures
        sheet.rows[i].close_ts <= sheet.prev_close->0,
    decreases sheet.rows.len() - i,
{
    if i + 1 < sheet.rows.len() {
        assert(sheet.rows[i + 1].close_ts == sheet.rows[i].close_ts + interval);
        row_closes_by(sheet, start, end, interval, i + 1);
    }
}

/// A bar tells the trades of its window and no others: it opens at the first
/// price and closes at the last, its high and its low are the extreme prices that
/// traded, its volume is what the sizes come to, and its count is how many trades
/// there were. A trade whose window lies within the span has such a bar, and a
/// bar in whose window nothing traded has no volume.
pub proof fn a_bar_tells_its_window(trades: Seq<TradeTick>, start: u64, end: u64, interval: u64)
    requires
        interval > 0,
        trades.len() < u64::MAX,
        in_order(trades),
        forall|i: int| 0 <= i < trades.len() ==> (#[trigger] trades[i]).ts_event < end,
        bars_of(trades, start, end, interval) is Some,
    ensures
        ({
            let rows = bars_of(trades, start, end, interval)->0;
            &&& forall|i: int|
                0 <= i < rows.len() ==> {
                    let held = window_trades(trades, (#[trigger] rows[i]).close_ts, interval);
                    if held.len() > 0 {
                        tells(rows[i], held)
                    } else {
                        rows[i].count == 0 && rows[i].volume == Dec::of_whole(0)
                    }
                }
            &&& forall|k: int|
                0 <= k < trades.len() && window_lies_within(
                    (#[trigger] trades[k]).ts_event,
                    start,
                    end,
                    interval,
                ) ==> exists|i: int|
                    0 <= i < rows.len() && (#[trigger] rows[i]).close_ts - interval
                        <= trades[k].ts_event < rows[i].close_ts
        }),
{
    every_trade_is_in_its_bar(trades, start, end, interval);
    bars_leave_no_gap(trades, start, end, interval);
    an_empty_bar_repeats_the_close(trades, start, end, interval);
    gathering_tells(trades, start, end, interval);
    let rows = bars_of(trades, start, end, interval)->0;
    let (sheet, open) = gathered(trades, start, end, interval)->0;
    let flushed = if open is Some && open->0.close_ts <= end {
        reached(sheet, open->0, start, end, interval)
    } else {
        sheet
    };
    if open is Some && open->0.close_ts <= end {
        reaching_tells(sheet, open->0, start, end, interval, trades);
    }
    filling_tells(flushed, None, end, interval, trades);
    let full = ended(sheet, open, start, end, interval);
    assert forall|i: int| 0 <= i < rows.len() implies {
        let held = window_trades(trades, (#[trigger] rows[i]).close_ts, interval);
        if held.len() > 0 {
            tells(rows[i], held)
        } else {
            rows[i].count == 0 && rows[i].volume == Dec::of_whole(0)
        }
    } by {
        assert(full.rows[i] == rows[i]);
        counted_alike(trades, rows[i].close_ts, interval);
        if i > 0 {
            assert(rows[i - 1].count >= 0);
        }
    }
    assert forall|k: int|
        0 <= k < trades.len() && window_lies_within(
            (#[trigger] trades[k]).ts_event,
            start,
            end,
            interval,
        ) implies exists|i: int|
        0 <= i < rows.len() && (#[trigger] rows[i]).close_ts - interval <= trades[k].ts_event
            < rows[i].close_ts by {
        let ts = trades[k].ts_event;
        let close_ts = window_close(ts, interval);
        close_is_near(ts, interval);
        let whole = ts as int / interval as int;
        vstd::arithmetic::div_mod::lemma_mod_multiples_basic(whole + 1, interval as int);
        assert((whole + 1) * interval == whole * interval + interval) by (nonlinear_arith);
        windows_are_apart(ts, close_ts, interval);
        is_traded_in(trades, k, interval);
        assert(has_bar(rows, close_ts));
    }
}

/// Whether the window that an instant falls in lies within a span.
pub open spec fn window_lies_within(ts: u64, start: u64, end: u64, interval: u64) -> bool {
    let opens = (ts as int / interval as int) * interval;
    start <= opens && opens + interval <= end
}

proof fn is_traded_in(trades: Seq<TradeTick>, k: int, interval: u64)
    requires
        0 <= k < trades.len(),
    ensures
        traded_in(trades, window_close(trades[k].ts_event, interval), interval) > 0,
    decreases trades.len(),
{
    if k < trades.len() - 1 {
        is_traded_in(trades.drop_last(), k, interval);
        assert(trades.drop_last()[k] == trades[k]);
    }
}

/// A row of a file has its fields in the order of the header, with a comma between
/// each two, and ends its line: of a trade, when it was, its price, its size and
/// the side that took the price.
pub proof fn a_trade_is_a_row_of_its_fields(trade: TradeTick)
    ensures
        trade_line(trade) == joined(
            seq![
                decimal(trade.ts_event as nat),
                written(trade.price),
                written(trade.size),
                word_of(trade.aggressor),
            ],
            ","@,
        ).push('\n'),
        word_of(AggressorSide::Buyer) == "buyer"@,
        word_of(AggressorSide::Seller) == "seller"@,
        word_of(AggressorSide::NoAggressor) == "none"@,
{
    reveal_strlit("\n");
    let f = seq![
        decimal(trade.ts_event as nat),
        written(trade.price),
        written(trade.size),
        word_of(trade.aggressor),
    ];
    assert(f.drop_last() =~= seq![f[0], f[1], f[2]]);
    assert(f.drop_last().drop_last() =~= seq![f[0], f[1]]);
    assert(f.drop_last().drop_last().drop_last() =~= seq![f[0]]);
    reveal_with_fuel(joined, 5);
    assert(trade_line(trade) =~= joined(f, ","@).push('\n'));
}

/// A bar is a row of where its window opens and closes, its first, highest, lowest
/// and last price, what was traded and in how many trades.
pub proof fn a_bar_is_a_row_of_its_fields(bar: BarAcc, interval: u64)
    ensures
        bar_line(bar, interval) == joined(
            seq![
                decimal((bar.close_ts - interval) as nat),
                decimal(bar.close_ts as nat),
                written(bar.open),
                written(bar.high),
                written(bar.low),
                written(bar.close),
                written(bar.volume),
                decimal(bar.count as nat),
            ],
            ","@,
        ).push('\n'),
        bar_header() == joined(
            seq![
                "open_ts"@,
                "close_ts"@,
                "open"@,
                "high"@,
                "low"@,
                "close"@,
                "volume"@,
                "trade_count"@,
            ],
            ","@,
        ).push('\n'),
{
    reveal_strlit("\n");
    let f = seq![
        decimal((bar.close_ts - interval) as nat),
        decimal(bar.close_ts as nat),
        written(bar.open),
        written(bar.high),
        written(bar.low),
        written(bar.close),
        written(bar.volume),
        decimal(bar.count as nat),
    ];
    eight_joined(f);
    assert(bar_line(bar, interval) =~= joined(f, ","@).push('\n'));
    let h = seq![
        "open_ts"@,
        "close_ts"@,
        "open"@,
        "high"@,
        "low"@,
        "close"@,
        "volume"@,
        "trade_count"@,
    ];
    eight_joined(h);
    reveal_strlit("open_ts,close_ts,open,high,low,close,volume,trade_count\n");
    reveal_strlit("open_ts");
    reveal_strlit("close_ts");
    reveal_strlit("open");
    reveal_strlit("high");
    reveal_strlit("low");
    reveal_strlit("close");
    reveal_strlit("volume");
    reveal_strlit("trade_count");
    reveal_strlit(",");
    assert(bar_header() =~= joined(h, ","@).push('\n'));
}

proof fn eight_joined(f: Seq<Seq<char>>)
    requires
        f.len() == 8,
    ensures
        joined(f, ","@) == f[0] + ","@ + f[1] + ","@ + f[2] + ","@ + f[3] + ","@ + f[4] + ","@
            + f[5] + ","@ + f[6] + ","@ + f[7],
{
    let f7 = f.drop_last();
    let f6 = f7.drop_last();
    let f5 = f6.drop_last();
    let f4 = f5.drop_last();
    let f3 = f4.drop_last();
    let f2 = f3.drop_last();
    assert(joined(f2.drop_last(), ","@) == f[0]);
    assert(joined(f2, ","@) == f[0] + ","@ + f[1]);
    assert(joined(f3, ","@) == joined(f2, ","@) + ","@ + f[2]);
    assert(joined(f4, ","@) == joined(f3, ","@) + ","@ + f[3]);
    assert(joined(f5, ","@) == joined(f4, ","@) + ","@ + f[4]);
    assert(joined(f6, ","@) == joined(f5, ","@) + ","@ + f[5]);
    assert(joined(f7, ","@) == joined(f6, ","@) + ","@ + f[6]);
}

/// A file has one row for each trade, or each bar, in their order.
pub proof fn a_file_has_a_row_for_each(
    trades: Seq<TradeTick>,
    trade: TradeTick,
    bars: Seq<BarAcc>,
    bar: BarAcc,
    interval: u64,
)
    ensures
        trade_lines(Seq::<TradeTick>::empty()).len() == 0,
        trade_lines(trades.push(trade)) == trade_lines(trades) + trade_line(trade),
        bar_lines(Seq::<BarAcc>::empty(), interval).len() == 0,
        bar_lines(bars.push(bar), interval) == bar_lines(bars, interval) + bar_line(bar, interval),
{
    assert(trades.push(trade).drop_last() =~= trades);
    assert(bars.push(bar).drop_last() =~= bars);
}

} // verus!
