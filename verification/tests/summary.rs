use std::collections::BTreeMap;

use mogwai_server::calendar::{open_throughout, SessionCalendar, WeeklyWindow};
use mogwai_server::decimal::{decimal_key, Dec};
use mogwai_server::horizons::{LONG_HORIZON_S, SHORT_HORIZON_S};
use mogwai_server::parents::{Book, Observation};
use mogwai_server::summary::{summarize, Scope, Summary};
use mogwai_server::tally::Tally;
use mogwai_server::ticks::{AggressorSide, QuoteTick, TickEvent, TradeTick};

const WINDOW_NS: u64 = 20 * 60 * 1_000_000_000;

fn dec(mantissa: i128, scale: u32) -> Dec {
    Dec::new(mantissa, scale).expect("a decimal amount")
}

fn counts(tally: &Tally) -> BTreeMap<String, u64> {
    (0..tally.len())
        .map(|i| (tally.name(i).clone(), tally.count(tally.name(i))))
        .collect()
}

/// A tape of quotes, each with a few trades after it.
fn tape(until: u64) -> Vec<TickEvent> {
    let mut state: u64 = 42;
    let mut draw = |n: u64| {
        state = state
            .wrapping_mul(6_364_136_223_846_793_005)
            .wrapping_add(1_442_695_040_888_963_407);
        (state >> 33) % n
    };
    let mut ticks = Vec::new();
    let mut ts = 0;
    let mut price: i128 = 2_100_000;
    while ts < until {
        ts += 200_000_000 + draw(9_000_000_000);
        price += 25 * (draw(5) as i128 - 2);
        let width = 25 * (1 + draw(3) as i128);
        ticks.push(TickEvent::Quote(QuoteTick {
            bid_px: dec(price, 2),
            ask_px: dec(price + width, 2),
            bid_sz: dec(10 * (1 + draw(4) as i128), 1),
            ask_sz: dec(1 + draw(4) as i128, 0),
            ts_event: ts,
        }));
        for _ in 0..draw(4) {
            ts += draw(50_000_000);
            ticks.push(TickEvent::Trade(TradeTick {
                price: dec(price + 25 * draw(3) as i128, 2),
                size: dec(100 * (1 + draw(3) as i128), 2),
                aggressor: match draw(3) {
                    0 => AggressorSide::Buyer,
                    1 => AggressorSide::Seller,
                    _ => AggressorSide::NoAggressor,
                },
                ts_event: ts,
            }));
        }
    }
    ticks
}

fn summarized(ticks: &[TickEvent], scope: Scope) -> (Summary, Vec<Observation>) {
    summarize(&ticks.to_vec(), scope).expect("the tape is in range")
}

fn scope(start: u64, end: u64) -> Scope {
    Scope {
        tick: dec(25, 2),
        calendar: None,
        start,
        end,
    }
}

fn book(quote: &QuoteTick) -> Book {
    Book {
        bid: quote.bid_px,
        ask: quote.ask_px,
    }
}

#[test]
fn summary_matches_an_independent_tick_walk() {
    let ticks = tape(WINDOW_NS + 60_000_000_000);
    let (summary, observed) = summarized(&ticks, scope(0, WINDOW_NS));

    let events: Vec<&TickEvent> = ticks
        .iter()
        .take_while(|tick| tick.ts_event() < WINDOW_NS)
        .collect();
    let mut chunks: Vec<(QuoteTick, Vec<TradeTick>)> = Vec::new();
    for event in &events {
        match event {
            TickEvent::Quote(quote) => chunks.push((*quote, Vec::new())),
            TickEvent::Trade(trade) => {
                if let Some(chunk) = chunks.last_mut() {
                    chunk.1.push(*trade);
                }
            }
        }
    }
    let parents: Vec<&(QuoteTick, Vec<TradeTick>)> =
        chunks.iter().filter(|chunk| !chunk.1.is_empty()).collect();

    let mut rows = 0;
    let mut single = 0;
    let mut levels = 0;
    let mut gap_sum: u128 = 0;
    let mut gaps = 0;
    let mut returns = Vec::new();
    let mut displaced = Vec::new();
    let mut prev: Option<(u64, Book)> = None;
    let mut widths = BTreeMap::new();
    let mut bids = BTreeMap::new();
    let mut asks = BTreeMap::new();
    for (quote, trades) in &parents {
        let first = &trades[0];
        rows += trades.len() as u64;
        if trades.len() == 1 {
            single += 1;
        }
        let mut prices: Vec<Dec> = Vec::new();
        for trade in trades {
            if !prices.contains(&trade.price) {
                prices.push(trade.price);
            }
        }
        levels += prices.len() as u64;
        let width = (quote.ask_px.mantissa() - quote.bid_px.mantissa()) / 25;
        *widths.entry(width.to_string()).or_insert(0u64) += 1;
        *bids.entry(decimal_key(quote.bid_sz)).or_insert(0u64) += 1;
        *asks.entry(decimal_key(quote.ask_sz)).or_insert(0u64) += 1;
        if first.aggressor != AggressorSide::NoAggressor {
            displaced.push(Observation::Displacement {
                side: first.aggressor,
                price: first.price,
                book: book(quote),
            });
        }
        if let Some((at, from)) = prev {
            gap_sum += u128::from(first.ts_event - at);
            gaps += 1;
            returns.push(Observation::MidReturn {
                from,
                to: book(quote),
            });
        }
        prev = Some((first.ts_event, book(quote)));
    }
    assert_eq!(summary.counts.parents, parents.len() as u64);
    assert_eq!(summary.counts.sided_rows, rows);
    assert_eq!(summary.counts.single_parents, single);
    assert_eq!(summary.counts.level_count_sum, levels);
    assert_eq!(summary.counts.gap_sum_ns, gap_sum);
    assert_eq!(summary.counts.eligible_gaps, gaps);
    assert_eq!(counts(&summary.widths), widths);
    assert_eq!(counts(&summary.bid_sizes), bids);
    assert_eq!(counts(&summary.ask_sizes), asks);

    let mut sizes = BTreeMap::new();
    for event in &events {
        if let TickEvent::Trade(trade) = event {
            *sizes.entry(decimal_key(trade.size)).or_insert(0u64) += 1;
        }
    }
    assert_eq!(counts(&summary.sizes), sizes);

    let seen_returns: Vec<Observation> = observed
        .iter()
        .copied()
        .filter(|seen| matches!(seen, Observation::MidReturn { .. }))
        .collect();
    assert_eq!(seen_returns, returns);
    let seen_displaced: Vec<Observation> = observed
        .iter()
        .copied()
        .filter(|seen| matches!(seen, Observation::Displacement { .. }))
        .collect();
    assert_eq!(seen_displaced, displaced);
    assert_eq!(seen_returns.len() as u64, summary.counts.eligible_gaps);

    // The moments and the displacements in floating point, from what the summary
    // leaves to be measured and from the walk, to the last bit.
    let float = |amount: Dec| amount.mantissa() as f64 / 10_f64.powi(amount.scale() as i32);
    let middle = |book: Book| (float(book.bid) + float(book.ask)) / 2.0;
    let (mut sum, mut sumsq) = (0.0_f64, 0.0_f64);
    for seen in &seen_returns {
        if let Observation::MidReturn { from, to } = *seen {
            let moved = (middle(to) / middle(from)).ln();
            sum += moved;
            sumsq += moved * moved;
        }
    }
    let (mut walked_sum, mut walked_sumsq) = (0.0_f64, 0.0_f64);
    for pair in parents.windows(2) {
        let moved = (middle(book(&pair[1].0)) / middle(book(&pair[0].0))).ln();
        walked_sum += moved;
        walked_sumsq += moved * moved;
    }
    assert_eq!(sum.to_bits(), walked_sum.to_bits());
    assert_eq!(sumsq.to_bits(), walked_sumsq.to_bits());
    let bin = |away: f64| format!("{:.2}", (away / 0.05).floor() * 0.05);
    let mut bins: [BTreeMap<String, u64>; 2] = [BTreeMap::new(), BTreeMap::new()];
    for seen in &seen_displaced {
        if let Observation::Displacement { side, price, book } = *seen {
            let raw = (float(price) - middle(book)) / 0.25;
            let (at, away) = match side {
                AggressorSide::Buyer => (0, raw),
                _ => (1, -raw),
            };
            *bins[at].entry(bin(away)).or_insert(0) += 1;
        }
    }
    let mut walked: [BTreeMap<String, u64>; 2] = [BTreeMap::new(), BTreeMap::new()];
    for (quote, trades) in &parents {
        let raw = (float(trades[0].price) - middle(book(quote))) / 0.25;
        match trades[0].aggressor {
            AggressorSide::Buyer => *walked[0].entry(bin(raw)).or_insert(0) += 1,
            AggressorSide::Seller => *walked[1].entry(bin(-raw)).or_insert(0) += 1,
            AggressorSide::NoAggressor => {}
        }
    }
    assert_eq!(bins, walked);
    assert!(bins.iter().all(|side| !side.is_empty()));

    let quotes: Vec<(u64, Book)> = events
        .iter()
        .filter_map(|event| match event {
            TickEvent::Quote(quote) => Some((quote.ts_event, book(quote))),
            TickEvent::Trade(_) => None,
        })
        .collect();
    for seconds in [SHORT_HORIZON_S, LONG_HORIZON_S] {
        let span = seconds * 1_000_000_000;
        assert_eq!(WINDOW_NS % span, 0, "window must exercise the end boundary");
        let as_of = |at: u64| {
            quotes
                .iter()
                .rev()
                .find(|(ts, _)| *ts <= at)
                .map(|(_, book)| *book)
        };
        let mut expected = Vec::new();
        let mut k = 1;
        while k * span <= WINDOW_NS {
            if let (Some(from), Some(to)) = (as_of((k - 1) * span), as_of(k * span)) {
                expected.push(Observation::HorizonReturn { seconds, from, to });
            }
            k += 1;
        }
        let seen: Vec<Observation> = observed
            .iter()
            .copied()
            .filter(
                |seen| matches!(seen, Observation::HorizonReturn { seconds: s, .. } if *s == seconds),
            )
            .collect();
        assert_eq!(seen, expected, "h={seconds}");
    }
}

#[test]
fn a_warmup_is_walked_and_not_counted() {
    let ticks = tape(WINDOW_NS);
    let half = WINDOW_NS / 2;
    let (late, _) = summarized(&ticks, scope(half, WINDOW_NS));
    let (all, _) = summarized(&ticks, scope(0, WINDOW_NS));
    let (early, _) = summarized(&ticks, scope(0, half));
    assert!(late.counts.parents > 0 && early.counts.parents > 0);
    assert_eq!(
        late.counts.parents + early.counts.parents,
        all.counts.parents
    );
}

#[test]
fn the_middle_of_the_first_quote_is_kept() {
    let quote = |ts, bid: i128, ask: i128| {
        TickEvent::Quote(QuoteTick {
            bid_px: dec(bid, 2),
            ask_px: dec(ask, 2),
            bid_sz: dec(1, 0),
            ask_sz: dec(1, 0),
            ts_event: ts,
        })
    };
    let ticks = vec![quote(1, 100, 125), quote(5, 1_000, 1_050), quote(6, 7, 8)];
    let (summary, _) = summarized(&ticks, scope(5, 10));
    assert_eq!(summary.first_book_mid.as_deref(), Some("10.25"));
}

#[test]
fn a_span_that_closes_on_the_way_is_not_measured() {
    let ticks = tape(WINDOW_NS);
    let calendar = SessionCalendar {
        utc_offset_minutes: 0,
        open_windows: vec![WeeklyWindow {
            start_minute: 5_760,
            end_minute: 5_765,
        }],
        settlement_minute_of_day: None,
    };
    assert!(open_throughout(Some(&calendar), 0, 299_999_999_999));
    assert!(!open_throughout(Some(&calendar), 0, 300_000_000_000));
    let shut = Scope {
        calendar: Some(calendar),
        ..scope(0, WINDOW_NS)
    };
    let (_, observed) = summarized(&ticks, shut);
    let short = observed
        .iter()
        .filter(
            |seen| matches!(seen, Observation::HorizonReturn { seconds, .. } if *seconds == SHORT_HORIZON_S),
        )
        .count();
    let (_, all) = summarized(&ticks, scope(0, WINDOW_NS));
    let every = all
        .iter()
        .filter(
            |seen| matches!(seen, Observation::HorizonReturn { seconds, .. } if *seconds == SHORT_HORIZON_S),
        )
        .count();
    assert!(short < every, "{short} of {every}");
    assert!(short <= 4);
}

#[test]
fn an_amount_is_known_by_its_shortest_form() {
    assert_eq!(decimal_key(dec(1_500, 3)), "1.5");
    assert_eq!(decimal_key(dec(100, 2)), "1");
    assert_eq!(decimal_key(dec(0, 5)), "0");
    assert_eq!(decimal_key(dec(-2_50, 2)), "-2.5");
}

#[test]
fn what_follows_the_end_changes_nothing() {
    let half = WINDOW_NS / 2;
    let ticks = tape(WINDOW_NS);
    let (whole, seen) = summarized(&ticks, scope(0, half));
    let cut: Vec<TickEvent> = ticks
        .iter()
        .copied()
        .take_while(|tick| tick.ts_event() < half)
        .collect();
    let (short, seen_short) = summarized(&cut, scope(0, half));
    assert_eq!(whole.counts, short.counts);
    assert_eq!(counts(&whole.sizes), counts(&short.sizes));
    assert_eq!(seen, seen_short);
}

#[test]
fn the_counts_of_bursts_agree() {
    let ticks = tape(WINDOW_NS);
    let (summary, _) = summarized(&ticks, scope(0, WINDOW_NS));
    let counts = summary.counts;
    assert!(counts.single_parents <= counts.parents);
    assert!(counts.parents <= counts.level_count_sum);
    assert!(counts.level_count_sum <= counts.sided_rows);
    assert!(counts.eligible_gaps < counts.parents);
    let (none, _) = summarized(&[], scope(0, WINDOW_NS));
    assert_eq!((none.counts.parents, none.counts.eligible_gaps), (0, 0));
}

#[test]
fn a_quote_out_of_range_is_not_summed_up() {
    let vast = dec(79_228_162_514_264_337_593_543_950_335, 0);
    let quote = TickEvent::Quote(QuoteTick {
        ts_event: 1,
        bid_px: dec(-1, 0),
        ask_px: vast,
        bid_sz: dec(1, 0),
        ask_sz: dec(1, 0),
    });
    assert!(summarize(&vec![quote], scope(0, WINDOW_NS)).is_none());
    assert!(summarize(&vec![quote], scope(0, 1)).is_some());
}

#[test]
fn everything_in_the_span_is_counted_once() {
    let ticks = tape(WINDOW_NS);
    let (summary, _) = summarized(&ticks, scope(0, WINDOW_NS));
    let total = |tally: &Tally| counts(tally).values().sum::<u64>();
    let traded = ticks
        .iter()
        .filter(|tick| matches!(tick, TickEvent::Trade(_)) && tick.ts_event() < WINDOW_NS)
        .count();
    assert_eq!(total(&summary.sizes), traded as u64);
    for tally in [&summary.widths, &summary.bid_sizes, &summary.ask_sizes] {
        assert_eq!(total(tally), summary.counts.parents);
    }
}

#[test]
fn a_width_is_told_in_whole_ticks_and_a_middle_halfway() {
    let quote = TickEvent::Quote(QuoteTick {
        bid_px: dec(2_100_000, 2),
        ask_px: dec(2_100_075, 2),
        bid_sz: dec(2, 0),
        ask_sz: dec(30, 1),
        ts_event: 1,
    });
    let trade = TickEvent::Trade(TradeTick {
        price: dec(2_100_075, 2),
        size: dec(100, 2),
        aggressor: AggressorSide::Buyer,
        ts_event: 2,
    });
    let (summary, observed) = summarized(&[quote, trade], scope(0, 10));
    assert_eq!(counts(&summary.widths), BTreeMap::from([("3".to_string(), 1)]));
    assert_eq!(counts(&summary.sizes), BTreeMap::from([("1".to_string(), 1)]));
    assert_eq!(counts(&summary.bid_sizes), BTreeMap::from([("2".to_string(), 1)]));
    assert_eq!(counts(&summary.ask_sizes), BTreeMap::from([("3".to_string(), 1)]));
    assert_eq!(summary.first_book_mid.as_deref(), Some("21000.375"));
    assert_eq!(observed.len(), 1);
}
