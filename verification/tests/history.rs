use mogwai_server::calendar::{SessionCalendar, WeeklyWindow};
use mogwai_server::decimal::Dec;
use mogwai_server::history::{
    bounded_quotes, bounded_trades, history_failure, history_failure_body, history_page,
    history_start_refusal, is_wire_symbol, normalize_limit, plan_history, resolve_socket_symbol, truncated_symbol,
    unserved_symbol_refusal, HistoryGate, HistoryQuery, PageLimits, Status,
    MAX_CONCURRENT_HISTORY_REQUESTS,
};
use mogwai_server::instrument::{
    Generator, InstrumentClass, InstrumentDef, InstrumentProfile, SessionProfile,
};
use mogwai_server::orders::{reject_while_closed, OrderType};
use mogwai_server::source::InstrumentProfiles;
use mogwai_server::ticks::{AggressorSide, QuoteTick, TickEvent, TradeTick};

fn dec(mantissa: i128, scale: u32) -> Dec {
    Dec::new(mantissa, scale).expect("a decimal amount")
}

fn profile(symbol: &str) -> InstrumentProfile {
    InstrumentProfile {
        def: InstrumentDef {
            symbol: symbol.to_string(),
            class: InstrumentClass::Spot {
                base: "BTC".to_string(),
                quote: "USDT".to_string(),
            },
            price_precision: 2,
            size_precision: 3,
            price_increment: dec(1, 2),
            size_increment: dec(1, 3),
        },
        generator: Generator {
            symbol: symbol.to_string(),
            modal_tick: dec(1, 2),
            price_decimals: 2,
            bid_size: dec(1, 3),
            ask_size: dec(1, 3),
        },
        margin: None,
        fees: None,
        session: SessionProfile {
            intensity_hour: vec![1.0_f64.to_bits(); 24],
            vol_hour: vec![1.0_f64.to_bits(); 24],
            dow_weight: vec![1.0_f64.to_bits(); 7],
        },
        calendar: None,
    }
}

fn refusal_profiles(symbols: &[&str]) -> InstrumentProfiles {
    InstrumentProfiles::from_profiles(symbols.iter().map(|symbol| profile(symbol)).collect())
}

fn quote(ts: u64) -> TickEvent {
    TickEvent::Quote(QuoteTick {
        bid_px: dec(100 + ts as i128, 2),
        ask_px: dec(101 + ts as i128, 2),
        bid_sz: dec(1, 0),
        ask_sz: dec(2, 0),
        ts_event: ts,
    })
}

fn trade(ts: u64) -> TickEvent {
    TickEvent::Trade(TradeTick {
        price: dec(100 + ts as i128, 2),
        size: dec(1, 0),
        aggressor: AggressorSide::Buyer,
        ts_event: ts,
    })
}

fn tape() -> Vec<TickEvent> {
    vec![
        quote(1),
        trade(2),
        quote(3),
        quote(3),
        trade(5),
        quote(7),
        trade(8),
        quote(11),
    ]
}

#[test]
fn history_concurrency_refuses_instead_of_queueing() {
    assert_eq!(MAX_CONCURRENT_HISTORY_REQUESTS, 4);
    let mut gate = HistoryGate::new();
    let mut slots = Vec::new();
    for _ in 0..MAX_CONCURRENT_HISTORY_REQUESTS {
        slots.push(gate.admit_history().expect("slot"));
    }
    let refusal = gate
        .admit_history()
        .expect_err("the fifth request is refused");
    assert_eq!(refusal.status, Status::ServiceUnavailable);
    assert_eq!(refusal.status.code(), 503);
    assert_eq!(refusal.body, "history request capacity exhausted");
    gate.release(slots.pop().expect("a slot"));
    assert!(gate.admit_history().is_ok(), "a returned slot is reusable");
}

#[test]
fn a_history_page_holds_its_slot_until_its_body_is_written() {
    let mut gate = HistoryGate::new();
    for _ in 1..MAX_CONCURRENT_HISTORY_REQUESTS {
        gate.admit_history().expect("slot");
    }
    assert_eq!(gate.available(), 1);
    let slot = gate.admit_history().expect("slot");
    let mut page = history_page(slot, b"[]".to_vec());
    assert_eq!(gate.available(), 0, "the slot is held by the page");
    let body = page.poll_next().expect("the page body");
    assert_eq!(&body[..], b"[]");
    assert_eq!(page.poll_next(), None, "a page has one body");
    assert_eq!(gate.available(), 0);
    gate.release(page.into_slot());
    assert_eq!(
        gate.available(),
        1,
        "the slot returns only once the body is gone"
    );
}

#[test]
fn quote_history_refuses_below_a_nonzero_origin() {
    let refusal = history_start_refusal(Some(9), 10, 20).expect("off-tape refusal");
    assert!(refusal.contains("precedes data_origin_ns 10"));
    assert!(history_start_refusal(Some(10), 10, 20).is_none());
}

#[test]
fn a_start_past_the_clock_is_refused() {
    let refusal = history_start_refusal(Some(21), 10, 20).expect("a start ahead of the clock");
    assert!(refusal.contains("21"), "{refusal}");
    assert!(refusal.contains("20"), "{refusal}");
    assert!(history_start_refusal(Some(20), 10, 20).is_none());
    assert!(history_start_refusal(None, 10, 20).is_none());
}

#[test]
fn history_symbol_refusal_uses_the_synthesis_lookup() {
    let profiles = refusal_profiles(&["BTCUSDT"]);
    assert!(unserved_symbol_refusal("BTCUSDT", &profiles).is_none());

    let body = unserved_symbol_refusal("NOT-A-SYMBOL", &profiles)
        .expect("an unserved symbol must be refused");
    assert!(body.contains("NOT-A-SYMBOL"));
    assert!(body.contains("BTCUSDT"));
    assert!(
        unserved_symbol_refusal("btcusdt", &profiles).is_some(),
        "the guard must stay as case-exact as synthesis"
    );
    assert_eq!(profiles.served_symbols(), ["BTCUSDT"]);
}

#[test]
fn an_absent_socket_symbol_binds_the_boot_symbol() {
    let profiles = refusal_profiles(&["MNQ"]);
    assert_eq!(
        resolve_socket_symbol(None, "MNQ", &profiles).expect("default symbol"),
        "MNQ"
    );
}

#[test]
fn a_socket_symbol_matching_the_boot_symbol_binds_it() {
    let profiles = refusal_profiles(&["MNQ"]);
    assert_eq!(
        resolve_socket_symbol(Some("MNQ"), "MNQ", &profiles).expect("matching symbol"),
        "MNQ"
    );
}

#[test]
fn a_miscased_socket_symbol_is_refused_like_history() {
    let profiles = refusal_profiles(&["MNQ"]);
    let refusal = resolve_socket_symbol(Some("mnq"), "MNQ", &profiles)
        .expect_err("request lookup is case exact");
    assert_eq!(
        refusal,
        unserved_symbol_refusal("mnq", &profiles).expect("history refusal")
    );
}

#[test]
fn a_configured_but_unbooted_socket_symbol_names_the_bound_river() {
    let profiles = refusal_profiles(&["MNQ", "BTCUSDT"]);
    let refusal = resolve_socket_symbol(Some("BTCUSDT"), "MNQ", &profiles)
        .expect_err("configured is not the boot river");
    assert_eq!(
        refusal,
        "requested symbol BTCUSDT is configured but is not the river this run booted; this run serves MNQ"
    );
}

#[test]
fn an_unserved_socket_symbol_is_refused_in_the_history_wording() {
    let profiles = refusal_profiles(&["MNQ"]);
    let refusal =
        resolve_socket_symbol(Some("MES"), "MNQ", &profiles).expect_err("unserved symbol");
    assert_eq!(
        refusal,
        unserved_symbol_refusal("MES", &profiles).expect("shared refusal")
    );
    assert_eq!(
        refusal,
        "requested symbol MES is not served by this run; this run serves MNQ"
    );
}

#[test]
fn an_illegal_socket_symbol_is_refused_before_the_unserved_check() {
    let profiles = refusal_profiles(&["MNQ"]);
    let refusal =
        resolve_socket_symbol(Some("MN Q"), "MNQ", &profiles).expect_err("illegal symbol");
    assert!(refusal.contains("is not a legal symbol"), "{refusal}");
    assert!(!refusal.contains("is not served"), "{refusal}");
}

#[test]
fn an_absurd_socket_symbol_is_truncated_in_the_refusal() {
    let profiles = refusal_profiles(&["MNQ"]);
    let refusal = resolve_socket_symbol(Some(&"X".repeat(4096)), "MNQ", &profiles)
        .expect_err("absurd symbol");
    assert!(refusal.contains(&"X".repeat(64)), "{refusal}");
    assert!(!refusal.contains(&"X".repeat(65)), "{refusal}");
}

#[test]
fn served_symbols_are_sorted_for_deterministic_refusals() {
    let profiles = refusal_profiles(&["MNQ", "BTCUSDT"]);
    assert_eq!(profiles.served_symbols(), ["BTCUSDT", "MNQ"]);
}

#[test]
fn a_refusal_truncates_an_absurd_requested_symbol() {
    let profiles = refusal_profiles(&["BTCUSDT"]);
    let body = unserved_symbol_refusal(&"X".repeat(4096), &profiles)
        .expect("an unserved symbol must be refused");
    assert!(body.contains(&"X".repeat(64)), "the echo survives: {body}");
    assert!(
        !body.contains(&"X".repeat(65)),
        "the echo is capped: {body}"
    );
}

#[test]
fn an_echo_counts_characters() {
    assert_eq!(truncated_symbol("MNQ"), "MNQ");
    assert_eq!(truncated_symbol(&"é".repeat(70)), "é".repeat(64));
}

#[test]
fn a_wire_symbol_is_short_and_plain() {
    for symbol in ["A", "BTCUSDT", "a.b-c_9", &"X".repeat(32)] {
        assert!(is_wire_symbol(symbol), "{symbol}");
    }
    for symbol in ["", "MN Q", "BTC/USDT", "é", &"X".repeat(33)] {
        assert!(!is_wire_symbol(symbol), "{symbol}");
    }
}

#[test]
fn a_failed_page_names_what_was_asked_for() {
    assert_eq!(
        history_failure_body("MNQ", Some(5), Some(9)),
        "history for MNQ over [5, 9] could not be synthesized"
    );
}

#[test]
fn the_page_size_has_a_default_and_a_most() {
    let limits = PageLimits {
        default: 100,
        max: 500,
    };
    assert_eq!(normalize_limit(None, limits), 100);
    assert_eq!(normalize_limit(Some(0), limits), 0);
    assert_eq!(normalize_limit(Some(499), limits), 499);
    assert_eq!(normalize_limit(Some(501), limits), 500);
}

#[test]
fn a_planned_page_ends_at_the_clock() {
    let profiles = refusal_profiles(&["MNQ"]);
    let limits = PageLimits {
        default: 100,
        max: 500,
    };
    let plan = plan_history(
        HistoryQuery {
            symbol: "MNQ".to_string(),
            start: Some(5),
            end: Some(1_000),
            limit: None,
        },
        &profiles,
        20,
        limits,
    )
    .expect("a served page");
    assert_eq!((plan.start, plan.end, plan.limit), (Some(5), 20, 100));
    let refusal = history_failure(&plan);
    assert_eq!(refusal.status.code(), 500);

    let refusal = plan_history(
        HistoryQuery {
            symbol: "MES".to_string(),
            start: None,
            end: None,
            limit: None,
        },
        &profiles,
        20,
        limits,
    )
    .expect_err("an unserved symbol");
    assert_eq!(refusal.status.code(), 400);
    assert_eq!(
        Some(refusal.body),
        unserved_symbol_refusal("MES", &profiles)
    );
}

#[test]
fn bounded_quotes_respects_the_window_and_the_limit() {
    let ticks = tape();
    let first = bounded_quotes(&ticks, Some(0), None, 4);
    assert_eq!(first.len(), 4);
    assert!(first
        .windows(2)
        .all(|pair| pair[0].ts_event <= pair[1].ts_event));
    let start = first[1].ts_event;
    let end = first[2].ts_event;
    let bounded = bounded_quotes(&ticks, Some(start), Some(end), 10);
    assert!(!bounded.is_empty());
    assert!(bounded
        .iter()
        .all(|quote| (start..=end).contains(&quote.ts_event)));
}

#[test]
fn bounded_quotes_reproduce_the_live_quote_sequence() {
    let ticks = tape();
    let history = bounded_quotes(&ticks, Some(0), None, 100);
    let live: Vec<QuoteTick> = ticks
        .iter()
        .filter_map(|tick| match tick {
            TickEvent::Quote(quote) => Some(*quote),
            TickEvent::Trade(_) => None,
        })
        .collect();
    assert_eq!(history, live);
}

#[test]
fn the_quotes_route_is_no_longer_empty() {
    assert!(!bounded_quotes(&tape(), Some(0), None, 1).is_empty());
}

#[test]
fn a_page_of_trades_stops_at_its_end_and_at_its_limit() {
    let ticks = tape();
    let at = |rows: Vec<TradeTick>| rows.iter().map(|row| row.ts_event).collect::<Vec<_>>();
    assert_eq!(at(bounded_trades(&ticks, None, 10)), [2, 5, 8]);
    assert_eq!(at(bounded_trades(&ticks, Some(5), 10)), [2, 5]);
    assert_eq!(at(bounded_trades(&ticks, None, 2)), [2, 5]);
    assert!(bounded_trades(&ticks, None, 0).is_empty());
    assert!(bounded_quotes(&ticks, None, None, 0).is_empty());
}

#[test]
fn a_market_order_while_closed_is_rejected_not_filled_off_a_stale_print() {
    let calendar = SessionCalendar {
        utc_offset_minutes: 0,
        open_windows: vec![WeeklyWindow {
            start_minute: 5_760,
            end_minute: 5_761,
        }],
        settlement_minute_of_day: None,
    };
    let closed = calendar.is_open(2 * 60_000_000_000);
    let open = calendar.is_open(30_000_000_000);
    assert!(!closed);
    assert!(open);
    let last_px = 21_000;
    assert!(reject_while_closed(closed, OrderType::Market, None, None));
    assert!(
        !reject_while_closed(open, OrderType::Market, None, None),
        "an open market must not refuse a market order"
    );
    assert!(
        !reject_while_closed(
            closed,
            OrderType::Limit,
            Some(dec(1, 0)),
            Some(last_px <= 1)
        ),
        "a non-marketable limit rests through a closure rather than being refused"
    );
    assert!(
        reject_while_closed(
            closed,
            OrderType::Limit,
            Some(dec(30_000, 0)),
            Some(last_px <= 30_000)
        ),
        "a limit marketable against the stale print is refused with the market orders"
    );
}
