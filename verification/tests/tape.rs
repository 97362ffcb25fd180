use mogwai_server::calendar::{open_throughout, SessionCalendar, WeeklyWindow};
use mogwai_server::decimal::Dec;
use mogwai_server::duration::{parse_duration, sim_duration_from_millis, unit_of, window_until_ns};
use mogwai_server::fills::{
    bucket, reading_start, scan_start, walk_is_slow, Lookup, MarketReading, MarketReadingCache,
    VOL_WINDOW_NS,
};
use mogwai_server::instrument::{
    Generator, InstrumentClass, InstrumentDef, InstrumentProfile, SessionProfile,
};
use mogwai_server::ranked::{is_before, put_in_order};
use mogwai_server::source::{
    has_tape, last_trade_at_or_before, materialize_warmup, InstrumentProfiles, LookBack, Warmup,
    MAX_WARMUP_MATERIALIZATION_TICKS, SWEEP_DRAIN_BUDGET,
};
use mogwai_server::ticks::{AggressorSide, QuoteTick, TickEvent, TradeTick};

const MINUTE: u64 = 60_000_000_000;

fn dec(mantissa: i128, scale: u32) -> Dec {
    Dec::new(mantissa, scale).expect("a decimal amount")
}

fn trade(ts: u64, price: i128) -> TickEvent {
    TickEvent::Trade(TradeTick {
        price: dec(price, 0),
        size: dec(1, 0),
        aggressor: AggressorSide::Buyer,
        ts_event: ts,
    })
}

fn quote(ts: u64) -> TickEvent {
    TickEvent::Quote(QuoteTick {
        bid_px: dec(1, 0),
        ask_px: dec(2, 0),
        bid_sz: dec(1, 0),
        ask_sz: dec(1, 0),
        ts_event: ts,
    })
}

fn profile(symbol: &str) -> InstrumentProfile {
    InstrumentProfile {
        def: InstrumentDef {
            symbol: symbol.to_string(),
            class: InstrumentClass::Spot {
                base: "B".to_string(),
                quote: "Q".to_string(),
            },
            price_precision: 0,
            size_precision: 0,
            price_increment: dec(1, 0),
            size_increment: dec(1, 0),
        },
        generator: Generator {
            symbol: symbol.to_string(),
            modal_tick: dec(1, 0),
            price_decimals: 0,
            bid_size: dec(1, 0),
            ask_size: dec(1, 0),
        },
        margin: None,
        fees: None,
        session: SessionProfile {
            intensity_hour: vec![1.0_f64.to_bits(); 24],
            vol_hour: vec![1.0_f64.to_bits(); 24],
            dow_weight: vec![1.0_f64.to_bits(); 7],
        },
        calendar: None,
    }
}

#[test]
fn last_trade_at_or_before_never_looks_ahead() {
    let ticks = vec![quote(1), trade(2, 100), quote(3), trade(5, 200), quote(6)];
    let before_second = 4;
    assert_eq!(
        last_trade_at_or_before(&ticks, before_second, SWEEP_DRAIN_BUDGET, 0, false, None),
        LookBack::Answer {
            price: Some(dec(100, 0))
        }
    );
    assert_eq!(
        last_trade_at_or_before(&ticks, 5, SWEEP_DRAIN_BUDGET, 0, false, None),
        LookBack::Answer {
            price: Some(dec(200, 0))
        }
    );
}

#[test]
fn a_look_back_goes_further_until_it_may_not() {
    let ticks = vec![quote(1), trade(9, 100)];
    assert_eq!(
        last_trade_at_or_before(&ticks, 5, 10, 0, false, None),
        LookBack::Further { budget: 8, back: 1 }
    );
    assert_eq!(
        last_trade_at_or_before(&ticks, 5, 10, 4, false, None),
        LookBack::Further { budget: 8, back: 8 }
    );
    assert_eq!(
        last_trade_at_or_before(&ticks, 5, 10, 4, true, Some(dec(7, 0))),
        LookBack::Answer {
            price: Some(dec(7, 0))
        }
    );
    assert_eq!(
        last_trade_at_or_before(&ticks, 5, 1, 4, true, Some(dec(7, 0))),
        LookBack::Answer { price: None }
    );
    assert_eq!(
        last_trade_at_or_before(&ticks, 5, 2, 4, false, None),
        LookBack::Answer { price: None }
    );
}

#[test]
fn every_configured_symbol_gets_its_own_chain() {
    let profiles = InstrumentProfiles::from_profiles(vec![profile("BTCUSDT"), profile("SECOND")]);
    assert!(has_tape("BTCUSDT", &profiles, None));
    assert!(has_tape("SECOND", &profiles, None));
    assert!(!has_tape("NOT-A-SYMBOL", &profiles, None));
    assert!(has_tape("BTCUSDT", &profiles, Some("BTCUSDT")));
    assert!(!has_tape("SECOND", &profiles, Some("BTCUSDT")));
}

#[test]
fn of_two_profiles_with_one_symbol_the_later_counts() {
    let mut later = profile("BTCUSDT");
    later.def.price_precision = 5;
    let profiles = InstrumentProfiles::from_profiles(vec![profile("BTCUSDT"), later]);
    assert_eq!(profiles.get("BTCUSDT").unwrap().def.price_precision, 5);
    assert_eq!(profiles.instrument_defs().len(), 1);
}

#[test]
fn a_warmup_goes_on_until_the_start() {
    assert_eq!(
        materialize_warmup(10, 5, 90, 3, 100),
        Warmup::Again { walked_total: 15 }
    );
    assert_eq!(
        materialize_warmup(10, 5, 100, 3, 100),
        Warmup::Ready { checkpoints: 3 }
    );
    let stopped = materialize_warmup(10, 0, 90, 3, 100);
    assert_eq!(stopped, Warmup::Stopped);
    assert_eq!(
        stopped.message().as_deref(),
        Some("warmup generator stopped before the run start")
    );
    let far = materialize_warmup(MAX_WARMUP_MATERIALIZATION_TICKS, 1, 100, 3, 100);
    assert_eq!(far, Warmup::TooFar);
    assert_eq!(
        far.message().as_deref(),
        Some("warmup generation exceeded its measured 1335079000000-tick reach ceiling")
    );
}

#[test]
fn a_reading_serves_its_interval_and_no_other() {
    let reading = MarketReading {
        last_px: dec(5, 0),
        ts_ns: 3,
        band_ticks: 4,
    };
    let mut cache = MarketReadingCache::for_symbol("BTCUSDT");
    let key = match cache.read(250_000_000, 7, 200, 100) {
        Lookup::Read { symbol, key } => {
            assert_eq!(symbol, "BTCUSDT");
            key
        }
        other => panic!("{other:?}"),
    };
    assert_eq!(key.bucket_ns, 200_000_000);
    cache.remember(key, Some(reading));
    assert_eq!(
        cache.read(299_999_999, 7, 200, 100),
        Lookup::Known {
            reading: Some(reading)
        }
    );
    for (ts, bits, ticks) in [
        (300_000_000, 7, 200),
        (250_000_000, 8, 200),
        (250_000_000, 7, 201),
    ] {
        assert!(matches!(
            cache.read(ts, bits, ticks, 100),
            Lookup::Read { .. }
        ));
    }
    cache.remember(key, None);
    assert_eq!(
        cache.read(250_000_000, 7, 200, 100),
        Lookup::Known { reading: None }
    );
}

#[test]
fn an_interval_of_nothing_is_one_instant() {
    assert_eq!(bucket(17, 0), 17);
    assert_eq!(bucket(u64::MAX, u64::MAX), u64::MAX);
    assert_eq!(bucket(1_999_999, 1), 1_000_000);
}

#[test]
fn one_walk_serves_every_probe_on_a_symbol() {
    assert_eq!(scan_start(&vec![9, 4, 7]), Some(5));
    assert_eq!(scan_start(&vec![u64::MAX]), Some(u64::MAX));
    assert_eq!(scan_start(&vec![]), None);
    assert_eq!(reading_start(VOL_WINDOW_NS + 5), 6);
    assert_eq!(reading_start(5), 1);
    assert!(!walk_is_slow(2_500_000));
    assert!(walk_is_slow(2_500_001));
}

#[test]
fn a_calendar_is_read_in_local_time() {
    let cme = SessionCalendar {
        utc_offset_minutes: -300,
        open_windows: vec![
            WeeklyWindow {
                start_minute: 1_020,
                end_minute: 2_400,
            },
            WeeklyWindow {
                start_minute: 5_340,
                end_minute: 6_720,
            },
        ],
        settlement_minute_of_day: None,
    };
    let saturday_04h_local = 3_420 * MINUTE;
    assert!(!cme.is_open(saturday_04h_local));
    assert!(cme.is_open(0), "the epoch is a local Wednesday evening");
    assert!(open_throughout(Some(&cme), 0, 10 * MINUTE));
    assert!(!open_throughout(Some(&cme), 0, saturday_04h_local));
    assert!(open_throughout(None, 0, u64::MAX));
}

#[test]
fn a_unit_is_a_span() {
    assert_eq!(unit_of("s"), Some(1_000_000_000));
    assert_eq!(unit_of("mo"), Some(30 * 24 * 60 * MINUTE));
    assert_eq!(unit_of("ms"), None);
    assert_eq!(sim_duration_from_millis(7), 7_000_000);
    assert_eq!(sim_duration_from_millis(u64::MAX), u64::MAX);
    assert_eq!(window_until_ns(5, 1), 1_000_005);
    assert_eq!(window_until_ns(u64::MAX, 1), u64::MAX);
}

#[test]
fn a_duration_that_is_none_says_why() {
    let why = |s: &str| parse_duration(s).expect_err("it is none").message(s);
    let all: Vec<String> = ["d", "1", "99999999999999999999d", "0d", "1x", "999999999999y"]
        .iter()
        .map(|s| why(s))
        .collect();
    for (i, one) in all.iter().enumerate() {
        for other in &all[i + 1..] {
            assert_ne!(one, other);
        }
    }
}

#[test]
fn names_are_kept_in_the_order_of_their_characters() {
    let mut names: Vec<String> = Vec::new();
    for name in ["b", "a", "ab", "a", "B", "é"] {
        put_in_order(&mut names, name);
    }
    assert_eq!(names, ["B", "a", "ab", "b", "é"]);
    let mut sorted = names.clone();
    sorted.sort();
    assert_eq!(names, sorted);
    assert!(is_before("a", "ab"));
    assert!(!is_before("ab", "ab"));
}
