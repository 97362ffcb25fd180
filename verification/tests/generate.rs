use mogwai_server::bars::{aggressor_word, write_bars, write_trades};
use mogwai_server::decimal::Dec;
use mogwai_server::generate::{
    havoc_has_offline_inapplicable_surfaces, plan_span, plan_walk, profile_from_config,
    resolve_havoc_regime, resolve_profile, resolve_profile_for, resolve_regime, run_into, seed_of,
    trades_before, trades_within, GenArgs, GenError, GenType, HavocVerdicts, RegimeSource, Written,
    DEFAULT_GEN_SEED,
};
use mogwai_server::calendar::{SessionCalendar, WeeklyWindow};
use mogwai_server::instrument::{
    profile_from_configured, ConfiguredInstrument, ConfiguredMargin, Generator, GeneratorVerdicts,
    InstrumentClass, InstrumentDef, InstrumentProfile, MarginAction, SessionProfile, WireLimits,
};
use mogwai_server::presets::{effective_preset, resolve_document, PresetShelf};
use mogwai_server::provenance::validate_provenance;
use mogwai_server::source::InstrumentProfiles;
use mogwai_server::ticks::{AggressorSide, QuoteTick, TickEvent, TradeTick};

fn dec(mantissa: i128, scale: u32) -> Dec {
    Dec::new(mantissa, scale).expect("a decimal amount")
}

fn tt(ts: u64, price: i128, size: i128) -> TradeTick {
    TradeTick {
        price: dec(price, 0),
        size: dec(size, 0),
        aggressor: AggressorSide::NoAggressor,
        ts_event: ts,
    }
}

fn lines_of(text: Option<String>) -> Vec<String> {
    text.expect("amounts in range")
        .lines()
        .map(str::to_string)
        .collect()
}

fn profile(symbol: &str) -> InstrumentProfile {
    InstrumentProfile {
        def: InstrumentDef {
            symbol: symbol.to_string(),
            class: InstrumentClass::Spot {
                base: "BTC".to_string(),
                quote: "USDT".to_string(),
            },
            price_precision: 2,
            size_precision: 3,
            price_increment: dec(25, 2),
            size_increment: dec(1, 3),
        },
        generator: Generator {
            symbol: symbol.to_string(),
            modal_tick: dec(25, 2),
            price_decimals: 2,
            bid_size: dec(1, 3),
            ask_size: dec(1, 3),
        },
        margin: None,
        fees: None,
        session: SessionProfile {
            intensity_hour: vec![1.0_f64.to_bits(); 24],
            vol_hour: vec![1.0_f64.to_bits(); 24],
            dow_weight: vec![1.0_f64.to_bits(); 7],
        },
        calendar: None,
    }
}

fn args(kind: GenType, length: &str, interval: Option<&str>, warmup: Option<&str>) -> GenArgs {
    GenArgs {
        kind,
        length: length.to_string(),
        interval: interval.map(str::to_string),
        warmup: warmup.map(str::to_string),
        start: 0,
        seed: None,
        symbol: "BTCUSDT".to_string(),
        config: None,
        regime: None,
        havoc: None,
    }
}

/// A preset of a future that trades from Sunday evening to Friday afternoon, an
/// hour short of round the clock.
const MNQ: &str = r#"
[instrument]
symbol = "MNQ"
price_precision = 2
size_precision = 0
price_increment = "0.25"
size_increment = "1"

[instrument.class]
kind = "future"
underlying = "NQ"
settlement_currency = "USD"
multiplier = "2"
asset_class = "index"

[instrument.margin]
initial_per_contract = "2000"
maintenance_per_contract = "1800"

[instrument.generator]
modal_tick = "0.25"
price_decimals = 2
bid = "3"
ask = "4"

[instrument.session]
intensity_hour = [1.0, 1.5]
vol_hour = [0.5, 2.0]
dow_weight = [0.25, 1.0]

[instrument.calendar]
utc_offset_minutes = -300
open_windows = [
    { start_minute = 1080, end_minute = 2460 },
    { start_minute = 2520, end_minute = 3900 },
    { start_minute = 3960, end_minute = 5340 },
    { start_minute = 5400, end_minute = 6780 },
    { start_minute = 6840, end_minute = 8220 },
]

[provenance]
symbol = { kind = "declared", rationale = "the listed name" }
price_precision = { kind = "declared", rationale = "quarter points" }
size_precision = { kind = "declared", rationale = "whole contracts" }
price_increment = { kind = "declared", rationale = "quarter points" }
size_increment = { kind = "declared", rationale = "whole contracts" }
"class.kind" = { kind = "declared", rationale = "it is one" }
"class.underlying" = { kind = "declared", rationale = "the index" }
"class.settlement_currency" = { kind = "declared", rationale = "dollars" }
"class.multiplier" = { kind = "declared", rationale = "two dollars a point" }
"class.asset_class" = { kind = "declared", rationale = "an index" }
"margin.initial_per_contract" = { kind = "declared", rationale = "a margin" }
"margin.maintenance_per_contract" = { kind = "declared", rationale = "a margin" }
"generator.modal_tick" = { kind = "declared", rationale = "quarter points" }
"generator.price_decimals" = { kind = "declared", rationale = "quarter points" }
"generator.bid" = { kind = "declared", rationale = "a size" }
"generator.ask" = { kind = "declared", rationale = "a size" }
"session.intensity_hour" = { kind = "declared", rationale = "a day" }
"session.vol_hour" = { kind = "declared", rationale = "a day" }
"session.dow_weight" = { kind = "declared", rationale = "a week" }
"calendar.utc_offset_minutes" = { kind = "declared", rationale = "local" }
"calendar.open_windows" = { kind = "declared", rationale = "the hours" }
"#;

/// A preset that is another but for its name, its index and its multiplier.
const MES: &str = r#"
[instrument]
preset = "MNQ"

[instrument.override]
symbol = "MES"
"class.underlying" = "ES"
"class.multiplier" = "5"

[provenance]
"class.underlying" = { kind = "declared", rationale = "the other index" }
"class.multiplier" = { kind = "declared", rationale = "five dollars a point" }
"#;

/// A preset of a coin that trades round the clock.
fn coin(base: &str, tick: &str, decimals: u32, size: &str, places: u32, top: &str) -> String {
    let knobs = [
        "symbol",
        "price_precision",
        "size_precision",
        "price_increment",
        "size_increment",
        "\"class.kind\"",
        "\"class.base\"",
        "\"class.quote\"",
        "\"generator.modal_tick\"",
        "\"generator.price_decimals\"",
        "\"generator.bid\"",
        "\"generator.ask\"",
    ];
    let stated: Vec<String> = knobs
        .iter()
        .map(|knob| format!("{knob} = {{ kind = \"declared\", rationale = \"as listed\" }}\n"))
        .collect();
    format!(
        "[instrument]\nsymbol = \"{base}USDT\"\nprice_precision = {decimals}\n\
         size_precision = {places}\nprice_increment = \"{tick}\"\nsize_increment = \"{size}\"\n\
         [instrument.class]\nkind = \"spot\"\nbase = \"{base}\"\nquote = \"USDT\"\n\
         [instrument.generator]\nmodal_tick = \"{tick}\"\nprice_decimals = {decimals}\n\
         bid = \"{top}\"\nask = \"{size}\"\n[provenance]\n{}",
        stated.concat()
    )
}

/// The names of the presets.
const NAMES: [&str; 5] = ["MNQ", "MES", "BTCUSDT", "ETHUSDT", "SOLUSDT"];

fn shelf() -> PresetShelf {
    PresetShelf {
        mnq: MNQ.to_string(),
        mes: MES.to_string(),
        btcusdt: coin("BTC", "0.01", 2, "0.00001", 5, "0.00125"),
        ethusdt: coin("ETH", "0.01", 2, "0.0001", 4, "0.0300"),
        solusdt: coin("SOL", "0.01", 2, "0.001", 3, "1.5"),
    }
}

/// A table of an instrument read as one, as the configuration's reader does.
fn read(table: &toml::Table) -> ConfiguredInstrument {
    let text = |table: &toml::Table, key: &str| table[key].as_str().expect("a text").to_string();
    let number = |table: &toml::Table, key: &str| table[key].as_integer().expect("a number");
    let amount = |table: &toml::Table, key: &str| {
        let amount: rust_decimal::Decimal = text(table, key).parse().expect("an amount");
        dec(amount.mantissa(), amount.scale())
    };
    let bits = |table: &toml::Table, key: &str| -> Vec<u64> {
        let row = table[key].as_array().expect("a row");
        row.iter()
            .map(|x| x.as_float().expect("a double").to_bits())
            .collect()
    };
    let inner = |key: &str| table[key].as_table().expect("a table");
    let optional = |key: &str| table.get(key).and_then(toml::Value::as_table);
    let (class, generator) = (inner("class"), inner("generator"));
    let even = || vec![1.0_f64.to_bits(); 24];
    ConfiguredInstrument {
        def: InstrumentDef {
            symbol: text(table, "symbol"),
            class: match text(class, "kind").as_str() {
                "spot" => InstrumentClass::Spot {
                    base: text(class, "base"),
                    quote: text(class, "quote"),
                },
                _ => InstrumentClass::Future {
                    underlying: text(class, "underlying"),
                    settlement_currency: text(class, "settlement_currency"),
                    multiplier: amount(class, "multiplier"),
                    asset_class: text(class, "asset_class"),
                },
            },
            price_precision: number(table, "price_precision") as u8,
            size_precision: number(table, "size_precision") as u8,
            price_increment: amount(table, "price_increment"),
            size_increment: amount(table, "size_increment"),
        },
        margin: optional("margin").map(|margin| ConfiguredMargin {
            initial_per_contract: amount(margin, "initial_per_contract"),
            maintenance_per_contract: amount(margin, "maintenance_per_contract"),
            breach_action: MarginAction::Refuse,
        }),
        fees: None,
        generator: Some(Generator {
            symbol: String::new(),
            modal_tick: amount(generator, "modal_tick"),
            price_decimals: number(generator, "price_decimals") as u32,
            bid_size: amount(generator, "bid"),
            ask_size: amount(generator, "ask"),
        }),
        session: optional("session").map_or_else(
            || SessionProfile {
                intensity_hour: even(),
                vol_hour: even(),
                dow_weight: vec![1.0_f64.to_bits(); 7],
            },
            |session| SessionProfile {
                intensity_hour: bits(session, "intensity_hour"),
                vol_hour: bits(session, "vol_hour"),
                dow_weight: bits(session, "dow_weight"),
            },
        ),
        calendar: optional("calendar").map(|calendar| SessionCalendar {
            utc_offset_minutes: number(calendar, "utc_offset_minutes") as i32,
            open_windows: calendar["open_windows"]
                .as_array()
                .expect("windows")
                .iter()
                .map(|window| WeeklyWindow {
                    start_minute: window["start_minute"].as_integer().expect("a minute") as u32,
                    end_minute: window["end_minute"].as_integer().expect("a minute") as u32,
                })
                .collect(),
            settlement_minute_of_day: None,
        }),
    }
}

fn served(table: &toml::Table) -> InstrumentProfile {
    let limits = WireLimits {
        symbol_len: 32,
        currency_len: 8,
    };
    let verdicts = GeneratorVerdicts {
        scalars: None,
        size_grid: None,
        session: None,
        calendar: None,
    };
    profile_from_configured(read(table), limits, dec(1, 0), verdicts).expect("a sound instrument")
}

fn from_preset(name: &str) -> InstrumentProfile {
    let (table, _provenance) = effective_preset(&shelf(), name).expect("a sound preset");
    served(&table)
}

fn from_document(text: &str) -> InstrumentProfiles {
    let document = resolve_document(&shelf(), text).expect("a sound document");
    let table = document["instrument"].as_table().expect("an instrument");
    InstrumentProfiles::from_profiles(vec![served(table)])
}

#[test]
fn every_shipped_preset_declares_provenance_for_every_knob_it_sets() {
    for name in NAMES {
        let (instrument, provenance) = effective_preset(&shelf(), name).unwrap();
        validate_provenance(&instrument, &provenance).unwrap();
        for knob in provenance.keys() {
            let mut without = provenance.clone();
            without.remove(knob);
            assert!(validate_provenance(&instrument, &without).is_err(), "{name}: {knob}");
        }
    }
}

#[test]
fn quote_sizes_are_on_the_instrument_grid() {
    let decimal = |amount: Dec| {
        rust_decimal::Decimal::from_i128_with_scale(amount.mantissa(), amount.scale())
    };
    for name in NAMES {
        let profile = from_preset(name);
        assert_eq!(profile.def.symbol, name);
        let increment = decimal(profile.def.size_increment);
        for size in [profile.generator.bid_size, profile.generator.ask_size] {
            let size = decimal(size);
            assert!(size >= increment, "{name}: {size}");
            assert_eq!(size % increment, rust_decimal::Decimal::ZERO, "{name}: {size}");
            if matches!(profile.def.class, InstrumentClass::Future { .. }) {
                assert_eq!(size.fract(), rust_decimal::Decimal::ZERO, "{name}: {size}");
            }
        }
    }
}

#[test]
fn gen_bars_leading_gap_emits_no_leading_empties() {
    let trades = vec![tt(350, 100, 1), tt(360, 101, 1)];
    let lines = lines_of(write_bars(&trades, 0, 400, 100));
    assert_eq!(
        lines[0],
        "open_ts,close_ts,open,high,low,close,volume,trade_count"
    );
    assert_eq!(lines.len(), 2, "no leading empty rows: {lines:?}");
    assert_eq!(lines[1], "300,400,100,101,100,101,2,2");
}

#[test]
fn gen_bars_interior_desert_carries_forward_empties() {
    let trades = vec![tt(50, 100, 1), tt(450, 200, 1)];
    let lines = lines_of(write_bars(&trades, 0, 500, 100));
    assert_eq!(lines[1], "0,100,100,100,100,100,1,1");
    assert_eq!(lines[2], "100,200,100,100,100,100,0,0");
    assert_eq!(lines[3], "200,300,100,100,100,100,0,0");
    assert_eq!(lines[4], "300,400,100,100,100,100,0,0");
    assert_eq!(lines[5], "400,500,200,200,200,200,1,1");
    assert_eq!(lines.len(), 6, "no unexpected trailing rows: {lines:?}");
}

#[test]
fn gen_bars_trailing_desert_end_flushes_and_fills_to_end() {
    let trades = vec![tt(10, 100, 1), tt(50, 150, 1)];
    let lines = lines_of(write_bars(&trades, 0, 400, 100));
    assert_eq!(lines[1], "0,100,100,150,100,150,2,2");
    assert_eq!(lines[2], "100,200,150,150,150,150,0,0");
    assert_eq!(lines[3], "200,300,150,150,150,150,0,0");
    assert_eq!(lines[4], "300,400,150,150,150,150,0,0");
    assert_eq!(lines.len(), 5);
}

#[test]
fn gen_bars_straddle_drop_still_fills_interior_empties() {
    let trades = vec![tt(10, 100, 1), tt(380, 999, 1)];
    let lines = lines_of(write_bars(&trades, 0, 350, 100));
    assert_eq!(lines[1], "0,100,100,100,100,100,1,1");
    assert_eq!(lines[2], "100,200,100,100,100,100,0,0");
    assert_eq!(lines[3], "200,300,100,100,100,100,0,0");
    assert_eq!(lines.len(), 4, "straddling window dropped: {lines:?}");
}

#[test]
fn each_trade_of_a_window_is_counted_once() {
    let trades = vec![
        tt(0, 100, 1),
        tt(99, 103, 2),
        tt(100, 98, 1),
        tt(100, 99, 5),
        tt(199, 97, 1),
        tt(301, 90, 4),
    ];
    let lines = lines_of(write_bars(&trades, 0, 400, 100));
    assert_eq!(lines[1], "0,100,100,103,100,103,3,2");
    assert_eq!(lines[2], "100,200,98,99,97,97,7,3");
    assert_eq!(lines[3], "200,300,97,97,97,97,0,0");
    assert_eq!(lines[4], "300,400,90,90,90,90,4,1");
    assert_eq!(lines.len(), 5);
}

#[test]
fn a_bar_without_trades_repeats_the_close_before_it() {
    let lines = lines_of(write_bars(&vec![tt(250, 7, 1), tt(290, 9, 2)], 0, 500, 100));
    assert_eq!(lines[1], "200,300,7,9,7,9,3,2", "the first bar has traded");
    assert_eq!(lines[2], "300,400,9,9,9,9,0,0");
    assert_eq!(lines[3], "400,500,9,9,9,9,0,0");
    assert_eq!(lines.len(), 4);
}

#[test]
fn an_amount_is_written_with_all_its_places() {
    let trade = |price: Dec, size: Dec| TradeTick {
        price,
        size,
        ..tt(5, 1, 1)
    };
    let written = write_trades(&vec![
        trade(dec(-5, 2), dec(1_250, 3)),
        trade(dec(0, 2), dec(0, 0)),
        trade(dec(100, 0), dec(-12_345, 1)),
    ]);
    let lines: Vec<&str> = written.lines().collect();
    assert_eq!(lines[1], "5,-0.05,1.250,none");
    assert_eq!(lines[2], "5,0.00,0,none");
    assert_eq!(lines[3], "5,100,-1234.5,none");
}

#[test]
fn gen_bars_start_straddle_is_dropped() {
    let trades = vec![tt(10, 100, 1), tt(150, 200, 1)];
    let lines = lines_of(write_bars(&trades, 50, 250, 100));
    assert_eq!(lines.len(), 2, "start-straddling window dropped: {lines:?}");
    assert_eq!(lines[1], "100,200,200,200,200,200,1,1");
}

#[test]
fn gen_run_bars_end_to_end_over_a_boundary_aligned_span() {
    let args = args(GenType::Bars, "1h", Some("5m"), None);
    let span = plan_span(&args).expect("a span");
    let ticks: Vec<TickEvent> = (0..120)
        .map(|n| TickEvent::Trade(tt(n * 31_000_000_000, 100 + n as i128 % 7, 2)))
        .collect();
    let trades = trades_before(&ticks, span.end);
    let lines = lines_of(write_bars(
        &trades,
        span.start,
        span.end,
        span.interval.expect("bars have an interval"),
    ));
    assert_eq!(
        lines[0],
        "open_ts,close_ts,open,high,low,close,volume,trade_count"
    );
    assert_eq!(lines.len(), 13, "expected 12 bar rows: {lines:?}");
    for line in &lines[1..] {
        let cols: Vec<&str> = line.split(',').collect();
        assert_eq!(cols.len(), 8, "malformed row: {line}");
        let _open_ts: u64 = cols[0].parse().expect("open_ts parses");
        let _close_ts: u64 = cols[1].parse().expect("close_ts parses");
        let _volume: rust_decimal::Decimal = cols[6].parse().expect("volume parses");
        let _count: u64 = cols[7].parse().expect("trade_count parses");
    }
}

#[test]
fn gen_trades_emits_header_and_ordered_rows_with_lossless_decimals() {
    let trades = vec![
        TradeTick {
            price: dec(100_070, 3),
            size: dec(333, 3),
            aggressor: AggressorSide::Buyer,
            ts_event: 10,
        },
        TradeTick {
            price: dec(9_993, 2),
            size: dec(15, 1),
            aggressor: AggressorSide::Seller,
            ts_event: 20,
        },
        TradeTick {
            price: dec(100, 0),
            size: dec(1, 0),
            aggressor: AggressorSide::NoAggressor,
            ts_event: 30,
        },
    ];
    let lines = lines_of(Some(write_trades(&trades)));
    assert_eq!(lines[0], "ts_event,price,size,aggressor");
    assert_eq!(lines[1], "10,100.070,0.333,buyer");
    assert_eq!(lines[2], "20,99.93,1.5,seller");
    assert_eq!(lines[3], "30,100,1,none");
    assert_eq!(lines.len(), 4);
}

#[test]
fn the_words_for_a_side_are_fixed() {
    assert_eq!(aggressor_word(AggressorSide::Buyer), "buyer");
    assert_eq!(aggressor_word(AggressorSide::Seller), "seller");
    assert_eq!(aggressor_word(AggressorSide::NoAggressor), "none");
}

#[test]
fn a_preset_symbol_resolves_and_carries_its_calendar() {
    let built_in = InstrumentProfiles::from_profiles(vec![profile("BTCUSDT")]);
    let preset = from_preset("MNQ");
    let found = resolve_profile("MNQ", &built_in, Some(&preset))
        .expect("MNQ resolves from the embedded preset");
    assert_eq!(found.def.symbol, "MNQ");
    assert_eq!(found.def.price_increment, dec(25, 2));
    let calendar = found
        .calendar
        .as_ref()
        .expect("the MNQ preset ships a CME calendar");
    let saturday_04h_local_ns = 3_420 * 60 * 1_000_000_000_u64;
    assert!(
        !calendar.is_open(saturday_04h_local_ns),
        "the CME calendar must close Saturday"
    );
    let wednesday_15h_local_ns = (3_420 + 4 * 1_440 + 660) * 60 * 1_000_000_000_u64;
    assert!(
        calendar.is_open(wednesday_15h_local_ns),
        "the CME calendar must be open midweek"
    );
    let own = resolve_profile("BTCUSDT", &built_in, Some(&preset)).expect("the venue's own wins");
    assert_eq!(own.def.symbol, "BTCUSDT");
}

#[test]
fn an_unknown_symbol_names_both_places_it_was_looked_for() {
    let built_in = InstrumentProfiles::from_profiles(vec![profile("BTCUSDT")]);
    let text = resolve_profile("NOPE", &built_in, None)
        .expect_err("NOPE is neither venue nor preset");
    assert!(
        text.contains("NOPE"),
        "message should name the symbol: {text}"
    );
    assert_eq!(
        text,
        "unknown symbol NOPE: not a built-in venue symbol and not an embedded preset"
    );
}

fn verdicts() -> HavocVerdicts {
    HavocVerdicts {
        client: None,
        conn: None,
        server: None,
        data: None,
        client_is_default: true,
        conn_is_default: true,
        server_len: 0,
    }
}

#[test]
fn resolve_havoc_regime_string_driven_cases() {
    assert_eq!(resolve_havoc_regime(&verdicts()), Ok(false));
    let no_data = HavocVerdicts {
        client_is_default: false,
        ..verdicts()
    };
    assert_eq!(resolve_havoc_regime(&no_data), Ok(true));
    let thin = HavocVerdicts {
        data: Some("thin_factor".to_string()),
        ..verdicts()
    };
    assert_eq!(
        resolve_havoc_regime(&thin),
        Err("invalid regime: thin_factor".to_string()),
        "out-of-range data must error"
    );
    let drop = HavocVerdicts {
        client: Some("drop_prob".to_string()),
        data: Some("thin_factor".to_string()),
        client_is_default: false,
        ..verdicts()
    };
    assert_eq!(
        resolve_havoc_regime(&drop),
        Err("invalid client havoc: drop_prob".to_string()),
        "whole-spec validation must reject an invalid inapplicable surface"
    );
    let conn = HavocVerdicts {
        conn: Some("x".to_string()),
        ..verdicts()
    };
    assert_eq!(
        resolve_havoc_regime(&conn),
        Err("invalid conn havoc: x".to_string())
    );
    let server = HavocVerdicts {
        server: Some("y".to_string()),
        ..verdicts()
    };
    assert_eq!(
        resolve_havoc_regime(&server),
        Err("invalid server divergence: y".to_string())
    );
}

#[test]
fn havoc_has_offline_inapplicable_surfaces_cases() {
    assert!(!havoc_has_offline_inapplicable_surfaces(&verdicts()));
    assert!(havoc_has_offline_inapplicable_surfaces(&HavocVerdicts {
        client_is_default: false,
        ..verdicts()
    }));
    assert!(havoc_has_offline_inapplicable_surfaces(&HavocVerdicts {
        server_len: 1,
        ..verdicts()
    }));
    assert!(havoc_has_offline_inapplicable_surfaces(&HavocVerdicts {
        conn_is_default: false,
        ..verdicts()
    }));
    assert!(!havoc_has_offline_inapplicable_surfaces(&HavocVerdicts {
        data: Some("a regime".to_string()),
        ..verdicts()
    }));
}

#[test]
fn a_scratch_config_profile_matches_the_served_profile() {
    let one = from_document("[instrument]\npreset = \"MNQ\"\n");
    let from_config = profile_from_config("plain-mnq.toml", true, &one).expect("config profile");
    let from_preset = from_preset("MNQ");
    assert_eq!(
        format!("{:?}", from_config.def),
        format!("{:?}", from_preset.def)
    );
    assert_eq!(
        format!("{:?}", from_config.generator),
        format!("{:?}", from_preset.generator)
    );
    assert_eq!(
        format!("{:?}", from_config.session),
        format!("{:?}", from_preset.session)
    );
    assert_eq!(
        format!("{:?}", from_config.calendar),
        format!("{:?}", from_preset.calendar)
    );
    assert_eq!(from_config.generator.symbol, "MNQ");
    let err = profile_from_config("no-instrument.toml", false, &one)
        .expect_err("a config without an instrument must refuse");
    assert!(err.contains("[instrument]"), "{err}");
    let two = InstrumentProfiles::from_profiles(vec![profile("MNQ"), profile("MES")]);
    assert_eq!(
        profile_from_config("two.toml", true, &two).expect_err("one too many"),
        "--config resolved 2 instruments, expected exactly one"
    );
}

#[test]
fn a_warmup_past_the_start_refuses_instead_of_saturating() {
    let args = GenArgs {
        start: 1_000,
        ..args(GenType::Summary, "1m", None, Some("1s"))
    };
    let err = plan_walk(&args).expect_err("underflowing warmup must refuse");
    let text = err.message(&args);
    assert!(text.contains("underflows"), "names the underflow: {text}");
    assert_eq!(
        text,
        "--warmup 1000000000ns underflows --start 1000; the walk must begin at exactly start - warmup"
    );
}

#[test]
fn a_walk_starts_a_warmup_before_its_span() {
    let args = GenArgs {
        start: 5_000_000_000,
        ..args(GenType::Summary, "1m", None, Some("2s"))
    };
    assert_eq!(plan_walk(&args).expect("a walk"), 3_000_000_000);
    let span = plan_span(&args).expect("a span");
    assert_eq!((span.start, span.end), (5_000_000_000, 65_000_000_000));
    assert_eq!(span.interval, None);
}

#[test]
fn what_cannot_be_planned_is_refused() {
    let refused = |args: GenArgs| {
        let error = plan_span(&args).expect_err("it is refused");
        let words = error.message(&args);
        (error, words)
    };
    let (error, _) = refused(args(GenType::Trades, "1x", None, None));
    assert!(matches!(error, GenError::Length { .. }));
    let (error, _) = refused(args(GenType::Bars, "1h", Some("0m"), None));
    assert!(matches!(error, GenError::Interval { .. }));
    let (_, words) = refused(args(GenType::Bars, "1h", None, None));
    assert_eq!(words, "--type bars requires --interval");
    let (_, words) = refused(args(GenType::Trades, "1h", Some("5m"), None));
    assert_eq!(words, "--interval is only valid with --type bars");
    let (_, words) = refused(args(GenType::Trades, "1h", None, Some("5m")));
    assert_eq!(words, "--warmup is only valid with --type summary");
    let short = args(GenType::Summary, "1h", None, Some("m"));
    assert!(matches!(plan_walk(&short), Err(GenError::Warmup { .. })));
}

#[test]
fn a_seed_that_is_not_stated_is_fixed() {
    assert_eq!(DEFAULT_GEN_SEED, 42);
    let mut asked = args(GenType::Trades, "1h", None, None);
    assert_eq!(seed_of(&asked), 42);
    asked.seed = Some(7);
    assert_eq!(seed_of(&asked), 7);
}

#[test]
fn trades_are_written_from_the_start_up_to_the_end() {
    let quote = TickEvent::Quote(QuoteTick {
        bid_px: dec(1, 0),
        ask_px: dec(2, 0),
        bid_sz: dec(1, 0),
        ask_sz: dec(1, 0),
        ts_event: 15,
    });
    let ticks = vec![
        TickEvent::Trade(tt(10, 1, 1)),
        quote,
        TickEvent::Trade(tt(20, 2, 1)),
        TickEvent::Trade(tt(30, 3, 1)),
    ];
    let at = |rows: Vec<TradeTick>| rows.iter().map(|row| row.ts_event).collect::<Vec<_>>();
    assert_eq!(at(trades_before(&ticks, 30)), [10, 20]);
    assert_eq!(at(trades_within(&ticks, 20, 31)), [20, 30]);
}

#[test]
fn a_bar_too_large_to_add_up_is_not_written() {
    let most = dec(79_228_162_514_264_337_593_543_950_335, 0);
    let trade = |ts| TradeTick {
        price: dec(1, 0),
        size: most,
        aggressor: AggressorSide::Buyer,
        ts_event: ts,
    };
    assert!(write_bars(&vec![trade(1), trade(2)], 0, 100, 100).is_none());
}

#[test]
fn a_request_is_planned_and_made_of_its_tape() {
    let second = 1_000_000_000;
    let ticks = vec![
        TickEvent::Quote(QuoteTick {
            bid_px: dec(1, 0),
            ask_px: dec(2, 0),
            bid_sz: dec(1, 0),
            ask_sz: dec(1, 0),
            ts_event: second,
        }),
        TickEvent::Trade(tt(2 * second, 100, 1)),
        TickEvent::Trade(tt(70 * second, 101, 2)),
        TickEvent::Trade(tt(200 * second, 102, 3)),
    ];
    let run = |args: GenArgs| run_into(&args, &ticks, dec(25, 2), None);
    let rows = |args: GenArgs| match run(args).expect("it is made") {
        Written::Rows { text } => text,
        Written::Summed { .. } => panic!("rows were asked for"),
    };
    assert_eq!(
        rows(args(GenType::Trades, "2m", None, None)),
        "ts_event,price,size,aggressor\n2000000000,100,1,none\n70000000000,101,2,none\n"
    );
    assert_eq!(
        rows(args(GenType::Bars, "2m", Some("1m"), None)),
        "open_ts,close_ts,open,high,low,close,volume,trade_count\n\
         0,60000000000,100,100,100,100,1,1\n\
         60000000000,120000000000,101,101,101,101,2,1\n"
    );
    match run(args(GenType::Summary, "2m", None, None)).expect("it is made") {
        Written::Summed { summary, .. } => {
            assert_eq!(summary.counts.parents, 1);
            assert_eq!(summary.counts.sided_rows, 2);
            assert_eq!(summary.first_book_mid.as_deref(), Some("1.5"));
        }
        Written::Rows { .. } => panic!("a summary was asked for"),
    }
    let refused = |args: GenArgs| run(args).err().expect("it is refused");
    assert!(matches!(
        refused(args(GenType::Bars, "2m", None, None)),
        GenError::BarsNeedInterval
    ));
    assert!(matches!(
        refused(args(GenType::Summary, "2m", None, Some("1m"))),
        GenError::WarmupUnderflows { .. }
    ));
    let vast = dec(79_228_162_514_264_337_593_543_950_335, 0);
    let huge = TradeTick {
        size: vast,
        ..tt(second, 1, 1)
    };
    let ticks = vec![TickEvent::Trade(huge), TickEvent::Trade(huge)];
    let bars = args(GenType::Bars, "2m", Some("1m"), None);
    let error = run_into(&bars, &ticks, dec(25, 2), None)
        .err()
        .expect("it is refused");
    assert_eq!(error.message(&bars), "an amount of the tape is out of range");
}

#[test]
fn a_request_names_its_instrument_or_a_configuration() {
    let built_in = InstrumentProfiles::from_profiles(vec![profile("BTCUSDT")]);
    let configured = from_document("[instrument]\npreset = \"MNQ\"\n");
    let mut asked = args(GenType::Trades, "1h", None, None);
    let own = resolve_profile_for(&asked, true, &configured, &built_in, None).expect("built in");
    assert_eq!(own.def.symbol, "BTCUSDT");
    asked.symbol = "NOPE".to_string();
    assert!(resolve_profile_for(&asked, true, &configured, &built_in, None).is_err());
    asked.config = Some("plain-mnq.toml".to_string());
    let stated =
        resolve_profile_for(&asked, true, &configured, &built_in, None).expect("configured");
    assert_eq!(stated.def.symbol, "MNQ");
}

#[test]
fn a_havoc_file_states_the_regime_before_the_request_does() {
    let mut asked = args(GenType::Trades, "1h", None, None);
    assert_eq!(resolve_regime(&asked), RegimeSource::Calm);
    asked.regime = Some("{}".to_string());
    assert_eq!(
        resolve_regime(&asked),
        RegimeSource::Stated {
            words: "{}".to_string()
        }
    );
    asked.havoc = Some("havoc.json".to_string());
    assert_eq!(
        resolve_regime(&asked),
        RegimeSource::Havoc {
            path: "havoc.json".to_string()
        }
    );
}
