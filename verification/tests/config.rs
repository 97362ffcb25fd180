use mogwai_server::config::{
    build_admission_limits, build_run_clock, refuse_unfunded_settlement, sweep_is_slow, validate,
    validate_account_id, validate_admission_limits, validate_balances, validate_fill_band,
    AdmissionLimits, Config, ConfigError, VenueConstants, DEFAULT_ACCOUNT_ID,
    DEFAULT_VOL_MULT_BITS, MAX_FINITE_BITS, MAX_VOL_MULT_BITS, MINUS_ZERO_BITS, ONE_BITS,
    TAPE_ORIGIN_NS,
};
use mogwai_server::decimal::Dec;
use mogwai_server::instrument::{InstrumentClass, InstrumentDef};

const CONSTANTS: VenueConstants = VenueConstants {
    boundary_refusal_bytes: 512,
    max_divergence_ms: 3_600_000,
    currency_len: 8,
};

fn dec(mantissa: i128, scale: u32) -> Dec {
    Dec::new(mantissa, scale).expect("a decimal amount")
}

fn defaults() -> Config {
    Config::with_defaults(
        AdmissionLimits {
            held_budget_bytes: 1 << 20,
            lane_frames: 64,
            promise_tickets: 32,
            pending_act_slots: 16,
        },
        128,
    )
}

fn with_account(id: &str) -> Config {
    Config {
        account_id: id.to_owned(),
        ..defaults()
    }
}

fn spot(symbol: &str, quote: &str) -> InstrumentDef {
    InstrumentDef {
        symbol: symbol.to_string(),
        class: InstrumentClass::Spot {
            base: "BTC".to_string(),
            quote: quote.to_string(),
        },
        price_precision: 2,
        size_precision: 3,
        price_increment: dec(1, 2),
        size_increment: dec(1, 3),
    }
}

#[test]
fn the_fanout_default_carries_the_protocol_11_exception() {
    assert_eq!(defaults().fanout_depth, 4_194_304);
}

#[test]
fn an_account_id_nautilus_cannot_parse_is_refused_at_load() {
    let err = validate_account_id(&with_account("MOGWAI"), None)
        .expect_err("a bare word is not a nautilus AccountId");
    let message = err.message("MOGWAI", CONSTANTS);
    assert!(message.contains("ISSUER-NUMBER"), "{message}");
    assert!(message.contains(DEFAULT_ACCOUNT_ID), "{message}");

    for empty_side in ["-001", "MOGWAI-"] {
        assert!(
            validate_account_id(&with_account(empty_side), None).is_err(),
            "{empty_side} has an empty side"
        );
    }
}

#[test]
fn a_host_supplied_account_id_is_accepted() {
    for id in [DEFAULT_ACCOUNT_ID, "MOGWAI-QA2", "SANDBOX-001"] {
        validate_account_id(&with_account(id), None)
            .unwrap_or_else(|err| panic!("{id}: {err:?}"));
    }
}

#[test]
fn the_default_account_id_satisfies_its_own_rule() {
    validate_account_id(&defaults(), None).expect("the shipped default must be usable");
}

#[test]
fn an_account_id_that_the_wire_refuses_is_refused_with_its_reason() {
    let err = validate_account_id(&with_account("A B-1"), Some("a space".to_string()))
        .expect_err("the wire refuses it");
    assert_eq!(
        err.message("A B-1", CONSTANTS),
        "account_id \"A B-1\" is not a legal account id: a space"
    );
}

#[test]
fn a_configured_seed_at_the_signed_maximum_round_trips() {
    let text = format!("seed = {}", i64::MAX);
    let table: toml::Table = toml::from_str(&text).expect("maximum signed seed parses");
    let mut cfg = defaults();
    cfg.seed = table["seed"].as_integer().map(|seed| seed as u64);
    assert_eq!(cfg.seed, Some(i64::MAX as u64));
    for _ in 0..128 {
        assert!(rand::random::<u64>() >> 1 <= i64::MAX as u64);
    }
}

#[test]
fn an_unfunded_quote_currency_refuses_boot() {
    let cfg = Config {
        balances: vec![("EUR".to_string(), dec(1, 0))],
        ..defaults()
    };
    let defs = vec![spot("BTCUSDT", "USDT")];
    let err = refuse_unfunded_settlement(&cfg, &defs).expect_err("an unfunded quote refuses boot");
    let message = err.message("", CONSTANTS);
    assert!(message.contains("unfunded"), "{message}");

    refuse_unfunded_settlement(&defaults(), &defs)
        .expect("the shipped defaults fund their own quote currency");
}

#[test]
fn an_explicitly_unfunded_account_still_boots() {
    let cfg = Config {
        balances: vec![],
        ..defaults()
    };
    refuse_unfunded_settlement(&cfg, &vec![spot("BTCUSDT", "USDT")])
        .expect("an explicitly unfunded run is allowed");
}

#[test]
fn a_future_with_an_unfunded_settlement_currency_refuses_boot() {
    let def = InstrumentDef {
        symbol: "MNQ".to_string(),
        class: InstrumentClass::Future {
            underlying: "NQ".to_string(),
            settlement_currency: "USD".to_string(),
            multiplier: dec(2, 0),
            asset_class: "index".to_string(),
        },
        price_precision: 2,
        size_precision: 0,
        price_increment: dec(25, 2),
        size_increment: dec(1, 0),
    };
    let cfg = Config {
        balances: vec![("EUR".to_string(), dec(1, 0))],
        ..defaults()
    };
    let err = refuse_unfunded_settlement(&cfg, &vec![def])
        .expect_err("unfunded settlement must refuse");
    let message = err.message("", CONSTANTS);
    assert!(message.contains("USD"), "{message}");
    assert_eq!(
        message,
        "instrument MNQ quote currency USD is unfunded; every buy in this run would be rejected for insufficient balance - add USD to [balances]"
    );
}

#[test]
fn a_balance_is_named_and_not_negative() {
    let with = |currency: &str, amount: Dec| Config {
        balances: vec![("USDT".to_string(), dec(1, 0)), (currency.to_string(), amount)],
        ..defaults()
    };
    let message = |cfg: Config| {
        validate_balances(&cfg, CONSTANTS)
            .expect_err("it is refused")
            .message("", CONSTANTS)
    };
    assert_eq!(
        message(with(" ", dec(1, 0))),
        "balances currency must not be blank"
    );
    assert_eq!(
        message(with("ABCDEFGHI", dec(1, 0))),
        "balances currency ABCDEFGHI exceeds MAX_CURRENCY_LEN (8)"
    );
    assert_eq!(
        message(with("EUR", dec(-1, 2))),
        "balances.EUR must not be negative"
    );
    assert!(validate_balances(&with("EUR", dec(0, 0)), CONSTANTS).is_ok());
}

#[test]
fn the_admission_budgets_are_checked() {
    let message = |cfg: Config| {
        validate_admission_limits(&cfg, CONSTANTS)
            .expect_err("it is refused")
            .message("", CONSTANTS)
    };
    assert!(validate_admission_limits(&defaults(), CONSTANTS).is_ok());
    let small = Config {
        exec_held_budget_bytes: 511,
        ..defaults()
    };
    assert!(message(small).starts_with("exec_held_budget_bytes must be at least 512"));
    let large = Config {
        exec_held_budget_bytes: usize::MAX,
        ..defaults()
    };
    assert_eq!(message(large), "exec_held_budget_bytes must fit in 32 bits");
    let frames = Config {
        admission_lane_frames: 0,
        ..defaults()
    };
    assert_eq!(message(frames), "admission_lane_frames must be at least 1");
    let acts = Config {
        pending_command_acts: 0,
        ..defaults()
    };
    assert_eq!(message(acts), "pending_command_acts must be at least 1");
    let global = Config {
        pending_command_acts: 129,
        ..defaults()
    };
    assert_eq!(
        message(global),
        "global_pending_command_acts must be at least pending_command_acts"
    );
    let limits = build_admission_limits(&defaults(), 32);
    assert_eq!(
        (limits.lane_frames, limits.promise_tickets, limits.pending_act_slots),
        (64, 32, 16)
    );
}

#[test]
fn the_fill_band_is_checked() {
    let bits = |mult: f64| Config {
        fill_band_vol_mult_bits: mult.to_bits(),
        ..defaults()
    };
    for good in [0.0, -0.0, 0.005, 999.9, 1000.0] {
        assert!(validate_fill_band(&bits(good), CONSTANTS).is_ok(), "{good}");
    }
    for bad in [1000.1, -0.1, f64::NAN, f64::INFINITY] {
        assert!(
            matches!(
                validate_fill_band(&bits(bad), CONSTANTS),
                Err(ConfigError::VolMult)
            ),
            "{bad}"
        );
    }
    for ticks in [0, 10_001] {
        let cfg = Config {
            fill_band_max_ticks: ticks,
            ..defaults()
        };
        assert!(matches!(
            validate_fill_band(&cfg, CONSTANTS),
            Err(ConfigError::BandTicks)
        ));
    }
    let sweep = |ms: u64| Config {
        fill_sweep_interval_ms: ms,
        ..defaults()
    };
    assert!(matches!(
        validate_fill_band(&sweep(3_600_001), CONSTANTS),
        Err(ConfigError::SweepTooSlow)
    ));
    assert!(matches!(
        validate_fill_band(&sweep(0), CONSTANTS),
        Err(ConfigError::NoSweep)
    ));
    assert!(!sweep_is_slow(&sweep(60_000)));
    assert!(sweep_is_slow(&sweep(60_001)));
}

#[test]
fn a_fanout_of_nothing_is_refused() {
    assert!(validate(&defaults(), CONSTANTS, None).is_ok());
    let cfg = Config {
        fanout_depth: 0,
        ..defaults()
    };
    let err = validate(&cfg, CONSTANTS, None).expect_err("no fanout");
    assert_eq!(
        err.message("", CONSTANTS),
        "fanout_depth must be greater than zero; unlike the count caps, 0 does not mean unbounded here"
    );
}

#[test]
fn a_clock_starts_where_the_warmup_ends() {
    let cfg = Config {
        warmup_ns: 5,
        speed_bits: 2.5f64.to_bits(),
        ..defaults()
    };
    let clock = build_run_clock(&cfg, 77).expect("a clock");
    assert_eq!(clock.sim_epoch_ns, TAPE_ORIGIN_NS + 5);
    assert_eq!(clock.wall_anchor_ns, 77);
    assert_eq!(f64::from_bits(clock.speed_bits), 2.5);
    for bad in [-1.0, f64::NAN, f64::INFINITY] {
        let cfg = Config {
            speed_bits: f64::to_bits(bad),
            ..defaults()
        };
        assert!(matches!(build_run_clock(&cfg, 0), Err(ConfigError::Speed)));
    }
}

#[test]
fn the_floats_that_are_held_by_their_bits_are_these() {
    assert_eq!(f64::from_bits(ONE_BITS), 1.0);
    assert_eq!(f64::from_bits(DEFAULT_VOL_MULT_BITS), 0.005);
    assert_eq!(f64::from_bits(MAX_VOL_MULT_BITS), 1000.0);
    assert_eq!(f64::from_bits(MAX_FINITE_BITS), f64::MAX);
    assert_eq!(MINUS_ZERO_BITS, (-0.0f64).to_bits());
}
