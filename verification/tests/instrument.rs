use mogwai_server::calendar::{SessionCalendar, WeeklyWindow};
use mogwai_server::decimal::Dec;
use mogwai_server::instrument::{
    on_increment, profile_from_configured, session_error_message, validate_instrument_def,
    validate_instrument_options, ConfiguredFees, ConfiguredInstrument, ConfiguredMargin, FeeRate,
    Generator, GeneratorVerdicts, InstrumentClass, InstrumentDef, InstrumentError, MarginAction,
    SessionError, SessionProfile, WireLimits,
};
use mogwai_server::source::{build_instrument_profiles, InstrumentProfiles};

const LIMITS: WireLimits = WireLimits {
    symbol_len: 32,
    currency_len: 8,
};

fn dec(mantissa: i128, scale: u32) -> Dec {
    Dec::new(mantissa, scale).expect("a decimal amount")
}

fn whole(n: i128) -> Dec {
    dec(n, 0)
}

fn approving() -> GeneratorVerdicts {
    GeneratorVerdicts {
        scalars: None,
        size_grid: None,
        session: None,
        calendar: None,
    }
}

fn session() -> SessionProfile {
    SessionProfile {
        intensity_hour: (0..24).map(|hour| (f64::from(hour) + 0.5).to_bits()).collect(),
        vol_hour: vec![1.25_f64.to_bits(); 24],
        dow_weight: vec![0.5_f64.to_bits(); 7],
    }
}

fn hours() -> SessionCalendar {
    SessionCalendar {
        utc_offset_minutes: -300,
        open_windows: vec![WeeklyWindow {
            start_minute: 1_080,
            end_minute: 2_460,
        }],
        settlement_minute_of_day: Some(900),
    }
}

fn future_configured() -> ConfiguredInstrument {
    ConfiguredInstrument {
        def: InstrumentDef {
            symbol: "MNQ".to_string(),
            class: InstrumentClass::Future {
                underlying: "NQ".to_string(),
                settlement_currency: "USD".to_string(),
                multiplier: whole(2),
                asset_class: "index".to_string(),
            },
            price_precision: 2,
            size_precision: 0,
            price_increment: dec(25, 2),
            size_increment: whole(1),
        },
        margin: Some(ConfiguredMargin {
            initial_per_contract: whole(2000),
            maintenance_per_contract: whole(1800),
            breach_action: MarginAction::Refuse,
        }),
        fees: None,
        generator: Some(Generator {
            symbol: "another".to_string(),
            modal_tick: dec(25, 2),
            price_decimals: 2,
            bid_size: whole(3),
            ask_size: whole(3),
        }),
        session: session(),
        calendar: Some(hours()),
    }
}

fn spot_configured() -> ConfiguredInstrument {
    ConfiguredInstrument {
        def: InstrumentDef {
            symbol: "BTCUSDT".to_string(),
            class: InstrumentClass::Spot {
                base: "BTC".to_string(),
                quote: "USDT".to_string(),
            },
            price_precision: 2,
            size_precision: 3,
            price_increment: dec(1, 2),
            size_increment: dec(1, 3),
        },
        margin: None,
        fees: None,
        generator: None,
        session: session(),
        calendar: None,
    }
}

fn refused(configured: &ConfiguredInstrument) -> String {
    validate_instrument_def(&configured.def, LIMITS)
        .expect_err("it is refused")
        .message(&configured.def.symbol, LIMITS)
}

#[test]
fn a_future_without_a_generator_derives_top_sizes_from_its_grid() {
    let mut configured = future_configured();
    configured.generator = None;
    let profile = profile_from_configured(configured, LIMITS, whole(1), approving())
        .expect("an absent generator uses instrument-grid defaults");
    assert_eq!(profile.generator.bid_size, whole(1));
    assert_eq!(profile.generator.ask_size, whole(1));
    assert_eq!(profile.generator.modal_tick, dec(25, 2));
    assert_eq!(profile.generator.price_decimals, 2);
}

#[test]
fn a_future_with_a_non_unit_size_increment_refuses_boot() {
    let mut configured = future_configured();
    configured.def.size_increment = whole(2);
    let message = refused(&configured);
    assert!(message.contains("size_increment"), "{message}");
}

#[test]
fn a_margin_table_with_initial_below_maintenance_refuses_boot() {
    let mut configured = future_configured();
    configured.margin.as_mut().unwrap().initial_per_contract = whole(1700);
    let message = validate_instrument_options(&configured)
        .expect_err("initial below maintenance")
        .message("MNQ", LIMITS);
    assert!(message.contains("initial_per_contract"), "{message}");
}

#[test]
fn a_negative_fee_rate_refuses_boot() {
    let mut configured = future_configured();
    configured.fees = Some(ConfiguredFees {
        maker: FeeRate::PerContract { amount: whole(-1) },
        taker: FeeRate::PerContract { amount: whole(0) },
    });
    let message = validate_instrument_options(&configured)
        .expect_err("negative fee must refuse")
        .message("MNQ", LIMITS);
    assert!(message.contains("negative"), "{message}");
}

#[test]
fn a_size_off_the_grid_is_refused() {
    let with = |bid: Dec, ask: Dec| {
        let mut configured = future_configured();
        let generator = configured.generator.as_mut().unwrap();
        generator.bid_size = bid;
        generator.ask_size = ask;
        profile_from_configured(configured, LIMITS, whole(1), approving())
    };
    assert!(with(whole(7), whole(9)).is_ok());
    for (bid, ask) in [
        (dec(5, 1), whole(1)),
        (whole(1), dec(15, 1)),
    ] {
        assert!(
            matches!(with(bid, ask), Err(InstrumentError::TopSizes)),
            "{bid:?} {ask:?}"
        );
    }
}

#[test]
fn uncalibrated_top_sizes_are_configuration_not_an_override_signal() {
    let mut configured = future_configured();
    let generator = configured.generator.as_mut().unwrap();
    generator.bid_size = whole(10);
    generator.ask_size = whole(10);
    let rebuilt = profile_from_configured(configured, LIMITS, whole(1), approving()).unwrap();
    assert_eq!(rebuilt.generator.bid_size, whole(10));
    assert_eq!(rebuilt.generator.ask_size, whole(10));
}

#[test]
fn a_sound_instrument_passes() {
    assert!(validate_instrument_def(&future_configured().def, LIMITS).is_ok());
    assert!(validate_instrument_def(&spot_configured().def, LIMITS).is_ok());
    assert!(validate_instrument_options(&spot_configured()).is_ok());
}

#[test]
fn what_is_wrong_with_a_definition_is_said() {
    let mut spot = spot_configured();
    spot.def.symbol = "  ".to_string();
    assert_eq!(refused(&spot), "instrument symbol must not be empty");

    let class = |base: &str, quote: &str| {
        let mut spot = spot_configured();
        spot.def.class = InstrumentClass::Spot {
            base: base.to_string(),
            quote: quote.to_string(),
        };
        refused(&spot)
    };
    assert_eq!(
        class(" ", "USDT"),
        "instrument BTCUSDT base must not be empty"
    );
    assert_eq!(
        class("BTC", ""),
        "instrument BTCUSDT quote must not be empty"
    );
    assert_eq!(
        class("BTC", "ABCDEFGHI"),
        "instrument BTCUSDT base/quote exceeds MAX_CURRENCY_LEN (8)"
    );

    let future = |underlying: &str, settlement: &str, multiplier: Dec| {
        let mut future = future_configured();
        future.def.class = InstrumentClass::Future {
            underlying: underlying.to_string(),
            settlement_currency: settlement.to_string(),
            multiplier,
            asset_class: "index".to_string(),
        };
        refused(&future)
    };
    assert_eq!(
        future("é", "USD", whole(2)),
        "instrument MNQ future underlying must be non-blank ASCII within MAX_SYMBOL_LEN"
    );
    assert_eq!(
        future("NQ", "", whole(2)),
        "instrument MNQ settlement_currency is invalid"
    );
    for multiplier in [whole(0), dec(1, 10)] {
        assert_eq!(
            future("NQ", "USD", multiplier),
            "instrument MNQ multiplier must be positive with scale <= 9"
        );
    }

    let mut long = spot_configured();
    long.def.symbol = "X".repeat(33);
    assert!(refused(&long).ends_with(" symbol exceeds MAX_SYMBOL_LEN (32)"));

    let mut price = spot_configured();
    price.def.price_increment = whole(0);
    assert_eq!(
        refused(&price),
        "instrument BTCUSDT price_increment must be positive"
    );
    let mut size = spot_configured();
    size.def.size_increment = whole(-1);
    assert_eq!(
        refused(&size),
        "instrument BTCUSDT size_increment must be positive"
    );
    let mut price = spot_configured();
    price.def.price_increment = dec(1, 3);
    assert_eq!(
        refused(&price),
        "instrument BTCUSDT price_increment violates price_precision"
    );
    let mut size = spot_configured();
    size.def.size_increment = dec(1, 4);
    assert_eq!(
        refused(&size),
        "instrument BTCUSDT size_increment violates size_precision"
    );
}

#[test]
fn what_is_wrong_with_the_options_is_said() {
    let refused = |configured: &ConfiguredInstrument| {
        validate_instrument_options(configured)
            .expect_err("it is refused")
            .message(&configured.def.symbol, LIMITS)
    };
    let mut spot = spot_configured();
    spot.margin = future_configured().margin;
    assert_eq!(
        refused(&spot),
        "instrument BTCUSDT margin is valid only for a future"
    );
    let mut future = future_configured();
    future.margin = None;
    assert_eq!(
        refused(&future),
        "instrument MNQ future requires a margin table"
    );
    let mut fees = spot_configured();
    fees.fees = Some(ConfiguredFees {
        maker: FeeRate::BasisPoints { rate: whole(1000) },
        taker: FeeRate::BasisPoints {
            rate: dec(10_001, 1),
        },
    });
    assert_eq!(
        refused(&fees),
        "instrument BTCUSDT fee basis points must be between 0 and 1000"
    );
}

#[test]
fn what_the_generator_refuses_is_said() {
    let refused = |configured: ConfiguredInstrument, verdicts: GeneratorVerdicts| {
        profile_from_configured(configured, LIMITS, whole(1), verdicts)
            .expect_err("it is refused")
            .message("MNQ", LIMITS)
    };
    let mut tick = future_configured();
    tick.generator.as_mut().unwrap().modal_tick = dec(5, 1);
    assert_eq!(
        refused(tick, approving()),
        "instrument MNQ generator.modal_tick must equal price_increment"
    );
    let mut same = future_configured();
    same.generator.as_mut().unwrap().modal_tick = dec(250, 3);
    assert!(profile_from_configured(same, LIMITS, whole(1), approving()).is_ok());
    let mut places = future_configured();
    places.generator.as_mut().unwrap().price_decimals = 3;
    assert_eq!(
        refused(places, approving()),
        "instrument MNQ generator.price_decimals must equal price_precision"
    );
    assert_eq!(
        refused(
            future_configured(),
            GeneratorVerdicts {
                scalars: Some("vol_scalar".to_string()),
                ..approving()
            }
        ),
        "instrument MNQ generator.vol_scalar failed validation"
    );
    assert_eq!(
        refused(
            future_configured(),
            GeneratorVerdicts {
                size_grid: Some("latent_size_median".to_string()),
                ..approving()
            }
        ),
        "instrument MNQ generator.latent_size_median failed size-grid validation"
    );
    assert_eq!(
        refused(
            future_configured(),
            GeneratorVerdicts {
                calendar: Some("overlap".to_string()),
                ..approving()
            }
        ),
        "instrument MNQ calendar failed validation: overlap"
    );
    let entry = SessionError {
        field: "vol_hour".to_string(),
        index: 3,
    };
    let message = session_error_message("MNQ", &entry);
    assert!(message.contains("vol_hour"), "{message}");
    assert!(message.contains('3'), "{message}");
    assert_eq!(
        refused(
            future_configured(),
            GeneratorVerdicts {
                session: Some(entry),
                ..approving()
            }
        ),
        message
    );
    let sum = SessionError {
        field: "vol_hour".to_string(),
        index: usize::MAX,
    };
    assert_ne!(session_error_message("MNQ", &sum), message);
}

#[test]
fn a_multiple_is_told_from_what_is_none() {
    assert_eq!(on_increment(dec(75, 2), dec(25, 2)), Some(true));
    assert_eq!(on_increment(dec(80, 2), dec(25, 2)), Some(false));
    assert_eq!(on_increment(whole(2), dec(25, 2)), Some(true));
    assert_eq!(on_increment(dec(130, 2), dec(25, 2)), Some(false));
    assert_eq!(on_increment(dec(-75, 2), dec(25, 2)), Some(true));
    assert_eq!(on_increment(dec(12_345, 3), dec(1, 3)), Some(true));
    assert_eq!(on_increment(dec(12_345, 3), dec(1, 2)), Some(false));
    assert_eq!(on_increment(dec(12_340, 3), dec(1, 2)), Some(true));
    assert_eq!(on_increment(whole(0), dec(25, 2)), Some(true));
}

#[test]
fn a_fill_settles_in_one_currency() {
    assert_eq!(future_configured().def.class.settlement_currency(), "USD");
    assert_eq!(spot_configured().def.class.settlement_currency(), "USDT");
}

#[test]
fn the_configured_instrument_stands_alone() {
    let defaults = || {
        let profile = profile_from_configured(spot_configured(), LIMITS, dec(1, 3), approving())
            .expect("a sound spot instrument");
        InstrumentProfiles::from_profiles(vec![profile])
    };
    let kept = build_instrument_profiles(None, LIMITS, defaults()).expect("nothing to refuse");
    assert_eq!(kept.served_symbols(), ["BTCUSDT"]);

    let offered = Some((future_configured(), whole(1), approving()));
    let built = build_instrument_profiles(offered, LIMITS, defaults()).expect("a sound future");
    assert_eq!(built.served_symbols(), ["MNQ"]);
    let profile = built.get("MNQ").expect("it is served");
    assert_eq!(profile.generator.bid_size, whole(3));
    assert_eq!(profile.generator.symbol, "MNQ", "the symbol is the instrument's own");
    assert_eq!(profile.session, session());
    assert_eq!(profile.calendar, Some(hours()));

    let mut unmargined = future_configured();
    unmargined.margin = None;
    let offered = Some((unmargined, whole(1), approving()));
    assert!(build_instrument_profiles(offered, LIMITS, defaults()).is_err());
}
