use mogwai_server::config::{AdmissionLimits, Config};
use mogwai_server::decimal::Dec;
use mogwai_server::instrument::{
    Generator, InstrumentClass, InstrumentDef, InstrumentProfile, SessionProfile,
};
use mogwai_server::serve::{
    boot_instrument, check_endpoint_is_discoverable, check_launcher, check_reparented,
    deadline_wait, duration_override, elapsed_ns, exit, farewell, health_fault, long_version,
    plan_boot, ready_record, Ending, Reaper, TickFault, BIND_ADDR,
};
use mogwai_server::source::InstrumentProfiles;

struct SimClock {
    sim_epoch_ns: u64,
    wall_anchor_ns: u64,
    speed: f64,
}

impl SimClock {
    fn sim_ns(&self, wall_ns: u64) -> u64 {
        let past = wall_ns.saturating_sub(self.wall_anchor_ns);
        self.sim_epoch_ns + (past as f64 * self.speed) as u64
    }

    fn wall_ns(&self, sim_ns: u64) -> u64 {
        let past = sim_ns.saturating_sub(self.sim_epoch_ns);
        self.wall_anchor_ns + (past as f64 / self.speed) as u64
    }
}

#[test]
fn the_venue_always_binds_an_ephemeral_loopback_port() {
    let (host, port) = BIND_ADDR.rsplit_once(':').expect("a host and a port");
    assert_eq!(host, "127.0.0.1");
    assert_eq!(port, "0");
}

#[test]
fn the_deadline_wait_never_reports_done_before_the_sim_clock_arrives() {
    let sim = SimClock {
        sim_epoch_ns: 300_000_000_000,
        wall_anchor_ns: 1_000_000_000,
        speed: 100.0,
    };
    let wait = |deadline_ns: u64, wall_now: u64| {
        deadline_wait(
            sim.sim_ns(wall_now),
            deadline_ns,
            sim.wall_ns(deadline_ns),
            wall_now,
        )
    };
    let mut truncated = 0;
    for step in 0..1_000u64 {
        let deadline_ns = sim.sim_epoch_ns + 30_000_000_000 + step;
        let converted = sim.wall_ns(deadline_ns);
        let short = sim.sim_ns(converted) < deadline_ns;
        assert_eq!(
            wait(deadline_ns, converted).is_some(),
            short,
            "a wait is owed exactly while the sim clock is short of {deadline_ns}"
        );
        if short {
            truncated += 1;
        }
        assert!(
            wait(deadline_ns, converted + 1_000_000).is_none(),
            "the wait ends once the deadline is genuinely behind us"
        );
    }
    assert!(
        truncated > 0,
        "the conversion never truncated, so this scan proved nothing"
    );
}

#[test]
fn a_wait_is_for_what_is_left() {
    assert_eq!(deadline_wait(5, 10, 100, 40), Some(60));
    assert_eq!(deadline_wait(9, 10, 100, 100), Some(1));
    assert_eq!(deadline_wait(10, 10, 100, 40), None);
    assert_eq!(elapsed_ns(1_030, 1_000), 30);
}

#[test]
fn serve_refuses_ephemeral_port_without_a_ready_fd() {
    let message = check_endpoint_is_discoverable(0, None)
        .expect_err("a port reported nowhere serves nobody");
    assert!(message.contains("--addr"), "{message}");
    assert!(message.contains("--ready-fd"), "{message}");
    check_endpoint_is_discoverable(0, Some(3))
        .expect("an ephemeral port IS discoverable once it is reported");
    check_endpoint_is_discoverable(8787, None)
        .expect("an explicit port needs no report; the caller already knows it");
}

#[test]
fn a_run_that_nobody_owns_is_refused() {
    assert!(check_launcher(None, 7).is_ok());
    assert!(check_launcher(Some(7), 7).is_ok());
    assert_eq!(
        check_launcher(Some(7), 1).expect_err("it is gone"),
        "launcher 7 is already gone (parent is 1); refusing to serve a run nobody owns"
    );
    assert!(check_reparented(7, 7).is_ok());
    assert_eq!(
        check_reparented(7, 1).expect_err("it died"),
        "launcher died during startup (reparented from 7 to 1); refusing to serve a run nobody owns"
    );
}

#[test]
fn a_run_boots_on_the_first_of_its_instruments() {
    let one = Dec::new(1, 0).unwrap();
    let profile = |symbol: &str| InstrumentProfile {
        def: InstrumentDef {
            symbol: symbol.to_string(),
            class: InstrumentClass::Spot {
                base: "B".to_string(),
                quote: "Q".to_string(),
            },
            price_precision: 0,
            size_precision: 0,
            price_increment: one,
            size_increment: one,
        },
        generator: Generator {
            symbol: symbol.to_string(),
            modal_tick: one,
            price_decimals: 0,
            bid_size: one,
            ask_size: one,
        },
        margin: None,
        fees: None,
        session: SessionProfile {
            intensity_hour: vec![1.0_f64.to_bits(); 24],
            vol_hour: vec![1.0_f64.to_bits(); 24],
            dow_weight: vec![1.0_f64.to_bits(); 7],
        },
        calendar: None,
    };
    let profiles = InstrumentProfiles::from_profiles(vec![profile("MNQ"), profile("BTCUSDT")]);
    assert_eq!(boot_instrument(&profiles).unwrap().symbol, "BTCUSDT");
    let none = InstrumentProfiles::from_profiles(vec![]);
    assert_eq!(boot_instrument(&none).unwrap_err(), "no instrument configured");
}

fn config() -> Config {
    Config::with_defaults(
        AdmissionLimits {
            held_budget_bytes: 1 << 20,
            lane_frames: 64,
            promise_tickets: 8,
            pending_act_slots: 8,
        },
        64,
    )
}

#[test]
fn a_run_has_its_whole_duration_after_its_warmup() {
    let mut cfg = config();
    cfg.seed = Some(9);
    cfg.warmup_ns = 999_000;
    cfg.account_ttl_ms = 1_000;
    let plan = plan_boot(&cfg, Some(Some(30)), 0);
    assert_eq!(plan.run_seed, 9);
    assert_eq!(plan.run_start_ns, 999_000);
    assert_eq!(plan.run_duration_ns, Some(30));
    assert_eq!(plan.deadline_ns, Some(999_030));
    assert_eq!(
        plan.reaper,
        Some(Reaper {
            ttl_ns: 1_000_000_000,
            cadence_ns: 100_000_000,
        })
    );
    cfg.seed = None;
    cfg.account_ttl_ms = 0;
    let plan = plan_boot(&cfg, Some(None), u64::MAX);
    assert!(plan.run_seed <= i64::MAX as u64);
    assert_eq!(plan.deadline_ns, None);
    assert_eq!(plan.reaper, None);
    cfg.account_ttl_ms = 10;
    let often = plan_boot(&cfg, None, 0).reaper.expect("a reaper");
    assert_eq!(often.cadence_ns, 50_000_000);
}

#[test]
fn a_duration_on_the_command_line_says_more_than_a_number() {
    assert_eq!(duration_override(None), None);
    assert_eq!(duration_override(Some(0)), Some(None));
    assert_eq!(duration_override(Some(7)), Some(Some(7)));
    assert_eq!(duration_override(Some(u128::MAX)), Some(Some(u64::MAX)));
}

#[test]
fn only_a_completed_run_is_announced() {
    assert!(farewell(&Ending::Completed).announced);
    assert!(farewell(&Ending::Completed).waits_for_sessions);
    assert!(!farewell(&Ending::Signal).announced);
    let fault = Ending::Fault {
        fault: "dry".to_string(),
    };
    assert!(!farewell(&fault).waits_for_sessions);
    assert!(exit(&Ending::Signal, true).is_ok());
    assert!(exit(&Ending::Completed, true).is_ok());
    assert_eq!(exit(&fault, true).unwrap_err(), "tape source fault: dry");
    assert_eq!(
        exit(&Ending::Completed, false).unwrap_err(),
        "connections did not drain within the 5000 ms shutdown grace"
    );
}

#[test]
fn a_version_names_its_tape() {
    assert_eq!(long_version("0.1.0 (abc)", 12), "0.1.0 (abc) tape 12");
}

#[test]
fn a_fault_is_published_by_name() {
    assert_eq!(
        health_fault(TickFault::NoOpenExposure { from_ns: 3 }),
        ("arrival.no_open_exposure", 3)
    );
    assert_eq!(
        health_fault(TickFault::IntensityCeiling { clock_ns: 4 }),
        ("arrival.intensity_ceiling", 4)
    );
    assert_eq!(
        health_fault(TickFault::NonFiniteState { clock_ns: 5 }),
        ("arrival.non_finite_state", 5)
    );
}

#[test]
fn a_ready_venue_tells_its_run_and_its_accounts() {
    let mut cfg = config();
    cfg.seed = Some(9);
    cfg.warmup_ns = 999_000;
    cfg.account_ttl_ms = 1_500;
    cfg.reset_account_on_reconnect = true;
    let plan = plan_boot(&cfg, Some(Some(30)), 0);
    let record = ready_record(
        &cfg,
        plan,
        4,
        "127.0.0.1:40123".to_string(),
        77,
        long_version("1.2.3", 11),
    );
    assert_eq!(record.version, 4);
    assert_eq!(record.addr, "127.0.0.1:40123");
    assert_eq!(record.pid, 77);
    assert_eq!(record.run_seed, 9);
    assert_eq!(record.data_origin_ns, 0);
    assert_eq!(record.run_start_ns, 999_000);
    assert_eq!(record.run_duration_ns, Some(30));
    assert_eq!(record.warmup_ns, 999_000);
    assert!(record.reset_account_on_reconnect);
    assert_eq!(record.account_ttl_ms, 1_500);
    assert_eq!(record.version_string, long_version("1.2.3", 11));
}
