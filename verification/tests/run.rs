use mogwai_server::config::TAPE_ORIGIN_NS;
use mogwai_server::decimal::Dec;
use mogwai_server::havoc::{ArmedSpan, VenueArm};
use mogwai_server::instrument::{
    ConfiguredFees, FeeRate, Generator, InstrumentClass, InstrumentDef, InstrumentProfile,
    SessionProfile,
};
use mogwai_server::orders::CommandClass;
use mogwai_server::passenger::Passenger;
use mogwai_server::risk::{AccountPolicy, BreachAction, DailyLossLimit};
use mogwai_server::run::{
    addressed_account, addressed_order, eviction_reason, funded_in, opening_equity,
    register_instrument, resolve_policy, AccountRefusal, Frame, QueryRow, Run,
};

/// How many divergences a ledger holds.
const CAP: usize = 16;

fn whole(n: i128) -> Dec {
    Dec::new(n, 0).expect("a whole amount")
}

fn unpoliced() -> AccountPolicy {
    AccountPolicy {
        trailing_drawdown: None,
        daily_loss_limit: None,
        reset_minute_utc: 0,
        currency: None,
    }
}

fn run(started_ns: u64, warmup_ns: u64, run_duration_ns: Option<u64>) -> Run {
    Run::new(
        whole(100_000),
        started_ns,
        warmup_ns,
        run_duration_ns,
        false,
        CAP,
    )
}

fn frozen(run: &Run, account: &str) -> bool {
    run.peek_passenger(account).expect("it is open").is_frozen()
}

fn dark(run: &Run, account: &str, at: u64) -> bool {
    let window = run
        .peek_passenger(account)
        .expect("it is open")
        .transport()
        .dark;
    let armed = window.span.map_or(0, |span| span.wall_armed_ns);
    window.open_at(armed, 0, at)
}

fn stalled(run: &Run, account: &str, at: u64) -> bool {
    let window = run
        .peek_passenger(account)
        .expect("it is open")
        .transport()
        .stall;
    let armed = window.span.map_or(0, |span| span.wall_armed_ns);
    window.open_at(armed, 0, at)
}

fn delay_ms(run: &Run, account: &str) -> u64 {
    run.peek_passenger(account)
        .expect("it is open")
        .transport()
        .delay_ms
}

fn span(wall_armed_ns: u64, sim_span_ns: u64) -> ArmedSpan {
    ArmedSpan {
        wall_armed_ns,
        sim_span_ns,
    }
}

fn passenger() -> Passenger {
    let run = run(1_000, 400, None);
    Passenger::new(0, run.unopened_ledger(), 0)
}

/// Seats a claimed account: whether it discards the ledger is asked before
/// anybody gives way.
fn seat(run: &mut Run, account: &str, session: Option<&str>) -> Vec<u64> {
    let resetting = run.seat_discards_ledger(account, true, session);
    run.seat(account, true, session, resetting, 0)
}

#[test]
fn a_query_reply_carries_only_the_asking_accounts_orders() {
    let mut run = run(1_000, 400, None);
    run.claim_order("V-mine", "MOGWAI-001");
    run.claim_order("V-theirs", "MOGWAI-002");
    let row = |venue_order_id: &str, row: u64| QueryRow {
        venue_order_id: venue_order_id.to_string(),
        row,
    };
    let mut events = vec![Frame::OrderStatusSnapshot {
        orders: vec![row("V-mine", 1), row("V-theirs", 2)],
    }];
    run.scope_query_rows(&mut events, "MOGWAI-001");
    let Frame::OrderStatusSnapshot { orders } = &events[0] else {
        panic!("the snapshot survives scoping");
    };
    assert_eq!(orders.len(), 1, "one account, one order");
    assert_eq!(orders[0].venue_order_id, "V-mine");
}

#[test]
fn only_snapshots_are_scoped() {
    let mut run = run(1_000, 400, None);
    run.claim_order("V-mine", "MOGWAI-001");
    run.claim_order("V-theirs", "MOGWAI-002");
    let row = |venue_order_id: &str, row: u64| QueryRow {
        venue_order_id: venue_order_id.to_string(),
        row,
    };
    let filled = Frame::OrderFilled {
        venue_order_id: "V-theirs".to_string(),
    };
    let mut events = vec![
        filled.clone(),
        Frame::FillSnapshot {
            fills: vec![
                row("V-theirs", 1),
                row("V-nobodys", 2),
                row("V-mine", 3),
                row("V-mine", 4),
            ],
        },
        Frame::Other,
    ];
    run.scope_query_rows(&mut events, "MOGWAI-001");
    assert_eq!(
        events,
        [
            filled,
            Frame::FillSnapshot {
                fills: vec![row("V-nobodys", 2), row("V-mine", 3), row("V-mine", 4)],
            },
            Frame::Other,
        ]
    );
}

#[test]
fn an_account_freezes_when_its_last_connection_goes_and_thaws_when_one_returns() {
    let mut run = run(1_000, 400, None);
    run.passenger("FREEZE-001", 0);
    assert!(
        frozen(&run, "FREEZE-001"),
        "an account nobody has connected to is unattended like any other"
    );

    run.bind_lanes(1, "FREEZE-001", None);
    assert!(run.resume("FREEZE-001"));
    assert!(!frozen(&run, "FREEZE-001"));

    run.bind_lanes(2, "FREEZE-001", None);
    run.release_lanes(1, 10);
    assert!(
        !frozen(&run, "FREEZE-001"),
        "a connection is still reading this account"
    );

    run.release_lanes(2, 20);
    assert!(frozen(&run, "FREEZE-001"), "the last one left");
    assert!(run.resume("FREEZE-001"), "it comes back to a frozen account");
    assert!(!run.resume("FREEZE-001"), "and then to a live one");
}

#[test]
fn an_evicted_account_freezes_when_the_incumbent_finishes_tearing_down() {
    let mut run = run(1_000, 400, None);
    run.passenger("FREEZE-002", 0);
    let incumbent = run.let_in("FREEZE-002");
    run.bind_lanes(1, "FREEZE-002", Some("alpha"));
    run.resume("FREEZE-002");

    assert_eq!(run.evict_account("FREEZE-002", Some("beta")).len(), 1);
    run.release_lanes(1, 10);
    run.depart(incumbent, 20);

    let passenger = run.peek_passenger("FREEZE-002").expect("still open");
    assert!(
        passenger.is_frozen(),
        "nothing is reading this account, so it must be frozen"
    );
    assert!(
        passenger.frozen_for(30).is_some(),
        "and the reaper reads exactly that"
    );
}

#[test]
fn an_admitted_socket_holds_the_account_open_before_it_binds_a_lane() {
    let mut run = run(1_000, 400, None);
    run.passenger("FREEZE-003", 0);
    let incumbent = run.let_in("FREEZE-003");
    run.bind_lanes(1, "FREEZE-003", Some("alpha"));
    run.resume("FREEZE-003");

    let newcomer = run.let_in("FREEZE-003");
    assert_eq!(run.evict_account("FREEZE-003", Some("beta")).len(), 1);
    run.release_lanes(1, 10);
    run.depart(incumbent, 20);
    assert!(
        !frozen(&run, "FREEZE-003"),
        "the newcomer is on its way in, so the account is still being read"
    );

    run.depart(newcomer, 30);
    assert!(
        frozen(&run, "FREEZE-003"),
        "and when that newcomer goes without ever binding, the account freezes"
    );
}

#[test]
fn a_seat_shared_by_two_connections_survives_the_first_leaving() {
    let mut passenger = passenger();
    passenger
        .try_sit("BTCUSDT", 2_000_000)
        .expect("the first sits");
    passenger
        .try_sit("BTCUSDT", 2_000_000)
        .expect("the second shares it");
    passenger.unsit("BTCUSDT", 2_000_000);
    assert!(
        passenger.is_seated_on("BTCUSDT", 2_000_000),
        "one connection left, one is still riding"
    );
    passenger.unsit("BTCUSDT", 2_000_000);
    assert!(
        !passenger.is_seated_on("BTCUSDT", 2_000_000),
        "the last rider vacated it"
    );
}

#[test]
fn a_frozen_account_may_not_sit_on_two_cadences_of_one_river() {
    let mut passenger = passenger();
    assert!(passenger.is_frozen(), "a fresh account is unattended");
    passenger
        .try_sit("BTCUSDT", 2_000_000)
        .expect("the first cadence sits");
    let refused = passenger
        .try_sit("BTCUSDT", 3_000_000)
        .expect_err("a second cadence on one ledger is refused");
    assert_eq!(refused, 2_000_000, "the refusal names the sitting cadence");
}

#[test]
fn leaving_one_river_frees_that_seat_while_another_is_still_ridden() {
    let mut passenger = passenger();
    passenger
        .try_sit("BTCUSDT", 2_000_000)
        .expect("board the slow one");
    passenger.try_sit("ETHUSDT", 1_000_000).expect("and another");
    passenger.unsit("BTCUSDT", 2_000_000);
    assert!(
        !passenger.is_seated_on("BTCUSDT", 2_000_000),
        "the seat went with the session, no freeze required"
    );
    assert!(passenger.is_seated_on("ETHUSDT", 1_000_000));
    passenger
        .try_sit("BTCUSDT", 3_000_000)
        .expect("a new cadence on a river nobody is riding is not a conflict");
}

#[test]
fn one_clients_sockets_share_a_ledger_and_a_stranger_evicts_them_all() {
    let mut run = run(1_000, 400, None);
    seat(&mut run, "CLAUDETTE-07", Some("worker-1"));
    run.bind_lanes(1, "CLAUDETTE-07", Some("worker-1"));
    assert!(
        run.evict_account("CLAUDETTE-07", Some("worker-1")).is_empty(),
        "the host's second leg is the same client, not a claimant"
    );
    assert!(seat(&mut run, "CLAUDETTE-07", Some("worker-1")).is_empty());
    run.bind_lanes(2, "CLAUDETTE-07", Some("worker-1"));
    assert!(
        run.has_client_on("CLAUDETTE-07", Some("worker-1")),
        "both legs are reading the ledger they were configured for"
    );

    assert_eq!(
        run.evict_account("CLAUDETTE-07", Some("worker-2")),
        vec![1, 2],
        "a different client displaces every socket of the old one"
    );
    assert!(!run.has_client_on("CLAUDETTE-07", Some("worker-1")));
}

/// Arms the venue with one arm of each kind, and its record of divergences up
/// to the most that it holds.
fn fill_venue_record(run: &mut Run) {
    run.arm(
        None,
        VenueArm::GoDark {
            span: span(1_000, 5_000),
        },
    );
    run.arm(None, VenueArm::DelayAcks { ms: 37 });
    for _ in 0..CAP {
        let shed = run.arm(None, VenueArm::Engine { divergence: 1 });
        assert!(shed.is_none(), "the record fills before it sheds");
    }
}

#[test]
fn a_ledger_minted_after_a_venue_wide_arm_carries_it() {
    let mut run = run(1_000, 400, None);
    fill_venue_record(&mut run);
    run.passenger("LATE-001", 0);
    assert!(
        dark(&run, "LATE-001", 1_000),
        "a blackout armed venue-wide before this account existed must still black it out"
    );
    assert_eq!(
        delay_ms(&run, "LATE-001"),
        37,
        "an ack delay armed venue-wide must reach a ledger minted afterwards"
    );
    let shed = run.arm(None, VenueArm::Engine { divergence: 1 });
    assert!(
        shed.is_some(),
        "the minted ledger must open holding the venue's armed queue"
    );
}

#[test]
fn an_account_opened_by_its_client_carries_the_venue_wide_arms() {
    let mut run = run(1_000, 400, None);
    fill_venue_record(&mut run);
    run.open_account("POST-001", &vec![whole(50_000)], unpoliced(), 0)
        .expect("a fresh id opens");
    assert!(
        dark(&run, "POST-001", 1_000),
        "a blackout armed venue-wide must reach an account its client opened afterwards"
    );
    assert_eq!(
        delay_ms(&run, "POST-001"),
        37,
        "an ack delay armed venue-wide must reach a client-opened account too"
    );
    let shed = run.arm(None, VenueArm::Engine { divergence: 1 });
    assert!(
        shed.is_some(),
        "a client-opened ledger must hold the venue's armed queue"
    );
}

#[test]
fn a_named_arm_before_a_client_opens_its_account_does_not_lock_it_out() {
    let mut run = run(1_000, 400, None);
    run.arm(
        Some("SUB-01"),
        VenueArm::GoDark {
            span: span(1_000, 5_000),
        },
    );
    run.open_account("SUB-01", &vec![whole(50_000)], unpoliced(), 0)
        .expect("an arm against an account is not an account");
    assert!(
        dark(&run, "SUB-01", 1_000),
        "the arm posted before the client existed must be standing on the ledger it opened"
    );
}

#[test]
fn a_waiting_arm_is_used_up_by_the_first_ledger() {
    let mut run = run(1_000, 400, None);
    let arm = VenueArm::GoDark {
        span: span(1_000, 5_000),
    };
    assert_eq!(run.arm(Some("SUB-01"), arm), None);
    assert!(run.peek_passenger("SUB-01").is_none(), "an arm opens nothing");
    run.open_account("SUB-01", &vec![whole(1)], unpoliced(), 0)
        .expect("it is not open");
    assert!(dark(&run, "SUB-01", 1_000));
    run.passenger("SUB-02", 0);
    assert!(!dark(&run, "SUB-02", 1_000));
    run.discard_account("SUB-01");
    run.passenger("SUB-01", 0);
    assert!(!dark(&run, "SUB-01", 1_000), "the second ledger has a clean record");
}

#[test]
fn a_named_arm_reaches_the_account_that_connects_later_and_no_other() {
    let mut run = run(1_000, 400, None);
    run.arm(
        Some("SUB-02"),
        VenueArm::GoDark {
            span: span(1_000, 5_000),
        },
    );
    run.passenger("SUB-03", 0);
    assert!(
        !dark(&run, "SUB-03", 1_000),
        "an arm naming one account must not black out another"
    );
    run.passenger("SUB-02", 0);
    assert!(
        dark(&run, "SUB-02", 1_000),
        "an arm naming an account that had not connected must be standing when it does"
    );
}

#[test]
fn a_clear_stops_arming_ledgers_minted_after_it() {
    let mut run = run(1_000, 400, None);
    run.arm(
        None,
        VenueArm::GoDark {
            span: span(1_000, 5_000),
        },
    );
    run.arm(None, VenueArm::DelayAcks { ms: 37 });
    run.arm(
        Some("SUB-04"),
        VenueArm::StallData {
            span: span(1_000, 5_000),
        },
    );
    run.clear_venue_arms();

    run.passenger("LATE-002", 0);
    assert!(
        !dark(&run, "LATE-002", 1_000),
        "a cleared blackout must not be re-armed onto a ledger minted after the clear"
    );
    assert_eq!(
        delay_ms(&run, "LATE-002"),
        0,
        "a cleared ack delay must not be re-armed either"
    );
    run.passenger("SUB-04", 0);
    assert!(
        !stalled(&run, "SUB-04", 1_000),
        "a clear stops everything, including an arm waiting for an account to arrive"
    );
}

#[test]
fn a_socket_naming_no_session_evicts_and_is_evicted() {
    let mut run = run(1_000, 400, None);
    run.bind_lanes(1, "QUIET-001", None);
    assert_eq!(
        run.evict_account("QUIET-001", None).len(),
        1,
        "an unidentified newcomer takes the ledger, as it always did"
    );
    run.bind_lanes(2, "QUIET-001", Some("worker-1"));
    assert_eq!(
        run.evict_account("QUIET-001", None).len(),
        1,
        "and an unidentified newcomer displaces an identified incumbent too"
    );
}

#[test]
fn the_ttl_collects_an_account_nobody_reclaimed_and_spares_an_attached_one() {
    let mut run = run(1_000, 400, None);
    run.passenger("GONE-001", 0);
    run.passenger("HELD-001", 0);
    run.bind_lanes(1, "HELD-001", None);
    run.resume("HELD-001");

    assert!(
        run.collect_expired_accounts(3_600_000_000_000, 1).is_empty(),
        "an account frozen a moment ago has not outlived an hour"
    );
    let collected = run.collect_expired_accounts(0, 1);
    assert_eq!(
        collected,
        vec!["GONE-001".to_string()],
        "only the unattended account is collected: {collected:?}"
    );
    assert!(
        run.peek_passenger("GONE-001").is_none(),
        "and it is gone from the registry"
    );
    assert!(
        run.peek_passenger("HELD-001").is_some(),
        "the attached account survives"
    );
}

#[test]
fn an_admitted_socket_spares_the_account_it_is_reclaiming() {
    let mut run = run(1_000, 400, None);
    run.passenger("BACK-001", 0);
    assert!(frozen(&run, "BACK-001"));

    let admission = run.let_in("BACK-001");
    assert!(
        run.collect_expired_accounts(0, 1).is_empty(),
        "a socket is on its way in: the ledger it is reclaiming must still be there"
    );

    run.depart(admission, 2);
    assert_eq!(
        run.collect_expired_accounts(0, 3),
        vec!["BACK-001".to_string()],
        "and once nothing is on it, the TTL collects it as it always did"
    );
}

#[test]
fn the_history_floor_is_the_fixed_tape_origin() {
    let run = run(1_000, 400, None);
    assert_eq!(run.data_origin_ns(), TAPE_ORIGIN_NS);
    assert_eq!(run.terms().started_ns, 1_000);
    assert_eq!(run.terms().warmup_ns, 400);
}

#[test]
fn the_deadline_is_measured_from_the_post_warmup_epoch() {
    let bounded = run(1_000_000, 999_000, Some(30));
    assert_eq!(bounded.terms().deadline_ns, Some(1_000_030));

    let indefinite = run(1_000, 0, None);
    assert_eq!(indefinite.terms().deadline_ns, None);
}

#[test]
fn an_open_account_is_not_opened_again() {
    let mut run = run(1_000, 400, None);
    run.open_account("A-1", &vec![whole(7)], unpoliced(), 0)
        .expect("it opens");
    let refused = run
        .open_account("A-1", &vec![whole(9)], unpoliced(), 0)
        .expect_err("it is open");
    assert!(matches!(refused, AccountRefusal::AlreadyOpen));
    assert!(refused
        .message(&vec![])
        .starts_with("this account is already open"));
    assert_eq!(
        run.peek_passenger("A-1").unwrap().risk().peak_equity,
        whole(7)
    );
}

#[test]
fn equity_opens_at_the_sum_of_the_balances() {
    assert_eq!(opening_equity(&vec![]), whole(0));
    assert_eq!(
        opening_equity(&vec![whole(3), Dec::new(25, 1).unwrap(), whole(-1)]),
        Dec::new(45, 1).unwrap()
    );
}

#[test]
fn a_stated_policy_wins_over_a_named_one() {
    let daily = |amount: i128| AccountPolicy {
        daily_loss_limit: Some(DailyLossLimit {
            amount: whole(amount),
            on_breach: BreachAction::Terminate,
        }),
        ..unpoliced()
    };
    let amount = |policy: AccountPolicy| policy.daily_loss_limit.map(|limit| limit.amount);
    let stated = resolve_policy(Some("hard"), daily(1), Some(daily(2)), Some(daily(3)));
    assert_eq!(amount(stated.expect("stated")), Some(whole(1)));
    let registered = resolve_policy(Some("hard"), unpoliced(), Some(daily(2)), Some(daily(3)));
    assert_eq!(amount(registered.expect("registered")), Some(whole(2)));
    let shipped = resolve_policy(Some("hard"), unpoliced(), None, Some(daily(3)));
    assert_eq!(amount(shipped.expect("shipped")), Some(whole(3)));
    let none = resolve_policy(None, unpoliced(), None, None);
    assert_eq!(amount(none.expect("none at all")), None);
    let unknown = resolve_policy(Some("hard"), unpoliced(), None, None)
        .expect_err("nobody has a policy of this name");
    assert_eq!(
        unknown.message(&vec!["a".to_string(), "b".to_string()]),
        "no account policy is registered or shipped under hard; shipped names are a, b, and an operator registers more under [account_policies] in the venue config"
    );
}

#[test]
fn a_claim_with_a_reset_starts_a_clean_ledger() {
    let mut run = Run::new(whole(100), 0, 0, None, true, CAP);
    run.passenger("A-1", 0);
    let first = run.peek_passenger("A-1").unwrap().serial();
    run.claim_order("V-1", "A-1");
    assert!(run.seat_discards_ledger("A-1", true, Some("s")));
    run.seat("A-1", true, Some("s"), true, 0);
    assert_ne!(run.peek_passenger("A-1").unwrap().serial(), first);
    assert_eq!(run.order_owner("V-1"), None, "its orders went with it");
    run.bind_lanes(1, "A-1", Some("s"));
    assert!(
        !run.seat_discards_ledger("A-1", true, Some("s")),
        "the second leg of the client that is there keeps the ledger"
    );
}

#[test]
fn a_discarded_account_keeps_nothing() {
    let mut run = run(0, 0, None);
    run.passenger("A-1", 0);
    let accepted = |venue_order_id: &str| Frame::OrderAccepted {
        venue_order_id: venue_order_id.to_string(),
    };
    let triggered = Frame::OrderTriggered {
        venue_order_id: "V-3".to_string(),
    };
    run.track_ownership(&vec![accepted("V-1"), triggered, accepted("V-2")], "A-1");
    assert_eq!(run.order_owner("V-3"), None);
    run.claim_order("V-3", "A-2");
    assert_eq!(run.order_owner("V-2").map(String::as_str), Some("A-1"));
    run.discard_account("A-1");
    assert!(run.peek_passenger("A-1").is_none());
    assert_eq!(run.order_owner("V-1"), None);
    assert_eq!(run.order_owner("V-3").map(String::as_str), Some("A-2"));
}

#[test]
fn an_eviction_says_why() {
    assert_eq!(
        eviction_reason("A-1"),
        "another connection claimed account A-1; a ledger is never read from two clients at once"
    );
}

#[test]
fn a_search_goes_to_the_named_book_or_to_all() {
    let mut run = run(0, 0, None);
    run.passenger("A-1", 0);
    run.passenger("A-2", 0);
    assert_eq!(run.passengers_to_search(Some("A-2")), vec!["A-2"]);
    assert!(run.passengers_to_search(Some("A-3")).is_empty());
    assert_eq!(run.passengers_to_search(None), vec!["A-1", "A-2"]);
}

#[test]
fn a_named_search_never_finds_a_strangers_order() {
    let mut run = run(0, 0, None);
    run.passenger("A-1", 0);
    run.passenger("A-2", 0);
    let books = vec![
        ("A-3".to_string(), "SOLUSDT".to_string()),
        ("A-2".to_string(), "ETHUSDT".to_string()),
    ];
    let found = Some(("A-2".to_string(), "ETHUSDT".to_string()));
    assert_eq!(run.passenger_holding(Some("A-2"), &books), found);
    assert_eq!(run.passenger_holding(Some("A-1"), &books), None);
    assert_eq!(run.passenger_holding(Some("A-3"), &books), None);
    assert_eq!(run.passenger_holding(None, &books), found);
    assert_eq!(run.passenger_holding(None, &vec![]), None);
}

#[test]
fn an_arm_reaches_an_open_account_at_once() {
    let mut run = run(0, 0, None);
    run.passenger("A-1", 0);
    run.passenger("A-2", 0);
    run.arm(Some("A-1"), VenueArm::DelayAcks { ms: 5 });
    assert_eq!(delay_ms(&run, "A-1"), 5);
    assert_eq!(delay_ms(&run, "A-2"), 0);
    run.arm(None, VenueArm::DelayAcks { ms: 9 });
    assert_eq!(delay_ms(&run, "A-1"), 9);
    assert_eq!(delay_ms(&run, "A-2"), 9);
    let passenger = run.peek_passenger("A-1").unwrap();
    assert_eq!(passenger.act_ms(CommandClass::Submit), 0);
    assert_eq!(passenger.ack_ms(CommandClass::Cancel), 0);
}

#[test]
fn an_instrument_is_set_up_once() {
    let one = Dec::new(1, 0).unwrap();
    let profile = InstrumentProfile {
        def: InstrumentDef {
            symbol: "BTCUSDT".to_string(),
            class: InstrumentClass::Spot {
                base: "BTC".to_string(),
                quote: "USDT".to_string(),
            },
            price_precision: 0,
            size_precision: 0,
            price_increment: one,
            size_increment: one,
        },
        generator: Generator {
            symbol: "BTCUSDT".to_string(),
            modal_tick: one,
            price_decimals: 0,
            bid_size: one,
            ask_size: one,
        },
        margin: None,
        fees: Some(ConfiguredFees {
            maker: FeeRate::BasisPoints { rate: one },
            taker: FeeRate::PerContract { amount: one },
        }),
        session: SessionProfile {
            intensity_hour: vec![1.0_f64.to_bits(); 24],
            vol_hour: vec![1.0_f64.to_bits(); 24],
            dow_weight: vec![1.0_f64.to_bits(); 7],
        },
        calendar: None,
    };
    let first = register_instrument(true, &profile);
    assert!(first.margin.is_none());
    assert!(matches!(
        first.fees,
        Some(ConfiguredFees {
            maker: FeeRate::BasisPoints { rate },
            ..
        }) if rate == one
    ));
    let again = register_instrument(false, &profile);
    assert!(again.margin.is_none() && again.fees.is_none());
}

#[test]
fn funds_are_looked_for_where_the_client_will_trade() {
    assert!(funded_in(true, true, Some(false)), "a reset ledger is the template");
    assert!(!funded_in(true, false, Some(true)));
    assert!(funded_in(false, true, None), "so is one that is not open yet");
    assert!(!funded_in(false, true, Some(false)));
}

#[test]
fn an_answer_goes_where_it_is_addressed() {
    let state = Frame::AccountState {
        account_id: "A-1".to_string(),
    };
    assert_eq!(addressed_account(&state).map(String::as_str), Some("A-1"));
    assert_eq!(addressed_order(&state), None);
    assert_eq!(addressed_account(&Frame::Other), None);
    assert_eq!(addressed_order(&Frame::Other), None);
    let filled = Frame::OrderFilled {
        venue_order_id: "V-1".to_string(),
    };
    assert_eq!(addressed_order(&filled).map(String::as_str), Some("V-1"));
    let unknown = Frame::OrderCancelRejected {
        venue_order_id: None,
    };
    assert_eq!(addressed_order(&unknown), None);
}
