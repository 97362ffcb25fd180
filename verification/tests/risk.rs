use mogwai_server::decimal::Dec;
use mogwai_server::risk::{
    day_index, AccountPolicy, BreachAction, BreachedRule, DailyLossLimit, RiskLedger,
    TrailingBasis, TrailingDrawdown, Verdict,
};

const NANOS_PER_MINUTE: u64 = 60_000_000_000;
const DAY: u64 = 24 * 60 * NANOS_PER_MINUTE;

fn whole(n: i128) -> Dec {
    Dec::new(n, 0).expect("a whole amount")
}

fn trailing(amount: i128, basis: TrailingBasis) -> AccountPolicy {
    AccountPolicy {
        trailing_drawdown: Some(TrailingDrawdown {
            amount: whole(amount),
            basis,
            lock_at_equity: None,
            on_breach: BreachAction::Terminate,
        }),
        daily_loss_limit: None,
        reset_minute_utc: 0,
        currency: Some("USD".to_owned()),
    }
}

fn daily(amount: i128) -> AccountPolicy {
    AccountPolicy {
        trailing_drawdown: None,
        daily_loss_limit: Some(DailyLossLimit {
            amount: whole(amount),
            on_breach: BreachAction::LockUntilReset,
        }),
        reset_minute_utc: 0,
        currency: Some("USD".to_owned()),
    }
}

#[test]
fn a_peak_that_is_given_back_still_spends_budget() {
    let mut ledger = RiskLedger::new(trailing(2_000, TrailingBasis::PeakEquity), whole(50_000), 0);
    assert_eq!(ledger.observe(whole(53_700), 1), Verdict::Clear);
    let state = ledger.state(whole(53_000)).expect("amounts in range");
    assert_eq!(
        state.trailing_threshold,
        Some(whole(51_700)),
        "the floor ratcheted to the peak less the allowance"
    );
    assert_eq!(
        state.trailing_remaining,
        Some(whole(1_300)),
        "up 3,000 on the day and 700 of the 2,000 budget is gone"
    );
}

#[test]
fn an_end_of_day_basis_ignores_the_intraday_spike() {
    let mut ledger = RiskLedger::new(
        trailing(2_000, TrailingBasis::EndOfDayBalance),
        whole(50_000),
        0,
    );
    assert_eq!(ledger.observe(whole(53_700), 1), Verdict::Clear);
    assert_eq!(
        ledger.state(whole(53_000)).expect("amounts in range").trailing_threshold,
        Some(whole(48_000)),
        "an intraday peak does not ratchet an end-of-day trail"
    );
}

#[test]
fn a_trailing_breach_terminates() {
    let mut ledger = RiskLedger::new(trailing(2_000, TrailingBasis::PeakEquity), whole(50_000), 0);
    let Verdict::Breached(breach) = ledger.observe(whole(47_999), 1) else {
        panic!("crossing the floor breaches");
    };
    assert_eq!(breach.rule, BreachedRule::TrailingDrawdown);
    assert_eq!(breach.action, BreachAction::Terminate);
    assert_eq!(breach.threshold, whole(48_000));
    assert_eq!((breach.equity, breach.ts_event), (whole(47_999), 1));
    assert!(ledger.is_locked(), "a terminated account never opens again");
    assert_eq!(ledger.observe(whole(1), 3 * DAY), Verdict::Clear);
    assert!(ledger.is_locked(), "not even with a new day");
}

#[test]
fn a_floor_is_broken_below_it_and_not_on_it() {
    let mut ledger = RiskLedger::new(trailing(2_000, TrailingBasis::PeakEquity), whole(50_000), 0);
    assert_eq!(ledger.observe(whole(48_000), 1), Verdict::Clear);
    assert!(matches!(
        ledger.observe(whole(47_999), 2),
        Verdict::Breached(_)
    ));
}

#[test]
fn a_daily_lock_lifts_at_the_next_reset() {
    let mut ledger = RiskLedger::new(daily(500), whole(50_000), 0);
    let Verdict::Breached(breach) = ledger.observe(whole(49_499), 1) else {
        panic!("crossing the daily floor breaches");
    };
    assert_eq!(breach.rule, BreachedRule::DailyLossLimit);
    assert!(ledger.is_locked());

    assert_eq!(ledger.observe(whole(49_499), DAY + 1), Verdict::Clear);
    assert!(
        !ledger.is_locked(),
        "the next session restores the daily budget"
    );
    assert_eq!(
        ledger.state(whole(49_499)).expect("amounts in range").day_open_equity,
        whole(49_499),
        "the new day measures from where the account actually opened it"
    );
}

#[test]
fn a_locked_trail_stops_following() {
    let policy = AccountPolicy {
        trailing_drawdown: Some(TrailingDrawdown {
            amount: whole(2_000),
            basis: TrailingBasis::PeakEquity,
            lock_at_equity: Some(whole(50_000)),
            on_breach: BreachAction::Terminate,
        }),
        daily_loss_limit: None,
        reset_minute_utc: 0,
        currency: Some("USD".to_owned()),
    };
    let mut ledger = RiskLedger::new(policy, whole(50_000), 0);
    assert_eq!(ledger.observe(whole(60_000), 1), Verdict::Clear);
    assert_eq!(
        ledger.state(whole(60_000)).expect("amounts in range").trailing_threshold,
        Some(whole(50_000)),
        "the trail froze at its lock level instead of reaching 58,000"
    );
}

#[test]
fn an_unpoliced_account_never_breaches() {
    let policy = AccountPolicy {
        trailing_drawdown: None,
        daily_loss_limit: None,
        reset_minute_utc: 0,
        currency: None,
    };
    let mut ledger = RiskLedger::new(policy, whole(50_000), 0);
    assert_eq!(ledger.observe(whole(0), 1), Verdict::Clear);
    assert!(!ledger.is_locked());
    assert_eq!(ledger.currency(), None);
}

#[test]
fn a_day_turns_at_its_reset_minute() {
    assert_eq!(day_index(DAY, 0), day_index(DAY - 1, 0) + 1);
    assert_eq!(day_index(0, 0), day_index(DAY - 1, 0));
    assert_eq!(day_index(0, 0), 0);
    assert_eq!(day_index(DAY, 0), 1);
    for reset in [1, 22 * 60, 1439] {
        let first = u64::from(reset) * NANOS_PER_MINUTE;
        assert_eq!(day_index(0, reset), -1);
        assert_eq!(day_index(first - 1, reset), -1);
        assert_eq!(day_index(first, reset), 0);
        assert_eq!(day_index(first + DAY - 1, reset), 0);
        assert_eq!(day_index(first + DAY, reset), 1);
        assert_eq!(day_index(first + 5 * DAY + 7, reset), 5);
    }
    assert_eq!(day_index(0, 1441), -2);
    assert_eq!(day_index(NANOS_PER_MINUTE, 1441), -1);
}

#[test]
fn a_lock_of_the_first_part_of_a_day_lifts_at_its_reset() {
    let mut policy = daily(500);
    policy.reset_minute_utc = 22 * 60;
    let reset = 22 * 60 * NANOS_PER_MINUTE;
    let mut ledger = RiskLedger::new(policy, whole(50_000), 0);
    assert!(matches!(
        ledger.observe(whole(49_499), reset - 2),
        Verdict::Breached(_)
    ));
    assert_eq!(ledger.observe(whole(49_600), reset - 1), Verdict::Clear);
    assert!(ledger.is_locked());
    assert_eq!(ledger.observe(whole(49_499), reset), Verdict::Clear);
    assert!(!ledger.is_locked());
}

#[test]
fn what_is_left_of_a_day_is_published() {
    let ledger = RiskLedger::new(daily(500), whole(50_000), 0);
    let state = ledger.state(whole(49_800)).expect("amounts in range");
    assert_eq!(state.daily_remaining, Some(whole(300)));
    assert_eq!(state.trailing_threshold, None);
    assert_eq!(ledger.currency(), Some("USD"));
}

#[test]
fn a_floor_beyond_all_amounts_leaves_the_ledger() {
    let vast = Dec::new(79_228_162_514_264_337_593_543_950_335, 0).expect("the largest amount");
    let mut policy = daily(1_000);
    policy.daily_loss_limit = Some(DailyLossLimit {
        amount: vast,
        on_breach: BreachAction::LockUntilReset,
    });
    let mut ledger = RiskLedger::new(policy, whole(-50_000), 0);
    let before = ledger.state(whole(-50_000));
    assert_eq!(ledger.try_observe(whole(-50_000), 1), None);
    assert_eq!(ledger.state(whole(-50_000)), before);

    let mut ledger = RiskLedger::new(daily(1_000), whole(50_000), 0);
    assert_eq!(ledger.try_observe(whole(49_500), 1), Some(Verdict::Clear));
    assert!(matches!(
        ledger.try_observe(whole(48_000), 2),
        Some(Verdict::Breached(_))
    ));
}

#[test]
fn the_peak_is_the_highest_of_all_readings() {
    let mut ledger = RiskLedger::new(trailing(9_000, TrailingBasis::PeakEquity), whole(50_000), 0);
    let readings = [50_400, 51_250, 49_000, 51_249, 48_000];
    for (i, equity) in readings.into_iter().enumerate() {
        assert_eq!(ledger.observe(whole(equity), i as u64), Verdict::Clear);
    }
    let state = ledger.state(whole(48_000)).expect("amounts in range");
    assert_eq!(state.peak_equity, whole(51_250));
    assert_eq!(state.trailing_remaining, Some(whole(5_750)));
}

#[test]
fn a_new_peak_never_breaks_its_own_floor() {
    for allowance in [0, 1, 2_000] {
        let mut ledger =
            RiskLedger::new(trailing(allowance, TrailingBasis::PeakEquity), whole(50_000), 0);
        for (i, equity) in [50_001, 50_002, 90_000].into_iter().enumerate() {
            assert_eq!(ledger.observe(whole(equity), i as u64), Verdict::Clear);
        }
    }
}

#[test]
fn a_budget_is_published_to_its_last_digit() {
    let mut policy = trailing(2_000, TrailingBasis::PeakEquity);
    policy.daily_loss_limit = Some(DailyLossLimit {
        amount: Dec::new(50_025, 2).expect("an amount"),
        on_breach: BreachAction::LockUntilReset,
    });
    let ledger = RiskLedger::new(policy, whole(50_000), 0);
    let equity = Dec::new(49_900_125, 3).expect("an amount");
    let state = ledger.state(equity).expect("amounts in range");
    assert_eq!(state.trailing_remaining, Dec::new(1_900_125, 3));
    assert_eq!(state.daily_remaining, Dec::new(400_375, 3));
}

#[test]
fn a_peak_that_is_met_is_kept_as_it_was() {
    let mut ledger = RiskLedger::new(trailing(2_000, TrailingBasis::PeakEquity), whole(50_000), 0);
    let finer = Dec::new(5_000_000, 2).expect("an amount");
    assert_eq!(ledger.observe(finer, 1), Verdict::Clear);
    let state = ledger.state(whole(50_000)).expect("amounts in range");
    assert_eq!(state.peak_equity.scale(), 0);
}
