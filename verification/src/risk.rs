//! Enforcing one account's policy against its own equity.
//!
//! A policy limits how far equity may fall below its peak, and how much of a
//! day's opening equity may be lost. A reading of the equity that breaks a limit
//! locks the account: until the next day, or for good.

use vstd::prelude::*;

use crate::decimal::amounts_are_ordered;
use crate::decimal::comes_to;
use crate::decimal::difference;
use crate::decimal::digits_with_places;
use crate::decimal::finer;
use crate::decimal::is_mantissa;
use crate::decimal::less_by;
use crate::decimal::order_is_transitive;
use crate::decimal::subtract;
use crate::decimal::Dec;

verus! {

/// Nanoseconds in one minute.
pub const NANOS_PER_MINUTE: u64 = 60_000_000_000;

/// Nanoseconds in one day.
pub const NANOS_PER_DAY: u64 = 86_400_000_000_000;

/// The latest reset minute whose offset from midnight 64 bits of nanoseconds
/// hold.
pub const MAX_RESET_MINUTE: u32 = 307_445_734;

/// What raises the floor of a trailing drawdown.
#[derive(Clone, Copy, Debug, PartialEq, Eq, Structural)]
pub enum TrailingBasis {
    /// Every reading.
    PeakEquity,
    /// The first reading of a day.
    EndOfDayBalance,
}

/// What a breach costs.
#[derive(Clone, Copy, Debug, PartialEq, Eq, Structural)]
pub enum BreachAction {
    /// The account never opens again.
    Terminate,
    /// The account opens again with the next day.
    LockUntilReset,
}

/// Which limit was broken.
#[derive(Clone, Copy, Debug, PartialEq, Eq, Structural)]
pub enum BreachedRule {
    TrailingDrawdown,
    DailyLossLimit,
}

/// A limit on how far equity falls below its peak.
#[derive(Clone, Copy, Debug)]
pub struct TrailingDrawdown {
    pub amount: Dec,
    pub basis: TrailingBasis,
    /// The level that the floor does not rise above.
    pub lock_at_equity: Option<Dec>,
    pub on_breach: BreachAction,
}

/// A limit on what is lost in a day.
#[derive(Clone, Copy, Debug)]
pub struct DailyLossLimit {
    pub amount: Dec,
    pub on_breach: BreachAction,
}

/// The rules that an account is enforced under.
#[derive(Debug)]
pub struct AccountPolicy {
    pub trailing_drawdown: Option<TrailingDrawdown>,
    pub daily_loss_limit: Option<DailyLossLimit>,
    /// The minute of the day, in UTC, at which a new day starts.
    pub reset_minute_utc: u32,
    /// The currency that the limits are stated in.
    pub currency: Option<String>,
}

/// A limit that was broken, and by what.
#[derive(Clone, Copy, Debug, PartialEq, Eq, Structural)]
pub struct Breach {
    pub rule: BreachedRule,
    pub action: BreachAction,
    pub ts_event: u64,
    pub equity: Dec,
    pub threshold: Dec,
}

/// What must be done about a reading.
#[derive(Clone, Copy, Debug, PartialEq, Eq, Structural)]
pub enum Verdict {
    Clear,
    Breached(Breach),
}

/// What is published of an account's risk.
#[derive(Clone, Copy, Debug, PartialEq, Eq, Structural)]
pub struct RiskState {
    pub equity: Dec,
    pub peak_equity: Dec,
    pub day_open_equity: Dec,
    pub trailing_threshold: Option<Dec>,
    pub trailing_remaining: Option<Dec>,
    pub daily_remaining: Option<Dec>,
    pub breached: Option<Breach>,
}

/// What a policy needs to remember between two readings.
#[derive(Debug)]
pub struct RiskLedger {
    pub policy: AccountPolicy,
    /// The highest equity so far, on the policy's basis.
    pub peak_equity: Dec,
    pub day_open_equity: Dec,
    /// The day that `day_open_equity` was taken in.
    pub day_index: i64,
    /// The breach that ended the account, if one did.
    pub breach: Option<Breach>,
    pub locked: bool,
}

/// The day that an instant falls in: the whole days since the first reset. What
/// is before that reset is in the day before, and counts below zero.
pub open spec fn day_of(now_ns: u64, reset_minute_utc: u32) -> int {
    (now_ns - reset_minute_utc * NANOS_PER_MINUTE) / NANOS_PER_DAY as int
}

/// The instant at which a day starts. Days before the first reset have theirs
/// too, where the clock can tell it.
pub open spec fn reset_at(n: int, reset_minute_utc: u32) -> int {
    reset_minute_utc * NANOS_PER_MINUTE + n * NANOS_PER_DAY
}

/// Crossing any reset raises the day by one, the first reset too, and from one
/// reset to the next it stays.
pub proof fn a_reset_starts_a_day(now_ns: u64, n: int, reset_minute_utc: u32)
    requires
        reset_at(n, reset_minute_utc) <= now_ns < reset_at(n + 1, reset_minute_utc),
    ensures
        day_of(now_ns, reset_minute_utc) == n,
        reset_at(n, reset_minute_utc) > 0 ==> day_of(
            (reset_at(n, reset_minute_utc) - 1) as u64,
            reset_minute_utc,
        ) == n - 1,
{
    let past = now_ns - reset_minute_utc * NANOS_PER_MINUTE;
    assert(past / 86_400_000_000_000int == n) by (nonlinear_arith)
        requires
            n * 86_400_000_000_000 <= past < (n + 1) * 86_400_000_000_000,
    ;
    let before = n * 86_400_000_000_000int - 1;
    assert(before / 86_400_000_000_000int == n - 1) by (nonlinear_arith)
        requires
            before == n * 86_400_000_000_000 - 1,
    ;
}

/// A later instant is never in an earlier day.
pub proof fn days_go_on(one: u64, other: u64, reset_minute_utc: u32)
    requires
        one <= other,
    ensures
        day_of(one, reset_minute_utc) <= day_of(other, reset_minute_utc),
{
    let offset = reset_minute_utc * NANOS_PER_MINUTE;
    vstd::arithmetic::div_mod::lemma_div_is_ordered(
        one - offset,
        other - offset,
        NANOS_PER_DAY as int,
    );
}

/// The larger of two amounts, and the first of two alike.
pub open spec fn larger(a: Dec, b: Dec) -> Dec {
    if a.below(b) {
        b
    } else {
        a
    }
}

/// The decimal places of the finest of three amounts.
pub open spec fn finest(a: Dec, b: Dec, c: Dec) -> nat {
    if c.places() >= finer(a, b) {
        c.places()
    } else {
        finer(a, b)
    }
}

/// How far an equity is above a base less an allowance, in the last decimal
/// place of the finest of them.
pub open spec fn budget(equity: Dec, base: Dec, allowance: Dec) -> int {
    let p = finest(equity, base, allowance);
    equity.aligned(p) - (base.aligned(p) - allowance.aligned(p))
}

/// Whether amounts hold what a budget is made of.
pub open spec fn budget_fits(equity: Dec, base: Dec, allowance: Dec) -> bool {
    let p = finest(equity, base, allowance);
    &&& is_mantissa(equity.aligned(p))
    &&& is_mantissa(base.aligned(p))
    &&& is_mantissa(allowance.aligned(p))
    &&& is_mantissa(base.aligned(p) - allowance.aligned(p))
    &&& is_mantissa(budget(equity, base, allowance))
}

/// What is left above a floor, where the floor is a base less an allowance.
fn left_above(equity: Dec, base: Dec, allowance: Dec) -> (left: Option<(Dec, Dec)>)
    ensures
        match difference(base, allowance) {
            None => left is None,
            Some(floor) => match difference(equity, floor) {
                None => left is None,
                Some(rest) => left == Some((floor, rest)),
            },
        },
        budget_fits(equity, base, allowance) ==> left is Some && comes_to(
            (left->0).1,
            budget(equity, base, allowance),
            finest(equity, base, allowance),
        ),
{
    let ghost p = finest(equity, base, allowance);
    let floor = match less_by(base, allowance, Ghost(p)) {
        Some(floor) => floor,
        None => {
            return None;
        },
    };
    proof {
        if budget_fits(equity, base, allowance) {
            digits_with_places(floor, base.aligned(p) - allowance.aligned(p), p);
        }
    }
    match less_by(equity, floor, Ghost(p)) {
        Some(rest) => Some((floor, rest)),
        None => None,
    }
}

/// The policy that holds an account to nothing.
pub open spec fn polices_nothing(policy: AccountPolicy) -> bool {
    policy.trailing_drawdown is None && policy.daily_loss_limit is None
}

impl RiskLedger {
    /// A ledger that its operations can have led to.
    pub open spec fn wf(self) -> bool {
        &&& self.policy.reset_minute_utc <= MAX_RESET_MINUTE
        &&& self.breach is Some ==> self.locked && self.breach->0.action == BreachAction::Terminate
    }

    /// The ledger with the day of `now_ns` begun, where it is another than the
    /// one before: the reading opens it, a lock is lifted, and a floor that
    /// trails daily balances rises.
    pub open spec fn turned(self, equity: Dec, now_ns: u64) -> RiskLedger {
        let today = day_of(now_ns, self.policy.reset_minute_utc);
        if today == self.day_index {
            self
        } else {
            RiskLedger {
                day_index: today as i64,
                day_open_equity: equity,
                locked: false,
                peak_equity: if self.policy.trailing_drawdown is Some
                    && self.policy.trailing_drawdown->0.basis == TrailingBasis::EndOfDayBalance {
                    larger(self.peak_equity, equity)
                } else {
                    self.peak_equity
                },
                ..self
            }
        }
    }

    /// The ledger with the peak raised to the reading, where every reading
    /// raises it.
    pub open spec fn ratcheted(self, equity: Dec) -> RiskLedger {
        if self.policy.trailing_drawdown is Some && self.policy.trailing_drawdown->0.basis
            == TrailingBasis::PeakEquity {
            RiskLedger { peak_equity: larger(self.peak_equity, equity), ..self }
        } else {
            self
        }
    }

    /// The floor under the equity that a trailing drawdown sets: the peak less
    /// the allowance, but no higher than the level at which it stops. `None` if
    /// no amount holds it.
    pub open spec fn trailing_floor(self, trailing: TrailingDrawdown) -> Option<Dec> {
        match difference(self.peak_equity, trailing.amount) {
            None => None,
            Some(trailed) => match trailing.lock_at_equity {
                Some(level) => if !trailed.below(level) {
                    Some(level)
                } else {
                    Some(trailed)
                },
                None => Some(trailed),
            },
        }
    }

    /// The floor under the equity that a daily loss limit sets.
    pub open spec fn daily_floor(self, daily: DailyLossLimit) -> Option<Dec> {
        difference(self.day_open_equity, daily.amount)
    }

    /// The ledger with a limit broken.
    pub open spec fn fired(self, breach: Breach) -> RiskLedger {
        RiskLedger {
            locked: true,
            breach: if breach.action == BreachAction::Terminate {
                Some(breach)
            } else {
                self.breach
            },
            ..self
        }
    }

    /// The verdict on a reading by the daily limit, and the ledger after it.
    pub open spec fn judged_daily(self, equity: Dec, now_ns: u64) -> Option<(Verdict, RiskLedger)> {
        match self.policy.daily_loss_limit {
            None => Some((Verdict::Clear, self)),
            Some(daily) => match self.daily_floor(daily) {
                None => None,
                Some(floor) => if equity.below(floor) {
                    let breach = Breach {
                        rule: BreachedRule::DailyLossLimit,
                        action: daily.on_breach,
                        ts_event: now_ns,
                        equity,
                        threshold: floor,
                    };
                    Some((Verdict::Breached(breach), self.fired(breach)))
                } else {
                    Some((Verdict::Clear, self))
                },
            },
        }
    }

    /// The verdict on a reading by both limits, and the ledger after it.
    pub open spec fn judged(self, equity: Dec, now_ns: u64) -> Option<(Verdict, RiskLedger)> {
        match self.policy.trailing_drawdown {
            None => self.judged_daily(equity, now_ns),
            Some(trailing) => match self.trailing_floor(trailing) {
                None => None,
                Some(floor) => if equity.below(floor) {
                    let breach = Breach {
                        rule: BreachedRule::TrailingDrawdown,
                        action: trailing.on_breach,
                        ts_event: now_ns,
                        equity,
                        threshold: floor,
                    };
                    Some((Verdict::Breached(breach), self.fired(breach)))
                } else {
                    self.judged_daily(equity, now_ns)
                },
            },
        }
    }

    /// The verdict on a reading, and the ledger after it: first the day turns,
    /// next the peak rises, and only after that are the limits tried. `None` if
    /// a floor is no amount. An ended account is not judged again.
    pub open spec fn observed(self, equity: Dec, now_ns: u64) -> Option<(Verdict, RiskLedger)> {
        if self.breach is Some {
            Some((Verdict::Clear, self))
        } else {
            self.turned(equity, now_ns).ratcheted(equity).judged(equity, now_ns)
        }
    }

    /// Whether a reading sets a new peak, or meets the one before, of an account
    /// that every reading raises the peak of and that is allowed to fall.
    pub open spec fn sets_a_peak(self, equity: Dec) -> bool {
        &&& self.breach is None
        &&& self.policy.trailing_drawdown is Some
        &&& self.policy.trailing_drawdown->0.basis == TrailingBasis::PeakEquity
        &&& !self.policy.trailing_drawdown->0.amount.negative()
        &&& !equity.below(self.peak_equity)
    }

    /// What is published of the account at this equity. `None` if one of its
    /// figures is no amount.
    pub open spec fn published(self, equity: Dec) -> Option<RiskState> {
        let floor = match self.policy.trailing_drawdown {
            Some(trailing) => Some(self.trailing_floor(trailing)),
            None => None,
        };
        let trailing_left = match floor {
            Some(Some(floor)) => Some(difference(equity, floor)),
            _ => None,
        };
        let daily_left = match self.policy.daily_loss_limit {
            Some(daily) => match self.daily_floor(daily) {
                Some(floor) => Some(difference(equity, floor)),
                None => Some(None),
            },
            None => None,
        };
        if floor == Some(None::<Dec>) || trailing_left == Some(None::<Dec>) || daily_left == Some(
            None::<Dec>,
        ) {
            None
        } else {
            Some(
                RiskState {
                    equity,
                    peak_equity: self.peak_equity,
                    day_open_equity: self.day_open_equity,
                    trailing_threshold: match floor {
                        Some(floor) => floor,
                        None => None,
                    },
                    trailing_remaining: match trailing_left {
                        Some(left) => left,
                        None => None,
                    },
                    daily_remaining: match daily_left {
                        Some(left) => left,
                        None => None,
                    },
                    breached: self.breach,
                },
            )
        }
    }
}

/// The day that an instant falls in.
pub fn day_index(now_ns: u64, reset_minute_utc: u32) -> (day: i64)
    requires
        reset_minute_utc <= MAX_RESET_MINUTE,
    ensures
        day == day_of(now_ns, reset_minute_utc),
{
    let offset: u64 = reset_minute_utc as u64 * NANOS_PER_MINUTE;
    if now_ns < offset {
        let short: u64 = (offset - now_ns - 1) / NANOS_PER_DAY;
        proof {
            let missing = offset - now_ns;
            assert((-missing) / 86_400_000_000_000int == -1 - (missing - 1)
                / 86_400_000_000_000int) by (nonlinear_arith)
                requires
                    missing >= 1,
            ;
        }
        -1 - short as i64
    } else {
        ((now_ns - offset) / NANOS_PER_DAY) as i64
    }
}

fn max_of(a: Dec, b: Dec) -> (m: Dec)
    ensures
        m == larger(a, b),
{
    if a.is_below(&b) {
        b
    } else {
        a
    }
}

impl RiskLedger {
    /// The ledger of an account that opens with this equity.
    pub fn new(policy: AccountPolicy, opening_equity: Dec, now_ns: u64) -> (ledger: RiskLedger)
        requires
            policy.reset_minute_utc <= MAX_RESET_MINUTE,
        ensures
            ledger.wf(),
            ledger == (RiskLedger {
                policy,
                peak_equity: opening_equity,
                day_open_equity: opening_equity,
                day_index: day_of(now_ns, policy.reset_minute_utc) as i64,
                breach: None,
                locked: false,
            }),
    {
        let day: i64 = day_index(now_ns, policy.reset_minute_utc);
        RiskLedger {
            policy,
            peak_equity: opening_equity,
            day_open_equity: opening_equity,
            day_index: day,
            breach: None,
            locked: false,
        }
    }

    /// The currency that the policy's limits are stated in.
    pub fn currency(&self) -> (currency: Option<&str>)
        ensures
            currency is Some == self.policy.currency is Some,
            currency is Some ==> currency->0@ == self.policy.currency->0@,
    {
        match &self.policy.currency {
            Some(currency) => Some(currency.as_str()),
            None => None,
        }
    }

    /// Whether the account is kept from opening: until its next day, or for
    /// good.
    pub fn is_locked(&self) -> (answer: bool)
        ensures
            answer == (self.locked || (self.breach is Some && self.breach->0.action
                == BreachAction::Terminate)),
            self.wf() ==> answer == self.locked,
    {
        self.locked || match &self.breach {
            Some(breach) => breach.action == BreachAction::Terminate,
            None => false,
        }
    }

    /// The floor under the equity that a trailing drawdown sets.
    fn trailing_threshold(&self, trailing: &TrailingDrawdown) -> (floor: Option<Dec>)
        ensures
            floor == self.trailing_floor(*trailing),
            floor is Some && !trailing.amount.negative() ==> !self.peak_equity.below(floor->0),
    {
        match subtract(self.peak_equity, trailing.amount) {
            None => None,
            Some(trailed) => match trailing.lock_at_equity {
                Some(level) => if !trailed.is_below(&level) {
                    proof {
                        if !trailing.amount.negative() {
                            order_is_transitive(level, trailed, self.peak_equity);
                        }
                    }
                    Some(level)
                } else {
                    Some(trailed)
                },
                None => Some(trailed),
            },
        }
    }

    fn fire(
        &mut self,
        rule: BreachedRule,
        action: BreachAction,
        equity: Dec,
        threshold: Dec,
        now_ns: u64,
    ) -> (verdict: Verdict)
        ensures
            verdict == Verdict::Breached(
                Breach { rule, action, ts_event: now_ns, equity, threshold },
            ),
            *final(self) == old(self).fired(
                Breach { rule, action, ts_event: now_ns, equity, threshold },
            ),
    {
        let breach = Breach { rule, action, ts_event: now_ns, equity, threshold };
        self.locked = true;
        if action == BreachAction::Terminate {
            self.breach = Some(breach);
        }
        Verdict::Breached(breach)
    }

    /// Turns the day and raises the peak.
    fn advance(&mut self, equity: Dec, now_ns: u64)
        requires
            old(self).wf(),
            old(self).breach is None,
        ensures
            *final(self) == old(self).turned(equity, now_ns).ratcheted(equity),
            final(self).wf(),
    {
        let today: i64 = day_index(now_ns, self.policy.reset_minute_utc);
        if today != self.day_index {
            self.day_index = today;
            self.day_open_equity = equity;
            self.locked = false;
            if let Some(trailing) = &self.policy.trailing_drawdown {
                if trailing.basis == TrailingBasis::EndOfDayBalance {
                    self.peak_equity = max_of(self.peak_equity, equity);
                }
            }
        }
        if let Some(trailing) = &self.policy.trailing_drawdown {
            if trailing.basis == TrailingBasis::PeakEquity {
                self.peak_equity = max_of(self.peak_equity, equity);
            }
        }
    }

    /// Folds one equity reading in, and says what it costs.
    pub fn observe(&mut self, equity: Dec, now_ns: u64) -> (verdict: Verdict)
        requires
            old(self).wf(),
            old(self).observed(equity, now_ns) is Some,
        ensures
            Some((verdict, *final(self))) == old(self).observed(equity, now_ns),
            final(self).wf(),
            old(self).sets_a_peak(equity) ==> final(self).peak_equity.equals(equity) && (
            verdict is Breached ==> (verdict->Breached_0).rule == BreachedRule::DailyLossLimit),
    {
        if self.breach.is_some() {
            return Verdict::Clear;
        }
        self.advance(equity, now_ns);
        proof {
            if old(self).sets_a_peak(equity) {
                amounts_are_ordered(old(self).peak_equity, equity);
                assert(self.peak_equity.equals(equity));
            }
        }
        if let Some(trailing) = self.policy.trailing_drawdown {
            let floor = self.trailing_threshold(&trailing).unwrap();
            proof {
                if old(self).sets_a_peak(equity) {
                    amounts_are_ordered(self.peak_equity, equity);
                    order_is_transitive(floor, self.peak_equity, equity);
                }
            }
            if equity.is_below(&floor) {
                return self.fire(
                    BreachedRule::TrailingDrawdown,
                    trailing.on_breach,
                    equity,
                    floor,
                    now_ns,
                );
            }
        }
        if let Some(daily) = self.policy.daily_loss_limit {
            let floor = subtract(self.day_open_equity, daily.amount).unwrap();
            if equity.is_below(&floor) {
                return self.fire(
                    BreachedRule::DailyLossLimit,
                    daily.on_breach,
                    equity,
                    floor,
                    now_ns,
                );
            }
        }
        Verdict::Clear
    }

    /// Whether a reading can be judged: whether each floor that it is held
    /// against is an amount.
    pub fn can_observe(&self, equity: Dec, now_ns: u64) -> (answer: bool)
        requires
            self.wf(),
        ensures
            answer == (self.observed(equity, now_ns) is Some),
    {
        if self.breach.is_some() {
            return true;
        }
        let today: i64 = day_index(now_ns, self.policy.reset_minute_utc);
        let day_open = if today != self.day_index {
            equity
        } else {
            self.day_open_equity
        };
        if let Some(trailing) = self.policy.trailing_drawdown {
            let peak = if trailing.basis == TrailingBasis::PeakEquity || today != self.day_index {
                max_of(self.peak_equity, equity)
            } else {
                self.peak_equity
            };
            let floor = match subtract(peak, trailing.amount) {
                None => {
                    return false;
                },
                Some(trailed) => match trailing.lock_at_equity {
                    Some(level) => if !trailed.is_below(&level) {
                        level
                    } else {
                        trailed
                    },
                    None => trailed,
                },
            };
            if equity.is_below(&floor) {
                return true;
            }
        }
        match self.policy.daily_loss_limit {
            Some(daily) => subtract(day_open, daily.amount).is_some(),
            None => true,
        }
    }

    /// Folds one equity reading in where each floor that it is held against is
    /// an amount, and leaves the ledger as it is where one is not.
    pub fn try_observe(&mut self, equity: Dec, now_ns: u64) -> (verdict: Option<Verdict>)
        requires
            old(self).wf(),
        ensures
            final(self).wf(),
            match old(self).observed(equity, now_ns) {
                Some((judged, after)) => verdict == Some(judged) && *final(self) == after,
                None => verdict is None && *final(self) == *old(self),
            },
            old(self).sets_a_peak(equity) && verdict is Some ==> final(self).peak_equity.equals(
                equity,
            ) && (verdict->0 is Breached ==> (verdict->0->Breached_0).rule
                == BreachedRule::DailyLossLimit),
    {
        if self.can_observe(equity, now_ns) {
            Some(self.observe(equity, now_ns))
        } else {
            None
        }
    }

    /// What is published of the account at this equity, where each of its
    /// figures is an amount.
    pub fn state(&self, equity: Dec) -> (state: Option<RiskState>)
        ensures
            state == self.published(equity),
            state is Some && self.policy.daily_loss_limit is Some && budget_fits(
                equity,
                self.day_open_equity,
                self.policy.daily_loss_limit->0.amount,
            ) ==> comes_to(
                state->0.daily_remaining->0,
                budget(equity, self.day_open_equity, self.policy.daily_loss_limit->0.amount),
                finest(equity, self.day_open_equity, self.policy.daily_loss_limit->0.amount),
            ),
            state is Some && self.policy.trailing_drawdown is Some
                && self.policy.trailing_drawdown->0.lock_at_equity is None && budget_fits(
                equity,
                self.peak_equity,
                self.policy.trailing_drawdown->0.amount,
            ) ==> comes_to(
                state->0.trailing_remaining->0,
                budget(equity, self.peak_equity, self.policy.trailing_drawdown->0.amount),
                finest(equity, self.peak_equity, self.policy.trailing_drawdown->0.amount),
            ),
            (self.policy.daily_loss_limit is Some ==> budget_fits(
                equity,
                self.day_open_equity,
                self.policy.daily_loss_limit->0.amount,
            )) && (self.policy.trailing_drawdown is Some
                ==> self.policy.trailing_drawdown->0.lock_at_equity is None && budget_fits(
                equity,
                self.peak_equity,
                self.policy.trailing_drawdown->0.amount,
            )) ==> state is Some,
    {
        let mut trailing_threshold: Option<Dec> = None;
        let mut trailing_remaining: Option<Dec> = None;
        let mut daily_remaining: Option<Dec> = None;
        if let Some(trailing) = &self.policy.trailing_drawdown {
            if trailing.lock_at_equity.is_none() {
                match left_above(equity, self.peak_equity, trailing.amount) {
                    Some((floor, rest)) => {
                        trailing_threshold = Some(floor);
                        trailing_remaining = Some(rest);
                    },
                    None => {
                        return None;
                    },
                }
            } else {
                match self.trailing_threshold(trailing) {
                    Some(floor) => {
                        trailing_threshold = Some(floor);
                        trailing_remaining = subtract(equity, floor);
                        if trailing_remaining.is_none() {
                            return None;
                        }
                    },
                    None => {
                        return None;
                    },
                }
            }
        }
        if let Some(daily) = &self.policy.daily_loss_limit {
            match left_above(equity, self.day_open_equity, daily.amount) {
                Some((floor, rest)) => {
                    daily_remaining = Some(rest);
                },
                None => {
                    return None;
                },
            }
        }
        Some(
            RiskState {
                equity,
                peak_equity: self.peak_equity,
                day_open_equity: self.day_open_equity,
                trailing_threshold,
                trailing_remaining,
                daily_remaining,
                breached: self.breach,
            },
        )
    }
}

/// The peak never falls.
pub proof fn the_peak_never_falls(ledger: RiskLedger, equity: Dec, now_ns: u64)
    requires
        ledger.observed(equity, now_ns) is Some,
    ensures
        !(ledger.observed(equity, now_ns)->0).1.peak_equity.below(ledger.peak_equity),
{
    amounts_are_ordered(ledger.peak_equity, equity);
    amounts_are_ordered(ledger.peak_equity, ledger.peak_equity);
}

/// A reading never changes the policy that it is held against.
pub proof fn the_policy_stands(ledger: RiskLedger, equity: Dec, now_ns: u64)
    requires
        ledger.observed(equity, now_ns) is Some,
    ensures
        (ledger.observed(equity, now_ns)->0).1.policy == ledger.policy,
{
}

/// A breach that terminates ends the account: whatever is read later, nothing
/// more is found and nothing changes.
pub proof fn a_terminated_account_stays_locked(ledger: RiskLedger, equity: Dec, now_ns: u64)
    requires
        ledger.wf(),
        ledger.breach is Some,
    ensures
        ledger.locked,
        ledger.observed(equity, now_ns) == Some((Verdict::Clear, ledger)),
{
}

/// A breach locks the account at once, and with the action `Terminate` it is
/// the breach that is remembered.
pub proof fn a_breach_locks(ledger: RiskLedger, equity: Dec, now_ns: u64)
    requires
        ledger.observed(equity, now_ns) is Some,
        (ledger.observed(equity, now_ns)->0).0 is Breached,
    ensures
        ({
            let (verdict, after) = ledger.observed(equity, now_ns)->0;
            &&& after.locked
            &&& (verdict->Breached_0).action == BreachAction::Terminate ==> after.breach == Some(verdict->Breached_0)
            &&& (verdict->Breached_0).action == BreachAction::LockUntilReset ==> after.breach is None
            &&& (verdict->Breached_0).equity == equity
            &&& equity.below((verdict->Breached_0).threshold)
        }),
{
}

/// A lock that is not for good is lifted by the first clear reading of another
/// day, and the day is measured from that reading.
pub proof fn a_daily_lock_lifts_at_the_reset(ledger: RiskLedger, equity: Dec, now_ns: u64)
    requires
        ledger.breach is None,
        day_of(now_ns, ledger.policy.reset_minute_utc) != ledger.day_index,
        ledger.observed(equity, now_ns) is Some,
        (ledger.observed(equity, now_ns)->0).0 is Clear,
    ensures
        !(ledger.observed(equity, now_ns)->0).1.locked,
        (ledger.observed(equity, now_ns)->0).1.day_open_equity == equity,
{
}

/// An account without limits is never found in breach, and never locked.
pub proof fn an_unpoliced_account_never_breaches(ledger: RiskLedger, equity: Dec, now_ns: u64)
    requires
        polices_nothing(ledger.policy),
    ensures
        ledger.observed(equity, now_ns) is Some,
        (ledger.observed(equity, now_ns)->0).0 is Clear,
        !ledger.locked ==> !(ledger.observed(equity, now_ns)->0).1.locked,
{
}

/// An end-of-day floor does not move within a day, whatever is read.
pub proof fn an_intraday_spike_is_not_trailed(ledger: RiskLedger, equity: Dec, now_ns: u64)
    requires
        ledger.policy.trailing_drawdown is Some,
        ledger.policy.trailing_drawdown->0.basis == TrailingBasis::EndOfDayBalance,
        day_of(now_ns, ledger.policy.reset_minute_utc) == ledger.day_index,
        ledger.observed(equity, now_ns) is Some,
    ensures
        (ledger.observed(equity, now_ns)->0).1.peak_equity == ledger.peak_equity,
{
}

/// The floor of a trailing drawdown with a lock level never rises above it.
pub proof fn a_locked_trail_stops_following(ledger: RiskLedger, trailing: TrailingDrawdown)
    requires
        trailing.lock_at_equity is Some,
        ledger.trailing_floor(trailing) is Some,
    ensures
        !trailing.lock_at_equity->0.below(ledger.trailing_floor(trailing)->0),
{
    amounts_are_ordered(trailing.lock_at_equity->0, trailing.lock_at_equity->0);
    amounts_are_ordered(
        difference(ledger.peak_equity, trailing.amount)->0,
        trailing.lock_at_equity->0,
    );
}

/// A ledger after some readings, each with its instant; `None` where one of them
/// cannot be judged.
pub open spec fn after_all(ledger: RiskLedger, readings: Seq<(Dec, u64)>) -> Option<RiskLedger>
    decreases readings.len(),
{
    if readings.len() == 0 {
        Some(ledger)
    } else {
        match after_all(ledger, readings.drop_last()) {
            None => None,
            Some(before) => match before.observed(readings.last().0, readings.last().1) {
                None => None,
                Some((verdict, after)) => Some(after),
            },
        }
    }
}

/// Where every reading raises the peak, it is the highest of the first equity
/// and the readings, until the account ends: an equity that is below none of
/// those is not below the peak, and one that is below the peak is below one of
/// those.
pub proof fn the_peak_is_the_highest_reading(
    ledger: RiskLedger,
    readings: Seq<(Dec, u64)>,
    equity: Dec,
)
    requires
        ledger.policy.trailing_drawdown is Some,
        ledger.policy.trailing_drawdown->0.basis == TrailingBasis::PeakEquity,
        after_all(ledger, readings) is Some,
    ensures
        after_all(ledger, readings)->0.policy == ledger.policy,
        !equity.below(ledger.peak_equity) && (forall|i: int|
            0 <= i < readings.len() ==> !equity.below((#[trigger] readings[i]).0)) ==> !equity.below(
            after_all(ledger, readings)->0.peak_equity,
        ),
        after_all(ledger, readings)->0.breach is None ==> !after_all(
            ledger,
            readings,
        )->0.peak_equity.below(ledger.peak_equity) && forall|i: int|
            0 <= i < readings.len() ==> !after_all(ledger, readings)->0.peak_equity.below(
                (#[trigger] readings[i]).0,
            ),
    decreases readings.len(),
{
    amounts_are_ordered(ledger.peak_equity, ledger.peak_equity);
    if readings.len() > 0 {
        let held = readings.drop_last();
        let read = readings.last().0;
        the_peak_is_the_highest_reading(ledger, held, equity);
        let before = after_all(ledger, held)->0;
        let after = after_all(ledger, readings)->0;
        assert(readings[readings.len() - 1].0 == read);
        assert(forall|i: int| 0 <= i < held.len() ==> #[trigger] held[i] == readings[i]);
        amounts_are_ordered(before.peak_equity, read);
        amounts_are_ordered(read, read);
        if before.breach is None {
            assert(after.peak_equity == larger(before.peak_equity, read));
            assert(!after.peak_equity.below(before.peak_equity)) by {
                amounts_are_ordered(before.peak_equity, before.peak_equity);
            }
            assert(!after.peak_equity.below(read));
            order_is_transitive(ledger.peak_equity, before.peak_equity, after.peak_equity);
            assert forall|i: int| 0 <= i < readings.len() implies !after.peak_equity.below(
                (#[trigger] readings[i]).0,
            ) by {
                if i < held.len() {
                    assert(held[i] == readings[i]);
                    order_is_transitive(readings[i].0, before.peak_equity, after.peak_equity);
                }
            }
        }
    }
}

/// Whether an amount is the higher of two.
pub open spec fn is_higher(amount: Dec, a: Dec, b: Dec) -> bool {
    &&& amount == a || amount == b
    &&& !amount.below(a)
    &&& !amount.below(b)
}

/// Whether an amount is the floor that a trailing drawdown sets under a peak: the
/// peak less the allowance, or the level at which the floor stops, whichever is
/// lower.
pub open spec fn is_floor_under(floor: Dec, peak: Dec, trailing: TrailingDrawdown) -> bool {
    &&& difference(peak, trailing.amount) is Some
    &&& floor == difference(peak, trailing.amount)->0 || trailing.lock_at_equity == Some(floor)
    &&& !difference(peak, trailing.amount)->0.below(floor)
    &&& trailing.lock_at_equity is Some ==> !trailing.lock_at_equity->0.below(floor)
}

/// The equity that a day opened with, for a reading of that day: the one before,
/// or the reading itself where it is the first of its day.
pub open spec fn opening_for(ledger: RiskLedger, equity: Dec, now_ns: u64) -> Dec {
    if day_of(now_ns, ledger.policy.reset_minute_utc) == ledger.day_index {
        ledger.day_open_equity
    } else {
        equity
    }
}

/// What a reading of a live account leaves behind. The day is that of the
/// reading, with its opening equity. The peak is raised by every reading, or by
/// the first of a day, as the policy has it, and else stays. The account is locked
/// by a breach, and stays locked within the day.
pub proof fn a_reading_moves_the_ledger(ledger: RiskLedger, equity: Dec, now_ns: u64)
    requires
        ledger.wf(),
        ledger.breach is None,
        ledger.observed(equity, now_ns) is Some,
    ensures
        ({
            let (verdict, after) = ledger.observed(equity, now_ns)->0;
            let same_day = day_of(now_ns, ledger.policy.reset_minute_utc) == ledger.day_index;
            let trailing = ledger.policy.trailing_drawdown;
            &&& after.wf()
            &&& after.policy == ledger.policy
            &&& after.day_index == day_of(now_ns, ledger.policy.reset_minute_utc)
            &&& after.day_open_equity == opening_for(ledger, equity, now_ns)
            &&& trailing is Some && (trailing->0.basis == TrailingBasis::PeakEquity || !same_day)
                ==> is_higher(after.peak_equity, ledger.peak_equity, equity)
            &&& trailing is None || (trailing->0.basis == TrailingBasis::EndOfDayBalance
                && same_day) ==> after.peak_equity == ledger.peak_equity
            &&& after.locked == (verdict is Breached || (same_day && ledger.locked))
            &&& after.breach is Some == (verdict is Breached && (verdict->Breached_0).action
                == BreachAction::Terminate)
        }),
{
    amounts_are_ordered(ledger.peak_equity, equity);
    amounts_are_ordered(ledger.peak_equity, ledger.peak_equity);
    amounts_are_ordered(equity, equity);
    days_are_held(now_ns, ledger.policy.reset_minute_utc);
}

/// The day of every instant is a 64-bit number.
proof fn days_are_held(now_ns: u64, reset_minute_utc: u32)
    requires
        reset_minute_utc <= MAX_RESET_MINUTE,
    ensures
        i64::MIN <= day_of(now_ns, reset_minute_utc) <= i64::MAX,
{
    let past = now_ns - reset_minute_utc * NANOS_PER_MINUTE;
    assert(-18_446_744_073_709_551_616 <= past <= 18_446_744_073_709_551_615);
}

/// Each limit that a live account has is tried on every reading, whatever other
/// limit there is. A reading below the trailing floor is a breach of that rule,
/// and one below the day's opening equity less the daily allowance is a breach in
/// any case: of the daily rule, unless the trailing one is broken too. A clear
/// reading is below neither floor. A breach carries the action and the floor of
/// the rule that was broken, the reading and its instant.
pub proof fn each_limit_is_tried(ledger: RiskLedger, equity: Dec, now_ns: u64)
    requires
        ledger.breach is None,
        ledger.observed(equity, now_ns) is Some,
    ensures
        ({
            let (verdict, after) = ledger.observed(equity, now_ns)->0;
            let trailing = ledger.policy.trailing_drawdown;
            let daily = ledger.policy.daily_loss_limit;
            let opening = opening_for(ledger, equity, now_ns);
            let breach = verdict->Breached_0;
            &&& trailing is Some ==> forall|floor: Dec| #[trigger]
                is_floor_under(floor, after.peak_equity, trailing->0) ==> (equity.below(floor) == (
                verdict is Breached && breach.rule == BreachedRule::TrailingDrawdown))
            &&& daily is Some && difference(opening, daily->0.amount) is Some && equity.below(
                difference(opening, daily->0.amount)->0,
            ) ==> verdict is Breached
            &&& verdict is Clear ==> {
                &&& trailing is Some ==> exists|floor: Dec| #[trigger]
                    is_floor_under(floor, after.peak_equity, trailing->0) && !equity.below(floor)
                &&& daily is Some ==> difference(opening, daily->0.amount) is Some && !equity.below(
                    difference(opening, daily->0.amount)->0,
                )
            }
            &&& verdict is Breached ==> {
                &&& breach.equity == equity
                &&& breach.ts_event == now_ns
                &&& equity.below(breach.threshold)
                &&& breach.rule == BreachedRule::TrailingDrawdown ==> {
                    &&& trailing is Some
                    &&& breach.action == trailing->0.on_breach
                    &&& is_floor_under(breach.threshold, after.peak_equity, trailing->0)
                }
                &&& breach.rule == BreachedRule::DailyLossLimit ==> {
                    &&& daily is Some
                    &&& breach.action == daily->0.on_breach
                    &&& difference(opening, daily->0.amount) == Some(breach.threshold)
                }
            }
        }),
{
    let (verdict, after) = ledger.observed(equity, now_ns)->0;
    if let Some(trailing) = ledger.policy.trailing_drawdown {
        let trailed = difference(after.peak_equity, trailing.amount)->0;
        let floor = after.trailing_floor(trailing)->0;
        amounts_are_ordered(trailed, trailed);
        if let Some(level) = trailing.lock_at_equity {
            amounts_are_ordered(trailed, level);
            amounts_are_ordered(level, level);
        }
        assert(is_floor_under(floor, after.peak_equity, trailing));
        assert forall|other: Dec| #[trigger]
            is_floor_under(other, after.peak_equity, trailing) implies equity.below(other)
            == equity.below(floor) by {
            amounts_are_ordered(equity, other);
            amounts_are_ordered(equity, floor);
            amounts_are_ordered(other, floor);
            if equity.below(other) {
                order_is_transitive(equity, other, floor);
            }
            if equity.below(floor) {
                order_is_transitive(equity, floor, other);
            }
        }
    }
}

/// A reading can be judged wherever the floors that it is held against are
/// amounts.
pub proof fn a_reading_is_judged_where_its_floors_are_amounts(
    ledger: RiskLedger,
    equity: Dec,
    now_ns: u64,
)
    requires
        ledger.policy.trailing_drawdown is Some ==> difference(
            ledger.peak_equity,
            ledger.policy.trailing_drawdown->0.amount,
        ) is Some && difference(equity, ledger.policy.trailing_drawdown->0.amount) is Some,
        ledger.policy.daily_loss_limit is Some ==> difference(
            opening_for(ledger, equity, now_ns),
            ledger.policy.daily_loss_limit->0.amount,
        ) is Some,
    ensures
        ledger.observed(equity, now_ns) is Some,
{
}

/// What is published of an account is what its limits go by: the floors are those
/// that a reading is held against, and what is left is the equity less the floor.
/// A limit that the policy does not have is not published.
pub proof fn what_is_published_is_what_is_enforced(ledger: RiskLedger, equity: Dec)
    requires
        ledger.published(equity) is Some,
    ensures
        ({
            let state = ledger.published(equity)->0;
            let trailing = ledger.policy.trailing_drawdown;
            let daily = ledger.policy.daily_loss_limit;
            &&& state.equity == equity
            &&& state.peak_equity == ledger.peak_equity
            &&& state.day_open_equity == ledger.day_open_equity
            &&& state.breached == ledger.breach
            &&& state.trailing_threshold is Some == trailing is Some
            &&& state.trailing_remaining is Some == trailing is Some
            &&& state.daily_remaining is Some == daily is Some
            &&& trailing is Some ==> is_floor_under(
                state.trailing_threshold->0,
                ledger.peak_equity,
                trailing->0,
            ) && state.trailing_remaining == difference(equity, state.trailing_threshold->0)
            &&& daily is Some ==> difference(ledger.day_open_equity, daily->0.amount) is Some
                && state.daily_remaining == difference(
                equity,
                difference(ledger.day_open_equity, daily->0.amount)->0,
            )
        }),
{
    if let Some(trailing) = ledger.policy.trailing_drawdown {
        let trailed = difference(ledger.peak_equity, trailing.amount)->0;
        amounts_are_ordered(trailed, trailed);
        if let Some(level) = trailing.lock_at_equity {
            amounts_are_ordered(trailed, level);
            amounts_are_ordered(level, level);
        }
    }
}

} // verus!
