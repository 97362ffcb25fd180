//! The run configuration: its defaults, and what is refused of it before a run
//! starts.

use vstd::prelude::*;

use crate::decimal::Dec;
use crate::duration::later;
use crate::instrument::blank;
use crate::instrument::byte_len;
use crate::instrument::InstrumentDef;
use crate::text::chars_of;
use crate::text::decimal;
use crate::text::push_decimal;
use crate::text::quote;
use crate::text::quoted;
use crate::text::same_text;
use crate::text::trim;
use crate::text::trimmed;

verus! {

/// The bits of the largest fill-band multiplier, a thousand, as a 64-bit float.
pub const MAX_VOL_MULT_BITS: u64 = 0x408F_4000_0000_0000;

/// The bits of the largest finite 64-bit float.
pub const MAX_FINITE_BITS: u64 = 0x7FEF_FFFF_FFFF_FFFF;

/// The bits of minus zero as a 64-bit float.
pub const MINUS_ZERO_BITS: u64 = 0x8000_0000_0000_0000;

/// The bits of one as a 64-bit float.
pub const ONE_BITS: u64 = 0x3FF0_0000_0000_0000;

/// The bits of the default fill-band multiplier, 0.005, as a 64-bit float.
pub const DEFAULT_VOL_MULT_BITS: u64 = 0x3F74_7AE1_47AE_147B;

/// The instant at which every tape starts.
pub const TAPE_ORIGIN_NS: u64 = 0;

/// The most ticks that a fill band may be wide.
pub const MAX_BAND_TICKS: u32 = 10_000;

/// A sweep interval above this is slow enough to say so.
pub const SLOW_SWEEP_WARN_MS: u64 = 60_000;

/// The account that a run reports when its configuration names none.
pub const DEFAULT_ACCOUNT_ID: &'static str = "MOGWAI-001";

/// How positions are kept.
#[derive(Clone, Copy, Debug, PartialEq, Eq, Structural)]
pub enum OmsType {
    Netting,
    Hedging,
}

/// The budgets that every connection is built with.
#[derive(Clone, Copy, Debug, PartialEq, Eq, Structural)]
pub struct AdmissionLimits {
    pub held_budget_bytes: usize,
    pub lane_frames: usize,
    pub promise_tickets: usize,
    pub pending_act_slots: usize,
}

/// What the venue's wire protocol fixes.
#[derive(Clone, Copy, Debug)]
pub struct VenueConstants {
    /// The bytes that one refusal of a malformed command takes.
    pub boundary_refusal_bytes: usize,
    /// The longest that a divergence lasts.
    pub max_divergence_ms: u64,
    /// How long a currency's name may be.
    pub currency_len: usize,
}

/// A run's configuration. A float is held by its bits.
#[derive(Debug)]
pub struct Config {
    pub run_duration_ns: u64,
    pub account_id: String,
    pub oms_type: OmsType,
    pub fill_band_vol_mult_bits: u64,
    pub fill_band_max_ticks: u32,
    pub fill_sweep_interval_ms: u64,
    pub seed: Option<u64>,
    pub speed_bits: u64,
    pub server_heartbeat_ms: u64,
    pub warmup_ns: u64,
    pub fanout_depth: usize,
    pub zero_speed_stall_ms: u64,
    pub exec_held_budget_bytes: usize,
    pub admission_lane_frames: usize,
    pub pending_command_acts: usize,
    pub global_pending_command_acts: usize,
    pub balances: Vec<(String, Dec)>,
    pub reset_account_on_reconnect: bool,
    pub account_ttl_ms: u64,
}

/// Why a configuration is refused.
#[derive(Debug)]
pub enum ConfigError {
    BlankCurrency,
    LongCurrency { currency: String },
    NegativeBalance { currency: String },
    IllegalAccount { reason: String },
    AccountWithoutDash,
    AccountWithEmptySide,
    HeldBudgetTooSmall,
    HeldBudgetTooLarge,
    NoLaneFrames,
    NoPendingActs,
    GlobalBelowPending,
    VolMult,
    BandTicks,
    SweepTooSlow,
    NoSweep,
    NoFanout,
    Speed,
    Unfunded { symbol: String, currency: String },
}

/// The simulated clock: the simulated instant that answers to the wall's anchor,
/// and how fast it runs from there, as the bits of a float.
#[derive(Clone, Copy, Debug, PartialEq, Eq, Structural)]
pub struct RunClock {
    pub sim_epoch_ns: u64,
    pub wall_anchor_ns: u64,
    pub speed_bits: u64,
}

/// Whether the bits are those of a finite float that is not below zero.
pub open spec fn finite_from_zero(bits: u64) -> bool {
    bits <= MAX_FINITE_BITS || bits == MINUS_ZERO_BITS
}

/// Whether the bits are those of a float from zero to a thousand.
pub open spec fn vol_mult_in_range(bits: u64) -> bool {
    bits <= MAX_VOL_MULT_BITS || bits == MINUS_ZERO_BITS
}

/// The default balances: what the built-in instrument is settled in.
pub open spec fn default_funding(balances: Seq<(String, Dec)>) -> bool {
    balances.len() == 1 && balances[0].0@ == "USDT"@ && balances[0].1.is_whole(1_000_000)
}

/// Why one balance is refused, if it is.
pub open spec fn balance_error(currency: String, amount: Dec, limit: usize) -> Option<ConfigError> {
    if blank(currency@) {
        Some(ConfigError::BlankCurrency)
    } else if byte_len(currency@) > limit {
        Some(ConfigError::LongCurrency { currency })
    } else if amount.negative() {
        Some(ConfigError::NegativeBalance { currency })
    } else {
        None
    }
}

/// Why the first of the balances from `i` on that is refused is.
pub open spec fn balances_error(balances: Seq<(String, Dec)>, limit: usize, i: int) -> Option<
    ConfigError,
>
    decreases balances.len() - i,
{
    if i >= balances.len() {
        None
    } else if balance_error(balances[i].0, balances[i].1, limit) is Some {
        balance_error(balances[i].0, balances[i].1, limit)
    } else {
        balances_error(balances, limit, i + 1)
    }
}

/// Where the first dash of a text is, or its length if it has none.
pub open spec fn dash(s: Seq<char>) -> nat
    decreases s.len(),
{
    if s.len() == 0 || s[0] == '-' {
        0
    } else {
        1 + dash(s.skip(1))
    }
}

/// Why an account id is refused, if it is: the wire's own refusal, and then the
/// want of an issuer and a number with a dash between them.
pub open spec fn account_error(id: Seq<char>, refusal: Option<String>) -> Option<ConfigError> {
    match refusal {
        Some(reason) => Some(ConfigError::IllegalAccount { reason }),
        None => if dash(id) == id.len() {
            Some(ConfigError::AccountWithoutDash)
        } else if dash(id) == 0 || dash(id) + 1 == id.len() {
            Some(ConfigError::AccountWithEmptySide)
        } else {
            None
        },
    }
}

/// Why the admission budgets are refused, if they are.
pub open spec fn admission_error(cfg: Config, constants: VenueConstants) -> Option<ConfigError> {
    if cfg.exec_held_budget_bytes < constants.boundary_refusal_bytes {
        Some(ConfigError::HeldBudgetTooSmall)
    } else if cfg.exec_held_budget_bytes > u32::MAX {
        Some(ConfigError::HeldBudgetTooLarge)
    } else if cfg.admission_lane_frames == 0 {
        Some(ConfigError::NoLaneFrames)
    } else if cfg.pending_command_acts == 0 {
        Some(ConfigError::NoPendingActs)
    } else if cfg.global_pending_command_acts < cfg.pending_command_acts {
        Some(ConfigError::GlobalBelowPending)
    } else {
        None
    }
}

/// Why the fill band is refused, if it is.
pub open spec fn band_error(cfg: Config, constants: VenueConstants) -> Option<ConfigError> {
    if !vol_mult_in_range(cfg.fill_band_vol_mult_bits) {
        Some(ConfigError::VolMult)
    } else if !(1 <= cfg.fill_band_max_ticks <= MAX_BAND_TICKS) {
        Some(ConfigError::BandTicks)
    } else if cfg.fill_sweep_interval_ms > constants.max_divergence_ms {
        Some(ConfigError::SweepTooSlow)
    } else if cfg.fill_sweep_interval_ms == 0 {
        Some(ConfigError::NoSweep)
    } else {
        None
    }
}

/// Why a configuration is refused, if it is.
pub open spec fn config_error(
    cfg: Config,
    constants: VenueConstants,
    refusal: Option<String>,
) -> Option<ConfigError> {
    if balances_error(cfg.balances@, constants.currency_len, 0) is Some {
        balances_error(cfg.balances@, constants.currency_len, 0)
    } else if account_error(trimmed(cfg.account_id@), refusal) is Some {
        account_error(trimmed(cfg.account_id@), refusal)
    } else if admission_error(cfg, constants) is Some {
        admission_error(cfg, constants)
    } else if band_error(cfg, constants) is Some {
        band_error(cfg, constants)
    } else if cfg.fanout_depth == 0 {
        Some(ConfigError::NoFanout)
    } else {
        None
    }
}

/// Whether a currency has a balance.
pub open spec fn funds(balances: Seq<(String, Dec)>, currency: Seq<char>) -> bool {
    exists|i: int| 0 <= i < balances.len() && (#[trigger] balances[i]).0@ == currency
}

/// Whether a result is the refusal, or the lack of one, that it should be.
pub open spec fn refused_as(checked: Result<(), ConfigError>, error: Option<ConfigError>) -> bool {
    match error {
        Some(error) => checked == Err::<(), ConfigError>(error),
        None => checked is Ok,
    }
}

impl Config {
    /// The configuration of a run that nobody configured. The admission budgets
    /// are the venue's own.
    pub fn with_defaults(limits: AdmissionLimits, global_pending_acts: usize) -> (cfg: Config)
        ensures
            cfg.run_duration_ns == 0,
            cfg.account_id@ == DEFAULT_ACCOUNT_ID@,
            cfg.oms_type == OmsType::Netting,
            cfg.fill_band_vol_mult_bits == DEFAULT_VOL_MULT_BITS,
            cfg.fill_band_max_ticks == 200,
            cfg.fill_sweep_interval_ms == 100,
            cfg.seed is None,
            cfg.speed_bits == ONE_BITS,
            cfg.server_heartbeat_ms == 0,
            cfg.warmup_ns == 86_400_000_000_000,
            cfg.fanout_depth == 4_194_304,
            cfg.zero_speed_stall_ms == 5000,
            cfg.exec_held_budget_bytes == limits.held_budget_bytes,
            cfg.admission_lane_frames == limits.lane_frames,
            cfg.pending_command_acts == limits.pending_act_slots,
            cfg.global_pending_command_acts == global_pending_acts,
            default_funding(cfg.balances@),
            !cfg.reset_account_on_reconnect,
            cfg.account_ttl_ms == 0,
    {
        let mut balances: Vec<(String, Dec)> = Vec::new();
        balances.push(("USDT".to_owned(), Dec::whole(1_000_000)));
        Config {
            run_duration_ns: 0,
            account_id: DEFAULT_ACCOUNT_ID.to_owned(),
            oms_type: OmsType::Netting,
            fill_band_vol_mult_bits: DEFAULT_VOL_MULT_BITS,
            fill_band_max_ticks: 200,
            fill_sweep_interval_ms: 100,
            seed: None,
            speed_bits: ONE_BITS,
            server_heartbeat_ms: 0,
            warmup_ns: 86_400_000_000_000,
            fanout_depth: 4_194_304,
            zero_speed_stall_ms: 5000,
            exec_held_budget_bytes: limits.held_budget_bytes,
            admission_lane_frames: limits.lane_frames,
            pending_command_acts: limits.pending_act_slots,
            global_pending_command_acts: global_pending_acts,
            balances,
            reset_account_on_reconnect: false,
            account_ttl_ms: 0,
        }
    }
}

/// Refuses a balance in no currency, in one whose name is too long for the
/// wire, or below zero.
pub fn validate_balances(cfg: &Config, constants: VenueConstants) -> (checked: Result<
    (),
    ConfigError,
>)
    ensures
        refused_as(checked, balances_error(cfg.balances@, constants.currency_len, 0)),
{
    let limit: usize = constants.currency_len;
    let mut i: usize = 0;
    while i < cfg.balances.len()
        invariant
            i <= cfg.balances.len(),
            balances_error(cfg.balances@, limit, 0) == balances_error(
                cfg.balances@,
                limit,
                i as int,
            ),
            limit == constants.currency_len,
        decreases cfg.balances.len() - i,
    {
        let (currency, amount) = &cfg.balances[i];
        if trim(currency.as_str()).as_str().is_empty() {
            return Err(ConfigError::BlankCurrency);
        }
        if currency.as_str().len() > limit {
            return Err(ConfigError::LongCurrency { currency: currency.clone() });
        }
        if amount.is_negative() {
            return Err(ConfigError::NegativeBalance { currency: currency.clone() });
        }
        i += 1;
    }
    Ok(())
}

/// Refuses an account id that the wire refuses, or that has no issuer and
/// number with a dash between them. `refusal` is what the wire says of the id
/// without the white space around it.
pub fn validate_account_id(cfg: &Config, refusal: Option<String>) -> (checked: Result<
    (),
    ConfigError,
>)
    ensures
        refused_as(checked, account_error(trimmed(cfg.account_id@), refusal)),
{
    let id = trim(cfg.account_id.as_str());
    if let Some(reason) = refusal {
        return Err(ConfigError::IllegalAccount { reason });
    }
    let chars = chars_of(id.as_str());
    let mut at: usize = 0;
    assert(chars@.skip(0) =~= chars@);
    while at < chars.len() && chars[at] != '-'
        invariant
            at <= chars.len(),
            dash(chars@) == at + dash(chars@.skip(at as int)),
        decreases chars.len() - at,
    {
        assert(chars@.skip(at as int).skip(1) =~= chars@.skip(at + 1));
        at += 1;
    }
    if at == chars.len() {
        return Err(ConfigError::AccountWithoutDash);
    }
    if at == 0 || at + 1 == chars.len() {
        return Err(ConfigError::AccountWithEmptySide);
    }
    Ok(())
}

/// Refuses admission budgets that no command would ever get past.
pub fn validate_admission_limits(cfg: &Config, constants: VenueConstants) -> (checked: Result<
    (),
    ConfigError,
>)
    ensures
        refused_as(checked, admission_error(*cfg, constants)),
{
    if cfg.exec_held_budget_bytes < constants.boundary_refusal_bytes {
        return Err(ConfigError::HeldBudgetTooSmall);
    }
    if cfg.exec_held_budget_bytes as u64 > u32::MAX as u64 {
        return Err(ConfigError::HeldBudgetTooLarge);
    }
    if cfg.admission_lane_frames == 0 {
        return Err(ConfigError::NoLaneFrames);
    }
    if cfg.pending_command_acts == 0 {
        return Err(ConfigError::NoPendingActs);
    }
    if cfg.global_pending_command_acts < cfg.pending_command_acts {
        return Err(ConfigError::GlobalBelowPending);
    }
    Ok(())
}

/// Refuses a fill band out of its range, and a sweep that never comes. A slow
/// sweep is only worth a word: see `sweep_is_slow`.
pub fn validate_fill_band(cfg: &Config, constants: VenueConstants) -> (checked: Result<
    (),
    ConfigError,
>)
    ensures
        refused_as(checked, band_error(*cfg, constants)),
{
    if !(cfg.fill_band_vol_mult_bits <= MAX_VOL_MULT_BITS || cfg.fill_band_vol_mult_bits
        == MINUS_ZERO_BITS) {
        return Err(ConfigError::VolMult);
    }
    if cfg.fill_band_max_ticks < 1 || cfg.fill_band_max_ticks > MAX_BAND_TICKS {
        return Err(ConfigError::BandTicks);
    }
    if cfg.fill_sweep_interval_ms > constants.max_divergence_ms {
        return Err(ConfigError::SweepTooSlow);
    }
    if cfg.fill_sweep_interval_ms == 0 {
        return Err(ConfigError::NoSweep);
    }
    Ok(())
}

/// Whether the sweep is slow enough to say so.
pub fn sweep_is_slow(cfg: &Config) -> (slow: bool)
    ensures
        slow == (cfg.fill_sweep_interval_ms > SLOW_SWEEP_WARN_MS),
{
    cfg.fill_sweep_interval_ms > SLOW_SWEEP_WARN_MS
}

/// Refuses a configuration that no run should start with. `refusal` is what the
/// wire says of the account id without the white space around it.
pub fn validate(cfg: &Config, constants: VenueConstants, refusal: Option<String>) -> (checked:
    Result<(), ConfigError>)
    ensures
        refused_as(checked, config_error(*cfg, constants, refusal)),
{
    match validate_balances(cfg, constants) {
        Ok(()) => {},
        Err(error) => {
            return Err(error);
        },
    }
    match validate_account_id(cfg, refusal) {
        Ok(()) => {},
        Err(error) => {
            return Err(error);
        },
    }
    match validate_admission_limits(cfg, constants) {
        Ok(()) => {},
        Err(error) => {
            return Err(error);
        },
    }
    match validate_fill_band(cfg, constants) {
        Ok(()) => {},
        Err(error) => {
            return Err(error);
        },
    }
    if cfg.fanout_depth == 0 {
        return Err(ConfigError::NoFanout);
    }
    Ok(())
}

/// The budgets that every connection is built with.
pub fn build_admission_limits(cfg: &Config, promise_tickets: usize) -> (limits: AdmissionLimits)
    ensures
        limits == (AdmissionLimits {
            held_budget_bytes: cfg.exec_held_budget_bytes,
            lane_frames: cfg.admission_lane_frames,
            promise_tickets,
            pending_act_slots: cfg.pending_command_acts,
        }),
{
    AdmissionLimits {
        held_budget_bytes: cfg.exec_held_budget_bytes,
        lane_frames: cfg.admission_lane_frames,
        promise_tickets,
        pending_act_slots: cfg.pending_command_acts,
    }
}

fn is_funded(balances: &Vec<(String, Dec)>, currency: &str) -> (found: bool)
    ensures
        found == funds(balances@, currency@),
{
    let mut i: usize = 0;
    while i < balances.len()
        invariant
            i <= balances.len(),
            forall|k: int| 0 <= k < i ==> (#[trigger] balances[k]).0@ != currency@,
        decreases balances.len() - i,
    {
        if same_text(balances[i].0.as_str(), currency) {
            assert(balances@[i as int].0@ == currency@);
            return true;
        }
        i += 1;
    }
    false
}

/// The first instrument from `i` on whose settlement currency has no balance.
pub open spec fn first_unfunded(
    balances: Seq<(String, Dec)>,
    defs: Seq<InstrumentDef>,
    i: int,
) -> int
    decreases defs.len() - i,
{
    if i >= defs.len() || !funds(balances, defs[i].class.settles_in()) {
        i
    } else {
        first_unfunded(balances, defs, i + 1)
    }
}

/// Refuses a run on whose instrument every buy would be rejected for want of
/// funds. An account with no balances at all is not held to any.
pub fn refuse_unfunded_settlement(cfg: &Config, defs: &Vec<InstrumentDef>) -> (checked: Result<
    (),
    ConfigError,
>)
    ensures
        ({
            let at = first_unfunded(cfg.balances@, defs@, 0);
            if cfg.balances@.len() == 0 || at >= defs@.len() {
                checked is Ok
            } else {
                checked matches Err(ConfigError::Unfunded { symbol, currency }) && symbol@
                    == defs@[at].symbol@ && currency@ == defs@[at].class.settles_in()
            }
        }),
{
    if cfg.balances.len() == 0 {
        return Ok(());
    }
    let mut i: usize = 0;
    while i < defs.len()
        invariant
            i <= defs.len(),
            cfg.balances@.len() > 0,
            first_unfunded(cfg.balances@, defs@, 0) == first_unfunded(
                cfg.balances@,
                defs@,
                i as int,
            ),
        decreases defs.len() - i,
    {
        let currency = defs[i].class.settlement_currency();
        if !is_funded(&cfg.balances, currency) {
            return Err(
                ConfigError::Unfunded {
                    symbol: defs[i].symbol.clone(),
                    currency: currency.to_owned(),
                },
            );
        }
        i += 1;
    }
    Ok(())
}

/// The run's clock. It starts one warmup after the tape does. A speed of zero is
/// no pace for the tape, and the clock then runs with the wall.
pub fn build_run_clock(cfg: &Config, boot_wall_ns: u64) -> (clock: Result<RunClock, ConfigError>)
    ensures
        match clock {
            Ok(clock) => finite_from_zero(cfg.speed_bits) && clock == (RunClock {
                sim_epoch_ns: later(TAPE_ORIGIN_NS, cfg.warmup_ns),
                wall_anchor_ns: boot_wall_ns,
                speed_bits: if cfg.speed_bits == 0 || cfg.speed_bits == MINUS_ZERO_BITS {
                    ONE_BITS
                } else {
                    cfg.speed_bits
                },
            }),
            Err(error) => !finite_from_zero(cfg.speed_bits) && error is Speed,
        },
{
    if cfg.speed_bits > MAX_FINITE_BITS && cfg.speed_bits != MINUS_ZERO_BITS {
        return Err(ConfigError::Speed);
    }
    let speed_bits: u64 = if cfg.speed_bits == 0 || cfg.speed_bits == MINUS_ZERO_BITS {
        ONE_BITS
    } else {
        cfg.speed_bits
    };
    Ok(
        RunClock {
            sim_epoch_ns: TAPE_ORIGIN_NS.saturating_add(cfg.warmup_ns),
            wall_anchor_ns: boot_wall_ns,
            speed_bits,
        },
    )
}

impl ConfigError {
    /// What the refusal of a configuration says. `id` is its account id without
    /// the white space around it.
    pub open spec fn text(self, id: Seq<char>, constants: VenueConstants) -> Seq<char> {
        match self {
            ConfigError::BlankCurrency => "balances currency must not be blank"@,
            ConfigError::LongCurrency { currency } => "balances currency "@ + currency@
                + " exceeds MAX_CURRENCY_LEN ("@ + decimal(constants.currency_len as nat) + ")"@,
            ConfigError::NegativeBalance { currency } => "balances."@ + currency@
                + " must not be negative"@,
            ConfigError::IllegalAccount { reason } => "account_id "@ + quoted(id)
                + " is not a legal account id: "@ + reason@,
            ConfigError::AccountWithoutDash => "account_id "@ + quoted(id)
                + " has no '-'. A nautilus AccountId is ISSUER-NUMBER, so a consumer cannot construct this one - try "@
                + DEFAULT_ACCOUNT_ID@,
            ConfigError::AccountWithEmptySide => "account_id "@ + quoted(id)
                + " must have a non-empty issuer and number either side of the '-'"@,
            ConfigError::HeldBudgetTooSmall => "exec_held_budget_bytes must be at least "@
                + decimal(constants.boundary_refusal_bytes as nat)
                + " - the worst case of a single boundary refusal - or every order-entry command is refused for capacity"@,
            ConfigError::HeldBudgetTooLarge => "exec_held_budget_bytes must fit in 32 bits"@,
            ConfigError::NoLaneFrames => "admission_lane_frames must be at least 1"@,
            ConfigError::NoPendingActs => "pending_command_acts must be at least 1"@,
            ConfigError::GlobalBelowPending =>
            "global_pending_command_acts must be at least pending_command_acts"@,
            ConfigError::VolMult => "fill_band_vol_mult must be finite and between 0 and 1000"@,
            ConfigError::BandTicks => "fill_band_max_ticks must be between 1 and 10000"@,
            ConfigError::SweepTooSlow => "fill_sweep_interval_ms must be at most MAX_DIVERGENCE_MS"@,
            ConfigError::NoSweep => "fill_sweep_interval_ms must be > 0"@,
            ConfigError::NoFanout =>
            "fanout_depth must be greater than zero; unlike the count caps, 0 does not mean unbounded here"@,
            ConfigError::Speed => "speed must be finite and non-negative"@,
            ConfigError::Unfunded { symbol, currency } => "instrument "@ + symbol@
                + " quote currency "@ + currency@
                + " is unfunded; every buy in this run would be rejected for insufficient balance - add "@
                + currency@ + " to [balances]"@,
        }
    }

    /// What the refusal of a configuration says. `id` is its account id without
    /// the white space around it.
    pub fn message(&self, id: &str, constants: VenueConstants) -> (message: String)
        ensures
            message@ == self.text(id@, constants),
    {
        let plain = match self {
            ConfigError::LongCurrency { currency } => {
                let mut message = "balances currency ".to_owned();
                message.append(currency.as_str());
                message.append(" exceeds MAX_CURRENCY_LEN (");
                push_decimal(&mut message, constants.currency_len as u128);
                message.append(")");
                return message;
            },
            ConfigError::NegativeBalance { currency } => {
                let mut message = "balances.".to_owned();
                message.append(currency.as_str());
                message.append(" must not be negative");
                return message;
            },
            ConfigError::IllegalAccount { reason } => {
                let mut message = "account_id ".to_owned();
                message.append(quote(id).as_str());
                message.append(" is not a legal account id: ");
                message.append(reason.as_str());
                return message;
            },
            ConfigError::AccountWithoutDash => {
                let mut message = "account_id ".to_owned();
                message.append(quote(id).as_str());
                message.append(" has no '-'. A nautilus AccountId is ISSUER-NUMBER, so a consumer cannot construct this one - try ");
                message.append(DEFAULT_ACCOUNT_ID);
                return message;
            },
            ConfigError::AccountWithEmptySide => {
                let mut message = "account_id ".to_owned();
                message.append(quote(id).as_str());
                message.append(" must have a non-empty issuer and number either side of the '-'");
                return message;
            },
            ConfigError::HeldBudgetTooSmall => {
                let mut message = "exec_held_budget_bytes must be at least ".to_owned();
                push_decimal(&mut message, constants.boundary_refusal_bytes as u128);
                message.append(" - the worst case of a single boundary refusal - or every order-entry command is refused for capacity");
                return message;
            },
            ConfigError::Unfunded { symbol, currency } => {
                let mut message = "instrument ".to_owned();
                message.append(symbol.as_str());
                message.append(" quote currency ");
                message.append(currency.as_str());
                message.append(" is unfunded; every buy in this run would be rejected for insufficient balance - add ");
                message.append(currency.as_str());
                message.append(" to [balances]");
                return message;
            },
            ConfigError::BlankCurrency => "balances currency must not be blank",
            ConfigError::HeldBudgetTooLarge => "exec_held_budget_bytes must fit in 32 bits",
            ConfigError::NoLaneFrames => "admission_lane_frames must be at least 1",
            ConfigError::NoPendingActs => "pending_command_acts must be at least 1",
            ConfigError::GlobalBelowPending => {
                "global_pending_command_acts must be at least pending_command_acts"
            },
            ConfigError::VolMult => "fill_band_vol_mult must be finite and between 0 and 1000",
            ConfigError::BandTicks => "fill_band_max_ticks must be between 1 and 10000",
            ConfigError::SweepTooSlow => {
                "fill_sweep_interval_ms must be at most MAX_DIVERGENCE_MS"
            },
            ConfigError::NoSweep => "fill_sweep_interval_ms must be > 0",
            ConfigError::NoFanout => {
                "fanout_depth must be greater than zero; unlike the count caps, 0 does not mean unbounded here"
            },
            ConfigError::Speed => "speed must be finite and non-negative",
        };
        plain.to_owned()
    }
}

/// Whether an account id has an issuer and a number, with the first dash between
/// them.
pub open spec fn has_two_sides(id: Seq<char>) -> bool {
    exists|i: int|
        0 < i < id.len() - 1 && #[trigger] id[i] == '-' && forall|k: int|
            0 <= k < i ==> #[trigger] id[k] != '-'
}

proof fn the_first_dash_is_found(s: Seq<char>)
    ensures
        dash(s) <= s.len(),
        dash(s) < s.len() ==> s[dash(s) as int] == '-',
        forall|k: int| 0 <= k < dash(s) ==> #[trigger] s[k] != '-',
    decreases s.len(),
{
    if s.len() > 0 && s[0] != '-' {
        the_first_dash_is_found(s.skip(1));
        assert forall|k: int| 0 <= k < dash(s) implies #[trigger] s[k] != '-' by {
            if k > 0 {
                assert(s.skip(1)[k - 1] == s[k]);
            }
        }
    }
}

proof fn balances_are_tried_in_turn(balances: Seq<(String, Dec)>, limit: usize, i: int, n: int)
    requires
        0 <= i <= n <= balances.len(),
        forall|k: int|
            i <= k < n ==> !blank((#[trigger] balances[k]).0@) && byte_len(balances[k].0@) <= limit
                && !balances[k].1.negative(),
    ensures
        balances_error(balances, limit, i) == balances_error(balances, limit, n),
    decreases n - i,
{
    if i < n {
        assert(!blank(balances[i].0@));
        balances_are_tried_in_turn(balances, limit, i + 1, n);
    }
}

/// The first balance that cannot stand is what the balances are refused for: one
/// in no currency, one whose currency's name is too long, or one below zero, in
/// this order; and balances that can all stand are not refused.
pub proof fn the_first_faulty_balance_is_refused(
    balances: Seq<(String, Dec)>,
    limit: usize,
    n: int,
)
    requires
        0 <= n <= balances.len(),
        forall|k: int|
            0 <= k < n ==> !blank((#[trigger] balances[k]).0@) && byte_len(balances[k].0@) <= limit
                && !balances[k].1.negative(),
        n < balances.len() ==> blank(balances[n].0@) || byte_len(balances[n].0@) > limit
            || balances[n].1.negative(),
    ensures
        ({
            let error = balances_error(balances, limit, 0);
            &&& n == balances.len() ==> error is None
            &&& n < balances.len() && blank(balances[n].0@) ==> error == Some(
                ConfigError::BlankCurrency,
            )
            &&& n < balances.len() && !blank(balances[n].0@) && byte_len(balances[n].0@) > limit
                ==> error == Some(ConfigError::LongCurrency { currency: balances[n].0 })
            &&& n < balances.len() && !blank(balances[n].0@) && byte_len(balances[n].0@) <= limit
                ==> error == Some(ConfigError::NegativeBalance { currency: balances[n].0 })
        }),
{
    balances_are_tried_in_turn(balances, limit, 0, n);
}

/// A configuration starts a run just where each of its balances can stand, its
/// account is legal on the wire and has an issuer and a number, its budgets let a
/// command through, its fill band is within its range and is swept, and its
/// fanout has a depth.
pub proof fn a_configuration_starts_a_run(
    cfg: Config,
    constants: VenueConstants,
    refusal: Option<String>,
)
    ensures
        config_error(cfg, constants, refusal) is None == {
            &&& forall|k: int|
                0 <= k < cfg.balances@.len() ==> !blank((#[trigger] cfg.balances@[k]).0@)
                    && byte_len(cfg.balances@[k].0@) <= constants.currency_len
                    && !cfg.balances@[k].1.negative()
            &&& refusal is None
            &&& has_two_sides(trimmed(cfg.account_id@))
            &&& constants.boundary_refusal_bytes <= cfg.exec_held_budget_bytes <= u32::MAX
            &&& cfg.admission_lane_frames >= 1
            &&& 1 <= cfg.pending_command_acts <= cfg.global_pending_command_acts
            &&& cfg.fill_band_vol_mult_bits <= MAX_VOL_MULT_BITS || cfg.fill_band_vol_mult_bits
                == MINUS_ZERO_BITS
            &&& 1 <= cfg.fill_band_max_ticks <= 10_000
            &&& 1 <= cfg.fill_sweep_interval_ms <= constants.max_divergence_ms
            &&& cfg.fanout_depth >= 1
        },
{
    let id = trimmed(cfg.account_id@);
    the_first_dash_is_found(id);
    let at = dash(id) as int;
    assert(has_two_sides(id) == (0 < at && at < id.len() - 1)) by {
        if has_two_sides(id) {
            let i = choose|i: int|
                0 < i < id.len() - 1 && #[trigger] id[i] == '-' && forall|k: int|
                    0 <= k < i ==> #[trigger] id[k] != '-';
            if at < i {
                assert(id[at] != '-');
            }
            if i < at {
                assert(id[i] != '-');
            }
        }
        if 0 < at && at < id.len() - 1 {
            assert(id[at] == '-');
        }
    }
    let limit = constants.currency_len;
    let balances = cfg.balances@;
    if forall|k: int|
        0 <= k < balances.len() ==> !blank((#[trigger] balances[k]).0@) && byte_len(
            balances[k].0@,
        ) <= limit && !balances[k].1.negative() {
        balances_are_tried_in_turn(balances, limit, 0, balances.len() as int);
    } else {
        faulty_balances_are_refused(balances, limit, 0);
    }
}

proof fn faulty_balances_are_refused(balances: Seq<(String, Dec)>, limit: usize, i: int)
    requires
        0 <= i,
        exists|k: int|
            i <= k < balances.len() && !(!blank((#[trigger] balances[k]).0@) && byte_len(
                balances[k].0@,
            ) <= limit && !balances[k].1.negative()),
    ensures
        balances_error(balances, limit, i) is Some,
    decreases balances.len() - i,
{
    let k = choose|k: int|
        i <= k < balances.len() && !(!blank((#[trigger] balances[k]).0@) && byte_len(
            balances[k].0@,
        ) <= limit && !balances[k].1.negative());
    if i < k {
        faulty_balances_are_refused(balances, limit, i + 1);
    }
}

/// The instrument that a run is refused for is the first that settles in a
/// currency without a balance.
pub proof fn the_first_unfunded_instrument_is_named(
    balances: Seq<(String, Dec)>,
    defs: Seq<InstrumentDef>,
    i: int,
    n: int,
)
    requires
        0 <= i <= n <= defs.len(),
        forall|k: int|
            i <= k < n ==> funds(balances, (#[trigger] defs[k]).class.settles_in()),
        n < defs.len() ==> !funds(balances, defs[n].class.settles_in()),
    ensures
        first_unfunded(balances, defs, i) == n,
    decreases n - i,
{
    if i < n {
        assert(funds(balances, defs[i].class.settles_in()));
        the_first_unfunded_instrument_is_named(balances, defs, i + 1, n);
    }
}

} // verus!
