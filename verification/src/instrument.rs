//! Instruments as an operator describes them, and what is refused of one.

use vstd::prelude::*;
use vstd::utf8::encode_utf8;

use crate::calendar::SessionCalendar;
use crate::decimal::comes_out;
use crate::decimal::divide;
use crate::decimal::finer;
use crate::decimal::fraction;
use crate::decimal::is_mantissa;
use crate::decimal::is_quotient;
use crate::decimal::left_over;
use crate::decimal::normalize;
use crate::decimal::quotient;
use crate::decimal::remainder;
use crate::decimal::short_aligned;
use crate::decimal::take_remainder;
use crate::decimal::ten;
use crate::decimal::ten_adds_up;
use crate::decimal::ten_is_positive;
use crate::decimal::Dec;
use crate::decimal::MAX_SCALE;
use crate::text::decimal;
use crate::text::push_decimal;
use crate::text::trim;
use crate::text::trimmed;

verus! {

/// How long the names may be that reach the wire, in bytes.
#[derive(Clone, Copy, Debug)]
pub struct WireLimits {
    pub symbol_len: usize,
    pub currency_len: usize,
}

/// What an instrument is.
#[derive(Debug)]
pub enum InstrumentClass {
    Spot { base: String, quote: String },
    Future {
        underlying: String,
        settlement_currency: String,
        multiplier: Dec,
        asset_class: String,
    },
}

/// An instrument.
#[derive(Debug)]
pub struct InstrumentDef {
    pub symbol: String,
    pub class: InstrumentClass,
    pub price_precision: u8,
    pub size_precision: u8,
    pub price_increment: Dec,
    pub size_increment: Dec,
}

/// What is done to an account that cannot cover its positions.
#[derive(Clone, Copy, Debug, PartialEq, Eq, Structural)]
pub enum MarginAction {
    Refuse,
    Liquidate,
}

/// The collateral that a position needs.
#[derive(Clone, Copy, Debug)]
pub struct ConfiguredMargin {
    pub initial_per_contract: Dec,
    pub maintenance_per_contract: Dec,
    pub breach_action: MarginAction,
}

/// What a fill costs.
#[derive(Clone, Copy, Debug)]
pub enum FeeRate {
    BasisPoints { rate: Dec },
    PerContract { amount: Dec },
}

/// What a fill costs whoever makes the price, and whoever takes it.
#[derive(Clone, Copy, Debug)]
pub struct ConfiguredFees {
    pub maker: FeeRate,
    pub taker: FeeRate,
}

/// What the generator of an instrument's tape is told that has to agree with
/// the instrument.
#[derive(Clone, Debug, PartialEq, Eq)]
pub struct Generator {
    pub symbol: String,
    pub modal_tick: Dec,
    pub price_decimals: u32,
    pub bid_size: Dec,
    pub ask_size: Dec,
}

/// How a day and a week of a tape go, as the bits of doubles: how busy each hour
/// is, how far prices move in it, and what each day of the week weighs.
#[derive(Clone, Debug, PartialEq, Eq)]
pub struct SessionProfile {
    pub intensity_hour: Vec<u64>,
    pub vol_hour: Vec<u64>,
    pub dow_weight: Vec<u64>,
}

/// An instrument as it is configured.
#[derive(Debug)]
pub struct ConfiguredInstrument {
    pub def: InstrumentDef,
    pub margin: Option<ConfiguredMargin>,
    pub fees: Option<ConfiguredFees>,
    pub generator: Option<Generator>,
    pub session: SessionProfile,
    pub calendar: Option<SessionCalendar>,
}

/// A session profile's field that is not valid. An index of `usize::MAX` says
/// that the field as a whole does not add up.
#[derive(Debug)]
pub struct SessionError {
    pub field: String,
    pub index: usize,
}

/// What the tape generator says of the scalars, the session and the calendar
/// that it is given: the first field that it refuses of each.
#[derive(Debug)]
pub struct GeneratorVerdicts {
    pub scalars: Option<String>,
    pub size_grid: Option<String>,
    pub session: Option<SessionError>,
    pub calendar: Option<String>,
}

/// Why an instrument is refused.
#[derive(Debug)]
pub enum InstrumentError {
    EmptySymbol,
    EmptyBase,
    EmptyQuote,
    LongCurrency,
    Underlying,
    SettlementCurrency,
    Multiplier,
    FutureSize,
    LongSymbol,
    PriceIncrement,
    SizeIncrement,
    PriceOffGrid,
    SizeOffGrid,
    SpotMargin,
    FutureWithoutMargin,
    Margin,
    FeeBasisPoints,
    NegativeFee,
    ModalTick,
    PriceDecimals,
    TopSizes,
    Scalars(String),
    SizeGrid(String),
    Session(SessionError),
    Calendar(String),
    /// A figure that the checks need is more than a decimal amount holds.
    OutOfRange,
}

/// The bytes that a text takes.
pub open spec fn byte_len(s: Seq<char>) -> usize {
    encode_utf8(s).len() as usize
}

/// Whether nothing but white space is in a text.
pub open spec fn blank(s: Seq<char>) -> bool {
    trimmed(s).len() == 0
}

/// Whether an amount is a multiple of an increment. `None` if the number of
/// increments is no amount.
pub open spec fn steps(value: Dec, increment: Dec) -> Option<bool> {
    if !increment.positive() {
        Some(false)
    } else {
        match quotient(value, increment) {
            None => None,
            Some(count) => Some(left_over(count.digits(), ten(count.places()) as int) == 0),
        }
    }
}

/// Why a class is refused, if it is.
pub open spec fn class_error(
    class: InstrumentClass,
    size_precision: u8,
    size_increment: Dec,
    limits: WireLimits,
) -> Option<InstrumentError> {
    match class {
        InstrumentClass::Spot { base, quote } => if blank(base@) {
            Some(InstrumentError::EmptyBase)
        } else if blank(quote@) {
            Some(InstrumentError::EmptyQuote)
        } else if byte_len(base@) > limits.currency_len || byte_len(quote@) > limits.currency_len {
            Some(InstrumentError::LongCurrency)
        } else {
            None
        },
        InstrumentClass::Future { underlying, settlement_currency, multiplier, asset_class } =>
        if blank(underlying@) || !vstd::utf8::is_ascii_chars(underlying@) || byte_len(underlying@)
            > limits.symbol_len {
            Some(InstrumentError::Underlying)
        } else if blank(settlement_currency@) || byte_len(settlement_currency@)
            > limits.currency_len {
            Some(InstrumentError::SettlementCurrency)
        } else if !multiplier.positive() || multiplier.places() > 9 {
            Some(InstrumentError::Multiplier)
        } else if !is_one(size_increment) || size_precision != 0 {
            Some(InstrumentError::FutureSize)
        } else {
            None
        },
    }
}

/// Whether an amount is one.
pub open spec fn is_one(amount: Dec) -> bool {
    amount.digits() == ten(amount.places())
}

/// Whether an amount is a multiple of the last of these decimal places. `None`
/// if there are more of them than an amount has, or the number of multiples is
/// no amount.
pub open spec fn on_places(value: Dec, places: u8) -> Option<bool> {
    if places > MAX_SCALE {
        None
    } else if value.places() >= places {
        Some(!finer_than(value, places))
    } else if is_mantissa(value.aligned(places as nat)) {
        Some(true)
    } else {
        None
    }
}

/// Whether an amount is a whole number of increments.
pub open spec fn is_multiple(value: Dec, increment: Dec) -> bool {
    (value.digits() * ten(increment.places())) % (increment.digits() * ten(value.places())) == 0
}

/// Why an instrument is refused, if it is.
pub open spec fn def_error(def: InstrumentDef, limits: WireLimits) -> Option<InstrumentError> {
    let class = class_error(def.class, def.size_precision, def.size_increment, limits);
    if blank(def.symbol@) {
        Some(InstrumentError::EmptySymbol)
    } else if class is Some {
        class
    } else if byte_len(def.symbol@) > limits.symbol_len {
        Some(InstrumentError::LongSymbol)
    } else if !def.price_increment.positive() {
        Some(InstrumentError::PriceIncrement)
    } else if !def.size_increment.positive() {
        Some(InstrumentError::SizeIncrement)
    } else {
        match on_places(def.price_increment, def.price_precision) {
            None => Some(InstrumentError::OutOfRange),
            Some(false) => Some(InstrumentError::PriceOffGrid),
            Some(true) => match on_places(def.size_increment, def.size_precision) {
                None => Some(InstrumentError::OutOfRange),
                Some(false) => Some(InstrumentError::SizeOffGrid),
                Some(true) => None,
            },
        }
    }
}

/// Why a fee is refused, if it is.
pub open spec fn fee_error(rate: FeeRate) -> Option<InstrumentError> {
    match rate {
        FeeRate::BasisPoints { rate } => if rate.negative() || rate.digits() > 1000 * ten(
            rate.places(),
        ) {
            Some(InstrumentError::FeeBasisPoints)
        } else {
            None
        },
        FeeRate::PerContract { amount } => if amount.negative() {
            Some(InstrumentError::NegativeFee)
        } else {
            None
        },
    }
}

/// Why an instrument's margin and fees are refused, if they are.
pub open spec fn options_error(configured: ConfiguredInstrument) -> Option<InstrumentError> {
    let margin_error = match (configured.def.class, configured.margin) {
        (InstrumentClass::Spot { .. }, Some(_)) => Some(InstrumentError::SpotMargin),
        (InstrumentClass::Future { .. }, None) => Some(InstrumentError::FutureWithoutMargin),
        (_, Some(margin)) => if !margin.maintenance_per_contract.positive()
            || margin.initial_per_contract.below(margin.maintenance_per_contract) {
            Some(InstrumentError::Margin)
        } else {
            None
        },
        _ => None,
    };
    if margin_error is Some {
        margin_error
    } else {
        match configured.fees {
            None => None,
            Some(fees) => if fee_error(fees.maker) is Some {
                fee_error(fees.maker)
            } else {
                fee_error(fees.taker)
            },
        }
    }
}

/// Whether an amount, without the zeros at its end, needs more decimal places
/// than these.
pub open spec fn finer_than(amount: Dec, places: u8) -> bool {
    amount.places() > places && amount.digits() % ten((amount.places() - places) as nat) as int
        != 0
}

/// Why a top-of-book size is refused, if it is.
pub open spec fn size_error(size: Dec, def: InstrumentDef) -> Option<InstrumentError> {
    if finer_than(size, def.size_precision) {
        Some(InstrumentError::TopSizes)
    } else {
        match remainder(size, def.size_increment) {
            None => Some(InstrumentError::OutOfRange),
            Some(rest) => if rest.digits() != 0 {
                Some(InstrumentError::TopSizes)
            } else {
                None
            },
        }
    }
}

/// The generator's settings: the configured ones, and where there are none,
/// those that agree with the instrument, with the least size on either side. The
/// symbol is the instrument's own.
pub open spec fn settled_generator(configured: ConfiguredInstrument, min_size: Dec) -> Generator {
    match configured.generator {
        Some(generator) => Generator { symbol: configured.def.symbol, ..generator },
        None => Generator {
            symbol: configured.def.symbol,
            modal_tick: configured.def.price_increment,
            price_decimals: configured.def.price_precision as u32,
            bid_size: min_size,
            ask_size: min_size,
        },
    }
}

/// Why a generator's settings are refused, if they are.
pub open spec fn generator_error(generator: Generator, def: InstrumentDef) -> Option<
    InstrumentError,
> {
    if !generator.modal_tick.equals(def.price_increment) {
        Some(InstrumentError::ModalTick)
    } else if generator.price_decimals != def.price_precision {
        Some(InstrumentError::PriceDecimals)
    } else if size_error(generator.bid_size, def) is Some {
        size_error(generator.bid_size, def)
    } else {
        size_error(generator.ask_size, def)
    }
}

/// Why the tape generator refuses an instrument, if it does.
pub open spec fn verdict_error(verdicts: GeneratorVerdicts) -> Option<InstrumentError> {
    match verdicts.scalars {
        Some(field) => Some(InstrumentError::Scalars(field)),
        None => match verdicts.size_grid {
            Some(field) => Some(InstrumentError::SizeGrid(field)),
            None => match verdicts.session {
                Some(error) => Some(InstrumentError::Session(error)),
                None => match verdicts.calendar {
                    Some(reason) => Some(InstrumentError::Calendar(reason)),
                    None => None,
                },
            },
        },
    }
}

/// Why a configured instrument is refused, if it is: by what it is, by its
/// margin and fees, by what its generator is told, and by the generator itself,
/// in that order.
pub open spec fn profile_error(
    configured: ConfiguredInstrument,
    limits: WireLimits,
    min_size: Dec,
    verdicts: GeneratorVerdicts,
) -> Option<InstrumentError> {
    if def_error(configured.def, limits) is Some {
        def_error(configured.def, limits)
    } else if options_error(configured) is Some {
        options_error(configured)
    } else {
        let generator = settled_generator(configured, min_size);
        if generator_error(generator, configured.def) is Some {
            generator_error(generator, configured.def)
        } else {
            verdict_error(verdicts)
        }
    }
}

fn is_blank(s: &str) -> (answer: bool)
    ensures
        answer == blank(s@),
{
    trim(s).as_str().is_empty()
}

/// An exact quotient is whole just where the amount is a whole number of
/// increments.
proof fn a_whole_count_is_a_multiple(value: Dec, increment: Dec, count: Dec)
    requires
        increment.positive(),
        is_quotient(count, value, increment),
    ensures
        (left_over(count.digits(), ten(count.places()) as int) == 0) == is_multiple(
            value,
            increment,
        ),
{
    let (c, t) = (count.digits(), ten(count.places()) as int);
    let n = value.digits() * ten(increment.places());
    let (inc, tv) = (increment.digits(), ten(value.places()) as int);
    let d = inc * tv;
    ten_is_positive(count.places());
    ten_is_positive(value.places());
    assert(d > 0) by (nonlinear_arith)
        requires
            d == inc * tv,
            inc > 0,
            tv > 0,
    ;
    assert(c * d == n * t);
    negated_alike(c, t);
    if c % t == 0 {
        let q = c / t;
        vstd::arithmetic::div_mod::lemma_fundamental_div_mod(c, t);
        assert(n == q * d) by (nonlinear_arith)
            requires
                c == t * q,
                c * d == n * t,
                t > 0,
        ;
        vstd::arithmetic::div_mod::lemma_mod_multiples_basic(q, d);
    }
    if n % d == 0 {
        let q = n / d;
        vstd::arithmetic::div_mod::lemma_fundamental_div_mod(n, d);
        assert(c == q * t) by (nonlinear_arith)
            requires
                n == d * q,
                c * d == n * t,
                d > 0,
        ;
        vstd::arithmetic::div_mod::lemma_mod_multiples_basic(q, t);
    }
}

/// A number is a multiple just where its negative is.
proof fn negated_alike(c: int, t: int)
    requires
        t > 0,
    ensures
        ((-c) % t == 0) == (c % t == 0),
{
    if c % t == 0 {
        vstd::arithmetic::div_mod::lemma_fundamental_div_mod(c, t);
        let q = c / t;
        assert(-c == (-q) * t) by (nonlinear_arith)
            requires
                c == t * q,
        ;
        vstd::arithmetic::div_mod::lemma_mod_multiples_basic(-q, t);
    }
    if (-c) % t == 0 {
        vstd::arithmetic::div_mod::lemma_fundamental_div_mod(-c, t);
        let q = (-c) / t;
        assert(c == (-q) * t) by (nonlinear_arith)
            requires
                -c == t * q,
        ;
        vstd::arithmetic::div_mod::lemma_mod_multiples_basic(-q, t);
    }
}

/// One in some decimal place goes evenly into an amount just where the amount
/// needs no finer places.
proof fn a_multiple_needs_no_finer_places(value: Dec, unit: Dec, places: u8)
    requires
        unit.digits() == 1,
        unit.places() == places,
    ensures
        value.places() >= places ==> is_multiple(value, unit) == !finer_than(value, places),
        value.places() < places ==> is_multiple(value, unit),
{
    let v = value.digits();
    let (tp, tv) = (ten(places as nat) as int, ten(value.places()) as int);
    ten_is_positive(places as nat);
    ten_is_positive(value.places());
    assert(1 * tv == tv);
    if value.places() >= places {
        let more = (value.places() - places) as nat;
        let m = ten(more) as int;
        ten_is_positive(more);
        ten_adds_up(places as nat, more);
        if v % m == 0 {
            vstd::arithmetic::div_mod::lemma_fundamental_div_mod(v, m);
            let q = v / m;
            assert(v * tp == q * tv) by (nonlinear_arith)
                requires
                    v == m * q,
                    tv == tp * m,
            ;
            vstd::arithmetic::div_mod::lemma_mod_multiples_basic(q, tv);
        }
        if (v * tp) % tv == 0 {
            vstd::arithmetic::div_mod::lemma_fundamental_div_mod(v * tp, tv);
            let q = (v * tp) / tv;
            assert(v == q * m) by (nonlinear_arith)
                requires
                    v * tp == tv * q,
                    tv == tp * m,
                    tp > 0,
            ;
            vstd::arithmetic::div_mod::lemma_mod_multiples_basic(q, m);
        }
        if more == 0 {
            assert(m == 1);
        }
    } else {
        let more = (places - value.places()) as nat;
        let m = ten(more) as int;
        ten_adds_up(value.places(), more);
        assert(v * tp == (v * m) * tv) by (nonlinear_arith)
            requires
                tp == tv * m,
        ;
        vstd::arithmetic::div_mod::lemma_mod_multiples_basic(v * m, tv);
    }
}

/// Whether an amount is a multiple of an increment.
pub fn on_increment(value: Dec, increment: Dec) -> (answer: Option<bool>)
    ensures
        answer == steps(value, increment),
        increment.positive() && comes_out(value, increment) ==> answer == Some(
            is_multiple(value, increment),
        ),
        increment.digits() == 1 && answer is Some ==> answer->0 == is_multiple(value, increment),
        increment.digits() == 1 ==> answer is Some == (value.places() >= increment.places()
            || is_mantissa(value.aligned(increment.places()))),
{
    if !increment.is_positive() {
        return Some(false);
    }
    match divide(value, increment) {
        None => None,
        Some(count) => {
            let rest = fraction(count);
            proof {
                let whole = ten(count.places()) as int;
                let left = left_over(count.digits(), whole);
                let scale = ten(rest.places()) as int;
                ten_is_positive(count.places());
                ten_is_positive(rest.places());
                assert(rest.digits() * whole == left * scale);
                assert((rest.digits() == 0) == (left == 0)) by (nonlinear_arith)
                    requires
                        whole > 0,
                        scale > 0,
                        rest.digits() * whole == left * scale,
                ;
                if is_quotient(count, value, increment) {
                    a_whole_count_is_a_multiple(value, increment, count);
                }
            }
            Some(rest.mantissa() == 0)
        },
    }
}

fn on_places_of(value: Dec, places: u8) -> (answer: Option<bool>)
    ensures
        answer == on_places(value, places),
{
    if places as u32 > MAX_SCALE {
        None
    } else {
        let unit = Dec::unit(places as u32);
        proof {
            a_multiple_needs_no_finer_places(value, unit, places);
        }
        on_increment(value, unit)
    }
}

fn check_class(
    class: &InstrumentClass,
    size_precision: u8,
    size_increment: Dec,
    limits: WireLimits,
) -> (error: Option<InstrumentError>)
    ensures
        error == class_error(*class, size_precision, size_increment, limits),
{
    match class {
        InstrumentClass::Spot { base, quote } => {
            if is_blank(base.as_str()) {
                return Some(InstrumentError::EmptyBase);
            }
            if is_blank(quote.as_str()) {
                return Some(InstrumentError::EmptyQuote);
            }
            if base.as_str().len() > limits.currency_len || quote.as_str().len()
                > limits.currency_len {
                return Some(InstrumentError::LongCurrency);
            }
            None
        },
        InstrumentClass::Future { underlying, settlement_currency, multiplier, asset_class } => {
            if is_blank(underlying.as_str()) || !underlying.as_str().is_ascii()
                || underlying.as_str().len() > limits.symbol_len {
                return Some(InstrumentError::Underlying);
            }
            if is_blank(settlement_currency.as_str()) || settlement_currency.as_str().len()
                > limits.currency_len {
                return Some(InstrumentError::SettlementCurrency);
            }
            if !multiplier.is_positive() || multiplier.scale() > 9 {
                return Some(InstrumentError::Multiplier);
            }
            let one = size_increment.is_equal(&Dec::whole(1));
            assert(one == is_one(size_increment)) by {
                assert(ten(0) == 1);
                assert(size_increment.digits() * 1 == size_increment.digits());
                assert(1 * ten(size_increment.places()) == ten(size_increment.places()));
            }
            if !one || size_precision != 0 {
                return Some(InstrumentError::FutureSize);
            }
            None
        },
    }
}

/// Refuses an instrument that the venue cannot serve.
pub fn validate_instrument_def(def: &InstrumentDef, limits: WireLimits) -> (checked: Result<
    (),
    InstrumentError,
>)
    ensures
        checked == (match def_error(*def, limits) {
            Some(error) => Err::<(), InstrumentError>(error),
            None => Ok(()),
        }),
{
    if is_blank(def.symbol.as_str()) {
        return Err(InstrumentError::EmptySymbol);
    }
    if let Some(error) = check_class(&def.class, def.size_precision, def.size_increment, limits) {
        return Err(error);
    }
    if def.symbol.as_str().len() > limits.symbol_len {
        return Err(InstrumentError::LongSymbol);
    }
    if !def.price_increment.is_positive() {
        return Err(InstrumentError::PriceIncrement);
    }
    if !def.size_increment.is_positive() {
        return Err(InstrumentError::SizeIncrement);
    }
    match on_places_of(def.price_increment, def.price_precision) {
        None => {
            return Err(InstrumentError::OutOfRange);
        },
        Some(fits) => if !fits {
            return Err(InstrumentError::PriceOffGrid);
        },
    }
    match on_places_of(def.size_increment, def.size_precision) {
        None => Err(InstrumentError::OutOfRange),
        Some(fits) => if !fits {
            Err(InstrumentError::SizeOffGrid)
        } else {
            Ok(())
        },
    }
}

fn check_fee(rate: FeeRate) -> (error: Option<InstrumentError>)
    ensures
        error == fee_error(rate),
{
    match rate {
        FeeRate::BasisPoints { rate } => {
            let over = Dec::whole(1000).is_below(&rate);
            assert(over == (rate.digits() > 1000 * ten(rate.places()))) by {
                assert(ten(0) == 1);
                assert(rate.digits() * 1 == rate.digits());
            }
            if rate.is_negative() || over {
                Some(InstrumentError::FeeBasisPoints)
            } else {
                None
            }
        },
        FeeRate::PerContract { amount } => if amount.is_negative() {
            Some(InstrumentError::NegativeFee)
        } else {
            None
        },
    }
}

/// Refuses a margin or a fee that the instrument cannot have.
pub fn validate_instrument_options(configured: &ConfiguredInstrument) -> (checked: Result<
    (),
    InstrumentError,
>)
    ensures
        checked == (match options_error(*configured) {
            Some(error) => Err::<(), InstrumentError>(error),
            None => Ok(()),
        }),
{
    match (&configured.def.class, &configured.margin) {
        (InstrumentClass::Spot { .. }, Some(_)) => {
            return Err(InstrumentError::SpotMargin);
        },
        (InstrumentClass::Future { .. }, None) => {
            return Err(InstrumentError::FutureWithoutMargin);
        },
        (InstrumentClass::Future { .. }, Some(margin)) => {
            if !margin.maintenance_per_contract.is_positive()
                || margin.initial_per_contract.is_below(&margin.maintenance_per_contract) {
                return Err(InstrumentError::Margin);
            }
        },
        (InstrumentClass::Spot { .. }, None) => {},
    }
    if let Some(fees) = &configured.fees {
        if let Some(error) = check_fee(fees.maker) {
            return Err(error);
        }
        if let Some(error) = check_fee(fees.taker) {
            return Err(error);
        }
    }
    Ok(())
}

/// The digits of an amount without zeros at its end tell how many decimal
/// places it needs.
proof fn places_needed(size: Dec, short: Dec, places: u8)
    requires
        short.equals(size),
        short.places() <= size.places(),
        short.places() > 0 ==> short.digits() % 10 != 0,
    ensures
        (short.places() > places) == finer_than(size, places),
{
    let (sp, rp, p) = (size.places(), short.places(), places as nat);
    let (sd, rd) = (size.digits(), short.digits());
    let gap = ten((sp - rp) as nat) as int;
    let base = ten(rp) as int;
    ten_is_positive(rp);
    ten_is_positive((sp - rp) as nat);
    ten_adds_up((sp - rp) as nat, rp);
    assert(sd * base == rd * (gap * base));
    assert(sd == rd * gap) by (nonlinear_arith)
        requires
            base > 0,
            sd * base == rd * (gap * base),
    ;
    if rp > p {
        let more = ten((rp - p) as nat) as int;
        let rest = ten((rp - p - 1) as nat) as int;
        let all = ten((sp - p) as nat) as int;
        ten_is_positive((rp - p) as nat);
        ten_is_positive((sp - p) as nat);
        ten_adds_up((sp - rp) as nat, (rp - p) as nat);
        assert(all == gap * more);
        assert(more == 10 * rest);
        if sd % all == 0 {
            let q = sd / all;
            assert(sd == all * q) by {
                vstd::arithmetic::div_mod::lemma_fundamental_div_mod(sd, all);
            }
            assert(rd == 10 * (rest * q)) by (nonlinear_arith)
                requires
                    gap > 0,
                    sd == rd * gap,
                    sd == all * q,
                    all == gap * more,
                    more == 10 * rest,
            ;
        }
    } else if sp > p {
        let keep = ten((sp - p) as nat) as int;
        let rest = ten((p - rp) as nat) as int;
        ten_is_positive((sp - p) as nat);
        ten_adds_up((sp - p) as nat, (p - rp) as nat);
        assert(gap == keep * rest);
        assert(sd == keep * (rest * rd)) by (nonlinear_arith)
            requires
                sd == rd * gap,
                gap == keep * rest,
        ;
        vstd::arithmetic::div_mod::lemma_mod_multiples_basic(rest * rd, keep);
        assert((rest * rd) * keep == keep * (rest * rd)) by (nonlinear_arith);
    }
}

proof fn nothing_left(size: Dec, increment: Dec, rest: Dec)
    requires
        increment.positive(),
        rest.digits() == 0,
        rest.digits() * ten(finer(size, increment)) == left_over(
            size.aligned(finer(size, increment)),
            increment.aligned(finer(size, increment)),
        ) * ten(rest.places()),
    ensures
        size.aligned(finer(size, increment)) % increment.aligned(finer(size, increment)) == 0,
{
    let p = finer(size, increment);
    let (a, b) = (size.aligned(p), increment.aligned(p));
    ten_is_positive(rest.places());
    ten_is_positive((p - increment.places()) as nat);
    let (inc, more) = (increment.digits(), ten((p - increment.places()) as nat) as int);
    assert(b > 0) by (nonlinear_arith)
        requires
            b == inc * more,
            inc > 0,
            more > 0,
    ;
    let t = ten(rest.places()) as int;
    let left = left_over(a, b);
    assert(left == 0) by (nonlinear_arith)
        requires
            left * t == 0,
            t > 0,
    ;
    negated_alike(a, b);
}

fn check_size(size: Dec, def: &InstrumentDef) -> (error: Option<InstrumentError>)
    ensures
        error == size_error(size, *def),
        error is None && def.size_increment.positive() ==> is_on_grid(size, *def),
{
    let short = normalize(size);
    proof {
        places_needed(size, short, def.size_precision);
    }
    if short.scale() > def.size_precision as u32 {
        return Some(InstrumentError::TopSizes);
    }
    match take_remainder(size, def.size_increment) {
        None => Some(InstrumentError::OutOfRange),
        Some(rest) => {
            proof {
                let p = finer(size, def.size_increment);
                if short_aligned(size, def.size_increment) && def.size_increment.positive()
                    && rest.digits() == 0 {
                    nothing_left(size, def.size_increment, rest);
                }
            }
            if rest.mantissa() != 0 {
                Some(InstrumentError::TopSizes)
            } else {
                None
            }
        },
    }
}

/// The generator's settings for a configured instrument.
pub fn resolve_generator(configured: &ConfiguredInstrument, min_size: Dec) -> (generator: Generator)
    ensures
        generator == settled_generator(*configured, min_size),
{
    let symbol = configured.def.symbol.clone();
    match &configured.generator {
        Some(generator) => Generator {
            symbol,
            modal_tick: generator.modal_tick,
            price_decimals: generator.price_decimals,
            bid_size: generator.bid_size,
            ask_size: generator.ask_size,
        },
        None => Generator {
            symbol,
            modal_tick: configured.def.price_increment,
            price_decimals: configured.def.price_precision as u32,
            bid_size: min_size,
            ask_size: min_size,
        },
    }
}

fn check_generator(generator: &Generator, def: &InstrumentDef) -> (error: Option<InstrumentError>)
    ensures
        error == generator_error(*generator, *def),
        error is None && def.size_increment.positive() ==> is_on_grid(generator.bid_size, *def)
            && is_on_grid(generator.ask_size, *def),
{
    if !generator.modal_tick.is_equal(&def.price_increment) {
        return Some(InstrumentError::ModalTick);
    }
    if generator.price_decimals != def.price_precision as u32 {
        return Some(InstrumentError::PriceDecimals);
    }
    if let Some(error) = check_size(generator.bid_size, def) {
        return Some(error);
    }
    check_size(generator.ask_size, def)
}

/// An instrument that the venue serves, with its generator's settings.
#[derive(Debug)]
pub struct InstrumentProfile {
    pub def: InstrumentDef,
    pub generator: Generator,
    pub session: SessionProfile,
    pub margin: Option<ConfiguredMargin>,
    pub fees: Option<ConfiguredFees>,
    pub calendar: Option<SessionCalendar>,
}

/// The profile that a configured instrument makes.
pub open spec fn profile_of(configured: ConfiguredInstrument, min_size: Dec) -> InstrumentProfile {
    InstrumentProfile {
        def: configured.def,
        generator: settled_generator(configured, min_size),
        session: configured.session,
        margin: configured.margin,
        fees: configured.fees,
        calendar: configured.calendar,
    }
}

/// Whether a size is a whole number of an instrument's increments, as far as 64
/// bits hold the digits of both.
pub open spec fn is_on_grid(size: Dec, def: InstrumentDef) -> bool {
    short_aligned(size, def.size_increment) ==> size.aligned(finer(size, def.size_increment))
        % def.size_increment.aligned(finer(size, def.size_increment)) == 0
}

/// The profile of a configured instrument. `min_size` is the least size on the
/// instrument's grid, and `verdicts` is what the tape generator says of the
/// settings that `resolve_generator` gives for the instrument, of its session
/// and of its calendar.
pub fn profile_from_configured(
    configured: ConfiguredInstrument,
    limits: WireLimits,
    min_size: Dec,
    verdicts: GeneratorVerdicts,
) -> (profile: Result<InstrumentProfile, InstrumentError>)
    ensures
        profile == (match profile_error(configured, limits, min_size, verdicts) {
            Some(error) => Err(error),
            None => Ok(profile_of(configured, min_size)),
        }),
        profile is Ok ==> {
            let made = profile->Ok_0;
            &&& is_on_grid(made.generator.bid_size, made.def)
            &&& is_on_grid(made.generator.ask_size, made.def)
        },
{
    match validate_instrument_def(&configured.def, limits) {
        Ok(()) => {},
        Err(error) => {
            return Err(error);
        },
    }
    match validate_instrument_options(&configured) {
        Ok(()) => {},
        Err(error) => {
            return Err(error);
        },
    }
    let generator = resolve_generator(&configured, min_size);
    if let Some(error) = check_generator(&generator, &configured.def) {
        return Err(error);
    }
    if let Some(field) = verdicts.scalars {
        return Err(InstrumentError::Scalars(field));
    }
    if let Some(field) = verdicts.size_grid {
        return Err(InstrumentError::SizeGrid(field));
    }
    if let Some(error) = verdicts.session {
        return Err(InstrumentError::Session(error));
    }
    if let Some(reason) = verdicts.calendar {
        return Err(InstrumentError::Calendar(reason));
    }
    Ok(
        InstrumentProfile {
            def: configured.def,
            generator,
            session: configured.session,
            margin: configured.margin,
            fees: configured.fees,
            calendar: configured.calendar,
        },
    )
}

/// A profile is only ever made of an instrument, options and settings that each
/// pass on their own. Its generator has the instrument's own symbol, prices by
/// its increment, and has sizes that its decimal places hold; its session, its
/// calendar, its margin and its fees are the configured ones.
pub proof fn a_profile_agrees_with_its_instrument(
    configured: ConfiguredInstrument,
    limits: WireLimits,
    min_size: Dec,
    verdicts: GeneratorVerdicts,
)
    requires
        profile_error(configured, limits, min_size, verdicts) is None,
    ensures
        def_error(configured.def, limits) is None,
        options_error(configured) is None,
        ({
            let made = profile_of(configured, min_size);
            &&& made.def == configured.def
            &&& made.generator.symbol == configured.def.symbol
            &&& made.generator.modal_tick.equals(configured.def.price_increment)
            &&& made.generator.price_decimals == configured.def.price_precision
            &&& !finer_than(made.generator.bid_size, configured.def.size_precision)
            &&& !finer_than(made.generator.ask_size, configured.def.size_precision)
            &&& configured.generator is None ==> made.generator.bid_size == min_size
                && made.generator.ask_size == min_size
            &&& made.session == configured.session
            &&& made.calendar == configured.calendar
            &&& made.margin == configured.margin
            &&& made.fees == configured.fees
        }),
{
}

/// A future is always traded in whole contracts, and always with a margin that
/// it does not open in breach of.
pub proof fn a_future_is_margined_and_whole(
    configured: ConfiguredInstrument,
    limits: WireLimits,
    min_size: Dec,
    verdicts: GeneratorVerdicts,
)
    requires
        profile_error(configured, limits, min_size, verdicts) is None,
        configured.def.class is Future,
    ensures
        is_one(configured.def.size_increment),
        configured.def.size_precision == 0,
        configured.margin is Some,
        configured.margin->0.maintenance_per_contract.positive(),
        !configured.margin->0.initial_per_contract.below(
            configured.margin->0.maintenance_per_contract,
        ),
{
}

/// What the refusal of a session profile's field says of it.
pub open spec fn session_text(symbol: Seq<char>, error: SessionError) -> Seq<char> {
    if error.index == usize::MAX {
        "instrument "@ + symbol + " session."@ + error.field@
            + " does not sum to a valid normalization"@
    } else {
        "instrument "@ + symbol + " session."@ + error.field@ + "["@ + decimal(error.index as nat)
            + "] must be finite and > 0"@
    }
}

/// What the refusal of a session profile's field says of it: that the field
/// does not add up, or which of its elements is not valid.
pub fn session_error_message(symbol: &str, error: &SessionError) -> (message: String)
    ensures
        message@ == session_text(symbol@, *error),
{
    let mut message = "instrument ".to_owned();
    message.append(symbol);
    message.append(" session.");
    message.append(error.field.as_str());
    if error.index == usize::MAX {
        message.append(" does not sum to a valid normalization");
    } else {
        message.append("[");
        push_decimal(&mut message, error.index as u128);
        message.append("] must be finite and > 0");
    }
    message
}

/// `instrument`, its symbol, and what is wrong with it.
pub open spec fn about(symbol: Seq<char>, what: Seq<char>) -> Seq<char> {
    "instrument "@ + symbol + what
}

impl InstrumentError {
    /// What the refusal of the instrument `symbol` says.
    pub open spec fn text(self, symbol: Seq<char>, limits: WireLimits) -> Seq<char> {
        match self {
            InstrumentError::EmptySymbol => "instrument symbol must not be empty"@,
            InstrumentError::EmptyBase => about(symbol, " base must not be empty"@),
            InstrumentError::EmptyQuote => about(symbol, " quote must not be empty"@),
            InstrumentError::LongCurrency => about(
                symbol,
                " base/quote exceeds MAX_CURRENCY_LEN ("@,
            ) + decimal(limits.currency_len as nat) + ")"@,
            InstrumentError::Underlying => about(
                symbol,
                " future underlying must be non-blank ASCII within MAX_SYMBOL_LEN"@,
            ),
            InstrumentError::SettlementCurrency => about(
                symbol,
                " settlement_currency is invalid"@,
            ),
            InstrumentError::Multiplier => about(
                symbol,
                " multiplier must be positive with scale <= 9"@,
            ),
            InstrumentError::FutureSize => about(
                symbol,
                " futures size_increment must be 1 and size_precision must be 0"@,
            ),
            InstrumentError::LongSymbol => about(symbol, " symbol exceeds MAX_SYMBOL_LEN ("@)
                + decimal(limits.symbol_len as nat) + ")"@,
            InstrumentError::PriceIncrement => about(symbol, " price_increment must be positive"@),
            InstrumentError::SizeIncrement => about(symbol, " size_increment must be positive"@),
            InstrumentError::PriceOffGrid => about(
                symbol,
                " price_increment violates price_precision"@,
            ),
            InstrumentError::SizeOffGrid => about(
                symbol,
                " size_increment violates size_precision"@,
            ),
            InstrumentError::SpotMargin => about(symbol, " margin is valid only for a future"@),
            InstrumentError::FutureWithoutMargin => about(
                symbol,
                " future requires a margin table"@,
            ),
            InstrumentError::Margin => about(
                symbol,
                " margin initial_per_contract must be at least positive maintenance_per_contract"@,
            ),
            InstrumentError::FeeBasisPoints => about(
                symbol,
                " fee basis points must be between 0 and 1000"@,
            ),
            InstrumentError::NegativeFee => about(
                symbol,
                " per-contract fee must not be negative"@,
            ),
            InstrumentError::ModalTick => about(
                symbol,
                " generator.modal_tick must equal price_increment"@,
            ),
            InstrumentError::PriceDecimals => about(
                symbol,
                " generator.price_decimals must equal price_precision"@,
            ),
            InstrumentError::TopSizes => about(
                symbol,
                " generator.top_sizes must be representable at size_precision and on size_increment"@,
            ),
            InstrumentError::Scalars(field) => about(symbol, " generator."@) + field@
                + " failed validation"@,
            InstrumentError::SizeGrid(field) => about(symbol, " generator."@) + field@
                + " failed size-grid validation"@,
            InstrumentError::Session(error) => session_text(symbol, error),
            InstrumentError::Calendar(reason) => about(symbol, " calendar failed validation: "@)
                + reason@,
            InstrumentError::OutOfRange => about(
                symbol,
                " has a figure out of the range of decimal amounts"@,
            ),
        }
    }

    /// What the refusal of the instrument `symbol` says.
    pub fn message(&self, symbol: &str, limits: WireLimits) -> (message: String)
        ensures
            message@ == self.text(symbol@, limits),
    {
        let plain = match self {
            InstrumentError::EmptySymbol => {
                return "instrument symbol must not be empty".to_owned();
            },
            InstrumentError::Session(error) => {
                return session_error_message(symbol, error);
            },
            InstrumentError::LongCurrency => {
                let mut message = about_text(symbol, " base/quote exceeds MAX_CURRENCY_LEN (");
                push_decimal(&mut message, limits.currency_len as u128);
                message.append(")");
                return message;
            },
            InstrumentError::LongSymbol => {
                let mut message = about_text(symbol, " symbol exceeds MAX_SYMBOL_LEN (");
                push_decimal(&mut message, limits.symbol_len as u128);
                message.append(")");
                return message;
            },
            InstrumentError::Scalars(field) => {
                let mut message = about_text(symbol, " generator.");
                message.append(field.as_str());
                message.append(" failed validation");
                return message;
            },
            InstrumentError::SizeGrid(field) => {
                let mut message = about_text(symbol, " generator.");
                message.append(field.as_str());
                message.append(" failed size-grid validation");
                return message;
            },
            InstrumentError::Calendar(reason) => {
                let mut message = about_text(symbol, " calendar failed validation: ");
                message.append(reason.as_str());
                return message;
            },
            InstrumentError::EmptyBase => " base must not be empty",
            InstrumentError::EmptyQuote => " quote must not be empty",
            InstrumentError::Underlying => {
                " future underlying must be non-blank ASCII within MAX_SYMBOL_LEN"
            },
            InstrumentError::SettlementCurrency => " settlement_currency is invalid",
            InstrumentError::Multiplier => " multiplier must be positive with scale <= 9",
            InstrumentError::FutureSize => {
                " futures size_increment must be 1 and size_precision must be 0"
            },
            InstrumentError::PriceIncrement => " price_increment must be positive",
            InstrumentError::SizeIncrement => " size_increment must be positive",
            InstrumentError::PriceOffGrid => " price_increment violates price_precision",
            InstrumentError::SizeOffGrid => " size_increment violates size_precision",
            InstrumentError::SpotMargin => " margin is valid only for a future",
            InstrumentError::FutureWithoutMargin => " future requires a margin table",
            InstrumentError::Margin => {
                " margin initial_per_contract must be at least positive maintenance_per_contract"
            },
            InstrumentError::FeeBasisPoints => " fee basis points must be between 0 and 1000",
            InstrumentError::NegativeFee => " per-contract fee must not be negative",
            InstrumentError::ModalTick => " generator.modal_tick must equal price_increment",
            InstrumentError::PriceDecimals => {
                " generator.price_decimals must equal price_precision"
            },
            InstrumentError::TopSizes => {
                " generator.top_sizes must be representable at size_precision and on size_increment"
            },
            InstrumentError::OutOfRange => " has a figure out of the range of decimal amounts",
        };
        about_text(symbol, plain)
    }
}

fn about_text(symbol: &str, what: &str) -> (message: String)
    ensures
        message@ == about(symbol@, what@),
{
    let mut message = "instrument ".to_owned();
    message.append(symbol);
    message.append(what);
    message
}

impl InstrumentClass {
    /// The currency that a fill is settled in.
    pub open spec fn settles_in(self) -> Seq<char> {
        match self {
            InstrumentClass::Spot { base, quote } => quote@,
            InstrumentClass::Future { underlying, settlement_currency, .. } => settlement_currency@,
        }
    }

    /// The currency that a fill is settled in.
    pub fn settlement_currency(&self) -> (currency: &str)
        ensures
            currency@ == self.settles_in(),
    {
        match self {
            InstrumentClass::Spot { base, quote } => quote.as_str(),
            InstrumentClass::Future { underlying, settlement_currency, .. } => {
                settlement_currency.as_str()
            },
        }
    }
}

/// An instrument is accepted just where it has a symbol, and currencies, or an
/// underlying and a settlement currency, that are not blank and no longer than
/// the wire takes, increments above zero that its decimal places hold, and, of a
/// future, an ASCII underlying, a multiplier above zero of at most nine decimal
/// places and whole contracts.
pub proof fn an_instrument_is_accepted_for_what_it_is(def: InstrumentDef, limits: WireLimits)
    ensures
        def_error(def, limits) is None == {
            &&& trimmed(def.symbol@).len() > 0
            &&& (encode_utf8(def.symbol@).len() as usize) <= limits.symbol_len
            &&& def.price_increment.digits() > 0
            &&& def.size_increment.digits() > 0
            &&& on_places(def.price_increment, def.price_precision) == Some(true)
            &&& on_places(def.size_increment, def.size_precision) == Some(true)
            &&& match def.class {
                InstrumentClass::Spot { base, quote } => {
                    &&& trimmed(base@).len() > 0
                    &&& trimmed(quote@).len() > 0
                    &&& (encode_utf8(base@).len() as usize) <= limits.currency_len
                    &&& (encode_utf8(quote@).len() as usize) <= limits.currency_len
                },
                InstrumentClass::Future {
                    underlying,
                    settlement_currency,
                    multiplier,
                    asset_class,
                } => {
                    &&& trimmed(underlying@).len() > 0
                    &&& vstd::utf8::is_ascii_chars(underlying@)
                    &&& (encode_utf8(underlying@).len() as usize) <= limits.symbol_len
                    &&& trimmed(settlement_currency@).len() > 0
                    &&& (encode_utf8(settlement_currency@).len() as usize) <= limits.currency_len
                    &&& multiplier.digits() > 0
                    &&& multiplier.places() <= 9
                    &&& def.size_increment.digits() == ten(def.size_increment.places())
                    &&& def.size_precision == 0
                },
            }
        },
{
}

/// An amount is held by so many decimal places just where it is a whole number of
/// the last of them, as far as the number of them is an amount.
pub proof fn places_hold_their_multiples(value: Dec, places: u8, k: int)
    ensures
        value.digits() * ten(places as nat) == k * ten(value.places()) ==> on_places(value, places)
            != Some(false),
        on_places(value, places) is None ==> places > MAX_SCALE || !is_mantissa(
            value.digits() * ten((places - value.places()) as nat),
        ),
        on_places(value, places) == Some(false) ==> places < value.places(),
{
    if value.digits() * ten(places as nat) == k * ten(value.places()) && places <= MAX_SCALE
        && value.places() > places {
        let d = value.digits();
        let t = ten(places as nat) as int;
        let rest = ten((value.places() - places) as nat) as int;
        ten_adds_up(places as nat, (value.places() - places) as nat);
        ten_is_positive(places as nat);
        ten_is_positive((value.places() - places) as nat);
        assert(places as nat + (value.places() - places) as nat == value.places());
        assert(ten(value.places()) == t * rest);
        assert(d == k * rest) by (nonlinear_arith)
            requires
                d * t == k * (t * rest),
                t > 0,
        ;
        assert((k * rest) % rest == 0) by (nonlinear_arith)
            requires
                rest > 0,
        ;
    }
}

/// Options are accepted just where a future has a margin, which it does not open
/// in breach of, where spot has none, and where no fee is below zero or above a
/// thousand basis points.
pub proof fn options_are_accepted_for_what_they_are(configured: ConfiguredInstrument)
    ensures
        options_error(configured) is None == {
            &&& configured.def.class is Spot ==> configured.margin is None
            &&& configured.def.class is Future ==> {
                &&& configured.margin is Some
                &&& configured.margin->0.maintenance_per_contract.digits() > 0
                &&& !configured.margin->0.initial_per_contract.below(
                    configured.margin->0.maintenance_per_contract,
                )
            }
            &&& configured.fees is Some ==> {
                &&& is_fair(configured.fees->0.maker)
                &&& is_fair(configured.fees->0.taker)
            }
        },
{
}

/// Whether a fee is neither below zero nor above a thousand basis points.
pub open spec fn is_fair(rate: FeeRate) -> bool {
    match rate {
        FeeRate::BasisPoints { rate } => 0 <= rate.digits() && rate.digits() <= 1000 * ten(
            rate.places(),
        ),
        FeeRate::PerContract { amount } => 0 <= amount.digits(),
    }
}

/// What the tape generator refuses is refused for the first that it names, of the
/// scalars, the size grid, the session and the calendar; where it names nothing
/// and nothing else is wrong, there is a profile.
pub proof fn a_generator_is_heard(
    configured: ConfiguredInstrument,
    limits: WireLimits,
    min_size: Dec,
    verdicts: GeneratorVerdicts,
)
    requires
        def_error(configured.def, limits) is None,
        options_error(configured) is None,
        generator_error(settled_generator(configured, min_size), configured.def) is None,
    ensures
        ({
            let error = profile_error(configured, limits, min_size, verdicts);
            let (scalars, grid, session, calendar) = (
                verdicts.scalars,
                verdicts.size_grid,
                verdicts.session,
                verdicts.calendar,
            );
            &&& error is None == (scalars is None && grid is None && session is None && calendar
                is None)
            &&& scalars is Some ==> error == Some(InstrumentError::Scalars(scalars->0))
            &&& scalars is None && grid is Some ==> error == Some(
                InstrumentError::SizeGrid(grid->0),
            )
            &&& scalars is None && grid is None && session is Some ==> error == Some(
                InstrumentError::Session(session->0),
            )
            &&& scalars is None && grid is None && session is None && calendar is Some ==> error
                == Some(InstrumentError::Calendar(calendar->0))
        }),
{
}

/// A generator's settings are accepted just where they have the instrument's
/// increment for their tick and its decimal places, and top sizes that the
/// instrument's places hold and its increment goes into with nothing left.
pub proof fn settings_are_accepted_where_they_agree(generator: Generator, def: InstrumentDef)
    ensures
        generator_error(generator, def) is None == {
            &&& generator.modal_tick.equals(def.price_increment)
            &&& generator.price_decimals == def.price_precision
            &&& fits_the_grid(generator.bid_size, def)
            &&& fits_the_grid(generator.ask_size, def)
        },
{
}

/// Whether an instrument's decimal places hold a size, and its increment goes into
/// it with nothing left.
pub open spec fn fits_the_grid(size: Dec, def: InstrumentDef) -> bool {
    &&& size.places() <= def.size_precision || size.digits() % (ten(
        (size.places() - def.size_precision) as nat,
    ) as int) == 0
    &&& remainder(size, def.size_increment) is Some
    &&& remainder(size, def.size_increment)->0.digits() == 0
}

/// Spot settles in its quote currency and a future in its settlement currency.
pub proof fn each_class_settles_in_its_currency(class: InstrumentClass)
    ensures
        class is Spot ==> class.settles_in() == class->quote@,
        class is Future ==> class.settles_in() == class->settlement_currency@,
{
}

} // verus!
