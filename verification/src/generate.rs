//! Offline generation: what is asked for, over which span, of which instrument,
//! and which of a tape's trades are in it.

use vstd::prelude::*;

use crate::bars::bar_header;
use crate::bars::bar_lines;
use crate::bars::bars_of;
use crate::bars::trade_lines;
use crate::bars::write_bars;
use crate::bars::write_trades;
use crate::calendar::SessionCalendar;
use crate::decimal::Dec;
use crate::duration::duration_of;
use crate::duration::is_read;
use crate::duration::later;
use crate::duration::parse_duration;
use crate::duration::DurationError;
use crate::history::trades_come_first;
use crate::history::trades_of;
use crate::instrument::InstrumentProfile;
use crate::parents::Observation;
use crate::roll::names_view;
use crate::source::served;
use crate::source::InstrumentProfiles;
use crate::summary::is_made;
use crate::summary::left_to_measure;
use crate::summary::summarize;
use crate::summary::walked;
use crate::summary::Scope;
use crate::summary::Summary;
use crate::text::decimal;
use crate::text::push_decimal;
use crate::ticks::TickEvent;
use crate::ticks::TradeTick;

verus! {

/// The seed of a tape, where none is asked for.
pub const DEFAULT_GEN_SEED: u64 = 42;

/// What is written of a tape.
#[derive(Clone, Copy, Debug, PartialEq, Eq, Structural)]
pub enum GenType {
    Trades,
    Bars,
    Summary,
}

/// What is asked for.
#[derive(Debug)]
pub struct GenArgs {
    pub kind: GenType,
    pub length: String,
    pub interval: Option<String>,
    pub warmup: Option<String>,
    pub start: u64,
    pub seed: Option<u64>,
    /// The instrument, where no configuration is named.
    pub symbol: String,
    /// The configuration that states the instrument.
    pub config: Option<String>,
    /// The regime of the tape, where no havoc file is named.
    pub regime: Option<String>,
    /// The havoc file that states the regime.
    pub havoc: Option<String>,
}

/// The span that is written, and the length of its bars.
#[derive(Clone, Copy, Debug, PartialEq, Eq, Structural)]
pub struct Span {
    pub start: u64,
    pub end: u64,
    pub interval: Option<u64>,
}

/// Why nothing is generated.
#[derive(Debug)]
pub enum GenError {
    Length { error: DurationError },
    Interval { error: DurationError },
    Warmup { error: DurationError },
    BarsNeedInterval,
    IntervalWithoutBars,
    WarmupWithoutSummary,
    /// The warmup starts before the epoch.
    WarmupUnderflows { warmup_ns: u64, start: u64 },
    /// An amount of the tape cannot be told.
    OutOfRange,
}

/// The error that keeps a request from being planned, as far as it can be told
/// before the instrument is known; `None` where there is none. The length is
/// read first, then the interval, which only bars have and which they need, and
/// a warmup is only for a summary.
pub open spec fn span_fault(args: GenArgs, error: GenError) -> bool {
    match error {
        GenError::Length { error } => is_read(args.length@, Err(error)),
        GenError::Interval { error } => duration_of(args.length@) is Some && args.kind
            == GenType::Bars && args.interval is Some && is_read(args.interval->0@, Err(error)),
        GenError::BarsNeedInterval => duration_of(args.length@) is Some && args.kind
            == GenType::Bars && args.interval is None,
        GenError::IntervalWithoutBars => duration_of(args.length@) is Some && args.kind
            != GenType::Bars && args.interval is Some,
        GenError::WarmupWithoutSummary => is_paired(args) && args.warmup is Some && args.kind
            != GenType::Summary,
        _ => false,
    }
}

/// Whether the length and the interval of a request are durations, and the
/// interval is there for bars and for nothing else.
pub open spec fn is_paired(args: GenArgs) -> bool {
    &&& duration_of(args.length@) is Some
    &&& args.interval is Some == (args.kind == GenType::Bars)
    &&& args.interval is Some ==> duration_of(args.interval->0@) is Some
}

/// Whether a request can be planned.
pub open spec fn is_planned(args: GenArgs) -> bool {
    is_paired(args) && (args.warmup is Some ==> args.kind == GenType::Summary)
}

/// The span that a request asks for.
pub open spec fn span_of(args: GenArgs) -> Span {
    Span {
        start: args.start,
        end: later(args.start, duration_of(args.length@)->0),
        interval: match args.interval {
            Some(interval) => duration_of(interval@),
            None => None,
        },
    }
}

fn is_bars(kind: GenType) -> (answer: bool)
    ensures
        answer == (kind == GenType::Bars),
{
    match kind {
        GenType::Bars => true,
        _ => false,
    }
}

fn is_summary(kind: GenType) -> (answer: bool)
    ensures
        answer == (kind == GenType::Summary),
{
    match kind {
        GenType::Summary => true,
        _ => false,
    }
}

/// Plans a request, as far as it can be before the instrument is known.
pub fn plan_span(args: &GenArgs) -> (span: Result<Span, GenError>)
    ensures
        match span {
            Ok(span) => is_planned(*args) && span == span_of(*args) && (span.interval is Some
                ==> span.interval->0 > 0),
            Err(error) => !is_planned(*args) && span_fault(*args, error),
        },
{
    let len_ns: u64 = match parse_duration(args.length.as_str()) {
        Ok(ns) => ns,
        Err(error) => {
            return Err(GenError::Length { error });
        },
    };
    let end: u64 = args.start.saturating_add(len_ns);
    let interval: Option<u64> = match &args.interval {
        Some(raw) => {
            if !is_bars(args.kind) {
                return Err(GenError::IntervalWithoutBars);
            }
            match parse_duration(raw.as_str()) {
                Ok(ns) => Some(ns),
                Err(error) => {
                    return Err(GenError::Interval { error });
                },
            }
        },
        None => {
            if is_bars(args.kind) {
                return Err(GenError::BarsNeedInterval);
            }
            None
        },
    };
    if args.warmup.is_some() && !is_summary(args.kind) {
        return Err(GenError::WarmupWithoutSummary);
    }
    Ok(Span { start: args.start, end, interval })
}

/// How long a summary's warmup is.
pub open spec fn warmup_of(args: GenArgs) -> Option<u64> {
    match args.warmup {
        Some(warmup) => duration_of(warmup@),
        None => Some(0),
    }
}

/// Where the walk of a summary starts: exactly one warmup before the span. A
/// warmup that starts before the epoch is refused and not cut short.
pub fn plan_walk(args: &GenArgs) -> (start: Result<u64, GenError>)
    ensures
        match start {
            Ok(start) => warmup_of(*args) is Some && start + warmup_of(*args)->0 == args.start,
            Err(GenError::Warmup { error }) => args.warmup is Some && is_read(
                args.warmup->0@,
                Err(error),
            ),
            Err(GenError::WarmupUnderflows { warmup_ns, start }) => warmup_of(*args) == Some(
                warmup_ns,
            ) && start == args.start && warmup_ns > start,
            Err(_) => false,
        },
        start is Ok == (warmup_of(*args) is Some && warmup_of(*args)->0 <= args.start),
{
    let warmup_ns: u64 = match &args.warmup {
        Some(raw) => match parse_duration(raw.as_str()) {
            Ok(ns) => ns,
            Err(error) => {
                return Err(GenError::Warmup { error });
            },
        },
        None => 0,
    };
    if warmup_ns > args.start {
        return Err(GenError::WarmupUnderflows { warmup_ns, start: args.start });
    }
    Ok(args.start - warmup_ns)
}

/// The seed of the tape.
pub fn seed_of(args: &GenArgs) -> (seed: u64)
    ensures
        seed == match args.seed {
            Some(seed) => seed,
            None => DEFAULT_GEN_SEED,
        },
{
    match args.seed {
        Some(seed) => seed,
        None => DEFAULT_GEN_SEED,
    }
}

impl GenError {
    /// The words for the error.
    pub open spec fn text(self, args: GenArgs) -> Seq<char> {
        match self {
            GenError::Length { error } => "parsing --length: "@ + error.text(args.length@),
            GenError::Interval { error } => "parsing --interval: "@ + error.text(
                args.interval->0@,
            ),
            GenError::Warmup { error } => "parsing --warmup: "@ + error.text(args.warmup->0@),
            GenError::BarsNeedInterval => "--type bars requires --interval"@,
            GenError::IntervalWithoutBars => "--interval is only valid with --type bars"@,
            GenError::WarmupWithoutSummary => "--warmup is only valid with --type summary"@,
            GenError::WarmupUnderflows { warmup_ns, start } => "--warmup "@ + decimal(
                warmup_ns as nat,
            ) + "ns underflows --start "@ + decimal(start as nat)
                + "; the walk must begin at exactly start - warmup"@,
            GenError::OutOfRange => "an amount of the tape is out of range"@,
        }
    }

    /// The words for the error.
    pub fn message(&self, args: &GenArgs) -> (words: String)
        requires
            self is Interval ==> args.interval is Some,
            self is Warmup ==> args.warmup is Some,
        ensures
            words@ == self.text(*args),
    {
        let mut words = String::new();
        match self {
            GenError::Length { error } => {
                words.append("parsing --length: ");
                words.append(error.message(args.length.as_str()).as_str());
            },
            GenError::Interval { error } => {
                words.append("parsing --interval: ");
                if let Some(raw) = &args.interval {
                    words.append(error.message(raw.as_str()).as_str());
                }
            },
            GenError::Warmup { error } => {
                words.append("parsing --warmup: ");
                if let Some(raw) = &args.warmup {
                    words.append(error.message(raw.as_str()).as_str());
                }
            },
            GenError::BarsNeedInterval => words.append("--type bars requires --interval"),
            GenError::IntervalWithoutBars => words.append(
                "--interval is only valid with --type bars",
            ),
            GenError::WarmupWithoutSummary => words.append(
                "--warmup is only valid with --type summary",
            ),
            GenError::WarmupUnderflows { warmup_ns, start } => {
                words.append("--warmup ");
                push_decimal(&mut words, *warmup_ns as u128);
                words.append("ns underflows --start ");
                push_decimal(&mut words, *start as u128);
                words.append("; the walk must begin at exactly start - warmup");
            },
            GenError::OutOfRange => words.append("an amount of the tape is out of range"),
        }
        assert(words@ =~= self.text(*args));
        words
    }
}

/// The trades before the first one that is not before the end.
pub open spec fn before_end(trades: Seq<TradeTick>, end: u64) -> Seq<TradeTick>
    decreases trades.len(),
{
    if trades.len() == 0 || trades[0].ts_event >= end {
        Seq::empty()
    } else {
        seq![trades[0]] + before_end(trades.drop_first(), end)
    }
}

/// The trades that are not before the start.
pub open spec fn from_start(trades: Seq<TradeTick>, start: u64) -> Seq<TradeTick>
    decreases trades.len(),
{
    if trades.len() == 0 {
        Seq::empty()
    } else {
        let before = from_start(trades.drop_last(), start);
        if trades.last().ts_event >= start {
            before.push(trades.last())
        } else {
            before
        }
    }
}

proof fn before_end_goes_on(trades: Seq<TradeTick>, end: u64, i: int)
    requires
        0 <= i <= trades.len(),
        forall|k: int| 0 <= k < i ==> (#[trigger] trades[k]).ts_event < end,
    ensures
        before_end(trades, end) == trades.take(i) + before_end(trades.skip(i), end),
    decreases i,
{
    if i == 0 {
        assert(trades.skip(0) =~= trades);
        assert(before_end(trades, end) =~= trades.take(0) + before_end(trades.skip(0), end));
    } else {
        assert(trades[0].ts_event < end);
        assert forall|k: int| 0 <= k < i - 1 implies (#[trigger] trades.drop_first()[k]).ts_event
            < end by {
            assert(trades.drop_first()[k] == trades[k + 1]);
        }
        before_end_goes_on(trades.drop_first(), end, i - 1);
        assert(trades.drop_first().skip(i - 1) =~= trades.skip(i));
        assert(before_end(trades, end) =~= trades.take(i) + before_end(trades.skip(i), end));
    }
}

/// The trades of a tape that bars are made of: all before the end.
pub fn trades_before(ticks: &Vec<TickEvent>, end: u64) -> (trades: Vec<TradeTick>)
    ensures
        trades@ == before_end(trades_of(ticks@), end),
{
    let mut trades: Vec<TradeTick> = Vec::new();
    let mut i: usize = 0;
    while i < ticks.len()
        invariant
            i <= ticks.len(),
            trades@ == trades_of(ticks@.take(i as int)),
            forall|k: int| 0 <= k < trades@.len() ==> (#[trigger] trades@[k]).ts_event < end,
        decreases ticks.len() - i,
    {
        proof {
            assert(ticks@.take(i + 1).drop_last() =~= ticks@.take(i as int));
        }
        if let TickEvent::Trade(trade) = ticks[i] {
            if trade.ts_event >= end {
                proof {
                    let all = trades_of(ticks@);
                    let n = trades@.len() as int;
                    trades_come_first(ticks@, i + 1, ticks@.len() as int);
                    assert(ticks@.take(ticks@.len() as int) =~= ticks@);
                    let early = trades_of(ticks@.take(i + 1));
                    assert(early =~= trades@.push(trade));
                    assert forall|k: int| 0 <= k < early.len() implies all[k] == early[k] by {
                        assert(all.take(early.len() as int)[k] == early[k]);
                    }
                    assert forall|k: int| 0 <= k < n implies (#[trigger] all[k]).ts_event < end by {
                        assert(all[k] == early[k]);
                    }
                    before_end_goes_on(all, end, n);
                    assert(all[n] == early[n]);
                    assert(all.skip(n)[0] == all[n]);
                    assert(all.take(n) =~= trades@);
                    assert(before_end(all, end) =~= trades@);
                }
                return trades;
            }
            trades.push(trade);
        }
        i += 1;
    }
    proof {
        assert(ticks@.take(i as int) =~= ticks@);
        before_end_goes_on(trades@, end, trades@.len() as int);
        assert(trades@.take(trades@.len() as int) =~= trades@);
        assert(before_end(trades@, end) =~= trades@);
    }
    trades
}

/// The trades of a tape that are written: those of the span.
pub fn trades_within(ticks: &Vec<TickEvent>, start: u64, end: u64) -> (trades: Vec<TradeTick>)
    ensures
        trades@ == from_start(before_end(trades_of(ticks@), end), start),
{
    let all = trades_before(ticks, end);
    let mut trades: Vec<TradeTick> = Vec::new();
    let mut i: usize = 0;
    while i < all.len()
        invariant
            i <= all.len(),
            trades@ == from_start(all@.take(i as int), start),
        decreases all.len() - i,
    {
        assert(all@.take(i + 1).drop_last() =~= all@.take(i as int));
        if all[i].ts_event >= start {
            trades.push(all[i]);
        }
        i += 1;
    }
    assert(all@.take(i as int) =~= all@);
    trades
}

/// What is said of a symbol that nothing knows.
pub open spec fn unknown_text(symbol: Seq<char>) -> Seq<char> {
    "unknown symbol "@ + symbol
        + ": not a built-in venue symbol and not an embedded preset"@
}

/// What is made of a tape.
pub enum Written {
    /// Trades or bars, line by line.
    Rows { text: String },
    /// What was counted, and what is to be measured.
    Summed { summary: Summary, observations: Vec<Observation> },
}

/// What a summary of a request is of.
pub open spec fn scope_of(
    args: GenArgs,
    tick: Dec,
    calendar: Option<SessionCalendar>,
) -> Scope {
    Scope { tick, calendar, start: args.start, end: span_of(args).end }
}

/// Whether something is what a planned request asks for of a tape; `None` where
/// an amount of it cannot be told.
pub open spec fn is_written(
    args: GenArgs,
    ticks: Seq<TickEvent>,
    tick: Dec,
    calendar: Option<SessionCalendar>,
    written: Option<Written>,
) -> bool {
    let span = span_of(args);
    let trades = before_end(trades_of(ticks), span.end);
    match args.kind {
        GenType::Trades => written matches Some(Written::Rows { text }) && text@
            == "ts_event,price,size,aggressor\n"@ + trade_lines(from_start(trades, span.start)),
        GenType::Bars => match bars_of(trades, span.start, span.end, span.interval->0) {
            Some(bars) => written matches Some(Written::Rows { text }) && text@ == bar_header()
                + bar_lines(bars, span.interval->0),
            None => written is None,
        },
        GenType::Summary => match walked(ticks, scope_of(args, tick, calendar)) {
            Some((held, seen)) => written matches Some(
                Written::Summed { summary, observations },
            ) && is_made(summary, held, scope_of(args, tick, calendar)) && observations@ == seen
                + left_to_measure(held, scope_of(args, tick, calendar)),
            None => written is None,
        },
    }
}

/// Plans a request and makes what it asks for of a tape, read from where the
/// walk starts on.
pub fn run_into(
    args: &GenArgs,
    ticks: &Vec<TickEvent>,
    tick: Dec,
    calendar: Option<SessionCalendar>,
) -> (run: Result<Written, GenError>)
    requires
        is_planned(*args) && args.kind == GenType::Summary ==> span_of(*args).end < u64::MAX,
    ensures
        match run {
            Ok(written) => {
                &&& is_planned(*args)
                &&& warmup_of(*args) is Some && warmup_of(*args)->0 <= args.start
                &&& is_written(*args, ticks@, tick, calendar, Some(written))
            },
            Err(GenError::OutOfRange) => {
                &&& is_planned(*args)
                &&& warmup_of(*args) is Some && warmup_of(*args)->0 <= args.start
                &&& is_written(*args, ticks@, tick, calendar, None)
            },
            Err(GenError::Warmup { error }) => is_planned(*args) && args.warmup is Some
                && is_read(args.warmup->0@, Err(error)),
            Err(GenError::WarmupUnderflows { warmup_ns, start }) => is_planned(*args)
                && warmup_of(*args) == Some(warmup_ns) && start == args.start && warmup_ns > start,
            Err(error) => !is_planned(*args) && span_fault(*args, error),
        },
{
    let span = match plan_span(args) {
        Ok(span) => span,
        Err(error) => {
            return Err(error);
        },
    };
    match plan_walk(args) {
        Ok(_) => {},
        Err(error) => {
            return Err(error);
        },
    }
    match args.kind {
        GenType::Trades => Ok(
            Written::Rows { text: write_trades(&trades_within(ticks, span.start, span.end)) },
        ),
        GenType::Bars => {
            let interval: u64 = match span.interval {
                Some(interval) => interval,
                None => {
                    return Err(GenError::BarsNeedInterval);
                },
            };
            match write_bars(&trades_before(ticks, span.end), span.start, span.end, interval) {
                Some(text) => Ok(Written::Rows { text }),
                None => Err(GenError::OutOfRange),
            }
        },
        GenType::Summary => {
            let scope = Scope { tick, calendar, start: span.start, end: span.end };
            match summarize(ticks, scope) {
                Some((summary, observations)) => Ok(Written::Summed { summary, observations }),
                None => Err(GenError::OutOfRange),
            }
        },
    }
}

/// The profile of a symbol: the venue's own, or else that of the preset of this
/// name, where there is one.
pub fn resolve_profile<'a>(
    symbol: &str,
    built_in: &'a InstrumentProfiles,
    preset: Option<&'a InstrumentProfile>,
) -> (profile: Result<&'a InstrumentProfile, String>)
    ensures
        match profile {
            Ok(profile) => if built_in@.dom().contains(symbol@) {
                *profile == built_in@[symbol@]
            } else {
                preset == Some(profile)
            },
            Err(words) => !built_in@.dom().contains(symbol@) && preset is None && words@
                == unknown_text(symbol@),
        },
{
    if let Some(profile) = built_in.get(symbol) {
        return Ok(profile);
    }
    match preset {
        Some(profile) => Ok(profile),
        None => {
            let mut words = "unknown symbol ".to_owned();
            words.append(symbol);
            words.append(": not a built-in venue symbol and not an embedded preset");
            Err(words)
        },
    }
}

/// What is said of a configuration that a profile cannot be taken from; `None`
/// for one that it can.
pub open spec fn config_text(path: Seq<char>, has_instrument: bool, resolved: nat) -> Option<
    Seq<char>,
> {
    if !has_instrument {
        Some(
            "--config "@ + path
                + " carries no [instrument] table; a scratch profile must configure one"@,
        )
    } else if resolved != 1 {
        Some(
            "--config resolved "@ + decimal(resolved) + " instruments, expected exactly one"@,
        )
    } else {
        None
    }
}

/// The one profile of a configuration, which has to configure an instrument.
pub fn profile_from_config<'a>(
    path: &str,
    has_instrument: bool,
    profiles: &'a InstrumentProfiles,
) -> (profile: Result<&'a InstrumentProfile, String>)
    ensures
        ({
            let said = config_text(path@, has_instrument, served(profiles@).len());
            match profile {
                Ok(profile) => said is None && *profile == profiles@[served(profiles@)[0]],
                Err(words) => said == Some(words@),
            }
        }),
{
    if !has_instrument {
        let mut words = "--config ".to_owned();
        words.append(path);
        words.append(" carries no [instrument] table; a scratch profile must configure one");
        return Err(words);
    }
    let symbols = profiles.served_symbols();
    let n: usize = symbols.len();
    if n == 1 {
        proof {
            assert(names_view(symbols@).contains(names_view(symbols@)[0]));
        }
        if let Some(profile) = profiles.get(symbols[0].as_str()) {
            return Ok(profile);
        }
    }
    let mut words = "--config resolved ".to_owned();
    push_decimal(&mut words, n as u128);
    words.append(" instruments, expected exactly one");
    Err(words)
}

/// The profile that a request is for: that of its configuration, where it names
/// one, and else that of its symbol.
pub fn resolve_profile_for<'a>(
    args: &GenArgs,
    has_instrument: bool,
    configured: &'a InstrumentProfiles,
    built_in: &'a InstrumentProfiles,
    preset: Option<&'a InstrumentProfile>,
) -> (profile: Result<&'a InstrumentProfile, String>)
    ensures
        match args.config {
            Some(path) => {
                let said = config_text(path@, has_instrument, served(configured@).len());
                match profile {
                    Ok(profile) => said is None && *profile == configured@[served(configured@)[0]],
                    Err(words) => said == Some(words@),
                }
            },
            None => match profile {
                Ok(profile) => if built_in@.dom().contains(args.symbol@) {
                    *profile == built_in@[args.symbol@]
                } else {
                    preset == Some(profile)
                },
                Err(words) => !built_in@.dom().contains(args.symbol@) && preset is None && words@
                    == unknown_text(args.symbol@),
            },
        },
{
    match &args.config {
        Some(path) => profile_from_config(path.as_str(), has_instrument, configured),
        None => resolve_profile(args.symbol.as_str(), built_in, preset),
    }
}

/// Where the regime of a tape comes from.
#[derive(Clone, Debug, PartialEq, Eq)]
pub enum RegimeSource {
    /// A havoc file.
    Havoc { path: String },
    /// The words of the request.
    Stated { words: String },
    /// There is none.
    Calm,
}

/// Where the regime of a request comes from: a havoc file before all else.
pub fn resolve_regime(args: &GenArgs) -> (source: RegimeSource)
    ensures
        match args.havoc {
            Some(path) => source == (RegimeSource::Havoc { path }),
            None => match args.regime {
                Some(words) => source == (RegimeSource::Stated { words }),
                None => source is Calm,
            },
        },
{
    match &args.havoc {
        Some(path) => RegimeSource::Havoc { path: path.clone() },
        None => match &args.regime {
            Some(words) => RegimeSource::Stated { words: words.clone() },
            None => RegimeSource::Calm,
        },
    }
}

/// What the wire's own rules say against the parts of a havoc file, and what it
/// holds besides the market's regime.
#[derive(Debug)]
pub struct HavocVerdicts {
    pub client: Option<String>,
    pub conn: Option<String>,
    pub server: Option<String>,
    pub data: Option<String>,
    pub client_is_default: bool,
    pub conn_is_default: bool,
    pub server_len: usize,
}

/// What is said of a havoc file that is refused as a whole, though only its
/// regime is used: the first part that is not valid.
pub open spec fn havoc_text(verdicts: HavocVerdicts) -> Option<Seq<char>> {
    match verdicts.client {
        Some(reason) => Some("invalid client havoc: "@ + reason@),
        None => match verdicts.conn {
            Some(reason) => Some("invalid conn havoc: "@ + reason@),
            None => match verdicts.server {
                Some(reason) => Some("invalid server divergence: "@ + reason@),
                None => match verdicts.data {
                    Some(reason) => Some("invalid regime: "@ + reason@),
                    None => None,
                },
            },
        },
    }
}

/// Whether a havoc file holds what no tape written offline can show.
pub fn havoc_has_offline_inapplicable_surfaces(verdicts: &HavocVerdicts) -> (answer: bool)
    ensures
        answer == (!verdicts.client_is_default || !verdicts.conn_is_default || verdicts.server_len
            > 0),
{
    !verdicts.client_is_default || !verdicts.conn_is_default || verdicts.server_len > 0
}

/// Checks a havoc file, and says whether it holds what is left out offline.
pub fn resolve_havoc_regime(verdicts: &HavocVerdicts) -> (checked: Result<bool, String>)
    ensures
        match checked {
            Ok(noted) => havoc_text(*verdicts) is None && noted == (!verdicts.client_is_default
                || !verdicts.conn_is_default || verdicts.server_len > 0),
            Err(words) => havoc_text(*verdicts) == Some(words@),
        },
{
    if let Some(reason) = &verdicts.client {
        let mut words = "invalid client havoc: ".to_owned();
        words.append(reason.as_str());
        return Err(words);
    }
    if let Some(reason) = &verdicts.conn {
        let mut words = "invalid conn havoc: ".to_owned();
        words.append(reason.as_str());
        return Err(words);
    }
    if let Some(reason) = &verdicts.server {
        let mut words = "invalid server divergence: ".to_owned();
        words.append(reason.as_str());
        return Err(words);
    }
    if let Some(reason) = &verdicts.data {
        let mut words = "invalid regime: ".to_owned();
        words.append(reason.as_str());
        return Err(words);
    }
    Ok(havoc_has_offline_inapplicable_surfaces(verdicts))
}

/// Every trade that is written lies within the span.
pub proof fn written_trades_keep_to_the_span(trades: Seq<TradeTick>, start: u64, end: u64)
    ensures
        forall|i: int|
            0 <= i < from_start(before_end(trades, end), start).len() ==> start <= (
            #[trigger] from_start(before_end(trades, end), start)[i]).ts_event < end,
{
    all_before_end(trades, end);
    all_from_start(before_end(trades, end), start, end);
}

proof fn all_before_end(trades: Seq<TradeTick>, end: u64)
    ensures
        forall|i: int|
            0 <= i < before_end(trades, end).len() ==> (#[trigger] before_end(trades, end)[i]).ts_event
                < end,
    decreases trades.len(),
{
    if trades.len() > 0 && trades[0].ts_event < end {
        all_before_end(trades.drop_first(), end);
        let rest = before_end(trades.drop_first(), end);
        let all = before_end(trades, end);
        assert forall|i: int| 0 <= i < all.len() implies (#[trigger] all[i]).ts_event < end by {
            if i > 0 {
                assert(all[i] == rest[i - 1]);
            }
        }
    }
}

proof fn all_from_start(trades: Seq<TradeTick>, start: u64, end: u64)
    requires
        forall|i: int| 0 <= i < trades.len() ==> (#[trigger] trades[i]).ts_event < end,
    ensures
        forall|i: int|
            0 <= i < from_start(trades, start).len() ==> start <= (#[trigger] from_start(
                trades,
                start,
            )[i]).ts_event < end,
    decreases trades.len(),
{
    if trades.len() > 0 {
        assert forall|i: int| 0 <= i < trades.drop_last().len() implies (
        #[trigger] trades.drop_last()[i]).ts_event < end by {
            assert(trades.drop_last()[i] == trades[i]);
        }
        all_from_start(trades.drop_last(), start, end);
        let early = from_start(trades.drop_last(), start);
        let all = from_start(trades, start);
        assert(trades.last() == trades[trades.len() - 1]);
        assert forall|i: int| 0 <= i < all.len() implies start <= (#[trigger] all[i]).ts_event
            < end by {
            if i < early.len() {
                assert(all[i] == early[i]);
            }
        }
    }
}

proof fn before_end_is_a_front(trades: Seq<TradeTick>, end: u64, n: int)
    requires
        0 <= n <= trades.len(),
        forall|k: int| 0 <= k < n ==> (#[trigger] trades[k]).ts_event < end,
        n < trades.len() ==> trades[n].ts_event >= end,
    ensures
        before_end(trades, end) == trades.take(n),
    decreases n,
{
    if n > 0 {
        assert(trades[0].ts_event < end);
        let rest = trades.drop_first();
        assert forall|k: int| 0 <= k < n - 1 implies (#[trigger] rest[k]).ts_event < end by {
            assert(rest[k] == trades[k + 1]);
        }
        if n < trades.len() {
            assert(rest[n - 1] == trades[n]);
        }
        before_end_is_a_front(rest, end, n - 1);
        assert(seq![trades[0]] + rest.take(n - 1) =~= trades.take(n));
    } else {
        assert(trades.take(0) =~= Seq::empty());
    }
}

proof fn from_start_is_a_choice(trades: Seq<TradeTick>, start: u64)
    ensures
        from_start(trades, start) == trades.filter(|trade: TradeTick| trade.ts_event >= start),
    decreases trades.len(),
{
    reveal(Seq::filter);
    if trades.len() > 0 {
        from_start_is_a_choice(trades.drop_last(), start);
    }
}

/// No trade of the span is left out of what is written: it is every trade that
/// comes before the first one past the span and is not before it, in its order.
pub proof fn written_trades_leave_out_none(
    trades: Seq<TradeTick>,
    start: u64,
    end: u64,
    n: int,
)
    requires
        0 <= n <= trades.len(),
        forall|k: int| 0 <= k < n ==> (#[trigger] trades[k]).ts_event < end,
        n < trades.len() ==> trades[n].ts_event >= end,
    ensures
        before_end(trades, end) == trades.take(n),
        from_start(before_end(trades, end), start) == trades.take(n).filter(
            |trade: TradeTick| trade.ts_event >= start,
        ),
        forall|k: int|
            0 <= k < n && (#[trigger] trades[k]).ts_event >= start ==> from_start(
                before_end(trades, end),
                start,
            ).contains(trades[k]),
{
    before_end_is_a_front(trades, end, n);
    from_start_is_a_choice(trades.take(n), start);
    let held = trades.take(n);
    let late = |trade: TradeTick| trade.ts_event >= start;
    assert forall|k: int| 0 <= k < n && (#[trigger] trades[k]).ts_event >= start implies from_start(
        held,
        start,
    ).contains(trades[k]) by {
        assert(held[k] == trades[k]);
        held.filter_lemma(late);
    }
}

/// A span starts where it is asked to and lasts as long, as far as the clock can
/// tell; bars have the interval that is asked for, and nothing else has one.
pub proof fn a_span_is_as_asked(args: GenArgs)
    requires
        is_planned(args),
    ensures
        duration_of(args.length@) is Some,
        span_of(args).start == args.start,
        args.start + duration_of(args.length@)->0 <= u64::MAX ==> span_of(args).end == args.start
            + duration_of(args.length@)->0,
        args.start + duration_of(args.length@)->0 > u64::MAX ==> span_of(args).end == u64::MAX,
        args.kind == GenType::Bars ==> args.interval is Some && duration_of(args.interval->0@)
            is Some && span_of(args).interval == duration_of(args.interval->0@),
        args.kind != GenType::Bars ==> args.interval is None && span_of(args).interval is None,
        args.warmup is Some ==> args.kind == GenType::Summary,
{
}

/// The first part of a havoc file that is not valid is what the file is refused
/// for, in the order of its client, its connections, its server and its data; a
/// file whose parts are all valid is not refused.
pub proof fn the_first_invalid_part_is_named(verdicts: HavocVerdicts)
    ensures
        havoc_text(verdicts) is None == (verdicts.client is None && verdicts.conn is None
            && verdicts.server is None && verdicts.data is None),
        verdicts.client is Some ==> havoc_text(verdicts) == Some(
            "invalid client havoc: "@ + verdicts.client->0@,
        ),
        verdicts.client is None && verdicts.conn is Some ==> havoc_text(verdicts) == Some(
            "invalid conn havoc: "@ + verdicts.conn->0@,
        ),
        verdicts.client is None && verdicts.conn is None && verdicts.server is Some ==> havoc_text(
            verdicts,
        ) == Some("invalid server divergence: "@ + verdicts.server->0@),
        verdicts.client is None && verdicts.conn is None && verdicts.server is None && verdicts.data
            is Some ==> havoc_text(verdicts) == Some("invalid regime: "@ + verdicts.data->0@),
{
}

/// A profile is taken from a configuration just where that configures one
/// instrument and no more.
pub proof fn a_profile_is_of_one_instrument(
    path: Seq<char>,
    has_instrument: bool,
    resolved: nat,
)
    ensures
        config_text(path, has_instrument, resolved) is None == (has_instrument && resolved == 1),
{
}

/// What is written is of the span that is asked for and of the kind that is asked
/// for: every trade of it, its bars, or its summary.
pub proof fn what_is_written_is_what_is_asked_for(
    args: GenArgs,
    ticks: Seq<TickEvent>,
    tick: Dec,
    calendar: Option<SessionCalendar>,
    written: Option<Written>,
    n: int,
)
    requires
        is_planned(args),
        is_written(args, ticks, tick, calendar, written),
        0 <= n <= trades_of(ticks).len(),
        forall|k: int|
            0 <= k < n ==> (#[trigger] trades_of(ticks)[k]).ts_event < span_of(args).end,
        n < trades_of(ticks).len() ==> trades_of(ticks)[n].ts_event >= span_of(args).end,
    ensures
        args.kind == GenType::Trades ==> written is Some && written->0 is Rows && written->0->text@
            == "ts_event,price,size,aggressor\n"@ + trade_lines(
            trades_of(ticks).take(n).filter(|trade: TradeTick| trade.ts_event >= args.start),
        ),
        args.kind == GenType::Bars ==> {
            let bars = bars_of(
                trades_of(ticks).take(n),
                args.start,
                span_of(args).end,
                duration_of(args.interval->0@)->0,
            );
            &&& written is Some == bars is Some
            &&& bars is Some ==> written->0 is Rows && written->0->text@ == bar_header()
                + bar_lines(bars->0, duration_of(args.interval->0@)->0)
        },
        args.kind == GenType::Summary ==> {
            let scope = Scope { tick, calendar, start: args.start, end: span_of(args).end };
            let walk = walked(ticks, scope);
            &&& written is Some == walk is Some
            &&& walk is Some ==> written->0 is Summed && is_made(
                written->0->summary,
                (walk->0).0,
                scope,
            ) && written->0->observations@ == (walk->0).1 + left_to_measure((walk->0).0, scope)
        },
{
    written_trades_leave_out_none(trades_of(ticks), args.start, span_of(args).end, n);
}

/// A span is planned just where its length can be read, where an interval that can
/// be read is given with bars and none with anything else, and where a warmup is
/// given with nothing but a summary. What it is refused for is what is wrong with
/// it.
pub proof fn a_span_is_planned_where_it_can_be(args: GenArgs, error: GenError)
    ensures
        is_planned(args) == {
            &&& duration_of(args.length@) is Some
            &&& args.kind == GenType::Bars ==> args.interval is Some && duration_of(
                args.interval->0@,
            ) is Some
            &&& args.kind != GenType::Bars ==> args.interval is None
            &&& args.kind != GenType::Summary ==> args.warmup is None
        },
        span_fault(args, GenError::BarsNeedInterval) ==> args.kind == GenType::Bars
            && args.interval is None,
        span_fault(args, GenError::IntervalWithoutBars) ==> args.kind != GenType::Bars
            && args.interval is Some,
        span_fault(args, GenError::WarmupWithoutSummary) ==> args.kind != GenType::Summary
            && args.warmup is Some,
        args.warmup is None ==> warmup_of(args) == Some(0u64),
        args.warmup is Some ==> warmup_of(args) == duration_of(args.warmup->0@),
{
}

} // verus!
