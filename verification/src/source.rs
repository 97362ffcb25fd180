//! The instruments that a run serves, and how far back into their tapes the
//! venue reads.

use vstd::prelude::*;

use crate::decimal::Dec;
use crate::duration::later;
use crate::instrument::profile_error;
use crate::instrument::profile_from_configured;
use crate::instrument::profile_of;
use crate::instrument::ConfiguredInstrument;
use crate::instrument::GeneratorVerdicts;
use crate::instrument::InstrumentDef;
use crate::instrument::InstrumentError;
use crate::instrument::InstrumentProfile;
use crate::instrument::WireLimits;
use crate::ranked::an_ascending_list_is_known_by_its_names;
use crate::ranked::ascending;
use crate::ranked::put_in_order;
use crate::roll::names_view;
use crate::roll::Roll;
use crate::text::decimal;
use crate::text::push_decimal;
use crate::text::same_text;
use crate::ticks::TickEvent;

verus! {

/// The instruments that a run serves, by their symbols.
pub struct InstrumentProfiles {
    by_symbol: Roll<InstrumentProfile>,
}

/// The profiles by their symbols: of two with one symbol, the later.
pub open spec fn by_symbol(profiles: Seq<InstrumentProfile>) -> Map<Seq<char>, InstrumentProfile>
    decreases profiles.len(),
{
    if profiles.len() == 0 {
        Map::empty()
    } else {
        by_symbol(profiles.drop_last()).insert(profiles.last().def.symbol@, profiles.last())
    }
}

/// Whether a list is that of the symbols, ascending.
pub open spec fn lists_symbols(
    names: Seq<Seq<char>>,
    profiles: Map<Seq<char>, InstrumentProfile>,
) -> bool {
    &&& ascending(names)
    &&& forall|name: Seq<char>| #[trigger] names.contains(name) == profiles.dom().contains(name)
}

/// The symbols that are served, ascending.
pub open spec fn served(profiles: Map<Seq<char>, InstrumentProfile>) -> Seq<Seq<char>> {
    choose|names: Seq<Seq<char>>| lists_symbols(names, profiles)
}

/// There is one ascending list of the symbols.
pub proof fn symbols_are_listed_one_way(
    names: Seq<Seq<char>>,
    profiles: Map<Seq<char>, InstrumentProfile>,
)
    requires
        lists_symbols(names, profiles),
    ensures
        served(profiles) == names,
{
    assert(lists_symbols(served(profiles), profiles));
    let other = served(profiles);
    assert forall|name: Seq<char>| #[trigger] names.contains(name) == other.contains(name) by {
        assert(names.contains(name) == profiles.dom().contains(name));
        assert(other.contains(name) == profiles.dom().contains(name));
    }
    an_ascending_list_is_known_by_its_names(names, other);
}

impl View for InstrumentProfiles {
    type V = Map<Seq<char>, InstrumentProfile>;

    closed spec fn view(&self) -> Map<Seq<char>, InstrumentProfile> {
        self.by_symbol@
    }
}

impl InstrumentProfiles {
    #[verifier::type_invariant]
    spec fn filed(self) -> bool {
        forall|symbol: Seq<char>| #[trigger]
            self.by_symbol@.dom().contains(symbol) ==> self.by_symbol@[symbol].def.symbol@ == symbol
    }

    /// Files profiles by their symbols.
    pub fn from_profiles(profiles: Vec<InstrumentProfile>) -> (filed: InstrumentProfiles)
        ensures
            filed@ == by_symbol(profiles@),
    {
        let ghost all = profiles@;
        let mut rest = profiles;
        let mut filed: Roll<InstrumentProfile> = Roll::new();
        let ghost mut i: int = 0;
        while rest.len() > 0
            invariant
                0 <= i <= all.len(),
                rest@ == all.skip(i),
                filed@ == by_symbol(all.take(i)),
                forall|symbol: Seq<char>| #[trigger]
                    filed@.dom().contains(symbol) ==> filed@[symbol].def.symbol@ == symbol,
            decreases rest.len(),
        {
            let profile = rest.remove(0);
            proof {
                assert(rest@ =~= all.skip(i + 1));
                assert(profile == all[i]);
                assert(all.take(i + 1).drop_last() =~= all.take(i));
            }
            match filed.find(profile.def.symbol.as_str()) {
                Some(at) => {
                    filed.replace(at, profile);
                },
                None => {
                    filed.enrol(profile.def.symbol.as_str().to_owned(), profile);
                },
            }
            proof {
                i = i + 1;
            }
        }
        assert(all.take(i) =~= all);
        InstrumentProfiles { by_symbol: filed }
    }

    /// The profile with exactly this symbol.
    pub fn get(&self, symbol: &str) -> (profile: Option<&InstrumentProfile>)
        ensures
            profile is Some == self@.dom().contains(symbol@),
            profile is Some ==> *profile->0 == self@[symbol@] && profile->0.def.symbol@ == symbol@,
    {
        proof {
            use_type_invariant(self);
        }
        self.by_symbol.get(symbol)
    }

    /// Every symbol that is served, ascending.
    pub fn served_symbols(&self) -> (symbols: Vec<String>)
        ensures
            names_view(symbols@) == served(self@),
            lists_symbols(names_view(symbols@), self@),
    {
        let n: usize = self.by_symbol.len();
        let mut symbols: Vec<String> = Vec::new();
        let mut i: usize = 0;
        while i < n
            invariant
                i <= n,
                n == self.by_symbol.order().len(),
                ascending(names_view(symbols@)),
                forall|name: Seq<char>| #[trigger]
                    names_view(symbols@).contains(name) == self.by_symbol.order().take(
                        i as int,
                    ).contains(name),
            decreases n - i,
        {
            let ghost order = self.by_symbol.order();
            let ghost before = symbols@;
            put_in_order(&mut symbols, self.by_symbol.name(i).as_str());
            proof {
                assert forall|name: Seq<char>| #[trigger]
                    names_view(symbols@).contains(name) == order.take(i + 1).contains(name) by {
                    let now = order.take(i + 1);
                    assert(now =~= order.take(i as int).push(order[i as int]));
                    if order.take(i as int).contains(name) {
                        let k = choose|k: int|
                            0 <= k < order.take(i as int).len() && order.take(i as int)[k] == name;
                        assert(now[k] == name);
                    }
                    assert(now[i as int] == order[i as int]);
                }
            }
            i += 1;
        }
        assert(self.by_symbol.order().take(n as int) =~= self.by_symbol.order());
        proof {
            symbols_are_listed_one_way(names_view(symbols@), self@);
        }
        symbols
    }

    /// Every instrument, in the order of the symbols.
    pub fn instrument_defs(&self) -> (defs: Vec<&InstrumentDef>)
        ensures
            defs@.len() == served(self@).len(),
            forall|i: int|
                0 <= i < defs@.len() ==> *#[trigger] defs@[i] == self@[served(self@)[i]].def,
    {
        let symbols = self.served_symbols();
        let ghost names = names_view(symbols@);
        let mut defs: Vec<&InstrumentDef> = Vec::new();
        let mut i: usize = 0;
        while i < symbols.len()
            invariant
                i <= symbols.len(),
                names == names_view(symbols@),
                lists_symbols(names, self@),
                names == served(self@),
                defs.len() == i,
                forall|k: int| 0 <= k < i ==> *#[trigger] defs@[k] == self@[names[k]].def,
            decreases symbols.len() - i,
        {
            assert(names.contains(names[i as int]));
            if let Some(profile) = self.get(symbols[i].as_str()) {
                defs.push(&profile.def);
            }
            i += 1;
        }
        defs
    }
}

/// The instruments of a run: the one that is configured, with the least size on
/// its grid and what the tape generator says of it, or else the venue's own.
pub fn build_instrument_profiles(
    offered: Option<(ConfiguredInstrument, Dec, GeneratorVerdicts)>,
    limits: WireLimits,
    defaults: InstrumentProfiles,
) -> (built: Result<InstrumentProfiles, InstrumentError>)
    ensures
        match offered {
            None => built is Ok && built->Ok_0@ == defaults@,
            Some((configured, min_size, verdicts)) => match profile_error(
                configured,
                limits,
                min_size,
                verdicts,
            ) {
                Some(error) => built == Err::<InstrumentProfiles, InstrumentError>(error),
                None => built is Ok && built->Ok_0@ == Map::<
                    Seq<char>,
                    InstrumentProfile,
                >::empty().insert(configured.def.symbol@, profile_of(configured, min_size)),
            },
        },
{
    match offered {
        None => Ok(defaults),
        Some((configured, min_size, verdicts)) => {
            match profile_from_configured(configured, limits, min_size, verdicts) {
                Err(error) => Err(error),
                Ok(profile) => {
                    let mut profiles: Vec<InstrumentProfile> = Vec::new();
                    profiles.push(profile);
                    proof {
                        assert(profiles@.drop_last() =~= Seq::<InstrumentProfile>::empty());
                        assert(by_symbol(profiles@.drop_last()) == Map::<
                            Seq<char>,
                            InstrumentProfile,
                        >::empty());
                    }
                    Ok(InstrumentProfiles::from_profiles(profiles))
                },
            }
        },
    }
}

/// Whether the run's one tape is that of a symbol: the symbol is served, and
/// the tape, where it is fixed already, is its own.
pub fn has_tape(symbol: &str, profiles: &InstrumentProfiles, fixed: Option<&str>) -> (answer: bool)
    ensures
        answer == (profiles@.dom().contains(symbol@) && (fixed is Some ==> fixed->0@ == symbol@)),
{
    if profiles.get(symbol).is_none() {
        return false;
    }
    match fixed {
        Some(other) => same_text(other, symbol),
        None => true,
    }
}

/// The most ticks that the warmup of a run may walk.
pub const MAX_WARMUP_MATERIALIZATION_TICKS: u64 = 1_335_079_000_000;

/// What follows an extension of the tape towards the start of a run.
#[derive(Clone, Copy, Debug, PartialEq, Eq, Structural)]
pub enum Warmup {
    /// The start is reached, with so many snapshots held.
    Ready { checkpoints: u64 },
    /// The tape is to be extended again, after so many ticks in all.
    Again { walked_total: u64 },
    /// More ticks were walked than a warmup may walk.
    TooFar,
    /// The generator has stopped before the start.
    Stopped,
}

/// What follows an extension that walked so many ticks and got so far.
pub open spec fn warmed(
    walked_total: u64,
    walked: u64,
    frontier_ns: u64,
    checkpoints: u64,
    run_start_ns: u64,
) -> Warmup {
    let total = later(walked_total, walked);
    if total > MAX_WARMUP_MATERIALIZATION_TICKS {
        Warmup::TooFar
    } else if frontier_ns >= run_start_ns {
        Warmup::Ready { checkpoints }
    } else if walked == 0 {
        Warmup::Stopped
    } else {
        Warmup::Again { walked_total: total }
    }
}

/// Decides what follows an extension of the tape towards the start of a run.
pub fn materialize_warmup(
    walked_total: u64,
    walked: u64,
    frontier_ns: u64,
    checkpoints: u64,
    run_start_ns: u64,
) -> (next: Warmup)
    ensures
        next == warmed(walked_total, walked, frontier_ns, checkpoints, run_start_ns),
{
    let total: u64 = walked_total.saturating_add(walked);
    if total > MAX_WARMUP_MATERIALIZATION_TICKS {
        return Warmup::TooFar;
    }
    if frontier_ns >= run_start_ns {
        return Warmup::Ready { checkpoints };
    }
    if walked == 0 {
        return Warmup::Stopped;
    }
    Warmup::Again { walked_total: total }
}

impl Warmup {
    /// Why a warmup failed.
    pub open spec fn text(self) -> Option<Seq<char>> {
        match self {
            Warmup::TooFar => Some(
                "warmup generation exceeded its measured "@ + decimal(
                    MAX_WARMUP_MATERIALIZATION_TICKS as nat,
                ) + "-tick reach ceiling"@,
            ),
            Warmup::Stopped => Some("warmup generator stopped before the run start"@),
            _ => None,
        }
    }

    pub fn message(&self) -> (words: Option<String>)
        ensures
            words is Some == self.text() is Some,
            words is Some ==> words->0@ == self.text()->0,
    {
        match self {
            Warmup::TooFar => {
                let mut words = "warmup generation exceeded its measured ".to_owned();
                push_decimal(&mut words, MAX_WARMUP_MATERIALIZATION_TICKS as u128);
                words.append("-tick reach ceiling");
                Some(words)
            },
            Warmup::Stopped => Some("warmup generator stopped before the run start".to_owned()),
            _ => None,
        }
    }
}

/// A warmup that goes on has walked, and is still within its reach: it cannot
/// go on for ever.
pub proof fn a_warmup_ends(
    walked_total: u64,
    walked: u64,
    frontier_ns: u64,
    checkpoints: u64,
    run_start_ns: u64,
)
    ensures
        warmed(walked_total, walked, frontier_ns, checkpoints, run_start_ns) matches Warmup::Again {
            walked_total: total,
        } ==> walked_total < total <= MAX_WARMUP_MATERIALIZATION_TICKS,
{
}

/// How many ticks one look back into a tape may draw.
pub const SWEEP_DRAIN_BUDGET: u64 = 13_110_000_000;

/// What a look back came to.
#[derive(Clone, Copy, Debug, PartialEq, Eq, Structural)]
pub enum LookBack {
    /// The last price is known, or cannot be.
    Answer { price: Option<Dec> },
    /// An earlier snapshot is to be tried, with what is left of the budget.
    Further { budget: u64, back: u64 },
}

/// Whether a tick is a trade past an instant.
pub open spec fn trades_after(tick: TickEvent, ts: u64) -> bool {
    tick is Trade && tick->Trade_0.ts_event > ts
}

/// How many ticks come before the first trade past an instant.
pub open spec fn ticks_until(ticks: Seq<TickEvent>, ts: u64) -> nat
    decreases ticks.len(),
{
    if ticks.len() == 0 || trades_after(ticks[0], ts) {
        0
    } else {
        1 + ticks_until(ticks.drop_first(), ts)
    }
}

/// The price of the last trade among the ticks.
pub open spec fn last_price(ticks: Seq<TickEvent>) -> Option<Dec>
    decreases ticks.len(),
{
    if ticks.len() == 0 {
        None
    } else if ticks.last() is Trade {
        Some(ticks.last()->Trade_0.price)
    } else {
        last_price(ticks.drop_last())
    }
}

/// How many ticks are drawn to find the last trade at or before an instant: the
/// first trade past it is drawn too.
pub open spec fn ticks_drawn(ticks: Seq<TickEvent>, ts: u64) -> nat {
    let until = ticks_until(ticks, ts);
    if until < ticks.len() {
        until + 1
    } else {
        until
    }
}

/// What a look back into the ticks after a snapshot comes to. `fence` is the
/// snapshot's own last price, for where no earlier snapshot may be tried.
pub open spec fn looked_back(
    ticks: Seq<TickEvent>,
    ts: u64,
    budget: u64,
    back: u64,
    exhausted: bool,
    fence: Option<Dec>,
) -> LookBack {
    let drawn = ticks_drawn(ticks, ts);
    let last = last_price(ticks.take(ticks_until(ticks, ts) as int));
    if drawn > budget {
        LookBack::Answer { price: None }
    } else if last is Some {
        LookBack::Answer { price: last }
    } else if exhausted {
        LookBack::Answer { price: fence }
    } else if drawn == budget {
        LookBack::Answer { price: None }
    } else {
        LookBack::Further {
            budget: (budget - drawn) as u64,
            back: if back == 0 {
                1
            } else {
                later(back, back)
            },
        }
    }
}

proof fn until_is_within(ticks: Seq<TickEvent>, ts: u64)
    ensures
        ticks_until(ticks, ts) <= ticks.len(),
        ticks_until(ticks, ts) < ticks.len() ==> trades_after(
            ticks[ticks_until(ticks, ts) as int],
            ts,
        ),
    decreases ticks.len(),
{
    if ticks.len() > 0 && !trades_after(ticks[0], ts) {
        until_is_within(ticks.drop_first(), ts);
    }
}

proof fn until_goes_on(ticks: Seq<TickEvent>, ts: u64, i: int)
    requires
        0 <= i <= ticks.len(),
        forall|k: int| 0 <= k < i ==> !trades_after(#[trigger] ticks[k], ts),
    ensures
        ticks_until(ticks, ts) == i + ticks_until(ticks.skip(i), ts),
    decreases i,
{
    if i == 0 {
        assert(ticks.skip(0) =~= ticks);
    } else {
        assert(!trades_after(ticks[0], ts));
        assert forall|k: int| 0 <= k < i - 1 implies !trades_after(
            #[trigger] ticks.drop_first()[k],
            ts,
        ) by {
            assert(ticks.drop_first()[k] == ticks[k + 1]);
        }
        until_goes_on(ticks.drop_first(), ts, i - 1);
        assert(ticks.drop_first().skip(i - 1) =~= ticks.skip(i));
    }
}

/// Looks for the last trade at or before an instant among the ticks after a
/// snapshot, from the snapshot's own to the first trade past the instant.
pub fn last_trade_at_or_before(
    ticks: &Vec<TickEvent>,
    ts: u64,
    budget: u64,
    back: u64,
    exhausted: bool,
    fence: Option<Dec>,
) -> (next: LookBack)
    ensures
        next == looked_back(ticks@, ts, budget, back, exhausted, fence),
{
    let mut last: Option<Dec> = None;
    let mut i: usize = 0;
    let mut drained: u64 = 0;
    proof {
        until_is_within(ticks@, ts);
    }
    while i < ticks.len()
        invariant_except_break
            drained == i,
        invariant
            i <= ticks.len(),
            i <= drained <= budget,
            forall|k: int| 0 <= k < i ==> !trades_after(#[trigger] ticks@[k], ts),
            last == last_price(ticks@.take(i as int)),
        ensures
            i == ticks.len() && drained == i || i < ticks.len() && drained == i + 1 && trades_after(
                ticks@[i as int],
                ts,
            ),
        decreases ticks.len() - i,
    {
        if drained >= budget {
            proof {
                until_goes_on(ticks@, ts, i as int);
            }
            return LookBack::Answer { price: None };
        }
        drained += 1;
        if let TickEvent::Trade(trade) = ticks[i] {
            if trade.ts_event > ts {
                break;
            }
            last = Some(trade.price);
        }
        assert(ticks@.take(i + 1).drop_last() =~= ticks@.take(i as int));
        i += 1;
    }
    proof {
        until_goes_on(ticks@, ts, i as int);
    }
    if last.is_some() {
        return LookBack::Answer { price: last };
    }
    if exhausted {
        return LookBack::Answer { price: fence };
    }
    let left: u64 = budget - drained;
    if left == 0 {
        return LookBack::Answer { price: None };
    }
    let twice: u64 = back.saturating_add(back);
    LookBack::Further {
        budget: left,
        back: if twice == 0 {
            1
        } else {
            twice
        },
    }
}

/// A print in the residual answers whatever the snapshot's own price is; only
/// where nothing earlier may be tried does that price stand in.
pub proof fn the_snapshot_price_is_the_last_resort(
    ticks: Seq<TickEvent>,
    ts: u64,
    budget: u64,
    back: u64,
    exhausted: bool,
    fence: Option<Dec>,
    other: Option<Dec>,
)
    ensures
        looked_back(ticks, ts, budget, back, exhausted, fence) != looked_back(
            ticks,
            ts,
            budget,
            back,
            exhausted,
            other,
        ) ==> exhausted && last_price(ticks.take(ticks_until(ticks, ts) as int)) is None,
{
}

/// A look back finds the last print at or before its instant among the ticks that
/// are drawn: of the trades before the first one past the instant, the last one.
pub proof fn a_look_back_finds_the_last_print(
    ticks: Seq<TickEvent>,
    ts: u64,
    budget: u64,
    back: u64,
    exhausted: bool,
    fence: Option<Dec>,
    i: int,
    n: int,
)
    requires
        0 <= i < n <= ticks.len(),
        n < budget,
        ticks[i] is Trade,
        forall|k: int| 0 <= k < n && (#[trigger] ticks[k]) is Trade ==> ticks[k].at() <= ts,
        forall|k: int| i < k < n ==> !((#[trigger] ticks[k]) is Trade),
        n < ticks.len() ==> ticks[n] is Trade && ticks[n].at() > ts,
    ensures
        looked_back(ticks, ts, budget, back, exhausted, fence) == (LookBack::Answer {
            price: Some(ticks[i]->Trade_0.price),
        }),
{
    the_walk_stops_at(ticks, ts, n);
    the_last_price_is_found(ticks.take(n), i);
}

proof fn the_walk_stops_at(ticks: Seq<TickEvent>, ts: u64, n: int)
    requires
        0 <= n <= ticks.len(),
        forall|k: int| 0 <= k < n && (#[trigger] ticks[k]) is Trade ==> ticks[k].at() <= ts,
        n < ticks.len() ==> ticks[n] is Trade && ticks[n].at() > ts,
    ensures
        ticks_until(ticks, ts) == n,
{
    assert forall|k: int| 0 <= k < n implies !trades_after(#[trigger] ticks[k], ts) by {}
    until_goes_on(ticks, ts, n);
    if n < ticks.len() {
        assert(ticks.skip(n)[0] == ticks[n]);
    } else {
        assert(ticks.skip(n) =~= Seq::empty());
    }
}

proof fn the_last_price_is_found(ticks: Seq<TickEvent>, i: int)
    requires
        0 <= i < ticks.len(),
        ticks[i] is Trade,
        forall|k: int| i < k < ticks.len() ==> !((#[trigger] ticks[k]) is Trade),
    ensures
        last_price(ticks) == Some(ticks[i]->Trade_0.price),
    decreases ticks.len(),
{
    if i < ticks.len() - 1 {
        assert(ticks.last() == ticks[ticks.len() - 1]);
        let held = ticks.drop_last();
        assert forall|k: int| i < k < held.len() implies !((#[trigger] held[k]) is Trade) by {
            assert(held[k] == ticks[k]);
        }
        assert(held[i] == ticks[i]);
        the_last_price_is_found(held, i);
    }
}

/// Where no print is found, an earlier snapshot is tried with what is left of the
/// budget, twice as far back, for as long as there is one and there is budget.
pub proof fn a_look_back_goes_further(
    ticks: Seq<TickEvent>,
    ts: u64,
    budget: u64,
    back: u64,
    fence: Option<Dec>,
    n: int,
)
    requires
        0 <= n <= ticks.len(),
        forall|k: int| 0 <= k < n ==> !((#[trigger] ticks[k]) is Trade),
        n < ticks.len() ==> ticks[n] is Trade && ticks[n].at() > ts,
    ensures
        ({
            let drawn = if n < ticks.len() {
                n + 1
            } else {
                n
            };
            &&& drawn > budget ==> looked_back(ticks, ts, budget, back, false, fence) == (
            LookBack::Answer { price: None })
            &&& drawn < budget && 2 * back <= u64::MAX ==> looked_back(
                ticks,
                ts,
                budget,
                back,
                false,
                fence,
            ) == (LookBack::Further {
                budget: (budget - drawn) as u64,
                back: if back == 0 {
                    1
                } else {
                    (2 * back) as u64
                },
            })
            &&& drawn <= budget ==> looked_back(ticks, ts, budget, back, true, fence) == (
            LookBack::Answer { price: fence })
        }),
{
    the_walk_stops_at(ticks, ts, n);
    let held = ticks.take(n);
    assert forall|k: int| 0 <= k < held.len() implies !((#[trigger] held[k]) is Trade) by {
        assert(held[k] == ticks[k]);
    }
    no_price_is_found(held);
}

proof fn no_price_is_found(ticks: Seq<TickEvent>)
    requires
        forall|k: int| 0 <= k < ticks.len() ==> !((#[trigger] ticks[k]) is Trade),
    ensures
        last_price(ticks) is None,
    decreases ticks.len(),
{
    if ticks.len() > 0 {
        assert(ticks.last() == ticks[ticks.len() - 1]);
        assert forall|k: int| 0 <= k < ticks.drop_last().len() implies !((
        #[trigger] ticks.drop_last()[k]) is Trade) by {
            assert(ticks.drop_last()[k] == ticks[k]);
        }
        no_price_is_found(ticks.drop_last());
    }
}

/// A warmup is over once the tape has reached the start of the run, within its
/// reach; it goes on while the tape grows, and fails where it does not.
pub proof fn a_warmup_reaches_the_start(
    walked_total: u64,
    walked: u64,
    frontier_ns: u64,
    checkpoints: u64,
    run_start_ns: u64,
)
    requires
        walked_total + walked <= u64::MAX,
    ensures
        ({
            let next = warmed(walked_total, walked, frontier_ns, checkpoints, run_start_ns);
            let within = walked_total + walked <= 1_335_079_000_000;
            &&& !within ==> next == Warmup::TooFar
            &&& within && frontier_ns >= run_start_ns ==> next == (Warmup::Ready { checkpoints })
            &&& within && frontier_ns < run_start_ns && walked == 0 ==> next == Warmup::Stopped
            &&& within && frontier_ns < run_start_ns && walked > 0 ==> next == (Warmup::Again {
                walked_total: (walked_total + walked) as u64,
            })
        }),
{
}

/// A symbol is served with the last profile that was given for it, and no symbol
/// is served that no profile has.
pub proof fn the_latest_profile_is_filed(
    profiles: Seq<InstrumentProfile>,
    symbol: Seq<char>,
    i: int,
)
    requires
        -1 <= i < profiles.len(),
        i >= 0 ==> profiles[i].def.symbol@ == symbol,
        forall|k: int| i < k < profiles.len() ==> (#[trigger] profiles[k]).def.symbol@ != symbol,
    ensures
        by_symbol(profiles).dom().contains(symbol) == (i >= 0),
        i >= 0 ==> by_symbol(profiles)[symbol] == profiles[i],
    decreases profiles.len(),
{
    if profiles.len() > 0 {
        let held = profiles.drop_last();
        assert(profiles.last() == profiles[profiles.len() - 1]);
        if i < held.len() {
            assert forall|k: int| i < k < held.len() implies (#[trigger] held[k]).def.symbol@
                != symbol by {
                assert(held[k] == profiles[k]);
            }
            if i >= 0 {
                assert(held[i] == profiles[i]);
            }
            the_latest_profile_is_filed(held, symbol, i);
        }
    }
}

} // verus!
