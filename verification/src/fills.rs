//! Reading a tape for fills: where a walk starts, and which readings of the
//! market are remembered.

use vstd::prelude::*;

use crate::decimal::Dec;
use crate::duration::later;
use crate::duration::millis_ns;
use crate::duration::sim_duration_from_millis;
use crate::duration::span_since;

verus! {

/// How far back a reading of the market looks.
pub const VOL_WINDOW_NS: u64 = 300_000_000_000;

/// A walk over more ticks than this is slow enough to say so.
pub const SWEEP_DRAIN_WARN_TICKS: u64 = 2_500_000;

/// What the venue read off a tape: the last print, when it was, and how wide
/// the band around it is.
#[derive(Clone, Copy, Debug, PartialEq, Eq, Structural)]
pub struct MarketReading {
    pub last_px: Dec,
    pub ts_ns: u64,
    pub band_ticks: u32,
}

/// What a remembered reading is good for: an interval of the clock, and the
/// band's multiplier, as the bits of a double, and cap.
#[derive(Clone, Copy, Debug, PartialEq, Eq, Structural)]
pub struct ReadingKey {
    pub bucket_ns: u64,
    pub mult_bits: u64,
    pub max_ticks: u32,
}

/// The start of the interval that an instant falls in.
pub open spec fn bucket_of(ts: u64, interval_ms: u64) -> u64 {
    let width = if millis_ns(interval_ms) == 0 {
        1
    } else {
        millis_ns(interval_ms)
    };
    (ts as int / width as int * width) as u64
}

/// The start of the interval that an instant falls in.
pub fn bucket(ts: u64, interval_ms: u64) -> (start: u64)
    ensures
        start == bucket_of(ts, interval_ms),
        start <= ts,
{
    let stated: u64 = sim_duration_from_millis(interval_ms);
    let width: u64 = if stated == 0 {
        1
    } else {
        stated
    };
    assert(ts as int / width as int * width <= ts) by (nonlinear_arith)
        requires
            width > 0,
            ts >= 0,
    ;
    assert(0 <= ts as int / width as int * width) by (nonlinear_arith)
        requires
            width > 0,
            ts >= 0,
    ;
    ts / width * width
}

/// The one reading that is remembered of one tape.
#[derive(Debug)]
pub struct MarketReadingCache {
    symbol: String,
    entry: Option<(ReadingKey, Option<MarketReading>)>,
}

/// What a look for a reading comes to.
#[derive(Clone, Debug, PartialEq, Eq)]
pub enum Lookup {
    /// It is remembered, if only that there was none.
    Known { reading: Option<MarketReading> },
    /// The tape of this symbol is to be read at the start of the interval.
    Read { symbol: String, key: ReadingKey },
}

impl View for MarketReadingCache {
    type V = Option<(ReadingKey, Option<MarketReading>)>;

    closed spec fn view(&self) -> Option<(ReadingKey, Option<MarketReading>)> {
        self.entry
    }
}

/// What is remembered of an interval, if anything is.
pub open spec fn looked_up(
    entry: Option<(ReadingKey, Option<MarketReading>)>,
    key: ReadingKey,
) -> Option<Option<MarketReading>> {
    if entry is Some && (entry->0).0 == key {
        Some((entry->0).1)
    } else {
        None
    }
}

impl MarketReadingCache {
    /// The symbol whose tape is read, and no other.
    pub closed spec fn of(self) -> Seq<char> {
        self.symbol@
    }

    /// Nothing remembered of the tape of a symbol.
    pub fn for_symbol(symbol: &str) -> (cache: MarketReadingCache)
        ensures
            cache@ is None,
            cache.of() == symbol@,
    {
        MarketReadingCache { symbol: symbol.to_owned(), entry: None }
    }

    /// Looks for the reading that an instant is served with: that of the start
    /// of its interval.
    pub fn read(&self, ts: u64, mult_bits: u64, max_ticks: u32, interval_ms: u64) -> (found: Lookup)
        ensures
            ({
                let asked = ReadingKey {
                    bucket_ns: bucket_of(ts, interval_ms),
                    mult_bits,
                    max_ticks,
                };
                match looked_up(self@, asked) {
                    Some(known) => found == (Lookup::Known { reading: known }),
                    None => found matches Lookup::Read { symbol, key } && symbol@ == self.of()
                        && key == asked,
                }
            }),
    {
        let key = ReadingKey { bucket_ns: bucket(ts, interval_ms), mult_bits, max_ticks };
        if let Some((held, reading)) = self.entry {
            if held.bucket_ns == key.bucket_ns && held.mult_bits == key.mult_bits && held.max_ticks
                == key.max_ticks {
                return Lookup::Known { reading };
            }
        }
        Lookup::Read { symbol: self.symbol.clone(), key }
    }

    /// Remembers a reading, and forgets the one before.
    pub fn remember(&mut self, key: ReadingKey, reading: Option<MarketReading>)
        ensures
            final(self)@ == Some((key, reading)),
            final(self).of() == old(self).of(),
    {
        self.entry = Some((key, reading));
    }
}

/// Two instants of one interval are served with one reading.
pub proof fn an_interval_is_read_once(
    one: u64,
    other: u64,
    interval_ms: u64,
    mult_bits: u64,
    max_ticks: u32,
    reading: Option<MarketReading>,
)
    requires
        bucket_of(one, interval_ms) == bucket_of(other, interval_ms),
    ensures
        ({
            let key = ReadingKey { bucket_ns: bucket_of(one, interval_ms), mult_bits, max_ticks };
            looked_up(
                Some((key, reading)),
                ReadingKey { bucket_ns: bucket_of(other, interval_ms), mult_bits, max_ticks },
            ) == Some(reading)
        }),
{
}

/// A reading is never of a later instant than the one that it serves.
pub proof fn a_reading_never_looks_ahead(ts: u64, interval_ms: u64)
    ensures
        bucket_of(ts, interval_ms) <= ts,
{
    let width = if millis_ns(interval_ms) == 0 {
        1
    } else {
        millis_ns(interval_ms)
    };
    assert(0 <= ts as int / width as int * width <= ts) by (nonlinear_arith)
        requires
            width > 0,
            ts >= 0,
    ;
}

/// The first instant that a reading of the market at `ts` walks.
pub fn reading_start(ts: u64) -> (start: u64)
    ensures
        start == later(span_since(ts, VOL_WINDOW_NS), 1),
{
    ts.saturating_sub(VOL_WINDOW_NS).saturating_add(1)
}

/// The least of some instants.
pub open spec fn earliest(instants: Seq<u64>) -> Option<u64>
    decreases instants.len(),
{
    if instants.len() == 0 {
        None
    } else {
        match earliest(instants.drop_last()) {
            Some(least) if least <= instants.last() => Some(least),
            _ => Some(instants.last()),
        }
    }
}

/// The first instant that the orders of one symbol are scanned from: just after
/// the earliest that any of them was scanned up to. Without orders there is
/// nothing to scan.
pub fn scan_start(from_ns: &Vec<u64>) -> (start: Option<u64>)
    ensures
        start == match earliest(from_ns@) {
            Some(least) => Some(later(least, 1)),
            None => None,
        },
{
    let mut least: Option<u64> = None;
    let mut i: usize = 0;
    while i < from_ns.len()
        invariant
            i <= from_ns.len(),
            least == earliest(from_ns@.take(i as int)),
        decreases from_ns.len() - i,
    {
        assert(from_ns@.take(i + 1).drop_last() =~= from_ns@.take(i as int));
        least = match least {
            Some(held) if held <= from_ns[i] => Some(held),
            _ => Some(from_ns[i]),
        };
        i += 1;
    }
    assert(from_ns@.take(i as int) =~= from_ns@);
    match least {
        Some(least) => Some(least.saturating_add(1)),
        None => None,
    }
}

/// Whether a walk took long enough to say so.
pub fn walk_is_slow(drained: u64) -> (slow: bool)
    ensures
        slow == (drained > SWEEP_DRAIN_WARN_TICKS),
{
    drained > SWEEP_DRAIN_WARN_TICKS
}

/// One walk from the earliest instant serves every order: none of them is
/// scanned from before it.
pub proof fn one_walk_serves_every_order(from_ns: Seq<u64>, i: int)
    requires
        0 <= i < from_ns.len(),
    ensures
        earliest(from_ns) is Some,
        earliest(from_ns)->0 <= from_ns[i],
        from_ns.contains(earliest(from_ns)->0),
    decreases from_ns.len(),
{
    let early = from_ns.drop_last();
    if i < early.len() {
        one_walk_serves_every_order(early, i);
        assert(early[i] == from_ns[i]);
    } else if early.len() > 0 {
        one_walk_serves_every_order(early, 0);
    }
    assert(from_ns.last() == from_ns[from_ns.len() - 1]);
    if early.len() > 0 {
        let k = choose|k: int| 0 <= k < early.len() && early[k] == earliest(early)->0;
        assert(from_ns[k] == early[k]);
    }
}

/// An instant falls in the interval that it is served by: intervals start at
/// whole numbers of their length, and an instant is less than one length after
/// the start of its own.
pub proof fn an_instant_is_in_its_interval(ts: u64, interval_ms: u64)
    requires
        0 < interval_ms * 1_000_000 <= u64::MAX,
    ensures
        ({
            let width = interval_ms * 1_000_000;
            &&& bucket_of(ts, interval_ms) as int % width == 0
            &&& bucket_of(ts, interval_ms) <= ts < bucket_of(ts, interval_ms) + width
        }),
{
    let width = interval_ms * 1_000_000;
    let whole = ts as int / width;
    vstd::arithmetic::div_mod::lemma_fundamental_div_mod(ts as int, width);
    vstd::arithmetic::div_mod::lemma_mod_multiples_basic(whole, width);
    a_reading_never_looks_ahead(ts, interval_ms);
    assert(whole * width == width * whole) by (nonlinear_arith);
    assert(0 <= whole * width) by (nonlinear_arith)
        requires
            whole >= 0,
            width > 0,
    ;
}

/// What is remembered serves only what it was read for: another interval, another
/// multiplier or another cap is read anew.
pub proof fn a_reading_serves_only_its_own(
    held: ReadingKey,
    asked: ReadingKey,
    reading: Option<MarketReading>,
)
    ensures
        looked_up(Some((held, reading)), asked) is Some == (held.bucket_ns == asked.bucket_ns
            && held.mult_bits == asked.mult_bits && held.max_ticks == asked.max_ticks),
        looked_up(Some((held, reading)), asked) is Some ==> looked_up(Some((held, reading)), asked)
            == Some(reading),
        looked_up(None, asked) is None,
{
}

} // verus!
