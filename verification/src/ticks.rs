//! What a tape is made of.

use vstd::prelude::*;

use crate::decimal::Dec;

verus! {

/// Which side of a trade took the price.
#[derive(Clone, Copy, Debug, PartialEq, Eq, Structural)]
pub enum AggressorSide {
    Buyer,
    Seller,
    NoAggressor,
}

/// A trade on the tape.
#[derive(Clone, Copy, Debug, PartialEq, Eq, Structural)]
pub struct TradeTick {
    pub price: Dec,
    pub size: Dec,
    pub aggressor: AggressorSide,
    pub ts_event: u64,
}

/// A quote on the tape.
#[derive(Clone, Copy, Debug, PartialEq, Eq, Structural)]
pub struct QuoteTick {
    pub bid_px: Dec,
    pub ask_px: Dec,
    pub bid_sz: Dec,
    pub ask_sz: Dec,
    pub ts_event: u64,
}

/// One event of a tape.
#[derive(Clone, Copy, Debug, PartialEq, Eq, Structural)]
pub enum TickEvent {
    Trade(TradeTick),
    Quote(QuoteTick),
}

impl TickEvent {
    /// When the event happened.
    pub open spec fn at(self) -> u64 {
        match self {
            TickEvent::Trade(trade) => trade.ts_event,
            TickEvent::Quote(quote) => quote.ts_event,
        }
    }

    /// When the event happened.
    pub fn ts_event(&self) -> (ts: u64)
        ensures
            ts == self.at(),
    {
        match self {
            TickEvent::Trade(trade) => trade.ts_event,
            TickEvent::Quote(quote) => quote.ts_event,
        }
    }
}

} // verus!
