//! History requests: which are answered, what the refusals say, and what a page
//! of history holds.

use vstd::prelude::*;

use crate::config::TAPE_ORIGIN_NS;
use crate::instrument::InstrumentProfile;
use crate::ranked::joined;
use crate::ranked::push_joined;
use crate::source::served;
use crate::source::InstrumentProfiles;
use crate::text::ascii_digit;
use crate::text::ascii_letter;
use crate::text::chars_of;
use crate::text::decimal;
use crate::text::push_decimal;
use crate::text::same_text;
use crate::ticks::QuoteTick;
use crate::ticks::TickEvent;
use crate::ticks::TradeTick;

verus! {

/// How many pages of history may be in the making at once. One more is refused
/// and does not wait.
pub const MAX_CONCURRENT_HISTORY_REQUESTS: usize = 4;

/// How many characters of a symbol that a caller sent may be said back.
pub const MAX_ECHOED_SYMBOL: usize = 64;

/// How many characters a symbol may have.
pub const MAX_SYMBOL_LEN: usize = 32;

/// How a request is answered.
#[derive(Clone, Copy, Debug, PartialEq, Eq, Structural)]
pub enum Status {
    Accepted,
    BadRequest,
    NotFound,
    InternalServerError,
    ServiceUnavailable,
}

impl Status {
    /// The status by its HTTP number.
    pub open spec fn number(self) -> u16 {
        match self {
            Status::Accepted => 202,
            Status::BadRequest => 400,
            Status::NotFound => 404,
            Status::InternalServerError => 500,
            Status::ServiceUnavailable => 503,
        }
    }

    pub fn code(self) -> (code: u16)
        ensures
            code == self.number(),
    {
        match self {
            Status::Accepted => 202,
            Status::BadRequest => 400,
            Status::NotFound => 404,
            Status::InternalServerError => 500,
            Status::ServiceUnavailable => 503,
        }
    }
}

/// A request that is not served, with the words for it.
#[derive(Debug)]
pub struct Refusal {
    pub status: Status,
    pub body: String,
}

/// The slots for pages in the making.
#[derive(Debug)]
pub struct HistoryGate {
    held: usize,
}

impl HistoryGate {
    #[verifier::type_invariant]
    spec fn bounded(self) -> bool {
        self.held <= MAX_CONCURRENT_HISTORY_REQUESTS
    }

    /// How many slots are held.
    pub closed spec fn taken(self) -> nat {
        self.held as nat
    }

    /// A gate with every slot free.
    pub fn new() -> (gate: HistoryGate)
        ensures
            gate.taken() == 0,
    {
        HistoryGate { held: 0 }
    }

    /// How many slots are free.
    pub fn available(&self) -> (free: usize)
        ensures
            free == MAX_CONCURRENT_HISTORY_REQUESTS - self.taken(),
    {
        proof {
            use_type_invariant(self);
        }
        MAX_CONCURRENT_HISTORY_REQUESTS - self.held
    }

    /// Takes a slot, where one is free.
    pub fn admit_history(&mut self) -> (admitted: Result<HistorySlot, Refusal>)
        ensures
            final(self).taken() <= MAX_CONCURRENT_HISTORY_REQUESTS,
            admitted is Ok == (old(self).taken() < MAX_CONCURRENT_HISTORY_REQUESTS),
            admitted is Ok ==> final(self).taken() == old(self).taken() + 1,
            admitted is Err ==> {
                &&& final(self).taken() == old(self).taken()
                &&& admitted->Err_0.status == Status::ServiceUnavailable
                &&& admitted->Err_0.body@ == "history request capacity exhausted"@
            },
    {
        proof {
            use_type_invariant(&*self);
        }
        if self.held < MAX_CONCURRENT_HISTORY_REQUESTS {
            self.held = self.held + 1;
            Ok(HistorySlot { at: self.held })
        } else {
            Err(
                Refusal {
                    status: Status::ServiceUnavailable,
                    body: "history request capacity exhausted".to_owned(),
                },
            )
        }
    }

    /// Takes a slot back.
    pub fn release(&mut self, slot: HistorySlot)
        ensures
            final(self).taken() == if old(self).taken() == 0 {
                0
            } else {
                (old(self).taken() - 1) as nat
            },
    {
        proof {
            use_type_invariant(&*self);
        }
        if self.held > 0 {
            self.held = self.held - 1;
        }
    }
}

/// A slot that was taken. It is handed back once, and by nobody else.
#[derive(Debug)]
pub struct HistorySlot {
    at: usize,
}

/// A page that is ready to be sent, with the slot that was taken for it. The slot
/// is out of reach for as long as there is a page.
#[derive(Debug)]
pub struct HistoryPage {
    slot: HistorySlot,
    body: Option<Vec<u8>>,
}

/// The page of these bytes, in the slot that was taken for it.
pub fn history_page(slot: HistorySlot, body: Vec<u8>) -> (page: HistoryPage)
    ensures
        page.unsent() == Some(body@),
        page.within() == slot,
{
    HistoryPage { slot, body: Some(body) }
}

impl HistoryPage {
    /// What is still to be sent.
    pub closed spec fn unsent(self) -> Option<Seq<u8>> {
        match self.body {
            Some(body) => Some(body@),
            None => None,
        }
    }

    /// The slot that the page is in.
    pub closed spec fn within(self) -> HistorySlot {
        self.slot
    }

    /// Hands the page's bytes out, once.
    pub fn poll_next(&mut self) -> (sent: Option<Vec<u8>>)
        ensures
            final(self).within() == old(self).within(),
            final(self).unsent() is None,
            match sent {
                Some(body) => old(self).unsent() == Some(body@),
                None => old(self).unsent() is None,
            },
    {
        self.body.take()
    }

    /// Is done with the page, whether it was sent or not, and gives its slot out.
    pub fn into_slot(self) -> (slot: HistorySlot)
        ensures
            slot == self.within(),
    {
        self.slot
    }
}

/// As much of a symbol as may be said back.
pub open spec fn echoed(symbol: Seq<char>) -> Seq<char> {
    if symbol.len() <= MAX_ECHOED_SYMBOL {
        symbol
    } else {
        symbol.take(MAX_ECHOED_SYMBOL as int)
    }
}

/// As much of a symbol as may be said back.
pub fn truncated_symbol(symbol: &str) -> (cut: String)
    ensures
        cut@ == echoed(symbol@),
{
    let chars = chars_of(symbol);
    let mut cut = String::new();
    let mut i: usize = 0;
    while i < chars.len() && i < MAX_ECHOED_SYMBOL
        invariant
            i <= chars.len(),
            i <= MAX_ECHOED_SYMBOL,
            chars@ == symbol@,
            cut@ =~= symbol@.take(i as int),
        decreases chars.len() - i,
    {
        cut.push(chars[i]);
        i += 1;
    }
    assert(symbol@.take(symbol@.len() as int) =~= symbol@);
    cut
}

/// What is said of a page that could not be made.
pub open spec fn failure_text(symbol: Seq<char>, start: Option<u64>, end: Option<u64>) -> Seq<char> {
    let from = match start {
        Some(start) => start,
        None => TAPE_ORIGIN_NS,
    };
    match end {
        Some(end) => "history for "@ + symbol + " over ["@ + decimal(from as nat) + ", "@ + decimal(
            end as nat,
        ) + "] could not be synthesized"@,
        None => "history for "@ + symbol + " from "@ + decimal(from as nat)
            + " could not be synthesized"@,
    }
}

/// What is said of a page that could not be made.
pub fn history_failure_body(symbol: &str, start: Option<u64>, end: Option<u64>) -> (body: String)
    ensures
        body@ == failure_text(symbol@, start, end),
{
    let from: u64 = match start {
        Some(start) => start,
        None => TAPE_ORIGIN_NS,
    };
    let mut body = "history for ".to_owned();
    body.append(symbol);
    match end {
        Some(end) => {
            body.append(" over [");
            push_decimal(&mut body, from as u128);
            body.append(", ");
            push_decimal(&mut body, end as u128);
            body.append("] could not be synthesized");
        },
        None => {
            body.append(" from ");
            push_decimal(&mut body, from as u128);
            body.append(" could not be synthesized");
        },
    }
    body
}

/// What is said of a symbol that the run does not serve.
pub open spec fn unserved_text(
    symbol: Seq<char>,
    profiles: Map<Seq<char>, InstrumentProfile>,
) -> Seq<char> {
    "requested symbol "@ + echoed(symbol) + " is not served by this run; this run serves "@
        + joined(served(profiles), ", "@)
}

/// The refusal of a symbol that the run does not serve. The comparison is
/// exact: what is refused here is what no page could be made of.
pub fn unserved_symbol_refusal(symbol: &str, profiles: &InstrumentProfiles) -> (body: Option<String>)
    ensures
        body is None == profiles@.dom().contains(symbol@),
        body is Some ==> body->0@ == unserved_text(symbol@, profiles@),
{
    if profiles.get(symbol).is_some() {
        return None;
    }
    let mut body = "requested symbol ".to_owned();
    body.append(truncated_symbol(symbol).as_str());
    body.append(" is not served by this run; this run serves ");
    let symbols = profiles.served_symbols();
    push_joined(&mut body, &symbols, ", ");
    Some(body)
}

/// Whether a character may stand in a symbol.
pub open spec fn symbol_char(c: char) -> bool {
    ascii_letter(c) || ascii_digit(c) || c == '.' || c == '-' || c == '_'
}

/// Whether a text may be a symbol.
pub open spec fn is_symbol(s: Seq<char>) -> bool {
    &&& 1 <= s.len() <= MAX_SYMBOL_LEN
    &&& forall|i: int| 0 <= i < s.len() ==> symbol_char(#[trigger] s[i])
}

/// Whether a text may be a symbol.
pub fn is_wire_symbol(s: &str) -> (answer: bool)
    ensures
        answer == is_symbol(s@),
{
    let chars = chars_of(s);
    if chars.len() == 0 || chars.len() > MAX_SYMBOL_LEN {
        return false;
    }
    let mut i: usize = 0;
    while i < chars.len()
        invariant
            i <= chars.len(),
            chars@ == s@,
            forall|k: int| 0 <= k < i ==> symbol_char(#[trigger] s@[k]),
        decreases chars.len() - i,
    {
        let c = chars[i];
        let letter = ('a' <= c && c <= 'z') || ('A' <= c && c <= 'Z');
        let digit = '0' <= c && c <= '9';
        if !(letter || digit || c == '.' || c == '-' || c == '_') {
            assert(!symbol_char(s@[i as int]));
            return false;
        }
        i += 1;
    }
    true
}

/// What is said of a symbol that a connection cannot be bound to; `None` for
/// one that it can.
pub open spec fn socket_text(
    requested: Option<Seq<char>>,
    bound: Seq<char>,
    profiles: Map<Seq<char>, InstrumentProfile>,
) -> Option<Seq<char>> {
    match requested {
        None => None,
        Some(symbol) => if !is_symbol(symbol) {
            Some(
                "requested symbol "@ + echoed(symbol)
                    + " is not a legal symbol; symbols are 1 to 32 characters of ASCII letters, digits, dot, dash or underscore"@,
            )
        } else if symbol == bound {
            None
        } else if !profiles.dom().contains(symbol) {
            Some(unserved_text(symbol, profiles))
        } else {
            Some(
                "requested symbol "@ + echoed(symbol)
                    + " is configured but is not the river this run booted; this run serves "@
                    + bound,
            )
        },
    }
}

/// The symbol that a connection is bound to: the one that the run booted, or
/// nothing. An absent symbol asks for that one; any other is refused.
pub fn resolve_socket_symbol(
    requested: Option<&str>,
    bound: &str,
    profiles: &InstrumentProfiles,
) -> (symbol: Result<String, String>)
    ensures
        ({
            let refused = socket_text(
                match requested {
                    Some(symbol) => Some(symbol@),
                    None => None,
                },
                bound@,
                profiles@,
            );
            &&& symbol is Ok == refused is None
            &&& symbol is Ok ==> symbol->Ok_0@ == bound@
            &&& symbol is Err ==> symbol->Err_0@ == refused->0
        }),
{
    let requested = match requested {
        Some(requested) => requested,
        None => {
            return Ok(bound.to_owned());
        },
    };
    if !is_wire_symbol(requested) {
        let mut body = "requested symbol ".to_owned();
        body.append(truncated_symbol(requested).as_str());
        body.append(
            " is not a legal symbol; symbols are 1 to 32 characters of ASCII letters, digits, dot, dash or underscore",
        );
        return Err(body);
    }
    if same_text(requested, bound) {
        return Ok(bound.to_owned());
    }
    match unserved_symbol_refusal(requested, profiles) {
        Some(body) => Err(body),
        None => {
            let mut body = "requested symbol ".to_owned();
            body.append(truncated_symbol(requested).as_str());
            body.append(
                " is configured but is not the river this run booted; this run serves ",
            );
            body.append(bound);
            Err(body)
        },
    }
}

/// What is said of a start outside the tape that there is; `None` for one
/// within it.
pub open spec fn start_text(start: Option<u64>, data_origin: u64, sim_now: u64) -> Option<Seq<char>> {
    match start {
        None => None,
        Some(start) => if start < data_origin {
            Some(
                "requested start "@ + decimal(start as nat) + " precedes data_origin_ns "@
                    + decimal(data_origin as nat) + "; the tape cannot serve before its origin"@,
            )
        } else if start > sim_now {
            Some(
                "requested start "@ + decimal(start as nat) + " exceeds sim-now "@ + decimal(
                    sim_now as nat,
                ) + "; the tape cannot serve past the clock"@,
            )
        } else {
            None
        },
    }
}

/// The refusal of a start before the tape's origin, or past the clock.
pub fn history_start_refusal(start: Option<u64>, data_origin: u64, sim_now: u64) -> (body: Option<
    String,
>)
    ensures
        body is Some == start_text(start, data_origin, sim_now) is Some,
        body is Some ==> body->0@ == start_text(start, data_origin, sim_now)->0,
{
    let start: u64 = match start {
        Some(start) => start,
        None => {
            return None;
        },
    };
    if start < data_origin {
        let mut body = "requested start ".to_owned();
        push_decimal(&mut body, start as u128);
        body.append(" precedes data_origin_ns ");
        push_decimal(&mut body, data_origin as u128);
        body.append("; the tape cannot serve before its origin");
        return Some(body);
    }
    if start > sim_now {
        let mut body = "requested start ".to_owned();
        push_decimal(&mut body, start as u128);
        body.append(" exceeds sim-now ");
        push_decimal(&mut body, sim_now as u128);
        body.append("; the tape cannot serve past the clock");
        return Some(body);
    }
    None
}

/// How many rows a page has, where a request names no size, and at most.
#[derive(Clone, Copy, Debug, PartialEq, Eq, Structural)]
pub struct PageLimits {
    pub default: usize,
    pub max: usize,
}

/// The size of a page that a request gets.
pub open spec fn page_size(limit: Option<usize>, limits: PageLimits) -> usize {
    let asked = match limit {
        Some(limit) => limit,
        None => limits.default,
    };
    if asked < limits.max {
        asked
    } else {
        limits.max
    }
}

/// The size of a page that a request gets.
pub fn normalize_limit(limit: Option<usize>, limits: PageLimits) -> (size: usize)
    ensures
        size == page_size(limit, limits),
{
    let asked: usize = match limit {
        Some(limit) => limit,
        None => limits.default,
    };
    if asked < limits.max {
        asked
    } else {
        limits.max
    }
}

/// A request for history.
#[derive(Debug)]
pub struct HistoryQuery {
    pub symbol: String,
    pub start: Option<u64>,
    pub end: Option<u64>,
    pub limit: Option<usize>,
}

/// The page that a request is answered with.
#[derive(Debug)]
pub struct HistoryPlan {
    pub symbol: String,
    pub start: Option<u64>,
    pub end: u64,
    pub limit: usize,
}

/// What is said of a request that is not served; `None` for one that is.
pub open spec fn query_text(
    query: HistoryQuery,
    profiles: Map<Seq<char>, InstrumentProfile>,
    sim_now: u64,
) -> Option<Seq<char>> {
    if !profiles.dom().contains(query.symbol@) {
        Some(unserved_text(query.symbol@, profiles))
    } else {
        start_text(query.start, TAPE_ORIGIN_NS, sim_now)
    }
}

/// Where a page ends: an end past the clock, or none at all, is the clock's.
pub open spec fn page_end(end: Option<u64>, sim_now: u64) -> u64 {
    match end {
        Some(end) => if end < sim_now {
            end
        } else {
            sim_now
        },
        None => sim_now,
    }
}

/// What a request for history is answered with, while a slot is held for it.
pub fn plan_history(
    query: HistoryQuery,
    profiles: &InstrumentProfiles,
    sim_now: u64,
    limits: PageLimits,
) -> (plan: Result<HistoryPlan, Refusal>)
    ensures
        ({
            let refused = query_text(query, profiles@, sim_now);
            &&& plan is Ok == refused is None
            &&& plan is Err ==> {
                &&& plan->Err_0.status == Status::BadRequest
                &&& plan->Err_0.body@ == refused->0
            }
            &&& plan is Ok ==> {
                &&& plan->Ok_0.symbol@ == query.symbol@
                &&& plan->Ok_0.start == query.start
                &&& plan->Ok_0.end == page_end(query.end, sim_now)
                &&& plan->Ok_0.limit == page_size(query.limit, limits)
            }
        }),
{
    let limit: usize = normalize_limit(query.limit, limits);
    if let Some(body) = unserved_symbol_refusal(query.symbol.as_str(), profiles) {
        return Err(Refusal { status: Status::BadRequest, body });
    }
    if let Some(body) = history_start_refusal(query.start, TAPE_ORIGIN_NS, sim_now) {
        return Err(Refusal { status: Status::BadRequest, body });
    }
    let end: u64 = match query.end {
        Some(end) => if end < sim_now {
            end
        } else {
            sim_now
        },
        None => sim_now,
    };
    Ok(HistoryPlan { symbol: query.symbol, start: query.start, end, limit })
}

/// The answer to a request whose page could not be made.
pub fn history_failure(plan: &HistoryPlan) -> (refusal: Refusal)
    ensures
        refusal.status == Status::InternalServerError,
        refusal.body@ == failure_text(echoed(plan.symbol@), plan.start, Some(plan.end)),
{
    let named = truncated_symbol(plan.symbol.as_str());
    Refusal {
        status: Status::InternalServerError,
        body: history_failure_body(named.as_str(), plan.start, Some(plan.end)),
    }
}

/// A page that is planned starts and ends on the tape that there is, and is no
/// larger than a page may be.
pub proof fn a_page_never_passes_the_clock(
    query: HistoryQuery,
    profiles: Map<Seq<char>, InstrumentProfile>,
    sim_now: u64,
    limits: PageLimits,
)
    requires
        query_text(query, profiles, sim_now) is None,
    ensures
        page_end(query.end, sim_now) <= sim_now,
        query.start is Some ==> TAPE_ORIGIN_NS <= query.start->0 <= sim_now,
        page_size(query.limit, limits) <= limits.max,
        profiles.dom().contains(query.symbol@),
{
}

/// How many ticks come before the first one past an instant.
pub open spec fn ticks_before(ticks: Seq<TickEvent>, end: Option<u64>) -> nat
    decreases ticks.len(),
{
    if ticks.len() == 0 || (end is Some && ticks[0].at() > end->0) {
        0
    } else {
        1 + ticks_before(ticks.drop_first(), end)
    }
}

/// The trades among the ticks.
pub open spec fn trades_of(ticks: Seq<TickEvent>) -> Seq<TradeTick>
    decreases ticks.len(),
{
    if ticks.len() == 0 {
        Seq::empty()
    } else {
        match ticks.last() {
            TickEvent::Trade(trade) => trades_of(ticks.drop_last()).push(trade),
            TickEvent::Quote(_) => trades_of(ticks.drop_last()),
        }
    }
}

/// The quotes among the ticks that are not before a start.
pub open spec fn quotes_of(ticks: Seq<TickEvent>, start: Option<u64>) -> Seq<QuoteTick>
    decreases ticks.len(),
{
    if ticks.len() == 0 {
        Seq::empty()
    } else {
        match ticks.last() {
            TickEvent::Quote(quote) if start is None || quote.ts_event >= start->0 => quotes_of(
                ticks.drop_last(),
                start,
            ).push(quote),
            _ => quotes_of(ticks.drop_last(), start),
        }
    }
}

/// The first so many rows.
pub open spec fn first_rows<T>(rows: Seq<T>, limit: usize) -> Seq<T> {
    if rows.len() <= limit {
        rows
    } else {
        rows.take(limit as int)
    }
}

/// The page of trades that the ticks of a tape give.
pub open spec fn trade_page(ticks: Seq<TickEvent>, end: Option<u64>, limit: usize) -> Seq<TradeTick> {
    first_rows(trades_of(ticks.take(ticks_before(ticks, end) as int)), limit)
}

/// The page of quotes that the ticks of a tape give.
pub open spec fn quote_page(
    ticks: Seq<TickEvent>,
    start: Option<u64>,
    end: Option<u64>,
    limit: usize,
) -> Seq<QuoteTick> {
    first_rows(quotes_of(ticks.take(ticks_before(ticks, end) as int), start), limit)
}

proof fn before_goes_on(ticks: Seq<TickEvent>, end: Option<u64>, i: int)
    requires
        0 <= i <= ticks.len(),
        forall|k: int| 0 <= k < i ==> !(end is Some && (#[trigger] ticks[k]).at() > end->0),
    ensures
        ticks_before(ticks, end) == i + ticks_before(ticks.skip(i), end),
        ticks_before(ticks, end) <= ticks.len(),
    decreases ticks.len(),
{
    if ticks.len() == 0 {
        assert(ticks.skip(i) =~= ticks);
    } else if i == 0 {
        assert(ticks.skip(0) =~= ticks);
        if !(end is Some && ticks[0].at() > end->0) {
            before_goes_on(ticks.drop_first(), end, 0);
        }
    } else {
        assert(!(end is Some && ticks[0].at() > end->0));
        assert forall|k: int| 0 <= k < i - 1 implies !(end is Some && (
        #[trigger] ticks.drop_first()[k]).at() > end->0) by {
            assert(ticks.drop_first()[k] == ticks[k + 1]);
        }
        before_goes_on(ticks.drop_first(), end, i - 1);
        assert(ticks.drop_first().skip(i - 1) =~= ticks.skip(i));
    }
}

/// The trades of a tape's beginning come first among the trades of the tape.
pub proof fn trades_come_first(ticks: Seq<TickEvent>, i: int, n: int)
    requires
        0 <= i <= n <= ticks.len(),
    ensures
        trades_of(ticks.take(i)).len() <= trades_of(ticks.take(n)).len(),
        trades_of(ticks.take(n)).take(trades_of(ticks.take(i)).len() as int) == trades_of(
            ticks.take(i),
        ),
    decreases n - i,
{
    let early = trades_of(ticks.take(i));
    if i == n {
        assert(early.take(early.len() as int) =~= early);
    } else {
        trades_come_first(ticks, i, n - 1);
        assert(ticks.take(n).drop_last() =~= ticks.take(n - 1));
        let most = trades_of(ticks.take(n - 1));
        assert(trades_of(ticks.take(n)).take(early.len() as int) =~= most.take(early.len() as int));
    }
}

proof fn quotes_come_first(ticks: Seq<TickEvent>, start: Option<u64>, i: int, n: int)
    requires
        0 <= i <= n <= ticks.len(),
    ensures
        quotes_of(ticks.take(i), start).len() <= quotes_of(ticks.take(n), start).len(),
        quotes_of(ticks.take(n), start).take(quotes_of(ticks.take(i), start).len() as int)
            == quotes_of(ticks.take(i), start),
    decreases n - i,
{
    let early = quotes_of(ticks.take(i), start);
    if i == n {
        assert(early.take(early.len() as int) =~= early);
    } else {
        quotes_come_first(ticks, start, i, n - 1);
        assert(ticks.take(n).drop_last() =~= ticks.take(n - 1));
        let most = quotes_of(ticks.take(n - 1), start);
        assert(quotes_of(ticks.take(n), start).take(early.len() as int) =~= most.take(
            early.len() as int,
        ));
    }
}

/// The trades of a tape from its first tick on, up to an instant and so many of
/// them.
pub fn bounded_trades(ticks: &Vec<TickEvent>, end: Option<u64>, limit: usize) -> (rows: Vec<
    TradeTick,
>)
    ensures
        rows@ == trade_page(ticks@, end, limit),
{
    let mut rows: Vec<TradeTick> = Vec::new();
    if limit == 0 {
        assert(rows@ =~= trade_page(ticks@, end, limit));
        return rows;
    }
    let mut i: usize = 0;
    while i < ticks.len()
        invariant
            i <= ticks.len(),
            limit > 0,
            rows.len() < limit,
            rows@ == trades_of(ticks@.take(i as int)),
            forall|k: int| 0 <= k < i ==> !(end is Some && (#[trigger] ticks@[k]).at() > end->0),
        decreases ticks.len() - i,
    {
        let tick = ticks[i];
        if let Some(end) = end {
            if tick.ts_event() > end {
                proof {
                    before_goes_on(ticks@, Some(end), i as int);
                    assert(ticks@.skip(i as int)[0] == tick);
                }
                return rows;
            }
        }
        proof {
            assert(ticks@.take(i + 1).drop_last() =~= ticks@.take(i as int));
        }
        if let TickEvent::Trade(trade) = tick {
            rows.push(trade);
            if rows.len() >= limit {
                proof {
                    before_goes_on(ticks@, end, i + 1);
                    trades_come_first(ticks@, i + 1, ticks_before(ticks@, end) as int);
                    assert(rows@ =~= trades_of(ticks@.take(i + 1)));
                    let all = trades_of(ticks@.take(ticks_before(ticks@, end) as int));
                    if all.len() == limit {
                        assert(all.take(limit as int) =~= all);
                    }
                }
                return rows;
            }
        }
        i += 1;
    }
    proof {
        before_goes_on(ticks@, end, i as int);
    }
    rows
}

/// The quotes of a tape from a start on, up to an instant and so many of them.
pub fn bounded_quotes(
    ticks: &Vec<TickEvent>,
    start: Option<u64>,
    end: Option<u64>,
    limit: usize,
) -> (rows: Vec<QuoteTick>)
    ensures
        rows@ == quote_page(ticks@, start, end, limit),
{
    let mut rows: Vec<QuoteTick> = Vec::new();
    if limit == 0 {
        assert(rows@ =~= quote_page(ticks@, start, end, limit));
        return rows;
    }
    let mut i: usize = 0;
    while i < ticks.len()
        invariant
            i <= ticks.len(),
            limit > 0,
            rows.len() < limit,
            rows@ == quotes_of(ticks@.take(i as int), start),
            forall|k: int| 0 <= k < i ==> !(end is Some && (#[trigger] ticks@[k]).at() > end->0),
        decreases ticks.len() - i,
    {
        let tick = ticks[i];
        if let Some(end) = end {
            if tick.ts_event() > end {
                proof {
                    before_goes_on(ticks@, Some(end), i as int);
                    assert(ticks@.skip(i as int)[0] == tick);
                }
                return rows;
            }
        }
        proof {
            assert(ticks@.take(i + 1).drop_last() =~= ticks@.take(i as int));
        }
        if let TickEvent::Quote(quote) = tick {
            let late_enough = match start {
                Some(start) => quote.ts_event >= start,
                None => true,
            };
            if late_enough {
                rows.push(quote);
            }
            if rows.len() >= limit {
                proof {
                    before_goes_on(ticks@, end, i + 1);
                    quotes_come_first(ticks@, start, i + 1, ticks_before(ticks@, end) as int);
                    assert(rows@ =~= quotes_of(ticks@.take(i + 1), start));
                    let all = quotes_of(ticks@.take(ticks_before(ticks@, end) as int), start);
                    if all.len() == limit {
                        assert(all.take(limit as int) =~= all);
                    }
                }
                return rows;
            }
        }
        i += 1;
    }
    proof {
        before_goes_on(ticks@, end, i as int);
    }
    rows
}

/// A page keeps its window and its size: no row is past the end, none is before
/// the start, and there are no more than were asked for.
pub proof fn a_quote_page_keeps_its_window(
    ticks: Seq<TickEvent>,
    start: Option<u64>,
    end: Option<u64>,
    limit: usize,
)
    ensures
        quote_page(ticks, start, end, limit).len() <= limit,
        forall|i: int|
            0 <= i < quote_page(ticks, start, end, limit).len() ==> {
                let at = (#[trigger] quote_page(ticks, start, end, limit)[i]).ts_event;
                (start is Some ==> at >= start->0) && (end is Some ==> at <= end->0)
            },
{
    let n = ticks_before(ticks, end) as int;
    before_goes_on(ticks, end, 0);
    every_tick_is_before(ticks, end);
    every_quote_is_within(ticks.take(n), start, end);
}

proof fn every_tick_is_before(ticks: Seq<TickEvent>, end: Option<u64>)
    ensures
        ticks_before(ticks, end) <= ticks.len(),
        forall|k: int|
            0 <= k < ticks_before(ticks, end) && end is Some ==> (#[trigger] ticks[k]).at()
                <= end->0,
    decreases ticks.len(),
{
    if ticks.len() > 0 && !(end is Some && ticks[0].at() > end->0) {
        every_tick_is_before(ticks.drop_first(), end);
        assert forall|k: int| 0 <= k < ticks_before(ticks, end) && end is Some implies (
        #[trigger] ticks[k]).at() <= end->0 by {
            if k > 0 {
                assert(ticks[k] == ticks.drop_first()[k - 1]);
            }
        }
    }
}

proof fn every_quote_is_within(ticks: Seq<TickEvent>, start: Option<u64>, end: Option<u64>)
    requires
        forall|k: int|
            0 <= k < ticks.len() && end is Some ==> (#[trigger] ticks[k]).at() <= end->0,
    ensures
        forall|i: int|
            0 <= i < quotes_of(ticks, start).len() ==> {
                let at = (#[trigger] quotes_of(ticks, start)[i]).ts_event;
                (start is Some ==> at >= start->0) && (end is Some ==> at <= end->0)
            },
    decreases ticks.len(),
{
    if ticks.len() > 0 {
        every_quote_is_within(ticks.drop_last(), start, end);
        assert(ticks.last() == ticks[ticks.len() - 1]);
        let rows = quotes_of(ticks, start);
        let early = quotes_of(ticks.drop_last(), start);
        assert forall|i: int| 0 <= i < rows.len() implies {
            let at = (#[trigger] rows[i]).ts_event;
            (start is Some ==> at >= start->0) && (end is Some ==> at <= end->0)
        } by {
            if i < early.len() {
                assert(rows[i] == early[i]);
            } else {
                assert(ticks.last() is Quote);
                assert(rows[i] == ticks.last()->Quote_0);
            }
        }
    }
}

/// A page of trades keeps its size and its end, and what is on the tape before
/// its start is never on it: a tape that is read from an instant on gives no
/// earlier trade.
pub proof fn a_trade_page_keeps_its_window(
    ticks: Seq<TickEvent>,
    start: u64,
    end: Option<u64>,
    limit: usize,
)
    requires
        forall|k: int| 0 <= k < ticks.len() ==> (#[trigger] ticks[k]).at() >= start,
    ensures
        trade_page(ticks, end, limit).len() <= limit,
        forall|i: int|
            0 <= i < trade_page(ticks, end, limit).len() ==> {
                let at = (#[trigger] trade_page(ticks, end, limit)[i]).ts_event;
                at >= start && (end is Some ==> at <= end->0)
            },
{
    let n = ticks_before(ticks, end) as int;
    every_tick_is_before(ticks, end);
    every_trade_is_within(ticks.take(n), start, end);
}

proof fn every_trade_is_within(ticks: Seq<TickEvent>, start: u64, end: Option<u64>)
    requires
        forall|k: int|
            0 <= k < ticks.len() ==> (#[trigger] ticks[k]).at() >= start && (end is Some
                ==> ticks[k].at() <= end->0),
    ensures
        forall|i: int|
            0 <= i < trades_of(ticks).len() ==> {
                let at = (#[trigger] trades_of(ticks)[i]).ts_event;
                at >= start && (end is Some ==> at <= end->0)
            },
    decreases ticks.len(),
{
    if ticks.len() > 0 {
        every_trade_is_within(ticks.drop_last(), start, end);
        assert(ticks.last() == ticks[ticks.len() - 1]);
        let rows = trades_of(ticks);
        let early = trades_of(ticks.drop_last());
        assert forall|i: int| 0 <= i < rows.len() implies {
            let at = (#[trigger] rows[i]).ts_event;
            at >= start && (end is Some ==> at <= end->0)
        } by {
            if i < early.len() {
                assert(rows[i] == early[i]);
            } else {
                assert(ticks.last() is Trade);
                assert(rows[i] == ticks.last()->Trade_0);
            }
        }
    }
}

/// A page that is full, or has met a tick past its end, is the same however the
/// tape goes on.
pub proof fn a_closed_page_stays(
    ticks: Seq<TickEvent>,
    more: Seq<TickEvent>,
    end: Option<u64>,
    limit: usize,
)
    requires
        trade_page(ticks, end, limit).len() == limit || ticks_before(ticks, end) < ticks.len(),
    ensures
        trade_page(ticks + more, end, limit) == trade_page(ticks, end, limit),
{
    let n = ticks_before(ticks, end) as int;
    every_tick_is_before(ticks, end);
    let all = ticks + more;
    assert forall|k: int| 0 <= k < n implies !(end is Some && (#[trigger] all[k]).at() > end->0) by {
        assert(all[k] == ticks[k]);
    }
    before_goes_on(all, end, n);
    assert(all.take(n) =~= ticks.take(n));
    if n < ticks.len() {
        before_goes_on(ticks, end, n);
        assert(all.skip(n)[0] == ticks.skip(n)[0]);
    } else {
        let m = ticks_before(all, end) as int;
        trades_come_first(all, n, m);
        let early = trades_of(all.take(n));
        let late = trades_of(all.take(m));
        assert(late.take(limit as int) =~= late.take(early.len() as int).take(limit as int));
        assert(late.take(limit as int) =~= first_rows(late, limit));
        assert(early.take(limit as int) =~= first_rows(early, limit));
    }
}

/// Whether a tape has so many ticks before the first one past an instant.
pub open spec fn ends_at(ticks: Seq<TickEvent>, end: Option<u64>, n: int) -> bool {
    &&& 0 <= n <= ticks.len()
    &&& forall|k: int| 0 <= k < n && end is Some ==> (#[trigger] ticks[k]).at() <= end->0
    &&& n < ticks.len() ==> end is Some && ticks[n].at() > end->0
}

/// The quotes on a stretch of tape that are not before a start, where there is
/// one, in their order.
pub open spec fn quotes_on(ticks: Seq<TickEvent>, start: Option<u64>) -> Seq<QuoteTick> {
    ticks.filter(|tick: TickEvent| tick is Quote && (start is Some ==> tick.at() >= start->0)).map_values(
        |tick: TickEvent| tick->Quote_0,
    )
}

/// The trades on a stretch of tape, in their order.
pub open spec fn trades_on(ticks: Seq<TickEvent>) -> Seq<TradeTick> {
    ticks.filter(|tick: TickEvent| tick is Trade).map_values(|tick: TickEvent| tick->Trade_0)
}

proof fn quotes_are_those_on_the_tape(ticks: Seq<TickEvent>, start: Option<u64>)
    ensures
        quotes_of(ticks, start) == quotes_on(ticks, start),
    decreases ticks.len(),
{
    reveal(Seq::filter);
    let asked = |tick: TickEvent| tick is Quote && (start is Some ==> tick.at() >= start->0);
    let quote = |tick: TickEvent| tick->Quote_0;
    if ticks.len() > 0 {
        quotes_are_those_on_the_tape(ticks.drop_last(), start);
        let early = ticks.drop_last().filter(asked);
        if asked(ticks.last()) {
            assert(early.push(ticks.last()).map_values(quote) =~= early.map_values(quote).push(
                ticks.last()->Quote_0,
            ));
        }
    } else {
        assert(quotes_on(ticks, start) =~= Seq::empty());
    }
}

proof fn trades_are_those_on_the_tape(ticks: Seq<TickEvent>)
    ensures
        trades_of(ticks) == trades_on(ticks),
    decreases ticks.len(),
{
    reveal(Seq::filter);
    let asked = |tick: TickEvent| tick is Trade;
    let trade = |tick: TickEvent| tick->Trade_0;
    if ticks.len() > 0 {
        trades_are_those_on_the_tape(ticks.drop_last());
        let early = ticks.drop_last().filter(asked);
        if asked(ticks.last()) {
            assert(early.push(ticks.last()).map_values(trade) =~= early.map_values(trade).push(
                ticks.last()->Trade_0,
            ));
        }
    } else {
        assert(trades_on(ticks) =~= Seq::empty());
    }
}

proof fn the_end_is_found(ticks: Seq<TickEvent>, end: Option<u64>, n: int)
    requires
        ends_at(ticks, end, n),
    ensures
        ticks_before(ticks, end) == n,
{
    before_goes_on(ticks, end, n);
    if n < ticks.len() {
        assert(ticks.skip(n)[0] == ticks[n]);
    } else {
        assert(ticks.skip(n) =~= Seq::empty());
    }
}

/// A page of quotes leaves out none: it holds, in order, the quotes of the tape
/// that come before the first tick past the end and are not before the start,
/// where there is one; all of them, or the first so many where the page is full.
/// A request without a start is served from the tape's beginning.
pub proof fn a_quote_page_leaves_out_none(
    ticks: Seq<TickEvent>,
    start: Option<u64>,
    end: Option<u64>,
    limit: usize,
    n: int,
)
    requires
        ends_at(ticks, end, n),
    ensures
        ({
            let page = quote_page(ticks, start, end, limit);
            let all = quotes_on(ticks.take(n), start);
            &&& page.len() < limit ==> page == all
            &&& page.len() >= limit ==> page.len() == limit && limit <= all.len() && page
                == all.take(limit as int)
            &&& page.len() < limit ==> forall|k: int|
                0 <= k < n && (#[trigger] ticks[k]) is Quote && (start is Some ==> ticks[k].at()
                    >= start->0) ==> page.contains(ticks[k]->Quote_0)
        }),
{
    the_end_is_found(ticks, end, n);
    let held = ticks.take(n);
    quotes_are_those_on_the_tape(held, start);
    let page = quote_page(ticks, start, end, limit);
    let all = quotes_on(held, start);
    assert(all.take(all.len() as int) =~= all);
    let asked = |tick: TickEvent| tick is Quote && (start is Some ==> tick.at() >= start->0);
    if page.len() < limit {
        assert forall|k: int|
            0 <= k < n && (#[trigger] ticks[k]) is Quote && (start is Some ==> ticks[k].at()
                >= start->0) implies page.contains(ticks[k]->Quote_0) by {
            assert(held[k] == ticks[k]);
            held.filter_lemma(asked);
            assert(held.filter(asked).contains(held[k]));
            let j = choose|j: int|
                0 <= j < held.filter(asked).len() && held.filter(asked)[j] == held[k];
            assert(all[j] == ticks[k]->Quote_0);
        }
    }
}

/// A page of trades leaves out none: it holds, in order, the trades of the tape
/// that come before the first tick past the end; all of them, or the first so
/// many where the page is full.
pub proof fn a_trade_page_leaves_out_none(
    ticks: Seq<TickEvent>,
    end: Option<u64>,
    limit: usize,
    n: int,
)
    requires
        ends_at(ticks, end, n),
    ensures
        ({
            let page = trade_page(ticks, end, limit);
            let all = trades_on(ticks.take(n));
            &&& page.len() < limit ==> page == all
            &&& page.len() >= limit ==> page.len() == limit && limit <= all.len() && page
                == all.take(limit as int)
            &&& page.len() < limit ==> forall|k: int|
                0 <= k < n && (#[trigger] ticks[k]) is Trade ==> page.contains(ticks[k]->Trade_0)
        }),
{
    the_end_is_found(ticks, end, n);
    let held = ticks.take(n);
    trades_are_those_on_the_tape(held);
    let page = trade_page(ticks, end, limit);
    let all = trades_on(held);
    assert(all.take(all.len() as int) =~= all);
    let asked = |tick: TickEvent| tick is Trade;
    if page.len() < limit {
        assert forall|k: int|
            0 <= k < n && (#[trigger] ticks[k]) is Trade implies page.contains(
            ticks[k]->Trade_0,
        ) by {
            assert(held[k] == ticks[k]);
            held.filter_lemma(asked);
            assert(held.filter(asked).contains(held[k]));
            let j = choose|j: int|
                0 <= j < held.filter(asked).len() && held.filter(asked)[j] == held[k];
            assert(all[j] == ticks[k]->Trade_0);
        }
    }
}

/// A request has the size that it asks for, or the usual one where it asks for
/// none, and never more than the most.
pub proof fn a_page_is_as_large_as_asked(limit: Option<usize>, limits: PageLimits)
    ensures
        limit is Some && limit->0 <= limits.max ==> page_size(limit, limits) == limit->0,
        limit is Some && limit->0 > limits.max ==> page_size(limit, limits) == limits.max,
        limit is None && limits.default <= limits.max ==> page_size(limit, limits)
            == limits.default,
        limit is None && limits.default > limits.max ==> page_size(limit, limits) == limits.max,
{
}

/// A page ends where it is asked to, or at the clock where that comes first or
/// nothing is asked.
pub proof fn a_page_ends_as_asked(end: Option<u64>, sim_now: u64)
    ensures
        end is Some && end->0 <= sim_now ==> page_end(end, sim_now) == end->0,
        end is None || end->0 > sim_now ==> page_end(end, sim_now) == sim_now,
{
}

/// A start is refused just where it is before the tape's origin or past the
/// clock, and a request without one never is.
pub proof fn only_a_start_off_the_tape_is_refused(
    start: Option<u64>,
    data_origin: u64,
    sim_now: u64,
)
    ensures
        start_text(start, data_origin, sim_now) is None == (start is None || (data_origin <= start->0
            && start->0 <= sim_now)),
{
}

/// What is said back of a symbol is its beginning, all of it where it is short.
pub proof fn a_symbol_is_said_back_from_its_start(symbol: Seq<char>)
    ensures
        echoed(symbol).len() <= 64,
        echoed(symbol) == symbol.take(echoed(symbol).len() as int),
        symbol.len() <= 64 ==> echoed(symbol) == symbol,
        symbol.len() > 64 ==> echoed(symbol).len() == 64,
{
    assert(symbol.take(symbol.len() as int) =~= symbol);
}

/// A connection is bound where it asks for nothing or for the run's own symbol in
/// its exact spelling, and is refused everything else.
pub proof fn a_connection_is_bound_to_the_runs_own(
    requested: Option<Seq<char>>,
    bound: Seq<char>,
    profiles: Map<Seq<char>, InstrumentProfile>,
)
    requires
        is_symbol(bound),
    ensures
        socket_text(requested, bound, profiles) is None == (requested is None || requested->0
            == bound),
{
}

/// A request for history is served just where its symbol is one that the run
/// serves and its start, where it names one, is on the tape that there is.
pub proof fn a_request_is_served_on_the_tape(
    query: HistoryQuery,
    profiles: Map<Seq<char>, InstrumentProfile>,
    sim_now: u64,
)
    ensures
        query_text(query, profiles, sim_now) is None == (profiles.dom().contains(query.symbol@) && (
        query.start is Some ==> query.start->0 <= sim_now)),
{
}

/// Each status has the number that it has on the wire.
pub proof fn a_status_has_its_number(status: Status)
    ensures
        status == Status::Accepted <==> status.number() == 202,
        status == Status::BadRequest <==> status.number() == 400,
        status == Status::NotFound <==> status.number() == 404,
        status == Status::InternalServerError <==> status.number() == 500,
        status == Status::ServiceUnavailable <==> status.number() == 503,
{
}

/// A symbol on the wire has at least one character, at most as many as the wire
/// takes, and each of them is an ASCII letter, an ASCII digit, a point, a hyphen
/// or an underscore.
pub proof fn a_symbol_has_its_characters(s: Seq<char>)
    ensures
        is_symbol(s) == {
            &&& 0 < s.len() <= MAX_SYMBOL_LEN
            &&& forall|i: int|
                0 <= i < s.len() ==> {
                    ||| 'a' <= (#[trigger] s[i]) <= 'z'
                    ||| 'A' <= s[i] <= 'Z'
                    ||| '0' <= s[i] <= '9'
                    ||| s[i] == '.'
                    ||| s[i] == '-'
                    ||| s[i] == '_'
                }
        },
{
}

} // verus!
