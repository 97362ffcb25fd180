//! The order desk that every order command passes: what is refused before the
//! matching engine hears of it, what the refusals say, and what is asked of the
//! market on the way.

use vstd::prelude::*;

use crate::decimal::Dec;
use crate::duration::millis_ns;
use crate::duration::sim_duration_from_millis;
use crate::history::echoed;
use crate::history::truncated_symbol;
use crate::instrument::byte_len;
use crate::text::same_text;

verus! {

/// Which way an order goes.
#[derive(Clone, Copy, Debug, PartialEq, Eq, Structural)]
pub enum Side {
    Buy,
    Sell,
}

/// How an order is priced.
#[derive(Clone, Copy, Debug, PartialEq, Eq, Structural)]
pub enum OrderType {
    Market,
    Limit,
    Other,
}

/// What a query asks for.
#[derive(Clone, Copy, Debug, PartialEq, Eq, Structural)]
pub enum QueryKind {
    Orders,
    Fills,
}

/// A command on orders, as far as the order desk reads it.
#[derive(Debug)]
#[allow(inconsistent_fields)]
pub enum ClientMessage<S> {
    SubmitOrder {
        client_order_id: S,
        symbol: S,
        side: Side,
        order_type: OrderType,
        price: Option<Dec>,
    },
    ModifyOrder { client_order_id: S, price: Option<Dec> },
    CancelOrder { client_order_id: S },
    QueryOrders { request_id: S, client_order_id: Option<S> },
    QueryFills { request_id: S, client_order_id: Option<S> },
}

/// The kinds of command that the venue may be slow to act on.
#[derive(Clone, Copy, Debug, PartialEq, Eq, Structural)]
pub enum CommandClass {
    Submit,
    Modify,
    Cancel,
}

/// What a refusal for want of room refused.
#[derive(Debug)]
pub enum AdmissionSubject<S> {
    Submit { client_order_id: S },
    Cancel { client_order_id: S },
    Modify { client_order_id: S },
    Query { request_id: S, query: QueryKind },
}

/// An answer that the order desk gives by itself.
#[derive(Debug)]
pub enum ServerMessage<S> {
    OrderRejected { client_order_id: S, reason: S, ts_event: u64 },
    OrderModifyRejected { client_order_id: S, reason: S, ts_event: u64 },
    OrderCancelRejected { client_order_id: S, reason: S, ts_event: u64 },
    AdmissionRejected { subject: AdmissionSubject<S>, reason: S, ts_event: u64 },
    ProtocolError { reason: S, ts_event: u64 },
}

/// What a command came to.
#[derive(Debug)]
pub enum OrderOutcome<S> {
    /// The engine is to process it.
    Produced,
    /// It is refused, in a frame that has its room.
    Refused { event: ServerMessage<S> },
    /// There is no room for what it could produce, so nobody was asked.
    NotAdmitted { event: ServerMessage<S> },
    /// It is malformed, and no order is there to be refused.
    Diagnostic { event: ServerMessage<S> },
}

pub open spec fn optional_view(s: Option<String>) -> Option<Seq<char>> {
    match s {
        Some(s) => Some(s@),
        None => None,
    }
}

/// A command by the views of its texts.
pub open spec fn command_view(cmd: ClientMessage<String>) -> ClientMessage<Seq<char>> {
    match cmd {
        ClientMessage::SubmitOrder { client_order_id, symbol, side, order_type, price } =>
            ClientMessage::SubmitOrder {
            client_order_id: client_order_id@,
            symbol: symbol@,
            side,
            order_type,
            price,
        },
        ClientMessage::ModifyOrder { client_order_id, price } => ClientMessage::ModifyOrder {
            client_order_id: client_order_id@,
            price,
        },
        ClientMessage::CancelOrder { client_order_id } => ClientMessage::CancelOrder {
            client_order_id: client_order_id@,
        },
        ClientMessage::QueryOrders { request_id, client_order_id } => ClientMessage::QueryOrders {
            request_id: request_id@,
            client_order_id: optional_view(client_order_id),
        },
        ClientMessage::QueryFills { request_id, client_order_id } => ClientMessage::QueryFills {
            request_id: request_id@,
            client_order_id: optional_view(client_order_id),
        },
    }
}

/// A subject by the views of its texts.
pub open spec fn subject_view(subject: AdmissionSubject<String>) -> AdmissionSubject<Seq<char>> {
    match subject {
        AdmissionSubject::Submit { client_order_id } => AdmissionSubject::Submit {
            client_order_id: client_order_id@,
        },
        AdmissionSubject::Cancel { client_order_id } => AdmissionSubject::Cancel {
            client_order_id: client_order_id@,
        },
        AdmissionSubject::Modify { client_order_id } => AdmissionSubject::Modify {
            client_order_id: client_order_id@,
        },
        AdmissionSubject::Query { request_id, query } => AdmissionSubject::Query {
            request_id: request_id@,
            query,
        },
    }
}

/// An answer by the views of its texts.
pub open spec fn message_view(event: ServerMessage<String>) -> ServerMessage<Seq<char>> {
    match event {
        ServerMessage::OrderRejected { client_order_id, reason, ts_event } =>
            ServerMessage::OrderRejected {
            client_order_id: client_order_id@,
            reason: reason@,
            ts_event,
        },
        ServerMessage::OrderModifyRejected { client_order_id, reason, ts_event } =>
            ServerMessage::OrderModifyRejected {
            client_order_id: client_order_id@,
            reason: reason@,
            ts_event,
        },
        ServerMessage::OrderCancelRejected { client_order_id, reason, ts_event } =>
            ServerMessage::OrderCancelRejected {
            client_order_id: client_order_id@,
            reason: reason@,
            ts_event,
        },
        ServerMessage::AdmissionRejected { subject, reason, ts_event } =>
            ServerMessage::AdmissionRejected {
            subject: subject_view(subject),
            reason: reason@,
            ts_event,
        },
        ServerMessage::ProtocolError { reason, ts_event } => ServerMessage::ProtocolError {
            reason: reason@,
            ts_event,
        },
    }
}

pub open spec fn optional_message_view(event: Option<ServerMessage<String>>) -> Option<
    ServerMessage<Seq<char>>,
> {
    match event {
        Some(event) => Some(message_view(event)),
        None => None,
    }
}

/// An outcome by the views of its texts.
pub open spec fn outcome_view(outcome: OrderOutcome<String>) -> OrderOutcome<Seq<char>> {
    match outcome {
        OrderOutcome::Produced => OrderOutcome::Produced,
        OrderOutcome::Refused { event } => OrderOutcome::Refused { event: message_view(event) },
        OrderOutcome::NotAdmitted { event } => OrderOutcome::NotAdmitted {
            event: message_view(event),
        },
        OrderOutcome::Diagnostic { event } => OrderOutcome::Diagnostic {
            event: message_view(event),
        },
    }
}

/// What a refusal of a command for want of room names.
pub open spec fn subject_of(cmd: ClientMessage<Seq<char>>) -> AdmissionSubject<Seq<char>> {
    match cmd {
        ClientMessage::SubmitOrder { client_order_id, .. } => AdmissionSubject::Submit {
            client_order_id,
        },
        ClientMessage::CancelOrder { client_order_id } => AdmissionSubject::Cancel {
            client_order_id,
        },
        ClientMessage::ModifyOrder { client_order_id, .. } => AdmissionSubject::Modify {
            client_order_id,
        },
        ClientMessage::QueryOrders { request_id, .. } => AdmissionSubject::Query {
            request_id,
            query: QueryKind::Orders,
        },
        ClientMessage::QueryFills { request_id, .. } => AdmissionSubject::Query {
            request_id,
            query: QueryKind::Fills,
        },
    }
}

/// What a refusal of a command for want of room names.
pub fn admission_subject(cmd: &ClientMessage<String>) -> (subject: AdmissionSubject<String>)
    ensures
        subject_view(subject) == subject_of(command_view(*cmd)),
{
    match cmd {
        ClientMessage::SubmitOrder { client_order_id, .. } => AdmissionSubject::Submit {
            client_order_id: client_order_id.as_str().to_owned(),
        },
        ClientMessage::CancelOrder { client_order_id } => AdmissionSubject::Cancel {
            client_order_id: client_order_id.as_str().to_owned(),
        },
        ClientMessage::ModifyOrder { client_order_id, .. } => AdmissionSubject::Modify {
            client_order_id: client_order_id.as_str().to_owned(),
        },
        ClientMessage::QueryOrders { request_id, .. } => AdmissionSubject::Query {
            request_id: request_id.as_str().to_owned(),
            query: QueryKind::Orders,
        },
        ClientMessage::QueryFills { request_id, .. } => AdmissionSubject::Query {
            request_id: request_id.as_str().to_owned(),
            query: QueryKind::Fills,
        },
    }
}

/// What the wire's own rules say against the parts of a command: against a
/// submitted order as a whole, its identifier, the numbers of an amendment, and
/// the identifier of a query.
#[derive(Debug)]
pub struct Verdicts {
    pub order: Option<String>,
    pub client_order_id: Option<String>,
    pub numbers: Option<String>,
    pub request_id: Option<String>,
}

pub open spec fn first_of(a: Option<Seq<char>>, b: Option<Seq<char>>) -> Option<Seq<char>> {
    match a {
        Some(_) => a,
        None => b,
    }
}

/// What is wrong with the form of a command: an order is judged as a whole, an
/// amendment by its identifier and then its numbers, a cancellation by its
/// identifier, and a query by its own identifier and then that of the order it
/// names.
pub open spec fn malformed(cmd: ClientMessage<Seq<char>>, verdicts: Verdicts) -> Option<Seq<char>> {
    match cmd {
        ClientMessage::SubmitOrder { .. } => optional_view(verdicts.order),
        ClientMessage::ModifyOrder { .. } => first_of(
            optional_view(verdicts.client_order_id),
            optional_view(verdicts.numbers),
        ),
        ClientMessage::CancelOrder { .. } => optional_view(verdicts.client_order_id),
        ClientMessage::QueryOrders { client_order_id, .. }
        | ClientMessage::QueryFills { client_order_id, .. } => first_of(
            optional_view(verdicts.request_id),
            if client_order_id is Some {
                optional_view(verdicts.client_order_id)
            } else {
                None
            },
        ),
    }
}

fn first_said<'a>(a: &'a Option<String>, b: &'a Option<String>) -> (reason: Option<&'a String>)
    ensures
        reason is Some == first_of(optional_view(*a), optional_view(*b)) is Some,
        reason is Some ==> reason->0@ == first_of(optional_view(*a), optional_view(*b))->0,
{
    match a {
        Some(reason) => Some(reason),
        None => match b {
            Some(reason) => Some(reason),
            None => None,
        },
    }
}

/// What is wrong with the form of a command.
pub fn boundary_error<'a>(cmd: &ClientMessage<String>, verdicts: &'a Verdicts) -> (reason: Option<
    &'a String,
>)
    ensures
        reason is Some == malformed(command_view(*cmd), *verdicts) is Some,
        reason is Some ==> reason->0@ == malformed(command_view(*cmd), *verdicts)->0,
{
    match cmd {
        ClientMessage::SubmitOrder { .. } => first_said(&verdicts.order, &None),
        ClientMessage::ModifyOrder { .. } => first_said(
            &verdicts.client_order_id,
            &verdicts.numbers,
        ),
        ClientMessage::CancelOrder { .. } => first_said(&verdicts.client_order_id, &None),
        ClientMessage::QueryOrders { client_order_id, .. }
        | ClientMessage::QueryFills { client_order_id, .. } => if client_order_id.is_some() {
            first_said(&verdicts.request_id, &verdicts.client_order_id)
        } else {
            first_said(&verdicts.request_id, &None)
        },
    }
}

/// The reason for a refusal, with a word on an identifier that is too long to
/// be said back whole.
pub open spec fn noted(reason: Seq<char>, id: Seq<char>, max_id_len: usize) -> Seq<char> {
    if byte_len(id) > max_id_len {
        reason
            + "; the identifier was truncated for display and no order exists under either spelling"@
    } else {
        reason
    }
}

fn note(reason: &str, id: &String, max_id_len: usize) -> (words: String)
    ensures
        words@ == noted(reason@, id@, max_id_len),
{
    let mut words = reason.to_owned();
    if id.as_str().len() > max_id_len {
        words.append(
            "; the identifier was truncated for display and no order exists under either spelling",
        );
    }
    words
}

/// The refusal of a malformed command, under its identifier as the wire cuts
/// it. A query has no order to refuse.
pub open spec fn refusal_of(
    cmd: ClientMessage<Seq<char>>,
    cut_id: Seq<char>,
    reason: Seq<char>,
    max_id_len: usize,
    ts: u64,
) -> ServerMessage<Seq<char>> {
    match cmd {
        ClientMessage::ModifyOrder { client_order_id, .. } => ServerMessage::OrderModifyRejected {
            client_order_id: cut_id,
            reason: noted(reason, client_order_id, max_id_len),
            ts_event: ts,
        },
        ClientMessage::CancelOrder { client_order_id } => ServerMessage::OrderCancelRejected {
            client_order_id: cut_id,
            reason: noted(reason, client_order_id, max_id_len),
            ts_event: ts,
        },
        ClientMessage::SubmitOrder { client_order_id, .. } => ServerMessage::OrderRejected {
            client_order_id: cut_id,
            reason: noted(reason, client_order_id, max_id_len),
            ts_event: ts,
        },
        _ => ServerMessage::ProtocolError { reason, ts_event: ts },
    }
}

/// The refusal of a malformed command.
pub fn boundary_refusal(
    cmd: &ClientMessage<String>,
    cut_id: &str,
    reason: &str,
    max_id_len: usize,
    ts: u64,
) -> (event: ServerMessage<String>)
    ensures
        message_view(event) == refusal_of(command_view(*cmd), cut_id@, reason@, max_id_len, ts),
{
    match cmd {
        ClientMessage::ModifyOrder { client_order_id, .. } => ServerMessage::OrderModifyRejected {
            client_order_id: cut_id.to_owned(),
            reason: note(reason, client_order_id, max_id_len),
            ts_event: ts,
        },
        ClientMessage::CancelOrder { client_order_id } => ServerMessage::OrderCancelRejected {
            client_order_id: cut_id.to_owned(),
            reason: note(reason, client_order_id, max_id_len),
            ts_event: ts,
        },
        ClientMessage::SubmitOrder { client_order_id, .. } => ServerMessage::OrderRejected {
            client_order_id: cut_id.to_owned(),
            reason: note(reason, client_order_id, max_id_len),
            ts_event: ts,
        },
        _ => ServerMessage::ProtocolError { reason: reason.to_owned(), ts_event: ts },
    }
}

/// What is said of an order for a symbol that its connection is not bound to.
pub open spec fn mismatch_text(symbol: Seq<char>, bound: Seq<char>) -> Seq<char> {
    "order symbol "@ + echoed(symbol)
        + " does not match the symbol this connection is bound to ("@ + bound + ")"@
}

/// What is said of an order for a symbol that its connection is not bound to.
pub fn mismatch_reason(symbol: &str, bound: &str) -> (reason: String)
    ensures
        reason@ == mismatch_text(symbol@, bound@),
{
    let mut reason = "order symbol ".to_owned();
    reason.append(truncated_symbol(symbol).as_str());
    reason.append(" does not match the symbol this connection is bound to (");
    reason.append(bound);
    reason.append(")");
    reason
}

/// Why a command is refused as it comes in. Texts are of type `S`.
#[derive(Debug)]
pub enum EntryFault<S> {
    /// It is malformed.
    Malformed { reason: S },
    /// It is an order for a symbol that its connection is not bound to.
    Mismatch,
}

/// A fault with its text by its characters.
pub open spec fn fault_view(fault: EntryFault<String>) -> EntryFault<Seq<char>> {
    match fault {
        EntryFault::Malformed { reason } => EntryFault::Malformed { reason: reason@ },
        EntryFault::Mismatch => EntryFault::Mismatch,
    }
}

/// A fault, where there is one, with its text by its characters.
pub open spec fn optional_fault_view(fault: Option<EntryFault<String>>) -> Option<
    EntryFault<Seq<char>>,
> {
    match fault {
        Some(fault) => Some(fault_view(fault)),
        None => None,
    }
}

/// How slow the venue is to act on each kind of command, in milliseconds.
#[derive(Clone, Copy, Debug, PartialEq, Eq, Structural)]
pub struct ActDelays {
    pub submit_ms: u64,
    pub modify_ms: u64,
    pub cancel_ms: u64,
}

/// The kind of a command; a query has none.
pub open spec fn class_of<S>(cmd: ClientMessage<S>) -> Option<CommandClass> {
    match cmd {
        ClientMessage::SubmitOrder { .. } => Some(CommandClass::Submit),
        ClientMessage::ModifyOrder { .. } => Some(CommandClass::Modify),
        ClientMessage::CancelOrder { .. } => Some(CommandClass::Cancel),
        _ => None,
    }
}

/// How long the venue takes to act on a command.
pub open spec fn act_ns(class: Option<CommandClass>, delays: ActDelays) -> u64 {
    match class {
        Some(CommandClass::Submit) => millis_ns(delays.submit_ms),
        Some(CommandClass::Modify) => millis_ns(delays.modify_ms),
        Some(CommandClass::Cancel) => millis_ns(delays.cancel_ms),
        None => 0,
    }
}

/// The symbol whose tape is read for a command: that of a submitted order, and
/// for a new price that of the connection.
pub open spec fn read_for(cmd: ClientMessage<Seq<char>>, bound: Seq<char>) -> Option<Seq<char>> {
    match cmd {
        ClientMessage::SubmitOrder { symbol, .. } => Some(symbol),
        ClientMessage::ModifyOrder { price: Some(_), .. } => Some(bound),
        _ => None,
    }
}

/// What is refused of a command as it comes in, before anything is asked or
/// waited for: one that is malformed, and an order for another symbol.
pub open spec fn fault_on_entry(
    cmd: ClientMessage<Seq<char>>,
    verdicts: Verdicts,
    bound: Seq<char>,
) -> Option<EntryFault<Seq<char>>> {
    match malformed(cmd, verdicts) {
        Some(reason) => Some(EntryFault::Malformed { reason }),
        None => match cmd {
            ClientMessage::SubmitOrder { symbol, .. } if symbol != bound => Some(
                EntryFault::Mismatch,
            ),
            _ => None,
        },
    }
}

/// Judges a command as it comes in.
pub fn enter(cmd: &ClientMessage<String>, verdicts: &Verdicts, bound: &str) -> (fault: Option<
    EntryFault<String>,
>)
    ensures
        optional_fault_view(fault) == fault_on_entry(command_view(*cmd), *verdicts, bound@),
{
    if let Some(reason) = boundary_error(cmd, verdicts) {
        return Some(EntryFault::Malformed { reason: reason.as_str().to_owned() });
    }
    if let ClientMessage::SubmitOrder { symbol, .. } = cmd {
        if !same_text(symbol.as_str(), bound) {
            return Some(EntryFault::Mismatch);
        }
    }
    None
}

/// The text that the wire cuts to its length before a refusal carries it: the
/// identifier of a malformed command's order, and the reason of a mismatch. A
/// malformed query is answered with nothing that has to be cut.
pub open spec fn uncut(
    cmd: ClientMessage<Seq<char>>,
    fault: EntryFault<Seq<char>>,
    bound: Seq<char>,
) -> Option<Seq<char>> {
    match fault {
        EntryFault::Malformed { .. } => match cmd {
            ClientMessage::SubmitOrder { client_order_id, .. } => Some(client_order_id),
            ClientMessage::ModifyOrder { client_order_id, .. } => Some(client_order_id),
            ClientMessage::CancelOrder { client_order_id } => Some(client_order_id),
            _ => None,
        },
        EntryFault::Mismatch => match cmd {
            ClientMessage::SubmitOrder { symbol, .. } => Some(mismatch_text(symbol, bound)),
            _ => None,
        },
    }
}

/// The text that the wire cuts to its length before a refusal carries it.
pub fn text_to_cut(cmd: &ClientMessage<String>, fault: &EntryFault<String>, bound: &str) -> (text:
    Option<String>)
    ensures
        optional_view(text) == uncut(command_view(*cmd), fault_view(*fault), bound@),
{
    match fault {
        EntryFault::Malformed { .. } => match cmd {
            ClientMessage::SubmitOrder { client_order_id, .. } => Some(
                client_order_id.as_str().to_owned(),
            ),
            ClientMessage::ModifyOrder { client_order_id, .. } => Some(
                client_order_id.as_str().to_owned(),
            ),
            ClientMessage::CancelOrder { client_order_id } => Some(
                client_order_id.as_str().to_owned(),
            ),
            _ => None,
        },
        EntryFault::Mismatch => match cmd {
            ClientMessage::SubmitOrder { symbol, .. } => Some(
                mismatch_reason(symbol.as_str(), bound),
            ),
            _ => None,
        },
    }
}

/// The refusal of a command as it comes in, with `cut` for what the wire made of
/// the text that it cuts.
pub open spec fn refused_on_entry(
    cmd: ClientMessage<Seq<char>>,
    fault: EntryFault<Seq<char>>,
    cut: Seq<char>,
    max_id_len: usize,
    ts: u64,
) -> ServerMessage<Seq<char>> {
    match fault {
        EntryFault::Malformed { reason } => refusal_of(cmd, cut, reason, max_id_len, ts),
        EntryFault::Mismatch => match cmd {
            ClientMessage::SubmitOrder { client_order_id, .. } => ServerMessage::OrderRejected {
                client_order_id,
                reason: cut,
                ts_event: ts,
            },
            _ => ServerMessage::ProtocolError { reason: cut, ts_event: ts },
        },
    }
}

/// The refusal of a command as it comes in.
pub fn refuse_on_entry(
    cmd: &ClientMessage<String>,
    fault: &EntryFault<String>,
    cut: &str,
    max_id_len: usize,
    ts: u64,
) -> (event: ServerMessage<String>)
    ensures
        message_view(event) == refused_on_entry(
            command_view(*cmd),
            fault_view(*fault),
            cut@,
            max_id_len,
            ts,
        ),
{
    match fault {
        EntryFault::Malformed { reason } => boundary_refusal(
            cmd,
            cut,
            reason.as_str(),
            max_id_len,
            ts,
        ),
        EntryFault::Mismatch => match cmd {
            ClientMessage::SubmitOrder { client_order_id, .. } => ServerMessage::OrderRejected {
                client_order_id: client_order_id.as_str().to_owned(),
                reason: cut.to_owned(),
                ts_event: ts,
            },
            _ => ServerMessage::ProtocolError { reason: cut.to_owned(), ts_event: ts },
        },
    }
}

/// How long the venue takes to act on a command.
pub fn act_delay(cmd: &ClientMessage<String>, delays: ActDelays) -> (ns: u64)
    ensures
        ns == act_ns(class_of(*cmd), delays),
{
    match cmd {
        ClientMessage::SubmitOrder { .. } => sim_duration_from_millis(delays.submit_ms),
        ClientMessage::ModifyOrder { .. } => sim_duration_from_millis(delays.modify_ms),
        ClientMessage::CancelOrder { .. } => sim_duration_from_millis(delays.cancel_ms),
        _ => 0,
    }
}

/// The symbol whose tape is read for a command.
pub fn tape_to_read(cmd: &ClientMessage<String>, bound: &str) -> (symbol: Option<String>)
    ensures
        optional_view(symbol) == read_for(command_view(*cmd), bound@),
{
    match cmd {
        ClientMessage::SubmitOrder { symbol, .. } => Some(symbol.as_str().to_owned()),
        ClientMessage::ModifyOrder { price, .. } => match price {
            Some(_) => Some(bound.to_owned()),
            None => None,
        },
        _ => None,
    }
}

/// A command with the price that the tape gives it: a market order that states
/// none has the last price at or before the venue acts.
pub open spec fn stamped(cmd: ClientMessage<Seq<char>>, last_px: Option<Dec>) -> ClientMessage<
    Seq<char>,
> {
    match cmd {
        ClientMessage::SubmitOrder { client_order_id, symbol, side, order_type, price } => if order_type
            == OrderType::Market && price is None {
            ClientMessage::SubmitOrder { client_order_id, symbol, side, order_type, price: last_px }
        } else {
            cmd
        },
        _ => cmd,
    }
}

/// Gives a market order that states no price the last one. The last price is
/// that of the venue's reading, or of the tape itself where there is none.
pub fn stamp_market_price(
    cmd: ClientMessage<String>,
    reading_px: Option<Dec>,
    tape_px: Option<Dec>,
) -> (priced: ClientMessage<String>)
    ensures
        command_view(priced) == stamped(
            command_view(cmd),
            match reading_px {
                Some(px) => Some(px),
                None => tape_px,
            },
        ),
{
    let last_px = match reading_px {
        Some(px) => Some(px),
        None => tape_px,
    };
    match cmd {
        ClientMessage::SubmitOrder { client_order_id, symbol, side, order_type, price } => {
            let market = match order_type {
                OrderType::Market => true,
                _ => false,
            };
            let price = if market && price.is_none() {
                last_px
            } else {
                price
            };
            ClientMessage::SubmitOrder { client_order_id, symbol, side, order_type, price }
        },
        other => other,
    }
}

/// What the venue knows of the market of an order when it acts: whether it
/// lists the symbol, whether the symbol's calendar, where it has one, is open,
/// and whether the venue's reading, where it has one, trades through the
/// order's price.
#[derive(Clone, Copy, Debug, PartialEq, Eq, Structural)]
pub struct MarketView {
    pub listed: bool,
    pub open: Option<bool>,
    pub reading_trades_through: Option<bool>,
}

/// Whether an order cannot stand while its market is closed: it would fill off
/// a stale print.
pub open spec fn needs_a_market(
    order_type: OrderType,
    price: Option<Dec>,
    reading_trades_through: Option<bool>,
) -> bool {
    order_type == OrderType::Market || (order_type == OrderType::Limit && price is Some
        && reading_trades_through == Some(true))
}

/// Whether an order is refused because its market is closed.
pub fn reject_while_closed(
    open: bool,
    order_type: OrderType,
    price: Option<Dec>,
    reading_trades_through: Option<bool>,
) -> (answer: bool)
    ensures
        answer == (!open && needs_a_market(order_type, price, reading_trades_through)),
{
    !open && match order_type {
        OrderType::Market => true,
        OrderType::Limit => price.is_some() && match reading_trades_through {
            Some(through) => through,
            None => false,
        },
        OrderType::Other => false,
    }
}

/// What is refused of a command when the venue acts on it: a market order that
/// the venue lists and could not price, and an order that would fill while its
/// market is closed.
pub open spec fn refused_on_acting(
    cmd: ClientMessage<Seq<char>>,
    market: MarketView,
    ts: u64,
) -> Option<ServerMessage<Seq<char>>> {
    match cmd {
        ClientMessage::SubmitOrder { client_order_id, order_type, price, .. } => if order_type
            == OrderType::Market && price is None && market.listed {
            Some(
                ServerMessage::OrderRejected {
                    client_order_id,
                    reason: "venue could not synthesize a market price at sim-now"@,
                    ts_event: ts,
                },
            )
        } else if market.listed && market.open == Some(false) && needs_a_market(
            order_type,
            price,
            market.reading_trades_through,
        ) {
            Some(
                ServerMessage::OrderRejected {
                    client_order_id,
                    reason: "market closed"@,
                    ts_event: ts,
                },
            )
        } else {
            None
        },
        _ => None,
    }
}

/// Judges a command when the venue acts on it, with its price stamped.
pub fn act(cmd: &ClientMessage<String>, market: MarketView, ts: u64) -> (event: Option<
    ServerMessage<String>,
>)
    ensures
        optional_message_view(event) == refused_on_acting(command_view(*cmd), market, ts),
{
    match cmd {
        ClientMessage::SubmitOrder { client_order_id, order_type, price, .. } => {
            let is_market = match order_type {
                OrderType::Market => true,
                _ => false,
            };
            if is_market && price.is_none() && market.listed {
                return Some(
                    ServerMessage::OrderRejected {
                        client_order_id: client_order_id.as_str().to_owned(),
                        reason: "venue could not synthesize a market price at sim-now".to_owned(),
                        ts_event: ts,
                    },
                );
            }
            if let Some(open) = market.open {
                if market.listed && reject_while_closed(
                    open,
                    *order_type,
                    *price,
                    market.reading_trades_through,
                ) {
                    return Some(
                        ServerMessage::OrderRejected {
                            client_order_id: client_order_id.as_str().to_owned(),
                            reason: "market closed".to_owned(),
                            ts_event: ts,
                        },
                    );
                }
            }
            None
        },
        _ => None,
    }
}

/// The refusal of a command for want of room.
pub open spec fn exhausted(cmd: ClientMessage<Seq<char>>, ts: u64) -> ServerMessage<Seq<char>> {
    ServerMessage::AdmissionRejected {
        subject: subject_of(cmd),
        reason: "execution output admission budget exhausted"@,
        ts_event: ts,
    }
}

fn exhaust(cmd: &ClientMessage<String>, ts: u64) -> (event: ServerMessage<String>)
    ensures
        message_view(event) == exhausted(command_view(*cmd), ts),
{
    ServerMessage::AdmissionRejected {
        subject: admission_subject(cmd),
        reason: "execution output admission budget exhausted".to_owned(),
        ts_event: ts,
    }
}

/// What a command comes to: `refusal` is what the order desk says against it, and
/// `room` whether the room that the answer needs could be had. A refusal is
/// output too; an untargeted one gives its room back.
pub open spec fn concluded(
    cmd: ClientMessage<Seq<char>>,
    refusal: Option<ServerMessage<Seq<char>>>,
    room: bool,
    ts: u64,
) -> OrderOutcome<Seq<char>> {
    if !room {
        OrderOutcome::NotAdmitted { event: exhausted(cmd, ts) }
    } else {
        match refusal {
            None => OrderOutcome::Produced,
            Some(event) => if event is ProtocolError {
                OrderOutcome::Diagnostic { event }
            } else {
                OrderOutcome::Refused { event }
            },
        }
    }
}

/// What a command comes to, once the order desk has judged it and the room for the
/// answer was asked for.
pub fn conclude(
    cmd: &ClientMessage<String>,
    refusal: Option<ServerMessage<String>>,
    room: bool,
    ts: u64,
) -> (outcome: OrderOutcome<String>)
    ensures
        outcome_view(outcome) == concluded(
            command_view(*cmd),
            optional_message_view(refusal),
            room,
            ts,
        ),
{
    if !room {
        return OrderOutcome::NotAdmitted { event: exhaust(cmd, ts) };
    }
    match refusal {
        None => OrderOutcome::Produced,
        Some(event) => {
            let untargeted = match &event {
                ServerMessage::ProtocolError { .. } => true,
                _ => false,
            };
            if untargeted {
                OrderOutcome::Diagnostic { event }
            } else {
                OrderOutcome::Refused { event }
            }
        },
    }
}

/// Without room for what a command could produce the engine is never asked,
/// whatever the order desk says.
pub proof fn nothing_is_produced_without_room(
    cmd: ClientMessage<Seq<char>>,
    refusal: Option<ServerMessage<Seq<char>>>,
    ts: u64,
)
    ensures
        concluded(cmd, refusal, false, ts) is NotAdmitted,
{
}

/// An order that is let in is one for the connection's own symbol, so no tape
/// but that symbol's is ever read for a command.
pub proof fn only_the_bound_tape_is_read(
    cmd: ClientMessage<Seq<char>>,
    verdicts: Verdicts,
    bound: Seq<char>,
)
    requires
        fault_on_entry(cmd, verdicts, bound) is None,
    ensures
        read_for(cmd, bound) is Some ==> read_for(cmd, bound)->0 == bound,
{
}

/// A refused query is never an order's refusal, and a refused order never an
/// untargeted diagnostic.
pub proof fn only_a_query_is_answered_untargeted(
    cmd: ClientMessage<Seq<char>>,
    verdicts: Verdicts,
    cut: Seq<char>,
    max_id_len: usize,
    bound: Seq<char>,
    ts: u64,
)
    requires
        fault_on_entry(cmd, verdicts, bound) is Some,
    ensures
        ({
            let fault = fault_on_entry(cmd, verdicts, bound)->0;
            let refusal = refused_on_entry(cmd, fault, cut, max_id_len, ts);
            &&& (concluded(cmd, Some(refusal), true, ts) is Diagnostic) == (cmd is QueryOrders
                || cmd is QueryFills)
            &&& (uncut(cmd, fault, bound) is None) == (cmd is QueryOrders || cmd is QueryFills)
        }),
{
}

/// A market order of a listed symbol reaches the engine with a price, or not at
/// all.
pub proof fn a_market_order_is_priced_or_refused(
    cmd: ClientMessage<Seq<char>>,
    last_px: Option<Dec>,
    market: MarketView,
    ts: u64,
)
    requires
        cmd is SubmitOrder,
        cmd->order_type == OrderType::Market,
        market.listed,
        refused_on_acting(stamped(cmd, last_px), market, ts) is None,
    ensures
        stamped(cmd, last_px)->SubmitOrder_price is Some,
        market.open != Some(false),
{
}

/// A price that an order states is never replaced.
pub proof fn a_stated_price_stands(cmd: ClientMessage<Seq<char>>, last_px: Option<Dec>)
    requires
        cmd is SubmitOrder,
        cmd->SubmitOrder_price is Some,
    ensures
        stamped(cmd, last_px) == cmd,
{
}

/// While the calendar of a listed symbol is closed, an order that would fill is
/// refused, under its own identifier, and any other order is not: a market order
/// would, and so would a limit order whose price the reading trades through. A
/// limit order that it does not trade through rests, and so does one that no
/// reading was made for.
pub proof fn a_closed_market_fills_nothing(
    client_order_id: Seq<char>,
    symbol: Seq<char>,
    side: Side,
    order_type: OrderType,
    price: Dec,
    reading_trades_through: Option<bool>,
    ts: u64,
)
    ensures
        ({
            let cmd = ClientMessage::SubmitOrder {
                client_order_id,
                symbol,
                side,
                order_type,
                price: Some(price),
            };
            let market = MarketView { listed: true, open: Some(false), reading_trades_through };
            let refusal = ServerMessage::OrderRejected {
                client_order_id,
                reason: "market closed"@,
                ts_event: ts,
            };
            &&& order_type == OrderType::Market ==> refused_on_acting(cmd, market, ts) == Some(refusal)
            &&& order_type == OrderType::Limit && reading_trades_through == Some(true)
                ==> refused_on_acting(cmd, market, ts) == Some(refusal)
            &&& order_type == OrderType::Limit && reading_trades_through != Some(true)
                ==> refused_on_acting(cmd, market, ts) is None
            &&& order_type == OrderType::Other ==> refused_on_acting(cmd, market, ts) is None
        }),
{
}

/// A market that is open, or that keeps no calendar, or a symbol that the venue
/// does not list, refuses no order that has a price, and a command that submits
/// no order is never refused when the venue acts.
pub proof fn an_open_market_refuses_no_priced_order(
    cmd: ClientMessage<Seq<char>>,
    market: MarketView,
    ts: u64,
)
    ensures
        cmd is SubmitOrder && cmd->SubmitOrder_price is Some && (market.open != Some(false)
            || !market.listed) ==> refused_on_acting(cmd, market, ts) is None,
        !(cmd is SubmitOrder) ==> refused_on_acting(cmd, market, ts) is None,
{
}

/// A market order that no price was found for is refused under its own
/// identifier, open or closed, where the venue lists its symbol; an order of any
/// other kind, and one for a symbol that it does not list, is not refused for
/// want of a price.
pub proof fn only_a_listed_market_order_needs_a_price(
    client_order_id: Seq<char>,
    symbol: Seq<char>,
    side: Side,
    order_type: OrderType,
    market: MarketView,
    ts: u64,
)
    ensures
        ({
            let cmd = ClientMessage::SubmitOrder {
                client_order_id,
                symbol,
                side,
                order_type,
                price: None,
            };
            &&& refused_on_acting(cmd, market, ts) is Some == (order_type == OrderType::Market
                && market.listed)
            &&& refused_on_acting(cmd, market, ts) is Some ==> refused_on_acting(cmd, market, ts)
                == Some(
                ServerMessage::OrderRejected {
                    client_order_id,
                    reason: "venue could not synthesize a market price at sim-now"@,
                    ts_event: ts,
                },
            )
        }),
{
}

/// A market order that states no price has the last one, whatever it is; every
/// other command goes on as it came.
pub proof fn only_an_unpriced_market_order_is_stamped(
    cmd: ClientMessage<Seq<char>>,
    last_px: Option<Dec>,
)
    ensures
        ({
            let after = stamped(cmd, last_px);
            if cmd is SubmitOrder && cmd->order_type == OrderType::Market
                && cmd->SubmitOrder_price is None {
                &&& after is SubmitOrder
                &&& after->SubmitOrder_price == last_px
                &&& after->SubmitOrder_client_order_id == cmd->SubmitOrder_client_order_id
                &&& after->symbol == cmd->symbol
                &&& after->side == cmd->side
                &&& after->order_type == cmd->order_type
            } else {
                after == cmd
            }
        }),
{
}

/// An order is refused as it comes in where the wire finds fault with it, and
/// otherwise just where it is for another symbol than that of its connection;
/// other commands are refused only for their form.
pub proof fn an_entry_is_refused_for_its_form_or_its_symbol(
    cmd: ClientMessage<Seq<char>>,
    verdicts: Verdicts,
    bound: Seq<char>,
)
    ensures
        ({
            let fault = fault_on_entry(cmd, verdicts, bound);
            &&& malformed(cmd, verdicts) is Some ==> fault == Some(
                EntryFault::Malformed { reason: malformed(cmd, verdicts)->0 },
            )
            &&& malformed(cmd, verdicts) is None ==> (fault is Some == (cmd is SubmitOrder
                && cmd->symbol != bound))
            &&& malformed(cmd, verdicts) is None && fault is Some ==> fault == Some(
                EntryFault::<Seq<char>>::Mismatch,
            )
        }),
{
}

/// What the wire says against a command is said, whichever part it is said of:
/// a command has nothing against it just where the wire says nothing against any
/// of its parts. Of an amendment its identifier is looked at before its numbers,
/// and of a query its own before that of the order which it names.
pub proof fn a_verdict_is_heard(cmd: ClientMessage<Seq<char>>, verdicts: Verdicts)
    ensures
        cmd is SubmitOrder ==> malformed(cmd, verdicts) == optional_view(verdicts.order),
        cmd is CancelOrder ==> malformed(cmd, verdicts) == optional_view(verdicts.client_order_id),
        cmd is ModifyOrder ==> {
            &&& verdicts.client_order_id is Some ==> malformed(cmd, verdicts) == Some(
                verdicts.client_order_id->0@,
            )
            &&& verdicts.client_order_id is None && verdicts.numbers is Some ==> malformed(
                cmd,
                verdicts,
            ) == Some(verdicts.numbers->0@)
            &&& malformed(cmd, verdicts) is None == (verdicts.client_order_id is None
                && verdicts.numbers is None)
        },
        cmd is QueryOrders ==> {
            &&& verdicts.request_id is Some ==> malformed(cmd, verdicts) == Some(
                verdicts.request_id->0@,
            )
            &&& verdicts.request_id is None && cmd->QueryOrders_client_order_id is Some
                ==> malformed(cmd, verdicts) == optional_view(verdicts.client_order_id)
            &&& verdicts.request_id is None && cmd->QueryOrders_client_order_id is None
                ==> malformed(cmd, verdicts) is None
        },
        cmd is QueryFills ==> {
            &&& verdicts.request_id is Some ==> malformed(cmd, verdicts) == Some(
                verdicts.request_id->0@,
            )
            &&& verdicts.request_id is None && cmd->QueryFills_client_order_id is Some ==> malformed(
                cmd,
                verdicts,
            ) == optional_view(verdicts.client_order_id)
            &&& verdicts.request_id is None && cmd->QueryFills_client_order_id is None ==> malformed(
                cmd,
                verdicts,
            ) is None
        },
{
}

/// A malformed command is refused in its own kind: an order as an order, an
/// amendment as an amendment, a cancellation as a cancellation, each under the
/// identifier as it was cut, and a query without one. The reason starts with what
/// the wire said, and says no more unless the identifier was too long.
pub proof fn a_refusal_is_of_its_own_kind(
    cmd: ClientMessage<Seq<char>>,
    cut_id: Seq<char>,
    reason: Seq<char>,
    max_id_len: usize,
    ts: u64,
)
    ensures
        ({
            let refusal = refusal_of(cmd, cut_id, reason, max_id_len, ts);
            &&& cmd is SubmitOrder ==> refusal is OrderRejected
                && refusal->OrderRejected_client_order_id == cut_id
                && refusal->OrderRejected_ts_event == ts
                && refusal->OrderRejected_reason.take(reason.len() as int) == reason
                && (refusal->OrderRejected_reason.len() > reason.len()) == (byte_len(
                cmd->SubmitOrder_client_order_id,
            ) > max_id_len)
            &&& cmd is ModifyOrder ==> refusal is OrderModifyRejected
                && refusal->OrderModifyRejected_client_order_id == cut_id
                && refusal->OrderModifyRejected_ts_event == ts
                && refusal->OrderModifyRejected_reason.take(reason.len() as int) == reason
                && (refusal->OrderModifyRejected_reason.len() > reason.len()) == (byte_len(
                cmd->ModifyOrder_client_order_id,
            ) > max_id_len)
            &&& cmd is CancelOrder ==> refusal is OrderCancelRejected
                && refusal->OrderCancelRejected_client_order_id == cut_id
                && refusal->OrderCancelRejected_ts_event == ts
                && refusal->OrderCancelRejected_reason.take(reason.len() as int) == reason
                && (refusal->OrderCancelRejected_reason.len() > reason.len()) == (byte_len(
                cmd->CancelOrder_client_order_id,
            ) > max_id_len)
            &&& cmd is QueryOrders || cmd is QueryFills ==> refusal
                == (ServerMessage::ProtocolError { reason, ts_event: ts })
        }),
{
    reveal_strlit(
        "; the identifier was truncated for display and no order exists under either spelling",
    );
    let word =
        "; the identifier was truncated for display and no order exists under either spelling"@;
    assert((reason + word).take(reason.len() as int) =~= reason);
    assert(reason.take(reason.len() as int) =~= reason);
}

/// The venue takes its own time for each kind of command, and none for a query.
pub proof fn each_kind_has_its_own_delay(cmd: ClientMessage<Seq<char>>, delays: ActDelays)
    ensures
        ({
            let ns = act_ns(class_of(cmd), delays);
            &&& cmd is SubmitOrder && delays.submit_ms * 1_000_000 <= u64::MAX ==> ns
                == delays.submit_ms * 1_000_000
            &&& cmd is ModifyOrder && delays.modify_ms * 1_000_000 <= u64::MAX ==> ns
                == delays.modify_ms * 1_000_000
            &&& cmd is CancelOrder && delays.cancel_ms * 1_000_000 <= u64::MAX ==> ns
                == delays.cancel_ms * 1_000_000
            &&& cmd is QueryOrders || cmd is QueryFills ==> ns == 0
        }),
{
}

/// A tape is read just for what may fill: the order's own for an order, the
/// connection's for a new price, and none for what has no price to meet.
pub proof fn a_tape_is_read_for_what_may_fill(cmd: ClientMessage<Seq<char>>, bound: Seq<char>)
    ensures
        cmd is SubmitOrder ==> read_for(cmd, bound) == Some(cmd->symbol),
        cmd is ModifyOrder ==> read_for(cmd, bound) == if cmd->ModifyOrder_price is Some {
            Some(bound)
        } else {
            None
        },
        cmd is CancelOrder || cmd is QueryOrders || cmd is QueryFills ==> read_for(cmd, bound)
            is None,
{
}

/// With room a command comes to what was said against it, or to the engine where
/// nothing was; without room it comes to a refusal that names the command, by its
/// own identifier.
pub proof fn a_command_comes_to_what_was_said(
    cmd: ClientMessage<Seq<char>>,
    refusal: Option<ServerMessage<Seq<char>>>,
    ts: u64,
)
    ensures
        (concluded(cmd, refusal, true, ts) is Produced) == refusal is None,
        refusal is Some && !(refusal->0 is ProtocolError) ==> concluded(cmd, refusal, true, ts) == (
        OrderOutcome::Refused { event: refusal->0 }),
        refusal is Some && refusal->0 is ProtocolError ==> concluded(cmd, refusal, true, ts) == (
        OrderOutcome::Diagnostic { event: refusal->0 }),
        ({
            let event = concluded(cmd, refusal, false, ts)->NotAdmitted_event;
            let subject = event->subject;
            &&& event is AdmissionRejected
            &&& event->AdmissionRejected_ts_event == ts
            &&& cmd is SubmitOrder ==> subject is Submit && subject->Submit_client_order_id
                == cmd->SubmitOrder_client_order_id
            &&& cmd is ModifyOrder ==> subject is Modify && subject->Modify_client_order_id
                == cmd->ModifyOrder_client_order_id
            &&& cmd is CancelOrder ==> subject is Cancel && subject->Cancel_client_order_id
                == cmd->CancelOrder_client_order_id
            &&& cmd is QueryOrders ==> subject == (AdmissionSubject::Query {
                request_id: cmd->QueryOrders_request_id,
                query: QueryKind::Orders,
            })
            &&& cmd is QueryFills ==> subject == (AdmissionSubject::Query {
                request_id: cmd->QueryFills_request_id,
                query: QueryKind::Fills,
            })
        }),
{
}

} // verus!
