//! The steps that a command on orders takes from its arrival to its outcome,
//! and what the venue does between them.

use vstd::prelude::*;

use crate::decimal::Dec;
use crate::orders::act;
use crate::orders::act_delay;
use crate::orders::act_ns;
use crate::orders::class_of;
use crate::orders::command_view;
use crate::orders::conclude;
use crate::orders::concluded;
use crate::orders::enter;
use crate::orders::fault_on_entry;
use crate::orders::fault_view;
use crate::orders::mismatch_text;
use crate::orders::optional_message_view;
use crate::orders::optional_view;
use crate::orders::outcome_view;
use crate::orders::read_for;
use crate::orders::refuse_on_entry;
use crate::orders::refused_on_acting;
use crate::orders::refused_on_entry;
use crate::orders::stamp_market_price;
use crate::orders::stamped;
use crate::orders::tape_to_read;
use crate::orders::text_to_cut;
use crate::orders::uncut;
use crate::orders::ActDelays;
use crate::orders::ClientMessage;
use crate::orders::EntryFault;
use crate::orders::MarketView;
use crate::orders::OrderOutcome;
use crate::orders::ServerMessage;
use crate::orders::Verdicts;

verus! {

/// A command under way, with the symbol that its connection is bound to.
#[derive(Debug)]
pub struct Pending {
    cmd: ClientMessage<String>,
    bound: String,
}

/// A command that the venue has judged: what is said against it, if anything,
/// and when.
#[derive(Debug)]
pub struct Judged {
    cmd: ClientMessage<String>,
    refusal: Option<ServerMessage<String>>,
    ts: u64,
}

/// What the venue does next about a command.
#[derive(Debug)]
pub enum OrderStep {
    /// It has the wire cut a text to its length, for a refusal to carry.
    Cut { text: String, order: Cutting },
    /// It makes the order's instrument tradable on the ledger.
    Register { order: Registering },
    /// It lets so much simulated time pass.
    Sleep { ns: u64, order: Sleeping },
    /// It reads the tape of a symbol, where there is one to read, and then the
    /// clock.
    Read { symbol: Option<String>, order: Reading },
    /// It asks for the room that the answer needs: that of one refusal, or that
    /// of all that the engine could say.
    Reserve { boundary: bool, order: Judged },
}

/// A command that is refused as it came in, once a text is cut.
#[derive(Debug)]
pub struct Cutting {
    cmd: ClientMessage<String>,
    fault: EntryFault<String>,
    max_id_len: usize,
    ts: u64,
}

/// An order whose instrument is being registered.
#[derive(Debug)]
pub struct Registering(Pending);

/// A command that waits for the venue to act.
#[derive(Debug)]
pub struct Sleeping(Pending);

/// A command for which the tape is read.
#[derive(Debug)]
pub struct Reading(Pending);

/// What the venue does next, in the abstract.
#[allow(inconsistent_fields)]
pub enum StepView {
    Cut {
        text: Seq<char>,
        cmd: ClientMessage<Seq<char>>,
        fault: EntryFault<Seq<char>>,
        max_id_len: usize,
        ts: u64,
    },
    Register { cmd: ClientMessage<Seq<char>>, bound: Seq<char> },
    Sleep { ns: u64, cmd: ClientMessage<Seq<char>>, bound: Seq<char> },
    Read { symbol: Option<Seq<char>>, cmd: ClientMessage<Seq<char>>, bound: Seq<char> },
    Reserve {
        boundary: bool,
        cmd: ClientMessage<Seq<char>>,
        refusal: Option<ServerMessage<Seq<char>>>,
        ts: u64,
    },
}

impl Pending {
    pub closed spec fn command(self) -> ClientMessage<Seq<char>> {
        command_view(self.cmd)
    }

    pub closed spec fn symbol(self) -> Seq<char> {
        self.bound@
    }
}

impl Cutting {
    pub closed spec fn command(self) -> ClientMessage<Seq<char>> {
        command_view(self.cmd)
    }

    pub closed spec fn found(self) -> EntryFault<Seq<char>> {
        fault_view(self.fault)
    }

    pub closed spec fn id_len(self) -> usize {
        self.max_id_len
    }

    pub closed spec fn at(self) -> u64 {
        self.ts
    }
}

impl Registering {
    pub closed spec fn pending(self) -> Pending {
        self.0
    }
}

impl Sleeping {
    pub closed spec fn pending(self) -> Pending {
        self.0
    }
}

impl Reading {
    pub closed spec fn pending(self) -> Pending {
        self.0
    }
}

impl Judged {
    pub closed spec fn command(self) -> ClientMessage<Seq<char>> {
        command_view(self.cmd)
    }

    pub closed spec fn said(self) -> Option<ServerMessage<Seq<char>>> {
        optional_message_view(self.refusal)
    }

    pub closed spec fn at(self) -> u64 {
        self.ts
    }
}

impl View for OrderStep {
    type V = StepView;

    open spec fn view(&self) -> StepView {
        match *self {
            OrderStep::Cut { text, order } => StepView::Cut {
                text: text@,
                cmd: order.command(),
                fault: order.found(),
                max_id_len: order.id_len(),
                ts: order.at(),
            },
            OrderStep::Register { order } => StepView::Register {
                cmd: order.pending().command(),
                bound: order.pending().symbol(),
            },
            OrderStep::Sleep { ns, order } => StepView::Sleep {
                ns,
                cmd: order.pending().command(),
                bound: order.pending().symbol(),
            },
            OrderStep::Read { symbol, order } => StepView::Read {
                symbol: optional_view(symbol),
                cmd: order.pending().command(),
                bound: order.pending().symbol(),
            },
            OrderStep::Reserve { boundary, order } => StepView::Reserve {
                boundary,
                cmd: order.command(),
                refusal: order.said(),
                ts: order.at(),
            },
        }
    }
}

/// What follows once the venue acts: the tape is read.
pub open spec fn when_acting(cmd: ClientMessage<Seq<char>>, bound: Seq<char>) -> StepView {
    StepView::Read { symbol: read_for(cmd, bound), cmd, bound }
}

/// What follows once a command may go on: the venue takes its time, where it
/// takes any.
pub open spec fn when_registered(
    cmd: ClientMessage<Seq<char>>,
    bound: Seq<char>,
    delays: ActDelays,
) -> StepView {
    let ns = act_ns(class_of(cmd), delays);
    if ns > 0 {
        StepView::Sleep { ns, cmd, bound }
    } else {
        when_acting(cmd, bound)
    }
}

/// What follows once a text is cut: the refusal that carries it needs room.
pub open spec fn when_cut(
    cmd: ClientMessage<Seq<char>>,
    fault: EntryFault<Seq<char>>,
    cut: Seq<char>,
    max_id_len: usize,
    ts: u64,
) -> StepView {
    StepView::Reserve {
        boundary: true,
        cmd,
        refusal: Some(refused_on_entry(cmd, fault, cut, max_id_len, ts)),
        ts,
    }
}

/// What follows the arrival of a command: a refusal needs its text cut, where it
/// carries one that is, and room, and nothing else; and an order has its
/// instrument registered first.
pub open spec fn when_arrived(
    cmd: ClientMessage<Seq<char>>,
    bound: Seq<char>,
    fault: Option<EntryFault<Seq<char>>>,
    max_id_len: usize,
    delays: ActDelays,
    ts: u64,
) -> StepView {
    match fault {
        Some(fault) => match uncut(cmd, fault, bound) {
            Some(text) => StepView::Cut { text, cmd, fault, max_id_len, ts },
            None => when_cut(cmd, fault, Seq::empty(), max_id_len, ts),
        },
        None => if cmd is SubmitOrder {
            StepView::Register { cmd, bound }
        } else {
            when_registered(cmd, bound, delays)
        },
    }
}

/// What follows the reading of the tape: the command is judged as the market
/// then is.
pub open spec fn when_read(
    cmd: ClientMessage<Seq<char>>,
    last_px: Option<Dec>,
    market: MarketView,
    ts: u64,
) -> StepView {
    let priced = stamped(cmd, last_px);
    let refusal = refused_on_acting(priced, market, ts);
    StepView::Reserve { boundary: refusal is Some, cmd: priced, refusal, ts }
}

fn acting(pending: Pending) -> (step: OrderStep)
    ensures
        step@ == when_acting(pending.command(), pending.symbol()),
{
    let symbol = tape_to_read(&pending.cmd, pending.bound.as_str());
    OrderStep::Read { symbol, order: Reading(pending) }
}

fn going_on(pending: Pending, delays: ActDelays) -> (step: OrderStep)
    ensures
        step@ == when_registered(pending.command(), pending.symbol(), delays),
{
    let ns: u64 = act_delay(&pending.cmd, delays);
    if ns > 0 {
        OrderStep::Sleep { ns, order: Sleeping(pending) }
    } else {
        acting(pending)
    }
}

/// Takes a command in that arrives at `ts` over a connection.
pub fn process_order_cmd(
    cmd: ClientMessage<String>,
    verdicts: &Verdicts,
    max_id_len: usize,
    bound: &str,
    delays: ActDelays,
    ts: u64,
) -> (step: OrderStep)
    ensures
        step@ == when_arrived(
            command_view(cmd),
            bound@,
            fault_on_entry(command_view(cmd), *verdicts, bound@),
            max_id_len,
            delays,
            ts,
        ),
{
    if let Some(fault) = enter(&cmd, verdicts, bound) {
        return match text_to_cut(&cmd, &fault, bound) {
            Some(text) => OrderStep::Cut { text, order: Cutting { cmd, fault, max_id_len, ts } },
            None => {
                let nothing = String::new();
                assert(nothing@ =~= Seq::<char>::empty());
                Cutting { cmd, fault, max_id_len, ts }.cut(nothing)
            },
        };
    }
    let registers = match &cmd {
        ClientMessage::SubmitOrder { .. } => true,
        _ => false,
    };
    let pending = Pending { cmd, bound: bound.to_owned() };
    if registers {
        OrderStep::Register { order: Registering(pending) }
    } else {
        going_on(pending, delays)
    }
}

impl Cutting {
    /// Goes on once the wire has cut the text.
    pub fn cut(self, text: String) -> (step: OrderStep)
        ensures
            step@ == when_cut(self.command(), self.found(), text@, self.id_len(), self.at()),
    {
        let event = refuse_on_entry(
            &self.cmd,
            &self.fault,
            text.as_str(),
            self.max_id_len,
            self.ts,
        );
        OrderStep::Reserve {
            boundary: true,
            order: Judged { cmd: self.cmd, refusal: Some(event), ts: self.ts },
        }
    }
}

impl Registering {
    /// Goes on once the instrument is registered, or was found to be unknown:
    /// the engine says so in its own words.
    pub fn registered(self, delays: ActDelays) -> (step: OrderStep)
        ensures
            step@ == when_registered(
                self.pending().command(),
                self.pending().symbol(),
                delays,
            ),
    {
        going_on(self.0, delays)
    }
}

impl Sleeping {
    /// Goes on once the venue acts.
    pub fn acted(self) -> (step: OrderStep)
        ensures
            step@ == when_acting(self.pending().command(), self.pending().symbol()),
    {
        acting(self.0)
    }
}

impl Reading {
    /// Goes on once the tape was read, and then the clock at `ts`. The last
    /// price is that of the venue's reading, or of the tape itself where there
    /// is none.
    pub fn read(
        self,
        reading_px: Option<Dec>,
        tape_px: Option<Dec>,
        market: MarketView,
        ts: u64,
    ) -> (step: OrderStep)
        ensures
            step@ == when_read(
                self.pending().command(),
                match reading_px {
                    Some(px) => Some(px),
                    None => tape_px,
                },
                market,
                ts,
            ),
    {
        let priced = stamp_market_price(self.0.cmd, reading_px, tape_px);
        let refusal = act(&priced, market, ts);
        OrderStep::Reserve {
            boundary: refusal.is_some(),
            order: Judged { cmd: priced, refusal, ts },
        }
    }
}

impl Judged {
    /// What the command comes to, once it is known whether there is room. The
    /// command is handed back for the engine.
    pub fn conclude(self, room: bool) -> (concluded_as: (OrderOutcome<String>, ClientMessage<String>))
        ensures
            outcome_view(concluded_as.0) == concluded(
                self.command(),
                self.said(),
                room,
                self.at(),
            ),
            command_view(concluded_as.1) == self.command(),
    {
        (conclude(&self.cmd, self.refusal, room, self.ts), self.cmd)
    }
}

/// A command that is refused on its arrival is refused at once: no instrument is
/// registered, no time passes and no tape is read for it. Only a text may have to
/// be cut, which is the order's own identifier or the reason of a mismatch.
pub proof fn a_refusal_is_not_an_act(
    cmd: ClientMessage<Seq<char>>,
    bound: Seq<char>,
    fault: EntryFault<Seq<char>>,
    cut: Seq<char>,
    max_id_len: usize,
    delays: ActDelays,
    ts: u64,
)
    ensures
        ({
            let step = when_arrived(cmd, bound, Some(fault), max_id_len, delays, ts);
            let refused = when_cut(cmd, fault, cut, max_id_len, ts);
            &&& step is Cut == uncut(cmd, fault, bound) is Some
            &&& step is Cut ==> step->Cut_text == uncut(cmd, fault, bound)->0
            &&& step is Cut || step is Reserve
            &&& refused is Reserve
            &&& fault is Mismatch && cmd is SubmitOrder ==> step is Cut && step->Cut_text
                == mismatch_text(cmd->symbol, bound) && refused->refusal == Some(
                ServerMessage::OrderRejected {
                    client_order_id: cmd->SubmitOrder_client_order_id,
                    reason: cut,
                    ts_event: ts,
                },
            )
        }),
{
}

/// An order is registered before the venue takes its time, and takes its time
/// before the tape is read: it meets the tape as it is when the venue acts.
pub proof fn an_order_meets_the_tape_when_the_venue_acts(
    cmd: ClientMessage<Seq<char>>,
    bound: Seq<char>,
    max_id_len: usize,
    delays: ActDelays,
    ts: u64,
)
    requires
        cmd is SubmitOrder,
    ensures
        when_arrived(cmd, bound, None, max_id_len, delays, ts) == (StepView::Register { cmd, bound }),
        act_ns(class_of(cmd), delays) > 0 ==> when_registered(cmd, bound, delays) is Sleep,
        when_registered(cmd, bound, delays) is Sleep || when_registered(cmd, bound, delays)
            == when_acting(cmd, bound),
{
}

/// A query waits for nothing and reads nothing.
pub proof fn a_query_goes_straight_to_the_engine(
    cmd: ClientMessage<Seq<char>>,
    bound: Seq<char>,
    max_id_len: usize,
    delays: ActDelays,
    ts: u64,
    last_px: Option<Dec>,
    market: MarketView,
    later: u64,
)
    requires
        cmd is QueryOrders || cmd is QueryFills,
    ensures
        when_arrived(cmd, bound, None, max_id_len, delays, ts) == (StepView::Read {
            symbol: None,
            cmd,
            bound,
        }),
        when_read(cmd, last_px, market, later) == (StepView::Reserve {
            boundary: false,
            cmd,
            refusal: None,
            ts: later,
        }),
{
}

/// What follows the reading of the tape is the room that the answer needs: that of
/// one refusal where the command is refused, and else that of all the engine could
/// say, for the command as it is priced, at the instant at which it was judged.
pub proof fn a_judged_command_asks_for_its_room(
    cmd: ClientMessage<Seq<char>>,
    last_px: Option<Dec>,
    market: MarketView,
    ts: u64,
)
    ensures
        ({
            let step = when_read(cmd, last_px, market, ts);
            &&& step is Reserve
            &&& step->boundary == step->refusal is Some
            &&& step->refusal == refused_on_acting(step->Reserve_cmd, market, ts)
            &&& step->Reserve_ts == ts
            &&& !(cmd is SubmitOrder) ==> step->refusal is None && step->Reserve_cmd == cmd
        }),
{
}

/// The venue sleeps just for as long as it takes to act on a command of its kind,
/// and reads the tape at once where it takes no time.
pub proof fn the_venue_takes_its_time(
    cmd: ClientMessage<Seq<char>>,
    bound: Seq<char>,
    delays: ActDelays,
)
    ensures
        ({
            let step = when_registered(cmd, bound, delays);
            let ns = act_ns(class_of(cmd), delays);
            &&& ns > 0 ==> step == (StepView::Sleep { ns, cmd, bound })
            &&& ns == 0 ==> step is Read && step->Read_symbol == read_for(cmd, bound)
                && step->Read_cmd == cmd
        }),
{
}

} // verus!
