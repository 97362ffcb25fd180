//! What an operator arms against the venue: windows in which an account hears
//! nothing, delays, surcharges and divergences of its ledger.
//!
//! An arm is a statement about the run. What was armed before an account is
//! opened is kept on record, and the account is opened with it.

use vstd::prelude::*;

use crate::decimal::Dec;
use crate::duration::later;
use crate::orders::CommandClass;
use crate::roll::Roll;

verus! {

/// A window, armed at a wall-clock instant for a simulated span. It holds no
/// simulated instant: each reader opens it on its own clock.
#[derive(Clone, Copy, Debug, PartialEq, Eq, Structural)]
pub struct ArmedSpan {
    pub wall_armed_ns: u64,
    pub sim_span_ns: u64,
}

/// A window that may be armed.
#[derive(Clone, Copy, Debug, PartialEq, Eq, Structural)]
pub struct HavocWindow {
    pub span: Option<ArmedSpan>,
}

/// Where a window opens for a reader: where the reader's clock was when it was
/// armed, but not before the clock's own epoch.
pub open spec fn opening(armed_at_ns: u64, sim_epoch_ns: u64) -> u64 {
    if armed_at_ns > sim_epoch_ns {
        armed_at_ns
    } else {
        sim_epoch_ns
    }
}

impl HavocWindow {
    /// Whether the window is open for a reader whose clock showed
    /// `armed_at_ns` when it was armed, started at `sim_epoch_ns`, and shows
    /// `sim_at_ns` now.
    pub open spec fn is_open(self, armed_at_ns: u64, sim_epoch_ns: u64, sim_at_ns: u64) -> bool {
        self.span is Some && {
            let from = opening(armed_at_ns, sim_epoch_ns);
            from <= sim_at_ns < later(from, self.span->0.sim_span_ns)
        }
    }

    /// A window that is not armed.
    pub fn new() -> (window: HavocWindow)
        ensures
            window.span is None,
    {
        HavocWindow { span: None }
    }

    /// Arms the window. What it was armed with before is gone.
    pub fn arm(&mut self, wall_armed_ns: u64, sim_span_ns: u64)
        ensures
            final(self).span == Some(ArmedSpan { wall_armed_ns, sim_span_ns }),
    {
        self.span = Some(ArmedSpan { wall_armed_ns, sim_span_ns });
    }

    /// Clears the window. It is open on no clock.
    pub fn clear(&mut self)
        ensures
            final(self).span is None,
    {
        self.span = None;
    }

    /// Whether the window is open for a reader.
    pub fn open_at(&self, armed_at_ns: u64, sim_epoch_ns: u64, sim_at_ns: u64) -> (answer: bool)
        ensures
            answer == self.is_open(armed_at_ns, sim_epoch_ns, sim_at_ns),
    {
        match self.span {
            Some(span) => {
                let from: u64 = if armed_at_ns > sim_epoch_ns {
                    armed_at_ns
                } else {
                    sim_epoch_ns
                };
                from <= sim_at_ns && sim_at_ns < from.saturating_add(span.sim_span_ns)
            },
            None => false,
        }
    }
}

/// A window is open for the same simulated span on every clock, as long as the
/// clock can tell it.
pub proof fn a_window_spans_the_same_on_every_clock(
    window: HavocWindow,
    armed_at_ns: u64,
    sim_epoch_ns: u64,
    after_ns: u64,
)
    requires
        window.span is Some,
        opening(armed_at_ns, sim_epoch_ns) + window.span->0.sim_span_ns <= u64::MAX,
        opening(armed_at_ns, sim_epoch_ns) + after_ns <= u64::MAX,
    ensures
        window.is_open(
            armed_at_ns,
            sim_epoch_ns,
            (opening(armed_at_ns, sim_epoch_ns) + after_ns) as u64,
        ) == (after_ns < window.span->0.sim_span_ns),
{
}

/// A reader whose clock started after the window was armed has the whole span,
/// from its own epoch.
pub proof fn a_late_boarder_has_the_whole_window(
    window: HavocWindow,
    armed_at_ns: u64,
    sim_epoch_ns: u64,
    sim_at_ns: u64,
)
    requires
        window.span is Some,
        armed_at_ns <= sim_epoch_ns,
    ensures
        window.is_open(armed_at_ns, sim_epoch_ns, sim_at_ns) == (sim_epoch_ns <= sim_at_ns < later(
            sim_epoch_ns,
            window.span->0.sim_span_ns,
        )),
{
}

/// How slow the venue is to act on each kind of command, and to say so.
#[derive(Clone, Copy, Debug, PartialEq, Eq, Structural)]
pub struct Latency {
    pub submit_act_ms: u64,
    pub modify_act_ms: u64,
    pub cancel_act_ms: u64,
    pub submit_ack_ms: u64,
    pub modify_ack_ms: u64,
    pub cancel_ack_ms: u64,
}

/// Fees that are multiplied for a while.
#[derive(Clone, Copy, Debug, PartialEq, Eq, Structural)]
pub struct Surcharge {
    pub mult: Dec,
    pub armed_ns: u64,
    pub span_ns: u64,
}

/// One arm. A divergence of a ledger is known by a number of its own.
#[derive(Clone, Copy, Debug, PartialEq, Eq, Structural)]
pub enum VenueArm {
    DelayAcks { ms: u64 },
    CommandLatency { latency: Latency },
    GoDark { span: ArmedSpan },
    StallData { span: ArmedSpan },
    FeeSurcharge { surcharge: Surcharge },
    Engine { divergence: u64 },
}

/// How slow the venue is to act on a kind of command.
pub open spec fn act_of(latency: Latency, class: CommandClass) -> u64 {
    match class {
        CommandClass::Submit => latency.submit_act_ms,
        CommandClass::Modify => latency.modify_act_ms,
        CommandClass::Cancel => latency.cancel_act_ms,
    }
}

/// How slow the venue is to say what it did with a kind of command.
pub open spec fn ack_of(latency: Latency, class: CommandClass) -> u64 {
    match class {
        CommandClass::Submit => latency.submit_ack_ms,
        CommandClass::Modify => latency.modify_ack_ms,
        CommandClass::Cancel => latency.cancel_ack_ms,
    }
}

impl Latency {
    /// How slow the venue is to act on a kind of command.
    pub fn act_ms(&self, class: CommandClass) -> (ms: u64)
        ensures
            ms == act_of(*self, class),
    {
        match class {
            CommandClass::Submit => self.submit_act_ms,
            CommandClass::Modify => self.modify_act_ms,
            CommandClass::Cancel => self.cancel_act_ms,
        }
    }

    /// How slow the venue is to say what it did with a kind of command.
    pub fn ack_ms(&self, class: CommandClass) -> (ms: u64)
        ensures
            ms == ack_of(*self, class),
    {
        match class {
            CommandClass::Submit => self.submit_ack_ms,
            CommandClass::Modify => self.modify_ack_ms,
            CommandClass::Cancel => self.cancel_ack_ms,
        }
    }
}

/// What an account's connections suffer.
#[derive(Clone, Copy, Debug, PartialEq, Eq, Structural)]
pub struct Transport {
    pub dark: HavocWindow,
    pub stall: HavocWindow,
    pub delay_ms: u64,
    pub latency: Latency,
}

/// Connections that suffer nothing.
pub open spec fn calm() -> Transport {
    Transport {
        dark: HavocWindow { span: None },
        stall: HavocWindow { span: None },
        delay_ms: 0,
        latency: Latency {
            submit_act_ms: 0,
            modify_act_ms: 0,
            cancel_act_ms: 0,
            submit_ack_ms: 0,
            modify_ack_ms: 0,
            cancel_ack_ms: 0,
        },
    }
}

/// What an account's connections suffer once something is armed: an arm
/// replaces what it names, and leaves the rest.
pub open spec fn transported(transport: Transport, arm: VenueArm) -> Transport {
    match arm {
        VenueArm::DelayAcks { ms } => Transport { delay_ms: ms, ..transport },
        VenueArm::CommandLatency { latency } => Transport { latency, ..transport },
        VenueArm::GoDark { span } => Transport {
            dark: HavocWindow { span: Some(span) },
            ..transport
        },
        VenueArm::StallData { span } => Transport {
            stall: HavocWindow { span: Some(span) },
            ..transport
        },
        VenueArm::FeeSurcharge { .. } => transport,
        VenueArm::Engine { .. } => transport,
    }
}

impl Transport {
    /// Connections that suffer nothing.
    pub fn new() -> (transport: Transport)
        ensures
            transport == calm(),
    {
        Transport {
            dark: HavocWindow::new(),
            stall: HavocWindow::new(),
            delay_ms: 0,
            latency: Latency {
                submit_act_ms: 0,
                modify_act_ms: 0,
                cancel_act_ms: 0,
                submit_ack_ms: 0,
                modify_ack_ms: 0,
                cancel_ack_ms: 0,
            },
        }
    }

    /// Applies what of an arm connections suffer.
    pub fn apply(&mut self, arm: VenueArm)
        ensures
            *final(self) == transported(*old(self), arm),
    {
        match arm {
            VenueArm::DelayAcks { ms } => {
                self.delay_ms = ms;
            },
            VenueArm::CommandLatency { latency } => {
                self.latency = latency;
            },
            VenueArm::GoDark { span } => {
                self.dark.arm(span.wall_armed_ns, span.sim_span_ns);
            },
            VenueArm::StallData { span } => {
                self.stall.arm(span.wall_armed_ns, span.sim_span_ns);
            },
            VenueArm::FeeSurcharge { .. } => {},
            VenueArm::Engine { .. } => {},
        }
    }

    /// Lifts everything.
    pub fn clear(&mut self)
        ensures
            *final(self) == calm(),
    {
        *self = Transport::new();
    }
}

/// A queue of divergences with one more: a full queue sheds its oldest.
pub open spec fn queued(queue: Seq<u64>, divergence: u64, cap: usize) -> Seq<u64> {
    if queue.len() >= cap {
        queue.drop_first().push(divergence)
    } else {
        queue.push(divergence)
    }
}

fn enqueue(queue: &mut Vec<u64>, divergence: u64, cap: usize) -> (shed: Option<u64>)
    requires
        cap > 0,
    ensures
        final(queue)@ == queued(old(queue)@, divergence, cap),
        shed == if old(queue)@.len() >= cap {
            Some(old(queue)@[0])
        } else {
            None
        },
        old(queue)@.len() <= cap ==> final(queue)@.len() <= cap,
{
    let mut shed = None;
    if queue.len() >= cap {
        shed = Some(queue.remove(0));
        assert(queue@ =~= old(queue)@.drop_first());
    }
    queue.push(divergence);
    shed
}

/// What a ledger is armed with.
#[derive(Debug)]
pub struct LedgerArms {
    pub surcharge: Option<Surcharge>,
    pub queue: Vec<u64>,
}

/// What a ledger is armed with, in the abstract.
pub struct LedgerArmsView {
    pub surcharge: Option<Surcharge>,
    pub queue: Seq<u64>,
}

/// A ledger that is armed with nothing.
pub open spec fn unarmed() -> LedgerArmsView {
    LedgerArmsView { surcharge: None, queue: Seq::empty() }
}

/// A ledger once something is armed.
pub open spec fn ledger_armed(ledger: LedgerArmsView, arm: VenueArm, cap: usize) -> LedgerArmsView {
    match arm {
        VenueArm::FeeSurcharge { surcharge } => LedgerArmsView {
            surcharge: Some(surcharge),
            queue: ledger.queue,
        },
        VenueArm::Engine { divergence } => LedgerArmsView {
            surcharge: ledger.surcharge,
            queue: queued(ledger.queue, divergence, cap),
        },
        _ => ledger,
    }
}

/// The divergence that a ledger sheds when something is armed.
pub open spec fn ledger_sheds(ledger: LedgerArmsView, arm: VenueArm, cap: usize) -> Option<u64> {
    if arm is Engine && ledger.queue.len() >= cap {
        Some(ledger.queue[0])
    } else {
        None
    }
}

impl View for LedgerArms {
    type V = LedgerArmsView;

    open spec fn view(&self) -> LedgerArmsView {
        LedgerArmsView { surcharge: self.surcharge, queue: self.queue@ }
    }
}

impl LedgerArms {
    /// A ledger that is armed with nothing.
    pub fn new() -> (ledger: LedgerArms)
        ensures
            ledger@ == unarmed(),
    {
        LedgerArms { surcharge: None, queue: Vec::new() }
    }

    /// Arms the ledger, and says which divergence it shed.
    pub fn arm(&mut self, arm: VenueArm, cap: usize) -> (shed: Option<u64>)
        requires
            cap > 0,
        ensures
            final(self)@ == ledger_armed(old(self)@, arm, cap),
            shed == ledger_sheds(old(self)@, arm, cap),
    {
        match arm {
            VenueArm::FeeSurcharge { surcharge } => {
                self.surcharge = Some(surcharge);
                None
            },
            VenueArm::Engine { divergence } => enqueue(&mut self.queue, divergence, cap),
            _ => None,
        }
    }
}

/// What was armed before a ledger was opened. What was never armed is absent,
/// and not zero: a record is played onto a ledger that may bear another's
/// effects.
#[derive(Debug)]
pub struct ArmRecord {
    pub dark: Option<ArmedSpan>,
    pub stall: Option<ArmedSpan>,
    pub delay_ms: Option<u64>,
    pub latency: Option<Latency>,
    pub surcharge: Option<Surcharge>,
    pub engine: Vec<u64>,
}

/// A record in the abstract.
pub struct ArmRecordView {
    pub dark: Option<ArmedSpan>,
    pub stall: Option<ArmedSpan>,
    pub delay_ms: Option<u64>,
    pub latency: Option<Latency>,
    pub surcharge: Option<Surcharge>,
    pub engine: Seq<u64>,
}

/// A record of nothing.
pub open spec fn blank_record() -> ArmRecordView {
    ArmRecordView {
        dark: None,
        stall: None,
        delay_ms: None,
        latency: None,
        surcharge: None,
        engine: Seq::empty(),
    }
}

/// A record with one more arm.
pub open spec fn recorded(record: ArmRecordView, arm: VenueArm, cap: usize) -> ArmRecordView {
    match arm {
        VenueArm::DelayAcks { ms } => ArmRecordView { delay_ms: Some(ms), ..record },
        VenueArm::CommandLatency { latency } => ArmRecordView { latency: Some(latency), ..record },
        VenueArm::GoDark { span } => ArmRecordView { dark: Some(span), ..record },
        VenueArm::StallData { span } => ArmRecordView { stall: Some(span), ..record },
        VenueArm::FeeSurcharge { surcharge } => ArmRecordView {
            surcharge: Some(surcharge),
            ..record
        },
        VenueArm::Engine { divergence } => ArmRecordView {
            engine: queued(record.engine, divergence, cap),
            ..record
        },
    }
}

/// A record after a clear: the divergences of the ledger stay.
pub open spec fn lifted(record: ArmRecordView) -> ArmRecordView {
    ArmRecordView {
        dark: None,
        stall: None,
        delay_ms: None,
        latency: None,
        surcharge: None,
        engine: record.engine,
    }
}

/// What connections suffer that are opened with a record.
pub open spec fn opened_transport(transport: Transport, record: ArmRecordView) -> Transport {
    Transport {
        dark: if record.dark is Some {
            HavocWindow { span: record.dark }
        } else {
            transport.dark
        },
        stall: if record.stall is Some {
            HavocWindow { span: record.stall }
        } else {
            transport.stall
        },
        delay_ms: match record.delay_ms {
            Some(ms) => ms,
            None => transport.delay_ms,
        },
        latency: match record.latency {
            Some(latency) => latency,
            None => transport.latency,
        },
    }
}

/// A queue onto which others are put one by one.
pub open spec fn queued_all(queue: Seq<u64>, more: Seq<u64>, cap: usize) -> Seq<u64>
    decreases more.len(),
{
    if more.len() == 0 {
        queue
    } else {
        queued(queued_all(queue, more.drop_last(), cap), more.last(), cap)
    }
}

/// A ledger that is opened with a record.
pub open spec fn opened_ledger(
    ledger: LedgerArmsView,
    record: ArmRecordView,
    cap: usize,
) -> LedgerArmsView {
    LedgerArmsView {
        surcharge: if record.surcharge is Some {
            record.surcharge
        } else {
            ledger.surcharge
        },
        queue: queued_all(ledger.queue, record.engine, cap),
    }
}

impl View for ArmRecord {
    type V = ArmRecordView;

    open spec fn view(&self) -> ArmRecordView {
        ArmRecordView {
            dark: self.dark,
            stall: self.stall,
            delay_ms: self.delay_ms,
            latency: self.latency,
            surcharge: self.surcharge,
            engine: self.engine@,
        }
    }
}

impl ArmRecord {
    /// A record of nothing.
    pub fn new() -> (record: ArmRecord)
        ensures
            record@ == blank_record(),
    {
        ArmRecord {
            dark: None,
            stall: None,
            delay_ms: None,
            latency: None,
            surcharge: None,
            engine: Vec::new(),
        }
    }

    /// Puts an arm on record.
    pub fn record(&mut self, arm: VenueArm, cap: usize)
        requires
            cap > 0,
        ensures
            final(self)@ == recorded(old(self)@, arm, cap),
    {
        match arm {
            VenueArm::DelayAcks { ms } => {
                self.delay_ms = Some(ms);
            },
            VenueArm::CommandLatency { latency } => {
                self.latency = Some(latency);
            },
            VenueArm::GoDark { span } => {
                self.dark = Some(span);
            },
            VenueArm::StallData { span } => {
                self.stall = Some(span);
            },
            VenueArm::FeeSurcharge { surcharge } => {
                self.surcharge = Some(surcharge);
            },
            VenueArm::Engine { divergence } => {
                enqueue(&mut self.engine, divergence, cap);
            },
        }
    }

    /// Lifts what a clear lifts.
    pub fn clear_transport_and_fee(&mut self)
        ensures
            final(self)@ == lifted(old(self)@),
    {
        self.dark = None;
        self.stall = None;
        self.delay_ms = None;
        self.latency = None;
        self.surcharge = None;
    }

    /// Plays the record onto connections that are being opened.
    pub fn open_transport(&self, transport: &mut Transport)
        ensures
            *final(transport) == opened_transport(*old(transport), self@),
    {
        if let Some(span) = self.dark {
            transport.dark.arm(span.wall_armed_ns, span.sim_span_ns);
        }
        if let Some(span) = self.stall {
            transport.stall.arm(span.wall_armed_ns, span.sim_span_ns);
        }
        if let Some(ms) = self.delay_ms {
            transport.delay_ms = ms;
        }
        if let Some(latency) = self.latency {
            transport.latency = latency;
        }
    }

    /// Plays the record onto a ledger that is being opened.
    pub fn open_engine(&self, ledger: &mut LedgerArms, cap: usize)
        requires
            cap > 0,
        ensures
            final(ledger)@ == opened_ledger(old(ledger)@, self@, cap),
    {
        let ghost start = ledger.queue@;
        if let Some(surcharge) = self.surcharge {
            ledger.surcharge = Some(surcharge);
        }
        let ghost surcharge = ledger.surcharge;
        let mut i: usize = 0;
        while i < self.engine.len()
            invariant
                i <= self.engine.len(),
                cap > 0,
                ledger.surcharge == surcharge,
                ledger.queue@ == queued_all(start, self.engine@.take(i as int), cap),
            decreases self.engine.len() - i,
        {
            assert(self.engine@.take(i + 1).drop_last() =~= self.engine@.take(i as int));
            enqueue(&mut ledger.queue, self.engine[i], cap);
            i += 1;
        }
        assert(self.engine@.take(i as int) =~= self.engine@);
    }
}

/// What an operator asks of the venue as a whole.
pub enum Request {
    Arm { arm: VenueArm },
    Clear,
}

/// The venue's record after requests.
pub open spec fn record_after(requests: Seq<Request>, cap: usize) -> ArmRecordView
    decreases requests.len(),
{
    if requests.len() == 0 {
        blank_record()
    } else {
        let before = record_after(requests.drop_last(), cap);
        match requests.last() {
            Request::Arm { arm } => recorded(before, arm, cap),
            Request::Clear => lifted(before),
        }
    }
}

/// What connections suffer that were there all along.
pub open spec fn transport_after(requests: Seq<Request>) -> Transport
    decreases requests.len(),
{
    if requests.len() == 0 {
        calm()
    } else {
        match requests.last() {
            Request::Arm { arm } => transported(transport_after(requests.drop_last()), arm),
            Request::Clear => calm(),
        }
    }
}

/// What a ledger is armed with that was there all along.
pub open spec fn ledger_after(requests: Seq<Request>, cap: usize) -> LedgerArmsView
    decreases requests.len(),
{
    if requests.len() == 0 {
        unarmed()
    } else {
        let before = ledger_after(requests.drop_last(), cap);
        match requests.last() {
            Request::Arm { arm } => ledger_armed(before, arm, cap),
            Request::Clear => LedgerArmsView { surcharge: None, queue: before.queue },
        }
    }
}

/// A queue that fits is played onto an empty one as it is.
pub proof fn a_short_queue_is_replayed(queue: Seq<u64>, cap: usize)
    requires
        queue.len() <= cap,
    ensures
        queued_all(Seq::empty(), queue, cap) == queue,
    decreases queue.len(),
{
    if queue.len() > 0 {
        a_short_queue_is_replayed(queue.drop_last(), cap);
        assert(queue.drop_last().push(queue.last()) =~= queue);
    } else {
        assert(queue =~= Seq::<u64>::empty());
    }
}

proof fn a_record_keeps_to_its_cap(requests: Seq<Request>, cap: usize)
    requires
        cap > 0,
    ensures
        record_after(requests, cap).engine.len() <= cap,
    decreases requests.len(),
{
    if requests.len() > 0 {
        a_record_keeps_to_its_cap(requests.drop_last(), cap);
    }
}

/// A ledger that is opened late, with the venue's record, is armed exactly as
/// one that was there all along and heard every request.
pub proof fn a_late_ledger_is_like_an_early_one(requests: Seq<Request>, cap: usize)
    requires
        cap > 0,
    ensures
        opened_transport(calm(), record_after(requests, cap)) == transport_after(requests),
        opened_ledger(unarmed(), record_after(requests, cap), cap) == ledger_after(requests, cap),
    decreases requests.len(),
{
    a_record_keeps_to_its_cap(requests, cap);
    a_short_queue_is_replayed(record_after(requests, cap).engine, cap);
    if requests.len() > 0 {
        let before = requests.drop_last();
        a_late_ledger_is_like_an_early_one(before, cap);
        a_record_keeps_to_its_cap(before, cap);
        a_short_queue_is_replayed(record_after(before, cap).engine, cap);
    }
}

/// How many accounts that are not opened yet the venue keeps arms for.
pub const MAX_PENDING_ACCOUNT_ARMS: usize = 64;

/// What the venue has on record: for every account, and for single accounts
/// that are not opened yet, in the order in which they were first named.
pub struct VenueArms {
    pub all: ArmRecord,
    pub pending: Roll<ArmRecord>,
}

/// The records of single accounts.
pub type Pending = Seq<(Seq<char>, ArmRecordView)>;

/// A roll of records in the abstract.
pub open spec fn pending_view(roll: Roll<ArmRecord>) -> Pending {
    Seq::new(roll.order().len(), |i: int| (roll.order()[i], roll.row()[i]@))
}

/// Whether each account has at most one record that waits for it.
pub open spec fn is_apart(pending: Pending) -> bool {
    forall|i: int, j: int|
        0 <= i < j < pending.len() ==> (#[trigger] pending[i]).0 != (#[trigger] pending[j]).0
}

/// Where an account's record is.
pub open spec fn pending_at(pending: Pending, account: Seq<char>) -> Option<int>
    decreases pending.len(),
{
    if pending.len() == 0 {
        None
    } else if pending[0].0 == account {
        Some(0)
    } else {
        match pending_at(pending.drop_first(), account) {
            Some(at) => Some(at + 1),
            None => None,
        }
    }
}

/// The records once something is armed against an account that is not opened:
/// it goes on the account's own record, or on a new one. Where there are too
/// many, the oldest record goes.
pub open spec fn pending_recorded(
    pending: Pending,
    account: Seq<char>,
    arm: VenueArm,
    cap: usize,
) -> Pending {
    match pending_at(pending, account) {
        Some(at) => pending.update(at, (account, recorded(pending[at].1, arm, cap))),
        None => {
            let kept = if pending.len() >= MAX_PENDING_ACCOUNT_ARMS {
                pending.drop_first()
            } else {
                pending
            };
            kept.push((account, recorded(blank_record(), arm, cap)))
        },
    }
}

/// The records once an account is opened.
pub open spec fn pending_taken(pending: Pending, account: Seq<char>) -> Pending {
    match pending_at(pending, account) {
        Some(at) => pending.remove(at),
        None => pending,
    }
}

pub(crate) proof fn pending_is_found(pending: Pending, account: Seq<char>, at: int)
    requires
        0 <= at < pending.len(),
        pending[at].0 == account,
        forall|k: int| 0 <= k < at ==> (#[trigger] pending[k]).0 != account,
    ensures
        pending_at(pending, account) == Some(at),
    decreases at,
{
    if at > 0 {
        assert(pending[0].0 != account);
        assert forall|k: int| 0 <= k < at - 1 implies (#[trigger] pending.drop_first()[k]).0
            != account by {
            assert(pending.drop_first()[k] == pending[k + 1]);
        }
        pending_is_found(pending.drop_first(), account, at - 1);
    }
}

pub(crate) proof fn pending_is_absent(pending: Pending, account: Seq<char>)
    requires
        forall|k: int| 0 <= k < pending.len() ==> (#[trigger] pending[k]).0 != account,
    ensures
        pending_at(pending, account) is None,
    decreases pending.len(),
{
    if pending.len() > 0 {
        assert(pending[0].0 != account);
        assert forall|k: int| 0 <= k < pending.drop_first().len() implies (
        #[trigger] pending.drop_first()[k]).0 != account by {
            assert(pending.drop_first()[k] == pending[k + 1]);
        }
        pending_is_absent(pending.drop_first(), account);
    }
}

/// Where a record is found it is the account's, and the first of them; where
/// none is found there is none.
pub(crate) proof fn what_is_found(pending: Pending, account: Seq<char>)
    ensures
        match pending_at(pending, account) {
            Some(at) => {
                &&& 0 <= at < pending.len()
                &&& pending[at].0 == account
                &&& forall|k: int| 0 <= k < at ==> (#[trigger] pending[k]).0 != account
            },
            None => forall|k: int|
                0 <= k < pending.len() ==> (#[trigger] pending[k]).0 != account,
        },
    decreases pending.len(),
{
    if pending.len() > 0 && pending[0].0 != account {
        let rest = pending.drop_first();
        what_is_found(rest, account);
        match pending_at(rest, account) {
            Some(at) => {
                assert(rest[at] == pending[at + 1]);
                assert forall|k: int| 0 <= k < at + 1 implies (#[trigger] pending[k]).0
                    != account by {
                    if k > 0 {
                        assert(rest[k - 1] == pending[k]);
                    }
                }
            },
            None => {
                assert forall|k: int| 0 <= k < pending.len() implies (#[trigger] pending[k]).0
                    != account by {
                    if k > 0 {
                        assert(rest[k - 1] == pending[k]);
                    }
                }
            },
        }
    }
}

impl VenueArms {
    /// A venue against which nothing was armed.
    pub fn new() -> (arms: VenueArms)
        ensures
            arms.all@ == blank_record(),
            pending_view(arms.pending) == Seq::<(Seq<char>, ArmRecordView)>::empty(),
    {
        let arms = VenueArms { all: ArmRecord::new(), pending: Roll::new() };
        assert(pending_view(arms.pending) =~= Seq::<(Seq<char>, ArmRecordView)>::empty());
        arms
    }

    /// Puts an arm on the record of an account that is not opened yet.
    pub fn record_pending(&mut self, account: &str, arm: VenueArm, cap: usize)
        requires
            cap > 0,
        ensures
            final(self).all == old(self).all,
            pending_view(final(self).pending) == pending_recorded(
                pending_view(old(self).pending),
                account@,
                arm,
                cap,
            ),
    {
        let ghost before = pending_view(self.pending);
        match self.pending.find(account) {
            Some(at) => {
                let mut record = self.pending.replace(at, ArmRecord::new());
                record.record(arm, cap);
                self.pending.replace(at, record);
                proof {
                    pending_is_found(before, account@, at as int);
                    assert(pending_view(self.pending) =~= pending_recorded(
                        before,
                        account@,
                        arm,
                        cap,
                    ));
                }
            },
            None => {
                proof {
                    assert forall|k: int| 0 <= k < before.len() implies (#[trigger] before[k]).0
                        != account@ by {
                        assert(self.pending.order().contains(self.pending.order()[k]));
                    }
                    pending_is_absent(before, account@);
                }
                let n: usize = self.pending.len();
                if n >= MAX_PENDING_ACCOUNT_ARMS {
                    self.pending.take_at(0);
                }
                let mut record = ArmRecord::new();
                record.record(arm, cap);
                self.pending.enrol(account.to_owned(), record);
                assert(pending_view(self.pending) =~= pending_recorded(before, account@, arm, cap));
            },
        }
    }

    /// Takes the record of an account that is being opened.
    pub fn take_pending(&mut self, account: &str) -> (record: Option<ArmRecord>)
        ensures
            final(self).all == old(self).all,
            pending_view(final(self).pending) == pending_taken(
                pending_view(old(self).pending),
                account@,
            ),
            record is Some == pending_at(pending_view(old(self).pending), account@) is Some,
            record is Some ==> record->0@ == pending_view(old(self).pending)[pending_at(
                pending_view(old(self).pending),
                account@,
            )->0].1,
    {
        let ghost before = pending_view(self.pending);
        match self.pending.find(account) {
            Some(at) => {
                let (_, record) = self.pending.take_at(at);
                proof {
                    pending_is_found(before, account@, at as int);
                    assert(pending_view(self.pending) =~= pending_taken(before, account@));
                }
                Some(record)
            },
            None => {
                proof {
                    assert forall|k: int| 0 <= k < before.len() implies (#[trigger] before[k]).0
                        != account@ by {
                        assert(self.pending.order().contains(self.pending.order()[k]));
                    }
                    pending_is_absent(before, account@);
                }
                None
            },
        }
    }

    /// Lifts what a clear lifts off the venue's record, and drops the records
    /// of single accounts whole.
    pub fn clear(&mut self)
        ensures
            final(self).all@ == lifted(old(self).all@),
            pending_view(final(self).pending) == Seq::<(Seq<char>, ArmRecordView)>::empty(),
    {
        self.all.clear_transport_and_fee();
        self.pending = Roll::new();
        assert(pending_view(self.pending) =~= Seq::<(Seq<char>, ArmRecordView)>::empty());
    }
}

/// An arm reaches what it names and nothing else: on connections that are there,
/// on a ledger that is there, and on the record for what comes later.
pub proof fn an_arm_reaches_what_it_names(
    transport: Transport,
    ledger: LedgerArmsView,
    record: ArmRecordView,
    arm: VenueArm,
    cap: usize,
)
    requires
        cap > 0,
    ensures
        ({
            let felt = transported(transport, arm);
            let borne = ledger_armed(ledger, arm, cap);
            let noted = recorded(record, arm, cap);
            &&& felt.dark.span == match arm {
                VenueArm::GoDark { span } => Some(span),
                _ => transport.dark.span,
            }
            &&& felt.stall.span == match arm {
                VenueArm::StallData { span } => Some(span),
                _ => transport.stall.span,
            }
            &&& felt.delay_ms == match arm {
                VenueArm::DelayAcks { ms } => ms,
                _ => transport.delay_ms,
            }
            &&& felt.latency == match arm {
                VenueArm::CommandLatency { latency } => latency,
                _ => transport.latency,
            }
            &&& borne.surcharge == match arm {
                VenueArm::FeeSurcharge { surcharge } => Some(surcharge),
                _ => ledger.surcharge,
            }
            &&& arm is Engine ==> borne.queue.len() > 0 && borne.queue.last() == arm->divergence
            &&& !(arm is Engine) ==> borne.queue == ledger.queue && noted.engine == record.engine
            &&& noted.dark == match arm {
                VenueArm::GoDark { span } => Some(span),
                _ => record.dark,
            }
            &&& noted.stall == match arm {
                VenueArm::StallData { span } => Some(span),
                _ => record.stall,
            }
            &&& noted.delay_ms == match arm {
                VenueArm::DelayAcks { ms } => Some(ms),
                _ => record.delay_ms,
            }
            &&& noted.latency == match arm {
                VenueArm::CommandLatency { latency } => Some(latency),
                _ => record.latency,
            }
            &&& noted.surcharge == match arm {
                VenueArm::FeeSurcharge { surcharge } => Some(surcharge),
                _ => record.surcharge,
            }
            &&& arm is Engine ==> noted.engine.len() > 0 && noted.engine.last() == arm->divergence
        }),
{
}

/// A window is open for a reader from where the reader's clock was when it was
/// armed, or from the clock's own epoch where that is later, and for its whole
/// span from there; before and after it is not, and one that is not armed never
/// is.
pub proof fn a_window_is_open_for_its_span(
    window: HavocWindow,
    armed_at_ns: u64,
    sim_epoch_ns: u64,
    sim_at_ns: u64,
)
    requires
        sim_at_ns < u64::MAX,
    ensures
        window.span is None ==> !window.is_open(armed_at_ns, sim_epoch_ns, sim_at_ns),
        window.span is Some ==> window.is_open(armed_at_ns, sim_epoch_ns, sim_at_ns) == (armed_at_ns
            <= sim_at_ns && sim_epoch_ns <= sim_at_ns && (sim_at_ns < armed_at_ns
            + window.span->0.sim_span_ns || sim_at_ns < sim_epoch_ns
            + window.span->0.sim_span_ns)),
{
}

/// Of some divergences that are put onto a queue one by one, the queue keeps as
/// many as it holds, the latest of them, in the order in which they came: the
/// oldest are shed first.
pub proof fn the_latest_divergences_are_kept(queue: Seq<u64>, more: Seq<u64>, cap: usize)
    requires
        cap > 0,
        queue.len() <= cap,
    ensures
        ({
            let all = queue + more;
            queued_all(queue, more, cap) == if all.len() <= cap {
                all
            } else {
                all.skip(all.len() - cap)
            }
        }),
    decreases more.len(),
{
    let all = queue + more;
    if more.len() == 0 {
        assert(all =~= queue);
    } else {
        let early = queue + more.drop_last();
        the_latest_divergences_are_kept(queue, more.drop_last(), cap);
        assert(all =~= early.push(more.last()));
        let held = queued_all(queue, more.drop_last(), cap);
        if all.len() <= cap {
        } else if early.len() <= cap {
            assert(held.drop_first().push(more.last()) =~= all.skip(all.len() - cap));
        } else {
            assert(held.drop_first().push(more.last()) =~= all.skip(all.len() - cap));
        }
    }
}

/// A divergence is shed just where one more does not fit, and it is the oldest.
pub proof fn only_the_oldest_is_shed(ledger: LedgerArmsView, divergence: u64, cap: usize)
    requires
        cap > 0,
        ledger.queue.len() <= cap,
    ensures
        ({
            let arm = VenueArm::Engine { divergence };
            let after = ledger_armed(ledger, arm, cap).queue;
            &&& ledger.queue.len() < cap ==> ledger_sheds(ledger, arm, cap) is None && after
                == ledger.queue.push(divergence)
            &&& ledger.queue.len() == cap ==> ledger_sheds(ledger, arm, cap) == Some(
                ledger.queue[0],
            ) && after == ledger.queue.skip(1).push(divergence)
        }),
{
    assert(ledger.queue.skip(1) =~= ledger.queue.drop_first());
}

/// A clear lifts all that connections suffer and the surcharge off the record,
/// and leaves the divergences on it.
pub proof fn a_clear_leaves_the_divergences_on_record(record: ArmRecordView)
    ensures
        lifted(record).engine == record.engine,
        opened_transport(calm(), lifted(record)).dark.span is None,
        opened_transport(calm(), lifted(record)).stall.span is None,
        opened_transport(calm(), lifted(record)).delay_ms == 0,
        lifted(record).latency is None,
        lifted(record).surcharge is None,
{
}

} // verus!
