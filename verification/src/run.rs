//! The accounts of one run: how they are opened and forgotten, who reads them,
//! which orders are theirs, and what an operator arms against them.

use vstd::prelude::*;

use crate::config::TAPE_ORIGIN_NS;
use crate::decimal::add_up;
use crate::decimal::sum;
use crate::decimal::Dec;
use crate::duration::later;
use crate::duration::span_since;
use crate::havoc::a_short_queue_is_replayed;
use crate::havoc::blank_record;
use crate::havoc::calm;
use crate::havoc::is_apart;
use crate::havoc::ledger_sheds;
use crate::havoc::lifted;
use crate::havoc::pending_at;
use crate::havoc::pending_is_absent;
use crate::havoc::pending_is_found;
use crate::havoc::pending_recorded;
use crate::havoc::pending_taken;
use crate::havoc::pending_view;
use crate::havoc::queued;
use crate::havoc::queued_all;
use crate::havoc::recorded;
use crate::havoc::what_is_found;
use crate::havoc::ArmRecordView;
use crate::havoc::ArmedSpan;
use crate::havoc::Pending;
use crate::havoc::VenueArm;
use crate::havoc::VenueArms;
use crate::havoc::MAX_PENDING_ACCOUNT_ARMS;
use crate::instrument::ConfiguredFees;
use crate::instrument::ConfiguredMargin;
use crate::instrument::InstrumentProfile;
use crate::orders::optional_view;
use crate::passenger::armed;
use crate::passenger::cleared;
use crate::passenger::frozen;
use crate::passenger::newly_opened;
use crate::passenger::opened_with;
use crate::passenger::Passenger;
use crate::passenger::PassengerView;
use crate::ranked::joined;
use crate::ranked::push_joined;
use crate::risk::day_of;
use crate::risk::polices_nothing;
use crate::risk::AccountPolicy;
use crate::risk::RiskLedger;
use crate::risk::MAX_RESET_MINUTE;
use crate::roll::found_at;
use crate::roll::map_of;
use crate::roll::names_view;
use crate::roll::Roll;
use crate::text::same_text;

verus! {

/// The amounts added up, one by one. An amount that cannot be added is left
/// out.
pub open spec fn added_up(amounts: Seq<Dec>) -> Dec
    decreases amounts.len(),
{
    if amounts.len() == 0 {
        Dec::of_whole(0)
    } else {
        let before = added_up(amounts.drop_last());
        match sum(before, amounts.last()) {
            Some(total) => total,
            None => before,
        }
    }
}

/// The equity of an account as it opens: its balances added up.
pub fn opening_equity(balances: &Vec<Dec>) -> (equity: Dec)
    ensures
        equity == added_up(balances@),
{
    let mut equity = Dec::whole(0);
    let mut i: usize = 0;
    while i < balances.len()
        invariant
            i <= balances.len(),
            equity == added_up(balances@.take(i as int)),
        decreases balances.len() - i,
    {
        assert(balances@.take(i + 1).drop_last() =~= balances@.take(i as int));
        if let Some(total) = add_up(equity, balances[i]) {
            equity = total;
        }
        i += 1;
    }
    assert(balances@.take(i as int) =~= balances@);
    equity
}

/// Why an account could not be opened on the terms asked for.
#[derive(Debug)]
pub enum AccountRefusal {
    /// Something trades under this name already.
    AlreadyOpen,
    /// Nobody has a policy of this name.
    UnknownPolicy { name: String },
}

impl AccountRefusal {
    /// The words for a refusal, with the names of the policies that ship.
    pub open spec fn text(self, shipped: Seq<Seq<char>>) -> Seq<char> {
        match self {
            AccountRefusal::AlreadyOpen =>
                "this account is already open; an account outlives its connections, so it is never re-opened with new terms - name a different account id for a fresh ledger"@,
            AccountRefusal::UnknownPolicy { name } => "no account policy is registered or shipped under "@
                + name@ + "; shipped names are "@ + joined(shipped, ", "@)
                + ", and an operator registers more under [account_policies] in the venue config"@,
        }
    }

    pub fn message(&self, shipped: &Vec<String>) -> (words: String)
        ensures
            words@ == self.text(names_view(shipped@)),
    {
        match self {
            AccountRefusal::AlreadyOpen =>
                "this account is already open; an account outlives its connections, so it is never re-opened with new terms - name a different account id for a fresh ledger".to_owned(),
            AccountRefusal::UnknownPolicy { name } => {
                let mut words = "no account policy is registered or shipped under ".to_owned();
                words.append(name.as_str());
                words.append("; shipped names are ");
                push_joined(&mut words, shipped, ", ");
                words.append(
                    ", and an operator registers more under [account_policies] in the venue config",
                );
                words
            },
        }
    }
}

/// Where an account's policy comes from.
#[derive(Clone, Copy, Debug, PartialEq, Eq, Structural)]
pub enum PolicySource {
    /// The client stated it.
    Inline,
    /// The operator registered it.
    Registered,
    /// It ships with the venue.
    Shipped,
}

/// Where a policy comes from: what the client stated wins, then what the
/// operator registered under the name, then what ships under it. A client that
/// names none and states none has no policy.
pub open spec fn policy_source(
    named: Option<Seq<char>>,
    states_rules: bool,
    registered: bool,
    shipped: bool,
) -> Option<PolicySource> {
    if states_rules || named is None {
        Some(PolicySource::Inline)
    } else if registered {
        Some(PolicySource::Registered)
    } else if shipped {
        Some(PolicySource::Shipped)
    } else {
        None
    }
}

/// Resolves a policy. A name that nobody has is refused.
pub fn resolve_policy(
    named: Option<&str>,
    inline: AccountPolicy,
    registered: Option<AccountPolicy>,
    shipped: Option<AccountPolicy>,
) -> (policy: Result<AccountPolicy, AccountRefusal>)
    ensures
        ({
            let source = policy_source(
                match named {
                    Some(name) => Some(name@),
                    None => None,
                },
                !polices_nothing(inline),
                registered is Some,
                shipped is Some,
            );
            match policy {
                Ok(policy) => source is Some && policy == match source->0 {
                    PolicySource::Inline => inline,
                    PolicySource::Registered => registered->0,
                    PolicySource::Shipped => shipped->0,
                },
                Err(refusal) => source is None && refusal is UnknownPolicy && refusal->name@
                    == named->0@,
            }
        }),
{
    if inline.trailing_drawdown.is_some() || inline.daily_loss_limit.is_some() {
        return Ok(inline);
    }
    let name = match named {
        Some(name) => name,
        None => {
            return Ok(inline);
        },
    };
    match registered {
        Some(policy) => Ok(policy),
        None => match shipped {
            Some(policy) => Ok(policy),
            None => Err(AccountRefusal::UnknownPolicy { name: name.to_owned() }),
        },
    }
}

/// One live connection: the account that it trades under, and the client that
/// it belongs to, where it names one.
#[derive(Debug)]
pub struct BoundLane {
    pub id: u64,
    pub account_id: String,
    pub session: Option<String>,
}

/// A connection in the abstract.
pub struct LaneView {
    pub id: u64,
    pub account_id: Seq<char>,
    pub session: Option<Seq<char>>,
}

impl View for BoundLane {
    type V = LaneView;

    open spec fn view(&self) -> LaneView {
        LaneView {
            id: self.id,
            account_id: self.account_id@,
            session: optional_view(self.session),
        }
    }
}

/// The connections in the abstract.
pub open spec fn lanes_view(lanes: Seq<BoundLane>) -> Seq<LaneView> {
    Seq::new(lanes.len(), |i: int| lanes[i]@)
}

/// Whether a connection is of the same client: it names a session, and the
/// same one.
pub open spec fn same_client(lane: LaneView, session: Option<Seq<char>>) -> bool {
    session is Some && lane.session == session
}

/// Whether a connection gives way when a client claims an account.
pub open spec fn gives_way(
    lane: LaneView,
    account: Seq<char>,
    session: Option<Seq<char>>,
) -> bool {
    lane.account_id == account && !same_client(lane, session)
}

/// The connections that stay when a client claims an account.
pub open spec fn staying(
    lanes: Seq<LaneView>,
    account: Seq<char>,
    session: Option<Seq<char>>,
) -> Seq<LaneView>
    decreases lanes.len(),
{
    if lanes.len() == 0 {
        Seq::empty()
    } else {
        let before = staying(lanes.drop_last(), account, session);
        if gives_way(lanes.last(), account, session) {
            before
        } else {
            before.push(lanes.last())
        }
    }
}

/// The numbers of the connections that give way when a client claims an
/// account.
pub open spec fn leaving(
    lanes: Seq<LaneView>,
    account: Seq<char>,
    session: Option<Seq<char>>,
) -> Seq<u64>
    decreases lanes.len(),
{
    if lanes.len() == 0 {
        Seq::empty()
    } else {
        let before = leaving(lanes.drop_last(), account, session);
        if gives_way(lanes.last(), account, session) {
            before.push(lanes.last().id)
        } else {
            before
        }
    }
}

/// The connections without the ones of a number.
pub open spec fn released(lanes: Seq<LaneView>, id: u64) -> Seq<LaneView>
    decreases lanes.len(),
{
    if lanes.len() == 0 {
        Seq::empty()
    } else {
        let before = released(lanes.drop_last(), id);
        if lanes.last().id == id {
            before
        } else {
            before.push(lanes.last())
        }
    }
}

/// The account of the first connection of a number.
pub open spec fn lane_account(lanes: Seq<LaneView>, id: u64) -> Option<Seq<char>>
    decreases lanes.len(),
{
    if lanes.len() == 0 {
        None
    } else {
        match lane_account(lanes.drop_last(), id) {
            Some(account) => Some(account),
            None => if lanes.last().id == id {
                Some(lanes.last().account_id)
            } else {
                None
            },
        }
    }
}

/// Whether some connection is bound to an account.
pub open spec fn is_bound(lanes: Seq<LaneView>, account: Seq<char>) -> bool {
    exists|i: int| 0 <= i < lanes.len() && (#[trigger] lanes[i]).account_id == account
}

/// Whether a client has a connection on an account already.
pub open spec fn has_client(
    lanes: Seq<LaneView>,
    account: Seq<char>,
    session: Option<Seq<char>>,
) -> bool {
    exists|i: int|
        0 <= i < lanes.len() && (#[trigger] lanes[i]).account_id == account && same_client(
            lanes[i],
            session,
        )
}

/// What a run is opened with.
#[derive(Clone, Copy, Debug, PartialEq, Eq, Structural)]
pub struct Terms {
    /// How many divergences a ledger holds.
    pub cap: usize,
    /// Whether a client that claims an account has a clean one.
    pub reset_account_on_reconnect: bool,
    /// The equity that an account opens with, where its client states none.
    pub opening: Dec,
    pub started_ns: u64,
    pub warmup_ns: u64,
    /// The simulated instant at which the run ends, where it ends by itself.
    pub deadline_ns: Option<u64>,
}

/// The accounts of a run.
pub struct Run {
    terms: Terms,
    passengers: Roll<Passenger>,
    arms: VenueArms,
    lanes: Vec<BoundLane>,
    owners: Roll<String>,
    minted: u64,
}

/// The accounts of a run in the abstract.
pub struct RunView {
    /// The accounts, by their names.
    pub passengers: Map<Seq<char>, PassengerView>,
    /// What is armed against every account.
    pub all: ArmRecordView,
    /// What is armed against single accounts that are not opened yet.
    pub pending: Pending,
    /// The live connections.
    pub lanes: Seq<LaneView>,
    /// The accounts that orders are of, by the orders.
    pub owners: Map<Seq<char>, Seq<char>>,
    /// How many accounts were opened so far.
    pub minted: u64,
}

/// Accounts in the abstract.
pub open spec fn passengers_view(passengers: Map<Seq<char>, Passenger>) -> Map<
    Seq<char>,
    PassengerView,
> {
    Map::new(
        |account: Seq<char>| passengers.dom().contains(account),
        |account: Seq<char>| passengers[account]@,
    )
}

/// Owners in the abstract.
pub open spec fn owners_view(owners: Map<Seq<char>, String>) -> Map<Seq<char>, Seq<char>> {
    Map::new(|order: Seq<char>| owners.dom().contains(order), |order: Seq<char>| owners[order]@)
}

/// The policy of an account that nobody stated rules for.
pub open spec fn unpoliced() -> AccountPolicy {
    AccountPolicy {
        trailing_drawdown: None,
        daily_loss_limit: None,
        reset_minute_utc: 0,
        currency: None,
    }
}

/// The risk ledger of an account that opens with an equity under a policy.
pub open spec fn opening_ledger(policy: AccountPolicy, equity: Dec, started_ns: u64) -> RiskLedger {
    RiskLedger {
        policy,
        peak_equity: equity,
        day_open_equity: equity,
        day_index: day_of(started_ns, policy.reset_minute_utc) as i64,
        breach: None,
        locked: false,
    }
}

/// An account that is opened now: it bears what is armed against every account
/// and then what is armed against it by name.
pub open spec fn minted_account(
    run: RunView,
    account: Seq<char>,
    risk: RiskLedger,
    now: u64,
    cap: usize,
) -> PassengerView {
    let base = opened_with(newly_opened(run.minted, risk, now), run.all, cap);
    match pending_at(run.pending, account) {
        Some(at) => opened_with(base, run.pending[at].1, cap),
        None => base,
    }
}

/// A run once an account is opened.
pub open spec fn minted(
    run: RunView,
    account: Seq<char>,
    risk: RiskLedger,
    now: u64,
    cap: usize,
) -> RunView {
    RunView {
        passengers: run.passengers.insert(account, minted_account(run, account, risk, now, cap)),
        pending: pending_taken(run.pending, account),
        minted: (run.minted + 1) as u64,
        ..run
    }
}

/// A run in which an account is open, by default without a policy.
pub open spec fn with_account(run: RunView, account: Seq<char>, terms: Terms, now: u64) -> RunView {
    if run.passengers.dom().contains(account) {
        run
    } else {
        minted(
            run,
            account,
            opening_ledger(unpoliced(), terms.opening, terms.started_ns),
            now,
            terms.cap,
        )
    }
}

/// Accounts once something is armed against all of them.
pub open spec fn all_armed(
    passengers: Map<Seq<char>, PassengerView>,
    arm: VenueArm,
    cap: usize,
) -> Map<Seq<char>, PassengerView> {
    Map::new(
        |account: Seq<char>| passengers.dom().contains(account),
        |account: Seq<char>| armed(passengers[account], arm, cap),
    )
}

/// Accounts once everything is lifted.
pub open spec fn all_cleared(passengers: Map<Seq<char>, PassengerView>) -> Map<
    Seq<char>,
    PassengerView,
> {
    Map::new(
        |account: Seq<char>| passengers.dom().contains(account),
        |account: Seq<char>| cleared(passengers[account]),
    )
}

/// A run once something is armed: against the venue, for every account that is
/// open or will be; or against one account, which is open or will be.
pub open spec fn run_armed(
    run: RunView,
    account: Option<Seq<char>>,
    arm: VenueArm,
    cap: usize,
) -> RunView {
    match account {
        None => RunView {
            passengers: all_armed(run.passengers, arm, cap),
            all: recorded(run.all, arm, cap),
            ..run
        },
        Some(name) => if run.passengers.dom().contains(name) {
            RunView {
                passengers: run.passengers.insert(name, armed(run.passengers[name], arm, cap)),
                ..run
            }
        } else {
            RunView { pending: pending_recorded(run.pending, name, arm, cap), ..run }
        },
    }
}

/// A name, where there is one, by its view.
pub open spec fn seen(name: Option<&str>) -> Option<Seq<char>> {
    match name {
        Some(name) => Some(name@),
        None => None,
    }
}

/// Whether an account is reached by an arm.
pub open spec fn reached(run: RunView, account: Option<Seq<char>>, name: Seq<char>) -> bool {
    run.passengers.dom().contains(name) && (account is Some ==> account->0 == name)
}

/// A run once everything is lifted that a clear lifts.
pub open spec fn run_cleared(run: RunView) -> RunView {
    RunView {
        passengers: all_cleared(run.passengers),
        all: lifted(run.all),
        pending: Seq::empty(),
        ..run
    }
}

/// A run without an account: its orders are nobody's.
pub open spec fn forgotten(run: RunView, account: Seq<char>) -> RunView {
    RunView {
        passengers: run.passengers.remove(account),
        owners: run.owners.restrict(
            Set::new(|order: Seq<char>| run.owners.dom().contains(order) && run.owners[order] != account),
        ),
        ..run
    }
}

/// A run in which an account is frozen, unless somebody reads it or is on the
/// way.
pub open spec fn unattended(run: RunView, account: Seq<char>, now: u64) -> RunView {
    if !run.passengers.dom().contains(account) || run.passengers[account].admitted > 0 || is_bound(
        run.lanes,
        account,
    ) {
        run
    } else {
        RunView {
            passengers: run.passengers.insert(account, frozen(run.passengers[account], now)),
            ..run
        }
    }
}

impl View for Run {
    type V = RunView;

    closed spec fn view(&self) -> RunView {
        RunView {
            passengers: passengers_view(self.passengers@),
            all: self.arms.all@,
            pending: pending_view(self.arms.pending),
            lanes: lanes_view(self.lanes@),
            owners: owners_view(self.owners@),
            minted: self.minted,
        }
    }
}

impl Run {
    /// What the run is opened with.
    pub closed spec fn on(self) -> Terms {
        self.terms
    }

    /// A run without accounts.
    pub fn new(
        opening: Dec,
        started_ns: u64,
        warmup_ns: u64,
        run_duration_ns: Option<u64>,
        reset_account_on_reconnect: bool,
        cap: usize,
    ) -> (run: Run)
        ensures
            run.on() == (Terms {
                cap,
                reset_account_on_reconnect,
                opening,
                started_ns,
                warmup_ns,
                deadline_ns: match run_duration_ns {
                    Some(span) => Some(later(started_ns, span)),
                    None => None,
                },
            }),
            run@ == (RunView {
                passengers: Map::empty(),
                all: blank_record(),
                pending: Seq::empty(),
                lanes: Seq::empty(),
                owners: Map::empty(),
                minted: 0,
            }),
            is_apart(run@.pending),
    {
        let terms = Terms {
            cap,
            reset_account_on_reconnect,
            opening,
            started_ns,
            warmup_ns,
            deadline_ns: match run_duration_ns {
                Some(span) => Some(started_ns.saturating_add(span)),
                None => None,
            },
        };
        let run = Run {
            terms,
            passengers: Roll::new(),
            arms: VenueArms::new(),
            lanes: Vec::new(),
            owners: Roll::new(),
            minted: 0,
        };
        assert(run@.passengers =~= Map::<Seq<char>, PassengerView>::empty());
        assert(run@.owners =~= Map::<Seq<char>, Seq<char>>::empty());
        assert(run@.lanes =~= Seq::<LaneView>::empty());
        run
    }

    /// What the run is opened with.
    pub fn terms(&self) -> (terms: Terms)
        ensures
            terms == self.on(),
            is_apart(self@.pending),
    {
        proof {
            use_type_invariant(&self.arms.pending);
        }
        self.terms
    }

    /// The first instant that any tape of the run serves.
    pub fn data_origin_ns(&self) -> (ns: u64)
        ensures
            ns == TAPE_ORIGIN_NS,
    {
        TAPE_ORIGIN_NS
    }

    fn mint(&mut self, account: &str, risk: RiskLedger, now: u64)
        requires
            !old(self)@.passengers.dom().contains(account@),
            old(self)@.minted < u64::MAX,
            old(self).on().cap > 0,
        ensures
            final(self).on() == old(self).on(),
            final(self)@ == minted(old(self)@, account@, risk, now, old(self).on().cap),
            is_apart(final(self)@.pending),
    {
        let ghost before = self@;
        let mut passenger = Passenger::new(self.minted, risk, now);
        passenger.open_with(&self.arms.all, self.terms.cap);
        if let Some(record) = self.arms.take_pending(account) {
            passenger.open_with(&record, self.terms.cap);
        }
        let ghost whole = passenger@;
        let ghost held = self.passengers@;
        self.passengers.enrol(account.to_owned(), passenger);
        self.minted = self.minted + 1;
        assert(self@.passengers =~= before.passengers.insert(account@, whole));
        proof {
            use_type_invariant(&self.arms.pending);
        }
    }

    /// The account of this name, opened where it is not open yet.
    pub fn passenger(&mut self, account: &str, now: u64)
        requires
            !old(self)@.passengers.dom().contains(account@) ==> old(self)@.minted < u64::MAX,
            old(self).on().cap > 0,
        ensures
            final(self).on() == old(self).on(),
            final(self)@ == with_account(old(self)@, account@, old(self).on(), now),
            is_apart(old(self)@.pending),
            is_apart(final(self)@.pending),
    {
        proof {
            use_type_invariant(&self.arms.pending);
        }
        if self.passengers.contains(account) {
            return;
        }
        let policy = AccountPolicy {
            trailing_drawdown: None,
            daily_loss_limit: None,
            reset_minute_utc: 0,
            currency: None,
        };
        let risk = RiskLedger::new(policy, self.terms.opening, self.terms.started_ns);
        self.mint(account, risk, now);
    }

    /// Opens an account on its client's own terms. One that is open already is
    /// never opened again.
    pub fn open_account(
        &mut self,
        account: &str,
        balances: &Vec<Dec>,
        policy: AccountPolicy,
        now: u64,
    ) -> (opened: Result<(), AccountRefusal>)
        requires
            !old(self)@.passengers.dom().contains(account@) ==> old(self)@.minted < u64::MAX,
            old(self).on().cap > 0,
            policy.reset_minute_utc <= MAX_RESET_MINUTE,
        ensures
            final(self).on() == old(self).on(),
            opened is Err == old(self)@.passengers.dom().contains(account@),
            opened is Err ==> opened->Err_0 is AlreadyOpen && final(self)@ == old(self)@,
            opened is Ok ==> final(self)@ == minted(
                old(self)@,
                account@,
                opening_ledger(policy, added_up(balances@), old(self).on().started_ns),
                now,
                old(self).on().cap,
            ),
            is_apart(old(self)@.pending),
            is_apart(final(self)@.pending),
    {
        proof {
            use_type_invariant(&self.arms.pending);
        }
        if self.passengers.contains(account) {
            return Err(AccountRefusal::AlreadyOpen);
        }
        let risk = RiskLedger::new(policy, opening_equity(balances), self.terms.started_ns);
        self.mint(account, risk, now);
        Ok(())
    }

    /// The account of this name, where it is open.
    pub fn peek_passenger(&self, account: &str) -> (passenger: Option<&Passenger>)
        ensures
            passenger is Some == self@.passengers.dom().contains(account@),
            passenger is Some ==> passenger->0@ == self@.passengers[account@],
            is_apart(self@.pending),
    {
        proof {
            use_type_invariant(&self.arms.pending);
        }
        self.passengers.get(account)
    }

    /// The risk ledger that an account would open with.
    pub fn unopened_ledger(&self) -> (risk: RiskLedger)
        ensures
            risk == opening_ledger(unpoliced(), self.on().opening, self.on().started_ns),
    {
        let policy = AccountPolicy {
            trailing_drawdown: None,
            daily_loss_limit: None,
            reset_minute_utc: 0,
            currency: None,
        };
        RiskLedger::new(policy, self.terms.opening, self.terms.started_ns)
    }

    /// Arms the venue, or one account, and says which divergence a ledger shed.
    pub fn arm(&mut self, account: Option<&str>, arm: VenueArm) -> (shed: Option<u64>)
        requires
            old(self).on().cap > 0,
        ensures
            final(self).on() == old(self).on(),
            final(self)@ == run_armed(old(self)@, seen(account), arm, old(self).on().cap),
            shed is None ==> forall|name: Seq<char>| #[trigger]
                reached(old(self)@, seen(account), name) ==> ledger_sheds(
                    old(self)@.passengers[name].arms,
                    arm,
                    old(self).on().cap,
                ) is None,
            shed is Some ==> exists|name: Seq<char>| #[trigger]
                reached(old(self)@, seen(account), name) && ledger_sheds(
                    old(self)@.passengers[name].arms,
                    arm,
                    old(self).on().cap,
                ) == shed,
            is_apart(old(self)@.pending),
            is_apart(final(self)@.pending),
    {
        let ghost before = self@;
        let cap: usize = self.terms.cap;
        proof {
            use_type_invariant(&self.arms.pending);
        }
        match account {
            None => {
                self.arms.all.record(arm, cap);
                let ghost noted = self@;
                let shed = self.arm_all(arm, cap);
                proof {
                    assert(noted.passengers == before.passengers);
                    assert forall|name: Seq<char>| #[trigger]
                        reached(before, None, name) implies reached(noted, None, name) by {}
                    if shed is Some {
                        let name = choose|name: Seq<char>| #[trigger]
                            reached(noted, None, name) && ledger_sheds(
                                noted.passengers[name].arms,
                                arm,
                                cap,
                            ) == shed;
                        assert(reached(before, None, name));
                    }
                }
                shed
            },
            Some(name) => match self.passengers.find(name) {
                Some(at) => {
                    let shed = self.passengers.value_mut(at).arm(arm, cap);
                    assert(self@.passengers =~= before.passengers.insert(
                        name@,
                        armed(before.passengers[name@], arm, cap),
                    ));
                    proof {
                        assert(reached(before, Some(name@), name@));
                    }
                    shed
                },
                None => {
                    self.arms.record_pending(name, arm, cap);
                    proof {
                        use_type_invariant(&self.arms.pending);
                    }
                    None
                },
            },
        }
    }

    fn arm_all(&mut self, arm: VenueArm, cap: usize) -> (shed: Option<u64>)
        requires
            cap > 0,
        ensures
            final(self).on() == old(self).on(),
            final(self)@ == (RunView {
                passengers: all_armed(old(self)@.passengers, arm, cap),
                ..old(self)@
            }),
            shed is None ==> forall|name: Seq<char>| #[trigger]
                reached(old(self)@, None, name) ==> ledger_sheds(
                    old(self)@.passengers[name].arms,
                    arm,
                    cap,
                ) is None,
            shed is Some ==> exists|name: Seq<char>| #[trigger]
                reached(old(self)@, None, name) && ledger_sheds(
                    old(self)@.passengers[name].arms,
                    arm,
                    cap,
                ) == shed,
    {
        let ghost before = self@;
        let ghost order = self.passengers.order();
        let ghost row = self.passengers.row();
        let n: usize = self.passengers.len();
        let mut shed: Option<u64> = None;
        let mut i: usize = 0;
        while i < n
            invariant
                i <= n,
                cap > 0,
                n == order.len(),
                order.len() == row.len(),
                self.passengers.order() == order,
                self.passengers.row().len() == n,
                self.terms == old(self).terms,
                self.arms == old(self).arms,
                self.lanes == old(self).lanes,
                self.owners == old(self).owners,
                self.minted == old(self).minted,
                forall|k: int|
                    0 <= k < i ==> (#[trigger] self.passengers.row()[k])@ == armed(row[k]@, arm, cap),
                forall|k: int| i <= k < n ==> #[trigger] self.passengers.row()[k] == row[k],
                shed is None ==> forall|k: int|
                    0 <= k < i ==> ledger_sheds((#[trigger] row[k])@.arms, arm, cap) is None,
                shed is Some ==> exists|k: int|
                    0 <= k < i && ledger_sheds((#[trigger] row[k])@.arms, arm, cap) == shed,
            decreases n - i,
        {
            let evicted = self.passengers.value_mut(i).arm(arm, cap);
            assert(evicted == ledger_sheds(row[i as int]@.arms, arm, cap));
            if shed.is_none() {
                shed = evicted;
            }
            i += 1;
        }
        proof {
            assert(before.passengers =~= passengers_view(map_of(order, row)));
            assert forall|name: Seq<char>| #[trigger]
                reached(before, None, name) implies exists|k: int|
                0 <= k < n && order[k] == name && before.passengers[name] == (
                #[trigger] row[k])@ by {
                assert(order.contains(name));
                let k = order.index_of(name);
                assert(row[k]@ == before.passengers[name]);
            }
            assert(self@.passengers =~= all_armed(before.passengers, arm, cap)) by {
                assert(self.passengers@ == map_of(order, self.passengers.row()));
                assert forall|name: Seq<char>| #[trigger] order.contains(name) implies
                    self@.passengers[name] == armed(before.passengers[name], arm, cap) by {
                    let k = order.index_of(name);
                    assert(self.passengers.row()[k]@ == armed(row[k]@, arm, cap));
                }
            }
            if shed is Some {
                let k = choose|k: int|
                    0 <= k < n && ledger_sheds((#[trigger] row[k])@.arms, arm, cap) == shed;
                found_at(order, row, k);
                assert(reached(before, None, order[k]));
            }
        }
        shed
    }

    /// Lifts everything that a clear lifts, off the accounts and off the record.
    pub fn clear_venue_arms(&mut self)
        ensures
            final(self).on() == old(self).on(),
            final(self)@ == run_cleared(old(self)@),
            is_apart(final(self)@.pending),
    {
        self.arms.clear();
        let ghost before = self@;
        let ghost order = self.passengers.order();
        let ghost row = self.passengers.row();
        let n: usize = self.passengers.len();
        let mut i: usize = 0;
        while i < n
            invariant
                i <= n,
                n == order.len(),
                order.len() == row.len(),
                self.passengers.order() == order,
                self.passengers.row().len() == n,
                self.terms == old(self).terms,
                self.arms.all@ == lifted(old(self).arms.all@),
                pending_view(self.arms.pending) == Seq::<(Seq<char>, ArmRecordView)>::empty(),
                self.lanes == old(self).lanes,
                self.owners == old(self).owners,
                self.minted == old(self).minted,
                forall|k: int|
                    0 <= k < i ==> (#[trigger] self.passengers.row()[k])@ == cleared(row[k]@),
                forall|k: int| i <= k < n ==> #[trigger] self.passengers.row()[k] == row[k],
            decreases n - i,
        {
            self.passengers.value_mut(i).clear_havoc();
            i += 1;
        }
        proof {
            assert(before.passengers =~= passengers_view(map_of(order, row)));
            assert(self@.passengers =~= all_cleared(before.passengers)) by {
                assert(self.passengers@ == map_of(order, self.passengers.row()));
                assert forall|name: Seq<char>| #[trigger] order.contains(name) implies
                    self@.passengers[name] == cleared(before.passengers[name]) by {
                    let k = order.index_of(name);
                    assert(self.passengers.row()[k]@ == cleared(row[k]@));
                }
            }
        }
    }
}

/// A connection's claim to be reading an account, from before it is let in
/// until it is finished with it.
#[derive(Debug)]
pub struct Admission {
    account: String,
    serial: u64,
}

impl Admission {
    /// The account that is read.
    pub closed spec fn to(self) -> Seq<char> {
        self.account@
    }

    /// Which account of that name it is.
    pub closed spec fn of(self) -> u64 {
        self.serial
    }
}

/// A run once one more connection is let in to an account.
pub open spec fn joined_by(run: RunView, account: Seq<char>) -> RunView {
    RunView {
        passengers: run.passengers.insert(
            account,
            PassengerView {
                admitted: (run.passengers[account].admitted + 1) as usize,
                ..run.passengers[account]
            },
        ),
        ..run
    }
}

/// A run once a connection has gone that was let in to an account, unless that
/// account has gone before it.
pub open spec fn left_by(run: RunView, account: Seq<char>, serial: u64, now: u64) -> RunView {
    if !run.passengers.dom().contains(account) || run.passengers[account].serial != serial {
        run
    } else {
        let fewer = RunView {
            passengers: run.passengers.insert(
                account,
                PassengerView {
                    admitted: if run.passengers[account].admitted == 0 {
                        0
                    } else {
                        (run.passengers[account].admitted - 1) as usize
                    },
                    ..run.passengers[account]
                },
            ),
            ..run
        };
        unattended(fewer, account, now)
    }
}

/// A run once the connections of a number are retired.
pub open spec fn lanes_released(run: RunView, id: u64, now: u64) -> RunView {
    let fewer = RunView { lanes: released(run.lanes, id), ..run };
    match lane_account(run.lanes, id) {
        Some(account) => unattended(fewer, account, now),
        None => fewer,
    }
}

/// Whether an account has been unattended for so long that it is collected.
pub open spec fn is_expired(passenger: PassengerView, ttl: u64, now: u64) -> bool {
    &&& passenger.admitted == 0
    &&& passenger.frozen_since is Some
    &&& span_since(now, passenger.frozen_since->0) >= ttl
}

/// A run without some accounts: their orders are nobody's.
pub open spec fn all_forgotten(run: RunView, accounts: Set<Seq<char>>) -> RunView {
    RunView {
        passengers: run.passengers.remove_keys(accounts),
        owners: run.owners.restrict(
            Set::new(
                |order: Seq<char>|
                    run.owners.dom().contains(order) && !accounts.contains(run.owners[order]),
            ),
        ),
        ..run
    }
}

/// A run once a connection is seated on an account.
pub open spec fn seated_on(
    run: RunView,
    account: Seq<char>,
    claimed: bool,
    session: Option<Seq<char>>,
    resetting: bool,
    terms: Terms,
    now: u64,
) -> RunView {
    let evicted = if claimed {
        RunView { lanes: staying(run.lanes, account, session), ..run }
    } else {
        run
    };
    let reset = if resetting {
        forgotten(evicted, account)
    } else {
        evicted
    };
    with_account(reset, account, terms, now)
}

/// Whether an order is shown to an account: it is its own, or nobody's.
pub open spec fn is_shown(
    owners: Map<Seq<char>, Seq<char>>,
    order: Seq<char>,
    account: Seq<char>,
) -> bool {
    owners.dom().contains(order) ==> owners[order] == account
}

/// The rows of a reply that are shown to an account.
pub open spec fn shown_rows(
    rows: Seq<QueryRow>,
    owners: Map<Seq<char>, Seq<char>>,
    account: Seq<char>,
) -> Seq<QueryRow>
    decreases rows.len(),
{
    if rows.len() == 0 {
        Seq::empty()
    } else {
        let before = shown_rows(rows.drop_last(), owners, account);
        if is_shown(owners, rows.last().venue_order_id@, account) {
            before.push(rows.last())
        } else {
            before
        }
    }
}

/// Whether an answer is another as an account is shown it: of the snapshots only
/// the rows that are the account's or nobody's, and all else as it was.
pub open spec fn is_scoped(
    before: Frame,
    after: Frame,
    owners: Map<Seq<char>, Seq<char>>,
    account: Seq<char>,
) -> bool {
    match before {
        Frame::OrderStatusSnapshot { orders } => after matches Frame::OrderStatusSnapshot {
            orders: shown,
        } && shown@ == shown_rows(orders@, owners, account),
        Frame::FillSnapshot { fills } => after matches Frame::FillSnapshot { fills: shown }
            && shown@ == shown_rows(fills@, owners, account),
        _ => after == before,
    }
}

/// The orders that answers accept.
pub open spec fn accepted_in(frames: Seq<Frame>) -> Seq<Seq<char>>
    decreases frames.len(),
{
    if frames.len() == 0 {
        Seq::empty()
    } else {
        let before = accepted_in(frames.drop_last());
        match frames.last() {
            Frame::OrderAccepted { venue_order_id } => before.push(venue_order_id@),
            _ => before,
        }
    }
}

/// No row that another account has claimed is shown, and no other is lost: a row
/// is among those shown just where it was there and is the account's or nobody's.
pub proof fn only_the_others_rows_are_left_out(
    rows: Seq<QueryRow>,
    owners: Map<Seq<char>, Seq<char>>,
    account: Seq<char>,
    row: QueryRow,
)
    ensures
        shown_rows(rows, owners, account).contains(row) == (rows.contains(row) && is_shown(
            owners,
            row.venue_order_id@,
            account,
        )),
    decreases rows.len(),
{
    let shown = shown_rows(rows, owners, account);
    if rows.len() > 0 {
        let held = rows.drop_last();
        let before = shown_rows(held, owners, account);
        only_the_others_rows_are_left_out(held, owners, account, row);
        if rows.contains(row) {
            let k = choose|k: int| 0 <= k < rows.len() && rows[k] == row;
            if k < held.len() {
                assert(held[k] == row);
            }
        }
        if held.contains(row) {
            let k = choose|k: int| 0 <= k < held.len() && held[k] == row;
            assert(rows[k] == row);
        }
        assert(rows[rows.len() - 1] == rows.last());
        if before.contains(row) {
            let k = choose|k: int| 0 <= k < before.len() && before[k] == row;
            assert(shown[k] == row);
        }
        if is_shown(owners, rows.last().venue_order_id@, account) {
            assert(shown.last() == rows.last());
            assert(shown[shown.len() - 1] == rows.last());
            if shown.contains(row) {
                let k = choose|k: int| 0 <= k < shown.len() && shown[k] == row;
                if k < before.len() {
                    assert(before[k] == row);
                }
            }
        }
    }
}

/// The owners once an account has claimed orders.
pub open spec fn claimed_all(
    owners: Map<Seq<char>, Seq<char>>,
    orders: Seq<Seq<char>>,
    account: Seq<char>,
) -> Map<Seq<char>, Seq<char>>
    decreases orders.len(),
{
    if orders.len() == 0 {
        owners
    } else {
        claimed_all(owners, orders.drop_last(), account).insert(orders.last(), account)
    }
}

fn same_session(lane: &BoundLane, session: Option<&str>) -> (answer: bool)
    ensures
        answer == same_client(lane@, seen(session)),
{
    match session {
        None => false,
        Some(session) => match &lane.session {
            Some(other) => same_text(other.as_str(), session),
            None => false,
        },
    }
}

/// What a connection is told that gives way to another client.
pub open spec fn eviction_text(account: Seq<char>) -> Seq<char> {
    "another connection claimed account "@ + account
        + "; a ledger is never read from two clients at once"@
}

/// What a connection is told that gives way to another client.
pub fn eviction_reason(account: &str) -> (reason: String)
    ensures
        reason@ == eviction_text(account@),
{
    let mut reason = "another connection claimed account ".to_owned();
    reason.append(account);
    reason.append("; a ledger is never read from two clients at once");
    reason
}

fn without_owner(owners: Roll<String>, account: &str) -> (kept: Roll<String>)
    ensures
        owners_view(kept@) == owners_view(owners@).restrict(
            Set::new(
                |order: Seq<char>|
                    owners_view(owners@).dom().contains(order) && owners_view(owners@)[order]
                        != account@,
            ),
        ),
{
    let ghost all = owners@;
    let mut rest = owners;
    let mut kept: Roll<String> = Roll::new();
    while rest.len() > 0
        invariant
            forall|order: Seq<char>| #[trigger]
                rest@.dom().contains(order) ==> all.dom().contains(order) && all[order]
                    == rest@[order] && !kept@.dom().contains(order),
            forall|order: Seq<char>| #[trigger]
                kept@.dom().contains(order) ==> all.dom().contains(order) && all[order]@
                    == kept@[order]@ && all[order]@ != account@,
            forall|order: Seq<char>| #[trigger]
                all.dom().contains(order) && all[order]@ != account@ ==> rest@.dom().contains(order)
                    || kept@.dom().contains(order),
        decreases rest.order().len(),
    {
        let (order, owner) = rest.take_at(0);
        if !same_text(owner.as_str(), account) {
            kept.enrol(order, owner);
        }
    }
    assert forall|order: Seq<char>| !rest@.dom().contains(order) by {
        assert(!rest.order().contains(order));
    }
    assert(owners_view(kept@) =~= owners_view(all).restrict(
        Set::new(
            |order: Seq<char>|
                owners_view(all).dom().contains(order) && owners_view(all)[order] != account@,
        ),
    ));
    kept
}

impl Run {
    /// Enrols a connection.
    pub fn bind_lanes(&mut self, id: u64, account: &str, session: Option<&str>)
        ensures
            final(self).on() == old(self).on(),
            final(self)@ == (RunView {
                lanes: old(self)@.lanes.push(
                    LaneView { id, account_id: account@, session: seen(session) },
                ),
                ..old(self)@
            }),
    {
        let ghost before = self@;
        let session = match session {
            Some(session) => Some(session.to_owned()),
            None => None,
        };
        self.lanes.push(BoundLane { id, account_id: account.to_owned(), session });
        assert(self@.lanes =~= before.lanes.push(self.lanes@.last()@));
    }

    /// Whether a client has a connection on an account already. A client that
    /// names no session never has.
    pub fn has_client_on(&self, account: &str, session: Option<&str>) -> (answer: bool)
        ensures
            answer == has_client(self@.lanes, account@, seen(session)),
    {
        let mut i: usize = 0;
        while i < self.lanes.len()
            invariant
                i <= self.lanes.len(),
                forall|k: int|
                    0 <= k < i ==> !((#[trigger] self@.lanes[k]).account_id == account@
                        && same_client(self@.lanes[k], seen(session))),
            decreases self.lanes.len() - i,
        {
            if same_text(self.lanes[i].account_id.as_str(), account) && same_session(
                &self.lanes[i],
                session,
            ) {
                assert(self@.lanes[i as int] == self.lanes[i as int]@);
                return true;
            }
            i += 1;
        }
        false
    }

    /// Retires the connections that give way when a client claims an account,
    /// and says which: those of another session, and those of none.
    pub fn evict_account(&mut self, account: &str, session: Option<&str>) -> (displaced: Vec<u64>)
        ensures
            final(self).on() == old(self).on(),
            final(self)@ == (RunView {
                lanes: staying(old(self)@.lanes, account@, seen(session)),
                ..old(self)@
            }),
            displaced@ == leaving(old(self)@.lanes, account@, seen(session)),
    {
        let ghost all = self@.lanes;
        let mut rest: Vec<BoundLane> = Vec::new();
        std::mem::swap(&mut rest, &mut self.lanes);
        let mut kept: Vec<BoundLane> = Vec::new();
        let mut displaced: Vec<u64> = Vec::new();
        let ghost mut i: int = 0;
        while rest.len() > 0
            invariant
                0 <= i <= all.len(),
                lanes_view(rest@) == all.skip(i),
                lanes_view(kept@) == staying(all.take(i), account@, seen(session)),
                displaced@ == leaving(all.take(i), account@, seen(session)),
            decreases rest.len(),
        {
            let ghost left = rest@;
            let lane = rest.remove(0);
            proof {
                assert(lanes_view(left).len() == all.skip(i).len());
                assert(lanes_view(left)[0] == left[0]@);
                assert(all.skip(i)[0] == all[i]);
                assert(lane@ == all[i]);
                assert(lanes_view(rest@) =~= all.skip(i + 1)) by {
                    assert forall|k: int| 0 <= k < rest@.len() implies lanes_view(rest@)[k]
                        == all.skip(i + 1)[k] by {
                        assert(lanes_view(left)[k + 1] == all.skip(i)[k + 1]);
                    }
                }
                assert(all.take(i + 1).drop_last() =~= all.take(i));
            }
            if same_text(lane.account_id.as_str(), account) && !same_session(&lane, session) {
                displaced.push(lane.id);
            } else {
                let ghost before = kept@;
                kept.push(lane);
                assert(lanes_view(kept@) =~= lanes_view(before).push(all[i]));
            }
            proof {
                i = i + 1;
            }
        }
        assert(all.take(i) =~= all);
        self.lanes = kept;
        displaced
    }

    fn freeze_if_unattended(&mut self, account: &str, now: u64)
        ensures
            final(self).on() == old(self).on(),
            final(self)@ == unattended(old(self)@, account@, now),
    {
        let ghost before = self@;
        let mut i: usize = 0;
        while i < self.lanes.len()
            invariant
                i <= self.lanes.len(),
                self@ == before,
                self.on() == old(self).on(),
                before == old(self)@,
                forall|k: int| 0 <= k < i ==> (#[trigger] before.lanes[k]).account_id != account@,
            decreases self.lanes.len() - i,
        {
            if same_text(self.lanes[i].account_id.as_str(), account) {
                assert(before.lanes[i as int] == self.lanes[i as int]@);
                return;
            }
            i += 1;
        }
        assert(!is_bound(before.lanes, account@));
        if let Some(at) = self.passengers.find(account) {
            if self.passengers.value(at).admissions() == 0 {
                self.passengers.value_mut(at).freeze(now);
                assert(self@.passengers =~= before.passengers.insert(
                    account@,
                    frozen(before.passengers[account@], now),
                ));
            }
        }
    }

    /// Retires a connection. Its account is frozen where nobody else reads it.
    pub fn release_lanes(&mut self, id: u64, now: u64)
        ensures
            final(self).on() == old(self).on(),
            final(self)@ == lanes_released(old(self)@, id, now),
    {
        let ghost all = self@.lanes;
        let mut rest: Vec<BoundLane> = Vec::new();
        std::mem::swap(&mut rest, &mut self.lanes);
        let mut kept: Vec<BoundLane> = Vec::new();
        let mut account: Option<String> = None;
        let ghost mut i: int = 0;
        while rest.len() > 0
            invariant
                0 <= i <= all.len(),
                lanes_view(rest@) == all.skip(i),
                lanes_view(kept@) == released(all.take(i), id),
                optional_view(account) == lane_account(all.take(i), id),
            decreases rest.len(),
        {
            let ghost left = rest@;
            let lane = rest.remove(0);
            proof {
                assert(lanes_view(left).len() == all.skip(i).len());
                assert(lanes_view(left)[0] == left[0]@);
                assert(all.skip(i)[0] == all[i]);
                assert(lane@ == all[i]);
                assert(lanes_view(rest@) =~= all.skip(i + 1)) by {
                    assert forall|k: int| 0 <= k < rest@.len() implies lanes_view(rest@)[k]
                        == all.skip(i + 1)[k] by {
                        assert(lanes_view(left)[k + 1] == all.skip(i)[k + 1]);
                    }
                }
                assert(all.take(i + 1).drop_last() =~= all.take(i));
            }
            if lane.id == id {
                if account.is_none() {
                    account = Some(lane.account_id);
                }
            } else {
                let ghost before = kept@;
                kept.push(lane);
                assert(lanes_view(kept@) =~= lanes_view(before).push(all[i]));
            }
            proof {
                i = i + 1;
            }
        }
        assert(all.take(i) =~= all);
        self.lanes = kept;
        if let Some(account) = account {
            self.freeze_if_unattended(account.as_str(), now);
        }
    }

    /// Lets a connection in to an account, before it is bound.
    pub fn let_in(&mut self, account: &str) -> (admission: Admission)
        requires
            old(self)@.passengers.dom().contains(account@),
            old(self)@.passengers[account@].admitted < usize::MAX,
        ensures
            final(self).on() == old(self).on(),
            final(self)@ == joined_by(old(self)@, account@),
            admission.to() == account@,
            admission.of() == old(self)@.passengers[account@].serial,
    {
        let ghost before = self@;
        let mut serial: u64 = 0;
        if let Some(at) = self.passengers.find(account) {
            serial = self.passengers.value(at).serial();
            self.passengers.value_mut(at).let_in();
        }
        assert(self@.passengers =~= joined_by(before, account@).passengers);
        Admission { account: account.to_owned(), serial }
    }

    /// Takes a connection's claim back. The account is frozen where nobody else
    /// reads it or is on the way.
    pub fn depart(&mut self, admission: Admission, now: u64)
        ensures
            final(self).on() == old(self).on(),
            final(self)@ == left_by(old(self)@, admission.to(), admission.of(), now),
    {
        let ghost before = self@;
        let ghost account = admission.account@;
        if let Some(at) = self.passengers.find(admission.account.as_str()) {
            if self.passengers.value(at).serial() == admission.serial {
                self.passengers.value_mut(at).depart();
                proof {
                    let one = PassengerView {
                        admitted: if before.passengers[account].admitted == 0 {
                            0
                        } else {
                            (before.passengers[account].admitted - 1) as usize
                        },
                        ..before.passengers[account]
                    };
                    assert(self@.passengers =~= before.passengers.insert(account, one));
                }
                self.freeze_if_unattended(admission.account.as_str(), now);
            }
        }
    }

    /// Attaches an account to a connection that reads it, and says whether it
    /// had been frozen: then what it holds off the connection's river is to be
    /// retired, and its orders are watched anew from now on.
    pub fn resume(&mut self, account: &str) -> (returning: bool)
        requires
            old(self)@.passengers.dom().contains(account@),
        ensures
            final(self).on() == old(self).on(),
            returning == old(self)@.passengers[account@].frozen_since is Some,
            final(self)@ == (RunView {
                passengers: old(self)@.passengers.insert(
                    account@,
                    PassengerView { frozen_since: None, ..old(self)@.passengers[account@] },
                ),
                ..old(self)@
            }),
    {
        let ghost before = self@;
        let mut returning = false;
        if let Some(at) = self.passengers.find(account) {
            returning = self.passengers.value(at).is_frozen();
            self.passengers.value_mut(at).attach();
        }
        assert(self@.passengers =~= before.passengers.insert(
            account@,
            PassengerView { frozen_since: None, ..before.passengers[account@] },
        ));
        returning
    }

    /// Forgets an account: its ledger, and which orders were its own.
    pub fn discard_account(&mut self, account: &str)
        ensures
            final(self).on() == old(self).on(),
            final(self)@ == forgotten(old(self)@, account@),
    {
        let ghost before = self@;
        self.passengers.remove(account);
        let mut owners: Roll<String> = Roll::new();
        std::mem::swap(&mut owners, &mut self.owners);
        self.owners = without_owner(owners, account);
        assert(self@.passengers =~= before.passengers.remove(account@));
    }

    /// Whether seating a connection discards the account's ledger: a client
    /// claims the account, the run hands clean ones out, and the client is not
    /// there already.
    pub fn seat_discards_ledger(&self, account: &str, claimed: bool, session: Option<&str>) -> (
        answer: bool)
        ensures
            answer == (claimed && self.on().reset_account_on_reconnect && !has_client(
                self@.lanes,
                account@,
                seen(session),
            )),
    {
        claimed && self.terms.reset_account_on_reconnect && !self.has_client_on(account, session)
    }

    /// Seats a connection on an account, and says which connections give way.
    /// Only a client that claims the account by name makes any give way.
    pub fn seat(
        &mut self,
        account: &str,
        claimed: bool,
        session: Option<&str>,
        resetting: bool,
        now: u64,
    ) -> (displaced: Vec<u64>)
        requires
            old(self)@.minted < u64::MAX,
            old(self).on().cap > 0,
        ensures
            final(self).on() == old(self).on(),
            displaced@ == if claimed {
                leaving(old(self)@.lanes, account@, seen(session))
            } else {
                Seq::empty()
            },
            final(self)@ == seated_on(
                old(self)@,
                account@,
                claimed,
                seen(session),
                resetting,
                old(self).on(),
                now,
            ),
    {
        let displaced = if claimed {
            self.evict_account(account, session)
        } else {
            Vec::new()
        };
        if resetting {
            self.discard_account(account);
        }
        self.passenger(account, now);
        displaced
    }

    /// Records which account an order is of.
    pub fn claim_order(&mut self, order: &str, account: &str)
        ensures
            final(self).on() == old(self).on(),
            final(self)@ == (RunView {
                owners: old(self)@.owners.insert(order@, account@),
                ..old(self)@
            }),
    {
        let ghost before = self@;
        match self.owners.find(order) {
            Some(at) => {
                self.owners.replace(at, account.to_owned());
            },
            None => {
                self.owners.enrol(order.to_owned(), account.to_owned());
            },
        }
        assert(self@.owners =~= before.owners.insert(order@, account@));
    }

    /// Records that the orders which answers accept are of an account.
    pub fn track_ownership(&mut self, events: &Vec<Frame>, account: &str)
        ensures
            final(self).on() == old(self).on(),
            final(self)@ == (RunView {
                owners: claimed_all(old(self)@.owners, accepted_in(events@), account@),
                ..old(self)@
            }),
    {
        let ghost before = self@;
        let mut i: usize = 0;
        while i < events.len()
            invariant
                i <= events.len(),
                self.on() == old(self).on(),
                self@ == (RunView {
                    owners: claimed_all(
                        before.owners,
                        accepted_in(events@.take(i as int)),
                        account@,
                    ),
                    ..before
                }),
            decreases events.len() - i,
        {
            let ghost so_far = accepted_in(events@.take(i as int));
            assert(events@.take(i + 1).drop_last() =~= events@.take(i as int));
            if let Frame::OrderAccepted { venue_order_id } = &events[i] {
                assert(so_far.push(venue_order_id@).drop_last() =~= so_far);
                self.claim_order(venue_order_id.as_str(), account);
            }
            i += 1;
        }
        assert(events@.take(i as int) =~= events@);
    }

    /// Which account an order is of.
    pub fn order_owner(&self, order: &str) -> (account: Option<&String>)
        ensures
            account is Some == self@.owners.dom().contains(order@),
            account is Some ==> account->0@ == self@.owners[order@],
    {
        self.owners.get(order)
    }

    fn keep_shown(&self, rows: &mut Vec<QueryRow>, account: &str)
        ensures
            final(rows)@ == shown_rows(old(rows)@, self@.owners, account@),
    {
        let ghost all = rows@;
        let ghost mut met: int = 0;
        let mut i: usize = 0;
        assert(all.skip(0) =~= all);
        assert(rows@ =~= shown_rows(all.take(0), self@.owners, account@) + all.skip(0));
        while i < rows.len()
            invariant
                0 <= met <= all.len(),
                i <= rows.len(),
                i == shown_rows(all.take(met), self@.owners, account@).len(),
                rows@ == shown_rows(all.take(met), self@.owners, account@) + all.skip(met),
            decreases rows.len() - i,
        {
            let ghost kept = shown_rows(all.take(met), self@.owners, account@);
            assert(all.take(met + 1).drop_last() =~= all.take(met));
            assert(rows@[i as int] == all.skip(met)[0]);
            assert(all.skip(met)[0] == all[met]);
            let shown = match self.order_owner(rows[i].venue_order_id.as_str()) {
                Some(owner) => same_text(owner.as_str(), account),
                None => true,
            };
            if shown {
                i += 1;
                assert(rows@ =~= kept.push(all[met]) + all.skip(met + 1));
            } else {
                rows.remove(i);
                assert(rows@ =~= kept + all.skip(met + 1));
            }
            proof {
                met = met + 1;
            }
        }
        assert(all.skip(met).len() == 0);
        assert(all.take(met) =~= all);
        assert(rows@ =~= shown_rows(all, self@.owners, account@));
    }

    /// Leaves of a reply's rows those that an account is shown: its own, and
    /// those of orders that nobody has claimed.
    pub fn scope_query_rows(&self, events: &mut Vec<Frame>, account: &str)
        ensures
            final(events)@.len() == old(events)@.len(),
            forall|i: int|
                0 <= i < old(events)@.len() ==> is_scoped(
                    old(events)@[i],
                    #[trigger] final(events)@[i],
                    self@.owners,
                    account@,
                ),
    {
        let n: usize = events.len();
        let mut i: usize = 0;
        while i < n
            invariant
                i <= n,
                n == events@.len(),
                n == old(events)@.len(),
                forall|k: int|
                    0 <= k < i ==> is_scoped(
                        old(events)@[k],
                        #[trigger] events@[k],
                        self@.owners,
                        account@,
                    ),
                forall|k: int| i <= k < n ==> #[trigger] events@[k] == old(events)@[k],
            decreases n - i,
        {
            match &mut events[i] {
                Frame::OrderStatusSnapshot { orders } => {
                    self.keep_shown(orders, account);
                },
                Frame::FillSnapshot { fills } => {
                    self.keep_shown(fills, account);
                },
                _ => {},
            }
            i += 1;
        }
    }
}

proof fn forgetting_one_more(run: RunView, accounts: Set<Seq<char>>, account: Seq<char>)
    ensures
        forgotten(all_forgotten(run, accounts), account) == all_forgotten(
            run,
            accounts.insert(account),
        ),
{
    let one = forgotten(all_forgotten(run, accounts), account);
    let other = all_forgotten(run, accounts.insert(account));
    assert(one.passengers =~= other.passengers);
    assert(one.owners =~= other.owners);
}

impl Run {
    /// Collects the accounts that nobody has read for a time, and says which:
    /// those that nobody is on the way to either.
    pub fn collect_expired_accounts(&mut self, ttl: u64, now: u64) -> (expired: Vec<String>)
        ensures
            final(self).on() == old(self).on(),
            names_view(expired@).no_duplicates(),
            forall|name: Seq<char>| #[trigger]
                names_view(expired@).contains(name) == (old(self)@.passengers.dom().contains(name)
                    && is_expired(old(self)@.passengers[name], ttl, now)),
            final(self)@ == all_forgotten(old(self)@, names_view(expired@).to_set()),
    {
        let ghost before = self@;
        let ghost order = self.passengers.order();
        let n: usize = self.passengers.len();
        let mut expired: Vec<String> = Vec::new();
        let mut i: usize = 0;
        while i < n
            invariant
                i <= n,
                self@ == before,
                self.on() == old(self).on(),
                before == old(self)@,
                order == self.passengers.order(),
                n == order.len(),
                order.no_duplicates(),
                names_view(expired@).no_duplicates(),
                forall|name: Seq<char>| #[trigger]
                    names_view(expired@).contains(name) == (order.take(i as int).contains(name)
                        && is_expired(before.passengers[name], ttl, now)),
            decreases n - i,
        {
            let passenger = self.passengers.value(i);
            let ghost name = order[i as int];
            let ghost held = names_view(expired@);
            proof {
                assert(order.take(i + 1) =~= order.take(i as int).push(name));
                assert(!order.take(i as int).contains(name)) by {
                    if order.take(i as int).contains(name) {
                        let k = choose|k: int|
                            0 <= k < order.take(i as int).len() && order.take(i as int)[k] == name;
                        assert(order[k] == order[i as int]);
                    }
                }
                assert forall|other: Seq<char>| #[trigger]
                    order.take(i + 1).contains(other) == (order.take(i as int).contains(other)
                        || other == name) by {
                    pushed_contains(order.take(i as int), name, other);
                }
            }
            let unattended = match passenger.frozen_for(now) {
                Some(span) => span >= ttl,
                None => false,
            };
            if passenger.admissions() == 0 && unattended {
                expired.push(self.passengers.name(i).as_str().to_owned());
                proof {
                    assert(names_view(expired@) =~= held.push(name));
                    assert(!held.contains(name));
                    assert forall|a: int, b: int|
                        0 <= a < held.push(name).len() && 0 <= b < held.push(name).len() && a
                            != b implies held.push(name)[a] != held.push(name)[b] by {
                        if a == held.len() {
                            assert(held.contains(held[b]));
                        } else if b == held.len() {
                            assert(held.contains(held[a]));
                        }
                    }
                    assert forall|other: Seq<char>| #[trigger]
                        names_view(expired@).contains(other) == (order.take(i + 1).contains(other)
                            && is_expired(before.passengers[other], ttl, now)) by {
                        pushed_contains(held, name, other);
                    }
                }
            }
            i += 1;
        }
        let ghost names = names_view(expired@);
        proof {
            assert(order.take(n as int) =~= order);
            assert(before.passengers =~= all_forgotten(
                before,
                names.take(0).to_set(),
            ).passengers);
            assert(before.owners =~= all_forgotten(before, names.take(0).to_set()).owners);
        }
        let mut k: usize = 0;
        while k < expired.len()
            invariant
                k <= expired.len(),
                names == names_view(expired@),
                self.on() == old(self).on(),
                self@ == all_forgotten(before, names.take(k as int).to_set()),
            decreases expired.len() - k,
        {
            proof {
                forgetting_one_more(before, names.take(k as int).to_set(), names[k as int]);
                assert(names.take(k + 1) =~= names.take(k as int).push(names[k as int]));
                let fewer = names.take(k as int);
                let more = names.take(k + 1);
                assert forall|other: Seq<char>|
                    more.to_set().contains(other) == fewer.to_set().insert(
                        names[k as int],
                    ).contains(other) by {
                    pushed_contains(fewer, names[k as int], other);
                    assert(more.to_set().contains(other) == more.contains(other));
                    assert(fewer.to_set().contains(other) == fewer.contains(other));
                }
                assert(more.to_set() =~= fewer.to_set().insert(names[k as int]));
            }
            self.discard_account(expired[k].as_str());
            k += 1;
        }
        assert(names.take(k as int) =~= names);
        expired
    }
}

proof fn pushed_contains(names: Seq<Seq<char>>, name: Seq<char>, other: Seq<char>)
    ensures
        names.push(name).contains(other) == (names.contains(other) || other == name),
{
    let now = names.push(name);
    if names.contains(other) {
        let k = choose|k: int| 0 <= k < names.len() && names[k] == other;
        assert(now[k] == other);
    }
    if other == name {
        assert(now[names.len() as int] == other);
    }
    if now.contains(other) && other != name {
        let k = choose|k: int| 0 <= k < now.len() && now[k] == other;
        assert(names[k] == other);
    }
}

/// Whether the ledger that a connection will be served on holds a currency: a
/// ledger that is reset, or not open yet, is opened as the venue opens one.
pub fn funded_in(resetting: bool, template_holds: bool, ledger_holds: Option<bool>) -> (answer: bool)
    ensures
        answer == if resetting || ledger_holds is None {
            template_holds
        } else {
            ledger_holds->0
        },
{
    if resetting {
        return template_holds;
    }
    match ledger_holds {
        Some(holds) => holds,
        None => template_holds,
    }
}

/// A row of a snapshot: the order that it is of, and a number by which it is
/// found again.
#[derive(Clone, Debug, PartialEq, Eq)]
pub struct QueryRow {
    pub venue_order_id: String,
    pub row: u64,
}

/// An answer of the engine's, as far as its address goes.
#[allow(inconsistent_fields)]
#[derive(Clone, Debug, PartialEq, Eq)]
pub enum Frame {
    OrderStatusSnapshot { orders: Vec<QueryRow> },
    FillSnapshot { fills: Vec<QueryRow> },
    AccountState { account_id: String },
    OrderAccepted { venue_order_id: String },
    OrderTriggered { venue_order_id: String },
    OrderCanceled { venue_order_id: String },
    OrderExpired { venue_order_id: String },
    OrderUpdated { venue_order_id: String },
    OrderFilled { venue_order_id: String },
    OrderModifyRejected { venue_order_id: Option<String> },
    OrderCancelRejected { venue_order_id: Option<String> },
    Other,
}

/// The account that an answer names itself.
pub open spec fn account_of(frame: Frame) -> Option<Seq<char>> {
    match frame {
        Frame::AccountState { account_id } => Some(account_id@),
        _ => None,
    }
}

/// The order that an answer is about.
pub open spec fn order_of(frame: Frame) -> Option<Seq<char>> {
    match frame {
        Frame::OrderAccepted { venue_order_id } => Some(venue_order_id@),
        Frame::OrderTriggered { venue_order_id } => Some(venue_order_id@),
        Frame::OrderCanceled { venue_order_id } => Some(venue_order_id@),
        Frame::OrderExpired { venue_order_id } => Some(venue_order_id@),
        Frame::OrderUpdated { venue_order_id } => Some(venue_order_id@),
        Frame::OrderFilled { venue_order_id } => Some(venue_order_id@),
        Frame::OrderModifyRejected { venue_order_id } => optional_view(venue_order_id),
        Frame::OrderCancelRejected { venue_order_id } => optional_view(venue_order_id),
        _ => None,
    }
}

/// The account that an answer names itself.
pub fn addressed_account(frame: &Frame) -> (account: Option<&String>)
    ensures
        account is Some == account_of(*frame) is Some,
        account is Some ==> account->0@ == account_of(*frame)->0,
{
    match frame {
        Frame::AccountState { account_id } => Some(account_id),
        _ => None,
    }
}

/// The order that an answer is about.
pub fn addressed_order(frame: &Frame) -> (order: Option<&String>)
    ensures
        order is Some == order_of(*frame) is Some,
        order is Some ==> order->0@ == order_of(*frame)->0,
{
    match frame {
        Frame::OrderAccepted { venue_order_id }
        | Frame::OrderTriggered { venue_order_id }
        | Frame::OrderCanceled { venue_order_id }
        | Frame::OrderExpired { venue_order_id }
        | Frame::OrderUpdated { venue_order_id }
        | Frame::OrderFilled { venue_order_id } => Some(venue_order_id),
        Frame::OrderModifyRejected { venue_order_id }
        | Frame::OrderCancelRejected { venue_order_id } => match venue_order_id {
            Some(order) => Some(order),
            None => None,
        },
        _ => None,
    }
}

/// An account that is opened after something was armed against the venue bears
/// it as one that was open when it was armed, unless arms wait for the account
/// by name.
pub proof fn a_late_account_bears_the_venue_arms(
    run: RunView,
    account: Seq<char>,
    arm: VenueArm,
    risk: RiskLedger,
    now: u64,
    cap: usize,
)
    requires
        cap > 0,
        pending_at(run.pending, account) is None,
        run.all.engine.len() <= cap,
        !run.passengers.dom().contains(account),
    ensures
        run_armed(minted(run, account, risk, now, cap), None, arm, cap).passengers[account]
            == minted(run_armed(run, None, arm, cap), account, risk, now, cap).passengers[account],
{
    replaying_one_more(run.all.engine, arm, cap);
}

proof fn replaying_one_more(queue: Seq<u64>, arm: VenueArm, cap: usize)
    requires
        cap > 0,
        queue.len() <= cap,
    ensures
        arm is Engine ==> queued_all(Seq::empty(), queued(queue, arm->divergence, cap), cap)
            == queued(queued_all(Seq::empty(), queue, cap), arm->divergence, cap),
{
    a_short_queue_is_replayed(queue, cap);
    if arm is Engine {
        a_short_queue_is_replayed(queued(queue, arm->divergence, cap), cap);
    }
}

/// What is armed against one account reaches no other, open or not.
pub proof fn a_named_arm_reaches_no_other(
    run: RunView,
    name: Seq<char>,
    other: Seq<char>,
    arm: VenueArm,
    cap: usize,
)
    requires
        name != other,
    ensures
        run_armed(run, Some(name), arm, cap).all == run.all,
        run_armed(run, Some(name), arm, cap).passengers.dom() == run.passengers.dom(),
        run.passengers.dom().contains(other) ==> run_armed(run, Some(name), arm, cap).passengers[other]
            == run.passengers[other],
{
    assert(run_armed(run, Some(name), arm, cap).passengers.dom() =~= run.passengers.dom());
}

/// Arming and opening leave each account at most one record that waits for it.
pub proof fn records_stay_apart(
    run: RunView,
    to: Option<Seq<char>>,
    arm: VenueArm,
    account: Seq<char>,
    risk: RiskLedger,
    now: u64,
    cap: usize,
)
    requires
        is_apart(run.pending),
    ensures
        is_apart(run_armed(run, to, arm, cap).pending),
        is_apart(minted(run, account, risk, now, cap).pending),
{
    if let Some(name) = to {
        what_is_found(run.pending, name);
        let after = pending_recorded(run.pending, name, arm, cap);
        if pending_at(run.pending, name) is None && run.pending.len()
            >= MAX_PENDING_ACCOUNT_ARMS {
            let kept = run.pending.drop_first();
            assert forall|i: int, j: int| 0 <= i < j < after.len() implies (#[trigger] after[i]).0
                != (#[trigger] after[j]).0 by {
                assert(kept[i] == run.pending[i + 1]);
                if j < kept.len() {
                    assert(kept[j] == run.pending[j + 1]);
                }
            }
        }
    }
    what_is_found(run.pending, account);
}

/// Whether an account suffers what an arm says, on its connections or its
/// ledger.
pub open spec fn bears(passenger: PassengerView, arm: VenueArm) -> bool {
    match arm {
        VenueArm::DelayAcks { ms } => passenger.transport.delay_ms == ms,
        VenueArm::CommandLatency { latency } => passenger.transport.latency == latency,
        VenueArm::GoDark { span } => passenger.transport.dark.span == Some(span),
        VenueArm::StallData { span } => passenger.transport.stall.span == Some(span),
        VenueArm::FeeSurcharge { surcharge } => passenger.arms.surcharge == Some(surcharge),
        VenueArm::Engine { divergence } => passenger.arms.queue.contains(divergence),
    }
}

proof fn the_last_is_queued(queue: Seq<u64>, more: Seq<u64>, cap: usize)
    requires
        cap > 0,
        more.len() > 0,
    ensures
        queued_all(queue, more, cap).contains(more.last()),
{
    let all = queued_all(queue, more, cap);
    assert(all[all.len() - 1] == more.last());
}

proof fn an_opened_account_bears_its_record(
    passenger: PassengerView,
    record: ArmRecordView,
    arm: VenueArm,
    cap: usize,
)
    requires
        cap > 0,
    ensures
        bears(opened_with(passenger, recorded(record, arm, cap), cap), arm),
{
    if let VenueArm::Engine { divergence } = arm {
        the_last_is_queued(passenger.arms.queue, recorded(record, arm, cap).engine, cap);
    }
}

/// Taking the record of one account leaves those of the others.
proof fn a_taken_record_leaves_the_others(pending: Pending, account: Seq<char>, other: Seq<char>)
    requires
        account != other,
    ensures
        ({
            let left = pending_taken(pending, account);
            match pending_at(pending, other) {
                None => pending_at(left, other) is None,
                Some(at) => pending_at(left, other) is Some && left[pending_at(left, other)->0].1
                    == pending[at].1,
            }
        }),
{
    what_is_found(pending, account);
    what_is_found(pending, other);
    let left = pending_taken(pending, account);
    if let Some(gone) = pending_at(pending, account) {
        match pending_at(pending, other) {
            None => {
                assert forall|k: int| 0 <= k < left.len() implies (#[trigger] left[k]).0
                    != other by {
                    if k < gone {
                        assert(left[k] == pending[k]);
                    } else {
                        assert(left[k] == pending[k + 1]);
                    }
                }
                pending_is_absent(left, other);
            },
            Some(at) => {
                let there = if at < gone {
                    at
                } else {
                    at - 1
                };
                assert(left[there] == pending[at]);
                assert forall|k: int| 0 <= k < there implies (#[trigger] left[k]).0 != other by {
                    if k < gone {
                        assert(left[k] == pending[k]);
                    } else {
                        assert(left[k] == pending[k + 1]);
                    }
                }
                pending_is_found(left, other, there);
            },
        }
    }
}

/// What is armed against an account that is not open opens nothing. It stands on
/// the ledger that the account is opened with, and is used up by it. An account
/// with another name is opened as if it had not been armed, before that ledger
/// or after it, unless its own record had to make room.
pub proof fn an_arm_waits_for_its_account(
    run: RunView,
    name: Seq<char>,
    other: Seq<char>,
    arm: VenueArm,
    risk: RiskLedger,
    now: u64,
    cap: usize,
)
    requires
        cap > 0,
        is_apart(run.pending),
        !run.passengers.dom().contains(name),
        other != name,
    ensures
        ({
            let waiting = run_armed(run, Some(name), arm, cap);
            let opened = minted(waiting, name, risk, now, cap);
            &&& waiting.passengers == run.passengers
            &&& waiting.minted == run.minted
            &&& bears(opened.passengers[name], arm)
            &&& pending_at(opened.pending, name) is None
            &&& run.pending.len() < MAX_PENDING_ACCOUNT_ARMS || pending_at(run.pending, other)
                is None ==> minted(waiting, other, risk, now, cap).passengers[other] == minted(
                run,
                other,
                risk,
                now,
                cap,
            ).passengers[other]
            &&& run.pending.len() < MAX_PENDING_ACCOUNT_ARMS || pending_at(run.pending, other)
                is None ==> {
                let later = minted(opened, other, risk, now, cap).passengers[other];
                let plain = minted(run, other, risk, now, cap).passengers[other];
                later.transport == plain.transport && later.arms == plain.arms
            }
        }),
{
    let waiting = run_armed(run, Some(name), arm, cap);
    let before = run.pending;
    let after = waiting.pending;
    what_is_found(before, name);
    what_is_found(before, other);
    let base = opened_with(newly_opened(run.minted, risk, now), run.all, cap);
    let at = match pending_at(before, name) {
        Some(at) => at,
        None => after.len() - 1,
    };
    match pending_at(before, name) {
        Some(at) => {
            assert forall|k: int| 0 <= k < at implies (#[trigger] after[k]).0 != name by {
                assert(after[k] == before[k]);
            }
            an_opened_account_bears_its_record(base, before[at].1, arm, cap);
        },
        None => {
            assert forall|k: int| 0 <= k < at implies (#[trigger] after[k]).0 != name by {
                if before.len() >= MAX_PENDING_ACCOUNT_ARMS {
                    assert(after[k] == before[k + 1]);
                } else {
                    assert(after[k] == before[k]);
                }
            }
            an_opened_account_bears_its_record(base, blank_record(), arm, cap);
        },
    }
    pending_is_found(after, name, at);
    records_stay_apart(run, Some(name), arm, name, risk, now, cap);
    let used = after.remove(at);
    assert forall|k: int| 0 <= k < used.len() implies (#[trigger] used[k]).0 != name by {
        if k < at {
            assert(used[k] == after[k]);
        } else {
            assert(used[k] == after[k + 1]);
        }
    }
    pending_is_absent(used, name);
    if run.pending.len() < MAX_PENDING_ACCOUNT_ARMS || pending_at(before, other) is None {
        match pending_at(before, other) {
            Some(there) => {
                assert forall|k: int| 0 <= k < there implies (#[trigger] after[k]).0 != other by {
                    assert(before[k].0 != other);
                }
                pending_is_found(after, other, there);
            },
            None => {
                assert forall|k: int| 0 <= k < after.len() implies (#[trigger] after[k]).0
                    != other by {
                    if pending_at(before, name) is None && before.len()
                        >= MAX_PENDING_ACCOUNT_ARMS {
                        if k < after.len() - 1 {
                            assert(after[k] == before[k + 1]);
                        }
                    } else if k < before.len() {
                        assert(before[k].0 != other);
                    }
                }
                pending_is_absent(after, other);
            },
        }
        a_taken_record_leaves_the_others(after, name, other);
    }
}

/// An account that is opened after two things were armed against the venue bears
/// both, unless the later replaced the earlier or arms wait for it by name. It
/// is frozen, and asking for it again leaves it as it is.
pub proof fn a_first_ledger_bears_what_was_armed(
    run: RunView,
    account: Seq<char>,
    span: ArmedSpan,
    ms: u64,
    terms: Terms,
    now: u64,
    again: u64,
)
    requires
        terms.cap > 0,
        !run.passengers.dom().contains(account),
        pending_at(run.pending, account) is None,
    ensures
        ({
            let dark = run_armed(run, None, VenueArm::GoDark { span }, terms.cap);
            let both = run_armed(dark, None, VenueArm::DelayAcks { ms }, terms.cap);
            let opened = with_account(both, account, terms, now);
            &&& bears(opened.passengers[account], VenueArm::GoDark { span })
            &&& bears(opened.passengers[account], VenueArm::DelayAcks { ms })
            &&& opened.passengers[account].frozen_since == Some(now)
            &&& with_account(opened, account, terms, again) == opened
        }),
{
}

/// An account that is opened after a clear suffers nothing that was lifted.
pub proof fn a_clear_stops_arming_later_accounts(
    run: RunView,
    account: Seq<char>,
    risk: RiskLedger,
    now: u64,
    cap: usize,
)
    requires
        !run.passengers.dom().contains(account),
    ensures
        ({
            let opened = minted(run_cleared(run), account, risk, now, cap).passengers[account];
            opened.transport == calm() && opened.arms.surcharge is None
        }),
{
    assert(pending_at(run_cleared(run).pending, account) is None);
}

/// Nobody but the claiming client is left on an account that was claimed.
pub proof fn a_claim_leaves_one_client(
    lanes: Seq<LaneView>,
    account: Seq<char>,
    session: Option<Seq<char>>,
)
    ensures
        forall|i: int|
            0 <= i < staying(lanes, account, session).len() ==> !gives_way(
                #[trigger] staying(lanes, account, session)[i],
                account,
                session,
            ),
    decreases lanes.len(),
{
    if lanes.len() > 0 {
        a_claim_leaves_one_client(lanes.drop_last(), account, session);
        let now = staying(lanes, account, session);
        let before = staying(lanes.drop_last(), account, session);
        assert forall|i: int| 0 <= i < now.len() implies !gives_way(
            #[trigger] now[i],
            account,
            session,
        ) by {
            if i < before.len() {
                assert(now[i] == before[i]);
            }
        }
    }
}

/// When the last connection of an account has gone, the account is frozen; and
/// while one is bound to it or on the way, it stays as it is.
pub proof fn an_account_freezes_when_nobody_reads_it(run: RunView, account: Seq<char>, now: u64)
    requires
        run.passengers.dom().contains(account),
    ensures
        ({
            let after = unattended(run, account, now).passengers[account];
            if run.passengers[account].admitted == 0 && !is_bound(run.lanes, account) {
                after.frozen_since is Some
            } else {
                after == run.passengers[account]
            }
        }),
{
}

/// A connection that is on the way to an account keeps it from being collected.
pub proof fn an_account_in_use_is_not_collected(passenger: PassengerView, ttl: u64, now: u64)
    requires
        passenger.admitted > 0 || passenger.frozen_since is None,
    ensures
        !is_expired(passenger, ttl, now),
{
}

/// Of an account that is forgotten no order is left, and others keep theirs.
pub proof fn a_forgotten_account_owns_nothing(run: RunView, account: Seq<char>, order: Seq<char>)
    ensures
        forgotten(run, account).owners.dom().contains(order) == (run.owners.dom().contains(order)
            && run.owners[order] != account),
        forgotten(run, account).owners.dom().contains(order)
            ==> forgotten(run, account).owners[order] == run.owners[order],
        !forgotten(run, account).passengers.dom().contains(account),
{
}

impl Run {
    /// The accounts whose books are searched for an order: the named one where
    /// it is open, or every open one where none is named.
    pub fn passengers_to_search(&self, account: Option<&str>) -> (accounts: Vec<String>)
        ensures
            account is Some ==> names_view(accounts@) == (if self@.passengers.dom().contains(
                account->0@,
            ) {
                seq![account->0@]
            } else {
                Seq::empty()
            }),
            account is None ==> forall|name: Seq<char>| #[trigger]
                names_view(accounts@).contains(name) == self@.passengers.dom().contains(name),
            names_view(accounts@).no_duplicates(),
    {
        let mut accounts: Vec<String> = Vec::new();
        if let Some(account) = account {
            if self.passengers.contains(account) {
                accounts.push(account.to_owned());
                assert(names_view(accounts@) =~= seq![account@]);
            } else {
                assert(names_view(accounts@) =~= Seq::<Seq<char>>::empty());
            }
            return accounts;
        }
        let n: usize = self.passengers.len();
        let ghost order = self.passengers.order();
        let mut i: usize = 0;
        while i < n
            invariant
                i <= n,
                n == order.len(),
                order == self.passengers.order(),
                names_view(accounts@) =~= order.take(i as int),
            decreases n - i,
        {
            let ghost held = names_view(accounts@);
            accounts.push(self.passengers.name(i).as_str().to_owned());
            assert(names_view(accounts@) =~= held.push(order[i as int]));
            i += 1;
        }
        assert(order.take(i as int) =~= order);
        accounts
    }
}

/// The symbol that an order rests on in an account's book, as the books say it:
/// each with its account, and the first of one account counts.
pub open spec fn rests_on(books: Seq<(String, String)>, account: Seq<char>) -> Option<Seq<char>>
    decreases books.len(),
{
    if books.len() == 0 {
        None
    } else if books[0].0@ == account {
        Some(books[0].1@)
    } else {
        rests_on(books.drop_first(), account)
    }
}

fn find_book(books: &Vec<(String, String)>, account: &str) -> (symbol: Option<String>)
    ensures
        match symbol {
            Some(symbol) => rests_on(books@, account@) == Some(symbol@),
            None => rests_on(books@, account@) is None,
        },
{
    let mut i: usize = 0;
    assert(books@.skip(0) =~= books@);
    while i < books.len()
        invariant
            i <= books.len(),
            rests_on(books@, account@) == rests_on(books@.skip(i as int), account@),
        decreases books.len() - i,
    {
        assert(books@.skip(i as int).drop_first() =~= books@.skip(i + 1));
        assert(books@.skip(i as int)[0] == books@[i as int]);
        if same_text(books[i].0.as_str(), account) {
            return Some(books[i].1.as_str().to_owned());
        }
        i += 1;
    }
    None
}

impl Run {
    /// An open account in whose book an order rests, and the symbol that it
    /// rests on. `books` says of each account that holds the order where it
    /// does. Where an account is named, no other is looked at.
    pub fn passenger_holding(&self, account: Option<&str>, books: &Vec<(String, String)>) -> (found:
        Option<(String, String)>)
        ensures
            match found {
                Some((name, symbol)) => {
                    &&& self@.passengers.dom().contains(name@)
                    &&& account is Some ==> name@ == account->0@
                    &&& rests_on(books@, name@) == Some(symbol@)
                },
                None => forall|name: Seq<char>| #[trigger]
                    self@.passengers.dom().contains(name) && (account is Some ==> name
                        == account->0@) ==> rests_on(books@, name) is None,
            },
    {
        let accounts = self.passengers_to_search(account);
        let ghost names = names_view(accounts@);
        let mut i: usize = 0;
        while i < accounts.len()
            invariant
                i <= accounts.len(),
                names == names_view(accounts@),
                account is Some ==> names == (if self@.passengers.dom().contains(account->0@) {
                    seq![account->0@]
                } else {
                    Seq::empty()
                }),
                account is None ==> forall|name: Seq<char>| #[trigger]
                    names.contains(name) == self@.passengers.dom().contains(name),
                forall|k: int| 0 <= k < i ==> rests_on(books@, #[trigger] names[k]) is None,
            decreases accounts.len() - i,
        {
            let name = accounts[i].as_str();
            assert(name@ == names[i as int]);
            assert(names.contains(names[i as int]));
            if let Some(symbol) = find_book(books, name) {
                return Some((name.to_owned(), symbol));
            }
            i += 1;
        }
        proof {
            assert forall|name: Seq<char>| #[trigger]
                self@.passengers.dom().contains(name) && (account is Some ==> name
                    == account->0@) implies rests_on(books@, name) is None by {
                if account is Some {
                    assert(names[0] == name);
                } else {
                    assert(names.contains(name));
                    let k = choose|k: int| 0 <= k < names.len() && names[k] == name;
                    assert(names[k] == name);
                }
            }
        }
        None
    }
}

/// What is set up for an instrument when a ledger first trades it.
#[derive(Clone, Copy, Debug)]
pub struct Policies {
    pub margin: Option<ConfiguredMargin>,
    pub fees: Option<ConfiguredFees>,
}

/// What is set up for an instrument on a ledger that has just registered it, or
/// that had it registered already: the margin and the fees of its profile the
/// first time, and nothing after that, so that an instrument which is traded
/// keeps what it is traded under.
pub fn register_instrument(newly: bool, profile: &InstrumentProfile) -> (policies: Policies)
    ensures
        newly ==> policies.margin == profile.margin && policies.fees == profile.fees,
        !newly ==> policies.margin is None && policies.fees is None,
{
    if newly {
        Policies { margin: profile.margin, fees: profile.fees }
    } else {
        Policies { margin: None, fees: None }
    }
}

/// What the client states of its own rules comes first, then what the operator
/// registered under the name, then what ships under it; a name that nobody has is
/// no policy, and a client that names none has its own.
pub proof fn a_policy_is_the_nearest(
    named: Option<Seq<char>>,
    states_rules: bool,
    registered: bool,
    shipped: bool,
)
    ensures
        ({
            let source = policy_source(named, states_rules, registered, shipped);
            &&& states_rules ==> source == Some(PolicySource::Inline)
            &&& named is None ==> source == Some(PolicySource::Inline)
            &&& !states_rules && named is Some && registered ==> source == Some(
                PolicySource::Registered,
            )
            &&& !states_rules && named is Some && !registered && shipped ==> source == Some(
                PolicySource::Shipped,
            )
            &&& !states_rules && named is Some && !registered && !shipped ==> source is None
        }),
{
}

/// When a client claims an account, every other connection on it gives way, and
/// no connection else: those on other accounts stay, and so do the client's own,
/// which are known by the session that they name. All stay in their order, and
/// those that give way are told by their numbers, in their order.
pub proof fn a_claim_moves_the_others_out(
    lanes: Seq<LaneView>,
    account: Seq<char>,
    session: Option<Seq<char>>,
)
    ensures
        ({
            let goes = |lane: LaneView|
                lane.account_id == account && (session is None || lane.session != session);
            let stays = |lane: LaneView|
                lane.account_id != account || (session is Some && lane.session == session);
            &&& staying(lanes, account, session) == lanes.filter(stays)
            &&& leaving(lanes, account, session) == lanes.filter(goes).map_values(
                |lane: LaneView| lane.id,
            )
        }),
    decreases lanes.len(),
{
    reveal(Seq::filter);
    let goes = |lane: LaneView|
        lane.account_id == account && (session is None || lane.session != session);
    let stays = |lane: LaneView|
        lane.account_id != account || (session is Some && lane.session == session);
    let number = |lane: LaneView| lane.id;
    if lanes.len() > 0 {
        let held = lanes.drop_last();
        a_claim_moves_the_others_out(held, account, session);
        assert(goes(lanes.last()) == !stays(lanes.last()));
        if goes(lanes.last()) {
            assert(held.filter(goes).push(lanes.last()).map_values(number) =~= held.filter(
                goes,
            ).map_values(number).push(lanes.last().id));
        }
    } else {
        assert(lanes.filter(goes).map_values(number) =~= Seq::<u64>::empty());
    }
}

/// Connections are retired by their number: those of the number go, and the
/// others stay in their order.
pub proof fn connections_are_retired_by_their_number(lanes: Seq<LaneView>, id: u64)
    ensures
        released(lanes, id) == lanes.filter(|lane: LaneView| lane.id != id),
    decreases lanes.len(),
{
    reveal(Seq::filter);
    if lanes.len() > 0 {
        connections_are_retired_by_their_number(lanes.drop_last(), id);
    }
}

/// The account that retired connections were on is that of the first of them,
/// and there is none where no connection has the number.
pub proof fn a_number_tells_its_account(lanes: Seq<LaneView>, id: u64, i: int)
    requires
        0 <= i <= lanes.len(),
        forall|k: int| 0 <= k < i ==> (#[trigger] lanes[k]).id != id,
        i < lanes.len() ==> lanes[i].id == id,
    ensures
        lane_account(lanes, id) == if i < lanes.len() {
            Some(lanes[i].account_id)
        } else {
            None
        },
    decreases lanes.len(),
{
    if lanes.len() > 0 {
        let held = lanes.drop_last();
        assert forall|k: int| 0 <= k < i && k < held.len() implies (#[trigger] held[k]).id != id by {
            assert(held[k] == lanes[k]);
        }
        if i < held.len() {
            assert(held[i] == lanes[i]);
            a_number_tells_its_account(held, id, i);
        } else {
            a_number_tells_its_account(held, id, held.len() as int);
            if i == held.len() {
                assert(lanes.last() == lanes[i]);
            } else {
                assert(lanes.last() == lanes[held.len() as int]);
            }
        }
    }
}

/// An account is collected once it has been unattended for its whole life, to the
/// instant: nobody is on the way to it, nobody reads it, and so long has passed
/// since somebody did.
pub proof fn an_account_is_collected_in_its_time(passenger: PassengerView, ttl: u64, now: u64)
    requires
        ttl > 0,
    ensures
        is_expired(passenger, ttl, now) == (passenger.admitted == 0 && passenger.frozen_since
            is Some && passenger.frozen_since->0 + ttl <= now),
{
}

/// An account opens with the equity that its client or the run states, at its
/// peak and at the start of its day, unlocked and in no breach, and nobody reads
/// it yet. It is numbered apart from every account before it.
pub proof fn an_account_opens_clean(
    run: RunView,
    account: Seq<char>,
    policy: AccountPolicy,
    equity: Dec,
    started_ns: u64,
    now: u64,
    cap: usize,
)
    requires
        run.minted < u64::MAX,
        policy.reset_minute_utc <= MAX_RESET_MINUTE,
    ensures
        ({
            let after = minted(run, account, opening_ledger(policy, equity, started_ns), now, cap);
            let opened = after.passengers[account];
            &&& after.passengers.dom().contains(account)
            &&& opened.risk.policy == policy
            &&& opened.risk.peak_equity == equity
            &&& opened.risk.day_open_equity == equity
            &&& !opened.risk.locked
            &&& opened.risk.breach is None
            &&& opened.frozen_since == Some(now)
            &&& opened.admitted == 0
            &&& opened.seats == Map::<Seq<char>, crate::passenger::Seat>::empty()
            &&& opened.serial == run.minted
            &&& after.minted == run.minted + 1
            &&& after.lanes == run.lanes
            &&& after.owners == run.owners
            &&& after.all == run.all
            &&& forall|other: Seq<char>|
                other != account ==> (#[trigger] after.passengers.dom().contains(other)
                    == run.passengers.dom().contains(other)) && (run.passengers.dom().contains(
                    other,
                ) ==> after.passengers[other] == run.passengers[other])
        }),
{
}

/// A clear reaches every open account and every account that waits: each suffers
/// nothing on its connections and pays no surcharge, and nothing waits any more.
pub proof fn a_clear_reaches_every_account(run: RunView, account: Seq<char>)
    ensures
        run_cleared(run).pending.len() == 0,
        run_cleared(run).passengers.dom().contains(account) == run.passengers.dom().contains(
            account,
        ),
        run.passengers.dom().contains(account) ==> {
            let after = run_cleared(run).passengers[account];
            &&& after.transport == calm()
            &&& after.arms.surcharge is None
            &&& after.arms.queue == run.passengers[account].arms.queue
            &&& after.risk == run.passengers[account].risk
        },
{
}

/// What is armed against the venue reaches every open account, and what is armed
/// against one open account reaches that one.
pub proof fn an_open_account_bears_what_is_armed(
    run: RunView,
    to: Option<Seq<char>>,
    name: Seq<char>,
    arm: VenueArm,
    cap: usize,
)
    requires
        cap > 0,
        run.passengers.dom().contains(name),
        to is None || to == Some(name),
    ensures
        bears(run_armed(run, to, arm, cap).passengers[name], arm),
        run_armed(run, to, arm, cap).passengers[name].risk == run.passengers[name].risk,
        run_armed(run, to, arm, cap).passengers[name].serial == run.passengers[name].serial,
{
    if let VenueArm::Engine { divergence } = arm {
        let queue = queued(run.passengers[name].arms.queue, divergence, cap);
        assert(queue[queue.len() - 1] == divergence);
    }
}

/// A connection that is let in counts once, and its going takes it off again;
/// where the account has gone before it, and another has its name, that other is
/// not touched.
pub proof fn each_connection_counts_once(run: RunView, account: Seq<char>, serial: u64, now: u64)
    requires
        run.passengers.dom().contains(account),
        run.passengers[account].admitted < usize::MAX,
    ensures
        joined_by(run, account).passengers[account].admitted == run.passengers[account].admitted + 1,
        serial != run.passengers[account].serial ==> left_by(run, account, serial, now) == run,
        serial == run.passengers[account].serial && run.passengers[account].admitted > 0 ==> left_by(
            run,
            account,
            serial,
            now,
        ).passengers[account].admitted == run.passengers[account].admitted - 1,
{
}

/// An account that is forgotten or collected takes its orders with it, and no
/// others.
pub proof fn collected_accounts_own_nothing(
    run: RunView,
    accounts: Set<Seq<char>>,
    name: Seq<char>,
    order: Seq<char>,
)
    ensures
        all_forgotten(run, accounts).passengers.dom().contains(name)
            == (run.passengers.dom().contains(name) && !accounts.contains(name)),
        all_forgotten(run, accounts).passengers.dom().contains(name) ==> all_forgotten(
            run,
            accounts,
        ).passengers[name] == run.passengers[name],
        all_forgotten(run, accounts).owners.dom().contains(order) == (run.owners.dom().contains(
            order,
        ) && !accounts.contains(run.owners[order])),
        all_forgotten(run, accounts).owners.dom().contains(order) ==> all_forgotten(
            run,
            accounts,
        ).owners[order] == run.owners[order],
        all_forgotten(run, accounts).lanes == run.lanes,
        all_forgotten(run, accounts).all == run.all,
        all_forgotten(run, accounts).pending == run.pending,
{
}

/// The orders that an account claims are its own from then on, and those of
/// others stay theirs.
pub proof fn claimed_orders_are_ones_own(
    owners: Map<Seq<char>, Seq<char>>,
    orders: Seq<Seq<char>>,
    account: Seq<char>,
    order: Seq<char>,
)
    ensures
        orders.contains(order) ==> claimed_all(owners, orders, account).dom().contains(order)
            && claimed_all(owners, orders, account)[order] == account,
        !orders.contains(order) ==> claimed_all(owners, orders, account).dom().contains(order)
            == owners.dom().contains(order) && (owners.dom().contains(order) ==> claimed_all(
            owners,
            orders,
            account,
        )[order] == owners[order]),
    decreases orders.len(),
{
    if orders.len() > 0 {
        let held = orders.drop_last();
        claimed_orders_are_ones_own(owners, held, account, order);
        if orders.contains(order) {
            let k = choose|k: int| 0 <= k < orders.len() && orders[k] == order;
            if k < held.len() {
                assert(held[k] == order);
            }
        }
        if held.contains(order) {
            let k = choose|k: int| 0 <= k < held.len() && held[k] == order;
            assert(orders[k] == order);
        }
        assert(orders[orders.len() - 1] == orders.last());
    }
}

/// The orders that answers accept are those of the acceptances among them, in
/// their order.
pub proof fn only_acceptances_are_claimed(frames: Seq<Frame>)
    ensures
        accepted_in(frames) == frames.filter(|frame: Frame| frame is OrderAccepted).map_values(
            |frame: Frame| frame->OrderAccepted_venue_order_id@,
        ),
    decreases frames.len(),
{
    reveal(Seq::filter);
    let accepts = |frame: Frame| frame is OrderAccepted;
    let order = |frame: Frame| frame->OrderAccepted_venue_order_id@;
    if frames.len() > 0 {
        let held = frames.drop_last();
        only_acceptances_are_claimed(held);
        if accepts(frames.last()) {
            assert(held.filter(accepts).push(frames.last()).map_values(order) =~= held.filter(
                accepts,
            ).map_values(order).push(frames.last()->OrderAccepted_venue_order_id@));
        }
    } else {
        assert(frames.filter(accepts).map_values(order) =~= Seq::<Seq<char>>::empty());
    }
}

/// Whoever claims an account clears the others off it, and where claiming resets,
/// the account is new: it has another number than it had, nobody rides with it
/// and it owns no order. Where it does not reset, an open account is the one that
/// it was.
pub proof fn a_seat_is_on_a_clean_or_a_kept_account(
    run: RunView,
    account: Seq<char>,
    claimed: bool,
    session: Option<Seq<char>>,
    resetting: bool,
    terms: Terms,
    now: u64,
    order: Seq<char>,
)
    requires
        run.passengers.dom().contains(account),
        run.passengers[account].serial < run.minted < u64::MAX,
    ensures
        ({
            let after = seated_on(run, account, claimed, session, resetting, terms, now);
            &&& after.passengers.dom().contains(account)
            &&& claimed ==> after.lanes == staying(run.lanes, account, session)
            &&& !claimed ==> after.lanes == run.lanes
            &&& !resetting ==> after.passengers[account] == run.passengers[account] && after.owners
                == run.owners
            &&& resetting ==> {
                &&& after.passengers[account].serial > run.passengers[account].serial
                &&& after.passengers[account].risk.peak_equity == terms.opening
                &&& after.passengers[account].admitted == 0
                &&& after.owners.dom().contains(order) ==> after.owners[order] != account
            }
        }),
{
}

/// The symbol that an order rests on in an account's book is what the first book
/// of that account says.
pub proof fn the_first_book_tells(books: Seq<(String, String)>, account: Seq<char>, i: int)
    requires
        0 <= i <= books.len(),
        forall|k: int| 0 <= k < i ==> (#[trigger] books[k]).0@ != account,
        i < books.len() ==> books[i].0@ == account,
    ensures
        rests_on(books, account) == if i < books.len() {
            Some(books[i].1@)
        } else {
            None
        },
    decreases i,
{
    if i > 0 {
        let rest = books.drop_first();
        assert(books[0].0@ != account);
        assert forall|k: int| 0 <= k < i - 1 implies (#[trigger] rest[k]).0@ != account by {
            assert(rest[k] == books[k + 1]);
        }
        if i < books.len() {
            assert(rest[i - 1] == books[i]);
        }
        the_first_book_tells(rest, account, i - 1);
    }
}

/// A snapshot that is handed to an account has, in their order, all the rows of
/// orders that are its own or nobody's, and none of another account's; any other
/// frame is handed on as it is.
pub proof fn a_snapshot_shows_ones_own(
    before: Frame,
    after: Frame,
    owners: Map<Seq<char>, Seq<char>>,
    account: Seq<char>,
)
    requires
        is_scoped(before, after, owners, account),
    ensures
        ({
            let own = |row: QueryRow|
                !owners.dom().contains(row.venue_order_id@) || owners[row.venue_order_id@]
                    == account;
            &&& before is OrderStatusSnapshot ==> after is OrderStatusSnapshot && after->orders@
                == before->orders@.filter(own)
            &&& before is FillSnapshot ==> after is FillSnapshot && after->fills@
                == before->fills@.filter(own)
            &&& !(before is OrderStatusSnapshot) && !(before is FillSnapshot) ==> after == before
        }),
{
    match before {
        Frame::OrderStatusSnapshot { orders } => {
            shown_rows_are_a_choice(orders@, owners, account);
        },
        Frame::FillSnapshot { fills } => {
            shown_rows_are_a_choice(fills@, owners, account);
        },
        _ => {},
    }
}

proof fn shown_rows_are_a_choice(
    rows: Seq<QueryRow>,
    owners: Map<Seq<char>, Seq<char>>,
    account: Seq<char>,
)
    ensures
        shown_rows(rows, owners, account) == rows.filter(
            |row: QueryRow|
                !owners.dom().contains(row.venue_order_id@) || owners[row.venue_order_id@]
                    == account,
        ),
    decreases rows.len(),
{
    reveal(Seq::filter);
    if rows.len() > 0 {
        shown_rows_are_a_choice(rows.drop_last(), owners, account);
    }
}

/// What is armed for one account leaves every other account, and what is armed
/// for all of them, as it was.
pub proof fn an_arm_for_one_reaches_no_other(
    run: RunView,
    name: Seq<char>,
    other: Seq<char>,
    arm: VenueArm,
    cap: usize,
)
    requires
        run.passengers.dom().contains(name),
        other != name,
    ensures
        ({
            let after = run_armed(run, Some(name), arm, cap);
            &&& after.passengers.dom() == run.passengers.dom()
            &&& run.passengers.dom().contains(other) ==> after.passengers[other]
                == run.passengers[other]
            &&& after.all == run.all
            &&& after.pending == run.pending
            &&& after.owners == run.owners
            &&& after.lanes == run.lanes
        }),
{
    assert(run_armed(run, Some(name), arm, cap).passengers.dom() =~= run.passengers.dom());
}

/// Amounts are added up one after the other, from zero on; one that would go past
/// what an amount holds is left out.
pub proof fn amounts_add_up_in_turn(amounts: Seq<Dec>, next: Dec)
    ensures
        added_up(Seq::<Dec>::empty()) == Dec::of_whole(0),
        sum(added_up(amounts), next) is Some ==> added_up(amounts.push(next)) == sum(
            added_up(amounts),
            next,
        )->0,
        sum(added_up(amounts), next) is None ==> added_up(amounts.push(next)) == added_up(amounts),
{
    assert(amounts.push(next).drop_last() =~= amounts);
}

} // verus!
