//! A registry of accounts, each with its own ledger.

use vstd::prelude::*;

use crate::duration::span_since;
use crate::havoc::ack_of;
use crate::havoc::act_of;
use crate::havoc::calm;
use crate::havoc::Transport;
use crate::orders::CommandClass;
use crate::ranked::ascending;
use crate::ranked::put_in_order;
use crate::roll::as_many_as_names;
use crate::roll::names_view;
use crate::roll::Roll;
use crate::text::same_text;

verus! {

/// An account in the registry: which of those of its name it is, what its
/// connections suffer, how many sessions it has, and when it was last asked for.
#[derive(Clone, Copy, Debug, PartialEq, Eq, Structural)]
pub struct AccountSlot {
    pub generation: u64,
    pub transport: Transport,
    pub sessions: u64,
    pub last_seen_ns: u64,
}

impl AccountSlot {
    /// How slow the venue is to act on a kind of command.
    pub fn act_ms(&self, class: CommandClass) -> (ms: u64)
        ensures
            ms == act_of(self.transport.latency, class),
    {
        self.transport.latency.act_ms(class)
    }

    /// How slow the venue is to say what it did with a kind of command.
    pub fn ack_ms(&self, class: CommandClass) -> (ms: u64)
        ensures
            ms == ack_of(self.transport.latency, class),
    {
        self.transport.latency.ack_ms(class)
    }
}

/// Why an account was not given out.
#[derive(Clone, Copy, Debug, PartialEq, Eq, Structural)]
pub enum RegistryError {
    AtCapacity,
}

/// A session on an account.
#[derive(Debug)]
pub struct SessionLease {
    account: String,
    generation: u64,
}

impl SessionLease {
    /// The account of the session.
    pub closed spec fn on(self) -> Seq<char> {
        self.account@
    }

    /// Which account of that name it is.
    pub closed spec fn of(self) -> u64 {
        self.generation
    }
}

/// What is published of an account.
#[derive(Debug)]
pub struct AccountSummary {
    pub account_id: String,
    pub generation: u64,
    pub sessions: u64,
    pub open_orders: usize,
    pub last_seen_ns: u64,
}

/// How many orders are open in an account's book, as the books say it: each with
/// its account, and the first of one account counts. Of a book that says nothing
/// there are none.
pub open spec fn orders_in(books: Seq<(String, usize)>, account: Seq<char>) -> usize
    decreases books.len(),
{
    if books.len() == 0 {
        0
    } else if books[0].0@ == account {
        books[0].1
    } else {
        orders_in(books.drop_first(), account)
    }
}

fn count_orders(books: &Vec<(String, usize)>, account: &str) -> (n: usize)
    ensures
        n == orders_in(books@, account@),
{
    let mut i: usize = 0;
    assert(books@.skip(0) =~= books@);
    while i < books.len()
        invariant
            i <= books.len(),
            orders_in(books@, account@) == orders_in(books@.skip(i as int), account@),
        decreases books.len() - i,
    {
        assert(books@.skip(i as int).drop_first() =~= books@.skip(i + 1));
        assert(books@.skip(i as int)[0] == books@[i as int]);
        if same_text(books[i].0.as_str(), account) {
            return books[i].1;
        }
        i += 1;
    }
    0
}

/// The accounts.
pub struct AccountRegistry {
    slots: Roll<AccountSlot>,
    next_generation: u64,
    max_accounts: usize,
}

/// The accounts in the abstract.
pub struct RegistryView {
    pub slots: Map<Seq<char>, AccountSlot>,
    /// How many accounts there are.
    pub len: nat,
    pub next_generation: u64,
}

/// Whether every account is of an earlier generation than the next.
pub open spec fn are_earlier(slots: Map<Seq<char>, AccountSlot>, next: u64) -> bool {
    forall|id: Seq<char>| #[trigger] slots.dom().contains(id) ==> slots[id].generation < next
}

/// Whether the accounts are counted right.
pub open spec fn is_counted(registry: RegistryView) -> bool {
    registry.slots.dom().finite() && registry.len == registry.slots.dom().len()
}

/// Whether there is no room for one more account. A most of zero is none.
pub open spec fn is_full(registry: RegistryView, max_accounts: usize) -> bool {
    max_accounts != 0 && registry.len >= max_accounts
}

/// Whether an account is idle: it has no session, and nobody has asked for it
/// for a time. A time of zero never passes.
pub open spec fn is_idle(slot: AccountSlot, now_ns: u64, idle_ns: u64) -> bool {
    &&& idle_ns > 0
    &&& slot.sessions == 0
    &&& span_since(now_ns, slot.last_seen_ns) >= idle_ns
}

impl View for AccountRegistry {
    type V = RegistryView;

    closed spec fn view(&self) -> RegistryView {
        RegistryView {
            slots: self.slots@,
            len: self.slots.order().len(),
            next_generation: self.next_generation,
        }
    }
}

impl AccountRegistry {
    #[verifier::type_invariant]
    spec fn kept(self) -> bool {
        are_earlier(self.slots@, self.next_generation)
    }

    /// How many accounts there may be.
    pub closed spec fn most(self) -> usize {
        self.max_accounts
    }

    /// A registry without accounts.
    pub fn new(max_accounts: usize) -> (registry: AccountRegistry)
        ensures
            registry.most() == max_accounts,
            registry@ == (RegistryView { slots: Map::empty(), len: 0, next_generation: 1 }),
            is_counted(registry@),
    {
        AccountRegistry { slots: Roll::new(), next_generation: 1, max_accounts }
    }

    /// Gives an account out by its generation, and opens it where it is not
    /// open yet and there is room.
    pub fn acquire(&mut self, id: &str, now_ns: u64) -> (acquired: Result<u64, RegistryError>)
        requires
            !old(self)@.slots.dom().contains(id@) && !is_full(old(self)@, old(self).most())
                ==> old(self)@.next_generation < u64::MAX,
        ensures
            final(self).most() == old(self).most(),
            are_earlier(old(self)@.slots, old(self)@.next_generation),
            are_earlier(final(self)@.slots, final(self)@.next_generation),
            is_counted(old(self)@),
            is_counted(final(self)@),
            (acquired, final(self)@) == self::acquired(old(self)@, old(self).most(), id@, now_ns),
    {
        proof {
            use_type_invariant(&*self);
        }
        let max_accounts: usize = self.max_accounts;
        let next: u64 = self.next_generation;
        let mut slots: Roll<AccountSlot> = Roll::new();
        std::mem::swap(&mut slots, &mut self.slots);
        let ghost held = slots;
        match slots.find(id) {
            Some(at) => {
                proof {
                    as_many_as_names(held.order(), held.row());
                }
                let slot = *slots.value(at);
                slots.replace(at, AccountSlot { last_seen_ns: now_ns, ..slot });
                proof {
                    as_many_as_names(slots.order(), slots.row());
                }
                *self = AccountRegistry { slots, next_generation: next, max_accounts };
                Ok(slot.generation)
            },
            None => {
                proof {
                    as_many_as_names(held.order(), held.row());
                }
                let n: usize = slots.len();
                if max_accounts != 0 && n >= max_accounts {
                    *self = AccountRegistry { slots, next_generation: next, max_accounts };
                    return Err(RegistryError::AtCapacity);
                }
                slots.enrol(
                    id.to_owned(),
                    AccountSlot {
                        generation: next,
                        transport: Transport::new(),
                        sessions: 0,
                        last_seen_ns: now_ns,
                    },
                );
                proof {
                    as_many_as_names(slots.order(), slots.row());
                }
                *self = AccountRegistry { slots, next_generation: next + 1, max_accounts };
                Ok(next)
            },
        }
    }

    /// The account of this name.
    pub fn get(&self, id: &str) -> (slot: Option<AccountSlot>)
        ensures
            slot == if self@.slots.dom().contains(id@) {
                Some(self@.slots[id@])
            } else {
                None
            },
    {
        match self.slots.get(id) {
            Some(slot) => Some(*slot),
            None => None,
        }
    }

    /// How many accounts there are.
    pub fn len(&self) -> (n: usize)
        ensures
            n == self@.len,
            is_counted(self@),
    {
        let n: usize = self.slots.len();
        proof {
            as_many_as_names(self.slots.order(), self.slots.row());
        }
        n
    }

    /// Takes an account out, and says whether it was there.
    pub fn destroy(&mut self, id: &str) -> (found: bool)
        ensures
            final(self).most() == old(self).most(),
            found == old(self)@.slots.dom().contains(id@),
            final(self)@ == (RegistryView {
                slots: old(self)@.slots.remove(id@),
                len: if found {
                    (old(self)@.len - 1) as nat
                } else {
                    old(self)@.len
                },
                ..old(self)@
            }),
            is_counted(final(self)@),
    {
        proof {
            use_type_invariant(&*self);
        }
        let max_accounts: usize = self.max_accounts;
        let next: u64 = self.next_generation;
        let mut slots: Roll<AccountSlot> = Roll::new();
        std::mem::swap(&mut slots, &mut self.slots);
        let ghost held = slots@;
        let found = match slots.find(id) {
            Some(at) => {
                slots.take_at(at);
                true
            },
            None => {
                assert(held.remove(id@) =~= held);
                false
            },
        };
        proof {
            as_many_as_names(slots.order(), slots.row());
        }
        *self = AccountRegistry { slots, next_generation: next, max_accounts };
        found
    }

    /// Whether an account that was given out is gone: it was taken out, and
    /// whoever has its name now is another.
    pub fn is_torn_down(&self, id: &str, generation: u64) -> (answer: bool)
        ensures
            answer == !(self@.slots.dom().contains(id@) && self@.slots[id@].generation
                == generation),
    {
        match self.slots.get(id) {
            Some(slot) => slot.generation != generation,
            None => true,
        }
    }

    /// Starts a session on an account.
    pub fn lease(&mut self, id: &str, now_ns: u64) -> (lease: SessionLease)
        requires
            old(self)@.slots.dom().contains(id@),
            old(self)@.slots[id@].sessions < u64::MAX,
        ensures
            final(self).most() == old(self).most(),
            lease.on() == id@,
            lease.of() == old(self)@.slots[id@].generation,
            final(self)@ == (RegistryView {
                slots: old(self)@.slots.insert(
                    id@,
                    AccountSlot {
                        sessions: (old(self)@.slots[id@].sessions + 1) as u64,
                        last_seen_ns: now_ns,
                        ..old(self)@.slots[id@]
                    },
                ),
                ..old(self)@
            }),
    {
        proof {
            use_type_invariant(&*self);
        }
        let max_accounts: usize = self.max_accounts;
        let next: u64 = self.next_generation;
        let mut slots: Roll<AccountSlot> = Roll::new();
        std::mem::swap(&mut slots, &mut self.slots);
        let mut generation: u64 = 0;
        if let Some(at) = slots.find(id) {
            let slot = *slots.value(at);
            generation = slot.generation;
            slots.replace(
                at,
                AccountSlot { sessions: slot.sessions + 1, last_seen_ns: now_ns, ..slot },
            );
        }
        *self = AccountRegistry { slots, next_generation: next, max_accounts };
        SessionLease { account: id.to_owned(), generation }
    }

    /// Ends a session. Where its account is gone there is nothing to count.
    pub fn release(&mut self, lease: SessionLease)
        ensures
            final(self).most() == old(self).most(),
            ({
                let slots = old(self)@.slots;
                let id = lease.on();
                if slots.dom().contains(id) && slots[id].generation == lease.of()
                    && slots[id].sessions > 0 {
                    final(self)@ == (RegistryView {
                        slots: slots.insert(
                            id,
                            AccountSlot { sessions: (slots[id].sessions - 1) as u64, ..slots[id] },
                        ),
                        ..old(self)@
                    })
                } else {
                    final(self)@ == old(self)@
                }
            }),
    {
        proof {
            use_type_invariant(&*self);
        }
        let max_accounts: usize = self.max_accounts;
        let next: u64 = self.next_generation;
        let mut slots: Roll<AccountSlot> = Roll::new();
        std::mem::swap(&mut slots, &mut self.slots);
        if let Some(at) = slots.find(lease.account.as_str()) {
            let slot = *slots.value(at);
            if slot.generation == lease.generation && slot.sessions > 0 {
                slots.replace(at, AccountSlot { sessions: (slot.sessions - 1) as u64, ..slot });
            }
        }
        *self = AccountRegistry { slots, next_generation: next, max_accounts };
    }

    /// The accounts by name, ascending. `books` says how many orders are open in
    /// each.
    pub fn summaries(&self, books: &Vec<(String, usize)>) -> (summaries: Vec<AccountSummary>)
        ensures
            ({
                let ids = Seq::new(summaries@.len(), |i: int| summaries@[i].account_id@);
                &&& ascending(ids)
                &&& forall|id: Seq<char>| #[trigger]
                    ids.contains(id) == self@.slots.dom().contains(id)
            }),
            forall|i: int|
                0 <= i < summaries@.len() ==> {
                    let slot = self@.slots[(#[trigger] summaries@[i]).account_id@];
                    &&& summaries@[i].generation == slot.generation
                    &&& summaries@[i].sessions == slot.sessions
                    &&& summaries@[i].open_orders == orders_in(books@, summaries@[i].account_id@)
                    &&& summaries@[i].last_seen_ns == slot.last_seen_ns
                },
    {
        let n: usize = self.slots.len();
        let ghost order = self.slots.order();
        let mut names: Vec<String> = Vec::new();
        let mut i: usize = 0;
        while i < n
            invariant
                i <= n,
                order == self.slots.order(),
                n == order.len(),
                ascending(names_view(names@)),
                forall|id: Seq<char>| #[trigger]
                    names_view(names@).contains(id) == order.take(i as int).contains(id),
            decreases n - i,
        {
            put_in_order(&mut names, self.slots.name(i).as_str());
            proof {
                assert(order.take(i + 1) =~= order.take(i as int).push(order[i as int]));
                assert forall|id: Seq<char>| #[trigger]
                    names_view(names@).contains(id) == order.take(i + 1).contains(id) by {
                    let now = order.take(i + 1);
                    if order.take(i as int).contains(id) {
                        let k = choose|k: int|
                            0 <= k < order.take(i as int).len() && order.take(i as int)[k] == id;
                        assert(now[k] == id);
                    }
                    assert(now[i as int] == order[i as int]);
                }
            }
            i += 1;
        }
        assert(order.take(n as int) =~= order);
        let ghost sorted = names_view(names@);
        let mut summaries: Vec<AccountSummary> = Vec::new();
        let mut k: usize = 0;
        while k < names.len()
            invariant
                k <= names.len(),
                sorted == names_view(names@),
                summaries.len() == k,
                forall|id: Seq<char>| #[trigger]
                    sorted.contains(id) == self@.slots.dom().contains(id),
                forall|i: int|
                    0 <= i < k ==> {
                        let slot = self@.slots[sorted[i]];
                        &&& (#[trigger] summaries@[i]).account_id@ == sorted[i]
                        &&& summaries@[i].generation == slot.generation
                        &&& summaries@[i].sessions == slot.sessions
                        &&& summaries@[i].open_orders == orders_in(books@, sorted[i])
                        &&& summaries@[i].last_seen_ns == slot.last_seen_ns
                    },
            decreases names.len() - k,
        {
            assert(sorted.contains(sorted[k as int]));
            if let Some(slot) = self.slots.get(names[k].as_str()) {
                summaries.push(
                    AccountSummary {
                        account_id: names[k].as_str().to_owned(),
                        generation: slot.generation,
                        sessions: slot.sessions,
                        open_orders: count_orders(books, names[k].as_str()),
                        last_seen_ns: slot.last_seen_ns,
                    },
                );
            }
            k += 1;
        }
        assert(Seq::new(summaries@.len(), |i: int| summaries@[i].account_id@) =~= sorted);
        summaries
    }

    /// Takes the idle accounts out, and says which they are.
    pub fn reap_idle(&mut self, now_ns: u64, idle_ns: u64) -> (reaped: Vec<String>)
        ensures
            final(self).most() == old(self).most(),
            final(self)@.next_generation == old(self)@.next_generation,
            forall|id: Seq<char>| #[trigger]
                names_view(reaped@).contains(id) == (old(self)@.slots.dom().contains(id) && is_idle(
                    old(self)@.slots[id],
                    now_ns,
                    idle_ns,
                )),
            forall|id: Seq<char>| #[trigger]
                final(self)@.slots.dom().contains(id) == (old(self)@.slots.dom().contains(id)
                    && !is_idle(old(self)@.slots[id], now_ns, idle_ns)),
            forall|id: Seq<char>| #[trigger]
                final(self)@.slots.dom().contains(id) ==> final(self)@.slots[id]
                    == old(self)@.slots[id],
            final(self)@.len + reaped@.len() == old(self)@.len,
            names_view(reaped@).no_duplicates(),
            is_counted(final(self)@),
    {
        proof {
            use_type_invariant(&*self);
        }
        let max_accounts: usize = self.max_accounts;
        let next: u64 = self.next_generation;
        let mut rest: Roll<AccountSlot> = Roll::new();
        std::mem::swap(&mut rest, &mut self.slots);
        let ghost all = rest@;
        let ghost total = rest.order().len();
        let mut kept: Roll<AccountSlot> = Roll::new();
        let mut reaped: Vec<String> = Vec::new();
        while rest.len() > 0
            invariant
                are_earlier(all, next),
                names_view(reaped@).no_duplicates(),
                rest.order().len() + kept.order().len() + reaped@.len() == total,
                forall|id: Seq<char>| #[trigger]
                    rest@.dom().contains(id) ==> all.dom().contains(id) && all[id] == rest@[id]
                        && !kept@.dom().contains(id) && !names_view(reaped@).contains(id),
                forall|id: Seq<char>| #[trigger]
                    kept@.dom().contains(id) ==> all.dom().contains(id) && all[id] == kept@[id]
                        && !is_idle(all[id], now_ns, idle_ns),
                forall|id: Seq<char>| #[trigger]
                    names_view(reaped@).contains(id) ==> all.dom().contains(id) && is_idle(
                        all[id],
                        now_ns,
                        idle_ns,
                    ),
                forall|id: Seq<char>| #[trigger]
                    all.dom().contains(id) ==> rest@.dom().contains(id) || kept@.dom().contains(id)
                        || names_view(reaped@).contains(id),
            decreases rest.order().len(),
        {
            let ghost left = rest@;
            let ghost before = names_view(reaped@);
            let (id, slot) = rest.take_at(0);
            let ghost name = id@;
            if idle_ns > 0 && slot.sessions == 0 && now_ns.saturating_sub(slot.last_seen_ns)
                >= idle_ns {
                reaped.push(id);
                proof {
                    assert(names_view(reaped@) =~= before.push(name));
                    assert(!before.contains(name));
                    assert(before.push(name).no_duplicates()) by {
                        let now = before.push(name);
                        assert forall|i: int, j: int|
                            0 <= i < now.len() && 0 <= j < now.len() && i != j implies now[i]
                            != now[j] by {
                            if i == before.len() {
                                assert(before.contains(before[j]));
                            } else if j == before.len() {
                                assert(before.contains(before[i]));
                            }
                        }
                    }
                    assert forall|other: Seq<char>| #[trigger]
                        names_view(reaped@).contains(other) == (before.contains(other) || other
                            == name) by {
                        let now = before.push(name);
                        if before.contains(other) {
                            let k = choose|k: int| 0 <= k < before.len() && before[k] == other;
                            assert(now[k] == other);
                        }
                        assert(now[before.len() as int] == name);
                        if now.contains(other) && other != name {
                            let k = choose|k: int| 0 <= k < now.len() && now[k] == other;
                            assert(before[k] == other);
                        }
                    }
                }
            } else {
                kept.enrol(id, slot);
            }
        }
        assert forall|id: Seq<char>| !rest@.dom().contains(id) by {
            assert(!rest.order().contains(id));
        }
        let held: usize = kept.len();
        proof {
            assert(held == kept.order().len());
            as_many_as_names(kept.order(), kept.row());
        }
        *self = AccountRegistry { slots: kept, next_generation: next, max_accounts };
        reaped
    }
}

/// A registry once an account is asked for, and what is given out: the
/// generation of the account that is there, or of a new one where there is room.
pub open spec fn acquired(
    registry: RegistryView,
    most: usize,
    id: Seq<char>,
    now_ns: u64,
) -> (Result<u64, RegistryError>, RegistryView) {
    if registry.slots.dom().contains(id) {
        (
            Ok(registry.slots[id].generation),
            RegistryView {
                slots: registry.slots.insert(
                    id,
                    AccountSlot { last_seen_ns: now_ns, ..registry.slots[id] },
                ),
                ..registry
            },
        )
    } else if is_full(registry, most) {
        (Err(RegistryError::AtCapacity), registry)
    } else {
        (
            Ok(registry.next_generation),
            RegistryView {
                slots: registry.slots.insert(
                    id,
                    AccountSlot {
                        generation: registry.next_generation,
                        transport: calm(),
                        sessions: 0,
                        last_seen_ns: now_ns,
                    },
                ),
                len: registry.len + 1,
                next_generation: (registry.next_generation + 1) as u64,
            },
        )
    }
}

/// An account that is there is given out even where the registry is full, and is
/// the one that it was. A new one is refused just where the registry is full,
/// which changes nothing; otherwise it has no session, suffers nothing, is of a
/// later generation than every account so far, and is one more.
pub proof fn an_account_is_given_out_or_opened(
    registry: RegistryView,
    most: usize,
    id: Seq<char>,
    now_ns: u64,
)
    requires
        are_earlier(registry.slots, registry.next_generation),
        !registry.slots.dom().contains(id) && !is_full(registry, most) ==> registry.next_generation
            < u64::MAX,
    ensures
        ({
            let (given, after) = acquired(registry, most, id, now_ns);
            if registry.slots.dom().contains(id) {
                &&& given == Ok::<u64, RegistryError>(registry.slots[id].generation)
                &&& after.slots[id].last_seen_ns == now_ns
                &&& after.slots[id].sessions == registry.slots[id].sessions
                &&& after.slots[id].transport == registry.slots[id].transport
                &&& after.slots.dom() == registry.slots.dom()
                &&& after.len == registry.len
            } else {
                &&& given is Err == (most != 0 && registry.len >= most)
                &&& given is Err ==> after == registry
                &&& given is Ok ==> {
                    &&& after.slots[id].sessions == 0
                    &&& after.slots[id].transport == calm()
                    &&& after.slots[id].generation == given->Ok_0
                    &&& after.len == registry.len + 1
                    &&& after.next_generation > given->Ok_0
                    &&& forall|other: Seq<char>| #[trigger]
                        registry.slots.dom().contains(other) ==> registry.slots[other].generation
                            < given->Ok_0
                }
            }
        }),
        are_earlier(
            acquired(registry, most, id, now_ns).1.slots,
            acquired(registry, most, id, now_ns).1.next_generation,
        ),
{
    let after = acquired(registry, most, id, now_ns).1;
    if registry.slots.dom().contains(id) {
        assert(after.slots.dom() =~= registry.slots.dom());
    }
}

/// An account that is opened again after it was taken out is not the one that
/// it was: no generation is given out twice.
pub proof fn a_reopened_account_is_another(
    slots: Map<Seq<char>, AccountSlot>,
    next: u64,
    id: Seq<char>,
)
    requires
        are_earlier(slots, next),
        slots.dom().contains(id),
    ensures
        slots[id].generation != next,
{
}

/// An account with a live session is never idle.
pub proof fn a_live_account_is_not_idle(slot: AccountSlot, now_ns: u64, idle_ns: u64)
    requires
        slot.sessions > 0,
    ensures
        !is_idle(slot, now_ns, idle_ns),
{
}

/// An account is idle once its time is over to the instant: it has no session,
/// and so long has passed since it was last asked for. Where no time is set it
/// never is.
pub proof fn an_account_is_idle_once_its_time_is_over(slot: AccountSlot, now_ns: u64, idle_ns: u64)
    ensures
        is_idle(slot, now_ns, idle_ns) == (idle_ns > 0 && slot.sessions == 0 && slot.last_seen_ns
            + idle_ns <= now_ns),
{
}

/// How many orders an account has open is what the first book of that account
/// says, and none where there is no such book.
pub proof fn the_first_book_counts(books: Seq<(String, usize)>, account: Seq<char>, i: int)
    requires
        0 <= i <= books.len(),
        forall|k: int| 0 <= k < i ==> (#[trigger] books[k]).0@ != account,
        i < books.len() ==> books[i].0@ == account,
    ensures
        orders_in(books, account) == if i < books.len() {
            books[i].1
        } else {
            0
        },
    decreases i,
{
    if i > 0 {
        let rest = books.drop_first();
        assert(books[0].0@ != account);
        assert forall|k: int| 0 <= k < i - 1 implies (#[trigger] rest[k]).0@ != account by {
            assert(rest[k] == books[k + 1]);
        }
        if i < books.len() {
            assert(rest[i - 1] == books[i]);
        }
        the_first_book_counts(rest, account, i - 1);
    }
}

} // verus!
