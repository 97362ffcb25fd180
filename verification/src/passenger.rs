//! One account that the venue serves: whether anybody reads it, which boats it
//! rides, and what is armed against it.

use vstd::prelude::*;

use crate::duration::span_since;
use crate::havoc::ack_of;
use crate::havoc::act_of;
use crate::havoc::calm;
use crate::havoc::ledger_armed;
use crate::havoc::ledger_sheds;
use crate::havoc::opened_ledger;
use crate::havoc::opened_transport;
use crate::havoc::transported;
use crate::havoc::unarmed;
use crate::havoc::ArmRecord;
use crate::havoc::ArmRecordView;
use crate::havoc::LedgerArms;
use crate::havoc::LedgerArmsView;
use crate::havoc::Transport;
use crate::havoc::VenueArm;
use crate::orders::CommandClass;
use crate::risk::RiskLedger;
use crate::roll::Roll;

verus! {

/// A place on the boat of a river: the boat's speed in millionths, and how many
/// of the account's connections ride it.
#[derive(Clone, Copy, Debug, PartialEq, Eq, Structural)]
pub struct Seat {
    pub speed_micros: u64,
    pub riders: usize,
}

/// One account. Its serial number tells it from others that had its name.
pub struct Passenger {
    serial: u64,
    risk: RiskLedger,
    frozen_since: Option<u64>,
    seats: Roll<Seat>,
    admitted: usize,
    transport: Transport,
    arms: LedgerArms,
}

/// An account in the abstract.
pub struct PassengerView {
    pub serial: u64,
    pub risk: RiskLedger,
    /// The wall-clock instant since which nobody has read the account.
    pub frozen_since: Option<u64>,
    /// The boats that it rides, by their rivers.
    pub seats: Map<Seq<char>, Seat>,
    /// How many connections were let in and have not gone yet.
    pub admitted: usize,
    pub transport: Transport,
    pub arms: LedgerArmsView,
}

/// Whether every place has somebody on it.
pub open spec fn are_ridden(seats: Map<Seq<char>, Seat>) -> bool {
    forall|river: Seq<char>| #[trigger] seats.dom().contains(river) ==> seats[river].riders >= 1
}

/// An account as it is opened: nobody reads it yet.
pub open spec fn newly_opened(serial: u64, risk: RiskLedger, now: u64) -> PassengerView {
    PassengerView {
        serial,
        risk,
        frozen_since: Some(now),
        seats: Map::empty(),
        admitted: 0,
        transport: calm(),
        arms: unarmed(),
    }
}

/// An account that nobody reads any more. One that is frozen already stays as
/// it is.
pub open spec fn frozen(passenger: PassengerView, now: u64) -> PassengerView {
    if passenger.frozen_since is Some {
        passenger
    } else {
        PassengerView { frozen_since: Some(now), seats: Map::empty(), ..passenger }
    }
}

/// The seats once a connection has sat down.
pub open spec fn seated(
    seats: Map<Seq<char>, Seat>,
    river: Seq<char>,
    speed_micros: u64,
) -> Map<Seq<char>, Seat> {
    seats.insert(
        river,
        Seat {
            speed_micros,
            riders: if seats.dom().contains(river) {
                (seats[river].riders + 1) as usize
            } else {
                1
            },
        },
    )
}

/// The seats once a connection has got up. Nobody gets up from a seat that is
/// not held.
pub open spec fn unseated(
    seats: Map<Seq<char>, Seat>,
    river: Seq<char>,
    speed_micros: u64,
) -> Map<Seq<char>, Seat> {
    if !seats.dom().contains(river) || seats[river].speed_micros != speed_micros {
        seats
    } else if seats[river].riders <= 1 {
        seats.remove(river)
    } else {
        seats.insert(river, Seat { speed_micros, riders: (seats[river].riders - 1) as usize })
    }
}

/// An account onto which a record of arms is played.
pub open spec fn opened_with(
    passenger: PassengerView,
    record: ArmRecordView,
    cap: usize,
) -> PassengerView {
    PassengerView {
        transport: opened_transport(passenger.transport, record),
        arms: opened_ledger(passenger.arms, record, cap),
        ..passenger
    }
}

/// An account once something is armed against it.
pub open spec fn armed(passenger: PassengerView, arm: VenueArm, cap: usize) -> PassengerView {
    PassengerView {
        transport: transported(passenger.transport, arm),
        arms: ledger_armed(passenger.arms, arm, cap),
        ..passenger
    }
}

/// An account once everything is lifted that a clear lifts.
pub open spec fn cleared(passenger: PassengerView) -> PassengerView {
    PassengerView {
        transport: calm(),
        arms: LedgerArmsView { surcharge: None, queue: passenger.arms.queue },
        ..passenger
    }
}

impl View for Passenger {
    type V = PassengerView;

    closed spec fn view(&self) -> PassengerView {
        PassengerView {
            serial: self.serial,
            risk: self.risk,
            frozen_since: self.frozen_since,
            seats: self.seats@,
            admitted: self.admitted,
            transport: self.transport,
            arms: self.arms@,
        }
    }
}

impl Passenger {
    #[verifier::type_invariant]
    spec fn kept(self) -> bool {
        are_ridden(self.seats@)
    }

    /// Opens an account with its risk ledger.
    pub fn new(serial: u64, risk: RiskLedger, now: u64) -> (passenger: Passenger)
        ensures
            passenger@ == newly_opened(serial, risk, now),
    {
        Passenger {
            serial,
            risk,
            frozen_since: Some(now),
            seats: Roll::new(),
            admitted: 0,
            transport: Transport::new(),
            arms: LedgerArms::new(),
        }
    }

    /// The account's serial number.
    pub fn serial(&self) -> (serial: u64)
        ensures
            serial == self@.serial,
    {
        self.serial
    }

    /// For how long nobody has read the account.
    pub fn frozen_for(&self, now: u64) -> (span: Option<u64>)
        ensures
            span == match self@.frozen_since {
                Some(since) => Some(span_since(now, since)),
                None => None,
            },
    {
        match self.frozen_since {
            Some(since) => Some(now.saturating_sub(since)),
            None => None,
        }
    }

    /// Whether nobody reads the account.
    pub fn is_frozen(&self) -> (answer: bool)
        ensures
            answer == self@.frozen_since is Some,
    {
        self.frozen_since.is_some()
    }

    /// Freezes the account: it is not swept, marked or judged until somebody
    /// reads it again.
    pub fn freeze(&mut self, now: u64)
        ensures
            final(self)@ == frozen(old(self)@, now),
    {
        proof {
            use_type_invariant(&*self);
        }
        if self.frozen_since.is_none() {
            self.frozen_since = Some(now);
            self.seats = Roll::new();
        }
    }

    /// Attaches the account to a connection that reads it.
    pub fn attach(&mut self)
        ensures
            final(self)@ == (PassengerView { frozen_since: None, ..old(self)@ }),
    {
        proof {
            use_type_invariant(&*self);
        }
        self.frozen_since = None;
    }

    /// Sits a connection down on the boat of a river. An account rides a river
    /// at one speed: another is refused, and the speed that sits there is
    /// named.
    pub fn try_sit(&mut self, river: &str, speed_micros: u64) -> (sat: Result<(), u64>)
        requires
            old(self)@.seats.dom().contains(river@) ==> old(self)@.seats[river@].riders
                < usize::MAX,
        ensures
            match sat {
                Ok(()) => {
                    &&& old(self)@.seats.dom().contains(river@)
                        ==> old(self)@.seats[river@].speed_micros == speed_micros
                    &&& final(self)@ == (PassengerView {
                        seats: seated(old(self)@.seats, river@, speed_micros),
                        ..old(self)@
                    })
                },
                Err(sitting) => {
                    &&& old(self)@.seats.dom().contains(river@)
                    &&& old(self)@.seats[river@].speed_micros == sitting
                    &&& sitting != speed_micros
                    &&& final(self)@ == old(self)@
                },
            },
    {
        proof {
            use_type_invariant(&*self);
        }
        let mut seats: Roll<Seat> = Roll::new();
        std::mem::swap(&mut seats, &mut self.seats);
        let sat = match seats.find(river) {
            Some(at) => {
                let seat = *seats.value(at);
                if seat.speed_micros == speed_micros {
                    seats.replace(at, Seat { speed_micros, riders: seat.riders + 1 });
                    Ok(())
                } else {
                    Err(seat.speed_micros)
                }
            },
            None => {
                seats.enrol(river.to_owned(), Seat { speed_micros, riders: 1 });
                Ok(())
            },
        };
        self.seats = seats;
        sat
    }

    /// Gets a connection up from the boat of a river. The last one to get up
    /// leaves the seat empty.
    pub fn unsit(&mut self, river: &str, speed_micros: u64)
        ensures
            final(self)@ == (PassengerView {
                seats: unseated(old(self)@.seats, river@, speed_micros),
                ..old(self)@
            }),
    {
        proof {
            use_type_invariant(&*self);
        }
        let mut seats: Roll<Seat> = Roll::new();
        std::mem::swap(&mut seats, &mut self.seats);
        if let Some(at) = seats.find(river) {
            let seat = *seats.value(at);
            if seat.speed_micros == speed_micros {
                if seat.riders <= 1 {
                    seats.remove(river);
                } else {
                    seats.replace(at, Seat { speed_micros, riders: (seat.riders - 1) as usize });
                }
            }
        }
        self.seats = seats;
    }

    /// Whether the account rides a boat.
    pub fn is_seated_on(&self, river: &str, speed_micros: u64) -> (answer: bool)
        ensures
            answer == (self@.seats.dom().contains(river@) && self@.seats[river@].speed_micros
                == speed_micros),
    {
        match self.seats.get(river) {
            Some(seat) => seat.speed_micros == speed_micros,
            None => false,
        }
    }

    /// How many connections were let in and have not gone yet.
    pub fn admissions(&self) -> (n: usize)
        ensures
            n == self@.admitted,
    {
        self.admitted
    }

    /// Counts a connection in.
    pub fn let_in(&mut self)
        requires
            old(self)@.admitted < usize::MAX,
        ensures
            final(self)@ == (PassengerView {
                admitted: (old(self)@.admitted + 1) as usize,
                ..old(self)@
            }),
    {
        proof {
            use_type_invariant(&*self);
        }
        self.admitted = self.admitted + 1;
    }

    /// Counts a connection out, where one is counted in.
    pub fn depart(&mut self)
        ensures
            final(self)@ == (PassengerView {
                admitted: if old(self)@.admitted == 0 {
                    0
                } else {
                    (old(self)@.admitted - 1) as usize
                },
                ..old(self)@
            }),
    {
        proof {
            use_type_invariant(&*self);
        }
        if self.admitted > 0 {
            self.admitted = self.admitted - 1;
        }
    }

    /// How slow the venue is to act on a kind of command.
    pub fn act_ms(&self, class: CommandClass) -> (ms: u64)
        ensures
            ms == act_of(self@.transport.latency, class),
    {
        self.transport.latency.act_ms(class)
    }

    /// How slow the venue is to say what it did with a kind of command.
    pub fn ack_ms(&self, class: CommandClass) -> (ms: u64)
        ensures
            ms == ack_of(self@.transport.latency, class),
    {
        self.transport.latency.ack_ms(class)
    }

    /// What the account's connections suffer.
    pub fn transport(&self) -> (transport: Transport)
        ensures
            transport == self@.transport,
    {
        self.transport
    }

    /// The account's risk ledger.
    pub fn risk(&self) -> (risk: &RiskLedger)
        ensures
            *risk == self@.risk,
    {
        &self.risk
    }

    /// Arms the account, and says which divergence its ledger shed.
    pub fn arm(&mut self, arm: VenueArm, cap: usize) -> (shed: Option<u64>)
        requires
            cap > 0,
        ensures
            final(self)@ == armed(old(self)@, arm, cap),
            shed == ledger_sheds(old(self)@.arms, arm, cap),
    {
        proof {
            use_type_invariant(&*self);
        }
        let mut transport = self.transport;
        transport.apply(arm);
        self.transport = transport;
        let mut arms = LedgerArms::new();
        std::mem::swap(&mut arms, &mut self.arms);
        let shed = arms.arm(arm, cap);
        self.arms = arms;
        shed
    }

    /// Plays a record of arms onto the account.
    pub fn open_with(&mut self, record: &ArmRecord, cap: usize)
        requires
            cap > 0,
        ensures
            final(self)@ == opened_with(old(self)@, record@, cap),
    {
        proof {
            use_type_invariant(&*self);
        }
        let mut transport = self.transport;
        record.open_transport(&mut transport);
        self.transport = transport;
        let mut arms = LedgerArms::new();
        std::mem::swap(&mut arms, &mut self.arms);
        record.open_engine(&mut arms, cap);
        self.arms = arms;
    }

    /// Lifts everything that a clear lifts.
    pub fn clear_havoc(&mut self)
        ensures
            final(self)@ == cleared(old(self)@),
    {
        proof {
            use_type_invariant(&*self);
        }
        self.transport = Transport::new();
        let mut arms = LedgerArms::new();
        std::mem::swap(&mut arms, &mut self.arms);
        arms.surcharge = None;
        self.arms = arms;
    }
}

/// Sitting down and getting up again changes nothing.
pub proof fn sitting_and_rising_cancel(
    seats: Map<Seq<char>, Seat>,
    river: Seq<char>,
    speed_micros: u64,
)
    requires
        are_ridden(seats),
        seats.dom().contains(river) ==> seats[river].speed_micros == speed_micros
            && seats[river].riders < usize::MAX,
    ensures
        unseated(seated(seats, river, speed_micros), river, speed_micros) == seats,
{
    assert(unseated(seated(seats, river, speed_micros), river, speed_micros) =~= seats);
}

/// A seat that two connections share is still ridden when one of them has left.
pub proof fn a_shared_seat_survives_the_first_leaving(
    seats: Map<Seq<char>, Seat>,
    river: Seq<char>,
)
    requires
        seats.dom().contains(river),
        seats[river].riders >= 2,
    ensures
        unseated(seats, river, seats[river].speed_micros).dom().contains(river),
        unseated(seats, river, seats[river].speed_micros)[river].speed_micros
            == seats[river].speed_micros,
{
}

/// A frozen account rides nothing once it was frozen, and freezing it again
/// leaves the instant since which it is.
pub proof fn freezing_is_once(passenger: PassengerView, now: u64, later_now: u64)
    requires
        passenger.frozen_since is None,
    ensures
        frozen(passenger, now).seats == Map::<Seq<char>, Seat>::empty(),
        frozen(frozen(passenger, now), later_now) == frozen(passenger, now),
{
}

/// Each connection that sits down counts once, and so does each that gets up; the
/// last one leaves the seat empty, and a seat at another speed is not got up
/// from. No other river is touched.
pub proof fn each_rider_counts(
    seats: Map<Seq<char>, Seat>,
    river: Seq<char>,
    other: Seq<char>,
    speed_micros: u64,
)
    requires
        other != river,
        seats.dom().contains(river) ==> 1 <= seats[river].riders < usize::MAX,
    ensures
        ({
            let sat = seated(seats, river, speed_micros);
            let up = unseated(seats, river, speed_micros);
            &&& sat.dom().contains(river) && sat[river].speed_micros == speed_micros
            &&& sat[river].riders == if seats.dom().contains(river) {
                seats[river].riders + 1
            } else {
                1
            }
            &&& sat.dom().contains(other) == seats.dom().contains(other)
            &&& seats.dom().contains(other) ==> sat[other] == seats[other]
            &&& up.dom().contains(other) == seats.dom().contains(other)
            &&& seats.dom().contains(other) ==> up[other] == seats[other]
            &&& seats.dom().contains(river) && seats[river].speed_micros != speed_micros ==> up
                == seats
            &&& seats.dom().contains(river) && seats[river].speed_micros == speed_micros ==> {
                &&& seats[river].riders == 1 ==> !up.dom().contains(river)
                &&& seats[river].riders > 1 ==> up.dom().contains(river) && up[river].riders
                    == seats[river].riders - 1
            }
            &&& !seats.dom().contains(river) ==> up == seats
        }),
{
}

/// After a clear an account suffers nothing on its connections and pays no
/// surcharge; the divergences of its ledger, and all else about it, stay.
pub proof fn a_clear_leaves_the_ledger(passenger: PassengerView, class: CommandClass)
    ensures
        ({
            let after = cleared(passenger);
            &&& after.transport.dark.span is None
            &&& after.transport.stall.span is None
            &&& after.transport.delay_ms == 0
            &&& act_of(after.transport.latency, class) == 0
            &&& ack_of(after.transport.latency, class) == 0
            &&& after.arms.surcharge is None
            &&& after.arms.queue == passenger.arms.queue
            &&& after.serial == passenger.serial
            &&& after.risk == passenger.risk
            &&& after.frozen_since == passenger.frozen_since
            &&& after.seats == passenger.seats
            &&& after.admitted == passenger.admitted
        }),
{
}

} // verus!
