//! Paced boats, placed on demand and shared by the passengers who ask for the
//! same river at the same speed.
//!
//! The yard decides; whoever runs it places cursors, waits and winds workers
//! down as the yard says.

use vstd::prelude::*;

use crate::config::finite_from_zero;
use crate::config::MAX_FINITE_BITS;
use crate::config::MINUS_ZERO_BITS;
use crate::roll::names_view;
use crate::roll::Roll;
use crate::text::push_decimal;

verus! {

/// The largest speed that can be shared, in millionths: a million times real
/// time.
pub const MAX_SPEED_MICROS: u64 = 1_000_000_000_000;

/// The double of `MAX_SPEED_MICROS`, as its bits.
pub const MAX_SPEED_BITS: u64 = 0x426d_1a94_a200_0000;

/// One more than the largest mantissa of a double.
pub const MANTISSA_SPAN: u64 = 0x10_0000_0000_0000;

/// A speed as it was asked for: the bits of the double, and the bits of that
/// double times a million.
#[derive(Clone, Copy, Debug, PartialEq, Eq, Structural)]
pub struct AskedSpeed {
    pub bits: u64,
    pub scaled: u64,
}

/// Two to the `n`.
pub open spec fn twofold(n: nat) -> nat
    decreases n,
{
    if n == 0 {
        1
    } else {
        2 * twofold((n - 1) as nat)
    }
}

/// Whether a scaled speed is past the largest that can be shared.
pub open spec fn is_beyond(scaled: u64) -> bool {
    scaled != MINUS_ZERO_BITS && scaled > MAX_SPEED_BITS
}

/// The integer nearest to the double with the given bits, a half going up. The
/// double is the mantissa with its leading one over a power of two; one whose
/// exponent field is empty is next to nothing.
pub open spec fn nearest(bits: u64) -> int {
    let exponent = (bits / MANTISSA_SPAN) as int;
    let mantissa = MANTISSA_SPAN + bits % MANTISSA_SPAN;
    if bits == MINUS_ZERO_BITS || exponent == 0 {
        0
    } else {
        let below = twofold((1075 - exponent) as nat);
        (2 * mantissa + below) / (2 * below as int)
    }
}

proof fn twofold_is_large(n: nat)
    requires
        n >= 55,
    ensures
        twofold(n) >= 0x80_0000_0000_0000,
    decreases n,
{
    if n == 55 {
        assert(twofold(55) == 0x80_0000_0000_0000) by {
            reveal_with_fuel(twofold, 56);
        }
    } else {
        twofold_is_large((n - 1) as nat);
    }
}

proof fn twofold_is_positive(n: nat)
    ensures
        twofold(n) >= 1,
    decreases n,
{
    if n > 0 {
        twofold_is_positive((n - 1) as nat);
    }
}

proof fn twofold_at_the_last_place()
    ensures
        twofold(54) == 0x40_0000_0000_0000,
{
    reveal_with_fuel(twofold, 55);
}

proof fn a_small_part_is_nothing(mantissa: int, shift: nat)
    requires
        shift >= 55,
        0 <= mantissa < 2 * MANTISSA_SPAN,
    ensures
        (2 * mantissa + twofold(shift)) / (2 * twofold(shift) as int) == 0,
{
    twofold_is_large(shift);
    let below = twofold(shift) as int;
    assert((2 * mantissa + below) / (2 * below) == 0) by (nonlinear_arith)
        requires
            0 <= 2 * mantissa < below,
    ;
}

/// The millionths nearest to a scaled speed that is not beyond the largest.
#[verifier::spinoff_prover]
pub fn quantize(scaled: u64) -> (micros: u64)
    requires
        !is_beyond(scaled),
    ensures
        micros == nearest(scaled),
{
    if scaled == MINUS_ZERO_BITS {
        return 0;
    }
    let exponent: u64 = scaled / MANTISSA_SPAN;
    if exponent == 0 {
        return 0;
    }
    let mantissa: u64 = MANTISSA_SPAN + scaled % MANTISSA_SPAN;
    assert(exponent <= 1062);
    let shift: u64 = 1075 - exponent;
    if shift >= 55 {
        proof {
            a_small_part_is_nothing(mantissa as int, shift as nat);
        }
        return 0;
    }
    let mut below: u64 = 1;
    let mut i: u64 = 0;
    proof {
        twofold_at_the_last_place();
    }
    while i < shift
        invariant
            i <= shift < 55,
            below == twofold(i as nat),
            below <= 0x40_0000_0000_0000,
            below * twofold((54 - i) as nat) == 0x40_0000_0000_0000,
        decreases shift - i,
    {
        proof {
            let rest = twofold((54 - i - 1) as nat);
            assert(twofold((54 - i) as nat) == 2 * rest);
            twofold_is_positive((54 - i - 1) as nat);
            assert(below * (2 * rest) == (2 * below) * rest) by (nonlinear_arith);
            assert(2 * below <= 0x40_0000_0000_0000) by (nonlinear_arith)
                requires
                    (2 * below) * rest == 0x40_0000_0000_0000,
                    rest >= 1,
            ;
        }
        below = 2 * below;
        i += 1;
    }
    proof {
        twofold_is_positive(shift as nat);
    }
    (2 * mantissa + below) / (2 * below)
}

/// Why nobody could board.
#[derive(Clone, Copy, Debug, PartialEq, Eq, Structural)]
pub enum BoardRefusal {
    /// The speed is not a finite number of at least zero.
    NotASpeed,
    /// The speed is past the largest that can be shared.
    BeyondRange,
    /// Another speed sits on the river, in millionths.
    SpeedInUse { sitting_micros: u64 },
}

impl BoardRefusal {
    /// The words for a refusal that no other passenger caused, with the speed
    /// as it was written.
    pub open spec fn text(self, speed: Seq<char>) -> Option<Seq<char>> {
        match self {
            BoardRefusal::NotASpeed => Some("speed must be finite and non-negative"@),
            BoardRefusal::BeyondRange => Some(
                "speed "@ + speed + " is beyond the quantization range; the maximum is "@
                    + crate::text::decimal(1_000_000),
            ),
            BoardRefusal::SpeedInUse { .. } => None,
        }
    }

    pub fn message(&self, speed: &str) -> (words: Option<String>)
        ensures
            words is Some == self.text(speed@) is Some,
            words is Some ==> words->0@ == self.text(speed@)->0,
    {
        match self {
            BoardRefusal::NotASpeed => Some("speed must be finite and non-negative".to_owned()),
            BoardRefusal::BeyondRange => {
                let mut words = "speed ".to_owned();
                words.append(speed);
                words.append(" is beyond the quantization range; the maximum is ");
                push_decimal(&mut words, 1_000_000);
                Some(words)
            },
            BoardRefusal::SpeedInUse { .. } => None,
        }
    }
}

/// What sits on a river.
#[derive(Clone, Copy, Debug, PartialEq, Eq, Structural)]
pub enum Slot {
    /// A boat is on its way there.
    Placing { speed_micros: u64 },
    /// A boat sits there, with its passengers.
    Seated { boat: u64, speed_micros: u64, passengers: u32 },
}

/// A place on a boat. Handing it back is leaving.
#[derive(Debug)]
pub struct Ticket {
    river: String,
    boat: u64,
}

impl Ticket {
    pub closed spec fn on(self) -> Seq<char> {
        self.river@
    }

    pub closed spec fn of(self) -> u64 {
        self.boat
    }

    /// The boat that the ticket is for.
    pub fn boat(&self) -> (boat: u64)
        ensures
            boat == self.of(),
    {
        self.boat
    }

    /// The river that the boat sits on.
    pub fn river(&self) -> (river: &String)
        ensures
            river@ == self.on(),
    {
        &self.river
    }
}

/// What a boarder is to do next.
#[derive(Debug)]
pub enum Boarding {
    /// The boarder has a place.
    Boarded { ticket: Ticket },
    /// Somebody else is placing the boat: ask again when that is over.
    Wait,
    /// The boarder places the boat, paced at one speed and told by a clock of
    /// another, which is never zero, and then reports what came of it.
    Place { speed_micros: u64, clock_micros: u64 },
    Refused { refusal: BoardRefusal },
}

/// What leaving a boat asks for.
#[derive(Clone, Copy, Debug, PartialEq, Eq, Structural)]
pub enum Leaving {
    /// Others stay on the boat, or nobody sits there.
    Stays,
    /// The boat is empty and off its river: its worker is to be stopped.
    WindDown { boat: u64 },
}

/// The slots of the rivers, by river.
pub type Slots = Map<Seq<char>, Slot>;

/// The boats and who shares them.
pub struct Boatyard {
    slots: Roll<Slot>,
    launched: u64,
}

/// Whether the slots are those of a yard that has launched so many boats: a
/// seated boat has somebody on it, and was launched once, on one river.
pub open spec fn is_kept(slots: Slots, launched: u64) -> bool {
    &&& forall|river: Seq<char>| #[trigger]
        slots.dom().contains(river) && slots[river] is Seated ==> {
            &&& slots[river]->passengers >= 1
            &&& slots[river]->boat < launched
        }
    &&& forall|one: Seq<char>, other: Seq<char>|
        #![trigger slots[one], slots[other]]
        slots.dom().contains(one) && slots.dom().contains(other) && slots[one] is Seated
            && slots[other] is Seated && slots[one]->boat == slots[other]->boat ==> one == other
}

/// The slots once `passenger` more has boarded, or one has left.
pub open spec fn reseated(slots: Slots, river: Seq<char>, by: int) -> Slots {
    slots.insert(
        river,
        Slot::Seated {
            boat: slots[river]->boat,
            speed_micros: slots[river]->Seated_speed_micros,
            passengers: (slots[river]->passengers + by) as u32,
        },
    )
}

/// The slots once a passenger of a river has left.
pub open spec fn left(slots: Slots, river: Seq<char>) -> Slots {
    if !slots.dom().contains(river) || slots[river] is Placing {
        slots
    } else if slots[river]->passengers == 1 {
        slots.remove(river)
    } else {
        reseated(slots, river, -1)
    }
}

/// The slots once a boat of a river has been placed, or could not be.
pub open spec fn settled(slots: Slots, river: Seq<char>, boat: Option<u64>) -> Slots {
    match boat {
        Some(boat) => slots.insert(
            river,
            Slot::Seated {
                boat,
                speed_micros: slots[river]->Placing_speed_micros,
                passengers: 1,
            },
        ),
        None => slots.remove(river),
    }
}

/// Whether a boat sits on some river.
pub open spec fn sits(slots: Slots, boat: u64) -> bool {
    exists|river: Seq<char>| #[trigger]
        slots.dom().contains(river) && slots[river] is Seated && slots[river]->boat == boat
}

/// What a boarder is to do next, in the abstract.
pub enum BoardingView {
    Boarded { river: Seq<char>, boat: u64 },
    Wait,
    Place { speed_micros: u64, clock_micros: u64 },
    Refused { refusal: BoardRefusal },
}

impl View for Boarding {
    type V = BoardingView;

    open spec fn view(&self) -> BoardingView {
        match *self {
            Boarding::Boarded { ticket } => BoardingView::Boarded {
                river: ticket.on(),
                boat: ticket.of(),
            },
            Boarding::Wait => BoardingView::Wait,
            Boarding::Place { speed_micros, clock_micros } => BoardingView::Place {
                speed_micros,
                clock_micros,
            },
            Boarding::Refused { refusal } => BoardingView::Refused { refusal },
        }
    }
}

/// Whether a speed is one that a boat can have.
pub open spec fn is_speed(speed: AskedSpeed) -> bool {
    finite_from_zero(speed.bits) && !is_beyond(speed.scaled)
}

/// What a boarder of a river is to do, and the slots after it was asked.
pub open spec fn boarded(slots: Slots, river: Seq<char>, speed: AskedSpeed) -> (
    BoardingView,
    Slots,
) {
    let micros = nearest(speed.scaled) as u64;
    if !finite_from_zero(speed.bits) {
        (BoardingView::Refused { refusal: BoardRefusal::NotASpeed }, slots)
    } else if is_beyond(speed.scaled) {
        (BoardingView::Refused { refusal: BoardRefusal::BeyondRange }, slots)
    } else if !slots.dom().contains(river) {
        (
            BoardingView::Place {
                speed_micros: micros,
                clock_micros: if micros == 0 {
                    1_000_000
                } else {
                    micros
                },
            },
            slots.insert(river, Slot::Placing { speed_micros: micros }),
        )
    } else {
        match slots[river] {
            Slot::Placing { .. } => (BoardingView::Wait, slots),
            Slot::Seated { boat, speed_micros, passengers } => if speed_micros == micros {
                (BoardingView::Boarded { river, boat }, reseated(slots, river, 1))
            } else {
                (
                    BoardingView::Refused {
                        refusal: BoardRefusal::SpeedInUse { sitting_micros: speed_micros },
                    },
                    slots,
                )
            },
        }
    }
}

impl View for Boatyard {
    type V = Slots;

    closed spec fn view(&self) -> Slots {
        self.slots@
    }
}

impl Boatyard {
    #[verifier::type_invariant]
    spec fn kept(self) -> bool {
        is_kept(self.slots@, self.launched)
    }

    /// How many boats there have been.
    pub closed spec fn boats_launched(self) -> u64 {
        self.launched
    }

    /// A yard without boats.
    pub fn new() -> (yard: Boatyard)
        ensures
            yard@ == Map::<Seq<char>, Slot>::empty(),
            yard.boats_launched() == 0,
    {
        Boatyard { slots: Roll::new(), launched: 0 }
    }

    /// Asks for a place on the boat of a river at a speed.
    pub fn board(&mut self, river: &str, speed: AskedSpeed) -> (boarding: Boarding)
        requires
            old(self)@.dom().contains(river@) && old(self)@[river@] is Seated
                ==> old(self)@[river@]->passengers < u32::MAX,
        ensures
            final(self).boats_launched() == old(self).boats_launched(),
            is_kept(final(self)@, final(self).boats_launched()),
            (boarding@, final(self)@) == boarded(old(self)@, river@, speed),
    {
        proof {
            use_type_invariant(&*self);
        }
        if speed.bits != MINUS_ZERO_BITS && speed.bits > MAX_FINITE_BITS {
            return Boarding::Refused { refusal: BoardRefusal::NotASpeed };
        }
        if speed.scaled != MINUS_ZERO_BITS && speed.scaled > MAX_SPEED_BITS {
            return Boarding::Refused { refusal: BoardRefusal::BeyondRange };
        }
        let micros: u64 = quantize(speed.scaled);
        let ghost before = self.slots@;
        let mut slots: Roll<Slot> = Roll::new();
        std::mem::swap(&mut slots, &mut self.slots);
        let launched: u64 = self.launched;
        let boarding = match slots.find(river) {
            None => {
                slots.enrol(river.to_owned(), Slot::Placing { speed_micros: micros });
                let clock_micros: u64 = if micros == 0 {
                    1_000_000
                } else {
                    micros
                };
                Boarding::Place { speed_micros: micros, clock_micros }
            },
            Some(at) => match *slots.value(at) {
                Slot::Placing { .. } => Boarding::Wait,
                Slot::Seated { boat, speed_micros, passengers } => if speed_micros == micros {
                    slots.replace(
                        at,
                        Slot::Seated { boat, speed_micros, passengers: passengers + 1 },
                    );
                    Boarding::Boarded { ticket: Ticket { river: river.to_owned(), boat } }
                } else {
                    Boarding::Refused {
                        refusal: BoardRefusal::SpeedInUse { sitting_micros: speed_micros },
                    }
                },
            },
        };
        *self = Boatyard { slots, launched };
        boarding
    }

    /// Reports what came of a placement: whoever placed the boat has the first
    /// ticket, and after a failure nothing is left on the river.
    pub fn settle(&mut self, river: &str, placed: bool) -> (ticket: Option<Ticket>)
        requires
            old(self)@.dom().contains(river@) && old(self)@[river@] is Placing,
            placed ==> old(self).boats_launched() < u64::MAX,
        ensures
            ticket is Some == placed,
            placed ==> {
                &&& ticket->0.on() == river@
                &&& ticket->0.of() == old(self).boats_launched()
                &&& final(self).boats_launched() == old(self).boats_launched() + 1
                &&& final(self)@ == settled(old(self)@, river@, Some(ticket->0.of()))
            },
            !placed ==> {
                &&& final(self).boats_launched() == old(self).boats_launched()
                &&& final(self)@ == settled(old(self)@, river@, None)
            },
            is_kept(final(self)@, final(self).boats_launched()),
    {
        proof {
            use_type_invariant(&*self);
        }
        let mut slots: Roll<Slot> = Roll::new();
        std::mem::swap(&mut slots, &mut self.slots);
        let boat: u64 = self.launched;
        if let Some(at) = slots.find(river) {
            if let Slot::Placing { speed_micros } = *slots.value(at) {
                if placed {
                    slots.replace(at, Slot::Seated { boat, speed_micros, passengers: 1 });
                    *self = Boatyard { slots, launched: boat + 1 };
                    return Some(Ticket { river: river.to_owned(), boat });
                }
            }
        }
        slots.remove(river);
        *self = Boatyard { slots, launched: boat };
        None
    }

    /// Hands a ticket back. The last passenger to leave takes the boat off its
    /// river.
    pub fn leave(&mut self, ticket: Ticket) -> (leaving: Leaving)
        ensures
            final(self).boats_launched() == old(self).boats_launched(),
            final(self)@ == left(old(self)@, ticket.on()),
            leaving == if old(self)@.dom().contains(ticket.on()) && old(self)@[ticket.on()] is Seated
                && old(self)@[ticket.on()]->passengers == 1 {
                Leaving::WindDown { boat: old(self)@[ticket.on()]->boat }
            } else {
                Leaving::Stays
            },
            is_kept(final(self)@, final(self).boats_launched()),
    {
        proof {
            use_type_invariant(&*self);
        }
        let mut slots: Roll<Slot> = Roll::new();
        std::mem::swap(&mut slots, &mut self.slots);
        let launched: u64 = self.launched;
        let mut leaving = Leaving::Stays;
        if let Some(at) = slots.find(ticket.river.as_str()) {
            if let Slot::Seated { boat, speed_micros, passengers } = *slots.value(at) {
                if passengers == 1 {
                    slots.remove(ticket.river.as_str());
                    leaving = Leaving::WindDown { boat };
                } else {
                    slots.replace(
                        at,
                        Slot::Seated { boat, speed_micros, passengers: (passengers - 1) as u32 },
                    );
                }
            }
        }
        *self = Boatyard { slots, launched };
        leaving
    }

    /// The boat on a river.
    pub fn boat_on(&self, river: &str) -> (boat: Option<u64>)
        ensures
            boat == if self@.dom().contains(river@) && self@[river@] is Seated {
                Some(self@[river@]->boat)
            } else {
                None
            },
    {
        match self.slots.get(river) {
            Some(slot) => match *slot {
                Slot::Seated { boat, .. } => Some(boat),
                Slot::Placing { .. } => None,
            },
            None => None,
        }
    }

    /// The rivers with a boat on them, each of them once.
    pub fn seated_rivers(&self) -> (rivers: Vec<String>)
        ensures
            forall|river: Seq<char>| #[trigger]
                names_view(rivers@).contains(river) == (self@.dom().contains(river)
                    && self@[river] is Seated),
            names_view(rivers@).no_duplicates(),
    {
        let n: usize = self.slots.len();
        let ghost order = self.slots.order();
        let mut rivers: Vec<String> = Vec::new();
        let mut i: usize = 0;
        while i < n
            invariant
                i <= n,
                n == order.len(),
                order == self.slots.order(),
                order.no_duplicates(),
                names_view(rivers@).no_duplicates(),
                forall|river: Seq<char>| #[trigger]
                    names_view(rivers@).contains(river) == (order.take(i as int).contains(river)
                        && self.slots@[river] is Seated),
            decreases n - i,
        {
            let ghost before = names_view(rivers@);
            let ghost name = order[i as int];
            proof {
                one_more_name(order, i as int);
            }
            if let Slot::Seated { .. } = *self.slots.value(i) {
                rivers.push(self.slots.name(i).as_str().to_owned());
                proof {
                    assert(names_view(rivers@) =~= before.push(name));
                    assert(!before.contains(name));
                    pushed_apart(before, name);
                }
            }
            i += 1;
        }
        proof {
            assert(order.take(n as int) =~= order);
            assert forall|river: Seq<char>| #[trigger]
                names_view(rivers@).contains(river) == (self@.dom().contains(river)
                    && self@[river] is Seated) by {
                assert(self.slots@.dom().contains(river) == order.contains(river));
            }
        }
        rivers
    }
}

/// A row with one more name holds the names before it and that one, which was
/// not among them.
proof fn one_more_name(order: Seq<Seq<char>>, i: int)
    requires
        0 <= i < order.len(),
        order.no_duplicates(),
    ensures
        !order.take(i).contains(order[i]),
        forall|name: Seq<char>| #[trigger]
            order.take(i + 1).contains(name) == (order.take(i).contains(name) || name == order[i]),
{
    let (few, more) = (order.take(i), order.take(i + 1));
    if few.contains(order[i]) {
        let k = choose|k: int| 0 <= k < few.len() && few[k] == order[i];
        assert(order[k] == order[i]);
    }
    assert forall|name: Seq<char>| #[trigger]
        more.contains(name) == (few.contains(name) || name == order[i]) by {
        if more.contains(name) {
            let k = choose|k: int| 0 <= k < more.len() && more[k] == name;
            if k < i {
                assert(few[k] == name);
            }
        }
        if few.contains(name) {
            let k = choose|k: int| 0 <= k < few.len() && few[k] == name;
            assert(more[k] == name);
        }
        assert(more[i] == order[i]);
    }
}

proof fn pushed_apart(names: Seq<Seq<char>>, name: Seq<char>)
    requires
        names.no_duplicates(),
        !names.contains(name),
    ensures
        names.push(name).no_duplicates(),
        forall|other: Seq<char>| #[trigger]
            names.push(name).contains(other) == (names.contains(other) || other == name),
{
    let now = names.push(name);
    assert forall|i: int, j: int| 0 <= i < now.len() && 0 <= j < now.len() && i != j implies now[i]
        != now[j] by {
        if i == names.len() {
            assert(names.contains(names[j]));
        } else if j == names.len() {
            assert(names.contains(names[i]));
        }
    }
    assert forall|other: Seq<char>| #[trigger]
        now.contains(other) == (names.contains(other) || other == name) by {
        if now.contains(other) {
            let k = choose|k: int| 0 <= k < now.len() && now[k] == other;
            if k < names.len() {
                assert(names[k] == other);
            }
        }
        if names.contains(other) {
            let k = choose|k: int| 0 <= k < names.len() && names[k] == other;
            assert(now[k] == other);
        }
        assert(now[names.len() as int] == name);
    }
}

/// While a boat sits on a river, whoever asks for a speed that rounds to its own
/// has a place on that very boat, and whoever asks for another is refused with
/// the sitting speed named and changes nothing.
pub proof fn one_boat_and_one_speed_for_a_river(
    slots: Slots,
    river: Seq<char>,
    sitting: AskedSpeed,
    asked: AskedSpeed,
)
    requires
        is_speed(sitting),
        is_speed(asked),
        slots.dom().contains(river),
        slots[river] is Seated,
        slots[river]->Seated_speed_micros == nearest(sitting.scaled) as u64,
        slots[river]->passengers < u32::MAX,
    ensures
        ({
            let (told, after) = boarded(slots, river, asked);
            &&& nearest(asked.scaled) as u64 == nearest(sitting.scaled) as u64 ==> told == (
            BoardingView::Boarded { river, boat: slots[river]->boat })
            &&& nearest(asked.scaled) as u64 != nearest(sitting.scaled) as u64 ==> told == (
            BoardingView::Refused {
                refusal: BoardRefusal::SpeedInUse { sitting_micros: nearest(sitting.scaled) as u64 },
            }) && after == slots
            &&& after.dom().contains(river) && after[river] is Seated
            &&& after[river]->boat == slots[river]->boat
            &&& after[river]->Seated_speed_micros == slots[river]->Seated_speed_micros
        }),
{
}

/// A boat and its speed stay on the river from its placement on, whoever boards
/// or leaves, as long as one passenger stays.
pub proof fn a_boat_stays_while_it_is_held(
    slots: Slots,
    river: Seq<char>,
    other: Seq<char>,
    asked: AskedSpeed,
    boat: u64,
    placing: AskedSpeed,
)
    requires
        slots.dom().contains(river),
    ensures
        slots[river] is Seated && slots[river]->passengers > 1 ==> ({
            let after = left(slots, other);
            &&& after.dom().contains(river) && after[river] is Seated
            &&& after[river]->boat == slots[river]->boat
            &&& after[river]->Seated_speed_micros == slots[river]->Seated_speed_micros
        }),
        slots[river] is Seated && slots[river]->passengers < u32::MAX ==> ({
            let after = boarded(slots, other, asked).1;
            &&& after.dom().contains(river) && after[river] is Seated
            &&& after[river]->boat == slots[river]->boat
            &&& after[river]->Seated_speed_micros == slots[river]->Seated_speed_micros
        }),
        is_speed(placing) && !slots.dom().contains(other) ==> ({
            let placed = settled(boarded(slots, other, placing).1, other, Some(boat));
            &&& placed[other] is Seated && placed[other]->boat == boat
            &&& placed[other]->Seated_speed_micros == nearest(placing.scaled) as u64
        }),
{
}

/// After a failed placement the next to ask is told to place the boat, as the
/// first was, and does not wait for the one that failed.
pub proof fn a_failed_placement_is_not_waited_for(
    slots: Slots,
    river: Seq<char>,
    speed: AskedSpeed,
)
    requires
        is_speed(speed),
        !slots.dom().contains(river),
    ensures
        ({
            let (told, asked) = boarded(slots, river, speed);
            let after = settled(asked, river, None);
            &&& told is Place
            &&& after == slots
            &&& boarded(after, river, speed) == (told, asked)
        }),
{
    let asked = boarded(slots, river, speed).1;
    assert(settled(asked, river, None) =~= slots);
}

/// Boarding a sitting boat and leaving it again changes nothing.
pub proof fn boarding_and_leaving_cancel(slots: Slots, river: Seq<char>)
    requires
        slots.dom().contains(river),
        slots[river] is Seated,
        1 <= slots[river]->passengers < u32::MAX,
    ensures
        left(reseated(slots, river, 1), river) == slots,
{
    assert(left(reseated(slots, river, 1), river) =~= slots);
}

/// A placement that fails leaves the yard as it was before anybody asked.
pub proof fn a_failed_placement_leaves_nothing(slots: Slots, river: Seq<char>, speed_micros: u64)
    requires
        !slots.dom().contains(river),
    ensures
        settled(slots.insert(river, Slot::Placing { speed_micros }), river, None) == slots,
{
    assert(settled(slots.insert(river, Slot::Placing { speed_micros }), river, None) =~= slots);
}

/// Whoever places a boat and leaves it with nobody else aboard leaves an empty
/// river.
pub proof fn the_last_to_leave_clears_the_river(
    slots: Slots,
    river: Seq<char>,
    speed_micros: u64,
    boat: u64,
)
    requires
        !slots.dom().contains(river),
    ensures
        left(
            settled(slots.insert(river, Slot::Placing { speed_micros }), river, Some(boat)),
            river,
        ) == slots,
{
    assert(left(
        settled(slots.insert(river, Slot::Placing { speed_micros }), river, Some(boat)),
        river,
    ) =~= slots);
}

/// A boat that has been wound down sits on no river, so nobody boards it; and
/// no boat launched later is that boat.
pub proof fn a_wound_down_boat_is_never_boarded(slots: Slots, launched: u64, river: Seq<char>)
    requires
        is_kept(slots, launched),
        slots.dom().contains(river),
        slots[river] is Seated,
        slots[river]->passengers == 1,
    ensures
        !sits(left(slots, river), slots[river]->boat),
        slots[river]->boat < launched,
{
    let after = left(slots, river);
    assert forall|other: Seq<char>| #[trigger]
        after.dom().contains(other) && after[other] is Seated implies after[other]->boat
        != slots[river]->boat by {
        assert(slots[other] == after[other]);
    }
}

/// A passenger of one river never touches another.
pub proof fn rivers_do_not_share(slots: Slots, river: Seq<char>, other: Seq<char>)
    requires
        river != other,
    ensures
        left(slots, river).dom().contains(other) == slots.dom().contains(other),
        left(slots, river)[other] == slots[other],
{
}

/// The millionths of a speed are the whole number nearest to it, and a half goes
/// up: the speed is a mantissa over a power of two, and lies from half a millionth
/// below the number up to half of one above it.
pub proof fn a_speed_is_rounded_to_the_nearest(bits: u64)
    requires
        !is_beyond(bits),
        bits != MINUS_ZERO_BITS,
        bits / MANTISSA_SPAN > 0,
    ensures
        ({
            let mantissa = MANTISSA_SPAN + bits % MANTISSA_SPAN;
            let below = twofold((1075 - bits / MANTISSA_SPAN) as nat);
            (2 * nearest(bits) - 1) * below <= 2 * mantissa < (2 * nearest(bits) + 1) * below
        }),
{
    let mantissa = MANTISSA_SPAN + bits % MANTISSA_SPAN;
    let below = twofold((1075 - bits / MANTISSA_SPAN) as nat) as int;
    twofold_is_positive((1075 - bits / MANTISSA_SPAN) as nat);
    let n = nearest(bits);
    vstd::arithmetic::div_mod::lemma_fundamental_div_mod(2 * mantissa + below, 2 * below);
    let rest = (2 * mantissa + below) % (2 * below);
    assert((2 * n - 1) * below <= 2 * mantissa && 2 * mantissa < (2 * n + 1) * below)
        by (nonlinear_arith)
        requires
            2 * mantissa + below == (2 * below) * n + rest,
            0 <= rest < 2 * below,
    ;
}

/// A speed that is nothing is no millionths, whatever its sign.
pub proof fn a_standstill_is_no_millionths(bits: u64)
    requires
        bits == MINUS_ZERO_BITS || bits < MANTISSA_SPAN,
    ensures
        nearest(bits) == 0,
{
}

/// Who asks first for a river places the boat, at the speed that was asked for
/// and told by a clock that never stands still; who asks while it is on its way
/// waits and changes nothing; who boards a sitting boat is one passenger more.
/// Nobody touches another river.
pub proof fn a_boat_is_placed_once(
    slots: Slots,
    river: Seq<char>,
    other: Seq<char>,
    speed: AskedSpeed,
)
    requires
        is_speed(speed),
        other != river,
    ensures
        ({
            let (told, after) = boarded(slots, river, speed);
            let micros = nearest(speed.scaled) as u64;
            &&& !slots.dom().contains(river) ==> {
                &&& told matches BoardingView::Place { speed_micros, clock_micros }
                    && speed_micros == micros && clock_micros > 0 && (micros > 0
                    ==> clock_micros == micros) && (micros == 0 ==> clock_micros == 1_000_000)
                &&& after.dom().contains(river)
                &&& after[river] == (Slot::Placing { speed_micros: micros })
            }
            &&& slots.dom().contains(river) && slots[river] is Placing ==> told
                == BoardingView::Wait && after == slots
            &&& slots.dom().contains(river) && slots[river] is Seated
                && slots[river]->Seated_speed_micros == micros && slots[river]->passengers
                < u32::MAX ==> after[river]->passengers == slots[river]->passengers + 1
            &&& after.dom().contains(other) == slots.dom().contains(other)
            &&& slots.dom().contains(other) ==> after[other] == slots[other]
        }),
{
}

/// What is no speed, or is too fast, is refused for that, on every river, and
/// changes nothing.
pub proof fn no_boat_is_placed_for_no_speed(slots: Slots, river: Seq<char>, speed: AskedSpeed)
    requires
        !is_speed(speed),
    ensures
        boarded(slots, river, speed).1 == slots,
        speed.bits > MAX_FINITE_BITS && speed.bits != MINUS_ZERO_BITS ==> boarded(
            slots,
            river,
            speed,
        ).0 == (BoardingView::Refused { refusal: BoardRefusal::NotASpeed }),
        speed.bits <= MAX_FINITE_BITS || speed.bits == MINUS_ZERO_BITS ==> boarded(
            slots,
            river,
            speed,
        ).0 == (BoardingView::Refused { refusal: BoardRefusal::BeyondRange }),
{
}

/// A passenger who leaves a boat with others aboard leaves it with one passenger
/// fewer, and the last one leaves the river empty.
pub proof fn each_leaving_is_one_fewer(slots: Slots, river: Seq<char>)
    requires
        slots.dom().contains(river),
        slots[river] is Seated,
        slots[river]->passengers >= 1,
    ensures
        slots[river]->passengers > 1 ==> left(slots, river).dom().contains(river) && left(
            slots,
            river,
        )[river]->passengers == slots[river]->passengers - 1 && left(slots, river)[river]->boat
            == slots[river]->boat,
        slots[river]->passengers == 1 ==> !left(slots, river).dom().contains(river),
{
}

/// A scaled speed is too fast just where it is above the highest there is; a
/// standstill is not, whatever the sign of its zero.
pub proof fn only_a_higher_speed_is_too_fast(scaled: u64)
    ensures
        scaled <= MAX_SPEED_BITS ==> !is_beyond(scaled),
        !is_beyond(MINUS_ZERO_BITS),
        scaled > MAX_SPEED_BITS && scaled != MINUS_ZERO_BITS ==> is_beyond(scaled),
{
}

} // verus!
