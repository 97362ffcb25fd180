//! Decimal amounts: a whole mantissa and a count of decimal places.

use vstd::prelude::*;

use rust_decimal::Decimal;

use crate::text::a_number_is_written_by_its_digits;
use crate::text::decimal;
use crate::text::digit_char;

verus! {

/// The largest mantissa that a decimal amount has.
pub const MAX_MANTISSA: i128 = 79_228_162_514_264_337_593_543_950_335;

/// The most decimal places that a decimal amount has.
pub const MAX_SCALE: u32 = 28;

/// A decimal amount: its mantissa, moved right by its scale.
#[derive(Clone, Copy, Debug, PartialEq, Eq, Structural)]
pub struct Dec {
    mantissa: i128,
    scale: u32,
}

/// Ten to the power of `n`.
pub open spec fn ten(n: nat) -> nat
    decreases n,
{
    if n == 0 {
        1
    } else {
        10 * ten((n - 1) as nat)
    }
}

/// What is left of `a` over `b`, with the sign of `a`.
pub open spec fn left_over(a: int, b: int) -> int {
    if a >= 0 {
        a % b
    } else {
        -((-a) % b)
    }
}

/// Whether a number is the mantissa of some amount.
pub open spec fn is_mantissa(m: int) -> bool {
    -MAX_MANTISSA <= m <= MAX_MANTISSA
}

impl Dec {
    #[verifier::type_invariant]
    spec fn held(self) -> bool {
        is_mantissa(self.mantissa as int) && self.scale <= MAX_SCALE
    }

    /// The amount's digits, as a whole number.
    pub closed spec fn digits(self) -> int {
        self.mantissa as int
    }

    /// How many of the digits are decimal places.
    pub closed spec fn places(self) -> nat {
        self.scale as nat
    }

    /// The digits that the amount has with `places` decimal places.
    pub open spec fn aligned(self, places: nat) -> int {
        self.digits() * ten((places - self.places()) as nat)
    }

    /// Whether the amount is less than another.
    pub open spec fn below(self, other: Dec) -> bool {
        self.digits() * ten(other.places()) < other.digits() * ten(self.places())
    }

    /// Whether two amounts are the same amount, however many decimal places
    /// each is written with.
    pub open spec fn equals(self, other: Dec) -> bool {
        self.digits() * ten(other.places()) == other.digits() * ten(self.places())
    }

    /// Whether the amount is less than zero.
    pub open spec fn negative(self) -> bool {
        self.digits() < 0
    }

    /// Whether the amount is more than zero.
    pub open spec fn positive(self) -> bool {
        self.digits() > 0
    }

    /// The amount of this whole number.
    pub open spec fn is_whole(self, n: int) -> bool {
        self.digits() == n && self.places() == 0
    }

    /// The amount with these digits and decimal places, if there is one.
    pub fn new(mantissa: i128, scale: u32) -> (amount: Option<Dec>)
        ensures
            amount is Some == (is_mantissa(mantissa as int) && scale <= MAX_SCALE),
            amount is Some ==> amount->0.digits() == mantissa && amount->0.places() == scale,
    {
        if -MAX_MANTISSA <= mantissa && mantissa <= MAX_MANTISSA && scale <= MAX_SCALE {
            Some(Dec { mantissa, scale })
        } else {
            None
        }
    }

    /// A whole amount.
    pub closed spec fn of_whole(n: i64) -> Dec {
        Dec { mantissa: n as i128, scale: 0 }
    }

    /// A whole amount.
    pub fn whole(n: i64) -> (amount: Dec)
        ensures
            amount.is_whole(n as int),
            amount == Dec::of_whole(n),
    {
        Dec { mantissa: n as i128, scale: 0 }
    }

    /// One in the last of these decimal places.
    pub fn unit(places: u32) -> (amount: Dec)
        requires
            places <= MAX_SCALE,
        ensures
            amount.digits() == 1,
            amount.places() == places,
    {
        Dec { mantissa: 1, scale: places }
    }

    /// The amount's digits, as a whole number.
    pub fn mantissa(&self) -> (m: i128)
        ensures
            m == self.digits(),
    {
        self.mantissa
    }

    /// How many of the digits are decimal places.
    pub fn scale(&self) -> (s: u32)
        ensures
            s == self.places(),
            s <= MAX_SCALE,
    {
        proof {
            use_type_invariant(self);
        }
        self.scale
    }

    /// Whether the amount is less than zero.
    pub fn is_negative(&self) -> (answer: bool)
        ensures
            answer == self.negative(),
    {
        self.mantissa < 0
    }

    /// Whether the amount is more than zero.
    pub fn is_positive(&self) -> (answer: bool)
        ensures
            answer == self.positive(),
    {
        self.mantissa > 0
    }

    /// Whether the amount is less than another.
    pub fn is_below(&self, other: &Dec) -> (answer: bool)
        ensures
            answer == self.below(*other),
    {
        less(*self, *other)
    }

    /// Whether two amounts are the same amount.
    pub fn is_equal(&self, other: &Dec) -> (answer: bool)
        ensures
            answer == self.equals(*other),
    {
        !less(*self, *other) && !less(*other, *self)
    }
}

/// The last so many decimal digits of a number, zeros among them.
pub open spec fn last_digits(n: nat, count: nat) -> Seq<char>
    decreases count,
{
    if count == 0 {
        Seq::empty()
    } else {
        last_digits(n / 10, (count - 1) as nat).push(digit_char((n % 10) as int))
    }
}

/// An amount as it is written out: a minus sign in front of a negative one, the
/// whole part with no leading zero, and behind a point as many digits as the
/// amount has decimal places. Without decimal places there is no point.
#[verifier::opaque]
pub open spec fn written(amount: Dec) -> Seq<char> {
    let n = if amount.digits() < 0 {
        (-amount.digits()) as nat
    } else {
        amount.digits() as nat
    };
    let sign = if amount.digits() < 0 {
        seq!['-']
    } else {
        Seq::empty()
    };
    let whole = decimal(n / ten(amount.places()));
    if amount.places() == 0 {
        sign + whole
    } else {
        (sign + whole).push('.') + last_digits(n, amount.places())
    }
}

/// What one amount less another comes to, if an amount can hold it.
pub uninterp spec fn difference(a: Dec, b: Dec) -> Option<Dec>;

/// What two amounts come to, if an amount can hold it.
pub uninterp spec fn sum(a: Dec, b: Dec) -> Option<Dec>;

/// How often one amount goes into another, if an amount can hold it.
pub uninterp spec fn quotient(a: Dec, b: Dec) -> Option<Dec>;

/// What is left of one amount over another, if an amount can hold it.
pub uninterp spec fn remainder(a: Dec, b: Dec) -> Option<Dec>;

/// Whether two amounts, and a number of the same decimal places, fit an amount
/// with the places of the finer of the two.
pub open spec fn aligned_fit(a: Dec, b: Dec, m: int) -> bool {
    let places = finer(a, b);
    is_mantissa(a.aligned(places)) && is_mantissa(b.aligned(places)) && is_mantissa(m)
}

/// Whether 64 bits hold the digits of two amounts with the decimal places of the
/// finer of them.
pub open spec fn short_aligned(a: Dec, b: Dec) -> bool {
    &&& -0x1_0000_0000_0000_0000 < a.aligned(finer(a, b)) < 0x1_0000_0000_0000_0000
    &&& -0x1_0000_0000_0000_0000 < b.aligned(finer(a, b)) < 0x1_0000_0000_0000_0000
}

/// The decimal places of the finer of two amounts.
pub open spec fn finer(a: Dec, b: Dec) -> nat {
    if a.places() >= b.places() {
        a.places()
    } else {
        b.places()
    }
}

/// The order of `rust_decimal::Decimal`: by the amount, whatever the scales.
#[verifier::external_body]
fn less(a: Dec, b: Dec) -> (answer: bool)
    ensures
        answer == a.below(b),
{
    Decimal::from_i128_with_scale(a.mantissa, a.scale)
        < Decimal::from_i128_with_scale(b.mantissa, b.scale)
}

/// `rust_decimal::Decimal::checked_sub`. It depends on the two amounts alone.
/// Where both amounts and their difference fit the finer one's decimal places,
/// the difference is exact. It never has more decimal places than the finer one,
/// and less an amount that is not negative is never more, however it is rounded.
/// Not said is how a difference is rounded that needs more digits than an amount
/// has.
#[verifier::external_body]
pub(crate) fn subtract(a: Dec, b: Dec) -> (result: Option<Dec>)
    ensures
        result == difference(a, b),
        aligned_fit(a, b, a.aligned(finer(a, b)) - b.aligned(finer(a, b))) ==> result is Some
            && result->0.digits() * ten(finer(a, b)) == (a.aligned(finer(a, b)) - b.aligned(
            finer(a, b),
        )) * ten(result->0.places()),
        result is Some ==> result->0.places() <= finer(a, b),
        result is Some && !b.negative() ==> !a.below(result->0),
{
    let left = Decimal::from_i128_with_scale(a.mantissa, a.scale);
    let right = Decimal::from_i128_with_scale(b.mantissa, b.scale);
    let result = left.checked_sub(right)?;
    Some(Dec { mantissa: result.mantissa(), scale: result.scale() })
}

/// `rust_decimal::Decimal::checked_add`. It depends on the two amounts alone.
/// Where both amounts and their sum fit the finer one's decimal places, the sum
/// is exact. It never has more decimal places than the finer one. Not said is how
/// a sum is rounded that needs more digits than an amount has.
#[verifier::external_body]
pub(crate) fn add_up(a: Dec, b: Dec) -> (result: Option<Dec>)
    ensures
        result == sum(a, b),
        aligned_fit(a, b, a.aligned(finer(a, b)) + b.aligned(finer(a, b))) ==> result is Some
            && result->0.digits() * ten(finer(a, b)) == (a.aligned(finer(a, b)) + b.aligned(
            finer(a, b),
        )) * ten(result->0.places()),
        result is Some ==> result->0.places() <= finer(a, b),
{
    let left = Decimal::from_i128_with_scale(a.mantissa, a.scale);
    let right = Decimal::from_i128_with_scale(b.mantissa, b.scale);
    let result = left.checked_add(right)?;
    Some(Dec { mantissa: result.mantissa(), scale: result.scale() })
}

/// Whether a quotient comes out even: nine decimal places more than the digits
/// have are enough for it, and the digits of the amounts leave room for them.
pub open spec fn comes_out(a: Dec, b: Dec) -> bool {
    &&& b.digits() != 0
    &&& -0x1_0000_0000 < b.digits() < 0x1_0000_0000
    &&& -0x1_0000_0000_0000_0000 < a.digits() < 0x1_0000_0000_0000_0000
    &&& b.places() <= a.places() + 9
    &&& a.places() <= b.places() + 19
    &&& (a.digits() * 1_000_000_000) % b.digits() == 0
}

/// Whether an amount is exactly how often one amount goes into another.
pub open spec fn is_quotient(q: Dec, a: Dec, b: Dec) -> bool {
    q.digits() * (b.digits() * ten(a.places())) == (a.digits() * ten(b.places())) * ten(q.places())
}

/// `rust_decimal::Decimal::checked_div`. It depends on the two amounts alone,
/// and there is none by zero. A quotient that comes out even is exact. By one in
/// some decimal place it is exact too, and there is none only where the divisor
/// has more decimal places and the amount has no room for them. Not said is how
/// another quotient is rounded.
#[verifier::external_body]
pub(crate) fn divide(a: Dec, b: Dec) -> (result: Option<Dec>)
    ensures
        result == quotient(a, b),
        b.digits() == 0 ==> result is None,
        comes_out(a, b) ==> result is Some && is_quotient(result->0, a, b),
        b.digits() == 1 ==> result is Some == (a.places() >= b.places() || is_mantissa(
            a.aligned(b.places()),
        )),
        b.digits() == 1 && result is Some ==> is_quotient(result->0, a, b),
{
    let left = Decimal::from_i128_with_scale(a.mantissa, a.scale);
    let right = Decimal::from_i128_with_scale(b.mantissa, b.scale);
    let result = left.checked_div(right)?;
    Some(Dec { mantissa: result.mantissa(), scale: result.scale() })
}

/// `rust_decimal::Decimal::checked_rem`. It depends on the two amounts alone,
/// and there is none by zero. Of two amounts with the same decimal places it is
/// what is left of the first one's digits over the second one's, with the sign
/// of the first, and so it is of two that 64 bits hold with the decimal places
/// of the finer. Not said is what comes of other amounts.
#[verifier::external_body]
pub(crate) fn take_remainder(a: Dec, b: Dec) -> (result: Option<Dec>)
    ensures
        result == remainder(a, b),
        b.digits() == 0 ==> result is None,
        b.digits() != 0 && a.places() == b.places() ==> result is Some && result->0.digits() * ten(
            a.places(),
        ) == left_over(a.digits(), b.digits()) * ten(result->0.places()),
        b.digits() != 0 && short_aligned(a, b) ==> result is Some && result->0.digits() * ten(
            finer(a, b),
        ) == left_over(a.aligned(finer(a, b)), b.aligned(finer(a, b))) * ten(result->0.places()),
{
    let left = Decimal::from_i128_with_scale(a.mantissa, a.scale);
    let right = Decimal::from_i128_with_scale(b.mantissa, b.scale);
    let result = left.checked_rem(right)?;
    Some(Dec { mantissa: result.mantissa(), scale: result.scale() })
}

/// `rust_decimal::Decimal::fract`: what is left of the digits over a whole one,
/// with the amount's sign.
#[verifier::external_body]
pub(crate) fn fraction(a: Dec) -> (result: Dec)
    ensures
        result.digits() * ten(a.places()) == left_over(a.digits(), ten(a.places()) as int) * ten(
            result.places(),
        ),
{
    let result = Decimal::from_i128_with_scale(a.mantissa, a.scale).fract();
    Dec { mantissa: result.mantissa(), scale: result.scale() }
}

/// `rust_decimal::Decimal::normalize`: the same amount without zeros at the end
/// of its decimal places.
#[verifier::external_body]
pub(crate) fn normalize(a: Dec) -> (result: Dec)
    ensures
        result.equals(a),
        result.places() <= a.places(),
        result.places() > 0 ==> result.digits() % 10 != 0,
{
    let result = Decimal::from_i128_with_scale(a.mantissa, a.scale).normalize();
    Dec { mantissa: result.mantissa(), scale: result.scale() }
}

/// The whole number nearest to a quotient; of two that are as near, the even
/// one.
pub open spec fn half_even(n: nat, d: nat) -> nat {
    let whole = n / d;
    let rest = n % d;
    if 2 * rest > d || (2 * rest == d && whole % 2 == 1) {
        whole + 1
    } else {
        whole
    }
}

/// The whole number nearest to an amount, by its digits.
pub open spec fn nearest_whole(a: Dec) -> int {
    if a.digits() >= 0 {
        half_even(a.digits() as nat, ten(a.places())) as int
    } else {
        -(half_even((-a.digits()) as nat, ten(a.places())) as int)
    }
}

/// `rust_decimal::Decimal::round`: the nearest whole amount, and the even one of
/// two that are as near.
#[verifier::external_body]
pub(crate) fn round_off(a: Dec) -> (result: Dec)
    ensures
        result.places() == 0,
        result.digits() == nearest_whole(a),
{
    let result = Decimal::from_i128_with_scale(a.mantissa, a.scale).round();
    Dec { mantissa: result.mantissa(), scale: result.scale() }
}

/// Whether an amount is another without zeros at the end of its decimal places.
pub open spec fn is_shortest(short: Dec, a: Dec) -> bool {
    &&& short.equals(a)
    &&& short.places() <= a.places()
    &&& short.places() > 0 ==> short.digits() % 10 != 0
}

/// An amount without zeros at the end of its decimal places.
pub open spec fn shortest(a: Dec) -> Dec {
    choose|short: Dec| is_shortest(short, a)
}

proof fn cross_multiplied(one: int, other: int, a: int, p: int, q: int, r: int)
    requires
        one * r == a * p,
        other * r == a * q,
        r > 0,
    ensures
        one * q == other * p,
{
    assert((one * q) * r == (other * p) * r) by (nonlinear_arith)
        requires
            one * r == a * p,
            other * r == a * q,
    ;
    assert(one * q == other * p) by (nonlinear_arith)
        requires
            (one * q) * r == (other * p) * r,
            r > 0,
    ;
}

proof fn shortest_has_no_more_places(short: Dec, other: Dec, a: Dec)
    requires
        is_shortest(short, a),
        is_shortest(other, a),
    ensures
        other.places() <= short.places(),
{
    let p = short.places();
    let q = other.places();
    let r = a.places();
    if p < q {
        let more = (q - p) as nat;
        ten_adds_up(p, more);
        ten_is_positive(r);
        ten_is_positive(p);
        cross_multiplied(
            short.digits(),
            other.digits(),
            a.digits(),
            ten(p) as int,
            ten(q) as int,
            ten(r) as int,
        );
        let scaled = short.digits() * ten(more);
        assert(other.digits() == scaled) by (nonlinear_arith)
            requires
                short.digits() * ten(q) == other.digits() * ten(p),
                ten(q) == ten(p) * ten(more),
                scaled == short.digits() * ten(more),
                ten(p) > 0,
        ;
        let tenth = short.digits() * ten((more - 1) as nat);
        assert(scaled == 10 * tenth) by (nonlinear_arith)
            requires
                scaled == short.digits() * ten(more),
                ten(more) == 10 * ten((more - 1) as nat),
                tenth == short.digits() * ten((more - 1) as nat),
        ;
    }
}

proof fn shortest_is_found(short: Dec, a: Dec)
    requires
        is_shortest(short, a),
    ensures
        shortest(a) == short,
{
    let other = shortest(a);
    assert(is_shortest(other, a));
    shortest_has_no_more_places(short, other, a);
    shortest_has_no_more_places(other, short, a);
    ten_is_positive(a.places());
    assert(short.digits() == other.digits()) by (nonlinear_arith)
        requires
            short.digits() * ten(a.places()) == other.digits() * ten(a.places()),
            ten(a.places()) > 0,
    ;
}

/// An amount written out without zeros at the end of its decimal places: equal
/// amounts are written alike.
pub fn decimal_key(a: Dec) -> (key: String)
    ensures
        key@ == written(shortest(a)),
{
    let short = normalize(a);
    proof {
        shortest_is_found(short, a);
    }
    write_out(short)
}

/// `rust_decimal::Decimal` written out by its `Display`: the sign, the whole part
/// and all of its decimal places.
#[verifier::external_body]
pub(crate) fn write_out(a: Dec) -> (text: String)
    ensures
        text@ == written(a),
{
    Decimal::from_i128_with_scale(a.mantissa, a.scale).to_string()
}

/// Ten to a power is never zero.
pub proof fn ten_is_positive(n: nat)
    ensures
        ten(n) > 0,
    decreases n,
{
    if n > 0 {
        ten_is_positive((n - 1) as nat);
    }
}

/// A power of ten is the product of its parts.
pub proof fn ten_adds_up(a: nat, b: nat)
    ensures
        ten(a + b) == ten(a) * ten(b),
    decreases a,
{
    if a > 0 {
        ten_adds_up((a - 1) as nat, b);
        let rest = ten((a - 1) as nat) as int;
        let other = ten(b) as int;
        assert(10 * (rest * other) == (10 * rest) * other) by (nonlinear_arith);
    } else {
        assert(1 * ten(b) == ten(b));
    }
}

/// Two amounts are in one order, and in only one: the first is less, the two
/// are the same, or the second is less.
pub proof fn amounts_are_ordered(a: Dec, b: Dec)
    ensures
        a.below(b) || a.equals(b) || b.below(a),
        a.below(b) ==> !a.equals(b) && !b.below(a),
        a.equals(b) ==> !b.below(a),
{
}

/// An amount that is less than another is less than all that are no less than
/// that other.
pub proof fn order_is_transitive(a: Dec, b: Dec, c: Dec)
    requires
        !b.below(a),
        !c.below(b),
    ensures
        !c.below(a),
        a.below(b) || b.below(c) ==> a.below(c),
{
    let (am, bm, cm) = (a.digits(), b.digits(), c.digits());
    let (at, bt, ct) = (ten(a.places()) as int, ten(b.places()) as int, ten(c.places()) as int);
    ten_is_positive(a.places());
    ten_is_positive(b.places());
    ten_is_positive(c.places());
    assert(am * bt <= bm * at);
    assert(bm * ct <= cm * bt);
    assert(am * ct <= cm * at && ((am * bt < bm * at || bm * ct < cm * bt) ==> am * ct < cm * at))
        by (nonlinear_arith)
        requires
            at > 0,
            bt > 0,
            ct > 0,
            am * bt <= bm * at,
            bm * ct <= cm * bt,
    {
        assert((am * bt) * ct <= (bm * at) * ct);
        assert((bm * ct) * at <= (cm * bt) * at);
        assert((am * bt) * ct == (am * ct) * bt);
        assert((bm * at) * ct == (bm * ct) * at);
        assert((cm * bt) * at == (cm * at) * bt);
    }
}

/// Whether an amount is a whole number in the last of these decimal places.
pub open spec fn comes_to(d: Dec, n: int, places: nat) -> bool {
    d.digits() * ten(places) == n * ten(d.places())
}

/// With more decimal places the number is as many times larger.
pub proof fn more_places(d: Dec, n: int, few: nat, places: nat)
    requires
        few <= places,
        comes_to(d, n, few),
    ensures
        comes_to(d, n * ten((places - few) as nat), places),
{
    let more = ten((places - few) as nat) as int;
    ten_adds_up(few, (places - few) as nat);
    let (dd, tf, td) = (d.digits(), ten(few) as int, ten(d.places()) as int);
    assert(dd * (tf * more) == (n * more) * td) by (nonlinear_arith)
        requires
            dd * tf == n * td,
    ;
}

/// An amount's digits with enough decimal places are the number that it comes
/// to.
pub proof fn digits_with_places(d: Dec, n: int, places: nat)
    requires
        d.places() <= places,
        comes_to(d, n, places),
    ensures
        d.aligned(places) == n,
{
    let more = ten((places - d.places()) as nat) as int;
    ten_adds_up(d.places(), (places - d.places()) as nat);
    ten_is_positive(d.places());
    let (dd, td) = (d.digits(), ten(d.places()) as int);
    assert(dd * more == n) by (nonlinear_arith)
        requires
            dd * (td * more) == n * td,
            td > 0,
    ;
}

/// With more decimal places the digits are as many times larger, and where they
/// fit an amount, the fewer do.
pub proof fn aligned_further(d: Dec, few: nat, places: nat)
    requires
        d.places() <= few <= places,
    ensures
        d.aligned(places) == d.aligned(few) * ten((places - few) as nat),
{
    ten_adds_up((few - d.places()) as nat, (places - few) as nat);
    let (dd, a, b) = (
        d.digits(),
        ten((few - d.places()) as nat) as int,
        ten((places - few) as nat) as int,
    );
    assert(dd * (a * b) == (dd * a) * b) by (nonlinear_arith);
}

/// A number that fits an amount with zeros at its end fits it without them.
pub proof fn fewer_digits_fit(n: int, more: nat)
    requires
        is_mantissa(n * ten(more)),
    ensures
        is_mantissa(n),
{
    ten_is_positive(more);
    let t = ten(more) as int;
    assert(-MAX_MANTISSA <= n <= MAX_MANTISSA) by (nonlinear_arith)
        requires
            t >= 1,
            -MAX_MANTISSA <= n * t <= MAX_MANTISSA,
            MAX_MANTISSA == 79_228_162_514_264_337_593_543_950_335,
    ;
}

/// Whether two amounts and a number fit an amount with these decimal places.
pub open spec fn fit_at(a: Dec, b: Dec, m: int, places: nat) -> bool {
    &&& a.places() <= places
    &&& b.places() <= places
    &&& is_mantissa(a.aligned(places))
    &&& is_mantissa(b.aligned(places))
    &&& is_mantissa(m)
}

/// Two amounts that fit with some decimal places fit with those of the finer of
/// them, and so does what they make together.
pub proof fn fit_with_fewer(a: Dec, b: Dec, sign: int, places: nat)
    requires
        sign == 1 || sign == -1,
        fit_at(a, b, a.aligned(places) + sign * b.aligned(places), places),
    ensures
        aligned_fit(a, b, a.aligned(finer(a, b)) + sign * b.aligned(finer(a, b))),
        (a.aligned(finer(a, b)) + sign * b.aligned(finer(a, b))) * ten(
            (places - finer(a, b)) as nat,
        ) == a.aligned(places) + sign * b.aligned(places),
{
    let f = finer(a, b);
    let more = (places - f) as nat;
    aligned_further(a, f, places);
    aligned_further(b, f, places);
    let (x, y, t) = (a.aligned(f), b.aligned(f), ten(more) as int);
    assert((x + sign * y) * t == x * t + sign * (y * t)) by (nonlinear_arith);
    fewer_digits_fit(x, more);
    fewer_digits_fit(y, more);
    fewer_digits_fit(x + sign * y, more);
}

/// What one amount less another comes to with some decimal places, where all of
/// it fits.
pub(crate) fn less_by(a: Dec, b: Dec, Ghost(places): Ghost<nat>) -> (result: Option<Dec>)
    ensures
        result == difference(a, b),
        result is Some ==> result->0.places() <= finer(a, b),
        result is Some && !b.negative() ==> !a.below(result->0),
        fit_at(a, b, a.aligned(places) - b.aligned(places), places) ==> result is Some && comes_to(
            result->0,
            a.aligned(places) - b.aligned(places),
            places,
        ),
{
    let result = subtract(a, b);
    proof {
        if fit_at(a, b, a.aligned(places) - b.aligned(places), places) {
            assert(a.aligned(places) + -1 * b.aligned(places) == a.aligned(places) - b.aligned(
                places,
            ));
            fit_with_fewer(a, b, -1, places);
            let f = finer(a, b);
            assert(a.aligned(f) + -1 * b.aligned(f) == a.aligned(f) - b.aligned(f));
            more_places(result->0, a.aligned(f) - b.aligned(f), f, places);
        }
    }
    result
}

/// Rounding a quotient does not depend on how far it is reduced.
pub proof fn rounding_is_of_the_quotient(n: nat, d: nat, m: nat, e: nat)
    requires
        d > 0,
        e > 0,
        n * e == m * d,
    ensures
        half_even(n, d) == half_even(m, e),
{
    scaled_alike(n as int, d as int, e as int);
    scaled_alike(m as int, e as int, d as int);
    let (w, r) = (n as int / d as int, n as int % d as int);
    let (v, s) = (m as int / e as int, m as int % e as int);
    assert(n * e == m * d);
    assert(d * e == e * d) by (nonlinear_arith);
    assert(w == v);
    assert(r * e == s * d);
    let (di, ei) = (d as int, e as int);
    assert((2 * r > di) == (2 * s > ei) && (2 * r == di) == (2 * s == ei)) by (nonlinear_arith)
        requires
            r * ei == s * di,
            di > 0,
            ei > 0,
    {
        assert((2 * r) * ei == (2 * s) * di);
        if 2 * r > di {
            assert((2 * r) * ei > di * ei);
            assert((2 * s) * di > ei * di);
            assert(2 * s > ei);
        }
        if 2 * s > ei {
            assert((2 * s) * di > ei * di);
            assert((2 * r) * ei > di * ei);
            assert(2 * r > di);
        }
        if 2 * r == di {
            assert((2 * s) * di == ei * di);
            assert(2 * s == ei);
        }
        if 2 * s == ei {
            assert((2 * r) * ei == di * ei);
            assert(2 * r == di);
        }
    }
}

proof fn scaled_alike(n: int, d: int, k: int)
    requires
        n >= 0,
        d > 0,
        k > 0,
    ensures
        (n * k) / (d * k) == n / d,
        (n * k) % (d * k) == (n % d) * k,
{
    let (w, r) = (n / d, n % d);
    vstd::arithmetic::div_mod::lemma_fundamental_div_mod(n, d);
    assert(n * k == w * (d * k) + r * k && 0 <= r * k < d * k) by (nonlinear_arith)
        requires
            n == d * w + r,
            0 <= r < d,
            k > 0,
    ;
    vstd::arithmetic::div_mod::lemma_fundamental_div_mod_converse(n * k, d * k, w, r * k);
}

/// The whole number that a quotient is rounded to is no further from it than half,
/// and an even one where two are as near.
pub proof fn no_whole_number_is_nearer(n: nat, d: nat)
    requires
        d > 0,
    ensures
        -(d as int) <= 2 * (half_even(n, d) * d - n) <= d,
        2 * (half_even(n, d) * d - n) == d ==> half_even(n, d) % 2 == 0,
        2 * (half_even(n, d) * d - n) == -(d as int) ==> half_even(n, d) % 2 == 0,
{
    let whole = n / d;
    vstd::arithmetic::div_mod::lemma_fundamental_div_mod(n as int, d as int);
    assert(d * whole == whole * d) by (nonlinear_arith);
    assert((whole + 1) * d == whole * d + d) by (nonlinear_arith);
}

proof fn the_last_digits(n: nat, count: nat, k: nat)
    requires
        k < count,
    ensures
        last_digits(n, count).len() == count,
        last_digits(n, count)[count - 1 - k] == digit_char((n / ten(k) % 10) as int),
    decreases count,
{
    let fewer = (count - 1) as nat;
    if fewer > 0 {
        the_last_digits(n / 10, fewer, 0);
    } else {
        assert(last_digits(n / 10, 0).len() == 0);
    }
    if k > 0 {
        let less = (k - 1) as nat;
        the_last_digits(n / 10, fewer, less);
        ten_is_positive(less);
        vstd::arithmetic::div_mod::lemma_div_denominator(n as int, 10, ten(less) as int);
        assert(ten(k) == 10 * ten(less));
    } else {
        assert(ten(0) == 1);
        assert(n / 1 == n);
    }
}

/// An amount is written as its whole part and, behind a point, as many digits as
/// it has decimal places, each in its place; below zero with a minus sign in front.
pub proof fn an_amount_is_written_with_its_places(amount: Dec, k: nat)
    requires
        k < amount.places(),
    ensures
        ({
            let n: nat = if amount.digits() < 0 {
                (-amount.digits()) as nat
            } else {
                amount.digits() as nat
            };
            let text = written(amount);
            let point = text.len() - amount.places() - 1;
            &&& point > 0
            &&& text[point] == '.'
            &&& text[text.len() - 1 - k] == digit_char((n / ten(k) % 10) as int)
            &&& amount.digits() >= 0 ==> text.take(point) == decimal(n / ten(amount.places()))
            &&& amount.digits() < 0 ==> text.take(point) == seq!['-'] + decimal(
                n / ten(amount.places()),
            )
        }),
{
    reveal(written);
    let n: nat = if amount.digits() < 0 {
        (-amount.digits()) as nat
    } else {
        amount.digits() as nat
    };
    let text = written(amount);
    let places = amount.places();
    let point = text.len() - places - 1;
    the_last_digits(n, places, k);
    let whole = decimal(n / ten(places));
    let front = if amount.digits() < 0 {
        seq!['-'] + whole
    } else {
        whole
    };
    a_number_is_written_by_its_digits(n / ten(places));
    assert(text =~= front.push('.') + last_digits(n, places));
    assert(text.take(point) =~= front);
}

/// An amount without decimal places is written as a whole number, with no point.
pub proof fn a_whole_amount_is_written_whole(amount: Dec)
    requires
        amount.places() == 0,
    ensures
        amount.digits() >= 0 ==> written(amount) == decimal(amount.digits() as nat),
        amount.digits() < 0 ==> written(amount) == seq!['-'] + decimal((-amount.digits()) as nat),
{
    reveal(written);
    assert(ten(0) == 1);
    let n: nat = if amount.digits() < 0 {
        (-amount.digits()) as nat
    } else {
        amount.digits() as nat
    };
    assert(n / 1 == n);
    assert(Seq::<char>::empty() + decimal(n) =~= decimal(n));
}

} // verus!
