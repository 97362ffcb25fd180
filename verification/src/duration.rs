//! Spans of time as an operator writes them, and as the venue counts them.

use vstd::prelude::*;

use crate::text::ascii_digit;
use crate::text::chars_of;
use crate::text::decimal;
use crate::text::digit_char;
use crate::text::quote;
use crate::text::quoted;
use crate::text::same_text;

verus! {

pub const NS_PER_S: u64 = 1_000_000_000;

pub const NS_PER_M: u64 = 60_000_000_000;

pub const NS_PER_H: u64 = 3_600_000_000_000;

pub const NS_PER_D: u64 = 86_400_000_000_000;

pub const NS_PER_W: u64 = 604_800_000_000_000;

pub const NS_PER_MO: u64 = 2_592_000_000_000_000;

pub const NS_PER_Y: u64 = 31_536_000_000_000_000;

pub const NS_PER_MS: u64 = 1_000_000;

/// Why a text is no duration.
#[derive(Debug)]
pub enum DurationError {
    /// It does not start with a digit.
    NoCount,
    /// Nothing follows the digits.
    NoUnit,
    /// The digits are no 64-bit number.
    InvalidCount,
    /// The digits are zero.
    ZeroCount,
    /// What follows the digits is no unit.
    UnknownUnit { unit: String },
    /// The span does not fit in 64 bits of nanoseconds.
    Overflow,
}

/// How many digits `s` starts with.
pub open spec fn leading_digits(s: Seq<char>) -> nat
    decreases s.len(),
{
    if s.len() > 0 && ascii_digit(s[0]) {
        1 + leading_digits(s.skip(1))
    } else {
        0
    }
}

/// The number that a row of digits writes in decimal.
pub open spec fn digits_value(s: Seq<char>) -> nat
    decreases s.len(),
{
    if s.len() == 0 {
        0
    } else {
        digits_value(s.drop_last()) * 10 + (s.last() as int - '0' as int) as nat
    }
}

/// The nanoseconds in one of a unit. A month is 30 days and a year 365.
pub open spec fn unit_ns(unit: Seq<char>) -> Option<u64> {
    if unit == "s"@ {
        Some(NS_PER_S)
    } else if unit == "m"@ {
        Some(NS_PER_M)
    } else if unit == "h"@ {
        Some(NS_PER_H)
    } else if unit == "d"@ {
        Some(NS_PER_D)
    } else if unit == "w"@ {
        Some(NS_PER_W)
    } else if unit == "mo"@ {
        Some(NS_PER_MO)
    } else if unit == "y"@ {
        Some(NS_PER_Y)
    } else {
        None
    }
}

/// The count that a duration starts with.
pub open spec fn count_part(s: Seq<char>) -> Seq<char> {
    s.take(leading_digits(s) as int)
}

/// The unit that follows the count.
pub open spec fn unit_part(s: Seq<char>) -> Seq<char> {
    s.skip(leading_digits(s) as int)
}

/// The nanoseconds of one unit.
pub fn unit_of(unit: &str) -> (ns: Option<u64>)
    ensures
        ns == unit_ns(unit@),
{
    if same_text(unit, "s") {
        Some(NS_PER_S)
    } else if same_text(unit, "m") {
        Some(NS_PER_M)
    } else if same_text(unit, "h") {
        Some(NS_PER_H)
    } else if same_text(unit, "d") {
        Some(NS_PER_D)
    } else if same_text(unit, "w") {
        Some(NS_PER_W)
    } else if same_text(unit, "mo") {
        Some(NS_PER_MO)
    } else if same_text(unit, "y") {
        Some(NS_PER_Y)
    } else {
        None
    }
}

/// The number that the first `to` of these characters write, if 64 bits hold it.
fn number_of(chars: &Vec<char>, to: usize) -> (count: Option<u64>)
    requires
        to <= chars.len(),
        forall|i: int| 0 <= i < to ==> ascii_digit(#[trigger] chars[i]),
    ensures
        count == (if digits_value(chars@.take(to as int)) <= u64::MAX {
            Some(digits_value(chars@.take(to as int)) as u64)
        } else {
            None
        }),
{
    let mut count: Option<u64> = Some(0);
    let mut i: usize = 0;
    while i < to
        invariant
            i <= to <= chars.len(),
            forall|i: int| 0 <= i < to ==> ascii_digit(#[trigger] chars[i]),
            count == (if digits_value(chars@.take(i as int)) <= u64::MAX {
                Some(digits_value(chars@.take(i as int)) as u64)
            } else {
                None
            }),
        decreases to - i,
    {
        assert(chars@.take(i + 1).drop_last() =~= chars@.take(i as int));
        let digit: u64 = (chars[i] as u32 - '0' as u32) as u64;
        count = match count {
            Some(so_far) => match so_far.checked_mul(10) {
                Some(tens) => tens.checked_add(digit),
                None => None,
            },
            None => None,
        };
        i += 1;
    }
    count
}

/// The nanoseconds of a duration, where it is one.
pub open spec fn duration_of(s: Seq<char>) -> Option<u64> {
    let count = digits_value(count_part(s));
    let unit = unit_ns(unit_part(s));
    if count_part(s).len() > 0 && unit_part(s).len() > 0 && 0 < count <= u64::MAX && unit is Some
        && count * unit->0 <= u64::MAX {
        Some((count * unit->0) as u64)
    } else {
        None
    }
}

/// Whether a duration is read as it is to be, or refused for what is wrong with
/// it.
pub open spec fn is_read(s: Seq<char>, parsed: Result<u64, DurationError>) -> bool {
    match parsed {
        Ok(ns) => {
            &&& count_part(s).len() > 0
            &&& 0 < digits_value(count_part(s)) <= u64::MAX
            &&& unit_ns(unit_part(s)) is Some
            &&& ns == digits_value(count_part(s)) * unit_ns(unit_part(s))->0
        },
        Err(DurationError::NoCount) => count_part(s).len() == 0,
        Err(DurationError::NoUnit) => count_part(s).len() > 0 && unit_part(s).len() == 0,
        Err(DurationError::InvalidCount) => count_part(s).len() > 0 && unit_part(s).len() > 0
            && digits_value(count_part(s)) > u64::MAX,
        Err(DurationError::ZeroCount) => count_part(s).len() > 0 && unit_part(s).len() > 0
            && digits_value(count_part(s)) == 0,
        Err(DurationError::UnknownUnit { unit }) => count_part(s).len() > 0 && unit_part(
            s,
        ).len() > 0 && 0 < digits_value(count_part(s)) <= u64::MAX && unit_ns(unit_part(s))
            is None && unit@ == unit_part(s),
        Err(DurationError::Overflow) => count_part(s).len() > 0 && 0 < digits_value(
            count_part(s),
        ) <= u64::MAX && unit_ns(unit_part(s)) is Some && digits_value(count_part(s))
            * unit_ns(unit_part(s))->0 > u64::MAX,
    }
}

/// The nanoseconds of a duration such as `12h` or `3mo`: a count of at least
/// one and a unit, with nothing between them.
pub fn parse_duration(s: &str) -> (parsed: Result<u64, DurationError>)
    ensures
        is_read(s@, parsed),
        parsed is Ok == duration_of(s@) is Some,
        parsed is Ok ==> parsed->Ok_0 == duration_of(s@)->0 && parsed->Ok_0 > 0,
{
    let chars = chars_of(s);
    let mut digits: usize = 0;
    assert(chars@.skip(0) =~= chars@);
    while digits < chars.len() && '0' <= chars[digits] && chars[digits] <= '9'
        invariant
            digits <= chars.len(),
            leading_digits(chars@) == digits + leading_digits(chars@.skip(digits as int)),
            forall|i: int| 0 <= i < digits ==> ascii_digit(#[trigger] chars[i]),
        decreases chars.len() - digits,
    {
        assert(chars@.skip(digits as int).skip(1) =~= chars@.skip(digits + 1));
        digits += 1;
    }
    assert(leading_digits(s@) == digits);
    if digits == 0 {
        return Err(DurationError::NoCount);
    }
    if digits == chars.len() {
        return Err(DurationError::NoUnit);
    }
    let unit = s.substring_char(digits, chars.len());
    assert(unit@ =~= unit_part(s@));
    let count: u64 = match number_of(&chars, digits) {
        Some(count) => count,
        None => {
            return Err(DurationError::InvalidCount);
        },
    };
    if count == 0 {
        return Err(DurationError::ZeroCount);
    }
    let per_unit: u64 = match unit_of(unit) {
        Some(per_unit) => per_unit,
        None => {
            return Err(DurationError::UnknownUnit { unit: unit.to_owned() });
        },
    };
    proof {
        reveal_strlit("s");
        reveal_strlit("m");
        reveal_strlit("h");
        reveal_strlit("d");
        reveal_strlit("w");
        reveal_strlit("mo");
        reveal_strlit("y");
    }
    match count.checked_mul(per_unit) {
        Some(ns) => Ok(ns),
        None => Err(DurationError::Overflow),
    }
}

impl DurationError {
    /// What the refusal of the duration `s` says.
    pub open spec fn text(self, s: Seq<char>) -> Seq<char> {
        "duration "@ + quoted(s) + match self {
            DurationError::NoCount => " has no leading digit count"@,
            DurationError::NoUnit => " has no unit"@,
            DurationError::InvalidCount => " has an invalid count"@,
            DurationError::ZeroCount => " must be at least 1"@,
            DurationError::UnknownUnit { unit } => " has unknown unit "@ + quoted(unit@),
            DurationError::Overflow => " overflows u64 nanoseconds"@,
        }
    }

    /// What the refusal of the duration `s` says.
    pub fn message(&self, s: &str) -> (message: String)
        ensures
            message@ == self.text(s@),
    {
        let mut message = "duration ".to_owned();
        message.append(quote(s).as_str());
        match self {
            DurationError::NoCount => message.append(" has no leading digit count"),
            DurationError::NoUnit => message.append(" has no unit"),
            DurationError::InvalidCount => message.append(" has an invalid count"),
            DurationError::ZeroCount => message.append(" must be at least 1"),
            DurationError::UnknownUnit { unit } => {
                message.append(" has unknown unit ");
                message.append(quote(unit.as_str()).as_str());
                assert(message@ =~= self.text(s@));
            },
            DurationError::Overflow => message.append(" overflows u64 nanoseconds"),
        }
        message
    }
}

/// A span of simulated milliseconds in nanoseconds, at most what 64 bits hold.
pub open spec fn millis_ns(ms: u64) -> u64 {
    if ms * NS_PER_MS <= u64::MAX {
        (ms * NS_PER_MS) as u64
    } else {
        u64::MAX
    }
}

/// The sum of two nanosecond counts, at most what 64 bits hold.
pub open spec fn later(from: u64, span: u64) -> u64 {
    if from + span <= u64::MAX {
        (from + span) as u64
    } else {
        u64::MAX
    }
}

/// The difference of two nanosecond counts, and zero where it would be negative.
pub open spec fn span_since(now: u64, then: u64) -> u64 {
    if now >= then {
        (now - then) as u64
    } else {
        0
    }
}

/// A span of simulated milliseconds in nanoseconds.
pub fn sim_duration_from_millis(ms: u64) -> (ns: u64)
    ensures
        ns == millis_ns(ms),
{
    match ms.checked_mul(NS_PER_MS) {
        Some(ns) => ns,
        None => u64::MAX,
    }
}

/// The instant at which a window of `ms` milliseconds that opens `now` closes.
pub fn window_until_ns(now: u64, ms: u64) -> (until: u64)
    ensures
        until == later(now, millis_ns(ms)),
{
    now.saturating_add(sim_duration_from_millis(ms))
}

/// A window that opens later, or lasts longer, closes no earlier.
pub proof fn windows_close_in_order(now: u64, ms: u64, later_now: u64, longer_ms: u64)
    requires
        now <= later_now,
        ms <= longer_ms,
    ensures
        later(now, millis_ns(ms)) <= later(later_now, millis_ns(longer_ms)),
{
}

/// A window closes its whole length after it opens, as far as 64 bits of
/// nanoseconds can tell it, and at their end where they cannot.
pub proof fn a_window_lasts_its_length(now: u64, ms: u64)
    ensures
        now + ms * 1_000_000 <= u64::MAX ==> later(now, millis_ns(ms)) == now + ms * 1_000_000,
        now + ms * 1_000_000 > u64::MAX ==> later(now, millis_ns(ms)) == u64::MAX,
{
}

/// What has passed since an instant, and that instant, make now; nothing has
/// passed since one that is still to come.
pub proof fn what_has_passed_leads_to_now(now: u64, then: u64)
    ensures
        then <= now ==> then + span_since(now, then) == now,
        then > now ==> span_since(now, then) == 0,
        then <= now ==> later(then, span_since(now, then)) == now,
{
}

/// The units are those of the clock: sixty seconds to the minute, sixty minutes
/// to the hour, twenty-four hours to the day, seven days to the week, thirty days
/// to the month and three hundred and sixty-five to the year.
pub proof fn units_are_those_of_the_clock()
    ensures
        unit_ns("s"@) == Some(1_000_000_000u64),
        unit_ns("m"@)->0 == 60 * unit_ns("s"@)->0,
        unit_ns("h"@)->0 == 60 * unit_ns("m"@)->0,
        unit_ns("d"@)->0 == 24 * unit_ns("h"@)->0,
        unit_ns("w"@)->0 == 7 * unit_ns("d"@)->0,
        unit_ns("mo"@)->0 == 30 * unit_ns("d"@)->0,
        unit_ns("y"@)->0 == 365 * unit_ns("d"@)->0,
{
    reveal_strlit("s");
    reveal_strlit("m");
    reveal_strlit("h");
    reveal_strlit("d");
    reveal_strlit("w");
    reveal_strlit("mo");
    reveal_strlit("y");
    assert("s"@[0] == 's' && "m"@[0] == 'm' && "h"@[0] == 'h' && "d"@[0] == 'd' && "w"@[0] == 'w'
        && "mo"@[0] == 'm' && "y"@[0] == 'y');
    assert("s"@ != "m"@ && "s"@ != "h"@ && "s"@ != "d"@ && "s"@ != "w"@ && "s"@ != "y"@);
    assert("m"@ != "h"@ && "m"@ != "d"@ && "m"@ != "w"@ && "m"@ != "y"@);
    assert("mo"@.len() == 2 && "m"@.len() == 1 && "s"@.len() == 1 && "h"@.len() == 1 && "d"@.len() == 1
        && "w"@.len() == 1);
    assert("h"@ != "d"@ && "h"@ != "w"@ && "h"@ != "y"@ && "d"@ != "w"@ && "d"@ != "y"@ && "w"@
        != "y"@);
}

proof fn decimal_is_digits(n: nat)
    ensures
        decimal(n).len() > 0,
        forall|i: int| 0 <= i < decimal(n).len() ==> ascii_digit(#[trigger] decimal(n)[i]),
        digits_value(decimal(n)) == n,
    decreases n,
{
    assert(forall|d: int| 0 <= d < 10 ==> ascii_digit(#[trigger] digit_char(d)) && digit_char(d) as int
        - '0' as int == d);
    if n < 10 {
        assert(decimal(n).drop_last() =~= Seq::<char>::empty());
        assert(digits_value(decimal(n).drop_last()) == 0);
        assert(decimal(n).last() == digit_char(n as int));
    } else {
        decimal_is_digits(n / 10);
        assert(decimal(n).drop_last() =~= decimal(n / 10));
        assert(decimal(n).last() == digit_char((n % 10) as int));
    }
}

proof fn digits_lead(digits: Seq<char>, rest: Seq<char>)
    requires
        forall|i: int| 0 <= i < digits.len() ==> ascii_digit(#[trigger] digits[i]),
        rest.len() > 0 ==> !ascii_digit(rest[0]),
    ensures
        leading_digits(digits + rest) == digits.len(),
    decreases digits.len(),
{
    let all = digits + rest;
    if digits.len() == 0 {
        assert(all =~= rest);
    } else {
        assert(all[0] == digits[0]);
        assert(all.skip(1) =~= digits.skip(1) + rest);
        digits_lead(digits.skip(1), rest);
    }
}

/// A count of units is so many of that unit, whatever the count, where 64 bits of
/// nanoseconds hold it: what is written is what is read. Nothing is no duration,
/// and neither is what they do not hold.
pub proof fn a_count_of_units_is_read(n: nat, unit: Seq<char>)
    requires
        unit_ns(unit) is Some,
    ensures
        0 < n && n * unit_ns(unit)->0 <= u64::MAX ==> duration_of(decimal(n) + unit) == Some(
            (n * unit_ns(unit)->0) as u64,
        ),
        n == 0 || n * unit_ns(unit)->0 > u64::MAX ==> duration_of(decimal(n) + unit) is None,
{
    reveal_strlit("s");
    reveal_strlit("m");
    reveal_strlit("h");
    reveal_strlit("d");
    reveal_strlit("w");
    reveal_strlit("mo");
    reveal_strlit("y");
    decimal_is_digits(n);
    digits_lead(decimal(n), unit);
    let all = decimal(n) + unit;
    assert(count_part(all) =~= decimal(n));
    assert(unit_part(all) =~= unit);
    let per = unit_ns(unit)->0 as int;
    assert(n as int * per >= n) by (nonlinear_arith)
        requires
            per >= 1,
            n >= 0,
    ;
}

proof fn digits_stand_in_front(s: Seq<char>)
    ensures
        leading_digits(s) <= s.len(),
        forall|k: int| 0 <= k < leading_digits(s) ==> ascii_digit(#[trigger] s[k]),
        leading_digits(s) < s.len() ==> !ascii_digit(s[leading_digits(s) as int]),
    decreases s.len(),
{
    if s.len() > 0 && ascii_digit(s[0]) {
        let rest = s.skip(1);
        digits_stand_in_front(rest);
        assert forall|k: int| 0 <= k < leading_digits(s) implies ascii_digit(#[trigger] s[k]) by {
            if k > 0 {
                assert(rest[k - 1] == s[k]);
            }
        }
        if leading_digits(s) < s.len() {
            assert(rest[leading_digits(s) - 1] == s[leading_digits(s) as int]);
        }
    }
}

/// A duration is its count and its unit, one behind the other: the count is all the
/// digits in front and the unit is the rest. One that does not start with a digit,
/// and one with nothing but digits, is no duration, and is refused for that.
pub proof fn a_duration_has_a_count_and_a_unit(s: Seq<char>)
    ensures
        count_part(s) + unit_part(s) == s,
        forall|k: int| 0 <= k < count_part(s).len() ==> '0' <= #[trigger] count_part(s)[k] <= '9',
        unit_part(s).len() > 0 ==> !('0' <= unit_part(s)[0] <= '9'),
        s.len() == 0 || !('0' <= s[0] <= '9') ==> duration_of(s) is None,
        (forall|k: int| 0 <= k < s.len() ==> '0' <= #[trigger] s[k] <= '9') ==> duration_of(s)
            is None,
        is_read(s, Err(DurationError::NoCount)) == (s.len() == 0 || !('0' <= s[0] <= '9')),
        is_read(s, Err(DurationError::NoUnit)) == (s.len() > 0 && forall|k: int|
            0 <= k < s.len() ==> '0' <= #[trigger] s[k] <= '9'),
{
    digits_stand_in_front(s);
    let n = leading_digits(s) as int;
    assert(count_part(s) + unit_part(s) =~= s);
    assert forall|k: int| 0 <= k < count_part(s).len() implies '0' <= #[trigger] count_part(s)[k]
        <= '9' by {
        assert(count_part(s)[k] == s[k]);
    }
    if n < s.len() {
        assert(unit_part(s)[0] == s[n]);
    } else {
        assert forall|k: int| 0 <= k < s.len() implies '0' <= #[trigger] s[k] <= '9' by {
            assert(ascii_digit(s[k]));
        }
    }
}

/// What is read of a text is the one duration that it is, and a text is refused
/// just where it is none.
pub proof fn a_duration_is_read_or_refused(s: Seq<char>, ns: u64, error: DurationError)
    ensures
        is_read(s, Ok(ns)) ==> duration_of(s) == Some(ns),
        duration_of(s) == Some(ns) ==> is_read(s, Ok(ns)),
        is_read(s, Err(error)) ==> duration_of(s) is None,
{
    reveal_strlit("s");
    reveal_strlit("m");
    reveal_strlit("h");
    reveal_strlit("d");
    reveal_strlit("w");
    reveal_strlit("mo");
    reveal_strlit("y");
    assert("s"@.len() == 1 && "m"@.len() == 1 && "h"@.len() == 1 && "d"@.len() == 1);
    assert("w"@.len() == 1 && "mo"@.len() == 2 && "y"@.len() == 1);
}

} // verus!
