//! Text as sequences of characters: building, comparing, trimming and ordering.

use vstd::prelude::*;

verus! {

/// `String::push` appends one character and leaves the rest of the string as it
/// was.
pub assume_specification[ String::push ](s: &mut String, c: char)
    ensures
        final(s)@ == old(s)@.push(c),
;

/// `String::pop` takes the last character off and hands it out; of an empty
/// string it takes nothing and answers `None`.
pub assume_specification[ String::pop ](s: &mut String) -> (taken: Option<char>)
    ensures
        old(s)@.len() == 0 ==> taken is None && final(s)@ == old(s)@,
        old(s)@.len() > 0 ==> taken == Some(old(s)@.last()) && final(s)@
            == old(s)@.drop_last(),
;

/// Whether a character is white space: the Unicode property `White_Space`, which
/// twenty-five characters have.
pub open spec fn white_space(c: char) -> bool {
    ||| '\u{9}' <= c <= '\u{d}'
    ||| c == ' '
    ||| c == '\u{85}'
    ||| c == '\u{a0}'
    ||| c == '\u{1680}'
    ||| '\u{2000}' <= c <= '\u{200a}'
    ||| c == '\u{2028}'
    ||| c == '\u{2029}'
    ||| c == '\u{202f}'
    ||| c == '\u{205f}'
    ||| c == '\u{3000}'
}

/// `char::is_whitespace`, which answers whether the character has the Unicode
/// property `White_Space`.
pub assume_specification[ char::is_whitespace ](c: char) -> (answer: bool)
    ensures
        answer == white_space(c),
;

/// The character for one decimal digit.
pub open spec fn digit_char(d: int) -> char {
    (48 + d) as char
}

/// A number written in decimal, with no leading zero.
pub open spec fn decimal(n: nat) -> Seq<char>
    decreases n,
{
    if n < 10 {
        seq![digit_char(n as int)]
    } else {
        decimal(n / 10).push(digit_char((n % 10) as int))
    }
}

/// An integer written in decimal, with a minus sign in front of a negative one.
pub open spec fn signed_decimal(n: int) -> Seq<char> {
    if n < 0 {
        seq!['-'] + decimal((-n) as nat)
    } else {
        decimal(n as nat)
    }
}

/// `c`, `n` times over.
pub open spec fn repeated(c: char, n: nat) -> Seq<char> {
    Seq::new(n, |i: int| c)
}

/// `unit`, `n` times over, one after the other.
pub open spec fn repeated_text(unit: Seq<char>, n: nat) -> Seq<char>
    decreases n,
{
    if n == 0 {
        Seq::<char>::empty()
    } else {
        repeated_text(unit, (n - 1) as nat) + unit
    }
}

/// An ASCII letter.
pub open spec fn ascii_letter(c: char) -> bool {
    ('a' <= c && c <= 'z') || ('A' <= c && c <= 'Z')
}

/// An ASCII digit.
pub open spec fn ascii_digit(c: char) -> bool {
    '0' <= c && c <= '9'
}

/// The upper-case form of an ASCII letter; any other character as it is.
pub open spec fn upper_char(c: char) -> char {
    if 'a' <= c && c <= 'z' {
        (c as int - 32) as char
    } else {
        c
    }
}

/// A text with each ASCII letter in upper case.
pub open spec fn upper(s: Seq<char>) -> Seq<char> {
    Seq::new(s.len(), |i: int| upper_char(s[i]))
}

/// `s` without the white space at its end.
pub open spec fn trim_end(s: Seq<char>) -> Seq<char>
    decreases s.len(),
{
    if s.len() > 0 && white_space(s.last()) {
        trim_end(s.drop_last())
    } else {
        s
    }
}

/// `s` without the white space at its start.
pub open spec fn trim_start(s: Seq<char>) -> Seq<char>
    decreases s.len(),
{
    if s.len() > 0 && white_space(s[0]) {
        trim_start(s.drop_first())
    } else {
        s
    }
}

/// `s` without the white space at either end.
#[verifier::opaque]
pub open spec fn trimmed(s: Seq<char>) -> Seq<char> {
    trim_end(trim_start(s))
}

/// The characters of a string.
pub fn chars_of(s: &str) -> (chars: Vec<char>)
    ensures
        chars@ == s@,
{
    let mut chars: Vec<char> = Vec::new();
    for c in it: s.chars()
        invariant
            chars@ =~= it.seq().take(it.index() as int),
            it.seq() == s@,
    {
        chars.push(c);
    }
    chars
}

/// Whether two texts are the same, character for character.
pub fn same_text(a: &str, b: &str) -> (same: bool)
    ensures
        same == (a@ == b@),
{
    a.to_owned() == b.to_owned()
}

/// Appends a number in decimal.
pub fn push_decimal(out: &mut String, n: u128)
    ensures
        final(out)@ == old(out)@ + decimal(n as nat),
    decreases n,
{
    if n >= 10 {
        push_decimal(out, n / 10);
    }
    let digit: u8 = (n % 10) as u8;
    out.push((48u8 + digit) as char);
    assert(out@ =~= old(out)@ + decimal(n as nat));
}

/// Appends an integer in decimal, with its sign when it is negative.
pub fn push_signed(out: &mut String, n: i128)
    ensures
        final(out)@ == old(out)@ + signed_decimal(n as int),
{
    if n < 0 {
        out.push('-');
        let below: u128 = ((-1 - n) as u128) + 1;
        push_decimal(out, below);
        assert(out@ =~= old(out)@ + signed_decimal(n as int));
    } else {
        push_decimal(out, n as u128);
    }
}

/// Appends `c`, `n` times.
pub fn push_repeated(out: &mut String, c: char, n: usize)
    ensures
        final(out)@ == old(out)@ + repeated(c, n as nat),
{
    let mut i: usize = 0;
    assert(out@ =~= old(out)@ + repeated(c, 0));
    while i < n
        invariant
            i <= n,
            out@ =~= old(out)@ + repeated(c, i as nat),
        decreases n - i,
    {
        out.push(c);
        i += 1;
    }
}

/// The white space that a text starts and ends with, taken off.
pub fn trim(s: &str) -> (inner: String)
    ensures
        inner@ == trimmed(s@),
{
    proof {
        reveal(trimmed);
    }
    let chars = chars_of(s);
    let mut from: usize = 0;
    assert(chars@.skip(0) =~= chars@);
    while from < chars.len() && chars[from].is_whitespace()
        invariant
            from <= chars.len(),
            trim_start(chars@) == trim_start(chars@.skip(from as int)),
        decreases chars.len() - from,
    {
        assert(chars@.skip(from as int).drop_first() =~= chars@.skip(from + 1));
        from += 1;
    }
    let ghost rest = chars@.skip(from as int);
    assert(trim_start(chars@) == rest);
    let mut to: usize = chars.len();
    while to > from && chars[to - 1].is_whitespace()
        invariant
            from <= to <= chars.len(),
            rest == chars@.skip(from as int),
            trim_end(rest) == trim_end(chars@.subrange(from as int, to as int)),
        decreases to,
    {
        assert(chars@.subrange(from as int, to as int).drop_last() =~= chars@.subrange(
            from as int,
            to - 1,
        ));
        to -= 1;
    }
    let mut inner = String::new();
    let mut i: usize = from;
    while i < to
        invariant
            from <= i <= to <= chars.len(),
            inner@ =~= chars@.subrange(from as int, i as int),
        decreases to - i,
    {
        inner.push(chars[i]);
        i += 1;
    }
    inner
}

/// A text with each ASCII letter in upper case.
pub fn to_upper(s: &str) -> (out: String)
    ensures
        out@ == upper(s@),
{
    let chars = chars_of(s);
    let mut out = String::new();
    let mut i: usize = 0;
    while i < chars.len()
        invariant
            i <= chars.len(),
            out@ =~= upper(chars@).take(i as int),
        decreases chars.len() - i,
    {
        let c = chars[i];
        if 'a' <= c && c <= 'z' {
            out.push((c as u8 - 32) as char);
        } else {
            out.push(c);
        }
        i += 1;
    }
    assert(upper(chars@).take(i as int) =~= upper(chars@));
    out
}

/// A text as a string literal would show it: `str`'s `Debug` form.
pub uninterp spec fn quoted(s: Seq<char>) -> Seq<char>;

/// `str`'s `Debug` form, through `format!`: the text in double quotes, with the
/// characters that a literal cannot hold escaped. It depends on the text alone.
#[verifier::external_body]
pub(crate) fn quote(s: &str) -> (shown: String)
    ensures
        shown@ == quoted(s@),
{
    format!("{s:?}")
}

/// Whether a text ends with the character `c`.
pub fn ends_with_char(s: &str, c: char) -> (answer: bool)
    ensures
        answer == (s@.len() > 0 && s@.last() == c),
{
    let n: usize = s.unicode_len();
    n > 0 && s.get_char(n - 1) == c
}

/// Trimming takes white space off, and nothing else: what is left is a stretch of
/// the text, all that stands in front of it and behind it is white space, and it
/// neither starts nor ends with any.
pub proof fn trimming_takes_white_space_off(s: Seq<char>) -> (cut: (int, int))
    ensures
        0 <= cut.0 <= cut.1 <= s.len(),
        trimmed(s) == s.subrange(cut.0, cut.1),
        forall|k: int| 0 <= k < cut.0 ==> white_space(#[trigger] s[k]),
        forall|k: int| cut.1 <= k < s.len() ==> white_space(#[trigger] s[k]),
        cut.0 < cut.1 ==> !white_space(s[cut.0]) && !white_space(s[cut.1 - 1]),
{
    reveal(trimmed);
    let from = start_is_cut(s);
    let rest = s.skip(from);
    let len = end_is_cut(rest);
    assert(rest.take(len) =~= s.subrange(from, from + len));
    assert forall|k: int| from + len <= k < s.len() implies white_space(#[trigger] s[k]) by {
        assert(rest[k - from] == s[k]);
    }
    if len > 0 {
        assert(rest[0] == s[from] && rest[len - 1] == s[from + len - 1]);
    }
    (from, from + len)
}

proof fn start_is_cut(s: Seq<char>) -> (from: int)
    ensures
        0 <= from <= s.len(),
        trim_start(s) == s.skip(from),
        forall|k: int| 0 <= k < from ==> white_space(#[trigger] s[k]),
        from < s.len() ==> !white_space(s[from]),
    decreases s.len(),
{
    if s.len() > 0 && white_space(s[0]) {
        let rest = s.drop_first();
        let from = start_is_cut(rest);
        assert(rest.skip(from) =~= s.skip(from + 1));
        assert forall|k: int| 0 <= k < from + 1 implies white_space(#[trigger] s[k]) by {
            if k > 0 {
                assert(rest[k - 1] == s[k]);
            }
        }
        from + 1
    } else {
        assert(s.skip(0) =~= s);
        0
    }
}

proof fn end_is_cut(s: Seq<char>) -> (len: int)
    ensures
        0 <= len <= s.len(),
        trim_end(s) == s.take(len),
        forall|k: int| len <= k < s.len() ==> white_space(#[trigger] s[k]),
        len > 0 ==> !white_space(s[len - 1]),
    decreases s.len(),
{
    if s.len() > 0 && white_space(s.last()) {
        let rest = s.drop_last();
        let len = end_is_cut(rest);
        assert(rest.take(len) =~= s.take(len));
        assert forall|k: int| len <= k < s.len() implies white_space(#[trigger] s[k]) by {
            if k < rest.len() {
                assert(rest[k] == s[k]);
            }
        }
        len
    } else {
        assert(s.take(s.len() as int) =~= s);
        s.len() as int
    }
}

/// A text in upper case is as long as the text: a small ASCII letter is the capital
/// as far into the alphabet, and every other character is as it was.
pub proof fn only_small_letters_change(s: Seq<char>, i: int)
    requires
        0 <= i < s.len(),
    ensures
        upper(s).len() == s.len(),
        'a' <= s[i] <= 'z' ==> upper(s)[i] as int - 'A' as int == s[i] as int - 'a' as int,
        !('a' <= s[i] <= 'z') ==> upper(s)[i] == s[i],
{
}

/// A number is written with its digits, the last one its ones, and with no zero in
/// front.
pub proof fn a_number_is_written_by_its_digits(n: nat)
    ensures
        decimal(n).len() > 0,
        decimal(n).last() as int - '0' as int == n % 10,
        n >= 10 ==> decimal(n).drop_last() == decimal(n / 10),
        n < 10 ==> decimal(n).len() == 1,
        n > 0 ==> decimal(n)[0] != '0',
        n > 0 ==> signed_decimal(-(n as int)) == seq!['-'] + decimal(n),
        signed_decimal(n as int) == decimal(n),
    decreases n,
{
    if n >= 10 {
        a_number_is_written_by_its_digits(n / 10);
        assert(decimal(n).drop_last() =~= decimal(n / 10));
        assert(decimal(n)[0] == decimal(n / 10)[0]);
    }
}

} // verus!
