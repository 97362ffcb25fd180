//! Terminal styling: what a style puts around a text, and taking it off again.

use vstd::prelude::*;

use owo_colors::OwoColorize;

use crate::text::ascii_letter;
use crate::text::chars_of;
use crate::text::decimal;
#[allow(unused_imports)]
use crate::text::digit_char;

verus! {

/// A foreground colour.
#[derive(Clone, Copy, Debug, PartialEq, Eq, Structural)]
pub enum Ink {
    Rgb { r: u8, g: u8, b: u8 },
    BrightBlack,
    BrightRed,
    BrightGreen,
    BrightYellow,
    BrightBlue,
    BrightMagenta,
    BrightWhite,
}

/// How heavy a text is drawn.
#[derive(Clone, Copy, Debug, PartialEq, Eq, Structural)]
pub enum Weight {
    Regular,
    Bold,
}

/// What a text is drawn on.
#[derive(Clone, Copy, Debug, PartialEq, Eq, Structural)]
pub enum Ground {
    Terminal,
    BrightBlack,
}

/// A terminal style.
#[derive(Clone, Copy, Debug, PartialEq, Eq, Structural)]
pub struct Style {
    pub ink: Ink,
    pub weight: Weight,
    pub ground: Ground,
}

/// The escape character.
pub open spec fn esc() -> char {
    '\u{1b}'
}

/// The code that selects a foreground colour.
pub open spec fn ink_code(ink: Ink) -> Seq<char> {
    match ink {
        Ink::Rgb { r, g, b } => "38;2;"@ + decimal(r as nat) + ";"@ + decimal(g as nat) + ";"@
            + decimal(b as nat),
        Ink::BrightBlack => "90"@,
        Ink::BrightRed => "91"@,
        Ink::BrightGreen => "92"@,
        Ink::BrightYellow => "93"@,
        Ink::BrightBlue => "94"@,
        Ink::BrightMagenta => "95"@,
        Ink::BrightWhite => "97"@,
    }
}

/// The code that selects a background, behind the foreground's.
pub open spec fn ground_code(ground: Ground) -> Seq<char> {
    match ground {
        Ground::Terminal => Seq::<char>::empty(),
        Ground::BrightBlack => ";100"@,
    }
}

/// The code that selects a weight, behind the colours'.
pub open spec fn weight_code(weight: Weight) -> Seq<char> {
    match weight {
        Weight::Regular => Seq::<char>::empty(),
        Weight::Bold => ";1"@,
    }
}

/// The codes of a style, between the bracket that opens them and the letter
/// that ends them.
pub open spec fn codes(style: Style) -> Seq<char> {
    ink_code(style.ink) + ground_code(style.ground) + weight_code(style.weight)
}

/// A text in a style: the style's escape sequence, the text, and the sequence
/// that resets the terminal.
#[verifier::opaque]
pub open spec fn painted(text: Seq<char>, style: Style) -> Seq<char> {
    "\u{1b}["@ + codes(style) + "m"@ + text + "\u{1b}[0m"@
}

/// `owo_colors::OwoColorize::style` with the `owo_colors::Style` that has the
/// same colours and weight, formatted: the codes for the foreground, the
/// background and boldness stand in that order, with a semicolon between two of
/// them, inside one escape sequence in front of the text; a reset follows it.
#[verifier::external_body]
pub(crate) fn paint(text: &str, style: Style) -> (shown: String)
    ensures
        shown@ == painted(text@, style),
{
    let plain = owo_colors::Style::new();
    let inked = match style.ink {
        Ink::Rgb { r, g, b } => plain.truecolor(r, g, b),
        Ink::BrightBlack => plain.bright_black(),
        Ink::BrightRed => plain.bright_red(),
        Ink::BrightGreen => plain.bright_green(),
        Ink::BrightYellow => plain.bright_yellow(),
        Ink::BrightBlue => plain.bright_blue(),
        Ink::BrightMagenta => plain.bright_magenta(),
        Ink::BrightWhite => plain.bright_white(),
    };
    let set = match style.ground { Ground::Terminal => inked, Ground::BrightBlack => inked.on_bright_black() };
    let weighed = match style.weight { Weight::Regular => set, Weight::Bold => set.bold() };
    text.style(weighed).to_string()
}

impl Style {
    /// A style of this colour and nothing else.
    pub fn of(ink: Ink) -> (style: Style)
        ensures
            style == (Style { ink, weight: Weight::Regular, ground: Ground::Terminal }),
    {
        Style { ink, weight: Weight::Regular, ground: Ground::Terminal }
    }

    /// The same style in bold.
    pub open spec fn bolded(self) -> Style {
        Style { weight: Weight::Bold, ..self }
    }

    /// The same style in bold.
    pub fn bold(self) -> (style: Style)
        ensures
            style == self.bolded(),
    {
        Style { ink: self.ink, weight: Weight::Bold, ground: self.ground }
    }

    /// The same style on bright black.
    pub open spec fn raised(self) -> Style {
        Style { ground: Ground::BrightBlack, ..self }
    }

    /// The same style on bright black.
    pub fn on_bright_black(self) -> (style: Style)
        ensures
            style == self.raised(),
    {
        Style { ink: self.ink, weight: self.weight, ground: Ground::BrightBlack }
    }
}

/// What a terminal shows of `s`: everything but its escape sequences. `inside`
/// says that `s` starts within one, which its next ASCII letter ends. An escape
/// character that no bracket follows is dropped alone.
pub open spec fn visible(s: Seq<char>, inside: bool) -> Seq<char>
    decreases s.len(),
{
    if s.len() == 0 {
        Seq::<char>::empty()
    } else if inside {
        visible(s.skip(1), !ascii_letter(s[0]))
    } else if s[0] != esc() {
        seq![s[0]] + visible(s.skip(1), false)
    } else if s.len() > 1 && s[1] == '[' {
        visible(s.skip(2), true)
    } else {
        visible(s.skip(1), false)
    }
}

/// The text without its escape sequences.
pub fn strip_ansi(s: &str) -> (out: String)
    ensures
        out@ == visible(s@, false),
{
    let chars = chars_of(s);
    let mut out = String::new();
    let mut inside = false;
    let mut i: usize = 0;
    assert(chars@.skip(0) =~= chars@);
    while i < chars.len()
        invariant
            i <= chars.len(),
            out@ + visible(chars@.skip(i as int), inside) == visible(chars@, false),
        decreases chars.len() - i,
    {
        let c = chars[i];
        let ghost rest = chars@.skip(i as int);
        assert(rest.skip(1) =~= chars@.skip(i + 1));
        if inside {
            inside = !(('a' <= c && c <= 'z') || ('A' <= c && c <= 'Z'));
            i += 1;
        } else if c != '\u{1b}' {
            let ghost before = out@;
            out.push(c);
            assert(before + (seq![c] + visible(rest.skip(1), false)) =~= out@ + visible(
                rest.skip(1),
                false,
            ));
            i += 1;
        } else if i + 1 < chars.len() && chars[i + 1] == '[' {
            assert(rest.skip(2) =~= chars@.skip(i + 2));
            inside = true;
            i += 2;
        } else {
            i += 1;
        }
    }
    assert(out@ + visible(chars@.skip(i as int), inside) =~= out@);
    out
}

/// What is stripped holds no escape character, whatever it was stripped from.
pub proof fn stripped_text_is_escape_free(s: Seq<char>, inside: bool)
    ensures
        !visible(s, inside).contains(esc()),
    decreases s.len(),
{
    if s.len() > 0 {
        if inside {
            stripped_text_is_escape_free(s.skip(1), !ascii_letter(s[0]));
        } else if s[0] != esc() {
            stripped_text_is_escape_free(s.skip(1), false);
            let tail = visible(s.skip(1), false);
            let shown = visible(s, inside);
            assert forall|i: int| 0 <= i < shown.len() implies shown[i] != esc() by {
                if i > 0 {
                    assert(tail[i - 1] == shown[i]);
                    assert(tail.contains(tail[i - 1]));
                }
            }
        } else if s.len() > 1 && s[1] == '[' {
            stripped_text_is_escape_free(s.skip(2), true);
        } else {
            stripped_text_is_escape_free(s.skip(1), false);
        }
    }
}

/// A text without an escape character is its own stripped form.
pub proof fn plain_text_survives_stripping(s: Seq<char>)
    requires
        !s.contains(esc()),
    ensures
        visible(s, false) == s,
    decreases s.len(),
{
    if s.len() > 0 {
        assert(s.contains(s[0]));
        assert forall|c: char| s.skip(1).contains(c) implies s.contains(c) by {
            let k = choose|k: int| 0 <= k < s.skip(1).len() && s.skip(1)[k] == c;
            assert(s[k + 1] == c);
        }
        plain_text_survives_stripping(s.skip(1));
        assert(seq![s[0]] + s.skip(1) =~= s);
    }
}

/// To strip twice is to strip once.
pub proof fn stripping_is_idempotent(s: Seq<char>)
    ensures
        visible(visible(s, false), false) == visible(s, false),
{
    stripped_text_is_escape_free(s, false);
    plain_text_survives_stripping(visible(s, false));
}

/// Plain text in front of anything stays, and what follows is stripped by
/// itself.
pub proof fn plain_prefix_is_kept(plain: Seq<char>, rest: Seq<char>)
    requires
        !plain.contains(esc()),
    ensures
        visible(plain + rest, false) == plain + visible(rest, false),
    decreases plain.len(),
{
    if plain.len() == 0 {
        assert(plain + rest =~= rest);
        assert(plain + visible(rest, false) =~= visible(rest, false));
    } else {
        assert(plain.contains(plain[0]));
        assert forall|c: char| plain.skip(1).contains(c) implies plain.contains(c) by {
            let k = choose|k: int| 0 <= k < plain.skip(1).len() && plain.skip(1)[k] == c;
            assert(plain[k + 1] == c);
        }
        plain_prefix_is_kept(plain.skip(1), rest);
        assert((plain + rest).skip(1) =~= plain.skip(1) + rest);
        assert(seq![plain[0]] + (plain.skip(1) + visible(rest, false)) =~= plain + visible(
            rest,
            false,
        ));
    }
}

/// No character of `s` is an ASCII letter.
pub open spec fn letterless(s: Seq<char>) -> bool {
    forall|i: int| 0 <= i < s.len() ==> !ascii_letter(#[trigger] s[i])
}

/// An escape sequence ends at its first letter: what stands in front of that
/// letter is not shown, and what follows it is shown as it would be alone.
proof fn sequence_is_swallowed(inner: Seq<char>, letter: char, rest: Seq<char>)
    requires
        letterless(inner),
        ascii_letter(letter),
    ensures
        visible(inner.push(letter) + rest, true) == visible(rest, false),
    decreases inner.len(),
{
    let all = inner.push(letter) + rest;
    if inner.len() == 0 {
        assert(all.skip(1) =~= rest);
    } else {
        assert(all[0] == inner[0]);
        assert(all.skip(1) =~= inner.skip(1).push(letter) + rest);
        assert(letterless(inner.skip(1)));
        sequence_is_swallowed(inner.skip(1), letter, rest);
    }
}

proof fn decimal_is_letterless(n: nat)
    ensures
        letterless(decimal(n)),
    decreases n,
{
    if n >= 10 {
        decimal_is_letterless(n / 10);
    }
    assert(forall|d: int| 0 <= d < 10 ==> !ascii_letter(#[trigger] digit_char(d)));
}

proof fn codes_are_letterless(style: Style)
    ensures
        letterless(codes(style)),
{
    reveal_strlit("38;2;");
    reveal_strlit(";");
    reveal_strlit("90");
    reveal_strlit("91");
    reveal_strlit("92");
    reveal_strlit("93");
    reveal_strlit("94");
    reveal_strlit("95");
    reveal_strlit("97");
    reveal_strlit(";100");
    reveal_strlit(";1");
    if let Ink::Rgb { r, g, b } = style.ink {
        decimal_is_letterless(r as nat);
        decimal_is_letterless(g as nat);
        decimal_is_letterless(b as nat);
    }
}

/// A style is invisible once stripped: a plain text comes back as it was.
pub proof fn painting_is_stripped_off(text: Seq<char>, style: Style)
    requires
        !text.contains(esc()),
    ensures
        visible(painted(text, style), false) == text,
{
    reveal(painted);
    reveal_strlit("\u{1b}[");
    reveal_strlit("m");
    reveal_strlit("\u{1b}[0m");
    let reset = "\u{1b}[0m"@;
    let all = painted(text, style);
    codes_are_letterless(style);
    assert(all.skip(2) =~= codes(style).push('m') + (text + reset));
    assert(all[0] == esc() && all[1] == '[');
    sequence_is_swallowed(codes(style), 'm', text + reset);
    plain_prefix_is_kept(text, reset);
    let zero = seq!['0'];
    assert(reset.skip(2) =~= zero.push('m') + Seq::<char>::empty());
    sequence_is_swallowed(zero, 'm', Seq::<char>::empty());
    assert(visible(Seq::<char>::empty(), false) =~= Seq::<char>::empty());
    assert(visible(reset, false) =~= Seq::<char>::empty());
    assert(text + Seq::<char>::empty() =~= text);
}

} // verus!
