//! Terminal colouring of message fragments, and decimal rendering of numbers.

use colored::Colorize;
use vstd::prelude::*;

verus! {

/// The foreground colours that messages use.
#[derive(Clone, Copy, Debug, PartialEq, Eq, Structural)]
pub enum Tint {
    Red,
    Green,
    Yellow,
    Blue,
    Magenta,
    Cyan,
}

/// The SGR parameter of a foreground colour.
pub open spec fn tint_code(t: Tint) -> Seq<char> {
    match t {
        Tint::Red => seq!['3', '1'],
        Tint::Green => seq!['3', '2'],
        Tint::Yellow => seq!['3', '3'],
        Tint::Blue => seq!['3', '4'],
        Tint::Magenta => seq!['3', '5'],
        Tint::Cyan => seq!['3', '6'],
    }
}

/// The escape sequence that switches a terminal to the given colour,
/// in bold when `bold` holds.
pub open spec fn style_start(t: Tint, bold: bool) -> Seq<char> {
    seq!['\x1b', '['] + (if bold { seq!['1', ';'] } else { Seq::empty() }) + tint_code(t) + seq!['m']
}

/// The escape sequence that resets every style.
pub open spec fn style_reset() -> Seq<char> {
    seq!['\x1b', '[', '0', 'm']
}

/// `r` shows `text` in the given style: either as it is (when colouring is
/// off for this process) or wrapped in the style's escape sequences.
pub open spec fn painted(r: Seq<char>, text: Seq<char>, t: Tint, bold: bool) -> bool {
    r == text || r == style_start(t, bold) + text + style_reset()
}

/// `r` shows `text` in the given colour, when `text` holds no escape
/// character; a text that holds one may come out altered.
pub open spec fn maybe_painted(r: Seq<char>, text: Seq<char>, t: Tint) -> bool {
    !text.contains('\x1b') ==> painted(r, text, t, false)
}

/// Relies on colored's `Colorize::color` and the `Display` of `ColoredString`:
/// the text is written as it is when colouring is off, and otherwise between
/// the colour's escape sequence and the reset sequence (a text without an
/// escape character is not altered inside).
#[verifier::external_body]
pub(crate) fn paint(text: &str, t: Tint) -> (r: String)
    ensures
        !text@.contains('\x1b') ==> painted(r@, text@, t, false),
{
    let c = match t {
        Tint::Red => colored::Color::Red,
        Tint::Green => colored::Color::Green,
        Tint::Yellow => colored::Color::Yellow,
        Tint::Blue => colored::Color::Blue,
        Tint::Magenta => colored::Color::Magenta,
        Tint::Cyan => colored::Color::Cyan,
    };
    text.color(c).to_string()
}

/// Relies on colored's `Colorize::color` and `Colorize::bold` and the
/// `Display` of `ColoredString`, as `paint` does, with bold switched on.
#[verifier::external_body]
pub(crate) fn paint_bold(text: &str, t: Tint) -> (r: String)
    ensures
        !text@.contains('\x1b') ==> painted(r@, text@, t, true),
{
    let c = match t {
        Tint::Red => colored::Color::Red,
        Tint::Green => colored::Color::Green,
        Tint::Yellow => colored::Color::Yellow,
        Tint::Blue => colored::Color::Blue,
        Tint::Magenta => colored::Color::Magenta,
        Tint::Cyan => colored::Color::Cyan,
    };
    text.color(c).bold().to_string()
}


/// The character of a decimal digit.
pub open spec fn digit_char(d: nat) -> char {
    seq!['0', '1', '2', '3', '4', '5', '6', '7', '8', '9'][d as int]
}

/// The decimal representation of `n`, without leading zeros.
pub open spec fn decimal_of(n: nat) -> Seq<char>
    decreases n,
{
    if n < 10 {
        seq![digit_char(n)]
    } else {
        decimal_of(n / 10).push(digit_char(n % 10))
    }
}

fn digit_str(d: u64) -> (r: &'static str)
    requires
        d < 10,
    ensures
        r@ == seq![digit_char(d as nat)],
{
    proof {
        reveal_strlit("0");
        reveal_strlit("1");
        reveal_strlit("2");
        reveal_strlit("3");
        reveal_strlit("4");
        reveal_strlit("5");
        reveal_strlit("6");
        reveal_strlit("7");
        reveal_strlit("8");
        reveal_strlit("9");
    }
    match d {
        0 => "0",
        1 => "1",
        2 => "2",
        3 => "3",
        4 => "4",
        5 => "5",
        6 => "6",
        7 => "7",
        8 => "8",
        _ => "9",
    }
}

/// Writes `n` in decimal.
pub fn decimal(n: u64) -> (r: String)
    ensures
        r@ == decimal_of(n as nat),
    decreases n,
{
    if n < 10 {
        String::from_str(digit_str(n))
    } else {
        let mut s = decimal(n / 10);
        s.append(digit_str(n % 10));
        s
    }
}

/// A decimal representation holds no escape character.
pub proof fn lemma_decimal_plain(n: nat)
    ensures
        !decimal_of(n).contains('\x1b'),
    decreases n,
{
    if n >= 10 {
        lemma_decimal_plain(n / 10);
        let d = decimal_of(n);
        assert forall|i: int| 0 <= i < d.len() implies d[i] != '\x1b' by {
            if i < d.len() - 1 {
                assert(d[i] == decimal_of(n / 10)[i]);
            }
        }
    }
}

/// Joining texts without an escape character gives a text without one.
pub proof fn lemma_plain_concat(a: Seq<char>, b: Seq<char>)
    requires
        !a.contains('\x1b'),
        !b.contains('\x1b'),
    ensures
        !(a + b).contains('\x1b'),
{
    assert forall|i: int| 0 <= i < (a + b).len() implies (a + b)[i] != '\x1b' by {
        if i < a.len() {
            assert((a + b)[i] == a[i]);
        } else {
            assert((a + b)[i] == b[i - a.len()]);
        }
    }
}

/// `n` in decimal, painted in the given colour.
pub(crate) fn paint_number(n: u64, t: Tint) -> (r: String)
    ensures
        painted(r@, decimal_of(n as nat), t, false),
{
    let d = decimal(n);
    proof {
        lemma_decimal_plain(n as nat);
    }
    paint(d.as_str(), t)
}

} // verus!
