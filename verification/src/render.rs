//! Pieces of human output: decimal numbers, runs of spaces, and text that
//! is painted when the output takes ANSI colours.
use vstd::prelude::*;

use crate::outside::{paint, painted};
use crate::text::push_char;

verus! {

/// A style that text is painted in.
#[derive(Clone, Copy, Debug, PartialEq, Eq, Structural)]
pub enum PaintStyle {
    /// Bold light blue, for line prefixes.
    LightBlueBold,
    /// Bold light yellow, for the caret under an error.
    LightYellowBold,
}

/// The decimal digit `d`.
pub open spec fn digit_char(d: nat) -> char {
    if d == 0 {
        '0'
    } else if d == 1 {
        '1'
    } else if d == 2 {
        '2'
    } else if d == 3 {
        '3'
    } else if d == 4 {
        '4'
    } else if d == 5 {
        '5'
    } else if d == 6 {
        '6'
    } else if d == 7 {
        '7'
    } else if d == 8 {
        '8'
    } else {
        '9'
    }
}

/// `n` in decimal, without leading zeros.
pub open spec fn decimal_text(n: nat) -> Seq<char>
    decreases n,
{
    if n < 10 {
        seq![digit_char(n)]
    } else {
        decimal_text(n / 10).push(digit_char(n % 10))
    }
}

/// `k` spaces.
pub open spec fn spaces_text(k: nat) -> Seq<char> {
    Seq::new(k, |i: int| ' ')
}

/// `text`, painted in `style` when the output takes colours.
pub open spec fn styled_text(is_ansi: bool, text: Seq<char>, style: PaintStyle) -> Seq<char> {
    if is_ansi {
        painted(style, text)
    } else {
        text
    }
}

/// A line prefix: `text` in bold light blue when the output takes colours.
pub open spec fn prefixed(is_ansi: bool, text: Seq<char>) -> Seq<char> {
    styled_text(is_ansi, text, PaintStyle::LightBlueBold)
}

fn digit(d: u64) -> (c: char)
    requires
        d < 10,
    ensures
        c == digit_char(d as nat),
{
    if d == 0 {
        '0'
    } else if d == 1 {
        '1'
    } else if d == 2 {
        '2'
    } else if d == 3 {
        '3'
    } else if d == 4 {
        '4'
    } else if d == 5 {
        '5'
    } else if d == 6 {
        '6'
    } else if d == 7 {
        '7'
    } else if d == 8 {
        '8'
    } else {
        '9'
    }
}

/// `n` in decimal.
pub fn decimal(n: u64) -> (r: String)
    ensures
        r@ == decimal_text(n as nat),
    decreases n,
{
    if n < 10 {
        let mut s = String::new();
        push_char(&mut s, digit(n));
        assert(s@ =~= seq![digit_char(n as nat)]);
        s
    } else {
        let mut s = decimal(n / 10);
        push_char(&mut s, digit(n % 10));
        s
    }
}

/// `k` spaces.
pub fn spaces(k: u64) -> (r: String)
    ensures
        r@ == spaces_text(k as nat),
{
    let mut s = String::new();
    let mut i: u64 = 0;
    while i < k
        invariant
            i <= k,
            s@ == spaces_text(i as nat),
        decreases k - i,
    {
        push_char(&mut s, ' ');
        assert(s@ =~= spaces_text((i + 1) as nat));
        i = i + 1;
    }
    s
}

/// `text` in `style` when the output takes colours, as it is otherwise.
pub fn styled(is_ansi: bool, text: &str, style: PaintStyle) -> (r: String)
    ensures
        r@ == styled_text(is_ansi, text@, style),
{
    if is_ansi {
        paint(style, text)
    } else {
        text.to_owned()
    }
}

/// A line prefix, bold light blue when the output takes colours.
pub fn prefix(is_ansi: bool, text: &str) -> (r: String)
    ensures
        r@ == prefixed(is_ansi, text@),
{
    styled(is_ansi, text, PaintStyle::LightBlueBold)
}

} // verus!
