//! The escape sequences that switch the colour in which a terminal writes.
//!
//! The sequences come from the `termion` crate. What it returns for a colour
//! is short enough to write down, and is written down here in full.

use crate::highlight::Rgb;
use vstd::prelude::*;

verus! {

/// The character of the digit `d`.
pub open spec fn digit(d: int) -> char {
    if d == 0 {
        '0'
    } else if d == 1 {
        '1'
    } else if d == 2 {
        '2'
    } else if d == 3 {
        '3'
    } else if d == 4 {
        '4'
    } else if d == 5 {
        '5'
    } else if d == 6 {
        '6'
    } else if d == 7 {
        '7'
    } else if d == 8 {
        '8'
    } else {
        '9'
    }
}

/// `n` in decimal, without leading zeros.
pub open spec fn decimal(n: int) -> Seq<char> {
    if n > 99 {
        seq![digit(n / 100), digit((n / 10) % 10), digit(n % 10)]
    } else if n > 9 {
        seq![digit(n / 10), digit(n % 10)]
    } else {
        seq![digit(n)]
    }
}

/// The sequence that sets the foreground to `color`: `ESC [ 38 ; 2 ;`, the
/// three components in decimal with `;` between them, and `m`.
pub open spec fn fg_sequence(color: Rgb) -> Seq<char> {
    seq!['\x1b', '[', '3', '8', ';', '2', ';'] + decimal(color.0 as int) + seq![';'] + decimal(
        color.1 as int,
    ) + seq![';'] + decimal(color.2 as int) + seq!['m']
}

/// The sequence that sets the foreground back to the terminal's own:
/// `ESC [ 39 m`.
pub open spec fn fg_reset_sequence() -> Seq<char> {
    seq!['\x1b', '[', '3', '9', 'm']
}

/// Formats `termion::color::Fg(termion::color::Rgb(..))`.
///
/// Trusted: termion writes `ESC [ 38 ; 2 ;`, then the red, green and blue
/// components as decimal numbers separated by `;`, then `m`.
#[verifier::external_body]
pub(crate) fn fg(color: Rgb) -> (sequence: String)
    ensures
        sequence@ == fg_sequence(color),
{
    format!("{}", termion::color::Fg(termion::color::Rgb(color.0, color.1, color.2)))
}

/// Formats `termion::color::Fg(termion::color::Reset)`.
///
/// Trusted: termion writes `ESC [ 39 m`.
#[verifier::external_body]
pub(crate) fn fg_reset() -> (sequence: String)
    ensures
        sequence@ == fg_reset_sequence(),
{
    format!("{}", termion::color::Fg(termion::color::Reset))
}

} // verus!
