use vstd::prelude::*;
use std::io::Write;

verus! {

/// A terminal color: one of the 256 indexed colors (the sixteen named ones
/// are indices 0 to 15), a true color, or the terminal's default.
#[derive(Clone, Copy, Debug, PartialEq, Eq, Structural)]
pub enum TermColor {
    Ansi(u8),
    Rgb(u8, u8, u8),
    Reset,
}

/// The decimal digits of `n`, in ASCII, without leading zeros.
pub open spec fn decimal(n: nat) -> Seq<u8>
    decreases n,
{
    if n < 10 {
        seq![(48 + n) as u8]
    } else {
        decimal(n / 10).push((48 + n % 10) as u8)
    }
}

/// ESC `[`, the start of a control sequence.
pub open spec fn csi() -> Seq<u8> {
    seq![27u8, 91u8]
}

/// The control sequence that selects a color; `layer` is the ASCII digit
/// `3` for the foreground and `4` for the background.
pub open spec fn color_seq(layer: u8, c: TermColor) -> Seq<u8> {
    match c {
        TermColor::Ansi(n) => csi() + seq![layer, 56u8, 59u8, 53u8, 59u8] + decimal(n as nat) + seq![109u8],
        TermColor::Rgb(r, g, b) => csi() + seq![layer, 56u8, 59u8, 50u8, 59u8] + decimal(r as nat) + seq![59u8]
            + decimal(g as nat) + seq![59u8] + decimal(b as nat) + seq![109u8],
        TermColor::Reset => csi() + seq![layer, 57u8, 109u8],
    }
}

/// ASCII `3`: the foreground layer.
pub const FG: u8 = 51;

/// ASCII `4`: the background layer.
pub const BG: u8 = 52;

/// Relies on termion's `Display` for `color::Fg`, through `Color::write_fg`
/// of `AnsiValue`, `Rgb` and `Reset`: the sequence that selects the
/// foreground color (`ESC [38;5;n m`, `ESC [38;2;r;g;b m`, `ESC [39m`).
#[verifier::external_body]
fn fg_bytes(c: TermColor) -> (r: Vec<u8>)
    ensures
        r@ == color_seq(FG, c),
{
    let mut ret = Vec::new();
    match c {
        TermColor::Ansi(n) => write!(ret, "{}", termion::color::Fg(termion::color::AnsiValue(n))),
        TermColor::Rgb(r, g, b) => write!(ret, "{}", termion::color::Fg(termion::color::Rgb(r, g, b))),
        TermColor::Reset => write!(ret, "{}", termion::color::Fg(termion::color::Reset)),
    }.unwrap();
    ret
}

/// Relies on termion's `Display` for `color::Bg`, through `Color::write_bg`
/// of `AnsiValue`, `Rgb` and `Reset`: the sequence that selects the
/// background color (`ESC [48;5;n m`, `ESC [48;2;r;g;b m`, `ESC [49m`).
#[verifier::external_body]
fn bg_bytes(c: TermColor) -> (r: Vec<u8>)
    ensures
        r@ == color_seq(BG, c),
{
    let mut ret = Vec::new();
    match c {
        TermColor::Ansi(n) => write!(ret, "{}", termion::color::Bg(termion::color::AnsiValue(n))),
        TermColor::Rgb(r, g, b) => write!(ret, "{}", termion::color::Bg(termion::color::Rgb(r, g, b))),
        TermColor::Reset => write!(ret, "{}", termion::color::Bg(termion::color::Reset)),
    }.unwrap();
    ret
}

/// The bytes that set the foreground color.
pub fn col2fg_str(col: TermColor) -> (r: Vec<u8>)
    ensures
        r@ == color_seq(FG, col),
{
    fg_bytes(col)
}

/// The bytes that set the background color.
pub fn col2bg_str(col: TermColor) -> (r: Vec<u8>)
    ensures
        r@ == color_seq(BG, col),
{
    bg_bytes(col)
}

} // verus!
