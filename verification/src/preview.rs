//! Text that shows colours on a terminal, by ANSI escape sequences that
//! set a 24-bit background colour.

use vstd::prelude::*;
use vstd::string::StringExecFns;
use crate::text::{decimal, push_decimal};

verus! {

/// The red channel of a colour packed as `0xRRGGBB`.
pub open spec fn red_of(color: u32) -> u32 {
    (color >> 16) & 0xFF
}

/// The green channel of a colour packed as `0xRRGGBB`.
pub open spec fn green_of(color: u32) -> u32 {
    (color >> 8) & 0xFF
}

/// The blue channel of a colour packed as `0xRRGGBB`.
pub open spec fn blue_of(color: u32) -> u32 {
    color & 0xFF
}

/// The text on a background of the colour: the sequence that sets the
/// background to the three channels, written in decimal, then the text,
/// then the sequence that resets the terminal's colours.
pub open spec fn painted(text: Seq<char>, color: u32) -> Seq<char> {
    "\x1b[48;2;"@ + decimal(red_of(color) as nat) + seq![';'] + decimal(green_of(color) as nat)
        + seq![';'] + decimal(blue_of(color) as nat) + seq!['m'] + text + "\x1b[0m"@
}

/// Wraps `text` in the escape sequences that show it on a background of
/// the colour `color`, packed as `0xRRGGBB`.
pub fn ansi_paint_str(text: &str, color: u32) -> (out: String)
    ensures
        out@ == painted(text@, color),
{
    let mut out = "\x1b[48;2;".to_owned();
    push_decimal(&mut out, ((color >> 16) & 0xFF) as u64);
    out.push(';');
    push_decimal(&mut out, ((color >> 8) & 0xFF) as u64);
    out.push(';');
    push_decimal(&mut out, (color & 0xFF) as u64);
    out.push('m');
    out.append(text);
    out.append("\x1b[0m");
    proof {
        assert(out@ =~= painted(text@, color));
    }
    out
}

/// A row of swatches for the first `n` colours of a palette: two spaces on
/// each colour, and a line break after every eighth.
pub open spec fn swatches(palette: Seq<(String, u32)>, n: int) -> Seq<char>
    decreases n,
{
    if n <= 0 {
        Seq::empty()
    } else {
        swatches(palette, n - 1) + painted("  "@, palette[n - 1].1) + if (n - 1) % 8 == 7 {
            seq!['\n']
        } else {
            Seq::empty()
        }
    }
}

/// The swatches of a palette, eight to a line, with a line break at the
/// end.
pub fn ansi_paint_palette(palette: &[(String, u32)]) -> (out: String)
    ensures
        out@ == swatches(palette@, palette.len() as int).push('\n'),
{
    let mut out = String::new();
    let mut index: usize = 0;
    while index < palette.len()
        invariant
            0 <= index <= palette.len(),
            out@ == swatches(palette@, index as int),
        decreases palette.len() - index,
    {
        let ghost before = out@;
        let swatch = ansi_paint_str("  ", palette[index].1);
        out.append(swatch.as_str());
        if index % 8 == 7 {
            out.push('\n');
        }
        proof {
            assert(out@ =~= swatches(palette@, index + 1));
        }
        index += 1;
    }
    out.push('\n');
    out
}

} // verus!
