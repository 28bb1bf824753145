//! Three-row block-glyph digits for the Command Rail's frequency hero.
//!
//! Each character is a 3×3 cell sprite drawn with the half-block elements
//! `▀ ▄ █` (each exactly one terminal column), so `92.800` renders as a big,
//! instrument-panel readout instead of a normal line of text.
use vstd::prelude::*;

verus! {

/// Cell width of a single big glyph (columns).
pub const GLYPH_W: usize = 3;

/// The three rows of the sprite for `c`: a digit, the decimal point, or a
/// blank cell for anything else.
pub open spec fn glyph_rows(c: char) -> (Seq<char>, Seq<char>, Seq<char>) {
    if c == '0' { ("█▀█"@, "█ █"@, "▀▀▀"@) }
    else if c == '1' { (" █ "@, " █ "@, " ▀ "@) }
    else if c == '2' { ("▀▀█"@, "█▀▀"@, "▀▀▀"@) }
    else if c == '3' { ("▀▀█"@, " ▀█"@, "▀▀▀"@) }
    else if c == '4' { ("█ █"@, "▀▀█"@, "  ▀"@) }
    else if c == '5' { ("█▀▀"@, "▀▀█"@, "▀▀▀"@) }
    else if c == '6' { ("█▀▀"@, "█▀█"@, "▀▀▀"@) }
    else if c == '7' { ("▀▀█"@, "  █"@, "  ▀"@) }
    else if c == '8' { ("█▀█"@, "█▀█"@, "▀▀▀"@) }
    else if c == '9' { ("█▀█"@, "▀▀█"@, "▀▀▀"@) }
    else if c == '.' { ("   "@, "   "@, " ▄ "@) }
    else { ("   "@, "   "@, "   "@) }
}

/// The 3-row sprite for one character. Unknown characters render as blank
/// cells, so callers never have to pre-filter the string.
pub fn glyph(c: char) -> (r: [&'static str; 3])
    ensures
        (r[0]@, r[1]@, r[2]@) == glyph_rows(c),
{
    match c {
        '0' => ["█▀█", "█ █", "▀▀▀"],
        '1' => [" █ ", " █ ", " ▀ "],
        '2' => ["▀▀█", "█▀▀", "▀▀▀"],
        '3' => ["▀▀█", " ▀█", "▀▀▀"],
        '4' => ["█ █", "▀▀█", "  ▀"],
        '5' => ["█▀▀", "▀▀█", "▀▀▀"],
        '6' => ["█▀▀", "█▀█", "▀▀▀"],
        '7' => ["▀▀█", "  █", "  ▀"],
        '8' => ["█▀█", "█▀█", "▀▀▀"],
        '9' => ["█▀█", "▀▀█", "▀▀▀"],
        '.' => ["   ", "   ", " ▄ "],
        _ => ["   ", "   ", "   "],
    }
}

/// The rendered width of `n` big glyphs with one blank column between
/// neighbours.
pub open spec fn big_width_of(n: nat) -> nat {
    if n == 0 { 0 } else { (n * 3 + (n - 1)) as nat }
}

/// Big text's width adds up glyph by glyph: nothing is no columns, one
/// character is one glyph wide, and two runs set side by side take their two
/// widths and the one blank column between them (none where either is
/// empty). So `92.800`, six glyphs, is 23 columns.
pub proof fn lemma_big_width_adds(a: Seq<char>, b: Seq<char>, c: char)
    ensures
        big_width_of(Seq::<char>::empty().len()) == 0,
        big_width_of(seq![c].len()) == GLYPH_W,
        big_width_of((a + b).len()) == big_width_of(a.len()) + big_width_of(b.len())
            + (if a.len() > 0 && b.len() > 0 { 1nat } else { 0nat }),
        big_width_of(6) == 23,
{
}

/// Rendered width (columns) of `s` in big glyphs, including one blank column
/// of gap between adjacent characters. Used to decide whether the rail is
/// wide enough for the big readout or must fall back to a single line.
pub fn big_width(s: &str) -> (w: usize)
    requires
        s@.len() * 4 <= usize::MAX,
    ensures
        w == big_width_of(s@.len()),
{
    let n = s.unicode_len();
    if n == 0 {
        0
    } else {
        n * GLYPH_W + (n - 1)
    }
}

} // verus!
