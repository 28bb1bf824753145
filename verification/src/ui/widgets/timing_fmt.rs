//! Shared formatting for the timing read-outs, so every panel that prints a
//! period, a drift or a verdict prints it the same way.
use vstd::prelude::*;
use crate::text::{dec, digit, digit_char, fixed, push_char, push_fixed, push_str, push_dec};
use crate::ui::chrome::{Ink, Piece};

verus! {

/// `450 µs` below a millisecond, `13.107 ms` from there up.
pub open spec fn us_text(us: nat) -> Seq<char> {
    if us >= 1_000 { fixed(us, 3) + " ms"@ } else { dec(us) + " µs"@ }
}

/// Microseconds rendered as `ms` once they pass 1000 µs, else plain `µs`.
pub fn fmt_us(us: u64) -> (s: String)
    ensures
        s@ == us_text(us as nat),
{
    let mut s = String::new();
    if us >= 1_000 {
        push_fixed(&mut s, us, 3);
        push_str(&mut s, " ms");
    } else {
        push_dec(&mut s, us);
        push_str(&mut s, " µs");
    }
    s
}

/// A stretch of time given in milliseconds: `500 ms` below a second, then
/// whole seconds, `20 s`, and a tenth where the seconds are not whole,
/// `1.5 s`.
pub open spec fn seconds_text(ms: nat) -> Seq<char> {
    if ms < 1000 {
        dec(ms) + " ms"@
    } else if ms % 1000 == 0 {
        dec(ms / 1000) + " s"@
    } else {
        dec(ms / 1000) + seq!['.', digit((ms % 1000) / 100)] + " s"@
    }
}

/// Appends a stretch of time given in milliseconds.
pub fn push_seconds_ms(s: &mut String, ms: u64)
    ensures
        final(s)@ == old(s)@ + seconds_text(ms as nat),
{
    let ghost start = s@;
    if ms < 1000 {
        push_dec(s, ms);
        push_str(s, " ms");
    } else if ms % 1000 == 0 {
        push_dec(s, ms / 1000);
        push_str(s, " s");
    } else {
        push_dec(s, ms / 1000);
        push_char(s, '.');
        push_char(s, digit_char((ms % 1000) / 100));
        push_str(s, " s");
    }
    assert(s@ =~= start + seconds_text(ms as nat));
}

/// A signed figure with its sign always written: `+12`, `-120`, `+0`.
pub open spec fn signed_text(v: int) -> Seq<char> {
    if v < 0 { seq!['-'] + dec((-v) as nat) } else { seq!['+'] + dec(v as nat) }
}

/// The ink a ppm error is drawn in by its size: under 50 good, under 200 a
/// warning, critical beyond.
pub open spec fn ppm_ink(ppm: int) -> Ink {
    let mag = if ppm < 0 { -ppm } else { ppm };
    if mag < 50 { Ink::Good } else if mag < 200 { Ink::Warn } else { Ink::Crit }
}

/// A signed ppm figure, `+12 ppm`, in the ink its size earns.
pub fn ppm_span(ppm: i64) -> (p: Piece)
    ensures
        p.text@ == signed_text(ppm as int) + " ppm"@,
        p.ink == ppm_ink(ppm as int),
{
    let mag: u64 = if ppm < 0 { (-(ppm as i128)) as u64 } else { ppm as u64 };
    let mut s = String::new();
    push_char(&mut s, if ppm < 0 { '-' } else { '+' });
    push_dec(&mut s, mag);
    push_str(&mut s, " ppm");
    let ink = if mag < 50 { Ink::Good } else if mag < 200 { Ink::Warn } else { Ink::Crit };
    Piece { text: s, ink, bold: false }
}

/// The ink of a timing verdict by its severity rank: the best good, the next
/// the highlight, then a warning, and critical for anything worse.
pub fn quality_ink(severity: u8) -> (ink: Ink)
    ensures
        ink == (if severity == 0 { Ink::Good } else if severity == 1 { Ink::ValueHi } else if severity == 2 { Ink::Warn } else { Ink::Crit }),
{
    match severity {
        0 => Ink::Good,
        1 => Ink::ValueHi,
        2 => Ink::Warn,
        _ => Ink::Crit,
    }
}

} // verus!
