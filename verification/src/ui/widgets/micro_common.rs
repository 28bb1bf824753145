//! Shared read-out formatters for the micro ecosystem panels, so the four
//! panels print a frequency and a bandwidth the same way.
use vstd::prelude::*;
use crate::text::{dec, fixed, push_str, push_dec};
use crate::rounding::{printed, printed_u64, push_fixed_wide};
use crate::ui::chrome::{Ink, Piece};

verus! {

/// `433.920 MHz`: a frequency in hertz to the kilohertz, in megahertz. The
/// quotient is the double's, printed with a tie to the even digit (see
/// `rounding`): 1 000 500 Hz reads `1.000 MHz`.
pub open spec fn freq_mhz_text(hz: nat) -> Seq<char> {
    fixed(printed(hz, 1_000_000, 1000), 3) + " MHz"@
}

/// `1.500 MHz` / `152.0 kHz` / `400 Hz`: roughly four significant figures at
/// every scale, each quotient the double's, printed with a tie to the even
/// digit (`1.2 kHz` for 1250 Hz).
pub open spec fn bw_text(hz: nat) -> Seq<char> {
    if hz >= 1_000_000 {
        fixed(printed(hz, 1_000_000, 1000), 3) + " MHz"@
    } else if hz >= 1_000 {
        fixed(printed(hz, 1000, 10), 1) + " kHz"@
    } else {
        dec(hz) + " Hz"@
    }
}

pub fn fmt_freq_mhz(hz: u64) -> (s: String)
    ensures
        s@ == freq_mhz_text(hz as nat),
{
    let mut s = String::new();
    push_fixed_wide(&mut s, printed_u64(hz, 1_000_000, 1000), 3);
    push_str(&mut s, " MHz");
    s
}

/// `1.500 MHz` / `152.0 kHz` / `400 Hz` — the one bandwidth readout.
///
/// The precision is the lab one: roughly four significant figures at every
/// scale, so the readout resolves to about 1 kHz on a megahertz-wide signal
/// and 100 Hz on a kilohertz-wide one.
pub fn fmt_bw(hz: u64) -> (s: String)
    ensures
        s@ == bw_text(hz as nat),
{
    let mut s = String::new();
    if hz >= 1_000_000 {
        push_fixed_wide(&mut s, printed_u64(hz, 1_000_000, 1000), 3);
        push_str(&mut s, " MHz");
    } else if hz >= 1_000 {
        push_fixed_wide(&mut s, printed_u64(hz, 1000, 10), 1);
        push_str(&mut s, " kHz");
    } else {
        push_dec(&mut s, hz);
        push_str(&mut s, " Hz");
    }
    s
}

/// How old an FFT frame may get before the data derived from it is stale.
pub const FFT_STALE_MS: u64 = 500;

/// The staleness rule for FFT-derived data: no frame, or the last one
/// older than the shared threshold.
pub open spec fn is_fft_stale(last_fft_age_ms: Option<u64>) -> bool {
    match last_fft_age_ms {
        None => true,
        Some(age) => age > FFT_STALE_MS,
    }
}

/// Whether FFT-derived signal data (SNR, PWR, NF, RBW) is stale: no frame,
/// or the last one older than the shared threshold. `last_fft_age_ms` is the
/// age of the latest frame, `None` when there is none.
pub fn fft_stale(last_fft_age_ms: Option<u64>) -> (stale: bool)
    ensures
        stale == is_fft_stale(last_fft_age_ms),
{
    match last_fft_age_ms {
        None => true,
        Some(age) => age > FFT_STALE_MS,
    }
}

/// The status ink for a drop count: none is good, a handful a warning,
/// ten or more critical.
pub fn drop_ink(drops: u64) -> (ink: Ink)
    ensures
        ink == (if drops == 0 { Ink::Good } else if drops < 10 { Ink::Warn } else { Ink::Crit }),
{
    if drops == 0 {
        Ink::Good
    } else if drops < 10 {
        Ink::Warn
    } else {
        Ink::Crit
    }
}

/// The receive badge: `● RX` in the good ink while receiving, `○ IDLE` in the
/// warning ink otherwise; the dot and the word as two pieces, both in the
/// status ink so they read on a monochrome terminal.
pub fn status_badge(rx_enabled: bool) -> (b: (Piece, Piece))
    ensures
        b.0.text@ == (if rx_enabled { "\u{25cf}"@ } else { "\u{25cb}"@ }),
        b.1.text@ == (if rx_enabled { " RX"@ } else { " IDLE"@ }),
        b.0.ink == (if rx_enabled { Ink::Good } else { Ink::Warn }),
        b.1.ink == b.0.ink,
{
    let (dot, ink, word) = if rx_enabled { ("\u{25cf}", Ink::Good, " RX") } else { ("\u{25cb}", Ink::Warn, " IDLE") };
    (crate::ui::chrome::text_piece(dot, ink), crate::ui::chrome::text_piece(word, ink))
}

} // verus!
