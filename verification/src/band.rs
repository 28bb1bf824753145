//! The 2.4 GHz ISM band the NET section watches: its edges, the one-megahertz
//! cells the occupancy survey keeps, and where the Wi-Fi channels sit in it.
use vstd::prelude::*;

verus! {

/// The band's lower edge.
pub const LOW_HZ: u64 = 2_400_000_000;

/// The band's upper edge.
pub const HIGH_HZ: u64 = 2_483_500_000;

/// One-megahertz cells the survey keeps, `LOW_HZ` upwards: 2400 to 2483 MHz.
pub const CELLS: usize = 83;

/// The centre of 2.4 GHz Wi-Fi channel `ch`, 1 to 13, five megahertz apart
/// from 2412 MHz.
pub open spec fn wifi_centre(ch: nat) -> Option<nat> {
    if 1 <= ch <= 13 { Some((2_407_000_000 + 5_000_000 * ch) as nat) } else { None }
}

/// The centre of 2.4 GHz Wi-Fi channel `ch`, or `None` outside 1 to 13.
pub fn wifi_centre_hz(ch: u8) -> (hz: Option<u64>)
    ensures
        match hz {
            Some(h) => wifi_centre(ch as nat) == Some(h as nat),
            None => wifi_centre(ch as nat) is None,
        },
{
    if ch >= 1 && ch <= 13 {
        Some(2_407_000_000 + 5_000_000 * ch as u64)
    } else {
        None
    }
}

/// The survey cell a frequency falls in.
pub open spec fn cell(hz: nat) -> Option<nat> {
    if LOW_HZ <= hz && (hz - LOW_HZ) / 1_000_000 < CELLS {
        Some(((hz - LOW_HZ) / 1_000_000) as nat)
    } else {
        None
    }
}

/// The survey cell `hz` falls in, or `None` outside the surveyed band.
pub fn cell_of(hz: u64) -> (c: Option<usize>)
    ensures
        match c {
            Some(k) => cell(hz as nat) == Some(k as nat),
            None => cell(hz as nat) is None,
        },
{
    if hz >= LOW_HZ && (hz - LOW_HZ) / 1_000_000 < CELLS as u64 {
        Some(((hz - LOW_HZ) / 1_000_000) as usize)
    } else {
        None
    }
}

} // verus!
