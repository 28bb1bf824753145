//! One clock, as a moving-coil ppm meter: what the clock error block becomes
//! when a device is selected. Where the selected clock ranks in the room is
//! said in words beside the dial.
use vstd::prelude::*;
use crate::text::{dec, owned, push_dec, push_str};

verus! {

/// The English suffix of the ordinal `rank`: `st`, `nd`, `rd` or `th`, the
/// teens all `th`.
pub open spec fn suffix(rank: nat) -> Seq<char> {
    if 11 <= rank % 100 <= 13 {
        "th"@
    } else if rank % 10 == 1 {
        "st"@
    } else if rank % 10 == 2 {
        "nd"@
    } else if rank % 10 == 3 {
        "rd"@
    } else {
        "th"@
    }
}

/// A rank as English: `worst`, `2nd worst`, `11th worst`, `21st worst`.
pub open spec fn ordinal_text(rank: nat) -> Seq<char> {
    if rank == 1 { "worst"@ } else { dec(rank) + suffix(rank) + " worst"@ }
}

/// `worst`, `2nd worst`, `11th worst`, `21st worst`.
pub fn ordinal(rank: usize) -> (s: String)
    ensures
        s@ == ordinal_text(rank as nat),
{
    if rank == 1 {
        return owned("worst");
    }
    let mut s = String::new();
    push_dec(&mut s, rank as u64);
    let tens = rank % 100;
    let suffix = if 11 <= tens && tens <= 13 {
        "th"
    } else if rank % 10 == 1 {
        "st"
    } else if rank % 10 == 2 {
        "nd"
    } else if rank % 10 == 3 {
        "rd"
    } else {
        "th"
    };
    push_str(&mut s, suffix);
    push_str(&mut s, " worst");
    s
}

} // verus!
