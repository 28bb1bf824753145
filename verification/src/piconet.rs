//! Classic Bluetooth piconets as the roster knows them: by the lower address
//! part their access codes carry.
//!
//! **A LAP is a piconet, not a device.** Every member of a piconet sends the
//! master's LAP, so a roster keyed by it counts piconets. The inquiry access
//! codes are the exception: a searching device sends a code the
//! specification reserves, which is nobody's address.
use vstd::prelude::*;
use crate::order::{is_key_order, key_order};
use crate::state::Piconet;
use crate::text::{hexpad, pad_right, push_hexpad, push_pad_right, push_str};

verus! {

/// The UAP an inquiry access code is checked against: the default check
/// initialisation.
pub const DCI: u8 = 0x00;

/// The reserved inquiry access codes run from this LAP ...
pub const INQUIRY_FIRST: u32 = 0x9E8B00;
/// ... to this one.
pub const INQUIRY_LAST: u32 = 0x9E8B3F;
/// The general inquiry access code: any discoverable device answers it.
pub const GIAC: u32 = 0x9E8B33;
/// The limited inquiry access code: devices discoverable for a while answer it.
pub const LIAC: u32 = 0x9E8B00;

/// Which inquiry a reserved access code asks.
#[derive(Clone, Copy, PartialEq, Eq, Structural, Debug)]
pub enum Inquiry {
    General,
    Limited,
    Dedicated,
}

/// The inquiry a LAP is, if it is one of the reserved codes.
pub open spec fn inquiry_of(lap: u32) -> Option<Inquiry> {
    if lap == GIAC {
        Some(Inquiry::General)
    } else if lap == LIAC {
        Some(Inquiry::Limited)
    } else if INQUIRY_FIRST <= lap <= INQUIRY_LAST {
        Some(Inquiry::Dedicated)
    } else {
        None
    }
}

/// Each inquiry's abbreviation.
pub open spec fn short_text(i: Inquiry) -> Seq<char> {
    match i {
        Inquiry::General => "GIAC"@,
        Inquiry::Limited => "LIAC"@,
        Inquiry::Dedicated => "DIAC"@,
    }
}

/// What each inquiry is, in words.
pub open spec fn meaning_text(i: Inquiry) -> Seq<char> {
    match i {
        Inquiry::General => "general inquiry: a device searching for every discoverable device"@,
        Inquiry::Limited => "limited inquiry: a device searching for those discoverable for a while"@,
        Inquiry::Dedicated => "dedicated inquiry: a device searching for one class of device"@,
    }
}

impl Inquiry {
    /// The inquiry a LAP is, if it is one of the reserved codes.
    pub fn of(lap: u32) -> (r: Option<Inquiry>)
        ensures
            r == inquiry_of(lap),
    {
        if lap == GIAC {
            Some(Inquiry::General)
        } else if lap == LIAC {
            Some(Inquiry::Limited)
        } else if INQUIRY_FIRST <= lap && lap <= INQUIRY_LAST {
            Some(Inquiry::Dedicated)
        } else {
            None
        }
    }

    /// `GIAC`, `LIAC` or `DIAC`.
    pub fn short(&self) -> (s: &'static str)
        ensures
            s@ == short_text(*self),
    {
        match self {
            Inquiry::General => "GIAC",
            Inquiry::Limited => "LIAC",
            Inquiry::Dedicated => "DIAC",
        }
    }

    /// What the inquiry is, in words.
    pub fn meaning(&self) -> (s: &'static str)
        ensures
            s@ == meaning_text(*self),
    {
        match self {
            Inquiry::General => "general inquiry: a device searching for every discoverable device",
            Inquiry::Limited => "limited inquiry: a device searching for those discoverable for a while",
            Inquiry::Dedicated => "dedicated inquiry: a device searching for one class of device",
        }
    }
}

/// How many hexadecimal digits a LAP is written in: six, more where the
/// number needs them.
pub open spec fn lap_digits(lap: u32) -> nat {
    if lap < 0x100_0000 {
        6
    } else if lap < 0x1000_0000 {
        7
    } else {
        8
    }
}

/// A LAP in hexadecimal: `0x5a3c71`.
pub open spec fn lap_hex(lap: u32) -> Seq<char> {
    "0x"@ + hexpad(lap as nat, lap_digits(lap), false)
}

/// A LAP as the roster and the hop lanes name it: an inquiry code by its
/// abbreviation, padded to the width of a LAP, every other LAP in hex.
pub open spec fn lap_name_text(lap: u32) -> Seq<char> {
    match inquiry_of(lap) {
        Some(i) => pad_right(short_text(i), 8),
        None => lap_hex(lap),
    }
}

/// Appends a LAP in hexadecimal.
pub fn push_lap_hex(s: &mut String, lap: u32)
    ensures
        final(s)@ == old(s)@ + lap_hex(lap),
{
    let digits: u32 = if lap < 0x100_0000 {
        6
    } else if lap < 0x1000_0000 {
        7
    } else {
        8
    };
    let ghost start = s@;
    push_str(s, "0x");
    push_hexpad(s, lap as u64, digits, false);
    assert(s@ =~= start + lap_hex(lap));
}

/// A LAP as the roster and the hop lanes name it.
pub fn lap_name(lap: u32) -> (s: String)
    ensures
        s@ == lap_name_text(lap),
{
    let mut s = String::new();
    match Inquiry::of(lap) {
        Some(i) => push_pad_right(&mut s, i.short(), 8),
        None => push_lap_hex(&mut s, lap),
    }
    assert(s@ =~= lap_name_text(lap));
    s
}

/// When each piconet was last heard, in milliseconds ago: the number the
/// roster is ordered by.
pub open spec fn last_heard(ps: Seq<Piconet>) -> Seq<u64> {
    Seq::new(ps.len(), |i: int| ps[i].last_seen_ms)
}

/// Whether `order` is the roster's: every piconet once, the most recently
/// heard first, and among those heard at the same moment the one heard
/// first before the others.
pub open spec fn is_roster_order(ps: Seq<Piconet>, order: Seq<usize>) -> bool {
    is_key_order(last_heard(ps), order)
}

/// The roster's order: the most recently heard piconet first.
pub fn roster_order(ps: &Vec<Piconet>) -> (order: Vec<usize>)
    ensures
        is_roster_order(ps@, order@),
{
    let mut keys: Vec<u64> = Vec::new();
    let mut i: usize = 0;
    while i < ps.len()
        invariant
            i <= ps@.len(),
            keys@.len() == i,
            forall|k: int| 0 <= k < i ==> #[trigger] keys@[k] == ps@[k].last_seen_ms,
        decreases ps@.len() - i,
    {
        keys.push(ps[i].last_seen_ms);
        i = i + 1;
    }
    assert(keys@ =~= last_heard(ps@));
    key_order(&keys)
}

} // verus!
