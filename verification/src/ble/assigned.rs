//! A snapshot of the Bluetooth SIG's assigned numbers: the 16-bit service
//! UUIDs and company identifiers this decoder names. A number missing from
//! the snapshot is still shown, as a number.
use vstd::prelude::*;

verus! {

/// The SIG's name for a 16-bit service UUID, where the snapshot has it.
pub open spec fn service16_name(n: nat) -> Option<Seq<char>> {
    if n == 0x1800 { Some("Generic Access"@) }
    else if n == 0x1801 { Some("Generic Attribute"@) }
    else if n == 0x1802 { Some("Immediate Alert"@) }
    else if n == 0x1803 { Some("Link Loss"@) }
    else if n == 0x1804 { Some("Tx Power"@) }
    else if n == 0x1805 { Some("Current Time"@) }
    else if n == 0x180A { Some("Device Information"@) }
    else if n == 0x180D { Some("Heart Rate"@) }
    else if n == 0x180F { Some("Battery"@) }
    else if n == 0x1812 { Some("Human Interface Device"@) }
    else { None }
}

/// The SIG's name for a 16-bit service UUID, where the snapshot has it.
pub fn service16(n: u16) -> (name: Option<&'static str>)
    ensures
        match name {
            Some(t) => service16_name(n as nat) == Some(t@),
            None => service16_name(n as nat) is None,
        },
{
    if n == 0x1800 { Some("Generic Access") }
    else if n == 0x1801 { Some("Generic Attribute") }
    else if n == 0x1802 { Some("Immediate Alert") }
    else if n == 0x1803 { Some("Link Loss") }
    else if n == 0x1804 { Some("Tx Power") }
    else if n == 0x1805 { Some("Current Time") }
    else if n == 0x180A { Some("Device Information") }
    else if n == 0x180D { Some("Heart Rate") }
    else if n == 0x180F { Some("Battery") }
    else if n == 0x1812 { Some("Human Interface Device") }
    else { None }
}

/// The SIG's name for a company identifier, where the snapshot has it.
pub open spec fn company_name(id: nat) -> Option<Seq<char>> {
    if id == 0x0006 { Some("Microsoft"@) }
    else if id == 0x004C { Some("Apple, Inc."@) }
    else if id == 0x0059 { Some("Nordic Semiconductor ASA"@) }
    else if id == 0x0075 { Some("Samsung Electronics Co. Ltd."@) }
    else if id == 0x00E0 { Some("Google"@) }
    else { None }
}

/// The SIG's name for a company identifier, where the snapshot has it.
pub fn company(id: u16) -> (name: Option<&'static str>)
    ensures
        match name {
            Some(t) => company_name(id as nat) == Some(t@),
            None => company_name(id as nat) is None,
        },
{
    if id == 0x0006 { Some("Microsoft") }
    else if id == 0x004C { Some("Apple, Inc.") }
    else if id == 0x0059 { Some("Nordic Semiconductor ASA") }
    else if id == 0x0075 { Some("Samsung Electronics Co. Ltd.") }
    else if id == 0x00E0 { Some("Google") }
    else { None }
}

} // verus!
