//! Bluetooth Low Energy as the advertising channels carry it: the PDU types
//! of the header, the kinds of device address, and octets written the way
//! the specification writes them.
use vstd::prelude::*;
use crate::text::{hexpad, owned, push_char, push_hexpad, push_str};

pub mod ad;
pub mod assigned;
pub mod connect;

verus! {

/// An advertising channel PDU's type, from the four bits of its header.
#[derive(Clone, Copy, PartialEq, Eq, Structural, Debug)]
pub enum PduType {
    AdvInd,
    AdvDirectInd,
    AdvNonconnInd,
    ScanReq,
    ScanRsp,
    ConnectInd,
    AdvScanInd,
    /// A code this decoder gives no name of its own: `7` is extended
    /// advertising, the rest are reserved.
    Other(u8),
}

/// The type a header's four type bits name.
pub open spec fn pdu_of(code: nat) -> PduType {
    if code == 0 { PduType::AdvInd }
    else if code == 1 { PduType::AdvDirectInd }
    else if code == 2 { PduType::AdvNonconnInd }
    else if code == 3 { PduType::ScanReq }
    else if code == 4 { PduType::ScanRsp }
    else if code == 5 { PduType::ConnectInd }
    else if code == 6 { PduType::AdvScanInd }
    else { PduType::Other(code as u8) }
}

/// The name the specification gives a PDU type.
pub open spec fn pdu_label(t: PduType) -> Seq<char> {
    match t {
        PduType::AdvInd => "ADV_IND"@,
        PduType::AdvDirectInd => "ADV_DIRECT_IND"@,
        PduType::AdvNonconnInd => "ADV_NONCONN_IND"@,
        PduType::ScanReq => "SCAN_REQ"@,
        PduType::ScanRsp => "SCAN_RSP"@,
        PduType::ConnectInd => "CONNECT_IND"@,
        PduType::AdvScanInd => "ADV_SCAN_IND"@,
        PduType::Other(c) => if c == 7 { "ADV_EXT_IND"@ } else { "RESERVED"@ },
    }
}

impl PduType {
    /// The type a header's four type bits name.
    pub fn from_bits(code: u8) -> (t: PduType)
        requires
            code < 16,
        ensures
            t == pdu_of(code as nat),
    {
        if code == 0 { PduType::AdvInd }
        else if code == 1 { PduType::AdvDirectInd }
        else if code == 2 { PduType::AdvNonconnInd }
        else if code == 3 { PduType::ScanReq }
        else if code == 4 { PduType::ScanRsp }
        else if code == 5 { PduType::ConnectInd }
        else if code == 6 { PduType::AdvScanInd }
        else { PduType::Other(code) }
    }

    /// `ADV_IND`, `SCAN_RSP`: the specification's name.
    pub fn label(&self) -> (s: String)
        ensures
            s@ == pdu_label(*self),
    {
        match self {
            PduType::AdvInd => owned("ADV_IND"),
            PduType::AdvDirectInd => owned("ADV_DIRECT_IND"),
            PduType::AdvNonconnInd => owned("ADV_NONCONN_IND"),
            PduType::ScanReq => owned("SCAN_REQ"),
            PduType::ScanRsp => owned("SCAN_RSP"),
            PduType::ConnectInd => owned("CONNECT_IND"),
            PduType::AdvScanInd => owned("ADV_SCAN_IND"),
            PduType::Other(c) => if *c == 7 { owned("ADV_EXT_IND") } else { owned("RESERVED") },
        }
    }

    /// The types whose payload starts with the advertiser's address and
    /// carries advertising data after it.
    pub open spec fn carries_adv_data(self) -> bool {
        self == PduType::AdvInd || self == PduType::AdvNonconnInd || self == PduType::ScanRsp
            || self == PduType::AdvScanInd
    }
}

/// What a device address is, from the header bit that says public or
/// random and, for a random one, its two most significant bits.
#[derive(Clone, Copy, PartialEq, Eq, Structural, Debug)]
pub enum AddressKind {
    Public,
    /// Random static: fixed at least for a power cycle.
    Static,
    /// Resolvable private: rotates, and only a bonded peer can follow it.
    Resolvable,
    /// Non-resolvable private: rotates, and nobody can follow it.
    NonResolvable,
    /// A random address whose top bits the specification reserves.
    Reserved,
}

/// The kind of `a` (most significant octet first) sent with `random` set
/// or not.
pub open spec fn kind_of(a: [u8; 6], random: bool) -> AddressKind {
    if !random {
        AddressKind::Public
    } else {
        let top = a[0] / 64;
        if top == 3 { AddressKind::Static }
        else if top == 1 { AddressKind::Resolvable }
        else if top == 0 { AddressKind::NonResolvable }
        else { AddressKind::Reserved }
    }
}

/// The short name a kind is shown by.
pub open spec fn kind_label(k: AddressKind) -> Seq<char> {
    match k {
        AddressKind::Public => "public"@,
        AddressKind::Static => "static"@,
        AddressKind::Resolvable => "RPA"@,
        AddressKind::NonResolvable => "NRPA"@,
        AddressKind::Reserved => "reserved"@,
    }
}

/// The kind of `a` sent with `random` set or not.
pub fn kind(a: [u8; 6], random: bool) -> (k: AddressKind)
    ensures
        k == kind_of(a, random),
{
    if !random {
        AddressKind::Public
    } else {
        let top = a[0] / 64;
        if top == 3 { AddressKind::Static }
        else if top == 1 { AddressKind::Resolvable }
        else if top == 0 { AddressKind::NonResolvable }
        else { AddressKind::Reserved }
    }
}

impl AddressKind {
    /// `public`, `RPA`: the kind's short name.
    pub fn label(&self) -> (s: String)
        ensures
            s@ == kind_label(*self),
    {
        match self {
            AddressKind::Public => owned("public"),
            AddressKind::Static => owned("static"),
            AddressKind::Resolvable => owned("RPA"),
            AddressKind::NonResolvable => owned("NRPA"),
            AddressKind::Reserved => owned("reserved"),
        }
    }
}

/// Octets as two hexadecimal digits each, run together.
pub open spec fn hexcat(data: Seq<u8>, upper: bool) -> Seq<char>
    decreases data.len(),
{
    if data.len() == 0 {
        seq![]
    } else {
        hexcat(data.drop_last(), upper) + hexpad(data.last() as nat, 2, upper)
    }
}

/// Octets as two lower-case hexadecimal digits each, a space between them:
/// `55 66 a0`.
pub open spec fn hex_text(data: Seq<u8>) -> Seq<char>
    decreases data.len(),
{
    if data.len() == 0 {
        seq![]
    } else if data.len() == 1 {
        hexpad(data[0] as nat, 2, false)
    } else {
        hex_text(data.drop_last()) + seq![' '] + hexpad(data.last() as nat, 2, false)
    }
}

/// Appends `data[from..to]` as hexadecimal pairs, run together.
pub fn push_hexcat(s: &mut String, data: &[u8], from: usize, to: usize, upper: bool)
    requires
        from <= to <= data@.len(),
    ensures
        final(s)@ == old(s)@ + hexcat(data@.subrange(from as int, to as int), upper),
{
    let ghost start = s@;
    let mut i = from;
    assert(data@.subrange(from as int, from as int) =~= Seq::<u8>::empty());
    while i < to
        invariant
            from <= i <= to <= data@.len(),
            s@ == start + hexcat(data@.subrange(from as int, i as int), upper),
        decreases to - i,
    {
        push_hexpad(s, data[i] as u64, 2, upper);
        proof {
            assert(data@.subrange(from as int, i + 1).drop_last() =~= data@.subrange(from as int, i as int));
        }
        i = i + 1;
    }
}

/// `55 66 a0`: octets as the air carried them.
pub fn hex(data: &[u8]) -> (s: String)
    ensures
        s@ == hex_text(data@),
{
    let mut s = String::new();
    let mut i: usize = 0;
    assert(data@.subrange(0, 0) =~= Seq::<u8>::empty());
    while i < data.len()
        invariant
            i <= data@.len(),
            s@ == hex_text(data@.subrange(0, i as int)),
        decreases data@.len() - i,
    {
        if i > 0 {
            push_char(&mut s, ' ');
        }
        push_hexpad(&mut s, data[i] as u64, 2, false);
        proof {
            let next = data@.subrange(0, i + 1);
            assert(next.drop_last() =~= data@.subrange(0, i as int));
            if i == 0 {
                assert(next =~= seq![data@[0]]);
            }
        }
        i = i + 1;
    }
    assert(data@.subrange(0, data@.len() as int) =~= data@);
    s
}

/// A UUID as the specification writes it: `0x180F Battery` for a 16-bit
/// one (its SIG name where the snapshot lists it), `0x12345678` for 32
/// bits, `00010203-0405-0607-0809-0a0b0c0d0e0f` for 128, and the octets run
/// together for any other length.
pub open spec fn uuid_text(w: Seq<u8>) -> Seq<char> {
    if w.len() == 2 {
        let n = w[0] as nat * 256 + w[1] as nat;
        let number = seq!['0', 'x'] + hexpad(n, 4, true);
        match crate::ble::assigned::service16_name(n) {
            Some(name) => number + seq![' '] + name,
            None => number,
        }
    } else if w.len() == 4 {
        seq!['0', 'x'] + hexcat(w, true)
    } else if w.len() == 16 {
        hexcat(w.subrange(0, 4), false) + seq!['-'] + hexcat(w.subrange(4, 6), false) + seq!['-']
            + hexcat(w.subrange(6, 8), false) + seq!['-'] + hexcat(w.subrange(8, 10), false) + seq!['-']
            + hexcat(w.subrange(10, 16), false)
    } else {
        hexcat(w, false)
    }
}

/// Octets run together in hexadecimal take two characters each.
pub proof fn lemma_hexcat_len(data: Seq<u8>, upper: bool)
    ensures
        hexcat(data, upper).len() == 2 * data.len(),
    decreases data.len(),
{
    if data.len() > 0 {
        lemma_hexcat_len(data.drop_last(), upper);
        crate::text::lemma_hexpad_len(data.last() as nat, 2, upper);
    }
}

/// A 128-bit UUID is written in the 8-4-4-4-12 form: 36 characters, with
/// dashes after the 4th, 6th, 8th and 10th octets' digits and the digits of
/// its 16 octets, in order, between them.
pub proof fn lemma_uuid128_form(w: Seq<u8>)
    requires
        w.len() == 16,
    ensures
        uuid_text(w).len() == 36,
        uuid_text(w)[8] == '-' && uuid_text(w)[13] == '-' && uuid_text(w)[18] == '-'
            && uuid_text(w)[23] == '-',
        uuid_text(w).subrange(0, 8) == hexcat(w.subrange(0, 4), false),
        uuid_text(w).subrange(9, 13) == hexcat(w.subrange(4, 6), false),
        uuid_text(w).subrange(14, 18) == hexcat(w.subrange(6, 8), false),
        uuid_text(w).subrange(19, 23) == hexcat(w.subrange(8, 10), false),
        uuid_text(w).subrange(24, 36) == hexcat(w.subrange(10, 16), false),
{
    let a = hexcat(w.subrange(0, 4), false);
    let b = hexcat(w.subrange(4, 6), false);
    let c = hexcat(w.subrange(6, 8), false);
    let d = hexcat(w.subrange(8, 10), false);
    let f = hexcat(w.subrange(10, 16), false);
    lemma_hexcat_len(w.subrange(0, 4), false);
    lemma_hexcat_len(w.subrange(4, 6), false);
    lemma_hexcat_len(w.subrange(6, 8), false);
    lemma_hexcat_len(w.subrange(8, 10), false);
    lemma_hexcat_len(w.subrange(10, 16), false);
    let t = uuid_text(w);
    assert(t == a + seq!['-'] + b + seq!['-'] + c + seq!['-'] + d + seq!['-'] + f);
    assert(t.subrange(0, 8) =~= a);
    assert(t.subrange(9, 13) =~= b);
    assert(t.subrange(14, 18) =~= c);
    assert(t.subrange(19, 23) =~= d);
    assert(t.subrange(24, 36) =~= f);
}

/// A UUID as the specification writes it.
pub fn uuid(written: &[u8]) -> (s: String)
    ensures
        s@ == uuid_text(written@),
{
    let n = written.len();
    let mut s = String::new();
    if n == 2 {
        let v: u16 = written[0] as u16 * 256 + written[1] as u16;
        push_str(&mut s, "0x");
        push_hexpad(&mut s, v as u64, 4, true);
        proof {
            reveal_strlit("0x");
        }
        match crate::ble::assigned::service16(v) {
            Some(name) => {
                push_char(&mut s, ' ');
                push_str(&mut s, name);
            },
            None => {},
        }
    } else if n == 4 {
        push_str(&mut s, "0x");
        push_hexcat(&mut s, written, 0, 4, true);
        proof {
            reveal_strlit("0x");
            assert(written@.subrange(0, 4) =~= written@);
        }
    } else if n == 16 {
        push_hexcat(&mut s, written, 0, 4, false);
        push_char(&mut s, '-');
        push_hexcat(&mut s, written, 4, 6, false);
        push_char(&mut s, '-');
        push_hexcat(&mut s, written, 6, 8, false);
        push_char(&mut s, '-');
        push_hexcat(&mut s, written, 8, 10, false);
        push_char(&mut s, '-');
        push_hexcat(&mut s, written, 10, 16, false);
    } else {
        push_hexcat(&mut s, written, 0, n, false);
        assert(written@.subrange(0, n as int) =~= written@);
    }
    s
}

} // verus!
