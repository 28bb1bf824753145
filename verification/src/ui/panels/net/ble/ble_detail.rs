//! `NetBleDetailPanel`: everything about one packet, the one picked in the
//! list or the latest when none is.
//!
//! **In the order a reader asks.** What the packet is (its header, its
//! addresses, what ChSel says where the type defines it); what the device
//! advertises in it (its AD structures, named); what a CONNECT_IND says
//! about the connection it opens; how it arrived (SNR and the transmitter's
//! crystal error); and how well it was sent (the modulation quality and
//! drift against their limits).
//!
//! **Nothing read from a failed CRC.** A failed CRC says some octet or some
//! symbol is wrong and not which: its advertising is not read, its
//! connection parameters are not read, and its modulation is not measured,
//! each saying so.
use vstd::prelude::*;
use crate::ble::ad::{adv_data, adv_data_range, fault_text, fields, lemma_structures_readable, parse, read, slice_of, structures, Fault};
use crate::ble::connect::{
    address_at, csa1, csa1_predict, decode_octets, le, sca_ppm, sca_range, used_below, used_count,
};
use crate::ble::{kind, kind_label, kind_of, pdu_label, PduType};
use crate::state::{shown, source, BlePacket, NetState, SdrMetrics};
use crate::text::{dec, fixed, hexpad, owned, push_char, push_dec, push_fixed, push_hexpad, push_str};
use crate::ui::chrome::{field, field_text, line_text, piece, push_piece, section, section_text, text_piece, Ink, Piece};
use crate::ui::frame::{bar_text, draw, framed, lines_text, strings, PanelChrome};
use crate::ui::panels::net::{
    address_hex, address_text, offset_net_chrome, offset_net_tags, nothing, one, push_quality_rows, push_tenths, push_text,
    quality_rows, refusal, refusal_text, tenths_text,
};
use crate::ui::registry::Panel;
use crate::ui::wrap::{views, wrap, wrapped};

verus! {

pub struct NetBleDetailPanel;

/// The label column of the detail's fields.
pub const LABEL_W: usize = 9;

/// `label  value`, in the field idiom.
pub open spec fn field_line(label: Seq<char>, value: Seq<char>) -> Seq<char> {
    field_text(label, LABEL_W as nat) + value
}

/// A plain sentence, indented like a field.
pub open spec fn note_line(t: Seq<char>) -> Seq<char> {
    seq![' '] + t
}

/// The columns a wrapped field's value gets beside its label.
pub open spec fn value_width(iw: nat) -> nat {
    if iw > LABEL_W + 1 { (iw - LABEL_W - 1) as nat } else { 1 }
}

/// A field whose value may run long, wrapped under its label in at most six
/// rows, the label on the first.
pub open spec fn wrapped_field(label: Seq<char>, value: Seq<char>, iw: nat) -> Seq<Seq<char>> {
    let rows = wrapped(value, value_width(iw), 6);
    Seq::new(rows.len(), |i: int| field_line(if i == 0 { label } else { seq![] }, rows[i]))
}

/// Several such fields, one after another.
pub open spec fn wrapped_fields(fs: Seq<(Seq<char>, Seq<char>)>, iw: nat) -> Seq<Seq<char>>
    decreases fs.len(),
{
    if fs.len() == 0 {
        seq![]
    } else {
        wrapped_fields(fs.drop_last(), iw) + wrapped_field(fs.last().0, fs.last().1, iw)
    }
}

/// The packet the detail is about, and whether it was picked: the picked
/// one when there is a pick, the newest shown otherwise; or why there is
/// none.
pub open spec fn subject(n: NetState) -> Result<(BlePacket, bool), Seq<char>> {
    let sh = shown(n);
    match n.ble_view.selection.selected {
        Some(s) => match find_seq(sh, s, sh.len()) {
            Some(i) => Ok((sh[i], true)),
            None => Err("the selected packet has left the list"@),
        },
        None => if sh.len() > 0 { Ok((sh[0], false)) } else { Err("no packets yet"@) },
    }
}

/// The first of the first `k` packets whose `seq` is `s`.
pub open spec fn find_seq(sh: Seq<BlePacket>, s: u64, k: nat) -> Option<int>
    decreases k,
{
    if k == 0 {
        None
    } else {
        match find_seq(sh, s, (k - 1) as nat) {
            Some(i) => Some(i),
            None => if sh[k - 1].seq == s { Some(k - 1) } else { None },
        }
    }
}

/// `TxAdd` and `RxAdd` as the kinds they name: the advertiser's kind from
/// its address where it has one, the bit's plain meaning otherwise; RxAdd
/// only on the types that carry a target address.
pub open spec fn kinds_text(p: BlePacket) -> Seq<char> {
    let tx = match p.adv_addr {
        Some(a) => kind_label(kind_of(a, p.tx_add_random)),
        None => if p.tx_add_random { "random"@ } else { "public"@ },
    };
    let rx = if p.rx_add_random { "random"@ } else { "public"@ };
    if p.pdu_type == PduType::AdvDirectInd || p.pdu_type == PduType::ScanReq || p.pdu_type == PduType::ConnectInd {
        "Tx "@ + tx + " \u{00b7} Rx "@ + rx
    } else {
        "Tx "@ + tx
    }
}

/// What ChSel says, on the three types that define it.
pub open spec fn ch_sel_text(p: BlePacket) -> Option<Seq<char>> {
    if p.pdu_type == PduType::AdvInd || p.pdu_type == PduType::AdvDirectInd || p.pdu_type == PduType::ConnectInd {
        Some(if p.ch_sel { "supports CSA #2"@ } else { "CSA #1 only"@ })
    } else {
        None
    }
}

/// The packet section's hint: whether the packet was picked, and its age.
pub open spec fn packet_hint(p: BlePacket, selected: bool) -> Seq<char> {
    (if selected { "selected"@ } else { "latest"@ }) + " \u{00b7} "@ + dec(p.age_secs as nat) + " s ago"@
}

/// The PACKET section.
pub open spec fn packet_section(p: BlePacket, selected: bool, iw: nat) -> Seq<Seq<char>> {
    seq![
        section_text("packet"@, packet_hint(p, selected), iw),
        field_line("type"@, pdu_label(p.pdu_type) + " \u{00b7} ch "@ + dec(p.channel as nat) + " \u{00b7} "@
            + dec(p.length as nat) + " octets"@),
        field_line("CRC"@, if p.crc_ok { "ok"@ } else { "failed"@ }),
    ] + (match p.adv_addr {
        Some(a) => seq![field_line("address"@, address_hex(a@))],
        None => seq![],
    }) + seq![field_line("kinds"@, kinds_text(p))] + (match ch_sel_text(p) {
        Some(t) => seq![field_line("ChSel"@, t)],
        None => seq![],
    })
}

/// The fields of the first `k` structures found in `data`.
pub open spec fn structure_lines(data: Seq<u8>, found: Seq<(nat, nat)>, k: nat, iw: nat) -> Seq<Seq<char>>
    decreases k,
{
    if k == 0 {
        seq![]
    } else {
        structure_lines(data, found, (k - 1) as nat, iw)
            + wrapped_fields(fields(data, found[k - 1].0, found[k - 1].1), iw)
    }
}

/// Where the reading of the structures stopped short, and why, in the
/// warning ink.
pub open spec fn fault_lines(fault: Option<(nat, Fault)>, iw: nat) -> Seq<Seq<char>> {
    match fault {
        None => seq![],
        Some((at, f)) => {
            let rows = wrapped("malformed at octet "@ + dec(at) + seq![':', ' '] + fault_text(f),
                if iw > 1 { (iw - 1) as nat } else { 1 }, 3);
            Seq::new(rows.len(), |i: int| note_line(rows[i]))
        },
    }
}

/// The ADVERTISED section: every AD structure the payload carries, read;
/// or why none is; nothing at all for a type that carries none.
pub open spec fn advertised(p: BlePacket, iw: nat) -> Seq<Seq<char>> {
    let head = seq![section_text("advertised"@, seq![], iw)];
    if p.pdu_type == PduType::Other(7) {
        head + seq![note_line("extended advertising: its payload is not decoded"@)]
    } else {
        match adv_data_range(p.pdu_type, p.payload@.len()) {
            None => seq![],
            Some((s, e)) => if !p.crc_ok {
                head + seq![" not read: CRC failed"@]
            } else {
                let data = p.payload@.subrange(s as int, e as int);
                let (found, fault) = structures(data);
                if found.len() == 0 && fault is None {
                    head + seq![note_line("nothing beyond the address"@)]
                } else {
                    head + structure_lines(data, found, found.len(), iw) + fault_lines(fault, iw)
                }
            },
        }
    }
}

/// Numbers joined by single spaces.
pub open spec fn spaced(v: Seq<nat>) -> Seq<char>
    decreases v.len(),
{
    if v.len() == 0 {
        seq![]
    } else if v.len() == 1 {
        dec(v[0])
    } else {
        spaced(v.drop_last()) + seq![' '] + dec(v.last())
    }
}

/// The hop prediction: Algorithm #1's first eight channels, said to be
/// predicted; or why there is none.
pub open spec fn hops_text(ch_sel: bool, map: nat, hop: nat) -> Seq<char> {
    if ch_sel {
        "CSA #2: not predicted"@
    } else if used_below(map, 37).len() == 0 {
        "no channel used: nothing to predict"@
    } else {
        spaced(csa1(map, hop, 8).0) + " ... predicted, not followed"@
    }
}

/// A CONNECT_IND's parameters, in the Link Layer's own units and names.
pub open spec fn connect_fields(p: BlePacket, iw: nat) -> Seq<Seq<char>> {
    let pl = p.payload@;
    let map = le(pl, 28, 5);
    let sca = (pl[33] / 32) as nat;
    seq![
        field_line("InitA"@, address_hex(address_at(pl, 0))),
        field_line("AdvA"@, address_hex(address_at(pl, 6))),
        field_line("access"@, "0x"@ + hexpad(le(pl, 12, 4), 8, true)),
        field_line("CRC init"@, "0x"@ + hexpad(le(pl, 16, 3), 6, true)),
        field_line("interval"@, fixed(le(pl, 22, 2) * 125, 2) + " ms"@),
        field_line("latency"@, dec(le(pl, 24, 2)) + " events"@),
        field_line("timeout"@, dec(le(pl, 26, 2) * 10) + " ms"@),
        field_line("window"@, fixed(pl[19] as nat * 125, 2) + " ms at +"@ + fixed(le(pl, 20, 2) * 125, 2) + " ms"@),
        field_line("channels"@, dec(used_below(map, 37).len()) + " of 37 used (map 0x"@ + hexpad(map, 10, true) + seq![')']),
        field_line("SCA"@, dec(sca) + " ("@ + dec(sca_range(sca).0) + " to "@ + dec(sca_range(sca).1) + " ppm)"@),
        field_line("hop"@, dec((pl[33] % 32) as nat)),
    ] + wrapped_field("hops"@, hops_text(p.ch_sel, map, (pl[33] % 32) as nat), iw)
}

/// The CONNECTION section of a CONNECT_IND: read, not followed.
pub open spec fn connection(p: BlePacket, iw: nat) -> Seq<Seq<char>> {
    if p.pdu_type != PduType::ConnectInd {
        seq![]
    } else {
        seq![section_text("connection"@, "read, not followed"@, iw)] + if !p.crc_ok {
            seq![" not read: CRC failed"@]
        } else if p.payload@.len() < 34 {
            seq![note_line("payload shorter than a CONNECT_IND's 34 octets"@)]
        } else {
            connect_fields(p, iw)
        }
    }
}

/// The PHYSICS section: the SNR, the crystal error in kHz and ppm, and the
/// drift's two ends where the drift was measured on a CRC-good packet.
pub open spec fn physics(p: BlePacket, iw: nat) -> Seq<Seq<char>> {
    seq![
        section_text("physics"@, seq![], iw),
        field_line("SNR"@, match p.snr_tenths {
            Some(t) => tenths_text(t as int) + " dB"@,
            None => "-"@,
        }),
        field_line("CFO"@, match p.offset {
            Some(o) => o.khz@ + seq![' ', ' '] + o.ppm@,
            None => "-"@,
        }),
    ] + match p.drift {
        Some(d) => if p.crc_ok { seq![field_line("start"@, d.start@), field_line("end"@, d.end@)] } else { seq![] },
        None => seq![],
    }
}

/// Why a failed CRC gets no modulation rows.
pub open spec fn symbols_note() -> Seq<char> {
    "which symbols were ones decides where the deviation is read, and a failed CRC says some were not"@
}

/// The MODULATION section: the limit rows, or why there are none.
pub open spec fn modulation(p: BlePacket, iw: nat) -> Seq<Seq<char>> {
    seq![section_text("modulation"@, seq![], iw)] + if !p.crc_ok {
        let rows = wrapped(symbols_note(), if iw > 1 { (iw - 1) as nat } else { 0 }, 3);
        seq![" not measured: CRC failed"@] + Seq::new(rows.len(), |i: int| note_line(rows[i]))
    } else {
        match p.modulation {
            None => seq![" not measured"@, note_line("packet too short, or too short a run of either kind"@)],
            Some(q) => quality_rows(q, p.drift),
        }
    }
}

/// What the panel says, `width` by `height` inside its frame.
pub open spec fn detail_lines(state: SdrMetrics, width: nat, height: nat) -> Seq<Seq<char>> {
    if width == 0 || height == 0 {
        seq![]
    } else {
        match state.net.ble_refused {
            Some(reason) => refusal_text(reason@, width),
            None => match subject(state.net) {
                Err(why) => seq![why],
                Ok((p, selected)) => packet_section(p, selected, width) + advertised(p, width)
                    + connection(p, width) + physics(p, width) + modulation(p, width),
            },
        }
    }
}

/// Appends `label  value`.
pub(crate) fn push_field(lines: &mut Vec<Vec<Piece>>, label: &str, value: String)
    ensures
        lines_text(final(lines)@) == lines_text(old(lines)@).push(field_line(label@, value@)),
{
    let mut l: Vec<Piece> = Vec::new();
    assert(line_text(l@) =~= Seq::<char>::empty());
    let ghost v = value@;
    push_piece(&mut l, field(label, LABEL_W));
    push_piece(&mut l, piece(value, Ink::Value));
    assert(line_text(l@) =~= field_line(label@, v));
    let ghost before = lines@;
    lines.push(l);
    assert(lines_text(lines@) =~= lines_text(before).push(field_line(label@, v)));
}

/// Appends a plain sentence, indented like a field.
pub(crate) fn push_note(lines: &mut Vec<Vec<Piece>>, text: &str, ink: Ink)
    ensures
        lines_text(final(lines)@) == lines_text(old(lines)@).push(note_line(text@)),
{
    let mut s = String::new();
    push_char(&mut s, ' ');
    push_str(&mut s, text);
    let ghost before = lines@;
    lines.push(one(piece(s, ink)));
    assert(lines_text(lines@) =~= lines_text(before).push(note_line(text@)));
}

/// Appends a section nameplate.
pub(crate) fn push_section(lines: &mut Vec<Vec<Piece>>, name: &str, hint: &str, iw: usize)
    ensures
        lines_text(final(lines)@) == lines_text(old(lines)@).push(section_text(name@, hint@, iw as nat)),
{
    let ghost before = lines@;
    lines.push(one(section(name, hint, iw)));
    assert(lines_text(lines@) =~= lines_text(before).push(section_text(name@, hint@, iw as nat)));
}

/// Appends a field wrapped under its label.
fn push_wrapped_field(lines: &mut Vec<Vec<Piece>>, label: &str, value: &str, iw: usize)
    ensures
        lines_text(final(lines)@) == lines_text(old(lines)@) + wrapped_field(label@, value@, iw as nat),
{
    let w = if iw > LABEL_W + 1 { iw - LABEL_W - 1 } else { 1 };
    let rows = wrap(value, w, 6);
    let ghost start = lines_text(lines@);
    let ghost all = wrapped_field(label@, value@, iw as nat);
    let mut i: usize = 0;
    while i < rows.len()
        invariant
            i <= rows@.len(),
            views(rows@) == wrapped(value@, w as nat, 6),
            w == value_width(iw as nat),
            all == wrapped_field(label@, value@, iw as nat),
            lines_text(lines@) == start + all.subrange(0, i as int),
        decreases rows@.len() - i,
    {
        let r = rows[i].clone();
        push_field(lines, if i == 0 { label } else { "" }, r);
        proof {
            reveal_strlit("");
            assert(""@ =~= Seq::<char>::empty());
            assert(all.subrange(0, i + 1) =~= all.subrange(0, i as int).push(all[i as int]));
        }
        i = i + 1;
    }
    assert(all.subrange(0, rows@.len() as int) =~= all);
}

/// Appends several wrapped fields.
fn push_wrapped_fields(lines: &mut Vec<Vec<Piece>>, fs: &Vec<(String, String)>, iw: usize)
    ensures
        lines_text(final(lines)@) == lines_text(old(lines)@)
            + wrapped_fields(Seq::new(fs@.len(), |k: int| (fs@[k].0@, fs@[k].1@)), iw as nat),
{
    let ghost start = lines_text(lines@);
    let ghost all = Seq::new(fs@.len(), |k: int| (fs@[k].0@, fs@[k].1@));
    let mut i: usize = 0;
    while i < fs.len()
        invariant
            i <= fs@.len(),
            all == Seq::new(fs@.len(), |k: int| (fs@[k].0@, fs@[k].1@)),
            lines_text(lines@) == start + wrapped_fields(all.subrange(0, i as int), iw as nat),
        decreases fs@.len() - i,
    {
        push_wrapped_field(lines, fs[i].0.as_str(), fs[i].1.as_str(), iw);
        proof {
            assert(all.subrange(0, i + 1).drop_last() =~= all.subrange(0, i as int));
        }
        i = i + 1;
    }
    assert(all.subrange(0, fs@.len() as int) =~= all);
}

/// Where in the source list the detail's packet is, and whether it was
/// picked; or why there is none.
fn subject_index(net: &NetState) -> (r: Result<(usize, bool), &'static str>)
    ensures
        match r {
            Ok((i, sel)) => i < source(*net).len() && subject(*net) == Ok::<(BlePacket, bool), Seq<char>>((source(*net)[i as int], sel)),
            Err(why) => subject(*net) == Err::<(BlePacket, bool), Seq<char>>(why@),
        },
{
    let idx = net.shown_indices();
    assert(idx@.len() == shown(*net).len());
    assert(forall|j: int| 0 <= j < idx@.len() ==> source(*net)[idx@[j] as int] == #[trigger] shown(*net)[j]);
    assert(forall|j: int| 0 <= j < idx@.len() ==> idx@[j] < source(*net).len());
    let src = net.source_list();
    let ghost sh = shown(*net);
    match net.ble_view.selection.selected {
        Some(s) => {
            let mut k: usize = 0;
            while k < idx.len()
                invariant
                    k <= idx@.len(),
                    idx@.len() == sh.len(),
                    sh == shown(*net),
                    src@ == source(*net),
                    forall|j: int| 0 <= j < idx@.len() ==> source(*net)[idx@[j] as int] == #[trigger] shown(*net)[j],
                    forall|j: int| 0 <= j < idx@.len() ==> #[trigger] idx@[j] < source(*net).len(),
                    find_seq(sh, s, k as nat) is None,
                    net.ble_view.selection.selected == Some(s),
                decreases idx@.len() - k,
            {
                assert(source(*net)[idx@[k as int] as int] == shown(*net)[k as int]);
                if src[idx[k]].seq == s {
                    assert(find_seq(sh, s, (k + 1) as nat) == Some(k as int));
                    proof {
                        lemma_find_seq_stays(sh, s, (k + 1) as nat, sh.len());
                        assert(find_seq(shown(*net), s, shown(*net).len()) == Some(k as int));
                        assert(net.ble_view.selection.selected == Some(s));
                        assert(subject(*net) == Ok::<(BlePacket, bool), Seq<char>>((shown(*net)[k as int], true)));
                    }
                    return Ok((idx[k], true));
                }
                k = k + 1;
            }
            Err("the selected packet has left the list")
        },
        None => {
            if idx.len() > 0 {
                Ok((idx[0], false))
            } else {
                Err("no packets yet")
            }
        },
    }
}

/// Once found among the first `k`, the same packet is found among more.
pub proof fn lemma_find_seq_stays(sh: Seq<BlePacket>, s: u64, k: nat, m: nat)
    requires
        k <= m,
        find_seq(sh, s, k) is Some,
    ensures
        find_seq(sh, s, m) == find_seq(sh, s, k),
    decreases m - k,
{
    if k < m {
        lemma_find_seq_stays(sh, s, k, (m - 1) as nat);
    }
}

/// Appends the PACKET section.
fn push_packet_section(lines: &mut Vec<Vec<Piece>>, p: &BlePacket, selected: bool, iw: usize)
    ensures
        lines_text(final(lines)@) == lines_text(old(lines)@) + packet_section(*p, selected, iw as nat),
{
    let ghost start = lines_text(lines@);
    let mut hint = String::new();
    push_str(&mut hint, if selected { "selected" } else { "latest" });
    push_str(&mut hint, " \u{00b7} ");
    push_dec(&mut hint, p.age_secs);
    push_str(&mut hint, " s ago");
    push_section(lines, "packet", hint.as_str(), iw);
    let mut t = p.pdu_type.label();
    push_str(&mut t, " \u{00b7} ch ");
    push_dec(&mut t, p.channel as u64);
    push_str(&mut t, " \u{00b7} ");
    push_dec(&mut t, p.length as u64);
    push_str(&mut t, " octets");
    push_field(lines, "type", t);
    push_field(lines, "CRC", owned(if p.crc_ok { "ok" } else { "failed" }));
    match p.adv_addr {
        Some(a) => push_field(lines, "address", address_text(a)),
        None => {},
    }
    push_field(lines, "kinds", address_kinds(p));
    match ch_sel(p) {
        Some(t) => push_field(lines, "ChSel", owned(t)),
        None => {},
    }
    assert(lines_text(lines@) =~= start + packet_section(*p, selected, iw as nat));
}

/// `Tx public`, `Tx RPA`, `Tx public · Rx random`.
pub fn address_kinds(p: &BlePacket) -> (s: String)
    ensures
        s@ == kinds_text(*p),
{
    let mut s = owned("Tx ");
    match p.adv_addr {
        Some(a) => {
            let k = kind(a, p.tx_add_random).label();
            push_str(&mut s, k.as_str());
        },
        None => push_str(&mut s, if p.tx_add_random { "random" } else { "public" }),
    }
    let rx_types = match p.pdu_type {
        PduType::AdvDirectInd | PduType::ScanReq | PduType::ConnectInd => true,
        _ => false,
    };
    if rx_types {
        push_str(&mut s, " \u{00b7} Rx ");
        push_str(&mut s, if p.rx_add_random { "random" } else { "public" });
    }
    s
}

/// What ChSel says, on the three types that define it; `None` elsewhere,
/// where the bit is reserved and a line about it would be a claim.
pub fn ch_sel(p: &BlePacket) -> (r: Option<&'static str>)
    ensures
        match r {
            Some(t) => ch_sel_text(*p) == Some(t@),
            None => ch_sel_text(*p) is None,
        },
{
    match p.pdu_type {
        PduType::AdvInd | PduType::AdvDirectInd | PduType::ConnectInd => Some(
            if p.ch_sel { "supports CSA #2" } else { "CSA #1 only" },
        ),
        _ => None,
    }
}


/// Appends the ADVERTISED section.
fn push_advertised(lines: &mut Vec<Vec<Piece>>, p: &BlePacket, iw: usize)
    ensures
        lines_text(final(lines)@) == lines_text(old(lines)@) + advertised(*p, iw as nat),
{
    let ghost start = lines_text(lines@);
    if p.pdu_type == PduType::Other(7) {
        push_section(lines, "advertised", "", iw);
        push_note(lines, "extended advertising: its payload is not decoded", Ink::Label);
        proof { reveal_strlit(""); assert(""@ =~= Seq::<char>::empty()); }
        assert(lines_text(lines@) =~= start + advertised(*p, iw as nat));
        return;
    }
    let (s, e) = match adv_data(p.pdu_type, &p.payload) {
        None => {
            assert(lines_text(lines@) =~= start + advertised(*p, iw as nat));
            return;
        },
        Some(r) => r,
    };
    push_section(lines, "advertised", "", iw);
    proof { reveal_strlit(""); assert(""@ =~= Seq::<char>::empty()); }
    let ghost head = start + seq![section_text("advertised"@, seq![], iw as nat)];
    if !p.crc_ok {
        push_text(lines, " not read: CRC failed", Ink::Stale);
        assert(lines_text(lines@) =~= start + advertised(*p, iw as nat));
        return;
    }
    let data = slice_of(p.payload.as_slice(), s, e);
    let (found, fault) = parse(data);
    proof { lemma_structures_readable(data@, 0); }
    if found.len() == 0 && fault.is_none() {
        push_note(lines, "nothing beyond the address", Ink::Label);
        assert(lines_text(lines@) =~= start + advertised(*p, iw as nat));
        return;
    }
    let ghost st = structures(data@);
    let mut k: usize = 0;
    while k < found.len()
        invariant
            k <= found@.len(),
            st == structures(data@),
            found@.len() == st.0.len(),
            forall|j: int| 0 <= j < found@.len() ==> (found@[j].0 as nat, found@[j].1 as nat) == #[trigger] st.0[j],
            forall|j: int| 0 <= j < st.0.len() ==>
                (#[trigger] st.0[j]).0 + 2 <= st.0[j].1 <= data@.len()
                && crate::ble::ad::content_fault(data@[st.0[j].0 as int + 1], (st.0[j].1 - st.0[j].0 - 2) as nat) is None,
            lines_text(lines@) == head + structure_lines(data@, st.0, k as nat, iw as nat),
        decreases found@.len() - k,
    {
        let (a, b) = found[k];
        assert(st.0[k as int] == (a as nat, b as nat));
        let fs = read(data, a, b);
        let ghost want = fields(data@, a as nat, b as nat);
        assert(Seq::new(fs@.len(), |j: int| (fs@[j].0@, fs@[j].1@)) =~= want);
        push_wrapped_fields(lines, &fs, iw);
        k = k + 1;
    }
    match fault {
        None => {},
        Some((at, f)) => {
            let mut msg = owned("malformed at octet ");
            push_dec(&mut msg, at as u64);
            push_char(&mut msg, ':');
            push_char(&mut msg, ' ');
            let why = f.text();
            push_str(&mut msg, why.as_str());
            let w = if iw > 1 { iw - 1 } else { 1 };
            let rows = wrap(msg.as_str(), w, 3);
            let ghost before = lines_text(lines@);
            let ghost want = fault_lines(st.1, iw as nat);
            let mut i: usize = 0;
            while i < rows.len()
                invariant
                    i <= rows@.len(),
                    want == fault_lines(st.1, iw as nat),
                    st.1 == Some((at as nat, f)),
                    views(rows@) == wrapped(msg@, w as nat, 3),
                    w as nat == (if iw > 1 { (iw - 1) as nat } else { 1nat }),
                    msg@ == "malformed at octet "@ + dec(at as nat) + seq![':', ' '] + fault_text(f),
                    lines_text(lines@) == before + want.subrange(0, i as int),
                decreases rows@.len() - i,
            {
                push_note(lines, rows[i].as_str(), Ink::Crit);
                assert(want.subrange(0, i + 1) =~= want.subrange(0, i as int).push(want[i as int]));
                i = i + 1;
            }
            assert(want.subrange(0, rows@.len() as int) =~= want);
        },
    }
    assert(lines_text(lines@) =~= start + advertised(*p, iw as nat));
}

/// Numbers joined by single spaces.
fn spaced_text(v: &Vec<u8>) -> (s: String)
    ensures
        s@ == spaced(Seq::new(v@.len(), |i: int| v@[i] as nat)),
{
    let mut s = String::new();
    let ghost all = Seq::new(v@.len(), |i: int| v@[i] as nat);
    let mut i: usize = 0;
    while i < v.len()
        invariant
            i <= v@.len(),
            all == Seq::new(v@.len(), |i: int| v@[i] as nat),
            s@ == spaced(all.subrange(0, i as int)),
        decreases v@.len() - i,
    {
        if i > 0 {
            push_char(&mut s, ' ');
        }
        push_dec(&mut s, v[i] as u64);
        proof {
            let next = all.subrange(0, i + 1);
            assert(next.drop_last() =~= all.subrange(0, i as int));
            if i == 0 {
                assert(next =~= seq![all[0]]);
            }
        }
        i = i + 1;
    }
    assert(all.subrange(0, v@.len() as int) =~= all);
    s
}

/// Appends a CONNECT_IND's parameters.
fn push_connect_fields(lines: &mut Vec<Vec<Piece>>, p: &BlePacket, c: &crate::ble::connect::Connect, iw: usize)
    requires
        p.payload@.len() >= 34,
        crate::ble::connect::decodes(p.payload@, *c),
    ensures
        lines_text(final(lines)@) == lines_text(old(lines)@) + connect_fields(*p, iw as nat),
{
    let ghost start = lines_text(lines@);
    push_field(lines, "InitA", address_text(c.init_a));
    push_field(lines, "AdvA", address_text(c.adv_a));
    let mut v = owned("0x");
    push_hexpad(&mut v, c.access_address as u64, 8, true);
    assert(v@ == "0x"@ + hexpad(le(p.payload@, 12, 4), 8, true));
    push_field(lines, "access", v);
    let mut v = owned("0x");
    push_hexpad(&mut v, c.crc_init as u64, 6, true);
    assert(v@ == "0x"@ + hexpad(le(p.payload@, 16, 3), 6, true));
    push_field(lines, "CRC init", v);
    let mut v = String::new();
    push_fixed(&mut v, c.interval as u64 * 125, 2);
    push_str(&mut v, " ms");
    assert(v@ == fixed(le(p.payload@, 22, 2) * 125, 2) + " ms"@);
    push_field(lines, "interval", v);
    let mut v = String::new();
    push_dec(&mut v, c.latency as u64);
    push_str(&mut v, " events");
    assert(v@ == dec(le(p.payload@, 24, 2)) + " events"@);
    push_field(lines, "latency", v);
    let mut v = String::new();
    push_dec(&mut v, c.timeout as u64 * 10);
    push_str(&mut v, " ms");
    assert(v@ == dec(le(p.payload@, 26, 2) * 10) + " ms"@);
    push_field(lines, "timeout", v);
    let mut v = String::new();
    push_fixed(&mut v, c.win_size as u64 * 125, 2);
    push_str(&mut v, " ms at +");
    push_fixed(&mut v, c.win_offset as u64 * 125, 2);
    push_str(&mut v, " ms");
    assert(v@ == fixed(p.payload@[19] as nat * 125, 2) + " ms at +"@ + fixed(le(p.payload@, 20, 2) * 125, 2) + " ms"@);
    push_field(lines, "window", v);
    let mut v = String::new();
    push_dec(&mut v, used_count(c.channel_map));
    push_str(&mut v, " of 37 used (map 0x");
    push_hexpad(&mut v, c.channel_map, 10, true);
    push_char(&mut v, ')');
    assert(v@ == dec(used_below(le(p.payload@, 28, 5), 37).len()) + " of 37 used (map 0x"@ + hexpad(le(p.payload@, 28, 5), 10, true) + seq![')']);
    push_field(lines, "channels", v);
    let (lo, hi) = sca_ppm(c.sca);
    let mut v = String::new();
    push_dec(&mut v, c.sca as u64);
    push_str(&mut v, " (");
    push_dec(&mut v, lo as u64);
    push_str(&mut v, " to ");
    push_dec(&mut v, hi as u64);
    push_str(&mut v, " ppm)");
    assert(v@ == dec((p.payload@[33] / 32) as nat) + " ("@ + dec(sca_range((p.payload@[33] / 32) as nat).0) + " to "@ + dec(sca_range((p.payload@[33] / 32) as nat).1) + " ppm)"@);
    push_field(lines, "SCA", v);
    let mut v = String::new();
    push_dec(&mut v, c.hop_increment as u64);
    assert(v@ == dec((p.payload@[33] % 32) as nat));
    push_field(lines, "hop", v);
    let hops = if p.ch_sel {
        owned("CSA #2: not predicted")
    } else {
        match csa1_predict(c.channel_map, c.hop_increment, 8) {
            None => owned("no channel used: nothing to predict"),
            Some(first) => {
                proof {
                    crate::ble::connect::lemma_csa1_len(c.channel_map as nat, c.hop_increment as nat, 8);
                    assert(Seq::new(first@.len(), |i: int| first@[i] as nat)
                        =~= csa1(c.channel_map as nat, c.hop_increment as nat, 8).0);
                }
                let mut h = spaced_text(&first);
                push_str(&mut h, " ... predicted, not followed");
                h
            },
        }
    };
    let ghost pl = p.payload@;
    let ghost map = le(pl, 28, 5);
    assert(hops@ == hops_text(p.ch_sel, map, (pl[33] % 32) as nat));
    let ghost mid = lines_text(lines@);
    push_wrapped_field(lines, "hops", hops.as_str(), iw);
    assert(mid.len() >= start.len());
    assert(mid =~= start + connect_fields(*p, iw as nat).subrange(0, 11));
    assert(lines_text(lines@) =~= start + connect_fields(*p, iw as nat));
}

/// Appends the CONNECTION section of a CONNECT_IND.
fn push_connection(lines: &mut Vec<Vec<Piece>>, p: &BlePacket, iw: usize)
    ensures
        lines_text(final(lines)@) == lines_text(old(lines)@) + connection(*p, iw as nat),
{
    let ghost start = lines_text(lines@);
    if p.pdu_type != PduType::ConnectInd {
        assert(lines_text(lines@) =~= start + connection(*p, iw as nat));
        return;
    }
    push_section(lines, "connection", "read, not followed", iw);
    if !p.crc_ok {
        push_text(lines, " not read: CRC failed", Ink::Stale);
    } else {
        match decode_octets(&p.payload) {
            None => push_note(lines, "payload shorter than a CONNECT_IND's 34 octets", Ink::Label),
            Some(c) => push_connect_fields(lines, p, &c, iw),
        }
    }
    assert(lines_text(lines@) =~= start + connection(*p, iw as nat));
}

/// Appends the PHYSICS section.
fn push_physics(lines: &mut Vec<Vec<Piece>>, p: &BlePacket, iw: usize)
    ensures
        lines_text(final(lines)@) == lines_text(old(lines)@) + physics(*p, iw as nat),
{
    let ghost start = lines_text(lines@);
    push_section(lines, "physics", "", iw);
    proof { reveal_strlit(""); assert(""@ =~= Seq::<char>::empty()); }
    let mut snr = String::new();
    match p.snr_tenths {
        Some(t) => {
            push_tenths(&mut snr, t);
            push_str(&mut snr, " dB");
        },
        None => push_str(&mut snr, "-"),
    }
    proof { reveal_strlit("-"); }
    assert(snr@ == (match p.snr_tenths { Some(t) => tenths_text(t as int) + " dB"@, None => "-"@ }));
    push_field(lines, "SNR", snr);
    let mut cfo = String::new();
    match &p.offset {
        Some(o) => {
            push_str(&mut cfo, o.khz.as_str());
            push_char(&mut cfo, ' ');
            push_char(&mut cfo, ' ');
            push_str(&mut cfo, o.ppm.as_str());
        },
        None => push_str(&mut cfo, "-"),
    }
    assert(cfo@ == (match p.offset { Some(o) => o.khz@ + seq![' ', ' '] + o.ppm@, None => "-"@ }));
    push_field(lines, "CFO", cfo);
    assert(lines_text(lines@) =~= start + seq![
        section_text("physics"@, seq![], iw as nat),
        field_line("SNR"@, match p.snr_tenths { Some(t) => tenths_text(t as int) + " dB"@, None => "-"@ }),
        field_line("CFO"@, match p.offset { Some(o) => o.khz@ + seq![' ', ' '] + o.ppm@, None => "-"@ }),
    ]);
    match &p.drift {
        Some(d) => if p.crc_ok {
            push_field(lines, "start", d.start.clone());
            push_field(lines, "end", d.end.clone());
        },
        None => {},
    }
    proof { reveal_strlit("-"); }
    assert(lines_text(lines@) =~= start + physics(*p, iw as nat));
}

/// Appends the MODULATION section.
fn push_modulation(lines: &mut Vec<Vec<Piece>>, p: &BlePacket, iw: usize)
    ensures
        lines_text(final(lines)@) == lines_text(old(lines)@) + modulation(*p, iw as nat),
{
    let ghost start = lines_text(lines@);
    push_section(lines, "modulation", "", iw);
    proof { reveal_strlit(""); assert(""@ =~= Seq::<char>::empty()); }
    let ghost head = lines_text(lines@);
    if !p.crc_ok {
        push_text(lines, " not measured: CRC failed", Ink::Stale);
        let w = if iw > 1 { iw - 1 } else { 0 };
        let rows = wrap(
            "which symbols were ones decides where the deviation is read, and a failed CRC says some were not",
            w,
            3,
        );
        let ghost before = lines_text(lines@);
        let ghost want = Seq::new(views(rows@).len(), |i: int| note_line(views(rows@)[i]));
        let mut i: usize = 0;
        while i < rows.len()
            invariant
                i <= rows@.len(),
                want == Seq::new(views(rows@).len(), |i: int| note_line(views(rows@)[i])),
                lines_text(lines@) == before + want.subrange(0, i as int),
            decreases rows@.len() - i,
        {
            push_note(lines, rows[i].as_str(), Ink::Label);
            assert(want.subrange(0, i + 1) =~= want.subrange(0, i as int).push(want[i as int]));
            i = i + 1;
        }
        assert(want.subrange(0, rows@.len() as int) =~= want);
    } else {
        match &p.modulation {
            None => {
                push_text(lines, " not measured", Ink::Stale);
                push_note(lines, "packet too short, or too short a run of either kind", Ink::Label);
            },
            Some(q) => push_quality_rows(lines, q, &p.drift),
        }
    }
    assert(lines_text(lines@) =~= start + modulation(*p, iw as nat));
}

impl Panel for NetBleDetailPanel {
    fn name(&self) -> (n: &'static str)
        ensures
            n@ == "net_ble_detail"@,
    {
        "net_ble_detail"
    }

    fn min_size(&self) -> (r: (u16, u16))
        ensures
            r == (28u16, 4u16),
    {
        (28, 4)
    }
}

impl NetBleDetailPanel {
    /// `Packet Detail`, with the NET tags.
    pub fn chrome(&self, state: &SdrMetrics) -> (c: PanelChrome)
        ensures
            c.title@ == "Packet Detail"@,
            strings(c.tags@) == offset_net_tags(*state),
    {
        offset_net_chrome("Packet Detail", state)
    }

    /// The panel's lines, `width` by `height` inside its frame.
    pub fn lines(&self, state: &SdrMetrics, width: usize, height: usize) -> (lines: Vec<Vec<Piece>>)
        ensures
            lines_text(lines@) == detail_lines(*state, width as nat, height as nat),
    {
        if width == 0 || height == 0 {
            return nothing();
        }
        let net = &state.net;
        match &net.ble_refused {
            Some(reason) => return refusal(reason.as_str(), width),
            None => {},
        }
        let mut lines = nothing();
        match subject_index(net) {
            Err(why) => {
                push_text(&mut lines, why, Ink::Stale);
                assert(lines_text(lines@) =~= detail_lines(*state, width as nat, height as nat));
            },
            Ok((i, selected)) => {
                let src = net.source_list();
                let p = &src[i];
                push_packet_section(&mut lines, p, selected, width);
                push_advertised(&mut lines, p, width);
                push_connection(&mut lines, p, width);
                push_physics(&mut lines, p, width);
                push_modulation(&mut lines, p, width);
                assert(lines_text(lines@) =~= detail_lines(*state, width as nat, height as nat));
            },
        }
        lines
    }

    /// The panel in its frame, `width` by `height`: the rows a terminal shows.
    pub fn draw(&self, state: &SdrMetrics, width: usize, height: usize) -> (rows: Vec<String>)
        ensures
            strings(rows@) == framed(
                bar_text("Packet Detail"@, offset_net_tags(*state)),
                detail_lines(*state, (width - 2) as nat, (height - 2) as nat),
                width as nat,
                height as nat,
            ),
    {
        let c = self.chrome(state);
        let lines = self.lines(state, if width >= 2 { width - 2 } else { 0 }, if height >= 2 { height - 2 } else { 0 });
        draw(&c, &lines, width, height)
    }
}

} // verus!
