//! `NetBlePacketsPanel` as the first BLE preset had it: real advertising
//! channel PDUs, CRC-checked, newest first, with their SNR and frequency
//! offset. No sorting and no cursor: a live packet feed is already in the
//! order that matters, arrival order.
//!
//! **Three states, not two.** Nothing decoding because the radio is not on an
//! advertising channel (or cannot reach the working rate), and nothing heard
//! yet on a channel watched correctly, are different claims; only the second
//! is "we listened and nobody transmitted".
use vstd::prelude::*;
use crate::ble::pdu_label;
use crate::state::{BlePacket, Offset, SdrMetrics};
use crate::text::{dec, owned, pad_left, pad_right, push_dec, push_pad_left, push_pad_right, push_str};
use crate::ui::chrome::{line_text, piece, push_piece, text_piece, Ink, Piece};
use crate::ui::frame::{bar_text, draw, framed, lines_text, strings, take, PanelChrome};
use crate::ui::panels::net::{
    address_hex, address_text, ago, ago_text, left, net_chrome, net_tags, nothing, one, push_cell, push_gap, push_tenths, push_text, right,
    push_wrapped, refusal_text, tenths_text, truncated,
};
use crate::ui::registry::Panel;

verus! {

pub struct NetBlePacketsPanel;

/// The column titles, each in its column.
pub open spec fn header_text() -> Seq<char> {
    "CH  TYPE            ADDRESS           ATYP  LEN  CRC     SNR             CFO    AGE"@
}

/// The SNR cell: the value to a tenth of a dB, or a dash.
pub open spec fn snr_cell(snr: Option<i64>) -> Seq<char> {
    match snr {
        Some(t) => tenths_text(t as int),
        None => "-"@,
    }
}

/// The CFO cell: the offset in kHz, or a dash.
pub open spec fn cfo_cell(offset: Option<Offset>) -> Seq<char> {
    match offset {
        Some(o) => o.khz@,
        None => "-"@,
    }
}

/// The address cell: the advertiser's address, or a dash for a type that
/// carries none.
pub open spec fn address_cell(a: Option<[u8; 6]>) -> Seq<char> {
    match a {
        Some(a) => address_hex(a@),
        None => "-"@,
    }
}

/// A row's channel, type and address columns, each with the space after it.
pub open spec fn row_who(p: BlePacket) -> Seq<char> {
    pad_right(dec(p.channel as nat), 3) + seq![' ']
        + pad_right(take(pdu_label(p.pdu_type), 15), 15) + seq![' ']
        + pad_right(address_cell(p.adv_addr), 17) + seq![' ']
}

/// A row's address type, length and CRC columns, each with the space after
/// it.
pub open spec fn row_frame(p: BlePacket) -> Seq<char> {
    pad_right(if p.tx_add_random { "rnd"@ } else { "pub"@ }, 4) + seq![' ']
        + pad_left(dec(p.length as nat), 4) + seq![' ']
        + pad_left(if p.crc_ok { "ok"@ } else { "bad"@ }, 4) + seq![' ']
}

/// A row's SNR, CFO and age columns.
pub open spec fn row_air(p: BlePacket) -> Seq<char> {
    pad_left(snr_cell(p.snr_tenths), 7) + seq![' ']
        + pad_left(take(cfo_cell(p.offset), 15), 15) + seq![' ']
        + pad_left(ago_text(p.age_secs as nat), 6)
}

/// One packet's row.
pub open spec fn row_text(p: BlePacket) -> Seq<char> {
    row_who(p) + row_frame(p) + row_air(p)
}

/// What the panel says, `width` by `height` inside its frame.
pub open spec fn packets_lines(state: SdrMetrics, width: nat, height: nat) -> Seq<Seq<char>> {
    let net = state.net;
    if width == 0 || height == 0 {
        seq![]
    } else {
        match net.ble_refused {
            Some(reason) => seq![header_text(), seq![]] + refusal_text(reason@, width),
            None => if net.ble_packets@.len() == 0 {
                seq![
                    header_text(),
                    seq![],
                    "no packets yet"@,
                    "watching an advertising channel; nothing decoded so far this"@,
                    "session"@,
                ]
            } else {
                let body = (height - 1) as nat;
                let n = if net.ble_packets@.len() < body { net.ble_packets@.len() } else { body };
                seq![header_text()] + Seq::new(n, |i: int| row_text(net.ble_packets@[i]))
            },
        }
    }
}

/// Appends a row's channel, type and address columns.
fn push_who(line: &mut Vec<Piece>, p: &BlePacket)
    ensures
        line_text(final(line)@) == line_text(old(line)@) + row_who(*p),
{
    let ghost start = line_text(line@);
    let mut ch = String::new();
    push_dec(&mut ch, p.channel as u64);
    push_cell(line, left(ch.as_str(), 3), Ink::Value);
    push_gap(line);
    let label = p.pdu_type.label();
    let label = truncated(label.as_str(), 15);
    push_cell(line, left(label.as_str(), 15), Ink::Value);
    push_gap(line);
    let address = match p.adv_addr {
        Some(a) => address_text(a),
        None => owned("-"),
    };
    push_cell(line, left(address.as_str(), 17), Ink::Value);
    push_gap(line);
    assert(line_text(line@) =~= start + row_who(*p));
}

/// Appends a row's address type, length and CRC columns.
fn push_frame(line: &mut Vec<Piece>, p: &BlePacket)
    ensures
        line_text(final(line)@) == line_text(old(line)@) + row_frame(*p),
{
    let ghost start = line_text(line@);
    push_cell(line, left(if p.tx_add_random { "rnd" } else { "pub" }, 4), Ink::Label);
    push_gap(line);
    let mut len = String::new();
    push_dec(&mut len, p.length as u64);
    push_cell(line, right(len.as_str(), 4), Ink::Value);
    push_gap(line);
    push_cell(line, right(if p.crc_ok { "ok" } else { "bad" }, 4), if p.crc_ok { Ink::Good } else { Ink::Crit });
    push_gap(line);
    assert(line_text(line@) =~= start + row_frame(*p));
}

/// Appends a row's SNR, CFO and age columns.
fn push_air(line: &mut Vec<Piece>, p: &BlePacket)
    ensures
        line_text(final(line)@) == line_text(old(line)@) + row_air(*p),
{
    let ghost start = line_text(line@);
    let mut snr = String::new();
    match p.snr_tenths {
        Some(t) => push_tenths(&mut snr, t),
        None => push_str(&mut snr, "-"),
    }
    proof { reveal_strlit("-"); }
    push_cell(line, right(snr.as_str(), 7), Ink::Value);
    push_gap(line);
    let cfo = match &p.offset {
        Some(o) => truncated(o.khz.as_str(), 15),
        None => truncated("-", 15),
    };
    push_cell(line, right(cfo.as_str(), 15), Ink::Value);
    push_gap(line);
    let age = ago(p.age_secs);
    push_cell(line, right(age.as_str(), 6), Ink::Label);
    assert(line_text(line@) =~= start + row_air(*p));
}

/// One packet's row.
pub fn row(p: &BlePacket) -> (line: Vec<Piece>)
    ensures
        line_text(line@) == row_text(*p),
{
    let mut line: Vec<Piece> = Vec::new();
    assert(line_text(line@) =~= Seq::<char>::empty());
    push_who(&mut line, p);
    push_frame(&mut line, p);
    push_air(&mut line, p);
    assert(line_text(line@) =~= row_text(*p));
    line
}

impl Panel for NetBlePacketsPanel {
    fn name(&self) -> (n: &'static str)
        ensures
            n@ == "net_ble_packets"@,
    {
        "net_ble_packets"
    }

    fn min_size(&self) -> (r: (u16, u16))
        ensures
            r == (48u16, 6u16),
    {
        (48, 6)
    }
}

impl NetBlePacketsPanel {
    /// `BLE Advertising`, with the NET tags.
    pub fn chrome(&self, state: &SdrMetrics) -> (c: PanelChrome)
        ensures
            c.title@ == "BLE Advertising"@,
            strings(c.tags@) == net_tags(*state),
    {
        net_chrome("BLE Advertising", state)
    }

    /// The panel's lines, `width` by `height` inside its frame.
    pub fn lines(&self, state: &SdrMetrics, width: usize, height: usize) -> (lines: Vec<Vec<Piece>>)
        ensures
            lines_text(lines@) == packets_lines(*state, width as nat, height as nat),
    {
        if width == 0 || height == 0 {
            return nothing();
        }
        let net = &state.net;
        let mut lines = nothing();
        push_text(&mut lines, "CH  TYPE            ADDRESS           ATYP  LEN  CRC     SNR             CFO    AGE", Ink::Label);
        assert(lines_text(lines@) =~= seq![header_text()]);
        match &net.ble_refused {
            Some(reason) => {
                push_text(&mut lines, "", Ink::Plain);
                proof { reveal_strlit(""); assert(""@ =~= Seq::<char>::empty()); }
                assert(lines_text(lines@) =~= seq![header_text(), seq![]]);
                push_text(&mut lines, "not decoding", Ink::Stale);
                push_wrapped(&mut lines, reason.as_str(), width, 4, Ink::Label);
                assert(lines_text(lines@) =~= seq![header_text(), seq![]] + refusal_text(reason@, width as nat));
                return lines;
            },
            None => {},
        }
        if net.ble_packets.len() == 0 {
            push_text(&mut lines, "", Ink::Plain);
            proof { reveal_strlit(""); assert(""@ =~= Seq::<char>::empty()); }
            push_text(&mut lines, "no packets yet", Ink::Stale);
            push_text(&mut lines, "watching an advertising channel; nothing decoded so far this", Ink::Label);
            push_text(&mut lines, "session", Ink::Label);
            assert(lines_text(lines@) =~= packets_lines(*state, width as nat, height as nat));
            return lines;
        }
        let body = height - 1;
        let n = if net.ble_packets.len() < body { net.ble_packets.len() } else { body };
        let ghost head = lines_text(lines@);
        let mut i: usize = 0;
        while i < n
            invariant
                i <= n <= net.ble_packets@.len(),
                lines_text(lines@) == head + Seq::new(i as nat, |k: int| row_text(net.ble_packets@[k])),
            decreases n - i,
        {
            let ghost before = lines@;
            lines.push(row(&net.ble_packets[i]));
            proof {
                assert(lines_text(lines@) =~= lines_text(before).push(row_text(net.ble_packets@[i as int])));
                assert(Seq::new((i + 1) as nat, |k: int| row_text(net.ble_packets@[k]))
                    =~= Seq::new(i as nat, |k: int| row_text(net.ble_packets@[k])).push(row_text(net.ble_packets@[i as int])));
            }
            i = i + 1;
        }
        assert(lines_text(lines@) =~= packets_lines(*state, width as nat, height as nat));
        lines
    }

    /// The panel in its frame, `width` by `height`: the rows a terminal shows.
    pub fn draw(&self, state: &SdrMetrics, width: usize, height: usize) -> (rows: Vec<String>)
        ensures
            strings(rows@) == framed(
                bar_text("BLE Advertising"@, net_tags(*state)),
                packets_lines(*state, (width - 2) as nat, (height - 2) as nat),
                width as nat,
                height as nat,
            ),
    {
        let c = self.chrome(state);
        let lines = self.lines(state, if width >= 2 { width - 2 } else { 0 }, if height >= 2 { height - 2 } else { 0 });
        draw(&c, &lines, width, height)
    }
}

} // verus!
