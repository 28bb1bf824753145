//! `NetBlePacketsPanel`: what this device is advertising.
//!
//! Real advertising channel PDUs, CRC-checked, newest first, with the name
//! each device advertises, its SNR, and its transmitter's crystal error in
//! kHz and ppm. No sorting: a live packet feed is already in the order that
//! matters, arrival order.
//!
//! **A cursor on the packet rather than the row.** The list is newest
//! first, so each arrival moves every row down one, and the mark goes with
//! its packet. Filtered, the list is one address; held, it stays still and
//! the frame counts what it is missing.
//!
//! **Three states, not two.** Not decoding, nothing heard yet on a channel
//! watched correctly, and (filtered) an address gone from the list, are
//! different claims, each said.
use vstd::prelude::*;
use crate::ble::ad::{adv_data, adv_data_range, lemma_structures_readable, parse, printable, push_printable, slice_of, structures};
use crate::ble::{pdu_label, PduType};
use crate::state::{mode_tag, shown, source, BlePacket, NetMode, NetState, SdrMetrics};
use crate::text::{dec, owned, pad_left, pad_right, push_char, push_dec, push_str};
use crate::ui::chrome::{gutter_text, line_text, piece, push_piece, selection_gutter, Ink, Piece};
use crate::ui::frame::{bar_text, draw, framed, lines_text, strings, take, PanelChrome};
use crate::ui::panels::net::ble::ble_detail::{find_seq, lemma_find_seq_stays};
use crate::ui::panels::net::ble_packets::{address_cell, snr_cell};
use crate::ui::panels::net::{offset_tags, relative_offsets, 
    address_text, ago, ago_text, left, nothing, push_cell, push_gap, push_tenths, push_text, push_wrapped,
    refusal_text, right, truncated,
};
use crate::ui::registry::Panel;
use crate::ui::widgets::table::{viewport, viewport_start};

verus! {

pub struct NetBlePacketsPanel;

/// The name column's width: long enough for most device names.
pub const NAME_W: usize = 16;

/// The offset columns at their narrowest; they grow to their widest reading.
pub const CFO_W: usize = 15;
pub const PPM_W: usize = 17;

/// `t` in at most `w` columns, with `…` in the last where it was cut.
pub open spec fn cut_text(t: Seq<char>, w: nat) -> Seq<char> {
    if t.len() <= w { t } else { t.subrange(0, w - 1).push('\u{2026}') }
}

/// The content of the first name structure among the first `k` found.
pub open spec fn first_name(data: Seq<u8>, found: Seq<(nat, nat)>, k: nat) -> Option<Seq<u8>>
    decreases k,
{
    if k == 0 {
        None
    } else {
        match first_name(data, found, (k - 1) as nat) {
            Some(n) => Some(n),
            None => {
                let (s, e) = found[k - 1];
                let code = data[s as int + 1];
                if code == 0x08 || code == 0x09 { Some(data.subrange(s as int + 2, e as int)) } else { None }
            },
        }
    }
}

/// What the packet says its device is called, made safe to print and cut
/// at the column; a dash where it names nothing. Only from a packet whose
/// CRC passed: a name read from a failed one could be a name nobody sent.
/// Extended advertising says it was not decoded.
pub open spec fn name_text(p: BlePacket) -> Seq<char> {
    if p.pdu_type == PduType::Other(7) {
        "(not decoded)"@
    } else if !p.crc_ok {
        "-"@
    } else {
        match adv_data_range(p.pdu_type, p.payload@.len()) {
            None => "-"@,
            Some((s, e)) => {
                let data = p.payload@.subrange(s as int, e as int);
                let found = structures(data).0;
                match first_name(data, found, found.len()) {
                    Some(n) => cut_text(printable(n), NAME_W as nat),
                    None => "-"@,
                }
            },
        }
    }
}

/// The kHz cell: the crystal error, or a dash.
pub open spec fn khz_cell(p: BlePacket) -> Seq<char> {
    match p.offset { Some(o) => o.khz@, None => "-"@ }
}

/// The ppm cell: the crystal error, or a dash.
pub open spec fn ppm_cell(p: BlePacket) -> Seq<char> {
    match p.offset { Some(o) => o.ppm@, None => "-"@ }
}

/// The CFO column's width over `rows`: its widest reading, and never
/// narrower than declared.
pub open spec fn cfo_width(rows: Seq<BlePacket>) -> nat
    decreases rows.len(),
{
    if rows.len() == 0 {
        CFO_W as nat
    } else {
        let w = cfo_width(rows.drop_last());
        let c = khz_cell(rows.last()).len();
        if c > w { c } else { w }
    }
}

/// The PPM column's width over `rows`.
pub open spec fn ppm_width(rows: Seq<BlePacket>) -> nat
    decreases rows.len(),
{
    if rows.len() == 0 {
        PPM_W as nat
    } else {
        let w = ppm_width(rows.drop_last());
        let c = ppm_cell(rows.last()).len();
        if c > w { c } else { w }
    }
}

/// The header row, over columns of these widths.
pub open spec fn header_text(cw: nat, pw: nat) -> Seq<char> {
    seq![' '] + pad_right("CH"@, 3) + seq![' '] + pad_right("TYPE"@, 15) + seq![' '] + pad_right("ADDRESS"@, 17)
        + seq![' '] + pad_right("NAME"@, NAME_W as nat) + seq![' '] + pad_right("ATYP"@, 4) + seq![' ']
        + pad_left("LEN"@, 4) + seq![' '] + pad_left("CRC"@, 4) + seq![' '] + pad_left("SNR"@, 7) + seq![' ']
        + pad_left("CFO"@, cw) + seq![' '] + pad_left("PPM"@, pw) + seq![' '] + pad_left("AGE"@, 6)
}

/// A row's columns up to its name, each with the space after it.
pub open spec fn row_who(p: BlePacket, selected: bool) -> Seq<char> {
    gutter_text(selected) + pad_right(dec(p.channel as nat), 3) + seq![' ']
        + pad_right(take(pdu_label(p.pdu_type), 15), 15) + seq![' ']
        + pad_right(address_cell(p.adv_addr), 17) + seq![' ']
        + pad_right(name_text(p), NAME_W as nat) + seq![' ']
}

/// A row's address type, length, CRC and SNR, each with the space after it.
pub open spec fn row_frame(p: BlePacket) -> Seq<char> {
    pad_right(if p.tx_add_random { "rnd"@ } else { "pub"@ }, 4) + seq![' ']
        + pad_left(dec(p.length as nat), 4) + seq![' ']
        + pad_left(if p.crc_ok { "ok"@ } else { "bad"@ }, 4) + seq![' ']
        + pad_left(snr_cell(p.snr_tenths), 7) + seq![' ']
}

/// A row's offsets and age.
pub open spec fn row_air(p: BlePacket, cw: nat, pw: nat) -> Seq<char> {
    pad_left(khz_cell(p), cw) + seq![' '] + pad_left(ppm_cell(p), pw) + seq![' ']
        + pad_left(ago_text(p.age_secs as nat), 6)
}

/// One packet's row.
pub open spec fn row_text(p: BlePacket, selected: bool, cw: nat, pw: nat) -> Seq<char> {
    row_who(p, selected) + row_frame(p) + row_air(p, cw, pw)
}

/// One advertising channel's count, and its CRC pass rate once it has ten
/// packets and a rate to give.
pub open spec fn one_channel(n: NetState, i: int) -> Seq<char> {
    "CH"@ + dec((37 + i) as nat) + seq![' '] + dec(n.ble_channel_packets[i] as nat)
        + if n.ble_channel_packets[i] >= 10 && n.ble_channel_rate[i] is Some {
            seq![' '] + n.ble_channel_rate[i].unwrap()@ + " CRC ok"@
        } else {
            seq![]
        }
}

/// The channel summary: surveying, every channel's count and the dwell
/// fraction; locked, the one channel the radio sits on and no fraction.
pub open spec fn summary_text(n: NetState, width: nat) -> Option<Seq<char>> {
    match n.mode {
        NetMode::Survey => Some(take(one_channel(n, 0) + seq![' ', ' '] + one_channel(n, 1) + seq![' ', ' ']
            + one_channel(n, 2) + "  (1/3 dwell each)"@, width)),
        NetMode::Lock => match n.ble_channel {
            Some(ch) => if 37 <= ch <= 39 {
                Some(take(one_channel(n, ch - 37) + "  (this session)"@, width))
            } else {
                None
            },
            None => None,
        },
    }
}

/// The row the cursor is on: the picked packet's place among those shown.
pub open spec fn cursor_at(n: NetState) -> Option<int> {
    match n.ble_view.selection.selected {
        Some(s) => find_seq(shown(n), s, shown(n).len()),
        None => None,
    }
}

/// How many rows the list has below its header and above the summary.
pub open spec fn body_rows(n: NetState, width: nat, height: nat) -> nat {
    let extra: nat = if summary_text(n, width) is Some { 1 } else { 0 };
    if height >= 1 + extra { (height - 1 - extra) as nat } else { 0 }
}

/// Where the view starts among the packets shown.
pub open spec fn view_start(n: NetState, width: nat, height: nat) -> nat {
    viewport(n.ble_view.selection.first_visible as nat, match cursor_at(n) { Some(c) => c as nat, None => 0 },
        shown(n).len(), body_rows(n, width, height))
}

/// How many packets the view shows.
pub open spec fn view_count(n: NetState, width: nat, height: nat) -> nat {
    let body = body_rows(n, width, height);
    let start = view_start(n, width, height);
    if body < shown(n).len() - start { body } else { (shown(n).len() - start) as nat }
}

/// The packets on screen.
pub open spec fn visible(n: NetState, width: nat, height: nat) -> Seq<BlePacket> {
    let start = view_start(n, width, height);
    shown(n).subrange(start as int, (start + view_count(n, width, height)) as int)
}

/// The lines under the header: the refusal, the empty list, the address
/// gone from it, or the rows and the channel summary.
pub open spec fn list_body(state: SdrMetrics, width: nat, height: nat) -> Seq<Seq<char>> {
    let n = state.net;
    let sh = shown(n);
    let start = view_start(n, width, height);
    let cw = cfo_width(visible(n, width, height));
    let pw = ppm_width(visible(n, width, height));
    match n.ble_refused {
        Some(reason) => seq![seq![]] + refusal_text(reason@, width),
        None => if n.ble_packets@.len() == 0 {
            seq![
                seq![],
                "no packets yet"@,
                "watching an advertising channel; nothing decoded so far this"@,
                "session"@,
            ]
        } else if sh.len() == 0 {
            seq![seq![], "no packets from this address in the list; Enter shows all"@]
        } else {
            Seq::new(view_count(n, width, height), |k: int| row_text(sh[start + k], cursor_at(n) == Some(start + k), cw, pw))
                + match summary_text(n, width) {
                    Some(t) => seq![t],
                    None => seq![],
                }
        },
    }
}

/// What the panel says, `width` by `height` inside its frame.
pub open spec fn list_lines(state: SdrMetrics, width: nat, height: nat) -> Seq<Seq<char>> {
    let v = visible(state.net, width, height);
    if width == 0 || height == 0 {
        seq![]
    } else {
        seq![header_text(cfo_width(v), ppm_width(v))] + list_body(state, width, height)
    }
}

/// How many packets arrived since the list was held.
pub open spec fn behind(n: NetState) -> nat {
    match n.ble_view.held {
        Some((_, heard)) => if n.ble_heard > heard { (n.ble_heard - heard) as nat } else { 0 },
        None => 0,
    }
}

/// The frame's tags: stale while no samples flow (but a held list is
/// paused, never stale); a feed loss this session; the mode and the PHY;
/// and the filter, the pause and what the pause has missed.
pub open spec fn list_tags(state: SdrMetrics) -> Seq<Seq<char>> {
    let n = state.net;
    (if state.streaming || n.ble_view.held is Some { seq![] } else { seq!["STALE"@] })
        + (if n.health.last_loss_secs is Some { seq!["FEED LOSS"@] } else { seq![] })
        + offset_tags(n)
        + seq![mode_tag(n.mode), "LE 1M"@]
        + (if n.ble_view.filter is Some { seq!["FILTERED"@] } else { seq![] })
        + (if n.ble_view.held is Some { seq!["PAUSED"@] } else { seq![] })
        + (if behind(n) > 0 { seq![seq!['+'] + dec(behind(n)) + " NEW"@] } else { seq![] })
}

/// `text` cut to `w` columns and marked where cut.
fn cut(text: &str, w: usize) -> (s: String)
    requires
        w >= 1,
    ensures
        s@ == cut_text(text@, w as nat),
{
    if text.unicode_len() <= w {
        owned(text)
    } else {
        let mut s = owned(text.substring_char(0, w - 1));
        push_char(&mut s, '\u{2026}');
        s
    }
}

/// What the packet says its device is called.
pub fn name_of(p: &BlePacket) -> (s: String)
    ensures
        s@ == name_text(*p),
{
    if p.pdu_type == PduType::Other(7) {
        return owned("(not decoded)");
    }
    if !p.crc_ok {
        return owned("-");
    }
    let (s, e) = match adv_data(p.pdu_type, &p.payload) {
        None => return owned("-"),
        Some(r) => r,
    };
    let data = slice_of(p.payload.as_slice(), s, e);
    let (found, _) = parse(data);
    proof { lemma_structures_readable(data@, 0); }
    let ghost fv = structures(data@).0;
    let mut k: usize = 0;
    while k < found.len()
        invariant
            k <= found@.len(),
            fv == structures(data@).0,
            found@.len() == fv.len(),
            forall|j: int| 0 <= j < found@.len() ==> (found@[j].0 as nat, found@[j].1 as nat) == #[trigger] fv[j],
            forall|j: int| 0 <= j < fv.len() ==> (#[trigger] fv[j]).0 + 2 <= fv[j].1 <= data@.len(),
            first_name(data@, fv, k as nat) is None,
            data@ == p.payload@.subrange(s as int, e as int),
            adv_data_range(p.pdu_type, p.payload@.len()) == Some((s as nat, e as nat)),
            p.pdu_type != PduType::Other(7),
            p.crc_ok,
        decreases found@.len() - k,
    {
        let (a, b) = found[k];
        assert(fv[k as int] == (a as nat, b as nat));
        let code = data[a + 1];
        if code == 0x08 || code == 0x09 {
            let mut raw = String::new();
            push_printable(&mut raw, data, a + 2, b);
            proof {
                assert(first_name(data@, fv, (k + 1) as nat) == Some(data@.subrange(a + 2, b as int)));
                lemma_first_name_stays(data@, fv, (k + 1) as nat, fv.len());
                assert(name_text(*p) == cut_text(printable(data@.subrange(a + 2, b as int)), NAME_W as nat));
            }
            return cut(raw.as_str(), NAME_W);
        }
        k = k + 1;
    }
    owned("-")
}

/// Once found among the first `k`, the same name is found among more.
proof fn lemma_first_name_stays(data: Seq<u8>, found: Seq<(nat, nat)>, k: nat, m: nat)
    requires
        k <= m,
        first_name(data, found, k) is Some,
    ensures
        first_name(data, found, m) == first_name(data, found, k),
    decreases m - k,
{
    if k < m {
        lemma_first_name_stays(data, found, k, (m - 1) as nat);
    }
}

/// The header row, over columns of these widths.
fn header_line(cw: usize, pw: usize) -> (line: Vec<Piece>)
    ensures
        line_text(line@) == header_text(cw as nat, pw as nat),
{
    let mut s = String::new();
    push_char(&mut s, ' ');
    push_str(&mut s, left("CH", 3).as_str());
    push_char(&mut s, ' ');
    push_str(&mut s, left("TYPE", 15).as_str());
    push_char(&mut s, ' ');
    push_str(&mut s, left("ADDRESS", 17).as_str());
    push_char(&mut s, ' ');
    push_str(&mut s, left("NAME", NAME_W).as_str());
    push_char(&mut s, ' ');
    push_str(&mut s, left("ATYP", 4).as_str());
    push_char(&mut s, ' ');
    push_str(&mut s, right("LEN", 4).as_str());
    push_char(&mut s, ' ');
    push_str(&mut s, right("CRC", 4).as_str());
    push_char(&mut s, ' ');
    push_str(&mut s, right("SNR", 7).as_str());
    push_char(&mut s, ' ');
    push_str(&mut s, right("CFO", cw).as_str());
    push_char(&mut s, ' ');
    push_str(&mut s, right("PPM", pw).as_str());
    push_char(&mut s, ' ');
    push_str(&mut s, right("AGE", 6).as_str());
    assert(s@ =~= header_text(cw as nat, pw as nat));
    crate::ui::panels::net::one(piece(s, Ink::Label))
}

/// Appends a row's columns up to its name.
fn push_who(line: &mut Vec<Piece>, p: &BlePacket, selected: bool)
    ensures
        line_text(final(line)@) == line_text(old(line)@) + row_who(*p, selected),
{
    let ghost start = line_text(line@);
    push_piece(line, selection_gutter(selected));
    let mut ch = String::new();
    push_dec(&mut ch, p.channel as u64);
    push_cell(line, left(ch.as_str(), 3), Ink::Value);
    push_gap(line);
    let label = p.pdu_type.label();
    let label = truncated(label.as_str(), 15);
    push_cell(line, left(label.as_str(), 15), Ink::Value);
    push_gap(line);
    let address = match p.adv_addr {
        Some(a) => address_text(a),
        None => owned("-"),
    };
    push_cell(line, left(address.as_str(), 17), Ink::Value);
    push_gap(line);
    let name = name_of(p);
    push_cell(line, left(name.as_str(), NAME_W), Ink::Value);
    push_gap(line);
    assert(line_text(line@) =~= start + row_who(*p, selected));
}

/// Appends a row's address type, length, CRC and SNR.
fn push_frame(line: &mut Vec<Piece>, p: &BlePacket)
    ensures
        line_text(final(line)@) == line_text(old(line)@) + row_frame(*p),
{
    let ghost start = line_text(line@);
    push_cell(line, left(if p.tx_add_random { "rnd" } else { "pub" }, 4), Ink::Label);
    push_gap(line);
    let mut len = String::new();
    push_dec(&mut len, p.length as u64);
    push_cell(line, right(len.as_str(), 4), Ink::Value);
    push_gap(line);
    push_cell(line, right(if p.crc_ok { "ok" } else { "bad" }, 4), if p.crc_ok { Ink::Good } else { Ink::Crit });
    push_gap(line);
    let mut snr = String::new();
    match p.snr_tenths {
        Some(t) => push_tenths(&mut snr, t),
        None => push_str(&mut snr, "-"),
    }
    proof { reveal_strlit("-"); }
    push_cell(line, right(snr.as_str(), 7), Ink::Value);
    push_gap(line);
    assert(line_text(line@) =~= start + row_frame(*p));
}

/// The kHz and ppm cells.
fn offset_cells(p: &BlePacket) -> (r: (String, String))
    ensures
        r.0@ == khz_cell(*p),
        r.1@ == ppm_cell(*p),
{
    match &p.offset {
        Some(o) => (o.khz.clone(), o.ppm.clone()),
        None => (owned("-"), owned("-")),
    }
}

/// Appends a row's offsets and age.
fn push_air(line: &mut Vec<Piece>, p: &BlePacket, cw: usize, pw: usize)
    ensures
        line_text(final(line)@) == line_text(old(line)@) + row_air(*p, cw as nat, pw as nat),
{
    let ghost start = line_text(line@);
    let (khz, ppm) = offset_cells(p);
    push_cell(line, right(khz.as_str(), cw), Ink::Value);
    push_gap(line);
    push_cell(line, right(ppm.as_str(), pw), Ink::Value);
    push_gap(line);
    let age = ago(p.age_secs);
    push_cell(line, right(age.as_str(), 6), Ink::Label);
    assert(line_text(line@) =~= start + row_air(*p, cw as nat, pw as nat));
}

/// One packet's row; the picked one carries the mark.
pub fn row(p: &BlePacket, selected: bool, cw: usize, pw: usize) -> (line: Vec<Piece>)
    ensures
        line_text(line@) == row_text(*p, selected, cw as nat, pw as nat),
{
    let mut line: Vec<Piece> = Vec::new();
    assert(line_text(line@) =~= Seq::<char>::empty());
    push_who(&mut line, p, selected);
    push_frame(&mut line, p);
    push_air(&mut line, p, cw, pw);
    assert(line_text(line@) =~= row_text(*p, selected, cw as nat, pw as nat));
    line
}

/// One advertising channel's count, and its rate where it has one.
fn channel_text(n: &NetState, i: usize) -> (s: String)
    requires
        i < 3,
    ensures
        s@ == one_channel(*n, i as int),
{
    let mut s = owned("CH");
    push_dec(&mut s, 37 + i as u64);
    push_char(&mut s, ' ');
    push_dec(&mut s, n.ble_channel_packets[i]);
    if n.ble_channel_packets[i] >= 10 {
        match &n.ble_channel_rate[i] {
            Some(r) => {
                push_char(&mut s, ' ');
                push_str(&mut s, r.as_str());
                push_str(&mut s, " CRC ok");
            },
            None => {},
        }
    }
    s
}

/// The channel summary line, where the mode has one.
fn summary(n: &NetState, width: usize) -> (r: Option<String>)
    ensures
        match r {
            Some(t) => summary_text(*n, width as nat) == Some(t@),
            None => summary_text(*n, width as nat) is None,
        },
{
    match n.mode {
        NetMode::Survey => {
            let mut s = channel_text(n, 0);
            push_str(&mut s, "  ");
            push_str(&mut s, channel_text(n, 1).as_str());
            push_str(&mut s, "  ");
            push_str(&mut s, channel_text(n, 2).as_str());
            push_str(&mut s, "  (1/3 dwell each)");
            proof { reveal_strlit("  "); assert("  "@ =~= seq![' ', ' ']); }
            Some(truncated(s.as_str(), width))
        },
        NetMode::Lock => match n.ble_channel {
            Some(ch) => if 37 <= ch && ch <= 39 {
                let mut s = channel_text(n, (ch - 37) as usize);
                push_str(&mut s, "  (this session)");
                Some(truncated(s.as_str(), width))
            } else {
                None
            },
            None => None,
        },
    }
}

/// The row the cursor is on among those shown.
fn cursor_of(n: &NetState, idx: &Vec<usize>, src: &Vec<BlePacket>) -> (cur: Option<usize>)
    requires
        idx@.len() == shown(*n).len(),
        src@ == source(*n),
        forall|j: int| 0 <= j < idx@.len() ==> source(*n)[idx@[j] as int] == #[trigger] shown(*n)[j],
        forall|j: int| 0 <= j < idx@.len() ==> #[trigger] idx@[j] < source(*n).len(),
    ensures
        match cur {
            Some(c) => cursor_at(*n) == Some(c as int),
            None => cursor_at(*n) is None,
        },
{
    let ghost sh = shown(*n);
    let cur: Option<usize> = match n.ble_view.selection.selected {
        Some(s) => {
            let mut found: Option<usize> = None;
            let mut k: usize = 0;
            while k < idx.len()
                invariant
                    k <= idx@.len(),
                    idx@.len() == sh.len(),
                    sh == shown(*n),
                    src@ == source(*n),
                    forall|j: int| 0 <= j < idx@.len() ==> source(*n)[idx@[j] as int] == #[trigger] shown(*n)[j],
                    forall|j: int| 0 <= j < idx@.len() ==> #[trigger] idx@[j] < source(*n).len(),
                    found is None ==> find_seq(sh, s, k as nat) is None,
                    match found {
                        Some(f) => find_seq(sh, s, sh.len()) == Some(f as int),
                        None => true,
                    },
                decreases idx@.len() - k,
            {
                if found.is_none() {
                    assert(source(*n)[idx@[k as int] as int] == shown(*n)[k as int]);
                    if src[idx[k]].seq == s {
                        proof {
                            assert(find_seq(sh, s, (k + 1) as nat) == Some(k as int));
                            lemma_find_seq_stays(sh, s, (k + 1) as nat, sh.len());
                        }
                        found = Some(k);
                    }
                }
                k = k + 1;
            }
            found
        },
        None => None,
    };
    proof {
        assert(match cur {
            Some(c) => cursor_at(*n) == Some(c as int),
            None => cursor_at(*n) is None,
        });
    }
    cur
}

/// The offset columns' widths over the rows on screen.
fn widths(n: &NetState, idx: &Vec<usize>, src: &Vec<BlePacket>, start: usize, count: usize) -> (r: (usize, usize))
    requires
        idx@.len() == shown(*n).len(),
        start + count <= idx@.len(),
        src@ == source(*n),
        forall|j: int| 0 <= j < idx@.len() ==> source(*n)[idx@[j] as int] == #[trigger] shown(*n)[j],
        forall|j: int| 0 <= j < idx@.len() ==> #[trigger] idx@[j] < source(*n).len(),
    ensures
        r.0 as nat == cfo_width(shown(*n).subrange(start as int, (start + count) as int)),
        r.1 as nat == ppm_width(shown(*n).subrange(start as int, (start + count) as int)),
{
    let ghost sh = shown(*n);
        let ghost visible = sh.subrange(start as int, (start + count) as int);
    let il = idx.len();
    let mut cw: usize = CFO_W;
    let mut pw: usize = PPM_W;
    let mut k: usize = 0;
    while k < count
        invariant
            k <= count,
            il == idx@.len(),
            start + count <= idx@.len(),
            idx@.len() == sh.len(),
            sh == shown(*n),
            src@ == source(*n),
            visible == sh.subrange(start as int, (start + count) as int),
            forall|j: int| 0 <= j < idx@.len() ==> source(*n)[idx@[j] as int] == #[trigger] shown(*n)[j],
            forall|j: int| 0 <= j < idx@.len() ==> #[trigger] idx@[j] < source(*n).len(),
            cw as nat == cfo_width(visible.subrange(0, k as int)),
            pw as nat == ppm_width(visible.subrange(0, k as int)),
        decreases count - k,
    {
        assert(source(*n)[idx@[(start + k) as int] as int] == shown(*n)[(start + k) as int]);
        let p = &src[idx[start + k]];
        let (khz, ppm) = offset_cells(p);
        let kl = khz.as_str().unicode_len();
        let pl = ppm.as_str().unicode_len();
        if kl > cw {
            cw = kl;
        }
        if pl > pw {
            pw = pl;
        }
        proof {
            assert(visible.subrange(0, k + 1).drop_last() =~= visible.subrange(0, k as int));
            assert(visible.subrange(0, k + 1).last() == *p);
        }
        k = k + 1;
    }
    assert(visible.subrange(0, count as int) =~= visible);
    (cw, pw)
}

/// Appends the rows on screen.
fn push_rows(
    lines: &mut Vec<Vec<Piece>>,
    n: &NetState,
    idx: &Vec<usize>,
    src: &Vec<BlePacket>,
    start: usize,
    count: usize,
    cur: Option<usize>,
    cw: usize,
    pw: usize,
)
    requires
        idx@.len() == shown(*n).len(),
        start + count <= idx@.len(),
        src@ == source(*n),
        forall|j: int| 0 <= j < idx@.len() ==> source(*n)[idx@[j] as int] == #[trigger] shown(*n)[j],
        forall|j: int| 0 <= j < idx@.len() ==> #[trigger] idx@[j] < source(*n).len(),
        match cur {
            Some(c) => cursor_at(*n) == Some(c as int),
            None => cursor_at(*n) is None,
        },
    ensures
        lines_text(final(lines)@) == lines_text(old(lines)@) + Seq::new(count as nat, |j: int|
            row_text(shown(*n)[start + j], cursor_at(*n) == Some(start + j), cw as nat, pw as nat)),
{
    let ghost sh = shown(*n);
    let rows = idx.len();
    let ghost head = lines_text(lines@);
    let mut k: usize = 0;
    while k < count
        invariant
            k <= count,
            rows == idx@.len(),
            start + count <= idx@.len(),
            idx@.len() == sh.len(),
            sh == shown(*n),
            src@ == source(*n),
            forall|j: int| 0 <= j < idx@.len() ==> source(*n)[idx@[j] as int] == #[trigger] shown(*n)[j],
            forall|j: int| 0 <= j < idx@.len() ==> #[trigger] idx@[j] < source(*n).len(),
            match cur {
                Some(c) => cursor_at(*n) == Some(c as int),
                None => cursor_at(*n) is None,
            },
            lines_text(lines@) == head + Seq::new(k as nat, |j: int|
                row_text(sh[start + j], cursor_at(*n) == Some(start + j), cw as nat, pw as nat)),
        decreases count - k,
    {
        let i = start + k;
        assert(source(*n)[idx@[i as int] as int] == shown(*n)[i as int]);
        let sel = match cur { Some(c) => c == i, None => false };
        let ghost before = lines@;
        let r = row(&src[idx[i]], sel, cw, pw);
        let ghost rt = line_text(r@);
        lines.push(r);
        proof {
            assert(lines_text(lines@) =~= lines_text(before).push(rt));
        }
        k = k + 1;
        proof {
            assert(lines_text(lines@) =~= head + Seq::new(k as nat, |j: int|
                row_text(sh[start + j], cursor_at(*n) == Some(start + j), cw as nat, pw as nat)));
        }
    }
}

impl Panel for NetBlePacketsPanel {
    fn name(&self) -> (n: &'static str)
        ensures
            n@ == "net_ble_packets"@,
    {
        "net_ble_packets"
    }

    fn min_size(&self) -> (r: (u16, u16))
        ensures
            r == (48u16, 6u16),
    {
        (48, 6)
    }
}

impl NetBlePacketsPanel {
    /// The key that focuses the list.
    pub fn focus_key(&self) -> (k: Option<char>)
        ensures
            k == Some('v'),
    {
        Some('v')
    }

    /// The keys the focused list answers, and what each does.
    pub fn focus_bindings(&self) -> (b: Vec<(&'static str, &'static str)>)
        ensures
            b@.len() == 3,
            b@[0].0@ == "\u{2191}\u{2193}"@ && b@[0].1@ == "select a packet"@,
            b@[1].0@ == "Enter"@ && b@[1].1@ == "only this address, or all again"@,
            b@[2].0@ == "H"@ && b@[2].1@ == "hold the list, or let it run"@,
    {
        vec![
            ("\u{2191}\u{2193}", "select a packet"),
            ("Enter", "only this address, or all again"),
            ("H", "hold the list, or let it run"),
        ]
    }

    /// `BLE Ad_vertising`, with the tags the list earns.
    pub fn chrome(&self, state: &SdrMetrics) -> (c: PanelChrome)
        ensures
            c.title@ == "BLE Ad_vertising"@,
            strings(c.tags@) == list_tags(*state),
    {
        let n = &state.net;
        let held = n.ble_view.held.is_some();
        let behind: u64 = match &n.ble_view.held {
            Some((_, heard)) => if n.ble_heard > *heard { n.ble_heard - *heard } else { 0 },
            None => 0,
        };
        let mut more = owned("+");
        push_dec(&mut more, behind);
        push_str(&mut more, " NEW");
        let c = PanelChrome::new("BLE Ad_vertising");
        let c = c.tag_if(!state.streaming && !held, owned("STALE"));
        let c = c.tag_if(n.health.last_loss_secs.is_some(), owned("FEED LOSS"));
        let c = c.tag_if(relative_offsets(n), owned("RELATIVE"));
        let c = c.tag_if(true, n.mode.tag());
        let c = c.tag_if(true, owned("LE 1M"));
        let c = c.tag_if(n.ble_view.filter.is_some(), owned("FILTERED"));
        let c = c.tag_if(held, owned("PAUSED"));
        let c = c.tag_if(behind > 0, more);
        proof { reveal_strlit("+"); assert("+"@ =~= seq!['+']); }
        assert(strings(c.tags@) =~= list_tags(*state));
        c
    }

    /// The panel's lines, `width` by `height` inside its frame.
    pub fn lines(&self, state: &SdrMetrics, width: usize, height: usize) -> (lines: Vec<Vec<Piece>>)
        ensures
            lines_text(lines@) == list_lines(*state, width as nat, height as nat),
    {
        if width == 0 || height == 0 {
            return nothing();
        }
        let n = &state.net;
        let idx = n.shown_indices();
        let src = n.source_list();
        let sum = summary(n, width);
        let extra: usize = if sum.is_some() { 1 } else { 0 };
        let body = if height >= 1 + extra { height - 1 - extra } else { 0 };
        assert(body as nat == body_rows(*n, width as nat, height as nat));
        let cur = cursor_of(n, &idx, src);
        let rows = idx.len();
        let start = viewport_start(n.ble_view.selection.first_visible, match cur { Some(c) => c, None => 0 }, rows, body);
        assert(start as nat == view_start(*n, width as nat, height as nat));
        let count = if body < rows - start { body } else { rows - start };
        assert(count as nat == view_count(*n, width as nat, height as nat));
        let (cw, pw) = widths(n, &idx, src, start, count);
        let mut lines = nothing();
        let ghost before = lines@;
        lines.push(header_line(cw, pw));
        assert(lines_text(lines@) =~= lines_text(before).push(header_text(cw as nat, pw as nat)));
        let ghost head = lines_text(lines@);
        self.push_body(&mut lines, state, width, height, &idx, src, start, count, cur, cw, pw, sum);
        assert(lines_text(lines@) =~= list_lines(*state, width as nat, height as nat));
        lines
    }

    /// Appends the lines under the header.
    fn push_body(
        &self,
        lines: &mut Vec<Vec<Piece>>,
        state: &SdrMetrics,
        width: usize,
        height: usize,
        idx: &Vec<usize>,
        src: &Vec<BlePacket>,
        start: usize,
        count: usize,
        cur: Option<usize>,
        cw: usize,
        pw: usize,
        sum: Option<String>,
    )
        requires
            idx@.len() == shown(state.net).len(),
            src@ == source(state.net),
            forall|j: int| 0 <= j < idx@.len() ==> source(state.net)[idx@[j] as int] == #[trigger] shown(state.net)[j],
            forall|j: int| 0 <= j < idx@.len() ==> #[trigger] idx@[j] < source(state.net).len(),
            match cur {
                Some(c) => cursor_at(state.net) == Some(c as int),
                None => cursor_at(state.net) is None,
            },
            start as nat == view_start(state.net, width as nat, height as nat),
            count as nat == view_count(state.net, width as nat, height as nat),
            start + count <= idx@.len(),
            cw as nat == cfo_width(visible(state.net, width as nat, height as nat)),
            pw as nat == ppm_width(visible(state.net, width as nat, height as nat)),
            match sum {
                Some(t) => summary_text(state.net, width as nat) == Some(t@),
                None => summary_text(state.net, width as nat) is None,
            },
        ensures
            lines_text(final(lines)@) == lines_text(old(lines)@) + list_body(*state, width as nat, height as nat),
    {
        let n = &state.net;
        let ghost start_text = lines_text(lines@);
        match &n.ble_refused {
            Some(reason) => {
                push_text(lines, "", Ink::Plain);
                proof { reveal_strlit(""); assert(""@ =~= Seq::<char>::empty()); }
                push_text(lines, "not decoding", Ink::Stale);
                push_wrapped(lines, reason.as_str(), width, 4, Ink::Label);
                assert(lines_text(lines@) =~= start_text + list_body(*state, width as nat, height as nat));
                return;
            },
            None => {},
        }
        if n.ble_packets.len() == 0 {
            push_text(lines, "", Ink::Plain);
            proof { reveal_strlit(""); assert(""@ =~= Seq::<char>::empty()); }
            push_text(lines, "no packets yet", Ink::Stale);
            push_text(lines, "watching an advertising channel; nothing decoded so far this", Ink::Label);
            push_text(lines, "session", Ink::Label);
            assert(lines_text(lines@) =~= start_text + list_body(*state, width as nat, height as nat));
            return;
        }
        if idx.len() == 0 {
            push_text(lines, "", Ink::Plain);
            proof { reveal_strlit(""); assert(""@ =~= Seq::<char>::empty()); }
            push_text(lines, "no packets from this address in the list; Enter shows all", Ink::Label);
            assert(lines_text(lines@) =~= start_text + list_body(*state, width as nat, height as nat));
            return;
        }
        push_rows(lines, n, idx, src, start, count, cur, cw, pw);
        match sum {
            Some(t) => push_text(lines, t.as_str(), Ink::Label),
            None => {},
        }
        assert(lines_text(lines@) =~= start_text + list_body(*state, width as nat, height as nat));
    }

    /// The panel in its frame, `width` by `height`: the rows a terminal shows.
    pub fn draw(&self, state: &SdrMetrics, width: usize, height: usize) -> (rows: Vec<String>)
        ensures
            strings(rows@) == framed(
                bar_text("BLE Ad_vertising"@, list_tags(*state)),
                list_lines(*state, (width - 2) as nat, (height - 2) as nat),
                width as nat,
                height as nat,
            ),
    {
        let c = self.chrome(state);
        let lines = self.lines(state, if width >= 2 { width - 2 } else { 0 }, if height >= 2 { height - 2 } else { 0 });
        draw(&c, &lines, width, height)
    }
}

} // verus!
