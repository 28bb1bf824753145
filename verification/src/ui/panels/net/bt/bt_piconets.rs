//! `NetBtPiconetsPanel`: the classic roster, one row per piconet heard, and
//! the selected one spelled out below.
//!
//! **A roster of piconets, not of devices.** A LAP is the master's lower
//! address part and every member of its piconet sends it, so every label
//! here says piconet.
//!
//! **The UAP column says how far the narrowing got**: one value once it is
//! down to one, the number of candidates left while a header alone cannot
//! choose, and a dash before any header of it has been decoded. The detail
//! block says which of those it is in a sentence.
use vstd::prelude::*;
use crate::ble::ad::{join, push_item};
use crate::order::{is_key_order, key_order};
use crate::piconet::{inquiry_of, lap_hex, lap_name, lap_name_text, meaning_text, push_lap_hex, short_text, Inquiry};
use crate::piconet::{is_roster_order, roster_order};
use crate::state::{mode_tag, uaps_for, uaps_of, BrModulation, BtHeaders, NetState, Piconet, SdrMetrics, SlotFit, SlotTiming};
use crate::text::{dec, hexpad, owned, push_char, push_dec, push_hexpad, push_spaces, push_str, spaces};
use crate::ui::chrome::{field, field_text, lemma_styled_push, line_text, piece, push_piece, section_text, styled, Ink, Piece};
use crate::ui::frame::{bar_text, draw, framed, lines_text, strings, styles, PanelChrome};
use crate::ui::registry::Panel;
use crate::rounding::{scaled_round, scaled_round_u64};
use crate::ui::widgets::table::{
    columns_that_fit, fit_count, header, header_text, lemma_fit_unique, lemma_row_chars, row, row_chars,
    viewport, viewport_start, Sort,
};
use crate::ui::panels::net::{nothing, push_wrapped};
use crate::ui::panels::net::{ago, ago_text, limit_row, one, push_limit_row};
use crate::ui::panels::net::ble::ble_detail::{field_line, note_line, push_field, push_note, push_section};
use crate::ui::panels::net::bt::bt_hops::{eighth, CHIP};
use crate::ui::panels::net::shared::band_axis::chars_to_string;
use crate::ui::widgets::timing_fmt::{push_seconds_ms, seconds_text};
use crate::ui::wrap::{views, wrap, wrapped};
use crate::ui::widgets::table::{Align, Column};

verus! {

pub struct NetBtPiconetsPanel;

/// Label width in the detail block.
pub const LABEL_W: usize = 9;

/// Rows the table keeps before the detail block may take any.
pub const TABLE_KEEPS: usize = 3;

/// The column the roster is ordered by: the most recently heard first.
pub const ORDERED_BY: usize = 1;

/// The roster's columns.
pub open spec fn piconet_columns() -> Seq<Column> {
    seq![
        Column { title: "LAP", width: 10, align: Align::Left },
        Column { title: "LAST", width: 6, align: Align::Right },
        Column { title: "HITS", width: 6, align: Align::Right },
        Column { title: "CH", width: 3, align: Align::Right },
        Column { title: "UAP", width: 7, align: Align::Right },
        Column { title: "FIRST", width: 6, align: Align::Right },
    ]
}

/// The roster's columns.
pub fn columns() -> (v: Vec<Column>)
    ensures
        v@ == piconet_columns(),
{
    let v = vec![
        Column { title: "LAP", width: 10, align: Align::Left },
        Column { title: "LAST", width: 6, align: Align::Right },
        Column { title: "HITS", width: 6, align: Align::Right },
        Column { title: "CH", width: 3, align: Align::Right },
        Column { title: "UAP", width: 7, align: Align::Right },
        Column { title: "FIRST", width: 6, align: Align::Right },
    ];
    assert(v@ =~= piconet_columns());
    v
}

/// An octet in hexadecimal with its prefix: `0x4c`.
pub open spec fn hex2(b: u8) -> Seq<char> {
    "0x"@ + hexpad(b as nat, 2, false)
}

/// Appends an octet in hexadecimal with its prefix.
pub fn push_hex2(s: &mut String, b: u8)
    ensures
        final(s)@ == old(s)@ + hex2(b),
{
    let ghost start = s@;
    push_str(s, "0x");
    push_hexpad(s, b as u64, 2, false);
    assert(s@ =~= start + hex2(b));
}

/// The UAP cell: one value, the candidates left, or a dash before any
/// header.
pub open spec fn uap_cell_text(uaps: Seq<u8>) -> Seq<char> {
    if uaps.len() == 1 {
        hex2(uaps[0])
    } else if uaps.len() > 0 {
        dec(uaps.len()) + " left"@
    } else {
        "-"@
    }
}

/// The UAP cell.
pub fn uap_cell(uaps: &Vec<u8>) -> (s: String)
    ensures
        s@ == uap_cell_text(uaps@),
{
    let mut s = String::new();
    if uaps.len() == 1 {
        push_hex2(&mut s, uaps[0]);
    } else if uaps.len() > 0 {
        push_dec(&mut s, uaps.len() as u64);
        push_str(&mut s, " left");
    } else {
        push_str(&mut s, "-");
    }
    s
}

/// Each candidate in hexadecimal.
pub open spec fn hex_list(uaps: Seq<u8>) -> Seq<Seq<char>> {
    Seq::new(uaps.len(), |i: int| hex2(uaps[i]))
}

/// The UAP as a sentence, for the detail block: listed while a reader can
/// take the candidates in, counted past four.
pub open spec fn uap_sentence_text(uaps: Seq<u8>) -> Seq<char> {
    if uaps.len() == 1 {
        hex2(uaps[0])
    } else if 2 <= uaps.len() <= 4 {
        dec(uaps.len()) + " candidates ("@ + join(hex_list(uaps)) + "); a header alone does not choose"@
    } else if uaps.len() > 0 {
        dec(uaps.len()) + " candidates; each further header narrows them"@
    } else {
        "not narrowed: no header of it decoded yet"@
    }
}

/// The UAP as a sentence.
pub fn uap_sentence(uaps: &Vec<u8>) -> (s: String)
    ensures
        s@ == uap_sentence_text(uaps@),
{
    let n = uaps.len();
    let mut s = String::new();
    if n == 1 {
        push_hex2(&mut s, uaps[0]);
    } else if 2 <= n && n <= 4 {
        push_dec(&mut s, n as u64);
        push_str(&mut s, " candidates (");
        let ghost head = s@;
        let mut list = String::new();
        let mut i: usize = 0;
        while i < n
            invariant
                i <= n,
                n == uaps@.len(),
                list@ == join(hex_list(uaps@).subrange(0, i as int)),
            decreases n - i,
        {
            let mut h = String::new();
            push_hex2(&mut h, uaps[i]);
            push_item(&mut list, i, h.as_str());
            i = i + 1;
            proof {
                let items = hex_list(uaps@).subrange(0, i as int);
                assert(items.drop_last() =~= hex_list(uaps@).subrange(0, i - 1));
                if i == 1 {
                    assert(list@ =~= items[0]);
                }
            }
        }
        assert(hex_list(uaps@).subrange(0, n as int) =~= hex_list(uaps@));
        push_str(&mut s, list.as_str());
        push_str(&mut s, "); a header alone does not choose");
        assert(s@ =~= uap_sentence_text(uaps@));
    } else if n > 0 {
        push_dec(&mut s, n as u64);
        push_str(&mut s, " candidates; each further header narrows them");
    } else {
        push_str(&mut s, "not narrowed: no header of it decoded yet");
    }
    s
}

/// How many of the first `n` channels a piconet was heard on.
pub open spec fn heard_count(pc: Seq<u32>, n: nat) -> nat
    decreases n,
{
    if n == 0 {
        0
    } else {
        heard_count(pc, (n - 1) as nat) + (if pc[n - 1] > 0 { 1nat } else { 0 })
    }
}

/// How many channels a piconet was heard on.
pub open spec fn channels_hit(p: Piconet) -> nat {
    heard_count(p.per_channel@, 79)
}

/// How many channels a piconet was heard on.
pub fn count_channels(p: &Piconet) -> (n: u64)
    ensures
        n == channels_hit(*p),
        n <= 79,
{
    let mut n: u64 = 0;
    let mut ch: usize = 0;
    while ch < 79
        invariant
            ch <= 79,
            n == heard_count(p.per_channel@, ch as nat),
            n <= ch,
        decreases 79 - ch,
    {
        if p.per_channel[ch] > 0 {
            n = n + 1;
        }
        ch = ch + 1;
    }
    n
}

/// A roster row's cells: the chip and the LAP, when last heard, the hits,
/// the channels, the UAP (fixed by the specification for an inquiry code),
/// and when first heard.
pub open spec fn cells_text(p: Piconet, uaps: Seq<u8>) -> Seq<Seq<char>> {
    seq![
        seq![CHIP, ' '] + lap_name_text(p.lap),
        ago_text(p.last_seen_ms as nat / 1000),
        dec(p.hits as nat),
        dec(channels_hit(p)),
        match inquiry_of(p.lap) {
            Some(_) => "DCI"@,
            None => uap_cell_text(uaps),
        },
        ago_text(p.first_seen_ms as nat / 1000),
    ]
}

/// A roster row's cells.
pub fn cells(p: &Piconet, uaps: &Vec<u8>) -> (v: Vec<String>)
    ensures
        v@.len() == 6,
        Seq::new(6, |i: int| v@[i]@) == cells_text(*p, uaps@),
{
    let mut lap = String::new();
    push_char(&mut lap, CHIP);
    push_char(&mut lap, ' ');
    let name = lap_name(p.lap);
    push_str(&mut lap, name.as_str());
    let mut hits = String::new();
    push_dec(&mut hits, p.hits);
    let mut chans = String::new();
    push_dec(&mut chans, count_channels(p));
    let uap = match Inquiry::of(p.lap) {
        Some(_) => crate::text::owned("DCI"),
        None => uap_cell(uaps),
    };
    assert(lap@ =~= seq![CHIP, ' '] + lap_name_text(p.lap));
    let last = ago(p.last_seen_ms / 1000);
    let first = ago(p.first_seen_ms / 1000);
    let ghost want = cells_text(*p, uaps@);
    assert(uap@ == want[4]);
    let v = vec![lap, last, hits, chans, uap, first];
    assert(v@[0]@ == want[0]);
    assert(v@[1]@ == want[1]);
    assert(v@[2]@ == want[2]);
    assert(v@[3]@ == want[3]);
    assert(v@[5]@ == want[5]);
    assert(Seq::new(6, |i: int| v@[i]@) =~= want);
    v
}

/// One run of channels: `17`, or `2-5`.
pub open spec fn run_text(first: nat, last: nat) -> Seq<char> {
    if first == last { dec(first) } else { dec(first) + seq!['-'] + dec(last) }
}

/// The runs of heard channels from `ch` on, a run being open since `open`.
pub open spec fn runs_scan(heard: Seq<bool>, ch: nat, open: Option<nat>) -> Seq<Seq<char>>
    decreases 79 - ch,
{
    if ch >= 79 {
        match open {
            Some(s) => seq![run_text(s, 78)],
            None => seq![],
        }
    } else if heard[ch as int] {
        runs_scan(heard, ch + 1, match open { Some(s) => Some(s), None => Some(ch) })
    } else {
        match open {
            Some(s) => seq![run_text(s, (ch - 1) as nat)] + runs_scan(heard, ch + 1, None),
            None => runs_scan(heard, ch + 1, None),
        }
    }
}

/// The channels heard, as runs: `2-5, 17, 40-41`.
pub open spec fn runs_text(heard: Seq<bool>) -> Seq<char> {
    join(runs_scan(heard, 0, None))
}

/// Appends a run of channels.
fn push_run(s: &mut String, first: u64, last: u64)
    ensures
        final(s)@ == old(s)@ + run_text(first as nat, last as nat),
{
    let ghost start = s@;
    push_dec(s, first);
    if first != last {
        push_char(s, '-');
        push_dec(s, last);
    }
    assert(s@ =~= start + run_text(first as nat, last as nat));
}

/// The runs of the channels marked heard.
fn runs_of(heard: &Vec<bool>) -> (s: String)
    requires
        heard@.len() == 79,
    ensures
        s@ == runs_text(heard@),
{
    let mut s = String::new();
    let mut count: usize = 0;
    let ghost mut emitted: Seq<Seq<char>> = seq![];
    let mut open: Option<u64> = None;
    let mut ch: u64 = 0;
    while ch < 79
        invariant
            ch <= 79,
            heard@.len() == 79,
            count == emitted.len(),
            count <= ch,
            s@ == join(emitted),
            emitted + runs_scan(heard@, ch as nat, match open { Some(o) => Some(o as nat), None => None })
                == runs_scan(heard@, 0, None),
            match open { Some(o) => o < ch, None => true },
        decreases 79 - ch,
    {
        let ghost o = match open { Some(o) => Some(o as nat), None => None };
        if heard[ch as usize] {
            if open.is_none() {
                open = Some(ch);
            }
        } else {
            match open {
                Some(first) => {
                    let mut run = String::new();
                    push_run(&mut run, first, ch - 1);
                    push_item(&mut s, count, run.as_str());
                    proof {
                        let next = emitted.push(run_text(first as nat, (ch - 1) as nat));
                        assert(next.drop_last() =~= emitted);
                        if emitted.len() == 0 {
                            assert(s@ =~= join(next));
                        }
                        assert(emitted + runs_scan(heard@, ch as nat, o) =~= next + runs_scan(heard@, ch as nat + 1, None));
                        emitted = next;
                    }
                    count = count + 1;
                    open = None;
                },
                None => {},
            }
        }
        ch = ch + 1;
    }
    match open {
        Some(first) => {
            let mut run = String::new();
            push_run(&mut run, first, 78);
            push_item(&mut s, count, run.as_str());
            proof {
                let next = emitted.push(run_text(first as nat, 78));
                assert(next.drop_last() =~= emitted);
                if emitted.len() == 0 {
                    assert(s@ =~= join(next));
                }
                assert(next =~= runs_scan(heard@, 0, None));
            }
        },
        None => {
            assert(emitted =~= runs_scan(heard@, 0, None));
        },
    }
    s
}

/// The channels a mask marks: bit `ch` for channel `ch`.
pub open spec fn mask_heard(mask: u128) -> Seq<bool> {
    Seq::new(79, |ch: int| (mask >> (ch as u128)) & 1 == 1)
}

/// The channels a mask marks, as runs: `2-5, 17, 78`.
pub fn channel_runs(mask: u128) -> (s: String)
    ensures
        s@ == runs_text(mask_heard(mask)),
{
    let mut heard: Vec<bool> = Vec::new();
    let mut ch: u32 = 0;
    while ch < 79
        invariant
            ch <= 79,
            heard@.len() == ch,
            forall|k: int| 0 <= k < ch ==> #[trigger] heard@[k] == ((mask >> (k as u128)) & 1 == 1),
        decreases 79 - ch,
    {
        heard.push((mask >> (ch as u128)) & 1 == 1);
        ch = ch + 1;
    }
    assert(heard@ =~= mask_heard(mask));
    runs_of(&heard)
}

/// The channels a piconet was heard on.
pub open spec fn piconet_heard(p: Piconet) -> Seq<bool> {
    Seq::new(79, |ch: int| p.per_channel[ch] > 0)
}

/// The channels a piconet was heard on, as runs.
pub fn piconet_runs(p: &Piconet) -> (s: String)
    ensures
        s@ == runs_text(piconet_heard(*p)),
{
    let mut heard: Vec<bool> = Vec::new();
    let mut ch: usize = 0;
    while ch < 79
        invariant
            ch <= 79,
            heard@.len() == ch,
            forall|k: int| 0 <= k < ch ==> #[trigger] heard@[k] == (p.per_channel[k] > 0),
        decreases 79 - ch,
    {
        heard.push(p.per_channel[ch] > 0);
        ch = ch + 1;
    }
    assert(heard@ =~= piconet_heard(*p));
    runs_of(&heard)
}

/// The columns a wrapped value gets beside its label; none on a panel too
/// narrow for the label.
pub open spec fn room(iw: nat) -> nat {
    if iw >= LABEL_W + 1 { (iw - LABEL_W - 1) as nat } else { 0 }
}

/// A value wrapped under its label in at most `max` rows, the label on the
/// first.
pub open spec fn field_rows(label: Seq<char>, text: Seq<char>, room: nat, max: nat) -> Seq<Seq<char>> {
    let rows = wrapped(text, room, max);
    Seq::new(rows.len(), |i: int| field_line(if i == 0 { label } else { seq![] }, rows[i]))
}

/// A sentence wrapped to `w` columns in at most `max` rows, each indented.
pub open spec fn note_rows(text: Seq<char>, w: nat, max: nat) -> Seq<Seq<char>> {
    let rows = wrapped(text, w, max);
    Seq::new(rows.len(), |i: int| note_line(rows[i]))
}

/// One column less, none below none.
pub open spec fn less_one(iw: nat) -> nat {
    if iw >= 1 { (iw - 1) as nat } else { 0 }
}

/// Appends a value wrapped under its label.
fn push_field_rows(lines: &mut Vec<Vec<Piece>>, label: &str, text: &str, room: usize, max: usize)
    ensures
        lines_text(final(lines)@) == lines_text(old(lines)@) + field_rows(label@, text@, room as nat, max as nat),
{
    let rows = wrap(text, room, max);
    let ghost start = lines_text(lines@);
    let ghost all = field_rows(label@, text@, room as nat, max as nat);
    let mut i: usize = 0;
    while i < rows.len()
        invariant
            i <= rows@.len(),
            views(rows@) == wrapped(text@, room as nat, max as nat),
            all == field_rows(label@, text@, room as nat, max as nat),
            lines_text(lines@) == start + all.subrange(0, i as int),
        decreases rows@.len() - i,
    {
        let v = owned(rows[i].as_str());
        if i == 0 {
            push_field(lines, label, v);
        } else {
            push_field(lines, "", v);
        }
        i = i + 1;
        proof {
            reveal_strlit("");
            assert(""@ =~= Seq::<char>::empty());
            assert(all.subrange(0, i as int) =~= all.subrange(0, i - 1).push(all[i - 1]));
        }
    }
    assert(all.subrange(0, rows@.len() as int) =~= all);
}

/// Appends a sentence wrapped to `w` columns, each row indented.
fn push_note_rows(lines: &mut Vec<Vec<Piece>>, text: &str, w: usize, max: usize, ink: Ink)
    ensures
        lines_text(final(lines)@) == lines_text(old(lines)@) + note_rows(text@, w as nat, max as nat),
{
    let rows = wrap(text, w, max);
    let ghost start = lines_text(lines@);
    let ghost all = note_rows(text@, w as nat, max as nat);
    let mut i: usize = 0;
    while i < rows.len()
        invariant
            i <= rows@.len(),
            views(rows@) == wrapped(text@, w as nat, max as nat),
            all == note_rows(text@, w as nat, max as nat),
            lines_text(lines@) == start + all.subrange(0, i as int),
        decreases rows@.len() - i,
    {
        push_note(lines, rows[i].as_str(), ink);
        i = i + 1;
        proof {
            assert(all.subrange(0, i as int) =~= all.subrange(0, i - 1).push(all[i - 1]));
        }
    }
    assert(all.subrange(0, rows@.len() as int) =~= all);
}

/// The LAP field: whose address it is.
pub open spec fn lap_field(p: Piconet) -> Seq<char> {
    match inquiry_of(p.lap) {
        Some(i) => lap_hex(p.lap) + "  "@ + short_text(i) + ", no one's address"@,
        None => lap_hex(p.lap) + "  the master's"@,
    }
}

/// When the piconet was first and last heard.
pub open spec fn heard_text(p: Piconet) -> Seq<char> {
    "first "@ + ago_text(p.first_seen_ms as nat / 1000) + " ago, last "@ + ago_text(p.last_seen_ms as nat / 1000)
        + " ago"@
}

/// The channels heard, of all 79 (in a survey a piconet was heard wherever
/// the survey stood at the time), as runs.
pub open spec fn channels_text(p: Piconet) -> Seq<char> {
    dec(channels_hit(p)) + " of 79: "@ + runs_text(piconet_heard(p))
}

/// The core of the selected piconet's detail: what it is, its hits, when it
/// was heard, where, and its UAP (or, for an inquiry code, what it means).
pub open spec fn detail_text(p: Piconet, iw: nat, uaps: Seq<u8>) -> Seq<Seq<char>> {
    let inq = inquiry_of(p.lap);
    seq![
        section_text(if inq is Some { "inquiry"@ } else { "piconet"@ }, ""@, iw),
        field_line("LAP"@, lap_field(p)),
        field_line("hits"@, dec(p.hits as nat)),
        field_line("heard"@, heard_text(p)),
    ] + field_rows("channels"@, channels_text(p), room(iw), 3) + match inq {
        Some(i) => field_rows("meaning"@, meaning_text(i), room(iw), 3),
        None => field_rows("UAP"@, uap_sentence_text(uaps), room(iw), 3),
    }
}

/// Appends the core of the detail.
fn push_detail(lines: &mut Vec<Vec<Piece>>, p: &Piconet, iw: usize, uaps: &Vec<u8>)
    ensures
        lines_text(final(lines)@) == lines_text(old(lines)@) + detail_text(*p, iw as nat, uaps@),
{
    let ghost start = lines_text(lines@);
    let inq = Inquiry::of(p.lap);
    push_section(lines, if inq.is_some() { "inquiry" } else { "piconet" }, "", iw);
    let mut lap = String::new();
    push_lap_hex(&mut lap, p.lap);
    match inq {
        Some(i) => {
            push_str(&mut lap, "  ");
            push_str(&mut lap, i.short());
            push_str(&mut lap, ", no one's address");
        },
        None => push_str(&mut lap, "  the master's"),
    }
    assert(lap@ =~= lap_field(*p));
    push_field(lines, "LAP", lap);
    let mut hits = String::new();
    push_dec(&mut hits, p.hits);
    push_field(lines, "hits", hits);
    let mut heard = owned("first ");
    push_str(&mut heard, ago(p.first_seen_ms / 1000).as_str());
    push_str(&mut heard, " ago, last ");
    push_str(&mut heard, ago(p.last_seen_ms / 1000).as_str());
    push_str(&mut heard, " ago");
    assert(heard@ =~= heard_text(*p));
    push_field(lines, "heard", heard);
    let room = if iw >= LABEL_W + 1 { iw - LABEL_W - 1 } else { 0 };
    let mut chans = String::new();
    push_dec(&mut chans, count_channels(p));
    push_str(&mut chans, " of 79: ");
    push_str(&mut chans, piconet_runs(p).as_str());
    assert(chans@ =~= channels_text(*p));
    push_field_rows(lines, "channels", chans.as_str(), room, 3);
    match inq {
        Some(i) => push_field_rows(lines, "meaning", i.meaning(), room, 3),
        None => {
            let u = uap_sentence(uaps);
            push_field_rows(lines, "UAP", u.as_str(), room, 3);
        },
    }
    assert(lines_text(lines@) =~= start + detail_text(*p, iw as nat, uaps@));
}

/// The MODULATION section: the BR modulation index from the headers'
/// symbols against the BR band, or why it is not measured yet.
pub open spec fn modulation_text(p: Piconet, iw: nat) -> Seq<Seq<char>> {
    let h = p.headers;
    let head = section_text("modulation"@, "BR limits: Core 5.4 Vol 2 A 3.1.1"@, iw);
    match h.modulation {
        None => seq![head, note_line("not measured: "@ + dec(h.settled_runs as nat) + " settled runs in "@
            + dec(h.captured as nat) + " headers, two needed"@)],
        Some(m) => seq![head, limit_row("Mod index"@, m.index@), limit_row("df1 avg"@, m.df1@)]
            + match m.ratio {
                Some(r) => seq![limit_row("df2/df1"@, r@)],
                None => seq![note_line("df2/df1: fewer than two alternating runs yet"@)],
            }
            + note_rows(dec(h.settled_runs as nat) + " settled and "@ + dec(h.alternating_runs as nat)
                + " alternating runs from "@ + dec(h.captured as nat) + " headers, every member's"@, less_one(iw), 2),
    }
}

/// Appends the MODULATION section.
fn push_modulation(lines: &mut Vec<Vec<Piece>>, p: &Piconet, iw: usize)
    ensures
        lines_text(final(lines)@) == lines_text(old(lines)@) + modulation_text(*p, iw as nat),
{
    let ghost start = lines_text(lines@);
    let h = &p.headers;
    push_section(lines, "modulation", "BR limits: Core 5.4 Vol 2 A 3.1.1", iw);
    match &h.modulation {
        None => {
            let mut t = owned("not measured: ");
            push_dec(&mut t, h.settled_runs);
            push_str(&mut t, " settled runs in ");
            push_dec(&mut t, h.captured as u64);
            push_str(&mut t, " headers, two needed");
            push_note(lines, t.as_str(), Ink::Stale);
        },
        Some(m) => {
            push_limit_row(lines, "Mod index", m.index.as_str());
            push_limit_row(lines, "df1 avg", m.df1.as_str());
            match &m.ratio {
                Some(r) => push_limit_row(lines, "df2/df1", r.as_str()),
                None => push_note(lines, "df2/df1: fewer than two alternating runs yet", Ink::Stale),
            }
            let mut t = String::new();
            push_dec(&mut t, h.settled_runs);
            push_str(&mut t, " settled and ");
            push_dec(&mut t, h.alternating_runs);
            push_str(&mut t, " alternating runs from ");
            push_dec(&mut t, h.captured as u64);
            push_str(&mut t, " headers, every member's");
            push_note_rows(lines, t.as_str(), if iw >= 1 { iw - 1 } else { 0 }, 2, Ink::Label);
        },
    }
    assert(lines_text(lines@) =~= start + modulation_text(*p, iw as nat));
}

/// Whether a residual, in nanoseconds, falls inside the plot's reach of
/// 1.5 us either side of the grid.
pub open spec fn within(x: i64) -> bool {
    -1500 < x < 1500
}

/// The plot column of a residual, in nanoseconds, on a plot `cols` wide
/// spanning -1.5 to +1.5 us.
pub open spec fn col_at(x: int, cols: nat) -> nat {
    let v = (x + 1500) * (cols as int) / 3000;
    if v < 0 { 0 } else if v > cols - 1 { (cols - 1) as nat } else { v as nat }
}

/// How many of the first `n` residuals fall beyond the plot.
pub open spec fn beyond_count(r: Seq<i64>, n: int) -> nat
    decreases n,
{
    if n <= 0 { 0 } else { beyond_count(r, n - 1) + (if within(r[n - 1]) { 0 } else { 1nat }) }
}

/// How many of the first `n` residuals land in plot column `c`.
pub open spec fn bin_count(r: Seq<i64>, n: int, c: nat, cols: nat) -> nat
    decreases n,
{
    if n <= 0 {
        0
    } else {
        bin_count(r, n - 1, c, cols) + (if within(r[n - 1]) && col_at(r[n - 1] as int, cols) == c { 1nat } else { 0 })
    }
}

/// The fullest of the first `k` plot columns.
pub open spec fn most_bin(r: Seq<i64>, cols: nat, k: nat) -> nat
    decreases k,
{
    if k == 0 {
        0
    } else {
        let m = most_bin(r, cols, (k - 1) as nat);
        let b = bin_count(r, r.len() as int, (k - 1) as nat, cols);
        if b > m { b } else { m }
    }
}

/// What the tallest bar stands for, at least one.
pub open spec fn hist_most(r: Seq<i64>, cols: nat) -> nat {
    let m = most_bin(r, cols, cols);
    if m > 1 { m } else { 1 }
}

/// The eighths a bin fills in the row whose floor is `base` eighths up, the
/// fullest filling all three rows; the share is figured as a double
/// figures it (see `scaled_round`).
pub open spec fn hist_fill(n: nat, most: nat, base: nat) -> nat {
    let e = scaled_round(n, most, 24, 1);
    if e <= base { 0 } else if e - base > 8 { 8 } else { (e - base) as nat }
}

/// No bin holds more than the fullest of the first `k`.
proof fn lemma_most_bin(r: Seq<i64>, cols: nat, c: nat, k: nat)
    requires
        c < k,
    ensures
        bin_count(r, r.len() as int, c, cols) <= most_bin(r, cols, k),
    decreases k,
{
    if c < k - 1 {
        lemma_most_bin(r, cols, c, (k - 1) as nat);
    }
}

/// The columns of the limits, -1 and +1 us, and of zero.
pub open spec fn lim_lo(cols: nat) -> nat { col_at(-1000, cols) }
pub open spec fn lim_hi(cols: nat) -> nat { col_at(1000, cols) }
pub open spec fn zero_col(cols: nat) -> nat { col_at(0, cols) }

/// Whether column `c` carries a rule: a limit, or zero.
pub open spec fn ruled(c: nat, cols: nat) -> bool {
    c == lim_lo(cols) || c == lim_hi(cols) || c == zero_col(cols)
}

/// Plot column `c` in the row whose floor is `base` eighths up.
pub open spec fn hist_char(r: Seq<i64>, cols: nat, base: nat, c: nat) -> char {
    let f = hist_fill(bin_count(r, r.len() as int, c, cols), hist_most(r, cols), base);
    if f > 0 { eighth(f) } else if ruled(c, cols) { '\u{250a}' } else { ' ' }
}

/// Plot row `row` of three, the top one first.
pub open spec fn hist_row(r: Seq<i64>, cols: nat, row: nat) -> Seq<char> {
    "  "@ + Seq::new(cols, |c: int| hist_char(r, cols, ((2 - row) * 8) as nat, c as nat))
}

/// The ink plot column `c` is drawn in, in the row whose floor is `base`
/// eighths up: a bar in the piconet's colour, the ±1 µs limits in the
/// warning ink, zero in the dim rule ink, nothing plain.
pub open spec fn hist_ink(r: Seq<i64>, cols: nat, base: nat, c: nat, colour: usize) -> Ink {
    let f = hist_fill(bin_count(r, r.len() as int, c, cols), hist_most(r, cols), base);
    if f > 0 {
        Ink::Series(colour)
    } else if c == lim_lo(cols) || c == lim_hi(cols) {
        Ink::Warn
    } else if c == zero_col(cols) {
        Ink::BorderDim
    } else {
        Ink::Plain
    }
}

/// Plot row `row` of three as it is drawn, a piece per column.
pub open spec fn hist_row_styled(r: Seq<i64>, cols: nat, row: nat, colour: usize) -> Seq<(Seq<char>, Ink, bool)> {
    let base = ((2 - row) * 8) as nat;
    seq![("  "@, Ink::Plain, false)] + Seq::new(
        cols,
        |c: int| (seq![hist_char(r, cols, base, c as nat)], hist_ink(r, cols, base, c as nat, colour), false),
    )
}

/// The plot's three rows as they are drawn; none where the plot is not.
pub open spec fn hist_styles(r: Seq<i64>, iw: nat, colour: usize) -> Seq<Seq<(Seq<char>, Ink, bool)>> {
    let cols: nat = if iw >= 4 { (iw - 4) as nat } else { 0 };
    if cols < 15 {
        seq![]
    } else {
        Seq::new(3, |k: int| hist_row_styled(r, cols, k as nat, colour))
    }
}

/// The tick row under the plot.
pub open spec fn tick_row(cols: nat) -> Seq<char> {
    "  "@ + Seq::new(cols, |c: int| if ruled(c as nat, cols) { '\u{2534}' } else { '\u{2500}' })
}

/// `text` written into `row` centred on column `c`, kept inside the row.
pub open spec fn label_at(row: Seq<char>, c: nat, text: Seq<char>, cols: nat) -> Seq<char> {
    let left: nat = if c >= text.len() / 2 { (c - text.len() / 2) as nat } else { 0 };
    let at: nat = if left < cols - text.len() { left } else { (cols - text.len()) as nat };
    row.subrange(0, at as int) + text + row.subrange((at + text.len()) as int, cols as int)
}

/// The label row: `-1`, `0` and `+1` under their rules.
pub open spec fn label_row(cols: nat) -> Seq<char> {
    "  "@ + label_at(
        label_at(label_at(spaces(cols), lim_lo(cols), "-1"@, cols), zero_col(cols), "0"@, cols),
        lim_hi(cols),
        "+1"@,
        cols,
    )
}

/// Where each hit sat against the grid: three rows of bars from -1.5 to
/// +1.5 us, the +-1 us limits and zero ruled, a tick row and a label row;
/// nothing where the width cannot hold a readable plot.
pub open spec fn hist_text(r: Seq<i64>, iw: nat) -> Seq<Seq<char>> {
    let cols: nat = if iw >= 4 { (iw - 4) as nat } else { 0 };
    if cols < 15 {
        seq![]
    } else {
        seq![hist_row(r, cols, 0), hist_row(r, cols, 1), hist_row(r, cols, 2), tick_row(cols), label_row(cols)]
    }
}

/// The plot column of a residual inside the plot's reach.
fn col_of(x: i64, cols: usize) -> (c: usize)
    requires
        -1500 < x < 1500,
        cols >= 1,
    ensures
        c == col_at(x as int, cols as nat),
        c < cols,
{
    let off = (x + 1500) as u128;
    assert(off * (cols as u128) < 0x1_0000_0000_0000_0000_0000) by (nonlinear_arith)
        requires off < 3000, cols < 0x1_0000_0000_0000_0000;
    let v = off * (cols as u128) / 3000;
    assert(v <= cols) by (nonlinear_arith)
        requires v == off * (cols as u128) / 3000, off < 3000;
    if v > (cols - 1) as u128 { cols - 1 } else { v as usize }
}

/// The residual plot on its own, `iw` columns wide, its bars in the
/// series colour `colour`: its lines, and how many residuals (in
/// nanoseconds) fell beyond it.
pub fn residual_histogram(r: &Vec<i64>, iw: usize, colour: usize) -> (out: (Vec<Vec<Piece>>, u64))
    ensures
        lines_text(out.0@) == hist_text(r@, iw as nat),
        out.1 == beyond_count(r@, r@.len() as int),
        styles(out.0@).subrange(0, hist_styles(r@, iw as nat, colour).len() as int) == hist_styles(r@, iw as nat, colour),
{
    let mut lines: Vec<Vec<Piece>> = Vec::new();
    proof {
        assert(lines_text(lines@) =~= Seq::<Seq<char>>::empty());
        assert(styles(lines@) =~= Seq::<Seq<(Seq<char>, Ink, bool)>>::empty());
    }
    let beyond = push_histogram(&mut lines, r, iw, colour);
    assert(lines_text(lines@) =~= hist_text(r@, iw as nat));
    (lines, beyond)
}

/// The residual plot's lines, and how many residuals fell beyond it.
fn push_histogram(lines: &mut Vec<Vec<Piece>>, r: &Vec<i64>, iw: usize, colour: usize) -> (beyond: u64)
    ensures
        lines_text(final(lines)@) == lines_text(old(lines)@) + hist_text(r@, iw as nat),
        beyond == beyond_count(r@, r@.len() as int),
        styles(final(lines)@).subrange(
            old(lines)@.len() as int,
            old(lines)@.len() + hist_styles(r@, iw as nat, colour).len() as int,
        ) == hist_styles(r@, iw as nat, colour),
{
    let ghost start = lines_text(lines@);
    let ghost start_st = styles(lines@);
    let mut beyond: u64 = 0;
    let mut i: usize = 0;
    while i < r.len()
        invariant
            i <= r@.len(),
            beyond == beyond_count(r@, i as int),
            beyond <= i,
        decreases r@.len() - i,
    {
        if !(-1500 < r[i] && r[i] < 1500) {
            beyond = beyond + 1;
        }
        i = i + 1;
    }
    let cols = if iw >= 4 { iw - 4 } else { 0 };
    if cols < 15 {
        assert(lines_text(lines@) =~= start + hist_text(r@, iw as nat));
        assert(styles(lines@).subrange(start_st.len() as int, start_st.len() as int) =~= hist_styles(r@, iw as nat, colour));
        return beyond;
    }
    let mut bins: Vec<u64> = Vec::new();
    let mut c: usize = 0;
    while c < cols
        invariant
            c <= cols,
            bins@.len() == c,
            forall|j: int| 0 <= j < c ==> #[trigger] bins@[j] == 0,
        decreases cols - c,
    {
        bins.push(0);
        c = c + 1;
    }
    let mut i: usize = 0;
    while i < r.len()
        invariant
            i <= r@.len(),
            cols >= 15,
            bins@.len() == cols,
            forall|j: int| 0 <= j < cols ==> #[trigger] bins@[j] == bin_count(r@, i as int, j as nat, cols as nat),
            forall|j: int| 0 <= j < cols ==> #[trigger] bins@[j] <= i,
        decreases r@.len() - i,
    {
        let ghost before = bins@;
        if -1500 < r[i] && r[i] < 1500 {
            let k = col_of(r[i], cols);
            bins.set(k, bins[k] + 1);
        }
        i = i + 1;
        proof {
            assert forall|j: int| 0 <= j < cols implies #[trigger] bins@[j] == bin_count(r@, i as int, j as nat, cols as nat) by {
                assert(before[j] == bin_count(r@, i - 1, j as nat, cols as nat));
            }
        }
    }
    let mut most: u64 = 0;
    let mut c: usize = 0;
    while c < cols
        invariant
            c <= cols,
            bins@.len() == cols,
            forall|j: int| 0 <= j < cols ==> #[trigger] bins@[j] == bin_count(r@, r@.len() as int, j as nat, cols as nat),
            most == most_bin(r@, cols as nat, c as nat),
        decreases cols - c,
    {
        if bins[c] > most {
            most = bins[c];
        }
        c = c + 1;
    }
    let most = if most > 1 { most } else { 1 };
    let lo = col_of(-1000, cols);
    let hi = col_of(1000, cols);
    let zero = col_of(0, cols);
    let mut row: usize = 0;
    while row < 3
        invariant
            row <= 3,
            cols >= 15,
            bins@.len() == cols,
            forall|j: int| 0 <= j < cols ==> #[trigger] bins@[j] == bin_count(r@, r@.len() as int, j as nat, cols as nat),
            forall|j: int| 0 <= j < cols ==> #[trigger] bins@[j] <= r@.len(),
            most == hist_most(r@, cols as nat),
            lo == lim_lo(cols as nat),
            hi == lim_hi(cols as nat),
            zero == zero_col(cols as nat),
            lines_text(lines@) == start + Seq::new(row as nat, |k: int| hist_row(r@, cols as nat, k as nat)),
            styles(lines@) == start_st + Seq::new(row as nat, |k: int| hist_row_styled(r@, cols as nat, k as nat, colour)),
        decreases 3 - row,
    {
        let base: u64 = ((2 - row) * 8) as u64;
        let mut line: Vec<Piece> = Vec::new();
        push_piece(&mut line, piece(owned("  "), Ink::Plain));
        proof {
            reveal_strlit("  ");
            assert(line_text(line@) =~= "  "@) by {
                assert(line@.drop_last() =~= Seq::<Piece>::empty());
            }
            assert(styled(line@) =~= seq![("  "@, Ink::Plain, false)]);
        }
        let mut c: usize = 0;
        while c < cols
            invariant
                c <= cols,
                bins@.len() == cols,
                forall|j: int| 0 <= j < cols ==> #[trigger] bins@[j] == bin_count(r@, r@.len() as int, j as nat, cols as nat),
                forall|j: int| 0 <= j < cols ==> #[trigger] bins@[j] <= r@.len(),
                most == hist_most(r@, cols as nat),
                1 <= most,
                lo == lim_lo(cols as nat),
                hi == lim_hi(cols as nat),
                zero == zero_col(cols as nat),
                base == (2 - row) * 8,
                row < 3,
                line_text(line@) == "  "@ + Seq::new(c as nat, |j: int| hist_char(r@, cols as nat, base as nat, j as nat)),
                styled(line@) == seq![("  "@, Ink::Plain, false)] + Seq::new(
                    c as nat,
                    |j: int| (seq![hist_char(r@, cols as nat, base as nat, j as nat)], hist_ink(r@, cols as nat, base as nat, j as nat, colour), false),
                ),
            decreases cols - c,
        {
            let n = bins[c];
            proof {
                lemma_most_bin(r@, cols as nat, c as nat, cols as nat);
            }
            let e = scaled_round_u64(n, most, 24, 1);
            let f: u64 = if e <= base as u128 { 0 } else if e - base as u128 > 8 { 8 } else { (e - base as u128) as u64 };
            let mut t = String::new();
            let ink = if f > 0 {
                push_char(&mut t, crate::ui::panels::net::bt::bt_hops::eighth_char(f));
                Ink::Series(colour)
            } else if c == lo || c == hi {
                push_char(&mut t, '\u{250a}');
                Ink::Warn
            } else if c == zero {
                push_char(&mut t, '\u{250a}');
                Ink::BorderDim
            } else {
                push_char(&mut t, ' ');
                Ink::Plain
            };
            assert(t@ =~= seq![hist_char(r@, cols as nat, base as nat, c as nat)]);
            assert(ink == hist_ink(r@, cols as nat, base as nat, c as nat, colour));
            let p = piece(t, ink);
            proof {
                lemma_styled_push(line@, p);
            }
            push_piece(&mut line, p);
            c = c + 1;
            proof {
                assert(styled(line@) =~= seq![("  "@, Ink::Plain, false)] + Seq::new(
                    c as nat,
                    |j: int| (seq![hist_char(r@, cols as nat, base as nat, j as nat)], hist_ink(r@, cols as nat, base as nat, j as nat, colour), false),
                ));
                assert(line_text(line@) =~= "  "@ + Seq::new(c as nat, |j: int| hist_char(r@, cols as nat, base as nat, j as nat)));
            }
        }
        let ghost before = lines@;
        let ghost lt = line_text(line@);
        assert(lt == hist_row(r@, cols as nat, row as nat));
        assert(styled(line@) =~= hist_row_styled(r@, cols as nat, row as nat, colour));
        let ghost ls = styled(line@);
        lines.push(line);
        row = row + 1;
        proof {
            assert(lines_text(lines@) =~= lines_text(before).push(lt));
            assert(lines_text(lines@) =~= start + Seq::new(row as nat, |k: int| hist_row(r@, cols as nat, k as nat)));
            assert(styles(lines@) =~= styles(before).push(ls));
            assert(styles(lines@) =~= start_st + Seq::new(row as nat, |k: int| hist_row_styled(r@, cols as nat, k as nat, colour)));
        }
    }
    let ghost rows_st = styles(lines@);
    let mut ticks: Vec<char> = Vec::new();
    let mut c: usize = 0;
    while c < cols
        invariant
            c <= cols,
            lo == lim_lo(cols as nat),
            hi == lim_hi(cols as nat),
            zero == zero_col(cols as nat),
            ticks@ == Seq::new(c as nat, |j: int| if ruled(j as nat, cols as nat) { '\u{2534}' } else { '\u{2500}' }),
        decreases cols - c,
    {
        ticks.push(if c == lo || c == hi || c == zero { '\u{2534}' } else { '\u{2500}' });
        c = c + 1;
        proof {
            assert(ticks@ =~= Seq::new(c as nat, |j: int| if ruled(j as nat, cols as nat) { '\u{2534}' } else { '\u{2500}' }));
        }
    }
    let mut t = owned("  ");
    push_str(&mut t, chars_to_string(&ticks).as_str());
    assert(t@ =~= tick_row(cols as nat));
    let ghost before_ticks = lines_text(lines@);
    lines.push(one(piece(t, Ink::BorderDim)));
    assert(lines_text(lines@) =~= before_ticks.push(tick_row(cols as nat)));
    let mut labels: Vec<char> = Vec::new();
    let mut c: usize = 0;
    while c < cols
        invariant
            c <= cols,
            labels@ == spaces(c as nat),
        decreases cols - c,
    {
        labels.push(' ');
        c = c + 1;
        assert(labels@ =~= spaces(c as nat));
    }
    proof {
        reveal_strlit("-1");
        reveal_strlit("0");
        reveal_strlit("+1");
    }
    write_label(&mut labels, lo, "-1", cols);
    write_label(&mut labels, zero, "0", cols);
    write_label(&mut labels, hi, "+1", cols);
    let mut t = owned("  ");
    push_str(&mut t, chars_to_string(&labels).as_str());
    assert(t@ =~= label_row(cols as nat));
    let ghost before_labels = lines_text(lines@);
    lines.push(one(piece(t, Ink::Label)));
    proof {
        assert(lines_text(lines@) =~= before_labels.push(label_row(cols as nat)));
        assert(Seq::new(3, |k: int| hist_row(r@, cols as nat, k as nat)) =~= seq![
            hist_row(r@, cols as nat, 0), hist_row(r@, cols as nat, 1), hist_row(r@, cols as nat, 2)]);
        assert(lines_text(lines@) =~= start + hist_text(r@, iw as nat));
        let a = start_st.len() as int;
        assert(rows_st.subrange(a, a + 3) =~= hist_styles(r@, iw as nat, colour));
        assert(styles(lines@).subrange(a, a + 3) =~= rows_st.subrange(a, a + 3));
    }
    beyond
}

/// Writes `text` into `row` centred on column `c`, kept inside the row.
fn write_label(row: &mut Vec<char>, c: usize, text: &str, cols: usize)
    requires
        old(row)@.len() == cols,
        1 <= text@.len() <= 2,
        cols >= 15,
    ensures
        final(row)@ == label_at(old(row)@, c as nat, text@, cols as nat),
        final(row)@.len() == cols,
{
    let n = text.unicode_len();
    let left = if c >= n / 2 { c - n / 2 } else { 0 };
    let at = if left < cols - n { left } else { cols - n };
    let ghost before = row@;
    let mut j: usize = 0;
    while j < n
        invariant
            j <= n,
            n == text@.len(),
            at + n <= cols,
            before.len() == cols,
            row@.len() == cols,
            row@ == before.subrange(0, at as int) + text@.subrange(0, j as int) + before.subrange(at + j, cols as int),
        decreases n - j,
    {
        row.set(at + j, text.get_char(j));
        j = j + 1;
        proof {
            assert(row@ =~= before.subrange(0, at as int) + text@.subrange(0, j as int) + before.subrange(at + j, cols as int));
        }
    }
    assert(text@.subrange(0, n as int) =~= text@);
}

/// How many residuals fell beyond the plot, where any did.
pub open spec fn beyond_text(n: nat) -> Seq<char> {
    if n > 0 { ", "@ + dec(n) + " beyond the plot's 1.5"@ } else { seq![] }
}

/// The TIMING section: each access code's offset from the piconet's own
/// fitted 625 us grid; refused while too few hits are in and when they line
/// up on no grid beyond chance.
pub open spec fn timing_text(p: Piconet, iw: nat) -> Seq<Seq<char>> {
    let head = section_text("timing"@, "625 us slots: Core 5.4 Vol 2 B 2.2.5"@, iw);
    match p.slots {
        SlotTiming::Untimed => seq![head, note_line("no hit timed yet"@)],
        SlotTiming::Collecting { have, need } => seq![head, note_line("collecting: "@ + dec(have as nat) + " of "@
            + dec(need as nat) + " hits to fit a slot grid"@)],
        SlotTiming::NoGrid { hits } => seq![head, note_line("no slot grid: "@ + dec(hits as nat)
            + " hits do not line up at 625 us beyond chance"@)],
        SlotTiming::Fit(f) => seq![head, limit_row("Jitter max"@, f.jitter@), field_line("rms"@, f.rms@)]
            + hist_text(f.residuals_ns@, iw)
            + note_rows("residual from the grid, us"@ + beyond_text(beyond_count(f.residuals_ns@, f.residuals_ns@.len() as int))
                + ": "@ + dec(f.hits as nat) + " hits over "@ + seconds_text(f.span_ms as nat)
                + ", every member's; hits dated to 0.25 us"@, less_one(iw), 2),
    }
}

/// Appends the TIMING section; `colour` is the piconet's place in the
/// roster of first sightings, the colour its residuals wear.
fn push_timing(lines: &mut Vec<Vec<Piece>>, p: &Piconet, iw: usize, colour: usize)
    ensures
        lines_text(final(lines)@) == lines_text(old(lines)@) + timing_text(*p, iw as nat),
{
    let ghost start = lines_text(lines@);
    push_section(lines, "timing", "625 us slots: Core 5.4 Vol 2 B 2.2.5", iw);
    match &p.slots {
        SlotTiming::Untimed => push_note(lines, "no hit timed yet", Ink::Stale),
        SlotTiming::Collecting { have, need } => {
            let mut t = owned("collecting: ");
            push_dec(&mut t, *have);
            push_str(&mut t, " of ");
            push_dec(&mut t, *need);
            push_str(&mut t, " hits to fit a slot grid");
            push_note(lines, t.as_str(), Ink::Stale);
        },
        SlotTiming::NoGrid { hits } => {
            let mut t = owned("no slot grid: ");
            push_dec(&mut t, *hits);
            push_str(&mut t, " hits do not line up at 625 us beyond chance");
            push_note(lines, t.as_str(), Ink::Stale);
        },
        SlotTiming::Fit(f) => {
            push_limit_row(lines, "Jitter max", f.jitter.as_str());
            push_field(lines, "rms", owned(f.rms.as_str()));
            let beyond = push_histogram(lines, &f.residuals_ns, iw, colour);
            let mut t = owned("residual from the grid, us");
            if beyond > 0 {
                push_str(&mut t, ", ");
                push_dec(&mut t, beyond);
                push_str(&mut t, " beyond the plot's 1.5");
            }
            push_str(&mut t, ": ");
            push_dec(&mut t, f.hits);
            push_str(&mut t, " hits over ");
            push_seconds_ms(&mut t, f.span_ms);
            push_str(&mut t, ", every member's; hits dated to 0.25 us");
            let ghost mid = lines_text(lines@);
            push_note_rows(lines, t.as_str(), if iw >= 1 { iw - 1 } else { 0 }, 2, Ink::Label);
            proof {
                let head = section_text("timing"@, "625 us slots: Core 5.4 Vol 2 B 2.2.5"@, iw as nat);
                assert(t@ =~= "residual from the grid, us"@ + beyond_text(beyond_count(f.residuals_ns@, f.residuals_ns@.len() as int))
                    + ": "@ + dec(f.hits as nat) + " hits over "@ + seconds_text(f.span_ms as nat)
                    + ", every member's; hits dated to 0.25 us"@);
                assert(mid =~= start + seq![head, limit_row("Jitter max"@, f.jitter@), field_line("rms"@, f.rms@)]
                    + hist_text(f.residuals_ns@, iw as nat));
            }
        },
    }
    assert(lines_text(lines@) =~= start + timing_text(*p, iw as nat));
}

/// A BR packet type's name, by its code.
pub open spec fn packet_label(code: nat) -> Seq<char> {
    if code == 0 { "NULL"@ }
    else if code == 1 { "POLL"@ }
    else if code == 2 { "FHS"@ }
    else if code == 3 { "DM1"@ }
    else if code == 4 { "DH1"@ }
    else if code == 5 { "HV1"@ }
    else if code == 6 { "HV2"@ }
    else if code == 7 { "HV3"@ }
    else if code == 8 { "DV"@ }
    else if code == 9 { "AUX1"@ }
    else if code == 10 { "DM3"@ }
    else if code == 11 { "DH3"@ }
    else if code == 12 { "EV4"@ }
    else if code == 13 { "EV5"@ }
    else if code == 14 { "DM5"@ }
    else { "DH5"@ }
}

/// A BR packet type's name, by its code.
pub fn packet_name(code: usize) -> (s: &'static str)
    ensures
        s@ == packet_label(code as nat),
{
    if code == 0 { "NULL" }
    else if code == 1 { "POLL" }
    else if code == 2 { "FHS" }
    else if code == 3 { "DM1" }
    else if code == 4 { "DH1" }
    else if code == 5 { "HV1" }
    else if code == 6 { "HV2" }
    else if code == 7 { "HV3" }
    else if code == 8 { "DV" }
    else if code == 9 { "AUX1" }
    else if code == 10 { "DM3" }
    else if code == 11 { "DH3" }
    else if code == 12 { "EV4" }
    else if code == 13 { "EV5" }
    else if code == 14 { "DM5" }
    else { "DH5" }
}

/// The untaken type heard most among the first `k` codes, the lower code
/// among equals; none where no untaken code was heard.
pub open spec fn best_type(types: Seq<u32>, taken: Seq<bool>, k: nat) -> Option<nat>
    decreases k,
{
    if k == 0 {
        None
    } else {
        let c = (k - 1) as nat;
        let before = best_type(types, taken, c);
        if taken[c as int] || types[c as int] == 0 {
            before
        } else {
            match before {
                Some(b) => if types[c as int] > types[b as int] { Some(c) } else { Some(b) },
                None => Some(c),
            }
        }
    }
}

/// The types heard, the most heard first and the lower code first among
/// equals, at most `steps` of them.
pub open spec fn type_mix(types: Seq<u32>, taken: Seq<bool>, steps: nat) -> Seq<nat>
    decreases steps,
{
    if steps == 0 {
        seq![]
    } else {
        match best_type(types, taken, 16) {
            None => seq![],
            Some(c) => seq![c] + type_mix(types, taken.update(c as int, true), (steps - 1) as nat),
        }
    }
}

/// Texts joined with a middle dot.
pub open spec fn join_dots(items: Seq<Seq<char>>) -> Seq<char>
    decreases items.len(),
{
    if items.len() == 0 {
        seq![]
    } else if items.len() == 1 {
        items[0]
    } else {
        join_dots(items.drop_last()) + " \u{00b7} "@ + items.last()
    }
}

/// The type mix in words: `POLL 3 · NULL 1 · DH1 1`, or a dash.
pub open spec fn types_text(types: Seq<u32>) -> Seq<char> {
    let mix = type_mix(types, Seq::new(16, |i: int| false), 16);
    if mix.len() == 0 {
        "-"@
    } else {
        join_dots(Seq::new(mix.len(), |k: int| packet_label(mix[k]) + seq![' '] + dec(types[mix[k] as int] as nat)))
    }
}

/// The LT_ADDRs seen among the first `k`, `0` named as the broadcast.
pub open spec fn lt_items(bits: u8, k: nat) -> Seq<Seq<char>>
    decreases k,
{
    if k == 0 {
        seq![]
    } else {
        let a = (k - 1) as nat;
        lt_items(bits, a) + (if (bits >> (a as u8)) & 1 == 1 {
            seq![if a == 0 { "0 (broadcast)"@ } else { dec(a) }]
        } else {
            seq![]
        })
    }
}

/// The LT_ADDRs seen, or a dash.
pub open spec fn lt_text(bits: u8) -> Seq<char> {
    let items = lt_items(bits, 8);
    if items.len() == 0 { "-"@ } else { join(items) }
}

/// The CLK1-6 hunt, in words: the whitening every header is read through
/// depends on it.
pub open spec fn clock_text(h: u8) -> Seq<char> {
    if h == 0 {
        "CLK1-6 not tracked yet"@
    } else if h == 1 {
        "CLK1-6 found (1 of 64 hypotheses left)"@
    } else {
        "CLK1-6: "@ + dec(h as nat) + " of 64 hypotheses left"@
    }
}

/// What was read: how many of those captured decoded, and how many did not
/// under the resolved UAP.
pub open spec fn read_text(h: BtHeaders, uap: u8) -> Seq<char> {
    dec(h.decoded as nat) + " of "@ + dec(h.captured as nat) + " captured"@ + (if h.undecoded > 0 {
        ", "@ + dec(h.undecoded as nat) + " did not decode under "@ + hex2(uap)
    } else {
        seq![]
    })
}

/// The HEADERS section: read only under one UAP. Before, how many wait and
/// why; after, the type mix, the LT_ADDRs and the clock.
pub open spec fn headers_text(p: Piconet, iw: nat, uaps: Seq<u8>) -> Seq<Seq<char>> {
    let h = p.headers;
    let head = section_text("headers"@, "libbtbb port, unchecked on air"@, iw);
    if h.captured == 0 {
        seq![head, field_line("captured"@, "none yet: no header followed a hit"@)]
    } else if uaps.len() != 1 {
        seq![
            head,
            field_line("captured"@, dec(h.captured as nat) + ", not read: UAP not resolved ("@ + dec(uaps.len())
                + " candidates)"@),
            field_line("clock"@, clock_text(h.clock_hypotheses)),
        ]
    } else {
        seq![head, field_line("read"@, read_text(h, uaps[0]))]
            + field_rows("types"@, types_text(h.types@), room(iw), 2)
            + seq![field_line("LT_ADDR"@, lt_text(h.lt_addrs)), field_line("clock"@, clock_text(h.clock_hypotheses))]
    }
}

/// The CLK1-6 hunt, in words.
fn clock_words(h: u8) -> (s: String)
    ensures
        s@ == clock_text(h),
{
    if h == 0 {
        owned("CLK1-6 not tracked yet")
    } else if h == 1 {
        owned("CLK1-6 found (1 of 64 hypotheses left)")
    } else {
        let mut s = owned("CLK1-6: ");
        push_dec(&mut s, h as u64);
        push_str(&mut s, " of 64 hypotheses left");
        s
    }
}

/// The type mix in words.
fn types_words(types: &[u32; 16]) -> (s: String)
    ensures
        s@ == types_text(types@),
{
    let ghost all = type_mix(types@, Seq::new(16, |i: int| false), 16);
    let mut taken: Vec<bool> = vec![false, false, false, false, false, false, false, false, false, false, false, false, false, false, false, false];
    assert(taken@ =~= Seq::new(16, |i: int| false));
    let ghost mut emitted: Seq<nat> = seq![];
    let mut s = String::new();
    let mut step: usize = 0;
    let mut done = false;
    while step < 16 && !done
        invariant
            step <= 16,
            taken@.len() == 16,
            types@.len() == 16,
            emitted.len() == step,
            !done ==> emitted + type_mix(types@, taken@, (16 - step) as nat) == all,
            done ==> emitted == all,
            emitted.len() > 0 ==> s@ == join_dots(Seq::new(emitted.len(), |k: int| packet_label(emitted[k]) + seq![' '] + dec(types@[emitted[k] as int] as nat))),
            emitted.len() == 0 ==> s@ == Seq::<char>::empty(),
            forall|k: int| 0 <= k < emitted.len() ==> #[trigger] emitted[k] < 16,
        decreases 16 - step + (if done { 0int } else { 1int }),
    {
        let mut best: Option<usize> = None;
        let mut c: usize = 0;
        while c < 16
            invariant
                c <= 16,
                taken@.len() == 16,
                types@.len() == 16,
                match best {
                    Some(b) => best_type(types@, taken@, c as nat) == Some(b as nat) && b < 16,
                    None => best_type(types@, taken@, c as nat) is None,
                },
            decreases 16 - c,
        {
            if !taken[c] && types[c] > 0 {
                best = match best {
                    Some(b) => if types[c] > types[b] { Some(c) } else { Some(b) },
                    None => Some(c),
                };
            }
            c = c + 1;
        }
        match best {
            None => {
                done = true;
            },
            Some(b) => {
                let ghost before = emitted;
                if step > 0 {
                    push_str(&mut s, " \u{00b7} ");
                }
                push_str(&mut s, packet_name(b));
                push_char(&mut s, ' ');
                push_dec(&mut s, types[b] as u64);
                proof {
                    emitted = emitted.push(b as nat);
                    let items = Seq::new(emitted.len(), |k: int| packet_label(emitted[k]) + seq![' '] + dec(types@[emitted[k] as int] as nat));
                    assert(items.drop_last() =~= Seq::new(before.len(), |k: int| packet_label(before[k]) + seq![' '] + dec(types@[before[k] as int] as nat)));
                    if before.len() == 0 {
                        assert(s@ =~= items[0]);
                    } else {
                        assert(s@ =~= join_dots(items.drop_last()) + " \u{00b7} "@ + items.last());
                    }
                    assert(before + type_mix(types@, taken@, (16 - step) as nat) == all);
                    assert(type_mix(types@, taken@, (16 - step) as nat) =~= seq![b as nat] + type_mix(types@, taken@.update(b as int, true), (16 - step - 1) as nat));
                }
                taken.set(b, true);
                step = step + 1;
                proof {
                    assert(emitted + type_mix(types@, taken@, (16 - step) as nat) =~= all);
                }
            },
        }
    }
    proof {
        if !done {
            assert(step == 16);
            assert(emitted + type_mix(types@, taken@, 0) == all);
            assert(emitted =~= all);
        }
    }
    if step == 0 {
        s = owned("-");
    }
    s
}

/// The LT_ADDRs seen, or a dash.
fn lt_words(bits: u8) -> (s: String)
    ensures
        s@ == lt_text(bits),
{
    let mut s = String::new();
    let mut count: usize = 0;
    let mut a: u8 = 0;
    while a < 8
        invariant
            a <= 8,
            count == lt_items(bits, a as nat).len(),
            count <= a,
            s@ == join(lt_items(bits, a as nat)),
        decreases 8 - a,
    {
        let ghost items = lt_items(bits, a as nat);
        if (bits >> a) & 1 == 1 {
            let mut item = String::new();
            if a == 0 {
                push_str(&mut item, "0 (broadcast)");
            } else {
                push_dec(&mut item, a as u64);
            }
            push_item(&mut s, count, item.as_str());
            count = count + 1;
            proof {
                let next = items.push(if a == 0 { "0 (broadcast)"@ } else { dec(a as nat) });
                assert(next.drop_last() =~= items);
                assert(lt_items(bits, (a + 1) as nat) =~= next);
                if items.len() == 0 {
                    assert(s@ =~= join(next));
                }
            }
        } else {
            assert(lt_items(bits, (a + 1) as nat) =~= items);
        }
        a = a + 1;
    }
    if count == 0 {
        s = owned("-");
    }
    s
}

/// Appends the HEADERS section.
fn push_headers(lines: &mut Vec<Vec<Piece>>, p: &Piconet, iw: usize, uaps: &Vec<u8>)
    ensures
        lines_text(final(lines)@) == lines_text(old(lines)@) + headers_text(*p, iw as nat, uaps@),
{
    let ghost start = lines_text(lines@);
    let h = &p.headers;
    push_section(lines, "headers", "libbtbb port, unchecked on air", iw);
    if h.captured == 0 {
        push_field(lines, "captured", owned("none yet: no header followed a hit"));
    } else if uaps.len() != 1 {
        let mut t = String::new();
        push_dec(&mut t, h.captured as u64);
        push_str(&mut t, ", not read: UAP not resolved (");
        push_dec(&mut t, uaps.len() as u64);
        push_str(&mut t, " candidates)");
        push_field(lines, "captured", t);
        push_field(lines, "clock", clock_words(h.clock_hypotheses));
    } else {
        let mut read = String::new();
        push_dec(&mut read, h.decoded as u64);
        push_str(&mut read, " of ");
        push_dec(&mut read, h.captured as u64);
        push_str(&mut read, " captured");
        if h.undecoded > 0 {
            push_str(&mut read, ", ");
            push_dec(&mut read, h.undecoded as u64);
            push_str(&mut read, " did not decode under ");
            push_hex2(&mut read, uaps[0]);
        }
        assert(read@ =~= read_text(*h, uaps@[0]));
        push_field(lines, "read", read);
        let room = if iw >= LABEL_W + 1 { iw - LABEL_W - 1 } else { 0 };
        let t = types_words(&h.types);
        push_field_rows(lines, "types", t.as_str(), room, 2);
        push_field(lines, "LT_ADDR", lt_words(h.lt_addrs));
        push_field(lines, "clock", clock_words(h.clock_hypotheses));
    }
    assert(lines_text(lines@) =~= start + headers_text(*p, iw as nat, uaps@));
}

/// Why an inquiry code's detail stops at its core: every device inquiring
/// sends the same code.
pub open spec fn dci_text() -> Seq<char> {
    "UAP fixed at the DCI, 0x00. Every device inquiring sends this code, so there is no one clock, modulation or header stream to read"@
}

/// The sections under the core, by name.
pub open spec fn section_names() -> Seq<Seq<char>> {
    seq!["MODULATION"@, "TIMING"@, "HEADERS"@]
}

/// The detail after the first `k` sections have been weighed: each goes in
/// whole, in order, while it fits with a row kept back for the line that
/// names what is left out (unless it is the last); once one is left out,
/// so is every one after it.
pub open spec fn sections_fold(
    core: Seq<Seq<char>>,
    secs: Seq<Seq<Seq<char>>>,
    budget: nat,
    k: nat,
) -> (Seq<Seq<char>>, Seq<Seq<char>>)
    decreases k,
{
    if k == 0 {
        (core, seq![])
    } else {
        let (out, left) = sections_fold(core, secs, budget, (k - 1) as nat);
        let i = (k - 1) as int;
        let reserve: nat = if i < 2 { 1 } else { 0 };
        if left.len() == 0 && out.len() + secs[i].len() + reserve <= budget {
            (out + secs[i], left)
        } else {
            (out, left.push(section_names()[i]))
        }
    }
}

/// The first `n` rows of `rows`.
pub open spec fn first_rows(rows: Seq<Seq<char>>, n: nat) -> Seq<Seq<char>> {
    if rows.len() <= n { rows } else { rows.subrange(0, n as int) }
}

/// The selected piconet's detail within `budget` rows: its core, or nothing
/// where even that does not fit; then, for an inquiry code, why there is no
/// more, and for a piconet each section while it fits whole, and a last line
/// naming those left out.
pub open spec fn detail_within_text(p: Piconet, iw: nat, budget: nat, uaps: Seq<u8>) -> Seq<Seq<char>> {
    let core = detail_text(p, iw, uaps);
    if core.len() > budget {
        seq![]
    } else if inquiry_of(p.lap) is Some {
        core + first_rows(note_rows(dci_text(), less_one(iw), 3), (budget - core.len()) as nat)
    } else {
        let (out, left) = sections_fold(core, seq![modulation_text(p, iw), timing_text(p, iw), headers_text(p, iw, uaps)], budget, 3);
        if left.len() > 0 && out.len() < budget {
            out.push(" + "@ + join(left) + " on a taller panel"@)
        } else {
            out
        }
    }
}

/// Appends `more` to `lines`.
fn append_lines(lines: &mut Vec<Vec<Piece>>, more: Vec<Vec<Piece>>)
    ensures
        lines_text(final(lines)@) == lines_text(old(lines)@) + lines_text(more@),
        final(lines)@.len() == old(lines)@.len() + more@.len(),
{
    let mut more = more;
    let ghost a = lines@;
    let ghost b = more@;
    lines.append(&mut more);
    assert(lines_text(lines@) =~= lines_text(a) + lines_text(b));
}

/// One step of the weighing: `sec` goes in whole where nothing has been
/// left out yet and it fits with `reserve` rows kept back; otherwise its
/// name joins those left out.
fn weigh(
    out: &mut Vec<Vec<Piece>>,
    left: &mut Vec<&'static str>,
    sec: Vec<Vec<Piece>>,
    name: &'static str,
    reserve: usize,
    budget: usize,
)
    requires
        reserve <= 1,
    ensures
        ({
            let before = (lines_text(old(out)@), Seq::new(old(left)@.len(), |i: int| old(left)@[i]@));
            let s = lines_text(sec@);
            (lines_text(final(out)@), Seq::new(final(left)@.len(), |i: int| final(left)@[i]@)) == (if before.1.len() == 0
                && before.0.len() + s.len() + reserve <= budget {
                (before.0 + s, before.1)
            } else {
                (before.0, before.1.push(name@))
            })
        }),
{
    let ghost prev = Seq::new(left@.len(), |i: int| left@[i]@);
    let n = out.len();
    let len = sec.len();
    if left.len() == 0 && reserve <= budget && n <= budget - reserve && len <= budget - reserve - n {
        append_lines(out, sec);
    } else {
        left.push(name);
        assert(Seq::new(left@.len(), |i: int| left@[i]@) =~= prev.push(name@));
    }
}

/// The selected piconet's detail within `budget` rows; `colour` is its
/// place in the roster of first sightings.
fn detail_within(p: &Piconet, iw: usize, budget: usize, colour: usize, uaps: &Vec<u8>) -> (out: Vec<Vec<Piece>>)
    ensures
        lines_text(out@) == detail_within_text(*p, iw as nat, budget as nat, uaps@),
{
    let mut out = nothing();
    push_detail(&mut out, p, iw, uaps);
    if out.len() > budget {
        return nothing();
    }
    let ghost core = lines_text(out@);
    if Inquiry::of(p.lap).is_some() {
        let text = "UAP fixed at the DCI, 0x00. Every device inquiring sends this code, so there is no one clock, modulation or header stream to read";
        let rows = wrap(text, if iw >= 1 { iw - 1 } else { 0 }, 3);
        let ghost all = note_rows(dci_text(), less_one(iw as nat), 3);
        let mut k: usize = 0;
        while k < rows.len() && out.len() < budget
            invariant
                k <= rows@.len(),
                views(rows@) == wrapped(dci_text(), less_one(iw as nat), 3),
                all == note_rows(dci_text(), less_one(iw as nat), 3),
                out@.len() == core.len() + k,
                out@.len() <= budget,
                lines_text(out@) == core + all.subrange(0, k as int),
            decreases rows@.len() - k,
        {
            let ghost before = out@;
            push_note(&mut out, rows[k].as_str(), Ink::Label);
            k = k + 1;
            proof {
                assert(lines_text(before).len() == before.len());
                assert(lines_text(out@).len() == out@.len());
                assert(all.subrange(0, k as int) =~= all.subrange(0, k - 1).push(all[k - 1]));
            }
        }
        proof {
            assert(first_rows(all, (budget - core.len()) as nat) =~= all.subrange(0, k as int));
        }
        return out;
    }
    let mut m = nothing();
    push_modulation(&mut m, p, iw);
    let mut t = nothing();
    push_timing(&mut t, p, iw, colour);
    let mut h = nothing();
    push_headers(&mut h, p, iw, uaps);
    let ghost secs = seq![modulation_text(*p, iw as nat), timing_text(*p, iw as nat), headers_text(*p, iw as nat, uaps@)];
    let mut left: Vec<&'static str> = Vec::new();
    proof {
        assert(Seq::new(left@.len(), |i: int| left@[i]@) =~= Seq::<Seq<char>>::empty());
        assert((lines_text(out@), Seq::new(left@.len(), |i: int| left@[i]@)) == sections_fold(core, secs, budget as nat, 0));
    }
    weigh(&mut out, &mut left, m, "MODULATION", 1, budget);
    proof {
        reveal_strlit("MODULATION");
        assert((lines_text(out@), Seq::new(left@.len(), |i: int| left@[i]@)) == sections_fold(core, secs, budget as nat, 1));
    }
    weigh(&mut out, &mut left, t, "TIMING", 1, budget);
    proof {
        reveal_strlit("TIMING");
        assert((lines_text(out@), Seq::new(left@.len(), |i: int| left@[i]@)) == sections_fold(core, secs, budget as nat, 2));
    }
    weigh(&mut out, &mut left, h, "HEADERS", 0, budget);
    proof {
        reveal_strlit("HEADERS");
        assert((lines_text(out@), Seq::new(left@.len(), |i: int| left@[i]@)) == sections_fold(core, secs, budget as nat, 3));
    }
    if left.len() > 0 && out.len() < budget {
        let mut t = owned(" + ");
        let mut i: usize = 0;
        let ghost items = Seq::new(left@.len(), |i: int| left@[i]@);
        while i < left.len()
            invariant
                i <= left@.len(),
                items == Seq::new(left@.len(), |i: int| left@[i]@),
                t@ == " + "@ + join(items.subrange(0, i as int)),
            decreases left@.len() - i,
        {
            let mut item = String::new();
            push_item(&mut item, i, left[i]);
            push_str(&mut t, item.as_str());
            i = i + 1;
            proof {
                let sub = items.subrange(0, i as int);
                assert(sub.drop_last() =~= items.subrange(0, i - 1));
                if i == 1 {
                    assert(join(sub) =~= sub[0]);
                }
                assert(t@ =~= " + "@ + join(sub));
            }
        }
        assert(items.subrange(0, left@.len() as int) =~= items);
        push_str(&mut t, " on a taller panel");
        let ghost before = lines_text(out@);
        out.push(one(piece(t, Ink::Label)));
        assert(lines_text(out@) =~= before.push(" + "@ + join(items) + " on a taller panel"@));
    }
    out
}

/// The three silences, each named: refused, not running, and listening
/// with nothing heard.
pub open spec fn silence_text(n: NetState, width: nat) -> Seq<Seq<char>> {
    match n.bt_refused {
        Some(reason) => wrapped("not watching"@, width, 4) + wrapped(reason@, width, 4),
        None => if n.bt_channels_watched@.len() == 0 {
            wrapped("no classic receiver running"@, width, 4)
        } else {
            wrapped("watching "@ + dec(n.bt_channels_watched@.len()) + " channels - no piconet heard yet"@, width, 4)
        },
    }
}

/// The first of the first `k` roster rows whose piconet is the selected one.
pub open spec fn cursor_in(ps: Seq<Piconet>, order: Seq<usize>, sel: Option<u32>, k: nat) -> Option<int>
    decreases k,
{
    if k == 0 {
        None
    } else {
        match cursor_in(ps, order, sel, (k - 1) as nat) {
            Some(i) => Some(i),
            None => if sel == Some(ps[order[k - 1] as int].lap) { Some(k - 1) } else { None },
        }
    }
}

/// The roster row the cursor is on.
pub open spec fn roster_cursor(n: NetState, order: Seq<usize>) -> Option<int> {
    cursor_in(n.bt_piconets@, order, n.bt_view.selected, order.len())
}

/// The panel's lines, `width` by `height` inside its frame, the roster in
/// `order`: a silence named, or the table and under it the selected
/// piconet's detail, which gives way to the table's first rows.
pub open spec fn roster_lines(state: SdrMetrics, order: Seq<usize>, width: nat, height: nat) -> Seq<Seq<char>> {
    let n = state.net;
    if width == 0 || height == 0 {
        seq![]
    } else if n.bt_piconets@.len() == 0 {
        silence_text(n, width)
    } else {
        table_lines(n, order, width, height)
    }
}

/// The selected piconet's detail, within what the table leaves it.
pub open spec fn roster_extra(n: NetState, order: Seq<usize>, width: nat, height: nat) -> Seq<Seq<char>> {
    let ps = n.bt_piconets@;
    let count = ps.len();
    let keep: nat = 2 + (if count < TABLE_KEEPS { count } else { TABLE_KEEPS as nat });
    let budget: nat = if height >= keep { (height - keep) as nat } else { 0 };
    match roster_cursor(n, order) {
        Some(i) => detail_within_text(ps[order[i] as int], width, budget, uaps_of(n.bt_uap@, ps[order[i] as int].lap)),
        None => seq![],
    }
}

/// The table over `extra`: the header, the rows the extra lines leave
/// room for around the cursor, a blank row where one fits, and the extra
/// lines.
pub open spec fn table_with(n: NetState, order: Seq<usize>, width: nat, height: nat, extra: Seq<Seq<char>>) -> Seq<Seq<char>> {
    let ps = n.bt_piconets@;
    let count = ps.len();
    let cols = piconet_columns();
    let fit = fit_count(cols, width);
    let cur = roster_cursor(n, order);
    let room: nat = if height >= 1 + extra.len() { (height - 1 - extra.len()) as nat } else { 0 };
    let body: nat = if room < count { room } else { count };
    let start = viewport(n.bt_view.first_visible as nat, match cur { Some(i) => i as nat, None => 0 }, count, body);
    let shown: nat = if body < count - start { body } else { (count - start) as nat };
    seq![header_text(cols, fit, Sort { column: ORDERED_BY, descending: false })]
        + Seq::new(shown, |k: int| row_chars(cols, fit, cells_text(ps[order[start + k] as int], uaps_of(n.bt_uap@, ps[order[start + k] as int].lap)), cur == Some(start + k)))
        + (if extra.len() > 0 && 1 + shown + extra.len() < height { seq![seq![]] } else { seq![] })
        + extra
}

/// The table and the selected piconet's detail under it.
pub open spec fn table_lines(n: NetState, order: Seq<usize>, width: nat, height: nat) -> Seq<Seq<char>> {
    table_with(n, order, width, height, roster_extra(n, order, width, height))
}

/// The tags: `STALE` while no samples flow, a feed loss this session (hits
/// and first sightings count for the session), and the mode.
pub open spec fn roster_tags(state: SdrMetrics) -> Seq<Seq<char>> {
    let n = state.net;
    (if state.streaming { seq![] } else { seq!["STALE"@] })
        + (if n.health.last_loss_secs is Some { seq!["FEED LOSS"@] } else { seq![] })
        + seq![mode_tag(n.mode)]
}

impl Panel for NetBtPiconetsPanel {
    fn name(&self) -> (n: &'static str)
        ensures
            n@ == "net_bt_piconets"@,
    {
        "net_bt_piconets"
    }

    fn min_size(&self) -> (r: (u16, u16))
        ensures
            r == (30u16, 6u16),
    {
        (30, 6)
    }
}

/// The roster row the cursor is on.
fn find_cursor(n: &NetState, order: &Vec<usize>) -> (c: Option<usize>)
    requires
        is_roster_order(n.bt_piconets@, order@),
    ensures
        match c {
            Some(i) => roster_cursor(*n, order@) == Some(i as int) && i < order@.len(),
            None => roster_cursor(*n, order@) is None,
        },
{
    let ps = &n.bt_piconets;
    let mut k: usize = 0;
    while k < order.len()
        invariant
            k <= order@.len(),
            ps@ == n.bt_piconets@,
            is_roster_order(n.bt_piconets@, order@),
            cursor_in(ps@, order@, n.bt_view.selected, k as nat) is None,
        decreases order@.len() - k,
    {
        let hit = match n.bt_view.selected {
            Some(s) => ps[order[k]].lap == s,
            None => false,
        };
        if hit {
            proof {
                lemma_cursor_stays(ps@, order@, n.bt_view.selected, (k + 1) as nat, order@.len());
            }
            return Some(k);
        }
        k = k + 1;
    }
    None
}

/// A found cursor stays where it was found as more rows are read.
proof fn lemma_cursor_stays(ps: Seq<Piconet>, order: Seq<usize>, sel: Option<u32>, k: nat, m: nat)
    requires
        k <= m,
        cursor_in(ps, order, sel, k) is Some,
    ensures
        cursor_in(ps, order, sel, m) == cursor_in(ps, order, sel, k),
    decreases m,
{
    if m > k {
        lemma_cursor_stays(ps, order, sel, k, (m - 1) as nat);
    }
}

impl NetBtPiconetsPanel {
    /// The key that focuses the panel.
    pub fn focus_key(&self) -> (k: Option<char>)
        ensures
            k == Some('c'),
    {
        Some('c')
    }

    /// What the keys do while the panel has the focus.
    pub fn focus_bindings(&self) -> (b: Vec<(&'static str, &'static str)>)
        ensures
            b@.len() == 1,
            b@[0].0@ == "\u{2191}\u{2193}"@ && b@[0].1@ == "select a piconet"@,
    {
        let mut b = Vec::new();
        b.push(("\u{2191}\u{2193}", "select a piconet"));
        b
    }

    /// `Piconets`, with its tags.
    pub fn chrome(&self, state: &SdrMetrics) -> (c: PanelChrome)
        ensures
            c.title@ == "Pi_conets"@,
            strings(c.tags@) == roster_tags(*state),
    {
        let n = &state.net;
        let c = PanelChrome::new("Pi_conets");
        let c = c.tag_if(!state.streaming, owned("STALE"));
        let c = c.tag_if(n.health.last_loss_secs.is_some(), owned("FEED LOSS"));
        let c = c.tag_if(true, n.mode.tag());
        assert(strings(c.tags@) =~= roster_tags(*state));
        c
    }

    /// The panel's lines, `width` by `height` inside its frame: the roster
    /// is put in its order here, and the lines are those of that order.
    pub fn lines(&self, state: &SdrMetrics, width: usize, height: usize) -> (lines: Vec<Vec<Piece>>)
        ensures
            exists|order: Seq<usize>| is_roster_order(state.net.bt_piconets@, order)
                && lines_text(lines@) == roster_lines(*state, order, width as nat, height as nat),
    {
        let n = &state.net;
        let order = roster_order(&n.bt_piconets);
        let mut lines = nothing();
        if width == 0 || height == 0 {
        } else if n.bt_piconets.len() == 0 {
            push_silence(&mut lines, n, width);
        } else {
            push_table(&mut lines, n, &order, width, height);
        }
        assert(lines_text(lines@) =~= roster_lines(*state, order@, width as nat, height as nat));
        lines
    }

    /// The panel in its frame, `width` by `height`: the rows a terminal shows.
    pub fn draw(&self, state: &SdrMetrics, width: usize, height: usize) -> (rows: Vec<String>)
        ensures
            exists|order: Seq<usize>| is_roster_order(state.net.bt_piconets@, order)
                && strings(rows@) == framed(
                    bar_text("Pi_conets"@, roster_tags(*state)),
                    roster_lines(*state, order, (width - 2) as nat, (height - 2) as nat),
                    width as nat,
                    height as nat,
                ),
    {
        let c = self.chrome(state);
        let lines = self.lines(state, if width >= 2 { width - 2 } else { 0 }, if height >= 2 { height - 2 } else { 0 });
        draw(&c, &lines, width, height)
    }
}

/// Appends the silence that holds.
fn push_silence(lines: &mut Vec<Vec<Piece>>, n: &NetState, width: usize)
    ensures
        lines_text(final(lines)@) == lines_text(old(lines)@) + silence_text(*n, width as nat),
{
    let ghost start = lines_text(lines@);
    match &n.bt_refused {
        Some(reason) => {
            push_wrapped(lines, "not watching", width, 4, Ink::Stale);
            push_wrapped(lines, reason.as_str(), width, 4, Ink::Label);
        },
        None => {
            if n.bt_channels_watched.len() == 0 {
                push_wrapped(lines, "no classic receiver running", width, 4, Ink::Stale);
            } else {
                let mut t = owned("watching ");
                push_dec(&mut t, n.bt_channels_watched.len() as u64);
                push_str(&mut t, " channels - no piconet heard yet");
                push_wrapped(lines, t.as_str(), width, 4, Ink::Stale);
            }
        },
    }
    assert(lines_text(lines@) =~= start + silence_text(*n, width as nat));
}

/// Appends roster rows `start` up to `start + shown`.
fn push_rows(
    lines: &mut Vec<Vec<Piece>>,
    n: &NetState,
    order: &Vec<usize>,
    cols: &Vec<crate::ui::widgets::table::Column>,
    fit: usize,
    start: usize,
    shown: usize,
    cur: Option<usize>,
)
    requires
        start + shown <= n.bt_piconets@.len(),
        order@.len() == n.bt_piconets@.len(),
        forall|k: int| 0 <= k < order@.len() ==> #[trigger] order@[k] < n.bt_piconets@.len(),
        fit <= cols@.len(),
        match cur {
            Some(p) => roster_cursor(*n, order@) == Some(p as int),
            None => roster_cursor(*n, order@) is None,
        },
    ensures
        lines_text(final(lines)@) == lines_text(old(lines)@) + Seq::new(shown as nat, |j: int|
            row_chars(cols@, fit as nat, cells_text(n.bt_piconets@[order@[start + j] as int], uaps_of(n.bt_uap@, n.bt_piconets@[order@[start + j] as int].lap)),
                roster_cursor(*n, order@) == Some(start + j))),
{
    let ps = &n.bt_piconets;
    let count = ps.len();
    let ghost head = lines_text(lines@);
    let mut k: usize = 0;
    while k < shown
        invariant
            k <= shown,
            count == ps@.len(),
            start + shown <= count,
            ps@ == n.bt_piconets@,
            order@.len() == n.bt_piconets@.len(),
            forall|q: int| 0 <= q < order@.len() ==> #[trigger] order@[q] < n.bt_piconets@.len(),
            fit <= cols@.len(),
            match cur {
                Some(p) => roster_cursor(*n, order@) == Some(p as int),
                None => roster_cursor(*n, order@) is None,
            },
            lines_text(lines@) == head + Seq::new(k as nat, |j: int|
                row_chars(cols@, fit as nat, cells_text(ps@[order@[start + j] as int], uaps_of(n.bt_uap@, ps@[order@[start + j] as int].lap)),
                    roster_cursor(*n, order@) == Some(start + j))),
        decreases shown - k,
    {
        let i = start + k;
        let u = uaps_for(&n.bt_uap, ps[order[i]].lap);
        let cs = cells(&ps[order[i]], &u);
        let picked = match cur { Some(p) => p == i, None => false };
        let ghost before = lines@;
        let r = row(cols.as_slice(), fit, cs.as_slice(), picked);
        let ghost rt = line_text(r@);
        lines.push(r);
        proof {
            lemma_row_chars(cols@, fit as nat, cs@, picked);
            assert(Seq::new(cs@.len(), |q: int| cs@[q]@) =~= Seq::new(6, |q: int| cs@[q]@));
            assert(picked == (roster_cursor(*n, order@) == Some(start + k)));
            assert(lines_text(lines@) =~= lines_text(before).push(rt));
        }
        k = k + 1;
        proof {
            assert(lines_text(lines@) =~= head + Seq::new(k as nat, |j: int|
                row_chars(cols@, fit as nat, cells_text(ps@[order@[start + j] as int], uaps_of(n.bt_uap@, ps@[order@[start + j] as int].lap)),
                    roster_cursor(*n, order@) == Some(start + j))));
        }
    }
}

/// Appends the table over `extra`.
#[verifier::rlimit(30)]
fn push_table_with(lines: &mut Vec<Vec<Piece>>, n: &NetState, order: &Vec<usize>, width: usize, height: usize, extra: Vec<Vec<Piece>>, cur: Option<usize>)
    requires
        n.bt_piconets@.len() >= 1,
        order@.len() == n.bt_piconets@.len(),
        forall|k: int| 0 <= k < order@.len() ==> #[trigger] order@[k] < n.bt_piconets@.len(),
        match cur {
            Some(p) => roster_cursor(*n, order@) == Some(p as int) && p < order@.len(),
            None => roster_cursor(*n, order@) is None,
        },
    ensures
        lines_text(final(lines)@) == lines_text(old(lines)@) + table_with(*n, order@, width as nat, height as nat, lines_text(extra@)),
{
    let ghost start_text = lines_text(lines@);
    let ghost extra_text = lines_text(extra@);
    let count = n.bt_piconets.len();
    let cols = columns();
    let fit = columns_that_fit(&cols, width);
    proof {
        lemma_fit_unique(cols@, width as nat, fit as nat);
    }
    let xl = extra.len();
    assert(extra_text.len() == xl);
    let room = if height >= 1 && xl <= height - 1 { height - 1 - xl } else { 0 };
    let body = if room < count { room } else { count };
    let start = viewport_start(n.bt_view.first_visible, match cur { Some(i) => i, None => 0 }, count, body);
    let shown = if start <= count && body < count - start { body } else if start <= count { count - start } else { 0 };
    lines.push(header(&cols, fit, Sort { column: ORDERED_BY, descending: false }));
    push_rows(lines, n, order, &cols, fit, start, shown, cur);
    let ghost table = lines_text(lines@);
    if xl > 0 && 1 + shown < height && xl < height - 1 - shown {
        lines.push(Vec::new());
        proof {
            assert(line_text(Seq::<Piece>::empty()) =~= Seq::<char>::empty());
        }
    }
    let ghost gap = lines_text(lines@);
    append_lines(lines, extra);
    proof {
        assert(gap =~= table + (if xl > 0 && 1 + shown + xl < height { seq![Seq::<char>::empty()] } else { seq![] }));
        assert(lines_text(lines@) =~= start_text + table_with(*n, order@, width as nat, height as nat, extra_text));
    }
}

/// Appends the table and the selected piconet's detail under it.
fn push_table(lines: &mut Vec<Vec<Piece>>, n: &NetState, order: &Vec<usize>, width: usize, height: usize)
    requires
        n.bt_piconets@.len() >= 1,
        is_roster_order(n.bt_piconets@, order@),
    ensures
        lines_text(final(lines)@) == lines_text(old(lines)@) + table_lines(*n, order@, width as nat, height as nat),
{
    let ps = &n.bt_piconets;
    let count = ps.len();
    let cur = find_cursor(n, order);
    let keep = 2 + if count < TABLE_KEEPS { count } else { TABLE_KEEPS };
    let budget = if height >= keep { height - keep } else { 0 };
    let extra = match cur {
        Some(i) => {
            let u = uaps_for(&n.bt_uap, ps[order[i]].lap);
            detail_within(&ps[order[i]], width, budget, order[i], &u)
        },
        None => nothing(),
    };
    assert(lines_text(extra@) == roster_extra(*n, order@, width as nat, height as nat));
    push_table_with(lines, n, order, width, height, extra, cur);
}

} // verus!
