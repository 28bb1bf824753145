//! `NetDecodeHealthPanel`: what the receiver missed.
//!
//! **Not a debug panel: testimony.** Without it every count in the section is
//! a lower bound presented as a total. Three accounts, one under the other:
//! what arrived, what did not, and what the decoders made of what did.
//!
//! **A decoder that has not run this session is a dash, never a zero.** A row
//! reading `0` is a claim that it looked and found none; `—` and "not
//! decoding" say that nothing looked. The bursts row is always a dash: no
//! protocol-agnostic burst detector runs, and the row says so rather than
//! inventing a count.
use vstd::prelude::*;
use crate::state::{SdrMetrics, UapEntry};
use crate::text::{dec, fixed, pad_left, pad_right, zpad};
use crate::text::{push_char, push_dec, push_pad_left, push_pad_right, push_str, push_zpad};
use crate::ui::chrome::{line_text, piece, push_piece, section, section_text, Ink, Piece};
use crate::ui::frame::{bar_text, draw, fit_spacers, fitted, framed, lines_text, strings, PanelChrome};
use crate::ui::panels::net::{net_chrome, net_tags, nothing, one};
use crate::ui::registry::Panel;
use crate::rounding::{printed, printed_u64, push_fixed_wide};

verus! {

pub struct NetDecodeHealthPanel;

/// The label column's width, so the counts line up under each other.
pub const LABEL: usize = 15;

/// The count column's width: counts right-aligned in it.
pub const VALUE: usize = 10;

/// What a count that nothing measured shows in its place.
pub const DASH: char = '\u{2014}';

/// `1 234 567`: the digits in groups of three from the right, a space
/// between groups.
pub open spec fn grouped_text(n: nat) -> Seq<char>
    decreases n,
{
    if n < 1000 {
        dec(n)
    } else {
        grouped_text(n / 1000) + seq![' '] + zpad(n % 1000, 3)
    }
}

/// `n / d` to the nearest integer, a half going to the even neighbour.
pub open spec fn half_even(n: nat, d: nat) -> nat {
    let q = n / d;
    let r = n % d;
    if 2 * r > d || (2 * r == d && q % 2 == 1) { q + 1 } else { q }
}

/// `1.63 Gsamp`: the pair count in the largest unit it reaches, to two
/// places, the quotient the double's (see `rounding`); under a thousand, in
/// full.
pub open spec fn samples_text(pairs: nat) -> Seq<char> {
    if pairs >= 1_000_000_000 {
        fixed(printed(pairs, 1_000_000_000, 100), 2) + " Gsamp"@
    } else if pairs >= 1_000_000 {
        fixed(printed(pairs, 1_000_000, 100), 2) + " Msamp"@
    } else if pairs >= 1_000 {
        fixed(printed(pairs, 1_000, 100), 2) + " ksamp"@
    } else {
        dec(pairs) + " samp"@
    }
}

/// One row: the label, the count right-aligned after it, and the note
/// after three spaces where the whole note fits in `width`. A note that
/// does not fit is dropped whole, never cut.
pub open spec fn row_text(label: Seq<char>, value: Seq<char>, note: Option<Seq<char>>, width: nat) -> Seq<char> {
    pad_right(label, LABEL as nat) + pad_left(value, VALUE as nat) + match note {
        Some(t) => if LABEL + VALUE + 3 + t.len() <= width { "   "@ + t } else { seq![] },
        None => seq![],
    }
}

/// A row whose count nothing measured: a dash, and why.
pub open spec fn dash_text(label: Seq<char>, note: Seq<char>, width: nat) -> Seq<char> {
    row_text(label, seq![DASH], Some(note), width)
}

/// `107 %`: the decode load from thousandths of the stream's pace.
pub open spec fn load_text(milli: nat) -> Seq<char> {
    dec(half_even(milli, 10)) + " %"@
}

/// How many of the first `k` UAP entries are resolved to one candidate.
pub open spec fn named_count(table: Seq<UapEntry>, k: nat) -> nat
    decreases k,
{
    if k == 0 || k > table.len() {
        0
    } else {
        named_count(table, (k - 1) as nat) + if table[k - 1].candidates@.len() == 1 { 1nat } else { 0nat }
    }
}

/// The BLE funnel's rows once the decoder has run: every trigger, and how
/// it ended. A dash before.
pub open spec fn ble_rows(state: SdrMetrics, width: nat) -> Seq<Seq<char>> {
    let h = state.net.health;
    if state.net.ble_channel is Some || h.ble_triggered > 0 {
        seq![
            row_text("BLE triggers"@, grouped_text(h.ble_triggered as nat), Some("the detector fired"@), width),
            row_text("CRC good"@, grouped_text(h.ble_decoded as nat), None, width),
            row_text("CRC failed"@, grouped_text(h.ble_crc_failed as nat), Some("length matches the signal"@), width),
            row_text("gave up"@, grouped_text(h.ble_gave_up as nat), Some("nothing matched"@), width),
        ]
    } else {
        seq![dash_text("BLE"@, "not decoding"@, width)]
    }
}

/// Classic Bluetooth's rows once it has run: the access-code hits, and how
/// many of the LAPs a header was decoded on have their UAP resolved. A dash
/// before.
pub open spec fn classic_rows(state: SdrMetrics, width: nat) -> Seq<Seq<char>> {
    let ps = state.net.bt_uap@;
    if state.net.bt_channels_watched@.len() > 0 || state.net.health.bt_hits > 0 {
        seq![
            row_text("BT hits"@, grouped_text(state.net.health.bt_hits as nat), Some("access codes"@), width),
            row_text(
                "UAPs resolved"@,
                dec(named_count(ps, ps.len())) + " of "@ + dec(ps.len()),
                Some("piconets named"@),
                width,
            ),
        ]
    } else {
        seq![dash_text("classic BT"@, "not decoding"@, width)]
    }
}

/// What decoding costs, falling behind above the stream's own pace; a dash
/// until it is measured.
pub open spec fn load_row(state: SdrMetrics, width: nat) -> Seq<char> {
    match state.net.health.decode_load_milli {
        Some(m) => row_text(
            "decode load"@,
            load_text(m as nat),
            if m > 1000 { Some("falling behind"@) } else { None },
            width,
        ),
        None => dash_text("decode load"@, "not measured yet"@, width),
    }
}

/// The three accounts, `width` columns wide, before the spacers are fitted
/// to the height.
pub open spec fn health_lines(state: SdrMetrics, width: nat) -> Seq<Seq<char>> {
    let h = state.net.health;
    seq![
        section_text("what arrived"@, ""@, width),
        row_text("blocks"@, grouped_text(h.blocks_in as nat), None, width),
        row_text("I/Q pairs"@, samples_text(h.pairs_in as nat), None, width),
        row_text("current run"@, grouped_text(h.run_blocks as nat), Some("since the last break"@), width),
        seq![],
        section_text("what did not"@, ""@, width),
        row_text("interruptions"@, grouped_text(h.gaps as nat), Some("runs broken"@), width),
        row_text("blocks lost"@, grouped_text(h.blocks_lost as nat), Some("a floor"@), width),
        row_text("feed refused"@, grouped_text(h.refused_session as nat), Some("never reached a decoder"@), width),
        row_text("queue peak"@, grouped_text(h.peak_depth as nat), Some("of 4, last window"@), width),
        seq![],
        section_text("what was decoded"@, ""@, width),
    ] + ble_rows(state, width) + classic_rows(state, width) + seq![
        load_row(state, width),
        dash_text("bursts"@, "no detector yet"@, width),
    ]
}

/// What the panel says, `width` by `height` inside its frame: the three
/// accounts, the blank rows between them grown or dropped to the height.
pub open spec fn decode_health_lines(state: SdrMetrics, width: nat, height: nat) -> Seq<Seq<char>> {
    if width == 0 || height == 0 {
        seq![]
    } else {
        fitted(health_lines(state, width), height)
    }
}

/// Appends `n` in groups of three digits.
pub fn push_grouped(s: &mut String, n: u64)
    ensures
        final(s)@ == old(s)@ + grouped_text(n as nat),
    decreases n,
{
    let ghost start = s@;
    if n < 1000 {
        push_dec(s, n);
    } else {
        push_grouped(s, n / 1000);
        push_char(s, ' ');
        push_zpad(s, n % 1000, 3);
        assert(s@ =~= start + grouped_text(n as nat));
    }
}

/// `n` in groups of three digits: `12 403`.
pub fn grouped(n: u64) -> (s: String)
    ensures
        s@ == grouped_text(n as nat),
{
    let mut s = String::new();
    push_grouped(&mut s, n);
    s
}

/// `n / d` to the nearest integer, a half to the even neighbour.
fn half_even_of(n: u128, d: u128) -> (r: u64)
    requires
        1 <= d <= 1_000_000_000,
        n / d < 0xffff_ffff_ffff_ffff,
    ensures
        r == half_even(n as nat, d as nat),
{
    let q = n / d;
    let rem = n % d;
    let up = 2 * rem > d || (2 * rem == d && q % 2 == 1);
    if up {
        (q + 1) as u64
    } else {
        q as u64
    }
}

/// The pair count in the largest unit it reaches: `1.63 Gsamp`.
pub fn samples(pairs: u64) -> (s: String)
    ensures
        s@ == samples_text(pairs as nat),
{
    let mut s = String::new();
    if pairs >= 1_000_000_000 {
        push_fixed_wide(&mut s, printed_u64(pairs, 1_000_000_000, 100), 2);
        push_str(&mut s, " Gsamp");
    } else if pairs >= 1_000_000 {
        push_fixed_wide(&mut s, printed_u64(pairs, 1_000_000, 100), 2);
        push_str(&mut s, " Msamp");
    } else if pairs >= 1_000 {
        push_fixed_wide(&mut s, printed_u64(pairs, 1_000, 100), 2);
        push_str(&mut s, " ksamp");
    } else {
        push_dec(&mut s, pairs);
        push_str(&mut s, " samp");
    }
    s
}

/// The note's characters, where there is one.
pub open spec fn note_view(note: Option<&str>) -> Option<Seq<char>> {
    match note {
        Some(t) => Some(t@),
        None => None,
    }
}

/// One row: the label, the count in `ink`, and the note where it fits
/// whole.
pub fn count(label: &str, value: &str, ink: Ink, note: Option<&str>, width: usize) -> (line: Vec<Piece>)
    ensures
        line_text(line@) == row_text(label@, value@, note_view(note), width as nat),
{
    let mut line: Vec<Piece> = Vec::new();
    let mut l = String::new();
    push_pad_right(&mut l, label, LABEL);
    push_piece(&mut line, piece(l, Ink::Label));
    let mut v = String::new();
    push_pad_left(&mut v, value, VALUE);
    push_piece(&mut line, piece(v, ink));
    let ghost head = line_text(line@);
    assert(head =~= pad_right(label@, LABEL as nat) + pad_left(value@, VALUE as nat));
    match note {
        Some(t) => {
            let n = t.unicode_len();
            if n <= width && LABEL + VALUE + 3 <= width - n {
                let mut w = String::new();
                push_str(&mut w, "   ");
                push_str(&mut w, t);
                push_piece(&mut line, piece(w, Ink::Label));
                assert(line_text(line@) =~= head + ("   "@ + t@));
            } else {
                assert(head =~= head + Seq::<char>::empty());
            }
        },
        None => {
            assert(head =~= head + Seq::<char>::empty());
        },
    }
    line
}

/// A row whose count nothing measured: a dash, and why.
pub fn dash(label: &str, note: &str, width: usize) -> (line: Vec<Piece>)
    ensures
        line_text(line@) == dash_text(label@, note@, width as nat),
{
    let mut v = String::new();
    push_char(&mut v, DASH);
    assert(v@ =~= seq![DASH]);
    count(label, v.as_str(), Ink::Stale, Some(note), width)
}

/// A row whose count is `n`, grouped.
fn count_of(label: &str, n: u64, note: Option<&str>, width: usize) -> (line: Vec<Piece>)
    ensures
        line_text(line@) == row_text(label@, grouped_text(n as nat), note_view(note), width as nat),
{
    let v = grouped(n);
    count(label, v.as_str(), Ink::Value, note, width)
}

/// How many UAP entries are resolved to one candidate.
pub fn named_piconets(ps: &Vec<UapEntry>) -> (n: usize)
    ensures
        n == named_count(ps@, ps@.len()),
{
    let mut n: usize = 0;
    let mut i: usize = 0;
    while i < ps.len()
        invariant
            i <= ps@.len(),
            n == named_count(ps@, i as nat),
            n <= i,
        decreases ps@.len() - i,
    {
        if ps[i].candidates.len() == 1 {
            n = n + 1;
        }
        i = i + 1;
    }
    n
}

/// Appends a line.
fn push_line(lines: &mut Vec<Vec<Piece>>, line: Vec<Piece>)
    ensures
        lines_text(final(lines)@) == lines_text(old(lines)@).push(line_text(line@)),
{
    let ghost before = lines@;
    lines.push(line);
    assert(lines_text(lines@) =~= lines_text(before).push(line_text(line@)));
}

/// The BLE funnel's rows, or a dash.
fn push_ble_rows(lines: &mut Vec<Vec<Piece>>, state: &SdrMetrics, width: usize)
    ensures
        lines_text(final(lines)@) == lines_text(old(lines)@) + ble_rows(*state, width as nat),
{
    let ghost start = lines_text(lines@);
    let h = &state.net.health;
    if state.net.ble_channel.is_some() || h.ble_triggered > 0 {
        push_line(lines, count_of("BLE triggers", h.ble_triggered, Some("the detector fired"), width));
        push_line(lines, count_of("CRC good", h.ble_decoded, None, width));
        push_line(lines, count_of("CRC failed", h.ble_crc_failed, Some("length matches the signal"), width));
        push_line(lines, count_of("gave up", h.ble_gave_up, Some("nothing matched"), width));
    } else {
        push_line(lines, dash("BLE", "not decoding", width));
    }
    assert(lines_text(lines@) =~= start + ble_rows(*state, width as nat));
}

/// Classic Bluetooth's rows, or a dash.
fn push_classic_rows(lines: &mut Vec<Vec<Piece>>, state: &SdrMetrics, width: usize)
    ensures
        lines_text(final(lines)@) == lines_text(old(lines)@) + classic_rows(*state, width as nat),
{
    let ghost start = lines_text(lines@);
    let ps = &state.net.bt_uap;
    if state.net.bt_channels_watched.len() > 0 || state.net.health.bt_hits > 0 {
        push_line(lines, count_of("BT hits", state.net.health.bt_hits, Some("access codes"), width));
        let mut v = String::new();
        push_dec(&mut v, named_piconets(ps) as u64);
        push_str(&mut v, " of ");
        push_dec(&mut v, ps.len() as u64);
        push_line(lines, count("UAPs resolved", v.as_str(), Ink::Value, Some("piconets named"), width));
    } else {
        push_line(lines, dash("classic BT", "not decoding", width));
    }
    assert(lines_text(lines@) =~= start + classic_rows(*state, width as nat));
}

/// The decode load's row, or a dash.
fn load_line(state: &SdrMetrics, width: usize) -> (line: Vec<Piece>)
    ensures
        line_text(line@) == load_row(*state, width as nat),
{
    match state.net.health.decode_load_milli {
        Some(m) => {
            let mut v = String::new();
            push_dec(&mut v, half_even_of(m as u128, 10));
            push_str(&mut v, " %");
            if m > 1000 {
                count("decode load", v.as_str(), Ink::Crit, Some("falling behind"), width)
            } else {
                count("decode load", v.as_str(), Ink::Value, None, width)
            }
        },
        None => dash("decode load", "not measured yet", width),
    }
}

/// The three accounts, before the spacers are fitted.
fn account_lines(state: &SdrMetrics, width: usize) -> (lines: Vec<Vec<Piece>>)
    ensures
        lines_text(lines@) == health_lines(*state, width as nat),
{
    let h = &state.net.health;
    let mut lines: Vec<Vec<Piece>> = Vec::new();
    push_line(&mut lines, one(section("what arrived", "", width)));
    push_line(&mut lines, count_of("blocks", h.blocks_in, None, width));
    let sm = samples(h.pairs_in);
    push_line(&mut lines, count("I/Q pairs", sm.as_str(), Ink::Value, None, width));
    push_line(&mut lines, count_of("current run", h.run_blocks, Some("since the last break"), width));
    push_line(&mut lines, Vec::new());
    push_line(&mut lines, one(section("what did not", "", width)));
    push_line(&mut lines, count_of("interruptions", h.gaps, Some("runs broken"), width));
    push_line(&mut lines, count_of("blocks lost", h.blocks_lost, Some("a floor"), width));
    push_line(&mut lines, count_of("feed refused", h.refused_session, Some("never reached a decoder"), width));
    push_line(&mut lines, count_of("queue peak", h.peak_depth, Some("of 4, last window"), width));
    push_line(&mut lines, Vec::new());
    push_line(&mut lines, one(section("what was decoded", "", width)));
    let ghost head = lines_text(lines@);
    assert(line_text(Seq::<Piece>::empty()) == Seq::<char>::empty());
    push_ble_rows(&mut lines, state, width);
    push_classic_rows(&mut lines, state, width);
    push_line(&mut lines, load_line(state, width));
    push_line(&mut lines, dash("bursts", "no detector yet", width));
    assert(lines_text(lines@) =~= health_lines(*state, width as nat));
    lines
}

impl Panel for NetDecodeHealthPanel {
    fn name(&self) -> (n: &'static str)
        ensures
            n@ == "net_decode_health"@,
    {
        "net_decode_health"
    }

    fn min_size(&self) -> (r: (u16, u16))
        ensures
            r == (44u16, 12u16),
    {
        (44, 12)
    }
}

impl NetDecodeHealthPanel {
    /// `Feed Health`, with the NET tags: every number here is a count of
    /// something that arrived, so it goes stale the moment samples stop.
    pub fn chrome(&self, state: &SdrMetrics) -> (c: PanelChrome)
        ensures
            c.title@ == "Feed Health"@,
            strings(c.tags@) == net_tags(*state),
    {
        net_chrome("Feed Health", state)
    }

    /// The panel's lines, `width` by `height` inside its frame.
    pub fn lines(&self, state: &SdrMetrics, width: usize, height: usize) -> (lines: Vec<Vec<Piece>>)
        requires
            height <= 0xffff,
        ensures
            lines_text(lines@) == decode_health_lines(*state, width as nat, height as nat),
    {
        if width == 0 || height == 0 {
            return nothing();
        }
        fit_spacers(account_lines(state, width), height)
    }

    /// The panel in its frame, `width` by `height`: the rows a terminal shows.
    pub fn draw(&self, state: &SdrMetrics, width: usize, height: usize) -> (rows: Vec<String>)
        requires
            height <= 0xffff,
        ensures
            strings(rows@) == framed(
                bar_text("Feed Health"@, net_tags(*state)),
                decode_health_lines(*state, (width - 2) as nat, (height - 2) as nat),
                width as nat,
                height as nat,
            ),
    {
        let c = self.chrome(state);
        let lines = self.lines(state, if width >= 2 { width - 2 } else { 0 }, if height >= 2 { height - 2 } else { 0 });
        draw(&c, &lines, width, height)
    }
}

} // verus!
