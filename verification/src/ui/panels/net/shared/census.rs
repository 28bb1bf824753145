//! `NetCensusPanel`: who is here.
//!
//! The population of the band, one row per transmitter, ordered by whichever
//! column the user picked. The table itself is `ui::widgets::table`; what is
//! here is the column list, the empty state, and the rate new addresses
//! appear at.
//!
//! **An empty table says which of two empties it is.** "We listened and
//! nobody transmitted" and "nothing is listening" are different claims, and
//! which holds depends on whether a decoder is reading addresses: one that
//! has a channel, or whose trigger has fired this session. Printing a bare
//! empty table would let a reader take the flattering one.
//!
//! **No selection marks no row**: a mark on row zero that nobody chose would
//! claim a selection that does not exist. The mark is on an address, so it
//! stays on its device whichever way the table is sorted.
use vstd::prelude::*;
use crate::census::{
    crc_text, cursor_of, fmt_crc, is_order, recent, recent_count, turnover_tenths, type_count, Census, Device,
};
use crate::state::{mode_tag, NetState, SdrMetrics};
use crate::text::{dec, digit, digit_char, owned, push_char, push_dec, push_str};
use crate::ui::chrome::{line_text, piece, push_piece, text_piece, Ink, Piece};
use crate::ui::frame::{bar_text, draw, framed, lines_text, strings, PanelChrome};
use crate::ui::panels::net::{offset_tags, relative_offsets, 
    address_hex, address_text, ago, ago_text, nothing, one, push_tenths, push_text, tenths_text,
};
use crate::ui::registry::Panel;
use crate::ui::widgets::table::{
    columns_that_fit, fit_count, header, header_text, lemma_fit_unique, lemma_row_chars, row, row_chars,
    viewport, viewport_start, widen, widened, Align, Column, Sort,
};
use crate::ui::wrap::{views, wrap, wrapped};
use self::detail::{detail, detail_text};

pub mod clock_dial;
pub mod detail;

verus! {

pub struct NetCensusPanel;

/// The columns, in the order they are drawn; their titles are the keys the
/// frame names the order by.
pub open spec fn census_columns() -> Seq<Column> {
    seq![
        Column { title: "ADDRESS", width: 17, align: Align::Left },
        Column { title: "SEEN", width: 7, align: Align::Right },
        Column { title: "PKTS", width: 7, align: Align::Right },
        Column { title: "BEST SNR", width: 9, align: Align::Right },
        Column { title: "CRC", width: 6, align: Align::Right },
        Column { title: "CFO", width: 15, align: Align::Right },
        Column { title: "MEAN SNR", width: 14, align: Align::Right },
        Column { title: "TYPES", width: 6, align: Align::Right },
        Column { title: "MOD", width: 12, align: Align::Right },
    ]
}

/// The columns, in the order they are drawn.
pub fn columns() -> (v: Vec<Column>)
    ensures
        v@ == census_columns(),
{
    let v = vec![
        Column { title: "ADDRESS", width: 17, align: Align::Left },
        Column { title: "SEEN", width: 7, align: Align::Right },
        Column { title: "PKTS", width: 7, align: Align::Right },
        Column { title: "BEST SNR", width: 9, align: Align::Right },
        Column { title: "CRC", width: 6, align: Align::Right },
        Column { title: "CFO", width: 15, align: Align::Right },
        Column { title: "MEAN SNR", width: 14, align: Align::Right },
        Column { title: "TYPES", width: 6, align: Align::Right },
        Column { title: "MOD", width: 12, align: Align::Right },
    ];
    assert(v@ =~= census_columns());
    v
}

/// The best SNR cell: `12.3 dB`, or a dash before any packet reported one.
pub open spec fn best_snr_text(d: Device) -> Seq<char> {
    match d.best_snr_tenths {
        Some(t) => tenths_text(t as int) + " dB"@,
        None => "-"@,
    }
}

/// A device's row cells, in column order.
pub open spec fn cells_text(d: Device) -> Seq<Seq<char>> {
    seq![
        address_hex(d.address@),
        ago_text(d.last_seen_secs as nat),
        dec(d.packets as nat),
        best_snr_text(d),
        crc_text(d),
        match d.crystal { Some(c) => c.ppm@, None => "-"@ },
        match d.mean_snr { Some(m) => m.text@, None => "-"@ },
        dec(type_count(d)),
        match d.modulation { Some(m) => m.text@, None => "-"@ },
    ]
}

/// `12.3 dB`, or a dash.
pub fn fmt_best_snr(d: &Device) -> (s: String)
    ensures
        s@ == best_snr_text(*d),
{
    let mut s = String::new();
    match d.best_snr_tenths {
        Some(t) => {
            push_tenths(&mut s, t);
            push_str(&mut s, " dB");
        },
        None => push_str(&mut s, "-"),
    }
    proof { reveal_strlit("-"); }
    s
}

/// A reading's text, or a dash where there is none.
pub fn text_or_dash(t: Option<&String>) -> (s: String)
    ensures
        s@ == match t { Some(x) => x@, None => "-"@ },
{
    match t {
        Some(x) => x.clone(),
        None => owned("-"),
    }
}

/// A device's row cells, in column order.
pub fn cells(d: &Device) -> (v: Vec<String>)
    ensures
        Seq::new(v@.len(), |i: int| v@[i]@) == cells_text(*d),
{
    let mut v: Vec<String> = Vec::new();
    v.push(address_text(d.address));
    v.push(ago(d.last_seen_secs));
    let mut p = String::new();
    push_dec(&mut p, d.packets);
    v.push(p);
    v.push(fmt_best_snr(d));
    v.push(fmt_crc(d));
    v.push(text_or_dash(match &d.crystal { Some(c) => Some(&c.ppm), None => None }));
    v.push(text_or_dash(match &d.mean_snr { Some(m) => Some(&m.text), None => None }));
    let mut t = String::new();
    push_dec(&mut t, count_types(d.pdu_types));
    v.push(t);
    v.push(text_or_dash(match &d.modulation { Some(m) => Some(&m.text), None => None }));
    assert(Seq::new(v@.len(), |i: int| v@[i]@) =~= cells_text(*d));
    v
}

/// The set bits of a device's PDU type mask.
fn count_types(bits: u16) -> (n: u64)
    ensures
        n == crate::census::ones(bits as nat, 16),
{
    let mut rest: u16 = bits;
    let mut n: u64 = 0;
    let mut k: u64 = 16;
    while k > 0
        invariant
            k <= 16,
            n <= 16 - k,
            n + crate::census::ones(rest as nat, k as nat) == crate::census::ones(bits as nat, 16),
        decreases k,
    {
        n = n + (rest % 2) as u64;
        rest = rest / 2;
        k = k - 1;
    }
    n
}

/// Whether anything is reading addresses: a decoder with a channel, or one
/// whose trigger has fired this session.
pub open spec fn counting(n: NetState) -> bool {
    n.ble_channel is Some || n.health.ble_triggered > 0
}

/// The empty table's headline.
pub open spec fn empty_headline(n: NetState) -> Seq<char> {
    if counting(n) { "nothing heard yet"@ } else { "no census yet"@ }
}

/// The empty table's account of itself: quiet room, or nobody counting, and
/// why where a refusal says.
pub open spec fn empty_body(n: NetState) -> Seq<char> {
    if counting(n) {
        "the decoder is reading addresses and none has passed a CRC yet; what happened to the triggers is on Feed Health"@
    } else {
        match n.ble_refused {
            Some(why) => "nothing is decoding addresses here ("@ + why@
                + "), so nobody has been counted - this is not an empty room"@,
            None => "nothing is decoding addresses here, so nobody has been counted - this is not an empty room"@,
        }
    }
}

/// The empty state's lines, indented one column like the header above.
pub open spec fn empty_text(n: NetState, width: nat) -> Seq<Seq<char>> {
    let rows = wrapped(empty_body(n), if width >= 1 { (width - 1) as nat } else { 0 }, 4);
    seq![seq![' '] + empty_headline(n)] + Seq::new(rows.len(), |i: int| seq![' '] + rows[i])
}

/// `0.4 new addresses/min (last 5 min)`.
pub open spec fn turnover_text(devs: Seq<Device>) -> Seq<char> {
    tenths_text(turnover_tenths(devs) as int) + " new addresses/min (last 5 min)"@
}

/// The columns at `width`, the address column grown to the widest address.
pub open spec fn laid_columns(c: Census, width: nat) -> Seq<Column> {
    widened(census_columns(), width, 0, if c.devices@.len() == 0 { 0 } else { 17 })
}

/// The detail block under the table: the selected device spelled out, or
/// nothing where nothing is selected. A footnote to the table, it gives way
/// to it: on a panel too short for it and a couple of rows, it is not drawn.
pub open spec fn detail_block(state: SdrMetrics, width: nat, height: nat, order: Seq<usize>) -> Seq<Seq<char>> {
    let devs = state.net.census.devices@;
    let full = match cursor_of(devs, order, state.net.census.selection.selected) {
        Some(p) => detail_text(devs[order[p] as int], state.net, width),
        None => seq![],
    };
    if height < full.len() + 4 { seq![] } else { full }
}

/// The panel's lines, `width` by `height` inside its frame, for the
/// devices in `order`.
pub open spec fn census_text(state: SdrMetrics, width: nat, height: nat, order: Seq<usize>) -> Seq<Seq<char>> {
    let c = state.net.census;
    let devs = c.devices@;
    let cols = laid_columns(c, width);
    let fit = fit_count(cols, width);
    let head = header_text(cols, fit, Sort { column: c.sort, descending: c.descending });
    if width == 0 || height == 0 {
        seq![]
    } else if devs.len() == 0 {
        seq![head, seq![]] + empty_text(state.net, width)
    } else {
        let cur = cursor_of(devs, order, c.selection.selected);
        let extra = detail_block(state, width, height, order);
        let body: nat = if height >= 2 + extra.len() { (height - 2 - extra.len()) as nat } else { 0 };
        let start = viewport(c.selection.first_visible as nat, match cur { Some(p) => p as nat, None => 0 },
            devs.len(), body);
        let shown: nat = if body < devs.len() - start { body } else { (devs.len() - start) as nat };
        seq![head] + Seq::new(shown, |k: int|
            row_chars(cols, fit, cells_text(devs[order[start + k] as int]), cur == Some(start + k)))
            + seq![turnover_text(devs)] + extra
    }
}

/// The tag that says how the table is ordered: `↓PKTS`, `↑ADDRESS`.
pub open spec fn sorted_tag(c: Census) -> Seq<char> {
    let key = if c.sort < 9 { census_columns()[c.sort as int].title@ } else { "?"@ };
    (if c.descending { seq!['\u{2193}'] } else { seq!['\u{2191}'] }) + key
}

/// The frame's tags: stale while no samples flow; a feed loss at any time
/// this session, since the counts run for the session; the mode; the order.
pub open spec fn census_tags(state: SdrMetrics) -> Seq<Seq<char>> {
    (if state.streaming { seq![] } else { seq!["STALE"@] })
        + (if state.net.health.last_loss_secs is Some { seq!["FEED LOSS"@] } else { seq![] })
        + offset_tags(state.net)
        + seq![mode_tag(state.net.mode), sorted_tag(state.net.census)]
}

/// `0.4 new addresses/min (last 5 min)`.
pub fn turnover_line(devs: &Vec<Device>) -> (s: String)
    ensures
        s@ == turnover_text(devs@),
{
    let n = recent_count(devs);
    let mut s = String::new();
    push_dec(&mut s, n / 5);
    push_char(&mut s, '.');
    push_char(&mut s, digit_char((n % 5) * 2));
    push_str(&mut s, " new addresses/min (last 5 min)");
    proof {
        let t = (2 * n) as int;
        assert(t / 10 == n / 5 && t % 10 == (n % 5) * 2) by (nonlinear_arith)
            requires t == 2 * n, n >= 0;
        assert(s@ =~= turnover_text(devs@));
    }
    s
}

impl Panel for NetCensusPanel {
    fn name(&self) -> (n: &'static str)
        ensures
            n@ == "net_census"@,
    {
        "net_census"
    }

    fn min_size(&self) -> (r: (u16, u16))
        ensures
            r == (34u16, 8u16),
    {
        (34, 8)
    }
}

/// Appends the empty state.
fn push_empty_state(lines: &mut Vec<Vec<Piece>>, net: &NetState, width: usize)
    ensures
        lines_text(final(lines)@) == lines_text(old(lines)@) + empty_text(*net, width as nat),
{
    let counting = net.ble_channel.is_some() || net.health.ble_triggered > 0;
    let headline = if counting { "nothing heard yet" } else { "no census yet" };
    let body = if counting {
        owned("the decoder is reading addresses and none has passed a CRC yet; what happened to the triggers is on Feed Health")
    } else {
        match &net.ble_refused {
            Some(why) => {
                let mut b = owned("nothing is decoding addresses here (");
                push_str(&mut b, why.as_str());
                push_str(&mut b, "), so nobody has been counted - this is not an empty room");
                b
            },
            None => owned("nothing is decoding addresses here, so nobody has been counted - this is not an empty room"),
        }
    };
    let ghost start = lines_text(lines@);
    let mut first = String::new();
    push_str(&mut first, " ");
    push_str(&mut first, headline);
    proof { reveal_strlit(" "); assert(" "@ =~= seq![' ']); }
    push_text(lines, first.as_str(), Ink::Stale);
    let w = if width >= 1 { width - 1 } else { 0 };
    let rows = wrap(body.as_str(), w, 4);
    let ghost want = empty_text(*net, width as nat);
    assert(lines_text(lines@) =~= start + want.subrange(0, 1));
    let mut i: usize = 0;
    while i < rows.len()
        invariant
            i <= rows@.len(),
            want == empty_text(*net, width as nat),
            views(rows@) == wrapped(empty_body(*net), w as nat, 4),
            w as nat == (if width >= 1 { (width - 1) as nat } else { 0nat }),
            lines_text(lines@) == start + want.subrange(0, i + 1),
        decreases rows@.len() - i,
    {
        let mut l = String::new();
        push_str(&mut l, " ");
        push_str(&mut l, rows[i].as_str());
        proof { reveal_strlit(" "); assert(" "@ =~= seq![' ']); }
        let ghost before = lines@;
        push_text(lines, l.as_str(), Ink::Label);
        proof {
            assert(lines_text(lines@) =~= lines_text(before).push(want[i + 1]));
            assert(want.subrange(0, i + 2) =~= want.subrange(0, i + 1).push(want[i + 1]));
        }
        i = i + 1;
    }
    assert(want.subrange(0, rows@.len() as int + 1) =~= want);
}

impl NetCensusPanel {
    /// `Band Cens_us`, with the tags the census earns.
    pub fn chrome(&self, state: &SdrMetrics) -> (c: PanelChrome)
        ensures
            c.title@ == "Band Cens_us"@,
            strings(c.tags@) == census_tags(*state),
    {
        let census = &state.net.census;
        let mut key = String::new();
        push_str(&mut key, if census.descending { "\u{2193}" } else { "\u{2191}" });
        if census.sort < 9 {
            let cols = columns();
            push_str(&mut key, cols[census.sort].title);
        } else {
            push_str(&mut key, "?");
        }
        proof {
            reveal_strlit("\u{2193}");
            reveal_strlit("\u{2191}");
            assert("\u{2193}"@ =~= seq!['\u{2193}']);
            assert("\u{2191}"@ =~= seq!['\u{2191}']);
        }
        let c = PanelChrome::new("Band Cens_us");
        let c = c.tag_if(!state.streaming, owned("STALE"));
        let c = c.tag_if(state.net.health.last_loss_secs.is_some(), owned("FEED LOSS"));
        let c = c.tag_if(relative_offsets(&state.net), owned("RELATIVE"));
        let c = c.tag_if(true, state.net.mode.tag());
        let c = c.tag_if(true, key);
        assert(strings(c.tags@) =~= census_tags(*state));
        c
    }

    /// The panel's lines, `width` by `height` inside its frame.
    #[verifier::rlimit(40)]
    pub fn lines(&self, state: &SdrMetrics, width: usize, height: usize) -> (lines: Vec<Vec<Piece>>)
        ensures
            exists|order: Seq<usize>| is_order(state.net.census.devices@, order, state.net.census.sort as nat,
                state.net.census.descending)
                && lines_text(lines@) == census_text(*state, width as nat, height as nat, order),
    {
        let census = &state.net.census;
        let order = census.ordered();
        if width == 0 || height == 0 {
            let l = nothing();
            assert(lines_text(l@) == census_text(*state, width as nat, height as nat, order@));
            return l;
        }
        let devs = &census.devices;
        let base = columns();
        assert(crate::ui::widgets::table::narrowest(base@) == 102) by {
            reveal_with_fuel(crate::ui::widgets::table::widths_sum, 10);
        }
        let want: usize = if devs.len() == 0 { 0 } else { 17 };
        let cols = widen(&base, width, 0, want);
        assert(cols@ == laid_columns(*census, width as nat));
        let fit = columns_that_fit(&cols, width);
        proof { lemma_fit_unique(cols@, width as nat, fit as nat); }
        let sort = Sort { column: census.sort, descending: census.descending };
        let mut lines = nothing();
        let ghost before = lines@;
        lines.push(header(&cols, fit, sort));
        assert(lines_text(lines@) =~= lines_text(before).push(
            header_text(cols@, fit as nat, Sort { column: census.sort, descending: census.descending })));
        if devs.len() == 0 {
            push_text(&mut lines, "", Ink::Plain);
            proof { reveal_strlit(""); assert(""@ =~= Seq::<char>::empty()); }
            push_empty_state(&mut lines, &state.net, width);
            assert(lines_text(lines@) =~= census_text(*state, width as nat, height as nat, order@));
            return lines;
        }
        let cur = census.cursor(&order);
        let mut extra = match cur {
            Some(p) => detail(&devs[order[p]], &state.net, width),
            None => nothing(),
        };
        if height < 4 || height - 4 < extra.len() {
            extra = nothing();
        }
        assert(lines_text(extra@) == detail_block(*state, width as nat, height as nat, order@));
        let body = if height >= 2 && height - 2 >= extra.len() { height - 2 - extra.len() } else { 0 };
        let start = viewport_start(census.selection.first_visible, match cur { Some(p) => p, None => 0 },
            devs.len(), body);
        let shown = if body < devs.len() - start { body } else { devs.len() - start };
        let ghost head = lines_text(lines@);
        let ghost n = devs@.len();
        let dl = devs.len();
        let mut k: usize = 0;
        while k < shown
            invariant
                k <= shown,
                dl == n,
                match cur {
                    Some(p) => cursor_of(devs@, order@, census.selection.selected) == Some(p as int),
                    None => cursor_of(devs@, order@, census.selection.selected) is None,
                },
                start + shown <= devs@.len(),
                n == devs@.len(),
                order@.len() == n,
                forall|j: int| 0 <= j < order@.len() ==> #[trigger] order@[j] < n,
                fit <= cols@.len(),
                lines_text(lines@) == head + Seq::new(k as nat, |j: int|
                    row_chars(cols@, fit as nat, cells_text(devs@[order@[start + j] as int]),
                        cursor_of(devs@, order@, census.selection.selected) == Some(start + j))),
            decreases shown - k,
        {
            let i = start + k;
            let cs = cells(&devs[order[i]]);
            let sel = match cur { Some(p) => p == i, None => false };
            let ghost before = lines@;
            let r = row(&cols, fit, cs.as_slice(), sel);
            let ghost rt = line_text(r@);
            lines.push(r);
            proof {
                lemma_row_chars(cols@, fit as nat, cs@, sel);
                assert(sel == (cursor_of(devs@, order@, census.selection.selected) == Some(start + k)));
                assert(rt == row_chars(cols@, fit as nat, cells_text(devs@[order@[start + k] as int]), sel));
                assert(lines_text(lines@) =~= lines_text(before).push(rt));
                assert(Seq::new(cs@.len(), |q: int| cs@[q]@) == cells_text(devs@[order@[i as int] as int]));
                assert(lines_text(lines@) =~= lines_text(before).push(
                    row_chars(cols@, fit as nat, cells_text(devs@[order@[start + k] as int]),
                        cursor_of(devs@, order@, census.selection.selected) == Some(start + k))));
            }
            k = k + 1;
            proof {
                assert(lines_text(lines@) =~= head + Seq::new(k as nat, |j: int|
                    row_chars(cols@, fit as nat, cells_text(devs@[order@[start + j] as int]),
                        cursor_of(devs@, order@, census.selection.selected) == Some(start + j))));
            }
        }
        let t = turnover_line(devs);
        let ghost before = lines@;
        lines.push(one(piece(t, Ink::Label)));
        let ghost table = lines@;
        let ghost tail = extra@;
        lines.append(&mut extra);
        assert(lines@ =~= table + tail);
        assert(lines_text(lines@) =~= lines_text(table) + lines_text(tail));
        assert(lines_text(lines@) =~= census_text(*state, width as nat, height as nat, order@));
        lines
    }

    /// The panel in its frame, `width` by `height`: the rows a terminal shows.
    pub fn draw(&self, state: &SdrMetrics, width: usize, height: usize) -> (rows: Vec<String>)
        ensures
            exists|order: Seq<usize>| is_order(state.net.census.devices@, order, state.net.census.sort as nat,
                state.net.census.descending)
                && strings(rows@) == framed(
                    bar_text("Band Cens_us"@, census_tags(*state)),
                    census_text(*state, (width - 2) as nat, (height - 2) as nat, order),
                    width as nat,
                    height as nat,
                ),
    {
        let c = self.chrome(state);
        let lines = self.lines(state, if width >= 2 { width - 2 } else { 0 }, if height >= 2 { height - 2 } else { 0 });
        draw(&c, &lines, width, height)
    }
}

} // verus!
