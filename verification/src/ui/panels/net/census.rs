//! `NetCensusPanel` as the first NET preset had it: who is here, five
//! columns, with the cursor on the first row until one is picked.
//!
//! **Nothing fills it yet, and the panel says which of two things that
//! means.** An empty census could be "we listened and nobody transmitted"
//! or "nothing is listening"; when this panel was written only the second
//! was true, so that is the one it says.
use vstd::prelude::*;
use crate::census::{cursor_of, is_order, Census, Device};
use crate::state::{mode_tag, SdrMetrics};
use crate::text::{dec, owned, push_dec, push_str};
use crate::ui::chrome::{line_text, Ink, Piece};
use crate::ui::frame::{bar_text, draw, framed, lines_text, strings, PanelChrome};
use crate::ui::panels::net::shared::census::{best_snr_text, fmt_best_snr, text_or_dash};
use crate::ui::panels::net::{address_hex, address_text, ago, ago_text, nothing, push_text};
use crate::ui::registry::Panel;
use crate::ui::widgets::table::{
    columns_that_fit, fit_count, header, header_text, lemma_fit_unique, lemma_row_chars, row, row_chars,
    viewport, viewport_start, Align, Column, Sort,
};

verus! {

pub struct NetCensusPanel;

/// The columns, in the order they are drawn.
pub open spec fn first_columns() -> Seq<Column> {
    seq![
        Column { title: "ADDRESS", width: 17, align: Align::Left },
        Column { title: "SEEN", width: 7, align: Align::Right },
        Column { title: "PKTS", width: 7, align: Align::Right },
        Column { title: "SNR", width: 8, align: Align::Right },
        Column { title: "CFO", width: 15, align: Align::Right },
    ]
}

/// The columns, in the order they are drawn.
pub fn columns() -> (v: Vec<Column>)
    ensures
        v@ == first_columns(),
{
    let v = vec![
        Column { title: "ADDRESS", width: 17, align: Align::Left },
        Column { title: "SEEN", width: 7, align: Align::Right },
        Column { title: "PKTS", width: 7, align: Align::Right },
        Column { title: "SNR", width: 8, align: Align::Right },
        Column { title: "CFO", width: 15, align: Align::Right },
    ];
    assert(v@ =~= first_columns());
    v
}

/// A device's row cells: address, last heard, packets, best SNR, and the
/// crystal offset in kHz.
pub open spec fn cells_text(d: Device) -> Seq<Seq<char>> {
    seq![
        address_hex(d.address@),
        ago_text(d.last_seen_secs as nat),
        dec(d.packets as nat),
        best_snr_text(d),
        match d.crystal { Some(c) => c.khz@, None => "-"@ },
    ]
}

/// A device's row cells.
pub fn cells(d: &Device) -> (v: Vec<String>)
    ensures
        Seq::new(v@.len(), |i: int| v@[i]@) == cells_text(*d),
{
    let mut v: Vec<String> = Vec::new();
    v.push(address_text(d.address));
    v.push(ago(d.last_seen_secs));
    let mut p = String::new();
    push_dec(&mut p, d.packets);
    v.push(p);
    v.push(fmt_best_snr(d));
    v.push(text_or_dash(match &d.crystal { Some(c) => Some(&c.khz), None => None }));
    assert(Seq::new(v@.len(), |i: int| v@[i]@) =~= cells_text(*d));
    v
}

/// The panel's lines, `width` by `height` inside its frame, for the
/// devices in `order`. The cursor is on the picked device, or on the first
/// row when none is picked.
pub open spec fn first_census_text(state: SdrMetrics, width: nat, height: nat, order: Seq<usize>) -> Seq<Seq<char>> {
    let c = state.net.census;
    let devs = c.devices@;
    let fit = fit_count(first_columns(), width);
    let head = header_text(first_columns(), fit, Sort { column: c.sort, descending: c.descending });
    if width == 0 || height == 0 {
        seq![]
    } else if devs.len() == 0 {
        seq![
            head,
            seq![],
            "no census yet"@,
            "nothing decodes an address on this band yet, so nobody has"@,
            "been counted - this is not an empty room"@,
        ]
    } else {
        let cur: nat = match cursor_of(devs, order, c.selection.selected) { Some(p) => p as nat, None => 0 };
        let body: nat = (height - 1) as nat;
        let start = viewport(c.selection.first_visible as nat, cur, devs.len(), body);
        let shown: nat = if body < devs.len() - start { body } else { (devs.len() - start) as nat };
        seq![head] + Seq::new(shown, |k: int|
            row_chars(first_columns(), fit, cells_text(devs[order[start + k] as int]), start + k == cur))
    }
}

/// The tag that says how the table is ordered: `↓PKTS`, `↑ADDRESS`.
pub open spec fn first_sorted_tag(c: Census) -> Seq<char> {
    let key = if c.sort < 5 { first_columns()[c.sort as int].title@ } else { "?"@ };
    (if c.descending { seq!['\u{2193}'] } else { seq!['\u{2191}'] }) + key
}

/// The frame's tags: stale while no samples flow, the mode, the order.
pub open spec fn first_census_tags(state: SdrMetrics) -> Seq<Seq<char>> {
    (if state.streaming { seq![] } else { seq!["STALE"@] })
        + seq![mode_tag(state.net.mode), first_sorted_tag(state.net.census)]
}

impl Panel for NetCensusPanel {
    fn name(&self) -> (n: &'static str)
        ensures
            n@ == "net_census"@,
    {
        "net_census"
    }

    fn min_size(&self) -> (r: (u16, u16))
        ensures
            r == (34u16, 8u16),
    {
        (34, 8)
    }
}

impl NetCensusPanel {
    /// `Band Cens_us`, with the NET tags and the order.
    pub fn chrome(&self, state: &SdrMetrics) -> (c: PanelChrome)
        ensures
            c.title@ == "Band Cens_us"@,
            strings(c.tags@) == first_census_tags(*state),
    {
        let census = &state.net.census;
        let mut key = String::new();
        push_str(&mut key, if census.descending { "\u{2193}" } else { "\u{2191}" });
        if census.sort < 5 {
            let cols = columns();
            push_str(&mut key, cols[census.sort].title);
        } else {
            push_str(&mut key, "?");
        }
        proof {
            reveal_strlit("\u{2193}");
            reveal_strlit("\u{2191}");
            assert("\u{2193}"@ =~= seq!['\u{2193}']);
            assert("\u{2191}"@ =~= seq!['\u{2191}']);
        }
        let c = PanelChrome::new("Band Cens_us");
        let c = c.tag_if(!state.streaming, owned("STALE"));
        let c = c.tag_if(true, state.net.mode.tag());
        let c = c.tag_if(true, key);
        assert(strings(c.tags@) =~= first_census_tags(*state));
        c
    }

    /// The panel's lines, `width` by `height` inside its frame.
    pub fn lines(&self, state: &SdrMetrics, width: usize, height: usize) -> (lines: Vec<Vec<Piece>>)
        ensures
            exists|order: Seq<usize>| is_order(state.net.census.devices@, order, state.net.census.sort as nat,
                state.net.census.descending)
                && lines_text(lines@) == first_census_text(*state, width as nat, height as nat, order),
    {
        let census = &state.net.census;
        let order = census.ordered();
        if width == 0 || height == 0 {
            let l = nothing();
            assert(lines_text(l@) == first_census_text(*state, width as nat, height as nat, order@));
            return l;
        }
        let devs = &census.devices;
        let cols = columns();
        let fit = columns_that_fit(&cols, width);
        proof { lemma_fit_unique(cols@, width as nat, fit as nat); }
        let sort = Sort { column: census.sort, descending: census.descending };
        let mut lines = nothing();
        let ghost before = lines@;
        lines.push(header(&cols, fit, sort));
        assert(lines_text(lines@) =~= lines_text(before).push(
            header_text(cols@, fit as nat, Sort { column: census.sort, descending: census.descending })));
        if devs.len() == 0 {
            push_text(&mut lines, "", Ink::Plain);
            proof { reveal_strlit(""); assert(""@ =~= Seq::<char>::empty()); }
            push_text(&mut lines, "no census yet", Ink::Stale);
            push_text(&mut lines, "nothing decodes an address on this band yet, so nobody has", Ink::Label);
            push_text(&mut lines, "been counted - this is not an empty room", Ink::Label);
            assert(lines_text(lines@) =~= first_census_text(*state, width as nat, height as nat, order@));
            return lines;
        }
        let cur = match census.cursor(&order) { Some(p) => p, None => 0 };
        let body = height - 1;
        let start = viewport_start(census.selection.first_visible, cur, devs.len(), body);
        let shown = if body < devs.len() - start { body } else { devs.len() - start };
        let ghost head = lines_text(lines@);
        let ghost n = devs@.len();
        let dl = devs.len();
        let mut k: usize = 0;
        while k < shown
            invariant
                k <= shown,
                dl == n,
                start + shown <= devs@.len(),
                n == devs@.len(),
                order@.len() == n,
                forall|j: int| 0 <= j < order@.len() ==> #[trigger] order@[j] < n,
                fit <= cols@.len(),
                cols@ == first_columns(),
                cur as nat == match cursor_of(devs@, order@, census.selection.selected) { Some(p) => p as nat, None => 0nat },
                lines_text(lines@) == head + Seq::new(k as nat, |j: int|
                    row_chars(first_columns(), fit as nat, cells_text(devs@[order@[start + j] as int]), start + j == cur)),
            decreases shown - k,
        {
            let i = start + k;
            let cs = cells(&devs[order[i]]);
            let sel = i == cur;
            let ghost before = lines@;
            let r = row(&cols, fit, cs.as_slice(), sel);
            let ghost rt = line_text(r@);
            lines.push(r);
            proof {
                lemma_row_chars(cols@, fit as nat, cs@, sel);
                assert(rt == row_chars(cols@, fit as nat, cells_text(devs@[order@[start + k] as int]), sel));
                assert(lines_text(lines@) =~= lines_text(before).push(rt));
            }
            k = k + 1;
            proof {
                assert(lines_text(lines@) =~= head + Seq::new(k as nat, |j: int|
                    row_chars(first_columns(), fit as nat, cells_text(devs@[order@[start + j] as int]), start + j == cur)));
            }
        }
        assert(lines_text(lines@) =~= first_census_text(*state, width as nat, height as nat, order@));
        lines
    }

    /// The panel in its frame, `width` by `height`: the rows a terminal shows.
    pub fn draw(&self, state: &SdrMetrics, width: usize, height: usize) -> (rows: Vec<String>)
        ensures
            exists|order: Seq<usize>| is_order(state.net.census.devices@, order, state.net.census.sort as nat,
                state.net.census.descending)
                && strings(rows@) == framed(
                    bar_text("Band Cens_us"@, first_census_tags(*state)),
                    first_census_text(*state, (width - 2) as nat, (height - 2) as nat, order),
                    width as nat,
                    height as nat,
                ),
    {
        let c = self.chrome(state);
        let lines = self.lines(state, if width >= 2 { width - 2 } else { 0 }, if height >= 2 { height - 2 } else { 0 });
        draw(&c, &lines, width, height)
    }
}

} // verus!
