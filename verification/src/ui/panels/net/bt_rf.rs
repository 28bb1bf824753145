//! `NetBtRfPanel`: is this transmitter's own modulation any good?
//!
//! The modulation index, the delta-f1 average, the delta-f2 maximum and
//! their ratio, each against its stated limit, for the most recently
//! decoded advertising packet. The word "pass" never appears: a row says
//! where the reading sits against its limit, not a verdict.
//!
//! **Three refusals, never an invented row.** Not decoding; nothing decoded
//! yet; and a real packet whose content happened not to hold a settled run
//! of either kind the measurement needs.
use vstd::prelude::*;
use crate::state::SdrMetrics;
use crate::ui::chrome::{Ink, Piece};
use crate::ui::frame::{bar_text, draw, framed, lines_text, strings, PanelChrome};
use crate::ui::panels::net::{
    net_chrome, net_tags, nothing, push_quality_rows, push_text, quality_rows, refusal, refusal_text,
};
use crate::ui::registry::Panel;

verus! {

pub struct NetBtRfPanel;

/// What the panel says, `width` by `height` inside its frame.
pub open spec fn rf_lines(state: SdrMetrics, width: nat, height: nat) -> Seq<Seq<char>> {
    let net = state.net;
    if width == 0 || height == 0 {
        seq![]
    } else {
        match net.ble_refused {
            Some(reason) => refusal_text(reason@, width),
            None => if net.ble_packets@.len() == 0 {
                seq!["no packets yet"@]
            } else {
                match net.ble_packets@[0].modulation {
                    None => seq![
                        "not measured"@,
                        "latest packet too short, or too short a run of either kind"@,
                    ],
                    Some(q) => quality_rows(q, None),
                }
            },
        }
    }
}

impl Panel for NetBtRfPanel {
    fn name(&self) -> (n: &'static str)
        ensures
            n@ == "net_bt_rf"@,
    {
        "net_bt_rf"
    }

    fn min_size(&self) -> (r: (u16, u16))
        ensures
            r == (28u16, 4u16),
    {
        (28, 4)
    }
}

impl NetBtRfPanel {
    /// `Modulation Quality`, with the NET tags.
    pub fn chrome(&self, state: &SdrMetrics) -> (c: PanelChrome)
        ensures
            c.title@ == "Modulation Quality"@,
            strings(c.tags@) == net_tags(*state),
    {
        net_chrome("Modulation Quality", state)
    }

    /// The panel's lines, `width` by `height` inside its frame.
    pub fn lines(&self, state: &SdrMetrics, width: usize, height: usize) -> (lines: Vec<Vec<Piece>>)
        ensures
            lines_text(lines@) == rf_lines(*state, width as nat, height as nat),
    {
        if width == 0 || height == 0 {
            return nothing();
        }
        let net = &state.net;
        match &net.ble_refused {
            Some(reason) => return refusal(reason.as_str(), width),
            None => {},
        }
        let mut lines = nothing();
        if net.ble_packets.len() == 0 {
            push_text(&mut lines, "no packets yet", Ink::Stale);
            assert(lines_text(lines@) =~= seq!["no packets yet"@]);
            return lines;
        }
        match &net.ble_packets[0].modulation {
            None => {
                push_text(&mut lines, "not measured", Ink::Stale);
                push_text(&mut lines, "latest packet too short, or too short a run of either kind", Ink::Label);
                assert(lines_text(lines@) =~= rf_lines(*state, width as nat, height as nat));
            },
            Some(q) => {
                push_quality_rows(&mut lines, q, &None);
                assert(lines_text(lines@) =~= rf_lines(*state, width as nat, height as nat));
            },
        }
        lines
    }

    /// The panel in its frame, `width` by `height`: the rows a terminal shows.
    pub fn draw(&self, state: &SdrMetrics, width: usize, height: usize) -> (rows: Vec<String>)
        ensures
            strings(rows@) == framed(
                bar_text("Modulation Quality"@, net_tags(*state)),
                rf_lines(*state, (width - 2) as nat, (height - 2) as nat),
                width as nat,
                height as nat,
            ),
    {
        let c = self.chrome(state);
        let lines = self.lines(state, if width >= 2 { width - 2 } else { 0 }, if height >= 2 { height - 2 } else { 0 });
        draw(&c, &lines, width, height)
    }
}

} // verus!
