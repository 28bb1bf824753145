//! `NetBtCensusPanel` as the first classic Bluetooth preset had it: who is
//! here, before any receiver existed to ask.
//!
//! A refusal says why nothing is decoding; with none set, the state a future
//! receiver lands in before it has heard anything, it says no devices yet.
use vstd::prelude::*;
use crate::state::SdrMetrics;
use crate::ui::chrome::{Ink, Piece};
use crate::ui::frame::{bar_text, draw, framed, lines_text, strings, PanelChrome};
use crate::ui::panels::net::{net_chrome, net_tags, nothing, push_text, refusal, refusal_text};
use crate::ui::registry::Panel;

verus! {

pub struct NetBtCensusPanel;

/// What the panel says, `width` by `height` inside its frame.
pub open spec fn bt_census_lines(state: SdrMetrics, width: nat, height: nat) -> Seq<Seq<char>> {
    if width == 0 || height == 0 {
        seq![]
    } else {
        match state.net.bt_refused {
            Some(reason) => refusal_text(reason@, width),
            None => seq!["no devices yet"@],
        }
    }
}

impl Panel for NetBtCensusPanel {
    fn name(&self) -> (n: &'static str)
        ensures
            n@ == "net_bt_census"@,
    {
        "net_bt_census"
    }

    fn min_size(&self) -> (r: (u16, u16))
        ensures
            r == (32u16, 5u16),
    {
        (32, 5)
    }
}

impl NetBtCensusPanel {
    /// `Classic Bluetooth`, with the NET tags.
    pub fn chrome(&self, state: &SdrMetrics) -> (c: PanelChrome)
        ensures
            c.title@ == "Classic Bluetooth"@,
            strings(c.tags@) == net_tags(*state),
    {
        net_chrome("Classic Bluetooth", state)
    }

    /// The panel's lines, `width` by `height` inside its frame.
    pub fn lines(&self, state: &SdrMetrics, width: usize, height: usize) -> (lines: Vec<Vec<Piece>>)
        ensures
            lines_text(lines@) == bt_census_lines(*state, width as nat, height as nat),
    {
        if width == 0 || height == 0 {
            return nothing();
        }
        match &state.net.bt_refused {
            Some(reason) => refusal(reason.as_str(), width),
            None => {
                let mut lines = nothing();
                push_text(&mut lines, "no devices yet", Ink::Stale);
                assert(lines_text(lines@) =~= seq!["no devices yet"@]);
                lines
            },
        }
    }

    /// The panel in its frame, `width` by `height`: the rows a terminal shows.
    pub fn draw(&self, state: &SdrMetrics, width: usize, height: usize) -> (rows: Vec<String>)
        ensures
            strings(rows@) == framed(
                bar_text("Classic Bluetooth"@, net_tags(*state)),
                bt_census_lines(*state, (width - 2) as nat, (height - 2) as nat),
                width as nat,
                height as nat,
            ),
    {
        let c = self.chrome(state);
        let lines = self.lines(state, if width >= 2 { width - 2 } else { 0 }, if height >= 2 { height - 2 } else { 0 });
        draw(&c, &lines, width, height)
    }
}

} // verus!
