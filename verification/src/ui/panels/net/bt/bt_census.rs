//! `NetBtCensusPanel`: classic Bluetooth, who is here.
//!
//! **Not this panel's answer yet, even with a receiver running.** A hit's LAP
//! names a piconet's master, not a device the way an address does, and the
//! census is keyed by address; the hits go to the hop scatter instead. So
//! the panel says it is not decoding, and why: refused, or not folded in,
//! never "nothing heard yet", which would claim a kind of listening it does
//! not do.
use vstd::prelude::*;
use crate::state::SdrMetrics;
use crate::ui::chrome::Piece;
use crate::ui::frame::{bar_text, draw, framed, lines_text, strings, PanelChrome};
use crate::ui::panels::net::{net_chrome, net_tags, nothing, refusal, refusal_text};
use crate::ui::registry::Panel;

verus! {

pub struct NetBtCensusPanel;

/// Why the panel is not decoding when no refusal is set.
pub open spec fn not_folded() -> Seq<char> {
    "classic Bluetooth hits are not yet folded into a census by LAP - see the hop scatter (net_bt_hops)"@
}

/// What the panel says, `width` by `height` inside its frame.
pub open spec fn bt_census_lines(state: SdrMetrics, width: nat, height: nat) -> Seq<Seq<char>> {
    if width == 0 || height == 0 {
        seq![]
    } else {
        match state.net.bt_refused {
            Some(reason) => refusal_text(reason@, width),
            None => refusal_text(not_folded(), width),
        }
    }
}

impl Panel for NetBtCensusPanel {
    fn name(&self) -> (n: &'static str)
        ensures
            n@ == "net_bt_census"@,
    {
        "net_bt_census"
    }

    fn min_size(&self) -> (r: (u16, u16))
        ensures
            r == (32u16, 5u16),
    {
        (32, 5)
    }
}

impl NetBtCensusPanel {
    /// `Classic Bluetooth`, with the NET tags.
    pub fn chrome(&self, state: &SdrMetrics) -> (c: PanelChrome)
        ensures
            c.title@ == "Classic Bluetooth"@,
            strings(c.tags@) == net_tags(*state),
    {
        net_chrome("Classic Bluetooth", state)
    }

    /// The panel's lines, `width` by `height` inside its frame.
    pub fn lines(&self, state: &SdrMetrics, width: usize, height: usize) -> (lines: Vec<Vec<Piece>>)
        ensures
            lines_text(lines@) == bt_census_lines(*state, width as nat, height as nat),
    {
        if width == 0 || height == 0 {
            return nothing();
        }
        match &state.net.bt_refused {
            Some(reason) => refusal(reason.as_str(), width),
            None => refusal(
                "classic Bluetooth hits are not yet folded into a census by LAP - see the hop scatter (net_bt_hops)",
                width,
            ),
        }
    }

    /// The panel in its frame, `width` by `height`: the rows a terminal shows.
    pub fn draw(&self, state: &SdrMetrics, width: usize, height: usize) -> (rows: Vec<String>)
        ensures
            strings(rows@) == framed(
                bar_text("Classic Bluetooth"@, net_tags(*state)),
                bt_census_lines(*state, (width - 2) as nat, (height - 2) as nat),
                width as nat,
                height as nat,
            ),
    {
        let c = self.chrome(state);
        let lines = self.lines(state, if width >= 2 { width - 2 } else { 0 }, if height >= 2 { height - 2 } else { 0 });
        draw(&c, &lines, width, height)
    }
}

} // verus!
