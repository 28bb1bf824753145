//! `NetCoexistPanel`: what is stepping on your link, and when.
//!
//! The band across, time running down from now at the top, each cell
//! coloured by how busy that megahertz was at that moment: the waterfall's
//! orientation, so the occupancy profile above it and this history below it
//! read as one instrument with one frequency ruler.
//!
//! **Frequency through the band axis, never its own.** A column covers the
//! cells the band axis says, the same cells the occupancy profile's column
//! above it covers. **The busiest, not the mean**: averaging a saturated
//! megahertz with a quiet one would hide what the panel exists to show. A
//! moment older than the history holds, and a band of cells nobody looked
//! at, are drawn as unlooked-at rather than as a quiet band.
use vstd::prelude::*;
use crate::state::{mode_tag, SdrMetrics};
use crate::text::{dec, owned, push_dec, push_str, repeat};
use crate::ui::chrome::{line_text, piece, push_piece, styled, Ink, Piece};
use crate::ui::frame::{bar_text, draw, framed, lines_text, strings, styles, PanelChrome};
use crate::ui::panels::net::shared::band_axis::{edges, edges_text, ruler, ruler_row};
use crate::ui::panels::net::{net_chrome, net_tags, nothing, one, plain_line, push_text};
use crate::ui::registry::Panel;
use crate::ui::widgets::canvas::{band_hi, band_lo};

verus! {

pub struct NetCoexistPanel;

/// The character that carries two cells: its foreground is the upper one,
/// its background the lower.
pub const HALF: char = '\u{2580}';

/// Rows under the canvas: the channel ruler, and the band's edges with the
/// time the canvas spans.
pub const AXIS_ROWS: usize = 2;

/// The busiest observed cell of `col[lo..hi]`, or `None` where nobody
/// looked at any of them.
pub open spec fn busiest(col: Seq<i32>, lo: nat, hi: nat) -> Option<nat>
    decreases hi - lo,
{
    if lo >= hi || lo >= col.len() {
        None
    } else {
        let rest = busiest(col, lo + 1, hi);
        let v = col[lo as int];
        if v >= 0 {
            match rest {
                Some(r) => Some(if v as nat > r { v as nat } else { r }),
                None => Some(v as nat),
            }
        } else {
            rest
        }
    }
}

/// Band `b` of a moment folded into `bands` columns.
pub open spec fn folded(col: Seq<i32>, bands: nat, b: nat) -> Option<nat> {
    if col.len() == 0 {
        None
    } else {
        busiest(col, band_lo(col.len(), bands, b), band_hi(col.len(), bands, b))
    }
}

/// Column `x` of the moment `step` moments before the newest, or `None`
/// for a moment older than the history holds.
pub open spec fn moment(history: Seq<Vec<i32>>, step: nat, width: nat, x: nat) -> Option<nat> {
    if step < history.len() {
        folded(history[history.len() - 1 - step]@, width, x)
    } else {
        None
    }
}

/// The ink of column `x` of canvas row `r`: the moments `2r` and `2r + 1`
/// before the newest, the newer on top.
pub open spec fn heat(history: Seq<Vec<i32>>, r: nat, width: nat, x: nat) -> Ink {
    Ink::Heat {
        upper: match moment(history, 2 * r, width, x) { Some(v) => Some(v as u32), None => None },
        lower: match moment(history, 2 * r + 1, width, x) { Some(v) => Some(v as u32), None => None },
    }
}

/// How far back the bottom of the canvas reaches, in whole seconds: half a
/// second a moment, for the moments it holds, halves rounded to even.
pub open spec fn span_secs(shown: nat) -> nat {
    let q = shown / 2;
    if shown % 2 == 0 { q } else if q % 2 == 0 { q } else { q + 1 }
}

/// `now at the top, 12 s down`.
pub open spec fn note_text(span: nat) -> Seq<char> {
    "now at the top, "@ + dec(span) + " s down"@
}

/// The band's edges, and how far back the canvas reaches between them when
/// it fits.
pub open spec fn edges_and_time_text(width: nat, span: nat) -> Seq<char> {
    let e = edges_text(width);
    let note = note_text(span);
    if 8 + 8 + note.len() + 4 > width {
        e
    } else {
        let start = 8 + (width - 16 - note.len()) / 2;
        e.subrange(0, start as int) + note + e.subrange(start + note.len(), e.len() as int)
    }
}

/// What the panel says, `width` by `height` inside its frame.
pub open spec fn coexist_lines(state: SdrMetrics, width: nat, height: nat) -> Seq<Seq<char>> {
    let history = state.net.band.history@;
    if width == 0 || height <= AXIS_ROWS {
        seq![]
    } else if history.len() == 0 {
        match state.net.survey_refused {
            Some(why) => seq!["no pass is possible: "@ + why@],
            None => seq!["waiting for the first pass"@],
        }
    } else {
        let rows = (height - AXIS_ROWS) as nat;
        let shown = if history.len() < rows * 2 { history.len() } else { rows * 2 };
        Seq::new(rows, |r: int| repeat(HALF, width))
            + seq![ruler_row(width, 13), edges_and_time_text(width, span_secs(shown))]
    }
}

/// Canvas row `r` as drawn: a half block per column, in the heat of the two
/// moments it carries.
pub open spec fn canvas_styled(history: Seq<Vec<i32>>, r: nat, width: nat) -> Seq<(Seq<char>, Ink, bool)> {
    Seq::new(width, |x: int| (seq![HALF], heat(history, r, width, x as nat), false))
}

/// What the panel draws, each piece's text, ink and weight: the note in the
/// stale ink while there is no history; otherwise the canvas, whose colours
/// are the reading (row `r` carries the moments `2r` and `2r + 1` before the
/// newest, the newer on top), then the ruler and the edges in the label ink.
pub open spec fn coexist_styled(state: SdrMetrics, width: nat, height: nat) -> Seq<Seq<(Seq<char>, Ink, bool)>> {
    let history = state.net.band.history@;
    if width == 0 || height <= AXIS_ROWS {
        seq![]
    } else if history.len() == 0 {
        seq![plain_line(coexist_lines(state, width, height)[0], Ink::Stale)]
    } else {
        let rows = (height - AXIS_ROWS) as nat;
        Seq::new(rows, |r: int| canvas_styled(history, r as nat, width)) + seq![
            plain_line(coexist_lines(state, width, height)[rows as int], Ink::Label),
            plain_line(coexist_lines(state, width, height)[rows as int + 1], Ink::Label),
        ]
    }
}

/// The busiest observed cell of `col[lo..hi]`.
fn busiest_of(col: &Vec<i32>, lo: usize, hi: usize) -> (r: Option<u32>)
    requires
        hi <= col@.len(),
    ensures
        match r {
            Some(v) => busiest(col@, lo as nat, hi as nat) == Some(v as nat),
            None => busiest(col@, lo as nat, hi as nat) is None,
        },
    decreases hi - lo,
{
    if lo >= hi {
        return None;
    }
    let rest = busiest_of(col, lo + 1, hi);
    let v = col[lo];
    if v >= 0 {
        match rest {
            Some(r) => Some(if v as u32 > r { v as u32 } else { r }),
            None => Some(v as u32),
        }
    } else {
        rest
    }
}

/// The cells column `b` of `bands` covers, out of `cells`.
fn bounds(cells: usize, bands: usize, b: usize) -> (r: (usize, usize))
    requires
        b < bands,
    ensures
        r.0 == band_lo(cells as nat, bands as nat, b as nat),
        r.1 == band_hi(cells as nat, bands as nat, b as nat),
        r.1 <= cells,
{
    let d: u128 = bands as u128;
    assert((b as u128 + 1) * (cells as u128) <= 0x1_0000_0000_0000_0000 * 0xffff_ffff_ffff_ffff) by (nonlinear_arith)
        requires b < 0x1_0000_0000_0000_0000, cells <= 0xffff_ffff_ffff_ffff;
    assert((b as u128) * (cells as u128) <= (b as u128 + 1) * (cells as u128)) by (nonlinear_arith);
    let lo: u128 = b as u128 * cells as u128 / d;
    let next: u128 = (b as u128 + 1) * cells as u128 / d;
    assert(lo <= cells) by (nonlinear_arith)
        requires lo == (b * cells) / (bands as int), b < bands, bands > 0, cells >= 0;
    let at_least: u128 = if next > lo + 1 { next } else { lo + 1 };
    let hi: u128 = if at_least < cells as u128 { at_least } else { cells as u128 };
    (lo as usize, hi as usize)
}

/// Column `x` of a moment folded into `bands` columns.
fn fold_at(col: &Vec<i32>, bands: usize, x: usize) -> (r: Option<u32>)
    requires
        x < bands,
    ensures
        match r {
            Some(v) => folded(col@, bands as nat, x as nat) == Some(v as nat),
            None => folded(col@, bands as nat, x as nat) is None,
        },
{
    if col.len() == 0 {
        return None;
    }
    let (lo, hi) = bounds(col.len(), bands, x);
    busiest_of(col, lo, hi)
}

/// Appends `text` after the digits of `n`.
fn note(span: u64) -> (s: String)
    ensures
        s@ == note_text(span as nat),
{
    let mut s = owned("now at the top, ");
    push_dec(&mut s, span);
    push_str(&mut s, " s down");
    s
}

/// The band's edges, and how far back the canvas reaches between them.
pub fn edges_and_time(width: usize, span: u64) -> (s: String)
    ensures
        s@ == edges_and_time_text(width as nat, span as nat),
{
    let e = edges(width);
    let n = note(span);
    let nl = n.as_str().unicode_len();
    if width < 20 || nl > width - 20 {
        return e;
    }
    let start = 8 + (width - 16 - nl) / 2;
    proof {
        assert(dec(2400) =~= seq!['2', '4', '0', '0']) by {
            reveal_with_fuel(dec, 5);
        }
        assert(dec(2483) =~= seq!['2', '4', '8', '3']) by {
            reveal_with_fuel(dec, 5);
        }
        reveal_strlit(" MHz");
        assert(crate::band::LOW_HZ as nat / 1_000_000 == 2400);
        assert(crate::band::HIGH_HZ as nat / 1_000_000 == 2483);
        assert(e@.len() == width);
    }
    let mut s = owned(e.as_str().substring_char(0, start));
    push_str(&mut s, n.as_str());
    push_str(&mut s, e.as_str().substring_char(start + nl, width));
    s
}

/// One row of the canvas: the two moments it carries, newer on top, a
/// half block per column.
fn canvas_row(history: &Vec<Vec<i32>>, r: usize, width: usize) -> (line: Vec<Piece>)
    requires
        r < 0x1_0000,
    ensures
        line_text(line@) == repeat(HALF, width as nat),
        line@.len() == width,
        forall|x: int| 0 <= x < width ==> (#[trigger] line@[x]).ink == heat(history@, r as nat, width as nat, x as nat),
        styled(line@) == canvas_styled(history@, r as nat, width as nat),
{
    let n = history.len();
    let mut line: Vec<Piece> = Vec::new();
    let mut x: usize = 0;
    while x < width
        invariant
            x <= width,
            n == history@.len(),
            r < 0x1_0000,
            line@.len() == x,
            line_text(line@) == repeat(HALF, x as nat),
            forall|k: int| 0 <= k < x ==> (#[trigger] line@[k]).ink == heat(history@, r as nat, width as nat, k as nat),
            forall|k: int| 0 <= k < x ==> (#[trigger] line@[k]).text@ == seq![HALF] && !line@[k].bold,
        decreases width - x,
    {
        let upper = if 2 * r < n {
            fold_at(&history[n - 1 - 2 * r], width, x)
        } else {
            None
        };
        let lower = if 2 * r + 1 < n {
            fold_at(&history[n - 2 - 2 * r], width, x)
        } else {
            None
        };
        let mut t = String::new();
        crate::text::push_char(&mut t, HALF);
        let ghost before = line@;
        push_piece(&mut line, piece(t, Ink::Heat { upper, lower }));
        proof {
            assert(repeat(HALF, x as nat).push(HALF) =~= repeat(HALF, (x + 1) as nat));
            assert forall|k: int| 0 <= k < x + 1 implies (#[trigger] line@[k]).ink == heat(history@, r as nat, width as nat, k as nat) by {
                if k < x {
                    assert(line@[k] == before[k]);
                }
            }
            assert(t@ =~= seq![HALF]);
            assert forall|k: int| 0 <= k < x + 1 implies (#[trigger] line@[k]).text@ == seq![HALF] && !line@[k].bold by {
                if k < x {
                    assert(line@[k] == before[k]);
                }
            }
        }
        x = x + 1;
    }
    assert(styled(line@) =~= canvas_styled(history@, r as nat, width as nat));
    line
}

impl Panel for NetCoexistPanel {
    fn name(&self) -> (n: &'static str)
        ensures
            n@ == "net_coexist"@,
    {
        "net_coexist"
    }

    fn min_size(&self) -> (r: (u16, u16))
        ensures
            r == (30u16, 8u16),
    {
        (30, 8)
    }
}

impl NetCoexistPanel {
    /// `Coexistence`, with the NET tags.
    pub fn chrome(&self, state: &SdrMetrics) -> (c: PanelChrome)
        ensures
            c.title@ == "Coexistence"@,
            strings(c.tags@) == net_tags(*state),
    {
        net_chrome("Coexistence", state)
    }

    /// The panel's lines, `width` by `height` inside its frame.
    pub fn lines(&self, state: &SdrMetrics, width: usize, height: usize) -> (lines: Vec<Vec<Piece>>)
        requires
            width * crate::band::CELLS <= usize::MAX,
            height <= 0xffff,
        ensures
            lines_text(lines@) == coexist_lines(*state, width as nat, height as nat),
            styles(lines@) == coexist_styled(*state, width as nat, height as nat),
    {
        if width == 0 || height <= AXIS_ROWS {
            let l = nothing();
            assert(lines_text(l@).len() == l@.len());
            assert(l@.len() == 0);
            assert(styles(l@) =~= coexist_styled(*state, width as nat, height as nat));
            return l;
        }
        let history = &state.net.band.history;
        let mut lines = nothing();
        if history.len() == 0 {
            match &state.net.survey_refused {
                Some(why) => {
                    let mut s = owned("no pass is possible: ");
                    push_str(&mut s, why.as_str());
                    push_text(&mut lines, s.as_str(), Ink::Stale);
                },
                None => push_text(&mut lines, "waiting for the first pass", Ink::Stale),
            }
            assert(lines_text(lines@) =~= coexist_lines(*state, width as nat, height as nat));
            assert(styles(lines@) =~= coexist_styled(*state, width as nat, height as nat));
            return lines;
        }
        let rows = height - AXIS_ROWS;
        proof {
            assert(lines_text(lines@).len() == lines@.len());
            assert(styles(lines@) =~= Seq::new(0, |k: int| canvas_styled(history@, k as nat, width as nat)));
        }
        let mut r: usize = 0;
        while r < rows
            invariant
                r <= rows,
                rows == height - AXIS_ROWS,
                height <= 0xffff,
                history == &state.net.band.history,
                lines_text(lines@) == Seq::new(r as nat, |k: int| repeat(HALF, width as nat)),
                styles(lines@) == Seq::new(r as nat, |k: int| canvas_styled(history@, k as nat, width as nat)),
            decreases rows - r,
        {
            let ghost before = lines@;
            let row = canvas_row(history, r, width);
            let ghost rt = line_text(row@);
            let ghost rs = styled(row@);
            lines.push(row);
            assert(lines_text(lines@) =~= lines_text(before).push(rt));
            assert(lines_text(lines@) =~= Seq::new((r + 1) as nat, |k: int| repeat(HALF, width as nat)));
            assert(styles(lines@) =~= styles(before).push(rs));
            assert(styles(lines@) =~= Seq::new((r + 1) as nat, |k: int| canvas_styled(history@, k as nat, width as nat)));
            r = r + 1;
        }
        let shown = if history.len() < rows * 2 { history.len() } else { rows * 2 };
        let q = shown / 2;
        let span = if shown % 2 == 0 { q } else if q % 2 == 0 { q } else { q + 1 };
        let ghost before = lines@;
        let ra = one(piece(ruler(width), Ink::Label));
        let ea = one(piece(edges_and_time(width, span as u64), Ink::Label));
        let ghost rat = line_text(ra@);
        let ghost eat = line_text(ea@);
        assert(styled(ra@) =~= plain_line(rat, Ink::Label));
        assert(styled(ea@) =~= plain_line(eat, Ink::Label));
        lines.push(ra);
        lines.push(ea);
        assert(lines_text(lines@) =~= coexist_lines(*state, width as nat, height as nat));
        assert(rat == coexist_lines(*state, width as nat, height as nat)[rows as int]);
        assert(eat == coexist_lines(*state, width as nat, height as nat)[rows + 1]);
        assert(styles(lines@) =~= coexist_styled(*state, width as nat, height as nat));
        lines
    }

    /// The panel in its frame, `width` by `height`: the rows a terminal shows.
    pub fn draw(&self, state: &SdrMetrics, width: usize, height: usize) -> (rows: Vec<String>)
        requires
            width * crate::band::CELLS <= usize::MAX,
            height <= 0xffff,
        ensures
            strings(rows@) == framed(
                bar_text("Coexistence"@, net_tags(*state)),
                coexist_lines(*state, (width - 2) as nat, (height - 2) as nat),
                width as nat,
                height as nat,
            ),
    {
        let c = self.chrome(state);
        let lines = self.lines(state, if width >= 2 { width - 2 } else { 0 }, if height >= 2 { height - 2 } else { 0 });
        draw(&c, &lines, width, height)
    }
}

} // verus!
