//! `NetOccupancyPanel`: who is spending the airtime, one megahertz at a time.
//!
//! The band across the width of the panel, each cell's duty cycle the
//! height of its bar, the Wi-Fi channel numbering underneath.
//!
//! **Three states, drawn three ways, and the distinction is the panel.** A
//! busy cell is a bar; an observed, empty cell is the baseline, drawn,
//! because nothing transmitting there is a measurement; a cell nobody
//! looked at is a dim dot. And above all of them: when the noise floor
//! failed its own preconditions the bars are not drawn at all, because
//! everything here is measured against that floor.
use vstd::prelude::*;
use crate::band::CELLS;
use crate::state::{BandState, CellReading, NetState, SdrMetrics};
use crate::text::{dec, owned, push_char, push_dec, push_dec_wide, push_spaces, push_str, spaces};
use crate::ui::chrome::{lemma_styled_push, line_text, piece, push_piece, styled, Ink, Piece};
use crate::ui::frame::{bar_text, draw, framed, lines_text, strings, styles, PanelChrome};
use crate::ui::registry::Panel;
use crate::state::mode_tag;
use crate::ui::panels::net::{ago, ago_text, one, push_text, push_wrapped};
use crate::ui::panels::net::bt::bt_hops::eighth;
use crate::ui::panels::net::shared::band_axis::{covers, cols, edges, edges_text, ruler, ruler_row};
use crate::ui::wrap::wrapped;

verus! {

pub struct NetOccupancyPanel;

/// Bar rows, so the duty cycle has more than eight levels to sit on.
pub const ROWS: usize = 3;

/// What an unobserved cell is drawn as: nobody looked here.
pub const UNSEEN: char = '\u{00b7}';

/// The baseline an observed, empty cell rests on.
pub const FLOOR: char = '\u{2581}';

/// What the bars read of a cell: the windows measured in it (none: nobody
/// looked), its duty cycle in thousandths, and the shade its bar is drawn
/// in on the colour ramp, in thousandths: its peak power live, its duty
/// cycle at a past moment (the history keeps no power).
pub type Cell = (u64, u32, u32);

/// Whether anybody looked at a cell.
pub open spec fn observed(c: Cell) -> bool {
    c.0 > 0
}

/// The eighths a duty cycle fills in the row `from_bottom` rows up, of
/// `rows`, to the nearest eighth.
pub open spec fn row_fill(duty: nat, rows: nat, from_bottom: nat) -> nat {
    let d: nat = if duty > 1000 { 1000 } else { duty };
    let filled = d * rows * 8;
    let base = from_bottom * 8000;
    let v: nat = if filled <= base { 0 } else if filled - base > 8000 { 8000 } else { (filled - base) as nat };
    (v + 500) / 1000
}

/// One column of the profile, top row first: a dot in every row where
/// nobody looked; the duty cycle spread from the bottom up otherwise, and
/// the baseline where the bottom row would be empty.
pub open spec fn column_glyphs(c: Cell, rows: nat) -> Seq<char> {
    if !observed(c) {
        Seq::new(rows, |i: int| UNSEEN)
    } else {
        let raw = Seq::new(rows, |i: int| eighth(row_fill(c.1 as nat, rows, (rows - 1 - i) as nat)));
        if rows > 0 && raw[rows - 1] == ' ' { raw.update(rows - 1, FLOOR) } else { raw }
    }
}

/// One column of the profile, top row first.
pub fn bar_column(c: Cell, rows: usize) -> (g: Vec<char>)
    requires
        rows <= 0x10_0000,
    ensures
        g@ == column_glyphs(c, rows as nat),
{
    let mut g: Vec<char> = Vec::new();
    if c.0 == 0 {
        let mut i: usize = 0;
        while i < rows
            invariant
                i <= rows,
                g@ == Seq::new(i as nat, |j: int| UNSEEN),
            decreases rows - i,
        {
            g.push(UNSEEN);
            i = i + 1;
            assert(g@ =~= Seq::new(i as nat, |j: int| UNSEEN));
        }
        return g;
    }
    let d: u64 = if c.1 > 1000 { 1000 } else { c.1 as u64 };
    assert(d * (rows as u64) <= 1000 * 0x10_0000) by (nonlinear_arith)
        requires d <= 1000, rows <= 0x10_0000;
    let filled = d * (rows as u64) * 8;
    let mut i: usize = 0;
    while i < rows
        invariant
            i <= rows <= 0x10_0000,
            d == (if c.1 > 1000 { 1000 } else { c.1 as nat }),
            filled == d * rows * 8,
            g@ == Seq::new(i as nat, |j: int| eighth(row_fill(c.1 as nat, rows as nat, (rows - 1 - j) as nat))),
        decreases rows - i,
    {
        let base = ((rows - 1 - i) as u64) * 8000;
        let v: u64 = if filled <= base { 0 } else if filled - base > 8000 { 8000 } else { filled - base };
        g.push(crate::ui::panels::net::bt::bt_hops::eighth_char((v + 500) / 1000));
        i = i + 1;
        proof {
            assert(g@ =~= Seq::new(i as nat, |j: int| eighth(row_fill(c.1 as nat, rows as nat, (rows - 1 - j) as nat))));
        }
    }
    if rows > 0 && g[rows - 1] == ' ' {
        g.set(rows - 1, FLOOR);
    }
    g
}

/// The cell a column keeps of `cells[lo..lo + k]`: the busiest, a later
/// one taking the place of an earlier one that nobody looked at.
pub open spec fn keep(cells: Seq<Cell>, lo: int, k: nat) -> Option<Cell>
    decreases k,
{
    if k == 0 {
        None
    } else {
        let b = cells[lo + k - 1];
        match keep(cells, lo, (k - 1) as nat) {
            None => Some(b),
            Some(a) => if b.1 > a.1 || !observed(a) { Some(b) } else { Some(a) },
        }
    }
}

/// The band mapped onto `width` columns, each the busiest cell it covers,
/// and a column of cells nobody looked at stays unlooked-at.
pub open spec fn band_columns(cells: Seq<Cell>, width: nat) -> Seq<Cell> {
    if width == 0 || cells.len() == 0 {
        seq![]
    } else {
        Seq::new(width, |x: int| {
            let lo0 = crate::ui::widgets::canvas::band_lo(CELLS as nat, width, x as nat);
            let hi0 = crate::ui::widgets::canvas::band_hi(CELLS as nat, width, x as nat);
            let lo: nat = if lo0 < cells.len() { lo0 } else { cells.len() };
            let hi: nat = if hi0 < cells.len() { hi0 } else { cells.len() };
            match keep(cells, lo as int, if hi > lo { (hi - lo) as nat } else { 0 }) {
                Some(c) => c,
                None => (0u64, 0u32, 0u32),
            }
        })
    }
}

/// What `keep` picks of `cells[lo..lo + k]`: one of those cells. Where
/// nobody's cell holds a duty, it is observed if any of them is, with a duty
/// no lower than any observed one's; and unobserved if none is.
proof fn lemma_keep(cells: Seq<Cell>, lo: int, k: nat)
    requires
        0 <= lo,
        lo + k <= cells.len(),
    ensures
        k == 0 <==> keep(cells, lo, k) is None,
        keep(cells, lo, k) matches Some(r) ==> exists|d: int| lo <= d < lo + k && cells[d] == r,
        (forall|d: int| lo <= d < lo + k && !observed(#[trigger] cells[d]) ==> cells[d].1 == 0)
            && (exists|d: int| lo <= d < lo + k && observed(#[trigger] cells[d]))
            ==> (keep(cells, lo, k) matches Some(r) && observed(r)
                && forall|d: int| lo <= d < lo + k && observed(#[trigger] cells[d]) ==> r.1 >= cells[d].1),
        (forall|d: int| lo <= d < lo + k ==> !observed(#[trigger] cells[d]))
            ==> (keep(cells, lo, k) matches Some(r) ==> !observed(r)),
    decreases k,
{
    if k > 0 {
        let p = (k - 1) as nat;
        lemma_keep(cells, lo, p);
        let b = cells[lo + p];
        match keep(cells, lo, p) {
            None => {
                assert(cells[lo + p] == b);
            },
            Some(a) => {
                let d0 = choose|d: int| lo <= d < lo + p && cells[d] == a;
                assert(lo <= d0 < lo + k && cells[d0] == a);
                assert(cells[lo + p] == b);
                if (forall|d: int| lo <= d < lo + k && !observed(#[trigger] cells[d]) ==> cells[d].1 == 0)
                    && (exists|d: int| lo <= d < lo + k && observed(#[trigger] cells[d])) {
                    if exists|d: int| lo <= d < lo + p && observed(#[trigger] cells[d]) {
                        assert(observed(a));
                    }
                }
            },
        }
    }
}

/// The band folded onto `width` columns keeps the busiest cell of each
/// column, not the mean: where no unobserved cell holds a duty, a column with
/// an observed cell shows an observed cell with a duty no lower than that of
/// any observed cell it covers; and whatever the cells hold, a column shows
/// one of the cells it covers, unobserved where nobody looked at any of them.
pub proof fn lemma_column_keeps_the_busiest(cells: Seq<Cell>, width: nat, x: nat)
    requires
        x < width,
        cells.len() > 0,
    ensures
        ({
            let lo0 = crate::ui::widgets::canvas::band_lo(CELLS as nat, width, x);
            let hi0 = crate::ui::widgets::canvas::band_hi(CELLS as nat, width, x);
            let lo: int = if lo0 < cells.len() { lo0 as int } else { cells.len() as int };
            let hi: int = if hi0 < cells.len() { hi0 as int } else { cells.len() as int };
            let col = band_columns(cells, width)[x as int];
            &&& lo < hi ==> exists|d: int| lo <= d < hi && cells[d] == col
            &&& (forall|d: int| lo <= d < hi ==> !observed(#[trigger] cells[d])) ==> !observed(col)
            &&& (forall|d: int| lo <= d < hi && !observed(#[trigger] cells[d]) ==> cells[d].1 == 0)
                && (exists|d: int| lo <= d < hi && observed(#[trigger] cells[d]))
                ==> observed(col)
                    && forall|d: int| lo <= d < hi && observed(#[trigger] cells[d]) ==> col.1 >= cells[d].1
        }),
{
    let lo0 = crate::ui::widgets::canvas::band_lo(CELLS as nat, width, x);
    let hi0 = crate::ui::widgets::canvas::band_hi(CELLS as nat, width, x);
    let lo: nat = if lo0 < cells.len() { lo0 } else { cells.len() };
    let hi: nat = if hi0 < cells.len() { hi0 } else { cells.len() };
    let k: nat = if hi > lo { (hi - lo) as nat } else { 0 };
    lemma_keep(cells, lo as int, k);
}

/// The band mapped onto `width` columns.
pub fn columns(cells: &Vec<Cell>, width: usize) -> (cols: Vec<Cell>)
    requires
        width * CELLS <= usize::MAX,
    ensures
        cols@ == band_columns(cells@, width as nat),
{
    let mut cols: Vec<Cell> = Vec::new();
    if width == 0 || cells.len() == 0 {
        assert(cols@ =~= band_columns(cells@, width as nat));
        return cols;
    }
    let n = cells.len();
    let mut x: usize = 0;
    while x < width
        invariant
            x <= width,
            width >= 1,
            n == cells@.len(),
            n >= 1,
            width * CELLS <= usize::MAX,
            cols@.len() == x,
            forall|j: int| 0 <= j < x ==> #[trigger] cols@[j] == band_columns(cells@, width as nat)[j],
        decreases width - x,
    {
        assert((x + 1) * CELLS <= width * CELLS) by (nonlinear_arith)
            requires x < width;
        let r = crate::ui::panels::net::shared::band_axis::cells_of(x, width);
        proof {
            crate::ui::panels::net::shared::band_axis::lemma_every_column_covers_a_cell(x as nat, width as nat);
        }
        let lo = if r.start < n { r.start } else { n };
        let hi = if r.end < n { r.end } else { n };
        let mut best: Option<Cell> = None;
        let mut i = lo;
        while i < hi
            invariant
                lo <= i <= hi <= n,
                n == cells@.len(),
                best == keep(cells@, lo as int, (i - lo) as nat),
            decreases hi - i,
        {
            let b = cells[i];
            best = match best {
                None => Some(b),
                Some(a) => if b.1 > a.1 || a.0 == 0 { Some(b) } else { Some(a) },
            };
            i = i + 1;
        }
        cols.push(match best {
            Some(c) => c,
            None => (0u64, 0u32, 0u32),
        });
        x = x + 1;
        proof {
            assert forall|j: int| 0 <= j < x implies #[trigger] cols@[j] == band_columns(cells@, width as nat)[j] by {
                if j == x - 1 {
                    assert(crate::ui::panels::net::shared::band_axis::cols(width as nat) == width);
                }
            }
        }
    }
    assert(cols@ =~= band_columns(cells@, width as nat));
    cols
}

/// The busiest of the first `k` cells: observed, with something in it, the
/// lower frequency among equals.
pub open spec fn busiest_of(cells: Seq<Cell>, k: nat) -> Option<nat>
    decreases k,
{
    if k == 0 {
        None
    } else {
        let i = (k - 1) as nat;
        let c = cells[i as int];
        let before = busiest_of(cells, i);
        if !observed(c) || c.1 == 0 {
            before
        } else {
            match before {
                Some(b) => if c.1 > cells[b as int].1 { Some(i) } else { Some(b) },
                None => Some(i),
            }
        }
    }
}

/// The busiest cell, if any has something in it.
pub fn busiest(cells: &Vec<Cell>) -> (b: Option<usize>)
    ensures
        match b {
            Some(i) => busiest_of(cells@, cells@.len()) == Some(i as nat) && i < cells@.len(),
            None => busiest_of(cells@, cells@.len()) is None,
        },
{
    let mut best: Option<usize> = None;
    let mut i: usize = 0;
    while i < cells.len()
        invariant
            i <= cells@.len(),
            match best {
                Some(b) => busiest_of(cells@, i as nat) == Some(b as nat) && b < i,
                None => busiest_of(cells@, i as nat) is None,
            },
        decreases cells@.len() - i,
    {
        let c = cells[i];
        if c.0 > 0 && c.1 > 0 {
            best = match best {
                Some(b) => if c.1 > cells[b].1 { Some(i) } else { Some(b) },
                None => Some(i),
            };
        }
        i = i + 1;
    }
    best
}

/// `head`, then as many of `groups` as fit in `width`, in order, each whole
/// and three spaces after the one before; the first that does not fit ends
/// the line.
pub open spec fn fit_fold(head: Seq<char>, groups: Seq<Seq<char>>, width: nat, k: nat) -> (Seq<char>, bool)
    decreases k,
{
    if k == 0 {
        (head, false)
    } else {
        let (text, stopped) = fit_fold(head, groups, width, (k - 1) as nat);
        let g = groups[k - 1];
        if stopped || text.len() + 3 + g.len() > width {
            (text, true)
        } else {
            (text + "   "@ + g, false)
        }
    }
}

/// The readout line `head` and `groups` make in `width` columns.
pub open spec fn fit_groups_text(head: Seq<char>, groups: Seq<Seq<char>>, width: nat) -> Seq<char> {
    fit_fold(head, groups, width, groups.len()).0
}

/// The readout line `head` and `groups` make in `width` columns.
pub fn fit_groups(head: &str, groups: &Vec<String>, width: usize) -> (s: String)
    ensures
        s@ == fit_groups_text(head@, Seq::new(groups@.len(), |i: int| groups@[i]@), width as nat),
{
    let ghost gs = Seq::new(groups@.len(), |i: int| groups@[i]@);
    let mut s = crate::text::owned(head);
    let mut used = crate::text::char_count(head);
    let mut stopped = false;
    let mut k: usize = 0;
    while k < groups.len()
        invariant
            k <= groups@.len(),
            gs == Seq::new(groups@.len(), |i: int| groups@[i]@),
            (s@, stopped) == fit_fold(head@, gs, width as nat, k as nat),
            used == s@.len(),
        decreases groups@.len() - k,
    {
        let n = crate::text::char_count(groups[k].as_str());
        if !stopped && used <= width && 3 <= width - used && n <= width - used - 3 {
            push_str(&mut s, "   ");
            push_str(&mut s, groups[k].as_str());
            used = used + 3 + n;
            proof {
                reveal_strlit("   ");
            }
        } else {
            stopped = true;
        }
        k = k + 1;
    }
    s
}

/// A span of time given in nanoseconds, at the resolution it is worth
/// reading at: microseconds, milliseconds, seconds, then minutes, each to
/// the nearest.
pub open spec fn span_text(ns: nat) -> Seq<char> {
    if ns < 1_000_000 {
        dec((ns + 500) / 1000) + " us"@
    } else if ns < 1_000_000_000 {
        dec((ns + 500_000) / 1_000_000) + " ms"@
    } else if ns < 120_000_000_000 {
        dec((ns + 500_000_000) / 1_000_000_000) + " s"@
    } else {
        dec((ns + 30_000_000_000) / 60_000_000_000) + " min"@
    }
}

/// Appends a span of time given in nanoseconds.
pub fn push_span(s: &mut String, ns: u128)
    requires
        ns <= u64::MAX as u128 * u64::MAX as u128,
    ensures
        final(s)@ == old(s)@ + span_text(ns as nat),
{
    let ghost start = s@;
    if ns < 1_000_000 {
        push_dec_wide(s, (ns + 500) / 1000);
        push_str(s, " us");
    } else if ns < 1_000_000_000 {
        push_dec_wide(s, (ns + 500_000) / 1_000_000);
        push_str(s, " ms");
    } else if ns < 120_000_000_000 {
        push_dec_wide(s, (ns + 500_000_000) / 1_000_000_000);
        push_str(s, " s");
    } else {
        push_dec_wide(s, (ns + 30_000_000_000) / 60_000_000_000);
        push_str(s, " min");
    }
    assert(s@ =~= start + span_text(ns as nat));
}

/// A cell's frequency: `2441 MHz`.
pub open spec fn mhz_text(cell: nat) -> Seq<char> {
    dec(2400 + cell) + " MHz"@
}

/// Appends a cell's frequency.
fn push_mhz(s: &mut String, cell: usize)
    ensures
        final(s)@ == old(s)@ + mhz_text(cell as nat),
{
    let ghost start = s@;
    push_dec_wide(s, 2400 + cell as u128);
    push_str(s, " MHz");
    assert(s@ =~= start + mhz_text(cell as nat));
}

/// The latest readings as the bars read them.
pub open spec fn live_cells(cs: Seq<CellReading>) -> Seq<Cell> {
    Seq::new(cs.len(), |i: int| (cs[i].windows, cs[i].duty_milli, cs[i].level_milli))
}

/// A duty cycle as a shade on the ramp: the duty itself, at most all of it.
pub open spec fn shade_of(duty: u32) -> u32 {
    if duty > 1000 { 1000 } else { duty }
}

/// A history column as the bars read it: observed where it was, and only
/// its duty, since nothing else is kept; the duty shades it too.
pub open spec fn then_cells(col: Seq<i32>) -> Seq<Cell> {
    Seq::new(col.len(), |i: int| if col[i] >= 0 { (1u64, col[i] as u32, shade_of(col[i] as u32)) } else { (0u64, 0u32, 0u32) })
}

/// How many of the first `k` cells anybody looked at.
pub open spec fn observed_count(cs: Seq<CellReading>, k: nat) -> nat
    decreases k,
{
    if k == 0 { 0 } else { observed_count(cs, (k - 1) as nat) + (if cs[k - 1].windows > 0 { 1nat } else { 0 }) }
}

/// The past moment the profile shows, as columns back, where the history
/// still holds it.
pub open spec fn past(b: BandState) -> Option<nat> {
    match b.scrub {
        Some(k) => if k < b.history@.len() { Some(k as nat) } else { None },
        None => None,
    }
}

/// The first line: the floor (today's, and said to be, at a past moment)
/// and how much of the band is in view.
pub open spec fn floor_line(b: BandState, now_only: bool) -> Seq<char> {
    (if now_only { "floor (now)  "@ } else { "noise floor  "@ })
        + match b.noise { Some(t) => t@, None => "\u{2014}"@ }
        + "   "@ + dec(observed_count(b.cells@, b.cells@.len())) + " of 83 MHz in view"@
}

/// The column of the band a cell is drawn in, at `width`: the first that
/// covers it, or the last.
pub open spec fn mark_col(c: nat, width: nat) -> nat {
    if exists|k: nat| k < cols(width) && covers(k, width, c) {
        choose|x: nat| x < cols(width) && covers(x, width, c) && forall|k: nat| k < x ==> !covers(k, width, c)
    } else if width > 0 {
        (width - 1) as nat
    } else {
        0
    }
}

/// The bars for `cells`, `rows` tall, and the cursor's mark under them.
pub open spec fn bars_text(cells: Seq<Cell>, width: nat, rows: nat, cursor: Option<usize>) -> Seq<Seq<char>> {
    let cs = band_columns(cells, width);
    Seq::new(rows, |r: int| Seq::new(cs.len(), |x: int| column_glyphs(cs[x], rows)[r]))
        + match cursor {
            Some(c) => seq![spaces(mark_col(c as nat, width)) + seq!['\u{25b2}']],
            None => seq![],
        }
}

/// The ruler and the band's edges, unless the panel is bonded over the
/// heatmap, whose seam carries them for both.
pub open spec fn axis_text(width: nat, bonded: bool) -> Seq<Seq<char>> {
    if bonded { seq![] } else { seq![ruler_row(width, 13), edges_text(width)] }
}

/// How long ago a moment `back` columns back was: `0.5 s ago`.
pub open spec fn moment_ago(back: nat) -> Seq<char> {
    dec(back / 2) + seq!['.', if back % 2 == 1 { '5' } else { '0' }] + " s ago"@
}

/// A duty cycle in thousandths as a whole percentage, to the nearest.
pub open spec fn percent(duty: nat) -> nat {
    (duty + 5) / 10
}

/// At a past moment, above its bars: when it was, what the history keeps,
/// and the cursor's cell or the busiest one then, its duty only.
pub open spec fn moment_text(cursor: Option<usize>, back: nat, then: Seq<Cell>, width: nat) -> Seq<Seq<char>> {
    let first = fit_groups_text("moment       "@ + moment_ago(back), seq!["duty only, as the history keeps it"@], width);
    let pick: Option<(Seq<char>, nat)> = match cursor {
        Some(c) => Some(("cursor       "@, c as nat)),
        None => match busiest_of(then, then.len()) {
            Some(i) => Some(("busiest      "@, i)),
            None => None,
        },
    };
    seq![first, match pick {
        None => "busiest      nothing above the floor then"@,
        Some((label, cell)) => {
            let c: Cell = if cell < then.len() { then[cell as int] } else { (0u64, 0u32, 0u32) };
            let said = if observed(c) { dec(percent(c.1 as nat)) + " % busy"@ } else { "not observed then"@ };
            fit_groups_text(label + mhz_text(cell), seq![said], width)
        },
    }]
}

/// When a cell was last measured: `3 s ago`, or a dash.
pub open spec fn ago_or_dash(c: CellReading) -> Seq<char> {
    match c.measured_secs {
        Some(s) => ago_text(s as nat) + " ago"@,
        None => "\u{2014}"@,
    }
}

/// The cursor's readout: where its cell is and, in whole groups while they
/// fit, how busy, its power, how long it was watched, and when; or that
/// nobody looked there.
pub open spec fn cursor_text(cell: nat, c: CellReading, window_ns: nat, width: nat) -> Seq<char> {
    let groups = if c.windows == 0 {
        seq!["not observed: nobody looked here"@]
    } else {
        seq![
            c.busy@,
            c.power@,
            dec(c.windows as nat) + " windows, "@ + span_text((c.windows as nat) * window_ns) + " watched"@,
            ago_or_dash(c),
        ]
    };
    fit_groups_text("cursor       "@ + mhz_text(cell), groups, width)
}

/// The coverage readings of the first `k` cells, in thousandths, and how
/// many there are.
pub open spec fn coverage_sum(cs: Seq<CellReading>, k: nat) -> (nat, nat)
    decreases k,
{
    if k == 0 {
        (0, 0)
    } else {
        let (sum, n) = coverage_sum(cs, (k - 1) as nat);
        match cs[k - 1].coverage_milli {
            Some(v) => (sum + v as nat, n + 1),
            None => (sum, n),
        }
    }
}

/// How much of the time the band was under the receiver, and over how long.
pub open spec fn coverage_text(b: BandState) -> Seq<char> {
    let (sum, n) = coverage_sum(b.cells@, b.cells@.len());
    if n == 0 {
        "coverage     \u{2014} \u{00b7} every cell measured once so far"@
    } else {
        "coverage     "@ + dec((sum + 5 * n) / (10 * n)) + " % of the time, on "@ + dec(n) + " of 83 cells"@
            + match b.watch_ms {
                Some(ms) => ", over "@ + span_text((ms as nat) * 1_000_000),
                None => seq![],
            }
    }
}

/// The headline: the cursor's readout, or the busiest cell named with its
/// reading and power.
pub open spec fn headline_text(b: BandState, width: nat) -> Seq<char> {
    let cs = b.cells@;
    match b.cursor {
        Some(cell) if (cell as nat) < cs.len() => cursor_text(cell as nat, cs[cell as int], b.window_ns as nat, width),
        _ => match busiest_of(live_cells(cs), cs.len()) {
            Some(i) => "busiest      "@ + mhz_text(i) + "  "@ + cs[i as int].busy@ + "   "@ + cs[i as int].power@,
            None => "busiest      nothing above the floor"@,
        },
    }
}

/// What the panel says, `width` wide, the bars `rows` tall.
pub open spec fn occupancy_lines(n: NetState, width: nat, bonded: bool, rows: nat) -> Seq<Seq<char>> {
    let b = n.band;
    if b.cells@.len() == 0 {
        seq![floor_line(b, false)] + match n.survey_refused {
            Some(why) => wrapped("no band measurement: "@ + why@, width, 3)
                + wrapped("widen the sample rate, or press [M] to lock to one channel"@, width, 2),
            None => seq!["waiting for RX"@],
        }
    } else if !b.trusted {
        seq![
            floor_line(b, false),
            seq![],
            "no floor: the samples are not noise plus signal"@,
            b.floor_check@,
            "a saturated front end, or a band busy everywhere"@,
        ]
    } else {
        match past(b) {
            Some(back) => {
                let then = then_cells(b.history@[b.history@.len() - 1 - back]@);
                seq![floor_line(b, true)] + moment_text(b.cursor, back, then, width)
                    + bars_text(then, width, rows, b.cursor) + axis_text(width, bonded)
            },
            None => seq![floor_line(b, false), headline_text(b, width), coverage_text(b)]
                + bars_text(live_cells(b.cells@), width, rows, b.cursor) + axis_text(width, bonded),
        }
    }
}

/// Where the bar rows stand among the panel's lines and the cells they are
/// drawn from, where the panel draws bars: under the floor line and the
/// moment's lines at a past moment, under the floor, headline and coverage
/// lines live.
pub open spec fn bar_rows_at(n: NetState, width: nat, rows: nat) -> Option<(nat, Seq<Cell>)> {
    let b = n.band;
    if b.cells@.len() == 0 || !b.trusted {
        None
    } else {
        match past(b) {
            Some(back) => {
                let then = then_cells(b.history@[b.history@.len() - 1 - back]@);
                Some((1 + moment_text(b.cursor, back, then, width).len(), then))
            },
            None => Some((3, live_cells(b.cells@))),
        }
    }
}

/// The first line.
fn floor_piece_line(b: &BandState, now_only: bool) -> (line: Vec<Piece>)
    ensures
        line_text(line@) == floor_line(*b, now_only),
{
    let mut count: u64 = 0;
    let mut i: usize = 0;
    while i < b.cells.len()
        invariant
            i <= b.cells@.len(),
            count == observed_count(b.cells@, i as nat),
            count <= i,
        decreases b.cells@.len() - i,
    {
        if b.cells[i].windows > 0 {
            count = count + 1;
        }
        i = i + 1;
    }
    let label = owned(if now_only { "floor (now)  " } else { "noise floor  " });
    let value = match &b.noise {
        Some(t) => owned(t.as_str()),
        None => owned("\u{2014}"),
    };
    let mut rest = owned("   ");
    push_dec(&mut rest, count);
    push_str(&mut rest, " of 83 MHz in view");
    let mut line: Vec<Piece> = Vec::new();
    push_piece(&mut line, piece(label, Ink::Label));
    push_piece(&mut line, piece(value, Ink::Value));
    push_piece(&mut line, piece(rest, Ink::Label));
    proof {
        assert(line@.drop_last().drop_last().drop_last() =~= Seq::<Piece>::empty());
        assert(line_text(line@) =~= floor_line(*b, now_only));
    }
    line
}

/// The column the cursor's mark goes under.
fn mark_column(c: usize, width: usize) -> (x: usize)
    requires
        width * CELLS <= usize::MAX,
    ensures
        x == mark_col(c as nat, width as nat),
{
    let x = crate::ui::panels::net::shared::band_axis::column_of(c, width);
    proof {
        let w = width as nat;
        let c = c as nat;
        if exists|k: nat| k < cols(w) && covers(k, w, c) {
            let y = choose|y: nat| y < cols(w) && covers(y, w, c) && forall|k: nat| k < y ==> !covers(k, w, c);
            assert(x < cols(w) && covers(x as nat, w, c) && forall|k: nat| k < x ==> !covers(k, w, c));
            assert(exists|y: nat| y < cols(w) && covers(y, w, c) && forall|k: nat| k < y ==> !covers(k, w, c));
            if y < x {
                assert(!covers(y, w, c));
            } else if x < y {
                assert(!covers(x as nat, w, c));
            }
        }
    }
    x
}

/// The ink a bar glyph is drawn in: the stale ink where nobody looked, the
/// label ink for the baseline and empty rows, otherwise the column's shade
/// on the colour ramp (its peak power live, its duty at a past moment).
pub open spec fn bar_ink(c: Cell, ch: char) -> Ink {
    if c.0 == 0 { Ink::Stale } else if ch == ' ' || ch == FLOOR { Ink::Label } else { Ink::Palette(c.2) }
}

/// The `rows` bar rows for `cells` as drawn, a piece per column.
pub open spec fn bars_styled(cells: Seq<Cell>, width: nat, rows: nat) -> Seq<Seq<(Seq<char>, Ink, bool)>> {
    let cs = band_columns(cells, width);
    Seq::new(rows, |r: int| Seq::new(cs.len(), |x: int| (
        seq![column_glyphs(cs[x], rows)[r]],
        bar_ink(cs[x], column_glyphs(cs[x], rows)[r]),
        false,
    )))
}

/// Appends the bars for `cells`, `rows` tall, and the cursor's mark.
fn push_bars(lines: &mut Vec<Vec<Piece>>, cells: &Vec<Cell>, width: usize, rows: usize, cursor: Option<usize>)
    requires
        width * CELLS <= usize::MAX,
        rows <= 0x10_0000,
    ensures
        lines_text(final(lines)@) == lines_text(old(lines)@) + bars_text(cells@, width as nat, rows as nat, cursor),
        styles(final(lines)@).subrange(0, old(lines)@.len() + rows) == styles(old(lines)@) + bars_styled(cells@, width as nat, rows as nat),
{
    let ghost start = lines_text(lines@);
    let ghost start_st = styles(lines@);
    let cs = columns(cells, width);
    let mut glyphs: Vec<Vec<char>> = Vec::new();
    let mut x: usize = 0;
    while x < cs.len()
        invariant
            x <= cs@.len(),
            rows <= 0x10_0000,
            glyphs@.len() == x,
            forall|j: int| 0 <= j < x ==> #[trigger] glyphs@[j]@ == column_glyphs(cs@[j], rows as nat),
        decreases cs@.len() - x,
    {
        glyphs.push(bar_column(cs[x], rows));
        x = x + 1;
    }
    let ghost want = Seq::new(rows as nat, |r: int| Seq::new(cs@.len(), |x: int| column_glyphs(cs@[x], rows as nat)[r]));
    let mut r: usize = 0;
    while r < rows
        invariant
            r <= rows <= 0x10_0000,
            glyphs@.len() == cs@.len(),
            forall|j: int| 0 <= j < cs@.len() ==> #[trigger] glyphs@[j]@ == column_glyphs(cs@[j], rows as nat),
            want == Seq::new(rows as nat, |r: int| Seq::new(cs@.len(), |x: int| column_glyphs(cs@[x], rows as nat)[r])),
            lines_text(lines@) == start + want.subrange(0, r as int),
            cs@ == band_columns(cells@, width as nat),
            styles(lines@) == start_st + bars_styled(cells@, width as nat, rows as nat).subrange(0, r as int),
        decreases rows - r,
    {
        let mut line: Vec<Piece> = Vec::new();
        let mut x: usize = 0;
        while x < cs.len()
            invariant
                x <= cs@.len(),
                r < rows,
                glyphs@.len() == cs@.len(),
                forall|j: int| 0 <= j < cs@.len() ==> #[trigger] glyphs@[j]@ == column_glyphs(cs@[j], rows as nat),
                line_text(line@) == Seq::new(x as nat, |j: int| column_glyphs(cs@[j], rows as nat)[r as int]),
                styled(line@) == Seq::new(x as nat, |j: int| (
                    seq![column_glyphs(cs@[j], rows as nat)[r as int]],
                    bar_ink(cs@[j], column_glyphs(cs@[j], rows as nat)[r as int]),
                    false,
                )),
            decreases cs@.len() - x,
        {
            proof {
                assert(glyphs@[x as int]@.len() == rows) by {
                    let c = cs@[x as int];
                    if observed(c) {
                        let raw = Seq::new(rows as nat, |i: int| eighth(row_fill(c.1 as nat, rows as nat, (rows - 1 - i) as nat)));
                        assert(raw.len() == rows);
                    }
                }
            }
            let ch = glyphs[x][r];
            let c = cs[x];
            let ink = if c.0 == 0 {
                Ink::Stale
            } else if ch == ' ' || ch == FLOOR {
                Ink::Label
            } else {
                Ink::Palette(c.2)
            };
            let mut t = String::new();
            push_char(&mut t, ch);
            assert(t@ =~= seq![ch]);
            let p = piece(t, ink);
            proof {
                lemma_styled_push(line@, p);
            }
            push_piece(&mut line, p);
            x = x + 1;
            proof {
                assert(line_text(line@) =~= Seq::new(x as nat, |j: int| column_glyphs(cs@[j], rows as nat)[r as int]));
                assert(styled(line@) =~= Seq::new(x as nat, |j: int| (
                    seq![column_glyphs(cs@[j], rows as nat)[r as int]],
                    bar_ink(cs@[j], column_glyphs(cs@[j], rows as nat)[r as int]),
                    false,
                )));
            }
        }
        let ghost before = lines_text(lines@);
        let ghost before_st = styles(lines@);
        let ghost lt = line_text(line@);
        let ghost ls = styled(line@);
        lines.push(line);
        r = r + 1;
        proof {
            assert(lines_text(lines@) =~= before.push(lt));
            assert(want.subrange(0, r as int) =~= want.subrange(0, r - 1).push(want[r - 1]));
            let bs = bars_styled(cells@, width as nat, rows as nat);
            assert(ls =~= bs[r - 1]);
            assert(styles(lines@) =~= before_st.push(ls));
            assert(bs.subrange(0, r as int) =~= bs.subrange(0, r - 1).push(bs[r - 1]));
        }
    }
    let ghost after_rows = styles(lines@);
    proof {
        assert(bars_styled(cells@, width as nat, rows as nat).subrange(0, rows as int) =~= bars_styled(cells@, width as nat, rows as nat));
    }
    proof {
        assert(want.subrange(0, rows as int) =~= want);
    }
    match cursor {
        Some(c) => {
            let x = mark_column(c, width);
            let mut t = String::new();
            push_spaces(&mut t, x);
            push_char(&mut t, '\u{25b2}');
            assert(t@ =~= spaces(x as nat) + seq!['\u{25b2}']);
            let ghost before = lines_text(lines@);
            lines.push(one(piece(t, Ink::ValueHi)));
            proof {
                assert(lines_text(lines@) =~= before.push(spaces(x as nat) + seq!['\u{25b2}']));
            }
        },
        None => {},
    }
    proof {
        assert(lines_text(lines@) =~= start + bars_text(cells@, width as nat, rows as nat, cursor));
        assert(styles(lines@).subrange(0, start_st.len() + rows) =~= after_rows);
    }
}

/// The texts of some strings.
pub open spec fn texts(v: Seq<String>) -> Seq<Seq<char>> {
    Seq::new(v.len(), |i: int| v[i]@)
}

/// A moment `back` columns ago.
fn push_moment_ago(s: &mut String, back: usize)
    ensures
        final(s)@ == old(s)@ + moment_ago(back as nat),
{
    let ghost start = s@;
    push_dec(s, (back / 2) as u64);
    push_char(s, '.');
    push_char(s, if back % 2 == 1 { '5' } else { '0' });
    push_str(s, " s ago");
    assert(s@ =~= start + moment_ago(back as nat));
}

/// Appends what the profile says at a past moment, above its bars.
fn push_moment(lines: &mut Vec<Vec<Piece>>, cursor: Option<usize>, back: usize, then: &Vec<Cell>, width: usize)
    ensures
        lines_text(final(lines)@) == lines_text(old(lines)@) + moment_text(cursor, back as nat, then@, width as nat),
{
    let ghost start = lines_text(lines@);
    let mut head = owned("moment       ");
    push_moment_ago(&mut head, back);
    let groups = vec![owned("duty only, as the history keeps it")];
    assert(texts(groups@) =~= seq!["duty only, as the history keeps it"@]);
    let first = fit_groups(head.as_str(), &groups, width);
    assert(first@ == moment_text(cursor, back as nat, then@, width as nat)[0]);
    lines.push(one(piece(first, Ink::Label)));
    let ghost mid = lines_text(lines@);
    let pick: Option<(&str, usize)> = match cursor {
        Some(c) => Some(("cursor       ", c)),
        None => match busiest(then) {
            Some(i) => Some(("busiest      ", i)),
            None => None,
        },
    };
    let second = match pick {
        None => owned("busiest      nothing above the floor then"),
        Some((label, cell)) => {
            let c: Cell = if cell < then.len() { then[cell] } else { (0u64, 0u32, 0u32) };
            let mut said = String::new();
            if c.0 > 0 {
                push_dec(&mut said, ((c.1 as u64) + 5) / 10);
                push_str(&mut said, " % busy");
            } else {
                push_str(&mut said, "not observed then");
            }
            let mut head = owned(label);
            push_mhz(&mut head, cell);
            let ghost said_text = said@;
            let groups = vec![said];
            assert(texts(groups@) =~= seq![said_text]);
            fit_groups(head.as_str(), &groups, width)
        },
    };
    assert(second@ == moment_text(cursor, back as nat, then@, width as nat)[1]);
    lines.push(one(piece(second, Ink::Label)));
    proof {
        assert(lines_text(lines@) =~= start + moment_text(cursor, back as nat, then@, width as nat));
    }
}

/// The cursor's readout.
fn cursor_readout(cell: usize, c: &CellReading, window_ns: u64, width: usize) -> (s: String)
    ensures
        s@ == cursor_text(cell as nat, *c, window_ns as nat, width as nat),
{
    let mut head = owned("cursor       ");
    push_mhz(&mut head, cell);
    let mut groups: Vec<String> = Vec::new();
    if c.windows == 0 {
        groups.push(owned("not observed: nobody looked here"));
    } else {
        groups.push(owned(c.busy.as_str()));
        groups.push(owned(c.power.as_str()));
        let mut w = String::new();
        push_dec(&mut w, c.windows);
        push_str(&mut w, " windows, ");
        assert((c.windows as u128) * (window_ns as u128) <= u64::MAX as u128 * u64::MAX as u128) by (nonlinear_arith);
        push_span(&mut w, (c.windows as u128) * (window_ns as u128));
        push_str(&mut w, " watched");
        groups.push(w);
        let ago_text = match c.measured_secs {
            Some(secs) => {
                let mut a = ago(secs);
                push_str(&mut a, " ago");
                a
            },
            None => owned("\u{2014}"),
        };
        groups.push(ago_text);
    }
    proof {
        let want = if c.windows == 0 {
            seq!["not observed: nobody looked here"@]
        } else {
            seq![
                c.busy@,
                c.power@,
                dec(c.windows as nat) + " windows, "@ + span_text((c.windows as nat) * (window_ns as nat)) + " watched"@,
                ago_or_dash(*c),
            ]
        };
        assert(texts(groups@) =~= want);
    }
    fit_groups(head.as_str(), &groups, width)
}

/// The headline.
fn headline(b: &BandState, width: usize) -> (s: String)
    ensures
        s@ == headline_text(*b, width as nat),
{
    let cs = &b.cells;
    match b.cursor {
        Some(cell) => {
            if cell < cs.len() {
                return cursor_readout(cell, &cs[cell], b.window_ns, width);
            }
        },
        None => {},
    }
    let mut live: Vec<Cell> = Vec::new();
    let mut i: usize = 0;
    while i < cs.len()
        invariant
            i <= cs@.len(),
            live@ == live_cells(cs@).subrange(0, i as int),
        decreases cs@.len() - i,
    {
        live.push((cs[i].windows, cs[i].duty_milli, cs[i].level_milli));
        i = i + 1;
        assert(live@ =~= live_cells(cs@).subrange(0, i as int));
    }
    assert(live@ =~= live_cells(cs@));
    match busiest(&live) {
        Some(i) => {
            let mut s = owned("busiest      ");
            push_mhz(&mut s, i);
            push_str(&mut s, "  ");
            push_str(&mut s, cs[i].busy.as_str());
            push_str(&mut s, "   ");
            push_str(&mut s, cs[i].power.as_str());
            s
        },
        None => owned("busiest      nothing above the floor"),
    }
}

/// The coverage line.
fn coverage(b: &BandState) -> (s: String)
    ensures
        s@ == coverage_text(*b),
{
    let cs = &b.cells;
    let mut sum: u128 = 0;
    let mut n: u64 = 0;
    let mut i: usize = 0;
    while i < cs.len()
        invariant
            i <= cs@.len(),
            (sum as nat, n as nat) == coverage_sum(cs@, i as nat),
            n <= i,
            sum <= (i as nat) * 0xFFFF_FFFF,
        decreases cs@.len() - i,
    {
        match cs[i].coverage_milli {
            Some(v) => {
                sum = sum + v as u128;
                n = n + 1;
            },
            None => {},
        }
        i = i + 1;
    }
    if n == 0 {
        return owned("coverage     \u{2014} \u{00b7} every cell measured once so far");
    }
    let mut s = owned("coverage     ");
    assert(sum <= 0x1_0000_0000_0000_0000_0000_0000) by (nonlinear_arith)
        requires sum <= (i as nat) * 0xFFFF_FFFF, i <= 0xFFFF_FFFF_FFFF_FFFF;
    push_dec_wide(&mut s, (sum + 5 * (n as u128)) / (10 * (n as u128)));
    push_str(&mut s, " % of the time, on ");
    push_dec(&mut s, n);
    push_str(&mut s, " of 83 cells");
    match b.watch_ms {
        Some(ms) => {
            push_str(&mut s, ", over ");
            assert((ms as u128) * 1_000_000 <= u64::MAX as u128 * u64::MAX as u128) by (nonlinear_arith);
            push_span(&mut s, (ms as u128) * 1_000_000);
        },
        None => {},
    }
    s
}

/// The oldest reading on screen, in seconds ago, among the first `k`
/// cells; none before any cell has been measured.
pub open spec fn oldest_of(cs: Seq<CellReading>, k: nat) -> Option<nat>
    decreases k,
{
    if k == 0 {
        None
    } else {
        let before = oldest_of(cs, (k - 1) as nat);
        match cs[k - 1].measured_secs {
            Some(s) => match before {
                Some(o) => if s > o { Some(s as nat) } else { Some(o) },
                None => Some(s as nat),
            },
            None => before,
        }
    }
}

/// Whether the feed lost blocks within what the bars span: back to the
/// oldest reading on screen.
pub open spec fn loss_in_view(n: NetState) -> bool {
    match (n.health.last_loss_secs, oldest_of(n.band.cells@, n.band.cells@.len())) {
        (Some(l), Some(o)) => l <= o,
        _ => false,
    }
}

/// The tags: `STALE` while no samples flow, a feed loss within what the
/// bars span, and the mode.
pub open spec fn occupancy_tags(state: SdrMetrics) -> Seq<Seq<char>> {
    (if state.streaming { seq![] } else { seq!["STALE"@] })
        + (if loss_in_view(state.net) { seq!["FEED LOSS"@] } else { seq![] })
        + seq![mode_tag(state.net.mode)]
}

impl Panel for NetOccupancyPanel {
    fn name(&self) -> (n: &'static str)
        ensures
            n@ == "net_occupancy"@,
    {
        "net_occupancy"
    }

    fn min_size(&self) -> (r: (u16, u16))
        ensures
            r == (40u16, 8u16),
    {
        (40, 8)
    }
}

/// Appends what the panel says with no measurement: why, and what to do
/// about it, where the survey cannot run; that it waits, where it can.
fn push_unmeasured(lines: &mut Vec<Vec<Piece>>, n: &NetState, width: usize)
    ensures
        lines_text(final(lines)@) == lines_text(old(lines)@) + match n.survey_refused {
            Some(why) => wrapped("no band measurement: "@ + why@, width as nat, 3)
                + wrapped("widen the sample rate, or press [M] to lock to one channel"@, width as nat, 2),
            None => seq!["waiting for RX"@],
        },
{
    match &n.survey_refused {
        Some(why) => {
            let mut t = owned("no band measurement: ");
            push_str(&mut t, why.as_str());
            push_wrapped(lines, t.as_str(), width, 3, Ink::Stale);
            push_wrapped(lines, "widen the sample rate, or press [M] to lock to one channel", width, 2, Ink::Label);
        },
        None => push_text(lines, "waiting for RX", Ink::Label),
    }
}

/// Appends the ruler and the band's edges unless bonded.
fn push_axis(lines: &mut Vec<Vec<Piece>>, width: usize, bonded: bool)
    requires
        width * CELLS <= usize::MAX,
    ensures
        lines_text(final(lines)@) == lines_text(old(lines)@) + axis_text(width as nat, bonded),
        final(lines)@.subrange(0, old(lines)@.len() as int) == old(lines)@,
{
    let ghost before = lines@;
    let ghost start = lines_text(lines@);
    if !bonded {
        lines.push(one(piece(ruler(width), Ink::Label)));
        lines.push(one(piece(edges(width), Ink::Label)));
    }
    assert(lines_text(lines@) =~= start + axis_text(width as nat, bonded));
    assert(lines@.subrange(0, before.len() as int) =~= before);
}

impl NetOccupancyPanel {
    /// The key that focuses the panel.
    pub fn focus_key(&self) -> (k: Option<char>)
        ensures
            k == Some('j'),
    {
        Some('j')
    }

    /// What the keys do while the panel has the focus.
    pub fn focus_bindings(&self) -> (b: Vec<(&'static str, &'static str)>)
        ensures
            b@.len() == 2,
            b@[0].0@ == "\u{2190}\u{2192}"@ && b@[0].1@ == "move the cursor 1 MHz"@,
            b@[1].0@ == "B"@ && b@[1].1@ == "cursor to the busiest cell"@,
    {
        let mut b = Vec::new();
        b.push(("\u{2190}\u{2192}", "move the cursor 1 MHz"));
        b.push(("B", "cursor to the busiest cell"));
        b
    }

    /// `Band Occupancy`, with its tags.
    pub fn chrome(&self, state: &SdrMetrics) -> (c: PanelChrome)
        ensures
            c.title@ == "Band Occupancy"@,
            strings(c.tags@) == occupancy_tags(*state),
    {
        let cs = &state.net.band.cells;
        let mut oldest: Option<u64> = None;
        let mut i: usize = 0;
        while i < cs.len()
            invariant
                i <= cs@.len(),
                match oldest {
                    Some(o) => oldest_of(cs@, i as nat) == Some(o as nat),
                    None => oldest_of(cs@, i as nat) is None,
                },
            decreases cs@.len() - i,
        {
            match cs[i].measured_secs {
                Some(s) => {
                    oldest = match oldest {
                        Some(o) => if s > o { Some(s) } else { Some(o) },
                        None => Some(s),
                    };
                },
                None => {},
            }
            i = i + 1;
        }
        let loss = match (state.net.health.last_loss_secs, oldest) {
            (Some(l), Some(o)) => l <= o,
            _ => false,
        };
        let c = PanelChrome::new("Band Occupancy");
        let c = c.tag_if(!state.streaming, owned("STALE"));
        let c = c.tag_if(loss, owned("FEED LOSS"));
        let c = c.tag_if(true, state.net.mode.tag());
        assert(strings(c.tags@) =~= occupancy_tags(*state));
        c
    }

    /// The panel's lines, `width` wide, the bars `rows` tall; bonded over
    /// the coexistence heatmap, without the ruler and the edges, which the
    /// seam carries for both.
    #[verifier::rlimit(60)]
    pub fn lines(&self, state: &SdrMetrics, width: usize, bonded: bool, rows: usize) -> (lines: Vec<Vec<Piece>>)
        requires
            width * CELLS <= usize::MAX,
            rows <= 0x10_0000,
        ensures
            lines_text(lines@) == occupancy_lines(state.net, width as nat, bonded, rows as nat),
            match bar_rows_at(state.net, width as nat, rows as nat) {
                Some((at, cells)) => styles(lines@).subrange(at as int, at + rows) == bars_styled(cells, width as nat, rows as nat),
                None => true,
            },
    {
        let n = &state.net;
        let b = &n.band;
        let mut lines = nothing_lines();
        if b.cells.len() == 0 {
            lines.push(floor_piece_line(b, false));
            push_unmeasured(&mut lines, n, width);
            assert(lines_text(lines@) =~= occupancy_lines(state.net, width as nat, bonded, rows as nat));
            return lines;
        }
        if !b.trusted {
            lines.push(floor_piece_line(b, false));
            lines.push(Vec::new());
            push_text(&mut lines, "no floor: the samples are not noise plus signal", Ink::Stale);
            push_text(&mut lines, b.floor_check.as_str(), Ink::Label);
            push_text(&mut lines, "a saturated front end, or a band busy everywhere", Ink::Label);
            proof {
                assert(line_text(Seq::<Piece>::empty()) =~= Seq::<char>::empty());
                assert(lines_text(lines@) =~= occupancy_lines(state.net, width as nat, bonded, rows as nat));
            }
            return lines;
        }
        let back = match b.scrub {
            Some(k) => if k < b.history.len() { Some(k) } else { None },
            None => None,
        };
        match back {
            Some(k) => {
                let col = &b.history[b.history.len() - 1 - k];
                let mut then: Vec<Cell> = Vec::new();
                let mut i: usize = 0;
                while i < col.len()
                    invariant
                        i <= col@.len(),
                        then@ == then_cells(col@).subrange(0, i as int),
                    decreases col@.len() - i,
                {
                    let v = col[i];
                    then.push(if v >= 0 { (1u64, v as u32, if v > 1000 { 1000u32 } else { v as u32 }) } else { (0u64, 0u32, 0u32) });
                    i = i + 1;
                    assert(then@ =~= then_cells(col@).subrange(0, i as int));
                }
                assert(then@ =~= then_cells(col@));
                lines.push(floor_piece_line(b, true));
                push_moment(&mut lines, b.cursor, k, &then, width);
                let ghost at = lines@.len();
                proof {
                    assert(lines_text(lines@).len() == lines@.len());
                }
                push_bars(&mut lines, &then, width, rows, b.cursor);
                let ghost mid = lines@;
                push_axis(&mut lines, width, bonded);
                proof {
                    assert(lines_text(mid).len() == mid.len());
                    assert(lines_text(lines@).len() == lines@.len());
                    assert(mid.len() >= at + rows);
                    assert(lines@.subrange(0, mid.len() as int) == mid);
                    assert forall|i: int| at <= i < at + rows implies lines@[i] == mid[i] by {
                        assert(lines@.subrange(0, mid.len() as int)[i] == lines@[i]);
                    }
                    assert(styles(lines@).subrange(at as int, at + rows) =~= styles(mid).subrange(at as int, at + rows));
                    assert(at == 1 + moment_text(b.cursor, k as nat, then@, width as nat).len());
                    let bs = bars_styled(then@, width as nat, rows as nat);
                    let head = styles(mid).subrange(0, at + rows);
                    assert(head.subrange(at as int, at + rows) =~= bs);
                    assert(styles(mid).subrange(at as int, at + rows) =~= head.subrange(at as int, at + rows));
                    assert(styles(lines@).subrange(at as int, at + rows) == bs);
                }
            },
            None => {
                lines.push(floor_piece_line(b, false));
                lines.push(one(piece(headline(b, width), Ink::Value)));
                lines.push(one(piece(coverage(b), Ink::Label)));
                let mut live: Vec<Cell> = Vec::new();
                let mut i: usize = 0;
                while i < b.cells.len()
                    invariant
                        i <= b.cells@.len(),
                        live@ == live_cells(b.cells@).subrange(0, i as int),
                    decreases b.cells@.len() - i,
                {
                    live.push((b.cells[i].windows, b.cells[i].duty_milli, b.cells[i].level_milli));
                    i = i + 1;
                    assert(live@ =~= live_cells(b.cells@).subrange(0, i as int));
                }
                assert(live@ =~= live_cells(b.cells@));
                let ghost at = lines@.len();
                proof {
                    assert(lines_text(lines@).len() == lines@.len());
                }
                push_bars(&mut lines, &live, width, rows, b.cursor);
                let ghost mid = lines@;
                push_axis(&mut lines, width, bonded);
                proof {
                    assert(lines_text(mid).len() == mid.len());
                    assert(lines_text(lines@).len() == lines@.len());
                    assert(mid.len() >= at + rows);
                    assert(lines@.subrange(0, mid.len() as int) == mid);
                    assert forall|i: int| at <= i < at + rows implies lines@[i] == mid[i] by {
                        assert(lines@.subrange(0, mid.len() as int)[i] == lines@[i]);
                    }
                    assert(styles(lines@).subrange(at as int, at + rows) =~= styles(mid).subrange(at as int, at + rows));
                    assert(at == 3);
                    let bs = bars_styled(live_cells(b.cells@), width as nat, rows as nat);
                    let head = styles(mid).subrange(0, at + rows);
                    assert(head.subrange(at as int, at + rows) =~= bs);
                    assert(styles(mid).subrange(at as int, at + rows) =~= head.subrange(at as int, at + rows));
                    assert(styles(lines@).subrange(at as int, at + rows) == bs);
                }
            },
        }
        assert(lines_text(lines@) =~= occupancy_lines(state.net, width as nat, bonded, rows as nat));
        lines
    }

    /// The panel bonded over the heatmap, `width` by `height` inside its
    /// frame: the bars grow into the height the bond gives, standing on the
    /// seam.
    pub fn bonded(&self, state: &SdrMetrics, width: usize, height: usize) -> (lines: Vec<Vec<Piece>>)
        requires
            width * CELLS <= usize::MAX,
            height <= 0xFFFF,
        ensures
            lines_text(lines@) == occupancy_lines(state.net, width as nat, true, ROWS as nat + (if height >= occupancy_lines(state.net, width as nat, true, ROWS as nat).len() {
                (height - occupancy_lines(state.net, width as nat, true, ROWS as nat).len()) as nat
            } else {
                0
            })),
    {
        let first = self.lines(state, width, true, ROWS);
        let spare = if height >= first.len() { height - first.len() } else { 0 };
        proof {
            assert(lines_text(first@).len() == first@.len());
        }
        self.lines(state, width, true, ROWS + spare)
    }

    /// The panel in its frame, `width` by `height`: the rows a terminal shows.
    pub fn draw(&self, state: &SdrMetrics, width: usize, height: usize) -> (rows: Vec<String>)
        requires
            width * CELLS <= usize::MAX,
        ensures
            strings(rows@) == framed(
                bar_text("Band Occupancy"@, occupancy_tags(*state)),
                if width >= 3 && height >= 3 {
                    occupancy_lines(state.net, (width - 2) as nat, false, ROWS as nat)
                } else {
                    seq![]
                },
                width as nat,
                height as nat,
            ),
    {
        let c = self.chrome(state);
        let lines = if width >= 3 && height >= 3 {
            self.lines(state, width - 2, false, ROWS)
        } else {
            nothing_lines()
        };
        draw(&c, &lines, width, height)
    }
}

/// No lines.
fn nothing_lines() -> (l: Vec<Vec<Piece>>)
    ensures
        l@.len() == 0,
        lines_text(l@) == Seq::<Seq<char>>::empty(),
{
    let l: Vec<Vec<Piece>> = Vec::new();
    assert(lines_text(l@) =~= Seq::<Seq<char>>::empty());
    l
}

} // verus!
