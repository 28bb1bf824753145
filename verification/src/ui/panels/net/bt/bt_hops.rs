//! `NetBtHopsPanel`: classic Bluetooth access-code hits, where and when.
//!
//! **Two questions, two zones.** WHERE: all 79 channels, bars of the
//! session's hits on each, so a piconet heard anywhere in a survey keeps its
//! place, with the channels watched now underlined. WHEN: one lane per
//! piconet in the roster's order, each hit a tick at its time in the window,
//! like a logic analyser's traces; a few hits a minute read as a few ticks.
//!
//! **What is on screen is capped, and says so.** The list of hits is capped,
//! so a window reaching back before the oldest kept hit says "older hits not
//! kept" rather than drawing quiet lanes; piconets beyond the lanes are
//! counted rather than dropped.
use vstd::prelude::*;
use std::ops::Range;
use crate::piconet::{is_roster_order, lap_name, lap_name_text, roster_order};
use crate::state::{mode_tag, BtHop, NetState, Piconet, SdrMetrics, BT_CHANNELS, BT_HOP_LIMIT};
use crate::text::{dec, pad_left, push_char, push_dec, push_pad_left, push_spaces, spaces};
use crate::ui::chrome::{blank, gutter_text, lemma_styled_push, line_text, piece, push_piece, selection_gutter, styled, Ink, Piece};
use crate::ui::chrome::{section, section_text};
use crate::ui::frame::{bar_text, draw, framed, lines_text, strings, styles, take, PanelChrome};
use crate::ui::panels::net::{nothing, one, plain_line, push_text, push_wrapped, truncated, wrapped_styled};
use crate::ui::registry::Panel;
use crate::rounding::{scaled_round, scaled_round_u64};
use crate::ui::widgets::timing_fmt::{push_seconds_ms, seconds_text};
use crate::ui::wrap::wrapped;
use crate::text::{char_count, owned, push_str};
use crate::ui::panels::net::shared::band_axis::{chars_to_string, label_chars};

verus! {

pub struct NetBtHopsPanel;

/// The bars' left gutter: the count scale.
pub const SCALE: usize = 4;
/// A lane's left part: gutter, chip, space, LAP, space.
pub const LANE_LEAD: usize = 12;
/// A lane's right part: its hits in the window.
pub const LANE_TAIL: usize = 6;
/// The tallest the bars grow; the rows they leave go to the lanes.
pub const MAX_BAR_ROWS: usize = 8;

/// The columns the bars are drawn in: one to 79.
pub open spec fn bar_cols(cols: nat) -> nat {
    if cols < 1 { 1 } else if cols > 79 { 79 } else { cols }
}

/// The first channel bar column `c` of `cols` covers.
pub open spec fn ch_lo(c: nat, cols: nat) -> nat {
    c * 79 / bar_cols(cols)
}

/// One past the last channel bar column `c` of `cols` covers.
pub open spec fn ch_hi(c: nat, cols: nat) -> nat {
    (c + 1) * 79 / bar_cols(cols)
}

/// The channels bar column `c` of `cols` covers: one each where 79 fit,
/// otherwise ranges in proportion, so the bars fill the width and no
/// channel is dropped.
pub fn channels_of(c: usize, cols: usize) -> (r: Range<usize>)
    requires
        (c + 1) * 79 <= usize::MAX,
    ensures
        r.start == ch_lo(c as nat, cols as nat),
        r.end == ch_hi(c as nat, cols as nat),
{
    let k = if cols < 1 { 1 } else if cols > BT_CHANNELS { BT_CHANNELS } else { cols };
    assert(c * 79 <= (c + 1) * 79);
    (c * BT_CHANNELS / k)..((c + 1) * BT_CHANNELS / k)
}

/// The column channel `ch` falls in; the last column for a channel past the
/// band.
pub open spec fn chan_col(ch: nat, cols: nat) -> nat {
    let k = bar_cols(cols);
    if ch < 79 { (((ch + 1) * k - 1) as nat) / 79 } else { (k - 1) as nat }
}

/// **Every channel is in exactly one column**, and that column is the one
/// `chan_col` names.
pub proof fn lemma_channel_in_one_column(ch: nat, cols: nat)
    requires
        ch < 79,
    ensures
        chan_col(ch, cols) < bar_cols(cols),
        ch_lo(chan_col(ch, cols), cols) <= ch < ch_hi(chan_col(ch, cols), cols),
        forall|c: nat| c < bar_cols(cols) && #[trigger] ch_lo(c, cols) <= ch < ch_hi(c, cols) ==> c == chan_col(ch, cols),
{
    let k = bar_cols(cols);
    let x = chan_col(ch, cols);
    assert(1 <= k <= 79);
    assert((ch + 1) * k >= 1) by (nonlinear_arith)
        requires 1 <= k;
    assert(x == ((ch + 1) * k - 1) / 79);
    assert(79 * x <= (ch + 1) * k - 1 < 79 * x + 79) by (nonlinear_arith)
        requires x == ((ch + 1) * k - 1) / 79, ch < 79, 1 <= k;
    assert(x < k) by (nonlinear_arith)
        requires 79 * x <= (ch + 1) * k - 1, ch < 79, 1 <= k;
    assert(x * 79 / k <= ch) by (nonlinear_arith)
        requires 79 * x <= (ch + 1) * k - 1, 1 <= k;
    assert(ch < (x + 1) * 79 / k) by (nonlinear_arith)
        requires (ch + 1) * k - 1 < 79 * x + 79, 1 <= k;
    assert forall|c: nat| c < k && #[trigger] ch_lo(c, cols) <= ch < ch_hi(c, cols) implies c == x by {
        assert(c * 79 / k <= ch);
        assert(ch < (c + 1) * 79 / k);
        assert(c <= x) by (nonlinear_arith)
            requires c * 79 / k <= ch, x == ((ch + 1) * k - 1) / 79, 1 <= k, ch < 79;
        assert(x <= c) by (nonlinear_arith)
            requires ch < (c + 1) * 79 / k, x == ((ch + 1) * k - 1) / 79, 1 <= k;
    }
}

/// **Every column covers at least one channel and at most one more than
/// its share**, so a panel a few columns short of 79 keeps its width.
pub proof fn lemma_column_share(c: nat, cols: nat)
    requires
        c < bar_cols(cols),
    ensures
        ch_lo(c, cols) < ch_hi(c, cols) <= 79,
        ch_hi(c, cols) - ch_lo(c, cols) <= 79nat / bar_cols(cols) + 1,
{
    let k = bar_cols(cols);
    assert(c * 79 / k < (c + 1) * 79 / k) by (nonlinear_arith)
        requires c < k, k <= 79, 1 <= k;
    assert((c + 1) * 79 / k <= 79) by (nonlinear_arith)
        requires c < k, 1 <= k;
    assert((c + 1) * 79 / k - c * 79 / k <= 79nat / k + 1) by (nonlinear_arith)
        requires 1 <= k;
}

/// The column channel `ch` falls in.
pub fn column_of(ch: usize, cols: usize) -> (x: usize)
    ensures
        x == chan_col(ch as nat, cols as nat),
        x < bar_cols(cols as nat),
{
    let k = if cols < 1 { 1 } else if cols > BT_CHANNELS { BT_CHANNELS } else { cols };
    if ch < BT_CHANNELS {
        proof {
            lemma_channel_in_one_column(ch as nat, cols as nat);
        }
        assert(1 <= (ch + 1) * k <= 80 * 79) by (nonlinear_arith)
            requires ch < 79, 1 <= k <= 79;
        ((ch + 1) * k - 1) / BT_CHANNELS
    } else {
        k - 1
    }
}

/// The channels the axis labels: every tenth, and 78 at the end.
pub open spec fn axis_label(i: nat) -> nat {
    if i < 8 { 10 * i } else { 78 }
}

/// The axis after its first `n` labels: each at its channel's column, moved
/// left to fit, and left out where it would touch the label before it.
pub open spec fn axis_fold(cols: nat, n: nat) -> (Seq<char>, nat)
    decreases n,
{
    if n == 0 {
        (spaces(cols), 0)
    } else {
        let (row, free) = axis_fold(cols, (n - 1) as nat);
        let ch = axis_label((n - 1) as nat);
        let text = dec(ch);
        let room: nat = if cols >= text.len() { (cols - text.len()) as nat } else { 0 };
        let col = chan_col(ch, cols);
        let at: nat = if col < room { col } else { room };
        if at < free || at + text.len() > cols {
            (row, free)
        } else {
            (row.subrange(0, at as int) + text + row.subrange((at + text.len()) as int, cols as int),
                at + text.len() + 1)
        }
    }
}

/// The channel axis under the bars.
pub open spec fn axis_text(cols: nat) -> Seq<char> {
    axis_fold(cols, 9).0
}

/// The axis row is always as wide as the bars.
proof fn lemma_axis_len(cols: nat, n: nat)
    ensures
        axis_fold(cols, n).0.len() == cols,
    decreases n,
{
    if n > 0 {
        lemma_axis_len(cols, (n - 1) as nat);
    }
}

/// Writes `text` into `row` at `at`.
fn write_chars(row: &mut Vec<char>, at: usize, text: &Vec<char>)
    requires
        at + text@.len() <= old(row)@.len(),
    ensures
        final(row)@ == old(row)@.subrange(0, at as int) + text@
            + old(row)@.subrange(at + text@.len(), old(row)@.len() as int),
{
    let ghost before = row@;
    let n = text.len();
    let len = row.len();
    let mut j: usize = 0;
    while j < n
        invariant
            j <= n,
            len == before.len(),
            n == text@.len(),
            at + n <= before.len(),
            row@.len() == before.len(),
            row@ == before.subrange(0, at as int) + text@.subrange(0, j as int)
                + before.subrange(at + j, before.len() as int),
        decreases n - j,
    {
        row.set(at + j, text[j]);
        j = j + 1;
        proof {
            assert(row@ =~= before.subrange(0, at as int) + text@.subrange(0, j as int)
                + before.subrange(at + j, before.len() as int));
        }
    }
    proof {
        assert(text@.subrange(0, n as int) =~= text@);
    }
}

/// The channel axis under the bars: every tenth channel labelled where the
/// label fits without touching the one before, and 78 at the end.
pub fn channel_axis(cols: usize) -> (s: String)
    ensures
        s@ == axis_text(cols as nat),
{
    let mut axis: Vec<char> = Vec::new();
    let mut k: usize = 0;
    while k < cols
        invariant
            k <= cols,
            axis@ == spaces(k as nat),
        decreases cols - k,
    {
        axis.push(' ');
        k = k + 1;
        assert(axis@ =~= spaces(k as nat));
    }
    let mut free: usize = 0;
    let mut i: usize = 0;
    while i < 9
        invariant
            i <= 9,
            (axis@, free as nat) == axis_fold(cols as nat, i as nat),
            axis@.len() == cols,
            free <= cols + 1,
        decreases 9 - i,
    {
        let ch: u8 = if i < 8 { (10 * i) as u8 } else { 78 };
        let text = label_chars(ch);
        let n = text.len();
        let room = if cols >= n { cols - n } else { 0 };
        let col = column_of(ch as usize, cols);
        let at = if col < room { col } else { room };
        if !(at < free || at + n > cols) {
            write_chars(&mut axis, at, &text);
            free = at + n + 1;
        }
        i = i + 1;
        proof {
            lemma_axis_len(cols as nat, i as nat);
        }
    }
    chars_to_string(&axis)
}

/// A vertical eighth block, empty to full.
pub open spec fn eighth(f: nat) -> char {
    if f == 0 { ' ' }
    else if f == 1 { '\u{2581}' }
    else if f == 2 { '\u{2582}' }
    else if f == 3 { '\u{2583}' }
    else if f == 4 { '\u{2584}' }
    else if f == 5 { '\u{2585}' }
    else if f == 6 { '\u{2586}' }
    else if f == 7 { '\u{2587}' }
    else { '\u{2588}' }
}

pub(crate) fn eighth_char(f: u64) -> (c: char)
    ensures
        c == eighth(f as nat),
{
    if f == 0 { ' ' }
    else if f == 1 { '\u{2581}' }
    else if f == 2 { '\u{2582}' }
    else if f == 3 { '\u{2583}' }
    else if f == 4 { '\u{2584}' }
    else if f == 5 { '\u{2585}' }
    else if f == 6 { '\u{2586}' }
    else if f == 7 { '\u{2587}' }
    else { '\u{2588}' }
}

/// A piconet's hits on channels `lo` up to `hi`.
pub open spec fn hits_in(pc: Seq<u32>, lo: int, hi: int) -> nat
    decreases hi - lo,
{
    if hi <= lo { 0 } else { hits_in(pc, lo, hi - 1) + pc[hi - 1] as nat }
}

/// The first `n` piconets' hits on channels `lo` up to `hi`.
pub open spec fn col_total(ps: Seq<Piconet>, n: int, lo: int, hi: int) -> nat
    decreases n,
{
    if n <= 0 { 0 } else { col_total(ps, n - 1, lo, hi) + hits_in(ps[n - 1].per_channel@, lo, hi) }
}

/// The hits of the first `n` piconets on `lap` on channels `lo` up to `hi`.
pub open spec fn col_mine(ps: Seq<Piconet>, n: int, lap: u32, lo: int, hi: int) -> nat
    decreases n,
{
    if n <= 0 {
        0
    } else {
        col_mine(ps, n - 1, lap, lo, hi) + (if ps[n - 1].lap == lap { hits_in(ps[n - 1].per_channel@, lo, hi) } else { 0 })
    }
}

/// Every piconet's hits in bar column `c`.
pub open spec fn column_hits(ps: Seq<Piconet>, cols: nat, c: nat) -> nat {
    col_total(ps, ps.len() as int, ch_lo(c, cols) as int, ch_hi(c, cols) as int)
}

/// The selected piconet's hits in bar column `c`; none when none is.
pub open spec fn column_mine(ps: Seq<Piconet>, sel: Option<u32>, cols: nat, c: nat) -> nat {
    match sel {
        Some(lap) => col_mine(ps, ps.len() as int, lap, ch_lo(c, cols) as int, ch_hi(c, cols) as int),
        None => 0,
    }
}

/// The most hits in any of the first `n` bar columns.
pub open spec fn busiest(ps: Seq<Piconet>, cols: nat, n: nat) -> nat
    decreases n,
{
    if n == 0 {
        0
    } else {
        let m = busiest(ps, cols, (n - 1) as nat);
        let t = column_hits(ps, cols, (n - 1) as nat);
        if t > m { t } else { m }
    }
}

/// What the tallest bar stands for: the busiest column's hits, at least one.
pub open spec fn peak(ps: Seq<Piconet>, cols: nat) -> nat {
    let b = busiest(ps, cols, bar_cols(cols));
    if b > 1 { b } else { 1 }
}

/// A count as eighths of `rows` rows, the peak filling all of them, to the
/// nearest eighth as a double figures it (see `scaled_round`).
pub open spec fn eighths(n: nat, peak: nat, rows: nat) -> nat {
    scaled_round(n, peak, rows, 8)
}

/// The eighths a count fills in the row whose floor is `base` eighths up.
pub open spec fn fill(n: nat, peak: nat, rows: nat, base: nat) -> nat {
    let e = eighths(n, peak, rows);
    if e <= base { 0 } else if e - base > 8 { 8 } else { (e - base) as nat }
}

/// Bar column `c` in the row whose floor is `base` eighths up: the selected
/// piconet's hits where it has any there, the column's total otherwise.
pub open spec fn bar_char(ps: Seq<Piconet>, sel: Option<u32>, cols: nat, rows: nat, base: nat, c: nat) -> char {
    let p = peak(ps, cols);
    let own = fill(column_mine(ps, sel, cols, c), p, rows, base);
    if sel is Some && own > 0 { eighth(own) } else { eighth(fill(column_hits(ps, cols, c), p, rows, base)) }
}

/// The count scale in a bar row: the peak on the top row, zero on the
/// bottom one.
pub open spec fn scale_text(r: nat, rows: nat, peak: nat) -> Seq<char> {
    if r == 0 {
        pad_left(dec(peak), 3) + seq![' ']
    } else if r + 1 == rows {
        pad_left(dec(0), 3) + seq![' ']
    } else {
        spaces(4)
    }
}

/// Bar row `r` of `rows`, the top one first.
pub open spec fn bar_row(ps: Seq<Piconet>, sel: Option<u32>, cols: nat, rows: nat, r: nat) -> Seq<char> {
    scale_text(r, rows, peak(ps, cols)) + Seq::new(
        bar_cols(cols),
        |c: int| bar_char(ps, sel, cols, rows, ((rows - 1 - r) * 8) as nat, c as nat),
    )
}

/// Of the first `n` piconets, the one with the most hits on channels `lo`
/// up to `hi` (the earliest of equals) and those hits; none where none has
/// any. A piconet on the LAP `skip` names is passed over.
pub open spec fn leader(ps: Seq<Piconet>, n: int, lo: int, hi: int, skip: Option<u32>) -> Option<(nat, int)>
    decreases n,
{
    if n <= 0 {
        None
    } else {
        let prev = leader(ps, n - 1, lo, hi, skip);
        let h = hits_in(ps[n - 1].per_channel@, lo, hi);
        let passed = match skip {
            Some(lap) => ps[n - 1].lap == lap,
            None => false,
        };
        if h > 0 && !passed && (match prev {
            Some((most, _)) => h > most,
            None => true,
        }) {
            Some((h, n - 1))
        } else {
            prev
        }
    }
}

/// The roster place of the piconet with most hits in bar column `c`, the
/// LAP `skip` names passed over.
pub open spec fn column_lead(ps: Seq<Piconet>, cols: nat, c: nat, skip: Option<u32>) -> Option<usize> {
    match leader(ps, ps.len() as int, ch_lo(c, cols) as int, ch_hi(c, cols) as int, skip) {
        Some((_, k)) => Some(k as usize),
        None => None,
    }
}

/// How bar column `c` is drawn in the row whose floor is `base` eighths up.
/// With a piconet selected, its own hits stand in its colour, bold, and what
/// the others add recedes, in the colour of the one with most of it. With
/// none, a bar wears the colour of the piconet with most hits in it.
pub open spec fn bar_style(ps: Seq<Piconet>, sel: Option<u32>, sel_index: usize, cols: nat, rows: nat, base: nat, c: nat) -> (Ink, bool) {
    let p = peak(ps, cols);
    let rest = fill(column_hits(ps, cols, c), p, rows, base);
    let own = if sel is Some { fill(column_mine(ps, sel, cols, c), p, rows, base) } else { rest };
    if own > 0 {
        match sel {
            Some(_) => (Ink::Series(sel_index), true),
            None => (match column_lead(ps, cols, c, None) {
                Some(k) => Ink::Series(k),
                None => Ink::Label,
            }, false),
        }
    } else if rest > 0 {
        (match column_lead(ps, cols, c, sel) {
            Some(k) => Ink::SeriesFaint(k),
            None => Ink::LabelFaint,
        }, false)
    } else {
        (Ink::Plain, false)
    }
}

/// Bar row `r` of `rows` as it is drawn: the scale in the label ink, then a
/// piece per column in its style.
pub open spec fn bar_row_styled(ps: Seq<Piconet>, sel: Option<u32>, sel_index: usize, cols: nat, rows: nat, r: nat) -> Seq<(Seq<char>, Ink, bool)> {
    let base = ((rows - 1 - r) * 8) as nat;
    seq![(scale_text(r, rows, peak(ps, cols)), Ink::Label, false)] + Seq::new(
        bar_cols(cols),
        |c: int| (
            seq![bar_char(ps, sel, cols, rows, base, c as nat)],
            bar_style(ps, sel, sel_index, cols, rows, base, c as nat).0,
            bar_style(ps, sel, sel_index, cols, rows, base, c as nat).1,
        ),
    )
}

/// The `rows` bar rows as they are drawn, the top one first.
pub open spec fn bars_styled(ps: Seq<Piconet>, sel: Option<u32>, sel_index: usize, cols: nat, rows: nat) -> Seq<Seq<(Seq<char>, Ink, bool)>> {
    Seq::new(rows, |r: int| bar_row_styled(ps, sel, sel_index, cols, rows, r as nat))
}

/// An exec leader, read as the spec one.
pub open spec fn lead_view(b: Option<(u64, usize)>) -> Option<(nat, int)> {
    match b {
        Some((m, k)) => Some((m as nat, k as int)),
        None => None,
    }
}

/// Whether a channel watched now lies in `lo` up to `hi`.
pub open spec fn watched_in(watched: Seq<u8>, lo: nat, hi: nat) -> bool {
    exists|i: int| 0 <= i < watched.len() && lo <= #[trigger] watched[i] < hi
}

/// Whether a tenth channel lies in `lo` up to `hi`.
pub open spec fn tens_in(lo: nat, hi: nat) -> bool {
    exists|ch: nat| lo <= ch < hi && #[trigger] (ch % 10) == 0
}

/// The underline under a bar column: marked where a channel in it is
/// watched now, dotted on the tenth channels, blank elsewhere.
pub open spec fn under_char(watched: Seq<u8>, lo: nat, hi: nat) -> char {
    if watched_in(watched, lo, hi) {
        '\u{2594}'
    } else if tens_in(lo, hi) {
        '\u{00b7}'
    } else {
        ' '
    }
}

/// The WHERE zone: `rows` of bars, the underline of channels watched now,
/// and the channel axis.
pub open spec fn where_lines(ps: Seq<Piconet>, sel: Option<u32>, watched: Seq<u8>, cols: nat, rows: nat) -> Seq<Seq<char>> {
    Seq::new(rows, |r: int| bar_row(ps, sel, cols, rows, r as nat)) + seq![
        spaces(4) + Seq::new(
            bar_cols(cols),
            |c: int| under_char(watched, ch_lo(c as nat, cols), ch_hi(c as nat, cols)),
        ),
        spaces(4) + axis_text(bar_cols(cols)),
    ]
}

/// A piconet's hits on channels `lo` up to `hi`.
fn piconet_hits(p: &Piconet, lo: usize, hi: usize) -> (n: u64)
    requires
        lo <= hi <= 79,
    ensures
        n == hits_in(p.per_channel@, lo as int, hi as int),
        n <= (hi - lo) * 0xFFFF_FFFF,
{
    let mut n: u64 = 0;
    let mut ch = lo;
    while ch < hi
        invariant
            lo <= ch <= hi <= 79,
            n == hits_in(p.per_channel@, lo as int, ch as int),
            n <= (ch - lo) * 0xFFFF_FFFF,
        decreases hi - ch,
    {
        n = n + p.per_channel[ch] as u64;
        ch = ch + 1;
    }
    n
}

/// The first `n` piconets' hits in a column are no more than their share.
proof fn lemma_col_total_bound(ps: Seq<Piconet>, n: int, lo: int, hi: int)
    requires
        0 <= lo <= hi <= 79,
        0 <= n <= ps.len(),
    ensures
        col_total(ps, n, lo, hi) <= n * 79 * 0xFFFF_FFFF,
        forall|lap: u32| col_mine(ps, n, lap, lo, hi) <= col_total(ps, n, lo, hi),
    decreases n,
{
    if n > 0 {
        lemma_col_total_bound(ps, n - 1, lo, hi);
        lemma_hits_bound(ps[n - 1].per_channel@, lo, hi);
        assert((hi - lo) * 0xFFFF_FFFF <= 79 * 0xFFFF_FFFF) by (nonlinear_arith)
            requires 0 <= lo <= hi <= 79;
        assert forall|lap: u32| col_mine(ps, n, lap, lo, hi) <= col_total(ps, n, lo, hi) by {
            assert(col_mine(ps, n - 1, lap, lo, hi) <= col_total(ps, n - 1, lo, hi));
        }
    }
}

/// Every piconet's hits on every channel: the session's count, which the
/// column counts are sums of and must fit a `u64`.
pub open spec fn session_hits(ps: Seq<Piconet>) -> nat {
    col_total(ps, ps.len() as int, 0, 79)
}

/// A piconet's hits on part of the band are no more than on the first `k`
/// channels that hold it.
proof fn lemma_hits_within(pc: Seq<u32>, lo: int, hi: int, k: int)
    requires
        0 <= lo <= hi <= k,
    ensures
        hits_in(pc, lo, hi) <= hits_in(pc, 0, k),
    decreases k,
{
    if k > hi {
        lemma_hits_within(pc, lo, hi, k - 1);
    } else if hi > lo {
        lemma_hits_within(pc, lo, hi - 1, k - 1);
    }
}

/// The first `n` piconets' hits on part of the band are no more than the
/// session's.
proof fn lemma_within_session(ps: Seq<Piconet>, n: int, lo: int, hi: int)
    requires
        0 <= lo <= hi <= 79,
        0 <= n <= ps.len(),
    ensures
        col_total(ps, n, lo, hi) <= session_hits(ps),
    decreases ps.len() - n,
{
    if n < ps.len() {
        lemma_within_session(ps, n + 1, lo, hi);
    } else {
        lemma_band_within(ps, n, lo, hi);
    }
}

/// The first `n` piconets' hits on part of the band are no more than theirs
/// on all of it.
proof fn lemma_band_within(ps: Seq<Piconet>, n: int, lo: int, hi: int)
    requires
        0 <= lo <= hi <= 79,
    ensures
        col_total(ps, n, lo, hi) <= col_total(ps, n, 0, 79),
    decreases n,
{
    if n > 0 {
        lemma_band_within(ps, n - 1, lo, hi);
        lemma_hits_within(ps[n - 1].per_channel@, lo, hi, 79);
    }
}

/// Hits on `lo` up to `hi` are no more than a full count on each.
proof fn lemma_hits_bound(pc: Seq<u32>, lo: int, hi: int)
    requires
        lo <= hi,
    ensures
        hits_in(pc, lo, hi) <= (hi - lo) * 0xFFFF_FFFF,
    decreases hi - lo,
{
    if hi > lo {
        lemma_hits_bound(pc, lo, hi - 1);
    }
}

/// Each column's hits, and the selected piconet's among them; the piconet
/// heard most there, and the one heard most among the others, as their
/// places in the roster of first sightings.
struct ColumnCounts {
    total: Vec<u64>,
    mine: Vec<u64>,
    lead: Vec<Option<usize>>,
    lead_other: Vec<Option<usize>>,
}

/// The counts of every bar column.
fn column_counts(ps: &Vec<Piconet>, sel: Option<u32>, cols: usize) -> (k: ColumnCounts)
    requires
        session_hits(ps@) <= u64::MAX,
        1 <= cols <= 79,
    ensures
        k.total@.len() == cols,
        k.mine@.len() == cols,
        k.lead@.len() == cols,
        k.lead_other@.len() == cols,
        forall|c: int| 0 <= c < cols ==> #[trigger] k.total@[c] == column_hits(ps@, cols as nat, c as nat),
        forall|c: int| 0 <= c < cols ==> #[trigger] k.mine@[c] == column_mine(ps@, sel, cols as nat, c as nat),
        forall|c: int| 0 <= c < cols ==> #[trigger] k.lead@[c] == column_lead(ps@, cols as nat, c as nat, None),
        forall|c: int| 0 <= c < cols ==> #[trigger] k.lead_other@[c] == column_lead(ps@, cols as nat, c as nat, sel),
{
    let mut total: Vec<u64> = Vec::new();
    let mut mine: Vec<u64> = Vec::new();
    let mut lead: Vec<Option<usize>> = Vec::new();
    let mut lead_other: Vec<Option<usize>> = Vec::new();
    let mut c: usize = 0;
    while c < cols
        invariant
            c <= cols <= 79,
            session_hits(ps@) <= u64::MAX,
            total@.len() == c,
            mine@.len() == c,
            lead@.len() == c,
            lead_other@.len() == c,
            forall|j: int| 0 <= j < c ==> #[trigger] total@[j] == column_hits(ps@, cols as nat, j as nat),
            forall|j: int| 0 <= j < c ==> #[trigger] mine@[j] == column_mine(ps@, sel, cols as nat, j as nat),
            forall|j: int| 0 <= j < c ==> #[trigger] lead@[j] == column_lead(ps@, cols as nat, j as nat, None),
            forall|j: int| 0 <= j < c ==> #[trigger] lead_other@[j] == column_lead(ps@, cols as nat, j as nat, sel),
        decreases cols - c,
    {
        let r = channels_of(c, cols);
        proof {
            lemma_column_share(c as nat, cols as nat);
        }
        let (lo, hi) = (r.start, r.end);
        let mut t: u64 = 0;
        let mut m: u64 = 0;
        let mut best: Option<(u64, usize)> = None;
        let mut best_other: Option<(u64, usize)> = None;
        let mut i: usize = 0;
        while i < ps.len()
            invariant
                i <= ps@.len(),
                session_hits(ps@) <= u64::MAX,
                lo <= hi <= 79,
                t == col_total(ps@, i as int, lo as int, hi as int),
                m == match sel {
                    Some(lap) => col_mine(ps@, i as int, lap, lo as int, hi as int),
                    None => 0,
                },
                lead_view(best) == leader(ps@, i as int, lo as int, hi as int, None),
                lead_view(best_other) == leader(ps@, i as int, lo as int, hi as int, sel),
            decreases ps@.len() - i,
        {
            proof {
                lemma_col_total_bound(ps@, i as int + 1, lo as int, hi as int);
                lemma_within_session(ps@, i as int + 1, lo as int, hi as int);
            }
            let n = piconet_hits(&ps[i], lo, hi);
            t = t + n;
            let ours = match sel {
                Some(lap) => ps[i].lap == lap,
                None => false,
            };
            if ours {
                proof {
                    let lap = sel.unwrap();
                    assert(col_mine(ps@, i as int + 1, lap, lo as int, hi as int) <= col_total(ps@, i as int + 1, lo as int, hi as int));
                }
                m = m + n;
            }
            if n > 0 {
                let wins = match best {
                    None => true,
                    Some((most, _)) => n > most,
                };
                if wins {
                    best = Some((n, i));
                }
                let wins_other = match best_other {
                    None => true,
                    Some((most, _)) => n > most,
                };
                if !ours && wins_other {
                    best_other = Some((n, i));
                }
            }
            i = i + 1;
        }
        proof {
            lemma_col_total_bound(ps@, ps@.len() as int, lo as int, hi as int);
            lemma_within_session(ps@, ps@.len() as int, lo as int, hi as int);
        }
        let ghost (lead0, other0) = (lead@, lead_other@);
        total.push(t);
        mine.push(m);
        lead.push(match best { Some((_, k)) => Some(k), None => None });
        lead_other.push(match best_other { Some((_, k)) => Some(k), None => None });
        proof {
            assert(lead@[c as int] == column_lead(ps@, cols as nat, c as nat, None));
            assert(lead_other@[c as int] == column_lead(ps@, cols as nat, c as nat, sel));
            assert forall|j: int| 0 <= j < c implies #[trigger] lead@[j] == column_lead(ps@, cols as nat, j as nat, None) by {
                assert(lead@[j] == lead0[j]);
            }
            assert forall|j: int| 0 <= j < c implies #[trigger] lead_other@[j] == column_lead(ps@, cols as nat, j as nat, sel) by {
                assert(lead_other@[j] == other0[j]);
            }
        }
        c = c + 1;
    }
    ColumnCounts { total, mine, lead, lead_other }
}

/// The eighths a count fills in the row whose floor is `base` eighths up.
fn fill_of(n: u64, peak: u64, rows: usize, base: u128) -> (f: u64)
    requires
        n <= peak,
        1 <= peak,
    ensures
        f == fill(n as nat, peak as nat, rows as nat, base as nat),
        f <= 8,
{
    let e = scaled_round_u64(n, peak, rows as u64, 8);
    if e <= base {
        0
    } else if e - base > 8 {
        8
    } else {
        (e - base) as u64
    }
}

/// The busiest column's hits, at least one.
fn peak_of(ps: &Vec<Piconet>, counts: &ColumnCounts, cols: usize) -> (p: u64)
    requires
        1 <= cols <= 79,
        counts.total@.len() == cols,
        forall|c: int| 0 <= c < cols ==> #[trigger] counts.total@[c] == column_hits(ps@, cols as nat, c as nat),
    ensures
        p == peak(ps@, cols as nat),
        1 <= p,
        forall|c: int| 0 <= c < cols ==> #[trigger] counts.total@[c] <= p,
{
    let mut m: u64 = 0;
    let mut c: usize = 0;
    while c < cols
        invariant
            c <= cols <= 79,
            counts.total@.len() == cols,
            forall|j: int| 0 <= j < cols ==> #[trigger] counts.total@[j] == column_hits(ps@, cols as nat, j as nat),
            m == busiest(ps@, cols as nat, c as nat),
            forall|j: int| 0 <= j < c ==> #[trigger] counts.total@[j] <= m,
        decreases cols - c,
    {
        if counts.total[c] > m {
            m = counts.total[c];
        }
        c = c + 1;
    }
    if m > 1 { m } else { 1 }
}

/// The count scale in bar row `r` of `rows`.
fn scale_of(r: usize, rows: usize, peak: u64) -> (s: String)
    ensures
        s@ == scale_text(r as nat, rows as nat, peak as nat),
{
    let mut s = String::new();
    if r == 0 {
        let d = crate::text::dec_string(peak);
        push_pad_left(&mut s, d.as_str(), 3);
        push_char(&mut s, ' ');
    } else if rows > 0 && r == rows - 1 {
        let d = crate::text::dec_string(0);
        push_pad_left(&mut s, d.as_str(), 3);
        push_char(&mut s, ' ');
    } else {
        push_spaces(&mut s, 4);
    }
    s
}

/// A piece of one character.
fn char_piece(c: char, ink: Ink, bold: bool) -> (p: Piece)
    ensures
        p.text@ == seq![c],
        p.ink == ink,
        p.bold == bold,
{
    let mut text = String::new();
    push_char(&mut text, c);
    assert(text@ =~= seq![c]);
    Piece { text, ink, bold }
}

/// Bar row `r` of the WHERE zone.
fn bar_line(
    ps: &Vec<Piconet>,
    sel: Option<u32>,
    sel_index: usize,
    counts: &ColumnCounts,
    top: u64,
    cols: usize,
    rows: usize,
    r: usize,
) -> (line: Vec<Piece>)
    requires
        1 <= cols <= 79,
        r < rows,
        top == peak(ps@, cols as nat),
        1 <= top,
        forall|c: int| 0 <= c < cols ==> #[trigger] counts.total@[c] <= top,
        counts.total@.len() == cols,
        counts.mine@.len() == cols,
        counts.lead@.len() == cols,
        counts.lead_other@.len() == cols,
        forall|c: int| 0 <= c < cols ==> #[trigger] counts.total@[c] == column_hits(ps@, cols as nat, c as nat),
        forall|c: int| 0 <= c < cols ==> #[trigger] counts.mine@[c] == column_mine(ps@, sel, cols as nat, c as nat),
        forall|c: int| 0 <= c < cols ==> #[trigger] counts.lead@[c] == column_lead(ps@, cols as nat, c as nat, None),
        forall|c: int| 0 <= c < cols ==> #[trigger] counts.lead_other@[c] == column_lead(ps@, cols as nat, c as nat, sel),
    ensures
        line_text(line@) == bar_row(ps@, sel, cols as nat, rows as nat, r as nat),
        styled(line@) == bar_row_styled(ps@, sel, sel_index, cols as nat, rows as nat, r as nat),
{
    let base: u128 = (rows - 1 - r) as u128 * 8;
    let mut line: Vec<Piece> = Vec::new();
    push_piece(&mut line, piece(scale_of(r, rows, top), Ink::Label));
    let ghost head = scale_text(r as nat, rows as nat, top as nat);
    assert(line_text(line@) =~= head) by {
        assert(line@.drop_last() =~= Seq::<Piece>::empty());
    }
    let ghost head_style = seq![(head, Ink::Label, false)];
    assert(styled(line@) =~= head_style);
    let mut c: usize = 0;
    while c < cols
        invariant
            c <= cols <= 79,
            r < rows,
            base == (rows - 1 - r) * 8,
            top == peak(ps@, cols as nat),
            1 <= top,
            forall|j: int| 0 <= j < cols ==> #[trigger] counts.total@[j] <= top,
            counts.total@.len() == cols,
            counts.mine@.len() == cols,
            counts.lead@.len() == cols,
            counts.lead_other@.len() == cols,
            forall|j: int| 0 <= j < cols ==> #[trigger] counts.total@[j] == column_hits(ps@, cols as nat, j as nat),
            forall|j: int| 0 <= j < cols ==> #[trigger] counts.mine@[j] == column_mine(ps@, sel, cols as nat, j as nat),
            line_text(line@) == head + Seq::new(
                c as nat,
                |j: int| bar_char(ps@, sel, cols as nat, rows as nat, base as nat, j as nat),
            ),
            forall|j: int| 0 <= j < cols ==> #[trigger] counts.lead@[j] == column_lead(ps@, cols as nat, j as nat, None),
            forall|j: int| 0 <= j < cols ==> #[trigger] counts.lead_other@[j] == column_lead(ps@, cols as nat, j as nat, sel),
            head_style == seq![(head, Ink::Label, false)],
            styled(line@) == head_style + Seq::new(
                c as nat,
                |j: int| (
                    seq![bar_char(ps@, sel, cols as nat, rows as nat, base as nat, j as nat)],
                    bar_style(ps@, sel, sel_index, cols as nat, rows as nat, base as nat, j as nat).0,
                    bar_style(ps@, sel, sel_index, cols as nat, rows as nat, base as nat, j as nat).1,
                ),
            ),
        decreases cols - c,
    {
        proof {
            if sel is Some {
                lemma_column_share(c as nat, cols as nat);
                lemma_col_total_bound(ps@, ps@.len() as int, ch_lo(c as nat, cols as nat) as int, ch_hi(c as nat, cols as nat) as int);
                assert(counts.mine@[c as int] <= counts.total@[c as int]);
            }
        }
        let rest = fill_of(counts.total[c], top, rows, base);
        let own = match sel {
            Some(_) => fill_of(counts.mine[c], top, rows, base),
            None => rest,
        };
        let (ch, ink, bold) = if own > 0 {
            match sel {
                Some(_) => (eighth_char(own), Ink::Series(sel_index), true),
                None => (eighth_char(own), match counts.lead[c] {
                    Some(k) => Ink::Series(k),
                    None => Ink::Label,
                }, false),
            }
        } else if rest > 0 {
            (eighth_char(rest), match counts.lead_other[c] {
                Some(k) => Ink::SeriesFaint(k),
                None => Ink::LabelFaint,
            }, false)
        } else {
            (' ', Ink::Plain, false)
        };
        assert(ch == bar_char(ps@, sel, cols as nat, rows as nat, base as nat, c as nat));
        assert((ink, bold) == bar_style(ps@, sel, sel_index, cols as nat, rows as nat, base as nat, c as nat));
        let ghost before = line@;
        let p = char_piece(ch, ink, bold);
        proof {
            lemma_styled_push(line@, p);
        }
        push_piece(&mut line, p);
        c = c + 1;
        proof {
            assert(styled(line@) =~= head_style + Seq::new(
                c as nat,
                |j: int| (
                    seq![bar_char(ps@, sel, cols as nat, rows as nat, base as nat, j as nat)],
                    bar_style(ps@, sel, sel_index, cols as nat, rows as nat, base as nat, j as nat).0,
                    bar_style(ps@, sel, sel_index, cols as nat, rows as nat, base as nat, j as nat).1,
                ),
            ));
            assert(line_text(line@) =~= head + Seq::new(
                c as nat,
                |j: int| bar_char(ps@, sel, cols as nat, rows as nat, base as nat, j as nat),
            ));
        }
    }
    assert(styled(line@) =~= bar_row_styled(ps@, sel, sel_index, cols as nat, rows as nat, r as nat));
    line
}

/// Whether a channel watched now lies in `lo` up to `hi`.
fn any_watched(watched: &Vec<u8>, lo: usize, hi: usize) -> (b: bool)
    ensures
        b == watched_in(watched@, lo as nat, hi as nat),
{
    let mut i: usize = 0;
    while i < watched.len()
        invariant
            i <= watched@.len(),
            forall|j: int| 0 <= j < i ==> !(lo <= #[trigger] watched@[j] < hi),
        decreases watched@.len() - i,
    {
        if lo <= watched[i] as usize && (watched[i] as usize) < hi {
            return true;
        }
        i = i + 1;
    }
    false
}

/// Whether a tenth channel lies in `lo` up to `hi`.
fn any_tenth(lo: usize, hi: usize) -> (b: bool)
    ensures
        b == tens_in(lo as nat, hi as nat),
{
    let mut ch = lo;
    while ch < hi
        invariant
            lo <= ch,
            forall|j: nat| lo <= j < ch ==> #[trigger] (j % 10) != 0,
        decreases hi - ch,
    {
        if ch % 10 == 0 {
            assert(ch as nat % 10 == 0);
            return true;
        }
        ch = ch + 1;
    }
    false
}

/// The underline under the bars: which channels are watched now.
fn under_line(watched: &Vec<u8>, cols: usize) -> (line: Vec<Piece>)
    requires
        1 <= cols <= 79,
    ensures
        line_text(line@) == spaces(4) + Seq::new(
            cols as nat,
            |c: int| under_char(watched@, ch_lo(c as nat, cols as nat), ch_hi(c as nat, cols as nat)),
        ),
        styled(line@) == under_styled(watched@, cols as nat),
{
    let mut line: Vec<Piece> = Vec::new();
    push_piece(&mut line, blank(SCALE));
    assert(line_text(line@) =~= spaces(4)) by {
        assert(line@.drop_last() =~= Seq::<Piece>::empty());
    }
    let ghost head = seq![(spaces(4), Ink::Plain, false)];
    assert(styled(line@) =~= head);
    let mut c: usize = 0;
    while c < cols
        invariant
            c <= cols <= 79,
            line_text(line@) == spaces(4) + Seq::new(
                c as nat,
                |j: int| under_char(watched@, ch_lo(j as nat, cols as nat), ch_hi(j as nat, cols as nat)),
            ),
            head == seq![(spaces(4), Ink::Plain, false)],
            styled(line@) == head + Seq::new(
                c as nat,
                |j: int| (
                    seq![under_char(watched@, ch_lo(j as nat, cols as nat), ch_hi(j as nat, cols as nat))],
                    under_ink(watched@, ch_lo(j as nat, cols as nat), ch_hi(j as nat, cols as nat)),
                    false,
                ),
            ),
        decreases cols - c,
    {
        let r = channels_of(c, cols);
        let p = if any_watched(watched, r.start, r.end) {
            char_piece('\u{2594}', Ink::Accent, false)
        } else if any_tenth(r.start, r.end) {
            char_piece('\u{00b7}', Ink::Stale, false)
        } else {
            char_piece(' ', Ink::Plain, false)
        };
        proof {
            lemma_styled_push(line@, p);
        }
        push_piece(&mut line, p);
        c = c + 1;
        proof {
            assert(line_text(line@) =~= spaces(4) + Seq::new(
                c as nat,
                |j: int| under_char(watched@, ch_lo(j as nat, cols as nat), ch_hi(j as nat, cols as nat)),
            ));
            assert(styled(line@) =~= head + Seq::new(
                c as nat,
                |j: int| (
                    seq![under_char(watched@, ch_lo(j as nat, cols as nat), ch_hi(j as nat, cols as nat))],
                    under_ink(watched@, ch_lo(j as nat, cols as nat), ch_hi(j as nat, cols as nat)),
                    false,
                ),
            ));
        }
    }
    assert(styled(line@) =~= under_styled(watched@, cols as nat));
    line
}

/// The WHERE zone: `rows` of bars, the underline of channels watched now,
/// and the channel axis. `sel_index` is the selected piconet's place in the
/// roster of first sightings, the colour its hits wear.
fn where_zone(
    ps: &Vec<Piconet>,
    sel: Option<u32>,
    sel_index: usize,
    watched: &Vec<u8>,
    cols: usize,
    rows: usize,
) -> (lines: Vec<Vec<Piece>>)
    requires
        session_hits(ps@) <= u64::MAX,
        1 <= cols <= 79,
    ensures
        lines_text(lines@) == where_lines(ps@, sel, watched@, cols as nat, rows as nat),
        styles(lines@) == where_zone_styled(ps@, sel, sel_index, watched@, cols as nat, rows as nat),
{
    let counts = column_counts(ps, sel, cols);
    let top = peak_of(ps, &counts, cols);
    let mut lines: Vec<Vec<Piece>> = Vec::new();
    let mut r: usize = 0;
    while r < rows
        invariant
            r <= rows,
            1 <= cols <= 79,
            session_hits(ps@) <= u64::MAX,
            top == peak(ps@, cols as nat),
            1 <= top,
            forall|c: int| 0 <= c < cols ==> #[trigger] counts.total@[c] <= top,
            counts.total@.len() == cols,
            counts.mine@.len() == cols,
            counts.lead@.len() == cols,
            counts.lead_other@.len() == cols,
            forall|c: int| 0 <= c < cols ==> #[trigger] counts.total@[c] == column_hits(ps@, cols as nat, c as nat),
            forall|c: int| 0 <= c < cols ==> #[trigger] counts.mine@[c] == column_mine(ps@, sel, cols as nat, c as nat),
            lines@.len() == r,
            lines_text(lines@) == Seq::new(r as nat, |j: int| bar_row(ps@, sel, cols as nat, rows as nat, j as nat)),
            forall|c: int| 0 <= c < cols ==> #[trigger] counts.lead@[c] == column_lead(ps@, cols as nat, c as nat, None),
            forall|c: int| 0 <= c < cols ==> #[trigger] counts.lead_other@[c] == column_lead(ps@, cols as nat, c as nat, sel),
            forall|j: int| 0 <= j < r ==> #[trigger] styled(lines@[j]@) == bar_row_styled(ps@, sel, sel_index, cols as nat, rows as nat, j as nat),
        decreases rows - r,
    {
        let line = bar_line(ps, sel, sel_index, &counts, top, cols, rows, r);
        let ghost before = lines@;
        lines.push(line);
        r = r + 1;
        proof {
            assert forall|j: int| 0 <= j < r implies #[trigger] lines_text(lines@)[j] == bar_row(ps@, sel, cols as nat, rows as nat, j as nat) by {
                if j < r - 1 {
                    assert(lines@[j] == before[j]);
                    assert(lines_text(before)[j] == bar_row(ps@, sel, cols as nat, rows as nat, j as nat));
                }
            }
            assert(lines_text(lines@) =~= Seq::new(r as nat, |j: int| bar_row(ps@, sel, cols as nat, rows as nat, j as nat)));
        }
    }
    let ghost bars = lines_text(lines@);
    let ghost bar_lines = lines@;
    lines.push(under_line(watched, cols));
    let mut axis = String::new();
    push_spaces(&mut axis, SCALE);
    let a = channel_axis(cols);
    crate::text::push_str(&mut axis, a.as_str());
    let mut last: Vec<Piece> = Vec::new();
    push_piece(&mut last, piece(axis, Ink::Label));
    proof {
        assert(line_text(last@) =~= spaces(4) + axis_text(cols as nat)) by {
            assert(last@.drop_last() =~= Seq::<Piece>::empty());
        }
    }
    let ghost mid = lines@;
    lines.push(last);
    proof {
        assert(lines@.drop_last() =~= mid);
        assert(mid.drop_last().len() == rows);
        assert(lines_text(lines@) =~= where_lines(ps@, sel, watched@, cols as nat, rows as nat));
        assert forall|j: int| 0 <= j < rows implies lines@[j] == bar_lines[j] by {}
        assert(styles(bar_lines) =~= bars_styled(ps@, sel, sel_index, cols as nat, rows as nat));
        assert(styled(last@) =~= plain_line(spaces(4) + axis_text(cols as nat), Ink::Label));
        assert(styles(lines@) =~= where_zone_styled(ps@, sel, sel_index, watched@, cols as nat, rows as nat));
    }
    lines
}

/// The colour chip a piconet wears here and on the roster.
pub const CHIP: char = '\u{25cf}';

/// Whether a hit is `lap`'s and falls in the window `back` to `back + span`
/// milliseconds ago.
pub open spec fn in_window(h: BtHop, lap: u32, back: nat, span: nat) -> bool {
    h.lap == lap && back <= h.age_ms < back + span
}

/// The lane column a hit in the window is ticked in: the newest at the
/// right.
pub open spec fn tick_of(h: BtHop, back: nat, span: nat, w: nat) -> nat {
    (w as int - 1 - ((h.age_ms as int - back as int) * (w as int)) / (span as int)) as nat
}

/// The first `n` hits' ticks in lane column `col`.
pub open spec fn ticks_at(hops: Seq<BtHop>, n: int, lap: u32, back: nat, span: nat, w: nat, col: nat) -> nat
    decreases n,
{
    if n <= 0 {
        0
    } else {
        ticks_at(hops, n - 1, lap, back, span, w, col)
            + (if in_window(hops[n - 1], lap, back, span) && tick_of(hops[n - 1], back, span, w) == col { 1nat } else { 0 })
    }
}

/// How many of the first `n` hits are `lap`'s and in the window.
pub open spec fn window_count(hops: Seq<BtHop>, n: int, lap: u32, back: nat, span: nat) -> nat
    decreases n,
{
    if n <= 0 {
        0
    } else {
        window_count(hops, n - 1, lap, back, span) + (if in_window(hops[n - 1], lap, back, span) { 1nat } else { 0 })
    }
}

/// A lane column: on the baseline a dotted guide where there is no hit, a
/// `┊` every tenth column; above it blank; a single hit a thin tick and more
/// a full one.
pub open spec fn tick_char(t: nat, base: bool, k: nat) -> char {
    if t == 0 {
        if !base { ' ' } else if k % 10 == 0 { '\u{250a}' } else { '\u{00b7}' }
    } else if t == 1 {
        '\u{2503}'
    } else {
        '\u{2588}'
    }
}

/// One row of a lane: the baseline carries the chip, the LAP and the
/// count; the rows above it the ticks only.
pub open spec fn lane_row(hops: Seq<BtHop>, lap: u32, is: bool, back: nat, span: nat, w: nat, base: bool) -> Seq<char> {
    let ticks = Seq::new(w, |k: int| tick_char(ticks_at(hops, hops.len() as int, lap, back, span, w, k as nat), base, k as nat));
    if base {
        gutter_text(is) + seq![CHIP, ' '] + lap_name_text(lap) + seq![' '] + ticks
            + pad_left(dec(window_count(hops, hops.len() as int, lap, back, span)), LANE_TAIL as nat)
    } else {
        gutter_text(is) + spaces((LANE_LEAD - 1) as nat) + ticks
    }
}

/// The ink of a piconet's hits: its colour, receded while another is
/// selected.
pub open spec fn tick_ink(colour: usize, recede: bool) -> Ink {
    if recede { Ink::SeriesFaint(colour) } else { Ink::Series(colour) }
}

/// How lane column `k` is drawn: a hit in the piconet's ink, bold on the
/// selected lane; the baseline's dots in the stale ink; an empty column
/// plain.
pub open spec fn tick_style(t: nat, base: bool, k: nat, colour: usize, is: bool, recede: bool) -> (Seq<char>, Ink, bool) {
    (
        seq![tick_char(t, base, k)],
        if t > 0 { tick_ink(colour, recede) } else if base { Ink::Stale } else { Ink::Plain },
        t > 0 && is,
    )
}

/// One row of a lane as it is drawn. The piconet wears the colour of its
/// place in the roster, `colour`: the chip and the hits in it, receded while
/// another is selected. The selected lane has the mark in its gutter and its
/// LAP and hits bold; a receded lane's LAP is in the label ink.
pub open spec fn lane_row_styled(hops: Seq<BtHop>, lap: u32, colour: usize, is: bool, recede: bool, back: nat, span: nat, w: nat, base: bool) -> Seq<(Seq<char>, Ink, bool)> {
    let gutter = (gutter_text(is), if is { Ink::ValueHi } else { Ink::Plain }, is);
    let name_ink = if is { Ink::ValueHi } else if recede { Ink::Label } else { Ink::Value };
    let ticks = Seq::new(
        w,
        |k: int| tick_style(ticks_at(hops, hops.len() as int, lap, back, span, w, k as nat), base, k as nat, colour, is, recede),
    );
    if base {
        seq![gutter, (seq![CHIP, ' '], tick_ink(colour, recede), false), (lap_name_text(lap) + seq![' '], name_ink, false)]
            + ticks
            + seq![(pad_left(dec(window_count(hops, hops.len() as int, lap, back, span)), LANE_TAIL as nat), Ink::Label, false)]
    } else {
        seq![gutter, (spaces((LANE_LEAD - 1) as nat), Ink::Plain, false)] + ticks
    }
}

/// The hits in the lane's window, counted per column, and in all.
fn lane_ticks(hops: &Vec<BtHop>, lap: u32, back: u64, span: u64, w: usize) -> (r: (Vec<u64>, u64))
    requires
        w >= 1,
    ensures
        r.0@.len() == w,
        forall|k: int| 0 <= k < w ==> #[trigger] r.0@[k] == ticks_at(hops@, hops@.len() as int, lap, back as nat, span as nat, w as nat, k as nat),
        r.1 == window_count(hops@, hops@.len() as int, lap, back as nat, span as nat),
{
    let mut ticks: Vec<u64> = Vec::new();
    let mut k: usize = 0;
    while k < w
        invariant
            k <= w,
            ticks@.len() == k,
            forall|j: int| 0 <= j < k ==> #[trigger] ticks@[j] == 0,
        decreases w - k,
    {
        ticks.push(0);
        k = k + 1;
    }
    let mut n: u64 = 0;
    let mut i: usize = 0;
    while i < hops.len()
        invariant
            i <= hops@.len(),
            w >= 1,
            ticks@.len() == w,
            forall|j: int| 0 <= j < w ==> #[trigger] ticks@[j] == ticks_at(hops@, i as int, lap, back as nat, span as nat, w as nat, j as nat),
            forall|j: int| 0 <= j < w ==> #[trigger] ticks@[j] <= i,
            n == window_count(hops@, i as int, lap, back as nat, span as nat),
            n <= i,
        decreases hops@.len() - i,
    {
        let h = &hops[i];
        let inside = h.lap == lap && back <= h.age_ms && h.age_ms - back < span;
        let ghost before = ticks@;
        if inside {
            let off = (h.age_ms - back) as u128;
            let wide = w as u128;
            assert(off * wide < 0x1_0000_0000_0000_0000_0000_0000_0000_0000) by (nonlinear_arith)
                requires off < 0x1_0000_0000_0000_0000, wide < 0x1_0000_0000_0000_0000;
            assert((off as int) * (w as int) / (span as int) < w as int) by (nonlinear_arith)
                requires off < span, w >= 1, span >= 1;
            let q = off * wide / (span as u128);
            assert(q < w);
            let idx = q as usize;
            let col = w - 1 - idx;
            ticks.set(col, ticks[col] + 1);
            n = n + 1;
            proof {
                assert(tick_of(hops@[i as int], back as nat, span as nat, w as nat) == col);
            }
        }
        i = i + 1;
        proof {
            assert forall|j: int| 0 <= j < w implies #[trigger] ticks@[j] == ticks_at(hops@, i as int, lap, back as nat, span as nat, w as nat, j as nat) by {
                assert(before[j] == ticks_at(hops@, i as int - 1, lap, back as nat, span as nat, w as nat, j as nat));
            }
        }
    }
    (ticks, n)
}

/// Appends lane column `k`'s tick to a lane row.
fn push_tick(line: &mut Vec<Piece>, t: u64, base: bool, k: usize, colour: usize, is: bool, recede: bool)
    ensures
        line_text(final(line)@) == line_text(old(line)@) + seq![tick_char(t as nat, base, k as nat)],
        styled(final(line)@) == styled(old(line)@).push(tick_style(t as nat, base, k as nat, colour, is, recede)),
{
    let ink = if recede { Ink::SeriesFaint(colour) } else { Ink::Series(colour) };
    let p = if t == 0 {
        if !base {
            char_piece(' ', Ink::Plain, false)
        } else if k % 10 == 0 {
            char_piece('\u{250a}', Ink::Stale, false)
        } else {
            char_piece('\u{00b7}', Ink::Stale, false)
        }
    } else if t == 1 {
        char_piece('\u{2503}', ink, is)
    } else {
        char_piece('\u{2588}', ink, is)
    };
    proof {
        lemma_styled_push(line@, p);
    }
    push_piece(line, p);
}

/// A piconet's lane, `lane_h` rows tall, the baseline last. `colour` is the
/// piconet's place in the roster of first sightings.
fn lane(
    lines: &mut Vec<Vec<Piece>>,
    hops: &Vec<BtHop>,
    lap: u32,
    colour: usize,
    is: bool,
    recede: bool,
    back: u64,
    span: u64,
    w: usize,
    lane_h: usize,
)
    requires
        w >= 1,
        lane_h >= 1,
    ensures
        lines_text(final(lines)@) == lines_text(old(lines)@) + Seq::new(
            lane_h as nat,
            |row: int| lane_row(hops@, lap, is, back as nat, span as nat, w as nat, row + 1 == lane_h),
        ),
        styles(final(lines)@) == styles(old(lines)@) + Seq::new(
            lane_h as nat,
            |row: int| lane_row_styled(hops@, lap, colour, is, recede, back as nat, span as nat, w as nat, row + 1 == lane_h),
        ),
{
    let (ticks, n) = lane_ticks(hops, lap, back, span, w);
    let ink = if recede { Ink::SeriesFaint(colour) } else { Ink::Series(colour) };
    let name_ink = if is { Ink::ValueHi } else if recede { Ink::Label } else { Ink::Value };
    let ghost start = lines_text(lines@);
    let ghost want = Seq::new(
        lane_h as nat,
        |row: int| lane_row(hops@, lap, is, back as nat, span as nat, w as nat, row + 1 == lane_h),
    );
    let ghost start_st = styles(lines@);
    let ghost want_st = Seq::new(
        lane_h as nat,
        |row: int| lane_row_styled(hops@, lap, colour, is, recede, back as nat, span as nat, w as nat, row + 1 == lane_h),
    );
    let mut row: usize = 0;
    while row < lane_h
        invariant
            row <= lane_h,
            w >= 1,
            ticks@.len() == w,
            forall|k: int| 0 <= k < w ==> #[trigger] ticks@[k] == ticks_at(hops@, hops@.len() as int, lap, back as nat, span as nat, w as nat, k as nat),
            n == window_count(hops@, hops@.len() as int, lap, back as nat, span as nat),
            want == Seq::new(
                lane_h as nat,
                |r: int| lane_row(hops@, lap, is, back as nat, span as nat, w as nat, r + 1 == lane_h),
            ),
            lines_text(lines@) == start + want.subrange(0, row as int),
            ink == tick_ink(colour, recede),
            name_ink == (if is { Ink::ValueHi } else if recede { Ink::Label } else { Ink::Value }),
            want_st == Seq::new(
                lane_h as nat,
                |r: int| lane_row_styled(hops@, lap, colour, is, recede, back as nat, span as nat, w as nat, r + 1 == lane_h),
            ),
            styles(lines@) == start_st + want_st.subrange(0, row as int),
        decreases lane_h - row,
    {
        let base = row + 1 == lane_h;
        let mut line: Vec<Piece> = Vec::new();
        push_piece(&mut line, selection_gutter(is));
        let ghost head;
        let ghost head_st;
        let ghost gutter = (gutter_text(is), if is { Ink::ValueHi } else { Ink::Plain }, is);
        if base {
            let mut chip = String::new();
            push_char(&mut chip, CHIP);
            push_char(&mut chip, ' ');
            push_piece(&mut line, piece(chip, ink));
            let mut name = lap_name(lap);
            push_char(&mut name, ' ');
            push_piece(&mut line, piece(name, name_ink));
            proof {
                head = gutter_text(is) + seq![CHIP, ' '] + lap_name_text(lap) + seq![' '];
                head_st = seq![gutter, (seq![CHIP, ' '], tick_ink(colour, recede), false), (lap_name_text(lap) + seq![' '], name_ink, false)];
            }
        } else {
            push_piece(&mut line, blank(LANE_LEAD - 1));
            proof {
                head = gutter_text(is) + spaces((LANE_LEAD - 1) as nat);
                head_st = seq![gutter, (spaces((LANE_LEAD - 1) as nat), Ink::Plain, false)];
            }
        }
        proof {
            if base {
                assert(line@[1].text@ =~= seq![CHIP, ' ']);
                assert(line@[2].text@ =~= lap_name_text(lap) + seq![' ']);
            }
            assert(styled(line@) =~= head_st);
        }
        proof {
            assert(line_text(line@) =~= head) by {
                let l = line@;
                if base {
                    assert(l.drop_last().drop_last().drop_last() =~= Seq::<Piece>::empty());
                } else {
                    assert(l.drop_last().drop_last() =~= Seq::<Piece>::empty());
                }
            }
        }
        let mut k: usize = 0;
        while k < w
            invariant
                k <= w,
                ticks@.len() == w,
                line_text(line@) == head + Seq::new(
                    k as nat,
                    |j: int| tick_char(ticks@[j] as nat, base, j as nat),
                ),
                styled(line@) == head_st + Seq::new(
                    k as nat,
                    |j: int| tick_style(ticks@[j] as nat, base, j as nat, colour, is, recede),
                ),
            decreases w - k,
        {
            push_tick(&mut line, ticks[k], base, k, colour, is, recede);
            k = k + 1;
            proof {
                assert(styled(line@) =~= head_st + Seq::new(
                    k as nat,
                    |j: int| tick_style(ticks@[j] as nat, base, j as nat, colour, is, recede),
                ));
                assert(line_text(line@) =~= head + Seq::new(
                    k as nat,
                    |j: int| tick_char(ticks@[j] as nat, base, j as nat),
                ));
            }
        }
        proof {
            assert(Seq::new(w as nat, |j: int| tick_char(ticks@[j] as nat, base, j as nat)) =~= Seq::new(
                w as nat,
                |j: int| tick_char(ticks_at(hops@, hops@.len() as int, lap, back as nat, span as nat, w as nat, j as nat), base, j as nat),
            ));
            assert(Seq::new(w as nat, |j: int| tick_style(ticks@[j] as nat, base, j as nat, colour, is, recede)) =~= Seq::new(
                w as nat,
                |j: int| tick_style(ticks_at(hops@, hops@.len() as int, lap, back as nat, span as nat, w as nat, j as nat), base, j as nat, colour, is, recede),
            ));
        }
        if base {
            let mut count = String::new();
            let d = crate::text::dec_string(n);
            push_pad_left(&mut count, d.as_str(), LANE_TAIL);
            let p = piece(count, Ink::Label);
            proof {
                lemma_styled_push(line@, p);
            }
            push_piece(&mut line, p);
        }
        proof {
            assert(line_text(line@) =~= lane_row(hops@, lap, is, back as nat, span as nat, w as nat, base));
            assert(styled(line@) =~= lane_row_styled(hops@, lap, colour, is, recede, back as nat, span as nat, w as nat, base));
        }
        let ghost before = lines@;
        lines.push(line);
        row = row + 1;
        proof {
            assert(lines@.drop_last() =~= before);
            assert(lines_text(lines@) =~= lines_text(before).push(line_text(lines@[lines@.len() - 1]@)));
            assert(want[row - 1] == lane_row(hops@, lap, is, back as nat, span as nat, w as nat, base));
            assert(want.subrange(0, row as int) =~= want.subrange(0, row - 1).push(want[row - 1]));
            assert(lines_text(lines@) =~= start + want.subrange(0, row as int));
            assert(styles(lines@) =~= styles(before).push(styled(lines@[lines@.len() - 1]@)));
            assert(want_st[row - 1] == lane_row_styled(hops@, lap, colour, is, recede, back as nat, span as nat, w as nat, base));
            assert(want_st.subrange(0, row as int) =~= want_st.subrange(0, row - 1).push(want_st[row - 1]));
            assert(styles(lines@) =~= start_st + want_st.subrange(0, row as int));
        }
    }
    proof {
        assert(want.subrange(0, lane_h as int) =~= want);
        assert(want_st.subrange(0, lane_h as int) =~= want_st);
    }
}

/// What the panel says while it has nothing to draw zones from.
pub open spec fn idle_text(watched: nat) -> Seq<char> {
    if watched == 0 {
        "no classic receiver running"@
    } else {
        "watching "@ + dec(watched) + " channels - no access codes yet"@
    }
}

/// The rows the lanes may take: all but the headings, the bars' underline
/// and axes, and a bar row.
pub open spec fn lane_room(height: nat) -> nat {
    if height >= 7 { (height - 7) as nat } else { 0 }
}

/// The lanes drawn for `n` piconets.
pub open spec fn lane_count(n: nat, height: nat) -> nat {
    let room = lane_room(height);
    if n <= room { n } else if room >= 1 { (room - 1) as nat } else { 0 }
}

/// The piconets left without a lane, counted on a line of their own.
pub open spec fn more_count(n: nat, height: nat) -> nat {
    (n - lane_count(n, height)) as nat
}

/// The rows left once the headings, the axes and the lanes have theirs.
pub open spec fn spare(n: nat, height: nat) -> nat {
    let used = 5 + lane_count(n, height) + (if more_count(n, height) > 0 { 1nat } else { 0 });
    if height >= used { (height - used) as nat } else { 0 }
}

/// Whether the "watched now" line fits.
pub open spec fn has_watched_line(n: nat, height: nat) -> bool {
    spare(n, height) >= 4
}

/// The bar rows: what is spare, up to the cap.
pub open spec fn bar_rows(n: nat, height: nat) -> nat {
    let room = (spare(n, height) - (if has_watched_line(n, height) { 1nat } else { 0 })) as nat;
    if room < MAX_BAR_ROWS { room } else { MAX_BAR_ROWS as nat }
}

/// The rows the capped bars leave.
pub open spec fn leftover(n: nat, height: nat) -> nat {
    (spare(n, height) - (if has_watched_line(n, height) { 1nat } else { 0 }) - bar_rows(n, height)) as nat
}

/// A lane's height: one row, and up to two more from what the bars leave
/// past the row that parts the zones.
pub open spec fn lane_height(n: nat, height: nat) -> nat {
    let lanes = lane_count(n, height);
    let extra = if lanes == 0 {
        0
    } else {
        let e = (if leftover(n, height) >= 1 { (leftover(n, height) - 1) as nat } else { 0nat }) / lanes;
        if e < 2 { e } else { 2 }
    };
    1 + extra
}

/// The selection, where it names a piconet heard.
pub open spec fn selected_lap(n: NetState) -> Option<u32> {
    match n.bt_view.selected {
        Some(lap) => if exists|i: int| 0 <= i < n.bt_piconets@.len() && #[trigger] n.bt_piconets@[i].lap == lap {
            Some(lap)
        } else {
            None
        },
        None => None,
    }
}

/// The lanes of the first `m` piconets of the roster.
pub open spec fn lanes_text(n: NetState, order: Seq<usize>, m: nat, lane_h: nat, w: nat) -> Seq<Seq<char>>
    decreases m,
{
    if m == 0 {
        seq![]
    } else {
        let lap = n.bt_piconets@[order[m - 1] as int].lap;
        lanes_text(n, order, (m - 1) as nat, lane_h, w) + Seq::new(
            lane_h,
            |row: int| lane_row(
                n.bt_hops@,
                lap,
                selected_lap(n) == Some(lap),
                n.hop_view.back_ms as nat,
                n.hop_view.span_ms as nat,
                w,
                row + 1 == lane_h,
            ),
        )
    }
}

/// The roster place of the first piconet on the selected LAP, the colour
/// its hits wear in the bars; nought where nothing heard is selected.
pub open spec fn sel_place(n: NetState) -> usize {
    match selected_lap(n) {
        Some(lap) => choose|i: usize| first_on(n.bt_piconets@, lap, i),
        None => 0,
    }
}

/// Whether `i` is the place of the first piconet on `lap`.
pub open spec fn first_on(ps: Seq<Piconet>, lap: u32, i: usize) -> bool {
    &&& (i as int) < ps.len()
    &&& ps[i as int].lap == lap
    &&& forall|j: int| 0 <= j < i ==> #[trigger] ps[j].lap != lap
}

/// The lanes of the first `m` piconets of the roster as they are drawn,
/// each in the colour of its place in the roster.
pub open spec fn lanes_styled(n: NetState, order: Seq<usize>, m: nat, lane_h: nat, w: nat) -> Seq<Seq<(Seq<char>, Ink, bool)>>
    decreases m,
{
    if m == 0 {
        seq![]
    } else {
        let at = order[m - 1];
        let lap = n.bt_piconets@[at as int].lap;
        let picked = selected_lap(n) == Some(lap);
        let recede = selected_lap(n) is Some && !picked;
        lanes_styled(n, order, (m - 1) as nat, lane_h, w) + Seq::new(
            lane_h,
            |row: int| lane_row_styled(
                n.bt_hops@,
                lap,
                at,
                picked,
                recede,
                n.hop_view.back_ms as nat,
                n.hop_view.span_ms as nat,
                w,
                row + 1 == lane_h,
            ),
        )
    }
}

/// Which channels are watched now, under the bars.
pub open spec fn watched_line_text(watched: Seq<u8>) -> Seq<char> {
    spaces(4) + seq!['\u{2594}'] + watched_words(watched)
}

/// What the watched line says after its mark.
pub open spec fn watched_words(watched: Seq<u8>) -> Seq<char> {
    if watched.len() == 0 {
        " watching nothing now"@
    } else if watched[0] != watched.last() {
        " watched now: "@ + dec(watched[0] as nat) + seq!['-'] + dec(watched.last() as nat)
    } else {
        " watched now: "@ + dec(watched[0] as nat)
    }
}

/// The watched line as drawn: the mark in the accent, the words in the label
/// ink.
pub open spec fn watched_styled(watched: Seq<u8>) -> Seq<(Seq<char>, Ink, bool)> {
    seq![(spaces(4), Ink::Plain, false), (seq!['\u{2594}'], Ink::Accent, false), (watched_words(watched), Ink::Label, false)]
}

/// `t` centred in `gap` columns, the odd column on the right; `t` itself
/// where it does not fit.
pub open spec fn centred(t: Seq<char>, gap: nat) -> Seq<char> {
    if t.len() >= gap {
        t
    } else {
        let pad = (gap - t.len()) as nat;
        spaces(pad / 2) + t + spaces((pad - pad / 2) as nat)
    }
}

/// How far back the window reaches, in milliseconds.
pub open spec fn reach(n: NetState) -> nat {
    let r = n.hop_view.back_ms + n.hop_view.span_ms;
    if r <= u64::MAX { r as nat } else { u64::MAX as nat }
}

/// Whether the window reaches before the oldest hit kept, with the list
/// full: the lanes there are not quiet, they are not kept.
pub open spec fn older_not_kept(n: NetState) -> bool {
    let hops = n.bt_hops@;
    hops.len() >= BT_HOP_LIMIT && hops.len() > 0
        && hops.last().age_ms < n.hop_view.back_ms + n.hop_view.span_ms
}

/// The time axis under the lanes, `w` lane columns wide.
pub open spec fn time_axis(n: NetState, w: nat, width: nat) -> Seq<char> {
    let back = n.hop_view.back_ms as nat;
    let left = seq!['-'] + seconds_text(reach(n));
    let right = if back == 0 { "now"@ } else { seq!['-'] + seconds_text(back) };
    let gap: nat = if w >= left.len() + right.len() { (w - left.len() - right.len()) as nat } else { 0 };
    let middle = if older_not_kept(n) && 21 <= gap { "older hits not kept"@ } else { seq![] };
    take(spaces(LANE_LEAD as nat) + left + centred(middle, gap) + right, width)
}

/// The WHERE zone under its heading, the watched line where it fits, and
/// the row that parts the zones where there is one to spare.
pub open spec fn where_part(n: NetState, width: nat, height: nat) -> Seq<Seq<char>> {
    let count = n.bt_piconets@.len();
    seq![section_text("where"@, "hits per channel, session"@, width)]
        + where_lines(n.bt_piconets@, selected_lap(n), n.bt_channels_watched@, bar_cols((width - SCALE) as nat), bar_rows(count, height))
        + (if has_watched_line(count, height) { seq![watched_line_text(n.bt_channels_watched@)] } else { seq![] })
        + (if leftover(count, height) > 0 { seq![seq![]] } else { seq![] })
}

/// The WHEN zone under its heading: the lanes, the piconets left without
/// one, and the time axis.
pub open spec fn when_part(n: NetState, order: Seq<usize>, width: nat, height: nat) -> Seq<Seq<char>> {
    let count = n.bt_piconets@.len();
    let w: nat = (width - LANE_LEAD - LANE_TAIL) as nat;
    seq![section_text("when"@, "hits in the last "@ + seconds_text(n.hop_view.span_ms as nat), width)]
        + lanes_text(n, order, lane_count(count, height), lane_height(count, height), w)
        + (if more_count(count, height) > 0 {
            seq![" +"@ + dec(more_count(count, height)) + " more piconets in the roster"@]
        } else {
            seq![]
        })
        + seq![time_axis(n, w, width)]
}

/// The two zones, `width` by `height`, the roster in `order`.
pub open spec fn zones(n: NetState, order: Seq<usize>, width: nat, height: nat) -> Seq<Seq<char>> {
    where_part(n, width, height) + when_part(n, order, width, height)
}

/// What the panel says, `width` by `height` inside its frame, the roster in
/// `order`: the refusal, what the receiver is doing while there is nothing
/// to draw, or the two zones.
pub open spec fn hops_lines(state: SdrMetrics, order: Seq<usize>, width: nat, height: nat) -> Seq<Seq<char>> {
    let n = state.net;
    if width == 0 || height == 0 {
        seq![]
    } else {
        match n.bt_refused {
            Some(reason) => wrapped("not watching"@, width, 4) + wrapped(reason@, width, 4),
            None => if n.bt_piconets@.len() == 0 || height < 8 || width < SCALE + 20 {
                wrapped(idle_text(n.bt_channels_watched@.len()), width, 4)
            } else {
                zones(n, order, width, height)
            },
        }
    }
}

/// The ink under a bar column: the accent where a channel in it is watched
/// now, the stale ink on a tenth channel's dot, plain elsewhere.
pub open spec fn under_ink(watched: Seq<u8>, lo: nat, hi: nat) -> Ink {
    if watched_in(watched, lo, hi) { Ink::Accent } else if tens_in(lo, hi) { Ink::Stale } else { Ink::Plain }
}

/// The underline under the bars as drawn.
pub open spec fn under_styled(watched: Seq<u8>, cols: nat) -> Seq<(Seq<char>, Ink, bool)> {
    seq![(spaces(4), Ink::Plain, false)] + Seq::new(
        bar_cols(cols),
        |c: int| (
            seq![under_char(watched, ch_lo(c as nat, cols), ch_hi(c as nat, cols))],
            under_ink(watched, ch_lo(c as nat, cols), ch_hi(c as nat, cols)),
            false,
        ),
    )
}

/// The WHERE zone as drawn: the bars, the underline and the channel axis in
/// the label ink.
pub open spec fn where_zone_styled(ps: Seq<Piconet>, sel: Option<u32>, sel_index: usize, watched: Seq<u8>, cols: nat, rows: nat) -> Seq<Seq<(Seq<char>, Ink, bool)>> {
    bars_styled(ps, sel, sel_index, cols, rows) + seq![
        under_styled(watched, cols),
        plain_line(spaces(4) + axis_text(bar_cols(cols)), Ink::Label),
    ]
}

/// The WHERE part as drawn, line by line (see `where_part` for the text).
pub open spec fn where_styled(n: NetState, width: nat, height: nat) -> Seq<Seq<(Seq<char>, Ink, bool)>> {
    let count = n.bt_piconets@.len();
    seq![plain_line(section_text("where"@, "hits per channel, session"@, width), Ink::Label)]
        + where_zone_styled(
            n.bt_piconets@,
            selected_lap(n),
            sel_place(n),
            n.bt_channels_watched@,
            bar_cols((width - SCALE) as nat),
            bar_rows(count, height),
        )
        + (if has_watched_line(count, height) { seq![watched_styled(n.bt_channels_watched@)] } else { seq![] })
        + (if leftover(count, height) > 0 { seq![seq![]] } else { seq![] })
}

/// The WHEN part as drawn, line by line (see `when_part` for the text).
pub open spec fn when_styled(n: NetState, order: Seq<usize>, width: nat, height: nat) -> Seq<Seq<(Seq<char>, Ink, bool)>> {
    let count = n.bt_piconets@.len();
    let w: nat = (width - LANE_LEAD - LANE_TAIL) as nat;
    seq![plain_line(section_text("when"@, "hits in the last "@ + seconds_text(n.hop_view.span_ms as nat), width), Ink::Label)]
        + lanes_styled(n, order, lane_count(count, height), lane_height(count, height), w)
        + (if more_count(count, height) > 0 {
            seq![plain_line(" +"@ + dec(more_count(count, height)) + " more piconets in the roster"@, Ink::Label)]
        } else {
            seq![]
        })
        + seq![plain_line(time_axis(n, w, width), Ink::Label)]
}

/// The panel's lines as drawn, each piece's text, ink and weight: a refusal
/// in the stale ink with its reason in the label ink, the idle note in the
/// stale ink, or the two zones.
pub open spec fn hops_styled(state: SdrMetrics, order: Seq<usize>, width: nat, height: nat) -> Seq<Seq<(Seq<char>, Ink, bool)>> {
    let n = state.net;
    if width == 0 || height == 0 {
        seq![]
    } else {
        match n.bt_refused {
            Some(reason) => wrapped_styled("not watching"@, width, 4, Ink::Stale) + wrapped_styled(reason@, width, 4, Ink::Label),
            None => if n.bt_piconets@.len() == 0 || height < 8 || width < SCALE + 20 {
                wrapped_styled(idle_text(n.bt_channels_watched@.len()), width, 4, Ink::Stale)
            } else {
                where_styled(n, width, height) + when_styled(n, order, width, height)
            },
        }
    }
}

/// The window tag: how long, and ending when.
pub open spec fn window_tag(n: NetState) -> Seq<char> {
    seconds_text(n.hop_view.span_ms as nat) + " \u{25c2} "@ + (if n.hop_view.back_ms == 0 {
        "now"@
    } else {
        seq!['-'] + seconds_text(n.hop_view.back_ms as nat)
    })
}

/// The tags: `STALE` while no samples flow, a feed loss this session (the
/// bars count the whole session), the mode, and the window.
pub open spec fn hops_tags(state: SdrMetrics) -> Seq<Seq<char>> {
    let n = state.net;
    (if state.streaming { seq![] } else { seq!["STALE"@] })
        + (if n.health.last_loss_secs is Some { seq!["FEED LOSS"@] } else { seq![] })
        + seq![mode_tag(n.mode), window_tag(n)]
}

impl Panel for NetBtHopsPanel {
    fn name(&self) -> (n: &'static str)
        ensures
            n@ == "net_bt_hops"@,
    {
        "net_bt_hops"
    }

    fn min_size(&self) -> (r: (u16, u16))
        ensures
            r == (40u16, 10u16),
    {
        (40, 10)
    }
}

impl NetBtHopsPanel {
    /// The key that focuses the panel.
    pub fn focus_key(&self) -> (k: Option<char>)
        ensures
            k == Some('b'),
    {
        Some('b')
    }

    /// What the keys do while the panel has the focus.
    pub fn focus_bindings(&self) -> (b: Vec<(&'static str, &'static str)>)
        ensures
            b@.len() == 4,
            b@[0].0@ == "\u{2191}\u{2193}"@ && b@[0].1@ == "select a piconet"@,
            b@[1].0@ == "+ -"@ && b@[1].1@ == "zoom in time"@,
            b@[2].0@ == "\u{2190} \u{2192}"@ && b@[2].1@ == "back and forward in time"@,
            b@[3].0@ == "End"@ && b@[3].1@ == "back to now"@,
    {
        let mut b = Vec::new();
        b.push(("\u{2191}\u{2193}", "select a piconet"));
        b.push(("+ -", "zoom in time"));
        b.push(("\u{2190} \u{2192}", "back and forward in time"));
        b.push(("End", "back to now"));
        b
    }

    /// `Classic Bluetooth Hops`, with its tags.
    pub fn chrome(&self, state: &SdrMetrics) -> (c: PanelChrome)
        ensures
            c.title@ == "Classic _Bluetooth Hops"@,
            strings(c.tags@) == hops_tags(*state),
    {
        let n = &state.net;
        let mut window = String::new();
        push_seconds_ms(&mut window, n.hop_view.span_ms);
        push_str(&mut window, " \u{25c2} ");
        if n.hop_view.back_ms == 0 {
            push_str(&mut window, "now");
        } else {
            push_char(&mut window, '-');
            push_seconds_ms(&mut window, n.hop_view.back_ms);
        }
        assert(window@ =~= window_tag(*n));
        let c = PanelChrome::new("Classic _Bluetooth Hops");
        let c = c.tag_if(!state.streaming, owned("STALE"));
        let c = c.tag_if(n.health.last_loss_secs.is_some(), owned("FEED LOSS"));
        let c = c.tag_if(true, n.mode.tag());
        let c = c.tag_if(true, window);
        assert(strings(c.tags@) =~= hops_tags(*state));
        c
    }
}

/// The time axis under the lanes, and whether the window reaches before
/// what is kept.
fn time_axis_line(n: &NetState, w: usize, width: usize) -> (line: Vec<Piece>)
    ensures
        line_text(line@) == time_axis(*n, w as nat, width as nat),
        styled(line@) == plain_line(time_axis(*n, w as nat, width as nat), Ink::Label),
{
    let back = n.hop_view.back_ms;
    let span = n.hop_view.span_ms;
    let mut left = String::new();
    push_char(&mut left, '-');
    push_seconds_ms(&mut left, back.saturating_add(span));
    let mut right = String::new();
    if back == 0 {
        push_str(&mut right, "now");
    } else {
        push_char(&mut right, '-');
        push_seconds_ms(&mut right, back);
    }
    let l = char_count(left.as_str());
    let r = char_count(right.as_str());
    let gap = if l <= w && r <= w - l { w - l - r } else { 0 };
    let hops = &n.bt_hops;
    let older = hops.len() >= BT_HOP_LIMIT && hops.len() > 0
        && (hops[hops.len() - 1].age_ms < back || hops[hops.len() - 1].age_ms - back < span);
    let mut axis = String::new();
    push_spaces(&mut axis, LANE_LEAD);
    push_str(&mut axis, left.as_str());
    let ghost head = axis@;
    if older && 21 <= gap {
        let pad = gap - 19;
        push_spaces(&mut axis, pad / 2);
        push_str(&mut axis, "older hits not kept");
        push_spaces(&mut axis, pad - pad / 2);
    } else {
        push_spaces(&mut axis, gap);
    }
    proof {
        reveal_strlit("older hits not kept");
        assert(older == older_not_kept(*n));
        let middle = if older_not_kept(*n) && 21 <= gap { "older hits not kept"@ } else { seq![] };
        assert(axis@ =~= head + centred(middle, gap as nat));
    }
    push_str(&mut axis, right.as_str());
    let cut = truncated(axis.as_str(), width);
    let line = one(piece(cut, Ink::Label));
    proof {
        assert(line_text(line@) =~= time_axis(*n, w as nat, width as nat));
        assert(styled(line@) =~= plain_line(time_axis(*n, w as nat, width as nat), Ink::Label));
    }
    line
}

/// The selection, where it names a piconet heard, and the place of the
/// first piconet it names.
fn selection(n: &NetState) -> (r: (Option<u32>, usize))
    ensures
        r.0 == selected_lap(*n),
        r.1 == sel_place(*n),
{
    match n.bt_view.selected {
        Some(lap) => {
            let ps = &n.bt_piconets;
            let mut i: usize = 0;
            while i < ps.len()
                invariant
                    i <= ps@.len(),
                    ps@ == n.bt_piconets@,
                    n.bt_view.selected == Some(lap),
                    forall|j: int| 0 <= j < i ==> #[trigger] ps@[j].lap != lap,
                decreases ps@.len() - i,
            {
                if ps[i].lap == lap {
                    assert(n.bt_piconets@[i as int].lap == lap);
                    proof {
                        assert(first_on(ps@, lap, i));
                        let c = choose|c: usize| first_on(n.bt_piconets@, lap, c);
                        assert(first_on(n.bt_piconets@, lap, c));
                        if c < i {
                            assert(ps@[c as int].lap != lap);
                        }
                        if c > i {
                            assert(n.bt_piconets@[i as int].lap != lap);
                        }
                        assert(c == i);
                    }
                    return (Some(lap), i);
                }
                i = i + 1;
            }
            assert(!exists|j: int| 0 <= j < n.bt_piconets@.len() && #[trigger] n.bt_piconets@[j].lap == lap);
            (None, 0)
        },
        None => (None, 0),
    }
}

/// The rows each part of the panel takes.
struct Layout {
    lanes: usize,
    more: usize,
    watched_line: bool,
    rows: usize,
    left: usize,
    lane_h: usize,
}

/// The rows each part takes for `count` piconets in `height` rows.
fn layout(count: usize, height: usize) -> (l: Layout)
    requires
        height >= 8,
    ensures
        l.lanes == lane_count(count as nat, height as nat),
        l.more == more_count(count as nat, height as nat),
        l.watched_line == has_watched_line(count as nat, height as nat),
        l.rows == bar_rows(count as nat, height as nat),
        l.left == leftover(count as nat, height as nat),
        l.lane_h == lane_height(count as nat, height as nat),
        l.lane_h >= 1,
        l.lanes <= count,
{
    let room = height - 7;
    let lanes = if count <= room { count } else { room - 1 };
    let more = count - lanes;
    let lane_rows = lanes + if more > 0 { 1 } else { 0 };
    let free = height - 5 - lane_rows;
    let watched_line = free >= 4;
    let after_line = free - if watched_line { 1 } else { 0 };
    let rows = if after_line < MAX_BAR_ROWS { after_line } else { MAX_BAR_ROWS };
    let left = after_line - rows;
    let extra = if lanes == 0 {
        0
    } else {
        let e = (if left >= 1 { left - 1 } else { 0 }) / lanes;
        if e < 2 { e } else { 2 }
    };
    assert(free == spare(count as nat, height as nat));
    Layout { lanes, more, watched_line, rows, left, lane_h: 1 + extra }
}

/// Appends the WHERE part.
fn push_where(lines: &mut Vec<Vec<Piece>>, n: &NetState, width: usize, height: usize)
    requires
        session_hits(n.bt_piconets@) <= u64::MAX,
        height >= 8,
        width >= SCALE + 20,
    ensures
        lines_text(final(lines)@) == lines_text(old(lines)@) + where_part(*n, width as nat, height as nat),
        styles(final(lines)@) == styles(old(lines)@) + where_styled(*n, width as nat, height as nat),
{
    let ghost start = lines_text(lines@);
    let ghost old_lines = lines@;
    let ghost st0 = styles(lines@);
    let ps = &n.bt_piconets;
    let count = ps.len();
    let l = layout(count, height);
    let cols0 = width - SCALE;
    let cols = if cols0 > BT_CHANNELS { BT_CHANNELS } else { cols0 };
    let (sel, sel_index) = selection(n);
    lines.push(one(section("where", "hits per channel, session", width)));
    let ghost step1 = lines@;
    let mut bars = where_zone(ps, sel, sel_index, &n.bt_channels_watched, cols, l.rows);
    let ghost zone = bars@;
    lines.append(&mut bars);
    proof {
        assert(lines@ == step1 + zone);
        assert(lines_text(lines@) =~= lines_text(step1) + lines_text(zone));
    }
    let ghost step2 = lines_text(lines@);
    let ghost mid = lines@;
    proof {
        assert(cols == bar_cols((width - SCALE) as nat));
        assert(styled(step1[step1.len() - 1]@) =~= plain_line(section_text("where"@, "hits per channel, session"@, width as nat), Ink::Label));
        assert(styles(step1) =~= st0.push(plain_line(section_text("where"@, "hits per channel, session"@, width as nat), Ink::Label)));
        assert(styles(mid) =~= styles(step1) + styles(zone));
    }
    let ghost st2 = styles(lines@);
    if l.watched_line {
        let watched = &n.bt_channels_watched;
        let mut t = String::new();
        push_spaces(&mut t, SCALE);
        let mut u = String::new();
        push_char(&mut u, '\u{2594}');
        let mut v = String::new();
        if watched.len() == 0 {
            push_str(&mut v, " watching nothing now");
        } else if watched[0] != watched[watched.len() - 1] {
            push_str(&mut v, " watched now: ");
            push_dec(&mut v, watched[0] as u64);
            push_char(&mut v, '-');
            push_dec(&mut v, watched[watched.len() - 1] as u64);
        } else {
            push_str(&mut v, " watched now: ");
            push_dec(&mut v, watched[0] as u64);
        }
        let mut line: Vec<Piece> = Vec::new();
        push_piece(&mut line, piece(t, Ink::Plain));
        push_piece(&mut line, piece(u, Ink::Accent));
        push_piece(&mut line, piece(v, Ink::Label));
        proof {
            assert(line@.drop_last().drop_last().drop_last() =~= Seq::<Piece>::empty());
            assert(line_text(line@) =~= watched_line_text(watched@));
            assert(line@[0].text@ =~= spaces(4));
            assert(line@[1].text@ =~= seq!['\u{2594}']);
            assert(line@[2].text@ =~= watched_words(watched@));
            assert(styled(line@) =~= watched_styled(watched@));
        }
        let ghost before_w = lines@;
        lines.push(line);
        assert(styles(lines@) =~= styles(before_w).push(watched_styled(watched@)));
    }
    let ghost st3 = styles(lines@);
    proof {
        assert(st3 =~= st2 + (if has_watched_line(count as nat, height as nat) { seq![watched_styled(n.bt_channels_watched@)] } else { seq![] }));
    }
    let ghost step3 = lines_text(lines@);
    proof {
        assert(step3 =~= step2 + (if has_watched_line(count as nat, height as nat) { seq![watched_line_text(n.bt_channels_watched@)] } else { seq![] }));
    }
    if l.left > 0 {
        let ghost before_b = lines@;
        lines.push(Vec::new());
        proof {
            assert(line_text(Seq::<Piece>::empty()) =~= Seq::<char>::empty());
            assert(styled(Seq::<Piece>::empty()) =~= Seq::<(Seq<char>, Ink, bool)>::empty());
            assert(styles(lines@) =~= styles(before_b).push(seq![]));
        }
    }
    proof {
        assert(lines_text(lines@) =~= step3 + (if leftover(count as nat, height as nat) > 0 { seq![seq![]] } else { seq![] }));
        assert(lines_text(lines@) =~= start + where_part(*n, width as nat, height as nat));
        assert(styles(lines@) =~= st3 + (if leftover(count as nat, height as nat) > 0 { seq![seq![]] } else { seq![] }));
        assert(styles(lines@) =~= st0 + where_styled(*n, width as nat, height as nat));
    }
}

/// Appends the WHEN part, the roster in `order`.
fn push_when(lines: &mut Vec<Vec<Piece>>, n: &NetState, order: &Vec<usize>, width: usize, height: usize)
    requires
        height >= 8,
        width >= SCALE + 20,
        is_roster_order(n.bt_piconets@, order@),
    ensures
        lines_text(final(lines)@) == lines_text(old(lines)@) + when_part(*n, order@, width as nat, height as nat),
        styles(final(lines)@) == styles(old(lines)@) + when_styled(*n, order@, width as nat, height as nat),
{
    let ghost start = lines_text(lines@);
    let ghost start_st = styles(lines@);
    let count = n.bt_piconets.len();
    let l = layout(count, height);
    let w = width - LANE_LEAD - LANE_TAIL;
    let (sel, _) = selection(n);
    let mut hint = owned("hits in the last ");
    push_seconds_ms(&mut hint, n.hop_view.span_ms);
    let ghost before_sec = lines@;
    let sec = one(section("when", hint.as_str(), width));
    proof {
        reveal_strlit("hits in the last ");
        assert(hint@ =~= "hits in the last "@ + seconds_text(n.hop_view.span_ms as nat));
        assert(styled(sec@) =~= plain_line(section_text("when"@, "hits in the last "@ + seconds_text(n.hop_view.span_ms as nat), width as nat), Ink::Label));
    }
    lines.push(sec);
    let ghost before_lanes = lines_text(lines@);
    let ghost before_st = styles(lines@);
    proof {
        assert(before_st =~= styles(before_sec).push(styled(sec@)));
        assert(before_st =~= start_st.push(plain_line(section_text("when"@, "hits in the last "@ + seconds_text(n.hop_view.span_ms as nat), width as nat), Ink::Label)));
    }
    let mut k: usize = 0;
    while k < l.lanes
        invariant
            k <= l.lanes <= count,
            count == n.bt_piconets@.len(),
            is_roster_order(n.bt_piconets@, order@),
            w >= 1,
            l.lane_h >= 1,
            sel == selected_lap(*n),
            lines_text(lines@) == before_lanes + lanes_text(*n, order@, k as nat, l.lane_h as nat, w as nat),
            styles(lines@) == before_st + lanes_styled(*n, order@, k as nat, l.lane_h as nat, w as nat),
        decreases l.lanes - k,
    {
        let at = order[k];
        let lap = n.bt_piconets[at].lap;
        let picked = match sel {
            Some(s) => s == lap,
            None => false,
        };
        let recede = sel.is_some() && !picked;
        lane(lines, &n.bt_hops, lap, at, picked, recede, n.hop_view.back_ms, n.hop_view.span_ms, w, l.lane_h);
        k = k + 1;
        proof {
            assert(lines_text(lines@) =~= before_lanes + lanes_text(*n, order@, k as nat, l.lane_h as nat, w as nat));
            assert(styles(lines@) =~= before_st + lanes_styled(*n, order@, k as nat, l.lane_h as nat, w as nat));
        }
    }
    let ghost step4 = lines_text(lines@);
    let ghost st4 = styles(lines@);
    if l.more > 0 {
        let mut t = owned(" +");
        push_dec(&mut t, l.more as u64);
        push_str(&mut t, " more piconets in the roster");
        let ghost before_m = lines@;
        let ml = one(piece(t, Ink::Label));
        assert(styled(ml@) =~= plain_line(t@, Ink::Label));
        lines.push(ml);
        assert(styles(lines@) =~= styles(before_m).push(plain_line(t@, Ink::Label)));
    }
    let ghost step5 = lines_text(lines@);
    let ghost st5 = styles(lines@);
    lines.push(time_axis_line(n, w, width));
    proof {
        let count = count as nat;
        let height = height as nat;
        let z4 = seq![section_text("when"@, "hits in the last "@ + seconds_text(n.hop_view.span_ms as nat), width as nat)];
        let z5 = lanes_text(*n, order@, lane_count(count, height), lane_height(count, height), w as nat);
        let z6 = if more_count(count, height) > 0 {
            seq![" +"@ + dec(more_count(count, height)) + " more piconets in the roster"@]
        } else {
            seq![]
        };
        let z7 = seq![time_axis(*n, w as nat, width as nat)];
        assert(before_lanes =~= start + z4);
        assert(step5 =~= step4 + z6);
        assert(lines_text(lines@) =~= step5 + z7);
        assert(when_part(*n, order@, width as nat, height) =~= z4 + z5 + z6 + z7);
        assert(lines_text(lines@) =~= start + when_part(*n, order@, width as nat, height));
        let s6 = if more_count(count, height) > 0 {
            seq![plain_line(" +"@ + dec(more_count(count, height)) + " more piconets in the roster"@, Ink::Label)]
        } else {
            seq![]
        };
        assert(st5 =~= st4 + s6);
        assert(styles(lines@) =~= st5.push(plain_line(time_axis(*n, w as nat, width as nat), Ink::Label)));
        assert(styles(lines@) =~= start_st + when_styled(*n, order@, width as nat, height));
    }
}

impl NetBtHopsPanel {
    /// The panel's lines, `width` by `height` inside its frame: the roster
    /// is put in its order here, and the lines are those of that order.
    pub fn lines(&self, state: &SdrMetrics, width: usize, height: usize) -> (lines: Vec<Vec<Piece>>)
        requires
            session_hits(state.net.bt_piconets@) <= u64::MAX,
        ensures
            exists|order: Seq<usize>| is_roster_order(state.net.bt_piconets@, order)
                && lines_text(lines@) == hops_lines(*state, order, width as nat, height as nat)
                && styles(lines@) == hops_styled(*state, order, width as nat, height as nat),
    {
        let n = &state.net;
        let order = roster_order(&n.bt_piconets);
        let mut lines: Vec<Vec<Piece>> = nothing();
        if width == 0 || height == 0 {
            assert(lines_text(lines@) == hops_lines(*state, order@, width as nat, height as nat));
            assert(styles(lines@) =~= hops_styled(*state, order@, width as nat, height as nat));
            return lines;
        }
        match &n.bt_refused {
            Some(reason) => {
                push_wrapped(&mut lines, "not watching", width, 4, Ink::Stale);
                push_wrapped(&mut lines, reason.as_str(), width, 4, Ink::Label);
            },
            None => {
                if n.bt_piconets.len() == 0 || height < 8 || width < SCALE + 20 {
                    let watched = n.bt_channels_watched.len();
                    let mut t = String::new();
                    if watched == 0 {
                        push_str(&mut t, "no classic receiver running");
                    } else {
                        push_str(&mut t, "watching ");
                        push_dec(&mut t, watched as u64);
                        push_str(&mut t, " channels - no access codes yet");
                    }
                    assert(t@ =~= idle_text(watched as nat));
                    push_wrapped(&mut lines, t.as_str(), width, 4, Ink::Stale);
                } else {
                    push_where(&mut lines, n, width, height);
                    push_when(&mut lines, n, &order, width, height);
                }
            },
        }
        assert(lines_text(lines@) == hops_lines(*state, order@, width as nat, height as nat));
        assert(styles(lines@) =~= hops_styled(*state, order@, width as nat, height as nat));
        lines
    }

    /// The panel in its frame, `width` by `height`: the rows a terminal shows.
    pub fn draw(&self, state: &SdrMetrics, width: usize, height: usize) -> (rows: Vec<String>)
        requires
            session_hits(state.net.bt_piconets@) <= u64::MAX,
        ensures
            exists|order: Seq<usize>| is_roster_order(state.net.bt_piconets@, order)
                && strings(rows@) == framed(
                    bar_text("Classic _Bluetooth Hops"@, hops_tags(*state)),
                    hops_lines(*state, order, (width - 2) as nat, (height - 2) as nat),
                    width as nat,
                    height as nat,
                ),
    {
        let c = self.chrome(state);
        let lines = self.lines(state, if width >= 2 { width - 2 } else { 0 }, if height >= 2 { height - 2 } else { 0 });
        draw(&c, &lines, width, height)
    }
}

} // verus!
