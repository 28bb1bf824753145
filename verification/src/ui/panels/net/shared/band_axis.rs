//! The band across a panel's width: which megahertz cells each column covers,
//! which column a cell is drawn in, and the ruler written under them.
//!
//! **One mapping for every panel that draws the band across.** The occupancy
//! profile and the coexistence heatmap share a ruler, and a shared ruler is
//! only honest if a column means the same megahertz in both.
//!
//! A column covers `cells[lo..hi]`, `lo = x * CELLS / width`: when the panel is
//! narrower than the band a column holds several cells, and when it is wider a
//! cell spans several columns.
use vstd::prelude::*;
use std::ops::Range;
use crate::band::{CELLS, HIGH_HZ, LOW_HZ, cell, cell_of, wifi_centre, wifi_centre_hz};
use crate::text::{dec, digit, digit_char, lemma_dec_nonempty, pad_right, push_char, push_dec, push_pad_right, push_str, spaces};
use crate::ui::widgets::canvas::{band_hi, band_lo, band_range};

verus! {

/// The width a band drawing actually uses: at least one column.
pub open spec fn cols(width: nat) -> nat {
    if width > 0 { width } else { 1 }
}

/// Whether column `x` of a `width`-column band covers cell `c`.
pub open spec fn covers(x: nat, width: nat, c: nat) -> bool {
    band_lo(CELLS as nat, cols(width), x) <= c < band_hi(CELLS as nat, cols(width), x)
}

/// The cells column `x` of a `width`-column band covers. Never empty.
///
/// The canvas's own `band_range`, so the heatmap's fold into `width` columns
/// and this mapping are one function rather than two that agree.
pub fn cells_of(x: usize, width: usize) -> (r: Range<usize>)
    requires
        x < usize::MAX,
        (x + 1) * CELLS <= usize::MAX,
    ensures
        r.start == band_lo(CELLS as nat, cols(width as nat), x as nat),
        r.end == band_hi(CELLS as nat, cols(width as nat), x as nat),
{
    band_range(CELLS, if width > 0 { width } else { 1 }, x)
}

/// The first column from `k` on whose cells include `c`, or the last column
/// when none does.
pub open spec fn col_from(c: nat, width: nat, k: nat) -> nat
    decreases cols(width) - k,
{
    if k >= cols(width) {
        if width > 0 { (width - 1) as nat } else { 0 }
    } else if covers(k, width, c) {
        k
    } else {
        col_from(c, width, k + 1)
    }
}

/// The column cell `c` is drawn in: the first whose cells include it, or the
/// last column when none does.
pub open spec fn column_at(c: nat, width: nat) -> nat {
    col_from(c, width, 0)
}

/// The column cell `cell` is drawn in: the first whose cells include it, or
/// the last column when none does.
pub fn column_of(c: usize, width: usize) -> (x: usize)
    requires
        width * CELLS <= usize::MAX,
    ensures
        x == column_at(c as nat, width as nat),
        (exists|k: nat| k < cols(width as nat) && covers(k, width as nat, c as nat)) ==> {
            &&& x < cols(width as nat)
            &&& covers(x as nat, width as nat, c as nat)
            &&& forall|k: nat| k < x ==> !covers(k, width as nat, c as nat)
        },
        !(exists|k: nat| k < cols(width as nat) && covers(k, width as nat, c as nat)) ==> x == (if width > 0 { (width - 1) as nat } else { 0nat }),
{
    let n = if width > 0 { width } else { 1 };
    let mut k: usize = 0;
    while k < n
        invariant
            k <= n,
            n == cols(width as nat),
            width * CELLS <= usize::MAX,
            forall|j: nat| j < k ==> !covers(j, width as nat, c as nat),
            col_from(c as nat, width as nat, k as nat) == column_at(c as nat, width as nat),
        decreases n - k,
    {
        assert((k + 1) * CELLS <= n * CELLS) by (nonlinear_arith)
            requires k < n;
        assert(k < usize::MAX);
        assert(n * CELLS <= usize::MAX) by (nonlinear_arith)
            requires width * CELLS <= usize::MAX, n == (if width > 0 { width as int } else { 1 });
        let r = cells_of(k, width);
        if r.start <= c && c < r.end {
            assert(covers(k as nat, width as nat, c as nat));
            return k;
        }
        k = k + 1;
    }
    if width > 0 { width - 1 } else { 0 }
}

/// **A cell is drawn in the first column that covers it**, at every width of
/// at least one column: that column is inside the row, covers the cell, and
/// no column before it does.
pub proof fn lemma_column_at_first_cover(c: nat, width: nat)
    requires
        c < CELLS,
        width >= 1,
    ensures
        column_at(c, width) < width,
        covers(column_at(c, width), width, c),
        forall|k: nat| k < column_at(c, width) ==> !covers(k, width, c),
{
    lemma_every_cell_has_a_column(c, width);
    let w = choose|k: nat| k < width && covers(k, width, c);
    lemma_col_from(c, width, 0, w);
}

/// Scanning from `k`, at or before a covering column `w`, finds the first
/// covering column at or after `k`.
proof fn lemma_col_from(c: nat, width: nat, k: nat, w: nat)
    requires
        width >= 1,
        k <= w < width,
        covers(w, width, c),
    ensures
        k <= col_from(c, width, k) <= w,
        covers(col_from(c, width, k), width, c),
        forall|j: nat| k <= j < col_from(c, width, k) ==> !covers(j, width, c),
    decreases w - k,
{
    if !covers(k, width, c) {
        lemma_col_from(c, width, k + 1, w);
    }
}

/// **Every cell lands in a column that covers it, and every column covers at
/// least one cell**, at every width a panel can have: the mapping and its
/// inverse agree.
pub proof fn lemma_every_cell_has_a_column(c: nat, width: nat)
    requires
        c < CELLS,
        width >= 1,
    ensures
        exists|k: nat| k < width && covers(k, width, c),
{
    lemma_find_column(c, width, 0);
}

/// Scanning from column `x`, whose first cell is at or below `c`, some
/// column at or after `x` covers `c`.
proof fn lemma_find_column(c: nat, width: nat, x: nat)
    requires
        c < CELLS,
        width >= 1,
        x < width,
        band_lo(CELLS as nat, width, x) <= c,
    ensures
        exists|k: nat| k < width && covers(k, width, c),
    decreases width - x,
{
    let lo = band_lo(CELLS as nat, width, x);
    let next = ((x + 1) * (CELLS as nat) / width) as nat;
    assert(next <= CELLS) by (nonlinear_arith)
        requires x < width, width >= 1, next == (x + 1) * (CELLS as int) / (width as int);
    if x + 1 == width {
        assert(next == CELLS) by (nonlinear_arith)
            requires x + 1 == width, width >= 1, next == (x + 1) * (CELLS as int) / (width as int);
        assert(covers(x, width, c));
    } else if band_lo(CELLS as nat, width, x + 1) > c {
        assert(band_lo(CELLS as nat, width, x + 1) == next);
        assert(covers(x, width, c));
    } else {
        lemma_find_column(c, width, x + 1);
    }
}

/// Every column of the band covers at least one cell.
pub proof fn lemma_every_column_covers_a_cell(x: nat, width: nat)
    requires
        x < width,
    ensures
        band_lo(CELLS as nat, width, x) < band_hi(CELLS as nat, width, x),
{
    assert(x * (CELLS as nat) / width < CELLS as nat) by (nonlinear_arith)
        requires x < width;
}

/// The label for Wi-Fi channel `ch`, centred on the column of its centre,
/// written into `row` only when it fits and treads on no other label.
pub open spec fn place(row: Seq<char>, width: nat, ch: nat) -> Seq<char> {
    match wifi_centre(ch) {
        None => row,
        Some(hz) => match cell(hz) {
            None => row,
            Some(c) => {
                let at = column_at(c, width);
                let label = dec(ch);
                let half = label.len() / 2;
                let start: nat = if at >= half { (at - half) as nat } else { 0 };
                if start + label.len() > width {
                    row
                } else if (forall|i: int| start <= i < start + label.len() ==> row[i] == ' ')
                    && (start == 0 || row[start - 1] == ' ') {
                    row.subrange(0, start as int) + label + row.subrange((start + label.len()) as int, row.len() as int)
                } else {
                    row
                }
            },
        },
    }
}

/// **A channel number sits under the column its centre is drawn in**:
/// wherever `place` writes channel `ch`'s label, the label covers the
/// column `column_at` gives the cell of its centre frequency, the column
/// the band's cells are drawn in.
pub proof fn lemma_label_under_its_column(row: Seq<char>, width: nat, ch: nat, hz: nat, c: nat)
    requires
        wifi_centre(ch) == Some(hz),
        cell(hz) == Some(c),
        row.len() == width,
    ensures
        ({
            let at = column_at(c, width);
            let label = dec(ch);
            let start: nat = if at >= label.len() / 2 { (at - label.len() / 2) as nat } else { 0 };
            &&& start <= at < start + label.len()
            &&& place(row, width, ch) != row ==> place(row, width, ch).subrange(start as int, (start + label.len()) as int) == label
        }),
{
    lemma_dec_nonempty(ch);
    let at = column_at(c, width);
    let label = dec(ch);
    let start: nat = if at >= label.len() / 2 { (at - label.len() / 2) as nat } else { 0 };
    if place(row, width, ch) != row {
        let out = place(row, width, ch);
        assert(out.subrange(start as int, (start + label.len()) as int) =~= label);
    }
}

/// The ruler after channels 1 to `k` have been placed.
pub open spec fn ruler_row(width: nat, k: nat) -> Seq<char>
    decreases k,
{
    if k == 0 {
        spaces(width)
    } else {
        place(ruler_row(width, (k - 1) as nat), width, k)
    }
}

/// The digits of a channel number below a hundred.
pub(crate) fn label_chars(ch: u8) -> (v: Vec<char>)
    requires
        ch < 100,
    ensures
        v@ == dec(ch as nat),
        1 <= v@.len() <= 2,
{
    let mut v: Vec<char> = Vec::new();
    if ch >= 10 {
        v.push(digit_char((ch / 10) as u64));
    }
    v.push(digit_char((ch % 10) as u64));
    proof {
        reveal_with_fuel(dec, 2);
        assert(v@ =~= dec(ch as nat));
    }
    v
}

/// Writes channel `ch`'s label into `row` as `place` says.
fn place_label(row: &mut Vec<char>, width: usize, ch: u8)
    requires
        old(row)@.len() == width,
        1 <= ch <= 13,
        width * CELLS <= usize::MAX,
    ensures
        final(row)@ == place(old(row)@, width as nat, ch as nat),
        final(row)@.len() == width,
{
    let hz = match wifi_centre_hz(ch) {
        Some(h) => h,
        None => return,
    };
    let c = match cell_of(hz) {
        Some(k) => k,
        None => return,
    };
    let at = column_of(c, width);
    let label = label_chars(ch);
    let n = label.len();
    let half = n / 2;
    let start = if at >= half { at - half } else { 0 };
    if start + n > width {
        return;
    }
    let mut clear = start == 0 || row[start - 1] == ' ';
    let mut i: usize = start;
    while i < start + n
        invariant
            start <= i <= start + n <= width,
            row@.len() == width,
            clear ==> forall|j: int| start <= j < i ==> row@[j] == ' ',
            clear ==> (start == 0 || row@[start - 1] == ' '),
            !clear ==> !((forall|j: int| start <= j < start + n ==> row@[j] == ' ') && (start == 0 || row@[start - 1] == ' ')),
        decreases start + n - i,
    {
        if row[i] != ' ' {
            clear = false;
        }
        i = i + 1;
    }
    if clear {
        let ghost before = row@;
        let mut j: usize = 0;
        while j < n
            invariant
                j <= n,
                n == label@.len(),
                start + n <= width,
                before.len() == width,
                row@.len() == width,
                row@ == before.subrange(0, start as int) + label@.subrange(0, j as int)
                    + before.subrange(start + j, width as int),
            decreases n - j,
        {
            row.set(start + j, label[j]);
            j = j + 1;
            proof {
                assert(row@ =~= before.subrange(0, start as int) + label@.subrange(0, j as int)
                    + before.subrange(start + j, width as int));
            }
        }
        proof {
            assert(label@.subrange(0, n as int) =~= label@);
        }
    }
}

/// The Wi-Fi channel numbers written under the columns they are centred on,
/// where they fit without treading on each other.
pub fn ruler(width: usize) -> (s: String)
    requires
        width * CELLS <= usize::MAX,
    ensures
        s@ == ruler_row(width as nat, 13),
{
    let mut row: Vec<char> = Vec::new();
    let mut i: usize = 0;
    while i < width
        invariant
            i <= width,
            row@ == spaces(i as nat),
        decreases width - i,
    {
        row.push(' ');
        i = i + 1;
        assert(row@ =~= spaces(i as nat));
    }
    let mut ch: u8 = 1;
    while ch <= 13
        invariant
            1 <= ch <= 14,
            row@ == ruler_row(width as nat, (ch - 1) as nat),
            row@.len() == width,
            width * CELLS <= usize::MAX,
        decreases 14 - ch,
    {
        place_label(&mut row, width, ch);
        ch = ch + 1;
    }
    chars_to_string(&row)
}

/// The characters of `v`, as a string.
pub fn chars_to_string(v: &Vec<char>) -> (s: String)
    ensures
        s@ == v@,
{
    let mut s = String::new();
    let mut i: usize = 0;
    while i < v.len()
        invariant
            i <= v@.len(),
            s@ == v@.subrange(0, i as int),
        decreases v@.len() - i,
    {
        push_char(&mut s, v[i]);
        i = i + 1;
        assert(s@ =~= v@.subrange(0, i as int));
    }
    assert(v@.subrange(0, v@.len() as int) =~= v@);
    s
}

/// `2400 MHz ... 2483 MHz`: the band's two edges at the ends of a row of
/// `width` columns.
pub open spec fn edges_text(width: nat) -> Seq<char> {
    pad_right(dec(LOW_HZ as nat / 1_000_000) + " MHz"@, if width >= 8 { (width - 8) as nat } else { 0 })
        + dec(HIGH_HZ as nat / 1_000_000) + " MHz"@
}

/// `2400 MHz ... 2483 MHz`, the band's two edges at the ends of the row.
pub fn edges(width: usize) -> (s: String)
    ensures
        s@ == edges_text(width as nat),
{
    let mut low = String::new();
    push_dec(&mut low, LOW_HZ / 1_000_000);
    push_str(&mut low, " MHz");
    let mut s = String::new();
    push_pad_right(&mut s, low.as_str(), if width >= 8 { width - 8 } else { 0 });
    push_dec(&mut s, HIGH_HZ / 1_000_000);
    push_str(&mut s, " MHz");
    assert(s@ =~= edges_text(width as nat));
    s
}

} // verus!
