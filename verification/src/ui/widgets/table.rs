//! The sortable table: columns, a sort key, and a selected row.
//!
//! **The widget draws; it does not sort.** Which column orders the rows, which
//! way round, and which row the cursor is on arrive here already decided. What
//! is here is the part that is only about drawing: how the columns share a
//! width, what happens when there is not enough of it, and where the viewport
//! sits.
//!
//! **A column is dropped whole or drawn whole.** Half a column of addresses is
//! not a narrower table, it is a table that lies about what it is showing.
//! Columns go from the right, the order they were declared in.
use vstd::prelude::*;
use crate::text::{pad_left, pad_right, push_pad_left, push_pad_right, push_char, push_spaces, spaces};
use crate::ui::chrome::{
    Ink, Piece, SELECTION_GUTTER, gutter_text, line_text, push_piece, selection_gutter,
};

verus! {

/// Which way a column's text sits in its width.
#[derive(Clone, Copy, PartialEq, Eq, Debug)]
pub enum Align {
    /// Names, addresses, anything read left to right.
    Left,
    /// Numbers, so the digits line up and a column can be scanned.
    Right,
}

/// One column's shape. The contents arrive per row.
#[derive(Clone, Copy, Debug)]
pub struct Column {
    pub title: &'static str,
    /// The narrowest this column is worth drawing at.
    pub width: usize,
    pub align: Align,
}

/// Which column orders the rows, and which way.
#[derive(Clone, Copy, PartialEq, Eq, Debug)]
pub struct Sort {
    pub column: usize,
    pub descending: bool,
}

/// The marker drawn beside the sorted column's title.
pub open spec fn marker_text(descending: bool) -> Seq<char> {
    if descending { "\u{25be}"@ } else { "\u{25b4}"@ }
}

impl Sort {
    /// The marker drawn beside the sorted column's title: `▾` descending,
    /// `▴` ascending.
    pub fn marker(&self) -> (m: &'static str)
        ensures
            m@ == marker_text(self.descending),
    {
        if self.descending {
            "\u{25be}"
        } else {
            "\u{25b4}"
        }
    }
}

/// Space between columns.
pub const GAP: usize = 1;

/// The columns a table of `columns` needs for its first `k` columns, gaps
/// included and the gutter not.
pub open spec fn used(columns: Seq<Column>, k: nat) -> nat
    decreases k,
{
    if k == 0 {
        0
    } else if k == 1 {
        columns[0].width as nat
    } else {
        used(columns, (k - 1) as nat) + GAP as nat + columns[k - 1].width as nat
    }
}

/// What is left for columns once the gutter is off the top.
pub open spec fn avail(width: nat) -> nat {
    if width >= SELECTION_GUTTER { (width - SELECTION_GUTTER) as nat } else { 0 }
}

pub proof fn lemma_used_mono(columns: Seq<Column>, a: nat, b: nat)
    requires
        a <= b,
    ensures
        used(columns, a) <= used(columns, b),
    decreases b,
{
    if b > a {
        lemma_used_mono(columns, a, (b - 1) as nat);
    }
}

/// The columns that fit in `width`, in declaration order.
///
/// A column earns its place only if the whole of it fits, gap included.
/// Nothing is truncated and nothing is squeezed. The selection gutter comes
/// off the top first: every row has one.
pub fn columns_that_fit(columns: &[Column], width: usize) -> (n: usize)
    ensures
        n <= columns@.len(),
        used(columns@, n as nat) <= avail(width as nat),
        n < columns@.len() ==> used(columns@, (n + 1) as nat) > avail(width as nat),
{
    let room = if width >= SELECTION_GUTTER { width - SELECTION_GUTTER } else { 0 };
    let mut taken: usize = 0;
    let mut i: usize = 0;
    while i < columns.len()
        invariant
            i <= columns@.len(),
            room == avail(width as nat),
            taken == used(columns@, i as nat),
            taken <= room,
        decreases columns@.len() - i,
    {
        let w = columns[i].width;
        let gap: usize = if i == 0 { 0 } else { GAP };
        // `taken + gap + w > room`, without overflowing.
        if gap > room - taken || w > room - taken - gap {
            return i;
        }
        taken = taken + gap + w;
        i = i + 1;
    }
    columns.len()
}

/// The sum of the columns' declared widths.
pub open spec fn widths_sum(columns: Seq<Column>) -> nat
    decreases columns.len(),
{
    if columns.len() == 0 {
        0
    } else {
        widths_sum(columns.drop_last()) + columns.last().width as nat
    }
}

/// What a table of `columns` takes at its narrowest: gutter, widths, gaps.
pub open spec fn narrowest(columns: Seq<Column>) -> nat {
    SELECTION_GUTTER as nat + widths_sum(columns) + GAP as nat * (if columns.len() > 0 { (columns.len() - 1) as nat } else { 0nat })
}

/// Column `index` grown towards `want` from what `width` has spare.
pub open spec fn widened(columns: Seq<Column>, width: nat, index: int, want: nat) -> Seq<Column> {
    let spare: nat = if width >= narrowest(columns) { (width - narrowest(columns)) as nat } else { 0 };
    if 0 <= index < columns.len() {
        let c = columns[index];
        let grow: nat = if want > c.width { (want - c.width) as nat } else { 0 };
        let by: nat = if grow < spare { grow } else { spare };
        columns.update(index, Column { width: (c.width + by) as usize, ..c })
    } else {
        columns
    }
}

/// `columns` with column `index` grown towards `want`, from whatever `width`
/// has left once every column is laid at its narrowest.
///
/// Never narrower than declared, so [`columns_that_fit`] decides exactly
/// what it did before, and never wider than asked.
pub fn widen(columns: &[Column], width: usize, index: usize, want: usize) -> (out: Vec<Column>)
    requires
        narrowest(columns@) <= usize::MAX,
    ensures
        out@ == widened(columns@, width as nat, index as int, want as nat),
{
    let mut out: Vec<Column> = Vec::new();
    let mut sum: usize = 0;
    let mut i: usize = 0;
    while i < columns.len()
        invariant
            i <= columns@.len(),
            out@ == columns@.subrange(0, i as int),
            sum == widths_sum(columns@.subrange(0, i as int)),
            narrowest(columns@) <= usize::MAX,
        decreases columns@.len() - i,
    {
        proof {
            lemma_widths_sum_prefix(columns@, (i + 1) as nat);
            lemma_widths_sum_prefix(columns@, columns@.len());
            lemma_widths_sum_mono(columns@, (i + 1) as nat, columns@.len());
            assert(columns@.subrange(0, columns@.len() as int) =~= columns@);
        }
        sum = sum + columns[i].width;
        out.push(columns[i]);
        i = i + 1;
        proof {
            assert(out@ =~= columns@.subrange(0, i as int));
        }
    }
    assert(columns@.subrange(0, columns@.len() as int) =~= columns@);
    let gaps: usize = if columns.len() > 0 { GAP * (columns.len() - 1) } else { 0 };
    let used_all = SELECTION_GUTTER + sum + gaps;
    let spare = if width >= used_all { width - used_all } else { 0 };
    if index < out.len() {
        let c = out[index];
        let grow = if want > c.width { want - c.width } else { 0 };
        let by = if grow < spare { grow } else { spare };
        let grown = Column { width: c.width + by, ..c };
        out.set(index, grown);
    }
    out
}

/// The width sum of a prefix, one column at a time.
pub proof fn lemma_widths_sum_prefix(columns: Seq<Column>, k: nat)
    requires
        0 < k <= columns.len(),
    ensures
        widths_sum(columns.subrange(0, k as int))
            == widths_sum(columns.subrange(0, k - 1)) + columns[k - 1].width as nat,
{
    assert(columns.subrange(0, k as int).drop_last() =~= columns.subrange(0, k - 1));
}

pub proof fn lemma_widths_sum_mono(columns: Seq<Column>, a: nat, b: nat)
    requires
        a <= b <= columns.len(),
    ensures
        widths_sum(columns.subrange(0, a as int)) <= widths_sum(columns.subrange(0, b as int)),
    decreases b,
{
    if b > a {
        lemma_widths_sum_prefix(columns, b);
        lemma_widths_sum_mono(columns, a, (b - 1) as nat);
    }
}

/// The widest cell of column `i` over the first `n` rows (rows too short to
/// have one count as zero).
pub open spec fn widest(rows: Seq<Vec<String>>, i: int, n: nat) -> nat
    decreases n,
{
    if n == 0 {
        0
    } else {
        let rest = widest(rows, i, (n - 1) as nat);
        let here: nat = if 0 <= i < rows[n - 1]@.len() { rows[n - 1]@[i]@.len() } else { 0 };
        if here > rest { here } else { rest }
    }
}

/// Column `c` (at index `i`) grown to its widest cell, unless it is skipped.
pub open spec fn grown(c: Column, i: int, rows: Seq<Vec<String>>, skip: Seq<usize>) -> Column {
    if skip.contains(i as usize) {
        c
    } else {
        let w = widest(rows, i, rows.len());
        Column { width: (if w > c.width { w } else { c.width as nat }) as usize, ..c }
    }
}

/// `columns` with each one grown to the widest of its cells in `rows`, the
/// columns in `skip` left as declared.
///
/// **A reading is never cut.** The column takes what its readings need, and
/// when the table then no longer fits, [`columns_that_fit`] leaves whole
/// columns off the right instead.
pub fn grow_to_contents(columns: &[Column], rows: &[Vec<String>], skip: &[usize]) -> (out: Vec<
    Column,
>)
    requires
        forall|r: int, i: int|
            0 <= r < rows@.len() && 0 <= i < rows@[r]@.len() ==> rows@[r]@[i]@.len() <= usize::MAX,
    ensures
        out@.len() == columns@.len(),
        forall|i: int| 0 <= i < columns@.len() ==> out@[i] == grown(columns@[i], i, rows@, skip@),
{
    let mut out: Vec<Column> = Vec::new();
    let mut i: usize = 0;
    while i < columns.len()
        invariant
            i <= columns@.len(),
            out@.len() == i,
            forall|k: int| 0 <= k < i ==> out@[k] == grown(columns@[k], k, rows@, skip@),
            forall|r: int, j: int|
                0 <= r < rows@.len() && 0 <= j < rows@[r]@.len() ==> rows@[r]@[j]@.len() <= usize::MAX,
        decreases columns@.len() - i,
    {
        let c = columns[i];
        let skipped = contains_index(skip, i);
        if skipped {
            out.push(c);
        } else {
            let w = widest_cell(rows, i);
            let width = if w > c.width { w } else { c.width };
            out.push(Column { width, ..c });
        }
        i = i + 1;
    }
    out
}

/// Whether `i` is among `skip`.
fn contains_index(skip: &[usize], i: usize) -> (r: bool)
    ensures
        r == skip@.contains(i),
{
    let mut k: usize = 0;
    while k < skip.len()
        invariant
            k <= skip@.len(),
            forall|j: int| 0 <= j < k ==> skip@[j] != i,
        decreases skip@.len() - k,
    {
        if skip[k] == i {
            return true;
        }
        k = k + 1;
    }
    false
}

/// The widest cell of column `i` over all of `rows`.
fn widest_cell(rows: &[Vec<String>], i: usize) -> (w: usize)
    requires
        forall|r: int, j: int|
            0 <= r < rows@.len() && 0 <= j < rows@[r]@.len() ==> rows@[r]@[j]@.len() <= usize::MAX,
    ensures
        w == widest(rows@, i as int, rows@.len()),
{
    let mut best: usize = 0;
    let mut r: usize = 0;
    while r < rows.len()
        invariant
            r <= rows@.len(),
            best == widest(rows@, i as int, r as nat),
            forall|a: int, j: int|
                0 <= a < rows@.len() && 0 <= j < rows@[a]@.len() ==> rows@[a]@[j]@.len() <= usize::MAX,
        decreases rows@.len() - r,
    {
        if i < rows[r].len() {
            let n = rows[r][i].as_str().unicode_len();
            if n > best {
                best = n;
            }
        }
        r = r + 1;
    }
    best
}

/// A cell laid into its column: cut to the width when longer, otherwise
/// padded on the side its alignment leaves open.
pub open spec fn cell_text(text: Seq<char>, column: Column) -> Seq<char> {
    if text.len() > column.width {
        text.subrange(0, column.width as int)
    } else {
        match column.align {
            Align::Left => pad_right(text, column.width as nat),
            Align::Right => pad_left(text, column.width as nat),
        }
    }
}

/// A cell laid into its column.
///
/// Unreachable through [`grow_to_contents`] for the cut branch; a panel that
/// lays cells into declared widths without it gets a cut cell, which keeps
/// the table readable.
pub fn cell(text: &str, column: &Column) -> (s: String)
    ensures
        s@ == cell_text(text@, *column),
{
    let n = text.unicode_len();
    let mut s = String::new();
    if n > column.width {
        let cut = text.substring_char(0, column.width);
        crate::text::push_str(&mut s, cut);
    } else {
        match column.align {
            Align::Left => push_pad_right(&mut s, text, column.width),
            Align::Right => push_pad_left(&mut s, text, column.width),
        }
    }
    assert(s@ =~= cell_text(text@, *column));
    s
}

/// Where the viewport starts so that `selected` is inside it.
pub open spec fn viewport(first: nat, selected: nat, rows: nat, height: nat) -> nat {
    if height == 0 || rows == 0 {
        0
    } else {
        let last_start: nat = if rows >= height { (rows - height) as nat } else { 0 };
        let start0: nat = if first < last_start { first } else { last_start };
        let start1: nat = if selected < start0 {
            selected
        } else if selected >= start0 + height {
            (selected + 1 - height) as nat
        } else {
            start0
        };
        if start1 < last_start { start1 } else { last_start }
    }
}

/// Where the viewport starts so that `selected` is inside it.
///
/// Scrolls by the least that works, so a cursor moving down a long list does
/// not jump the whole page under it.
pub fn viewport_start(first: usize, selected: usize, rows: usize, height: usize) -> (start: usize)
    ensures
        start == viewport(first as nat, selected as nat, rows as nat, height as nat),
        // The window never runs past the end of the list, and a selection on
        // the list is inside it.
        start + height > rows ==> start == 0 || start + height == rows,
        height > 0 && selected < rows ==> start <= selected < start + height,
{
    if height == 0 || rows == 0 {
        return 0;
    }
    let last_start = if rows >= height { rows - height } else { 0 };
    let mut start = if first < last_start { first } else { last_start };
    if selected < start {
        start = selected;
    } else if selected - start >= height {
        start = selected - height + 1;
    }
    if start < last_start { start } else { last_start }
}

/// The header's text: the gutter's blank, then each title that fits (with
/// the sort marker on the sorted one) laid into its column, a gap between.
pub open spec fn header_text(columns: Seq<Column>, k: nat, sort: Sort) -> Seq<char>
    decreases k,
{
    if k == 0 {
        spaces(SELECTION_GUTTER as nat)
    } else {
        let i = k - 1;
        let title = if i == sort.column {
            columns[i].title@ + marker_text(sort.descending)
        } else {
            columns[i].title@
        };
        header_text(columns, (k - 1) as nat, sort) + (if i > 0 { spaces(GAP as nat) } else { seq![] })
            + cell_text(title, columns[i])
    }
}

/// The header row: titles, with the sort marker on the column that orders
/// them. A sort on a column that is not drawn puts no marker anywhere.
pub fn header(columns: &[Column], fit: usize, sort: Sort) -> (line: Vec<Piece>)
    requires
        fit <= columns@.len(),
    ensures
        line_text(line@) == header_text(columns@, fit as nat, sort),
{
    let mut line: Vec<Piece> = Vec::new();
    let mut lead = String::new();
    push_spaces(&mut lead, SELECTION_GUTTER);
    push_piece(&mut line, Piece { text: lead, ink: Ink::Plain, bold: false });
    let mut i: usize = 0;
    while i < fit
        invariant
            i <= fit <= columns@.len(),
            line_text(line@) == header_text(columns@, i as nat, sort),
        decreases fit - i,
    {
        if i > 0 {
            let mut gap = String::new();
            push_spaces(&mut gap, GAP);
            push_piece(&mut line, Piece { text: gap, ink: Ink::Plain, bold: false });
        }
        let sorted = i == sort.column;
        let mut title = String::new();
        crate::text::push_str(&mut title, columns[i].title);
        if sorted {
            crate::text::push_str(&mut title, sort.marker());
        }
        let laid = cell(title.as_str(), &columns[i]);
        push_piece(
            &mut line,
            Piece { text: laid, ink: if sorted { Ink::ValueHi } else { Ink::Label }, bold: false },
        );
        i = i + 1;
        proof {
            let j = (i - 1) as int;
            let t = if j == sort.column { columns@[j].title@ + marker_text(sort.descending) } else { columns@[j].title@ };
            assert(title@ =~= t);
            assert(line_text(line@) =~= header_text(columns@, i as nat, sort));
        }
    }
    line
}

/// The text of cell `i` of a row, or empty past the row's end.
pub open spec fn cell_at(cells: Seq<String>, i: int) -> Seq<char> {
    if 0 <= i < cells.len() { cells[i]@ } else { seq![] }
}

/// A row's text: the gutter, then each cell that fits laid into its column,
/// a gap between.
pub open spec fn row_text(columns: Seq<Column>, k: nat, cells: Seq<String>, selected: bool) -> Seq<char>
    decreases k,
{
    if k == 0 {
        gutter_text(selected)
    } else {
        let i = k - 1;
        row_text(columns, (k - 1) as nat, cells, selected) + (if i > 0 { spaces(GAP as nat) } else { seq![] })
            + cell_text(cell_at(cells, i), columns[i])
    }
}

/// A row's text from the characters of its cells.
pub open spec fn row_chars(columns: Seq<Column>, k: nat, cells: Seq<Seq<char>>, selected: bool) -> Seq<char>
    decreases k,
{
    if k == 0 {
        gutter_text(selected)
    } else {
        let i = k - 1;
        row_chars(columns, (k - 1) as nat, cells, selected) + (if i > 0 { spaces(GAP as nat) } else { seq![] })
            + cell_text(if 0 <= i < cells.len() { cells[i] } else { seq![] }, columns[i])
    }
}

/// A row's text depends on its cells' characters alone.
pub proof fn lemma_row_chars(columns: Seq<Column>, k: nat, cells: Seq<String>, selected: bool)
    ensures
        row_text(columns, k, cells, selected)
            == row_chars(columns, k, Seq::new(cells.len(), |i: int| cells[i]@), selected),
    decreases k,
{
    if k > 0 {
        lemma_row_chars(columns, (k - 1) as nat, cells, selected);
    }
}

/// How many columns fit: the one count [`columns_that_fit`] can return.
pub open spec fn fit_count(columns: Seq<Column>, width: nat) -> nat {
    choose|n: nat| n <= columns.len() && #[trigger] used(columns, n) <= avail(width)
        && (n < columns.len() ==> used(columns, n + 1) > avail(width))
}

/// The count of columns that fit is the only one that fits.
pub proof fn lemma_fit_unique(columns: Seq<Column>, width: nat, n: nat)
    requires
        n <= columns.len(),
        used(columns, n) <= avail(width),
        n < columns.len() ==> used(columns, n + 1) > avail(width),
    ensures
        fit_count(columns, width) == n,
{
    let m = fit_count(columns, width);
    assert(m <= columns.len() && used(columns, m) <= avail(width)
        && (m < columns.len() ==> used(columns, m + 1) > avail(width)));
    if m < n {
        lemma_used_mono(columns, m + 1, n);
    } else if n < m {
        lemma_used_mono(columns, n + 1, m);
    }
}

/// One row of cells, drawn into the columns that fit. The selected row
/// carries the mark in its gutter and reads bold.
pub fn row(columns: &[Column], fit: usize, cells: &[String], selected: bool) -> (line: Vec<Piece>)
    requires
        fit <= columns@.len(),
    ensures
        line_text(line@) == row_text(columns@, fit as nat, cells@, selected),
        forall|k: int| 0 <= k < line@.len() ==> line@[k].bold == selected,
{
    let ink = if selected { Ink::ValueHi } else { Ink::Plain };
    let mut line: Vec<Piece> = Vec::new();
    push_piece(&mut line, selection_gutter(selected));
    let mut i: usize = 0;
    while i < fit
        invariant
            i <= fit <= columns@.len(),
            ink == (if selected { Ink::ValueHi } else { Ink::Plain }),
            line_text(line@) == row_text(columns@, i as nat, cells@, selected),
            forall|k: int| 0 <= k < line@.len() ==> line@[k].bold == selected,
        decreases fit - i,
    {
        if i > 0 {
            let mut gap = String::new();
            push_spaces(&mut gap, GAP);
            push_piece(&mut line, Piece { text: gap, ink, bold: selected });
        }
        let laid = if i < cells.len() {
            cell(cells[i].as_str(), &columns[i])
        } else {
            let empty = String::new();
            cell(empty.as_str(), &columns[i])
        };
        push_piece(&mut line, Piece { text: laid, ink, bold: selected });
        i = i + 1;
        proof {
            assert(line_text(line@) =~= row_text(columns@, i as nat, cells@, selected));
        }
    }
    line
}

} // verus!
