//! The frame every panel is drawn in: a box with the title and the tags on
//! its top edge, and the panel's lines inside it, each cut to the box.
//!
//! A tag is the panel's account of itself in one word: which way the table
//! is sorted, that the feed lost blocks, that the list is paused. The frame
//! says them on the edge, where the eye finds them before the numbers.
use vstd::prelude::*;
use crate::text::{push_char, push_repeat, push_str, repeat};
use crate::ui::chrome::{line_text, styled, Ink, Piece};

verus! {

/// The first `w` characters of `s`, or all of it when it is shorter.
pub open spec fn take(s: Seq<char>, w: nat) -> Seq<char> {
    if s.len() <= w { s } else { s.subrange(0, w as int) }
}

/// `s` cut to `w` columns and filled out to them with `c`.
pub open spec fn fill(s: Seq<char>, w: nat, c: char) -> Seq<char> {
    take(s, w) + repeat(c, (w - take(s, w).len()) as nat)
}

/// A title as the frame shows it: the focus letter's mark (`_`) left out.
pub open spec fn shown_title(t: Seq<char>) -> Seq<char>
    decreases t.len(),
{
    if t.len() == 0 {
        seq![]
    } else if t.last() == '_' {
        shown_title(t.drop_last())
    } else {
        shown_title(t.drop_last()).push(t.last())
    }
}

/// The tags as they follow the title: ` [TAG]` each.
pub open spec fn tags_text(tags: Seq<Seq<char>>) -> Seq<char>
    decreases tags.len(),
{
    if tags.len() == 0 {
        seq![]
    } else {
        tags_text(tags.drop_last()) + seq![' ', '['] + tags.last() + seq![']']
    }
}

/// What the top edge says: `─ Title [TAG] [TAG] `.
pub open spec fn bar_text(title: Seq<char>, tags: Seq<Seq<char>>) -> Seq<char> {
    seq!['\u{2500}', ' '] + shown_title(title) + tags_text(tags) + seq![' ']
}

/// The characters of each string.
pub open spec fn strings(v: Seq<String>) -> Seq<Seq<char>> {
    Seq::new(v.len(), |i: int| v[i]@)
}

/// The characters of each line.
pub open spec fn lines_text(lines: Seq<Vec<Piece>>) -> Seq<Seq<char>> {
    Seq::new(lines.len(), |i: int| line_text(lines[i]@))
}

/// Each line as it is drawn.
pub open spec fn styles(lines: Seq<Vec<Piece>>) -> Seq<Seq<(Seq<char>, Ink, bool)>> {
    Seq::new(lines.len(), |i: int| styled(lines[i]@))
}

/// Row `i` inside a box `inner` columns wide: the line, or nothing past the
/// last, between the two sides.
pub open spec fn body_row(lines: Seq<Seq<char>>, i: int, inner: nat) -> Seq<char> {
    let content = if i < lines.len() { lines[i] } else { seq![] };
    seq!['\u{2502}'] + fill(content, inner, ' ') + seq!['\u{2502}']
}

/// The rows of a `width` by `height` frame around `lines`: the top edge with
/// its bar, as many lines as fit, and the bottom edge. Nothing at all where
/// there is no room for the two edges.
pub open spec fn framed(bar: Seq<char>, lines: Seq<Seq<char>>, width: nat, height: nat) -> Seq<Seq<char>> {
    if width < 2 || height < 2 {
        seq![]
    } else {
        let inner = (width - 2) as nat;
        seq![seq!['\u{250c}'] + fill(bar, inner, '\u{2500}') + seq!['\u{2510}']]
            + Seq::new((height - 2) as nat, |i: int| body_row(lines, i, inner))
            + seq![seq!['\u{2514}'] + repeat('\u{2500}', inner) + seq!['\u{2518}']]
    }
}

/// What a panel says about itself on its frame.
pub struct PanelChrome {
    /// The title, with `_` before the focus letter.
    pub title: String,
    /// The tags, in the order they were added.
    pub tags: Vec<String>,
}

impl PanelChrome {
    /// A frame titled `title` with no tags.
    pub fn new(title: &str) -> (c: PanelChrome)
        ensures
            c.title@ == title@,
            c.tags@.len() == 0,
    {
        PanelChrome { title: crate::text::owned(title), tags: Vec::new() }
    }

    /// Adds `tag` when `when` holds.
    pub fn tag_if(self, when: bool, tag: String) -> (c: PanelChrome)
        ensures
            c.title@ == self.title@,
            strings(c.tags@) == if when { strings(self.tags@).push(tag@) } else { strings(self.tags@) },
    {
        let mut c = self;
        if when {
            let ghost before = c.tags@;
            c.tags.push(tag);
            assert(strings(c.tags@) =~= strings(before).push(tag@));
        }
        c
    }

    /// The top edge's text, before it is cut to the box.
    pub fn bar(&self) -> (s: String)
        ensures
            s@ == bar_text(self.title@, strings(self.tags@)),
    {
        let mut s = String::new();
        push_char(&mut s, '\u{2500}');
        push_char(&mut s, ' ');
        let t = self.title.as_str();
        let n = t.unicode_len();
        let mut i: usize = 0;
        let ghost start = s@;
        while i < n
            invariant
                i <= n,
                n == t@.len(),
                t@ == self.title@,
                s@ == start + shown_title(t@.subrange(0, i as int)),
            decreases n - i,
        {
            let c = t.get_char(i);
            proof {
                assert(t@.subrange(0, i + 1).drop_last() =~= t@.subrange(0, i as int));
            }
            if c != '_' {
                push_char(&mut s, c);
            }
            i = i + 1;
        }
        assert(t@.subrange(0, n as int) =~= t@);
        let ghost mid = s@;
        let mut k: usize = 0;
        while k < self.tags.len()
            invariant
                k <= self.tags@.len(),
                s@ == mid + tags_text(strings(self.tags@).subrange(0, k as int)),
            decreases self.tags@.len() - k,
        {
            push_char(&mut s, ' ');
            push_char(&mut s, '[');
            push_str(&mut s, self.tags[k].as_str());
            push_char(&mut s, ']');
            proof {
                let all = strings(self.tags@);
                assert(all.subrange(0, k + 1).drop_last() =~= all.subrange(0, k as int));
                assert(all.subrange(0, k + 1).last() == self.tags@[k as int]@);
                assert(s@ =~= mid + tags_text(all.subrange(0, k + 1)));
            }
            k = k + 1;
        }
        assert(strings(self.tags@).subrange(0, self.tags@.len() as int) =~= strings(self.tags@));
        push_char(&mut s, ' ');
        s
    }
}

/// A line's text, its pieces run together.
pub fn line_string(line: &Vec<Piece>) -> (s: String)
    ensures
        s@ == line_text(line@),
{
    let mut s = String::new();
    let mut i: usize = 0;
    while i < line.len()
        invariant
            i <= line@.len(),
            s@ == line_text(line@.subrange(0, i as int)),
        decreases line@.len() - i,
    {
        push_str(&mut s, line[i].text.as_str());
        proof {
            assert(line@.subrange(0, i + 1).drop_last() =~= line@.subrange(0, i as int));
        }
        i = i + 1;
    }
    assert(line@.subrange(0, line@.len() as int) =~= line@);
    s
}

/// Appends `t` cut to `w` columns and filled out to them with `c`.
pub fn push_fill(s: &mut String, t: &str, w: usize, c: char)
    ensures
        final(s)@ == old(s)@ + fill(t@, w as nat, c),
{
    let n = t.unicode_len();
    if n <= w {
        push_str(s, t);
        push_repeat(s, c, w - n);
    } else {
        push_str(s, t.substring_char(0, w));
        push_repeat(s, c, 0);
    }
}

/// The panel's lines in its frame, `width` by `height`: what the terminal
/// shows, one string per row.
pub fn draw(chrome: &PanelChrome, lines: &Vec<Vec<Piece>>, width: usize, height: usize) -> (rows: Vec<String>)
    ensures
        strings(rows@) == framed(bar_text(chrome.title@, strings(chrome.tags@)), lines_text(lines@), width as nat, height as nat),
{
    let mut rows: Vec<String> = Vec::new();
    if width < 2 || height < 2 {
        assert(strings(rows@) =~= seq![]);
        return rows;
    }
    let inner = width - 2;
    let ghost texts = lines_text(lines@);
    let ghost bar_v = bar_text(chrome.title@, strings(chrome.tags@));
    let mut top = String::new();
    push_char(&mut top, '\u{250c}');
    let bar = chrome.bar();
    push_fill(&mut top, bar.as_str(), inner, '\u{2500}');
    push_char(&mut top, '\u{2510}');
    rows.push(top);
    proof {
        assert(top@ =~= seq!['\u{250c}'] + fill(bar_v, inner as nat, '\u{2500}') + seq!['\u{2510}']);
        assert(strings(rows@) =~= seq![top@]);
        assert(Seq::new(0nat, |j: int| body_row(texts, j, inner as nat)) =~= Seq::<Seq<char>>::empty());
        assert(strings(rows@) =~= seq![seq!['\u{250c}'] + fill(bar_v, inner as nat, '\u{2500}') + seq!['\u{2510}']]
            + Seq::new(0nat, |j: int| body_row(texts, j, inner as nat)));
    }
    let mut i: usize = 0;
    while i < height - 2
        invariant
            2 <= height,
            inner == width - 2,
            i <= height - 2,
            texts == lines_text(lines@),
            strings(rows@) == seq![seq!['\u{250c}'] + fill(bar_v, inner as nat, '\u{2500}') + seq!['\u{2510}']]
                + Seq::new(i as nat, |j: int| body_row(texts, j, inner as nat)),
        decreases height - 2 - i,
    {
        let mut row = String::new();
        push_char(&mut row, '\u{2502}');
        if i < lines.len() {
            let t = line_string(&lines[i]);
            push_fill(&mut row, t.as_str(), inner, ' ');
        } else {
            push_fill(&mut row, "", inner, ' ');
            proof {
                assert(""@ =~= Seq::<char>::empty()) by { reveal_strlit(""); }
            }
        }
        push_char(&mut row, '\u{2502}');
        let ghost before = strings(rows@);
        rows.push(row);
        proof {
            assert(row@ =~= body_row(texts, i as int, inner as nat));
            assert(strings(rows@) =~= before.push(row@));
            assert(Seq::new((i + 1) as nat, |j: int| body_row(texts, j, inner as nat))
                =~= Seq::new(i as nat, |j: int| body_row(texts, j, inner as nat)).push(body_row(texts, i as int, inner as nat)));
        }
        i = i + 1;
    }
    let mut bottom = String::new();
    push_char(&mut bottom, '\u{2514}');
    push_repeat(&mut bottom, '\u{2500}', inner);
    push_char(&mut bottom, '\u{2518}');
    let ghost before = strings(rows@);
    rows.push(bottom);
    assert(strings(rows@) =~= before.push(bottom@));
    assert(bottom@ =~= seq!['\u{2514}'] + repeat('\u{2500}', inner as nat) + seq!['\u{2518}']);
    assert(strings(rows@) =~= framed(bar_v, texts, width as nat, height as nat));
    rows
}


/// Every frame is exactly the size it was given: `height` rows of `width`
/// columns each, whatever the panel's lines hold, so no row runs past the
/// frame; nothing at all where the two edges do not fit.
pub proof fn lemma_framed_fits(bar: Seq<char>, lines: Seq<Seq<char>>, width: nat, height: nat)
    ensures
        width >= 2 && height >= 2 ==> framed(bar, lines, width, height).len() == height,
        width < 2 || height < 2 ==> framed(bar, lines, width, height).len() == 0,
        forall|i: int| 0 <= i < framed(bar, lines, width, height).len()
            ==> #[trigger] framed(bar, lines, width, height)[i].len() == width,
{
    if width >= 2 && height >= 2 {
        let inner = (width - 2) as nat;
        let rows = framed(bar, lines, width, height);
        assert forall|i: int| 0 <= i < rows.len() implies #[trigger] rows[i].len() == width by {
            if i == 0 {
                assert(rows[0] == seq!['\u{250c}'] + fill(bar, inner, '\u{2500}') + seq!['\u{2510}']);
            } else if i < height - 1 {
                assert(rows[i] == body_row(lines, i - 1, inner));
            } else {
                assert(rows[i] == seq!['\u{2514}'] + repeat('\u{2500}', inner) + seq!['\u{2518}']);
            }
        }
    }
}

/// How many of the first `i` lines are blank.
pub open spec fn blanks_before(lines: Seq<Seq<char>>, i: nat) -> nat
    decreases i,
{
    if i == 0 || i > lines.len() {
        0
    } else {
        blanks_before(lines, (i - 1) as nat) + if lines[i - 1].len() == 0 { 1nat } else { 0nat }
    }
}

/// The rows spacer `k` (counting from the top) takes when `n` lines, `s` of
/// them spacers, go in `height` rows. Too many lines: the spacers go, the
/// lowest first, one for each line too many. Room to spare: it is shared
/// among the spacers, the upper ones taking what does not divide evenly.
pub open spec fn spacer_rows(n: nat, s: nat, height: nat, k: nat) -> nat {
    if n > height {
        if k + (n - height) >= s { 0 } else { 1 }
    } else {
        let extra = (height - n) as nat;
        1 + extra / s + if k < extra % s { 1nat } else { 0nat }
    }
}

/// `c` blank rows.
pub open spec fn blank_rows(c: nat) -> Seq<Seq<char>> {
    Seq::new(c, |j: int| Seq::<char>::empty())
}

/// The first `i` lines with each blank one given its rows.
pub open spec fn fitted_upto(lines: Seq<Seq<char>>, height: nat, i: nat) -> Seq<Seq<char>>
    decreases i,
{
    if i == 0 || i > lines.len() {
        seq![]
    } else {
        let prev = fitted_upto(lines, height, (i - 1) as nat);
        let l = lines[i - 1];
        if l.len() == 0 {
            let s = blanks_before(lines, lines.len());
            prev + blank_rows(spacer_rows(lines.len(), s, height, blanks_before(lines, (i - 1) as nat)))
        } else {
            prev.push(l)
        }
    }
}

/// `lines` fitted to `height` rows by their blank lines alone: the spacers
/// grow on a tall panel and go first on a short one, and no other line is
/// touched.
pub open spec fn fitted(lines: Seq<Seq<char>>, height: nat) -> Seq<Seq<char>> {
    fitted_upto(lines, height, lines.len())
}

/// The lines that are not blank, in order.
pub open spec fn kept(lines: Seq<Seq<char>>) -> Seq<Seq<char>>
    decreases lines.len(),
{
    if lines.len() == 0 {
        seq![]
    } else if lines.last().len() == 0 {
        kept(lines.drop_last())
    } else {
        kept(lines.drop_last()).push(lines.last())
    }
}

/// The rows the first `m` spacers take.
pub open spec fn spacer_total(n: nat, s: nat, height: nat, m: nat) -> nat
    decreases m,
{
    if m == 0 { 0 } else { spacer_total(n, s, height, (m - 1) as nat) + spacer_rows(n, s, height, (m - 1) as nat) }
}

/// How many rows `n` lines with `s` spacers take once fitted to `height`:
/// exactly the height where there is room and a spacer to take it; where
/// there is too little, as many fewer than `n` as there are spacers to give
/// up, and never a line more.
pub open spec fn fitted_len(n: nat, s: nat, height: nat) -> nat {
    if n > height {
        if n - height >= s { (n - s) as nat } else { height }
    } else if s > 0 {
        height
    } else {
        n
    }
}

/// Fitting touches the blank lines alone: the others come through every
/// one, in order and unchanged; and the result is as tall as the height
/// wherever the spacers can make it so: grown to it on a tall panel, cut to
/// it on a short one, the spacers going before any other line.
pub proof fn lemma_fitted(lines: Seq<Seq<char>>, height: nat)
    ensures
        kept(fitted(lines, height)) == kept(lines),
        fitted(lines, height).len() == fitted_len(lines.len(), blanks_before(lines, lines.len()), height),
{
    let n = lines.len();
    let s = blanks_before(lines, n);
    lemma_fitted_prefix(lines, height, n);
    assert(lines.subrange(0, n as int) =~= lines);
    lemma_blanks_at_most(lines, n);
    lemma_spacer_total(n, s, height, s);
}

/// A blank-free count never exceeds the lines counted.
proof fn lemma_blanks_at_most(lines: Seq<Seq<char>>, i: nat)
    ensures
        blanks_before(lines, i) <= i,
    decreases i,
{
    if i > 0 {
        lemma_blanks_at_most(lines, (i - 1) as nat);
    }
}

/// The not-blank lines of two runs are those of each, in turn.
proof fn lemma_kept_concat(a: Seq<Seq<char>>, b: Seq<Seq<char>>)
    ensures
        kept(a + b) == kept(a) + kept(b),
    decreases b.len(),
{
    if b.len() == 0 {
        assert(a + b =~= a);
        assert(kept(a) + kept(b) =~= kept(a));
    } else {
        lemma_kept_concat(a, b.drop_last());
        assert((a + b).drop_last() =~= a + b.drop_last());
        assert((a + b).last() == b.last());
        if b.last().len() == 0 {
        } else {
            assert(kept(a) + kept(b.drop_last()).push(b.last()) =~= (kept(a) + kept(b.drop_last())).push(b.last()));
        }
    }
}

/// Blank rows hold no line.
proof fn lemma_kept_blank(c: nat)
    ensures
        kept(blank_rows(c)) == Seq::<Seq<char>>::empty(),
    decreases c,
{
    if c > 0 {
        assert(blank_rows(c).drop_last() =~= blank_rows((c - 1) as nat));
        lemma_kept_blank((c - 1) as nat);
    } else {
        assert(blank_rows(c) =~= Seq::<Seq<char>>::empty());
    }
}

/// What the first `i` lines become: their not-blank lines, and as many rows
/// as those lines and the spacers among them take.
proof fn lemma_fitted_prefix(lines: Seq<Seq<char>>, height: nat, i: nat)
    requires
        i <= lines.len(),
    ensures
        kept(fitted_upto(lines, height, i)) == kept(lines.subrange(0, i as int)),
        fitted_upto(lines, height, i).len() == i - blanks_before(lines, i)
            + spacer_total(lines.len(), blanks_before(lines, lines.len()), height, blanks_before(lines, i)),
        blanks_before(lines, i) <= i,
    decreases i,
{
    let n = lines.len();
    let s = blanks_before(lines, n);
    if i == 0 {
        assert(lines.subrange(0, 0) =~= Seq::<Seq<char>>::empty());
    } else {
        lemma_fitted_prefix(lines, height, (i - 1) as nat);
        let prev = fitted_upto(lines, height, (i - 1) as nat);
        let l = lines[i - 1];
        assert(lines.subrange(0, i as int).drop_last() =~= lines.subrange(0, i - 1));
        assert(lines.subrange(0, i as int).last() == l);
        if l.len() == 0 {
            let c = spacer_rows(n, s, height, blanks_before(lines, (i - 1) as nat));
            lemma_kept_concat(prev, blank_rows(c));
            lemma_kept_blank(c);
            assert(kept(prev) + Seq::<Seq<char>>::empty() =~= kept(prev));
        } else {
            assert(prev.push(l) =~= prev + seq![l]);
            lemma_kept_concat(prev, seq![l]);
            assert(seq![l].drop_last() =~= Seq::<Seq<char>>::empty());
            assert(seq![l].last() == l);
            assert(kept(Seq::<Seq<char>>::empty()) == Seq::<Seq<char>>::empty());
            assert(Seq::<Seq<char>>::empty().push(l) =~= seq![l]);
            assert(kept(seq![l]) == seq![l]);
            assert(kept(prev) + seq![l] =~= kept(prev).push(l));
        }
    }
}

/// The rows all the spacers take, added up.
proof fn lemma_spacer_total(n: nat, s: nat, height: nat, m: nat)
    requires
        m <= s,
    ensures
        n > height ==> spacer_total(n, s, height, m) == if m + (n - height) <= s { m } else if n - height >= s { 0 } else { (s - (n - height)) as nat },
        n <= height && s > 0 ==> spacer_total(n, s, height, m)
            == m * (1 + (height - n) as nat / s) + if m <= (height - n) as nat % s { m } else { (height - n) as nat % s },
        n <= height && s > 0 && m == s ==> spacer_total(n, s, height, m) == s + (height - n),
    decreases m,
{
    if m > 0 {
        lemma_spacer_total(n, s, height, (m - 1) as nat);
        if n <= height && s > 0 {
            let e = (height - n) as nat;
            assert(m * (1 + e / s) == (m - 1) * (1 + e / s) + (1 + e / s)) by (nonlinear_arith);
        }
    }
    if n <= height && s > 0 && m == s {
        let e = (height - n) as nat;
        assert(s * (e / s) + e % s == e) by (nonlinear_arith) requires s > 0;
        assert(e % s < s) by (nonlinear_arith) requires s > 0;
        assert(s * (1 + e / s) == s + s * (e / s)) by (nonlinear_arith);
    }
}

/// The rows spacer `k` takes.
fn spacer_rows_of(n: usize, s: usize, height: usize, k: usize) -> (c: usize)
    requires
        k < s,
        height <= 0xffff,
    ensures
        c == spacer_rows(n as nat, s as nat, height as nat, k as nat),
        c <= height + 2,
{
    if n > height {
        if n - height >= s || k >= s - (n - height) { 0 } else { 1 }
    } else {
        let extra = height - n;
        assert(extra / s <= extra) by (nonlinear_arith) requires s >= 1, extra >= 0;
        1 + extra / s + if k < extra % s { 1 } else { 0 }
    }
}

/// Fits `lines` to `height` rows by their blank lines alone.
pub fn fit_spacers(lines: Vec<Vec<Piece>>, height: usize) -> (out: Vec<Vec<Piece>>)
    requires
        height <= 0xffff,
    ensures
        lines_text(out@) == fitted(lines_text(lines@), height as nat),
{
    let ghost orig = lines@;
    let ghost texts = lines_text(lines@);
    let n = lines.len();
    let mut s: usize = 0;
    let mut i: usize = 0;
    while i < n
        invariant
            i <= n,
            n == lines@.len(),
            lines@ == orig,
            texts == lines_text(orig),
            s == blanks_before(texts, i as nat),
            s <= i,
        decreases n - i,
    {
        let t = line_string(&lines[i]);
        if t.as_str().unicode_len() == 0 {
            s = s + 1;
        }
        i = i + 1;
    }
    let mut rest = lines;
    let mut out: Vec<Vec<Piece>> = Vec::new();
    let mut k: usize = 0;
    i = 0;
    while i < n
        invariant
            i <= n,
            n == orig.len(),
            texts == lines_text(orig),
            rest@ == orig.subrange(i as int, n as int),
            s == blanks_before(texts, n as nat),
            k == blanks_before(texts, i as nat),
            k <= i,
            height <= 0xffff,
            lines_text(out@) == fitted_upto(texts, height as nat, i as nat),
        decreases n - i,
    {
        let l = rest.remove(0);
        assert(l == orig[i as int]);
        let t = line_string(&l);
        let ghost before = lines_text(out@);
        if t.as_str().unicode_len() == 0 {
            proof {
                lemma_blanks_grow(texts, i as nat, n as nat);
            }
            let c = spacer_rows_of(n, s, height, k);
            let mut j: usize = 0;
            while j < c
                invariant
                    j <= c,
                    lines_text(out@) == before + blank_rows(j as nat),
                decreases c - j,
            {
                let ghost prev = lines_text(out@);
                out.push(Vec::new());
                assert(line_text(Seq::<Piece>::empty()) == Seq::<char>::empty());
                assert(lines_text(out@) =~= prev.push(Seq::<char>::empty()));
                assert(blank_rows((j + 1) as nat) =~= blank_rows(j as nat).push(Seq::<char>::empty()));
                assert(before + blank_rows((j + 1) as nat) =~= (before + blank_rows(j as nat)).push(Seq::<char>::empty()));
                j = j + 1;
            }
            k = k + 1;
        } else {
            out.push(l);
            assert(lines_text(out@) =~= before.push(texts[i as int]));
        }
        assert(rest@ =~= orig.subrange(i + 1, n as int));
        i = i + 1;
    }
    out
}

/// Where line `i` is blank there are more blank lines in all than before it.
proof fn lemma_blanks_grow(lines: Seq<Seq<char>>, i: nat, n: nat)
    requires
        i < n,
        n == lines.len(),
        lines[i as int].len() == 0,
    ensures
        blanks_before(lines, i) < blanks_before(lines, n),
    decreases n - i,
{
    lemma_blanks_mono(lines, i + 1, n);
}

/// More lines hold at least as many blank ones.
proof fn lemma_blanks_mono(lines: Seq<Seq<char>>, a: nat, b: nat)
    requires
        a <= b <= lines.len(),
    ensures
        blanks_before(lines, a) <= blanks_before(lines, b),
    decreases b - a,
{
    if a < b {
        lemma_blanks_mono(lines, a, (b - 1) as nat);
    }
}

} // verus!
