//! Word wrap for the sentences panels print: refusals, notes, verdicts.
//!
//! Words stay whole where they fit; a word longer than a whole row is broken
//! at the row's width. Runs of spaces collapse to one. A sentence that needs
//! more rows than it is given keeps the rows it has and marks the cut with
//! `…` at the end of the last one, so a cut sentence never reads as a whole
//! one.
use vstd::prelude::*;
use crate::text::push_char;

verus! {

/// The mark at the end of a sentence that was cut.
pub const CUT: char = '\u{2026}';

/// A word's leading rows of exactly `width` characters, and what is left of
/// it, for a word too long for a row.
pub open spec fn chunk(rows: Seq<Seq<char>>, word: Seq<char>, width: nat) -> (Seq<Seq<char>>, Seq<char>)
    decreases word.len(),
{
    if width > 0 && word.len() > width {
        chunk(rows.push(word.subrange(0, width as int)), word.subrange(width as int, word.len() as int), width)
    } else {
        (rows, word)
    }
}

/// `word` placed after the line being filled: on it when it fits, otherwise
/// on a new line (breaking it when no line could hold it).
pub open spec fn feed(rows: Seq<Seq<char>>, line: Seq<char>, word: Seq<char>, width: nat) -> (Seq<Seq<char>>, Seq<char>) {
    if word.len() == 0 {
        (rows, line)
    } else if line.len() == 0 {
        chunk(rows, word, width)
    } else if line.len() + 1 + word.len() <= width {
        (rows, line + seq![' '] + word)
    } else {
        chunk(rows.push(line), word, width)
    }
}

/// The rows finished, the line being filled and the word being read, after
/// the first `i` characters of `t`.
pub open spec fn scan(t: Seq<char>, i: nat, width: nat) -> (Seq<Seq<char>>, Seq<char>, Seq<char>)
    decreases i,
{
    if i == 0 {
        (seq![], seq![], seq![])
    } else {
        let (rows, line, word) = scan(t, (i - 1) as nat, width);
        let c = t[i - 1];
        if c == ' ' {
            let (rows2, line2) = feed(rows, line, word, width);
            (rows2, line2, seq![])
        } else {
            (rows, line, word.push(c))
        }
    }
}

/// Every row `t` wraps to at `width`, with no limit on their number.
pub open spec fn all_rows(t: Seq<char>, width: nat) -> Seq<Seq<char>> {
    let (rows, line, word) = scan(t, t.len(), width);
    let (rows2, line2) = feed(rows, line, word, width);
    if line2.len() > 0 { rows2.push(line2) } else { rows2 }
}

/// The last row marked as cut.
pub open spec fn mark_cut(rows: Seq<Seq<char>>, width: nat) -> Seq<Seq<char>> {
    if rows.len() == 0 {
        rows
    } else {
        let last = rows.last();
        let marked = if last.len() < width { last.push(CUT) } else { last.drop_last().push(CUT) };
        rows.update(rows.len() - 1, marked)
    }
}

/// `t` wrapped to `width` columns in at most `max_rows` rows.
pub open spec fn wrapped(t: Seq<char>, width: nat, max_rows: nat) -> Seq<Seq<char>> {
    if width == 0 {
        seq![]
    } else {
        let all = all_rows(t, width);
        if all.len() <= max_rows { all } else { mark_cut(all.subrange(0, max_rows as int), width) }
    }
}

/// The characters of each string.
pub open spec fn views(v: Seq<String>) -> Seq<Seq<char>> {
    Seq::new(v.len(), |i: int| v[i]@)
}

/// A run of characters as a string.
fn to_string(v: &Vec<char>, from: usize, to: usize) -> (s: String)
    requires
        from <= to <= v@.len(),
    ensures
        s@ == v@.subrange(from as int, to as int),
{
    let mut s = String::new();
    let mut i = from;
    while i < to
        invariant
            from <= i <= to <= v@.len(),
            s@ == v@.subrange(from as int, i as int),
        decreases to - i,
    {
        push_char(&mut s, v[i]);
        i = i + 1;
        assert(s@ =~= v@.subrange(from as int, i as int));
    }
    s
}

/// Pushes rows of `width` characters from the front of `word` while it is
/// longer than a row, and returns what is left.
fn chunk_exec(rows: &mut Vec<String>, word: &Vec<char>, width: usize) -> (rest: Vec<char>)
    ensures
        (views(final(rows)@), rest@) == chunk(views(old(rows)@), word@, width as nat),
{
    let mut start: usize = 0;
    let n = word.len();
    let ghost r0 = views(rows@);
    assert(word@.subrange(0, n as int) =~= word@);
    while width > 0 && n - start > width
        invariant
            start <= n,
            n == word@.len(),
            chunk(r0, word@, width as nat) == chunk(views(rows@), word@.subrange(start as int, n as int), width as nat),
        decreases n - start,
    {
        let ghost before = rows@;
        let piece = to_string(word, start, start + width);
        let ghost piece_v = piece@;
        rows.push(piece);
        proof {
            let w = word@.subrange(start as int, n as int);
            assert(piece_v =~= w.subrange(0, width as int));
            assert(views(rows@) =~= views(before).push(w.subrange(0, width as int)));
            assert(w.subrange(width as int, w.len() as int) =~= word@.subrange(start + width, n as int));
        }
        start = start + width;
    }
    let rest = to_vec(word, start, n);
    rest
}

/// A run of characters as a new vector.
fn to_vec(v: &Vec<char>, from: usize, to: usize) -> (out: Vec<char>)
    requires
        from <= to <= v@.len(),
    ensures
        out@ == v@.subrange(from as int, to as int),
{
    let mut out: Vec<char> = Vec::new();
    let mut i = from;
    while i < to
        invariant
            from <= i <= to <= v@.len(),
            out@ == v@.subrange(from as int, i as int),
        decreases to - i,
    {
        out.push(v[i]);
        i = i + 1;
        assert(out@ =~= v@.subrange(from as int, i as int));
    }
    out
}

/// Places `word` after `line`, as `feed` says.
fn feed_exec(rows: &mut Vec<String>, line: Vec<char>, word: &Vec<char>, width: usize) -> (out: Vec<char>)
    ensures
        (views(final(rows)@), out@) == feed(views(old(rows)@), line@, word@, width as nat),
{
    if word.len() == 0 {
        line
    } else if line.len() == 0 {
        chunk_exec(rows, word, width)
    } else if line.len() < width && word.len() <= width - line.len() - 1 {
        let mut out = line;
        out.push(' ');
        let mut i: usize = 0;
        let ghost start = out@;
        while i < word.len()
            invariant
                i <= word@.len(),
                out@ == start + word@.subrange(0, i as int),
            decreases word@.len() - i,
        {
            out.push(word[i]);
            i = i + 1;
            assert(out@ =~= start + word@.subrange(0, i as int));
        }
        assert(word@.subrange(0, word@.len() as int) =~= word@);
        out
    } else {
        let ghost before = rows@;
        let n = line.len();
        let whole = to_string(&line, 0, n);
        rows.push(whole);
        proof {
            assert(line@.subrange(0, n as int) =~= line@);
            assert(views(rows@) =~= views(before).push(line@));
        }
        chunk_exec(rows, word, width)
    }
}

/// `text` wrapped to `width` columns in at most `max_rows` rows.
pub fn wrap(text: &str, width: usize, max_rows: usize) -> (rows: Vec<String>)
    ensures
        views(rows@) == wrapped(text@, width as nat, max_rows as nat),
{
    if width == 0 {
        let empty: Vec<String> = Vec::new();
        assert(views(empty@) =~= seq![]);
        return empty;
    }
    let n = text.unicode_len();
    let mut rows: Vec<String> = Vec::new();
    let mut line: Vec<char> = Vec::new();
    let mut word: Vec<char> = Vec::new();
    let mut i: usize = 0;
    assert(views(rows@) =~= seq![]);
    while i < n
        invariant
            i <= n,
            n == text@.len(),
            (views(rows@), line@, word@) == scan(text@, i as nat, width as nat),
        decreases n - i,
    {
        let c = text.get_char(i);
        if c == ' ' {
            line = feed_exec(&mut rows, line, &word, width);
            word = Vec::new();
            assert(word@ =~= seq![]);
        } else {
            word.push(c);
        }
        i = i + 1;
    }
    line = feed_exec(&mut rows, line, &word, width);
    if line.len() > 0 {
        let ghost before = rows@;
        let whole = to_string(&line, 0, line.len());
        rows.push(whole);
        proof {
            assert(line@.subrange(0, line@.len() as int) =~= line@);
            assert(views(rows@) =~= views(before).push(line@));
        }
    }
    let ghost all = views(rows@);
    assert(all == all_rows(text@, width as nat));
    if rows.len() <= max_rows {
        return rows;
    }
    rows.truncate(max_rows);
    assert(views(rows@) =~= all.subrange(0, max_rows as int));
    if max_rows > 0 {
        let last = max_rows - 1;
        let mut chars: Vec<char> = Vec::new();
        let k = rows[last].as_str().unicode_len();
        let keep = if k < width { k } else { k - 1 };
        let mut j: usize = 0;
        while j < keep
            invariant
                j <= keep <= k,
                last < rows@.len(),
                k == rows@[last as int]@.len(),
                chars@ == rows@[last as int]@.subrange(0, j as int),
            decreases keep - j,
        {
            chars.push(rows[last].as_str().get_char(j));
            j = j + 1;
            assert(chars@ =~= rows@[last as int]@.subrange(0, j as int));
        }
        chars.push(CUT);
        let ghost before = rows@;
        let marked = to_string(&chars, 0, chars.len());
        rows.set(last, marked);
        proof {
            let old_last = before[last as int]@;
            assert(chars@.subrange(0, chars@.len() as int) =~= chars@);
            if k < width {
                assert(chars@ =~= old_last.push(CUT));
            } else {
                assert(chars@ =~= old_last.drop_last().push(CUT));
            }
            assert(views(rows@) =~= mark_cut(views(before), width as nat));
        }
    }
    rows
}

/// Every row is at most `width` characters.
pub open spec fn rows_fit(rows: Seq<Seq<char>>, width: nat) -> bool {
    forall|i: int| 0 <= i < rows.len() ==> #[trigger] rows[i].len() <= width
}

/// **No wrapped row is wider than the width it was wrapped to, and there are
/// never more rows than allowed**: a word too long for a row is broken at the
/// width, and the cut mark takes the place of a character rather than adding
/// one.
pub proof fn lemma_wrapped_fits(t: Seq<char>, width: nat, max_rows: nat)
    ensures
        wrapped(t, width, max_rows).len() <= max_rows,
        rows_fit(wrapped(t, width, max_rows), width),
{
    if width > 0 {
        lemma_scan_fits(t, t.len(), width);
        let (rows, line, word) = scan(t, t.len(), width);
        lemma_feed_fits(rows, line, word, width);
        let (rows2, line2) = feed(rows, line, word, width);
        let all = all_rows(t, width);
        assert(rows_fit(all, width)) by {
            if line2.len() > 0 {
                assert forall|i: int| 0 <= i < all.len() implies #[trigger] all[i].len() <= width by {
                    if i < rows2.len() {
                        assert(all[i] == rows2[i]);
                    }
                }
            }
        }
        if all.len() > max_rows {
            let kept = all.subrange(0, max_rows as int);
            assert(rows_fit(kept, width)) by {
                assert forall|i: int| 0 <= i < kept.len() implies #[trigger] kept[i].len() <= width by {
                    assert(kept[i] == all[i]);
                }
            }
            if kept.len() > 0 {
                let last = kept.last();
                assert(last.len() <= width);
                let marked = if last.len() < width { last.push(CUT) } else { last.drop_last().push(CUT) };
                assert(marked.len() <= width);
                let out = kept.update(kept.len() - 1, marked);
                assert forall|i: int| 0 <= i < out.len() implies #[trigger] out[i].len() <= width by {
                    if i < kept.len() - 1 {
                        assert(out[i] == kept[i]);
                    }
                }
            }
        }
    }
}

/// Breaking a long word leaves rows of the width and a rest that fits.
proof fn lemma_chunk_fits(rows: Seq<Seq<char>>, word: Seq<char>, width: nat)
    requires
        width > 0,
        rows_fit(rows, width),
    ensures
        rows_fit(chunk(rows, word, width).0, width),
        chunk(rows, word, width).1.len() <= width,
    decreases word.len(),
{
    if word.len() > width {
        let next = rows.push(word.subrange(0, width as int));
        assert forall|i: int| 0 <= i < next.len() implies #[trigger] next[i].len() <= width by {
            if i < rows.len() {
                assert(next[i] == rows[i]);
            }
        }
        lemma_chunk_fits(next, word.subrange(width as int, word.len() as int), width);
    }
}

/// Feeding a word keeps every row and the line being filled within the width.
proof fn lemma_feed_fits(rows: Seq<Seq<char>>, line: Seq<char>, word: Seq<char>, width: nat)
    requires
        width > 0,
        rows_fit(rows, width),
        line.len() <= width,
    ensures
        rows_fit(feed(rows, line, word, width).0, width),
        feed(rows, line, word, width).1.len() <= width,
{
    if word.len() == 0 {
    } else if line.len() == 0 {
        lemma_chunk_fits(rows, word, width);
    } else if line.len() + 1 + word.len() <= width {
    } else {
        let next = rows.push(line);
        assert forall|i: int| 0 <= i < next.len() implies #[trigger] next[i].len() <= width by {
            if i < rows.len() {
                assert(next[i] == rows[i]);
            }
        }
        lemma_chunk_fits(next, word, width);
    }
}

/// Reading the text keeps every row and the line being filled within the width.
proof fn lemma_scan_fits(t: Seq<char>, i: nat, width: nat)
    requires
        width > 0,
        i <= t.len(),
    ensures
        rows_fit(scan(t, i, width).0, width),
        scan(t, i, width).1.len() <= width,
    decreases i,
{
    if i > 0 {
        lemma_scan_fits(t, (i - 1) as nat, width);
        let (rows, line, word) = scan(t, (i - 1) as nat, width);
        if t[i - 1] == ' ' {
            lemma_feed_fits(rows, line, word, width);
        }
    }
}

} // verus!
