//! The pieces every panel's text is made of: a run of text with the ink it is
//! drawn in, and the lines built from those runs.
//!
//! A panel here decides *what* is written and *which role* each run plays
//! (a value, a label, a refusal, a verdict); the theme that turns a role into
//! a colour belongs to the application that draws it.
use vstd::prelude::*;
use crate::text::{push_char, push_repeat, push_spaces, push_str, repeat, spaces};

verus! {

/// The role a run of text plays, which the theme turns into a colour.
#[derive(Clone, Copy, PartialEq, Eq, Debug)]
pub enum Ink {
    /// Plain text with no role of its own.
    Plain,
    /// A label, a unit, a note: the dim ink.
    Label,
    /// A reading.
    Value,
    /// A reading that deserves the eye first (a sorted column's title).
    ValueHi,
    /// What is not there: a refusal, a dash, an absent measurement.
    Stale,
    /// Inside, clean: the good news.
    Good,
    /// Too close to call, marginal.
    Warn,
    /// Outside, bad.
    Crit,
    /// Rules and empty tracks.
    BorderDim,
    /// Two cells of a heatmap in one half block: the upper cell's duty
    /// cycle in thousandths as the foreground, the lower's as the
    /// background; `None` where nobody looked, which is not an empty cell.
    Heat { upper: Option<u32>, lower: Option<u32> },
    /// The colour of the series at this place: each piconet wears the one
    /// at its place in the roster of first sightings.
    Series(usize),
    /// That colour, receded, where another is selected.
    SeriesFaint(usize),
    /// The label ink, receded.
    LabelFaint,
    /// The accent the frames use: what the radio is doing now.
    Accent,
    /// The waterfall's colour ramp at this level, in thousandths.
    Palette(u32),
}

/// A run of text and how it is drawn.
pub struct Piece {
    pub text: String,
    pub ink: Ink,
    pub bold: bool,
}

/// The characters of a line made of pieces, in order.
pub open spec fn line_text(line: Seq<Piece>) -> Seq<char>
    decreases line.len(),
{
    if line.len() == 0 {
        seq![]
    } else {
        line_text(line.drop_last()) + line.last().text@
    }
}

/// A line as it is drawn: each piece's characters, its ink, and whether it
/// is bold.
pub open spec fn styled(line: Seq<Piece>) -> Seq<(Seq<char>, Ink, bool)> {
    Seq::new(line.len(), |i: int| (line[i].text@, line[i].ink, line[i].bold))
}

/// Appending a piece appends its text, ink and weight.
pub proof fn lemma_styled_push(line: Seq<Piece>, p: Piece)
    ensures
        styled(line.push(p)) == styled(line).push((p.text@, p.ink, p.bold)),
{
    assert(styled(line.push(p)) =~= styled(line).push((p.text@, p.ink, p.bold)));
}

/// A piece of text in an ink, not bold.
pub fn piece(text: String, ink: Ink) -> (p: Piece)
    ensures
        p.text@ == text@,
        p.ink == ink,
        !p.bold,
{
    Piece { text, ink, bold: false }
}

/// Appends a piece to a line.
pub fn push_piece(line: &mut Vec<Piece>, p: Piece)
    ensures
        final(line)@ == old(line)@.push(p),
        line_text(final(line)@) == line_text(old(line)@) + p.text@,
{
    let ghost before = line@;
    line.push(p);
    assert(line@.drop_last() =~= before);
}

/// Columns every table row gives to the selection mark.
pub const SELECTION_GUTTER: usize = 1;

/// The mark in a selected row's gutter.
pub const SELECTION_MARK: char = '\u{258c}';

/// The gutter's text: the mark for the selected row, a space for any other.
pub open spec fn gutter_text(selected: bool) -> Seq<char> {
    if selected { seq![SELECTION_MARK] } else { seq![' '] }
}

/// The gutter every row has, so picking a row never moves the columns
/// beside it.
pub fn selection_gutter(selected: bool) -> (p: Piece)
    ensures
        p.text@ == gutter_text(selected),
        p.bold == selected,
        p.ink == (if selected { Ink::ValueHi } else { Ink::Plain }),
{
    let mut text = String::new();
    push_char(&mut text, if selected { SELECTION_MARK } else { ' ' });
    Piece { text, ink: if selected { Ink::ValueHi } else { Ink::Plain }, bold: selected }
}

/// `label` in the field idiom: one column of indent, then the label
/// left-aligned in `w` columns.
pub open spec fn field_text(label: Seq<char>, w: nat) -> Seq<char> {
    seq![' '] + crate::text::pad_right(label, w)
}

/// A field's label, in the label ink.
pub fn field(label: &str, w: usize) -> (p: Piece)
    ensures
        p.text@ == field_text(label@, w as nat),
        p.ink == Ink::Label,
{
    let mut text = String::new();
    push_char(&mut text, ' ');
    crate::text::push_pad_right(&mut text, label, w);
    assert(text@ =~= field_text(label@, w as nat));
    Piece { text, ink: Ink::Label, bold: false }
}

/// `n` spaces as a plain piece.
pub fn blank(n: usize) -> (p: Piece)
    ensures
        p.text@ == spaces(n as nat),
        p.ink == Ink::Plain,
        !p.bold,
{
    let mut text = String::new();
    push_spaces(&mut text, n);
    assert(text@ =~= spaces(n as nat));
    Piece { text, ink: Ink::Plain, bold: false }
}

/// A borrowed text as a piece.
pub fn text_piece(t: &str, ink: Ink) -> (p: Piece)
    ensures
        p.text@ == t@,
        p.ink == ink,
        !p.bold,
{
    let mut text = String::new();
    push_str(&mut text, t);
    assert(text@ =~= t@);
    Piece { text, ink, bold: false }
}


/// `c` in upper case, for the ASCII letters; anything else unchanged.
pub open spec fn upper(c: char) -> char {
    if 'a' <= c && c <= 'z' { ((c as u32) - 32) as char } else { c }
}

/// Every ASCII letter of `t` in upper case.
pub open spec fn upper_text(t: Seq<char>) -> Seq<char> {
    Seq::new(t.len(), |i: int| upper(t[i]))
}

/// `c` in upper case, for the ASCII letters.
pub fn upper_char(c: char) -> (u: char)
    ensures
        u == upper(c),
{
    if 'a' <= c && c <= 'z' {
        ((c as u32) - 32) as u8 as char
    } else {
        c
    }
}

/// The rule character a section is drawn with.
pub const RULE: char = '\u{2500}';

/// A section nameplate `width` columns wide: `─ NAME ─────── hint ─`.
///
/// The name in capitals after a short rule, then the rule to the width, the
/// hint (when there is one) closing it at the right. A hint that does not fit
/// is dropped whole; a name wider than the row is cut to it.
pub open spec fn section_text(name: Seq<char>, hint: Seq<char>, width: nat) -> Seq<char> {
    let head = seq![RULE, ' '] + upper_text(name) + seq![' '];
    let tail = if hint.len() == 0 { seq![] } else { seq![' '] + hint + seq![' ', RULE] };
    if head.len() + tail.len() <= width {
        head + repeat(RULE, (width - head.len() - tail.len()) as nat) + tail
    } else if head.len() <= width {
        head + repeat(RULE, (width - head.len()) as nat)
    } else {
        head.subrange(0, width as int)
    }
}

/// A section nameplate, in the label ink.
pub fn section(name: &str, hint: &str, width: usize) -> (p: Piece)
    ensures
        p.text@ == section_text(name@, hint@, width as nat),
        p.ink == Ink::Label,
        !p.bold,
{
    let mut head: Vec<char> = Vec::new();
    head.push(RULE);
    head.push(' ');
    let n = name.unicode_len();
    let mut i: usize = 0;
    while i < n
        invariant
            i <= n,
            n == name@.len(),
            head@ == seq![RULE, ' '] + upper_text(name@).subrange(0, i as int),
        decreases n - i,
    {
        head.push(upper_char(name.get_char(i)));
        i = i + 1;
        assert(head@ =~= seq![RULE, ' '] + upper_text(name@).subrange(0, i as int));
    }
    head.push(' ');
    assert(upper_text(name@).subrange(0, n as int) =~= upper_text(name@));
    let ghost head_v = seq![RULE, ' '] + upper_text(name@) + seq![' '];
    assert(head@ =~= head_v);
    let hint_n = hint.unicode_len();
    let tail_n: usize = if hint_n == 0 { 0 } else if hint_n < usize::MAX - 3 { hint_n + 3 } else { usize::MAX };
    let head_n = head.len();
    let mut text = String::new();
    if hint_n < usize::MAX - 3 && head_n <= width && tail_n <= width - head_n {
        push_chars(&mut text, &head, head_n);
        push_repeat(&mut text, RULE, width - head_n - tail_n);
        if hint_n > 0 {
            push_char(&mut text, ' ');
            push_str(&mut text, hint);
            push_char(&mut text, ' ');
            push_char(&mut text, RULE);
        }
        proof {
            let tail = if hint@.len() == 0 { seq![] } else { seq![' '] + hint@ + seq![' ', RULE] };
            assert(text@ =~= head_v + repeat(RULE, (width - head_v.len() - tail.len()) as nat) + tail);
        }
    } else if head_n <= width {
        push_chars(&mut text, &head, head_n);
        push_repeat(&mut text, RULE, width - head_n);
        assert(text@ =~= head_v + repeat(RULE, (width - head_v.len()) as nat));
    } else {
        push_chars(&mut text, &head, width);
    }
    Piece { text, ink: Ink::Label, bold: false }
}

/// Appends the first `n` characters of `v`.
pub fn push_chars(s: &mut String, v: &Vec<char>, n: usize)
    requires
        n <= v@.len(),
    ensures
        final(s)@ == old(s)@ + v@.subrange(0, n as int),
{
    let ghost start = s@;
    let mut i: usize = 0;
    while i < n
        invariant
            i <= n <= v@.len(),
            s@ == start + v@.subrange(0, i as int),
        decreases n - i,
    {
        push_char(s, v[i]);
        i = i + 1;
        assert(s@ =~= start + v@.subrange(0, i as int));
    }
}

} // verus!
