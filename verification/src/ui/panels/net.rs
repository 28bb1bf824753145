//! The NET section's panels: the 2.4 GHz band, and what is on it.
//!
//! **Silence has more than one cause, and every panel here says which.** A
//! decoder that is not running, one that is running and has heard nothing,
//! and one that has heard something are three different claims; a panel
//! prints the one that holds and never a bare empty table in place of it.
use vstd::prelude::*;
use crate::state::{mode_tag, Drift, NetState, OffsetBasis, Quality, SdrMetrics};
use crate::text::{pad_left, pad_right, push_pad_left, push_pad_right};
use crate::text::{dec, digit, digit_char, hexpad, owned, push_char, push_dec, push_hexpad, push_str};
use crate::ui::chrome::{line_text, piece, push_piece, styled, text_piece, Ink, Piece};
use crate::ui::frame::{lines_text, strings, styles, take, PanelChrome};
use crate::ui::wrap::{views, wrap, wrapped};

pub mod ble;
pub mod ble_packets;
pub mod bt;
pub mod bt_census;
pub mod bt_rf;
pub mod census;
pub mod shared;

verus! {

/// The tags every NET frame carries: `STALE` while no samples flow, then
/// the section's mode.
pub open spec fn net_tags(state: SdrMetrics) -> Seq<Seq<char>> {
    (if state.streaming { seq![] } else { seq!["STALE"@] }) + seq![mode_tag(state.net.mode)]
}

/// A NET frame says `STALE` exactly while no samples flow: a frozen number
/// is never mistaken for a live one, and a live one never wears the tag.
pub proof fn lemma_stale_exactly_when_not_streaming(state: SdrMetrics)
    ensures
        net_tags(state).contains("STALE"@) <==> !state.streaming,
{
    reveal_strlit("STALE");
    reveal_strlit("SURVEY");
    reveal_strlit("LOCK");
    let tags = net_tags(state);
    if !state.streaming {
        assert(tags[0] == "STALE"@);
    } else {
        assert(tags =~= seq![mode_tag(state.net.mode)]);
        assert(mode_tag(state.net.mode) != "STALE"@) by {
            assert(mode_tag(state.net.mode)[0] != 'T' || mode_tag(state.net.mode).len() != 5);
        }
        if tags.contains("STALE"@) {
            let i = choose|i: int| 0 <= i < tags.len() && tags[i] == "STALE"@;
            assert(i == 0);
        }
    }
}

/// Whether the crystal offsets a frame shows are differences from our own
/// oscillator: no reference has been taken, or the one taken has expired.
pub open spec fn offsets_relative(n: NetState) -> bool {
    !(n.offset_basis is Against)
}

/// The tag a frame that shows offsets carries for their class: `RELATIVE`
/// while they are differences from our own oscillator.
pub open spec fn offset_tags(n: NetState) -> Seq<Seq<char>> {
    if offsets_relative(n) { seq!["RELATIVE"@] } else { seq![] }
}

/// Whether the offsets are relative to our own oscillator.
pub fn relative_offsets(n: &NetState) -> (b: bool)
    ensures
        b == offsets_relative(*n),
{
    match n.offset_basis {
        OffsetBasis::Against(_) => false,
        _ => true,
    }
}

/// A NET frame that shows crystal offsets: `STALE` while no samples flow,
/// the offsets' class, then the section's mode.
pub open spec fn offset_net_tags(state: SdrMetrics) -> Seq<Seq<char>> {
    (if state.streaming { seq![] } else { seq!["STALE"@] }) + offset_tags(state.net) + seq![mode_tag(state.net.mode)]
}

/// A NET frame titled `title` that shows crystal offsets.
pub fn offset_net_chrome(title: &str, state: &SdrMetrics) -> (c: PanelChrome)
    ensures
        c.title@ == title@,
        strings(c.tags@) == offset_net_tags(*state),
{
    let c = PanelChrome::new(title);
    let c = c.tag_if(!state.streaming, owned("STALE"));
    let c = c.tag_if(relative_offsets(&state.net), owned("RELATIVE"));
    let c = c.tag_if(true, state.net.mode.tag());
    assert(strings(c.tags@) =~= offset_net_tags(*state));
    c
}

/// A NET frame titled `title`, with the tags every NET frame carries.
pub fn net_chrome(title: &str, state: &SdrMetrics) -> (c: PanelChrome)
    ensures
        c.title@ == title@,
        strings(c.tags@) == net_tags(*state),
{
    let c = PanelChrome::new(title);
    let c = c.tag_if(!state.streaming, owned("STALE"));
    let c = c.tag_if(true, state.net.mode.tag());
    assert(strings(c.tags@) =~= net_tags(*state));
    c
}

/// A line of one piece.
pub fn one(p: Piece) -> (l: Vec<Piece>)
    ensures
        line_text(l@) == p.text@,
        l@.len() == 1,
        l@[0] == p,
{
    let mut l: Vec<Piece> = Vec::new();
    l.push(p);
    assert(l@.drop_last() =~= Seq::<Piece>::empty());
    assert(line_text(l@.drop_last()) =~= Seq::<char>::empty());
    assert(line_text(l@) =~= l@[0].text@);
    l
}

/// A line of one piece: `text` in `ink`, not bold.
pub open spec fn plain_line(text: Seq<char>, ink: Ink) -> Seq<(Seq<char>, Ink, bool)> {
    seq![(text, ink, false)]
}

/// Appends one line of `text` in `ink`.
pub fn push_text(lines: &mut Vec<Vec<Piece>>, text: &str, ink: Ink)
    ensures
        lines_text(final(lines)@) == lines_text(old(lines)@).push(text@),
        styles(final(lines)@) == styles(old(lines)@).push(plain_line(text@, ink)),
{
    let ghost before = lines@;
    let l = one(text_piece(text, ink));
    assert(styled(l@) =~= plain_line(text@, ink));
    lines.push(l);
    assert(lines_text(lines@) =~= lines_text(before).push(text@));
    assert(styles(lines@) =~= styles(before).push(plain_line(text@, ink)));
}

/// `text` wrapped to `width` columns in at most `max_rows` rows as drawn: a
/// line of one piece per row, in `ink`.
pub open spec fn wrapped_styled(text: Seq<char>, width: nat, max_rows: nat, ink: Ink) -> Seq<Seq<(Seq<char>, Ink, bool)>> {
    let rows = wrapped(text, width, max_rows);
    Seq::new(rows.len(), |i: int| plain_line(rows[i], ink))
}

/// Appends `text` wrapped to `width` columns in at most `max_rows` rows, a
/// line per row, in `ink`.
pub fn push_wrapped(lines: &mut Vec<Vec<Piece>>, text: &str, width: usize, max_rows: usize, ink: Ink)
    ensures
        lines_text(final(lines)@) == lines_text(old(lines)@) + wrapped(text@, width as nat, max_rows as nat),
        styles(final(lines)@) == styles(old(lines)@) + wrapped_styled(text@, width as nat, max_rows as nat, ink),
{
    let rows = wrap(text, width, max_rows);
    let ghost start = lines_text(lines@);
    let ghost start_st = styles(lines@);
    let ghost want = wrapped_styled(text@, width as nat, max_rows as nat, ink);
    let mut i: usize = 0;
    while i < rows.len()
        invariant
            i <= rows@.len(),
            views(rows@) == wrapped(text@, width as nat, max_rows as nat),
            want == wrapped_styled(text@, width as nat, max_rows as nat, ink),
            lines_text(lines@) == start + views(rows@).subrange(0, i as int),
            styles(lines@) == start_st + want.subrange(0, i as int),
        decreases rows@.len() - i,
    {
        push_text(lines, rows[i].as_str(), ink);
        assert(views(rows@).subrange(0, i + 1) =~= views(rows@).subrange(0, i as int).push(rows@[i as int]@));
        assert(want.subrange(0, i + 1) =~= want.subrange(0, i as int).push(plain_line(rows@[i as int]@, ink)));
        i = i + 1;
    }
    assert(views(rows@).subrange(0, rows@.len() as int) =~= views(rows@));
    assert(want.subrange(0, rows@.len() as int) =~= want);
}

/// What a refusal says: that nothing is decoding, then why, in at most four
/// rows.
pub open spec fn refusal_text(reason: Seq<char>, width: nat) -> Seq<Seq<char>> {
    seq!["not decoding"@] + wrapped(reason, width, 4)
}

/// A decoder's refusal, `width` columns wide: never an empty table in its
/// place.
pub fn refusal(reason: &str, width: usize) -> (lines: Vec<Vec<Piece>>)
    ensures
        lines_text(lines@) == refusal_text(reason@, width as nat),
{
    let mut lines: Vec<Vec<Piece>> = Vec::new();
    push_text(&mut lines, "not decoding", Ink::Stale);
    push_wrapped(&mut lines, reason, width, 4, Ink::Label);
    assert(lines_text(lines@) =~= refusal_text(reason@, width as nat));
    lines
}

/// No lines at all: what a panel with no room draws.
pub fn nothing() -> (lines: Vec<Vec<Piece>>)
    ensures
        lines_text(lines@) == Seq::<Seq<char>>::empty(),
{
    let lines: Vec<Vec<Piece>> = Vec::new();
    assert(lines_text(lines@) =~= Seq::<Seq<char>>::empty());
    lines
}

/// The label column of a limit row: wide enough for `Drift rate`.
pub const LIMIT_LABEL_W: usize = 10;

/// A limit row: its label, then the row as the limit widget draws it.
pub open spec fn limit_row(label: Seq<char>, text: Seq<char>) -> Seq<char> {
    pad_right(label, LIMIT_LABEL_W as nat) + seq![' '] + text
}

/// The modulation quality's four rows against their limits, and the
/// drift's two where the drift was measured.
pub open spec fn quality_rows(q: Quality, d: Option<Drift>) -> Seq<Seq<char>> {
    seq![
        limit_row("Mod index"@, q.index@),
        limit_row("df1 avg"@, q.df1@),
        limit_row("df2 max"@, q.df2@),
        limit_row("df2/df1"@, q.ratio@),
    ] + match d {
        Some(d) => seq![limit_row("Drift"@, d.drift@), limit_row("Drift rate"@, d.rate@)],
        None => seq![],
    }
}

/// Appends a limit row.
pub fn push_limit_row(lines: &mut Vec<Vec<Piece>>, label: &str, text: &str)
    ensures
        lines_text(final(lines)@) == lines_text(old(lines)@).push(limit_row(label@, text@)),
{
    let mut s = String::new();
    push_pad_right(&mut s, label, LIMIT_LABEL_W);
    push_char(&mut s, ' ');
    push_str(&mut s, text);
    assert(s@ =~= limit_row(label@, text@));
    let ghost before = lines@;
    lines.push(one(crate::ui::chrome::piece(s, Ink::Value)));
    assert(lines_text(lines@) =~= lines_text(before).push(limit_row(label@, text@)));
}

/// Appends the quality's rows, and the drift's where there is one.
pub fn push_quality_rows(lines: &mut Vec<Vec<Piece>>, q: &Quality, d: &Option<Drift>)
    ensures
        lines_text(final(lines)@) == lines_text(old(lines)@) + quality_rows(*q, *d),
{
    let ghost start = lines_text(lines@);
    push_limit_row(lines, "Mod index", q.index.as_str());
    push_limit_row(lines, "df1 avg", q.df1.as_str());
    push_limit_row(lines, "df2 max", q.df2.as_str());
    push_limit_row(lines, "df2/df1", q.ratio.as_str());
    match d {
        Some(d) => {
            push_limit_row(lines, "Drift", d.drift.as_str());
            push_limit_row(lines, "Drift rate", d.rate.as_str());
        },
        None => {},
    }
    assert(lines_text(lines@) =~= start + quality_rows(*q, *d));
}

/// Appends `text` as a piece in `ink`.
pub fn push_cell(line: &mut Vec<Piece>, text: String, ink: Ink)
    ensures
        line_text(final(line)@) == line_text(old(line)@) + text@,
{
    push_piece(line, piece(text, ink));
}

/// `text` left-aligned in `w` columns.
pub fn left(text: &str, w: usize) -> (s: String)
    ensures
        s@ == pad_right(text@, w as nat),
{
    let mut s = String::new();
    push_pad_right(&mut s, text, w);
    s
}

/// `text` right-aligned in `w` columns.
pub fn right(text: &str, w: usize) -> (s: String)
    ensures
        s@ == pad_left(text@, w as nat),
{
    let mut s = String::new();
    push_pad_left(&mut s, text, w);
    s
}

/// Appends a single space.
pub fn push_gap(line: &mut Vec<Piece>)
    ensures
        line_text(final(line)@) == line_text(old(line)@) + seq![' '],
{
    let g = owned(" ");
    proof { reveal_strlit(" "); }
    push_cell(line, g, Ink::Plain);
}

/// How long ago, at the resolution anybody reads it at: `2 s` under a
/// minute and a half, `4 min` from there.
pub open spec fn ago_text(secs: nat) -> Seq<char> {
    if secs < 90 { dec(secs) + " s"@ } else { dec(secs / 60) + " min"@ }
}

/// How long ago, at the resolution anybody reads it at.
pub fn ago(secs: u64) -> (s: String)
    ensures
        s@ == ago_text(secs as nat),
{
    let mut s = String::new();
    if secs < 90 {
        push_dec(&mut s, secs);
        push_str(&mut s, " s");
    } else {
        push_dec(&mut s, secs / 60);
        push_str(&mut s, " min");
    }
    s
}

/// An address, most significant octet first, as colon-separated
/// lower-case pairs: `aa:bb:cc:11:22:33`.
pub open spec fn address_hex(a: Seq<u8>) -> Seq<char>
    decreases a.len(),
{
    if a.len() == 0 {
        seq![]
    } else if a.len() == 1 {
        hexpad(a[0] as nat, 2, false)
    } else {
        address_hex(a.drop_last()) + seq![':'] + hexpad(a.last() as nat, 2, false)
    }
}

/// An address as colon-separated lower-case pairs.
pub fn address_text(a: [u8; 6]) -> (s: String)
    ensures
        s@ == address_hex(a@),
{
    let mut s = String::new();
    let mut i: usize = 0;
    while i < 6
        invariant
            i <= 6,
            a@.len() == 6,
            s@ == address_hex(a@.subrange(0, i as int)),
        decreases 6 - i,
    {
        if i > 0 {
            push_char(&mut s, ':');
        }
        push_hexpad(&mut s, a[i] as u64, 2, false);
        proof {
            let next = a@.subrange(0, i + 1);
            assert(next.drop_last() =~= a@.subrange(0, i as int));
            if i == 0 {
                assert(next =~= seq![a@[0]]);
            }
        }
        i = i + 1;
    }
    assert(a@.subrange(0, 6) =~= a@);
    s
}

/// A value held in tenths, to one decimal place: `12.3`, `-0.4`.
pub open spec fn tenths_text(t: int) -> Seq<char> {
    let m = if t < 0 { -t } else { t };
    (if t < 0 { seq!['-'] } else { seq![] }) + dec((m / 10) as nat) + seq!['.', digit((m % 10) as nat)]
}

/// Appends a value held in tenths, to one decimal place.
pub fn push_tenths(s: &mut String, t: i64)
    ensures
        final(s)@ == old(s)@ + tenths_text(t as int),
{
    let m: u64 = if t < 0 { ((-(t + 1)) as u64) + 1 } else { t as u64 };
    if t < 0 {
        push_char(s, '-');
    }
    push_dec(s, m / 10);
    push_char(s, '.');
    push_char(s, digit_char(m % 10));
}

/// `s` cut to at most `w` characters.
pub fn truncated(t: &str, w: usize) -> (s: String)
    ensures
        s@ == take(t@, w as nat),
{
    if t.unicode_len() <= w {
        owned(t)
    } else {
        owned(t.substring_char(0, w))
    }
}

} // verus!
