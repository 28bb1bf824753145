//! The census's detail block: what the cursor is on, spelled out.
//!
//! The fields the table's columns cut short, two to a line where the width
//! allows it and one where it does not, and the one thing the table cannot
//! show at all: what the crystal offset was measured against. The holder of
//! the address's block is named beside it where the registry knows it.
use vstd::prelude::*;
use crate::ble::ad::{join, push_item};
use crate::ble::{pdu_label, pdu_of, PduType};
use crate::census::{crc_text, fmt_crc, Device};
use crate::state::{NetState, OffsetBasis};
use crate::text::{dec, pad_right, push_char, push_dec, push_pad_right, push_str};
use crate::ui::chrome::{field, field_text, line_text, piece, push_piece, section, section_text, Ink, Piece};
use crate::ui::frame::lines_text;
use crate::ui::panels::net::{address_hex, address_text, ago, ago_text, one};
use crate::ui::panels::net::shared::census::{best_snr_text, fmt_best_snr, text_or_dash};
use crate::ui::wrap::{views, wrap, wrapped};

verus! {

/// The label column of the block's fields, wide enough for `first seen`,
/// the same on both halves of a two-up line.
pub const DETAIL_LABEL_W: usize = 11;

/// The address, and who holds its block where that is known.
pub open spec fn identity_text(d: Device) -> Seq<char> {
    address_hex(d.address@) + match d.holder {
        Some(h) => "  "@ + h@,
        None => seq![],
    }
}

/// `10 min ago`.
pub open spec fn seen_text(secs: nat) -> Seq<char> {
    ago_text(secs) + " ago"@
}

/// The paired fields' labels, in order.
pub open spec fn detail_labels() -> Seq<Seq<char>> {
    seq!["first seen"@, "packets"@, "last seen"@, "best SNR"@, "mean SNR"@, "mod index"@]
}

/// The paired fields' values, in the labels' order.
pub open spec fn detail_values(d: Device) -> Seq<Seq<char>> {
    seq![
        seen_text(d.first_seen_secs as nat),
        dec(d.packets as nat),
        seen_text(d.last_seen_secs as nat),
        best_snr_text(d),
        match d.mean_snr { Some(m) => m.text@, None => "-"@ },
        match d.modulation { Some(m) => m.text@, None => "-"@ },
    ]
}

/// The value column's width: two more than the longest of the first `k`
/// values (never past the largest `usize`).
pub open spec fn widest(v: Seq<Seq<char>>, k: nat) -> nat
    decreases k,
{
    if k == 0 || k > v.len() {
        0
    } else {
        let w = widest(v, (k - 1) as nat);
        let here = if v[k - 1].len() + 2 > usize::MAX { usize::MAX as nat } else { v[k - 1].len() + 2 };
        if here > w { here } else { w }
    }
}

/// One field of a pair line: its label, and its value filled to `w`.
pub open spec fn part_text(label: Seq<char>, value: Seq<char>, w: nat) -> Seq<char> {
    field_text(label, DETAIL_LABEL_W as nat) + pad_right(value, w)
}

/// The six fields, two to a line where two halves of the same width fit in
/// `iw`, one to a line where they do not, in order.
pub open spec fn pair_lines(labels: Seq<Seq<char>>, values: Seq<Seq<char>>, iw: nat) -> Seq<Seq<char>> {
    let w = widest(values, 6);
    if iw >= 2 * (DETAIL_LABEL_W + 1 + w) {
        Seq::new(3, |i: int| part_text(labels[2 * i], values[2 * i], w) + part_text(labels[2 * i + 1], values[2 * i + 1], w))
    } else {
        Seq::new(6, |i: int| part_text(labels[i], values[i], w))
    }
}

/// A field whose value wants a sentence beside it, the sentence dropped
/// whole where it does not fit whole.
pub open spec fn noted_text(label: Seq<char>, value: Seq<char>, note: Seq<char>, iw: nat) -> Seq<char> {
    field_text(label, DETAIL_LABEL_W as nat) + value + if iw >= DETAIL_LABEL_W + 1 + value.len() + note.len() + 2 {
        "  "@ + note
    } else {
        seq![]
    }
}

/// What a device's crystal offset was measured against; for a device no
/// packet has reported one, why its cell is a dash.
pub open spec fn against_text(d: Device, basis: OffsetBasis) -> Seq<char> {
    match d.crystal {
        None => "no packet from it has reported one"@,
        Some(_) => match basis {
            OffsetBasis::Unreferenced => "relative to our own oscillator"@,
            OffsetBasis::Expired => "relative to our own oscillator, the reference expired"@,
            OffsetBasis::Against(s) => "against "@ + s@,
        },
    }
}

/// The names of the PDU types whose bits are set among the `k` bits of
/// `rest`, the lowest standing for `code`, in ascending order of code.
pub open spec fn names_from(rest: nat, code: nat, k: nat) -> Seq<Seq<char>>
    decreases k,
{
    if k == 0 {
        seq![]
    } else {
        (if rest % 2 == 1 { seq![pdu_label(pdu_of(code))] } else { seq![] }) + names_from(rest / 2, code + 1, (k - 1) as nat)
    }
}

/// `ADV_IND, SCAN_RSP`: the PDU types a device's packets carried, named;
/// a dash where none.
pub open spec fn pdu_types_text(bits: nat) -> Seq<char> {
    let names = names_from(bits, 0, 16);
    if names.len() == 0 { "-"@ } else { join(names) }
}

/// The PDU types, wrapped beside their label in at most two rows.
pub open spec fn pdu_rows(d: Device, iw: nat) -> Seq<Seq<char>> {
    let w: nat = if iw >= DETAIL_LABEL_W + 1 { (iw - DETAIL_LABEL_W - 1) as nat } else { 0 };
    let rows = wrapped(pdu_types_text(d.pdu_types as nat), w, 2);
    Seq::new(rows.len(), |i: int| field_text(if i == 0 { "PDU types"@ } else { seq![] }, DETAIL_LABEL_W as nat) + rows[i])
}

/// The whole block for device `d`, `iw` columns wide.
pub open spec fn detail_text(d: Device, net: NetState, iw: nat) -> Seq<Seq<char>> {
    seq![section_text("selected"@, ""@, iw), seq![' '] + identity_text(d)]
        + pair_lines(detail_labels(), detail_values(d), iw)
        + seq![
            noted_text(
                "crystal"@,
                match d.crystal { Some(c) => c.ppm@, None => "-"@ },
                against_text(d, net.offset_basis),
                iw,
            ),
            noted_text(
                "CRC"@,
                crc_text(d) + " passed, "@ + dec(d.crc_failed as nat) + " failed"@,
                "a ceiling: a corrupted address is nobody's failure"@,
                iw,
            ),
        ]
        + pdu_rows(d, iw)
}

/// `10 min ago`.
fn seen(secs: u64) -> (s: String)
    ensures
        s@ == seen_text(secs as nat),
{
    let mut s = ago(secs);
    push_str(&mut s, " ago");
    s
}

/// The paired fields' values.
fn values_of(d: &Device) -> (v: Vec<String>)
    ensures
        views(v@) == detail_values(*d),
{
    let mut v: Vec<String> = Vec::new();
    v.push(seen(d.first_seen_secs));
    let mut p = String::new();
    push_dec(&mut p, d.packets);
    v.push(p);
    v.push(seen(d.last_seen_secs));
    v.push(fmt_best_snr(d));
    v.push(text_or_dash(match &d.mean_snr { Some(m) => Some(&m.text), None => None }));
    v.push(text_or_dash(match &d.modulation { Some(m) => Some(&m.text), None => None }));
    assert(views(v@) =~= detail_values(*d));
    v
}

/// The value column's width for `values`.
fn widest_of(values: &Vec<String>) -> (w: usize)
    ensures
        w == widest(views(values@), values@.len()),
{
    let mut w: usize = 0;
    let mut i: usize = 0;
    while i < values.len()
        invariant
            i <= values@.len(),
            w == widest(views(values@), i as nat),
        decreases values@.len() - i,
    {
        let l = values[i].as_str().unicode_len();
        let here = if l > usize::MAX - 2 { usize::MAX } else { l + 2 };
        if here > w {
            w = here;
        }
        i = i + 1;
    }
    w
}

/// Appends one field of a pair line.
fn push_part(line: &mut Vec<Piece>, label: &str, value: &str, w: usize)
    ensures
        line_text(final(line)@) == line_text(old(line)@) + part_text(label@, value@, w as nat),
{
    let ghost start = line_text(line@);
    push_piece(line, field(label, DETAIL_LABEL_W));
    let mut v = String::new();
    push_pad_right(&mut v, value, w);
    push_piece(line, piece(v, Ink::Value));
    assert(line_text(line@) =~= start + part_text(label@, value@, w as nat));
}

/// Appends a line.
fn push_line(lines: &mut Vec<Vec<Piece>>, line: Vec<Piece>)
    ensures
        lines_text(final(lines)@) == lines_text(old(lines)@).push(line_text(line@)),
{
    let ghost before = lines@;
    lines.push(line);
    assert(lines_text(lines@) =~= lines_text(before).push(line_text(line@)));
}

/// Appends the six fields, two to a line where they fit.
fn push_pairs(lines: &mut Vec<Vec<Piece>>, d: &Device, iw: usize)
    ensures
        lines_text(final(lines)@) == lines_text(old(lines)@) + pair_lines(detail_labels(), detail_values(*d), iw as nat),
{
    let ghost start = lines_text(lines@);
    let values = values_of(d);
    let w = widest_of(&values);
    let ghost vs = views(values@);
    assert(vs == detail_values(*d));
    assert(vs.len() == 6);
    assert(values@.len() == 6);
    assert(vs[0] == values@[0]@ && vs[1] == values@[1]@ && vs[2] == values@[2]@);
    assert(vs[3] == values@[3]@ && vs[4] == values@[4]@ && vs[5] == values@[5]@);
    let two = iw / 2 >= DETAIL_LABEL_W + 1 && iw / 2 - (DETAIL_LABEL_W + 1) >= w;
    assert(two == (iw >= 2 * (DETAIL_LABEL_W + 1 + w)));
    let ghost labels = detail_labels();
    let ghost want = pair_lines(labels, vs, iw as nat);
    if two {
        let mut l0: Vec<Piece> = Vec::new();
        push_part(&mut l0, "first seen", values[0].as_str(), w);
        push_part(&mut l0, "packets", values[1].as_str(), w);
        let mut l1: Vec<Piece> = Vec::new();
        push_part(&mut l1, "last seen", values[2].as_str(), w);
        push_part(&mut l1, "best SNR", values[3].as_str(), w);
        let mut l2: Vec<Piece> = Vec::new();
        push_part(&mut l2, "mean SNR", values[4].as_str(), w);
        push_part(&mut l2, "mod index", values[5].as_str(), w);
        assert(line_text(Seq::<Piece>::empty()) == Seq::<char>::empty());
        push_line(lines, l0);
        push_line(lines, l1);
        push_line(lines, l2);
    } else {
        let mut i: usize = 0;
        let names = ["first seen", "packets", "last seen", "best SNR", "mean SNR", "mod index"];
        assert(names@[0]@ == labels[0] && names@[1]@ == labels[1] && names@[2]@ == labels[2]);
        assert(names@[3]@ == labels[3] && names@[4]@ == labels[4] && names@[5]@ == labels[5]);
        while i < 6
            invariant
                i <= 6,
                values@.len() == 6,
                vs == views(values@),
                labels == detail_labels(),
                forall|k: int| 0 <= k < 6 ==> #[trigger] names@[k]@ == labels[k],
                want == pair_lines(labels, vs, iw as nat),
                !two,
                two == (iw >= 2 * (DETAIL_LABEL_W + 1 + w)),
                w == widest(vs, 6),
                lines_text(lines@) == start + want.subrange(0, i as int),
            decreases 6 - i,
        {
            let mut l: Vec<Piece> = Vec::new();
            assert(line_text(l@) =~= Seq::<char>::empty());
            push_part(&mut l, names[i], values[i].as_str(), w);
            assert(line_text(l@) =~= want[i as int]);
            push_line(lines, l);
            assert(want.subrange(0, i + 1) =~= want.subrange(0, i as int).push(want[i as int]));
            i = i + 1;
        }
    }
    assert(lines_text(lines@) =~= start + want);
}

/// Appends a field with a sentence beside it where the whole sentence fits.
fn push_noted(lines: &mut Vec<Vec<Piece>>, label: &str, value: &str, note: &str, iw: usize)
    ensures
        lines_text(final(lines)@) == lines_text(old(lines)@).push(noted_text(label@, value@, note@, iw as nat)),
{
    let mut l: Vec<Piece> = Vec::new();
    assert(line_text(l@) =~= Seq::<char>::empty());
    push_piece(&mut l, field(label, DETAIL_LABEL_W));
    push_piece(&mut l, crate::ui::chrome::text_piece(value, Ink::Value));
    let ghost head = line_text(l@);
    let vl = value.unicode_len();
    let nl = note.unicode_len();
    let fits = iw >= DETAIL_LABEL_W + 1 + 2 && vl <= iw - (DETAIL_LABEL_W + 1 + 2) && nl <= iw - (DETAIL_LABEL_W + 1 + 2) - vl;
    assert(fits == (iw >= DETAIL_LABEL_W + 1 + vl + nl + 2));
    if fits {
        let mut n = String::new();
        push_str(&mut n, "  ");
        push_str(&mut n, note);
        push_piece(&mut l, piece(n, Ink::Label));
        assert(line_text(l@) =~= head + ("  "@ + note@));
    } else {
        assert(head =~= head + Seq::<char>::empty());
    }
    assert(line_text(l@) =~= noted_text(label@, value@, note@, iw as nat));
    push_line(lines, l);
}

/// What the offset was measured against.
fn against(d: &Device, basis: &OffsetBasis) -> (s: String)
    ensures
        s@ == against_text(*d, *basis),
{
    match &d.crystal {
        None => crate::text::owned("no packet from it has reported one"),
        Some(_) => match basis {
            OffsetBasis::Unreferenced => crate::text::owned("relative to our own oscillator"),
            OffsetBasis::Expired => crate::text::owned("relative to our own oscillator, the reference expired"),
            OffsetBasis::Against(src) => {
                let mut s = crate::text::owned("against ");
                push_str(&mut s, src.as_str());
                s
            },
        },
    }
}

/// The PDU types named, `, `-joined, or a dash.
pub fn pdu_types(bits: u16) -> (s: String)
    ensures
        s@ == pdu_types_text(bits as nat),
{
    let ghost all = names_from(bits as nat, 0, 16);
    let ghost mut acc: Seq<Seq<char>> = seq![];
    let mut s = String::new();
    let mut count: usize = 0;
    let mut rest: u16 = bits;
    let mut code: u8 = 0;
    while code < 16
        invariant
            code <= 16,
            count == acc.len(),
            count <= code,
            s@ == join(acc),
            acc + names_from(rest as nat, code as nat, (16 - code) as nat) == all,
            all == names_from(bits as nat, 0, 16),
        decreases 16 - code,
    {
        let ghost here = if rest % 2 == 1 { seq![pdu_label(pdu_of(code as nat))] } else { Seq::<Seq<char>>::empty() };
        assert(names_from(rest as nat, code as nat, (16 - code) as nat)
            == here + names_from((rest / 2) as nat, (code + 1) as nat, (16 - code - 1) as nat));
        if rest % 2 == 1 {
            let t = PduType::from_bits(code);
            let name = t.label();
            let ghost before = acc;
            push_item(&mut s, count, name.as_str());
            proof {
                acc = acc.push(name@);
                assert(acc.drop_last() =~= before);
                if before.len() == 0 {
                    assert(acc =~= seq![name@]);
                }
            }
            count = count + 1;
        }
        proof {
            assert(acc + names_from((rest / 2) as nat, (code + 1) as nat, (16 - code - 1) as nat) =~= all);
        }
        rest = rest / 2;
        code = code + 1;
    }
    assert(acc =~= all);
    if count == 0 {
        return crate::text::owned("-");
    }
    s
}

/// Appends the PDU types wrapped beside their label.
fn push_pdu_rows(lines: &mut Vec<Vec<Piece>>, d: &Device, iw: usize)
    ensures
        lines_text(final(lines)@) == lines_text(old(lines)@) + pdu_rows(*d, iw as nat),
{
    let ghost start = lines_text(lines@);
    let text = pdu_types(d.pdu_types);
    let w = if iw >= DETAIL_LABEL_W + 1 { iw - DETAIL_LABEL_W - 1 } else { 0 };
    let rows = wrap(text.as_str(), w, 2);
    let ghost want = pdu_rows(*d, iw as nat);
    proof { reveal_strlit(""); }
    let mut i: usize = 0;
    while i < rows.len()
        invariant
            i <= rows@.len(),
            views(rows@) == wrapped(pdu_types_text(d.pdu_types as nat), w as nat, 2),
            w == (if iw >= DETAIL_LABEL_W + 1 { (iw - DETAIL_LABEL_W - 1) as nat } else { 0nat }),
            want == pdu_rows(*d, iw as nat),
            ""@ == Seq::<char>::empty(),
            lines_text(lines@) == start + want.subrange(0, i as int),
        decreases rows@.len() - i,
    {
        let mut l: Vec<Piece> = Vec::new();
        assert(line_text(l@) =~= Seq::<char>::empty());
        push_piece(&mut l, field(if i == 0 { "PDU types" } else { "" }, DETAIL_LABEL_W));
        push_piece(&mut l, crate::ui::chrome::text_piece(rows[i].as_str(), Ink::Value));
        assert(line_text(l@) =~= want[i as int]);
        push_line(lines, l);
        assert(want.subrange(0, i + 1) =~= want.subrange(0, i as int).push(want[i as int]));
        i = i + 1;
    }
    assert(want.subrange(0, rows@.len() as int) =~= want);
}

/// The block for device `d`, `iw` columns wide.
pub fn detail(d: &Device, net: &NetState, iw: usize) -> (lines: Vec<Vec<Piece>>)
    ensures
        lines_text(lines@) == detail_text(*d, *net, iw as nat),
{
    let mut lines: Vec<Vec<Piece>> = Vec::new();
    assert(lines_text(lines@) =~= Seq::<Seq<char>>::empty());
    push_line(&mut lines, one(section("selected", "", iw)));
    let mut id = String::new();
    push_char(&mut id, ' ');
    push_str(&mut id, address_text(d.address).as_str());
    match &d.holder {
        Some(h) => {
            push_str(&mut id, "  ");
            push_str(&mut id, h.as_str());
        },
        None => {},
    }
    let ghost id_v = id@;
    assert(id_v =~= seq![' '] + identity_text(*d));
    push_line(&mut lines, one(piece(id, Ink::Value)));
    let ghost head = lines_text(lines@);
    push_pairs(&mut lines, d, iw);
    let cfo = text_or_dash(match &d.crystal { Some(c) => Some(&c.ppm), None => None });
    let why = against(d, &net.offset_basis);
    push_noted(&mut lines, "crystal", cfo.as_str(), why.as_str(), iw);
    let mut crc = fmt_crc(d);
    push_str(&mut crc, " passed, ");
    push_dec(&mut crc, d.crc_failed);
    push_str(&mut crc, " failed");
    push_noted(&mut lines, "CRC", crc.as_str(), "a ceiling: a corrupted address is nobody's failure", iw);
    push_pdu_rows(&mut lines, d, iw);
    assert(lines_text(lines@) =~= detail_text(*d, *net, iw as nat));
    lines
}

} // verus!
