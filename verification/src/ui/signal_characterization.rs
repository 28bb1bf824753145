//! `signal_characterization`: the left column of the `lab_signal` preset, an
//! airy read-out of what the signal at centre is and how clean it is.
//!
//! What stands here is the panel's identity, its frequency and bandwidth
//! read-outs, and the verdict's severity scale.
use vstd::prelude::*;
use crate::text::{fixed, pad_right, push_pad_right, push_spaces, push_str, spaces};
use crate::rounding::{printed, printed_u64, push_fixed_wide};
use crate::ui::chrome::{field, field_text, line_text, piece, push_piece, section, section_text, text_piece, Ink, Piece};
use crate::ui::frame::{fit_spacers, fitted, lines_text};
use crate::ui::panels::net::{nothing, one};
use crate::ui::registry::Panel;
use crate::ui::widgets::micro_common::{bw_text, fft_stale, fmt_bw as bw_string, is_fft_stale};

verus! {

pub struct SignalCharacterizationPanel;

impl Panel for SignalCharacterizationPanel {
    fn name(&self) -> (n: &'static str)
        ensures
            n@ == "signal_characterization"@,
    {
        "signal_characterization"
    }

    fn min_size(&self) -> (r: (u16, u16))
        ensures
            r == (30u16, 12u16),
    {
        (30, 12)
    }
}

impl SignalCharacterizationPanel {
    /// The key that focuses the panel.
    pub fn focus_key(&self) -> (k: Option<char>)
        ensures
            k == Some('x'),
    {
        Some('x')
    }
}

/// `92.800 MHz` / `1.234500 GHz`: to the kilohertz, in the unit its size
/// reads best in; the quotient is the double's, printed to the places with a
/// tie to the even digit (see `rounding`).
pub open spec fn freq_text(hz: nat) -> Seq<char> {
    if hz >= 1_000_000_000 {
        fixed(printed(hz, 1_000_000_000, 1_000_000), 6) + " GHz"@
    } else {
        fixed(printed(hz, 1_000_000, 1000), 3) + " MHz"@
    }
}

/// `92.800 MHz` / `1.234500 GHz` — the same precise readout the lab marker
/// bar uses.
pub fn fmt_freq(hz: u64) -> (s: String)
    ensures
        s@ == freq_text(hz as nat),
{
    let mut s = String::new();
    if hz >= 1_000_000_000 {
        push_fixed_wide(&mut s, printed_u64(hz, 1_000_000_000, 1_000_000), 6);
        push_str(&mut s, " GHz");
    } else {
        push_fixed_wide(&mut s, printed_u64(hz, 1_000_000, 1000), 3);
        push_str(&mut s, " MHz");
    }
    s
}

/// Occupied-bandwidth readout: MHz / kHz / Hz by magnitude, the deck's one
/// bandwidth format.
pub fn fmt_bw(hz: u64) -> (s: String)
    ensures
        s@ == crate::ui::widgets::micro_common::bw_text(hz as nat),
{
    crate::ui::widgets::micro_common::fmt_bw(hz)
}

/// The verdict card's severity, driving its colour and mark glyph.
/// `NoSignal` reads dim/neutral, not critical — an empty channel isn't a
/// fault.
#[derive(Clone, Copy, PartialEq, Eq, Debug)]
pub enum VerdictLevel {
    Clean,
    Caution,
    NoSignal,
}

/// The short word for a severity.
pub open spec fn short_label_text(level: VerdictLevel) -> Seq<char> {
    match level {
        VerdictLevel::Clean => "Clean"@,
        VerdictLevel::Caution => "Caution"@,
        VerdictLevel::NoSignal => "No signal"@,
    }
}

impl VerdictLevel {
    /// Short word for a tight space (the marker bar), distinct from the
    /// verdict card's fuller headline.
    pub fn short_label(self) -> (s: &'static str)
        ensures
            s@ == short_label_text(self),
    {
        match self {
            VerdictLevel::Clean => "Clean",
            VerdictLevel::Caution => "Caution",
            VerdictLevel::NoSignal => "No signal",
        }
    }
}

/// The label column of the metric rows: the longest label and a gap.
pub const FIELD_W: usize = 14;

/// The headline while the frame is live: the peak-to-noise figure in the
/// status ink its size earns, and the classifier's label where it knows one.
pub struct HeadlineReading {
    pub snr: String,
    pub snr_ink: Ink,
    pub modulation: Option<String>,
}

/// The adjacent-channel pair, once both sides were measured: each ratio as
/// printed and the bar drawn for it.
pub struct AcprReading {
    pub lower: String,
    pub upper: String,
    pub lower_bar: String,
    pub upper_bar: String,
}

/// What the panel shows, each reading as printed, `None` where the frame
/// gave none.
pub struct Readings {
    pub headline: Option<HeadlineReading>,
    pub channel_power: Option<String>,
    /// The strongest bin's level, and where it is.
    pub peak: Option<(String, u64)>,
    /// The noise floor per bin, and as a density where there is one.
    pub noise_floor: Option<(String, Option<String>)>,
    pub occupied_bw_hz: u64,
    pub peak_hold: Option<String>,
    /// The ACPR rows' labels, from the offset the measurement uses.
    pub acpr_labels: (String, String),
    pub acpr: Option<AcprReading>,
    /// The louder adjacent band's level, and where it is when known.
    pub adj_carrier: Option<(String, Option<u64>)>,
    /// The C/N sparkline and its spread.
    pub cn_trend: Option<(String, String)>,
    pub crest: Option<String>,
    /// How the signal is judged: the severity, the headline and the detail.
    pub verdict: Option<(VerdictLevel, String, String)>,
}

/// The panel's title: its name, and `[STALE]` while the frame is stale.
pub open spec fn title_text(stale: bool) -> Seq<char> {
    " Signal Characterization"@ + (if stale { " [STALE]"@ } else { seq![] }) + " "@
}

/// The title, `[STALE]` the moment the frame goes stale.
pub fn characterization_title(stale: bool) -> (s: String)
    ensures
        s@ == title_text(stale),
{
    let mut s = crate::text::owned(" Signal Characterization");
    if stale {
        push_str(&mut s, " [STALE]");
    } else {
        proof { assert(s@ =~= s@ + Seq::<char>::empty()); }
    }
    push_str(&mut s, " ");
    s
}

/// What the headline and the verdict say while nothing live is shown.
pub open spec fn idle_text() -> Seq<char> {
    " \u{25cb} IDLE \u{2014} RX stopped"@
}

/// A metric row: its label in the field, then its body.
pub open spec fn metric_text(name: Seq<char>, body: Seq<char>) -> Seq<char> {
    field_text(name, FIELD_W as nat) + body
}

/// The dash a reading that is not there shows.
pub open spec fn dash_text() -> Seq<char> {
    "---"@
}

/// The headline row.
pub open spec fn headline_text(stale: bool, r: Readings) -> Seq<char> {
    match r.headline {
        Some(h) => if stale {
            idle_text()
        } else {
            " "@ + h.snr@ + " dB"@ + "  peak / noise"@
                + (match h.modulation { Some(m) => "   "@ + m@, None => seq![] })
                + "   \u{25cf}"@
        },
        None => idle_text(),
    }
}

/// The five signal metric rows, all dashed while stale.
pub open spec fn metrics_text(stale: bool, r: Readings) -> Seq<Seq<char>> {
    if stale {
        seq![
            metric_text("Channel power"@, dash_text()),
            metric_text("Peak"@, dash_text()),
            metric_text("Noise floor"@, dash_text()),
            metric_text("Occupied BW"@, dash_text()),
            metric_text("Peak hold"@, dash_text()),
        ]
    } else {
        seq![
            metric_text("Channel power"@, match r.channel_power { Some(v) => v@, None => dash_text() }),
            metric_text("Peak"@, match r.peak { Some((v, hz)) => v@ + "   "@ + freq_text(hz as nat), None => dash_text() }),
            metric_text("Noise floor"@, match r.noise_floor {
                Some((v, d)) => v@ + match d { Some(x) => "   "@ + x@, None => seq![] },
                None => dash_text(),
            }),
            metric_text("Occupied BW"@, if r.occupied_bw_hz > 0 {
                bw_text(r.occupied_bw_hz as nat) + "   99% power"@
            } else {
                dash_text()
            }),
            metric_text("Peak hold"@, match r.peak_hold { Some(v) => v@, None => dash_text() }),
        ]
    }
}

/// The adjacent-channel rows: the two ratios with their bars and the louder
/// band's level once measured and live; three dashed rows otherwise, so the
/// stack below does not jump.
pub open spec fn acpr_text(stale: bool, r: Readings) -> Seq<Seq<char>> {
    let (lo, hi) = r.acpr_labels;
    match r.acpr {
        Some(a) => if stale {
            seq![metric_text(lo@, dash_text()), metric_text(hi@, dash_text()), metric_text("Adj carrier"@, dash_text())]
        } else {
            seq![
                " "@ + pad_right(lo@, 8) + a.lower_bar@ + " "@ + a.lower@,
                " "@ + pad_right(hi@, 8) + a.upper_bar@ + " "@ + a.upper@,
                metric_text("Adj carrier"@, match r.adj_carrier {
                    Some((v, Some(hz))) => v@ + "   "@ + freq_text(hz as nat),
                    Some((v, None)) => v@,
                    None => dash_text(),
                }),
            ]
        },
        None => seq![metric_text(lo@, dash_text()), metric_text(hi@, dash_text()), metric_text("Adj carrier"@, dash_text())],
    }
}

/// The C/N trend row: the sparkline and its spread, the spread pushed to the
/// right edge; a dash where there is no sparkline.
pub open spec fn trend_text(r: Readings, iw: nat) -> Seq<char> {
    match r.cn_trend {
        Some((spark, ann)) => if spark@.len() > 0 {
            let used = 1 + 9 + 1 + spark@.len() + 1 + ann@.len();
            let pad: nat = if iw > used { (iw - used) as nat } else { 1 };
            " C/N trend "@ + spark@ + spaces(pad) + ann@
        } else {
            " C/N trend  "@ + dash_text()
        },
        None => " C/N trend  "@ + dash_text(),
    }
}

/// The spectral shape rows, dashed while stale.
pub open spec fn shape_text(stale: bool, r: Readings, iw: nat) -> Seq<Seq<char>> {
    if stale {
        seq![metric_text("C/N trend"@, dash_text()), metric_text("Crest / PAPR"@, dash_text())]
    } else {
        seq![trend_text(r, iw), metric_text("Crest / PAPR"@, match r.crest { Some(v) => v@, None => dash_text() })]
    }
}

/// The verdict's mark.
pub open spec fn mark_text(level: VerdictLevel) -> Seq<char> {
    match level {
        VerdictLevel::Clean => "\u{2713}"@,
        VerdictLevel::Caution => "\u{26a0}"@,
        VerdictLevel::NoSignal => "\u{25cb}"@,
    }
}

/// The verdict block while live; the idle line while stale.
pub open spec fn verdict_text(stale: bool, r: Readings) -> Seq<Seq<char>> {
    match r.verdict {
        Some((level, head, detail)) => if stale {
            seq![idle_text()]
        } else {
            seq![" "@ + mark_text(level) + " "@ + head@, " "@ + detail@, seq![], " [C] snapshot to log"@]
        },
        None => seq![idle_text()],
    }
}

/// Every line of the panel, `iw` columns wide, before the spacers are fitted.
pub open spec fn characterization_all(stale: bool, r: Readings, iw: nat) -> Seq<Seq<char>> {
    seq![section_text("RADIO HEADLINE"@, ""@, iw), headline_text(stale, r), seq![], section_text("SIGNAL METRICS"@, ""@, iw)]
        + metrics_text(stale, r)
        + seq![seq![], section_text("ADJACENT CHANNEL"@, "ACPR"@, iw)]
        + acpr_text(stale, r)
        + seq![seq![], section_text("SPECTRAL SHAPE"@, "60 s"@, iw)]
        + shape_text(stale, r, iw)
        + seq![seq![]]
        + verdict_text(stale, r)
}

/// What the panel says, `width` by `height`: every reading dashed and the
/// headline and verdict idle while the frame is stale; the spacers fitted to
/// the height.
pub open spec fn characterization_text(stale: bool, r: Readings, width: nat, height: nat) -> Seq<Seq<char>> {
    if width == 0 || height == 0 { seq![] } else { fitted(characterization_all(stale, r, width), height) }
}

/// Appends a line.
fn push_line(lines: &mut Vec<Vec<Piece>>, line: Vec<Piece>)
    ensures
        lines_text(final(lines)@) == lines_text(old(lines)@).push(line_text(line@)),
{
    let ghost before = lines@;
    lines.push(line);
    assert(lines_text(lines@) =~= lines_text(before).push(line_text(line@)));
}

/// A metric row.
fn metric(name: &str, body: Vec<(String, Ink)>) -> (line: Vec<Piece>)
    ensures
        line_text(line@) == field_text(name@, FIELD_W as nat) + join_texts(body@),
{
    let mut line: Vec<Piece> = Vec::new();
    push_piece(&mut line, field(name, FIELD_W));
    assert(line_text(line@) =~= field_text(name@, FIELD_W as nat)) by {
        assert(line@.drop_last() =~= Seq::<Piece>::empty());
    }
    let ghost head = field_text(name@, FIELD_W as nat);
    let n = body.len();
    let mut rest = body;
    let ghost orig = rest@;
    let mut i: usize = 0;
    while i < n
        invariant
            i <= n,
            n == orig.len(),
            rest@ == orig.subrange(i as int, n as int),
            line_text(line@) == head + join_texts(orig.subrange(0, i as int)),
        decreases n - i,
    {
        let (t, ink) = rest.remove(0);
        let ghost tv = t@;
        push_piece(&mut line, piece(t, ink));
        assert(orig.subrange(0, i + 1).drop_last() =~= orig.subrange(0, i as int));
        assert(rest@ =~= orig.subrange(i + 1, n as int));
        i = i + 1;
    }
    assert(orig.subrange(0, n as int) =~= orig);
    line
}

/// The texts of `parts`, run together.
pub open spec fn join_texts(parts: Seq<(String, Ink)>) -> Seq<char>
    decreases parts.len(),
{
    if parts.len() == 0 { seq![] } else { join_texts(parts.drop_last()) + parts.last().0@ }
}

/// A dashed metric row.
fn dashed(name: &str) -> (line: Vec<Piece>)
    ensures
        line_text(line@) == metric_text(name@, dash_text()),
{
    let mut v: Vec<(String, Ink)> = Vec::new();
    v.push((crate::text::owned("---"), Ink::Stale));
    proof {
        let b = v@;
        assert(b.drop_last() =~= Seq::<(String, Ink)>::empty());
        assert(join_texts(b.drop_last()) == Seq::<char>::empty());
        assert(Seq::<char>::empty() + b.last().0@ =~= b[0].0@);
        assert(join_texts(b) == b[0].0@);
    }
    let l = metric(name, v);
    l
}

/// A metric row with one value, or a dash where there is none.
fn opt_row(name: &str, v: &Option<String>) -> (line: Vec<Piece>)
    ensures
        line_text(line@) == metric_text(name@, match v { Some(x) => x@, None => dash_text() }),
{
    match v {
        Some(x) => value_row(name, Some(x)),
        None => value_row(name, None),
    }
}

/// A metric row with one value, or a dash where there is none.
fn value_row(name: &str, v: Option<&String>) -> (line: Vec<Piece>)
    ensures
        line_text(line@) == metric_text(name@, match v { Some(x) => x@, None => dash_text() }),
{
    match v {
        Some(x) => {
            let mut b: Vec<(String, Ink)> = Vec::new();
            b.push((crate::text::owned(x.as_str()), Ink::Value));
            proof {
                assert(b@.drop_last() =~= Seq::<(String, Ink)>::empty());
                assert(join_texts(b@.drop_last()) == Seq::<char>::empty());
                assert(Seq::<char>::empty() + b@.last().0@ =~= b@[0].0@);
                assert(join_texts(b@) == b@[0].0@);
            }
            let l = metric(name, b);
            l
        },
        None => dashed(name),
    }
}

/// Appends `t` as a piece in `ink`.
fn push_t(line: &mut Vec<Piece>, t: &str, ink: Ink, bold: bool)
    ensures
        line_text(final(line)@) == line_text(old(line)@) + t@,
{
    let mut p = text_piece(t, ink);
    p.bold = bold;
    push_piece(line, p);
}

/// Two parts of a metric row's body.
fn pair(a: String, ia: Ink, b: String, ib: Ink) -> (v: Vec<(String, Ink)>)
    ensures
        join_texts(v@) == a@ + b@,
        b@.len() >= 3 && b@.subrange(0, 3) == "   "@ ==> join_texts(v@) == a@ + "   "@ + b@.subrange(3, b@.len() as int),
{
    let ghost av = a@;
    let ghost bv = b@;
    let mut v: Vec<(String, Ink)> = Vec::new();
    v.push((a, ia));
    v.push((b, ib));
    proof {
        let s = v@;
        assert(s.drop_last().drop_last() =~= Seq::<(String, Ink)>::empty());
        assert(join_texts(s.drop_last().drop_last()) == Seq::<char>::empty());
        assert(join_texts(s.drop_last()) =~= av);
        assert(join_texts(s) =~= av + bv);
        if bv.len() >= 3 && bv.subrange(0, 3) == "   "@ {
            assert(bv =~= bv.subrange(0, 3) + bv.subrange(3, bv.len() as int));
            assert(av + bv =~= av + "   "@ + bv.subrange(3, bv.len() as int));
        }
    }
    v
}

/// One part of a metric row's body.
fn single(a: String, ia: Ink) -> (v: Vec<(String, Ink)>)
    ensures
        join_texts(v@) == a@,
{
    let ghost av = a@;
    let mut v: Vec<(String, Ink)> = Vec::new();
    v.push((a, ia));
    proof {
        let s = v@;
        assert(s.drop_last() =~= Seq::<(String, Ink)>::empty());
        assert(join_texts(s.drop_last()) == Seq::<char>::empty());
        assert(join_texts(s) =~= av);
    }
    v
}

/// `s` with `   ` before it.
fn spaced(s: &str) -> (t: String)
    ensures
        t@ == "   "@ + s@,
        t@.len() >= 3,
        t@.subrange(0, 3) == "   "@,
        t@.subrange(3, t@.len() as int) == s@,
{
    let mut t = crate::text::owned("   ");
    push_str(&mut t, s);
    proof {
        reveal_strlit("   ");
        assert(t@.subrange(0, 3) =~= "   "@);
        assert(t@.subrange(3, t@.len() as int) =~= s@);
    }
    t
}

/// The idle line.
fn idle_line() -> (line: Vec<Piece>)
    ensures
        line_text(line@) == idle_text(),
{
    let mut line: Vec<Piece> = Vec::new();
    assert(line_text(line@) =~= Seq::<char>::empty());
    push_t(&mut line, " \u{25cb} IDLE \u{2014} RX stopped", Ink::Stale, false);
    assert(line_text(line@) =~= idle_text());
    line
}

/// The headline row.
fn headline_line(stale: bool, r: &Readings) -> (line: Vec<Piece>)
    ensures
        line_text(line@) == headline_text(stale, *r),
{
    match &r.headline {
        Some(h) => if stale {
            idle_line()
        } else {
            let mut line: Vec<Piece> = Vec::new();
            assert(line_text(line@) =~= Seq::<char>::empty());
            push_t(&mut line, " ", Ink::Plain, false);
            push_t(&mut line, h.snr.as_str(), h.snr_ink, true);
            push_t(&mut line, " dB", Ink::Value, false);
            push_t(&mut line, "  peak / noise", Ink::Stale, false);
            let ghost mid = line_text(line@);
            match &h.modulation {
                Some(m) => {
                    let t = spaced(m.as_str());
                    push_t(&mut line, t.as_str(), Ink::ValueHi, true);
                },
                None => {
                    assert(mid =~= mid + Seq::<char>::empty());
                },
            }
            push_t(&mut line, "   \u{25cf}", h.snr_ink, false);
            assert(line_text(line@) =~= headline_text(stale, *r));
            line
        },
        None => idle_line(),
    }
}

/// The five metric rows.
fn push_metrics(lines: &mut Vec<Vec<Piece>>, stale: bool, r: &Readings)
    ensures
        lines_text(final(lines)@) == lines_text(old(lines)@) + metrics_text(stale, *r),
{
    let ghost start = lines_text(lines@);
    if stale {
        push_line(lines, dashed("Channel power"));
        push_line(lines, dashed("Peak"));
        push_line(lines, dashed("Noise floor"));
        push_line(lines, dashed("Occupied BW"));
        push_line(lines, dashed("Peak hold"));
    } else {
        push_line(lines, opt_row("Channel power", &r.channel_power));
        match &r.peak {
            Some((v, hz)) => {
                let f = fmt_freq(*hz);
                push_line(lines, metric("Peak", pair(crate::text::owned(v.as_str()), Ink::Value, spaced(f.as_str()), Ink::Stale)));
            },
            None => push_line(lines, dashed("Peak")),
        }
        match &r.noise_floor {
            Some((v, d)) => match d {
                Some(x) => push_line(lines, metric("Noise floor", pair(crate::text::owned(v.as_str()), Ink::Value, spaced(x.as_str()), Ink::Stale))),
                None => {
                    let l = metric("Noise floor", single(crate::text::owned(v.as_str()), Ink::Value));
                    assert(v@ + Seq::<char>::empty() =~= v@);
                    push_line(lines, l);
                },
            },
            None => push_line(lines, dashed("Noise floor")),
        }
        if r.occupied_bw_hz > 0 {
            let b = bw_string(r.occupied_bw_hz);
            push_line(lines, metric("Occupied BW", pair(b, Ink::Value, crate::text::owned("   99% power"), Ink::Stale)));
        } else {
            push_line(lines, dashed("Occupied BW"));
        }
        push_line(lines, opt_row("Peak hold", &r.peak_hold));
    }
    assert(lines_text(lines@) =~= start + metrics_text(stale, *r));
}

/// A measured ACPR row: the label, the bar, the ratio.
fn acpr_row(label: &str, bar: &str, value: &str) -> (line: Vec<Piece>)
    ensures
        line_text(line@) == " "@ + pad_right(label@, 8) + bar@ + " "@ + value@,
{
    let mut l = crate::text::owned(" ");
    push_pad_right(&mut l, label, 8);
    let mut line: Vec<Piece> = Vec::new();
    assert(line_text(line@) =~= Seq::<char>::empty());
    push_t(&mut line, l.as_str(), Ink::Label, false);
    push_t(&mut line, bar, Ink::Warn, false);
    push_t(&mut line, " ", Ink::Plain, false);
    push_t(&mut line, value, Ink::Value, false);
    assert(line_text(line@) =~= " "@ + pad_right(label@, 8) + bar@ + " "@ + value@);
    line
}

/// The adjacent-channel rows.
fn push_acpr(lines: &mut Vec<Vec<Piece>>, stale: bool, r: &Readings)
    ensures
        lines_text(final(lines)@) == lines_text(old(lines)@) + acpr_text(stale, *r),
{
    let ghost start = lines_text(lines@);
    let lo = r.acpr_labels.0.as_str();
    let hi = r.acpr_labels.1.as_str();
    match &r.acpr {
        Some(a) => if stale {
            push_line(lines, dashed(lo));
            push_line(lines, dashed(hi));
            push_line(lines, dashed("Adj carrier"));
        } else {
            push_line(lines, acpr_row(lo, a.lower_bar.as_str(), a.lower.as_str()));
            push_line(lines, acpr_row(hi, a.upper_bar.as_str(), a.upper.as_str()));
            match &r.adj_carrier {
                Some((v, Some(hz))) => {
                    let f = fmt_freq(*hz);
                    push_line(lines, metric("Adj carrier", pair(crate::text::owned(v.as_str()), Ink::Value, spaced(f.as_str()), Ink::Stale)));
                },
                Some((v, None)) => push_line(lines, value_row("Adj carrier", Some(v))),
                None => push_line(lines, dashed("Adj carrier")),
            }
        },
        None => {
            push_line(lines, dashed(lo));
            push_line(lines, dashed(hi));
            push_line(lines, dashed("Adj carrier"));
        },
    }
    assert(lines_text(lines@) =~= start + acpr_text(stale, *r));
}

/// The C/N trend row.
fn trend_line(r: &Readings, iw: usize) -> (line: Vec<Piece>)
    ensures
        line_text(line@) == trend_text(*r, iw as nat),
{
    let mut line: Vec<Piece> = Vec::new();
    assert(line_text(line@) =~= Seq::<char>::empty());
    match &r.cn_trend {
        Some((spark, ann)) => {
            let sl = spark.as_str().unicode_len();
            let al = ann.as_str().unicode_len();
            if sl > 0 {
                push_t(&mut line, " C/N trend ", Ink::Label, false);
                push_t(&mut line, spark.as_str(), Ink::Value, false);
                let pad = if sl <= iw && al <= iw - sl && 12 < iw - sl - al { iw - sl - al - 12 } else { 1 };
                let mut sp = String::new();
                push_spaces(&mut sp, pad);
                push_t(&mut line, sp.as_str(), Ink::Plain, false);
                push_t(&mut line, ann.as_str(), Ink::Stale, false);
                assert(line_text(line@) =~= trend_text(*r, iw as nat));
            } else {
                push_t(&mut line, " C/N trend  ---", Ink::Stale, false);
                proof { reveal_strlit(" C/N trend  ---"); reveal_strlit(" C/N trend  "); reveal_strlit("---"); }
                assert(line_text(line@) =~= trend_text(*r, iw as nat));
            }
        },
        None => {
            push_t(&mut line, " C/N trend  ---", Ink::Stale, false);
            proof { reveal_strlit(" C/N trend  ---"); reveal_strlit(" C/N trend  "); reveal_strlit("---"); }
            assert(line_text(line@) =~= trend_text(*r, iw as nat));
        },
    }
    line
}

/// The verdict block.
fn push_verdict(lines: &mut Vec<Vec<Piece>>, stale: bool, r: &Readings)
    ensures
        lines_text(final(lines)@) == lines_text(old(lines)@) + verdict_text(stale, *r),
{
    let ghost start = lines_text(lines@);
    match &r.verdict {
        Some((level, head, detail)) => if stale {
            push_line(lines, idle_line());
        } else {
            let (mark, ink) = match level {
                VerdictLevel::Clean => ("\u{2713}", Ink::Good),
                VerdictLevel::Caution => ("\u{26a0}", Ink::Warn),
                VerdictLevel::NoSignal => ("\u{25cb}", Ink::Stale),
            };
            let mut h: Vec<Piece> = Vec::new();
            assert(line_text(h@) =~= Seq::<char>::empty());
            push_t(&mut h, " ", Ink::Plain, false);
            let mut t = crate::text::owned(mark);
            push_str(&mut t, " ");
            push_str(&mut t, head.as_str());
            push_t(&mut h, t.as_str(), ink, true);
            assert(line_text(h@) =~= " "@ + mark_text(*level) + " "@ + head@);
            push_line(lines, h);
            let mut d: Vec<Piece> = Vec::new();
            assert(line_text(d@) =~= Seq::<char>::empty());
            push_t(&mut d, " ", Ink::Plain, false);
            push_t(&mut d, detail.as_str(), Ink::Label, false);
            push_line(lines, d);
            push_line(lines, Vec::new());
            assert(line_text(Seq::<Piece>::empty()) == Seq::<char>::empty());
            let mut c: Vec<Piece> = Vec::new();
            assert(line_text(c@) =~= Seq::<char>::empty());
            push_t(&mut c, " ", Ink::Plain, false);
            push_t(&mut c, "[C]", Ink::ValueHi, true);
            push_t(&mut c, " snapshot to log", Ink::Label, false);
            proof {
                reveal_strlit(" ");
                reveal_strlit("[C]");
                reveal_strlit(" snapshot to log");
                reveal_strlit(" [C] snapshot to log");
            }
            assert(line_text(c@) =~= " [C] snapshot to log"@);
            push_line(lines, c);
        },
        None => push_line(lines, idle_line()),
    }
    assert(lines_text(lines@) =~= start + verdict_text(stale, *r));
}

/// The panel's lines, `width` by `height`: every reading dashed and the
/// headline and verdict idle while the frame is stale, the spacers fitted to
/// the height.
pub fn characterization_lines(stale: bool, readings: &Readings, width: usize, height: usize) -> (lines: Vec<Vec<Piece>>)
    requires
        height <= 0xffff,
    ensures
        lines_text(lines@) == characterization_text(stale, *readings, width as nat, height as nat),
{
    if width == 0 || height == 0 {
        return nothing();
    }
    let r = readings;
    let mut lines: Vec<Vec<Piece>> = Vec::new();
    assert(lines_text(lines@) =~= Seq::<Seq<char>>::empty());
    assert(line_text(Seq::<Piece>::empty()) == Seq::<char>::empty());
    push_line(&mut lines, one(section("RADIO HEADLINE", "", width)));
    push_line(&mut lines, headline_line(stale, r));
    push_line(&mut lines, Vec::new());
    push_line(&mut lines, one(section("SIGNAL METRICS", "", width)));
    push_metrics(&mut lines, stale, r);
    push_line(&mut lines, Vec::new());
    push_line(&mut lines, one(section("ADJACENT CHANNEL", "ACPR", width)));
    push_acpr(&mut lines, stale, r);
    push_line(&mut lines, Vec::new());
    push_line(&mut lines, one(section("SPECTRAL SHAPE", "60 s", width)));
    if stale {
        push_line(&mut lines, dashed("C/N trend"));
        push_line(&mut lines, dashed("Crest / PAPR"));
    } else {
        push_line(&mut lines, trend_line(r, width));
        push_line(&mut lines, opt_row("Crest / PAPR", &r.crest));
    }
    push_line(&mut lines, Vec::new());
    push_verdict(&mut lines, stale, r);
    assert(lines_text(lines@) =~= characterization_all(stale, *r, width as nat));
    fit_spacers(lines, height)
}

/// The panel whole, from the age of the latest FFT frame (`None` where there
/// is none): its title and its lines, both judged stale by the one rule,
/// `fft_stale`, so the nameplate says `[STALE]` exactly when the readings
/// below it are dashed.
pub fn characterization(last_fft_age_ms: Option<u64>, readings: &Readings, width: usize, height: usize) -> (out: (String, Vec<Vec<Piece>>))
    requires
        height <= 0xffff,
    ensures
        out.0@ == title_text(is_fft_stale(last_fft_age_ms)),
        lines_text(out.1@) == characterization_text(is_fft_stale(last_fft_age_ms), *readings, width as nat, height as nat),
{
    let stale = fft_stale(last_fft_age_ms);
    (characterization_title(stale), characterization_lines(stale, readings, width, height))
}


} // verus!
