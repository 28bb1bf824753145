use sdrtop::ui::wrap::wrap;
use sdrtop::ui::widgets::band_plan::band_at;
use sdrtop::ui::widgets::bigdigits::{big_width, glyph, GLYPH_W};
use sdrtop::ui::chrome::Ink;
use sdrtop::ui::widgets::micro_common::{drop_ink, fft_stale, fmt_bw, fmt_freq_mhz, status_badge};
use sdrtop::ui::widgets::timing_fmt::{fmt_us, ppm_span, quality_ink};

#[test]
fn band_at_picks_narrowest_match() {
    // 433.92 MHz sits in both 70cm and ISM433 → the narrower ISM433 wins.
    assert_eq!(band_at(433_920_000), Some("ISM433"));
    // FM broadcast.
    assert_eq!(band_at(100_000_000), Some("FM"));
    // Nothing allocated here.
    assert_eq!(band_at(420_000_000), None);
}

#[test]
fn band_at_edges_are_half_open() {
    assert_eq!(band_at(87_500_000), Some("FM"));
    assert_eq!(band_at(108_000_000), Some("VOR/ILS"));
    assert_eq!(band_at(2_483_499_999), Some("2.4G"));
    assert_eq!(band_at(2_483_500_000), None);
}

#[test]
fn every_glyph_row_is_three_columns() {
    for c in "0123456789. ".chars() {
        for (r, row) in glyph(c).iter().enumerate() {
            assert_eq!(row.chars().count(), GLYPH_W, "char {c:?} row {r} not {GLYPH_W} cols");
        }
    }
}

#[test]
fn big_width_counts_glyphs_and_gaps() {
    assert_eq!(big_width(""), 0);
    assert_eq!(big_width("9"), 3);
    assert_eq!(big_width("92"), 3 + 1 + 3);
    // "92.800" → 6 chars × 3 + 5 gaps = 23
    assert_eq!(big_width("92.800"), 23);
}

#[test]
fn an_unknown_character_is_a_blank_cell() {
    assert_eq!(glyph('x'), ["   ", "   ", "   "]);
    assert_eq!(glyph('0'), ["█▀█", "█ █", "▀▀▀"]);
}

#[test]
fn fmt_bw_reads_the_same_everywhere() {
    assert_eq!(fmt_bw(180_500), "180.5 kHz", "sub-kHz resolution survives");
    assert_eq!(fmt_bw(1_250_000), "1.250 MHz", "and sub-10-kHz at MHz scale");
}

#[test]
fn fmt_helpers_on_integers() {
    assert_eq!(fmt_freq_mhz(433_920_000), "433.920 MHz");
    assert_eq!(fmt_bw(152_000), "152.0 kHz");
    assert_eq!(fmt_bw(1_200_000), "1.200 MHz");
    assert_eq!(fmt_bw(400), "400 Hz");
    assert_eq!(fmt_bw(0), "0 Hz");
    assert_eq!(fmt_bw(999), "999 Hz");
    assert_eq!(fmt_bw(1_000), "1.0 kHz");
}

#[test]
fn fft_staleness_follows_the_frame_age() {
    assert!(fft_stale(None));
    assert!(!fft_stale(Some(0)));
    assert!(!fft_stale(Some(500)));
    assert!(fft_stale(Some(501)));
}

#[test]
fn fmt_us_switches_to_ms() {
    assert_eq!(fmt_us(450), "450 µs");
    assert_eq!(fmt_us(13_107), "13.107 ms");
}

#[test]
fn fmt_us_keeps_leading_zeros_in_the_fraction() {
    assert_eq!(fmt_us(1_000), "1.000 ms");
    assert_eq!(fmt_us(1_005), "1.005 ms");
    assert_eq!(fmt_us(999), "999 µs");
}

#[test]
fn a_drop_count_reads_good_then_warn_then_crit() {
    assert_eq!(drop_ink(0), Ink::Good);
    assert_eq!(drop_ink(1), Ink::Warn);
    assert_eq!(drop_ink(9), Ink::Warn);
    assert_eq!(drop_ink(10), Ink::Crit);
    assert_eq!(drop_ink(u64::MAX), Ink::Crit);
}

#[test]
fn ppm_span_color_thresholds() {
    assert_eq!(ppm_span(10).ink, Ink::Good);
    assert_eq!(ppm_span(-120).ink, Ink::Warn);
    assert_eq!(ppm_span(600).ink, Ink::Crit);
}

#[test]
fn a_ppm_figure_always_carries_its_sign() {
    assert_eq!(ppm_span(10).text, "+10 ppm");
    assert_eq!(ppm_span(0).text, "+0 ppm");
    assert_eq!(ppm_span(-120).text, "-120 ppm");
    assert_eq!(ppm_span(-49).ink, Ink::Good);
    assert_eq!(ppm_span(-50).ink, Ink::Warn);
    assert_eq!(ppm_span(199).ink, Ink::Warn);
    assert_eq!(ppm_span(200).ink, Ink::Crit);
    assert_eq!(ppm_span(i64::MIN).text, "-9223372036854775808 ppm");
    assert_eq!(ppm_span(i64::MIN).ink, Ink::Crit);
}

#[test]
fn a_verdict_wears_the_ink_of_its_severity() {
    assert_eq!(quality_ink(0), Ink::Good);
    assert_eq!(quality_ink(1), Ink::ValueHi);
    assert_eq!(quality_ink(2), Ink::Warn);
    assert_eq!(quality_ink(3), Ink::Crit);
    assert_eq!(quality_ink(u8::MAX), Ink::Crit);
}

#[test]
fn the_badge_says_whether_the_radio_is_receiving() {
    let (dot, word) = status_badge(true);
    assert_eq!((dot.text.as_str(), word.text.as_str()), ("\u{25cf}", " RX"));
    assert_eq!((dot.ink, word.ink), (Ink::Good, Ink::Good));
    let (dot, word) = status_badge(false);
    assert_eq!((dot.text.as_str(), word.text.as_str()), ("\u{25cb}", " IDLE"));
    assert_eq!((dot.ink, word.ink), (Ink::Warn, Ink::Warn));
}

/// No wrapped row is wider than its width, a long word breaks at the width,
/// and a cut sentence ends in the cut mark within the width.
#[test]
fn wrapped_rows_fit_their_width() {
    let rows = wrap("the decoder is reading addresses", 10, 10);
    assert_eq!(rows, vec!["the", "decoder is", "reading", "addresses"]);
    let rows = wrap("abcdefghijklmnopqrstuvwxyz", 8, 10);
    assert_eq!(rows, vec!["abcdefgh", "ijklmnop", "qrstuvwx", "yz"]);
    let rows = wrap("one two three four five six", 9, 2);
    assert_eq!(rows.len(), 2);
    assert!(rows.iter().all(|r| r.chars().count() <= 9), "{rows:?}");
    assert!(rows[1].ends_with('\u{2026}'), "{rows:?}");
    assert!(wrap("anything", 0, 3).is_empty());
}

#[test]
fn a_halfway_count_prints_as_its_double_falls() {
    // 1.0005 is held just below the half, 2.0005 just above it.
    assert_eq!(fmt_bw(1_000_500), "1.000 MHz");
    assert_eq!(fmt_bw(2_000_500), "2.001 MHz");
    assert_eq!(fmt_freq_mhz(1_000_500), "1.000 MHz");
    // An exact tie goes to the even digit.
    assert_eq!(fmt_bw(1_250), "1.2 kHz");
    assert_eq!(fmt_bw(1_350), "1.4 kHz");
    assert_eq!(fmt_bw(1_234_567_890), "1234.568 MHz");
    assert_eq!(fmt_bw(u64::MAX), "18446744073709.551 MHz");
}
