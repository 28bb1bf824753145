use sdrtop::ui::registry::Panel;
use sdrtop::ui::chrome::{Ink, Piece};
use sdrtop::ui::signal_characterization::{
    characterization, characterization_lines, characterization_title, fmt_bw, fmt_freq, AcprReading, HeadlineReading,
    Readings, SignalCharacterizationPanel, VerdictLevel,
};

#[test]
fn panel_name_is_stable() {
    assert_eq!(SignalCharacterizationPanel.name(), "signal_characterization");
}

#[test]
fn fmt_bw_picks_units() {
    assert_eq!(fmt_bw(180_000), "180.0 kHz");
    assert_eq!(fmt_bw(1_500_000), "1.500 MHz");
    assert_eq!(fmt_bw(400), "400 Hz");
}

#[test]
fn verdict_level_short_labels() {
    assert_eq!(VerdictLevel::Clean.short_label(), "Clean");
    assert_eq!(VerdictLevel::Caution.short_label(), "Caution");
    assert_eq!(VerdictLevel::NoSignal.short_label(), "No signal");
}

#[test]
fn fmt_freq_switches_to_ghz() {
    assert_eq!(fmt_freq(92_800_000), "92.800 MHz");
    assert_eq!(fmt_freq(1_234_500_000), "1.234500 GHz");
    assert_eq!(fmt_freq(100_100_000), "100.100 MHz");
}

fn readings() -> Readings {
    Readings {
        headline: Some(HeadlineReading {
            snr: "40.0".to_string(),
            snr_ink: Ink::Good,
            modulation: Some("WFM".to_string()),
        }),
        channel_power: Some("-22.0 dBFS".to_string()),
        peak: Some(("-18.5 dBFS".to_string(), 92_800_000)),
        noise_floor: Some(("-90.0 dBFS".to_string(), Some("-120.0 dBFS/Hz".to_string()))),
        occupied_bw_hz: 180_000,
        peak_hold: None,
        acpr_labels: ("L \u{2212}200k".to_string(), "R +200k".to_string()),
        acpr: Some(AcprReading {
            lower: "-41.0 dB".to_string(),
            upper: "-38.0 dB".to_string(),
            lower_bar: "\u{2588}\u{2588}".to_string(),
            upper_bar: "\u{2588}\u{2588}\u{2588}".to_string(),
        }),
        adj_carrier: Some(("-60.0 dBFS".to_string(), Some(92_600_000))),
        cn_trend: Some(("\u{2581}\u{2588}".to_string(), "\u{00b1}0.3 dB".to_string())),
        crest: Some("3.1 dB".to_string()),
        verdict: Some((VerdictLevel::Clean, "CLEAN WFM SIGNAL".to_string(), "Strong.".to_string())),
    }
}

fn text(lines: &[Vec<Piece>]) -> String {
    lines
        .iter()
        .map(|l| l.iter().map(|p| p.text.as_str()).collect::<String>())
        .collect::<Vec<_>>()
        .join("\n")
}

/// Live, every reading is printed where its row says.
#[test]
fn a_live_frame_prints_every_reading() {
    let out = text(&characterization_lines(false, &readings(), 60, 30));
    assert!(out.contains(" 40.0 dB  peak / noise   WFM   \u{25cf}"), "{out}");
    assert!(out.contains("Channel power -22.0 dBFS"), "{out}");
    assert!(out.contains("Peak          -18.5 dBFS   92.800 MHz"), "{out}");
    assert!(out.contains("-90.0 dBFS   -120.0 dBFS/Hz"), "{out}");
    assert!(out.contains("180.0 kHz   99% power"), "{out}");
    assert!(out.contains("Peak hold     ---"), "{out}");
    assert!(out.contains(" L \u{2212}200k \u{2588}\u{2588} -41.0 dB"), "{out}");
    assert!(out.contains("Adj carrier   -60.0 dBFS   92.600 MHz"), "{out}");
    assert!(out.contains("\u{2713} CLEAN WFM SIGNAL"), "{out}");
    assert!(out.contains("[C] snapshot to log"), "{out}");
    assert!(!out.contains("IDLE"), "{out}");
    assert_eq!(characterization_title(false), " Signal Characterization ");
}

/// Stale, the title says so, every row dashes and the headline and the
/// verdict say the receiver stopped.
#[test]
fn a_stale_frame_dashes_every_row_and_says_so() {
    let out = text(&characterization_lines(true, &readings(), 60, 30));
    assert_eq!(characterization_title(true), " Signal Characterization [STALE] ");
    assert_eq!(out.matches("\u{25cb} IDLE \u{2014} RX stopped").count(), 2, "{out}");
    for name in ["Channel power", "Peak", "Noise floor", "Occupied BW", "Peak hold", "Adj carrier", "C/N trend", "Crest / PAPR"] {
        let row = out.lines().find(|l| l.trim_start().starts_with(name)).unwrap();
        assert!(row.ends_with("---"), "{row}");
    }
    assert!(!out.contains("-22.0"), "{out}");
    assert!(!out.contains("CLEAN"), "{out}");
}

#[test]
fn a_gigahertz_readout_rounds_as_its_double_falls() {
    assert_eq!(fmt_freq(2_400_000_500), "2.400000 GHz");
    assert_eq!(fmt_freq(1_000_500), "1.000 MHz");
    assert_eq!(fmt_freq(u64::MAX), "18446744073.709553 GHz");
}

/// The nameplate and the readings go stale together, by the one rule: no
/// frame, or the last one older than half a second.
#[test]
fn the_title_and_the_readings_go_stale_together() {
    let (title, lines) = characterization(None, &readings(), 60, 30);
    assert_eq!(title, " Signal Characterization [STALE] ");
    assert!(text(&lines).contains("RX stopped"));
    let (title, _) = characterization(Some(501), &readings(), 60, 30);
    assert_eq!(title, " Signal Characterization [STALE] ");
    let (title, lines) = characterization(Some(500), &readings(), 60, 30);
    assert_eq!(title, " Signal Characterization ");
    assert!(!text(&lines).contains("RX stopped"));
}
