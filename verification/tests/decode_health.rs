use sdrtop::state::{SdrMetrics, UapEntry};
use sdrtop::ui::panels::net::shared::decode_health::{grouped, samples, NetDecodeHealthPanel};

fn streaming() -> SdrMetrics {
    let mut m = SdrMetrics::new().streaming();
    m.net.health.blocks_in = 12_403;
    m.net.health.pairs_in = 1_626_505_216;
    m.net.health.run_blocks = 940;
    m.net.health.gaps = 3;
    m.net.health.blocks_lost = 7;
    m.net.health.refused_session = 2;
    m.net.health.refused = 1;
    m.net.health.peak_depth = 4;
    m
}

fn draw(m: &SdrMetrics, w: usize, h: usize) -> Vec<String> {
    NetDecodeHealthPanel.draw(m, w, h)
}

#[test]
fn the_counts_reach_the_screen_grouped_and_labelled() {
    let out = draw(&streaming(), 60, 18).join("\n");
    assert!(out.contains("12 403"), "{out}");
    assert!(out.contains("interruptions"), "{out}");
    // The pair count is the one figure shown in units rather than in full,
    // because past the third digit it stops being a fact anybody wants.
    assert!(out.contains("1.63 Gsamp"), "{out}");
    assert!(!out.contains("1 626 505 216"), "{out}");
    // The floor is stated on the line it qualifies, not in a footnote.
    assert!(out.contains("a floor"), "{out}");
}

/// The one line here that must never become a zero.
#[test]
fn nothing_is_decoded_and_the_panel_says_so_rather_than_showing_zero() {
    let out = draw(&streaming(), 60, 18).join("\n");
    let bursts = out
        .lines()
        .find(|l| l.contains("bursts"))
        .expect("a bursts line");
    assert!(bursts.contains('—'), "{bursts}");
    assert!(!bursts.contains('0'), "{bursts}");
    assert!(bursts.contains("no detector yet"), "{bursts}");
}

/// The funnels, once the decoders have run.
#[test]
fn the_decode_funnels_reach_the_screen() {
    let mut m = streaming();
    m.net.ble_channel = Some(37);
    m.net.health.ble_triggered = 1_204;
    m.net.health.ble_decoded = 951;
    m.net.health.ble_crc_failed = 3;
    m.net.health.ble_gave_up = 250;
    m.net.bt_channels_watched = vec![38, 39, 40];
    m.net.health.bt_hits = 312;
    m.net.bt_uap.push(UapEntry { lap: 0x9e8b33, candidates: vec![0x47] });
    m.net.bt_uap.push(UapEntry { lap: 0x123456, candidates: vec![0x10, 0x90] });
    m.net.health.decode_load_milli = Some(1_070);
    let out = draw(&m, 64, 30).join("\n");
    let line = |label: &str| {
        out.lines()
            .find(|l| l.contains(label))
            .unwrap_or_else(|| panic!("{label}:\n{out}"))
            .to_string()
    };
    assert!(line("BLE triggers").contains("1 204"), "{out}");
    assert!(line("CRC good").contains("951"), "{out}");
    assert!(line("gave up").contains("250"), "{out}");
    assert!(line("BT hits").contains("312"), "{out}");
    assert!(line("UAPs resolved").contains("1 of 2"), "{out}");
    assert!(line("decode load").contains("107 %"), "{out}");
    assert!(line("decode load").contains("falling behind"), "{out}");
    // Still true, still said.
    assert!(line("bursts").contains("no detector yet"), "{out}");
}

/// A decoder that has not run this session is a dash, never a zero.
#[test]
fn a_decoder_that_never_ran_is_a_dash_not_a_zero() {
    let out = draw(&streaming(), 64, 30).join("\n");
    for label in ["BLE", "classic BT", "decode load"] {
        let row = out
            .lines()
            .find(|l| l.trim_start_matches(['│', ' ']).starts_with(label))
            .unwrap_or_else(|| panic!("{label}:\n{out}"));
        assert!(row.contains('—'), "{row}");
        assert!(!row.contains('0'), "{row}");
    }
}

/// A radio that has delivered nothing says nothing, and the chrome carries
/// the reason.
#[test]
fn a_feed_that_has_delivered_nothing_reads_as_nothing() {
    let out = draw(&SdrMetrics::new(), 60, 18).join("\n");
    assert!(out.contains("blocks"), "{out}");
    assert!(out.contains("0 samp"), "{out}");
    assert!(out.contains("[STALE]"), "{out}");
}

/// A note is dropped whole or drawn whole, and no row ever runs past the
/// frame.
#[test]
fn decode_health_it_fits_every_size_the_layout_can_hand_it() {
    const NOTES: [&str; 12] = [
        "since the last break",
        "runs broken",
        "a floor",
        "never reached a decoder",
        "no detector yet",
        "the detector fired",
        "length matches the signal",
        "nothing matched",
        "access codes",
        "piconets named",
        "not decoding",
        "not measured yet",
    ];
    for w in 20..90u16 {
        for h in 4..24u16 {
            for line in draw(&streaming(), w as usize, h as usize) {
                assert!(
                    line.chars().count() <= w as usize,
                    "{w}x{h} overran: {line:?}"
                );
                let content =
                    line.trim_matches(|c: char| c == ' ' || c == '│' || "╭╮╰╯─".contains(c));
                for note in NOTES {
                    for cut in 1..note.chars().count() {
                        let prefix: String = note.chars().take(cut).collect();
                        assert!(
                            !content.ends_with(&format!("   {prefix}")),
                            "{w}x{h} truncated {note:?}: {line:?}"
                        );
                    }
                }
            }
        }
    }
}

#[test]
fn counts_are_grouped_in_threes_from_the_right() {
    assert_eq!(grouped(0), "0");
    assert_eq!(grouped(999), "999");
    assert_eq!(grouped(1_000), "1 000");
    assert_eq!(grouped(1_204), "1 204");
    assert_eq!(grouped(1_626_505_216), "1 626 505 216");
    assert_eq!(grouped(u64::MAX), "18 446 744 073 709 551 615");
}

#[test]
fn the_pair_count_takes_the_largest_unit_it_reaches() {
    assert_eq!(samples(0), "0 samp");
    assert_eq!(samples(999), "999 samp");
    assert_eq!(samples(1_000), "1.00 ksamp");
    assert_eq!(samples(20_480), "20.48 ksamp");
    assert_eq!(samples(2_000_000), "2.00 Msamp");
    assert_eq!(samples(1_626_505_216), "1.63 Gsamp");
    // An exact half goes to the even neighbour.
    assert_eq!(samples(1_625_000_000), "1.62 Gsamp");
    assert_eq!(samples(1_635_000_000), "1.64 Gsamp");
    // Just under a unit rounds up into a four-digit figure of the smaller.
    assert_eq!(samples(999_999_999), "1000.00 Msamp");
}

/// The load within the stream's pace is a plain figure; above it, the row
/// says the worker is falling behind, and a dash until it is measured.
#[test]
fn the_decode_load_says_when_the_worker_falls_behind() {
    let mut m = streaming();
    let row = |m: &SdrMetrics| {
        draw(m, 64, 30)
            .into_iter()
            .find(|l| l.contains("decode load"))
            .unwrap()
    };
    assert!(row(&m).contains("not measured yet"));
    m.net.health.decode_load_milli = Some(1_000);
    assert!(row(&m).contains("100 %"));
    assert!(!row(&m).contains("falling behind"));
    m.net.health.decode_load_milli = Some(425);
    assert!(row(&m).contains("42 %"));
    m.net.health.decode_load_milli = Some(1_001);
    assert!(row(&m).contains("falling behind"));
}

/// The spacers grow on a tall panel and go first on a short one; no other
/// line moves out of order.
#[test]
fn the_spacers_take_the_slack_and_go_first() {
    let tall: Vec<String> = draw(&streaming(), 60, 26);
    let short: Vec<String> = draw(&streaming(), 60, 16);
    let body = |rows: &[String]| -> Vec<String> {
        rows[1..rows.len() - 1]
            .iter()
            .map(|r| r.trim_matches(['│', ' ']).to_string())
            .collect()
    };
    let t = body(&tall);
    let s = body(&short);
    // Twenty-four rows for sixteen lines: the two spacers take four more each.
    assert_eq!(t.iter().filter(|r| r.is_empty()).count(), 10);
    assert!(t[0].contains("WHAT ARRIVED"));
    assert!(t[23].contains("bursts"));
    // Fourteen rows for sixteen lines: both spacers go, and the accounts
    // close up with every line still there.
    assert_eq!(s.iter().filter(|r| r.is_empty()).count(), 0);
    assert!(s[4].contains("WHAT DID NOT"));
    assert!(s[13].contains("bursts"));
}

/// The frame says STALE exactly while no samples flow.
#[test]
fn the_frame_is_stale_exactly_while_nothing_flows() {
    let live = draw(&streaming(), 60, 18);
    assert!(!live[0].contains("STALE"), "{}", live[0]);
    assert!(live[0].contains("Feed Health"), "{}", live[0]);
    let idle = draw(&SdrMetrics::new(), 60, 18);
    assert!(idle[0].contains("[STALE]"), "{}", idle[0]);
}

#[test]
fn a_pair_count_at_a_written_half_rounds_as_its_double_falls() {
    // 1.015 is held just below the half, so it prints as 1.01.
    assert_eq!(samples(1_015_000), "1.01 Msamp");
    assert_eq!(samples(2_675_000_000), "2.67 Gsamp");
}

/// The UAP row counts the LAPs a header was decoded on, not the piconets
/// heard: before any header, nothing has been narrowed at all.
#[test]
fn before_any_header_no_uap_is_counted() {
    let mut m = streaming();
    m.net.bt_channels_watched = vec![38, 39, 40];
    m.net.health.bt_hits = 5;
    let out = draw(&m, 64, 30).join("\n");
    let line = out.lines().find(|l| l.contains("UAPs resolved")).expect(&out).to_string();
    assert!(line.contains("0 of 0"), "{out}");
}
