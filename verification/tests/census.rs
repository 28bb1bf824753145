use sdrtop::census::{fmt_crc, CrystalOffset, Device, Measured};
use sdrtop::state::{OffsetBasis, SdrMetrics};
use sdrtop::ui::panels::net::shared::census::detail::pdu_types;
use sdrtop::ui::panels::net::census::NetCensusPanel as FirstCensus;
use sdrtop::ui::panels::net::shared::census::clock_dial::ordinal;
use sdrtop::ui::panels::net::shared::census::NetCensusPanel;

fn streaming() -> SdrMetrics {
    SdrMetrics::new().streaming()
}

/// A device first heard `first_seen` seconds ago, with one packet.
fn heard(address: [u8; 6], first_seen: u64) -> Device {
    Device {
        address,
        random: false,
        packets: 1,
        crc_failed: 0,
        best_snr_tenths: None,
        first_seen_secs: first_seen,
        last_seen_secs: first_seen,
        crystal: None,
        mean_snr: None,
        modulation: None,
        pdu_types: 0,
        holder: None,
    }
}

fn populated() -> SdrMetrics {
    let mut m = streaming();
    m.net.census.devices = vec![
        // Everything measured: two PDU types, a modulation index, and 22
        // failures credited against 1204 good packets.
        Device {
            packets: 1_204,
            best_snr_tenths: Some(123),
            last_seen_secs: 2,
            crystal: Some(CrystalOffset {
                ppm_milli: 35_400,
                khz: "85.0 ±1.2 kHz".to_string(),
                ppm: "35.4 ±0.5 ppm".to_string(),
            }),
            pdu_types: 1 << 0x0 | 1 << 0x4,
            modulation: Some(Measured { milli: 500, text: "0.500 ±0.010".to_string() }),
            mean_snr: Some(Measured { milli: 8_400, text: "8.40 ±0.09 dB".to_string() }),
            crc_failed: 22,
            holder: Some("Apple".to_string()),
            ..heard([0xa4, 0x83, 0xe7, 0x1c, 0x09, 0xbe], 600)
        },
        // Nearly nothing: one SNR reading, so a mean nobody can vouch for,
        // and none of the other measurements.
        Device {
            packets: 7,
            best_snr_tenths: Some(24),
            last_seen_secs: 240,
            pdu_types: 1 << 0x2,
            mean_snr: Some(Measured { milli: 2_400, text: "— dB".to_string() }),
            ..heard([0xf0, 0x18, 0x98, 0x00, 0x11, 0x22], 250)
        },
        Device {
            packets: 96,
            best_snr_tenths: Some(69),
            last_seen_secs: 31,
            crystal: Some(CrystalOffset {
                ppm_milli: -5_000,
                khz: "-12.0 ±1.2 kHz".to_string(),
                ppm: "-5.0 ±0.5 ppm".to_string(),
            }),
            pdu_types: 1 << 0x0,
            mean_snr: Some(Measured { milli: 5_100, text: "5.10 ±0.20 dB".to_string() }),
            crc_failed: 4,
            ..heard([0x00, 0x1a, 0x11, 0xaa, 0xbb, 0xcc], 90)
        },
    ];
    m
}

/// The rows carrying the selection mark.
fn marked(rows: &[String]) -> Vec<usize> {
    rows.iter()
        .enumerate()
        .filter(|(_, l)| l.contains('\u{258c}'))
        .map(|(i, _)| i)
        .collect()
}

#[test]
fn an_empty_census_with_no_decoder_says_nobody_is_counting() {
    let out = NetCensusPanel.draw(&streaming(), 70, 10).join("\n");
    assert!(out.contains("no census yet"), "{out}");
    assert!(out.contains("not an empty room"), "{out}");
    assert!(out.contains("ADDRESS"), "{out}");
    assert!(out.contains("SNR"), "{out}");
    assert!(out.contains("CFO"), "{out}");
}

#[test]
fn an_empty_census_with_a_decoder_running_says_the_room_was_quiet() {
    let mut m = streaming();
    m.net.ble_channel = Some(37);
    let out = NetCensusPanel.draw(&m, 64, 10).join("\n");
    assert!(out.contains("nothing heard yet"), "{out}");
    assert!(!out.contains("not an empty room"), "{out}");
    assert!(out.contains("Feed Health"), "{out}");
}

#[test]
fn a_refused_decoder_gives_its_reason_in_the_empty_state() {
    let mut m = streaming();
    m.net.ble_refused = Some("2.0 Msps is below the 4 Msps BLE needs".to_string());
    let out = NetCensusPanel.draw(&m, 64, 12).join("\n");
    assert!(out.contains("no census yet"), "{out}");
    assert!(out.contains("2.0 Msps is below"), "{out}");
}

#[test]
fn the_turnover_line_counts_only_recent_first_sightings() {
    let out = NetCensusPanel.draw(&populated(), 70, 12).join("\n");
    assert!(out.contains("0.4 new addresses/min"), "{out}");
}

#[test]
fn census_the_chrome_says_what_orders_the_table() {
    let mut m = populated();
    m.net.census.sort = 2;
    m.net.census.descending = true;
    for out in [NetCensusPanel.draw(&m, 60, 10), FirstCensus.draw(&m, 60, 10)] {
        assert!(out[0].contains("\u{2193}PKTS"), "{}", out[0]);
        assert!(out[1].contains("PKTS\u{25be}"), "{}", out[1]);
    }

    m.net.census.sort = 0;
    m.net.census.descending = false;
    for out in [NetCensusPanel.draw(&m, 60, 10), FirstCensus.draw(&m, 60, 10)] {
        assert!(out[0].contains("\u{2191}ADDRESS"), "{}", out[0]);
    }
}

#[test]
fn census_the_cursor_stays_on_its_device_across_a_resort() {
    let busiest = [0xa4, 0x83, 0xe7, 0x1c, 0x09, 0xbe];
    let mut m = populated();
    m.net.census.selection.selected = Some(busiest);

    m.net.census.sort = 2;
    m.net.census.descending = true;
    let rows = NetCensusPanel.draw(&m, 60, 10);
    let picked = rows.iter().position(|l| l.contains("a4:83:e7")).unwrap();
    assert_eq!(marked(&rows), vec![picked], "the mark is on its row");
    let first = FirstCensus.draw(&m, 60, 10);
    assert_eq!(first.iter().position(|l| l.contains("a4:83:e7")), Some(picked));

    m.net.census.sort = 0;
    m.net.census.descending = false;
    let rows = NetCensusPanel.draw(&m, 60, 10);
    let moved = rows.iter().position(|l| l.contains("a4:83:e7")).unwrap();
    assert_eq!(moved, picked + 1, "the re-sort moved it down one");
    assert_eq!(marked(&rows), vec![moved], "and the mark went with it");
    let first = FirstCensus.draw(&m, 60, 10);
    assert_eq!(first.iter().position(|l| l.contains("a4:83:e7")), Some(moved));
    assert_eq!(marked(&first), vec![moved]);

    // The state still points at it: the cursor is an address, so nothing
    // in the panel had to follow the row.
    let by_address = m.net.census.ordered();
    assert_eq!(m.net.census.cursor(&by_address), Some(1));
    m.net.census.sort = 2;
    m.net.census.descending = true;
    let by_packets = m.net.census.ordered();
    assert_eq!(by_packets, vec![0, 2, 1]);
    assert_eq!(m.net.census.cursor(&by_packets), Some(0));
}

#[test]
fn a_session_loss_marks_the_census_as_a_lower_bound() {
    let mut m = populated();
    let clean = NetCensusPanel.draw(&m, 70, 10);
    assert!(!clean[0].contains("FEED LOSS"), "{}", clean[0]);

    m.net.health.last_loss_secs = Some(600);
    let lossy = NetCensusPanel.draw(&m, 90, 10);
    assert!(lossy[0].contains("[FEED LOSS]"), "{}", lossy[0]);
}

#[test]
fn no_selection_marks_no_row() {
    let rows = NetCensusPanel.draw(&populated(), 60, 10);
    assert!(marked(&rows).is_empty(), "{}", rows.join("\n"));
}

#[test]
fn one_failure_in_a_thousand_never_reads_as_a_perfect_link() {
    let d = Device { packets: 999, crc_failed: 1, ..heard([1; 6], 0) };
    assert_eq!(fmt_crc(&d), "99 %");
    let clean = Device { packets: 999, ..heard([1; 6], 0) };
    assert_eq!(fmt_crc(&clean), "100 %");
}

#[test]
fn a_rank_reads_as_english() {
    let got: Vec<String> = [1, 2, 3, 4, 11, 12, 13, 21, 22, 23, 101]
        .into_iter()
        .map(ordinal)
        .collect();
    assert_eq!(
        got,
        [
            "worst",
            "2nd worst",
            "3rd worst",
            "4th worst",
            "11th worst",
            "12th worst",
            "13th worst",
            "21st worst",
            "22nd worst",
            "23rd worst",
            "101st worst"
        ]
    );
}

#[test]
fn the_new_columns_show_what_the_record_holds() {
    let out = NetCensusPanel.draw(&populated(), 150, 10);
    for title in ["BEST SNR", "CRC", "MEAN SNR", "TYPES", "MOD"] {
        assert!(out[1].contains(title), "{title}: {}", out[1]);
    }
    let busiest = out.iter().find(|l| l.contains("a4:83:e7")).unwrap();
    assert!(busiest.contains("98 %"), "{busiest}");
    assert!(busiest.contains("8.40 ±0.09 dB"), "{busiest}");
    assert!(busiest.contains("0.500 ±0.010"), "{busiest}");
}

#[test]
fn a_mean_from_one_packet_is_a_dash_not_a_number() {
    let out = NetCensusPanel.draw(&populated(), 150, 10);
    let quiet = out.iter().find(|l| l.contains("f0:18:98")).unwrap();
    assert!(quiet.contains("— dB"), "{quiet}");
    assert!(!quiet.contains("2.40"), "{quiet}");
    assert!(quiet.trim_end_matches(['│', ' ']).ends_with('-'), "{quiet}");
}

#[test]
fn census_rows_come_out_in_the_order_the_state_asked_for() {
    let mut m = populated();
    m.net.census.sort = 2;
    m.net.census.descending = true;
    let out = NetCensusPanel.draw(&m, 60, 10).join("\n");
    let at = |s: &str| out.find(s).unwrap_or(usize::MAX);
    assert!(at("a4:83:e7") < at("00:1a:11"), "1204 before 96:\n{out}");
    assert!(at("00:1a:11") < at("f0:18:98"), "96 before 7:\n{out}");
    // A column with a missing value puts it last going down.
    m.net.census.sort = 5;
    assert_eq!(m.net.census.ordered(), vec![0, 2, 1]);
    m.net.census.descending = false;
    assert_eq!(m.net.census.ordered(), vec![1, 2, 0]);
}

fn selected() -> SdrMetrics {
    let mut m = populated();
    m.net.census.selection.selected = Some([0xa4, 0x83, 0xe7, 0x1c, 0x09, 0xbe]);
    m
}

/// The table cuts, the block spells out, and names the holder beside an
/// address the table shows bare.
#[test]
fn the_detail_block_spells_out_the_selected_device() {
    let out = NetCensusPanel.draw(&selected(), 76, 14).join("\n");
    assert!(out.contains("SELECTED"), "{out}");
    assert!(out.contains("a4:83:e7:1c:09:be  Apple"), "{out}");
    assert!(out.contains("first seen 10 min ago"), "{out}");
    assert!(out.contains("last seen  2 s ago"), "{out}");
    assert!(out.contains("packets    1204"), "{out}");
    assert!(out.contains("best SNR   12.3 dB"), "{out}");
    assert!(out.contains("crystal    35.4 ±0.5 ppm"), "{out}");

    // Nothing selected, no block: it describes a choice, and there is none.
    let none = NetCensusPanel.draw(&populated(), 76, 14).join("\n");
    assert!(!none.contains("SELECTED"), "{none}");
}

/// What the offset was measured against, named. The corrected reading is
/// the one the offset's record carries: 35.4 read plus our own 10 ppm.
#[test]
fn the_detail_block_says_what_the_offset_was_measured_against() {
    let mut m = selected();
    let relative = NetCensusPanel.draw(&m, 90, 14).join("\n");
    assert!(relative.contains("relative to our own oscillator"), "{relative}");

    m.net.offset_basis = OffsetBasis::Against("WWV 10 MHz".to_string());
    if let Some(c) = m.net.census.devices[0].crystal.as_mut() {
        c.ppm_milli = 45_400;
        c.ppm = "45.4 ±0.5 ppm".to_string();
    }
    let referenced = NetCensusPanel.draw(&m, 90, 14).join("\n");
    assert!(referenced.contains("against WWV 10 MHz"), "{referenced}");
    assert!(referenced.contains("45.4"), "{referenced}");

    m.net.offset_basis = OffsetBasis::Expired;
    let expired = NetCensusPanel.draw(&m, 90, 14).join("\n");
    assert!(expired.contains("the reference expired"), "{expired}");
}

/// A device no packet has reported an offset for says so.
#[test]
fn a_device_with_no_offset_says_why_the_cell_is_a_dash() {
    let mut m = populated();
    m.net.census.selection.selected = Some([0xf0, 0x18, 0x98, 0x00, 0x11, 0x22]);
    let out = NetCensusPanel.draw(&m, 90, 14).join("\n");
    assert!(out.contains("no packet from it has reported one"), "{out}");
}

/// The block is a footnote to the table and gives way to it.
#[test]
fn the_detail_block_gives_way_when_there_is_no_room_for_the_rows() {
    let short = NetCensusPanel.draw(&selected(), 76, 10).join("\n");
    assert!(!short.contains("SELECTED"), "{short}");
    assert!(short.contains("a4:83:e7"), "the rows are still there:\n{short}");

    let tall = NetCensusPanel.draw(&selected(), 76, 14).join("\n");
    assert!(tall.contains("SELECTED"), "{tall}");
}

/// The PDU types named, the mean and the index with their uncertainties,
/// and which way the CRC rate can be wrong where there is room to say it.
#[test]
fn the_detail_block_carries_the_record() {
    let out = NetCensusPanel.draw(&selected(), 120, 16).join("\n");
    assert!(out.contains("PDU types  ADV_IND, SCAN_RSP"), "{out}");
    assert!(out.contains("mean SNR   8.40 ±0.09 dB"), "{out}");
    assert!(out.contains("mod index  0.500 ±0.010"), "{out}");
    assert!(out.contains("98 % passed, 22 failed"), "{out}");
    assert!(out.contains("a ceiling"), "{out}");
}

/// Narrow, the fields go one to a line, and the sentence beside the CRC
/// figure is dropped whole rather than cut.
#[test]
fn a_narrow_detail_block_goes_one_field_to_a_line() {
    let out = NetCensusPanel.draw(&selected(), 50, 20);
    let body: Vec<&String> = out.iter().filter(|l| l.contains("first seen") || l.contains("packets ")).collect();
    assert_eq!(body.len(), 2, "{out:?}");
    let crc = out.iter().find(|l| l.contains(" passed, ")).unwrap();
    assert!(!crc.contains("a ceiling"), "{crc}");
}

#[test]
fn the_pdu_types_are_named_in_code_order() {
    assert_eq!(pdu_types(0), "-");
    assert_eq!(pdu_types(1 << 0x4 | 1 << 0x0), "ADV_IND, SCAN_RSP");
    assert_eq!(pdu_types(1 << 0x2), "ADV_NONCONN_IND");
    assert_eq!(pdu_types(1 << 0x6 | 1 << 0x3 | 1 << 0x1), "ADV_DIRECT_IND, SCAN_REQ, ADV_SCAN_IND");
}
