use sdrtop::ble::PduType;
use sdrtop::state::{BlePacket, NetMode, Offset, SdrMetrics};
use sdrtop::ui::panels::net::ble::ble_packets::{name_of, NetBlePacketsPanel};

fn streaming() -> SdrMetrics {
    SdrMetrics::new().streaming()
}

fn packet(channel: u8, crc_ok: bool) -> BlePacket {
    BlePacket {
        seq: 0,
        channel,
        pdu_type: PduType::AdvInd,
        tx_add_random: false,
        rx_add_random: false,
        ch_sel: false,
        payload: Vec::new(),
        length: 9,
        adv_addr: Some([0xaa, 0xbb, 0xcc, 0x11, 0x22, 0x33]),
        crc_ok,
        snr_tenths: Some(123),
        offset: Some(Offset {
            khz: "37.0 ±1.2 kHz".to_string(),
            ppm: "+15.40 ±0.50 ppm".to_string(),
        }),
        modulation: None,
        drift: None,
        age_secs: 0,
    }
}

/// `n` packets, newest first, each from its own address so a row can be
/// found by it: seq `n` is on top.
fn feed(n: u64) -> SdrMetrics {
    let mut m = streaming();
    m.net.ble_channel = Some(37);
    for seq in 1..=n {
        let mut p = packet(37, true);
        p.seq = seq;
        p.adv_addr = Some([0xaa, 0, 0, 0, 0, seq as u8]);
        m.net.ble_packets.insert(0, p);
    }
    m.net.ble_heard = n;
    m
}

fn marked(rows: &[String]) -> Vec<usize> {
    rows.iter()
        .enumerate()
        .filter(|(_, l)| l.contains('\u{258c}'))
        .map(|(i, _)| i)
        .collect()
}

#[test]
fn the_list_offers_no_phy_switch_and_names_its_phy() {
    assert!(NetBlePacketsPanel
        .focus_bindings()
        .iter()
        .all(|(k, what)| *k != "P" && !what.contains("LE 2M")));
    let out = NetBlePacketsPanel.draw(&streaming(), 90, 8).join("\n");
    assert!(out.contains("[LE 1M]"), "{out}");
}

#[test]
fn ble_list_a_refusal_and_an_empty_feed_read_differently() {
    let mut m = streaming();
    m.net.ble_refused = Some("not tuned to an advertising channel".to_string());
    let out = NetBlePacketsPanel.draw(&m, 60, 10).join("\n");
    assert!(out.contains("not decoding"), "{out}");
    assert!(out.contains("not tuned"), "{out}");
    let out = NetBlePacketsPanel.draw(&streaming(), 60, 10).join("\n");
    assert!(out.contains("no packets yet"), "{out}");
    assert!(!out.contains("not decoding"), "{out}");
}

#[test]
fn ble_list_packets_show_crc_status_and_arrival_order() {
    let mut m = streaming();
    m.net.ble_packets.push(packet(37, true));
    m.net.ble_packets.insert(0, packet(38, false));
    let out = NetBlePacketsPanel.draw(&m, 90, 10).join("\n");
    assert!(out.contains("bad"), "{out}");
    assert!(out.contains("ok"), "{out}");
    let bad_line = out.find("bad").unwrap();
    let ok_line = out.find(" ok").unwrap();
    assert!(bad_line < ok_line, "channel 38 (bad) should draw first");
}

#[test]
fn survey_mode_shows_per_channel_counts_and_the_dwell_fraction() {
    let mut m = streaming();
    m.net.mode = NetMode::Survey;
    m.net.ble_channel_packets = [4, 0, 9];
    m.net.ble_packets.push(packet(37, true));
    let out = NetBlePacketsPanel.draw(&m, 70, 10).join("\n");
    assert!(out.contains("CH37 4"), "{out}");
    assert!(out.contains("CH38 0"), "{out}");
    assert!(out.contains("CH39 9"), "{out}");
    assert!(out.contains("1/3 dwell"), "{out}");
}

#[test]
fn lock_mode_hides_the_dwell_summary() {
    let mut m = streaming();
    m.net.mode = NetMode::Lock;
    m.net.ble_channel_packets = [4, 0, 9];
    m.net.ble_packets.push(packet(37, true));
    let out = NetBlePacketsPanel.draw(&m, 70, 10).join("\n");
    assert!(!out.contains("dwell"), "{out}");
}

#[test]
fn survey_mode_shows_each_channels_crc_pass_rate_where_it_stands() {
    let mut m = streaming();
    m.net.mode = NetMode::Survey;
    m.net.ble_channel_packets = [400, 9, 40];
    m.net.ble_channel_crc_ok = [396, 9, 20];
    // The pass rates as their readings print them; nine packets have none.
    m.net.ble_channel_rate = [Some("99.0 ±0.5 %".to_string()), None, Some("50 ±8 %".to_string())];
    m.net.ble_packets.push(packet(37, true));
    let out = NetBlePacketsPanel.draw(&m, 120, 10).join("\n");
    assert!(out.contains("CH37 400 99.0"), "{out}");
    assert!(
        out.contains("CH38 9  CH39"),
        "a thin channel has no rate: {out}"
    );
    assert!(out.contains("CH39 40 50"), "{out}");
    assert!(out.contains("CRC ok"), "{out}");
    assert!(out.contains("1/3 dwell"), "{out}");
}

#[test]
fn lock_mode_shows_the_one_channels_rate() {
    let mut m = streaming();
    m.net.mode = NetMode::Lock;
    m.net.ble_channel = Some(38);
    m.net.ble_channel_packets = [400, 30, 40];
    m.net.ble_channel_crc_ok = [396, 15, 20];
    m.net.ble_channel_rate = [
        Some("99.0 ±0.5 %".to_string()),
        Some("50 ±9 %".to_string()),
        Some("50 ±8 %".to_string()),
    ];
    m.net.ble_packets.push(packet(37, true));
    let out = NetBlePacketsPanel.draw(&m, 90, 10).join("\n");
    assert!(out.contains("CH38 30 50"), "{out}");
    assert!(!out.contains("CH37"), "{out}");
    assert!(!out.contains("CH39"), "{out}");
    assert!(!out.contains("dwell"), "{out}");
}

#[test]
fn the_selection_follows_its_packet_as_new_ones_arrive() {
    let mut m = feed(5);
    m.net.ble_view.selection.selected = Some(3);
    let rows = NetBlePacketsPanel.draw(&m, 130, 12);
    let at = rows
        .iter()
        .position(|l| l.contains("00:00:00:00:03"))
        .unwrap();
    assert_eq!(marked(&rows), vec![at]);

    let mut newer = packet(37, true);
    newer.seq = 6;
    newer.adv_addr = Some([0xaa, 0, 0, 0, 0, 6]);
    m.net.ble_packets.insert(0, newer);
    let rows = NetBlePacketsPanel.draw(&m, 130, 12);
    let moved = rows
        .iter()
        .position(|l| l.contains("00:00:00:00:03"))
        .unwrap();
    assert_eq!(moved, at + 1, "a row down");
    assert_eq!(marked(&rows), vec![moved], "and the mark with it");
}

#[test]
fn no_selection_and_an_aged_out_one_mark_no_row() {
    let mut m = feed(5);
    assert!(marked(&NetBlePacketsPanel.draw(&m, 130, 12)).is_empty());
    m.net.ble_view.selection.selected = Some(99);
    assert!(marked(&NetBlePacketsPanel.draw(&m, 130, 12)).is_empty());
}

#[test]
fn the_title_shows_the_focus_letter() {
    let chrome = NetBlePacketsPanel.chrome(&feed(1));
    assert!(chrome.title.contains("Ad_vertising"), "{}", chrome.title);
    assert_eq!(NetBlePacketsPanel.focus_key(), Some('v'));
}

#[test]
fn a_filtered_list_shows_one_address_and_says_so() {
    let mut m = feed(4);
    m.net.ble_view.filter = Some([0xaa, 0, 0, 0, 0, 2]);
    let out = NetBlePacketsPanel.draw(&m, 130, 10);
    assert!(out[0].contains("[FILTERED]"), "{}", out[0]);
    let text = out.join("\n");
    assert!(text.contains("00:00:00:00:02"), "{text}");
    assert!(!text.contains("00:00:00:00:03"), "{text}");

    // An address gone from the ring says that, rather than a quiet room.
    m.net.ble_view.filter = Some([0xaa, 0, 0, 0, 0, 9]);
    let gone = NetBlePacketsPanel.draw(&m, 130, 10).join("\n");
    assert!(gone.contains("no packets from this address"), "{gone}");
}

#[test]
fn a_held_list_stays_put_and_counts_what_it_misses() {
    let mut m = feed(3);
    m.net.ble_view.held = Some((m.net.ble_packets.clone(), m.net.ble_heard));
    let mut newer = packet(37, true);
    newer.seq = 4;
    newer.adv_addr = Some([0xaa, 0, 0, 0, 0, 4]);
    m.net.ble_packets.insert(0, newer);
    m.net.ble_heard = 4;

    let out = NetBlePacketsPanel.draw(&m, 130, 10);
    assert!(out[0].contains("[PAUSED]"), "{}", out[0]);
    assert!(out[0].contains("[+1 NEW]"), "{}", out[0]);
    assert!(!out[0].contains("STALE"), "{}", out[0]);
    let text = out.join("\n");
    assert!(!text.contains("00:00:00:00:04"), "held: {text}");
    assert!(text.contains("00:00:00:00:03"), "{text}");
}

/// A packet whose payload is `ad` behind its address.
fn advertising(ad: &[u8], crc_ok: bool) -> BlePacket {
    let mut p = packet(37, crc_ok);
    p.payload = vec![0x33, 0x22, 0x11, 0xcc, 0xbb, 0xaa];
    p.payload.extend_from_slice(ad);
    p
}

#[test]
fn ble_list_the_name_column_shows_what_was_advertised_and_can_be_believed() {
    let name = [0x05, 0x09, b'S', b'e', b'n', b's'];
    assert_eq!(name_of(&advertising(&name, true)), "Sens");
    assert_eq!(name_of(&advertising(&name, false)), "-");
    let hostile = [0x04, 0x09, b'A', 0x1b, b'B'];
    assert_eq!(name_of(&advertising(&hostile, true)), "A\u{fffd}B");
    let mut long = vec![0x15, 0x09];
    long.extend([b'A'; 20]);
    let cut_name = name_of(&advertising(&long, true));
    assert_eq!(cut_name.chars().count(), 16);
    assert!(cut_name.ends_with('\u{2026}'));
    assert_eq!(name_of(&advertising(&[0x02, 0x01, 0x06], true)), "-");

    let mut ext = packet(37, true);
    ext.pdu_type = PduType::Other(0x07);
    assert_eq!(name_of(&ext), "(not decoded)");
    let mut m = feed(0);
    m.net.ble_packets.insert(0, ext);
    let out = NetBlePacketsPanel.draw(&m, 130, 8).join("\n");
    assert!(out.contains("ADV_EXT_IND"), "{out}");
    assert!(out.contains("(not decoded)"), "{out}");
}

#[test]
fn ble_list_a_wide_offset_is_shown_whole_under_its_title() {
    let mut m = streaming();
    let mut wide = packet(37, true);
    wide.offset = Some(Offset { khz: "-499.88 ±0.24 kHz".to_string(), ppm: "-208.11 ±0.10 ppm".to_string() });
    let mut narrow = packet(38, true);
    narrow.offset = Some(Offset { khz: "-10.21 ±0.26 kHz".to_string(), ppm: "-4.25 ±0.11 ppm".to_string() });
    m.net.ble_packets.push(wide);
    m.net.ble_packets.push(narrow);
    let out = NetBlePacketsPanel.draw(&m, 170, 8);
    let text = out.join("\n");
    assert!(text.contains("-499.88 ±0.24 kHz"), "{text}");
    assert!(text.contains("-10.21 ±0.26 kHz"), "{text}");
    let ends = |line: &str, s: &str| {
        line.find(s)
            .map(|i| line[..i].chars().count() + s.chars().count())
    };
    let header = out.iter().find(|l| l.contains("CFO")).unwrap();
    let row = out.iter().find(|l| l.contains("-499.88")).unwrap();
    assert_eq!(ends(header, "CFO"), ends(row, "kHz"), "{text}");
    assert_eq!(ends(header, "PPM"), ends(row, "ppm"), "{text}");
}
