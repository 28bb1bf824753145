use sdrtop::ble::{uuid, PduType};
use sdrtop::state::{BlePacket, Drift, Offset, OffsetBasis, Quality, SdrMetrics};
use sdrtop::ui::panels::net::ble::ble_detail::{address_kinds, ch_sel, NetBleDetailPanel};

fn streaming() -> SdrMetrics {
    SdrMetrics::new().streaming()
}

/// The four limit rows of a packet deviating 250 kHz, as the limit widget
/// draws them after their labels.
fn quality() -> Quality {
    Quality {
        index: "0.500 ±0.005".to_string(),
        df1: "250.0 ±2.5 kHz".to_string(),
        df2: "225.0 kHz".to_string(),
        ratio: "0.90 ±0.02".to_string(),
    }
}

/// A burst that drifted 5 kHz, each end read to 0.5 kHz.
fn drift() -> Drift {
    Drift {
        drift: "5.0 ±0.7 kHz".to_string(),
        rate: "50 ±7 Hz/us".to_string(),
        start: "0.0 ±0.5 kHz".to_string(),
        end: "5.0 ±0.5 kHz".to_string(),
    }
}

fn packet_with_drift(modulation: Option<Quality>, drift: Option<Drift>) -> BlePacket {
    BlePacket {
        seq: 0,
        channel: 37,
        pdu_type: PduType::AdvInd,
        tx_add_random: false,
        rx_add_random: false,
        ch_sel: false,
        payload: Vec::new(),
        length: 9,
        adv_addr: Some([0xaa, 0xbb, 0xcc, 0x11, 0x22, 0x33]),
        crc_ok: true,
        snr_tenths: Some(120),
        offset: None,
        modulation,
        drift,
        age_secs: 0,
    }
}

fn packet(modulation: Option<Quality>) -> BlePacket {
    packet_with_drift(modulation, None)
}

/// An address as the air carries it: least significant octet first.
fn air_octets(a: [u8; 6]) -> [u8; 6] {
    let mut r = a;
    r.reverse();
    r
}

#[test]
fn ble_detail_a_refusal_is_shown_rather_than_an_empty_panel() {
    let mut m = streaming();
    m.net.ble_refused = Some("not tuned to an advertising channel".to_string());
    let out = NetBleDetailPanel.draw(&m, 40, 24).join("\n");
    assert!(out.contains("not decoding"), "{out}");
    assert!(out.contains("not tuned"), "{out}");
}

#[test]
fn ble_detail_an_empty_feed_says_nothing_decoded_yet() {
    let out = NetBleDetailPanel.draw(&streaming(), 40, 8).join("\n");
    assert!(out.contains("no packets yet"), "{out}");
}

#[test]
fn ble_detail_a_packet_with_nothing_measured_refuses_rather_than_inventing_rows() {
    let mut m = streaming();
    m.net.ble_packets.push(packet(None));
    let out = NetBleDetailPanel.draw(&m, 40, 24).join("\n");
    assert!(out.contains("not measured"), "{out}");
    assert!(!out.contains("Mod index"), "{out}");
}

#[test]
fn ble_detail_a_good_packet_draws_all_four_rows_and_never_says_pass() {
    let mut m = streaming();
    m.net.ble_packets.push(packet(Some(quality())));
    let out = NetBleDetailPanel.draw(&m, 70, 24).join("\n");
    assert!(out.contains("Mod index"), "{out}");
    assert!(out.contains("df1 avg"), "{out}");
    assert!(out.contains("df2 max"), "{out}");
    assert!(out.contains("df2/df1"), "{out}");
    let lower = out.to_ascii_lowercase();
    for word in ["pass", "fail"] {
        assert!(!lower.contains(word), "{word} in {out:?}");
    }
}

#[test]
fn a_packet_with_drift_draws_two_more_rows() {
    let mut m = streaming();
    m.net.ble_packets.push(packet_with_drift(Some(quality()), Some(drift())));
    let out = NetBleDetailPanel.draw(&m, 70, 24).join("\n");
    assert!(out.contains("Drift"), "{out}");
    assert!(out.contains("Drift rate"), "{out}");
    let lower = out.to_ascii_lowercase();
    for word in ["pass", "fail"] {
        assert!(!lower.contains(word), "{word} in {out:?}");
    }
}

#[test]
fn modulation_without_drift_draws_no_drift_rows() {
    let mut m = streaming();
    m.net.ble_packets.push(packet(Some(quality())));
    let out = NetBleDetailPanel.draw(&m, 70, 24).join("\n");
    assert!(!out.contains("Drift"), "{out}");
}

/// Two packets, the older selected: seq 1 on channel 37 at 12 dB, seq 2
/// on channel 39 at 4 dB.
fn two() -> SdrMetrics {
    let mut m = streaming();
    let mut older = packet(Some(quality()));
    older.seq = 1;
    let mut newer = packet(None);
    newer.seq = 2;
    newer.channel = 39;
    newer.snr_tenths = Some(40);
    m.net.ble_packets.insert(0, older);
    m.net.ble_packets.insert(0, newer);
    m.net.ble_heard = 2;
    m
}

#[test]
fn the_detail_follows_the_selection() {
    let mut m = two();
    let latest = NetBleDetailPanel.draw(&m, 70, 24).join("\n");
    assert!(latest.contains("latest"), "{latest}");
    assert!(latest.contains("ch 39"), "{latest}");

    m.net.ble_view.selection.selected = Some(1);
    let out = NetBleDetailPanel.draw(&m, 70, 24).join("\n");
    assert!(out.contains("selected"), "{out}");
    assert!(out.contains("ch 37"), "{out}");
    assert!(out.contains("12.0 dB"), "{out}");
    assert!(out.contains("Mod index"), "{out}");

    m.net.ble_view.selection.selected = Some(99);
    let gone = NetBleDetailPanel.draw(&m, 70, 24).join("\n");
    assert!(gone.contains("has left the list"), "{gone}");
}

#[test]
fn a_failed_crc_gets_no_modulation_rows() {
    let mut m = streaming();
    let mut p = packet_with_drift(Some(quality()), Some(drift()));
    p.crc_ok = false;
    m.net.ble_packets.insert(0, p);
    let out = NetBleDetailPanel.draw(&m, 70, 24).join("\n");
    assert!(out.contains("not measured: CRC failed"), "{out}");
    assert!(!out.contains("Mod index"), "{out}");
    assert!(!out.contains("Drift"), "{out}");
    assert!(out.contains("failed"), "{out}");
}

#[test]
fn header_bits_are_shown_only_where_the_type_defines_them() {
    let mut adv = packet(None);
    adv.ch_sel = true;
    assert_eq!(ch_sel(&adv), Some("supports CSA #2"));
    assert_eq!(address_kinds(&adv), "Tx public");

    let mut scan_req = packet(None);
    scan_req.pdu_type = PduType::ScanReq;
    scan_req.adv_addr = None;
    scan_req.rx_add_random = true;
    scan_req.ch_sel = true;
    assert_eq!(ch_sel(&scan_req), None, "reserved on SCAN_REQ");
    assert_eq!(address_kinds(&scan_req), "Tx public \u{00b7} Rx random");

    let mut rpa = packet(None);
    rpa.adv_addr = Some([0x4a, 1, 2, 3, 4, 5]);
    rpa.tx_add_random = true;
    assert_eq!(address_kinds(&rpa), "Tx RPA");
}

/// A CRC-good ADV_NONCONN_IND whose advertising data is `ad`.
fn advertising(ad: &[u8]) -> SdrMetrics {
    let mut m = streaming();
    let mut p = packet(None);
    p.pdu_type = PduType::AdvNonconnInd;
    p.payload = air_octets([0xaa, 0xbb, 0xcc, 0x11, 0x22, 0x33]).to_vec();
    p.payload.extend_from_slice(ad);
    m.net.ble_packets.insert(0, p);
    m
}

#[test]
fn the_real_packet_s_advertising_reads_as_apple_with_its_octets() {
    let m = advertising(&[0x07, 0xff, 0x4c, 0x00, 0x12, 0x02, 0x00, 0x02]);
    let out = NetBleDetailPanel.draw(&m, 70, 30).join("\n");
    assert!(out.contains("ADVERTISED"), "{out}");
    assert!(out.contains("company  Apple, Inc. (0x004C)"), "{out}");
    assert!(out.contains("mfr data 12 02 00 02"), "{out}");
}

#[test]
fn every_structure_reads_in_plain_words() {
    let m = advertising(&[
        0x02, 0x01, 0x06, // flags
        0x05, 0x03, 0x0f, 0x18, 0x0a, 0x18, // services 0x180F, 0x180A
        0x06, 0x08, b'S', b'e', b'n', b's', b'o', // shortened name
        0x02, 0x0a, 0xf4, // TX power -12
        0x05, 0x16, 0x0f, 0x18, 0x55, 0x66, // service data
    ]);
    let out = NetBleDetailPanel.draw(&m, 90, 34).join("\n");
    for want in [
        "flags    LE General Discoverable, BR/EDR Not Supported",
        "name     Senso (shortened)",
        "TX power -12 dBm",
        "services 0x180F Battery, 0x180A Device Information",
        "svc data 0x180F Battery: 55 66",
    ] {
        assert!(out.contains(want), "{want}:\n{out}");
    }
}

#[test]
fn what_cannot_be_read_says_why() {
    let broken = advertising(&[0x02, 0x01, 0x06, 0x09, 0xff, 0x4c]);
    let out = NetBleDetailPanel.draw(&broken, 90, 30).join("\n");
    assert!(out.contains("flags"), "{out}");
    assert!(
        out.contains("malformed at octet 3: length runs past the end"),
        "{out}"
    );

    let mut failed = advertising(&[0x05, 0x09, b'S', b'e', b'n', b's']);
    failed.net.ble_packets[0].crc_ok = false;
    let out = NetBleDetailPanel.draw(&failed, 90, 30).join("\n");
    assert!(out.contains("not read: CRC failed"), "{out}");
    assert!(!out.contains("Sens"), "{out}");

    let mut ext = advertising(&[]);
    ext.net.ble_packets[0].pdu_type = PduType::Other(0x07);
    let out = NetBleDetailPanel.draw(&ext, 90, 30).join("\n");
    assert!(out.contains("extended advertising"), "{out}");

    let bare = advertising(&[]);
    let out = NetBleDetailPanel.draw(&bare, 90, 30).join("\n");
    assert!(out.contains("nothing beyond the address"), "{out}");
}

#[test]
fn uuids_are_written_the_way_the_specification_writes_them() {
    assert_eq!(uuid(&[0x18, 0x0f]), "0x180F Battery");
    assert_eq!(uuid(&[0x00, 0x01]), "0x0001");
    assert_eq!(uuid(&[0x12, 0x34, 0x56, 0x78]), "0x12345678");
    let long: Vec<u8> = (0..16).collect();
    assert_eq!(uuid(&long), "00010203-0405-0607-0809-0a0b0c0d0e0f");
}

#[test]
fn start_and_end_frequency_sit_under_the_cfo() {
    let mut m = streaming();
    m.net
        .ble_packets
        .insert(0, packet_with_drift(Some(quality()), Some(drift())));
    let out = NetBleDetailPanel.draw(&m, 80, 30).join("\n");
    assert!(out.contains("start    0.0 ±0.5 kHz"), "{out}");
    assert!(out.contains("end      5.0 ±0.5 kHz"), "{out}");

    m.net.ble_packets[0].crc_ok = false;
    let failed = NetBleDetailPanel.draw(&m, 80, 30).join("\n");
    assert!(!failed.contains("start"), "{failed}");
    m.net.ble_packets[0] = packet(Some(quality()));
    let none = NetBleDetailPanel.draw(&m, 80, 30).join("\n");
    assert!(!none.contains("start"), "{none}");
}

/// A CONNECT_IND's 34 octets, as sent: InitA and AdvA in air order, then
/// LLData: AA, CRCInit, WinSize 2, WinOffset 4, Interval 24, Latency 0,
/// Timeout 72, every channel used, hop 7 with SCA 5.
fn connect_ind(ch_sel: bool, crc_ok: bool) -> SdrMetrics {
    let mut payload = air_octets([0x11, 0x22, 0x33, 0x44, 0x55, 0x66]).to_vec();
    payload.extend(air_octets([0xaa, 0xbb, 0xcc, 0x11, 0x22, 0x33]));
    payload.extend(0xAF9A_B12Cu32.to_le_bytes());
    payload.extend(&0x55_5555u32.to_le_bytes()[..3]);
    payload.push(2);
    payload.extend(4u16.to_le_bytes());
    payload.extend(24u16.to_le_bytes());
    payload.extend(0u16.to_le_bytes());
    payload.extend(72u16.to_le_bytes());
    payload.extend(&0x1F_FFFF_FFFFu64.to_le_bytes()[..5]);
    payload.push(7 | (5 << 5));
    assert_eq!(payload.len(), 34);

    let mut m = streaming();
    let mut p = packet(None);
    p.pdu_type = PduType::ConnectInd;
    p.adv_addr = None;
    p.length = 34;
    p.payload = payload;
    p.ch_sel = ch_sel;
    p.crc_ok = crc_ok;
    m.net.ble_packets.insert(0, p);
    m
}

#[test]
fn a_connect_ind_shows_its_parameters_and_predicted_hops() {
    let out = NetBleDetailPanel.draw(&connect_ind(false, true), 90, 40).join("\n");
    for want in [
        "CONNECTION",
        "read, not followed",
        "InitA    11:22:33:44:55:66",
        "AdvA     aa:bb:cc:11:22:33",
        "access   0xAF9AB12C",
        "CRC init 0x555555",
        "interval 30.00 ms",
        "latency  0 events",
        "timeout  720 ms",
        "window   2.50 ms at +5.00 ms",
        "channels 37 of 37 used",
        "SCA      5 (31 to 50 ppm)",
        "hop      7",
        "7 14 21 28 35 5 12 19 ... predicted, not followed",
    ] {
        assert!(out.contains(want), "{want}:\n{out}");
    }
    assert!(out.contains("ChSel    CSA #1 only"), "{out}");
}

#[test]
fn a_connect_ind_it_cannot_predict_or_trust_says_so() {
    let csa2 = NetBleDetailPanel.draw(&connect_ind(true, true), 90, 40).join("\n");
    assert!(csa2.contains("CSA #2: not predicted"), "{csa2}");
    assert!(!csa2.contains("7 14 21"), "{csa2}");

    let failed = NetBleDetailPanel.draw(&connect_ind(false, false), 90, 40).join("\n");
    assert!(failed.contains("not read: CRC failed"), "{failed}");
    assert!(!failed.contains("0xAF9AB12C"), "{failed}");
}

#[test]
fn a_connect_ind_with_a_sparse_map_remaps_its_hops() {
    let mut m = connect_ind(false, true);
    // Channels 0 to 3 only: every unmapped channel folds onto them.
    for i in 28..33 {
        m.net.ble_packets[0].payload[i] = 0;
    }
    m.net.ble_packets[0].payload[28] = 0x0f;
    let out = NetBleDetailPanel.draw(&m, 90, 40).join("\n");
    assert!(out.contains("channels 4 of 37 used (map 0x000000000F)"), "{out}");
    // Unmapped 7, 14, 21, 28, 35, 5, 12, 19 fold to 7 % 4, 14 % 4, ...
    assert!(out.contains("3 2 1 0 3 1 0 3 ... predicted"), "{out}");
    for i in 28..33 {
        m.net.ble_packets[0].payload[i] = 0;
    }
    let none = NetBleDetailPanel.draw(&m, 90, 40).join("\n");
    assert!(none.contains("no channel used: nothing to predict"), "{none}");
}

#[test]
fn a_short_connect_ind_says_so() {
    let mut m = connect_ind(false, true);
    m.net.ble_packets[0].payload.truncate(20);
    let out = NetBleDetailPanel.draw(&m, 90, 40).join("\n");
    assert!(out.contains("payload shorter than a CONNECT_IND's 34 octets"), "{out}");
}

#[test]
fn names_are_printed_safely_and_ragged_lists_stop_the_reading() {
    let m = advertising(&[0x04, 0x09, b'A', 0x1b, b'B', 0x04, 0x03, 0x0f, 0x18, 0x0a]);
    let out = NetBleDetailPanel.draw(&m, 90, 30).join("\n");
    assert!(out.contains("name     A\u{fffd}B"), "{}", shown(&out));
    assert!(out.contains("malformed at octet 5: not a whole number of UUIDs"), "{}", shown(&out));
    let m = advertising(&[0x02, 0x01, 0x00, 0x03, 0x19, 0x41, 0x03, 0x03, 0x02, 0xee, 0xee]);
    let out = NetBleDetailPanel.draw(&m, 90, 30).join("\n");
    assert!(out.contains("flags    none set"), "{}", shown(&out));
    assert!(out.contains("other    Appearance (0x19): 41 03"), "{}", shown(&out));
    assert!(out.contains("services 0xEEEE (incomplete)"), "{}", shown(&out));
}

/// The drawn rows that hold anything, for a failure's message.
fn shown(out: &str) -> String {
    out.lines()
        .filter(|l| l.chars().any(|c| c != '│' && c != ' '))
        .collect::<Vec<_>>()
        .join("\n")
}

/// The transmitter's offset in kHz and ppm, each as its reading prints it,
/// and the frame says what it is worth.
#[test]
fn the_offset_is_given_in_khz_and_ppm_with_its_basis_on_the_frame() {
    let mut m = streaming();
    let mut p = packet(None);
    p.offset = Some(Offset {
        khz: "-22.3 \u{00b1}0.5 kHz".to_string(),
        ppm: "-9.28 \u{00b1}0.21 ppm".to_string(),
    });
    m.net.ble_packets.insert(0, p);
    let out = NetBleDetailPanel.draw(&m, 80, 24);
    assert!(out[0].contains("[RELATIVE]"), "{}", out[0]);
    let text = out.join("\n");
    assert!(text.contains("-22.3 \u{00b1}0.5 kHz"), "{text}");
    assert!(text.contains("-9.28 \u{00b1}0.21 ppm"), "{text}");
}

/// With a reference in force the offsets are no longer relative to our own
/// oscillator, and the frame stops saying so.
#[test]
fn a_referenced_offset_is_not_called_relative() {
    let mut m = streaming();
    m.net.ble_packets.insert(0, packet(None));
    m.net.offset_basis = OffsetBasis::Against("GPSDO".to_string());
    let out = NetBleDetailPanel.draw(&m, 80, 24);
    assert!(!out[0].contains("RELATIVE"), "{}", out[0]);
    m.net.offset_basis = OffsetBasis::Expired;
    let out = NetBleDetailPanel.draw(&m, 80, 24);
    assert!(out[0].contains("[RELATIVE]"), "{}", out[0]);
}
