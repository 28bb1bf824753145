use sdrtop::ble::PduType;
use sdrtop::state::{BlePacket, Quality, SdrMetrics};
use sdrtop::ui::panels::net::bt_rf::NetBtRfPanel;

fn streaming() -> SdrMetrics {
    SdrMetrics::new().streaming()
}

/// The four limit rows of a packet deviating 250 kHz, as the limit widget
/// draws them after their labels.
fn quality() -> Quality {
    Quality {
        index: "0.500 ±0.005".to_string(),
        df1: "250.0 ±2.5 kHz".to_string(),
        df2: "225.0 kHz".to_string(),
        ratio: "0.90 ±0.02".to_string(),
    }
}

fn packet(modulation: Option<Quality>) -> BlePacket {
    BlePacket {
        seq: 0,
        channel: 37,
        pdu_type: PduType::AdvInd,
        tx_add_random: false,
        rx_add_random: false,
        ch_sel: false,
        payload: Vec::new(),
        length: 9,
        adv_addr: Some([0xaa, 0xbb, 0xcc, 0x11, 0x22, 0x33]),
        crc_ok: true,
        snr_tenths: Some(120),
        offset: None,
        modulation,
        drift: None,
        age_secs: 0,
    }
}

#[test]
fn bt_rf_a_refusal_is_shown_rather_than_an_empty_panel() {
    let mut m = streaming();
    m.net.ble_refused = Some("not tuned to an advertising channel".to_string());
    let out = NetBtRfPanel.draw(&m, 40, 8).join("\n");
    assert!(out.contains("not decoding"), "{out}");
    assert!(out.contains("not tuned"), "{out}");
}

#[test]
fn bt_rf_an_empty_feed_says_nothing_decoded_yet() {
    let out = NetBtRfPanel.draw(&streaming(), 40, 8).join("\n");
    assert!(out.contains("no packets yet"), "{out}");
}

#[test]
fn bt_rf_a_packet_with_nothing_measured_refuses_rather_than_inventing_rows() {
    let mut m = streaming();
    m.net.ble_packets.push(packet(None));
    let out = NetBtRfPanel.draw(&m, 40, 8).join("\n");
    assert!(out.contains("not measured"), "{out}");
    assert!(!out.contains("Mod index"), "{out}");
}

#[test]
fn bt_rf_a_good_packet_draws_all_four_rows_and_never_says_pass() {
    let mut m = streaming();
    m.net.ble_packets.push(packet(Some(quality())));
    let out = NetBtRfPanel.draw(&m, 70, 8).join("\n");
    assert!(out.contains("Mod index"), "{out}");
    assert!(out.contains("df1 avg"), "{out}");
    assert!(out.contains("df2 max"), "{out}");
    assert!(out.contains("df2/df1"), "{out}");
    let lower = out.to_ascii_lowercase();
    for word in ["pass", "fail"] {
        assert!(!lower.contains(word), "{word} in {out:?}");
    }
}

#[test]
fn bt_rf_reads_the_newest_packet_only() {
    let mut m = streaming();
    m.net.ble_packets.push(packet(Some(quality())));
    m.net.ble_packets.insert(0, packet(None));
    let out = NetBtRfPanel.draw(&m, 70, 8);
    assert!(out[1].contains("not measured"), "{}", out[1]);
    let mut m = streaming();
    m.net.ble_packets.push(packet(Some(quality())));
    let out = NetBtRfPanel.draw(&m, 70, 8);
    assert!(out[1].starts_with("│Mod index  0.500 ±0.005"), "{}", out[1]);
}
