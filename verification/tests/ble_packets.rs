use sdrtop::ble::PduType;
use sdrtop::state::{BlePacket, Offset, SdrMetrics};
use sdrtop::ui::panels::net::ble::ble_packets::NetBlePacketsPanel as ListPanel;
use sdrtop::ui::panels::net::ble_packets::NetBlePacketsPanel;

fn streaming() -> SdrMetrics {
    SdrMetrics::new().streaming()
}

/// A packet as the first packet list was tested with: 12.3 dB, and a
/// 37.0 kHz offset, read to 1.2 kHz.
fn packet(channel: u8, crc_ok: bool) -> BlePacket {
    BlePacket {
        seq: 0,
        channel,
        pdu_type: PduType::AdvInd,
        tx_add_random: false,
        rx_add_random: false,
        ch_sel: false,
        payload: Vec::new(),
        length: 9,
        adv_addr: Some([0xaa, 0xbb, 0xcc, 0x11, 0x22, 0x33]),
        crc_ok,
        snr_tenths: Some(123),
        offset: Some(Offset {
            khz: "37.0 ±1.2 kHz".to_string(),
            ppm: "15.4 ±0.5 ppm".to_string(),
        }),
        modulation: None,
        drift: None,
        age_secs: 0,
    }
}

#[test]
fn ble_packets_a_refusal_is_shown_rather_than_an_empty_table() {
    let mut m = streaming();
    m.net.ble_refused = Some("not tuned to an advertising channel".to_string());
    let out = NetBlePacketsPanel.draw(&m, 60, 10).join("\n");
    assert!(out.contains("not decoding"), "{out}");
    assert!(out.contains("not tuned"), "{out}");
    let out = ListPanel.draw(&m, 60, 10).join("\n");
    assert!(out.contains("not decoding"), "{out}");
    assert!(out.contains("not tuned"), "{out}");
}

#[test]
fn ble_packets_an_empty_feed_says_nothing_decoded_yet_rather_than_a_refusal() {
    let out = NetBlePacketsPanel.draw(&streaming(), 60, 10).join("\n");
    assert!(out.contains("no packets yet"), "{out}");
    assert!(!out.contains("not decoding"), "{out}");
    let out = ListPanel.draw(&streaming(), 60, 10).join("\n");
    assert!(out.contains("no packets yet"), "{out}");
    assert!(!out.contains("not decoding"), "{out}");
}

#[test]
fn ble_packets_packets_show_crc_status_and_arrival_order() {
    let mut m = streaming();
    m.net.ble_packets.push(packet(37, true));
    m.net.ble_packets.insert(0, packet(38, false));
    let out = NetBlePacketsPanel.draw(&m, 60, 10).join("\n");
    assert!(out.contains("bad"), "{out}");
    assert!(out.contains("ok"), "{out}");
    let bad_line = out.find("bad").unwrap();
    let ok_line = out.find(" ok").unwrap();
    assert!(bad_line < ok_line, "channel 38 (bad) should draw first");
    let out = ListPanel.draw(&m, 90, 10).join("\n");
    assert!(out.contains("bad"), "{out}");
    assert!(out.contains("ok"), "{out}");
    let bad_line = out.find("bad").unwrap();
    let ok_line = out.find(" ok").unwrap();
    assert!(bad_line < ok_line, "channel 38 (bad) should draw first");
}

#[test]
fn ble_packets_a_row_reads_every_column() {
    let mut m = streaming();
    let mut p = packet(37, true);
    p.age_secs = 240;
    m.net.ble_packets.push(p);
    let out = NetBlePacketsPanel.draw(&m, 120, 6);
    assert_eq!(
        out[2],
        format!(
            "│{:<118}│",
            "37  ADV_IND         aa:bb:cc:11:22:33 pub     9   ok    12.3   37.0 ±1.2 kHz  4 min"
        )
    );
    let mut q = packet(38, false);
    q.adv_addr = None;
    q.snr_tenths = Some(-4);
    q.offset = None;
    q.pdu_type = PduType::AdvNonconnInd;
    m.net.ble_packets.insert(0, q);
    let out = NetBlePacketsPanel.draw(&m, 120, 6);
    assert!(out[2].contains("38  ADV_NONCONN_IND -                 pub     9  bad    -0.4               -    0 s"), "{}", out[2]);
}

#[test]
fn ble_packets_rows_stop_at_the_panel_bottom() {
    let mut m = streaming();
    for i in 0..20 {
        m.net.ble_packets.push(packet(37, i % 2 == 0));
    }
    let out = NetBlePacketsPanel.draw(&m, 90, 8);
    assert_eq!(out.len(), 8);
    assert_eq!(out.iter().filter(|l| l.contains("ADV_IND")).count(), 5);
}
