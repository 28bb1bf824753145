use sdrtop::state::SdrMetrics;
use sdrtop::ui::panels::net::bt::bt_census::NetBtCensusPanel as Current;
use sdrtop::ui::panels::net::bt_census::NetBtCensusPanel as First;
use sdrtop::ui::registry::Panel;

fn streaming() -> SdrMetrics {
    SdrMetrics::new().streaming()
}

#[test]
fn bt_census_a_refusal_is_shown_rather_than_an_empty_table() {
    let mut m = streaming();
    m.net.bt_refused =
        Some("classic Bluetooth access code correlation has no live receiver yet".to_string());
    let out = First.draw(&m, 60, 10).join("\n");
    assert!(out.contains("not decoding"), "{out}");
    assert!(out.contains("no live"), "{out}");
    assert!(out.contains("receiver yet"), "{out}");

    let mut m = streaming();
    m.net.bt_refused =
        Some("no classic Bluetooth channel fits inside the current 2.0 MHz view".to_string());
    let out = Current.draw(&m, 60, 10).join("\n");
    assert!(out.contains("not decoding"), "{out}");
    assert!(out.contains("2.0"), "{out}");
    assert!(out.contains("MHz"), "{out}");
}

#[test]
fn no_refusal_set_shows_the_empty_state_rather_than_panicking() {
    let out = First.draw(&streaming(), 60, 10).join("\n");
    assert!(out.contains("no devices yet"), "{out}");
    assert!(!out.contains("not decoding"), "{out}");
}

#[test]
fn no_refusal_set_still_says_not_decoding_but_for_a_different_reason() {
    let out = Current.draw(&streaming(), 60, 10).join("\n");
    assert!(out.contains("not decoding"), "{out}");
    assert!(out.contains("net_bt_hops"), "{out}");
}

#[test]
fn bt_census_fits_every_size_the_layout_can_hand_it() {
    let mut refused = streaming();
    refused.net.bt_refused =
        Some("no classic Bluetooth channel fits inside the current 2.0 MHz view".to_string());
    for w in 32..90usize {
        for h in 5..20usize {
            for m in [&refused, &streaming(), &SdrMetrics::new()] {
                for rows in [Current.draw(m, w, h), First.draw(m, w, h)] {
                    assert_eq!(rows.len(), h);
                    for line in rows {
                        assert_eq!(line.chars().count(), w, "{w}x{h}: {line:?}");
                    }
                }
            }
        }
    }
}

#[test]
fn bt_census_frame_names_the_panel_and_its_mode() {
    let out = Current.draw(&SdrMetrics::new(), 60, 6);
    assert!(out[0].contains("Classic Bluetooth"), "{}", out[0]);
    assert!(out[0].contains("[STALE]"), "{}", out[0]);
    assert!(out[0].contains("[SURVEY]"), "{}", out[0]);
    assert_eq!(Current.name(), "net_bt_census");
    assert_eq!(First.min_size(), (32, 5));
}
