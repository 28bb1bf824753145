use sdrtop::state::{
    BtHeaders, BtHop, Piconet, SdrMetrics, SlotTiming, BT_HOP_LIMIT,
};
use sdrtop::ui::chrome::{Ink, Piece};
use sdrtop::ui::panels::net::bt::bt_hops::{
    channel_axis, channels_of, NetBtHopsPanel, CHIP, MAX_BAR_ROWS, SCALE,
};

const CHANNELS: usize = 79;

fn streaming() -> SdrMetrics {
    SdrMetrics::new().streaming()
}

fn no_headers() -> BtHeaders {
    BtHeaders {
        captured: 0,
        decoded: 0,
        undecoded: 0,
        types: [0; 16],
        lt_addrs: 0,
        clock_hypotheses: 0,
        settled_runs: 0,
        alternating_runs: 0,
        modulation: None,
    }
}

/// A hit on `channel` from `lap`, `ago_ms` before now, counted in the
/// roster too, the way the worker does both.
fn hit(m: &mut SdrMetrics, lap: u32, channel: u8, ago_ms: u64) {
    let ps = &mut m.net.bt_piconets;
    match ps.iter_mut().find(|p| p.lap == lap) {
        Some(p) => {
            p.hits += 1;
            p.per_channel[channel as usize] += 1;
            p.first_seen_ms = p.first_seen_ms.max(ago_ms);
            p.last_seen_ms = p.last_seen_ms.min(ago_ms);
        }
        None => {
            let mut per_channel = [0u32; 79];
            per_channel[channel as usize] = 1;
            ps.push(Piconet {
                lap,
                hits: 1,
                first_seen_ms: ago_ms,
                last_seen_ms: ago_ms,
                per_channel,
                headers: no_headers(),
                slots: SlotTiming::Untimed,
            });
        }
    }
    m.net.bt_hops.insert(0, BtHop { channel, lap, age_ms: ago_ms });
}

/// A line's characters, each with the ink and weight it is drawn in.
fn cells(line: &[Piece]) -> Vec<(char, Ink, bool)> {
    line.iter()
        .flat_map(|p| p.text.chars().map(move |c| (c, p.ink, p.bold)))
        .collect()
}

fn lane<'a>(out: &'a [String], lap: &str) -> &'a String {
    out.iter()
        .find(|l| l.contains(lap) && l.contains(CHIP))
        .unwrap_or_else(|| panic!("no lane for {lap}:\n{}", out.join("\n")))
}

fn ticks(line: &str) -> usize {
    line.chars()
        .filter(|&c| c == '\u{2503}' || c == '\u{2588}')
        .count()
}

/// "No receiver at all" and "a receiver has heard nothing" are different
/// claims.
#[test]
fn a_refusal_is_shown_rather_than_the_zones() {
    let mut m = streaming();
    m.net.bt_refused =
        Some("no classic Bluetooth channel fits inside the current 2.0 MHz view".to_string());
    let out = NetBtHopsPanel.draw(&m, 60, 12).join("\n");
    assert!(out.contains("not watching"), "{out}");
    assert!(out.contains("2.0") && out.contains("MHz"), "{out}");
}

#[test]
fn no_hits_yet_says_how_many_channels_are_watched() {
    let mut m = streaming();
    m.net.bt_channels_watched = vec![10, 20, 30];
    let out = NetBtHopsPanel.draw(&m, 60, 12).join("\n");
    assert!(out.contains("watching 3 channels"), "{out}");
    assert!(!out.contains("WHERE"), "{out}");
}

/// **WHERE keeps every hit in its place**, on all 79 channels, whatever is
/// watched now; the channels watched now are underlined.
#[test]
fn where_places_every_hit_on_its_channel_whatever_is_watched_now() {
    let mut m = streaming();
    m.net.bt_channels_watched = vec![75, 76, 77, 78];
    hit(&mut m, 0xa4b109, 68, 43_000);
    let out = NetBtHopsPanel.draw(&m, 85, 16);
    let bar = out
        .iter()
        .find(|l| l.contains('\u{2588}') && !l.contains(CHIP))
        .expect("a bar");
    let col = |line: &str, c: char| line.chars().position(|x| x == c);
    // Border, then the scale, then channel 0.
    assert_eq!(col(bar, '\u{2588}'), Some(1 + SCALE + 68), "{bar}");
    let under = out.iter().find(|l| l.contains('\u{2594}')).unwrap();
    assert_eq!(col(under, '\u{2594}'), Some(1 + SCALE + 75), "{under}");
    assert!(out.join("\n").contains("watched now: 75-78"));
}

/// **WHEN gives each piconet a lane**, a tick per hit in the window, and
/// counts them; a hit older than the window is in WHERE but not in WHEN.
#[test]
fn when_gives_each_piconet_a_lane_of_its_hits_in_the_window() {
    let mut m = streaming();
    m.net.bt_channels_watched = (0..20).collect();
    for i in 0..3 {
        hit(&mut m, 0x0a3777, 5, 1_000 + i * 4_000);
    }
    hit(&mut m, 0xba5a11, 7, 2_000);
    hit(&mut m, 0xba5a11, 8, 40_000);
    let out = NetBtHopsPanel.draw(&m, 80, 16);
    let a = lane(&out, "0x0a3777");
    assert_eq!(ticks(a), 3, "{a}");
    assert!(a.trim_end_matches('\u{2502}').trim_end().ends_with('3'), "{a}");
    let b = lane(&out, "0xba5a11");
    assert_eq!(ticks(b), 1, "the 40 s old hit is outside 20 s: {b}");

    m.net.hop_view.span_ms = 60_000;
    let out = NetBtHopsPanel.draw(&m, 80, 16);
    assert_eq!(ticks(lane(&out, "0xba5a11")), 2, "a minute holds both");
    assert!(out[0].contains("60 s \u{25c2} now"), "{}", out[0]);
}

/// Scrubbed back, the window moves, the tag and the axis say where to.
#[test]
fn scrubbing_moves_the_window_and_says_where() {
    let mut m = streaming();
    m.net.bt_channels_watched = vec![10];
    hit(&mut m, 0x112233, 10, 30_000);
    let out = NetBtHopsPanel.draw(&m, 70, 14);
    assert_eq!(ticks(lane(&out, "0x112233")), 0);
    m.net.hop_view.back_ms = 20_000;
    let out = NetBtHopsPanel.draw(&m, 70, 14);
    assert_eq!(ticks(lane(&out, "0x112233")), 1);
    assert!(out[0].contains("20 s \u{25c2} -20 s"), "{}", out[0]);
    assert!(out.join("\n").contains("-40 s"), "the axis starts there");
}

/// **A count of one is not half a panel**: on a tall panel the bars stop
/// at the cap.
#[test]
fn bars_are_capped_and_a_faint_bar_keeps_its_owners_colour() {
    let mut m = streaming();
    m.net.bt_channels_watched = vec![10];
    hit(&mut m, 0xaaaaaa, 10, 0);
    hit(&mut m, 0xbbbbbb, 20, 0);
    let out = NetBtHopsPanel.draw(&m, 90, 40);
    let bar_rows = out
        .iter()
        .filter(|l| l.contains('\u{2588}') && !l.contains(CHIP))
        .count();
    assert_eq!(bar_rows, MAX_BAR_ROWS, "{}", out.join("\n"));

    m.net.bt_view.selected = Some(0xbbbbbb);
    let lines = NetBtHopsPanel.lines(&m, 90, 20);
    // Column of channel 10: the scale, then channel 0.
    let x = SCALE + 10;
    let (_, ink, _) = lines
        .iter()
        .map(|l| cells(l))
        .filter(|c| c.len() > x)
        .map(|c| c[x])
        .find(|c| c.0 == '\u{2588}')
        .expect("channel 10's bar");
    // The unselected piconet heard first wears the first colour, receded.
    assert_eq!(ink, Ink::SeriesFaint(0));
}
/// **The room the capped bars leave goes to the lanes**: on a tall panel a
/// hit is a tick three rows high, its lane's name on the baseline.
#[test]
fn a_tall_panel_gives_the_lanes_three_rows() {
    let mut m = streaming();
    m.net.bt_channels_watched = vec![10];
    hit(&mut m, 0xaaaaaa, 10, 1_000);
    hit(&mut m, 0xbbbbbb, 20, 2_000);
    let out = NetBtHopsPanel.draw(&m, 90, 40);
    let base = out.iter().position(|l| l.contains("0xaaaaaa")).unwrap();
    let col = out[base].chars().position(|c| c == '\u{2503}').unwrap();
    let tall = (base - 2..=base)
        .filter(|&y| out[y].chars().nth(col) == Some('\u{2503}'))
        .count();
    assert_eq!(tall, 3, "{}", out.join("\n"));
}

/// With the capped list full and the window reaching before its oldest
/// hit, the axis says the rest is not kept.
#[test]
fn a_window_older_than_what_is_kept_says_so() {
    let mut m = streaming();
    m.net.bt_channels_watched = vec![10];
    for i in 0..BT_HOP_LIMIT as u64 {
        hit(&mut m, 0x112233, 10, 5_000 - i * 5);
    }
    let out = NetBtHopsPanel.draw(&m, 70, 12).join("\n");
    assert!(out.contains("older hits not kept"), "{out}");
    m.net.hop_view.span_ms = 500;
    let out = NetBtHopsPanel.draw(&m, 70, 12).join("\n");
    assert!(!out.contains("not kept"), "half a second is all kept: {out}");
}

/// More piconets than lanes: the rest are counted, not dropped quietly.
#[test]
fn piconets_beyond_the_lanes_are_counted() {
    let mut m = streaming();
    m.net.bt_channels_watched = vec![10];
    for i in 0..12u32 {
        hit(&mut m, 0x100000 + i, 10, i as u64 * 100);
    }
    let out = NetBtHopsPanel.draw(&m, 70, 12).join("\n");
    assert!(out.contains("more piconets in the roster"), "{out}");
}

#[test]
fn the_channel_axis_labels_what_fits() {
    assert!(channel_axis(79).starts_with("0         10        20"));
    assert!(channel_axis(79).ends_with("78"));
    let narrow = channel_axis(40);
    assert_eq!(narrow.chars().count(), 40);
    assert!(narrow.starts_with("0    10"), "{narrow}");
}

/// **A panel a few columns short of 79 keeps its width**: every column is
/// used, every channel is in exactly one, and none is more than two wide.
#[test]
fn channel_columns_fill_the_width_and_cover_every_channel() {
    for cols in [20, 40, 76, 78, 79] {
        let mut seen = [0; CHANNELS];
        for c in 0..cols {
            let r = channels_of(c, cols);
            assert!((1..=4).contains(&r.len()), "{cols}: column {c} is {r:?}");
            for ch in r {
                seen[ch] += 1;
            }
        }
        assert!(seen.iter().all(|&n| n == 1), "{cols}: {seen:?}");
    }
    assert!(channels_of(10, 76).len() <= 2);
}

#[test]
fn bt_hops_it_fits_every_size_the_layout_can_hand_it() {
    let mut m = streaming();
    m.net.bt_channels_watched = (10..30).collect();
    for i in 0..40u64 {
        hit(&mut m, 0x100000 + (i % 9) as u32, (i * 7 % 79) as u8, i * 300);
    }
    m.net.bt_view.selected = Some(0x100003);
    for w in 30..100usize {
        for h in 6..24usize {
            for line in NetBtHopsPanel.draw(&m, w, h) {
                assert!(line.chars().count() <= w, "{w}x{h}: {line:?}");
            }
        }
    }
}

/// The scale names the busiest column's count, and a piconet heard more
/// stands taller.
#[test]
fn the_scale_names_the_busiest_column() {
    let mut m = streaming();
    m.net.bt_channels_watched = vec![10];
    for _ in 0..4 {
        hit(&mut m, 0xaaaaaa, 10, 100);
    }
    hit(&mut m, 0xbbbbbb, 20, 100);
    let out = NetBtHopsPanel.draw(&m, 85, 16);
    let top = out.iter().find(|l| l.contains("  4 ")).expect("the scale's top");
    assert_eq!(top.chars().nth(1 + SCALE + 10), Some('\u{2588}'), "{top}");
    assert_eq!(top.chars().nth(1 + SCALE + 20), Some(' '), "{top}");
}

/// The selected piconet leads: its lane is marked, its ticks bold in its
/// own colour, and the other lanes recede.
#[test]
fn a_selected_piconet_leads_and_the_rest_recede() {
    let mut m = streaming();
    m.net.bt_channels_watched = vec![10];
    hit(&mut m, 0xaaaaaa, 10, 0);
    hit(&mut m, 0xbbbbbb, 20, 0);
    m.net.bt_view.selected = Some(0xbbbbbb);
    let lines: Vec<Vec<(char, Ink, bool)>> = NetBtHopsPanel
        .lines(&m, 90, 16)
        .iter()
        .map(|l| cells(l))
        .collect();
    let row_text = |l: &Vec<(char, Ink, bool)>| l.iter().map(|c| c.0).collect::<String>();
    let tick_on = |lap: &str| {
        let l = lines.iter().find(|l| row_text(l).contains(lap)).unwrap();
        *l.iter().find(|c| c.0 == '\u{2503}').unwrap()
    };
    let (_, ink, bold) = tick_on("0xbbbbbb");
    assert_eq!(ink, Ink::Series(1));
    assert!(bold);
    assert_eq!(tick_on("0xaaaaaa").1, Ink::SeriesFaint(0));
    let l = lines.iter().find(|l| row_text(l).contains("0xbbbbbb")).unwrap();
    assert_eq!(l[0].0, '\u{258c}', "the lane is marked");
}
