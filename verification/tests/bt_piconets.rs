use sdrtop::state::{
    BrModulation, BtHeaders, BtHop, Piconet, SdrMetrics, SlotFit, SlotTiming, UapEntry,
};
use sdrtop::ui::chrome::{Ink, Piece};
use sdrtop::ui::panels::net::bt::bt_piconets::{channel_runs, residual_histogram, NetBtPiconetsPanel};

fn no_headers() -> BtHeaders {
    BtHeaders {
        captured: 0,
        decoded: 0,
        undecoded: 0,
        types: [0; 16],
        lt_addrs: 0,
        clock_hypotheses: 0,
        settled_runs: 0,
        alternating_runs: 0,
        modulation: None,
    }
}

/// A hit on `channel` from `lap`, `ago_ms` before now, as the worker
/// counts it in the roster.
fn observe(m: &mut SdrMetrics, lap: u32, channel: u8, ago_ms: u64) {
    let ps = &mut m.net.bt_piconets;
    match ps.iter_mut().find(|p| p.lap == lap) {
        Some(p) => {
            p.hits += 1;
            p.per_channel[channel as usize] += 1;
            p.first_seen_ms = p.first_seen_ms.max(ago_ms);
            p.last_seen_ms = p.last_seen_ms.min(ago_ms);
        }
        None => {
            let mut per_channel = [0u32; 79];
            per_channel[channel as usize] = 1;
            ps.push(Piconet {
                lap,
                hits: 1,
                first_seen_ms: ago_ms,
                last_seen_ms: ago_ms,
                per_channel,
                headers: no_headers(),
                slots: SlotTiming::Untimed,
            });
        }
    }
    m.net.bt_hops.insert(0, BtHop { channel, lap, age_ms: ago_ms });
}

fn piconet(m: &mut SdrMetrics, lap: u32) -> &mut Piconet {
    m.net.bt_piconets.iter_mut().find(|p| p.lap == lap).unwrap()
}

/// The UAP values left for `lap`, as the header worker records them.
fn set_uaps(m: &mut SdrMetrics, lap: u32, candidates: Vec<u8>) {
    match m.net.bt_uap.iter_mut().find(|e| e.lap == lap) {
        Some(e) => e.candidates = candidates,
        None => m.net.bt_uap.push(UapEntry { lap, candidates }),
    }
}

fn heard() -> SdrMetrics {
    let mut m = SdrMetrics::new().streaming();
    m.net.bt_channels_watched = (0..20).collect();
    for (i, ch) in [2u8, 3, 4, 5, 17].into_iter().enumerate() {
        observe(&mut m, 0x5a3c71, ch, 30_000 - i as u64 * 1_000);
    }
    observe(&mut m, 0x123456, 9, 0);
    set_uaps(&mut m, 0x5a3c71, vec![0x4c, 0x9a]);
    set_uaps(&mut m, 0x123456, vec![0x21]);
    m
}

fn draw(m: &SdrMetrics, w: usize, h: usize) -> Vec<String> {
    NetBtPiconetsPanel.draw(m, w, h)
}

/// The three silences are three sentences: refused, not running, and
/// listening with nothing heard.
#[test]
fn an_empty_roster_says_which_silence_it_is() {
    let mut m = SdrMetrics::new().streaming();
    m.net.bt_refused = Some("no classic channel fits the view".to_string());
    let out = draw(&m, 50, 8).join("\n");
    assert!(out.contains("not watching"), "{out}");
    assert!(out.contains("no classic channel fits"), "{out}");

    m.net.bt_refused = None;
    let out = draw(&m, 50, 8).join("\n");
    assert!(out.contains("no classic receiver running"), "{out}");

    m.net.bt_channels_watched = vec![10, 20];
    let out = draw(&m, 50, 8).join("\n");
    assert!(out.contains("watching 2 channels"), "{out}");
}

/// An inquiry code wears its own name and a UAP fixed by the
/// specification, and its detail stops before the sections that would
/// average every searching device into one.
#[test]
fn an_inquiry_code_is_named_and_not_read_as_a_piconet() {
    let mut m = heard();
    observe(&mut m, 0x9E_8B33, 40, 0);
    m.net.bt_view.selected = Some(0x9E_8B33);
    let out = draw(&m, 60, 24);
    let text = out.join("\n");
    let row = out.iter().find(|l| l.contains("GIAC")).expect(&text);
    assert!(row.contains("DCI"), "{row}");
    assert!(!text.contains("0x9e8b33  the master's"), "{text}");
    assert!(text.contains("INQUIRY"), "{text}");
    assert!(text.contains("no one's address"), "{text}");
    assert!(text.contains("general inquiry"), "{text}");
    assert!(!text.contains("MODULATION"), "{text}");
    assert!(!text.contains("TIMING"), "{text}");
    assert!(!text.contains("HEADERS"), "{text}");
}

/// **One row per piconet, the most recently heard first**, with its hits,
/// how many channels, and how far its UAP has narrowed.
#[test]
fn each_piconet_gets_a_row_the_newest_first() {
    let out = draw(&heard(), 50, 8);
    let text = out.join("\n");
    let newest = text.find("0x123456").expect(&text);
    let older = text.find("0x5a3c71").expect(&text);
    assert!(newest < older, "{text}");
    let row = out.iter().find(|l| l.contains("0x5a3c71")).unwrap();
    assert!(row.contains("2 left"), "{row}");
    assert!(row.contains(" 5 "), "five hits: {row}");
    let row = out.iter().find(|l| l.contains("0x123456")).unwrap();
    assert!(row.contains("0x21"), "{row}");
}

/// The selected piconet spelled out: the channels as runs, and the UAP's
/// state in words.
#[test]
fn the_selected_piconet_is_spelled_out() {
    let mut m = heard();
    m.net.bt_view.selected = Some(0x5a3c71);
    let out = draw(&m, 60, 16).join("\n");
    assert!(out.contains("PICONET"), "{out}");
    assert!(out.contains("5 of 79: 2-5, 17"), "{out}");
    assert!(out.contains("2 candidates (0x4c, 0x9a)"), "{out}");

    let none = draw(&heard(), 60, 16).join("\n");
    assert!(!none.contains("PICONET"), "{none}");
}

/// **A first header leaves 32 candidates**: the cell holds `32 left` whole,
/// and the detail says how many rather than listing a wall of values.
#[test]
fn many_candidates_are_counted_not_listed() {
    let mut m = heard();
    set_uaps(&mut m, 0x5a3c71, (0..32).map(|i| i * 8 + 1).collect());
    m.net.bt_view.selected = Some(0x5a3c71);
    let out = draw(&m, 60, 16).join("\n");
    assert!(out.contains("32 left"), "{out}");
    assert!(out.contains("32 candidates; each further header narrows them"), "{out}");
    assert!(!out.contains("0x09"), "no list: {out}");
}

/// The detail follows the last row, not the foot of the panel.
#[test]
fn the_detail_follows_the_roster_rather_than_the_foot() {
    let mut m = heard();
    m.net.bt_view.selected = Some(0x5a3c71);
    let out = draw(&m, 60, 30);
    let block = out.iter().position(|l| l.contains("PICONET")).unwrap();
    // The frame, the header, two rows, a gap.
    assert_eq!(block, 5, "{}", out.join("\n"));
}

/// **Headers are read only under one UAP**: before, the block says how
/// many wait and why; after, the type mix (most first), the LT_ADDRs and
/// the clock.
#[test]
fn headers_are_read_only_once_the_uap_is_one_value() {
    let mut m = heard();
    m.net.bt_view.selected = Some(0x5a3c71);
    let out = draw(&m, 70, 30).join("\n");
    assert!(out.contains("none yet"), "{out}");

    piconet(&mut m, 0x5a3c71).headers.captured = 1;
    let out = draw(&m, 70, 30).join("\n");
    assert!(out.contains("1, not read: UAP not resolved (2 candidates)"), "{out}");
    assert!(!out.contains("types"), "{out}");

    set_uaps(&mut m, 0x5a3c71, vec![0x4c]);
    let p = piconet(&mut m, 0x5a3c71);
    p.headers.captured = 7;
    p.headers.decoded = 5;
    p.headers.undecoded = 1;
    p.headers.types[1] = 3;
    p.headers.types[0] = 1;
    p.headers.types[4] = 1;
    p.headers.lt_addrs = 0b111;
    p.headers.clock_hypotheses = 1;
    let out = draw(&m, 70, 30).join("\n");
    assert!(out.contains("HEADERS"), "{out}");
    assert!(out.contains("unchecked on air"), "{out}");
    assert!(out.contains("5 of 7 captured, 1 did not decode under 0x4c"), "{out}");
    assert!(out.contains("POLL 3 \u{00b7} NULL 1 \u{00b7} DH1 1"), "{out}");
    assert!(out.contains("0 (broadcast), 1, 2"), "{out}");
    assert!(out.contains("CLK1-6 found"), "{out}");
}

/// **The BR modulation index against the BR band**: refused until two
/// settled runs, then the rows, and the ratio once two alternating runs
/// are in.
#[test]
fn the_modulation_index_is_read_against_the_br_band() {
    let mut m = heard();
    m.net.bt_view.selected = Some(0x5a3c71);
    let out = draw(&m, 80, 40).join("\n");
    assert!(out.contains("MODULATION"), "{out}");
    assert!(out.contains("not measured: 0 settled runs in 0 headers"), "{out}");

    let p = piconet(&mut m, 0x5a3c71);
    p.headers.captured = 1;
    p.headers.settled_runs = 4;
    p.headers.alternating_runs = 2;
    p.headers.modulation = Some(BrModulation {
        index: "0.32   0.28 \u{2502}\u{2501}\u{2501}\u{25cf}\u{2501}\u{2502} 0.35".to_string(),
        df1: "160 kHz   140 \u{2502}\u{2501}\u{2501}\u{25cf}\u{2501}\u{2502} 175".to_string(),
        ratio: Some("0.94   \u{2265} 0.8".to_string()),
    });
    let out = draw(&m, 80, 40).join("\n");
    assert!(out.contains("Mod index"), "{out}");
    assert!(out.contains("0.32"), "{out}");
    assert!(out.contains("0.28"), "the band is drawn: {out}");
    assert!(out.contains("df2/df1"), "{out}");
    assert!(out.contains("4 settled and 2 alternating runs from 1 headers"), "{out}");
    assert!(out.contains("Core 5.4 Vol 2 A 3.1.1"), "{out}");
}

/// **Slot jitter against the specification's 1 us**: refused while
/// collecting and when no grid is found, then the largest residual against
/// the limit, the rms beside it, and what they rest on.
#[test]
fn slot_jitter_is_shown_against_the_one_microsecond_limit() {
    let mut m = heard();
    m.net.bt_view.selected = Some(0x5a3c71);
    let at = |m: &SdrMetrics| draw(m, 80, 50).join("\n");
    assert!(at(&m).contains("no hit timed yet"), "{}", at(&m));

    piconet(&mut m, 0x5a3c71).slots = SlotTiming::Collecting { have: 5, need: 8 };
    assert!(at(&m).contains("collecting: 5 of 8 hits"), "{}", at(&m));
    piconet(&mut m, 0x5a3c71).slots = SlotTiming::NoGrid { hits: 30 };
    assert!(at(&m).contains("30 hits do not line up"), "{}", at(&m));

    piconet(&mut m, 0x5a3c71).slots = SlotTiming::Fit(SlotFit {
        hits: 60,
        span_ms: 60_000,
        jitter: "0.82 us   \u{2264} 1".to_string(),
        rms: "0.31 \u{00b1} 0.03 us".to_string(),
        residuals_ns: vec![0; 60],
    });
    let out = at(&m);
    assert!(out.contains("TIMING"), "{out}");
    assert!(out.contains("Jitter max"), "{out}");
    assert!(out.contains("0.82"), "{out}");
    assert!(out.contains("0.31"), "{out}");
    assert!(out.contains("60 hits over 60 s"), "{out}");
    assert!(out.contains("residual from the grid"), "{out}");
    assert!(out.contains("Core 5.4 Vol 2 B 2.2.5"), "{out}");
}

/// **The residuals as a shape**: each lands in its column, the limits and
/// zero are ruled and labelled, and a residual past the plot is counted
/// rather than dropped.
#[test]
fn the_residual_plot_places_each_hit_and_the_limits() {
    let mut m = heard();
    m.net.bt_view.selected = Some(0x5a3c71);
    piconet(&mut m, 0x5a3c71).slots = SlotTiming::Fit(SlotFit {
        hits: 6,
        span_ms: 4_000,
        jitter: "0.9 us".to_string(),
        rms: "0.4 us".to_string(),
        residuals_ns: vec![0, 10, 20, 900, -500, 2_000],
    });
    // 46 columns outside, 44 in: 40 plot columns across 3 us.
    let out = draw(&m, 46, 60);
    let text = out.join("\n");
    // The count is said in the note under the plot, wrapped at this width.
    assert!(text.contains("us, 1 beyond"), "{text}");
    let labels = out.iter().find(|l| l.contains("-1") && l.contains("+1")).expect(&text);
    // Border, two columns of indent, then column 6 (-1 us) and 33 (+1 us).
    let col = |c: char, from: usize| labels.chars().skip(from).position(|x| x == c).map(|p| p + from);
    assert_eq!(col('-', 0), Some(1 + 2 + 5), "{labels}");
    assert_eq!(col('+', 0), Some(1 + 2 + 32), "{labels}");
    let top = out.iter().find(|l| l.contains('\u{2588}') && !l.contains("LAP")).expect(&text);
    assert_eq!(top.chars().nth(1 + 2 + 20), Some('\u{2588}'), "{top}");
    // The ±1 us limits are ruled in the top row too.
    assert_eq!(top.chars().nth(1 + 2 + 6), Some('\u{250a}'), "{top}");
    assert_eq!(top.chars().nth(1 + 2 + 33), Some('\u{250a}'), "{top}");
}

/// **The residuals as a shape**, the plot on its own: each lands in its
/// column, the ±1 us limits and zero are ruled and labelled, and a residual
/// past the plot is counted rather than dropped.
#[test]
fn the_residual_histogram_places_each_hit_and_the_limits() {
    // 40 columns across 3 us: 0.075 us each.
    let (lines, beyond) = residual_histogram(&vec![0, 10, 20, 900, -500, 2_000], 44, 1);
    assert_eq!(beyond, 1);
    assert_eq!(lines.len(), 3 + 2);
    let text = |l: &Vec<Piece>| l.iter().map(|p| p.text.as_str()).collect::<String>();
    // The tallest bar (three residuals near zero) reaches the top row.
    let top = text(&lines[0]);
    assert_eq!(top.chars().nth(2 + 20), Some('\u{2588}'), "{top:?}");
    // Limits ruled at -1 and +1 (columns 6 and 33), labelled below.
    assert_eq!(top.chars().nth(2 + 6), Some('\u{250a}'), "{top:?}");
    assert_eq!(top.chars().nth(2 + 33), Some('\u{250a}'), "{top:?}");
    let labels = text(&lines[3 + 1]);
    assert!(labels.contains("-1") && labels.contains("+1"), "{labels:?}");
    // The limit rules are in the warning ink, the bars in the colour.
    let limit = lines[0].iter().find(|p| p.text == "\u{250a}").unwrap();
    assert_eq!(limit.ink, Ink::Warn);
    let bar = lines[2].iter().find(|p| p.text != " " && p.text != "\u{250a}" && p.text != "  ").unwrap();
    assert_eq!(bar.ink, Ink::Series(1));
    // Too narrow for a readable plot: none, and still the count.
    let (narrow, beyond) = residual_histogram(&vec![3_000], 16, 1);
    assert!(narrow.is_empty());
    assert_eq!(beyond, 1);
}

/// **A short panel keeps what fits and names the rest.**
#[test]
fn a_short_panel_keeps_whole_sections_and_names_the_rest() {
    let mut m = heard();
    m.net.bt_view.selected = Some(0x5a3c71);
    let out = draw(&m, 60, 16).join("\n");
    assert!(out.contains("PICONET"), "{out}");
    assert!(out.contains("on a taller panel"), "{out}");
    assert!(out.contains("HEADERS on a taller panel"), "{out}");
    let tall = draw(&m, 60, 60).join("\n");
    assert!(!tall.contains("taller panel"), "{tall}");
    assert!(tall.contains("HEADERS"), "{tall}");
}

#[test]
fn channel_runs_join_neighbours() {
    assert_eq!(channel_runs(0), "");
    assert_eq!(channel_runs(0b1111 << 2 | 1 << 17 | 1 << 78), "2-5, 17, 78");
}

#[test]
fn bt_piconets_it_fits_every_size_the_layout_can_hand_it() {
    let mut m = heard();
    m.net.bt_view.selected = Some(0x5a3c71);
    let quiet = SdrMetrics::new();
    for w in 30..70usize {
        for h in 6..24usize {
            for s in [&m, &quiet] {
                for line in draw(s, w, h) {
                    assert!(line.chars().count() <= w, "{w}x{h}: {line:?}");
                }
            }
        }
    }
}
