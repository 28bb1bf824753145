use sdrtop::state::SdrMetrics;
use sdrtop::ui::chrome::Ink;
use sdrtop::ui::panels::net::shared::band_axis;
use sdrtop::ui::panels::net::shared::coexist::NetCoexistPanel;

const CELLS: usize = 83;

/// One moment of the band with `busy` set on exactly `cell`.
fn column(cell: usize) -> Vec<i32> {
    let mut c = vec![0; CELLS];
    c[cell] = 1000;
    c
}

/// `columns` oldest first, the way the history holds them.
fn with(columns: Vec<Vec<i32>>) -> SdrMetrics {
    let mut m = SdrMetrics::new().streaming();
    m.net.band.history = columns;
    m
}

#[test]
fn the_axis_is_the_band_axis_and_the_time_is_said() {
    let m = with(vec![column(0); 20]);
    let lines = NetCoexistPanel.draw(&m, 90, 24);
    let text = lines.join("\n");
    assert!(text.contains(&band_axis::ruler(88)), "{text}");
    assert!(
        text.contains("2400 MHz") && text.contains("2483 MHz"),
        "{text}"
    );
    // Twenty moments at half a second each.
    assert!(text.contains("now at the top, 10 s down"), "{text}");
}

#[test]
fn an_empty_history_says_it_is_waiting() {
    let out = NetCoexistPanel.draw(&SdrMetrics::new().streaming(), 60, 20).join("\n");
    assert!(out.contains("waiting for the first pass"), "{out}");
}

#[test]
fn a_survey_that_cannot_run_is_not_a_pass_to_wait_for() {
    let mut m = SdrMetrics::new().streaming();
    m.net.survey_refused = Some("1.8 MHz of view is too narrow".to_string());
    let out = NetCoexistPanel.draw(&m, 60, 20).join("\n");
    assert!(out.contains("no pass is possible"), "{out}");
    assert!(out.contains("1.8 MHz"), "{out}");
    assert!(!out.contains("waiting"), "{out}");
}

#[test]
fn coexist_a_busy_cell_lands_where_the_band_axis_says_it_should() {
    for (w, h) in [(40usize, 12usize), (90, 24), (120, 45)] {
        for cell in [0usize, CELLS / 2, CELLS - 1] {
            let other = (cell + 30) % CELLS;
            // Oldest first: `other` a moment ago, `cell` now.
            let lines = NetCoexistPanel.lines(&with(vec![column(other), column(cell)]), w, h);
            let x = band_axis::column_of(cell, w);
            match lines[0][x].ink {
                Ink::Heat { upper, .. } => assert_eq!(upper, Some(1000), "{w}x{h}: now, {cell}"),
                other => panic!("{other:?}"),
            }
            let x = band_axis::column_of(other, w);
            match lines[0][x].ink {
                Ink::Heat { lower, .. } => assert_eq!(lower, Some(1000), "{w}x{h}: before, {other}"),
                other => panic!("{other:?}"),
            }
        }
    }
}

#[test]
fn coexist_a_short_history_does_not_pretend_to_fill_the_panel() {
    let lines = NetCoexistPanel.lines(&with(vec![column(40); 4]), 60, 20);
    let x = band_axis::column_of(40, 60);
    // Four moments fill the top two rows; the bottom of the canvas is dark.
    assert_eq!(lines[0][x].ink, Ink::Heat { upper: Some(1000), lower: Some(1000) });
    assert_eq!(lines[17][x].ink, Ink::Heat { upper: None, lower: None });
    // An unobserved cell is not a quiet one.
    let mut unseen = vec![-1; CELLS];
    unseen[0] = 0;
    let lines = NetCoexistPanel.lines(&with(vec![unseen]), 83, 6);
    assert_eq!(lines[0][0].ink, Ink::Heat { upper: Some(0), lower: None });
    assert_eq!(lines[0][1].ink, Ink::Heat { upper: None, lower: None });
}

#[test]
fn coexist_an_odd_span_rounds_to_even_seconds() {
    let out = NetCoexistPanel.draw(&with(vec![column(0); 3]), 90, 24).join("\n");
    assert!(out.contains("now at the top, 2 s down"), "{out}");
    let out = NetCoexistPanel.draw(&with(vec![column(0); 5]), 90, 24).join("\n");
    assert!(out.contains("now at the top, 2 s down"), "{out}");
    let out = NetCoexistPanel.draw(&with(vec![column(0); 1]), 90, 24).join("\n");
    assert!(out.contains("now at the top, 0 s down"), "{out}");
}
