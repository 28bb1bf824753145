use sdrtop::state::{CellReading, NetMode, SdrMetrics};
use sdrtop::ui::chrome::Ink;
use sdrtop::ui::panels::net::shared::band_axis::column_of;
use sdrtop::ui::panels::net::shared::occupancy::{
    bar_column, columns, NetOccupancyPanel, FLOOR, ROWS, UNSEEN,
};

const CELLS: usize = 83;

fn unseen() -> CellReading {
    CellReading {
        windows: 0,
        duty_milli: 0,
        level_milli: 0,
        coverage_milli: None,
        busy: "\u{2014}".to_string(),
        power: "0.0 peak, 0.0 mean dBFS".to_string(),
        measured_secs: None,
    }
}

/// Cells 12 to 46 observed, eighteen megahertz around channel 6 and a
/// little more, with three busy runs in it.
fn surveyed() -> SdrMetrics {
    let mut m = SdrMetrics::new().streaming();
    let mut cells: Vec<CellReading> = (0..CELLS).map(|_| unseen()).collect();
    for (i, c) in cells.iter_mut().enumerate() {
        if (12..=46).contains(&i) {
            c.windows = 8_000;
            c.busy = "0.0 \u{00b1}0.1 % busy".to_string();
            c.power = "-70.0 peak, 0.0 mean dBFS".to_string();
            c.level_milli = 222;
        }
    }
    for (i, duty, level, busy, power) in [
        (24usize, 620u32, 644u32, "62.0 \u{00b1}0.5 % busy", "-32.0 peak, 0.0 mean dBFS"),
        (36, 180, 467, "18.0 \u{00b1}0.4 % busy", "-48.0 peak, 0.0 mean dBFS"),
        (41, 950, 756, "95.0 \u{00b1}0.2 % busy", "-22.0 peak, 0.0 mean dBFS"),
    ] {
        cells[i].duty_milli = duty;
        cells[i].level_milli = level;
        cells[i].busy = busy.to_string();
        cells[i].power = power.to_string();
    }
    m.net.band.cells = cells;
    m.net.band.noise = Some("-78.4 dBFS".to_string());
    m.net.band.trusted = true;
    m.net.band.floor_check = "tail 2.07 (max 2.41)   spread 40.2 (min 12.0)".to_string();
    m.net.band.window_ns = 6_400;
    m
}

fn draw(m: &SdrMetrics, w: usize, h: usize) -> Vec<String> {
    NetOccupancyPanel.draw(m, w, h)
}

/// The mode costs coverage, and the panel says so in figures as well as in
/// the word on its nameplate.
#[test]
fn the_panel_reports_what_fraction_of_the_time_it_was_looking() {
    let mut m = surveyed();
    for c in m.net.band.cells.iter_mut().filter(|c| c.windows > 0) {
        c.coverage_milli = Some(160);
    }
    let out = draw(&m, 80, 12).join("\n");
    assert!(out.contains("16 % of the time"), "{out}");
    assert!(out.contains("[SURVEY]"), "{out}");

    let mut m = surveyed();
    m.net.mode = NetMode::Lock;
    for c in m.net.band.cells.iter_mut().filter(|c| c.windows > 0) {
        c.coverage_milli = Some(1000);
    }
    let out = draw(&m, 80, 12).join("\n");
    assert!(out.contains("100 % of the time"), "{out}");
    assert!(out.contains("[LOCK]"), "{out}");

    let out = draw(&surveyed(), 80, 12).join("\n");
    assert!(out.contains("every cell measured once so far"), "{out}");
}

/// The busiest reading prints, with the sampling spread it travels with.
#[test]
fn the_busiest_cell_prints_a_number_rather_than_a_dash() {
    let mut m = surveyed();
    m.net.band.cells[41].windows = 7_800;
    let out = draw(&m, 80, 12);
    let line = out.iter().find(|l| l.contains("busiest")).expect("a busiest line");
    assert!(line.contains("2441 MHz"), "{line}");
    assert!(line.contains("95."), "{line}");
    assert!(line.contains('\u{00b1}'), "the sampling spread travels with it: {line}");
    assert!(!line.contains('\u{2014}'), "{line}");
}

#[test]
fn unobserved_and_empty_are_drawn_differently() {
    let m = surveyed();
    let out = draw(&m, 85, 10);
    let baseline = out.iter().find(|l| l.contains(FLOOR)).expect("a baseline");
    assert!(baseline.contains(UNSEEN), "{baseline}");
    assert!(baseline.contains(FLOOR), "{baseline}");
    let body: String = baseline.chars().filter(|c| *c != '\u{2502}' && *c != ' ').collect();
    assert!(body.starts_with(UNSEEN), "{baseline}");
    assert!(body.ends_with(UNSEEN), "{baseline}");
    assert!(out.join("\n").contains("35 of 83 MHz in view"));
}

/// A duty cycle is a height, and a bigger one is taller.
#[test]
fn a_busier_cell_is_a_taller_bar() {
    let quiet = bar_column((10, 100, 0), ROWS);
    let busy = bar_column((10, 900, 0), ROWS);
    let height = |c: &Vec<char>| c.iter().filter(|ch| **ch != ' ').count();
    assert!(height(&busy) > height(&quiet), "{busy:?} vs {quiet:?}");
    assert_eq!(bar_column((10, 1000, 0), ROWS), vec!['\u{2588}'; ROWS]);
    assert_eq!(bar_column((10, 0, 0), ROWS), vec![' ', ' ', FLOOR]);
    assert_eq!(bar_column((0, 0, 0), ROWS), vec![UNSEEN; ROWS]);
}

/// Squeezing the band into fewer columns keeps the worst cell, not the mean.
#[test]
fn a_narrow_panel_shows_the_busiest_cell_and_not_the_average() {
    let mut cells = vec![(100u64, 0u32, 0u32); CELLS];
    cells[41].1 = 1000;
    let cols = columns(&cells, 20);
    assert_eq!(cols.len(), 20);
    assert_eq!(cols.iter().filter(|c| c.1 > 500).count(), 1, "one saturated megahertz is still saturated");
    let none = columns(&vec![(0u64, 0u32, 0u32); CELLS], 20);
    assert!(none.iter().all(|c| c.0 == 0));
}

/// A floor that failed takes the profile with it.
#[test]
fn an_untrusted_floor_draws_no_profile_at_all() {
    let mut m = surveyed();
    m.net.band.trusted = false;
    m.net.band.floor_check = "tail 3.90 (max 2.41)   spread 40.2 (min 12.0)".to_string();
    let out = draw(&m, 85, 10).join("\n");
    assert!(out.contains("no floor"), "{out}");
    assert!(out.contains("tail 3.90 (max 2.41)"), "{out}");
    assert!(!out.contains('\u{2588}'), "{out}");
    assert!(!out.contains(UNSEEN), "{out}");
}

/// **Two silences, told apart.** A survey that cannot run is not a survey
/// that has not started.
#[test]
fn a_survey_that_cannot_run_says_so_rather_than_asking_for_patience() {
    let mut m = SdrMetrics::new().streaming();
    m.net.survey_refused = Some("1.8 MHz of view is too narrow to hold a whole megahertz".to_string());
    let out = draw(&m, 80, 12).join("\n");
    assert!(out.contains("1.8 MHz"), "{out}");
    assert!(out.contains("too narrow"), "{out}");
    assert!(!out.contains("waiting for RX"), "{out}");
    assert!(out.contains("[M]") || out.contains("sample rate"), "{out}");
}

#[test]
fn a_band_never_measured_says_so_rather_than_drawing_an_empty_one() {
    let m = SdrMetrics::new();
    let out = draw(&m, 85, 10).join("\n");
    assert!(out.contains("waiting for RX"), "{out}");
    assert!(out.contains('\u{2014}'), "no floor to report yet: {out}");
    assert!(!out.contains(FLOOR), "{out}");
}

/// The cursor's readout, and a mark under the column its cell is drawn in.
#[test]
fn the_cursor_reads_out_the_cell_it_is_on() {
    let mut m = surveyed();
    m.net.band.cells[24].measured_secs = Some(0);
    m.net.band.cursor = Some(24);
    let out = draw(&m, 120, 14);
    let all = out.join("\n");
    let readout = out.iter().find(|l| l.contains("cursor")).expect(&all);
    assert!(readout.contains("2424 MHz"), "{readout}");
    assert!(readout.contains("% busy"), "{readout}");
    assert!(readout.contains("-32.0 peak"), "{readout}");
    assert!(readout.contains("8000 windows, 51 ms watched"), "{readout}");
    assert!(readout.contains("0 s ago"), "{readout}");
    assert!(!all.contains("busiest"), "the readout takes the headline's place");
    let mark = out.iter().find(|l| l.contains('\u{25b2}')).expect(&all);
    let col = mark.chars().position(|c| c == '\u{25b2}').unwrap() - 1;
    assert_eq!(col, column_of(24, 118), "{mark}");
}

/// **At a past moment the profile shows what the history kept, and says
/// so**: duty only, no spread, no coverage.
#[test]
fn a_past_moment_shows_the_history_duty_only() {
    let mut m = surveyed();
    let mut then = vec![-1i32; CELLS];
    then[30] = 750;
    then[31] = 0;
    m.net.band.history = vec![then, vec![100; CELLS]];
    m.net.band.scrub = Some(1);
    let all = draw(&m, 100, 14).join("\n");
    assert!(all.contains("moment       0.5 s ago"), "{all}");
    assert!(all.contains("floor (now)"), "the floor is today's: {all}");
    assert!(all.contains("duty only"), "{all}");
    assert!(all.contains("busiest      2430 MHz   75 % busy"), "{all}");
    assert!(!all.contains('\u{00b1}'), "no spread is invented: {all}");
    assert!(!all.contains("coverage"), "coverage is about now: {all}");

    m.net.band.cursor = Some(5);
    let all = draw(&m, 100, 14).join("\n");
    assert!(all.contains("2405 MHz   not observed then"), "{all}");
}

/// A cell nobody looked at says so and borrows nobody's figures.
#[test]
fn a_cursor_on_an_unobserved_cell_says_nobody_looked() {
    let mut m = surveyed();
    m.net.band.cursor = Some(3);
    let all = draw(&m, 100, 14).join("\n");
    assert!(all.contains("2403 MHz"), "{all}");
    assert!(all.contains("not observed"), "{all}");
    assert!(!all.contains("% busy"), "{all}");
}

/// The readout is built of whole groups: at any width its visible text ends
/// at the end of a group, never inside a figure.
#[test]
fn the_readout_drops_whole_groups_on_a_narrow_panel() {
    let mut m = surveyed();
    m.net.band.cursor = Some(24);
    for w in 40..140usize {
        let lines = NetOccupancyPanel.lines(&m, w - 2, false, ROWS);
        let text: String = lines[1].iter().map(|p| p.text.as_str()).collect();
        assert!(text.chars().count() <= w - 2, "{w}: {text:?}");
        assert!(
            text.ends_with(" MHz")
                || text.ends_with("% busy")
                || text.ends_with("dBFS")
                || text.ends_with("watched")
                || text.ends_with('\u{2014}')
                || text.ends_with("ago"),
            "{w}: {text:?}"
        );
    }
}

/// Bonded, the bars grow into the height the bond gives the profile.
#[test]
fn bonded_bars_fill_the_half_they_are_given() {
    let m = surveyed();
    let lines = NetOccupancyPanel.bonded(&m, 98, 19);
    assert_eq!(lines.len(), 19);
    let text = |l: &Vec<sdrtop::ui::chrome::Piece>| l.iter().map(|p| p.text.as_str()).collect::<String>();
    let bar_rows = lines.iter().filter(|l| text(l).contains(UNSEEN)).count();
    assert!(bar_rows > ROWS, "{bar_rows} bar rows in a 19-row half");
    assert!(text(&lines[18]).contains(UNSEEN), "the bars stand on the seam");
}

#[test]
fn occupancy_it_fits_every_size_the_layout_can_hand_it() {
    for w in 20..120usize {
        for h in 4..20usize {
            for line in draw(&surveyed(), w, h) {
                assert!(line.chars().count() <= w, "{w}x{h}: {line:?}");
            }
        }
    }
}

/// Live, a bar's height is its duty and its colour its peak power; at a
/// past moment, with no power kept, the duty colours it too.
#[test]
fn a_live_bar_is_coloured_by_its_power_and_a_past_one_by_its_duty() {
    let m = surveyed();
    let lines = NetOccupancyPanel.lines(&m, 83, false, ROWS);
    let inks: Vec<Ink> = lines
        .iter()
        .filter(|l| l.len() == 83)
        .map(|l| l[41].ink)
        .filter(|i| matches!(i, Ink::Palette(_)))
        .collect();
    assert!(!inks.is_empty());
    assert!(inks.iter().all(|i| *i == Ink::Palette(756)), "{inks:?}");

    let mut m = surveyed();
    let mut col = vec![-1i32; 83];
    col[41] = 950;
    m.net.band.history = vec![col];
    m.net.band.scrub = Some(0);
    let lines = NetOccupancyPanel.lines(&m, 83, false, ROWS);
    let inks: Vec<Ink> = lines
        .iter()
        .filter(|l| l.len() == 83)
        .map(|l| l[41].ink)
        .filter(|i| matches!(i, Ink::Palette(_)))
        .collect();
    assert!(!inks.is_empty());
    assert!(inks.iter().all(|i| *i == Ink::Palette(950)), "{inks:?}");
}
