use sdrtop::ui::chrome::{Piece, SELECTION_GUTTER};
use sdrtop::ui::widgets::table::{
    cell, columns_that_fit, grow_to_contents, header, row, viewport_start, widen, Align, Column,
    Sort,
};

const COLUMNS: &[Column] = &[
    Column { title: "ADDRESS", width: 17, align: Align::Left },
    Column { title: "SEEN", width: 6, align: Align::Right },
    Column { title: "PKTS", width: 6, align: Align::Right },
    Column { title: "RSSI", width: 8, align: Align::Right },
];

fn cells(a: &str, seen: &str, pkts: &str, rssi: &str) -> Vec<String> {
    vec![a.to_string(), seen.to_string(), pkts.to_string(), rssi.to_string()]
}

fn text(line: &[Piece]) -> String {
    line.iter().map(|p| p.text.as_str()).collect::<String>()
}

/// A column is dropped whole or drawn whole.
#[test]
fn a_column_that_does_not_fit_is_not_drawn_at_all() {
    // 1 (gutter) + 17 + 1 + 6 + 1 + 6 + 1 + 8 = 41 for the lot.
    assert_eq!(columns_that_fit(COLUMNS, 41), 4);
    assert_eq!(columns_that_fit(COLUMNS, 40), 3, "the last one does not fit");
    assert_eq!(columns_that_fit(COLUMNS, 32), 3);
    assert_eq!(columns_that_fit(COLUMNS, 31), 2);
    assert_eq!(columns_that_fit(COLUMNS, 18), 1);
    // Not even the first: better to draw nothing than a sliced address.
    assert_eq!(columns_that_fit(COLUMNS, 17), 0);
    assert_eq!(columns_that_fit(COLUMNS, 0), 0);
    // Extra width does not add a fifth column out of nowhere.
    assert_eq!(columns_that_fit(COLUMNS, 200), 4);
}

/// The viewport follows the cursor, by the least that works.
#[test]
fn the_view_scrolls_only_as_far_as_it_has_to() {
    // Ten rows in a window of four.
    assert_eq!(viewport_start(0, 0, 10, 4), 0);
    assert_eq!(viewport_start(0, 3, 10, 4), 0, "still on screen");
    assert_eq!(viewport_start(0, 4, 10, 4), 1, "one row, not a page");
    assert_eq!(viewport_start(0, 9, 10, 4), 6, "the end of the list");
    // Back up, and it follows the other way.
    assert_eq!(viewport_start(6, 6, 10, 4), 6);
    assert_eq!(viewport_start(6, 5, 10, 4), 5);
    // A window taller than the list never scrolls.
    assert_eq!(viewport_start(0, 9, 10, 20), 0);
    assert_eq!(viewport_start(3, 0, 10, 20), 0, "and it comes back to the top");
    // Degenerate: no height, no rows.
    assert_eq!(viewport_start(0, 0, 0, 4), 0);
    assert_eq!(viewport_start(0, 5, 10, 0), 0);
}

/// A reading wider than its column widens the column instead of losing its
/// unit, and a column that then no longer fits drops whole.
#[test]
fn a_wide_reading_grows_its_column_and_is_never_cut() {
    let rows = vec![
        cells("aa:bb", "2 s", "10", "-10.21 ±0.26 kHz"),
        cells("cc:dd", "3 s", "4", "-3 dB"),
    ];
    let grown = grow_to_contents(COLUMNS, &rows, &[0]);
    assert_eq!(grown[3].width, "-10.21 ±0.26 kHz".chars().count());
    assert_eq!(grown[0].width, 17, "a skipped column keeps its width");
    assert_eq!(grown[1].width, 6, "a narrower cell never shrinks one");
    let wide = SELECTION_GUTTER + 17 + 6 + 6 + 16 + 3;
    let line = row(&grown, columns_that_fit(&grown, wide), &rows[0], false);
    assert!(text(&line).ends_with("-10.21 ±0.26 kHz"), "{}", text(&line));
    assert_eq!(columns_that_fit(&grown, wide - 1), 3);
}

/// Numbers right, names left, and every row the same width so a column can
/// be read down.
#[test]
fn the_columns_line_up_at_every_width() {
    for width in 17..60usize {
        let fit = columns_that_fit(COLUMNS, width);
        let a = row(COLUMNS, fit, &cells("a4:83:e7:1c:09:be", "2 s", "1204", "-41.2"), false);
        let b = row(COLUMNS, fit, &cells("f0:18:98:00:11:22", "41 s", "7", "-88.0"), false);
        let h = header(COLUMNS, fit, Sort { column: 2, descending: true });
        let (ta, tb, th) = (text(&a), text(&b), text(&h));
        assert_eq!(ta.chars().count(), tb.chars().count(), "width {width}");
        assert_eq!(ta.chars().count(), th.chars().count(), "width {width}");
        assert!(ta.chars().count() <= width, "width {width}: {ta:?}");
        if fit >= 3 {
            assert_eq!(
                ta.find("1204").map(|i| i + 4),
                tb.find('7').map(|i| i + 1),
                "width {width}\n{ta}\n{tb}"
            );
        }
    }
}

/// The sort marker is on the column that orders the table, and on no other.
#[test]
fn the_header_marks_the_column_that_orders_it() {
    let down = text(&header(COLUMNS, 4, Sort { column: 2, descending: true }));
    assert!(down.contains("PKTS\u{25be}"), "{down}");
    assert_eq!(down.matches('\u{25be}').count(), 1, "{down}");
    assert!(!down.contains('\u{25b4}'), "{down}");
    let up = text(&header(COLUMNS, 4, Sort { column: 0, descending: false }));
    assert!(up.contains("ADDRESS\u{25b4}"), "{up}");
    let hidden = text(&header(COLUMNS, 2, Sort { column: 3, descending: true }));
    assert!(!hidden.contains('\u{25be}'), "{hidden}");
}

/// The cursor is visible, and it is the row it is on.
#[test]
fn the_selected_row_is_the_one_that_is_marked() {
    let plain = row(COLUMNS, 4, &cells("a4:83:e7:1c:09:be", "2 s", "12", "-41.2"), false);
    let picked = row(COLUMNS, 4, &cells("a4:83:e7:1c:09:be", "2 s", "12", "-41.2"), true);
    let (tp, tk) = (text(&plain), text(&picked));
    assert_eq!(tp.chars().count(), tk.chars().count(), "the cursor must not move the columns");
    let column = |t: &str| t.find("a4:83").map(|b| t[..b].chars().count());
    assert_eq!(column(&tp), column(&tk));
    assert!(tk.starts_with('\u{258c}'), "the gutter marks it: {tk:?}");
    assert!(tp.starts_with(' '), "and marks nothing else: {tp:?}");
    assert!(picked.iter().any(|p| p.bold), "the selected row reads brighter");
    assert!(!plain.iter().any(|p| p.bold));
}

/// The header's titles sit over their columns, gutter included.
#[test]
fn the_header_keeps_the_gutter_so_titles_sit_over_their_columns() {
    let h = text(&header(COLUMNS, 4, Sort { column: 0, descending: false }));
    let r = text(&row(COLUMNS, 4, &cells("a4:83:e7:1c:09:be", "2 s", "12", "-41.2"), false));
    assert_eq!(h.find("ADDRESS"), r.find("a4:83"), "{h:?}\n{r:?}");
}

#[test]
fn a_cell_too_long_for_its_column_is_cut_and_a_short_one_padded() {
    let c = Column { title: "X", width: 4, align: Align::Right };
    assert_eq!(cell("abcdef", &c), "abcd");
    assert_eq!(cell("ab", &c), "  ab");
    let l = Column { title: "X", width: 4, align: Align::Left };
    assert_eq!(cell("ab", &l), "ab  ");
}

#[test]
fn widening_takes_only_what_is_spare_and_what_is_asked() {
    // 41 columns are needed at the narrowest; 50 leaves 9 spare.
    let wide = widen(COLUMNS, 50, 0, 40);
    assert_eq!(wide[0].width, 17 + 9);
    let asked = widen(COLUMNS, 50, 0, 20);
    assert_eq!(asked[0].width, 20);
    let narrow = widen(COLUMNS, 30, 0, 40);
    assert_eq!(narrow[0].width, 17, "never narrower than declared");
    assert_eq!(widen(COLUMNS, 50, 9, 40).len(), 4);
}
