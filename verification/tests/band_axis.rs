use sdrtop::band::CELLS;
use sdrtop::ui::panels::net::shared::band_axis::{cells_of, column_of, edges, ruler};
use sdrtop::ui::widgets::canvas::{band_of, band_range};

/// Every cell is drawn in a column that covers it, and every column covers
/// at least one cell, at every width a panel can have.
#[test]
fn a_cell_lands_in_a_column_that_covers_it() {
    for width in 1..200 {
        for cell in 0..CELLS {
            let x = column_of(cell, width);
            assert!(x < width, "{width}: cell {cell} at {x}");
            assert!(cells_of(x, width).contains(&cell), "{width}: {cell}");
        }
        for x in 0..width {
            assert!(!cells_of(x, width).is_empty(), "{width}: {x}");
        }
    }
}

/// The band's first and last cells sit at the two edges, whatever the width.
#[test]
fn the_edges_of_the_band_are_the_edges_of_the_row() {
    for width in [20, 83, 100, 160] {
        assert_eq!(column_of(0, width), 0);
        assert_eq!(column_of(CELLS - 1, width), width - 1);
    }
}

#[test]
fn the_edge_labels_sit_at_the_ends_of_the_row() {
    assert_eq!(edges(30), "2400 MHz              2483 MHz");
    assert_eq!(edges(30).chars().count(), 30);
    assert_eq!(edges(4), "2400 MHz2483 MHz");
}

#[test]
fn the_ruler_names_wifi_channels_under_their_centres() {
    let r = ruler(83);
    assert_eq!(r.chars().count(), 83);
    // Channel 1 is centred on 2412 MHz, cell 12; channel 6 on 2437, cell 37.
    assert_eq!(r.chars().nth(12), Some('1'));
    assert_eq!(&r[36..38], " 6");
    // Labels never tread on each other: channel 2 (cell 17) is written, and
    // the digits of 10 (cell 57, centred) stand apart from 9 (cell 52).
    assert!(r.contains(" 10 "), "{r:?}");
    // A ruler too narrow for every label keeps those that fit.
    assert!(ruler(20).split_whitespace().count() < 13);
}

/// **The inverse of the fold is the fold's own ranges, not a division.**
#[test]
fn a_cell_is_in_the_band_that_folds_it() {
    for bands in [6usize, 22, 40, 46, 83, 90] {
        for cell in 0..83usize {
            let band = band_of(cell, 83, bands);
            assert!(band < bands, "{bands} bands: cell {cell} -> {band}");
            assert!(band_range(83, bands, band).contains(&cell), "{bands}: {cell}");
        }
    }
    // Cell 41 of 83 into 22 bands lands in band 11, not the 10 a single
    // division guesses.
    assert_eq!(band_of(41, 83, 22), 11);
}
