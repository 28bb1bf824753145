use sdrtop::rounding::{printed_u64, scaled_round_u64};

#[test]
fn a_printed_figure_is_the_doubles_quotient_rounded_to_even() {
    assert_eq!(printed_u64(1_000_500, 1_000_000, 1000), 1000);
    assert_eq!(printed_u64(2_000_500, 1_000_000, 1000), 2001);
    assert_eq!(printed_u64(1_250, 1000, 10), 12);
    assert_eq!(printed_u64(1_350, 1000, 10), 14);
    assert_eq!(printed_u64(0, 1000, 10), 0);
    assert_eq!(printed_u64(433_920_000, 1_000_000, 1000), 433_920);
}

#[test]
fn a_bar_share_rounds_as_its_double_falls() {
    // 61 / 112 * 7 * 8 is 30.5 exactly, but the double of 61 / 112 lies below it.
    assert_eq!(scaled_round_u64(61, 112, 7, 8), 30);
    assert_eq!(scaled_round_u64(112, 112, 7, 8), 56);
    assert_eq!(scaled_round_u64(0, 112, 7, 8), 0);
    assert_eq!(scaled_round_u64(1, 2, 1, 1), 1);
    assert_eq!(scaled_round_u64(1, 3, 24, 1), 8);
    assert_eq!(scaled_round_u64(u64::MAX, u64::MAX, 24, 1), 24);
}
