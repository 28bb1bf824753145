use sdrtop::ui::rf_calc::gain_advice;

#[test]
fn gain_advice_clipping_is_crit() {
    let mut hist = [0u64; 32];
    hist[24] = 20;
    hist[0] = 80; // >10% in high bins
    let (_, sev) = gain_advice(&hist);
    assert_eq!(sev, 2);
}

#[test]
fn gain_advice_weak_is_warn() {
    let mut hist = [0u64; 32];
    hist[0] = 95;
    hist[8] = 5; // >90% in low bins
    let (_, sev) = gain_advice(&hist);
    assert_eq!(sev, 1);
}

#[test]
fn gain_advice_ok_is_zero() {
    let mut hist = [0u64; 32];
    hist[8] = 50;
    hist[16] = 50; // mid-range utilisation
    let (_, sev) = gain_advice(&hist);
    assert_eq!(sev, 0);
}

#[test]
fn gain_advice_words_for_each_case() {
    assert_eq!(gain_advice(&[0u64; 32]), ("no signal — start RX", 0));
    let mut hist = [0u64; 32];
    hist[0] = 80;
    hist[16] = 20; // 80% low: under-utilised, not weak
    assert_eq!(gain_advice(&hist), ("⬆ under-utilised — try +8 dB", 1));
    let mut edge = [0u64; 32];
    edge[31] = 10;
    edge[16] = 90; // exactly 10% high is not clipping
    assert_eq!(gain_advice(&edge).1, 0);
}
