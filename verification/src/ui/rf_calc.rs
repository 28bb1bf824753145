//! Gain-staging advice from the IQ amplitude histogram, shared by the
//! `rf_chain` lab panel and the `micro_gain` field view so the advice is
//! identical on both.
use vstd::prelude::*;

verus! {

/// The sum of the histogram's bins `lo..hi`.
pub open spec fn bins_sum(hist: Seq<u64>, lo: int, hi: int) -> nat
    decreases hi - lo,
{
    if hi <= lo { 0 } else { bins_sum(hist, lo, hi - 1) + hist[hi - 1] as nat }
}

/// The advice for a histogram: the words and the severity (0 OK, 1 warn,
/// 2 crit). More than a tenth of the samples in the top eight bins is
/// clipping; more than nine tenths in the bottom eight is weak, more than
/// seven tenths under-utilised. Percentages are whole, rounded down.
pub open spec fn advice(hist: Seq<u64>) -> (Seq<char>, u8) {
    let total = bins_sum(hist, 0, 32);
    let low = bins_sum(hist, 0, 8);
    let high = bins_sum(hist, 24, 32);
    if total == 0 {
        ("no signal — start RX"@, 0)
    } else if high * 100 / total > 10 {
        ("⬇ clipping — reduce gain"@, 2)
    } else if low * 100 / total > 90 {
        ("⬆ weak — increase LNA +8 dB"@, 1)
    } else if low * 100 / total > 70 {
        ("⬆ under-utilised — try +8 dB"@, 1)
    } else {
        ("✓ gain staging OK"@, 0)
    }
}

proof fn lemma_bins_sum_mono(hist: Seq<u64>, lo: int, a: int, b: int)
    requires
        lo <= a <= b,
    ensures
        bins_sum(hist, lo, a) <= bins_sum(hist, lo, b),
    decreases b - a,
{
    if b > a {
        lemma_bins_sum_mono(hist, lo, a, b - 1);
    }
}

proof fn lemma_bins_sum_split(hist: Seq<u64>, lo: int, mid: int, hi: int)
    requires
        lo <= mid <= hi,
    ensures
        bins_sum(hist, lo, hi) == bins_sum(hist, lo, mid) + bins_sum(hist, mid, hi),
    decreases hi - mid,
{
    if hi > mid {
        lemma_bins_sum_split(hist, lo, mid, hi - 1);
    }
}

/// The advice by the top and bottom eight bins, each bin named: more than
/// 10 % of all samples (whole percent, rounded down) in bins 24 to 31 is
/// clipping, severity 2, whatever the bottom holds; below that, more than
/// 90 % in bins 0 to 7 is weak and more than 70 % under-utilised, severity 1;
/// anything else is OK, and no samples at all is no signal, both severity 0.
pub proof fn lemma_gain_advice_by_bins(hist: Seq<u64>)
    requires
        hist.len() == 32,
    ensures
        ({
            let total = bins_sum(hist, 0, 32);
            let high = hist[24] as nat + hist[25] as nat + hist[26] as nat + hist[27] as nat
                + hist[28] as nat + hist[29] as nat + hist[30] as nat + hist[31] as nat;
            let low = hist[0] as nat + hist[1] as nat + hist[2] as nat + hist[3] as nat
                + hist[4] as nat + hist[5] as nat + hist[6] as nat + hist[7] as nat;
            &&& total == 0 ==> advice(hist) == ("no signal — start RX"@, 0u8)
            &&& total > 0 && high * 100 / total > 10 ==> advice(hist) == ("⬇ clipping — reduce gain"@, 2u8)
            &&& total > 0 && high * 100 / total <= 10 && low * 100 / total > 90
                ==> advice(hist) == ("⬆ weak — increase LNA +8 dB"@, 1u8)
            &&& total > 0 && high * 100 / total <= 10 && 70 < low * 100 / total <= 90
                ==> advice(hist) == ("⬆ under-utilised — try +8 dB"@, 1u8)
            &&& total > 0 && high * 100 / total <= 10 && low * 100 / total <= 70
                ==> advice(hist) == ("✓ gain staging OK"@, 0u8)
        }),
{
    reveal_with_fuel(bins_sum, 9);
}

/// Sums bins `lo..hi`.
fn sum_bins(hist: &[u64; 32], lo: usize, hi: usize) -> (s: u64)
    requires
        lo <= hi <= 32,
        bins_sum(hist@, lo as int, hi as int) <= u64::MAX,
    ensures
        s == bins_sum(hist@, lo as int, hi as int),
{
    let mut s: u64 = 0;
    let mut i = lo;
    while i < hi
        invariant
            lo <= i <= hi <= 32,
            s == bins_sum(hist@, lo as int, i as int),
            bins_sum(hist@, lo as int, hi as int) <= u64::MAX,
        decreases hi - i,
    {
        proof {
            lemma_bins_sum_mono(hist@, lo as int, (i + 1) as int, hi as int);
        }
        s = s + hist[i];
        i = i + 1;
    }
    s
}

/// Gain-staging advice from the IQ amplitude histogram.
/// Returns `(text, severity)` where severity: 0 = OK, 1 = warn, 2 = crit.
pub fn gain_advice(hist: &[u64; 32]) -> (r: (&'static str, u8))
    requires
        bins_sum(hist@, 0, 32) <= u64::MAX,
        bins_sum(hist@, 0, 8) * 100 <= u64::MAX,
        bins_sum(hist@, 24, 32) * 100 <= u64::MAX,
    ensures
        (r.0@, r.1) == advice(hist@),
{
    proof {
        lemma_bins_sum_split(hist@, 0, 8, 32);
        lemma_bins_sum_split(hist@, 0, 24, 32);
        lemma_bins_sum_mono(hist@, 0, 8, 32);
    }
    let total = sum_bins(hist, 0, 32);
    if total == 0 {
        return ("no signal — start RX", 0);
    }
    let low = sum_bins(hist, 0, 8);
    let high = sum_bins(hist, 24, 32);
    let low_pct = low * 100 / total;
    let high_pct = high * 100 / total;
    if high_pct > 10 {
        ("⬇ clipping — reduce gain", 2)
    } else if low_pct > 90 {
        ("⬆ weak — increase LNA +8 dB", 1)
    } else if low_pct > 70 {
        ("⬆ under-utilised — try +8 dB", 1)
    } else {
        ("✓ gain staging OK", 0)
    }
}

} // verus!
