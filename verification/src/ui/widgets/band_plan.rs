//! Known frequency allocations, for the spectrum and waterfall overlays.
use vstd::prelude::*;

verus! {

/// Known frequency allocations: (start_hz, end_hz, label), each a half-open
/// range `[start, end)`.
pub const BAND_PLAN: [(u64, u64, &'static str); 18] = [
    (50_000_000, 54_000_000, "6m"),
    (87_500_000, 108_000_000, "FM"),
    (108_000_000, 118_000_000, "VOR/ILS"),
    (118_000_000, 137_000_000, "AIR"),
    (144_000_000, 146_000_000, "2m"),
    (222_000_000, 225_000_000, "1.25m"),
    (430_000_000, 440_000_000, "70cm"),
    (433_050_000, 434_790_000, "ISM433"),
    (446_000_000, 446_200_000, "PMR"),
    (868_000_000, 869_000_000, "ISM868"),
    (902_000_000, 928_000_000, "33cm"),
    (1_227_600_000, 1_227_601_000, "GPS-L2"),
    (1_240_000_000, 1_300_000_000, "23cm"),
    (1_575_419_000, 1_575_421_000, "GPS-L1"),
    (1_710_000_000, 2_170_000_000, "CELL"),
    (2_400_000_000, 2_483_500_000, "2.4G"),
    (3_400_000_000, 3_475_000_000, "3.4G"),
    (5_650_000_000, 5_850_000_000, "5.8G"),
];

/// Whether allocation `i` contains `freq_hz`.
pub open spec fn covers(i: int, freq_hz: u64) -> bool {
    BAND_PLAN@[i].0 <= freq_hz < BAND_PLAN@[i].1
}

/// The width of allocation `i`, in hertz.
pub open spec fn span_of(i: int) -> int {
    BAND_PLAN@[i].1 - BAND_PLAN@[i].0
}

/// `i` is the allocation `band_at` names for `freq_hz`: it contains the
/// frequency, no containing allocation is narrower, and no earlier one is as
/// narrow (the first of equally narrow ones wins).
pub open spec fn is_narrowest(i: int, freq_hz: u64) -> bool {
    &&& 0 <= i < 18
    &&& covers(i, freq_hz)
    &&& forall|j: int| 0 <= j < 18 && covers(j, freq_hz) ==> span_of(i) <= span_of(j)
    &&& forall|j: int| 0 <= j < i && covers(j, freq_hz) ==> span_of(i) < span_of(j)
}

/// The index of the most specific (narrowest) allocation containing
/// `freq_hz`, if any.
pub fn band_index(freq_hz: u64) -> (r: Option<usize>)
    ensures
        match r {
            Some(i) => is_narrowest(i as int, freq_hz),
            None => forall|j: int| 0 <= j < 18 ==> !covers(j, freq_hz),
        },
{
    let mut best: Option<usize> = None;
    let mut i: usize = 0;
    while i < 18
        invariant
            i <= 18,
            match best {
                Some(b) => {
                    &&& b < i
                    &&& covers(b as int, freq_hz)
                    &&& forall|j: int| 0 <= j < i && covers(j, freq_hz) ==> span_of(b as int) <= span_of(j)
                    &&& forall|j: int| 0 <= j < b && covers(j, freq_hz) ==> span_of(b as int) < span_of(j)
                },
                None => forall|j: int| 0 <= j < i ==> !covers(j, freq_hz),
            },
        decreases 18 - i,
    {
        let (start, end, _) = BAND_PLAN[i];
        if freq_hz >= start && freq_hz < end {
            match best {
                None => {
                    best = Some(i);
                },
                Some(b) => {
                    let (bs, be, _) = BAND_PLAN[b];
                    if end - start < be - bs {
                        best = Some(i);
                    }
                },
            }
        }
        i = i + 1;
    }
    best
}

/// The most specific (narrowest) known band containing `freq_hz`, if any.
/// Narrower allocations win so e.g. ISM433 is reported over the wider 70cm.
pub fn band_at(freq_hz: u64) -> (r: Option<&'static str>)
    ensures
        match r {
            Some(name) => exists|i: int| is_narrowest(i, freq_hz) && name@ == BAND_PLAN@[i].2@,
            None => forall|j: int| 0 <= j < 18 ==> !covers(j, freq_hz),
        },
{
    match band_index(freq_hz) {
        Some(i) => Some(BAND_PLAN[i].2),
        None => None,
    }
}

/// **The narrowest allocation is unique**: two indices that both satisfy
/// `is_narrowest` for one frequency are the same index, so the name
/// `band_at` returns is determined by the frequency alone.
pub proof fn lemma_narrowest_is_unique(i: int, j: int, freq_hz: u64)
    requires
        is_narrowest(i, freq_hz),
        is_narrowest(j, freq_hz),
    ensures
        i == j,
{
}

} // verus!
