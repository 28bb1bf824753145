//! The time-frequency canvas's mapping of frequency cells onto bands of
//! columns: the single account of it, so the fold forwards and every inverse
//! cannot disagree.
use vstd::prelude::*;
use std::ops::Range;

verus! {

/// The first cell of band `band` when `cells` cells are folded into `bands`.
pub open spec fn band_lo(cells: nat, bands: nat, band: nat) -> nat {
    band * cells / (if bands > 0 { bands } else { 1 })
}

/// One past the last cell of band `band`: at least one cell, never past the
/// end.
pub open spec fn band_hi(cells: nat, bands: nat, band: nat) -> nat {
    let lo = band_lo(cells, bands, band);
    let next = (band + 1) * cells / (if bands > 0 { bands } else { 1 });
    let at_least = if next > lo + 1 { next } else { (lo + 1) as nat };
    if at_least < cells { at_least } else { cells }
}

/// The range of cells one band covers.
pub fn band_range(cells: usize, bands: usize, band: usize) -> (r: Range<usize>)
    requires
        band < usize::MAX,
        (band + 1) * cells <= usize::MAX,
    ensures
        r.start == band_lo(cells as nat, bands as nat, band as nat),
        r.end == band_hi(cells as nat, bands as nat, band as nat),
{
    let b = if bands > 0 { bands } else { 1 };
    assert(band * cells <= (band + 1) * cells) by (nonlinear_arith);
    let lo = band * cells / b;
    assert(lo < usize::MAX) by (nonlinear_arith)
        requires lo == band * cells / (b as int), b >= 1, (band + 1) * cells <= usize::MAX, band * cells <= (band + 1) * cells;
    let next = (band + 1) * cells / b;
    let at_least = if next > lo + 1 { next } else { lo + 1 };
    let hi = if at_least < cells { at_least } else { cells };
    lo..hi
}

/// Which band a cell falls in: the first whose range holds it, or the last
/// band when none does.
///
/// **Not `cell * bands / cells`.** The fold slices with two independent
/// floors, so the boundaries do not line up with a single division: cell 41
/// of 83 into 22 bands lands in band 11 and the guess says 10. Derived from
/// the same ranges instead.
pub fn band_of(cell: usize, cells: usize, bands: usize) -> (b: usize)
    requires
        bands * cells <= usize::MAX,
    ensures
        bands > 0 ==> b < bands,
        b < bands && band_lo(cells as nat, bands as nat, b as nat) <= cell < band_hi(cells as nat, bands as nat, b as nat)
            ==> forall|k: nat| #![trigger band_lo(cells as nat, bands as nat, k)] k < b ==> !(band_lo(cells as nat, bands as nat, k) <= cell < band_hi(cells as nat, bands as nat, k)),
        (exists|k: nat| #![trigger band_lo(cells as nat, bands as nat, k)] k < bands && band_lo(cells as nat, bands as nat, k) <= cell < band_hi(cells as nat, bands as nat, k))
            ==> band_lo(cells as nat, bands as nat, b as nat) <= cell < band_hi(cells as nat, bands as nat, b as nat),
        bands == 0 ==> b == 0,
{
    let mut k: usize = 0;
    while k < bands
        invariant
            k <= bands,
            bands * cells <= usize::MAX,
            forall|j: nat| #![trigger band_lo(cells as nat, bands as nat, j)] j < k ==> !(band_lo(cells as nat, bands as nat, j) <= cell < band_hi(cells as nat, bands as nat, j)),
        decreases bands - k,
    {
        assert((k + 1) * cells <= bands * cells) by (nonlinear_arith)
            requires k < bands;
        assert(k < usize::MAX);
        let r = band_range(cells, bands, k);
        if r.start <= cell && cell < r.end {
            return k;
        }
        k = k + 1;
    }
    if bands > 0 { bands - 1 } else { 0 }
}

} // verus!
