//! The census: one record per transmitter heard, and the order the table
//! shows them in.
//!
//! A record keeps what the packets from one address said: how many, how
//! many failed their CRC, the best SNR, when it was first and last heard,
//! and the measurements refined across its packets. The floating-point
//! measurements arrive as the application read them: a value in thousandths
//! to order by, and the text its reading cell prints.
use vstd::prelude::*;
use crate::text::{dec, owned, push_dec, push_str};

verus! {

/// A measurement refined across packets: its value in thousandths of its
/// unit, which the table orders by, and its reading as printed.
pub struct Measured {
    pub milli: i64,
    pub text: String,
}

/// A device's crystal error: in thousandths of a ppm to order by, and as
/// its reading prints in kHz and in ppm.
pub struct CrystalOffset {
    pub ppm_milli: i64,
    pub khz: String,
    pub ppm: String,
}

/// What the census knows of one address.
pub struct Device {
    /// Most significant octet first.
    pub address: [u8; 6],
    pub random: bool,
    /// Packets whose CRC passed.
    pub packets: u64,
    /// Packets whose CRC failed, credited to this address.
    pub crc_failed: u64,
    /// The best SNR any of its packets had, in tenths of a dB.
    pub best_snr_tenths: Option<i64>,
    /// Seconds since it was first heard.
    pub first_seen_secs: u64,
    /// Seconds since it was last heard.
    pub last_seen_secs: u64,
    pub crystal: Option<CrystalOffset>,
    pub mean_snr: Option<Measured>,
    pub modulation: Option<Measured>,
    /// One bit per advertising PDU type code its packets carried.
    pub pdu_types: u16,
    /// Who holds the address's block, as the registry names it, where the
    /// registry knows.
    pub holder: Option<String>,
}

/// Which device is picked, by address, and where the view starts.
pub struct CensusSelection {
    pub selected: Option<[u8; 6]>,
    pub first_visible: usize,
}

/// The census and how it is shown.
pub struct Census {
    pub devices: Vec<Device>,
    /// The column the table is ordered by.
    pub sort: usize,
    pub descending: bool,
    pub selection: CensusSelection,
}

/// An address as the number its octets spell.
pub open spec fn addr_value(a: [u8; 6]) -> nat {
    ((((a[0] as nat * 256 + a[1] as nat) * 256 + a[2] as nat) * 256 + a[3] as nat) * 256 + a[4] as nat) * 256
        + a[5] as nat
}

/// Below every value an `i64` can hold: where a missing measurement sorts.
pub open spec fn absent() -> int {
    -0x1_0000_0000_0000_0000_0000int
}

/// A measurement's value, or [`absent`] when there is none.
pub open spec fn or_absent(v: Option<i64>) -> int {
    match v {
        Some(x) => x as int,
        None => absent(),
    }
}

/// The set bits of the lowest `k` bits of `bits`.
pub open spec fn ones(bits: nat, k: nat) -> nat
    decreases k,
{
    if k == 0 { 0 } else { ones(bits / 2, (k - 1) as nat) + bits % 2 }
}

/// The number of PDU types a device's packets carried.
pub open spec fn type_count(d: Device) -> nat {
    ones(d.pdu_types as nat, 16)
}

/// The scale the CRC pass rate is ordered at: 2 to the 130th, above the
/// product of any two totals of `u64` counts, so that two different rates
/// never round to one key.
pub open spec fn crc_scale() -> int {
    0x4_0000_0000_0000_0000_0000_0000_0000_0000int
}

/// The CRC pass rate, passed over all credited, at [`crc_scale`] and
/// rounded down; `-1` for a record with no packets at all.
pub open spec fn crc_key(d: Device) -> int {
    let total = d.packets + d.crc_failed;
    if total == 0 { -1 } else { (d.packets * crc_scale()) / total as int }
}

/// Of two positive totals, the rate `p1 / t1` lower than `p2 / t2` keeps a
/// lower key at a scale above `t1 * t2`.
proof fn lemma_scaled_lt(p1: int, t1: int, p2: int, t2: int, sc: int)
    requires
        0 < t1,
        0 < t2,
        0 <= p1,
        0 <= p2,
        t1 * t2 < sc,
        p1 * t2 < p2 * t1,
    ensures
        (p1 * sc) / t1 < (p2 * sc) / t2,
{
    let a = p1 * sc;
    let b = p2 * sc;
    let q1 = a / t1;
    let q2 = b / t2;
    vstd::arithmetic::div_mod::lemma_fundamental_div_mod(a, t1);
    vstd::arithmetic::div_mod::lemma_fundamental_div_mod(b, t2);
    vstd::arithmetic::div_mod::lemma_mod_bound(a, t1);
    vstd::arithmetic::div_mod::lemma_mod_bound(b, t2);
    assert(q1 * t1 <= a);
    assert(b < (q2 + 1) * t2) by (nonlinear_arith)
        requires b == t2 * q2 + b % t2, b % t2 < t2;
    assert(p2 * t1 >= p1 * t2 + 1);
    assert(b * t1 >= a * t2 + sc) by (nonlinear_arith)
        requires a == p1 * sc, b == p2 * sc, p2 * t1 >= p1 * t2 + 1, sc > 0;
    if q2 <= q1 {
        assert((q2 + 1) * t2 <= (q1 + 1) * t2) by (nonlinear_arith)
            requires q2 <= q1, t2 > 0;
        assert(b * t1 < (q1 + 1) * t2 * t1) by (nonlinear_arith)
            requires b < (q1 + 1) * t2, t1 > 0;
        assert((q1 + 1) * t2 * t1 <= a * t2 + t1 * t2) by (nonlinear_arith)
            requires q1 * t1 <= a, t2 > 0;
    }
}

/// Of two positive totals, equal rates have equal keys at any scale.
proof fn lemma_scaled_eq(p1: int, t1: int, p2: int, t2: int, sc: int)
    requires
        0 < t1,
        0 < t2,
        0 <= p1,
        0 <= p2,
        0 <= sc,
        p1 * t2 == p2 * t1,
    ensures
        (p1 * sc) / t1 == (p2 * sc) / t2,
{
    vstd::arithmetic::div_mod::lemma_div_multiples_vanish_quotient(t2, p1 * sc, t1);
    vstd::arithmetic::div_mod::lemma_div_multiples_vanish_quotient(t1, p2 * sc, t2);
    assert(t2 * (p1 * sc) == t1 * (p2 * sc)) by (nonlinear_arith)
        requires p1 * t2 == p2 * t1;
    assert(t2 * t1 == t1 * t2) by (nonlinear_arith);
}

/// How two records' CRC keys compare: as their cross products of passed and
/// failed packets do, for records with packets; a record without any below
/// every other.
proof fn lemma_crc_key_order(a: Device, b: Device)
    ensures
        a.packets + a.crc_failed > 0 && b.packets + b.crc_failed > 0 ==> {
            &&& (crc_key(a) < crc_key(b)) == (a.packets * b.crc_failed < b.packets * a.crc_failed)
            &&& (crc_key(a) == crc_key(b)) == (a.packets * b.crc_failed == b.packets * a.crc_failed)
        },
        a.packets + a.crc_failed > 0 ==> crc_key(a) >= 0,
{
    let p1 = a.packets as int;
    let p2 = b.packets as int;
    let t1 = a.packets + a.crc_failed;
    let t2 = b.packets + b.crc_failed;
    if t1 > 0 {
        vstd::arithmetic::div_mod::lemma_div_pos_is_pos(p1 * crc_scale(), t1);
    }
    if t1 > 0 && t2 > 0 {
        assert(t1 * t2 < crc_scale()) by (nonlinear_arith)
            requires 0 < t1 < 0x2_0000_0000_0000_0000int, 0 < t2 < 0x2_0000_0000_0000_0000int;
        assert(p1 * t2 - p2 * t1 == a.packets * b.crc_failed - b.packets * a.crc_failed) by (nonlinear_arith)
            requires p1 == a.packets, p2 == b.packets, t1 == a.packets + a.crc_failed, t2 == b.packets + b.crc_failed;
        if p1 * t2 < p2 * t1 {
            lemma_scaled_lt(p1, t1, p2, t2, crc_scale());
        } else if p1 * t2 == p2 * t1 {
            lemma_scaled_eq(p1, t1, p2, t2, crc_scale());
        } else {
            lemma_scaled_lt(p2, t2, p1, t1, crc_scale());
        }
    }
}

/// What column `col` orders a device by.
pub open spec fn sort_key(d: Device, col: nat) -> int {
    if col == 0 {
        addr_value(d.address) as int
    } else if col == 1 {
        d.last_seen_secs as int
    } else if col == 2 {
        d.packets as int
    } else if col == 3 {
        or_absent(d.best_snr_tenths)
    } else if col == 4 {
        crc_key(d)
    } else if col == 5 {
        or_absent(match d.crystal { Some(c) => Some(c.ppm_milli), None => None })
    } else if col == 6 {
        or_absent(match d.mean_snr { Some(m) => Some(m.milli), None => None })
    } else if col == 7 {
        type_count(d) as int
    } else {
        or_absent(match d.modulation { Some(m) => Some(m.milli), None => None })
    }
}

/// Whether device `i` comes before device `j` in the table: by the sort
/// column, ascending or descending; where two devices tie, by address,
/// ascending; and where even that ties, in the order the census holds them.
pub open spec fn before(devs: Seq<Device>, i: int, j: int, col: nat, desc: bool) -> bool {
    let ki = sort_key(devs[i], col);
    let kj = sort_key(devs[j], col);
    let ai = addr_value(devs[i].address);
    let aj = addr_value(devs[j].address);
    if ki != kj {
        if desc { ki > kj } else { ki < kj }
    } else if ai != aj {
        ai < aj
    } else {
        i < j
    }
}

/// `before` orders any two devices one way round.
pub proof fn lemma_before_total(devs: Seq<Device>, i: int, j: int, col: nat, desc: bool)
    requires
        i != j,
    ensures
        before(devs, i, j, col, desc) != before(devs, j, i, col, desc),
{
}

/// `before` is transitive.
pub proof fn lemma_before_transitive(devs: Seq<Device>, i: int, j: int, k: int, col: nat, desc: bool)
    requires
        before(devs, i, j, col, desc),
        before(devs, j, k, col, desc),
    ensures
        before(devs, i, k, col, desc),
{
}

/// No index twice.
pub open spec fn distinct(s: Seq<usize>) -> bool {
    forall|a: int, b: int| 0 <= a < b < s.len() ==> s[a] != s[b]
}

/// The table's order: every device once, each before the ones after it.
pub open spec fn is_order(devs: Seq<Device>, out: Seq<usize>, col: nat, desc: bool) -> bool {
    &&& out.len() == devs.len()
    &&& forall|k: int| 0 <= k < out.len() ==> #[trigger] out[k] < devs.len()
    &&& distinct(out)
    &&& forall|a: int, b: int| 0 <= a < b < out.len() ==> before(devs, out[a] as int, out[b] as int, col, desc)
}

/// Ordered by the CRC column, the table goes by pass rate, passed packets
/// over all credited: of two devices with packets, the one whose rate is
/// strictly higher comes first going down and last going up.
pub proof fn lemma_crc_column_by_pass_rate(devs: Seq<Device>, out: Seq<usize>, desc: bool, a: int, b: int)
    requires
        is_order(devs, out, 4, desc),
        0 <= a < out.len(),
        0 <= b < out.len(),
        ({
            let x = devs[out[a] as int];
            let y = devs[out[b] as int];
            &&& x.packets + x.crc_failed > 0
            &&& y.packets + y.crc_failed > 0
            &&& x.packets * (y.packets + y.crc_failed) > y.packets * (x.packets + x.crc_failed)
        }),
    ensures
        desc ==> a < b,
        !desc ==> b < a,
{
    let x = devs[out[a] as int];
    let y = devs[out[b] as int];
    lemma_crc_key_order(x, y);
    assert(x.packets * (y.packets + y.crc_failed) - y.packets * (x.packets + x.crc_failed)
        == x.packets * y.crc_failed - y.packets * x.crc_failed) by (nonlinear_arith);
    assert(crc_key(x) > crc_key(y));
    if a == b {
        assert(x == y);
    } else if a < b {
        assert(before(devs, out[a] as int, out[b] as int, 4, desc));
    } else {
        assert(before(devs, out[b] as int, out[a] as int, 4, desc));
    }
}

/// An address as the number its octets spell.
fn addr_number(a: [u8; 6]) -> (n: u64)
    ensures
        n == addr_value(a),
{
    ((((a[0] as u64 * 256 + a[1] as u64) * 256 + a[2] as u64) * 256 + a[3] as u64) * 256 + a[4] as u64) * 256
        + a[5] as u64
}

/// The set bits of `bits`.
fn count_ones(bits: u16) -> (n: u64)
    ensures
        n == ones(bits as nat, 16),
{
    let mut rest: u16 = bits;
    let mut n: u64 = 0;
    let mut k: u64 = 16;
    while k > 0
        invariant
            k <= 16,
            n <= 16 - k,
            n + ones(rest as nat, k as nat) == ones(bits as nat, 16),
        decreases k,
    {
        n = n + (rest % 2) as u64;
        rest = rest / 2;
        k = k - 1;
    }
    n
}

/// What column `col` orders a device by, for every column but the CRC
/// pass rate, whose key [`crc_compare`] compares without computing it.
fn key_of(d: &Device, col: usize) -> (k: i128)
    requires
        col != 4,
    ensures
        k == sort_key(*d, col as nat),
{
    let absent: i128 = -0x1_0000_0000_0000_0000_0000;
    if col == 0 {
        addr_number(d.address) as i128
    } else if col == 1 {
        d.last_seen_secs as i128
    } else if col == 2 {
        d.packets as i128
    } else if col == 3 {
        match d.best_snr_tenths { Some(t) => t as i128, None => absent }
    } else if col == 5 {
        match &d.crystal { Some(c) => c.ppm_milli as i128, None => absent }
    } else if col == 6 {
        match &d.mean_snr { Some(m) => m.milli as i128, None => absent }
    } else if col == 7 {
        count_ones(d.pdu_types) as i128
    } else {
        match &d.modulation { Some(m) => m.milli as i128, None => absent }
    }
}

/// How two records' CRC pass rates compare: `-1`, `0` or `1` as the first
/// one's key is below, equal to or above the second's. The rates are
/// compared exactly, by the cross products of passed and failed packets.
fn crc_compare(a: &Device, b: &Device) -> (c: i8)
    ensures
        (c < 0) == (crc_key(*a) < crc_key(*b)),
        (c == 0) == (crc_key(*a) == crc_key(*b)),
        -1 <= c <= 1,
{
    proof {
        lemma_crc_key_order(*a, *b);
        lemma_crc_key_order(*b, *a);
    }
    let ta: u128 = a.packets as u128 + a.crc_failed as u128;
    let tb: u128 = b.packets as u128 + b.crc_failed as u128;
    if ta == 0 || tb == 0 {
        if ta == tb { 0 } else if ta == 0 { -1 } else { 1 }
    } else {
        assert(a.packets as int * b.crc_failed as int <= 0xffff_ffff_ffff_ffff * 0xffff_ffff_ffff_ffff)
            by (nonlinear_arith);
        assert(b.packets as int * a.crc_failed as int <= 0xffff_ffff_ffff_ffff * 0xffff_ffff_ffff_ffff)
            by (nonlinear_arith);
        let x: u128 = a.packets as u128 * b.crc_failed as u128;
        let y: u128 = b.packets as u128 * a.crc_failed as u128;
        if x < y { -1 } else if x == y { 0 } else { 1 }
    }
}

/// Whether device `i` comes before device `j` in the table.
fn comes_before(devs: &Vec<Device>, i: usize, j: usize, col: usize, desc: bool) -> (r: bool)
    requires
        i < devs@.len(),
        j < devs@.len(),
    ensures
        r == before(devs@, i as int, j as int, col as nat, desc),
{
    let c: i8 = if col == 4 {
        crc_compare(&devs[i], &devs[j])
    } else {
        let ki = key_of(&devs[i], col);
        let kj = key_of(&devs[j], col);
        if ki < kj { -1 } else if ki == kj { 0 } else { 1 }
    };
    if c != 0 {
        if desc { c > 0 } else { c < 0 }
    } else {
        let ai = addr_number(devs[i].address);
        let aj = addr_number(devs[j].address);
        if ai != aj { ai < aj } else { i < j }
    }
}

/// Where the first `k` places of `order` hold a device at address `a`,
/// the first of them.
pub open spec fn place_of(devs: Seq<Device>, order: Seq<usize>, a: [u8; 6], k: nat) -> Option<int>
    decreases k,
{
    if k == 0 {
        None
    } else {
        match place_of(devs, order, a, (k - 1) as nat) {
            Some(p) => Some(p),
            None => if devs[order[k - 1] as int].address == a { Some(k - 1) } else { None },
        }
    }
}

/// The row the cursor is on: the picked address's place in the order, or
/// nothing when nothing is picked or the picked device is gone.
pub open spec fn cursor_of(devs: Seq<Device>, order: Seq<usize>, selected: Option<[u8; 6]>) -> Option<int> {
    match selected {
        None => None,
        Some(a) => place_of(devs, order, a, order.len()),
    }
}

/// A found place stays the first place as more of the order is read.
pub proof fn lemma_place_stays(devs: Seq<Device>, order: Seq<usize>, a: [u8; 6], k: nat, m: nat)
    requires
        k <= m,
        place_of(devs, order, a, k) is Some,
    ensures
        place_of(devs, order, a, m) == place_of(devs, order, a, k),
    decreases m - k,
{
    if k < m {
        lemma_place_stays(devs, order, a, k, (m - 1) as nat);
    }
}

/// The mark follows its device: whatever order the table is in, the row the
/// cursor is on holds the device at the picked address, the first such row;
/// and there is no cursor only where no row holds it.
pub proof fn lemma_cursor_on_its_device(devs: Seq<Device>, order: Seq<usize>, a: [u8; 6])
    requires
        forall|k: int| 0 <= k < order.len() ==> #[trigger] order[k] < devs.len(),
    ensures
        match cursor_of(devs, order, Some(a)) {
            Some(p) => 0 <= p < order.len() && devs[order[p] as int].address == a
                && forall|q: int| 0 <= q < p ==> #[trigger] devs[order[q] as int].address != a,
            None => forall|k: int| 0 <= k < order.len() ==> #[trigger] devs[order[k] as int].address != a,
        },
{
    lemma_place_of(devs, order, a, order.len());
}

/// What `place_of` finds in the first `k` places.
proof fn lemma_place_of(devs: Seq<Device>, order: Seq<usize>, a: [u8; 6], k: nat)
    requires
        k <= order.len(),
    ensures
        match place_of(devs, order, a, k) {
            Some(p) => 0 <= p < k && devs[order[p] as int].address == a
                && forall|q: int| 0 <= q < p ==> #[trigger] devs[order[q] as int].address != a,
            None => forall|j: int| 0 <= j < k ==> #[trigger] devs[order[j] as int].address != a,
        },
    decreases k,
{
    if k > 0 {
        lemma_place_of(devs, order, a, (k - 1) as nat);
    }
}

/// The CRC pass rate as the table prints it: the percentage rounded down,
/// so one failure in a thousand never reads as a perfect link; a dash for a
/// record with no packets.
pub open spec fn crc_text(d: Device) -> Seq<char> {
    let total = (d.packets + d.crc_failed) as nat;
    if total == 0 { "-"@ } else { dec((d.packets * 100) as nat / total) + " %"@ }
}

/// `98 %`: the CRC pass rate, rounded down.
pub fn fmt_crc(d: &Device) -> (s: String)
    ensures
        s@ == crc_text(*d),
{
    let total: u128 = d.packets as u128 + d.crc_failed as u128;
    if total == 0 {
        return owned("-");
    }
    let hundred: u128 = d.packets as u128 * 100;
    let pct: u128 = hundred / total;
    assert(pct <= 100) by (nonlinear_arith)
        requires pct == hundred / total, hundred == d.packets * 100, d.packets <= total, total > 0;
    let mut s = String::new();
    push_dec(&mut s, pct as u64);
    push_str(&mut s, " %");
    s
}

/// The window "new addresses per minute" counts over: five minutes.
pub const TURNOVER_WINDOW_SECS: u64 = 300;

/// How many of the first `k` devices were first heard inside the window.
pub open spec fn recent(devs: Seq<Device>, k: nat) -> nat
    decreases k,
{
    if k == 0 {
        0
    } else {
        recent(devs, (k - 1) as nat) + if devs[k - 1].first_seen_secs < TURNOVER_WINDOW_SECS { 1nat } else { 0 }
    }
}

/// New addresses per minute over the last five minutes, in tenths: the
/// addresses first heard inside the window, over its five minutes.
pub open spec fn turnover_tenths(devs: Seq<Device>) -> nat {
    2 * recent(devs, devs.len())
}

/// How many devices were first heard inside the window.
pub fn recent_count(devs: &Vec<Device>) -> (t: u64)
    ensures
        t == recent(devs@, devs@.len()),
{
    let mut n: u64 = 0;
    let mut i: usize = 0;
    while i < devs.len()
        invariant
            i <= devs@.len(),
            n == recent(devs@, i as nat),
            n <= i,
        decreases devs@.len() - i,
    {
        if devs[i].first_seen_secs < TURNOVER_WINDOW_SECS {
            n = n + 1;
        }
        i = i + 1;
    }
    n
}

impl Census {
    /// The row the cursor is on, for the devices in `order`.
    pub fn cursor(&self, order: &Vec<usize>) -> (c: Option<usize>)
        requires
            forall|k: int| 0 <= k < order@.len() ==> #[trigger] order@[k] < self.devices@.len(),
        ensures
            match c {
                Some(p) => cursor_of(self.devices@, order@, self.selection.selected) == Some(p as int),
                None => cursor_of(self.devices@, order@, self.selection.selected) is None,
            },
            c matches Some(p) ==> p < order@.len(),
    {
        match self.selection.selected {
            None => None,
            Some(a) => {
                let mut k: usize = 0;
                while k < order.len()
                    invariant
                        k <= order@.len(),
                        self.selection.selected == Some(a),
                        forall|j: int| 0 <= j < order@.len() ==> #[trigger] order@[j] < self.devices@.len(),
                        place_of(self.devices@, order@, a, k as nat) is None,
                    decreases order@.len() - k,
                {
                    if crate::state::same_address(self.devices[order[k]].address, a) {
                        proof {
                            lemma_place_stays(self.devices@, order@, a, (k + 1) as nat, order@.len());
                        }
                        return Some(k);
                    }
                    k = k + 1;
                }
                None
            },
        }
    }

    /// The devices in the table's order, as indices into `devices`.
    pub fn ordered(&self) -> (out: Vec<usize>)
        ensures
            is_order(self.devices@, out@, self.sort as nat, self.descending),
    {
        let devs = &self.devices;
        let n = devs.len();
        let col = self.sort;
        let desc = self.descending;
        let mut rest: Vec<usize> = Vec::new();
        let mut i: usize = 0;
        while i < n
            invariant
                i <= n,
                n == devs@.len(),
                rest@.len() == i,
                forall|k: int| 0 <= k < i ==> #[trigger] rest@[k] == k,
            decreases n - i,
        {
            rest.push(i);
            i = i + 1;
        }
        let mut out: Vec<usize> = Vec::new();
        while rest.len() > 0
            invariant
                n == devs@.len(),
                out@.len() + rest@.len() == n,
                forall|k: int| 0 <= k < out@.len() ==> #[trigger] out@[k] < n,
                forall|k: int| 0 <= k < rest@.len() ==> #[trigger] rest@[k] < n,
                distinct(out@ + rest@),
                forall|a: int, b: int| 0 <= a < b < out@.len() ==>
                    before(devs@, out@[a] as int, out@[b] as int, col as nat, desc),
                forall|a: int, r: int| 0 <= a < out@.len() && 0 <= r < rest@.len() ==>
                    before(devs@, out@[a] as int, rest@[r] as int, col as nat, desc),
            decreases rest@.len(),
        {
            let mut best: usize = 0;
            let mut k: usize = 1;
            proof {
                assert((out@ + rest@)[out@.len() as int] == rest@[0]);
            }
            while k < rest.len()
                invariant
                    1 <= k <= rest@.len(),
                    best < k,
                    n == devs@.len(),
                    forall|m: int| 0 <= m < rest@.len() ==> #[trigger] rest@[m] < n,
                    distinct(out@ + rest@),
                    forall|m: int| 0 <= m < k && m != best ==>
                        before(devs@, rest@[best as int] as int, rest@[m] as int, col as nat, desc),
                decreases rest@.len() - k,
            {
                proof {
                    assert((out@ + rest@)[out@.len() + k] == rest@[k as int]);
                    assert((out@ + rest@)[out@.len() + best] == rest@[best as int]);
                    lemma_before_total(devs@, rest@[k as int] as int, rest@[best as int] as int, col as nat, desc);
                }
                if comes_before(devs, rest[k], rest[best], col, desc) {
                    proof {
                        assert forall|m: int| 0 <= m < k + 1 && m != k implies
                            before(devs@, rest@[k as int] as int, rest@[m] as int, col as nat, desc) by {
                            if m != best {
                                lemma_before_transitive(devs@, rest@[k as int] as int, rest@[best as int] as int,
                                    rest@[m] as int, col as nat, desc);
                            }
                        }
                    }
                    best = k;
                }
                k = k + 1;
            }
            let ghost old_out = out@;
            let ghost old_rest = rest@;
            let pick = rest.remove(best);
            out.push(pick);
            proof {
                let before_all = old_out + old_rest;
                let after_all = out@ + rest@;
                assert(after_all.len() == before_all.len());
                // Where each position of the new arrangement came from.
                let from = |p: int| if p < old_out.len() { p }
                    else if p == old_out.len() { old_out.len() + best }
                    else if p <= old_out.len() + best { p - 1 }
                    else { p };
                assert forall|p: int| 0 <= p < after_all.len() implies
                    after_all[p] == before_all[from(p)] by {
                    if p < old_out.len() {
                    } else if p == old_out.len() {
                    } else if p <= old_out.len() + best {
                        assert(rest@[p - old_out.len() - 1] == old_rest[p - old_out.len() - 1]);
                    } else {
                        assert(rest@[p - old_out.len() - 1] == old_rest[p - old_out.len()]);
                    }
                }
                assert forall|a: int, b: int| 0 <= a < b < after_all.len() implies after_all[a] != after_all[b] by {
                    assert(from(a) != from(b));
                    assert(0 <= from(a) < before_all.len());
                    assert(0 <= from(b) < before_all.len());
                    if from(a) < from(b) {
                        assert(before_all[from(a)] != before_all[from(b)]);
                    } else {
                        assert(before_all[from(b)] != before_all[from(a)]);
                    }
                }
                assert forall|m: int| 0 <= m < rest@.len() implies #[trigger] rest@[m] < n by {
                    if m < best {
                        assert(rest@[m] == old_rest[m]);
                    } else {
                        assert(rest@[m] == old_rest[m + 1]);
                    }
                }
                assert forall|a: int, b: int| 0 <= a < b < out@.len() implies
                    before(devs@, out@[a] as int, out@[b] as int, col as nat, desc) by {
                    if b == old_out.len() {
                        assert(out@[b] == old_rest[best as int]);
                    }
                }
                assert forall|a: int, r: int| 0 <= a < out@.len() && 0 <= r < rest@.len() implies
                    before(devs@, out@[a] as int, rest@[r] as int, col as nat, desc) by {
                    let orig = if r < best { r } else { r + 1 };
                    assert(rest@[r] == old_rest[orig]);
                    if a == old_out.len() {
                        assert(out@[a] == old_rest[best as int]);
                        assert(orig != best);
                    }
                }
            }
        }
        assert(out@ + rest@ =~= out@);
        out
    }
}

} // verus!
