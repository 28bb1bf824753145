//! What the NET panels read: the decoders' feeds and refusals, the views the
//! keys move, and the readings the application has already measured.
//!
//! Where a reading is a floating-point measurement with its uncertainty,
//! the application formats it and this state holds the text it prints; the
//! panels decide where it goes, and when it is refused instead.
use vstd::prelude::*;
use crate::ble::PduType;
use crate::census::{Census, CensusSelection};
use crate::text::owned;

verus! {

/// How the NET section listens: surveying the three advertising channels
/// in turn, or locked to one.
#[derive(Clone, Copy, PartialEq, Eq, Structural, Debug)]
pub enum NetMode {
    Survey,
    Lock,
}

/// The tag a mode puts on every NET frame.
pub open spec fn mode_tag(m: NetMode) -> Seq<char> {
    match m {
        NetMode::Survey => "SURVEY"@,
        NetMode::Lock => "LOCK"@,
    }
}

impl NetMode {
    /// `SURVEY` or `LOCK`: the tag the mode puts on every NET frame.
    pub fn tag(&self) -> (s: String)
        ensures
            s@ == mode_tag(*self),
    {
        match self {
            NetMode::Survey => owned("SURVEY"),
            NetMode::Lock => owned("LOCK"),
        }
    }
}

/// A packet's modulation quality, each row as the limit widget draws it
/// after its label: the reading, where it sits against its limit, and by
/// how much.
#[derive(Clone)]
pub struct Quality {
    pub index: String,
    pub df1: String,
    pub df2: String,
    pub ratio: String,
}

/// A packet's frequency drift across its burst: the two limit rows after
/// their labels, and the offsets at the burst's two ends as reading cells.
#[derive(Clone)]
pub struct Drift {
    pub drift: String,
    pub rate: String,
    pub start: String,
    pub end: String,
}

/// The transmitter's crystal error from a packet's frequency offset, in
/// kHz and in ppm, each as its reading cell prints it.
#[derive(Clone)]
pub struct Offset {
    pub khz: String,
    pub ppm: String,
}

/// One decoded advertising channel PDU.
#[derive(Clone)]
pub struct BlePacket {
    /// Its place in arrival order, counted from one.
    pub seq: u64,
    pub channel: u8,
    pub pdu_type: PduType,
    pub tx_add_random: bool,
    pub rx_add_random: bool,
    pub ch_sel: bool,
    /// The PDU's payload as the air carried it.
    pub payload: Vec<u8>,
    /// The header's length field.
    pub length: u8,
    /// The advertiser's address, most significant octet first, on the
    /// types that carry one.
    pub adv_addr: Option<[u8; 6]>,
    pub crc_ok: bool,
    /// The signal-to-noise ratio in tenths of a dB, where it was measured.
    pub snr_tenths: Option<i64>,
    pub offset: Option<Offset>,
    pub modulation: Option<Quality>,
    pub drift: Option<Drift>,
    /// Seconds since it arrived.
    pub age_secs: u64,
}

/// Which row of a list is picked, and where its view starts.
pub struct Selection {
    /// The picked packet's `seq`, or nothing.
    pub selected: Option<u64>,
    pub first_visible: usize,
}

/// What the packet list's keys have set: the pick, the filter to one
/// address, and the list held still.
pub struct BleView {
    pub selection: Selection,
    pub filter: Option<[u8; 6]>,
    /// The list as it stood when held, and how many packets had been heard
    /// then.
    pub held: Option<(Vec<BlePacket>, u64)>,
}

/// How the sample feed has fared: what arrived, what did not, and what the
/// decoders made of it.
pub struct FeedHealth {
    /// Times the BLE decoder's trigger fired this session.
    pub ble_triggered: u64,
    /// Seconds since the feed last dropped blocks, if it ever has.
    pub last_loss_secs: Option<u64>,
    /// Driver blocks received this session.
    pub blocks_in: u64,
    /// I/Q pairs received this session.
    pub pairs_in: u64,
    /// Blocks since the last break in the run.
    pub run_blocks: u64,
    /// Runs broken this session.
    pub gaps: u64,
    /// Blocks lost: a floor, one for each loss the driver reported.
    pub blocks_lost: u64,
    /// Blocks the bounded feed refused this session.
    pub refused_session: u64,
    /// Blocks it refused in the last window.
    pub refused: u64,
    /// The deepest the feed's queue went in the last window.
    pub peak_depth: u64,
    /// BLE triggers that ended as a packet whose CRC passed.
    pub ble_decoded: u64,
    /// BLE triggers that ended as a packet whose CRC failed.
    pub ble_crc_failed: u64,
    /// BLE triggers nothing could be decoded from.
    pub ble_gave_up: u64,
    /// Classic Bluetooth access-code hits this session.
    pub bt_hits: u64,
    /// What decoding costs, in thousandths of the stream's own pace, once
    /// measured: above a thousand the worker is falling behind.
    pub decode_load_milli: Option<u64>,
}

/// One megahertz cell's latest reading.
pub struct CellReading {
    /// The measurement windows taken in it; none means nobody looked.
    pub windows: u64,
    /// Its duty cycle, in thousandths.
    pub duty_milli: u32,
    /// Its peak power as a shade on the colour ramp, in thousandths: the
    /// ramp's foot at -90 dBFS, its top at 0 dBFS.
    pub level_milli: u32,
    /// The share of the time the receiver was watching it, in thousandths,
    /// once it has been measured more than once.
    pub coverage_milli: Option<u32>,
    /// The duty cycle with the spread its window count supports, as the
    /// reading widget prints it: `95.0 ±0.2 % busy`.
    pub busy: String,
    /// Its power: `-32.0 peak, -70.0 mean dBFS`.
    pub power: String,
    /// Seconds since it was last measured, where it has been.
    pub measured_secs: Option<u64>,
}

/// The band survey: each megahertz cell's latest reading, the floor they are
/// measured against, and what each cell's duty cycle was, one column per
/// moment, the oldest first.
pub struct BandState {
    /// The latest reading of each cell, the lowest frequency first; empty
    /// before the first measurement.
    pub cells: Vec<CellReading>,
    /// The noise floor as its reading prints it, where there is one.
    pub noise: Option<String>,
    /// Whether the floor passed its own preconditions.
    pub trusted: bool,
    /// The floor's checks against their limits, as printed when it fails:
    /// `tail 3.90 (max 2.41)   spread 40.2 (min 12.0)`.
    pub floor_check: String,
    /// One measurement window, in nanoseconds.
    pub window_ns: u64,
    /// Milliseconds the coverage has been gathered over, where it has.
    pub watch_ms: Option<u64>,
    /// The cell the cursor is on.
    pub cursor: Option<usize>,
    /// How many history columns back the profile shows, where it shows a
    /// past moment.
    pub scrub: Option<usize>,
    /// Each moment's cells, their duty cycles in thousandths; negative where
    /// nobody looked.
    pub history: Vec<Vec<i32>>,
}

/// How far apart the history's columns are, in milliseconds.
pub const COLUMN_INTERVAL_MS: u64 = 500;

/// Classic Bluetooth channels, 0 to 78.
pub const BT_CHANNELS: usize = 79;

/// How many access-code hits the session keeps, newest first: older ones
/// are dropped as new ones come.
pub const BT_HOP_LIMIT: usize = 1000;

/// One classic Bluetooth access-code hit.
pub struct BtHop {
    pub channel: u8,
    /// The lower address part the access code carries.
    pub lap: u32,
    /// Milliseconds since it was heard.
    pub age_ms: u64,
}

/// The BR modulation rows of a piconet's headers, each as the limit widget
/// draws it after its label.
pub struct BrModulation {
    pub index: String,
    pub df1: String,
    /// The `df2/df1` row, once two alternating runs are in.
    pub ratio: Option<String>,
}

/// What a piconet's packet headers have shown.
pub struct BtHeaders {
    /// Headers captured after a hit on this LAP.
    pub captured: u32,
    /// Of those, the ones that decoded under the resolved UAP.
    pub decoded: u32,
    /// And the ones that did not.
    pub undecoded: u32,
    /// Decoded headers of each packet type code, 0 to 15.
    pub types: [u32; 16],
    /// Bit `a` set when LT_ADDR `a` was seen.
    pub lt_addrs: u8,
    /// The CLK1-6 hypotheses left of 64, or 0 before the hunt starts.
    pub clock_hypotheses: u8,
    /// Settled and alternating symbol runs measured for the deviation.
    pub settled_runs: u64,
    pub alternating_runs: u64,
    /// The modulation rows, once two settled runs are in.
    pub modulation: Option<BrModulation>,
}

/// A piconet's slot grid, fitted to its hits' times.
pub struct SlotFit {
    pub hits: u64,
    /// Milliseconds between the first and the last hit fitted.
    pub span_ms: u64,
    /// The largest residual's limit row, after its label.
    pub jitter: String,
    /// The residuals' root mean square, as its reading prints it.
    pub rms: String,
    /// Each hit's offset from the grid, in nanoseconds.
    pub residuals_ns: Vec<i64>,
}

/// Where a piconet's slot timing stands.
pub enum SlotTiming {
    /// No hit timed yet.
    Untimed,
    /// Too few hits to fit a grid.
    Collecting { have: u64, need: u64 },
    /// The hits line up on no 625 us grid beyond chance.
    NoGrid { hits: u64 },
    Fit(SlotFit),
}

/// One piconet heard: the hits on its LAP, where and when.
pub struct Piconet {
    pub lap: u32,
    pub hits: u64,
    /// Milliseconds since it was first heard, and since it was last heard.
    pub first_seen_ms: u64,
    pub last_seen_ms: u64,
    /// Hits on each channel.
    pub per_channel: [u32; 79],
    pub headers: BtHeaders,
    pub slots: SlotTiming,
}

/// The UAP values the headers heard on one LAP leave.
pub struct UapEntry {
    pub lap: u32,
    pub candidates: Vec<u8>,
}

/// Whether entry `i` is the first of `table` for `lap`.
pub open spec fn first_entry(table: Seq<UapEntry>, lap: u32, i: int) -> bool {
    &&& 0 <= i < table.len()
    &&& table[i].lap == lap
    &&& forall|j: int| 0 <= j < i ==> #[trigger] table[j].lap != lap
}

/// The UAP values left for `lap`: its entry's candidates, none where no
/// header of it has been decoded.
pub open spec fn uaps_of(table: Seq<UapEntry>, lap: u32) -> Seq<u8> {
    if exists|i: int| first_entry(table, lap, i) {
        table[choose|i: int| first_entry(table, lap, i)].candidates@
    } else {
        seq![]
    }
}

/// Where `lap`'s entry is in `table`, if it has one.
pub fn uap_index(table: &Vec<UapEntry>, lap: u32) -> (r: Option<usize>)
    ensures
        match r {
            Some(i) => first_entry(table@, lap, i as int) && uaps_of(table@, lap) == table@[i as int].candidates@,
            None => uaps_of(table@, lap) == Seq::<u8>::empty(),
        },
{
    let mut i: usize = 0;
    while i < table.len()
        invariant
            i <= table@.len(),
            forall|j: int| 0 <= j < i ==> #[trigger] table@[j].lap != lap,
        decreases table@.len() - i,
    {
        if table[i].lap == lap {
            proof {
                assert(first_entry(table@, lap, i as int));
                let c = choose|c: int| first_entry(table@, lap, c);
                assert(first_entry(table@, lap, c));
                if c < i {
                    assert(table@[c].lap != lap);
                }
                if c > i {
                    assert(table@[i as int].lap != lap);
                }
            }
            return Some(i);
        }
        i = i + 1;
    }
    proof {
        if exists|c: int| first_entry(table@, lap, c) {
            let c = choose|c: int| first_entry(table@, lap, c);
            assert(table@[c].lap != lap);
        }
    }
    None
}

/// The UAP values left for `lap`, as a list of its own.
pub fn uaps_for(table: &Vec<UapEntry>, lap: u32) -> (v: Vec<u8>)
    ensures
        v@ == uaps_of(table@, lap),
{
    let mut v: Vec<u8> = Vec::new();
    match uap_index(table, lap) {
        Some(i) => {
            let c = &table[i].candidates;
            let mut k: usize = 0;
            while k < c.len()
                invariant
                    k <= c@.len(),
                    v@ == c@.subrange(0, k as int),
                decreases c@.len() - k,
            {
                v.push(c[k]);
                k = k + 1;
                assert(v@ =~= c@.subrange(0, k as int));
            }
            assert(c@.subrange(0, c@.len() as int) =~= c@);
        },
        None => {
            assert(v@ =~= Seq::<u8>::empty());
        },
    }
    v
}

/// The stretch of the past the hop lanes show: `span_ms` long, ending
/// `back_ms` before now.
pub struct HopView {
    pub span_ms: u64,
    pub back_ms: u64,
}

/// Which piconet is picked, by LAP, and where the roster's view starts.
pub struct BtView {
    pub selected: Option<u32>,
    pub first_visible: usize,
}

/// The NET section's state.
pub struct NetState {
    pub mode: NetMode,
    /// Why BLE is not being decoded, when it is not.
    pub ble_refused: Option<String>,
    /// Why classic Bluetooth is not being decoded, when it is not.
    pub bt_refused: Option<String>,
    /// Why the band survey cannot run, when it cannot.
    pub survey_refused: Option<String>,
    /// The packets decoded, newest first.
    pub ble_packets: Vec<BlePacket>,
    /// Packets heard this session.
    pub ble_heard: u64,
    pub ble_view: BleView,
    /// The advertising channel the decoder sits on, when it has one.
    pub ble_channel: Option<u8>,
    /// Packets on each advertising channel, 37 to 39, this session.
    pub ble_channel_packets: [u64; 3],
    /// Of those, the ones whose CRC passed.
    pub ble_channel_crc_ok: [u64; 3],
    /// Each advertising channel's CRC pass rate as its reading prints it,
    /// where the application has one to give.
    pub ble_channel_rate: [Option<String>; 3],
    pub census: Census,
    pub health: FeedHealth,
    pub band: BandState,
    /// The classic channels the receiver watches now.
    pub bt_channels_watched: Vec<u8>,
    /// The piconets heard, in the order first heard.
    pub bt_piconets: Vec<Piconet>,
    /// The UAP values left for each LAP a header has been decoded on, one
    /// entry per LAP.
    pub bt_uap: Vec<UapEntry>,
    /// The hits kept, newest first.
    pub bt_hops: Vec<BtHop>,
    pub hop_view: HopView,
    pub bt_view: BtView,
    /// What the crystal offsets are measured against.
    pub offset_basis: OffsetBasis,
}

/// What the crystal offsets are a difference from.
pub enum OffsetBasis {
    /// Our own oscillator: no reference has been taken.
    Unreferenced,
    /// Our own oscillator: the reference taken has expired.
    Expired,
    /// The reference named, which the offsets are corrected against.
    Against(String),
}

/// Everything the panels read.
pub struct SdrMetrics {
    /// Whether samples are flowing.
    pub streaming: bool,
    pub net: NetState,
}

/// The list the packet panels show from: the held one while the list is
/// held, the live feed otherwise.
pub open spec fn source(n: NetState) -> Seq<BlePacket> {
    match n.ble_view.held {
        Some((list, _)) => list@,
        None => n.ble_packets@,
    }
}

/// Whether a packet passes the filter: every packet when there is none,
/// only the filtered address's when there is.
pub open spec fn passes(p: BlePacket, filter: Option<[u8; 6]>) -> bool {
    match filter {
        None => true,
        Some(a) => p.adv_addr == Some(a),
    }
}

/// The first `k` packets of `src` that pass the filter, in order.
pub open spec fn passing(src: Seq<BlePacket>, filter: Option<[u8; 6]>, k: nat) -> Seq<BlePacket>
    decreases k,
{
    if k == 0 {
        seq![]
    } else if passes(src[k - 1], filter) {
        passing(src, filter, (k - 1) as nat).push(src[k - 1])
    } else {
        passing(src, filter, (k - 1) as nat)
    }
}

/// The packets the list shows, newest first: the held list or the live
/// one, through the filter.
pub open spec fn shown(n: NetState) -> Seq<BlePacket> {
    passing(source(n), n.ble_view.filter, source(n).len())
}

/// Nothing decoded, nothing refused, nothing picked, surveying.
pub open spec fn is_quiet(n: NetState) -> bool {
    &&& n.mode == NetMode::Survey
    &&& n.ble_refused is None
    &&& n.bt_refused is None
    &&& n.survey_refused is None
    &&& n.ble_packets@.len() == 0
    &&& n.ble_heard == 0
    &&& n.ble_view.selection.selected is None
    &&& n.ble_view.selection.first_visible == 0
    &&& n.ble_view.filter is None
    &&& n.ble_view.held is None
    &&& n.ble_channel is None
    &&& n.ble_channel_packets@ == seq![0u64, 0, 0]
    &&& n.ble_channel_crc_ok@ == seq![0u64, 0, 0]
    &&& n.ble_channel_rate[0] is None
    &&& n.ble_channel_rate[1] is None
    &&& n.ble_channel_rate[2] is None
    &&& n.census.devices@.len() == 0
    &&& n.census.sort == 0
    &&& !n.census.descending
    &&& n.census.selection.selected is None
    &&& n.census.selection.first_visible == 0
    &&& n.health.ble_triggered == 0
    &&& n.health.last_loss_secs is None
    &&& n.health.blocks_in == 0
    &&& n.health.pairs_in == 0
    &&& n.health.run_blocks == 0
    &&& n.health.gaps == 0
    &&& n.health.blocks_lost == 0
    &&& n.health.refused_session == 0
    &&& n.health.refused == 0
    &&& n.health.peak_depth == 0
    &&& n.health.ble_decoded == 0
    &&& n.health.ble_crc_failed == 0
    &&& n.health.ble_gave_up == 0
    &&& n.health.bt_hits == 0
    &&& n.health.decode_load_milli is None
    &&& n.band.history@.len() == 0
    &&& n.band.cells@.len() == 0
    &&& n.band.noise is None
    &&& n.band.cursor is None
    &&& n.band.scrub is None
    &&& n.bt_channels_watched@.len() == 0
    &&& n.bt_piconets@.len() == 0
    &&& n.bt_uap@.len() == 0
    &&& n.bt_hops@.len() == 0
    &&& n.hop_view.span_ms == 20_000
    &&& n.hop_view.back_ms == 0
    &&& n.bt_view.selected is None
    &&& n.bt_view.first_visible == 0
    &&& n.offset_basis is Unreferenced
}

impl NetState {
    /// Nothing decoded, nothing refused, nothing picked, surveying.
    pub fn new() -> (n: NetState)
        ensures
            is_quiet(n),
    {
        let n = NetState {
            mode: NetMode::Survey,
            ble_refused: None,
            bt_refused: None,
            survey_refused: None,
            ble_packets: Vec::new(),
            ble_heard: 0,
            ble_view: BleView {
                selection: Selection { selected: None, first_visible: 0 },
                filter: None,
                held: None,
            },
            ble_channel: None,
            ble_channel_packets: [0, 0, 0],
            ble_channel_crc_ok: [0, 0, 0],
            ble_channel_rate: [None, None, None],
            census: Census {
                devices: Vec::new(),
                sort: 0,
                descending: false,
                selection: CensusSelection { selected: None, first_visible: 0 },
            },
            health: FeedHealth {
                ble_triggered: 0,
                last_loss_secs: None,
                blocks_in: 0,
                pairs_in: 0,
                run_blocks: 0,
                gaps: 0,
                blocks_lost: 0,
                refused_session: 0,
                refused: 0,
                peak_depth: 0,
                ble_decoded: 0,
                ble_crc_failed: 0,
                ble_gave_up: 0,
                bt_hits: 0,
                decode_load_milli: None,
            },
            band: BandState {
                cells: Vec::new(),
                noise: None,
                trusted: true,
                floor_check: String::new(),
                window_ns: 0,
                watch_ms: None,
                cursor: None,
                scrub: None,
                history: Vec::new(),
            },
            bt_channels_watched: Vec::new(),
            bt_piconets: Vec::new(),
            bt_uap: Vec::new(),
            bt_hops: Vec::new(),
            hop_view: HopView { span_ms: 20_000, back_ms: 0 },
            bt_view: BtView { selected: None, first_visible: 0 },
            offset_basis: OffsetBasis::Unreferenced,
        };
        assert(n.ble_channel_packets@ =~= seq![0u64, 0, 0]);
        assert(n.ble_channel_crc_ok@ =~= seq![0u64, 0, 0]);
        n
    }
}

impl NetState {
    /// The list the packet panels show from.
    pub fn source_list(&self) -> (l: &Vec<BlePacket>)
        ensures
            l@ == source(*self),
    {
        match &self.ble_view.held {
            Some((list, _)) => list,
            None => &self.ble_packets,
        }
    }

    /// Where in the source list the shown packets are, in order.
    pub fn shown_indices(&self) -> (v: Vec<usize>)
        ensures
            v@.len() == shown(*self).len(),
            forall|k: int| 0 <= k < v@.len() ==> #[trigger] v@[k] < source(*self).len(),
            forall|k: int| 0 <= k < v@.len() ==> source(*self)[v@[k] as int] == #[trigger] shown(*self)[k],
    {
        let src = self.source_list();
        let filter = self.ble_view.filter;
        let mut v: Vec<usize> = Vec::new();
        let mut i: usize = 0;
        while i < src.len()
            invariant
                i <= src@.len(),
                src@ == source(*self),
                filter == self.ble_view.filter,
                v@.len() == passing(src@, filter, i as nat).len(),
                forall|k: int| 0 <= k < v@.len() ==> #[trigger] v@[k] < i,
                forall|k: int| 0 <= k < v@.len() ==> src@[v@[k] as int] == #[trigger] passing(src@, filter, i as nat)[k],
            decreases src@.len() - i,
        {
            let ok = match filter {
                None => true,
                Some(a) => match src[i].adv_addr {
                    Some(b) => same_address(a, b),
                    None => false,
                },
            };
            assert(ok == passes(src@[i as int], filter));
            let ghost before = passing(src@, filter, i as nat);
            let ghost old_v = v@;
            if ok {
                v.push(i);
            }
            proof {
                assert forall|k: int| 0 <= k < v@.len() implies #[trigger] v@[k] < i + 1 by {
                    if k < old_v.len() {
                        assert(v@[k] == old_v[k]);
                    }
                }
                assert forall|k: int| 0 <= k < v@.len() implies
                    src@[v@[k] as int] == #[trigger] passing(src@, filter, (i + 1) as nat)[k] by {
                    if k < old_v.len() {
                        assert(v@[k] == old_v[k]);
                        assert(before[k] == passing(src@, filter, (i + 1) as nat)[k]);
                    }
                }
            }
            i = i + 1;
        }
        assert(shown(*self) == passing(src@, filter, src@.len()));
        assert forall|k: int| 0 <= k < v@.len() implies source(*self)[v@[k] as int] == #[trigger] shown(*self)[k] by {
            assert(src@[v@[k] as int] == passing(src@, filter, src@.len())[k]);
        }
        v
    }
}

/// Whether two addresses are the same octets.
pub fn same_address(a: [u8; 6], b: [u8; 6]) -> (r: bool)
    ensures
        r == (a == b),
{
    let r = a[0] == b[0] && a[1] == b[1] && a[2] == b[2] && a[3] == b[3] && a[4] == b[4] && a[5] == b[5];
    if r {
        assert(a =~= b);
    }
    r
}

impl SdrMetrics {
    /// A radio that is not streaming, with nothing decoded.
    pub fn new() -> (m: SdrMetrics)
        ensures
            !m.streaming,
            is_quiet(m.net),
    {
        SdrMetrics { streaming: false, net: NetState::new() }
    }

    /// The same state with samples flowing.
    pub fn streaming(self) -> (m: SdrMetrics)
        ensures
            m.streaming,
            m.net == self.net,
    {
        SdrMetrics { streaming: true, net: self.net }
    }
}

} // verus!
