//! What a CONNECT_IND says about the connection it opens: the two
//! addresses, the Link Layer parameters, and the first channels Channel
//! Selection Algorithm #1 predicts from them.
//!
//! Read, not followed: the parameters are the packet's, and the hops are a
//! prediction from them.
use vstd::prelude::*;

verus! {

/// The octets of a CONNECT_IND's payload: InitA, AdvA and the 22 of LLData.
pub const CONNECT_IND_OCTETS: usize = 34;

/// Channels a connection can use: the 37 data channels.
pub const DATA_CHANNELS: u64 = 37;

/// The value of `n` octets of `p` from `from`, least significant first.
pub open spec fn le(p: Seq<u8>, from: int, n: nat) -> nat
    decreases n,
{
    if n == 0 { 0 } else { p[from] as nat + 256 * le(p, from + 1, (n - 1) as nat) }
}

/// What a CONNECT_IND carries.
pub struct Connect {
    /// The initiator's address, most significant octet first.
    pub init_a: [u8; 6],
    /// The advertiser's address, most significant octet first.
    pub adv_a: [u8; 6],
    pub access_address: u32,
    pub crc_init: u32,
    /// In 1.25 ms steps.
    pub win_size: u8,
    /// In 1.25 ms steps.
    pub win_offset: u16,
    /// In 1.25 ms steps.
    pub interval: u16,
    /// Connection events the peripheral may skip.
    pub latency: u16,
    /// In 10 ms steps.
    pub timeout: u16,
    /// One bit per data channel, channel 0 the least significant.
    pub channel_map: u64,
    pub hop_increment: u8,
    /// The sleep clock accuracy's code, 0 to 7.
    pub sca: u8,
}

/// An address sent least significant octet first at `p[from..from + 6]`,
/// as it is written.
pub open spec fn address_at(p: Seq<u8>, from: int) -> Seq<u8> {
    p.subrange(from, from + 6).reverse()
}

/// What `payload` says, for a payload at least [`CONNECT_IND_OCTETS`] long.
pub open spec fn decodes(payload: Seq<u8>, c: Connect) -> bool {
    &&& c.init_a@ == address_at(payload, 0)
    &&& c.adv_a@ == address_at(payload, 6)
    &&& c.access_address == le(payload, 12, 4)
    &&& c.crc_init == le(payload, 16, 3)
    &&& c.win_size == payload[19]
    &&& c.win_offset == le(payload, 20, 2)
    &&& c.interval == le(payload, 22, 2)
    &&& c.latency == le(payload, 24, 2)
    &&& c.timeout == le(payload, 26, 2)
    &&& c.channel_map == le(payload, 28, 5)
    &&& c.hop_increment == payload[33] % 32
    &&& c.sca == payload[33] / 32
}

/// The six octets at `p[from..]`, reversed.
fn address(p: &Vec<u8>, from: usize) -> (a: [u8; 6])
    requires
        from + 6 <= p@.len(),
    ensures
        a@ == address_at(p@, from as int),
{
    let _len = p.len();
    let a = [p[from + 5], p[from + 4], p[from + 3], p[from + 2], p[from + 1], p[from]];
    assert(a@ =~= address_at(p@, from as int));
    a
}

/// `n` octets of `p` from `from`, least significant first.
fn le_value(p: &Vec<u8>, from: usize, n: usize) -> (v: u64)
    requires
        from + n <= p@.len(),
        n <= 5,
    ensures
        v == le(p@, from as int, n as nat),
        v < pow256(n as nat),
    decreases n,
{
    if n == 0 {
        0
    } else {
        let _len = p.len();
        let rest = le_value(p, from + 1, n - 1);
        assert(pow256(n as nat) == 256 * pow256((n - 1) as nat));
        assert(rest <= pow256((n - 1) as nat) - 1);
        assert(256 * rest <= 256 * pow256((n - 1) as nat) - 256) by (nonlinear_arith)
            requires rest <= pow256((n - 1) as nat) - 1;
        assert(pow256(n as nat) <= pow256(5)) by {
            lemma_pow256_mono(n as nat, 5);
        }
        assert(pow256(5) == 1_099_511_627_776) by {
            reveal_with_fuel(pow256, 6);
        }
        p[from] as u64 + 256 * rest
    }
}

/// 256 to the `n`.
pub open spec fn pow256(n: nat) -> nat
    decreases n,
{
    if n == 0 { 1 } else { 256 * pow256((n - 1) as nat) }
}

proof fn lemma_pow256_mono(a: nat, b: nat)
    requires
        a <= b,
    ensures
        pow256(a) <= pow256(b),
    decreases b - a,
{
    if a < b {
        lemma_pow256_mono(a, (b - 1) as nat);
    }
}

/// The connection a CONNECT_IND's payload opens, or `None` for one too
/// short to hold its 34 octets.
pub fn decode_octets(payload: &Vec<u8>) -> (c: Option<Connect>)
    ensures
        match c {
            Some(c) => payload@.len() >= CONNECT_IND_OCTETS && decodes(payload@, c),
            None => payload@.len() < CONNECT_IND_OCTETS,
        },
{
    if payload.len() < CONNECT_IND_OCTETS {
        return None;
    }
    proof {
        reveal_with_fuel(pow256, 6);
    }
    let last = payload[33];
    Some(Connect {
        init_a: address(payload, 0),
        adv_a: address(payload, 6),
        access_address: le_value(payload, 12, 4) as u32,
        crc_init: le_value(payload, 16, 3) as u32,
        win_size: payload[19],
        win_offset: le_value(payload, 20, 2) as u16,
        interval: le_value(payload, 22, 2) as u16,
        latency: le_value(payload, 24, 2) as u16,
        timeout: le_value(payload, 26, 2) as u16,
        channel_map: le_value(payload, 28, 5),
        hop_increment: last % 32,
        sca: last / 32,
    })
}

/// The sleep clock accuracy a code stands for, as its range in ppm.
pub open spec fn sca_range(code: nat) -> (nat, nat) {
    if code == 0 { (251, 500) }
    else if code == 1 { (151, 250) }
    else if code == 2 { (101, 150) }
    else if code == 3 { (76, 100) }
    else if code == 4 { (51, 75) }
    else if code == 5 { (31, 50) }
    else if code == 6 { (21, 30) }
    else { (0, 20) }
}

/// The sleep clock accuracy a code 0 to 7 stands for, in ppm.
pub fn sca_ppm(code: u8) -> (r: (u32, u32))
    requires
        code < 8,
    ensures
        (r.0 as nat, r.1 as nat) == sca_range(code as nat),
{
    if code == 0 { (251, 500) }
    else if code == 1 { (151, 250) }
    else if code == 2 { (101, 150) }
    else if code == 3 { (76, 100) }
    else if code == 4 { (51, 75) }
    else if code == 5 { (31, 50) }
    else if code == 6 { (21, 30) }
    else { (0, 20) }
}

/// Whether the map marks data channel `ch` used.
pub open spec fn is_used(map: nat, ch: nat) -> bool {
    (map / crate::ble::ad::pow2(ch)) % 2 == 1
}

/// The used channels below `n`, in ascending order.
pub open spec fn used_below(map: nat, n: nat) -> Seq<nat>
    decreases n,
{
    if n == 0 {
        seq![]
    } else if is_used(map, (n - 1) as nat) {
        used_below(map, (n - 1) as nat).push((n - 1) as nat)
    } else {
        used_below(map, (n - 1) as nat)
    }
}

/// The channel Algorithm #1 moves to from the unmapped channel `last`, and
/// the new unmapped channel: `last + hop` round the 37, remapped onto the
/// used channels where the map leaves it unused.
pub open spec fn csa1_step(map: nat, hop: nat, last: nat) -> (nat, nat) {
    let unmapped = (last + hop) % 37;
    let used = used_below(map, 37);
    if is_used(map, unmapped) {
        (unmapped, unmapped)
    } else {
        (unmapped, used[(unmapped % used.len()) as int])
    }
}

/// The first `k` channels Algorithm #1 predicts, starting from unmapped
/// channel zero, and the unmapped channel it ends on.
pub open spec fn csa1(map: nat, hop: nat, k: nat) -> (Seq<nat>, nat)
    decreases k,
{
    if k == 0 {
        (seq![], 0)
    } else {
        let (chs, last) = csa1(map, hop, (k - 1) as nat);
        let (unmapped, ch) = csa1_step(map, hop, last);
        (chs.push(ch), unmapped)
    }
}

/// Algorithm #1's first `k` channels are `k` channels.
pub proof fn lemma_csa1_len(map: nat, hop: nat, k: nat)
    ensures
        csa1(map, hop, k).0.len() == k,
    decreases k,
{
    if k > 0 {
        lemma_csa1_len(map, hop, (k - 1) as nat);
    }
}

/// After `k` hops Algorithm #1's unmapped channel is `k * hop` round the 37.
proof fn lemma_csa1_unmapped(map: nat, hop: nat, k: nat)
    ensures
        csa1(map, hop, k).1 == (k * hop) % 37,
    decreases k,
{
    if k > 0 {
        let p = (k - 1) as nat;
        lemma_csa1_unmapped(map, hop, p);
        vstd::arithmetic::div_mod::lemma_add_mod_noop((p * hop) as int, hop as int, 37);
        vstd::arithmetic::div_mod::lemma_add_mod_noop_right(((p * hop) % 37) as int, hop as int, 37);
        assert(p * hop + hop == k * hop) by (nonlinear_arith)
            requires p + 1 == k;
        let last = csa1(map, hop, p).1;
        assert(csa1(map, hop, k).1 == csa1_step(map, hop, last).0);
        assert(((last + hop) % 37) as int == ((p * hop) as int + hop as int) % 37);
    } else {
        assert(k * hop == 0) by (nonlinear_arith)
            requires k == 0;
    }
}

/// A channel once predicted stays: the `i`-th of `k` is the `i`-th of `i + 1`.
proof fn lemma_csa1_prefix(map: nat, hop: nat, k: nat, i: nat)
    requires
        i < k,
    ensures
        csa1(map, hop, k).0[i as int] == csa1(map, hop, i + 1).0[i as int],
    decreases k,
{
    if k > i + 1 {
        lemma_csa1_len(map, hop, (k - 1) as nat);
        lemma_csa1_prefix(map, hop, (k - 1) as nat, i);
    }
}

/// The used channels below `n` are exactly the channels below `n` that the
/// map marks used, each once, in ascending order.
pub proof fn lemma_used_below(map: nat, n: nat)
    ensures
        forall|j: int| 0 <= j < used_below(map, n).len() ==>
            #[trigger] used_below(map, n)[j] < n && is_used(map, used_below(map, n)[j]),
        forall|j: int, l: int| 0 <= j < l < used_below(map, n).len() ==>
            #[trigger] used_below(map, n)[j] < #[trigger] used_below(map, n)[l],
        forall|c: nat| c < n && #[trigger] is_used(map, c) ==> used_below(map, n).contains(c),
    decreases n,
{
    if n > 0 {
        let p = (n - 1) as nat;
        lemma_used_below(map, p);
        let before = used_below(map, p);
        let after = used_below(map, n);
        assert forall|c: nat| c < n && #[trigger] is_used(map, c) implies after.contains(c) by {
            if c < p {
                let j = choose|j: int| 0 <= j < before.len() && before[j] == c;
                if is_used(map, p) {
                    assert(after[j] == c);
                } else {
                    assert(after[j] == c);
                }
            } else {
                assert(after[before.len() as int] == c);
            }
        }
    }
}

/// Algorithm #1, hop by hop: the `i`-th predicted channel comes from the
/// unmapped channel `(i + 1) * hop` round the 37. Where the map marks that
/// channel used it is the channel; where it does not, the channel is the
/// used channel at that unmapped channel's remainder by the number used.
pub proof fn lemma_csa1_hops(map: nat, hop: nat, k: nat, i: nat)
    requires
        i < k,
    ensures
        ({
            let unmapped = ((i + 1) * hop) % 37;
            let used = used_below(map, 37);
            &&& is_used(map, unmapped) ==> csa1(map, hop, k).0[i as int] == unmapped
            &&& !is_used(map, unmapped) && used.len() > 0 ==>
                csa1(map, hop, k).0[i as int] == used[(unmapped % used.len()) as int]
        }),
        csa1(map, hop, k).1 == (k * hop) % 37,
{
    lemma_csa1_prefix(map, hop, k, i);
    lemma_csa1_unmapped(map, hop, i);
    lemma_csa1_unmapped(map, hop, i + 1);
    lemma_csa1_unmapped(map, hop, k);
    lemma_csa1_len(map, hop, i);
}

/// The number of used channels.
pub fn used_count(map: u64) -> (n: u64)
    ensures
        n == used_below(map as nat, 37).len(),
        n <= 37,
{
    let table = used_table(map);
    table.len() as u64
}

/// The used channels, ascending.
fn used_table(map: u64) -> (t: Vec<u8>)
    ensures
        t@.len() == used_below(map as nat, 37).len(),
        t@.len() <= 37,
        forall|i: int| 0 <= i < t@.len() ==> t@[i] as nat == #[trigger] used_below(map as nat, 37)[i],
{
    let mut t: Vec<u8> = Vec::new();
    let mut ch: u8 = 0;
    let mut rest: u64 = map;
    let ghost mut p: nat = 1;
    while ch < 37
        invariant
            ch <= 37,
            p == crate::ble::ad::pow2(ch as nat),
            p > 0,
            rest == map as nat / p,
            t@.len() == used_below(map as nat, ch as nat).len(),
            t@.len() <= ch,
            forall|i: int| 0 <= i < t@.len() ==> t@[i] as nat == #[trigger] used_below(map as nat, ch as nat)[i],
        decreases 37 - ch,
    {
        let ghost before = used_below(map as nat, ch as nat);
        if rest % 2 == 1 {
            t.push(ch);
        }
        proof {
            let after = used_below(map as nat, (ch + 1) as nat);
            assert(is_used(map as nat, ch as nat) == (rest % 2 == 1));
            if rest % 2 == 1 {
                assert(after == before.push(ch as nat));
            } else {
                assert(after == before);
            }
            vstd::arithmetic::div_mod::lemma_div_denominator(map as int, p as int, 2);
            assert(p * 2 == crate::ble::ad::pow2((ch + 1) as nat));
            p = p * 2;
        }
        rest = rest / 2;
        ch = ch + 1;
    }
    t
}

/// The first `k` channels Algorithm #1 predicts for `map` and `hop`, or
/// `None` where the map uses no channel and there is nothing to predict.
pub fn csa1_predict(map: u64, hop: u8, k: usize) -> (r: Option<Vec<u8>>)
    ensures
        match r {
            Some(v) => used_below(map as nat, 37).len() > 0
                && v@.len() == k
                && forall|i: int| 0 <= i < k ==> v@[i] as nat == #[trigger] csa1(map as nat, hop as nat, k as nat).0[i],
            None => used_below(map as nat, 37).len() == 0,
        },
{
    let table = used_table(map);
    let n = table.len();
    if n == 0 {
        return None;
    }
    let mut out: Vec<u8> = Vec::new();
    let mut last: u64 = 0;
    let mut i: usize = 0;
    while i < k
        invariant
            i <= k,
            n == table@.len(),
            0 < n <= 37,
            n == used_below(map as nat, 37).len(),
            forall|j: int| 0 <= j < n ==> table@[j] as nat == #[trigger] used_below(map as nat, 37)[j],
            last < 37,
            out@.len() == i,
            csa1(map as nat, hop as nat, i as nat).1 == last,
            forall|j: int| 0 <= j < i ==> out@[j] as nat == #[trigger] csa1(map as nat, hop as nat, i as nat).0[j],
        decreases k - i,
    {
        let unmapped = (last + hop as u64) % 37;
        let used = is_used_exec(map, unmapped);
        let ch: u8 = if used { unmapped as u8 } else { table[(unmapped % n as u64) as usize] };
        out.push(ch);
        proof {
            let prev = csa1(map as nat, hop as nat, i as nat);
            let next = csa1(map as nat, hop as nat, (i + 1) as nat);
            lemma_csa1_len(map as nat, hop as nat, i as nat);
            assert(next.0 == prev.0.push(ch as nat));
            assert forall|j: int| 0 <= j < i + 1 implies out@[j] as nat == #[trigger] next.0[j] by {
                if j < i {
                    assert(out@[j] as nat == prev.0[j]);
                }
            }
        }
        last = unmapped;
        i = i + 1;
    }
    Some(out)
}

/// Whether the map marks channel `ch` (below 64) used.
fn is_used_exec(map: u64, ch: u64) -> (b: bool)
    requires
        ch < 37,
    ensures
        b == is_used(map as nat, ch as nat),
{
    let mut rest = map;
    let mut i: u64 = 0;
    let ghost mut p: nat = 1;
    while i < ch
        invariant
            i <= ch < 37,
            p == crate::ble::ad::pow2(i as nat),
            p > 0,
            rest == map as nat / p,
        decreases ch - i,
    {
        proof {
            vstd::arithmetic::div_mod::lemma_div_denominator(map as int, p as int, 2);
            p = p * 2;
        }
        rest = rest / 2;
        i = i + 1;
    }
    rest % 2 == 1
}

} // verus!
