//! Advertising data: the AD structures a packet carries after its
//! advertiser's address, each a length octet, a type octet and its content.
//!
//! The reader walks the structures in order and stops at the first it cannot
//! read, saying where and why: nothing after a structure that runs past the
//! end, or whose content its type cannot hold, can be trusted to start where
//! it seems to. A length of zero ends the data early, as the specification
//! allows, and is no fault.
use vstd::prelude::*;
use crate::ble::{hex, hex_text, pdu_label, uuid, uuid_text, PduType};
use crate::text::{dec, hexpad, owned, push_char, push_dec, push_hexpad, push_str};

verus! {

/// Why a structure could not be read.
#[derive(Clone, Copy, PartialEq, Eq, Structural, Debug)]
pub enum Fault {
    /// Its length runs past the end of the data.
    RunsPast,
    /// Its type needs at least one octet of content and it has none.
    Empty,
    /// Its type needs a two-octet identifier first and it is shorter.
    Short,
    /// A list of UUIDs that is not a whole number of them.
    Ragged,
}

/// What a fault is called.
pub open spec fn fault_text(f: Fault) -> Seq<char> {
    match f {
        Fault::RunsPast => "length runs past the end"@,
        Fault::Empty => "no content for its type"@,
        Fault::Short => "too short for its type"@,
        Fault::Ragged => "not a whole number of UUIDs"@,
    }
}

impl Fault {
    /// What the fault is called.
    pub fn text(&self) -> (s: String)
        ensures
            s@ == fault_text(*self),
    {
        match self {
            Fault::RunsPast => owned("length runs past the end"),
            Fault::Empty => owned("no content for its type"),
            Fault::Short => owned("too short for its type"),
            Fault::Ragged => owned("not a whole number of UUIDs"),
        }
    }
}

/// The octets one UUID of a list type takes: 2, 4 or 16.
pub open spec fn uuid_size(code: u8) -> nat {
    if code == 0x02 || code == 0x03 { 2 } else if code == 0x04 || code == 0x05 { 4 } else { 16 }
}

/// The list types: incomplete and complete lists of 16, 32 and 128-bit
/// service UUIDs.
pub open spec fn is_uuid_list(code: u8) -> bool {
    0x02 <= code <= 0x07
}

/// What is wrong with `n` octets of content for type `code`, if anything.
pub open spec fn content_fault(code: u8, n: nat) -> Option<Fault> {
    if (code == 0x01 || code == 0x0A) && n < 1 {
        Some(Fault::Empty)
    } else if is_uuid_list(code) && n % uuid_size(code) != 0 {
        Some(Fault::Ragged)
    } else if (code == 0x16 || code == 0xFF) && n < 2 {
        Some(Fault::Short)
    } else {
        None
    }
}

/// The structures from octet `i` on, each as the octet its length sits at
/// and the octet after its last, and the fault that stopped the reading.
pub open spec fn scan(data: Seq<u8>, i: nat) -> (Seq<(nat, nat)>, Option<(nat, Fault)>)
    decreases data.len() - i,
{
    if i >= data.len() || data[i as int] == 0 {
        (seq![], None)
    } else {
        let end = i + 1 + data[i as int] as nat;
        if end > data.len() {
            (seq![], Some((i, Fault::RunsPast)))
        } else {
            match content_fault(data[i as int + 1], (end - i - 2) as nat) {
                Some(f) => (seq![], Some((i, f))),
                None => {
                    let (rest, fault) = scan(data, end);
                    (seq![(i, end)] + rest, fault)
                },
            }
        }
    }
}

/// The AD structures of `data`.
pub open spec fn structures(data: Seq<u8>) -> (Seq<(nat, nat)>, Option<(nat, Fault)>) {
    scan(data, 0)
}

/// The structures of `data`, in order, each as the octet its length sits at
/// and the octet after its last; and, where the reading stopped short, the
/// octet it stopped at and why.
pub fn parse(data: &[u8]) -> (r: (Vec<(usize, usize)>, Option<(usize, Fault)>))
    ensures
        r.0@.len() == structures(data@).0.len(),
        forall|k: int| 0 <= k < r.0@.len() ==>
            (r.0@[k].0 as nat, r.0@[k].1 as nat) == #[trigger] structures(data@).0[k],
        match r.1 {
            Some((at, f)) => structures(data@).1 == Some((at as nat, f)),
            None => structures(data@).1 is None,
        },
{
    let mut found: Vec<(usize, usize)> = Vec::new();
    let mut i: usize = 0;
    let n = data.len();
    let ghost pairs = Seq::<(nat, nat)>::empty();
    loop
        invariant
            n == data@.len(),
            i <= n,
            found@.len() == pairs.len(),
            forall|k: int| 0 <= k < found@.len() ==> (found@[k].0 as nat, found@[k].1 as nat) == #[trigger] pairs[k],
            structures(data@).0 == pairs + scan(data@, i as nat).0,
            structures(data@).1 == scan(data@, i as nat).1,
        decreases n - i,
    {
        if i >= n || data[i] == 0 {
            assert(pairs + Seq::<(nat, nat)>::empty() =~= pairs);
            return (found, None);
        }
        let len = data[i] as usize;
        if len + 1 > n - i {
            assert(pairs + Seq::<(nat, nat)>::empty() =~= pairs);
            return (found, Some((i, Fault::RunsPast)));
        }
        let end = i + 1 + len;
        let code = data[i + 1];
        let content = end - i - 2;
        let fault = if (code == 0x01 || code == 0x0A) && content < 1 {
            Some(Fault::Empty)
        } else if 0x02 <= code && code <= 0x07 {
            let size: usize = if code == 0x02 || code == 0x03 { 2 } else if code == 0x04 || code == 0x05 { 4 } else { 16 };
            if content % size != 0 { Some(Fault::Ragged) } else { None }
        } else if (code == 0x16 || code == 0xFF) && content < 2 {
            Some(Fault::Short)
        } else {
            None
        };
        assert(fault == content_fault(code, content as nat));
        match fault {
            Some(f) => {
                assert(pairs + Seq::<(nat, nat)>::empty() =~= pairs);
                return (found, Some((i, f)));
            },
            None => {},
        }
        found.push((i, end));
        proof {
            let old_pairs = pairs;
            pairs = pairs.push((i as nat, end as nat));
            assert(old_pairs + scan(data@, i as nat).0 =~= pairs + scan(data@, end as nat).0);
        }
        i = end;
    }
}

/// Every structure the reading finds can be read: its length octet, its
/// type octet and its content lie inside the data, and its type can hold
/// its content.
pub proof fn lemma_structures_readable(data: Seq<u8>, i: nat)
    ensures
        forall|k: int| 0 <= k < scan(data, i).0.len() ==>
            (#[trigger] scan(data, i).0[k]).0 + 2 <= scan(data, i).0[k].1 <= data.len()
            && content_fault(data[scan(data, i).0[k].0 as int + 1],
                (scan(data, i).0[k].1 - scan(data, i).0[k].0 - 2) as nat) is None,
    decreases data.len() - i,
{
    if i < data.len() && data[i as int] != 0 {
        let end = i + 1 + data[i as int] as nat;
        if end <= data.len() && content_fault(data[i as int + 1], (end - i - 2) as nat) is None {
            lemma_structures_readable(data, end);
            let rest = scan(data, end).0;
            assert(scan(data, i).0 == seq![(i, end)] + rest);
            assert forall|k: int| 0 <= k < scan(data, i).0.len() implies
                (#[trigger] scan(data, i).0[k]).0 + 2 <= scan(data, i).0[k].1 <= data.len()
                && content_fault(data[scan(data, i).0[k].0 as int + 1],
                    (scan(data, i).0[k].1 - scan(data, i).0[k].0 - 2) as nat) is None by {
                if k > 0 {
                    assert(scan(data, i).0[k] == rest[k - 1]);
                }
            }
        }
    }
}

/// The names of the flags set in a Flags structure's octet, lowest bit
/// first.
pub open spec fn flag_name(bit: nat) -> Seq<char> {
    if bit == 0 { "LE Limited Discoverable"@ }
    else if bit == 1 { "LE General Discoverable"@ }
    else if bit == 2 { "BR/EDR Not Supported"@ }
    else if bit == 3 { "LE and BR/EDR Controller"@ }
    else { "LE and BR/EDR Host"@ }
}

/// The names of the flags among the lowest `k` bits of `bits` that are set.
pub open spec fn flag_names(bits: u8, k: nat) -> Seq<Seq<char>>
    decreases k,
{
    if k == 0 {
        seq![]
    } else if (bits as nat / pow2((k - 1) as nat)) % 2 == 1 {
        flag_names(bits, (k - 1) as nat).push(flag_name((k - 1) as nat))
    } else {
        flag_names(bits, (k - 1) as nat)
    }
}

/// Two to the `k`.
pub open spec fn pow2(k: nat) -> nat
    decreases k,
{
    if k == 0 { 1 } else { 2 * pow2((k - 1) as nat) }
}

/// Texts joined with `, `.
pub open spec fn join(items: Seq<Seq<char>>) -> Seq<char>
    decreases items.len(),
{
    if items.len() == 0 {
        seq![]
    } else if items.len() == 1 {
        items[0]
    } else {
        join(items.drop_last()) + seq![',', ' '] + items.last()
    }
}

/// What a Flags octet says: the flags set, by name, or `none set`.
pub open spec fn flags_text(bits: u8) -> Seq<char> {
    let names = flag_names(bits, 5);
    if names.len() == 0 { "none set"@ } else { join(names) }
}

/// Appends `item` to a `, `-joined list of `count` items so far.
pub fn push_item(s: &mut String, count: usize, item: &str)
    ensures
        final(s)@ == old(s)@ + (if count == 0 { item@ } else { seq![',', ' '] + item@ }),
{
    if count > 0 {
        push_char(s, ',');
        push_char(s, ' ');
    }
    push_str(s, item);
}

/// What a Flags octet says.
pub fn flags(bits: u8) -> (s: String)
    ensures
        s@ == flags_text(bits),
{
    let mut s = String::new();
    let mut count: usize = 0;
    let mut k: u32 = 0;
    while k < 5
        invariant
            k <= 5,
            count <= k,
            count as nat == flag_names(bits, k as nat).len(),
            s@ == join(flag_names(bits, k as nat)),
        decreases 5 - k,
    {
        let ghost names = flag_names(bits, k as nat);
        let p: u8 = if k == 0 { 1 } else if k == 1 { 2 } else if k == 2 { 4 } else if k == 3 { 8 } else { 16 };
        assert(p as nat == pow2(k as nat)) by {
            reveal_with_fuel(pow2, 5);
        }
        if (bits / p) % 2 == 1 {
            let name = if k == 0 { "LE Limited Discoverable" } else if k == 1 { "LE General Discoverable" }
                else if k == 2 { "BR/EDR Not Supported" } else if k == 3 { "LE and BR/EDR Controller" }
                else { "LE and BR/EDR Host" };
            push_item(&mut s, count, name);
            count = count + 1;
            proof {
                let next = names.push(flag_name(k as nat));
                assert(next.drop_last() =~= names);
                if names.len() == 0 {
                    assert(next =~= seq![flag_name(k as nat)]);
                }
            }
        }
        k = k + 1;
    }
    if count == 0 {
        s = owned("none set");
    }
    s
}

/// A byte as the character it prints as: printable ASCII as itself,
/// anything else as the replacement mark, so a name can never carry a
/// control sequence to the terminal.
pub open spec fn printable_char(b: u8) -> char {
    if 0x20 <= b <= 0x7e { b as char } else { '\u{fffd}' }
}

/// A name's octets made safe to print.
pub open spec fn printable(data: Seq<u8>) -> Seq<char> {
    Seq::new(data.len(), |i: int| printable_char(data[i]))
}

/// Appends `data[from..to]` made safe to print.
pub fn push_printable(s: &mut String, data: &[u8], from: usize, to: usize)
    requires
        from <= to <= data@.len(),
    ensures
        final(s)@ == old(s)@ + printable(data@.subrange(from as int, to as int)),
{
    let ghost start = s@;
    let mut i = from;
    while i < to
        invariant
            from <= i <= to <= data@.len(),
            s@ == start + printable(data@.subrange(from as int, i as int)),
        decreases to - i,
    {
        let b = data[i];
        let c = if 0x20 <= b && b <= 0x7e { b as char } else { '\u{fffd}' };
        push_char(s, c);
        i = i + 1;
        assert(s@ =~= start + printable(data@.subrange(from as int, i as int)));
    }
}

/// `v` as a signed decimal: `-12`.
pub open spec fn signed_text(v: int) -> Seq<char> {
    if v < 0 { seq!['-'] + dec((-v) as nat) } else { dec(v as nat) }
}

/// The octet an `i8` is sent as, read back as its value.
pub open spec fn as_signed(b: u8) -> int {
    if b < 128 { b as int } else { b as int - 256 }
}

/// The UUIDs of a list, each as written (most significant octet first).
pub open spec fn uuid_list(content: Seq<u8>, size: nat, k: nat) -> Seq<Seq<char>>
    decreases k,
{
    if k == 0 {
        seq![]
    } else {
        uuid_list(content, size, (k - 1) as nat).push(
            uuid_text(content.subrange((k - 1) * size as int, (k * size) as int).reverse()))
    }
}

/// A list of `k` UUIDs of `size` octets: the `j`-th is octets
/// `j * size .. (j + 1) * size`, reversed.
pub proof fn lemma_uuid_list(content: Seq<u8>, size: nat, k: nat)
    ensures
        uuid_list(content, size, k).len() == k,
        forall|j: int| 0 <= j < k ==> #[trigger] uuid_list(content, size, k)[j]
            == uuid_text(content.subrange(j * size, (j + 1) * size).reverse()),
    decreases k,
{
    if k > 0 {
        lemma_uuid_list(content, size, (k - 1) as nat);
    }
}

/// Lists of 128-bit service UUIDs (types 0x06 and 0x07) are read in units
/// of 16 octets. A content whose length is no multiple of 16 is ragged; one
/// of `16 * m` octets reads as one services field of `m` UUIDs, the `j`-th
/// from octets `16 * j .. 16 * j + 16` reversed, and marked incomplete for
/// type 0x06.
pub proof fn lemma_uuid128_lists(data: Seq<u8>, s: nat, e: nat)
    requires
        s + 2 <= e <= data.len(),
        data[s as int + 1] == 0x06 || data[s as int + 1] == 0x07,
    ensures
        ({
            let code = data[s as int + 1];
            let n = (e - s - 2) as nat;
            let c = data.subrange(s as int + 2, e as int);
            &&& content_fault(code, n) == (if n % 16 != 0 { Some(Fault::Ragged) } else { None::<Fault> })
            &&& n % 16 == 0 ==> fields(data, s, e) == seq![("services"@,
                join(Seq::new(n / 16, |j: int| uuid_text(c.subrange(16 * j, 16 * j + 16).reverse())))
                    + (if code == 0x07 { seq![] } else { " (incomplete)"@ }))]
        }),
{
    let code = data[s as int + 1];
    let n = (e - s - 2) as nat;
    let c = data.subrange(s as int + 2, e as int);
    if n % 16 == 0 {
        lemma_uuid_list(c, 16, n / 16);
        let want = Seq::new(n / 16, |j: int| uuid_text(c.subrange(16 * j, 16 * j + 16).reverse()));
        assert forall|j: int| 0 <= j < n / 16 implies #[trigger] uuid_list(c, 16, n / 16)[j] == want[j] by {
            assert(j * 16 == 16 * j && (j + 1) * 16 == 16 * j + 16);
        }
        assert(uuid_list(c, 16, n / 16) =~= want);
    }
}

/// The name of an AD type this reader has no reading of its own for.
pub open spec fn ad_type_name(code: u8) -> Option<Seq<char>> {
    if code == 0x12 { Some("Peripheral Connection Interval Range"@) }
    else if code == 0x19 { Some("Appearance"@) }
    else if code == 0x1A { Some("Advertising Interval"@) }
    else if code == 0x1B { Some("LE Bluetooth Device Address"@) }
    else if code == 0x1C { Some("LE Role"@) }
    else if code == 0x24 { Some("URI"@) }
    else { None }
}

/// The fields one well-formed structure reads as: a label and its value,
/// one field for every kind but manufacturer data, which names the company
/// and then gives the octets after it (when there are any).
pub open spec fn fields(data: Seq<u8>, s: nat, e: nat) -> Seq<(Seq<char>, Seq<char>)> {
    let code = data[s as int + 1];
    let c = data.subrange(s as int + 2, e as int);
    if code == 0x01 {
        seq![("flags"@, flags_text(c[0]))]
    } else if code == 0x08 || code == 0x09 {
        seq![("name"@, printable(c) + (if code == 0x09 { seq![] } else { " (shortened)"@ }))]
    } else if code == 0x0A {
        seq![("TX power"@, signed_text(as_signed(c[0])) + " dBm"@)]
    } else if is_uuid_list(code) {
        let list = join(uuid_list(c, uuid_size(code), c.len() / uuid_size(code)));
        seq![("services"@, list + (if code % 2 == 1 { seq![] } else { " (incomplete)"@ }))]
    } else if code == 0x16 {
        seq![("svc data"@, uuid_text(seq![c[1], c[0]]) + seq![':', ' '] + hex_text(c.subrange(2, c.len() as int)))]
    } else if code == 0xFF {
        let id = c[0] as nat + 256 * c[1] as nat;
        let name = match crate::ble::assigned::company_name(id) {
            Some(n) => n + seq![' ', '(', '0', 'x'] + hexpad(id, 4, true) + seq![')'],
            None => seq!['0', 'x'] + hexpad(id, 4, true) + ", not in the SIG snapshot"@,
        };
        if c.len() > 2 {
            seq![("company"@, name), ("mfr data"@, hex_text(c.subrange(2, c.len() as int)))]
        } else {
            seq![("company"@, name)]
        }
    } else {
        let what = match ad_type_name(code) {
            Some(n) => n + seq![' ', '(', '0', 'x'] + hexpad(code as nat, 2, true) + seq![')'],
            None => "AD type 0x"@ + hexpad(code as nat, 2, true),
        };
        seq![("other"@, what + seq![':', ' '] + hex_text(c))]
    }
}

/// The structure at `data[s..e]`, read: its fields, each a label and value.
pub fn read(data: &[u8], s: usize, e: usize) -> (out: Vec<(String, String)>)
    requires
        s + 2 <= e <= data@.len(),
        content_fault(data@[s + 1], (e - s - 2) as nat) is None,
    ensures
        out@.len() == fields(data@, s as nat, e as nat).len(),
        forall|k: int| 0 <= k < out@.len() ==>
            (out@[k].0@, out@[k].1@) == #[trigger] fields(data@, s as nat, e as nat)[k],
{
    let code = data[s + 1];
    let c = slice_of(data, s + 2, e);
    let ghost cv = data@.subrange(s + 2, e as int);
    assert(c@ == cv);
    let mut out: Vec<(String, String)> = Vec::new();
    if code == 0x01 {
        out.push((owned("flags"), flags(c[0])));
    } else if code == 0x08 || code == 0x09 {
        let mut v = String::new();
        push_printable(&mut v, c, 0, c.len());
        assert(c@.subrange(0, c@.len() as int) =~= c@);
        if code == 0x08 {
            push_str(&mut v, " (shortened)");
        }
        out.push((owned("name"), v));
    } else if code == 0x0A {
        let b = c[0];
        let mut v = String::new();
        if b >= 128 {
            push_char(&mut v, '-');
            push_dec(&mut v, (256 - b as u64) as u64);
        } else {
            push_dec(&mut v, b as u64);
        }
        push_str(&mut v, " dBm");
        out.push((owned("TX power"), v));
    } else if 0x02 <= code && code <= 0x07 {
        let size: usize = if code == 0x02 || code == 0x03 { 2 } else if code == 0x04 || code == 0x05 { 4 } else { 16 };
        let clen = c.len();
        let count = clen / size;
        let mut v = String::new();
        let mut k: usize = 0;
        assert(c@.len() % (size as nat) == 0);
        assert(count * size == c@.len()) by (nonlinear_arith)
            requires c@.len() % (size as nat) == 0, count == c@.len() / (size as nat), size > 0;
        while k < count
            invariant
                k <= count,
                size == uuid_size(code),
                size > 0,
                count == c@.len() / (size as nat),
                count * size == c@.len(),
                clen == c@.len(),
                v@ == join(uuid_list(c@, size as nat, k as nat)),
            decreases count - k,
        {
            assert((k + 1) * size <= count * size) by (nonlinear_arith)
                requires k + 1 <= count, size > 0;
            assert(k * size <= (k + 1) * size) by (nonlinear_arith)
                requires size > 0;
            let written = reversed(c, k * size, (k + 1) * size);
            let one = uuid(written.as_slice());
            let ghost list = uuid_list(c@, size as nat, k as nat);
            push_item(&mut v, k, one.as_str());
            proof {
                let next = uuid_list(c@, size as nat, (k + 1) as nat);
                assert(next.drop_last() =~= list);
                if k == 0 {
                    assert(next =~= seq![next[0]]);
                }
            }
            k = k + 1;
        }
        if code % 2 == 0 {
            push_str(&mut v, " (incomplete)");
        }
        out.push((owned("services"), v));
    } else if code == 0x16 {
        let written: [u8; 2] = [c[1], c[0]];
        let mut v = uuid(&written);
        assert(written@ =~= seq![c@[1], c@[0]]);
        push_char(&mut v, ':');
        push_char(&mut v, ' ');
        let rest = slice_of(c, 2, c.len());
        let h = hex(rest);
        push_str(&mut v, h.as_str());
        out.push((owned("svc data"), v));
    } else if code == 0xFF {
        let id: u16 = c[0] as u16 + 256 * c[1] as u16;
        let mut name = String::new();
        match crate::ble::assigned::company(id) {
            Some(n) => {
                push_str(&mut name, n);
                push_str(&mut name, " (0x");
                push_hexpad(&mut name, id as u64, 4, true);
                push_char(&mut name, ')');
            },
            None => {
                push_str(&mut name, "0x");
                push_hexpad(&mut name, id as u64, 4, true);
                push_str(&mut name, ", not in the SIG snapshot");
            },
        }
        proof {
            reveal_strlit(" (0x");
            reveal_strlit("0x");
        }
        out.push((owned("company"), name));
        if c.len() > 2 {
            let rest = slice_of(c, 2, c.len());
            out.push((owned("mfr data"), hex(rest)));
        }
    } else {
        let mut v = String::new();
        match ad_type_label(code) {
            Some(n) => {
                push_str(&mut v, n);
                push_str(&mut v, " (0x");
                push_hexpad(&mut v, code as u64, 2, true);
                push_char(&mut v, ')');
            },
            None => {
                push_str(&mut v, "AD type 0x");
                push_hexpad(&mut v, code as u64, 2, true);
            },
        }
        proof {
            reveal_strlit(" (0x");
        }
        push_char(&mut v, ':');
        push_char(&mut v, ' ');
        let h = hex(c);
        push_str(&mut v, h.as_str());
        out.push((owned("other"), v));
    }
    proof {
        let f = fields(data@, s as nat, e as nat);
        assert(out@.len() == f.len());
        assert forall|k: int| 0 <= k < out@.len() implies (out@[k].0@, out@[k].1@) == #[trigger] f[k] by {
            reveal_strlit("flags");
            reveal_strlit("name");
            reveal_strlit("TX power");
            reveal_strlit("services");
            reveal_strlit("svc data");
            reveal_strlit("company");
            reveal_strlit("mfr data");
            reveal_strlit("other");
        }
    }
    out
}

/// The name of an AD type this reader has no reading of its own for.
pub fn ad_type_label(code: u8) -> (n: Option<&'static str>)
    ensures
        match n {
            Some(t) => ad_type_name(code) == Some(t@),
            None => ad_type_name(code) is None,
        },
{
    if code == 0x12 { Some("Peripheral Connection Interval Range") }
    else if code == 0x19 { Some("Appearance") }
    else if code == 0x1A { Some("Advertising Interval") }
    else if code == 0x1B { Some("LE Bluetooth Device Address") }
    else if code == 0x1C { Some("LE Role") }
    else if code == 0x24 { Some("URI") }
    else { None }
}

/// `data[from..to]`.
pub fn slice_of(data: &[u8], from: usize, to: usize) -> (s: &[u8])
    requires
        from <= to <= data@.len(),
    ensures
        s@ == data@.subrange(from as int, to as int),
{
    let (head, _) = data.split_at(to);
    let (_, tail) = head.split_at(from);
    tail
}

/// `data[from..to]` in reverse: octets sent least significant first, as
/// they are written.
pub fn reversed(data: &[u8], from: usize, to: usize) -> (v: Vec<u8>)
    requires
        from <= to <= data@.len(),
    ensures
        v@ == data@.subrange(from as int, to as int).reverse(),
{
    let mut v: Vec<u8> = Vec::new();
    let mut i = to;
    while i > from
        invariant
            from <= i <= to <= data@.len(),
            v@ == data@.subrange(i as int, to as int).reverse(),
        decreases i - from,
    {
        i = i - 1;
        v.push(data[i]);
        assert(v@ =~= data@.subrange(i as int, to as int).reverse());
    }
    v
}

/// Where a packet's advertising data starts and ends: after the six-octet
/// address, on the types that carry it; `None` on any other type, and on a
/// payload too short to hold the address.
pub open spec fn adv_data_range(t: PduType, payload_len: nat) -> Option<(nat, nat)> {
    if t.carries_adv_data() && payload_len >= 6 { Some((6, payload_len)) } else { None }
}

/// Where a packet's advertising data starts and ends, if it carries any.
pub fn adv_data(t: PduType, payload: &Vec<u8>) -> (r: Option<(usize, usize)>)
    ensures
        match r {
            Some((s, e)) => adv_data_range(t, payload@.len()) == Some((s as nat, e as nat)),
            None => adv_data_range(t, payload@.len()) is None,
        },
{
    let carries = match t {
        PduType::AdvInd | PduType::AdvNonconnInd | PduType::ScanRsp | PduType::AdvScanInd => true,
        _ => false,
    };
    if carries && payload.len() >= 6 { Some((6, payload.len())) } else { None }
}

} // verus!
