//! Decimal and hexadecimal renderings of integers, and the small string
//! operations every readout on the deck is built from.
//!
//! Every number the panels print goes through here, so the model of what a
//! printed number *is* sits in one place: `dec` for a count, `fixed` for a
//! value with a stated number of decimal places, `zpad`/`hex` for fields of a
//! fixed width.
use vstd::prelude::*;

verus! {

/// The character for a digit below ten.
pub open spec fn digit(d: nat) -> char {
    if d == 0 { '0' } else if d == 1 { '1' } else if d == 2 { '2' } else if d == 3 { '3' }
    else if d == 4 { '4' } else if d == 5 { '5' } else if d == 6 { '6' } else if d == 7 { '7' }
    else if d == 8 { '8' } else { '9' }
}

/// The decimal digits of `n`, most significant first, with no sign and no
/// leading zeros (`0` is the single digit `'0'`).
pub open spec fn dec(n: nat) -> Seq<char>
    decreases n,
{
    if n < 10 {
        seq![digit(n)]
    } else {
        dec(n / 10).push(digit(n % 10))
    }
}

/// Ten to the `k`.
pub open spec fn pow10(k: nat) -> nat
    decreases k,
{
    if k == 0 { 1 } else { 10 * pow10((k - 1) as nat) }
}

/// `n` written in exactly `k` digits, zero-filled on the left, keeping only
/// the last `k` digits (the value is taken modulo ten to the `k`).
pub open spec fn zpad(n: nat, k: nat) -> Seq<char>
    decreases k,
{
    if k == 0 {
        seq![]
    } else {
        zpad(n / 10, (k - 1) as nat).push(digit(n % 10))
    }
}

/// `n / 10^k` written with `k` decimal places: `fixed(13107, 3)` is `13.107`.
/// With no places it is the plain integer.
pub open spec fn fixed(n: nat, k: nat) -> Seq<char> {
    if k == 0 {
        dec(n)
    } else {
        dec(n / pow10(k)) + seq!['.'] + zpad(n % pow10(k), k)
    }
}

/// `n` spaces.
pub open spec fn spaces(n: nat) -> Seq<char> {
    Seq::new(n, |i: int| ' ')
}

/// `n` copies of `c`.
pub open spec fn repeat(c: char, n: nat) -> Seq<char> {
    Seq::new(n, |i: int| c)
}

/// `s` left-aligned in a field of `w` columns: padded with spaces on the
/// right, never cut.
pub open spec fn pad_right(s: Seq<char>, w: nat) -> Seq<char> {
    if s.len() >= w { s } else { s + spaces((w - s.len()) as nat) }
}

/// `s` right-aligned in a field of `w` columns: padded with spaces on the
/// left, never cut.
pub open spec fn pad_left(s: Seq<char>, w: nat) -> Seq<char> {
    if s.len() >= w { s } else { spaces((w - s.len()) as nat) + s }
}

/// The hexadecimal digit for a nibble, in upper or lower case.
pub open spec fn hex_digit(d: nat, upper: bool) -> char {
    if d < 10 {
        digit(d)
    } else if upper {
        if d == 10 { 'A' } else if d == 11 { 'B' } else if d == 12 { 'C' } else if d == 13 { 'D' }
        else if d == 14 { 'E' } else { 'F' }
    } else {
        if d == 10 { 'a' } else if d == 11 { 'b' } else if d == 12 { 'c' } else if d == 13 { 'd' }
        else if d == 14 { 'e' } else { 'f' }
    }
}

/// `n` in exactly `k` hexadecimal digits, zero-filled, the last `k` kept.
pub open spec fn hexpad(n: nat, k: nat, upper: bool) -> Seq<char>
    decreases k,
{
    if k == 0 {
        seq![]
    } else {
        hexpad(n / 16, (k - 1) as nat, upper).push(hex_digit(n % 16, upper))
    }
}

pub proof fn lemma_dec_nonempty(n: nat)
    ensures
        dec(n).len() >= 1,
    decreases n,
{
    if n >= 10 {
        lemma_dec_nonempty(n / 10);
    }
}

pub proof fn lemma_zpad_len(n: nat, k: nat)
    ensures
        zpad(n, k).len() == k,
    decreases k,
{
    if k > 0 {
        lemma_zpad_len(n / 10, (k - 1) as nat);
    }
}

pub proof fn lemma_hexpad_len(n: nat, k: nat, upper: bool)
    ensures
        hexpad(n, k, upper).len() == k,
    decreases k,
{
    if k > 0 {
        lemma_hexpad_len(n / 16, (k - 1) as nat, upper);
    }
}

/// Appends one character to a string, through std's `String::push`, which
/// vstd gives no specification. Trusted, not proved: the contract claims what
/// std documents, that the string afterwards holds its old characters
/// followed by `c`.
#[verifier::external_body]
pub(crate) fn push_char(s: &mut String, c: char)
    ensures
        final(s)@ == old(s)@.push(c),
{
    s.push(c);
}

/// The digit `d` as a character.
pub fn digit_char(d: u64) -> (c: char)
    requires
        d < 10,
    ensures
        c == digit(d as nat),
{
    if d == 0 { '0' } else if d == 1 { '1' } else if d == 2 { '2' } else if d == 3 { '3' }
    else if d == 4 { '4' } else if d == 5 { '5' } else if d == 6 { '6' } else if d == 7 { '7' }
    else if d == 8 { '8' } else { '9' }
}

/// The nibble `d` as a hexadecimal digit.
pub fn hex_digit_char(d: u64, upper: bool) -> (c: char)
    requires
        d < 16,
    ensures
        c == hex_digit(d as nat, upper),
{
    if d < 10 {
        digit_char(d)
    } else if upper {
        if d == 10 { 'A' } else if d == 11 { 'B' } else if d == 12 { 'C' } else if d == 13 { 'D' }
        else if d == 14 { 'E' } else { 'F' }
    } else {
        if d == 10 { 'a' } else if d == 11 { 'b' } else if d == 12 { 'c' } else if d == 13 { 'd' }
        else if d == 14 { 'e' } else { 'f' }
    }
}

/// Appends the decimal digits of `n`.
pub fn push_dec(s: &mut String, n: u64)
    ensures
        final(s)@ == old(s)@ + dec(n as nat),
    decreases n,
{
    if n < 10 {
        push_char(s, digit_char(n));
    } else {
        push_dec(s, n / 10);
        push_char(s, digit_char(n % 10));
    }
}

/// Appends the decimal digits of a wide `n`.
pub fn push_dec_wide(s: &mut String, n: u128)
    ensures
        final(s)@ == old(s)@ + dec(n as nat),
    decreases n,
{
    if n < 10 {
        push_char(s, digit_char(n as u64));
    } else {
        push_dec_wide(s, n / 10);
        push_char(s, digit_char((n % 10) as u64));
    }
}

/// `n` in decimal: `1204`.
pub fn dec_string(n: u64) -> (s: String)
    ensures
        s@ == dec(n as nat),
{
    let mut s = String::new();
    push_dec(&mut s, n);
    s
}

/// Appends `n` in exactly `k` digits, zero-filled.
pub fn push_zpad(s: &mut String, n: u64, k: u32)
    ensures
        final(s)@ == old(s)@ + zpad(n as nat, k as nat),
    decreases k,
{
    if k > 0 {
        push_zpad(s, n / 10, k - 1);
        push_char(s, digit_char(n % 10));
    }
}

/// Appends `n` in exactly `k` hexadecimal digits, zero-filled.
pub fn push_hexpad(s: &mut String, n: u64, k: u32, upper: bool)
    ensures
        final(s)@ == old(s)@ + hexpad(n as nat, k as nat, upper),
    decreases k,
{
    if k > 0 {
        push_hexpad(s, n / 16, k - 1, upper);
        push_char(s, hex_digit_char(n % 16, upper));
    }
}

/// Ten to the `k`, for the `k` a `u64` can hold.
pub fn pow10_u64(k: u32) -> (r: u64)
    requires
        k <= 19,
    ensures
        r == pow10(k as nat),
        r >= 1,
    decreases k,
{
    if k == 0 {
        1
    } else {
        let p = pow10_u64(k - 1);
        assert(pow10((k - 1) as nat) <= 1_000_000_000_000_000_000) by {
            lemma_pow10_bound((k - 1) as nat);
        }
        10 * p
    }
}

pub proof fn lemma_pow10_bound(k: nat)
    requires
        k <= 18,
    ensures
        1 <= pow10(k) <= 1_000_000_000_000_000_000,
        pow10(k) * 10 == pow10(k + 1),
{
    lemma_pow10_mono(k, 18);
    assert(pow10(18) == 1_000_000_000_000_000_000) by {
        reveal_with_fuel(pow10, 19);
    }
}

/// Ten to a larger power is at least as large, and never below one.
pub proof fn lemma_pow10_mono(a: nat, b: nat)
    requires
        a <= b,
    ensures
        1 <= pow10(a) <= pow10(b),
    decreases b,
{
    if b > a {
        lemma_pow10_mono(a, (b - 1) as nat);
    } else if a > 0 {
        lemma_pow10_mono((a - 1) as nat, (a - 1) as nat);
    }
}

/// Appends `n / 10^k` with `k` decimal places.
pub fn push_fixed(s: &mut String, n: u64, k: u32)
    requires
        k <= 19,
    ensures
        final(s)@ == old(s)@ + fixed(n as nat, k as nat),
{
    if k == 0 {
        push_dec(s, n);
    } else {
        let p = pow10_u64(k);
        push_dec(s, n / p);
        push_char(s, '.');
        push_zpad(s, n % p, k);
    }
}

/// Appends `n` spaces.
pub fn push_spaces(s: &mut String, n: usize)
    ensures
        final(s)@ == old(s)@ + spaces(n as nat),
{
    push_repeat(s, ' ', n);
    assert(repeat(' ', n as nat) =~= spaces(n as nat));
}

/// Appends `n` copies of `c`.
pub fn push_repeat(s: &mut String, c: char, n: usize)
    ensures
        final(s)@ == old(s)@ + repeat(c, n as nat),
{
    let ghost start = s@;
    let mut i: usize = 0;
    while i < n
        invariant
            i <= n,
            s@ == start + repeat(c, i as nat),
        decreases n - i,
    {
        push_char(s, c);
        i = i + 1;
        assert(s@ =~= start + repeat(c, i as nat));
    }
}

/// Appends the whole of another string.
pub fn push_str(s: &mut String, t: &str)
    ensures
        final(s)@ == old(s)@ + t@,
{
    s.append(t);
}

/// A string literal or borrowed text as an owned string.
pub fn owned(t: &str) -> (s: String)
    ensures
        s@ == t@,
{
    String::from_str(t)
}

/// The number of characters (not bytes) in `t`.
pub fn char_count(t: &str) -> (n: usize)
    ensures
        n == t@.len(),
{
    t.unicode_len()
}

/// Appends `t` left-aligned in `w` columns.
pub fn push_pad_right(s: &mut String, t: &str, w: usize)
    ensures
        final(s)@ == old(s)@ + pad_right(t@, w as nat),
{
    let ghost start = s@;
    let n = char_count(t);
    push_str(s, t);
    if n < w {
        push_spaces(s, w - n);
    }
    assert(s@ =~= start + pad_right(t@, w as nat));
}

/// Appends `t` right-aligned in `w` columns.
pub fn push_pad_left(s: &mut String, t: &str, w: usize)
    ensures
        final(s)@ == old(s)@ + pad_left(t@, w as nat),
{
    let ghost start = s@;
    let n = char_count(t);
    if n < w {
        push_spaces(s, w - n);
    }
    push_str(s, t);
    assert(s@ =~= start + pad_left(t@, w as nat));
}

} // verus!
