//! Text rendering of numbers and fixed-width fields, with a specification of
//! every character produced.

use vstd::prelude::*;

verus! {

/// The lowercase hexadecimal digit for `d` (`0 <= d < 16`).
pub open spec fn hex_digit(d: int) -> char {
    if d < 10 {
        (48 + d) as char
    } else {
        (87 + d) as char
    }
}

/// The decimal digit for `d` (`0 <= d < 10`).
pub open spec fn dec_digit(d: int) -> char {
    (48 + d) as char
}

/// Lowercase hexadecimal digits of `n`, without leading zeros (`"0"` for zero).
pub open spec fn hex(n: nat) -> Seq<char>
    decreases n,
{
    if n < 16 {
        seq![hex_digit(n as int)]
    } else {
        hex(n / 16).push(hex_digit((n % 16) as int))
    }
}

/// Decimal digits of `n`, without leading zeros (`"0"` for zero).
pub open spec fn dec(n: nat) -> Seq<char>
    decreases n,
{
    if n < 10 {
        seq![dec_digit(n as int)]
    } else {
        dec(n / 10).push(dec_digit((n % 10) as int))
    }
}

/// `count` copies of `c`.
pub open spec fn repeat(c: char, count: int) -> Seq<char> {
    Seq::new(if count > 0 { count as nat } else { 0 }, |_i: int| c)
}

/// `s` left-padded with `c` to at least `width` characters.
pub open spec fn pad_left(s: Seq<char>, width: int, c: char) -> Seq<char> {
    repeat(c, width - s.len()) + s
}

/// `s` right-padded with spaces to at least `width` characters.
pub open spec fn pad_right(s: Seq<char>, width: int) -> Seq<char> {
    s + repeat(' ', width - s.len())
}

/// `{:#x}`: `0x` followed by the hexadecimal digits.
pub open spec fn hex_prefixed(n: nat) -> Seq<char> {
    seq!['0', 'x'] + hex(n)
}

/// `{:0w$x}`: hexadecimal digits zero-padded to `width`.
pub open spec fn hex_padded(n: nat, width: int) -> Seq<char> {
    pad_left(hex(n), width, '0')
}

/// Appends one character to `s`.
#[verifier::external_body]
pub(crate) fn push_char(s: &mut String, c: char)
    ensures
        final(s)@ == old(s)@.push(c),
{
    s.push(c);
}

/// Appends a string slice to `s`.
pub fn push_str(s: &mut String, t: &str)
    ensures
        final(s)@ == old(s)@ + t@,
{
    s.append(t);
}

fn hex_char(d: u64) -> (c: char)
    requires
        d < 16,
    ensures
        c == hex_digit(d as int),
{
    if d < 10 {
        ((48 + d) as u8) as char
    } else {
        ((87 + d) as u8) as char
    }
}

/// Appends the hexadecimal digits of `v` (no prefix, no padding).
pub fn push_hex(s: &mut String, v: u64)
    ensures
        final(s)@ == old(s)@ + hex(v as nat),
    decreases v,
{
    if v >= 16 {
        push_hex(s, v / 16);
    }
    push_char(s, hex_char(v % 16));
    assert(s@ =~= old(s)@ + hex(v as nat));
}

/// Number of hexadecimal digits of `v`.
pub fn hex_len(v: u64) -> (n: usize)
    ensures
        n == hex(v as nat).len(),
        1 <= n <= 16,
    decreases v,
{
    if v < 16 {
        1
    } else {
        proof { lemma_hex_len_bound(v as nat); }
        1 + hex_len(v / 16)
    }
}

proof fn lemma_hex_len_bound(n: nat)
    ensures
        n < 0x1_0000_0000_0000_0000 ==> hex(n).len() <= 16,
        hex(n).len() >= 1,
{
    reveal_with_fuel(hex, 1);
    reveal_with_fuel(pow16, 17);
    assert(pow16(16) == 0x1_0000_0000_0000_0000);
    if n < 0x1_0000_0000_0000_0000 {
        lemma_hex_len_smaller(n, 16);
    }
}

proof fn lemma_hex_len_smaller(n: nat, k: nat)
    requires
        n < pow16(k),
        k >= 1,
    ensures
        1 <= hex(n).len() <= k,
    decreases k,
{
    if n >= 16 {
        if k == 1 {
            assert(pow16(1) == 16 * pow16(0));
            assert(false);
        }
        let p = pow16((k - 1) as nat);
        assert(pow16(k) == 16 * p);
        assert(n / 16 < p) by (nonlinear_arith)
            requires
                n < 16 * p,
        ;
        lemma_hex_len_smaller(n / 16, (k - 1) as nat);
    }
}

/// `16^k`.
pub open spec fn pow16(k: nat) -> nat
    decreases k,
{
    if k == 0 {
        1
    } else {
        16 * pow16((k - 1) as nat)
    }
}

/// Appends `c` `count` times.
pub fn push_repeat(s: &mut String, c: char, count: usize)
    ensures
        final(s)@ == old(s)@ + repeat(c, count as int),
{
    let mut i: usize = 0;
    while i < count
        invariant
            i <= count,
            s@ == old(s)@ + repeat(c, i as int),
        decreases count - i,
    {
        push_char(s, c);
        i = i + 1;
        assert(s@ =~= old(s)@ + repeat(c, i as int));
    }
}

/// Appends `{:#x}` of `v`.
pub fn push_hex_prefixed(s: &mut String, v: u64)
    ensures
        final(s)@ == old(s)@ + hex_prefixed(v as nat),
{
    push_char(s, '0');
    push_char(s, 'x');
    push_hex(s, v);
    assert(s@ =~= old(s)@ + hex_prefixed(v as nat));
}

/// Appends `{:0width$x}` of `v`.
pub fn push_hex_padded(s: &mut String, v: u64, width: usize)
    ensures
        final(s)@ == old(s)@ + hex_padded(v as nat, width as int),
{
    let n = hex_len(v);
    let pad = if width > n { width - n } else { 0 };
    push_repeat(s, '0', pad);
    push_hex(s, v);
    assert(repeat('0', pad as int) =~= repeat('0', width - hex(v as nat).len()));
    assert(s@ =~= old(s)@ + hex_padded(v as nat, width as int));
}

/// Appends the decimal digits of `v`.
pub fn push_dec(s: &mut String, v: u64)
    ensures
        final(s)@ == old(s)@ + dec(v as nat),
    decreases v,
{
    if v >= 10 {
        push_dec(s, v / 10);
    }
    push_char(s, ((48 + v % 10) as u8) as char);
    assert(s@ =~= old(s)@ + dec(v as nat));
}

/// Big-endian value of a byte sequence.
pub open spec fn be_value(s: Seq<u8>) -> nat
    decreases s.len(),
{
    if s.len() == 0 {
        0
    } else {
        be_value(s.drop_last()) * 256 + s.last() as nat
    }
}

/// The two hex digits of a byte (`{:02x}`).
pub open spec fn hex2(b: u8) -> Seq<char> {
    seq![hex_digit(b as int / 16), hex_digit(b as int % 16)]
}

/// Two lowercase hex digits per byte, in order.
pub open spec fn hex_bytes(s: Seq<u8>) -> Seq<char>
    decreases s.len(),
{
    if s.len() == 0 {
        seq![]
    } else {
        hex_bytes(s.drop_last()) + hex2(s.last())
    }
}

/// Hex digits of a non-zero leading byte, without its leading zero digit.
pub open spec fn hex_lead(b: u8) -> Seq<char> {
    if b < 16 {
        seq![hex_digit(b as int)]
    } else {
        hex2(b)
    }
}

proof fn lemma_hex_shift(x: nat, b: u8)
    requires
        x > 0,
    ensures
        hex(x * 256 + b as nat) == hex(x) + hex2(b),
{
    let n: nat = x * 256 + b as nat;
    assert(n / 16 == x * 16 + b / 16) by (nonlinear_arith)
        requires
            n == x * 256 + b,
            b < 256,
    ;
    assert(n % 16 == b % 16) by (nonlinear_arith)
        requires
            n == x * 256 + b,
            b < 256,
    ;
    let m: nat = x * 16 + (b / 16) as nat;
    assert(m / 16 == x) by (nonlinear_arith)
        requires
            m == x * 16 + b / 16,
            b < 256,
    ;
    assert(m % 16 == b / 16) by (nonlinear_arith)
        requires
            m == x * 16 + b / 16,
            b < 256,
    ;
    assert(n >= 16);
    assert(m >= 16);
    assert(hex(n) == hex(n / 16).push(hex_digit((n % 16) as int)));
    assert(hex(m) == hex(m / 16).push(hex_digit((m % 16) as int)));
    assert(hex(x) + hex2(b) =~= hex(x).push(hex_digit(b as int / 16)).push(hex_digit(b as int % 16)));
}

/// `{:x}` of a big-endian number whose first byte is non-zero is the
/// shortened first byte followed by two digits per remaining byte.
pub proof fn lemma_hex_be(t: Seq<u8>)
    requires
        t.len() > 0,
        t[0] != 0,
    ensures
        be_value(t) > 0,
        hex(be_value(t)) == hex_lead(t[0]) + hex_bytes(t.drop_first()),
    decreases t.len(),
{
    if t.len() == 1 {
        assert(t.drop_last().len() == 0);
        assert(be_value(t.drop_last()) == 0);
        assert(t.last() == t[0]);
        assert(be_value(t) == t[0]);
        assert(t.drop_first() =~= Seq::<u8>::empty());
        if t[0] >= 16 {
            let n: nat = t[0] as nat;
            assert(n / 16 < 16);
            assert(hex(n) == hex(n / 16).push(hex_digit((n % 16) as int)));
            assert(hex(n) =~= hex2(t[0]));
        }
        assert(hex_lead(t[0]) + hex_bytes(t.drop_first()) =~= hex_lead(t[0]));
    } else {
        let s = t.drop_last();
        assert(s[0] == t[0]);
        lemma_hex_be(s);
        lemma_hex_shift(be_value(s), t.last());
        assert(t.drop_first().drop_last() =~= s.drop_first());
        assert(t.drop_first().last() == t.last());
        assert(hex_bytes(t.drop_first()) == hex_bytes(s.drop_first()) + hex2(t.last()));
        assert(hex(be_value(t)) =~= hex_lead(t[0]) + hex_bytes(t.drop_first()));
    }
}

pub(crate) fn push_hex2(s: &mut String, b: u8)
    ensures
        final(s)@ == old(s)@ + hex2(b),
{
    push_char(s, hex_char((b / 16) as u64));
    push_char(s, hex_char((b % 16) as u64));
    assert(s@ =~= old(s)@ + hex2(b));
}

/// Appends two lowercase hex digits per byte (`{:02x}` each).
pub fn push_hex_bytes(s: &mut String, b: &[u8])
    ensures
        final(s)@ == old(s)@ + hex_bytes(b@),
{
    let mut i: usize = 0;
    while i < b.len()
        invariant
            i <= b@.len(),
            s@ == old(s)@ + hex_bytes(b@.take(i as int)),
        decreases b@.len() - i,
    {
        push_hex2(s, b[i]);
        assert(b@.take(i + 1).drop_last() =~= b@.take(i as int));
        i = i + 1;
        assert(s@ =~= old(s)@ + hex_bytes(b@.take(i as int)));
    }
    assert(b@.take(i as int) =~= b@);
}

/// `{:x}` of the big-endian number held in `b` (`"0"` for zero).
pub fn hex_of_be(b: &[u8]) -> (s: String)
    ensures
        s@ == hex(be_value(b@)),
{
    let mut z: usize = 0;
    while z < b.len() && b[z] == 0
        invariant
            z <= b@.len(),
            forall|k: int| 0 <= k < z ==> b@[k] == 0,
        decreases b@.len() - z,
    {
        z = z + 1;
    }
    proof {
        lemma_be_leading_zeros(b@, z as int);
    }
    let mut s = String::new();
    if z == b.len() {
        push_char(&mut s, '0');
        assert(s@ =~= hex(0));
        return s;
    }
    let t = vstd::slice::slice_subrange(b, z, b.len());
    let lead = t[0];
    if lead < 16 {
        push_char(&mut s, hex_char(lead as u64));
    } else {
        push_hex2(&mut s, lead);
    }
    let rest = vstd::slice::slice_subrange(t, 1, t.len());
    assert(rest@ =~= t@.drop_first());
    push_hex_bytes(&mut s, rest);
    proof {
        lemma_hex_be(t@);
        assert(s@ =~= hex_lead(t@[0]) + hex_bytes(t@.drop_first()));
    }
    s
}

/// Leading zero bytes do not change a big-endian value.
pub proof fn lemma_be_leading_zeros(s: Seq<u8>, z: int)
    requires
        0 <= z <= s.len(),
        forall|k: int| 0 <= k < z ==> s[k] == 0,
    ensures
        be_value(s) == be_value(s.subrange(z, s.len() as int)),
    decreases s.len(),
{
    if z == s.len() {
        lemma_be_zero(s);
    } else {
        let t = s.drop_last();
        lemma_be_leading_zeros(t, z);
        assert(s.subrange(z, s.len() as int).drop_last() =~= t.subrange(z, t.len() as int));
    }
}

proof fn lemma_be_zero(s: Seq<u8>)
    requires
        forall|k: int| 0 <= k < s.len() ==> s[k] == 0,
    ensures
        be_value(s) == 0,
    decreases s.len(),
{
    if s.len() > 0 {
        lemma_be_zero(s.drop_last());
    }
}

} // verus!
