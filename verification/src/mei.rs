//! The Management Engine as seen on the *running* machine: the HECI/MEI PCI
//! function and the kernel's `fw_ver` / `fw_status` text. This module holds
//! the data and the text parsing; reading sysfs is left to the caller.

use crate::fmt::{dec, push_dec, push_str};
use crate::text::{chars_le, lemma_text_le_total, lemma_text_le_trans, str_chars, text_le};
use vstd::prelude::*;

verus! {

/// An Intel HECI/MEI PCI function found on the bus.
#[derive(Debug, Clone)]
pub struct PciDevice {
    pub address: String,
    pub vendor: u16,
    pub device: u16,
    pub class: u32,
}

/// One firmware-version block as reported by the kernel (`platform:maj.min.hotfix.build`).
#[derive(Debug, Clone, Copy, PartialEq, Eq, Structural)]
pub struct FwVer {
    pub platform: u16,
    pub major: u16,
    pub minor: u16,
    pub hotfix: u16,
    pub build: u16,
}

/// Result of probing the running system.
#[derive(Debug, Clone)]
pub struct MeiProbe {
    /// Intel HECI/MEI PCI functions on the bus.
    pub pci: Vec<PciDevice>,
    /// `/dev/mei0` exists (driver bound, engine reachable).
    pub dev_node: bool,
    /// sysfs `dev_state` (e.g. `ENABLED`, `DISABLED`, `INIT_CLIENTS`).
    pub dev_state: Option<String>,
    /// Parsed sysfs `fw_ver` blocks (code / recovery / FITC).
    pub fw_ver: Vec<FwVer>,
    /// sysfs `fw_status` HFSTS registers.
    pub fw_status: Vec<u32>,
}

/// The family text for a major version.
pub open spec fn family_text(major: u16) -> Seq<char> {
    if 11 <= major <= 19 {
        "CSME "@ + dec(major as nat)
    } else if 6 <= major <= 10 {
        "ME "@ + dec(major as nat)
    } else if 1 <= major <= 5 {
        "ME/TXE "@ + dec(major as nat)
    } else {
        "ME (major "@ + dec(major as nat) + ")"@
    }
}

/// `major.minor.hotfix.build`.
pub open spec fn fw_ver_text(v: FwVer) -> Seq<char> {
    dec(v.major as nat) + "."@ + dec(v.minor as nat) + "."@ + dec(v.hotfix as nat) + "."@ + dec(
        v.build as nat,
    )
}

impl FwVer {
    /// Human name for the ME family, keyed off the major version.
    pub fn family(&self) -> (s: String)
        ensures
            s@ == family_text(self.major),
    {
        let mut s = String::new();
        if 11 <= self.major && self.major <= 19 {
            push_str(&mut s, "CSME ");
            push_dec(&mut s, self.major as u64);
        } else if 6 <= self.major && self.major <= 10 {
            push_str(&mut s, "ME ");
            push_dec(&mut s, self.major as u64);
        } else if 1 <= self.major && self.major <= 5 {
            push_str(&mut s, "ME/TXE ");
            push_dec(&mut s, self.major as u64);
        } else {
            push_str(&mut s, "ME (major ");
            push_dec(&mut s, self.major as u64);
            push_str(&mut s, ")");
        }
        proof {
            reveal_strlit("CSME ");
            reveal_strlit("ME ");
            reveal_strlit("ME/TXE ");
            reveal_strlit("ME (major ");
            reveal_strlit(")");
        }
        s
    }

    /// The version as `major.minor.hotfix.build`.
    pub fn to_string(&self) -> (s: String)
        ensures
            s@ == fw_ver_text(*self),
    {
        let mut s = String::new();
        push_dec(&mut s, self.major as u64);
        push_str(&mut s, ".");
        push_dec(&mut s, self.minor as u64);
        push_str(&mut s, ".");
        push_dec(&mut s, self.hotfix as u64);
        push_str(&mut s, ".");
        push_dec(&mut s, self.build as u64);
        s
    }
}

/// `char::is_whitespace`: the Unicode `White_Space` characters.
pub open spec fn is_space(c: char) -> bool {
    let u = c as u32;
    ||| 0x09 <= u <= 0x0d
    ||| u == 0x20
    ||| u == 0x85
    ||| u == 0xa0
    ||| u == 0x1680
    ||| 0x2000 <= u <= 0x200a
    ||| u == 0x2028
    ||| u == 0x2029
    ||| u == 0x202f
    ||| u == 0x205f
    ||| u == 0x3000
}

/// `s` without leading white space.
pub open spec fn trim_start(s: Seq<char>) -> Seq<char>
    decreases s.len(),
{
    if s.len() > 0 && is_space(s[0]) {
        trim_start(s.drop_first())
    } else {
        s
    }
}

/// `s` without trailing white space.
pub open spec fn trim_end(s: Seq<char>) -> Seq<char>
    decreases s.len(),
{
    if s.len() > 0 && is_space(s.last()) {
        trim_end(s.drop_last())
    } else {
        s
    }
}

/// `s` without leading or trailing white space.
pub open spec fn trim(s: Seq<char>) -> Seq<char> {
    trim_end(trim_start(s))
}

/// Index of the first `c` in `s` at or after `i`, or `s.len()`.
pub open spec fn find_char(s: Seq<char>, c: char, i: int) -> int
    decreases s.len() - i,
{
    if i >= s.len() || s[i] == c {
        i
    } else {
        find_char(s, c, i + 1)
    }
}

/// The pieces of `s` between occurrences of `c` (one empty piece for an empty `s`).
pub open spec fn split_on(s: Seq<char>, c: char) -> Seq<Seq<char>>
    decreases s.len(),
{
    if s.len() == 0 {
        seq![Seq::<char>::empty()]
    } else {
        let rest = split_on(s.drop_last(), c);
        if s.last() == c {
            rest.push(Seq::<char>::empty())
        } else {
            rest.update(rest.len() - 1, rest.last().push(s.last()))
        }
    }
}

/// Value of digit `c` in `radix` (`char::to_digit`), or `-1`.
pub open spec fn digit_in(c: char, radix: int) -> int {
    let d = if '0' <= c <= '9' {
        c as int - '0' as int
    } else if 'a' <= c <= 'z' {
        c as int - 'a' as int + 10
    } else if 'A' <= c <= 'Z' {
        c as int - 'A' as int + 10
    } else {
        radix
    };
    if d < radix {
        d
    } else {
        -1
    }
}

/// Value of a run of digits in `radix`.
pub open spec fn radix_value(s: Seq<char>, radix: int) -> int
    decreases s.len(),
{
    if s.len() == 0 {
        0
    } else {
        radix_value(s.drop_last(), radix) * radix + digit_in(s.last(), radix)
    }
}

/// `s` with one leading `+` removed.
pub open spec fn unsigned_digits(s: Seq<char>) -> Seq<char> {
    if s.len() > 0 && s[0] == '+' {
        s.drop_first()
    } else {
        s
    }
}

/// `from_str_radix` for an unsigned type whose largest value is `max`: an
/// optional `+`, then at least one digit, all of them digits of `radix`, and
/// a value no larger than `max`.
pub open spec fn spec_parse_uint(s: Seq<char>, radix: int, max: int) -> Option<int> {
    let d = unsigned_digits(s);
    if d.len() > 0 && (forall|i: int| 0 <= i < d.len() ==> digit_in(#[trigger] d[i], radix) >= 0)
        && radix_value(d, radix) <= max {
        Some(radix_value(d, radix))
    } else {
        None
    }
}

/// `str::parse::<u16>`.
pub open spec fn spec_parse_u16(s: Seq<char>) -> Option<u16> {
    match spec_parse_uint(s, 10, 0xffff) {
        Some(x) => Some(x as u16),
        None => None,
    }
}

/// `u32::from_str_radix(s, 16)`.
pub open spec fn spec_parse_hex32(s: Seq<char>) -> Option<u32> {
    match spec_parse_uint(s, 16, 0xffff_ffff) {
        Some(x) => Some(x as u32),
        None => None,
    }
}

/// `s.trim_start_matches("0x")`.
pub open spec fn strip_0x(s: Seq<char>) -> Seq<char>
    decreases s.len(),
{
    if s.len() >= 2 && s[0] == '0' && s[1] == 'x' {
        strip_0x(s.skip(2))
    } else {
        s
    }
}

/// What a `fw_ver` line denotes: `platform:major.minor.hotfix.build` after
/// trimming, every field a `u16`, exactly four dotted fields.
pub open spec fn spec_fw_ver(line: Seq<char>) -> Option<FwVer> {
    let t = trim(line);
    let colon = find_char(t, ':', 0);
    if colon >= t.len() {
        None
    } else {
        let platform = spec_parse_u16(t.take(colon));
        let f = split_on(t.skip(colon + 1), '.');
        if platform is Some && f.len() == 4 && spec_parse_u16(f[0]) is Some && spec_parse_u16(
            f[1],
        ) is Some && spec_parse_u16(f[2]) is Some && spec_parse_u16(f[3]) is Some {
            Some(
                FwVer {
                    platform: platform->0,
                    major: spec_parse_u16(f[0])->0,
                    minor: spec_parse_u16(f[1])->0,
                    hotfix: spec_parse_u16(f[2])->0,
                    build: spec_parse_u16(f[3])->0,
                },
            )
        } else {
            None
        }
    }
}

fn is_space_char(c: char) -> (b: bool)
    ensures
        b == is_space(c),
{
    let u = c as u32;
    (0x09 <= u && u <= 0x0d) || u == 0x20 || u == 0x85 || u == 0xa0 || u == 0x1680 || (0x2000 <= u
        && u <= 0x200a) || u == 0x2028 || u == 0x2029 || u == 0x202f || u == 0x205f || u == 0x3000
}

proof fn lemma_trim_start(s: Seq<char>, i: int)
    requires
        0 <= i <= s.len(),
        forall|k: int| 0 <= k < i ==> is_space(#[trigger] s[k]),
    ensures
        trim_start(s) == trim_start(s.skip(i)),
    decreases i,
{
    if i > 0 {
        assert(s.skip(1).skip(i - 1) =~= s.skip(i));
        assert(forall|k: int| 0 <= k < i - 1 ==> s.skip(1)[k] == s[k + 1]);
        lemma_trim_start(s.drop_first(), i - 1);
    } else {
        assert(s.skip(0) =~= s);
    }
}

proof fn lemma_trim_end(s: Seq<char>, j: int)
    requires
        0 <= j <= s.len(),
        forall|k: int| j <= k < s.len() ==> is_space(#[trigger] s[k]),
    ensures
        trim_end(s) == trim_end(s.take(j)),
    decreases s.len() - j,
{
    if j < s.len() {
        assert(s.drop_last().take(j) =~= s.take(j));
        lemma_trim_end(s.drop_last(), j);
    } else {
        assert(s.take(j) =~= s);
    }
}

/// The bounds of `trim(v[a..b])` within `v`.
pub(crate) fn trim_bounds(v: &Vec<char>, a: usize, b: usize) -> (r: (usize, usize))
    requires
        a <= b <= v@.len(),
    ensures
        a <= r.0 <= r.1 <= b,
        v@.subrange(r.0 as int, r.1 as int) == trim(v@.subrange(a as int, b as int)),
{
    let ghost w = v@.subrange(a as int, b as int);
    let mut lo: usize = a;
    while lo < b && is_space_char(v[lo])
        invariant
            a <= lo <= b <= v@.len(),
            forall|k: int| a <= k < lo ==> is_space(#[trigger] v@[k]),
        decreases b - lo,
    {
        lo = lo + 1;
    }
    let ghost s = w.skip(lo - a);
    proof {
        assert forall|k: int| 0 <= k < lo - a implies is_space(#[trigger] w[k]) by {
            assert(w[k] == v@[k + a]);
        }
        lemma_trim_start(w, lo - a);
        if s.len() > 0 {
            assert(s[0] == v@[lo as int]);
        }
        assert(trim_start(s) == s);
    }
    let mut hi: usize = b;
    while hi > lo && is_space_char(v[hi - 1])
        invariant
            lo <= hi <= b <= v@.len(),
            forall|k: int| hi <= k < b ==> is_space(#[trigger] v@[k]),
        decreases hi,
    {
        hi = hi - 1;
    }
    proof {
        assert forall|k: int| hi - lo <= k < s.len() implies is_space(#[trigger] s[k]) by {
            assert(s[k] == v@[k + lo]);
        }
        lemma_trim_end(s, hi - lo);
        assert(s.take(hi - lo) =~= v@.subrange(lo as int, hi as int));
        let t = v@.subrange(lo as int, hi as int);
        if t.len() > 0 {
            assert(t.last() == v@[hi - 1]);
        }
        assert(trim_end(t) == t);
    }
    (lo, hi)
}

proof fn lemma_radix_value_mono(s: Seq<char>, n: int, radix: int)
    requires
        0 <= n <= s.len(),
        radix >= 2,
        forall|i: int| 0 <= i < s.len() ==> digit_in(#[trigger] s[i], radix) >= 0,
    ensures
        0 <= radix_value(s.take(n), radix) <= radix_value(s, radix),
    decreases s.len(),
{
    if s.len() > 0 {
        let dl = s.drop_last();
        assert forall|i: int| 0 <= i < dl.len() implies digit_in(#[trigger] dl[i], radix) >= 0 by {
            assert(dl[i] == s[i]);
        }
        assert(digit_in(s[s.len() - 1], radix) >= 0);
        lemma_radix_value_mono(dl, dl.len() as int, radix);
        assert(dl.take(dl.len() as int) =~= dl);
        let x = radix_value(dl, radix);
        assert(x * radix >= x) by (nonlinear_arith)
            requires
                x >= 0,
                radix >= 2,
        ;
        if n < s.len() {
            lemma_radix_value_mono(dl, n, radix);
            assert(dl.take(n) =~= s.take(n));
        } else {
            assert(s.take(n) =~= s);
        }
    } else {
        assert(s.take(n) =~= s);
    }
}

fn digit_of(c: char, radix: u32) -> (d: Option<u32>)
    requires
        2 <= radix <= 36,
    ensures
        match d {
            Some(x) => x == digit_in(c, radix as int) && x < radix,
            None => digit_in(c, radix as int) < 0,
        },
{
    let u = c as u32;
    let x: u32 = if 0x30 <= u && u <= 0x39 {
        u - 0x30
    } else if 0x61 <= u && u <= 0x7a {
        u - 0x61 + 10
    } else if 0x41 <= u && u <= 0x5a {
        u - 0x41 + 10
    } else {
        radix
    };
    if x < radix {
        Some(x)
    } else {
        None
    }
}

/// `from_str_radix` of `v[lo..hi]` for a type whose largest value is `max`.
fn parse_uint_at(v: &Vec<char>, lo: usize, hi: usize, radix: u32, max: u32) -> (r: Option<u32>)
    requires
        lo <= hi <= v@.len(),
        2 <= radix <= 36,
    ensures
        match spec_parse_uint(v@.subrange(lo as int, hi as int), radix as int, max as int) {
            Some(x) => r == Some(x as u32) && 0 <= x <= max,
            None => r is None,
        },
        r matches Some(y) ==> y <= max,
{
    let ghost s = v@.subrange(lo as int, hi as int);
    let mut i = lo;
    if i < hi && v[i] == '+' {
        i = i + 1;
    }
    let ghost d = v@.subrange(i as int, hi as int);
    assert(d =~= unsigned_digits(s));
    if i == hi {
        return None;
    }
    let start = i;
    let mut val: u64 = 0;
    while i < hi
        invariant
            start <= i <= hi <= v@.len(),
            2 <= radix <= 36,
            d == v@.subrange(start as int, hi as int),
            d == unsigned_digits(v@.subrange(lo as int, hi as int)),
            d.len() > 0,
            val <= max,
            forall|k: int| start <= k < i ==> digit_in(#[trigger] v@[k], radix as int) >= 0,
            val == radix_value(v@.subrange(start as int, i as int), radix as int),
        decreases hi - i,
    {
        let c = v[i];
        let dig = match digit_of(c, radix) {
            Some(x) => x,
            None => {
                assert(digit_in(d[i - start], radix as int) < 0);
                return None;
            },
        };
        assert(val * (radix as u64) <= 0xffff_ffff * 36) by (nonlinear_arith)
            requires
                val <= 0xffff_ffff,
                radix <= 36,
        ;
        let next = val * (radix as u64) + dig as u64;
        proof {
            assert(v@.subrange(start as int, i + 1).drop_last() =~= v@.subrange(start as int, i as int));
        }
        if next > max as u64 {
            proof {
                if forall|k: int| 0 <= k < d.len() ==> digit_in(#[trigger] d[k], radix as int) >= 0 {
                    lemma_radix_value_mono(d, i + 1 - start, radix as int);
                    assert(d.take(i + 1 - start) =~= v@.subrange(start as int, i + 1));
                }
            }
            return None;
        }
        val = next;
        i = i + 1;
    }
    assert(v@.subrange(start as int, i as int) =~= d);
    assert forall|k: int| 0 <= k < d.len() implies digit_in(#[trigger] d[k], radix as int) >= 0 by {
        assert(d[k] == v@[k + start]);
    }
    Some(val as u32)
}

/// `str::parse::<u16>` of `v[lo..hi]`.
fn parse_u16_at(v: &Vec<char>, lo: usize, hi: usize) -> (r: Option<u16>)
    requires
        lo <= hi <= v@.len(),
    ensures
        r == spec_parse_u16(v@.subrange(lo as int, hi as int)),
{
    match parse_uint_at(v, lo, hi, 10, 0xffff) {
        Some(x) => Some(x as u16),
        None => None,
    }
}

proof fn lemma_split_push(s: Seq<char>, c: char, x: char)
    ensures
        split_on(s.push(x), c) == (if x == c {
            split_on(s, c).push(Seq::<char>::empty())
        } else {
            split_on(s, c).update(split_on(s, c).len() - 1, split_on(s, c).last().push(x))
        }),
{
    assert(s.push(x).drop_last() =~= s);
}

proof fn lemma_split_len(s: Seq<char>, c: char)
    ensures
        split_on(s, c).len() >= 1,
    decreases s.len(),
{
    if s.len() > 0 {
        lemma_split_len(s.drop_last(), c);
    }
}

/// Parse one `fw_ver` line, e.g. `0:16.0.15.1620`. Returns `None` on any garbage.
pub fn parse_fw_ver(line: &str) -> (r: Option<FwVer>)
    ensures
        r == spec_fw_ver(line@),
{
    let v = str_chars(line);
    assert(v@.subrange(0, v@.len() as int) =~= v@);
    fw_ver_in(&v, 0, v.len())
}

/// `parse_fw_ver` of the characters `v[a..b]`.
#[verifier::spinoff_prover]
fn fw_ver_in(v: &Vec<char>, a: usize, b: usize) -> (r: Option<FwVer>)
    requires
        a <= b <= v@.len(),
    ensures
        r == spec_fw_ver(v@.subrange(a as int, b as int)),
{
    let (lo, hi) = trim_bounds(v, a, b);
    let ghost t = v@.subrange(lo as int, hi as int);
    let mut colon = lo;
    while colon < hi && v[colon] != ':'
        invariant
            lo <= colon <= hi <= v@.len(),
            t == v@.subrange(lo as int, hi as int),
            find_char(t, ':', 0) == find_char(t, ':', colon - lo),
        decreases hi - colon,
    {
        colon = colon + 1;
    }
    if colon == hi {
        return None;
    }
    assert(find_char(t, ':', colon - lo) == colon - lo);
    assert(t.take(colon - lo) =~= v@.subrange(lo as int, colon as int));
    let platform = parse_u16_at(v, lo, colon);
    // Field boundaries after the colon.
    let ghost rest = t.skip(colon - lo + 1);
    assert(rest =~= v@.subrange(colon + 1, hi as int));
    let mut bounds: Vec<(usize, usize)> = Vec::new();
    let mut seg_start = colon + 1;
    let mut i = colon + 1;
    proof {
        assert(v@.subrange(colon + 1, colon + 1) =~= Seq::<char>::empty());
        assert(split_on(Seq::<char>::empty(), '.') =~= seq![Seq::<char>::empty()]);
    }
    while i < hi
        invariant
            colon + 1 <= seg_start <= i <= hi <= v@.len(),
            split_on(v@.subrange(colon + 1, i as int), '.') == bounds@.map_values(
                |b: (usize, usize)| v@.subrange(b.0 as int, b.1 as int),
            ).push(v@.subrange(seg_start as int, i as int)),
            forall|k: int| 0 <= k < bounds@.len() ==> #[trigger] bounds@[k].0 <= bounds@[k].1 <= v@.len(),
        decreases hi - i,
    {
        let ghost pre = v@.subrange(colon + 1, i as int);
        proof {
            lemma_split_push(pre, '.', v@[i as int]);
            assert(v@.subrange(colon + 1, i + 1) =~= pre.push(v@[i as int]));
        }
        if v[i] == '.' {
            let ghost old_b = bounds@;
            bounds.push((seg_start, i));
            proof {
                assert forall|k: int| 0 <= k < bounds@.len() implies #[trigger] bounds@[k].0 <= bounds@[k].1
                    <= v@.len() by {
                    if k < old_b.len() {
                        assert(bounds@[k] == old_b[k]);
                    }
                }
            }
            seg_start = i + 1;
            proof {
                assert(v@.subrange(seg_start as int, i + 1) =~= Seq::<char>::empty());
            }
        } else {
            proof {
                assert(v@.subrange(seg_start as int, i + 1) =~= v@.subrange(seg_start as int, i as int).push(v@[i as int]));
            }
        }
        i = i + 1;
        proof {
            let m = bounds@.map_values(|b: (usize, usize)| v@.subrange(b.0 as int, b.1 as int));
            assert(split_on(v@.subrange(colon + 1, i as int), '.') =~= m.push(v@.subrange(seg_start as int, i as int)));
        }
    }
    bounds.push((seg_start, hi));
    let ghost f = split_on(rest, '.');
    proof {
        assert(f =~= bounds@.map_values(|b: (usize, usize)| v@.subrange(b.0 as int, b.1 as int)));
    }
    if bounds.len() != 4 {
        return None;
    }
    let (a0, b0) = bounds[0];
    let (a1, b1) = bounds[1];
    let (a2, b2) = bounds[2];
    let (a3, b3) = bounds[3];
    assert(f[0] == v@.subrange(a0 as int, b0 as int));
    assert(f[1] == v@.subrange(a1 as int, b1 as int));
    assert(f[2] == v@.subrange(a2 as int, b2 as int));
    assert(f[3] == v@.subrange(a3 as int, b3 as int));
    let platform = match platform {
        Some(p) => p,
        None => return None,
    };
    let major = match parse_u16_at(v, a0, b0) {
        Some(x) => x,
        None => return None,
    };
    let minor = match parse_u16_at(v, a1, b1) {
        Some(x) => x,
        None => return None,
    };
    let hotfix = match parse_u16_at(v, a2, b2) {
        Some(x) => x,
        None => return None,
    };
    let build = match parse_u16_at(v, a3, b3) {
        Some(x) => x,
        None => return None,
    };
    Some(FwVer { platform, major, minor, hotfix, build })
}

/// Bounds, within `v`, of the pieces of `v[a..b]` between occurrences of `c`.
#[verifier::spinoff_prover]
pub(crate) fn split_bounds(v: &Vec<char>, a: usize, b: usize, c: char) -> (r: Vec<(usize, usize)>)
    requires
        a <= b <= v@.len(),
    ensures
        r@.map_values(|p: (usize, usize)| v@.subrange(p.0 as int, p.1 as int)) == split_on(
            v@.subrange(a as int, b as int),
            c,
        ),
        forall|k: int| 0 <= k < r@.len() ==> a <= #[trigger] r@[k].0 <= r@[k].1 <= b,
{
    let mut bounds: Vec<(usize, usize)> = Vec::new();
    let mut seg_start = a;
    let mut i = a;
    proof {
        assert(v@.subrange(a as int, a as int) =~= Seq::<char>::empty());
        assert(split_on(Seq::<char>::empty(), c) =~= seq![Seq::<char>::empty()]);
        assert(bounds@.map_values(|p: (usize, usize)| v@.subrange(p.0 as int, p.1 as int)).push(
            v@.subrange(seg_start as int, i as int),
        ) =~= seq![Seq::<char>::empty()]);
    }
    while i < b
        invariant
            a <= seg_start <= i <= b <= v@.len(),
            split_on(v@.subrange(a as int, i as int), c) == bounds@.map_values(
                |p: (usize, usize)| v@.subrange(p.0 as int, p.1 as int),
            ).push(v@.subrange(seg_start as int, i as int)),
            forall|k: int| 0 <= k < bounds@.len() ==> a <= #[trigger] bounds@[k].0 <= bounds@[k].1 <= i,
        decreases b - i,
    {
        let ghost pre = v@.subrange(a as int, i as int);
        proof {
            lemma_split_push(pre, c, v@[i as int]);
            assert(v@.subrange(a as int, i + 1) =~= pre.push(v@[i as int]));
        }
        if v[i] == c {
            let ghost old_b = bounds@;
            bounds.push((seg_start, i));
            proof {
                assert forall|k: int| 0 <= k < bounds@.len() implies a <= #[trigger] bounds@[k].0
                    <= bounds@[k].1 <= i + 1 by {
                    if k < old_b.len() {
                        assert(bounds@[k] == old_b[k]);
                    }
                }
            }
            seg_start = i + 1;
            proof {
                assert(v@.subrange(seg_start as int, i + 1) =~= Seq::<char>::empty());
            }
        } else {
            proof {
                assert(v@.subrange(seg_start as int, i + 1) =~= v@.subrange(seg_start as int, i as int).push(
                    v@[i as int],
                ));
            }
        }
        i = i + 1;
        proof {
            let m = bounds@.map_values(|p: (usize, usize)| v@.subrange(p.0 as int, p.1 as int));
            assert(split_on(v@.subrange(a as int, i as int), c) =~= m.push(
                v@.subrange(seg_start as int, i as int),
            ));
        }
    }
    bounds.push((seg_start, b));
    proof {
        assert(bounds@.map_values(|p: (usize, usize)| v@.subrange(p.0 as int, p.1 as int)) =~= split_on(
            v@.subrange(a as int, b as int),
            c,
        ));
    }
    bounds
}

/// The versions parsed from the lines of a `fw_ver` file, skipping the
/// lines that do not parse.
pub open spec fn fw_vers_of(lines: Seq<Seq<char>>) -> Seq<FwVer>
    decreases lines.len(),
{
    if lines.len() == 0 {
        seq![]
    } else {
        fw_vers_of(lines.drop_last()) + match spec_fw_ver(lines.last()) {
            Some(v) => seq![v],
            None => seq![],
        }
    }
}

/// The registers parsed (hexadecimal, after trimming) from the lines of a
/// `fw_status` file, skipping the lines that do not parse.
pub open spec fn statuses_of(lines: Seq<Seq<char>>) -> Seq<u32>
    decreases lines.len(),
{
    if lines.len() == 0 {
        seq![]
    } else {
        statuses_of(lines.drop_last()) + match spec_parse_hex32(trim(lines.last())) {
            Some(v) => seq![v],
            None => seq![],
        }
    }
}

/// Every parseable `fw_ver` line of `text`, in order. A `\r` before a line
/// break is white space and is trimmed with the rest, and an empty last line
/// never parses, so splitting at `\n` sees the same lines as `str::lines`.
pub fn parse_fw_ver_lines(text: &str) -> (r: Vec<FwVer>)
    ensures
        r@ == fw_vers_of(split_on(text@, '\n')),
{
    let v = str_chars(text);
    assert(v@.subrange(0, v@.len() as int) =~= v@);
    let lines = split_bounds(&v, 0, v.len(), '\n');
    let ghost pieces = split_on(v@, '\n');
    let mut out: Vec<FwVer> = Vec::new();
    let mut k: usize = 0;
    while k < lines.len()
        invariant
            k <= lines@.len(),
            pieces == lines@.map_values(|p: (usize, usize)| v@.subrange(p.0 as int, p.1 as int)),
            forall|j: int| 0 <= j < lines@.len() ==> 0 <= #[trigger] lines@[j].0 <= lines@[j].1 <= v@.len(),
            out@ == fw_vers_of(pieces.take(k as int)),
        decreases lines@.len() - k,
    {
        let (a, b) = lines[k];
        let p = fw_ver_in(&v, a, b);
        proof {
            assert(pieces.take(k + 1).drop_last() =~= pieces.take(k as int));
            assert(pieces[k as int] == v@.subrange(a as int, b as int));
        }
        match p {
            Some(fv) => out.push(fv),
            None => {},
        }
        k = k + 1;
        assert(out@ =~= fw_vers_of(pieces.take(k as int)));
    }
    assert(pieces.take(k as int) =~= pieces);
    out
}

/// Every parseable `fw_status` line of `text` (hexadecimal), in order.
pub fn parse_fw_status(text: &str) -> (r: Vec<u32>)
    ensures
        r@ == statuses_of(split_on(text@, '\n')),
{
    let v = str_chars(text);
    assert(v@.subrange(0, v@.len() as int) =~= v@);
    let lines = split_bounds(&v, 0, v.len(), '\n');
    let ghost pieces = split_on(v@, '\n');
    let mut out: Vec<u32> = Vec::new();
    let mut k: usize = 0;
    while k < lines.len()
        invariant
            k <= lines@.len(),
            pieces == lines@.map_values(|p: (usize, usize)| v@.subrange(p.0 as int, p.1 as int)),
            forall|j: int| 0 <= j < lines@.len() ==> 0 <= #[trigger] lines@[j].0 <= lines@[j].1 <= v@.len(),
            out@ == statuses_of(pieces.take(k as int)),
        decreases lines@.len() - k,
    {
        let (a, b) = lines[k];
        let (lo, hi) = trim_bounds(&v, a, b);
        let p = parse_uint_at(&v, lo, hi, 16, 0xffff_ffff);
        proof {
            assert(pieces.take(k + 1).drop_last() =~= pieces.take(k as int));
            assert(pieces[k as int] == v@.subrange(a as int, b as int));
        }
        match p {
            Some(x) => out.push(x),
            None => {},
        }
        k = k + 1;
        assert(out@ =~= statuses_of(pieces.take(k as int)));
    }
    assert(pieces.take(k as int) =~= pieces);
    out
}

/// Value of a sysfs PCI attribute: `0x` prefixes dropped, then hexadecimal.
pub open spec fn pci_attr(s: Seq<char>) -> Option<u32> {
    spec_parse_hex32(strip_0x(s))
}

/// The HECI/MEI function described by a PCI device's sysfs attributes, if
/// it is one: an Intel (`0x8086`) communication controller of class `0x0780xx`.
pub open spec fn spec_heci_function(address: Seq<char>, vendor: Seq<char>, device: Seq<char>, class: Seq<char>) -> Option<(u16, u16, u32)> {
    match (pci_attr(vendor), pci_attr(device), pci_attr(class)) {
        (Some(ven), Some(dev), Some(cls)) => if ven == 0x8086 && cls / 0x100 == 0x0780 {
            Some(((ven % 0x1_0000) as u16, (dev % 0x1_0000) as u16, cls))
        } else {
            None
        },
        _ => None,
    }
}

/// `pci_attr` of `v[a..b]`.
fn pci_attr_in(v: &Vec<char>, a: usize, b: usize) -> (r: Option<u32>)
    requires
        a <= b <= v@.len(),
    ensures
        r == pci_attr(v@.subrange(a as int, b as int)),
{
    let mut i = a;
    while b - i >= 2 && v[i] == '0' && v[i + 1] == 'x'
        invariant
            a <= i <= b <= v@.len(),
            strip_0x(v@.subrange(a as int, b as int)) == strip_0x(v@.subrange(i as int, b as int)),
        decreases b - i,
    {
        proof {
            let w = v@.subrange(i as int, b as int);
            assert(w[0] == v@[i as int] && w[1] == v@[i + 1]);
            assert(w.skip(2) =~= v@.subrange(i + 2, b as int));
        }
        i = i + 2;
    }
    proof {
        let w = v@.subrange(i as int, b as int);
        if w.len() >= 2 {
            assert(w[0] == v@[i as int] && w[1] == v@[i + 1]);
        }
    }
    match parse_uint_at(v, i, b, 16, 0xffff_ffff) {
        Some(x) => Some(x),
        None => None,
    }
}

/// The HECI/MEI function at `address` with the given sysfs `vendor`,
/// `device` and `class` text, or `None` when it is not one.
pub fn heci_function(address: String, vendor: &str, device: &str, class: &str) -> (r: Option<PciDevice>)
    ensures
        match spec_heci_function(address@, vendor@, device@, class@) {
            Some(t) => r matches Some(p) && p.address@ == address@ && p.vendor == t.0 && p.device
                == t.1 && p.class == t.2,
            None => r is None,
        },
{
    let ve = str_chars(vendor);
    let de = str_chars(device);
    let cl = str_chars(class);
    assert(ve@.subrange(0, ve@.len() as int) =~= ve@);
    assert(de@.subrange(0, de@.len() as int) =~= de@);
    assert(cl@.subrange(0, cl@.len() as int) =~= cl@);
    let ven = pci_attr_in(&ve, 0, ve.len());
    let dev = pci_attr_in(&de, 0, de.len());
    let cls = pci_attr_in(&cl, 0, cl.len());
    match (ven, dev, cls) {
        (Some(ven), Some(dev), Some(cls)) => {
            if ven == 0x8086 && cls / 0x100 == 0x0780 {
                Some(
                    PciDevice {
                        address,
                        vendor: (ven % 0x1_0000) as u16,
                        device: (dev % 0x1_0000) as u16,
                        class: cls,
                    },
                )
            } else {
                None
            }
        },
        _ => None,
    }
}

/// Whether `s` is ordered by address.
pub open spec fn by_address(s: Seq<PciDevice>) -> bool {
    forall|i: int, j: int| 0 <= i < j < s.len() ==> text_le(#[trigger] s[i].address@, #[trigger] s[j].address@)
}

/// The same devices, ordered by address.
pub fn sort_devices(devs: Vec<PciDevice>) -> (r: Vec<PciDevice>)
    ensures
        r@.to_multiset() == devs@.to_multiset(),
        by_address(r@),
{
    let mut src = devs;
    let mut out: Vec<PciDevice> = Vec::new();
    let mut keys: Vec<Vec<char>> = Vec::new();
    proof {
        broadcast use vstd::multiset::group_multiset_axioms;
        out@.to_multiset_ensures();
        vstd::multiset::lemma_multiset_empty_len(out@.to_multiset());
        assert(out@.to_multiset().add(src@.to_multiset()) =~= src@.to_multiset());
    }
    while src.len() > 0
        invariant
            out@.len() == keys@.len(),
            forall|k: int| 0 <= k < keys@.len() ==> (#[trigger] keys@[k])@ == out@[k].address@,
            out@.to_multiset().add(src@.to_multiset()) == devs@.to_multiset(),
            by_address(out@),
        decreases src@.len(),
    {
        let ghost before = src@;
        let d = src.remove(0);
        proof {
            vstd::seq_lib::to_multiset_remove(before, 0);
        }
        let key = str_chars(d.address.as_str());
        let mut p: usize = 0;
        while p < out.len() && chars_le(&keys[p], &key)
            invariant
                p <= out@.len(),
                out@.len() == keys@.len(),
                forall|k: int| 0 <= k < keys@.len() ==> (#[trigger] keys@[k])@ == out@[k].address@,
                forall|k: int| 0 <= k < p ==> text_le(#[trigger] out@[k].address@, key@),
                key@ == d.address@,
            decreases out@.len() - p,
        {
            p = p + 1;
        }
        let ghost old_out = out@;
        proof {
            if p < old_out.len() {
                assert(!text_le(keys@[p as int]@, key@));
                lemma_text_le_total(old_out[p as int].address@, key@);
                assert forall|j: int| p <= j < old_out.len() implies text_le(key@, #[trigger] old_out[j].address@) by {
                    if j > p {
                        lemma_text_le_trans(key@, old_out[p as int].address@, old_out[j].address@);
                    }
                }
            }
        }
        out.insert(p, d);
        keys.insert(p, key);
        proof {
            vstd::seq_lib::to_multiset_insert(old_out, p as int, d);
            assert forall|i: int, j: int| 0 <= i < j < out@.len() implies text_le(
                #[trigger] out@[i].address@,
                #[trigger] out@[j].address@,
            ) by {
                if j < p {
                    assert(out@[i] == old_out[i] && out@[j] == old_out[j]);
                } else if j == p {
                    assert(out@[i] == old_out[i]);
                } else if i == p {
                    assert(out@[j] == old_out[j - 1]);
                } else if i < p {
                    assert(out@[i] == old_out[i] && out@[j] == old_out[j - 1]);
                    lemma_text_le_trans(out@[i].address@, key@, out@[j].address@);
                } else {
                    assert(out@[i] == old_out[i - 1] && out@[j] == old_out[j - 1]);
                }
            }
            assert forall|k: int| 0 <= k < keys@.len() implies (#[trigger] keys@[k])@ == out@[k].address@ by {
                if k < p {
                } else if k == p {
                } else {
                }
            }
            broadcast use vstd::multiset::group_multiset_axioms;
            assert(before.to_multiset().count(d) > 0) by {
                vstd::seq_lib::to_multiset_contains(before, d);
                assert(before.contains(d)) by {
                    assert(before[0] == d);
                }
            }
            assert(out@.to_multiset().add(src@.to_multiset()) =~= old_out.to_multiset().add(
                before.to_multiset(),
            ));
        }
    }
    proof {
        broadcast use vstd::multiset::group_multiset_axioms;
        src@.to_multiset_ensures();
        vstd::multiset::lemma_multiset_empty_len(src@.to_multiset());
        assert(out@.to_multiset().add(vstd::multiset::Multiset::empty()) =~= out@.to_multiset());
    }
    out
}

} // verus!
