//! Byte-to-text helpers: NUL trimming, UTF-8 decoding and byte-tag matching.

use vstd::prelude::*;
use vstd::utf8::{decode_utf8, valid_utf8};

verus! {

/// Index of the first NUL at or after `i` (or `s.len()`).
pub open spec fn nul_pos(s: Seq<u8>, i: int) -> int
    decreases s.len() - i,
{
    if i >= s.len() || s[i] == 0 {
        i
    } else {
        nul_pos(s, i + 1)
    }
}

/// `s` up to (excluding) its first NUL byte.
pub open spec fn nul_trim(s: Seq<u8>) -> Seq<u8> {
    s.take(nul_pos(s, 0))
}

pub proof fn lemma_nul_pos_bounds(s: Seq<u8>, i: int)
    requires
        0 <= i <= s.len(),
    ensures
        i <= nul_pos(s, i) <= s.len(),
        forall|k: int| i <= k < nul_pos(s, i) ==> s[k] != 0,
    decreases s.len() - i,
{
    if i < s.len() && s[i] != 0 {
        lemma_nul_pos_bounds(s, i + 1);
    }
}

/// Length of the prefix of `b` before its first NUL.
pub fn nul_len(b: &[u8]) -> (n: usize)
    ensures
        n == nul_pos(b@, 0),
        n <= b@.len(),
{
    let mut i: usize = 0;
    while i < b.len() && b[i] != 0
        invariant
            i <= b@.len(),
            nul_pos(b@, 0) == nul_pos(b@, i as int),
        decreases b@.len() - i,
    {
        i = i + 1;
    }
    i
}

/// `b` decoded as UTF-8 when it is valid UTF-8.
///
/// Trusted: `std::str::from_utf8` succeeds exactly on valid UTF-8 and the
/// resulting string holds the decoded characters.
#[verifier::external_body]
pub(crate) fn utf8_string(b: &[u8]) -> (r: Option<String>)
    ensures
        r is Some <==> valid_utf8(b@),
        r matches Some(s) ==> s@ == decode_utf8(b@),
{
    std::str::from_utf8(b).ok().map(|s| s.to_string())
}

/// What `String::from_utf8_lossy` makes of a byte sequence.
pub uninterp spec fn utf8_lossy(b: Seq<u8>) -> Seq<char>;

/// `b` decoded as UTF-8, invalid sequences replaced by U+FFFD.
///
/// Trusted: `String::from_utf8_lossy`. Its result is named, not described;
/// on valid UTF-8 it is the decoded text, which is what its documentation states.
#[verifier::external_body]
pub(crate) fn lossy_string(b: &[u8]) -> (r: String)
    ensures
        r@ == utf8_lossy(b@),
        valid_utf8(b@) ==> r@ == decode_utf8(b@),
{
    String::from_utf8_lossy(b).into_owned()
}

/// `s[i..i+4]` equals the four bytes of `tag`.
pub open spec fn tag_at(s: Seq<u8>, i: int, tag: [u8; 4]) -> bool {
    &&& 0 <= i
    &&& i + 4 <= s.len()
    &&& s.subrange(i, i + 4) == tag@
}

/// Whether `b[i..i+4] == tag`.
pub fn has_tag(b: &[u8], i: usize, tag: [u8; 4]) -> (r: bool)
    requires
        i + 4 <= b@.len(),
    ensures
        r == tag_at(b@, i as int, tag),
{
    let r = b[i] == tag[0] && b[i + 1] == tag[1] && b[i + 2] == tag[2] && b[i + 3] == tag[3];
    proof {
        if r {
            assert(b@.subrange(i as int, i + 4) =~= tag@);
        } else {
            if b@.subrange(i as int, i + 4) == tag@ {
                assert(b@.subrange(i as int, i + 4)[0] == b@[i as int]);
                assert(b@.subrange(i as int, i + 4)[1] == b@[i + 1]);
                assert(b@.subrange(i as int, i + 4)[2] == b@[i + 2]);
                assert(b@.subrange(i as int, i + 4)[3] == b@[i + 3]);
            }
        }
    }
    r
}

/// Whether `b` equals the four bytes of `tag`.
pub fn is_tag(b: &[u8], tag: [u8; 4]) -> (r: bool)
    ensures
        r == (b@ == tag@),
{
    if b.len() != 4 {
        return false;
    }
    let r = has_tag(b, 0, tag);
    assert(b@.subrange(0, 4) =~= b@);
    r
}

/// Whether two byte slices are equal.
pub fn bytes_eq(a: &[u8], b: &[u8]) -> (r: bool)
    ensures
        r == (a@ == b@),
{
    if a.len() != b.len() {
        return false;
    }
    let mut i: usize = 0;
    while i < a.len()
        invariant
            a@.len() == b@.len(),
            i <= a@.len(),
            forall|k: int| 0 <= k < i ==> a@[k] == b@[k],
        decreases a@.len() - i,
    {
        if a[i] != b[i] {
            return false;
        }
        i = i + 1;
    }
    assert(a@ =~= b@);
    true
}

/// Whether two strings are equal.
pub fn str_eq(a: &str, b: &str) -> (r: bool)
    ensures
        r == (a@ == b@),
{
    let r = bytes_eq(a.as_bytes(), b.as_bytes());
    proof {
        vstd::utf8::encode_utf8_decode_utf8(a@);
        vstd::utf8::encode_utf8_decode_utf8(b@);
    }
    r
}

/// The characters of `s`, in order.
pub fn str_chars(s: &str) -> (v: Vec<char>)
    ensures
        v@ == s@,
{
    let mut v: Vec<char> = Vec::new();
    broadcast use vstd::string::axiom_spec_iter;
    for c in it: s.chars()
        invariant
            it.seq() == s@,
            v@ == s@.take(it.index() as int),
    {
        v.push(c);
        assert(v@ =~= s@.take(it.index() as int + 1));
    }
    assert(v@ =~= s@);
    v
}

/// `a` sorts no later than `b`: code points compared in order, a prefix
/// first. This is the order of `str` comparison, as UTF-8 keeps code-point
/// order byte for byte.
pub open spec fn text_le(a: Seq<char>, b: Seq<char>) -> bool
    decreases a.len(),
{
    if a.len() == 0 {
        true
    } else if b.len() == 0 {
        false
    } else if a[0] != b[0] {
        (a[0] as int) < (b[0] as int)
    } else {
        text_le(a.drop_first(), b.drop_first())
    }
}

/// Any two texts are ordered one way or the other.
pub proof fn lemma_text_le_total(a: Seq<char>, b: Seq<char>)
    ensures
        text_le(a, b) || text_le(b, a),
    decreases a.len(),
{
    if a.len() > 0 && b.len() > 0 && a[0] == b[0] {
        lemma_text_le_total(a.drop_first(), b.drop_first());
    }
}

/// The order is transitive.
pub proof fn lemma_text_le_trans(a: Seq<char>, b: Seq<char>, c: Seq<char>)
    requires
        text_le(a, b),
        text_le(b, c),
    ensures
        text_le(a, c),
    decreases a.len(),
{
    if a.len() > 0 && b.len() > 0 && c.len() > 0 && a[0] == b[0] && b[0] == c[0] {
        lemma_text_le_trans(a.drop_first(), b.drop_first(), c.drop_first());
    }
}

pub fn chars_le(a: &Vec<char>, b: &Vec<char>) -> (r: bool)
    ensures
        r == text_le(a@, b@),
{
    let mut i: usize = 0;
    proof {
        assert(a@.skip(0) =~= a@);
        assert(b@.skip(0) =~= b@);
    }
    while i < a.len() && i < b.len() && a[i] == b[i]
        invariant
            i <= a@.len(),
            i <= b@.len(),
            text_le(a@, b@) == text_le(a@.skip(i as int), b@.skip(i as int)),
        decreases a@.len() - i,
    {
        proof {
            let x = a@.skip(i as int);
            let y = b@.skip(i as int);
            assert(x.drop_first() =~= a@.skip(i + 1));
            assert(y.drop_first() =~= b@.skip(i + 1));
        }
        i = i + 1;
    }
    let x = Ghost(a@.skip(i as int));
    let y = Ghost(b@.skip(i as int));
    if i == a.len() {
        assert(x@.len() == 0);
        true
    } else if i == b.len() {
        assert(y@.len() == 0);
        false
    } else {
        assert(x@[0] == a@[i as int] && y@[0] == b@[i as int]);
        a[i] < b[i]
    }
}

/// Texts that sort each way are equal.
pub proof fn lemma_text_le_antisym(a: Seq<char>, b: Seq<char>)
    requires
        text_le(a, b),
        text_le(b, a),
    ensures
        a == b,
    decreases a.len(),
{
    if a.len() > 0 && b.len() > 0 {
        lemma_text_le_antisym(a.drop_first(), b.drop_first());
        assert(a =~= seq![a[0]] + a.drop_first());
        assert(b =~= seq![b[0]] + b.drop_first());
    }
}

/// Whether `s` is in strictly increasing text order.
pub open spec fn strictly_sorted(s: Seq<String>) -> bool {
    forall|i: int, j: int|
        0 <= i < j < s.len() ==> text_le(#[trigger] s[i]@, #[trigger] s[j]@) && s[i]@ != s[j]@
}

/// Whether one of the strings of `s` has text `t`.
pub open spec fn has_text(s: Seq<String>, t: Seq<char>) -> bool {
    exists|i: int| 0 <= i < s.len() && (#[trigger] s[i])@ == t
}

proof fn lemma_has_text_push(s: Seq<String>, x: String)
    ensures
        forall|t: Seq<char>| has_text(s.push(x), t) <==> (has_text(s, t) || t == x@),
{
    assert forall|t: Seq<char>| has_text(s.push(x), t) <==> (has_text(s, t) || t == x@) by {
        if has_text(s, t) {
            let i = choose|i: int| 0 <= i < s.len() && (#[trigger] s[i])@ == t;
            assert(s.push(x)[i] == s[i]);
        }
        if t == x@ {
            assert(s.push(x)[s.len() as int] == x);
        }
        if has_text(s.push(x), t) {
            let i = choose|i: int| 0 <= i < s.push(x).len() && (#[trigger] s.push(x)[i])@ == t;
            if i < s.len() {
                assert(s[i] == s.push(x)[i]);
            }
        }
    }
}

/// Put `x` into the strictly sorted `out` (with `keys` holding the
/// characters of each entry), unless its text is already there.
fn place(out: &mut Vec<String>, keys: &mut Vec<Vec<char>>, x: &String)
    requires
        old(out)@.len() == old(keys)@.len(),
        forall|i: int| 0 <= i < old(keys)@.len() ==> (#[trigger] old(keys)@[i])@ == old(out)@[i]@,
        strictly_sorted(old(out)@),
    ensures
        final(out)@.len() == final(keys)@.len(),
        forall|i: int| 0 <= i < final(keys)@.len() ==> (#[trigger] final(keys)@[i])@ == final(out)@[i]@,
        strictly_sorted(final(out)@),
        forall|t: Seq<char>| has_text(final(out)@, t) <==> (has_text(old(out)@, t) || t == x@),
{
    let key = str_chars(x.as_str());
    let mut p: usize = 0;
    while p < out.len() && chars_le(&keys[p], &key)
        invariant
            p <= out@.len(),
            out@.len() == keys@.len(),
            forall|i: int| 0 <= i < keys@.len() ==> (#[trigger] keys@[i])@ == out@[i]@,
            forall|i: int| 0 <= i < p ==> text_le(#[trigger] out@[i]@, key@),
            key@ == x@,
            out@ == old(out)@,
            keys@ == old(keys)@,
        decreases out@.len() - p,
    {
        p = p + 1;
    }
    let ghost old_out = out@;
    if p > 0 && chars_le(&key, &keys[p - 1]) {
        proof {
            lemma_text_le_antisym(old_out[p - 1]@, key@);
        }
        return;
    }
    proof {
        if p < old_out.len() {
            lemma_text_le_total(old_out[p as int]@, key@);
            assert forall|j: int| p <= j < old_out.len() implies text_le(key@, #[trigger] old_out[j]@)
                && old_out[j]@ != key@ by {
                if j > p {
                    lemma_text_le_trans(key@, old_out[p as int]@, old_out[j]@);
                }
            }
        }
        assert forall|i: int| 0 <= i < p implies old_out[i]@ != key@ by {
            if old_out[i]@ == key@ && i < p - 1 {
                lemma_text_le_antisym(old_out[i]@, old_out[p - 1]@);
            }
        }
    }
    out.insert(p, x.clone());
    keys.insert(p, key);
    proof {
        assert forall|i: int, j: int| 0 <= i < j < out@.len() implies text_le(
            #[trigger] out@[i]@,
            #[trigger] out@[j]@,
        ) && out@[i]@ != out@[j]@ by {
            if j < p {
                assert(out@[i] == old_out[i] && out@[j] == old_out[j]);
            } else if j == p {
                assert(out@[i] == old_out[i]);
            } else if i == p {
                assert(out@[j] == old_out[j - 1]);
            } else if i < p {
                assert(out@[i] == old_out[i] && out@[j] == old_out[j - 1]);
                lemma_text_le_trans(out@[i]@, key@, out@[j]@);
            } else {
                assert(out@[i] == old_out[i - 1] && out@[j] == old_out[j - 1]);
            }
        }
        assert forall|i: int| 0 <= i < keys@.len() implies (#[trigger] keys@[i])@ == out@[i]@ by {
            if i < p {
            } else if i == p {
            } else {
            }
        }
        assert forall|t: Seq<char>| has_text(out@, t) <==> (has_text(old_out, t) || t == x@) by {
            if has_text(old_out, t) {
                let i = choose|i: int| 0 <= i < old_out.len() && (#[trigger] old_out[i])@ == t;
                if i < p {
                    assert(out@[i] == old_out[i]);
                } else {
                    assert(out@[i + 1] == old_out[i]);
                }
            }
            if t == x@ {
                assert(out@[p as int]@ == x@);
            }
            if has_text(out@, t) {
                let i = choose|i: int| 0 <= i < out@.len() && (#[trigger] out@[i])@ == t;
                if i < p {
                    assert(out@[i] == old_out[i]);
                } else if i > p {
                    assert(out@[i] == old_out[i - 1]);
                }
            }
        }
        assert(old_out == old(out)@);
        assert(forall|t: Seq<char>| has_text(out@, t) <==> (has_text(old(out)@, t) || t == x@));
    }
}

/// The distinct texts of `names`, in increasing order.
pub fn sorted_unique(names: &Vec<String>) -> (r: Vec<String>)
    ensures
        strictly_sorted(r@),
        forall|t: Seq<char>| has_text(r@, t) <==> has_text(names@, t),
{
    let mut out: Vec<String> = Vec::new();
    let mut keys: Vec<Vec<char>> = Vec::new();
    let mut k: usize = 0;
    while k < names.len()
        invariant
            k <= names@.len(),
            out@.len() == keys@.len(),
            forall|i: int| 0 <= i < keys@.len() ==> (#[trigger] keys@[i])@ == out@[i]@,
            strictly_sorted(out@),
            forall|t: Seq<char>| has_text(out@, t) <==> has_text(names@.take(k as int), t),
        decreases names@.len() - k,
    {
        place(&mut out, &mut keys, &names[k]);
        proof {
            lemma_has_text_push(names@.take(k as int), names@[k as int]);
            assert(names@.take(k + 1) =~= names@.take(k as int).push(names@[k as int]));
        }
        k = k + 1;
    }
    assert(names@.take(k as int) =~= names@);
    out
}

/// The string made of `v[lo..hi]`.
pub(crate) fn chars_string(v: &Vec<char>, lo: usize, hi: usize) -> (s: String)
    requires
        lo <= hi <= v@.len(),
    ensures
        s@ == v@.subrange(lo as int, hi as int),
{
    let mut s = String::new();
    let mut i = lo;
    while i < hi
        invariant
            lo <= i <= hi <= v@.len(),
            s@ == v@.subrange(lo as int, i as int),
        decreases hi - i,
    {
        crate::fmt::push_char(&mut s, v[i]);
        i = i + 1;
        assert(s@ =~= v@.subrange(lo as int, i as int));
    }
    s
}

} // verus!
