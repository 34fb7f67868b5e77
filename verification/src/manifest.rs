//! FTPR manifest: tag, version, public key, RSA signature.

use crate::bytes::{le16, le32, u16_le, u32_le};
use crate::crypto::{md5_digest, md5_of, modpow_be, sha256_digest, sha256_of};
use crate::error::{Error, Result};
use crate::fmt::{be_value, dec, hex, hex_bytes, hex_of_be, push_char, push_dec, push_hex_bytes};
use crate::region::Region;
use vstd::arithmetic::power::pow;
use vstd::prelude::*;

verus! {

/// `$MAN`, the generation-1 manifest tag.
pub const MAN_TAG: [u8; 4] = [0x24, 0x4d, 0x41, 0x4e];

/// `$MN2`, the manifest tag of every later generation.
pub const MN2_TAG: [u8; 4] = [0x24, 0x4d, 0x4e, 0x32];

/// Firmware version, as four 16-bit fields (major.minor.hotfix.build).
#[derive(Debug, Clone, Copy)]
pub struct Version(pub [u16; 4]);

/// `major.minor.hotfix.build` in decimal.
pub open spec fn version_text(v: [u16; 4]) -> Seq<char> {
    dec(v[0] as nat) + seq!['.'] + dec(v[1] as nat) + seq!['.'] + dec(v[2] as nat) + seq!['.'] + dec(
        v[3] as nat,
    )
}

impl Version {
    /// The version as `major.minor.hotfix.build`.
    pub fn to_string(&self) -> (s: String)
        ensures
            s@ == version_text(self.0),
    {
        let mut s = String::new();
        push_dec(&mut s, self.0[0] as u64);
        push_char(&mut s, '.');
        push_dec(&mut s, self.0[1] as u64);
        push_char(&mut s, '.');
        push_dec(&mut s, self.0[2] as u64);
        push_char(&mut s, '.');
        push_dec(&mut s, self.0[3] as u64);
        assert(s@ =~= version_text(self.0));
        s
    }
}

/// Manifest tag a generation expects.
pub open spec fn expected_tag(generation: Option<u8>) -> Seq<u8> {
    if generation == Some(1u8) {
        MAN_TAG@
    } else {
        MN2_TAG@
    }
}

/// The error `check_mn2_tag` reports, if any.
pub open spec fn mn2_tag_error(me: Region, buf: Seq<u8>, offset: int, generation: Option<u8>) -> Option<Error> {
    let at = me.start + offset + 0x1c;
    if !me.fits(offset + 0x1c, 4) {
        Some(Error::OutOfRegion { offset: (offset + 0x1c) as usize, len: 4 })
    } else if buf.subrange(at, at + 4) == expected_tag(generation) {
        None
    } else {
        Some(Error::BadManifestTag([buf[at], buf[at + 1], buf[at + 2], buf[at + 3]]))
    }
}

/// Validate the manifest tag at `offset` (region-relative).
/// Generation 1 uses `$MAN`; everything else uses `$MN2`.
pub fn check_mn2_tag(me: &Region, buf: &[u8], offset: usize, generation: Option<u8>) -> (r: Result<()>)
    requires
        me.access_ok(buf@.len() as int, offset + 0x1c, 4),
    ensures
        ({
            let at = me.start + offset + 0x1c;
            let tag = buf@.subrange(at, at + 4);
            &&& r == match mn2_tag_error(*me, buf@, offset as int, generation) {
                Some(e) => Err::<(), Error>(e),
                None => Ok(()),
            }
            &&& (r is Ok <==> (me.fits(offset + 0x1c, 4) && tag == expected_tag(generation)))
            &&& r matches Err(e) ==> if me.fits(offset + 0x1c, 4) {
                e matches Error::BadManifestTag(t) && t@ == tag
            } else {
                e == (Error::OutOfRegion { offset: (offset + 0x1c) as usize, len: 4 })
            }
        }),
{
    let tag = me.read(buf, offset + 0x1c, 4)?;
    let is_gen1 = match generation {
        Some(g) => g == 1,
        None => false,
    };
    let expected = if is_gen1 { MAN_TAG } else { MN2_TAG };
    if crate::text::is_tag(tag, expected) {
        Ok(())
    } else {
        let t = [tag[0], tag[1], tag[2], tag[3]];
        assert(t@ =~= tag@);
        proof {
            let at = me.start + offset + 0x1c;
            assert(t =~= [buf@[at], buf@[at + 1], buf@[at + 2], buf@[at + 3]]);
        }
        Err(Error::BadManifestTag(t))
    }
}

/// Version stored at `at`: four little-endian 16-bit fields.
pub open spec fn spec_version(buf: Seq<u8>, at: int) -> [u16; 4] {
    [le16(buf, at) as u16, le16(buf, at + 2) as u16, le16(buf, at + 4) as u16, le16(buf, at + 6) as u16]
}

/// Read the firmware version from the manifest at `man_offset` (region-relative).
pub fn read_version(me: &Region, buf: &[u8], man_offset: usize) -> (r: Result<Version>)
    requires
        me.access_ok(buf@.len() as int, man_offset + 0x24, 8),
    ensures
        r is Ok <==> me.fits(man_offset + 0x24, 8),
        r matches Ok(v) ==> v.0 == spec_version(buf@, me.start + man_offset + 0x24),
        r matches Err(e) ==> e == (Error::OutOfRegion { offset: (man_offset + 0x24) as usize, len: 8 }),
{
    let b = me.read(buf, man_offset + 0x24, 8)?;
    let v = Version([u16_le(b, 0), u16_le(b, 2), u16_le(b, 4), u16_le(b, 6)]);
    proof {
        let at = me.start + man_offset + 0x24;
        assert(le16(b@, 0) == le16(buf@, at));
        assert(le16(b@, 2) == le16(buf@, at + 2));
        assert(le16(b@, 4) == le16(buf@, at + 4));
        assert(le16(b@, 6) == le16(buf@, at + 6));
        assert(v.0 =~= spec_version(buf@, at));
    }
    Ok(v)
}

/// Lowercase hex MD5 of the public key (0x104 bytes at `man + 0x80`).
pub open spec fn spec_pubkey_md5(buf: Seq<u8>, man: int) -> Seq<char> {
    hex_bytes(md5_of(buf.subrange(man + 0x80, man + 0x184)))
}

/// MD5 of the public key (0x104 bytes at `man_offset + 0x80`), as lowercase hex.
pub fn pubkey_md5(me: &Region, buf: &[u8], man_offset: usize) -> (r: Result<String>)
    requires
        me.access_ok(buf@.len() as int, man_offset + 0x80, 0x104),
    ensures
        r is Ok <==> me.fits(man_offset + 0x80, 0x104),
        r matches Ok(s) ==> s@ == spec_pubkey_md5(buf@, me.start + man_offset),
        r matches Err(e) ==> e == (Error::OutOfRegion { offset: (man_offset + 0x80) as usize, len: 0x104 }),
{
    let key = me.read(buf, man_offset + 0x80, 0x104)?;
    let digest = md5_digest(key);
    Ok(hex_lower(&digest))
}

fn hex_lower(bytes: &[u8]) -> (s: String)
    ensures
        s@ == hex_bytes(bytes@),
{
    let mut s = String::new();
    push_hex_bytes(&mut s, bytes);
    assert(s@ =~= hex_bytes(bytes@));
    s
}

/// `s` ends with `suffix`.
pub open spec fn ends_with(s: Seq<char>, suffix: Seq<char>) -> bool {
    suffix.len() <= s.len() && s.subrange(s.len() - suffix.len(), s.len() as int) == suffix
}

/// Byte-reversed slice of the buffer: a little-endian number as big-endian bytes.
pub open spec fn le_field(buf: Seq<u8>, at: int, len: int) -> Seq<u8> {
    buf.subrange(at, at + len).reverse()
}

/// Header length (bytes) declared by the manifest at `at`.
pub open spec fn header_len(buf: Seq<u8>, at: int) -> int {
    le32(buf, at + 4) * 4
}

/// Manifest length (bytes) declared by the manifest at `at`.
pub open spec fn manifest_len(buf: Seq<u8>, at: int) -> int {
    le32(buf, at + 0x18) * 4
}

/// RSA modulus of the manifest at `at`.
pub open spec fn sig_modulus(buf: Seq<u8>, at: int) -> nat {
    be_value(le_field(buf, at + 0x80, 0x100))
}

/// The decrypted signature's hex digits end with the SHA-256 over header and body.
pub open spec fn spec_signature_valid(buf: Seq<u8>, at: int) -> bool {
    let header = buf.subrange(at, at + 0x80);
    let body = buf.subrange(at + header_len(buf, at), at + manifest_len(buf, at));
    let sig = be_value(le_field(buf, at + 0x184, 0x100));
    let e = le32(buf, at + 0x180) as nat;
    let decrypted = pow(sig as int, e) % (sig_modulus(buf, at) as int);
    ends_with(hex(decrypted as nat), hex_bytes(sha256_of(header + body)))
}

/// The manifest at `offset` is laid out so that the signature check gets as
/// far as the RSA operation.
pub open spec fn signature_reachable(me: Region, buf: Seq<u8>, offset: int) -> bool {
    let at = me.start + offset;
    &&& me.fits(offset, 0x188 + 0x100 - 4)
    &&& manifest_len(buf, at) >= header_len(buf, at)
    &&& me.fits(offset + header_len(buf, at), manifest_len(buf, at) - header_len(buf, at))
}

/// The check never runs into RSA with a zero modulus (which would panic).
pub open spec fn signature_checkable(me: Region, buf: Seq<u8>, offset: int) -> bool {
    signature_reachable(me, buf, offset) ==> sig_modulus(buf, me.start + offset) != 0
}

/// The outcome of the signature check: the first read that leaves the
/// region fails it; a body shorter than the header is no valid signature.
pub open spec fn spec_signature(me: Region, buf: Seq<u8>, offset: int) -> core::result::Result<bool, Error> {
    let at = me.start + offset;
    let hl = header_len(buf, at);
    let ml = manifest_len(buf, at);
    if !me.fits(offset, 0x80) {
        Err(Error::OutOfRegion { offset: offset as usize, len: 0x80 })
    } else if !me.fits(offset + 0x80, 0x100) {
        Err(Error::OutOfRegion { offset: (offset + 0x80) as usize, len: 0x100 })
    } else if !me.fits(offset + 0x180, 4) {
        Err(Error::OutOfRegion { offset: (offset + 0x180) as usize, len: 4 })
    } else if !me.fits(offset + 0x184, 0x100) {
        Err(Error::OutOfRegion { offset: (offset + 0x184) as usize, len: 0x100 })
    } else if ml < hl {
        Ok(false)
    } else if !me.fits(offset + hl, ml - hl) {
        Err(Error::OutOfRegion { offset: (offset + hl) as usize, len: (ml - hl) as usize })
    } else {
        Ok(spec_signature_valid(buf, at))
    }
}

/// Every read of the signature check either falls outside the region (and
/// fails) or lies inside the buffer, and none overflows.
pub open spec fn signature_reads_ok(me: Region, buf: Seq<u8>, offset: int) -> bool {
    let at = me.start + offset;
    let n = buf.len() as int;
    &&& me.start + offset + 0x4_0000_0000 <= usize::MAX
    &&& me.access_ok(n, offset, 0x80)
    &&& me.access_ok(n, offset + 0x80, 0x100)
    &&& me.access_ok(n, offset + 0x180, 4)
    &&& me.access_ok(n, offset + 0x184, 0x100)
    &&& (me.fits(offset, 0x284) && manifest_len(buf, at) >= header_len(buf, at)) ==> me.access_ok(
        n,
        offset + header_len(buf, at),
        manifest_len(buf, at) - header_len(buf, at),
    )
}

/// Verify the RSA signature of a partition manifest at `offset` (region-relative).
///
/// 2048-bit modulus and signature are little-endian on disk (hence the reversal);
/// decrypted signature must end with SHA-256 over header + manifest body.
#[verifier::loop_isolation(false)]
pub fn check_partition_signature(me: &Region, buf: &[u8], offset: usize) -> (r: Result<bool>)
    requires
        signature_reads_ok(*me, buf@, offset as int),
        signature_checkable(*me, buf@, offset as int),
    ensures
        r == spec_signature(*me, buf@, offset as int),
        ({
            let at = me.start + offset;
            &&& (r is Ok <==> (me.fits(offset as int, 0x284) && (manifest_len(buf@, at) < header_len(buf@, at)
                || signature_reachable(*me, buf@, offset as int))))
            &&& r matches Ok(v) ==> v == (signature_reachable(*me, buf@, offset as int) && spec_signature_valid(buf@, at))
            &&& r matches Err(e) ==> e is OutOfRegion
        }),
{
    let ghost at = me.start + offset;
    let header = me.read(buf, offset, 0x80)?;
    let modulus = reversed(me.read(buf, offset + 0x80, 0x100)?);
    let exponent = me.read_u32(buf, offset + 0x180)?;
    let signature = reversed(me.read(buf, offset + 0x184, 0x100)?);
    proof {
        assert(me.fits(offset as int, 0x284));
    }

    let header_len = u32_le(header, 0x4) as usize * 4;
    let manifest_len = u32_le(header, 0x18) as usize * 4;
    assert(header_len == crate::manifest::header_len(buf@, at));
    assert(manifest_len == crate::manifest::manifest_len(buf@, at));

    if manifest_len < header_len {
        return Ok(false);
    }

    let body = me.read(buf, offset + header_len, manifest_len - header_len)?;
    let mut data: Vec<u8> = Vec::new();
    let mut k: usize = 0;
    while k < header.len()
        invariant
            k <= header@.len(),
            data@ == header@.take(k as int),
        decreases header@.len() - k,
    {
        data.push(header[k]);
        k = k + 1;
        assert(data@ =~= header@.take(k as int));
    }
    let mut k: usize = 0;
    while k < body.len()
        invariant
            k <= body@.len(),
            data@ == header@ + body@.take(k as int),
        decreases body@.len() - k,
    {
        data.push(body[k]);
        k = k + 1;
        assert(data@ =~= header@ + body@.take(k as int));
    }
    assert(header@ + body@.take(k as int) =~= header@ + body@);
    let digest = sha256_digest(&data);
    let digest_hex = hex_lower(&digest);

    proof {
        assert(signature_reachable(*me, buf@, offset as int));
    }
    let decrypted = modpow_be(&signature, exponent, &modulus);
    let decrypted_hex = hex_of_be(&decrypted);
    Ok(str_ends_with(&decrypted_hex, &digest_hex))
}

/// A big-endian value is zero exactly when every byte is.
proof fn lemma_be_value_zero(s: Seq<u8>)
    ensures
        (be_value(s) == 0) <==> (forall|k: int| 0 <= k < s.len() ==> s[k] == 0),
    decreases s.len(),
{
    if s.len() > 0 {
        lemma_be_value_zero(s.drop_last());
        if be_value(s) == 0 {
            assert(be_value(s.drop_last()) == 0 && s.last() == 0) by (nonlinear_arith)
                requires
                    be_value(s) == be_value(s.drop_last()) * 256 + s.last() as nat,
                    be_value(s) == 0,
            ;
            assert forall|k: int| 0 <= k < s.len() implies s[k] == 0 by {
                if k < s.len() - 1 {
                    assert(s.drop_last()[k] == s[k]);
                }
            }
        } else {
            if forall|k: int| 0 <= k < s.len() ==> s[k] == 0 {
                assert forall|k: int| 0 <= k < s.drop_last().len() implies s.drop_last()[k] == 0 by {
                    assert(s.drop_last()[k] == s[k]);
                }
                assert(s.last() == s[s.len() - 1]);
            }
        }
    }
}

/// Whether `check_partition_signature` can run on the manifest at `offset`:
/// its reads neither overflow nor leave the buffer, and it does not reach
/// the RSA step with a zero modulus.
#[verifier::loop_isolation(false)]
pub fn signature_precheck(me: &Region, buf: &[u8], offset: usize) -> (r: bool)
    ensures
        r == (signature_reads_ok(*me, buf@, offset as int) && signature_checkable(*me, buf@, offset as int)),
{
    let n = buf.len();
    if usize::MAX as u64 != 0xffff_ffff_ffff_ffffu64 {
        return false;
    }
    let lim: u64 = 0xffff_fffb_ffff_ffff;
    if offset as u64 > lim || me.start as u64 > lim - offset as u64 {
        return false;
    }
    let at = me.start + offset;
    if (at + 0x80 <= me.end && at + 0x80 > n) || (at + 0x180 <= me.end && at + 0x180 > n) || (at + 0x184
        <= me.end && at + 0x184 > n) || (at + 0x284 <= me.end && at + 0x284 > n) {
        return false;
    }
    if at + 0x284 > me.end {
        return true;
    }
    let hl = u32_le(buf, at + 4) as usize * 4;
    let ml = u32_le(buf, at + 0x18) as usize * 4;
    if ml < hl {
        return true;
    }
    if at + ml <= me.end && at + ml > n {
        return false;
    }
    if at + ml > me.end {
        return true;
    }
    let mut i: usize = 0;
    while i < 0x100
        invariant
            at + 0x284 <= me.end,
            at + 0x284 <= n,
            n == buf@.len(),
            i <= 0x100,
            forall|j: int| at + 0x80 <= j < at + 0x80 + i ==> #[trigger] buf@[j] == 0,
        decreases 0x100 - i,
    {
        if buf[at + 0x80 + i] != 0 {
            proof {
                let f = le_field(buf@, at + 0x80, 0x100);
                lemma_be_value_zero(f);
                assert(f[0x100 - 1 - i as int] == buf@[at + 0x80 + i]);
                assert(f[0x100 - 1 - i as int] != 0);
                assert(sig_modulus(buf@, at as int) != 0);
                assert(header_len(buf@, at as int) == hl);
                assert(manifest_len(buf@, at as int) == ml);
            }
            return true;
        }
        i = i + 1;
    }
    proof {
        let f = le_field(buf@, at + 0x80, 0x100);
        lemma_be_value_zero(f);
        assert forall|j: int| 0 <= j < f.len() implies f[j] == 0 by {
            let p = at + 0x80 + (0x100 - 1 - j);
            assert(f[j] == buf@[p]);
        }
    }
    false
}

/// `b` reversed.
fn reversed(b: &[u8]) -> (r: Vec<u8>)
    ensures
        r@ == b@.reverse(),
{
    let mut r: Vec<u8> = Vec::new();
    let mut k: usize = b.len();
    while k > 0
        invariant
            k <= b@.len(),
            r@ == b@.subrange(k as int, b@.len() as int).reverse(),
        decreases k,
    {
        k = k - 1;
        r.push(b[k]);
        assert(r@ =~= b@.subrange(k as int, b@.len() as int).reverse());
    }
    assert(b@.subrange(0, b@.len() as int) =~= b@);
    r
}

/// Whether `s` ends with `suffix`.
fn str_ends_with(s: &String, suffix: &String) -> (r: bool)
    ensures
        r == ends_with(s@, suffix@),
{
    let a = s.as_str();
    let b = suffix.as_str();
    let n = a.unicode_len();
    let m = b.unicode_len();
    if m > n {
        return false;
    }
    let mut k: usize = 0;
    while k < m
        invariant
            n == s@.len(),
            m == suffix@.len(),
            m <= n,
            a@ == s@,
            b@ == suffix@,
            k <= m,
            forall|j: int| 0 <= j < k ==> s@[n - m + j] == suffix@[j],
        decreases m - k,
    {
        if a.get_char(n - m + k) != b.get_char(k) {
            proof {
                if ends_with(s@, suffix@) {
                    assert(s@.subrange(n - m, n as int)[k as int] == s@[n - m + k]);
                }
            }
            return false;
        }
        k = k + 1;
    }
    assert(s@.subrange(n - m, n as int) =~= suffix@);
    true
}

} // verus!
