//! Analysis and cleaning flow.

use crate::bytes::{le24, le32, u24_le, u32_le};
use crate::descriptor::{descriptor_readable, spec_descriptor, Descriptor, FD_SIGNATURE, FPT_MAGIC};
use crate::error::{error_text, Error, Result};
use crate::fmt::{dec, hex_prefixed, push_dec, push_hex_prefixed, push_str};
use crate::fpt::{
    all_fpt, fpt_at, find_all_fpt, find_ftpr, first_at, first_index, fpt_from, fpt_parses, lemma_first_exists,
    lemma_first_index, lemma_ftpr_of, parse_fpt, spec_find_ftpr, spec_ftpr_of, Fpt, Ftpr, CPD_TAG,
};
use crate::manifest::{check_mn2_tag, mn2_tag_error, pubkey_md5, read_version, spec_pubkey_md5, spec_version, Version};
use crate::descriptor::{disable_name, disable_strap, flreg_of};
use crate::fmt::{hex_padded, push_hex_padded};
use crate::manifest::{signature_checkable, signature_reads_ok, spec_signature};
use crate::modules::{headroom, Outcome};
use crate::partitions::spec_remove_parts;
use crate::region::{fill_seq, lemma_read_after_write, splice};
use crate::bytes::{le32_bytes, put_u32_le};
use crate::descriptor::{disable_bit, start_end_to_flreg};
use crate::manifest::check_partition_signature;
use crate::partitions::remove_partitions_and_modules;
use crate::pubkeys::{known_pubkey, lookup};
use crate::region::Region;
use crate::locks::flmstr_masks;
use crate::text::{chars_string, has_tag, nul_len, nul_trim, str_chars, tag_at};
use crate::mei::{split_bounds, split_on, trim, trim_bounds};
use vstd::prelude::*;

verus! {

/// Static facts about an image, independent of any modification.
#[derive(Debug, Clone)]
pub struct Analysis {
    pub full_image: bool,
    pub sig_at_zero: bool,
    pub descriptor: Option<Descriptor>,
    pub me: Region,
    pub me_disabled: bool,
    pub generation: Option<u8>,
    pub variant: String,
    pub version: Option<Version>,
    pub fpt: Option<Fpt>,
    pub ftpr: Option<Ftpr>,
    pub ftpr_mn2_offset: usize,
    pub pubkey_md5: String,
    pub pubkey_match: Option<(&'static str, Vec<String>)>,
    /// Region-relative offsets of every `$FPT` candidate found.
    pub fpt_candidates: Vec<usize>,
    /// Non-fatal problems encountered while parsing (shown by `info`).
    pub warnings: Vec<String>,
}

/// Options controlling [`clean`].
#[derive(Debug, Clone)]
pub struct Options {
    pub soft_disable: bool,
    pub soft_disable_only: bool,
    pub relocate: bool,
    pub truncate: bool,
    pub keep_modules: bool,
    pub whitelist: Vec<String>,
    pub blacklist: Vec<String>,
    pub descriptor: bool,
    pub extract_descriptor: bool,
    pub extract_me: bool,
}

impl Default for Options {
    fn default() -> (o: Self)
        ensures
            !o.soft_disable && !o.soft_disable_only && !o.relocate && !o.truncate && !o.keep_modules,
            o.whitelist@.len() == 0 && o.blacklist@.len() == 0,
            !o.descriptor && !o.extract_descriptor && !o.extract_me,
    {
        Options {
            soft_disable: false,
            soft_disable_only: false,
            relocate: false,
            truncate: false,
            keep_modules: false,
            whitelist: Vec::new(),
            blacklist: Vec::new(),
            descriptor: false,
            extract_descriptor: false,
            extract_me: false,
        }
    }
}

/// The items of a comma-separated option value, each without surrounding
/// white space; none for an empty value.
pub open spec fn list_items(s: Seq<char>) -> Seq<Seq<char>> {
    if s.len() == 0 {
        seq![]
    } else {
        split_on(s, ',').map_values(|p: Seq<char>| trim(p))
    }
}

/// Split a comma-separated partition list (`-w` / `-b`).
pub fn split_list(s: Option<&str>) -> (r: Vec<String>)
    ensures
        match s {
            Some(t) => r@.map_values(|x: String| x@) == list_items(t@),
            None => r@.len() == 0,
        },
{
    let t = match s {
        Some(t) => t,
        None => return Vec::new(),
    };
    let v = str_chars(t);
    let mut out: Vec<String> = Vec::new();
    if v.len() == 0 {
        assert(out@.map_values(|x: String| x@) =~= list_items(t@));
        return out;
    }
    let bounds = split_bounds(&v, 0, v.len(), ',');
    let ghost pieces = split_on(v@.subrange(0, v@.len() as int), ',');
    assert(v@.subrange(0, v@.len() as int) =~= v@);
    let mut k: usize = 0;
    while k < bounds.len()
        invariant
            k <= bounds@.len(),
            bounds@.len() == pieces.len(),
            pieces == split_on(v@, ','),
            forall|x: int| 0 <= x < bounds@.len() ==> (#[trigger] bounds@[x]).0 <= bounds@[x].1 <= v@.len(),
            forall|x: int| 0 <= x < bounds@.len() ==> v@.subrange(bounds@[x].0 as int, bounds@[x].1 as int)
                == #[trigger] pieces[x],
            out@.len() == k,
            forall|x: int| 0 <= x < k ==> (#[trigger] out@[x])@ == trim(pieces[x]),
        decreases bounds@.len() - k,
    {
        let (a, b) = bounds[k];
        let (lo, hi) = trim_bounds(&v, a, b);
        let piece = chars_string(&v, lo, hi);
        out.push(piece);
        k = k + 1;
    }
    assert(out@.map_values(|x: String| x@) =~= list_items(t@));
    out
}

/// Outcome of a [`clean`] run.
#[derive(Debug)]
pub struct Report {
    pub log: Vec<String>,
    pub generation: Option<u8>,
    pub end_addr: Option<usize>,
    pub truncated_to: Option<usize>,
    pub extracted_descriptor: Option<Vec<u8>>,
    pub extracted_me: Option<Vec<u8>>,
    pub signature_valid: Option<bool>,
}

// ---------------------------------------------------------------------------
// Image identification

/// `(full_image, sig_at_zero)` of an image `analyze` recognises: an ME
/// region (`$FPT` at 0 or 0x10) or a full dump (descriptor signature at 0 or 0x10).
pub open spec fn spec_image(buf: Seq<u8>) -> Option<(bool, bool)> {
    if buf.len() < 0x14 {
        None
    } else if tag_at(buf, 0, FPT_MAGIC) || tag_at(buf, 0x10, FPT_MAGIC) {
        Some((false, false))
    } else if tag_at(buf, 0, FD_SIGNATURE) || tag_at(buf, 0x10, FD_SIGNATURE) {
        Some((true, tag_at(buf, 0, FD_SIGNATURE)))
    } else {
        None
    }
}

/// The ME region of a recognised image.
pub open spec fn image_me(buf: Seq<u8>, kind: (bool, bool)) -> Region {
    if kind.0 {
        spec_descriptor(buf, kind.1).me
    } else {
        Region { start: 0, end: buf.len() as usize }
    }
}

/// The image can be analysed without running off the buffer: a descriptor
/// is readable where one is claimed, and a non-empty ME region lies inside.
pub open spec fn analyzable(buf: Seq<u8>) -> bool {
    &&& headroom(buf.len() as int + 0x100_0000_0000)
    &&& match spec_image(buf) {
        Some(k) => {
            &&& k.0 ==> descriptor_readable(buf, k.1)
            &&& image_me(buf, k).start < image_me(buf, k).end ==> image_me(buf, k).end <= buf.len()
        },
        None => true,
    }
}

/// Whether `analyze` (and `clean`) can take `buf`: `analyzable` on the exec side.
pub fn is_analyzable(buf: &[u8]) -> (r: bool)
    ensures
        r == analyzable(buf@),
{
    let n = buf.len();
    if usize::MAX as u64 != 0xffff_ffff_ffff_ffffu64 || n as u64 > 0x7fff_fdff_ffff_ffffu64 {
        return false;
    }
    if n < 0x14 {
        return true;
    }
    if has_tag(buf, 0, FPT_MAGIC) || has_tag(buf, 0x10, FPT_MAGIC) {
        return true;
    }
    let fd0 = has_tag(buf, 0, FD_SIGNATURE);
    if !fd0 && !has_tag(buf, 0x10, FD_SIGNATURE) {
        return true;
    }
    if !crate::descriptor::is_readable(buf, fd0) {
        return false;
    }
    let d = Descriptor::parse(buf, fd0);
    d.me.start >= d.me.end || d.me.end <= n
}

// ---------------------------------------------------------------------------
// FTPR manifest

/// `FTPR.man`
pub open spec fn ftpr_man() -> Seq<u8> {
    seq![0x46u8, 0x54, 0x50, 0x52, 0x2e, 0x6d, 0x61, 0x6e]
}

/// Search the `$CPD` entries `[i, n)` at `base` for `FTPR.man`; its offset.
pub open spec fn cpd_search(me: Region, buf: Seq<u8>, base: int, n: int, i: int) -> core::result::Result<Option<int>, Error>
    decreases n - i,
{
    if i >= n {
        Ok(None)
    } else {
        let o = base + i * 0x18;
        if !me.fits(o, 0x18) {
            Err(Error::OutOfRegion { offset: o as usize, len: 0x18 })
        } else {
            let at = me.start + o;
            if nul_trim(buf.subrange(at, at + 0xc)) == ftpr_man() {
                Ok(Some(le24(buf, at + 0xc)))
            } else {
                cpd_search(me, buf, base, n, i + 1)
            }
        }
    }
}

/// What resolving the FTPR manifest establishes (and the error that stopped it).
pub struct ManifestFacts {
    pub generation: Option<u8>,
    pub version: Option<[u16; 4]>,
    pub md5: Option<Seq<char>>,
    pub mn2_offset: int,
    pub error: Option<Error>,
}

pub open spec fn facts_failed(generation: Option<u8>, version: Option<[u16; 4]>, e: Error) -> ManifestFacts {
    ManifestFacts { generation, version, md5: None, mn2_offset: 0, error: Some(e) }
}

/// Generation implied by the manifest's major version.
pub open spec fn generation_of(major: u16, generation: Option<u8>) -> u8 {
    if major == 12 {
        4
    } else if major == 14 {
        5
    } else if major == 15 {
        6
    } else if major == 16 {
        7
    } else {
        match generation {
            Some(g) => g,
            None => 2,
        }
    }
}

/// The CSME generations follow the manifest's major version: major 12 is
/// generation 4 and majors 14, 15, 16 are generations 5, 6, 7, whatever
/// generation the layout suggested; any other major keeps that generation
/// (2 when there is none).
pub proof fn lemma_generation_of_major(major: u16, g: Option<u8>)
    ensures
        major == 12 ==> generation_of(major, g) == 4,
        14 <= major <= 16 ==> generation_of(major, g) == major - 9,
        major != 12 && !(14 <= major <= 16) ==> generation_of(major, g) == match g {
            Some(x) => x,
            None => 2u8,
        },
{
}

/// Whenever resolving a manifest reads its version, the generation it reports
/// is the one that version's major number implies.
pub proof fn lemma_resolve_generation(me: Region, buf: Seq<u8>, fo: int, g0: Option<u8>)
    ensures
        spec_resolve(me, buf, fo, g0).version matches Some(v) ==> ({
            &&& v[0] == 12 ==> spec_resolve(me, buf, fo, g0).generation == Some(4u8)
            &&& 14 <= v[0] <= 16 ==> spec_resolve(me, buf, fo, g0).generation == Some((v[0] - 9) as u8)
        }),
{
}

/// Where the manifest lies (`(generation, offset within FTPR)`), or why it
/// was not found (`(generation, error)`).
pub open spec fn manifest_location(me: Region, buf: Seq<u8>, fo: int, g0: Option<u8>) -> core::result::Result<(Option<u8>, int), (Option<u8>, Error)> {
    let at = me.start + fo;
    if buf.subrange(at, at + 4) == CPD_TAG@ {
        let g = Some(3u8);
        if !me.fits(fo + 4, 4) {
            Err((g, Error::OutOfRegion { offset: (fo + 4) as usize, len: 4 }))
        } else if !me.fits(fo + 0x14, 8) {
            Err((g, Error::OutOfRegion { offset: (fo + 0x14) as usize, len: 8 }))
        } else {
            let n = le32(buf, at + 4);
            let base = if buf.subrange(at + 0x14, at + 0x1c) == ftpr_man() {
                fo + 0x14
            } else {
                fo + 0x10
            };
            match cpd_search(me, buf, base, n, 0) {
                Err(e) => Err((g, e)),
                Ok(None) => Err((g, Error::FtprManifestNotFound)),
                Ok(Some(off)) => match mn2_tag_error(me, buf, fo + off, g) {
                    Some(e) => Err((g, e)),
                    None => Ok((g, off)),
                },
            }
        }
    } else {
        match mn2_tag_error(me, buf, fo, g0) {
            Some(e) => Err((g0, e)),
            None => Ok(
                (if g0 is None {
                    Some(2u8)
                } else {
                    g0
                }, 0),
            ),
        }
    }
}

/// Resolving the manifest of the FTPR at region offset `fo`, starting from generation `g0`.
pub open spec fn spec_resolve(me: Region, buf: Seq<u8>, fo: int, g0: Option<u8>) -> ManifestFacts {
    if !me.fits(fo, 4) {
        facts_failed(g0, None, Error::OutOfRegion { offset: fo as usize, len: 4 })
    } else {
        match manifest_location(me, buf, fo, g0) {
            Err(x) => facts_failed(x.0, None, x.1),
            Ok(x) => {
                let m = fo + x.1;
                if !me.fits(m + 0x24, 8) {
                    facts_failed(x.0, None, Error::OutOfRegion { offset: (m + 0x24) as usize, len: 8 })
                } else {
                    let v = spec_version(buf, me.start + m + 0x24);
                    let g2 = generation_of(v[0], x.0);
                    if !me.fits(m + 0x80, 0x104) {
                        facts_failed(Some(g2), Some(v), Error::OutOfRegion { offset: (m + 0x80) as usize, len: 0x104 })
                    } else {
                        ManifestFacts {
                            generation: Some(g2),
                            version: Some(v),
                            md5: Some(spec_pubkey_md5(buf, me.start + m)),
                            mn2_offset: x.1,
                            error: None,
                        }
                    }
                }
            },
        }
    }
}

/// Variant named by a key fingerprint, else by the major version.
pub open spec fn variant_of(md5: Seq<char>, major: u16) -> Seq<char> {
    match known_pubkey(md5) {
        Some(k) => k.0,
        None => if major >= 6 {
            "ME"@
        } else {
            "TXE"@
        },
    }
}

/// `m` holds the known-key match for `md5`.
pub open spec fn match_of(md5: Seq<char>, m: Option<(&'static str, Vec<String>)>) -> bool {
    match known_pubkey(md5) {
        Some(k) => m matches Some(x) && x.0@ == k.0 && x.1@.map_values(|s: String| s@) == k.1,
        None => m is None,
    }
}

/// `new` is `old` with the manifest facts `f` recorded.
pub open spec fn facts_applied(old: Analysis, new: Analysis, f: ManifestFacts) -> bool {
    &&& new.generation == f.generation
    &&& new.version == match f.version {
        Some(v) => Some(Version(v)),
        None => old.version,
    }
    &&& match f.md5 {
        Some(m) => {
            &&& new.pubkey_md5@ == m
            &&& new.variant@ == variant_of(m, f.version->0[0])
            &&& match_of(m, new.pubkey_match)
        },
        None => {
            &&& new.pubkey_md5 == old.pubkey_md5
            &&& new.variant == old.variant
            &&& new.pubkey_match == old.pubkey_match
        },
    }
    &&& new.ftpr_mn2_offset == if f.error is None {
        f.mn2_offset as usize
    } else {
        old.ftpr_mn2_offset
    }
    &&& new.full_image == old.full_image
    &&& new.sig_at_zero == old.sig_at_zero
    &&& new.descriptor == old.descriptor
    &&& new.me == old.me
    &&& new.me_disabled == old.me_disabled
    &&& new.fpt == old.fpt
    &&& new.ftpr == old.ftpr
    &&& new.fpt_candidates == old.fpt_candidates
    &&& new.warnings == old.warnings
}

proof fn lemma_cpd_search_stops(me: Region, buf: Seq<u8>, base: int, n: int, i: int)
    requires
        i < n,
        me.fits(base + i * 0x18, 0x18),
        nul_trim(buf.subrange(me.start + base + i * 0x18, me.start + base + i * 0x18 + 0xc)) != ftpr_man(),
    ensures
        cpd_search(me, buf, base, n, i) == cpd_search(me, buf, base, n, i + 1),
{
}

/// Find `FTPR.man` among the `$CPD` entries at `base`.
fn find_ftpr_man(me: &Region, buf: &[u8], base: usize, n: usize) -> (r: Result<Option<u32>>)
    requires
        me.inside(buf@.len() as int),
        headroom(me.start + base + 0x40_0000_0000),
        n <= 0xffff_ffff,
    ensures
        match cpd_search(*me, buf@, base as int, n as int, 0) {
            Ok(Some(off)) => r matches Ok(Some(v)) && v as int == off,
            Ok(None) => r matches Ok(None),
            Err(e) => r matches Err(x) && x == e,
        },
{
    let mut i: usize = 0;
    while i < n
        invariant
            i <= n <= 0xffff_ffff,
            me.inside(buf@.len() as int),
            headroom(me.start + base + 0x40_0000_0000),
            cpd_search(*me, buf@, base as int, n as int, 0) == cpd_search(*me, buf@, base as int, n as int, i as int),
        decreases n - i,
    {
        let o = base + i * 0x18;
        let data = me.read(buf, o, 0x18)?;
        let field = vstd::slice::slice_subrange(data, 0, 0xc);
        let k = nul_len(field);
        let name = vstd::slice::slice_subrange(field, 0, k);
        let man: [u8; 8] = [0x46, 0x54, 0x50, 0x52, 0x2e, 0x6d, 0x61, 0x6e];
        proof {
            assert(field@ =~= buf@.subrange(me.start + o, me.start + o + 0xc));
            assert(name@ =~= nul_trim(buf@.subrange(me.start + o, me.start + o + 0xc)));
            assert(man@ =~= ftpr_man());
        }
        if crate::text::bytes_eq(name, &man) {
            return Ok(Some(u24_le(data, 0xc)));
        }
        proof {
            lemma_cpd_search_stops(*me, buf@, base as int, n as int, i as int);
        }
        i = i + 1;
    }
    Ok(None)
}

/// The known-key match for a fingerprint, with its versions as strings.
fn key_match(md5: &String) -> (r: Option<(&'static str, Vec<String>)>)
    ensures
        match_of(md5@, r),
{
    match lookup(md5.as_str()) {
        Some((variant, vers)) => {
            let mut out: Vec<String> = Vec::new();
            let mut i: usize = 0;
            while i < vers.len()
                invariant
                    i <= vers@.len(),
                    out@.len() == i,
                    forall|j: int| 0 <= j < i ==> (#[trigger] out@[j])@ == vers@[j]@,
                decreases vers@.len() - i,
            {
                let s = String::from_str(vers[i]);
                out.push(s);
                i = i + 1;
            }
            assert(out@.map_values(|s: String| s@) =~= vers@.map_values(|s: &str| s@));
            Some((variant, out))
        },
        None => None,
    }
}

/// Resolve FTPR manifest offset, generation, version and public key into `a`.
#[verifier::rlimit(40)]
fn resolve_manifest(me: &Region, buf: &[u8], a: &mut Analysis, ftpr: Ftpr) -> (r: Result<()>)
    requires
        me.inside(buf@.len() as int),
        headroom(buf@.len() as int + 0x100_0000_0000),
    ensures
        facts_applied(*old(a), *final(a), spec_resolve(*me, buf@, ftpr.offset as int, old(a).generation)),
        match spec_resolve(*me, buf@, ftpr.offset as int, old(a).generation).error {
            Some(e) => r matches Err(x) && x == e,
            None => r is Ok,
        },
{
    let ftpr_offset = ftpr.offset as usize;
    let mut ftpr_mn2_offset = 0usize;
    let ghost g0 = a.generation;
    let tag = me.read(buf, ftpr_offset, 4)?;
    if crate::text::is_tag(tag, CPD_TAG) {
        a.generation = Some(3);
        let num_entries = me.read_u32(buf, ftpr_offset + 0x4)? as usize;
        // ME >= 15 inserts 4 extra bytes; detect by probing for "FTPR.man".
        let probe = me.read(buf, ftpr_offset + 0x14, 0x8)?;
        let man: [u8; 8] = [0x46, 0x54, 0x50, 0x52, 0x2e, 0x6d, 0x61, 0x6e];
        assert(man@ =~= ftpr_man());
        let entries_base = if crate::text::bytes_eq(probe, &man) {
            ftpr_offset + 0x14
        } else {
            ftpr_offset + 0x10
        };
        match find_ftpr_man(me, buf, entries_base, num_entries)? {
            Some(off) => {
                check_mn2_tag(me, buf, ftpr_offset + off as usize, a.generation)?;
                ftpr_mn2_offset = off as usize;
            },
            None => return Err(Error::FtprManifestNotFound),
        }
    } else {
        check_mn2_tag(me, buf, ftpr_offset, a.generation)?;
        if a.generation.is_none() {
            a.generation = Some(2);
        }
    }
    let ghost g1 = a.generation;
    assert(manifest_location(*me, buf@, ftpr_offset as int, g0) == Ok::<(Option<u8>, int), (Option<u8>, Error)>((g1, ftpr_mn2_offset as int)));
    let version = read_version(me, buf, ftpr_offset + ftpr_mn2_offset)?;
    a.generation = Some(
        if version.0[0] == 12 {
            4
        } else if version.0[0] == 14 {
            5
        } else if version.0[0] == 15 {
            6
        } else if version.0[0] == 16 {
            7
        } else {
            match a.generation {
                Some(g) => g,
                None => 2,
            }
        },
    );
    a.version = Some(version);
    a.pubkey_md5 = pubkey_md5(me, buf, ftpr_offset + ftpr_mn2_offset)?;
    a.pubkey_match = key_match(&a.pubkey_md5);
    a.variant = match &a.pubkey_match {
        Some((variant, _)) => String::from_str(variant),
        None => if version.0[0] >= 6 {
            String::from_str("ME")
        } else {
            String::from_str("TXE")
        },
    };
    proof {
        reveal_strlit("ME");
        reveal_strlit("TXE");
    }
    a.ftpr_mn2_offset = ftpr_mn2_offset;
    Ok(())
}

// ---------------------------------------------------------------------------
// Analysis

/// The characters of each string.
pub open spec fn texts(v: Seq<String>) -> Seq<Seq<char>> {
    v.map_values(|s: String| s@)
}

/// `0x..` of each candidate (region start added), separated by `, `.
pub open spec fn hex_list(base: int, v: Seq<usize>) -> Seq<char>
    decreases v.len(),
{
    if v.len() == 0 {
        seq![]
    } else if v.len() == 1 {
        hex_prefixed((base + v[0]) as nat)
    } else {
        hex_list(base, v.drop_last()) + ", "@ + hex_prefixed((base + v.last()) as nat)
    }
}

/// `{n} $FPT candidates: {list}`.
pub open spec fn candidates_text(base: int, v: Seq<usize>) -> Seq<char> {
    dec(v.len() as nat) + " $FPT candidates: "@ + hex_list(base, v)
}

/// The bytes of the ME region.
pub open spec fn me_data(me: Region, buf: Seq<u8>) -> Seq<u8> {
    buf.subrange(me.start as int, me.end as int)
}

/// Candidate `k` holds a parseable table with an FTPR.
pub open spec fn has_ftpr_at(me: Region, buf: Seq<u8>, cands: Seq<usize>) -> spec_fn(int) -> bool {
    |k: int|
        0 <= k < cands.len() && fpt_parses(me, buf, cands[k] as int) && spec_ftpr_of(
            me,
            buf,
            cands[k] as int,
            me_data(me, buf),
        ) is Some
}

/// Candidate `k` holds a parseable table.
pub open spec fn parses_at(me: Region, buf: Seq<u8>, cands: Seq<usize>) -> spec_fn(int) -> bool {
    |k: int| 0 <= k < cands.len() && fpt_parses(me, buf, cands[k] as int)
}

/// The manifest-derived fields hold their initial (empty) values.
pub open spec fn no_manifest(a: Analysis) -> bool {
    &&& a.variant@ == ""@
    &&& a.version is None
    &&& a.ftpr_mn2_offset == 0
    &&& a.pubkey_md5@ == ""@
    &&& a.pubkey_match is None
}

/// The manifest-derived fields record `f` (from their empty values).
pub open spec fn facts_hold(a: Analysis, f: ManifestFacts) -> bool {
    &&& a.generation == f.generation
    &&& a.version == match f.version {
        Some(v) => Some(Version(v)),
        None => None,
    }
    &&& match f.md5 {
        Some(m) => {
            &&& a.pubkey_md5@ == m
            &&& a.variant@ == variant_of(m, f.version->0[0])
            &&& match_of(m, a.pubkey_match)
        },
        None => {
            &&& a.pubkey_md5@ == ""@
            &&& a.variant@ == ""@
            &&& a.pubkey_match is None
        },
    }
    &&& a.ftpr_mn2_offset == if f.error is None {
        f.mn2_offset as usize
    } else {
        0
    }
}

/// The warning for a failed manifest resolution.
pub open spec fn manifest_warning(f: ManifestFacts) -> Seq<Seq<char>> {
    match f.error {
        Some(e) => seq!["manifest: "@ + error_text(e)],
        None => seq![],
    }
}

/// What `analyze` finds in the ME region of a recognised image.
#[verifier::opaque]
pub open spec fn me_analysis(buf: Seq<u8>, me: Region, gen0: Option<u8>, a: Analysis) -> bool {
    let d = me_data(me, buf);
    let cands = a.fpt_candidates@;
    &&& all_fpt(cands, d)
    &&& if cands.len() == 0 {
        &&& a.generation == gen0
        &&& no_manifest(a)
        &&& a.fpt is None
        &&& a.ftpr is None
        &&& texts(a.warnings@) == seq!["no $FPT found in ME region"@]
    } else {
        let w0 = if cands.len() > 1 {
            seq![candidates_text(me.start as int, cands)]
        } else {
            seq![]
        };
        if exists|i: int| #[trigger] has_ftpr_at(me, buf, cands)(i) {
            let i = first_index(has_ftpr_at(me, buf, cands));
            let off = cands[i] as int;
            let ftpr = spec_ftpr_of(me, buf, off, d)->0;
            let g1 = if ftpr.is_code {
                Some(1u8)
            } else {
                gen0
            };
            let f = spec_resolve(me, buf, ftpr.offset as int, g1);
            &&& a.fpt matches Some(t) && fpt_from(me, buf, off, t)
            &&& a.ftpr == Some(ftpr)
            &&& facts_hold(a, f)
            &&& texts(a.warnings@) == w0 + manifest_warning(f)
        } else {
            &&& a.generation == gen0
            &&& no_manifest(a)
            &&& a.ftpr is None
            &&& if exists|i: int| #[trigger] parses_at(me, buf, cands)(i) {
                a.fpt matches Some(t) && fpt_from(me, buf, cands[first_index(parses_at(me, buf, cands))] as int, t)
            } else {
                a.fpt is None
            }
            &&& texts(a.warnings@) == w0 + seq!["no FTPR partition found in any $FPT; skipping ME version"@]
        }
    }
}

/// An analysis that reports a manifest version reports the generation its
/// major number implies: CSME 12 is generation 4, CSME 14/15/16 are 5/6/7.
pub proof fn lemma_analysis_generation(buf: Seq<u8>, k: (bool, bool), a: Analysis)
    requires
        analysis_of(buf, k, a),
    ensures
        a.version matches Some(v) ==> ({
            &&& v.0[0] == 12 ==> a.generation == Some(4u8)
            &&& 14 <= v.0[0] <= 16 ==> a.generation == Some((v.0[0] - 9) as u8)
        }),
{
    reveal(analysis_of);
    reveal(me_analysis);
    let me = image_me(buf, k);
    if me.start < me.end {
        let d = me_data(me, buf);
        let cands = a.fpt_candidates@;
        if cands.len() > 0 && exists|i: int| #[trigger] has_ftpr_at(me, buf, cands)(i) {
            let i = first_index(has_ftpr_at(me, buf, cands));
            let off = cands[i] as int;
            let ftpr = spec_ftpr_of(me, buf, off, d)->0;
            let gen0 = if k.0 && k.1 {
                Some(1u8)
            } else {
                None
            };
            let g1 = if ftpr.is_code {
                Some(1u8)
            } else {
                gen0
            };
            lemma_resolve_generation(me, buf, ftpr.offset as int, g1);
        }
    }
}

/// What `analyze` reports for a recognised image of kind `k`.
#[verifier::opaque]
pub open spec fn analysis_of(buf: Seq<u8>, k: (bool, bool), a: Analysis) -> bool {
    let me = image_me(buf, k);
    let gen0 = if k.0 && k.1 {
        Some(1u8)
    } else {
        None
    };
    &&& a.full_image == k.0
    &&& a.sig_at_zero == (k.0 && k.1)
    &&& a.descriptor == if k.0 {
        Some(spec_descriptor(buf, k.1))
    } else {
        None
    }
    &&& a.me == me
    &&& a.me_disabled == (k.0 && me.end <= me.start)
    &&& if me.end <= me.start {
        &&& a.generation == gen0
        &&& no_manifest(a)
        &&& a.fpt is None
        &&& a.ftpr is None
        &&& a.fpt_candidates@.len() == 0
        &&& a.warnings@.len() == 0
    } else {
        me_analysis(buf, me, gen0, a)
    }
}

/// `{n} $FPT candidates: ...` for the candidates `v` of the region at `base`.
fn candidates_line(base: usize, v: &Vec<usize>, Ghost(limit): Ghost<int>) -> (s: String)
    requires
        forall|k: int| 0 <= k < v@.len() ==> base + #[trigger] v@[k] <= limit,
        limit <= usize::MAX,
    ensures
        s@ == candidates_text(base as int, v@),
{
    let mut s = String::new();
    push_dec(&mut s, v.len() as u64);
    push_str(&mut s, " $FPT candidates: ");
    let ghost head = s@;
    let mut i: usize = 0;
    while i < v.len()
        invariant
            i <= v@.len(),
            limit <= usize::MAX,
            forall|k: int| 0 <= k < v@.len() ==> base + #[trigger] v@[k] <= limit,
            s@ == head + hex_list(base as int, v@.take(i as int)),
        decreases v@.len() - i,
    {
        proof {
            assert(v@.take(i + 1).drop_last() =~= v@.take(i as int));
        }
        if i > 0 {
            push_str(&mut s, ", ");
        }
        push_hex_prefixed(&mut s, (base + v[i]) as u64);
        i = i + 1;
        proof {
            if i == 1 {
                assert(hex_list(base as int, v@.take(0)) =~= Seq::<char>::empty());
            }
            assert(s@ =~= head + hex_list(base as int, v@.take(i as int)));
        }
    }
    assert(v@.take(i as int) =~= v@);
    s
}

/// A fresh copy of `v`.
fn copy_offsets(v: &Vec<usize>) -> (r: Vec<usize>)
    ensures
        r@ == v@,
{
    let mut r: Vec<usize> = Vec::new();
    let mut i: usize = 0;
    while i < v.len()
        invariant
            i <= v@.len(),
            r@ == v@.take(i as int),
        decreases v@.len() - i,
    {
        r.push(v[i]);
        i = i + 1;
        assert(r@ =~= v@.take(i as int));
    }
    assert(v@.take(i as int) =~= v@);
    r
}

/// Prefer the candidate holding an FTPR/CODE partition; else remember the
/// first parseable table.
fn choose_table(me: &Region, buf: &[u8], cands: &Vec<usize>) -> (r: (Option<(Fpt, Ftpr)>, Option<Fpt>))
    requires
        me.start < me.end <= buf@.len(),
        headroom(buf@.len() as int + 0x100_0000_0000),
        all_fpt(cands@, me_data(*me, buf@)),
    ensures
        ({
            let hf = has_ftpr_at(*me, buf@, cands@);
            let pa = parses_at(*me, buf@, cands@);
            if exists|i: int| #[trigger] hf(i) {
                let i = first_index(hf);
                r.0 matches Some(x) && fpt_from(*me, buf@, cands@[i] as int, x.0) && x.1 == spec_ftpr_of(
                    *me,
                    buf@,
                    cands@[i] as int,
                    me_data(*me, buf@),
                )->0
            } else {
                &&& r.0 is None
                &&& if exists|i: int| #[trigger] pa(i) {
                    r.1 matches Some(t) && fpt_from(*me, buf@, cands@[first_index(pa)] as int, t)
                } else {
                    r.1 is None
                }
            }
        }),
{
    let ghost hf = has_ftpr_at(*me, buf@, cands@);
    let ghost pa = parses_at(*me, buf@, cands@);
    let ghost d = me_data(*me, buf@);
    let me_bytes = me.all(buf);
    let mut chosen: Option<(Fpt, Ftpr)> = None;
    let mut first_parsed: Option<Fpt> = None;
    let ghost mut fp: int = 0;
    let mut i: usize = 0;
    while i < cands.len() && chosen.is_none()
        invariant
            i <= cands@.len(),
            me.start < me.end <= buf@.len(),
            headroom(buf@.len() as int + 0x100_0000_0000),
            all_fpt(cands@, d),
            hf == has_ftpr_at(*me, buf@, cands@),
            pa == parses_at(*me, buf@, cands@),
            d == me_data(*me, buf@),
            me_bytes@ == d,
            chosen is None ==> forall|j: int| 0 <= j < i ==> !#[trigger] hf(j),
            chosen matches Some(x) ==> (i >= 1 && first_at(hf, i - 1) && fpt_from(*me, buf@, cands@[i - 1] as int, x.0)
                && x.1 == spec_ftpr_of(*me, buf@, cands@[i - 1] as int, d)->0),
            (chosen is None && first_parsed is None) ==> forall|j: int| 0 <= j < i ==> !#[trigger] pa(j),
            first_parsed matches Some(t) ==> (first_at(pa, fp) && fp < i && fpt_from(*me, buf@, cands@[fp] as int, t)),
        decreases cands@.len() - i,
    {
        let off = cands[i];
        proof {
            assert(crate::fpt::fpt_at(d, cands@[i as int] as int));
        }
        match parse_fpt(me, buf, off) {
            Err(_) => {},
            Ok(parsed) => {
                proof {
                    lemma_ftpr_of(*me, buf@, off as int, parsed, d);
                }
                match find_ftpr(&parsed, me_bytes) {
                    Ok(ftpr) => {
                        chosen = Some((parsed, ftpr));
                    },
                    Err(_) => {
                        if first_parsed.is_none() {
                            first_parsed = Some(parsed);
                            proof {
                                fp = i as int;
                            }
                        }
                    },
                }
            },
        }
        i = i + 1;
    }
    proof {
        if exists|k: int| #[trigger] hf(k) {
            if chosen is Some {
                lemma_first_index(hf, i - 1);
            } else {
                let k = choose|k: int| #[trigger] hf(k);
                assert(!hf(k));
            }
        } else {
            assert(chosen is None);
            if first_parsed is Some {
                lemma_first_index(pa, fp);
            } else {
                if exists|k: int| #[trigger] pa(k) {
                    let k = choose|k: int| #[trigger] pa(k);
                    assert(!pa(k));
                }
            }
        }
    }
    (chosen, first_parsed)
}

/// The facts read from the image header, all else still empty.
pub open spec fn header_of(buf: Seq<u8>, k: (bool, bool), a: Analysis) -> bool {
    let me = image_me(buf, k);
    &&& a.full_image == k.0
    &&& a.sig_at_zero == (k.0 && k.1)
    &&& a.descriptor == if k.0 {
        Some(spec_descriptor(buf, k.1))
    } else {
        None
    }
    &&& a.me == me
    &&& a.me_disabled == (k.0 && me.end <= me.start)
    &&& a.generation == if k.0 && k.1 {
        Some(1u8)
    } else {
        None
    }
    &&& no_manifest(a)
    &&& a.fpt is None
    &&& a.ftpr is None
    &&& a.fpt_candidates@.len() == 0
    &&& a.warnings@.len() == 0
}

/// The image kind and the descriptor-derived facts.
fn identify(buf: &[u8]) -> (r: Result<Analysis>)
    requires
        analyzable(buf@),
    ensures
        match spec_image(buf@) {
            None => r matches Err(e) && e is UnknownImage,
            Some(k) => r matches Ok(a) && header_of(buf@, k, a),
        },
{
    proof {
        reveal_strlit("");
    }
    if buf.len() < 0x14 {
        return Err(Error::UnknownImage);
    }
    let fpt0 = has_tag(buf, 0, FPT_MAGIC);
    let fpt10 = has_tag(buf, 0x10, FPT_MAGIC);
    let fd0 = has_tag(buf, 0, FD_SIGNATURE);
    let fd10 = has_tag(buf, 0x10, FD_SIGNATURE);
    let mut a = Analysis {
        full_image: false,
        sig_at_zero: false,
        descriptor: None,
        me: Region::new(0, 0),
        me_disabled: false,
        generation: None,
        variant: String::new(),
        version: None,
        fpt: None,
        ftpr: None,
        ftpr_mn2_offset: 0,
        pubkey_md5: String::new(),
        pubkey_match: None,
        fpt_candidates: Vec::new(),
        warnings: Vec::new(),
    };
    if fpt0 || fpt10 {
        // ME/TXE region image, no descriptor.
        a.me = Region::new(0, buf.len());
    } else if fd0 || fd10 {
        a.full_image = true;
        a.sig_at_zero = fd0;
        let d = Descriptor::parse(buf, fd0);
        a.me = d.me;
        if fd0 {
            a.generation = Some(1);
        }
        if d.me.is_empty() {
            a.me_disabled = true;
        }
        a.descriptor = Some(d);
    } else {
        return Err(Error::UnknownImage);
    }
    proof {
        let k = spec_image(buf@)->0;
        assert(a.full_image == k.0);
        assert(a.sig_at_zero == (k.0 && k.1));
        assert(a.me == image_me(buf@, k));
        assert(a.descriptor == if k.0 { Some(spec_descriptor(buf@, k.1)) } else { None });
        assert(a.generation == if k.0 && k.1 { Some(1u8) } else { None });
        assert(a.variant@ == ""@);
        assert(no_manifest(a));
    }
    Ok(a)
}

/// Everything found in a non-empty ME region, recorded into `a`.
#[verifier::rlimit(40)]
fn analyze_me(buf: &[u8], a: &mut Analysis, Ghost(k): Ghost<(bool, bool)>)
    requires
        analyzable(buf@),
        spec_image(buf@) == Some(k),
        header_of(buf@, k, *old(a)),
        old(a).me.start < old(a).me.end,
    ensures
        header_of(buf@, k, *old(a)),
        final(a).full_image == old(a).full_image,
        final(a).sig_at_zero == old(a).sig_at_zero,
        final(a).descriptor == old(a).descriptor,
        final(a).me == old(a).me,
        final(a).me_disabled == old(a).me_disabled,
        me_analysis(buf@, old(a).me, old(a).generation, *final(a)),
{
    reveal(me_analysis);
    let me = a.me;
    let ghost gen0 = a.generation;
    let me_bytes = me.all(buf);
    let candidates = find_all_fpt(me_bytes);
    a.fpt_candidates = copy_offsets(&candidates);
    if candidates.len() == 0 {
        a.warnings.push(String::from_str("no $FPT found in ME region"));
        assert(texts(a.warnings@) =~= seq!["no $FPT found in ME region"@]);
        return;
    }
    let ghost w0 = if candidates@.len() > 1 {
        seq![candidates_text(me.start as int, candidates@)]
    } else {
        Seq::<Seq<char>>::empty()
    };
    if candidates.len() > 1 {
        proof {
            assert forall|k: int| 0 <= k < candidates@.len() implies me.start + #[trigger] candidates@[k] <= me.end by {
                assert(crate::fpt::fpt_at(me_bytes@, candidates@[k] as int));
            }
        }
        a.warnings.push(candidates_line(me.start, &candidates, Ghost(me.end as int)));
    }
    assert(texts(a.warnings@) =~= w0);
    let (chosen, first_parsed) = choose_table(&me, buf, &candidates);
    let (parsed, ftpr) = match chosen {
        Some(x) => x,
        None => {
            if let Some(p) = first_parsed {
                a.fpt = Some(p);
            }
            a.warnings.push(String::from_str("no FTPR partition found in any $FPT; skipping ME version"));
            assert(texts(a.warnings@) =~= w0 + seq!["no FTPR partition found in any $FPT; skipping ME version"@]);
            return;
        },
    };
    if ftpr.is_code {
        a.generation = Some(1);
    }
    a.fpt = Some(parsed);
    a.ftpr = Some(ftpr);
    let ghost before = *a;
    match resolve_manifest(&me, buf, a, ftpr) {
        Ok(()) => {
            assert(texts(a.warnings@) =~= w0 + manifest_warning(spec_resolve(me, buf@, ftpr.offset as int, before.generation)));
        },
        Err(e) => {
            let mut w = String::from_str("manifest: ");
            let text = e.to_string();
            push_str(&mut w, text.as_str());
            a.warnings.push(w);
            assert(texts(a.warnings@) =~= w0 + manifest_warning(spec_resolve(me, buf@, ftpr.offset as int, before.generation)));
        },
    }
}

/// Identify the image and parse everything we can without modifying it.
pub fn analyze(buf: &[u8]) -> (r: Result<Analysis>)
    requires
        analyzable(buf@),
    ensures
        match spec_image(buf@) {
            None => r matches Err(e) && e is UnknownImage,
            Some(k) => r matches Ok(a) && analysis_of(buf@, k, a),
        },
{
    let mut a = identify(buf)?;
    let ghost k = spec_image(buf@)->0;
    proof {
        reveal(analysis_of);
    }
    if a.me.is_empty() {
        return Ok(a);
    }
    analyze_me(buf, &mut a, Ghost(k));
    Ok(a)
}

// ---------------------------------------------------------------------------
// Cleaning

/// The state of a cleaning run.
pub struct CleanRun {
    pub buf: Seq<u8>,
    pub log: Seq<Seq<char>>,
    pub end_addr: Option<int>,
    pub truncated_to: Option<int>,
    pub extracted_descriptor: Option<Seq<u8>>,
    pub extracted_me: Option<Seq<u8>>,
    pub signature_valid: Option<bool>,
    pub ftpr_offset: int,
    pub ignition: bool,
}

/// Why `clean` refuses the options for this image.
pub enum Refusal {
    MultipleTables,
    NeedsFullDump,
    SoftOnlyWithLayoutChange,
    ListsWithRelocation,
}

pub open spec fn refusal(a: Analysis, opts: Options) -> Option<Refusal> {
    if a.fpt_candidates@.len() > 1 {
        Some(Refusal::MultipleTables)
    } else if !a.full_image && (opts.descriptor || opts.extract_descriptor || opts.extract_me || opts.soft_disable
        || opts.soft_disable_only) {
        Some(Refusal::NeedsFullDump)
    } else if opts.soft_disable_only && (opts.relocate || opts.truncate) {
        Some(Refusal::SoftOnlyWithLayoutChange)
    } else if (opts.whitelist@.len() > 0 || opts.blacklist@.len() > 0) && opts.relocate {
        Some(Refusal::ListsWithRelocation)
    } else {
        None
    }
}

/// The error reported for a refusal.
pub open spec fn refusal_error(e: Error, r: Refusal) -> bool {
    match r {
        Refusal::MultipleTables => e is MultipleFpt,
        Refusal::NeedsFullDump => e matches Error::RequiresFullDump { op } && op@ == "-d/-D/-M/-S/-s"@,
        Refusal::SoftOnlyWithLayoutChange => e matches Error::BadOptions(m) && m@ == "-s can't be used with -r or -t"@,
        Refusal::ListsWithRelocation => e matches Error::BadOptions(m) && m@
            == "relocation is not supported with custom whitelist or blacklist"@,
    }
}

/// The single-bit mask of a disable strap bit (7 or 16).
pub open spec fn strap_mask(bit: u32) -> int {
    if bit == 7 {
        0x80
    } else {
        0x1_0000
    }
}

/// `strap` with the bit of `mask` set.
pub open spec fn with_bit(strap: int, mask: int) -> int {
    if (strap / mask) % 2 == 1 {
        strap
    } else {
        strap + mask
    }
}

/// Setting a disable bit is or-ing in its single-bit mask.
pub proof fn lemma_with_bit(strap: u32, bit: u32)
    requires
        bit == 7 || bit == 16,
    ensures
        with_bit(strap as int, strap_mask(bit)) == (strap | (1u32 << bit)) as int,
{
    if bit == 7 {
        assert((strap | (1u32 << 7u32)) == if (strap / 0x80) % 2 == 1 {
            strap
        } else {
            (strap + 0x80) as u32
        }) by (bit_vector);
        assert((strap / 0x80) % 2 == 0 ==> strap + 0x80 <= 0xffff_ffff) by (bit_vector);
    } else {
        assert((strap | (1u32 << 16u32)) == if (strap / 0x1_0000) % 2 == 1 {
            strap
        } else {
            (strap + 0x1_0000) as u32
        }) by (bit_vector);
        assert((strap / 0x1_0000) % 2 == 0 ==> strap + 0x1_0000 <= 0xffff_ffff) by (bit_vector);
    }
}

/// The FLMSTR2 value the descriptor stage writes, `(v | 0x0404_0000) &
/// 0x0404_ffff`, is the low half of `v` with 0x0404 above it.
pub proof fn lemma_flmstr2_mask(v: u32)
    ensures
        ((v | 0x0404_0000) & 0x0404_ffff) as int == v as int % 0x1_0000 + 0x0404_0000,
{
    assert(((v | 0x0404_0000) & 0x0404_ffff) == v % 0x1_0000 + 0x0404_0000) by (bit_vector);
}

pub open spec fn log_line(s: CleanRun, line: Seq<char>) -> CleanRun {
    CleanRun { log: s.log.push(line), ..s }
}

/// Generation 1: report the meDisable bit of one strap and set it when clear.
pub open spec fn strap_set(s: CleanRun, ba: int, name: Seq<char>) -> Outcome<CleanRun> {
    if ba + 4 > s.buf.len() {
        Outcome::Stuck
    } else {
        let strap = le32(s.buf, ba);
        if strap % 2 == 1 {
            Outcome::Done(log_line(s, "The meDisable bit in "@ + name + " is SET"@))
        } else {
            Outcome::Done(
                CleanRun {
                    buf: splice(s.buf, ba, le32_bytes((strap + 1) as u32)),
                    ..log_line(s, "The meDisable bit in "@ + name + " is NOT SET, setting it now..."@)
                },
            )
        }
    }
}

/// Disable-bit status of a full dump (and, on generation 1, setting it).
#[verifier::opaque]
pub open spec fn stage_straps(a: Analysis, s: CleanRun) -> Outcome<CleanRun> {
    match a.descriptor {
        None => Outcome::Done(s),
        Some(d) => match a.generation {
            None => Outcome::Done(s),
            Some(g) => if g == 1 {
                match strap_set(s, d.fisba as int, "ICHSTRP0"@) {
                    Outcome::Done(s1) => strap_set(s1, d.fmsba as int, "MCHSTRP0"@),
                    o => o,
                }
            } else {
                let abs = d.fpsba + disable_strap(g).0;
                if abs + 4 > s.buf.len() {
                    Outcome::Stuck
                } else {
                    let set = (le32(s.buf, abs) / strap_mask(disable_strap(g).1)) % 2 == 1;
                    Outcome::Done(
                        log_line(
                            s,
                            "The "@ + disable_name(g) + " is "@ + if set {
                                "SET"@
                            } else {
                                "NOT SET"@
                            },
                        ),
                    )
                }
            },
        },
    }
}

/// Generation 1: disable the ME region in the descriptor and wipe it.
#[verifier::opaque]
pub open spec fn stage_wipe(a: Analysis, s: CleanRun) -> Outcome<CleanRun> {
    if a.generation == Some(1u8) && a.me.start < a.me.end && a.descriptor is Some {
        let d = a.descriptor->0;
        if d.frba + 0xc > s.buf.len() {
            Outcome::Stuck
        } else {
            let b1 = splice(s.buf, d.frba + 8, le32_bytes(0x1fff));
            if a.me.end > b1.len() {
                Outcome::Stuck
            } else {
                Outcome::Done(
                    CleanRun {
                        buf: fill_seq(b1, a.me.start as int, a.me.end as int, 0xff),
                        log: s.log.push("Disabling the ME region..."@).push("Wiping the ME region..."@),
                        ..s
                    },
                )
            }
        }
    } else {
        Outcome::Done(s)
    }
}

/// `$SKU`
pub open spec fn sku_tag() -> Seq<u8> {
    seq![0x24u8, 0x53, 0x4b, 0x55]
}

/// ME 6 Ignition firmware: wipe the whole region.
#[verifier::opaque]
pub open spec fn stage_ignition(a: Analysis, opts: Options, s: CleanRun) -> Outcome<CleanRun> {
    let me = a.me;
    if a.generation == Some(2u8) && !opts.soft_disable_only && a.variant@ == "ME"@ && major_of(a) == 6 {
        let fo = a.ftpr->0.offset as int;
        if !me.fits(fo + 0x20, 4) {
            Outcome::Failed(Error::OutOfRegion { offset: (fo + 0x20) as usize, len: 4 }, s.buf)
        } else {
            let n = le32(s.buf, me.start + fo + 0x20);
            let p = fo + 0x290 + (n + 1) * 0x60;
            let at = me.start + p;
            if me.fits(p, 0xc) && s.buf.subrange(at, at + 4) == sku_tag() && s.buf.subrange(at + 8, at + 12)
                == seq![0u8, 0, 0, 0] {
                Outcome::Done(
                    CleanRun {
                        buf: fill_seq(s.buf, me.start as int, me.end as int, 0xff),
                        log: s.log.push("ME 6 Ignition firmware detected, removing everything..."@),
                        ignition: true,
                        ..s
                    },
                )
            } else {
                Outcome::Done(s)
            }
        }
    } else {
        Outcome::Done(s)
    }
}

/// After removal: the minimum ME size, and reducing or truncating to it.
pub open spec fn after_end(a: Analysis, opts: Options, s: CleanRun, e: int) -> Outcome<CleanRun> {
    let e2 = (e / 0x1000 + 1) * 0x1000 + 4 * 0x1000;
    if a.me.start + e2 > usize::MAX {
        Outcome::Stuck
    } else {
        let s1 = CleanRun {
            end_addr: Some(e2),
            log: s.log.push("The ME minimum size should be "@ + dec(e2 as nat) + " bytes ("@ + hex_prefixed(e2 as nat) + " bytes)"@),
            ..s
        };
        if a.me.start > 0 {
            Outcome::Done(
                log_line(
                    s1,
                    "The ME region can be reduced up to:\n "@ + hex_padded(a.me.start as nat, 8) + ":"@ + hex_padded(
                        (a.me.start + e2 - 1) as nat,
                        8,
                    ) + " me"@,
                ),
            )
        } else if opts.truncate {
            Outcome::Done(
                CleanRun {
                    buf: if e2 <= s1.buf.len() {
                        s1.buf.take(e2)
                    } else {
                        s1.buf
                    },
                    truncated_to: Some(e2),
                    ..log_line(s1, "Truncating file at "@ + hex_prefixed(e2 as nat) + "..."@)
                },
            )
        } else {
            Outcome::Done(s1)
        }
    }
}

/// Partition and module removal (not on IFWI firmware).
#[verifier::opaque]
pub open spec fn stage_removal(a: Analysis, opts: Options, s: CleanRun) -> Outcome<CleanRun> {
    if a.generation != Some(1u8) && !opts.soft_disable_only && !s.ignition {
        if a.generation matches Some(g) && g >= 4 {
            Outcome::Done(log_line(s, "Module removal is not currently supported on IFWI firmware."@))
        } else {
            let me6 = a.variant@ == "ME"@ && major_of(a) == 6;
            let ftpr = a.ftpr->0;
            match spec_remove_parts(
                a.me,
                s.buf,
                s.log,
                a.fpt->0,
                a.generation == Some(3u8),
                me6,
                a.me.end - a.me.start,
                ftpr.offset as int,
                ftpr.length as int,
                opts,
            ) {
                Outcome::Done(x) => {
                    let s1 = CleanRun { buf: x.0, log: x.1, end_addr: x.2, ftpr_offset: x.3, ..s };
                    match x.2 {
                        Some(e) => if e > 0 {
                            after_end(a, opts, s1, e)
                        } else {
                            Outcome::Done(s1)
                        },
                        None => Outcome::Done(s1),
                    }
                },
                Outcome::Failed(e, b) => Outcome::Failed(e, b),
                Outcome::Stuck => Outcome::Stuck,
            }
        }
    } else {
        Outcome::Done(s)
    }
}

/// Set the HAP / AltMeDisable bit.
#[verifier::opaque]
pub open spec fn stage_soft_disable(a: Analysis, opts: Options, s: CleanRun) -> Outcome<CleanRun> {
    if a.generation != Some(1u8) && (opts.soft_disable || opts.soft_disable_only) && a.generation is Some
        && a.descriptor is Some {
        let g = a.generation->0;
        let abs = a.descriptor->0.fpsba + disable_strap(g).0;
        if abs + 4 > s.buf.len() {
            Outcome::Stuck
        } else {
            let strap = le32(s.buf, abs);
            Outcome::Done(
                CleanRun {
                    buf: splice(s.buf, abs, le32_bytes(with_bit(strap, strap_mask(disable_strap(g).1)) as u32)),
                    ..log_line(s, "Setting the "@ + disable_name(g) + " to disable Intel ME..."@)
                },
            )
        }
    } else {
        Outcome::Done(s)
    }
}

/// Whether the descriptor of a generation uses the FLMSTR v2 layout (read
/// bits 8-19, write bits 20-31); earlier ones use v1 (read bits 16-23, write
/// bits 24-31).
pub open spec fn flmstr_v2(generation: Option<u8>) -> bool {
    match generation {
        Some(g) => g >= 3,
        None => false,
    }
}

/// Drop the ME's read/write access to the other flash regions.
#[verifier::opaque]
pub open spec fn stage_descriptor(a: Analysis, opts: Options, s: CleanRun) -> Outcome<CleanRun> {
    if opts.descriptor && a.descriptor is Some {
        let d = a.descriptor->0;
        if d.fmba + 8 > s.buf.len() {
            Outcome::Stuck
        } else {
            let v = if flmstr_v2(a.generation) {
                0x0040_0500
            } else {
                le32(s.buf, d.fmba + 4) % 0x1_0000 + 0x0404_0000
            };
            Outcome::Done(
                CleanRun {
                    buf: splice(s.buf, d.fmba + 4, le32_bytes(v as u32)),
                    ..log_line(s, "Removing ME/TXE R/W access to the other flash regions..."@)
                },
            )
        }
    } else {
        Outcome::Done(s)
    }
}

/// Truncation: point the extracted descriptor's BIOS (and, past generation 1,
/// ME) region at the layout that ends `e` bytes into the ME region.
pub open spec fn adjust_extracted(a: Analysis, s: CleanRun, desc: Seq<u8>, e: int) -> Outcome<CleanRun> {
    let d = a.descriptor->0;
    let me = a.me;
    if d.bios.start == me.end {
        let gen1 = a.generation == Some(1u8);
        if d.bios.end as int % 0x1_0000_0000 == 0 || d.frba + 8 > desc.len() || me.start + e > usize::MAX || (!gen1
            && ((me.start + e) % 0x1_0000_0000 == 0 || d.frba + 12 > desc.len())) {
            Outcome::Stuck
        } else {
            let desc1 = splice(desc, d.frba + 4, le32_bytes(flreg_of(me.start + e, d.bios.end as int) as u32));
            let desc2 = if gen1 {
                desc1
            } else {
                splice(desc1, d.frba + 8, le32_bytes(flreg_of(me.start as int, me.start + e) as u32))
            };
            Outcome::Done(
                CleanRun {
                    extracted_descriptor: Some(desc2),
                    ..log_line(s, "Modified extracted descriptor regions for truncation"@)
                },
            )
        }
    } else {
        Outcome::Done(
            CleanRun {
                extracted_descriptor: Some(desc),
                ..log_line(
                    s,
                    "WARNING: BIOS region start ("@ + hex_prefixed(d.bios.start as nat) + ") != ME region end ("@
                        + hex_prefixed(me.end as nat) + "); descriptor regions not auto-adjusted"@,
                )
            },
        )
    }
}

/// Copy out the descriptor, adjusted for truncation when asked.
#[verifier::opaque]
pub open spec fn stage_extract_descriptor(a: Analysis, opts: Options, s: CleanRun) -> Outcome<CleanRun> {
    if opts.extract_descriptor && a.descriptor is Some {
        let d = a.descriptor->0;
        if d.fd.end < d.fd.start || d.fd.end > s.buf.len() {
            Outcome::Stuck
        } else {
            let desc = s.buf.subrange(d.fd.start as int, d.fd.end as int);
            if opts.truncate && s.end_addr is Some {
                adjust_extracted(a, s, desc, s.end_addr->0)
            } else {
                Outcome::Done(CleanRun { extracted_descriptor: Some(desc), ..s })
            }
        }
    } else {
        Outcome::Done(s)
    }
}

/// Copy out the ME region (up to the minimum size when truncating).
#[verifier::opaque]
pub open spec fn stage_extract_me(a: Analysis, opts: Options, s: CleanRun) -> Outcome<CleanRun> {
    if a.generation != Some(1u8) && opts.extract_me {
        let me = a.me;
        let size = if opts.truncate && s.end_addr is Some {
            s.end_addr->0
        } else {
            me.end - me.start
        };
        if me.start + size > usize::MAX || (me.fits(0, size) && me.start + size > s.buf.len()) {
            Outcome::Stuck
        } else if !me.fits(0, size) {
            Outcome::Failed(Error::OutOfRegion { offset: 0, len: size as usize }, s.buf)
        } else {
            Outcome::Done(CleanRun { extracted_me: Some(s.buf.subrange(me.start as int, me.start + size)), ..s })
        }
    } else {
        Outcome::Done(s)
    }
}

/// Verify the FTPR signature; an invalid one fails the run.
#[verifier::opaque]
pub open spec fn stage_signature(a: Analysis, s: CleanRun) -> Outcome<CleanRun> {
    if a.generation != Some(1u8) && !s.ignition {
        let off = s.ftpr_offset + a.ftpr_mn2_offset;
        if !signature_reads_ok(a.me, s.buf, off) || !signature_checkable(a.me, s.buf, off) {
            Outcome::Stuck
        } else {
            match spec_signature(a.me, s.buf, off) {
                Err(e) => Outcome::Failed(e, s.buf),
                Ok(v) => if v {
                    Outcome::Done(CleanRun { signature_valid: Some(true), ..s })
                } else {
                    Outcome::Failed(Error::InvalidSignature, s.buf)
                },
            }
        }
    } else {
        Outcome::Done(s)
    }
}

/// Major firmware version of the analysis (0 when unknown).
pub open spec fn major_of(a: Analysis) -> u16 {
    match a.version {
        Some(v) => v.0[0],
        None => 0,
    }
}

/// Chain two stages.
pub open spec fn then(o: Outcome<CleanRun>, f: spec_fn(CleanRun) -> Outcome<CleanRun>) -> Outcome<CleanRun> {
    match o {
        Outcome::Done(s) => f(s),
        Outcome::Failed(e, b) => Outcome::Failed(e, b),
        Outcome::Stuck => Outcome::Stuck,
    }
}

/// The stages after the straps, once an FTPR was found.
pub open spec fn spec_clean_ftpr(a: Analysis, opts: Options, s: CleanRun) -> Outcome<CleanRun> {
    if a.version is None {
        Outcome::Stuck
    } else {
        then(
            then(
                then(
                    then(
                        then(
                            then(
                                then(stage_ignition(a, opts, s), |x| stage_removal(a, opts, x)),
                                |x| stage_soft_disable(a, opts, x),
                            ),
                            |x| stage_descriptor(a, opts, x),
                        ),
                        |x| stage_extract_descriptor(a, opts, x),
                    ),
                    |x| stage_extract_me(a, opts, x),
                ),
                |x| stage_signature(a, x),
            ),
            |x| Outcome::Done(x),
        )
    }
}

/// A cleaning run on an analysed image whose options are not refused.
pub open spec fn spec_clean_run(a: Analysis, opts: Options, buf: Seq<u8>) -> Outcome<CleanRun> {
    let init = CleanRun {
        buf,
        log: seq![],
        end_addr: None,
        truncated_to: None,
        extracted_descriptor: None,
        extracted_me: None,
        signature_valid: None,
        ftpr_offset: 0,
        ignition: false,
    };
    then(
        then(stage_straps(a, init), |x| stage_wipe(a, x)),
        |x|
            {
                let x1 = if a.me.end <= a.me.start {
                    log_line(x, "The ME region in this image has already been disabled"@)
                } else {
                    x
                };
                if a.fpt is Some && a.ftpr is Some {
                    spec_clean_ftpr(a, opts, CleanRun { ftpr_offset: a.ftpr->0.offset as int, ..x1 })
                } else {
                    Outcome::Done(x1)
                }
            },
    )
}

/// The report holds the run's results.
pub open spec fn report_of(r: Report, a: Analysis, s: CleanRun) -> bool {
    &&& texts(r.log@) == s.log
    &&& r.generation == a.generation
    &&& match s.end_addr {
        Some(e) => r.end_addr matches Some(v) && v as int == e,
        None => r.end_addr is None,
    }
    &&& match s.truncated_to {
        Some(e) => r.truncated_to matches Some(v) && v as int == e,
        None => r.truncated_to is None,
    }
    &&& match s.extracted_descriptor {
        Some(d) => r.extracted_descriptor matches Some(v) && v@ == d,
        None => r.extracted_descriptor is None,
    }
    &&& match s.extracted_me {
        Some(d) => r.extracted_me matches Some(v) && v@ == d,
        None => r.extracted_me is None,
    }
    &&& r.signature_valid == s.signature_valid
}

/// What `clean` does with an analysed image: refuse the options, or run.
pub open spec fn clean_result(a: Analysis, opts: Options, buf: Seq<u8>, r: Result<Report>, final_buf: Seq<u8>) -> bool {
    match refusal(a, opts) {
        Some(rf) => r matches Err(e) && refusal_error(e, rf) && final_buf == buf,
        None => match spec_clean_run(a, opts, buf) {
            Outcome::Done(s) => r matches Ok(rep) && report_of(rep, a, s) && final_buf == s.buf,
            Outcome::Failed(e, b) => r matches Err(x) && x == e && final_buf == b,
            Outcome::Stuck => false,
        },
    }
}

/// The run does not reach a state the firmware layout rules out.
pub open spec fn clean_defined(a: Analysis, opts: Options, buf: Seq<u8>) -> bool {
    refusal(a, opts) is None ==> !(spec_clean_run(a, opts, buf) is Stuck)
}

/// The FLMSTR value that the descriptor stage writes decodes, in the layout
/// of the generation, to the ME master's restricted masks.
proof fn lemma_me_master_written(b: Seq<u8>, flm: int, g: u8)
    requires
        0 <= flm,
        flm + 4 <= b.len(),
    ensures
        ({
            let v: int = if g >= 3 {
                0x0040_0500
            } else {
                le32(b, flm) % 0x1_0000 + 0x0404_0000
            };
            let w = splice(b, flm, le32_bytes(v as u32));
            &&& w.len() == b.len()
            &&& flmstr_masks(le32(w, flm) as u32, g >= 3) == if g >= 3 {
                (0b101u16, 0b100u16)
            } else {
                (0b100u16, 0b100u16)
            }
        }),
{
    let low = le32(b, flm) % 0x1_0000;
    let v: int = if g >= 3 {
        0x0040_0500
    } else {
        low + 0x0404_0000
    };
    assert(0 <= v < 0x1_0000_0000);
    lemma_read_after_write(b, flm, v as u32);
    if g < 3 {
        assert(v / 0x1_0000 == 0x0404) by (nonlinear_arith)
            requires
                v == low + 0x0404_0000,
                0 <= low < 0x1_0000,
        ;
        assert(v / 0x100_0000 == 0x04) by (nonlinear_arith)
            requires
                v == low + 0x0404_0000,
                0 <= low < 0x1_0000,
        ;
    }
}

/// What `clean -S`/`-s` and `-d` promise of a run that completes on an image
/// with a partition table and an FTPR past generation 1: the HAP /
/// AltMeDisable bit is set in the image (where `-d` does not write over that
/// strap), and with `-d` the ME master's FLMSTR, decoded in the layout of the
/// generation, grants read access to the descriptor and ME regions at most
/// (mask `0b101`, or `0b100` on v1) and write access to the ME region alone.
pub proof fn lemma_clean_disables(a: Analysis, opts: Options, buf: Seq<u8>)
    requires
        refusal(a, opts) is None,
        a.generation matches Some(g) && g != 1,
        a.descriptor is Some,
        a.fpt is Some,
        a.ftpr is Some,
    ensures
        spec_clean_run(a, opts, buf) matches Outcome::Done(s) ==> ({
            let g = a.generation->0;
            let d = a.descriptor->0;
            let abs = d.fpsba + disable_strap(g).0;
            let flm = d.fmba + 4;
            &&& (opts.soft_disable || opts.soft_disable_only) && (!opts.descriptor || abs + 4 <= flm || flm + 4 <= abs)
                ==> abs + 4 <= s.buf.len() && (le32(s.buf, abs) / strap_mask(disable_strap(g).1)) % 2 == 1
            &&& opts.descriptor ==> flm + 4 <= s.buf.len() && flmstr_masks(le32(s.buf, flm) as u32, g >= 3) == if g
                >= 3 {
                (0b101u16, 0b100u16)
            } else {
                (0b100u16, 0b100u16)
            }
        }),
{
    reveal(stage_soft_disable);
    reveal(stage_descriptor);
    reveal(stage_extract_descriptor);
    reveal(stage_extract_me);
    reveal(stage_signature);
    let g = a.generation->0;
    let d = a.descriptor->0;
    let abs = d.fpsba + disable_strap(g).0;
    let flm = d.fmba + 4;
    let init = CleanRun {
        buf,
        log: seq![],
        end_addr: None,
        truncated_to: None,
        extracted_descriptor: None,
        extracted_me: None,
        signature_valid: None,
        ftpr_offset: 0,
        ignition: false,
    };
    if let Outcome::Done(x) = then(stage_straps(a, init), |x| stage_wipe(a, x)) {
        let x1 = if a.me.end <= a.me.start {
            log_line(x, "The ME region in this image has already been disabled"@)
        } else {
            x
        };
        let s0 = CleanRun { ftpr_offset: a.ftpr->0.offset as int, ..x1 };
        if a.version is Some {
            if let Outcome::Done(s1) = then(stage_ignition(a, opts, s0), |x| stage_removal(a, opts, x)) {
                if let Outcome::Done(s2) = stage_soft_disable(a, opts, s1) {
                    if let Outcome::Done(s3) = stage_descriptor(a, opts, s2) {
                        if let Outcome::Done(s4) = stage_extract_descriptor(a, opts, s3) {
                            if let Outcome::Done(s5) = stage_extract_me(a, opts, s4) {
                                if let Outcome::Done(s6) = stage_signature(a, s5) {
                                    assert(s6.buf == s3.buf);
                                    if opts.soft_disable || opts.soft_disable_only {
                                        let strap = le32(s1.buf, abs);
                                        let m = strap_mask(disable_strap(g).1);
                                        assert((le32(s2.buf, abs) / m) % 2 == 1) by {
                                            assert(with_bit(strap, m) < 0x1_0000_0000) by {
                                                assert(0 <= strap < 0x1_0000_0000);
                                                if (strap / m) % 2 != 1 {
                                                    assert(strap + m < 0x1_0000_0000) by (nonlinear_arith)
                                                        requires
                                                            0 <= strap < 0x1_0000_0000,
                                                            (strap / m) % 2 == 0,
                                                            m == 0x80 || m == 0x1_0000,
                                                    ;
                                                }
                                            }
                                            lemma_read_after_write(s1.buf, abs, with_bit(strap, m) as u32);
                                            assert((with_bit(strap, m) / m) % 2 == 1) by (nonlinear_arith)
                                                requires
                                                    m == 0x80 || m == 0x1_0000,
                                                    0 <= strap,
                                            ;
                                        }
                                        if opts.descriptor && (abs + 4 <= flm || flm + 4 <= abs) {
                                            assert(le32(s3.buf, abs) == le32(s2.buf, abs));
                                        }
                                    }
                                    if opts.descriptor {
                                        lemma_me_master_written(s2.buf, flm, g);
                                    }
                                }
                            }
                        }
                    }
                }
            }
        }
    }
}

/// The exec side of `CleanRun` (the buffer is kept apart).
struct RunState {
    log: Vec<String>,
    end_addr: Option<usize>,
    truncated_to: Option<usize>,
    extracted_descriptor: Option<Vec<u8>>,
    extracted_me: Option<Vec<u8>>,
    signature_valid: Option<bool>,
    ftpr_offset: usize,
    ignition: bool,
}

spec fn opt_int(o: Option<usize>) -> Option<int> {
    match o {
        Some(v) => Some(v as int),
        None => None,
    }
}

spec fn opt_bytes(o: Option<Vec<u8>>) -> Option<Seq<u8>> {
    match o {
        Some(v) => Some(v@),
        None => None,
    }
}

spec fn run_view(buf: Seq<u8>, st: RunState) -> CleanRun {
    CleanRun {
        buf,
        log: texts(st.log@),
        end_addr: opt_int(st.end_addr),
        truncated_to: opt_int(st.truncated_to),
        extracted_descriptor: opt_bytes(st.extracted_descriptor),
        extracted_me: opt_bytes(st.extracted_me),
        signature_valid: st.signature_valid,
        ftpr_offset: st.ftpr_offset as int,
        ignition: st.ignition,
    }
}

/// The stage's outcome is what the exec side did.
spec fn stage_done(o: Outcome<CleanRun>, r: Result<()>, buf: Seq<u8>, st: RunState) -> bool {
    match o {
        Outcome::Done(x) => r is Ok && run_view(buf, st) == x,
        Outcome::Failed(e, b) => r matches Err(x) && x == e && buf == b,
        Outcome::Stuck => false,
    }
}

fn push_line(st: &mut RunState, line: String)
    ensures
        texts(final(st).log@) == texts(old(st).log@).push(line@),
        final(st).end_addr == old(st).end_addr,
        final(st).truncated_to == old(st).truncated_to,
        final(st).extracted_descriptor == old(st).extracted_descriptor,
        final(st).extracted_me == old(st).extracted_me,
        final(st).signature_valid == old(st).signature_valid,
        final(st).ftpr_offset == old(st).ftpr_offset,
        final(st).ignition == old(st).ignition,
{
    st.log.push(line);
    assert(texts(st.log@) =~= texts(old(st).log@).push(line@));
}

/// `strap_set` on the exec side.
fn set_strap(buf: &mut Vec<u8>, st: &mut RunState, ba: usize, name: &str) -> (r: Result<()>)
    requires
        !(strap_set(run_view(old(buf)@, *old(st)), ba as int, name@) is Stuck),
    ensures
        final(buf)@.len() == old(buf)@.len(),
        stage_done(strap_set(run_view(old(buf)@, *old(st)), ba as int, name@), r, final(buf)@, *final(st)),
{
    let strap = u32_le(buf.as_slice(), ba);
    let mut line = String::from_str("The meDisable bit in ");
    push_str(&mut line, name);
    if strap % 2 == 1 {
        push_str(&mut line, " is SET");
        push_line(st, line);
    } else {
        push_str(&mut line, " is NOT SET, setting it now...");
        push_line(st, line);
        put_u32_le(buf.as_mut_slice(), ba, strap + 1);
    }
    Ok(())
}

/// The disable strap of `generation` (not 1): its name, whether its bit is
/// set, its absolute offset and its bit.
fn read_disable_status(buf: &[u8], d: &Descriptor, generation: u8) -> (r: Option<(String, bool, usize, u32)>)
    requires
        generation != 1 ==> d.fpsba + disable_strap(generation).0 + 4 <= buf@.len(),
    ensures
        generation == 1 ==> r is None,
        generation != 1 ==> (r matches Some(x) && x.0@ == disable_name(generation) && x.2 == d.fpsba + disable_strap(
            generation,
        ).0 && x.3 == disable_strap(generation).1 && x.1 == ((le32(buf@, x.2 as int) / strap_mask(x.3)) % 2 == 1)),
{
    let n = buf.len();
    let db = disable_bit(generation)?;
    let abs = d.fpsba + db.strap_off;
    let strap = u32_le(buf, abs);
    let mask: u32 = if db.bit == 7 {
        0x80
    } else {
        0x1_0000
    };
    let set = (strap / mask) % 2 == 1;
    Some((String::from_str(db.name), set, abs, db.bit))
}

fn do_straps(buf: &mut Vec<u8>, a: &Analysis, st: &mut RunState) -> (r: Result<()>)
    requires
        !(stage_straps(*a, run_view(old(buf)@, *old(st))) is Stuck),
    ensures
        final(buf)@.len() == old(buf)@.len(),
        stage_done(stage_straps(*a, run_view(old(buf)@, *old(st))), r, final(buf)@, *final(st)),
{
    reveal(stage_straps);
    if let Some(d) = &a.descriptor {
        match a.generation {
            Some(g) => {
                if g == 1 {
                    set_strap(buf, st, d.fisba, "ICHSTRP0")?;
                    set_strap(buf, st, d.fmsba, "MCHSTRP0")?;
                } else {
                    if let Some((name, set, _, _)) = read_disable_status(buf.as_slice(), d, g) {
                        let mut line = String::from_str("The ");
                        push_str(&mut line, name.as_str());
                        push_str(&mut line, " is ");
                        if set {
                            push_str(&mut line, "SET");
                        } else {
                            push_str(&mut line, "NOT SET");
                        }
                        push_line(st, line);
                    }
                }
            },
            None => {},
        }
    }
    Ok(())
}

fn do_wipe(buf: &mut Vec<u8>, a: &Analysis, st: &mut RunState) -> (r: Result<()>)
    requires
        !(stage_wipe(*a, run_view(old(buf)@, *old(st))) is Stuck),
    ensures
        final(buf)@.len() == old(buf)@.len(),
        stage_done(stage_wipe(*a, run_view(old(buf)@, *old(st))), r, final(buf)@, *final(st)),
{
    reveal(stage_wipe);
    if a.generation == Some(1u8) && !a.me.is_empty() {
        if let Some(d) = &a.descriptor {
            push_line(st, String::from_str("Disabling the ME region..."));
            let n = buf.len();
            assert(d.frba + 0xc <= n);
            put_u32_le(buf.as_mut_slice(), d.frba + 0x8, 0x1fff);
            push_line(st, String::from_str("Wiping the ME region..."));
            let me = a.me;
            let w = me.fill_all(buf.as_mut_slice(), 0xff);
            proof {
                assert(w is Ok);
            }
        }
    }
    Ok(())
}

fn do_ignition(buf: &mut Vec<u8>, a: &Analysis, opts: &Options, st: &mut RunState) -> (r: Result<()>)
    requires
        a.me.start < a.me.end <= old(buf)@.len(),
        headroom(old(buf)@.len() as int + 0x100_0000_0000),
        a.ftpr is Some,
        !(stage_ignition(*a, *opts, run_view(old(buf)@, *old(st))) is Stuck),
    ensures
        final(buf)@.len() == old(buf)@.len(),
        stage_done(stage_ignition(*a, *opts, run_view(old(buf)@, *old(st))), r, final(buf)@, *final(st)),
{
    reveal(stage_ignition);
    let is_me = crate::text::str_eq(a.variant.as_str(), "ME");
    let major: u16 = match a.version {
        Some(v) => v.0[0],
        None => 0,
    };
    if a.generation == Some(2u8) && !opts.soft_disable_only && is_me && major == 6 {
        let me = a.me;
        let fo = match a.ftpr {
            Some(f) => f.offset as usize,
            None => 0,
        };
        let num_modules = me.read_u32(buf.as_slice(), fo + 0x20)? as usize;
        let probe_off = fo + 0x290 + (num_modules + 1) * 0x60;
        let ignition = match me.read(buf.as_slice(), probe_off, 0xc) {
            Ok(data) => {
                let sku: [u8; 4] = [0x24, 0x53, 0x4b, 0x55];
                let zero: [u8; 4] = [0, 0, 0, 0];
                let t = crate::text::has_tag(data, 0, sku) && crate::text::has_tag(data, 8, zero);
                proof {
                    assert(sku@ =~= sku_tag());
                    assert(zero@ =~= seq![0u8, 0, 0, 0]);
                    let at = me.start + probe_off;
                    assert(data@.subrange(0, 4) =~= buf@.subrange(at, at + 4));
                    assert(data@.subrange(8, 12) =~= buf@.subrange(at + 8, at + 12));
                }
                t
            },
            Err(_) => false,
        };
        if ignition {
            push_line(st, String::from_str("ME 6 Ignition firmware detected, removing everything..."));
            let w = me.fill_all(buf.as_mut_slice(), 0xff);
            st.ignition = true;
        }
    }
    Ok(())
}

/// The minimum-size bookkeeping after removal (`after_end`).
fn do_after_end(buf: &mut Vec<u8>, a: &Analysis, opts: &Options, st: &mut RunState, e: usize) -> (r: Result<()>)
    requires
        e > 0,
        !(after_end(*a, *opts, run_view(old(buf)@, *old(st)), e as int) is Stuck),
    ensures
        final(buf)@.len() <= old(buf)@.len(),
        !opts.truncate ==> final(buf)@.len() == old(buf)@.len(),
        stage_done(after_end(*a, *opts, run_view(old(buf)@, *old(st)), e as int), r, final(buf)@, *final(st)),
{
    let e2 = (e / 0x1000 + 1) * 0x1000 + 4 * 0x1000;
    st.end_addr = Some(e2);
    let mut line = String::from_str("The ME minimum size should be ");
    push_dec(&mut line, e2 as u64);
    push_str(&mut line, " bytes (");
    push_hex_prefixed(&mut line, e2 as u64);
    push_str(&mut line, " bytes)");
    push_line(st, line);
    if a.me.start > 0 {
        let mut line = String::from_str("The ME region can be reduced up to:\n ");
        push_hex_padded(&mut line, a.me.start as u64, 8);
        push_str(&mut line, ":");
        push_hex_padded(&mut line, (a.me.start + e2 - 1) as u64, 8);
        push_str(&mut line, " me");
        push_line(st, line);
    } else if opts.truncate {
        let mut line = String::from_str("Truncating file at ");
        push_hex_prefixed(&mut line, e2 as u64);
        push_str(&mut line, "...");
        push_line(st, line);
        buf.truncate(e2);
        st.truncated_to = Some(e2);
    }
    Ok(())
}

fn do_removal(buf: &mut Vec<u8>, a: &Analysis, opts: &Options, st: &mut RunState) -> (r: Result<()>)
    requires
        a.me.start < a.me.end <= old(buf)@.len(),
        headroom(old(buf)@.len() as int + 0x100_0000_0000),
        a.ftpr is Some,
        a.fpt matches Some(f) && f.partitions@.len() == f.entries && f.offset < a.me.end - a.me.start,
        !(stage_removal(*a, *opts, run_view(old(buf)@, *old(st))) is Stuck),
    ensures
        final(buf)@.len() <= old(buf)@.len(),
        !opts.truncate ==> final(buf)@.len() == old(buf)@.len(),
        stage_done(stage_removal(*a, *opts, run_view(old(buf)@, *old(st))), r, final(buf)@, *final(st)),
{
    reveal(stage_removal);
    if a.generation != Some(1u8) && !opts.soft_disable_only && !st.ignition {
        let ifwi = match a.generation {
            Some(g) => g >= 4,
            None => false,
        };
        if ifwi {
            push_line(st, String::from_str("Module removal is not currently supported on IFWI firmware."));
        } else {
            let is_me = crate::text::str_eq(a.variant.as_str(), "ME");
            let major: u16 = match a.version {
                Some(v) => v.0[0],
                None => 0,
            };
            let me = a.me;
            let ftpr = match a.ftpr {
                Some(f) => f,
                None => return Ok(()),
            };
            let fpt = match &a.fpt {
                Some(f) => f,
                None => return Ok(()),
            };
            let mut ftpr_offset_out: usize = st.ftpr_offset;
            let end_addr = remove_partitions_and_modules(
                buf.as_mut_slice(),
                &me,
                fpt,
                a.generation == Some(3u8),
                is_me && major == 6,
                me.end - me.start,
                ftpr.offset as usize,
                ftpr.length as usize,
                opts,
                &mut ftpr_offset_out,
                &mut st.log,
            )?;
            st.ftpr_offset = ftpr_offset_out;
            st.end_addr = end_addr;
            if let Some(e) = end_addr {
                if e > 0 {
                    do_after_end(buf, a, opts, st, e)?;
                }
            }
        }
    }
    Ok(())
}

fn do_soft_disable(buf: &mut Vec<u8>, a: &Analysis, opts: &Options, st: &mut RunState) -> (r: Result<()>)
    requires
        !(stage_soft_disable(*a, *opts, run_view(old(buf)@, *old(st))) is Stuck),
    ensures
        final(buf)@.len() == old(buf)@.len(),
        stage_done(stage_soft_disable(*a, *opts, run_view(old(buf)@, *old(st))), r, final(buf)@, *final(st)),
{
    reveal(stage_soft_disable);
    if a.generation != Some(1u8) && (opts.soft_disable || opts.soft_disable_only) {
        if let (Some(g), Some(d)) = (a.generation, &a.descriptor) {
            let (name, _, abs, bit) = match read_disable_status(buf.as_slice(), d, g) {
                Some(x) => x,
                None => return Ok(()),
            };
            let mut line = String::from_str("Setting the ");
            push_str(&mut line, name.as_str());
            push_str(&mut line, " to disable Intel ME...");
            push_line(st, line);
            let strap = u32_le(buf.as_slice(), abs);
            let mask: u32 = if bit == 7 {
                0x80
            } else {
                0x1_0000
            };
            let v = if (strap / mask) % 2 == 1 {
                strap
            } else {
                assert(strap + mask <= 0xffff_ffff) by (nonlinear_arith)
                    requires
                        (strap / mask) % 2 == 0,
                        mask == 0x80 || mask == 0x1_0000,
                ;
                strap + mask
            };
            put_u32_le(buf.as_mut_slice(), abs, v);
        }
    }
    Ok(())
}

fn do_descriptor(buf: &mut Vec<u8>, a: &Analysis, opts: &Options, st: &mut RunState) -> (r: Result<()>)
    requires
        !(stage_descriptor(*a, *opts, run_view(old(buf)@, *old(st))) is Stuck),
    ensures
        final(buf)@.len() == old(buf)@.len(),
        stage_done(stage_descriptor(*a, *opts, run_view(old(buf)@, *old(st))), r, final(buf)@, *final(st)),
{
    reveal(stage_descriptor);
    if opts.descriptor {
        if let Some(d) = &a.descriptor {
            push_line(st, String::from_str("Removing ME/TXE R/W access to the other flash regions..."));
            let n = buf.len();
            assert(d.fmba + 8 <= n);
            let v2 = match a.generation {
                Some(g) => g >= 3,
                None => false,
            };
            let flmstr2: u32 = if v2 {
                0x0040_0500
            } else {
                let v = u32_le(buf.as_slice(), d.fmba + 0x4);
                v % 0x1_0000 + 0x0404_0000
            };
            put_u32_le(buf.as_mut_slice(), d.fmba + 0x4, flmstr2);
        }
    }
    Ok(())
}

/// `adjust_extracted` on the exec side.
fn do_adjust(buf: &Vec<u8>, a: &Analysis, st: &mut RunState, desc: Vec<u8>, e: usize)
    requires
        a.descriptor is Some,
        !(adjust_extracted(*a, run_view(buf@, *old(st)), desc@, e as int) is Stuck),
    ensures
        stage_done(adjust_extracted(*a, run_view(buf@, *old(st)), desc@, e as int), Ok(()), buf@, *final(st)),
{
    let ghost desc0 = desc@;
    let mut desc = desc;
    let d = match &a.descriptor {
        Some(d) => d,
        None => return,
    };
    let me = a.me;
    if d.bios.start == me.end {
        let frba = d.frba;
        let n = desc.len();
        assert(frba + 8 <= n);
        let flreg1 = start_end_to_flreg(me.start + e, d.bios.end);
        put_u32_le(desc.as_mut_slice(), frba + 0x4, flreg1);
        if a.generation != Some(1u8) {
            let flreg2 = start_end_to_flreg(me.start, me.start + e);
            put_u32_le(desc.as_mut_slice(), frba + 0x8, flreg2);
        }
        push_line(st, String::from_str("Modified extracted descriptor regions for truncation"));
    } else {
        let mut line = String::from_str("WARNING: BIOS region start (");
        push_hex_prefixed(&mut line, d.bios.start as u64);
        push_str(&mut line, ") != ME region end (");
        push_hex_prefixed(&mut line, me.end as u64);
        push_str(&mut line, "); descriptor regions not auto-adjusted");
        push_line(st, line);
    }
    st.extracted_descriptor = Some(desc);
}

fn do_extract_descriptor(buf: &mut Vec<u8>, a: &Analysis, opts: &Options, st: &mut RunState) -> (r: Result<()>)
    requires
        !(stage_extract_descriptor(*a, *opts, run_view(old(buf)@, *old(st))) is Stuck),
    ensures
        final(buf)@ == old(buf)@,
        stage_done(stage_extract_descriptor(*a, *opts, run_view(old(buf)@, *old(st))), r, final(buf)@, *final(st)),
{
    reveal(stage_extract_descriptor);
    if opts.extract_descriptor {
        if let Some(d) = &a.descriptor {
            let fd = d.fd;
            let desc = crate::bytes::copy_bytes(vstd::slice::slice_subrange(buf.as_slice(), fd.start, fd.end));
            if opts.truncate {
                if let Some(end_addr) = st.end_addr {
                    do_adjust(buf, a, st, desc, end_addr);
                    return Ok(());
                }
            }
            st.extracted_descriptor = Some(desc);
        }
    }
    Ok(())
}

fn do_extract_me(buf: &mut Vec<u8>, a: &Analysis, opts: &Options, st: &mut RunState) -> (r: Result<()>)
    requires
        a.me.start < a.me.end,
        !(stage_extract_me(*a, *opts, run_view(old(buf)@, *old(st))) is Stuck),
    ensures
        final(buf)@ == old(buf)@,
        stage_done(stage_extract_me(*a, *opts, run_view(old(buf)@, *old(st))), r, final(buf)@, *final(st)),
{
    reveal(stage_extract_me);
    if a.generation != Some(1u8) && opts.extract_me {
        let me = a.me;
        let me_len = me.end - me.start;
        let size = if opts.truncate {
            match st.end_addr {
                Some(e) => e,
                None => me_len,
            }
        } else {
            me_len
        };
        let image = me.extract(buf.as_slice(), size)?;
        st.extracted_me = Some(image);
    }
    Ok(())
}

fn do_signature(buf: &mut Vec<u8>, a: &Analysis, st: &mut RunState) -> (r: Result<()>)
    requires
        !(stage_signature(*a, run_view(old(buf)@, *old(st))) is Stuck),
    ensures
        final(buf)@ == old(buf)@,
        stage_done(stage_signature(*a, run_view(old(buf)@, *old(st))), r, final(buf)@, *final(st)),
{
    reveal(stage_signature);
    if a.generation != Some(1u8) && !st.ignition {
        let me = a.me;
        let valid = check_partition_signature(&me, buf.as_slice(), st.ftpr_offset + a.ftpr_mn2_offset)?;
        st.signature_valid = Some(valid);
        if !valid {
            return Err(Error::InvalidSignature);
        }
    }
    Ok(())
}

/// The stages after the straps (`spec_clean_ftpr`) on the exec side.
#[verifier::rlimit(40)]
fn do_clean_ftpr(buf: &mut Vec<u8>, a: &Analysis, opts: &Options, st: &mut RunState) -> (r: Result<()>)
    requires
        a.me.start < a.me.end <= old(buf)@.len(),
        headroom(old(buf)@.len() as int + 0x100_0000_0000),
        a.ftpr is Some,
        a.fpt matches Some(f) && f.partitions@.len() == f.entries && f.offset < a.me.end - a.me.start,
        !(spec_clean_ftpr(*a, *opts, run_view(old(buf)@, *old(st))) is Stuck),
    ensures
        final(buf)@.len() <= old(buf)@.len(),
        !opts.truncate ==> final(buf)@.len() == old(buf)@.len(),
        stage_done(spec_clean_ftpr(*a, *opts, run_view(old(buf)@, *old(st))), r, final(buf)@, *final(st)),
{
    let ghost s0 = run_view(buf@, *st);
    let r1 = do_ignition(buf, a, opts, st);
    if let Err(e) = r1 {
        return Err(e);
    }
    let ghost s1 = run_view(buf@, *st);
    assert(stage_ignition(*a, *opts, s0) == Outcome::Done(s1));
    let r2 = do_removal(buf, a, opts, st);
    if let Err(e) = r2 {
        return Err(e);
    }
    let ghost s2 = run_view(buf@, *st);
    assert(stage_removal(*a, *opts, s1) == Outcome::Done(s2));
    do_soft_disable(buf, a, opts, st)?;
    let ghost s3 = run_view(buf@, *st);
    assert(stage_soft_disable(*a, *opts, s2) == Outcome::Done(s3));
    do_descriptor(buf, a, opts, st)?;
    let ghost s4 = run_view(buf@, *st);
    assert(stage_descriptor(*a, *opts, s3) == Outcome::Done(s4));
    do_extract_descriptor(buf, a, opts, st)?;
    let ghost s5 = run_view(buf@, *st);
    assert(stage_extract_descriptor(*a, *opts, s4) == Outcome::Done(s5));
    let r6 = do_extract_me(buf, a, opts, st);
    if let Err(e) = r6 {
        return Err(e);
    }
    let ghost s6 = run_view(buf@, *st);
    assert(stage_extract_me(*a, *opts, s5) == Outcome::Done(s6));
    let r7 = do_signature(buf, a, st);
    if let Err(e) = r7 {
        return Err(e);
    }
    Ok(())
}

/// With an FPT and an FTPR, the ME region is non-empty and inside the
/// buffer, and the table lies inside the region.
proof fn lemma_table_facts(buf: Seq<u8>, k: (bool, bool), a: Analysis)
    requires
        analyzable(buf),
        spec_image(buf) == Some(k),
        analysis_of(buf, k, a),
        a.fpt is Some,
        a.ftpr is Some,
    ensures
        a.me.start < a.me.end <= buf.len(),
        a.fpt matches Some(f) && f.partitions@.len() == f.entries && f.offset < a.me.end - a.me.start,
{
    reveal(analysis_of);
    reveal(me_analysis);
    let me = a.me;
    let cands = a.fpt_candidates@;
    let p = has_ftpr_at(me, buf, cands);
    if exists|i: int| #[trigger] p(i) {
        let j = choose|i: int| #[trigger] p(i);
        lemma_first_exists(p, j);
        let i = first_index(p);
        assert(p(i));
        assert(fpt_at(me_data(me, buf), cands[i] as int));
    }
}

/// `clean` on an image already analysed as `a`.
#[verifier::rlimit(40)]
fn clean_analysed(buf: &mut Vec<u8>, a: &Analysis, opts: &Options, Ghost(k): Ghost<(bool, bool)>) -> (r: Result<Report>)
    requires
        analyzable(old(buf)@),
        spec_image(old(buf)@) == Some(k),
        analysis_of(old(buf)@, k, *a),
        clean_defined(*a, *opts, old(buf)@),
    ensures
        final(buf)@.len() <= old(buf)@.len(),
        !opts.truncate ==> final(buf)@.len() == old(buf)@.len(),
        clean_result(*a, *opts, old(buf)@, r, final(buf)@),
{
    proof {
        reveal_strlit("-d/-D/-M/-S/-s");
    }
    if a.fpt_candidates.len() > 1 {
        return Err(Error::MultipleFpt);
    }
    if !a.full_image && (opts.descriptor || opts.extract_descriptor || opts.extract_me || opts.soft_disable
        || opts.soft_disable_only) {
        return Err(Error::RequiresFullDump { op: "-d/-D/-M/-S/-s" });
    }
    if opts.soft_disable_only && (opts.relocate || opts.truncate) {
        return Err(Error::BadOptions(String::from_str("-s can't be used with -r or -t")));
    }
    if (opts.whitelist.len() > 0 || opts.blacklist.len() > 0) && opts.relocate {
        return Err(Error::BadOptions(String::from_str("relocation is not supported with custom whitelist or blacklist")));
    }
    let mut st = RunState {
        log: Vec::new(),
        end_addr: None,
        truncated_to: None,
        extracted_descriptor: None,
        extracted_me: None,
        signature_valid: None,
        ftpr_offset: 0,
        ignition: false,
    };
    let ghost b0 = buf@;
    let ghost init = run_view(buf@, st);
    assert(texts(st.log@) =~= Seq::<Seq<char>>::empty());
    do_straps(buf, a, &mut st)?;
    let ghost x0 = run_view(buf@, st);
    assert(stage_straps(*a, init) == Outcome::Done(x0));
    do_wipe(buf, a, &mut st)?;
    let ghost x = run_view(buf@, st);
    assert(stage_wipe(*a, x0) == Outcome::Done(x));
    if a.me.is_empty() {
        push_line(&mut st, String::from_str("The ME region in this image has already been disabled"));
    }
    let ghost x1 = run_view(buf@, st);
    if a.fpt.is_some() {
        if let Some(ftpr) = a.ftpr {
            proof {
                lemma_table_facts(b0, k, *a);
            }
            st.ftpr_offset = ftpr.offset as usize;
            assert(run_view(buf@, st) == CleanRun { ftpr_offset: ftpr.offset as int, ..x1 });
            do_clean_ftpr(buf, a, opts, &mut st)?;
        }
    }
    Ok(
        Report {
            log: st.log,
            generation: a.generation,
            end_addr: st.end_addr,
            truncated_to: st.truncated_to,
            extracted_descriptor: st.extracted_descriptor,
            extracted_me: st.extracted_me,
            signature_valid: st.signature_valid,
        },
    )
}

/// Perform the cleaning operation on an owned image buffer: analyse it,
/// refuse option combinations the image cannot take, then run the stages.
pub fn clean(buf: &mut Vec<u8>, opts: &Options) -> (r: Result<Report>)
    requires
        analyzable(old(buf)@),
        spec_image(old(buf)@) matches Some(k) ==> (forall|a: Analysis|
            #[trigger] analysis_of(old(buf)@, k, a) ==> clean_defined(a, *opts, old(buf)@)),
    ensures
        final(buf)@.len() <= old(buf)@.len(),
        !opts.truncate ==> final(buf)@.len() == old(buf)@.len(),
        spec_image(old(buf)@) is None ==> (r matches Err(e) && e is UnknownImage && final(buf)@ == old(buf)@),
        spec_image(old(buf)@) matches Some(k) ==> (exists|a: Analysis|
            #[trigger] analysis_of(old(buf)@, k, a) && clean_result(a, *opts, old(buf)@, r, final(buf)@)),
{
    let a = analyze(buf.as_slice())?;
    let ghost k = spec_image(buf@)->0;
    let r = clean_analysed(buf, &a, opts, Ghost(k));
    assert(analysis_of(old(buf)@, k, a));
    r
}

} // verus!
