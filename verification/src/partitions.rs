//! Partition removal: wipe the partitions that are not kept, rewrite the
//! `$FPT` entry list and checksum, then run the FTPR module pass.

use crate::bytes::{le32, le32_bytes, u32_le};
use crate::error::{Error, Result};
use crate::fmt::{hex_padded, pad_right, push_hex_padded, push_repeat, push_str};
use crate::fpt::{spec_name_str, Fpt, Partition};
use crate::modules::{
    check_and_remove_modules, check_and_remove_modules_gen3, fill_outcome, headroom, max_int, spec_gen2_pass,
    spec_gen3_pass, Outcome, MIN_FTPR_OFFSET,
};
use crate::cleaner::{texts, Options};
use crate::region::{fill_seq, splice, Region};
use vstd::prelude::*;

verus! {

/// State carried across the partition entries.
pub struct PartPass {
    pub buf: Seq<u8>,
    pub log: Seq<Seq<char>>,
    pub kept: Seq<u8>,
    pub kept_names: Seq<Seq<char>>,
    pub extra_end: int,
}

/// ` {name:<4}` at the start of a partition line.
pub open spec fn name_col(name: Seq<char>) -> Seq<char> {
    " "@ + pad_right(name, 4)
}

/// ` {name:<4} (0x{start:08x} - 0x{end:08x}): {what}`.
pub open spec fn range_line(name: Seq<char>, start: int, end: int, what: Seq<char>) -> Seq<char> {
    name_col(name) + " (0x"@ + hex_padded(start as nat, 8) + " - 0x"@ + hex_padded(end as nat, 8) + "): "@ + what
}

/// Whether a partition named `name` is kept.
pub open spec fn keeps(keep: Seq<Seq<char>>, black: Seq<Seq<char>>, name: Seq<char>) -> bool {
    keep.contains(name) || (black.len() > 0 && !black.contains(name))
}

/// ME 6 declares the last partition's size as `0xffffffff`: it runs to the region end.
pub open spec fn open_ended(p: Partition, i: int, n: int, me6: bool) -> bool {
    me6 && i == n - 1 && p.length == 0xffff_ffff
}

/// One partition entry.
pub open spec fn part_step(
    me: Region,
    me_len: int,
    keep: Seq<Seq<char>>,
    black: Seq<Seq<char>>,
    me6: bool,
    n: int,
    s: PartPass,
    p: Partition,
    i: int,
) -> Outcome<PartPass> {
    let name = spec_name_str(p.name@);
    if open_ended(p, i, n, me6) && p.start > me_len {
        Outcome::Stuck
    } else {
        let len = if open_ended(p, i, n, me6) {
            me_len - p.start
        } else {
            p.length as int
        };
        let start = p.start as int;
        let end = start + len;
        if p.flags % 0x80 == 2 {
            Outcome::Done(PartPass { log: s.log.push(name_col(name) + " (NVRAM partition, no data): nothing to remove"@), ..s })
        } else if start == 0 || len == 0 || end > me_len {
            Outcome::Done(PartPass { log: s.log.push(name_col(name) + " (no data here): nothing to remove"@), ..s })
        } else if keeps(keep, black, name) {
            Outcome::Done(
                PartPass {
                    buf: s.buf,
                    log: s.log.push(range_line(name, start, end, "NOT removed"@)),
                    kept: s.kept + p.raw@,
                    kept_names: s.kept_names.push(name),
                    extra_end: if name != "FTPR"@ {
                        max_int(s.extra_end, end)
                    } else {
                        s.extra_end
                    },
                },
            )
        } else {
            match fill_outcome(me, s.buf, start, end) {
                Outcome::Done(b) => Outcome::Done(
                    PartPass { buf: b, log: s.log.push(range_line(name, start, end, "removed"@)), ..s },
                ),
                Outcome::Failed(e, b) => Outcome::Failed(e, b),
                Outcome::Stuck => Outcome::Stuck,
            }
        }
    }
}

/// The first `k` partition entries.
#[verifier::opaque]
pub open spec fn part_scan(
    me: Region,
    me_len: int,
    keep: Seq<Seq<char>>,
    black: Seq<Seq<char>>,
    me6: bool,
    n: int,
    init: PartPass,
    parts: Seq<Partition>,
    k: int,
) -> Outcome<PartPass>
    decreases k,
{
    if k <= 0 {
        Outcome::Done(init)
    } else {
        match part_scan(me, me_len, keep, black, me6, n, init, parts, k - 1) {
            Outcome::Done(s) => part_step(me, me_len, keep, black, me6, n, s, parts[k - 1], k - 1),
            Outcome::Failed(e, b) => Outcome::Failed(e, b),
            Outcome::Stuck => Outcome::Stuck,
        }
    }
}

/// The region-relative data range `[start, end)` of entry `i` (of `n`).
pub open spec fn entry_range(p: Partition, i: int, n: int, me6: bool, me_len: int) -> (int, int) {
    let len = if open_ended(p, i, n, me6) {
        me_len - p.start
    } else {
        p.length as int
    };
    (p.start as int, p.start + len)
}

/// Two ranges share no byte.
pub open spec fn apart(a: (int, int), b: (int, int)) -> bool {
    a.1 <= b.0 || b.1 <= a.0 || a.1 <= a.0 || b.1 <= b.0
}

/// Bytes in the range `r` that no removed entry among the first `k`
/// overlaps come through the partition pass unchanged.
proof fn lemma_range_untouched(
    me: Region,
    me_len: int,
    keep: Seq<Seq<char>>,
    black: Seq<Seq<char>>,
    me6: bool,
    n: int,
    init: PartPass,
    parts: Seq<Partition>,
    k: int,
    r: (int, int),
)
    requires
        k <= parts.len(),
        forall|i: int|
            0 <= i < k ==> keeps(keep, black, spec_name_str(parts[i].name@)) || apart(
                #[trigger] entry_range(parts[i], i, n, me6, me_len),
                r,
            ),
    ensures
        part_scan(me, me_len, keep, black, me6, n, init, parts, k) matches Outcome::Done(s) ==> forall|x: int|
            me.start + r.0 <= x < me.start + r.1 && 0 <= x < init.buf.len() ==> #[trigger] s.buf[x] == init.buf[x],
    decreases k,
{
    reveal(part_scan);
    if k > 0 {
        lemma_range_untouched(me, me_len, keep, black, me6, n, init, parts, k - 1, r);
        lemma_scan_keeps_len(me, me_len, keep, black, me6, n, init, parts, k - 1);
        if let Outcome::Done(s0) = part_scan(me, me_len, keep, black, me6, n, init, parts, k - 1) {
            let p = parts[k - 1];
            let e = entry_range(p, k - 1, n, me6, me_len);
            assert(keeps(keep, black, spec_name_str(p.name@)) || apart(e, r));
        }
    }
}

/// A partition that the keep and block lists keep comes through the
/// partition pass untouched, as long as no other entry's data overlaps it.
pub proof fn lemma_kept_untouched(
    me: Region,
    me_len: int,
    keep: Seq<Seq<char>>,
    black: Seq<Seq<char>>,
    me6: bool,
    n: int,
    init: PartPass,
    parts: Seq<Partition>,
    k: int,
    j: int,
)
    requires
        0 <= j < k <= parts.len(),
        keeps(keep, black, spec_name_str(parts[j].name@)),
        forall|i: int|
            0 <= i < k && i != j ==> apart(
                #[trigger] entry_range(parts[i], i, n, me6, me_len),
                entry_range(parts[j], j, n, me6, me_len),
            ),
    ensures
        part_scan(me, me_len, keep, black, me6, n, init, parts, k) matches Outcome::Done(s) ==> ({
            let r = entry_range(parts[j], j, n, me6, me_len);
            forall|x: int| me.start + r.0 <= x < me.start + r.1 && 0 <= x < init.buf.len() ==> #[trigger] s.buf[x]
                == init.buf[x]
        }),
{
    let r = entry_range(parts[j], j, n, me6, me_len);
    assert forall|i: int| 0 <= i < k implies keeps(keep, black, spec_name_str(parts[i].name@)) || apart(
        #[trigger] entry_range(parts[i], i, n, me6, me_len),
        r,
    ) by {
        if i != j {
            assert(apart(entry_range(parts[i], i, n, me6, me_len), r));
        }
    }
    lemma_range_untouched(me, me_len, keep, black, me6, n, init, parts, k, r);
}

/// The partition pass keeps the buffer's length.
proof fn lemma_scan_keeps_len(
    me: Region,
    me_len: int,
    keep: Seq<Seq<char>>,
    black: Seq<Seq<char>>,
    me6: bool,
    n: int,
    init: PartPass,
    parts: Seq<Partition>,
    k: int,
)
    ensures
        part_scan(me, me_len, keep, black, me6, n, init, parts, k) matches Outcome::Done(s) ==> s.buf.len()
            == init.buf.len(),
    decreases k,
{
    reveal(part_scan);
    if k > 0 {
        lemma_scan_keeps_len(me, me_len, keep, black, me6, n, init, parts, k - 1);
    }
}

/// Sum of the bytes of `s`.
pub open spec fn byte_sum(s: Seq<u8>) -> int
    decreases s.len(),
{
    if s.len() == 0 {
        0
    } else {
        byte_sum(s.drop_last()) + s.last()
    }
}

/// Changing one byte changes the sum by the difference.
pub proof fn lemma_byte_sum_update(s: Seq<u8>, k: int, v: u8)
    requires
        0 <= k < s.len(),
    ensures
        byte_sum(s.update(k, v)) == byte_sum(s) - s[k] + v,
    decreases s.len(),
{
    let t = s.update(k, v);
    if k == s.len() - 1 {
        assert(t.drop_last() =~= s.drop_last());
    } else {
        assert(t.drop_last() =~= s.drop_last().update(k, v));
        lemma_byte_sum_update(s.drop_last(), k, v);
    }
}

/// The byte that makes the header sum to zero, with the checksum byte `ck` taken as zero.
pub open spec fn fpt_checksum(header: Seq<u8>, ck: int) -> u8 {
    let sum = byte_sum(header) - header[ck];
    ((0x100 - sum % 0x100) % 0x100) as u8
}

/// Storing the checksum byte makes the header's bytes sum to zero (mod 256).
pub proof fn lemma_checksum_zeroes(header: Seq<u8>, ck: int)
    requires
        0 <= ck < header.len(),
    ensures
        byte_sum(header.update(ck, fpt_checksum(header, ck))) % 0x100 == 0,
{
    lemma_byte_sum_update(header, ck, fpt_checksum(header, ck));
    let sum = byte_sum(header) - header[ck];
    assert(sum >= 0) by {
        lemma_byte_sum_update(header, ck, 0);
        lemma_byte_sum_nonneg(header.update(ck, 0));
    }
    assert((sum + (0x100 - sum % 0x100) % 0x100) % 0x100 == 0) by (nonlinear_arith)
        requires
            sum >= 0,
    ;
}

proof fn lemma_byte_sum_nonneg(s: Seq<u8>)
    ensures
        byte_sum(s) >= 0,
    decreases s.len(),
{
    if s.len() > 0 {
        lemma_byte_sum_nonneg(s.drop_last());
    }
}

/// The checksummed header: `(start, length, checksum index)` (region-relative).
pub open spec fn checksum_span(fpt_off: int, gen3: bool) -> (int, int, int) {
    if gen3 {
        (fpt_off, 0x20, 0x0b)
    } else {
        (if fpt_off >= 0x10 {
            fpt_off - 0x10
        } else {
            0
        }, 0x30, 0x1b)
    }
}

/// FPT checksum repair: once the `$FPT` rewrite completes, the checksummed
/// header bytes in the buffer sum to zero (mod 256). On generation 2 this
/// needs the table at least 0x10 bytes into the ME region, where the
/// checksummed span starts 0x10 bytes before it.
pub proof fn lemma_fpt_rewrite_checksum(me: Region, s: PartPass, fpt_off: int, entries: int, gen3: bool, effs: bool)
    requires
        fpt_rewrite(me, s, fpt_off, entries, gen3, effs) is Done,
        0 <= fpt_off,
        gen3 || fpt_off >= 0x10,
        me.end <= s.buf.len(),
    ensures
        fpt_rewrite(me, s, fpt_off, entries, gen3, effs) matches Outcome::Done(r) && ({
            let span = checksum_span(fpt_off, gen3);
            byte_sum(r.0.subrange(me.start + span.0, me.start + span.0 + span.1)) % 0x100 == 0
        }),
{
    reveal(fpt_rewrite);
    let kl = s.kept.len() as int;
    let b1 = splice(s.buf, me.start + fpt_off + 0x20, s.kept);
    let b2 = splice(b1, me.start + fpt_off + 4, le32_bytes((kl / 0x20) as u32));
    if let Outcome::Done(b3) = fill_outcome(me, b2, fpt_off + 0x20 + kl, fpt_off + 0x20 + entries * 0x20) {
        let b4 = if effs {
            let flags = le32(b3, me.start + fpt_off + 0x14);
            splice(b3, me.start + fpt_off + 0x14, le32_bytes((flags - flags % 2) as u32))
        } else {
            b3
        };
        let span = checksum_span(fpt_off, gen3);
        let h = b4.subrange(me.start + span.0, me.start + span.0 + span.1);
        let c = fpt_checksum(h, span.2);
        let r = b4.update(me.start + fpt_off + 0xb, c);
        assert(me.start + fpt_off + 0xb == me.start + span.0 + span.2);
        assert(r.subrange(me.start + span.0, me.start + span.0 + span.1) =~= h.update(span.2, c));
        lemma_checksum_zeroes(h, span.2);
    }
}

/// Rewriting the `$FPT`: kept entries, entry count, wiped tail, EFFS flag and
/// checksum. The buffer and the log lines it adds.
#[verifier::opaque]
pub open spec fn fpt_rewrite(me: Region, s: PartPass, fpt_off: int, entries: int, gen3: bool, effs: bool) -> Outcome<(Seq<u8>, Seq<Seq<char>>)> {
    let log1 = s.log.push("Removing partition entries in FPT..."@);
    let kl = s.kept.len() as int;
    if !me.fits(fpt_off + 0x20, kl) {
        Outcome::Failed(Error::OutOfRegion { offset: (fpt_off + 0x20) as usize, len: kl as usize }, s.buf)
    } else {
        let b1 = splice(s.buf, me.start + fpt_off + 0x20, s.kept);
        if !me.fits(fpt_off + 4, 4) {
            Outcome::Failed(Error::OutOfRegion { offset: (fpt_off + 4) as usize, len: 4 }, b1)
        } else {
            let b2 = splice(b1, me.start + fpt_off + 4, le32_bytes((kl / 0x20) as u32));
            match fill_outcome(me, b2, fpt_off + 0x20 + kl, fpt_off + 0x20 + entries * 0x20) {
                Outcome::Done(b3) => {
                    let log2 = if effs {
                        log1.push("Removing EFFS presence flag..."@)
                    } else {
                        log1
                    };
                    if effs && !me.fits(fpt_off + 0x14, 4) {
                        Outcome::Failed(Error::OutOfRegion { offset: (fpt_off + 0x14) as usize, len: 4 }, b3)
                    } else {
                        let b4 = if effs {
                            let flags = le32(b3, me.start + fpt_off + 0x14);
                            splice(b3, me.start + fpt_off + 0x14, le32_bytes((flags - flags % 2) as u32))
                        } else {
                            b3
                        };
                        let span = checksum_span(fpt_off, gen3);
                        if !me.fits(span.0, span.1) {
                            Outcome::Failed(Error::OutOfRegion { offset: span.0 as usize, len: span.1 as usize }, b4)
                        } else {
                            let c = fpt_checksum(b4.subrange(me.start + span.0, me.start + span.0 + span.1), span.2);
                            if !me.fits(fpt_off + 0xb, 1) {
                                Outcome::Failed(Error::OutOfRegion { offset: (fpt_off + 0xb) as usize, len: 1 }, b4)
                            } else {
                                Outcome::Done(
                                    (b4.update(me.start + fpt_off + 0xb, c), log2.push(
                                        "Correcting checksum (0x"@ + hex_padded(c as nat, 2) + ")..."@,
                                    ).push("Reading FTPR modules list..."@)),
                                )
                            }
                        }
                    }
                },
                Outcome::Failed(e, b) => Outcome::Failed(e, b),
                Outcome::Stuck => Outcome::Stuck,
            }
        }
    }
}

/// Index of the first `FTPR` among the kept names.
pub open spec fn ftpr_index(names: Seq<Seq<char>>) -> Option<int>
    decreases names.len(),
{
    if names.len() == 0 {
        None
    } else if names[0] == "FTPR"@ {
        Some(0)
    } else {
        match ftpr_index(names.drop_first()) {
            Some(i) => Some(i + 1),
            None => None,
        }
    }
}

/// The names always kept, and the user's whitelist when no blacklist is given.
pub open spec fn keep_list(opts: Options) -> Seq<Seq<char>> {
    seq!["FTPR"@] + if opts.blacklist@.len() == 0 {
        texts(opts.whitelist@)
    } else {
        seq![]
    }
}

/// The EFFS presence flag is cleared unless EFFS is whitelisted (without a
/// blacklist), or whenever EFFS is blacklisted.
pub open spec fn effs_cleared(keep: Seq<Seq<char>>, black: Seq<Seq<char>>) -> bool {
    (black.len() == 0 && !keep.contains("EFFS"@)) || black.contains("EFFS"@)
}

/// Partition removal, `$FPT` rewrite and FTPR module pass: buffer, log,
/// end of retained data (if known) and the FTPR's final offset.
pub open spec fn spec_remove_parts(
    me: Region,
    buf: Seq<u8>,
    log0: Seq<Seq<char>>,
    fpt: Fpt,
    gen3: bool,
    me6: bool,
    me_len: int,
    fo: int,
    flen: int,
    opts: Options,
) -> Outcome<(Seq<u8>, Seq<Seq<char>>, Option<int>, int)> {
    let keep = keep_list(opts);
    let black = texts(opts.blacklist@);
    let init = PartPass {
        buf,
        log: log0.push("Reading partitions list..."@),
        kept: seq![],
        kept_names: seq![],
        extra_end: 0,
    };
    match part_scan(me, me_len, keep, black, me6, fpt.entries as int, init, fpt.partitions@, fpt.partitions@.len() as int) {
        Outcome::Done(s) => match fpt_rewrite(me, s, fpt.offset as int, fpt.entries as int, gen3, effs_cleared(keep, black)) {
            Outcome::Done(w) => {
                let ph = match ftpr_index(s.kept_names) {
                    Some(i) => fpt.offset + 0x20 + i * 0x20,
                    None => fpt.offset + 0x20,
                };
                let pass = if gen3 {
                    spec_gen3_pass(me, w.0, me_len, fo, flen, MIN_FTPR_OFFSET as int, opts.relocate, opts.keep_modules, ph)
                } else {
                    spec_gen2_pass(me, w.0, me_len, fo, flen, MIN_FTPR_OFFSET as int, opts.relocate, opts.keep_modules, ph)
                };
                match pass {
                    Outcome::Done(x) => Outcome::Done(
                        (x.0, w.1, match x.1 {
                            Some(e) => Some(max_int(e, s.extra_end)),
                            None => None,
                        }, x.2),
                    ),
                    Outcome::Failed(e, b) => Outcome::Failed(e, b),
                    Outcome::Stuck => Outcome::Stuck,
                }
            },
            Outcome::Failed(e, b) => Outcome::Failed(e, b),
            Outcome::Stuck => Outcome::Stuck,
        },
        Outcome::Failed(e, b) => Outcome::Failed(e, b),
        Outcome::Stuck => Outcome::Stuck,
    }
}

/// The exec side of `PartPass` (the buffer is kept apart).
struct PartState {
    log: Vec<String>,
    kept: Vec<u8>,
    kept_names: Vec<String>,
    extra_end: usize,
}

spec fn part_view(buf: Seq<u8>, st: PartState) -> PartPass {
    PartPass {
        buf,
        log: texts(st.log@),
        kept: st.kept@,
        kept_names: texts(st.kept_names@),
        extra_end: st.extra_end as int,
    }
}

/// Whether `name` is among `list`.
fn list_has(list: &Vec<String>, name: &str) -> (b: bool)
    ensures
        b == texts(list@).contains(name@),
{
    let mut i: usize = 0;
    while i < list.len()
        invariant
            i <= list@.len(),
            forall|j: int| 0 <= j < i ==> (#[trigger] list@[j])@ != name@,
        decreases list@.len() - i,
    {
        if crate::text::str_eq(list[i].as_str(), name) {
            assert(texts(list@)[i as int] == name@);
            return true;
        }
        i = i + 1;
    }
    proof {
        if texts(list@).contains(name@) {
            let j = choose|j: int| 0 <= j < texts(list@).len() && texts(list@)[j] == name@;
            assert(list@[j]@ == name@);
        }
    }
    false
}

/// ` {name:<4}`.
fn push_name_col(s: &mut String, name: &String)
    ensures
        final(s)@ == old(s)@ + name_col(name@),
{
    push_str(s, " ");
    push_str(s, name.as_str());
    let n = name.as_str().unicode_len();
    if n < 4 {
        push_repeat(s, ' ', 4 - n);
    } else {
        push_repeat(s, ' ', 0);
    }
    proof {
        reveal_strlit(" ");
        assert(crate::fmt::repeat(' ', 4 - name@.len()) =~= crate::fmt::repeat(' ', if n < 4 { 4 - n } else { 0 }));
    }
    assert(final(s)@ =~= old(s)@ + name_col(name@));
}

/// One partition entry, as `part_step`.
#[verifier::rlimit(40)]
fn part_entry(
    me: &Region,
    buf: &mut [u8],
    keep: &Vec<String>,
    black: &Vec<String>,
    me6: bool,
    n: usize,
    p: &Partition,
    i: usize,
    me_len: usize,
    st: &mut PartState,
) -> (r: Result<()>)
    requires
        me.inside(old(buf)@.len() as int),
        headroom(me.start + me_len),
        old(st).extra_end <= me_len,
        !(part_step(*me, me_len as int, texts(keep@), texts(black@), me6, n as int, part_view(old(buf)@, *old(st)), *p, i as int) is Stuck),
    ensures
        final(buf)@.len() == old(buf)@.len(),
        final(st).extra_end <= me_len,
        final(st).kept@.len() <= old(st).kept@.len() + 0x20,
        final(st).kept_names@.len() <= old(st).kept_names@.len() + 1,
        match part_step(*me, me_len as int, texts(keep@), texts(black@), me6, n as int, part_view(old(buf)@, *old(st)), *p, i as int) {
            Outcome::Done(x) => r is Ok && part_view(final(buf)@, *final(st)) == x,
            Outcome::Failed(e, b) => r matches Err(x) && x == e && final(buf)@ == b,
            Outcome::Stuck => false,
        },
{
    let name = p.name_str();
    let open = me6 && n >= 1 && i == n - 1 && p.length == 0xffff_ffff;
    let part_length: usize = if open {
        me_len - p.start as usize
    } else {
        p.length as usize
    };
    let part_start = p.start as usize;
    let part_end = part_start + part_length;
    let mut line = String::new();
    push_name_col(&mut line, &name);
    if p.flags % 0x80 == 2 {
        push_str(&mut line, " (NVRAM partition, no data): nothing to remove");
        st.log.push(line);
        assert(texts(st.log@) =~= texts(old(st).log@).push(name_col(name@) + " (NVRAM partition, no data): nothing to remove"@));
    } else if part_start == 0 || part_length == 0 || part_end > me_len {
        push_str(&mut line, " (no data here): nothing to remove");
        st.log.push(line);
        assert(texts(st.log@) =~= texts(old(st).log@).push(name_col(name@) + " (no data here): nothing to remove"@));
    } else {
        let keep_it = list_has(keep, name.as_str()) || (black.len() > 0 && !list_has(black, name.as_str()));
        push_str(&mut line, " (0x");
        push_hex_padded(&mut line, part_start as u64, 8);
        push_str(&mut line, " - 0x");
        push_hex_padded(&mut line, part_end as u64, 8);
        push_str(&mut line, "): ");
        if keep_it {
            crate::bytes::append_bytes(&mut st.kept, &p.raw);
            let is_ftpr = crate::text::str_eq(name.as_str(), "FTPR");
            if !is_ftpr && part_end > st.extra_end {
                st.extra_end = part_end;
            }
            push_str(&mut line, "NOT removed");
            st.log.push(line);
            let name2 = p.name_str();
            st.kept_names.push(name2);
            assert(texts(st.log@) =~= texts(old(st).log@).push(range_line(name@, part_start as int, part_end as int, "NOT removed"@)));
            assert(texts(st.kept_names@) =~= texts(old(st).kept_names@).push(name@));
        } else {
            me.fill_range(buf, part_start, part_end, 0xff)?;
            push_str(&mut line, "removed");
            st.log.push(line);
            assert(texts(st.log@) =~= texts(old(st).log@).push(range_line(name@, part_start as int, part_end as int, "removed"@)));
        }
    }
    Ok(())
}

proof fn lemma_byte_sum_push(s: Seq<u8>, x: u8)
    ensures
        byte_sum(s.push(x)) == byte_sum(s) + x,
{
    assert(s.push(x).drop_last() =~= s);
}

/// Rewrite the `$FPT` as `fpt_rewrite`, appending the log lines to `st.log`.
#[verifier::rlimit(40)]
fn rewrite_fpt(me: &Region, buf: &mut [u8], st: &mut PartState, fpt_off: usize, entries: usize, gen3: bool, effs: bool) -> (r: Result<()>)
    requires
        me.inside(old(buf)@.len() as int),
        headroom(me.start + fpt_off),
        old(st).kept@.len() <= 0x40_0000_0000,
        entries <= 0xffff_ffff,
        !(fpt_rewrite(*me, part_view(old(buf)@, *old(st)), fpt_off as int, entries as int, gen3, effs) is Stuck),
    ensures
        final(buf)@.len() == old(buf)@.len(),
        final(st).kept@ == old(st).kept@,
        final(st).kept_names@ == old(st).kept_names@,
        final(st).extra_end == old(st).extra_end,
        match fpt_rewrite(*me, part_view(old(buf)@, *old(st)), fpt_off as int, entries as int, gen3, effs) {
            Outcome::Done(w) => r is Ok && final(buf)@ == w.0 && texts(final(st).log@) == w.1,
            Outcome::Failed(e, b) => r matches Err(x) && x == e && final(buf)@ == b,
            Outcome::Stuck => false,
        },
{
    reveal(fpt_rewrite);
    let ghost s0 = part_view(buf@, *st);
    st.log.push(String::from_str("Removing partition entries in FPT..."));
    let ghost log1 = texts(st.log@);
    assert(log1 =~= s0.log.push("Removing partition entries in FPT..."@));
    let kl = st.kept.len();
    me.write(buf, fpt_off + 0x20, st.kept.as_slice())?;
    me.write_u32(buf, fpt_off + 0x4, (kl / 0x20) as u32)?;
    let ghost b2 = buf@;
    let ghost before_fill = buf@;
    match me.fill_range(buf, fpt_off + 0x20 + kl, fpt_off + 0x20 + entries * 0x20, 0xff) {
        Ok(()) => {
            proof {
                if fpt_off + 0x20 + kl >= fpt_off + 0x20 + entries * 0x20 {
                    crate::region::lemma_fill_empty(before_fill, me.start + fpt_off + 0x20 + kl, me.start + fpt_off + 0x20 + entries * 0x20, 0xff);
                }
            }
        },
        Err(e) => return Err(e),
    }
    let ghost b3 = buf@;
    if effs {
        st.log.push(String::from_str("Removing EFFS presence flag..."));
        let flags = me.read_u32(buf, fpt_off + 0x14)?;
        me.write_u32(buf, fpt_off + 0x14, flags - flags % 2)?;
    }
    let ghost log2 = texts(st.log@);
    assert(log2 =~= if effs { log1.push("Removing EFFS presence flag..."@) } else { log1 });
    let ghost b4 = buf@;
    let hs: usize = if gen3 {
        fpt_off
    } else if fpt_off >= 0x10 {
        fpt_off - 0x10
    } else {
        0
    };
    let hl: usize = if gen3 {
        0x20
    } else {
        0x30
    };
    let ck: usize = if gen3 {
        0x0b
    } else {
        0x1b
    };
    let header = me.read(buf, hs, hl)?;
    let mut sum: u32 = 0;
    let mut i: usize = 0;
    while i < header.len()
        invariant
            i <= header@.len() == hl,
            hl <= 0x30,
            ck < hl,
            sum <= i * 0xff,
            sum == byte_sum(header@.take(i as int)) - if i > ck {
                header@[ck as int] as int
            } else {
                0
            },
        decreases header@.len() - i,
    {
        proof {
            assert(header@.take(i + 1) =~= header@.take(i as int).push(header@[i as int]));
            lemma_byte_sum_push(header@.take(i as int), header@[i as int]);
        }
        if i != ck {
            sum = sum + header[i] as u32;
        }
        i = i + 1;
    }
    assert(header@.take(i as int) =~= header@);
    let checksum = ((0x100 - (sum % 0x100)) % 0x100) as u8;
    let mut line = String::from_str("Correcting checksum (0x");
    push_hex_padded(&mut line, checksum as u64, 2);
    push_str(&mut line, ")...");
    st.log.push(line);
    me.write_u8(buf, fpt_off + 0xb, checksum)?;
    st.log.push(String::from_str("Reading FTPR modules list..."));
    proof {
        assert(texts(st.log@) =~= log2.push("Correcting checksum (0x"@ + hex_padded(checksum as nat, 2) + ")..."@).push(
            "Reading FTPR modules list..."@,
        ));
    }
    Ok(())
}

/// `["FTPR"]`, then the user's whitelist when no blacklist is given.
fn keep_names(opts: &Options) -> (r: Vec<String>)
    ensures
        texts(r@) == keep_list(*opts),
{
    let mut keep: Vec<String> = Vec::new();
    keep.push(String::from_str("FTPR"));
    if opts.blacklist.len() == 0 {
        let mut i: usize = 0;
        while i < opts.whitelist.len()
            invariant
                i <= opts.whitelist@.len(),
                keep@.len() == i + 1,
                keep@[0]@ == "FTPR"@,
                forall|j: int| 1 <= j < i + 1 ==> (#[trigger] keep@[j])@ == opts.whitelist@[j - 1]@,
            decreases opts.whitelist@.len() - i,
        {
            keep.push(opts.whitelist[i].clone());
            i = i + 1;
        }
    }
    proof {
        let kl = keep_list(*opts);
        assert forall|j: int| 0 <= j < kl.len() implies #[trigger] texts(keep@)[j] == kl[j] by {
            if j >= 1 {
                assert(keep@[j]@ == opts.whitelist@[j - 1]@);
            }
        }
        assert(texts(keep@) =~= keep_list(*opts));
    }
    keep
}

/// Every partition entry, as `part_scan`.
#[verifier::rlimit(40)]
fn scan_partitions(
    me: &Region,
    buf: &mut [u8],
    keep: &Vec<String>,
    black: &Vec<String>,
    me6: bool,
    fpt: &Fpt,
    me_len: usize,
    st: &mut PartState,
) -> (r: Result<()>)
    requires
        me.inside(old(buf)@.len() as int),
        headroom(me.start + me_len),
        old(st).extra_end <= me_len,
        old(st).kept@.len() == 0,
        old(st).kept_names@.len() == 0,
        fpt.partitions@.len() == fpt.entries,
        !(part_scan(*me, me_len as int, texts(keep@), texts(black@), me6, fpt.entries as int, part_view(old(buf)@, *old(st)), fpt.partitions@, fpt.partitions@.len() as int) is Stuck),
    ensures
        final(buf)@.len() == old(buf)@.len(),
        final(st).extra_end <= me_len,
        r is Ok ==> final(st).kept@.len() <= fpt.partitions@.len() * 0x20,
        r is Ok ==> final(st).kept_names@.len() <= fpt.partitions@.len(),
        match part_scan(*me, me_len as int, texts(keep@), texts(black@), me6, fpt.entries as int, part_view(old(buf)@, *old(st)), fpt.partitions@, fpt.partitions@.len() as int) {
            Outcome::Done(x) => r is Ok && part_view(final(buf)@, *final(st)) == x,
            Outcome::Failed(e, b) => r matches Err(x) && x == e && final(buf)@ == b,
            Outcome::Stuck => false,
        },
{
    let ghost init = part_view(buf@, *st);
    let ghost kv = texts(keep@);
    let ghost bv = texts(black@);
    let n = fpt.partitions.len();
    let entries = fpt.entries as usize;
    let mut i: usize = 0;
    assert(part_scan(*me, me_len as int, kv, bv, me6, entries as int, init, fpt.partitions@, 0) == Outcome::Done(init)) by {
        reveal(part_scan);
    }
    while i < n
        invariant
            i <= n == fpt.partitions@.len() == entries == fpt.entries,
            me.inside(buf@.len() as int),
            buf@.len() == old(buf)@.len(),
            headroom(me.start + me_len),
            st.extra_end <= me_len,
            st.kept@.len() <= i * 0x20,
            st.kept_names@.len() <= i,
            kv == texts(keep@),
            bv == texts(black@),
            init == part_view(old(buf)@, *old(st)),
            part_scan(*me, me_len as int, kv, bv, me6, entries as int, init, fpt.partitions@, i as int)
                == Outcome::Done(part_view(buf@, *st)),
            !(part_scan(*me, me_len as int, kv, bv, me6, entries as int, init, fpt.partitions@, n as int) is Stuck),
        decreases n - i,
    {
        proof {
            lemma_part_scan_step(*me, me_len as int, kv, bv, me6, entries as int, init, fpt.partitions@, i as int);
            if part_step(*me, me_len as int, kv, bv, me6, entries as int, part_view(buf@, *st), fpt.partitions@[i as int], i as int) is Stuck {
                lemma_part_scan_stops(*me, me_len as int, kv, bv, me6, entries as int, init, fpt.partitions@, i + 1, n as int);
            }
        }
        match part_entry(me, buf, keep, black, me6, entries, &fpt.partitions[i], i, me_len, st) {
            Ok(()) => {},
            Err(e) => {
                proof {
                    assert(part_scan(*me, me_len as int, kv, bv, me6, entries as int, init, fpt.partitions@, i + 1) is Failed);
                    lemma_part_scan_stops(*me, me_len as int, kv, bv, me6, entries as int, init, fpt.partitions@, i + 1, n as int);
                    assert(part_scan(*me, me_len as int, kv, bv, me6, entries as int, init, fpt.partitions@, n as int) is Failed);
                    assert(part_scan(*me, me_len as int, kv, bv, me6, entries as int, init, fpt.partitions@, n as int) == Outcome::<PartPass>::Failed(e, buf@));

                }
                return Err(e);
            },
        }
        i = i + 1;
    }
    Ok(())
}

/// Where the FTPR entry sits in the rewritten `$FPT`.
fn ftpr_entry_offset(names: &Vec<String>, fpt_off: usize) -> (r: usize)
    requires
        names@.len() <= 0xffff_ffff,
        fpt_off + 0x20 + names@.len() * 0x20 <= usize::MAX,
    ensures
        r == match ftpr_index(texts(names@)) {
            Some(i) => fpt_off + 0x20 + i * 0x20,
            None => fpt_off + 0x20,
        },
        r <= fpt_off + 0x20 + names@.len() * 0x20,
{
    let mut k: usize = 0;
    assert(texts(names@).skip(0) =~= texts(names@));
    while k < names.len()
        invariant
            k <= names@.len() <= 0xffff_ffff,
            fpt_off + 0x20 + names@.len() * 0x20 <= usize::MAX,
            ftpr_index(texts(names@)) == match ftpr_index(texts(names@).skip(k as int)) {
                Some(j) => Some(j + k),
                None => None,
            },
        decreases names@.len() - k,
    {
        let ghost t = texts(names@).skip(k as int);
        proof {
            assert(t.drop_first() =~= texts(names@).skip(k + 1));
            assert(t[0] == names@[k as int]@);
        }
        if crate::text::str_eq(names[k].as_str(), "FTPR") {
            assert(k * 0x20 <= names@.len() * 0x20) by (nonlinear_arith)
                requires
                    k <= names@.len(),
            ;
            return fpt_off + 0x20 + k * 0x20;
        }
        k = k + 1;
    }
    assert(texts(names@).skip(k as int) =~= Seq::<Seq<char>>::empty());
    fpt_off + 0x20
}

/// Partition removal + FPT checksum fix + FTPR module pass; returns retained-data end addr.
#[verifier::rlimit(60)]
pub fn remove_partitions_and_modules(
    buf: &mut [u8],
    me: &Region,
    fpt: &Fpt,
    gen3: bool,
    me6: bool,
    me_len: usize,
    ftpr_offset: usize,
    ftpr_length: usize,
    opts: &Options,
    ftpr_offset_out: &mut usize,
    log: &mut Vec<String>,
) -> (r: Result<Option<usize>>)
    requires
        me.inside(old(buf)@.len() as int),
        headroom(old(buf)@.len() as int + 0x100_0000_0000),
        me.start + me_len <= old(buf)@.len(),
        fpt.offset < me_len,
        fpt.partitions@.len() == fpt.entries,
        ftpr_offset <= 0xffff_ffff,
        ftpr_length <= 0xffff_ffff,
        !(spec_remove_parts(*me, old(buf)@, texts(old(log)@), *fpt, gen3, me6, me_len as int, ftpr_offset as int, ftpr_length as int, *opts) is Stuck),
    ensures
        final(buf)@.len() == old(buf)@.len(),
        match spec_remove_parts(*me, old(buf)@, texts(old(log)@), *fpt, gen3, me6, me_len as int, ftpr_offset as int, ftpr_length as int, *opts) {
            Outcome::Done(x) => r matches Ok(e) && final(buf)@ == x.0 && texts(final(log)@) == x.1 && *final(ftpr_offset_out) as int == x.3
                && match x.2 {
                    Some(v) => e matches Some(u) && u as int == v,
                    None => e is None,
                },
            Outcome::Failed(e, b) => r matches Err(x) && x == e && final(buf)@ == b,
            Outcome::Stuck => false,
        },
{
    let keep = keep_names(opts);
    let ghost log0 = texts(log@);
    let mut st = PartState { log: Vec::new(), kept: Vec::new(), kept_names: Vec::new(), extra_end: 0 };
    std::mem::swap(&mut st.log, log);
    st.log.push(String::from_str("Reading partitions list..."));
    proof {
        assert(texts(st.log@) =~= log0.push("Reading partitions list..."@));
        assert(texts(st.kept_names@) =~= Seq::<Seq<char>>::empty());
        assert(st.kept@ =~= Seq::<u8>::empty());
    }
    let ghost b0 = buf@;
    let ghost init = PartPass {
        buf: b0,
        log: log0.push("Reading partitions list..."@),
        kept: seq![],
        kept_names: seq![],
        extra_end: 0,
    };
    assert(part_view(b0, st) == init);
    match scan_partitions(me, buf, &keep, &opts.blacklist, me6, fpt, me_len, &mut st) {
        Ok(()) => {},
        Err(e) => {
            std::mem::swap(&mut st.log, log);
            return Err(e);
        },
    }
    let effs = (opts.blacklist.len() == 0 && !list_has(&keep, "EFFS")) || list_has(&opts.blacklist, "EFFS");
    let entries = fpt.entries as usize;
    let ghost s_done = part_view(buf@, st);
    let ghost kv = keep_list(*opts);
    let ghost bv = texts(opts.blacklist@);
    assert(part_scan(*me, me_len as int, kv, bv, me6, fpt.entries as int, init, fpt.partitions@, fpt.partitions@.len() as int) == Outcome::Done(s_done));
    assert(effs == effs_cleared(kv, bv));
    match rewrite_fpt(me, buf, &mut st, fpt.offset, entries, gen3, effs) {
        Ok(()) => {},
        Err(e) => {
            std::mem::swap(&mut st.log, log);
            return Err(e);
        },
    }
    assert(fpt_rewrite(*me, s_done, fpt.offset as int, fpt.entries as int, gen3, effs) == Outcome::Done((buf@, texts(st.log@))));
    std::mem::swap(&mut st.log, log);
    let ph_offset = ftpr_entry_offset(&st.kept_names, fpt.offset);
    assert(texts(st.kept_names@) == s_done.kept_names);
    let res = if gen3 {
        check_and_remove_modules_gen3(me, buf, me_len, ftpr_offset, ftpr_length, MIN_FTPR_OFFSET, opts.relocate, opts.keep_modules, ph_offset)?
    } else {
        check_and_remove_modules(me, buf, me_len, ftpr_offset, ftpr_length, MIN_FTPR_OFFSET, opts.relocate, opts.keep_modules, ph_offset)?
    };
    *ftpr_offset_out = res.ftpr_offset;
    Ok(match res.end_addr {
        Some(e) => Some(if e > st.extra_end {
            e
        } else {
            st.extra_end
        }),
        None => None,
    })
}

proof fn lemma_part_scan_step(
    me: Region,
    me_len: int,
    keep: Seq<Seq<char>>,
    black: Seq<Seq<char>>,
    me6: bool,
    n: int,
    init: PartPass,
    parts: Seq<Partition>,
    k: int,
)
    requires
        0 <= k,
    ensures
        part_scan(me, me_len, keep, black, me6, n, init, parts, k + 1) == match part_scan(me, me_len, keep, black, me6, n, init, parts, k) {
            Outcome::Done(s) => part_step(me, me_len, keep, black, me6, n, s, parts[k], k),
            Outcome::Failed(e, b) => Outcome::Failed(e, b),
            Outcome::Stuck => Outcome::<PartPass>::Stuck,
        },
{
    reveal(part_scan);
}

proof fn lemma_part_scan_stops(
    me: Region,
    me_len: int,
    keep: Seq<Seq<char>>,
    black: Seq<Seq<char>>,
    me6: bool,
    n: int,
    init: PartPass,
    parts: Seq<Partition>,
    k: int,
    m: int,
)
    requires
        0 <= k <= m,
        !(part_scan(me, me_len, keep, black, me6, n, init, parts, k) is Done),
    ensures
        part_scan(me, me_len, keep, black, me6, n, init, parts, m) == part_scan(me, me_len, keep, black, me6, n, init, parts, k),
    decreases m - k,
{
    reveal(part_scan);
    if k < m {
        lemma_part_scan_stops(me, me_len, keep, black, me6, n, init, parts, k, m - 1);
    }
}

} // verus!
