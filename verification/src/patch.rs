//! Soft-patching of ROM images: IPS, UPS and BPS.
//!
//! Each format is specified by a small interpreter over the patch bytes
//! (`ips_run`, `ups_run`, `bps_run`). The executable appliers are proved
//! to produce exactly what those interpreters describe. A run either
//! produces the patched bytes, rejects the patch with a fault, or
//! `Overflow`s: the arithmetic of the format left the range of the
//! machine integers the shell computes with.
use vstd::prelude::*;
use vstd::slice::slice_subrange;

verus! {

/// Patch container; the variant records the format detected from the
/// magic bytes and carries the whole patch file.
#[derive(Debug)]
pub enum Patch {
    Ips(Vec<u8>),
    Ups(Vec<u8>),
    Bps(Vec<u8>),
}

/// Why a patch was rejected.
#[derive(Debug, Clone, Copy, PartialEq, Eq)]
pub enum Fault {
    TooShort,
    IpsHeader,
    IpsNoEof,
    IpsRecordHeader,
    IpsRleRecord,
    IpsDataRecord,
    UpsHeader,
    UpsVlq,
    UpsDiffBlock,
    BpsHeader,
    BpsVlq,
    BpsSourceReadDst,
    BpsTargetReadPatch,
    BpsTargetReadDst,
    BpsSourceCopyDst,
    BpsTargetCopyDst,
}

/// The message reported for a fault.
pub open spec fn fault_text(f: Fault) -> Seq<char> {
    match f {
        Fault::TooShort => "patch file too short"@,
        Fault::IpsHeader => "not an IPS patch (missing PATCH header)"@,
        Fault::IpsNoEof => "IPS: ran off the end without finding EOF"@,
        Fault::IpsRecordHeader => "IPS: truncated record header"@,
        Fault::IpsRleRecord => "IPS: truncated RLE record"@,
        Fault::IpsDataRecord => "IPS: truncated data record"@,
        Fault::UpsHeader => "not a UPS patch (missing UPS1 header)"@,
        Fault::UpsVlq => "VLQ: ran off end"@,
        Fault::UpsDiffBlock => "UPS: ran off body in diff block"@,
        Fault::BpsHeader => "not a BPS patch (missing BPS1 header)"@,
        Fault::BpsVlq => "BPS VLQ: ran off end"@,
        Fault::BpsSourceReadDst => "BPS SourceRead overruns dst"@,
        Fault::BpsTargetReadPatch => "BPS TargetRead overruns patch"@,
        Fault::BpsTargetReadDst => "BPS TargetRead overruns dst"@,
        Fault::BpsSourceCopyDst => "BPS SourceCopy overruns dst"@,
        Fault::BpsTargetCopyDst => "BPS TargetCopy overruns dst"@,
    }
}

fn fault_message(f: Fault) -> (r: String)
    ensures
        r@ == fault_text(f),
{
    let s: &str = match f {
        Fault::TooShort => "patch file too short",
        Fault::IpsHeader => "not an IPS patch (missing PATCH header)",
        Fault::IpsNoEof => "IPS: ran off the end without finding EOF",
        Fault::IpsRecordHeader => "IPS: truncated record header",
        Fault::IpsRleRecord => "IPS: truncated RLE record",
        Fault::IpsDataRecord => "IPS: truncated data record",
        Fault::UpsHeader => "not a UPS patch (missing UPS1 header)",
        Fault::UpsVlq => "VLQ: ran off end",
        Fault::UpsDiffBlock => "UPS: ran off body in diff block",
        Fault::BpsHeader => "not a BPS patch (missing BPS1 header)",
        Fault::BpsVlq => "BPS VLQ: ran off end",
        Fault::BpsSourceReadDst => "BPS SourceRead overruns dst",
        Fault::BpsTargetReadPatch => "BPS TargetRead overruns patch",
        Fault::BpsTargetReadDst => "BPS TargetRead overruns dst",
        Fault::BpsSourceCopyDst => "BPS SourceCopy overruns dst",
        Fault::BpsTargetCopyDst => "BPS TargetCopy overruns dst",
    };
    s.to_owned()
}

/// What applying a patch amounts to.
pub enum Applied {
    /// The patched image.
    Done(Seq<u8>),
    /// The patch was rejected.
    Failed(Fault),
    /// A counter of the format left the machine integer range.
    Overflow,
}

/// The executable counterpart of [`Applied`].
#[derive(Debug)]
pub enum Outcome {
    Patched(Vec<u8>),
    Rejected(Fault),
    Overflowed,
}

pub open spec fn outcome_matches(o: Outcome, a: Applied) -> bool {
    match (o, a) {
        (Outcome::Patched(v), Applied::Done(s)) => v@ == s,
        (Outcome::Rejected(f), Applied::Failed(g)) => f == g,
        (Outcome::Overflowed, Applied::Overflow) => true,
        _ => false,
    }
}

// ---------------------------------------------------------------------
// Byte helpers
// ---------------------------------------------------------------------

/// Big-endian 24-bit value of the first three bytes.
pub open spec fn be24(b: Seq<u8>) -> int {
    b[0] * 65536 + b[1] * 256 + b[2]
}

/// Big-endian 16-bit value of the first two bytes.
pub open spec fn be16(b: Seq<u8>) -> int {
    b[0] * 256 + b[1]
}

/// `out` grown with zero bytes to at least `len` bytes.
pub open spec fn grown(out: Seq<u8>, len: int) -> Seq<u8> {
    if out.len() < len {
        out + Seq::new((len - out.len()) as nat, |i: int| 0u8)
    } else {
        out
    }
}

/// `out` with `data` written from index `at` on (`at + data.len() <= out.len()`).
pub open spec fn written(out: Seq<u8>, at: int, data: Seq<u8>) -> Seq<u8> {
    Seq::new(
        out.len(),
        |k: int|
            if at <= k < at + data.len() {
                data[k - at]
            } else {
                out[k]
            },
    )
}

/// `n` copies of `b`.
pub open spec fn filled(n: int, b: u8) -> Seq<u8> {
    Seq::new(n as nat, |k: int| b)
}

pub fn u24_be(b: &[u8]) -> (r: u32)
    requires
        b.len() >= 3,
    ensures
        r == be24(b@),
{
    let (x, y, z) = (b[0], b[1], b[2]);
    assert(((x as u32) << 16) | ((y as u32) << 8) | (z as u32) == (x as u32) * 65536 + (y as u32)
        * 256 + (z as u32)) by (bit_vector);
    ((x as u32) << 16) | ((y as u32) << 8) | (z as u32)
}

pub fn u16_be(b: &[u8]) -> (r: u16)
    requires
        b.len() >= 2,
    ensures
        r == be16(b@),
{
    let (x, y) = (b[0], b[1]);
    assert(((x as u16) << 8) | (y as u16) == (x as u16) * 256 + (y as u16)) by (bit_vector);
    ((x as u16) << 8) | (y as u16)
}

/// Grows `buf` with zero bytes to at least `len` bytes.
pub fn ensure_size(buf: &mut Vec<u8>, len: usize)
    ensures
        final(buf)@ == grown(old(buf)@, len as int),
{
    if buf.len() < len {
        let ghost before = buf@;
        buf.resize(len, 0);
        proof {
            assert forall|k: int| before.len() <= k < len implies buf@[k] == 0u8 by {
                assert(cloned::<u8>(0u8, buf@[k]));
            }
            assert(buf@ =~= grown(before, len as int));
        }
    }
}

/// Copy of the whole slice.
fn copy_bytes(s: &[u8]) -> (r: Vec<u8>)
    ensures
        r@ == s@,
{
    vstd::slice::slice_to_vec(s)
}

/// Writes `data` into `out` from index `at` on.
fn write_bytes(out: &mut Vec<u8>, at: usize, data: &[u8])
    requires
        at + data.len() <= old(out).len(),
    ensures
        final(out)@ == written(old(out)@, at as int, data@),
{
    let ghost before = out@;
    let mut k: usize = 0;
    while k < data.len()
        invariant
            at + data.len() <= out.len(),
            out.len() == before.len(),
            k <= data.len(),
            forall|j: int|
                0 <= j < out.len() ==> out@[j] == (if at <= j < at + k {
                    data@[j - at]
                } else {
                    before[j]
                }),
        decreases data.len() - k,
    {
        out.set(at + k, data[k]);
        k += 1;
    }
    assert(out@ =~= written(before, at as int, data@));
}

// ---------------------------------------------------------------------
// Format detection
// ---------------------------------------------------------------------

pub open spec fn magic_patch(b: Seq<u8>) -> bool {
    b.len() >= 5 && b[0] == 0x50 && b[1] == 0x41 && b[2] == 0x54 && b[3] == 0x43 && b[4] == 0x48
}

pub open spec fn magic_ups(b: Seq<u8>) -> bool {
    b.len() >= 4 && b[0] == 0x55 && b[1] == 0x50 && b[2] == 0x53 && b[3] == 0x31
}

pub open spec fn magic_bps(b: Seq<u8>) -> bool {
    b.len() >= 4 && b[0] == 0x42 && b[1] == 0x50 && b[2] == 0x53 && b[3] == 0x31
}

pub open spec fn is_eof_marker(b: Seq<u8>, i: int) -> bool {
    b[i] == 0x45 && b[i + 1] == 0x4F && b[i + 2] == 0x46
}

// ---------------------------------------------------------------------
// IPS
// ---------------------------------------------------------------------

/// The IPS record interpreter: `i` is the read position in the patch,
/// `out` the image so far.
pub open spec fn ips_run(patch: Seq<u8>, i: int, out: Seq<u8>) -> Applied
    decreases patch.len() - i,
{
    if i < 0 || i + 3 > patch.len() {
        Applied::Failed(Fault::IpsNoEof)
    } else if is_eof_marker(patch, i) {
        let j = i + 3;
        if j + 3 <= patch.len() {
            let t = be24(patch.subrange(j, j + 3));
            if t < out.len() {
                Applied::Done(out.take(t))
            } else {
                Applied::Done(out)
            }
        } else {
            Applied::Done(out)
        }
    } else {
        let offset = be24(patch.subrange(i, i + 3));
        let k = i + 3;
        if k + 2 > patch.len() {
            Applied::Failed(Fault::IpsRecordHeader)
        } else {
            let size = be16(patch.subrange(k, k + 2));
            let d = k + 2;
            if size == 0 {
                if d + 3 > patch.len() {
                    Applied::Failed(Fault::IpsRleRecord)
                } else {
                    let count = be16(patch.subrange(d, d + 2));
                    let fill = patch[d + 2];
                    let g = grown(out, offset + count);
                    ips_run(patch, d + 3, written(g, offset, filled(count, fill)))
                }
            } else {
                if d + size > patch.len() {
                    Applied::Failed(Fault::IpsDataRecord)
                } else {
                    let g = grown(out, offset + size);
                    ips_run(patch, d + size, written(g, offset, patch.subrange(d, d + size)))
                }
            }
        }
    }
}

/// What applying an IPS patch to `base` amounts to.
pub open spec fn ips_applied(patch: Seq<u8>, base: Seq<u8>) -> Applied {
    if !magic_patch(patch) {
        Applied::Failed(Fault::IpsHeader)
    } else {
        ips_run(patch, 5, base)
    }
}

fn is_eof_at(patch: &[u8], i: usize) -> (r: bool)
    requires
        i + 3 <= patch.len(),
    ensures
        r == is_eof_marker(patch@, i as int),
{
    patch[i] == 0x45 && patch[i + 1] == 0x4F && patch[i + 2] == 0x46
}

fn fill_bytes(out: &mut Vec<u8>, at: usize, count: usize, fill: u8)
    requires
        at + count <= old(out).len(),
    ensures
        final(out)@ == written(old(out)@, at as int, filled(count as int, fill)),
{
    let ghost before = out@;
    let mut k: usize = 0;
    while k < count
        invariant
            at + count <= out.len(),
            out.len() == before.len(),
            k <= count,
            forall|j: int|
                0 <= j < out.len() ==> out@[j] == (if at <= j < at + k {
                    fill
                } else {
                    before[j]
                }),
        decreases count - k,
    {
        out.set(at + k, fill);
        k += 1;
    }
    assert(out@ =~= written(before, at as int, filled(count as int, fill)));
}

pub fn apply_ips(patch: &[u8], base: &[u8]) -> (r: Result<Vec<u8>, String>)
    ensures
        match ips_applied(patch@, base@) {
            Applied::Done(s) => r matches Ok(v) && v@ == s,
            Applied::Failed(f) => r matches Err(m) && m@ == fault_text(f),
            Applied::Overflow => false,
        },
{
    let o = run_ips(patch, base);
    match o {
        Outcome::Patched(v) => Ok(v),
        Outcome::Rejected(f) => Err(fault_message(f)),
        Outcome::Overflowed => Err(fault_message(Fault::IpsNoEof)),
    }
}

/// Runs the IPS interpreter.
fn run_ips(patch: &[u8], base: &[u8]) -> (r: Outcome)
    ensures
        outcome_matches(r, ips_applied(patch@, base@)),
        !(ips_applied(patch@, base@) is Overflow),
{
    if patch.len() < 5 || !(patch[0] == 0x50 && patch[1] == 0x41 && patch[2] == 0x54 && patch[3]
        == 0x43 && patch[4] == 0x48) {
        return Outcome::Rejected(Fault::IpsHeader);
    }
    let mut out = copy_bytes(base);
    let mut i: usize = 5;
    while 3 <= patch.len() - i
        invariant
            5 <= i <= patch.len(),
            magic_patch(patch@),
            ips_applied(patch@, base@) == ips_run(patch@, i as int, out@),
        decreases patch.len() - i,
    {
        if is_eof_at(patch, i) {
            i += 3;
            if 3 <= patch.len() - i {
                let trunc = u24_be(slice_subrange(patch, i, i + 3));
                if (trunc as usize) < out.len() {
                    out.truncate(trunc as usize);
                }
            }
            return Outcome::Patched(out);
        }
        let offset = u24_be(slice_subrange(patch, i, i + 3)) as usize;
        i += 3;
        if 2 > patch.len() - i {
            return Outcome::Rejected(Fault::IpsRecordHeader);
        }
        let size = u16_be(slice_subrange(patch, i, i + 2)) as usize;
        i += 2;
        if size == 0 {
            if 3 > patch.len() - i {
                return Outcome::Rejected(Fault::IpsRleRecord);
            }
            let rle_size = u16_be(slice_subrange(patch, i, i + 2)) as usize;
            i += 2;
            let fill = patch[i];
            i += 1;
            ensure_size(&mut out, offset + rle_size);
            fill_bytes(&mut out, offset, rle_size, fill);
        } else {
            if size > patch.len() - i {
                return Outcome::Rejected(Fault::IpsDataRecord);
            }
            ensure_size(&mut out, offset + size);
            write_bytes(&mut out, offset, slice_subrange(patch, i, i + size));
            i += size;
        }
    }
    Outcome::Rejected(Fault::IpsNoEof)
}

// ---------------------------------------------------------------------
// Variable-length quantities
// ---------------------------------------------------------------------

/// Result of reading a variable-length quantity.
pub enum Vlq {
    /// The value and the position just past it.
    Value(u64, int),
    /// The buffer ended before a terminating byte.
    RanOff,
    /// The accumulated value left the `u64` range, or the shift reached 64.
    Overflow,
}

/// Executable counterpart of [`Vlq`].
pub enum VlqRead {
    Value(u64),
    RanOff,
    Overflowed,
}

/// UPS quantity: each byte adds its low seven bits times the running
/// multiplier; a set high bit ends it; otherwise the multiplier (a `u32`)
/// is shifted left by seven and added once more.
pub open spec fn ups_vlq(buf: Seq<u8>, pos: int, val: int, shift: u32) -> Vlq
    decreases buf.len() - pos,
{
    if pos < 0 || pos >= buf.len() {
        Vlq::RanOff
    } else {
        let b = buf[pos];
        let v1 = val + (b & 0x7F) as int * shift as int;
        if v1 > u64::MAX {
            Vlq::Overflow
        } else if b & 0x80 != 0 {
            Vlq::Value(v1 as u64, pos + 1)
        } else {
            let s2 = shift << 7u32;
            let v2 = v1 + s2 as int;
            if v2 > u64::MAX {
                Vlq::Overflow
            } else {
                ups_vlq(buf, pos + 1, v2, s2)
            }
        }
    }
}

pub proof fn lemma_ups_vlq_advances(buf: Seq<u8>, pos: int, val: int, shift: u32)
    ensures
        ups_vlq(buf, pos, val, shift) matches Vlq::Value(_, p) ==> pos < p <= buf.len(),
    decreases buf.len() - pos,
{
    if 0 <= pos < buf.len() {
        let b = buf[pos];
        let v1 = val + (b & 0x7F) as int * shift as int;
        if v1 <= u64::MAX && b & 0x80 == 0 {
            lemma_ups_vlq_advances(buf, pos + 1, v1 + (shift << 7u32) as int, shift << 7u32);
        }
    }
}

/// The bytes a UPS encoder writes for `v`: seven bits at a time, low bits
/// first; after each byte that is not the last, one less is carried on;
/// the last byte has its high bit set.
pub open spec fn ups_encoded(v: nat) -> Seq<u8>
    decreases v,
{
    if v < 128 {
        seq![(v + 128) as u8]
    } else {
        seq![(v % 128) as u8] + ups_encoded((v / 128 - 1) as nat)
    }
}

proof fn lemma_ups_vlq_reads_encoded(buf: Seq<u8>, pos: int, v: nat, val: int, shift: u32)
    requires
        0 <= pos,
        pos + ups_encoded(v).len() <= buf.len(),
        buf.subrange(pos, pos + ups_encoded(v).len()) == ups_encoded(v),
        shift >= 1,
        v * shift < 0x1_0000_0000,
        0 <= val,
        val + v * shift <= u64::MAX,
    ensures
        ups_vlq(buf, pos, val, shift) == Vlq::Value((val + v * shift) as u64, pos + ups_encoded(v).len()),
    decreases v,
{
    let enc = ups_encoded(v);
    assert(buf[pos] == enc[0]) by {
        assert(buf.subrange(pos, pos + enc.len())[0] == buf[pos]);
    }
    let b = buf[pos];
    if v < 128 {
        assert(b == (v + 128) as u8);
        let x = v as u8;
        assert(b == x + 128);
        assert((b & 0x7F) == x && b & 0x80 != 0) by (bit_vector)
            requires
                b == x + 128,
                x < 128,
        ;
    } else {
        let x = (v % 128) as u8;
        assert(b == x);
        assert((b & 0x7F) == x && b & 0x80 == 0) by (bit_vector)
            requires
                b == x,
                x < 128,
        ;
        let w = (v / 128 - 1) as nat;
        assert(enc == seq![x] + ups_encoded(w));
        assert(128 * shift <= v * shift) by (nonlinear_arith)
            requires
                v >= 128,
        ;
        assert(shift < 0x200_0000);
        assert(shift << 7u32 == shift * 128) by (bit_vector)
            requires
                shift < 0x200_0000,
        ;
        let s2 = shift << 7u32;
        let v1 = val + x as int * shift as int;
        assert(v == 128 * (v / 128) + x) by (nonlinear_arith)
            requires
                x == v % 128,
        ;
        assert(w * s2 + 128 * shift + x * shift == v * shift) by (nonlinear_arith)
            requires
                s2 == shift * 128,
                w == v / 128 - 1,
                v == 128 * (v / 128) + x,
                v >= 128,
        ;
        assert(w * s2 >= 0) by (nonlinear_arith)
            requires
                w >= 0,
                s2 >= 0,
        ;
        assert(x * shift >= 0) by (nonlinear_arith);
        assert(w * s2 < 0x1_0000_0000);
        let v2 = v1 + s2 as int;
        assert(v1 <= u64::MAX && v2 <= u64::MAX);
        assert(buf.subrange(pos + 1, pos + 1 + ups_encoded(w).len()) =~= ups_encoded(w)) by {
            assert forall|k: int| 0 <= k < ups_encoded(w).len() implies #[trigger] buf.subrange(
                pos + 1,
                pos + 1 + ups_encoded(w).len(),
            )[k] == ups_encoded(w)[k] by {
                assert(buf.subrange(pos, pos + enc.len())[k + 1] == enc[k + 1]);
            }
        }
        lemma_ups_vlq_reads_encoded(buf, pos + 1, w, v2, s2);
        assert(v2 + w * s2 == val + v * shift);
    }
}

/// A UPS quantity reads back as the value the UPS encoder wrote for it:
/// each byte holds seven bits, and each byte after the first adds the next
/// power of 128 once more (so `[0x48, 0x80]` is 72 + 128 = 200). Holds for
/// every value the format's `u32` multiplier can reach.
pub proof fn law_ups_quantity_round_trip(v: nat, rest: Seq<u8>)
    requires
        v < 0x1_0000_0000,
    ensures
        ups_vlq(ups_encoded(v) + rest, 0, 0, 1) == Vlq::Value(v as u64, ups_encoded(v).len() as int),
{
    let buf = ups_encoded(v) + rest;
    assert(buf.subrange(0, ups_encoded(v).len() as int) =~= ups_encoded(v));
    lemma_ups_vlq_reads_encoded(buf, 0, v, 0, 1);
}

fn read_vlq_ups(buf: &[u8], pos: &mut usize) -> (r: VlqRead)
    ensures
        match ups_vlq(buf@, *old(pos) as int, 0, 1) {
            Vlq::Value(v, p) => r matches VlqRead::Value(w) && w == v && *final(pos) == p,
            Vlq::RanOff => r is RanOff,
            Vlq::Overflow => r is Overflowed,
        },
{
    let mut val: u64 = 0;
    let mut shift: u32 = 1;
    loop
        invariant
            ups_vlq(buf@, *old(pos) as int, 0, 1) == ups_vlq(buf@, *pos as int, val as int, shift),
        decreases buf.len() - *pos,
    {
        if *pos >= buf.len() {
            return VlqRead::RanOff;
        }
        let b = buf[*pos];
        *pos += 1;
        let low = b & 0x7F;
        assert(low <= 127) by (bit_vector)
            requires
                low == b & 0x7F,
        ;
        assert(low as u64 * shift as u64 <= 127 * 0xFFFF_FFFFu64) by (nonlinear_arith)
            requires
                low <= 127,
        ;
        let add = (low as u64) * (shift as u64);
        if add > u64::MAX - val {
            return VlqRead::Overflowed;
        }
        val += add;
        if b & 0x80 != 0 {
            return VlqRead::Value(val);
        }
        shift <<= 7;
        if (shift as u64) > u64::MAX - val {
            return VlqRead::Overflowed;
        }
        val += shift as u64;
    }
}

// ---------------------------------------------------------------------
// UPS
// ---------------------------------------------------------------------

/// `out` cut to `len` bytes when longer (`Vec::truncate`).
pub open spec fn truncated(out: Seq<u8>, len: int) -> Seq<u8> {
    if len < out.len() {
        out.take(len)
    } else {
        out
    }
}

/// Between records: read the relative skip, then XOR a block.
pub open spec fn ups_records(body: Seq<u8>, p: int, out: Seq<u8>, o: int, out_size: int) -> Applied
    decreases body.len() - p, 1int,
{
    if p < 0 || p >= body.len() {
        Applied::Done(truncated(out, out_size))
    } else {
        match ups_vlq(body, p, 0, 1) {
            Vlq::RanOff => Applied::Failed(Fault::UpsVlq),
            Vlq::Overflow => Applied::Overflow,
            Vlq::Value(rel, p1) => {
                proof {
                    lemma_ups_vlq_advances(body, p, 0, 1);
                }
                let o1 = o + (rel as usize) as int;
                if o1 > usize::MAX {
                    Applied::Overflow
                } else {
                    ups_block(body, p1, out, o1, out_size)
                }
            },
        }
    }
}

/// Inside a block: XOR bytes into the image up to and including a zero byte.
pub open spec fn ups_block(body: Seq<u8>, p: int, out: Seq<u8>, o: int, out_size: int) -> Applied
    decreases body.len() - p, 0int,
{
    if p < 0 || p >= body.len() {
        Applied::Failed(Fault::UpsDiffBlock)
    } else {
        let b = body[p];
        let out1 = if o < out.len() {
            out.update(o, out[o] ^ b)
        } else {
            out
        };
        let o1 = o + 1;
        if o1 > usize::MAX {
            Applied::Overflow
        } else if b == 0 {
            ups_records(body, p + 1, out1, o1, out_size)
        } else {
            ups_block(body, p + 1, out1, o1, out_size)
        }
    }
}

/// What applying a UPS patch to `base` amounts to. The input size and
/// the trailing checksums are read past, not checked.
pub open spec fn ups_applied(patch: Seq<u8>, base: Seq<u8>) -> Applied {
    if patch.len() < 16 || !magic_ups(patch) {
        Applied::Failed(Fault::UpsHeader)
    } else {
        let body = patch.take(patch.len() - 12);
        match ups_vlq(body, 4, 0, 1) {
            Vlq::RanOff => Applied::Failed(Fault::UpsVlq),
            Vlq::Overflow => Applied::Overflow,
            Vlq::Value(_, p1) => match ups_vlq(body, p1, 0, 1) {
                Vlq::RanOff => Applied::Failed(Fault::UpsVlq),
                Vlq::Overflow => Applied::Overflow,
                Vlq::Value(size, p2) => {
                    let out_size = (size as usize) as int;
                    ups_records(body, p2, grown(base, out_size), 0, out_size)
                },
            },
        }
    }
}

/// The UPS magic `UPS1`.
pub open spec fn ups_magic() -> Seq<u8> {
    seq![0x55u8, 0x50, 0x53, 0x31]
}

/// A UPS patch with no records makes an image of exactly the output size
/// its header states: the base bytes up to that size, zeros past the end
/// of the base.
pub proof fn law_ups_output_has_the_stated_size(input_size: nat, output_size: nat, checksums: Seq<u8>, base: Seq<u8>)
    requires
        input_size < 0x1_0000_0000,
        output_size < 0x1_0000_0000,
        checksums.len() == 12,
    ensures
        ups_applied(ups_magic() + ups_encoded(input_size) + ups_encoded(output_size) + checksums, base) matches Applied::Done(
            r,
        ) && r.len() == output_size && forall|k: int|
            0 <= k < output_size ==> #[trigger] r[k] == if k < base.len() {
                base[k]
            } else {
                0u8
            },
{
    let ei = ups_encoded(input_size);
    let eo = ups_encoded(output_size);
    let patch = ups_magic() + ei + eo + checksums;
    let body = patch.take(patch.len() - 12);
    assert(body =~= ups_magic() + ei + eo);
    let li = ei.len() as int;
    let lo = eo.len() as int;
    assert(body.subrange(4, 4 + li) =~= ei);
    lemma_ups_vlq_reads_encoded(body, 4, input_size, 0, 1);
    assert(body.subrange(4 + li, 4 + li + lo) =~= eo);
    lemma_ups_vlq_reads_encoded(body, 4 + li, output_size, 0, 1);
    let n = output_size as int;
    assert((output_size as u64) as usize as int == n);
    let g = grown(base, n);
    let t = truncated(g, n);
    assert(t.len() == n);
    assert forall|k: int| 0 <= k < n implies #[trigger] t[k] == if k < base.len() {
        base[k]
    } else {
        0u8
    } by {
        assert(t[k] == g[k]);
    }
}

/// Runs the UPS interpreter.
fn run_ups(patch: &[u8], base: &[u8]) -> (r: Outcome)
    ensures
        outcome_matches(r, ups_applied(patch@, base@)),
{
    if patch.len() < 16 || !(patch[0] == 0x55 && patch[1] == 0x50 && patch[2] == 0x53 && patch[3]
        == 0x31) {
        return Outcome::Rejected(Fault::UpsHeader);
    }
    let body_end = patch.len() - 12;
    let body = slice_subrange(patch, 0, body_end);
    assert(body@ =~= patch@.take(body_end as int));
    let mut p: usize = 4;
    match read_vlq_ups(body, &mut p) {
        VlqRead::RanOff => {
            return Outcome::Rejected(Fault::UpsVlq);
        },
        VlqRead::Overflowed => {
            return Outcome::Overflowed;
        },
        VlqRead::Value(_) => {},
    }
    let output_size = match read_vlq_ups(body, &mut p) {
        VlqRead::RanOff => {
            return Outcome::Rejected(Fault::UpsVlq);
        },
        VlqRead::Overflowed => {
            return Outcome::Overflowed;
        },
        VlqRead::Value(v) => #[verifier::truncate]
        (v as usize),
    };
    let mut out = copy_bytes(base);
    ensure_size(&mut out, output_size);
    let mut o: usize = 0;
    while p < body_end
        invariant
            body_end == body.len(),
            body@ == patch@.take(body_end as int),
            patch.len() >= 16,
            magic_ups(patch@),
            ups_applied(patch@, base@) == ups_records(
                body@,
                p as int,
                out@,
                o as int,
                output_size as int,
            ),
        decreases body_end - p,
    {
        let ghost p0 = p;
        let rel = match read_vlq_ups(body, &mut p) {
            VlqRead::RanOff => {
                return Outcome::Rejected(Fault::UpsVlq);
            },
            VlqRead::Overflowed => {
                return Outcome::Overflowed;
            },
            VlqRead::Value(v) => #[verifier::truncate]
            (v as usize),
        };
        proof {
            lemma_ups_vlq_advances(body@, p0 as int, 0, 1);
        }
        if rel > usize::MAX - o {
            return Outcome::Overflowed;
        }
        o += rel;
        loop
            invariant_except_break
                ups_applied(patch@, base@) == ups_block(
                    body@,
                    p as int,
                    out@,
                    o as int,
                    output_size as int,
                ),
            invariant
                body_end == body.len(),
                p0 < p <= body_end,
            ensures
                ups_applied(patch@, base@) == ups_records(
                    body@,
                    p as int,
                    out@,
                    o as int,
                    output_size as int,
                ),
            decreases body_end - p,
        {
            if p >= body_end {
                return Outcome::Rejected(Fault::UpsDiffBlock);
            }
            let b = body[p];
            p += 1;
            if o < out.len() {
                let x = out[o] ^ b;
                out.set(o, x);
            }
            if o == usize::MAX {
                return Outcome::Overflowed;
            }
            o += 1;
            if b == 0 {
                break;
            }
        }
    }
    let ghost before = out@;
    out.truncate(output_size);
    assert(out@ =~= truncated(before, output_size as int));
    Outcome::Patched(out)
}

pub fn apply_ups(patch: &[u8], base: &[u8]) -> (r: Result<Vec<u8>, String>)
    requires
        !(ups_applied(patch@, base@) is Overflow),
    ensures
        match ups_applied(patch@, base@) {
            Applied::Done(s) => r matches Ok(v) && v@ == s,
            Applied::Failed(f) => r matches Err(m) && m@ == fault_text(f),
            Applied::Overflow => false,
        },
{
    match run_ups(patch, base) {
        Outcome::Patched(v) => Ok(v),
        Outcome::Rejected(f) => Err(fault_message(f)),
        Outcome::Overflowed => Err(fault_message(Fault::UpsVlq)),
    }
}

// ---------------------------------------------------------------------
// BPS
// ---------------------------------------------------------------------

/// BPS quantity: each byte ORs its low seven bits in at the current
/// shift; a set high bit ends it; otherwise the shift grows by seven and
/// `1 << shift` is added. A shift reaching 64 or a sum past `u64::MAX`
/// overflows.
pub open spec fn bps_vlq(buf: Seq<u8>, pos: int, val: u64, shift: u32) -> Vlq
    decreases buf.len() - pos,
{
    if pos < 0 || pos >= buf.len() {
        Vlq::RanOff
    } else {
        let b = buf[pos];
        let v1 = val | (((b & 0x7F) as u64) << shift);
        if b & 0x80 != 0 {
            Vlq::Value(v1, pos + 1)
        } else {
            let s2 = (shift + 7) as u32;
            if s2 >= 64 {
                Vlq::Overflow
            } else {
                let add = 1u64 << s2;
                if v1 as int + add as int > u64::MAX {
                    Vlq::Overflow
                } else {
                    bps_vlq(buf, pos + 1, (v1 + add) as u64, s2)
                }
            }
        }
    }
}

pub proof fn lemma_bps_vlq_advances(buf: Seq<u8>, pos: int, val: u64, shift: u32)
    requires
        shift < 64,
    ensures
        bps_vlq(buf, pos, val, shift) matches Vlq::Value(_, p) ==> pos < p <= buf.len(),
    decreases buf.len() - pos,
{
    if 0 <= pos < buf.len() {
        let b = buf[pos];
        let v1 = val | (((b & 0x7F) as u64) << shift);
        let s2 = (shift + 7) as u32;
        if b & 0x80 == 0 && s2 < 64 {
            let add = 1u64 << s2;
            if v1 as int + add as int <= u64::MAX {
                lemma_bps_vlq_advances(buf, pos + 1, (v1 + add) as u64, s2);
            }
        }
    }
}

fn read_vlq_bps(buf: &[u8], pos: &mut usize) -> (r: VlqRead)
    ensures
        match bps_vlq(buf@, *old(pos) as int, 0, 0) {
            Vlq::Value(v, p) => r matches VlqRead::Value(w) && w == v && *final(pos) == p,
            Vlq::RanOff => r is RanOff,
            Vlq::Overflow => r is Overflowed,
        },
{
    let mut val: u64 = 0;
    let mut shift: u32 = 0;
    loop
        invariant
            shift < 64,
            bps_vlq(buf@, *old(pos) as int, 0, 0) == bps_vlq(buf@, *pos as int, val, shift),
        decreases buf.len() - *pos,
    {
        if *pos >= buf.len() {
            return VlqRead::RanOff;
        }
        let b = buf[*pos];
        *pos += 1;
        val |= ((b & 0x7F) as u64) << shift;
        if b & 0x80 != 0 {
            return VlqRead::Value(val);
        }
        shift += 7;
        if shift >= 64 {
            return VlqRead::Overflowed;
        }
        let add = 1u64 << shift;
        if add > u64::MAX - val {
            return VlqRead::Overflowed;
        }
        val += add;
    }
}

/// BPS offsets: the low bit is the sign, the rest the magnitude.
pub open spec fn signed(raw: u64) -> int {
    if raw % 2 == 1 {
        -((raw / 2) as int)
    } else {
        (raw / 2) as int
    }
}

pub fn signed_offset(raw: u64) -> (r: i64)
    ensures
        r == signed(raw),
{
    assert(raw >> 1u64 == raw / 2) by (bit_vector);
    assert((raw & 1u64 == 1u64) == (raw % 2 == 1)) by (bit_vector);
    let mag = (raw >> 1) as i64;
    if raw & 1 == 1 {
        -mag
    } else {
        mag
    }
}

pub open spec fn in_i64(x: int) -> bool {
    i64::MIN <= x <= i64::MAX
}

/// `n` bytes of the base image starting at `from`, zero past its end.
pub open spec fn base_bytes(base: Seq<u8>, from: int, n: int) -> Seq<u8> {
    Seq::new(
        n as nat,
        |k: int|
            if 0 <= from + k < base.len() {
                base[from + k]
            } else {
                0u8
            },
    )
}

/// TargetCopy: byte by byte, each read from the (partially rewritten)
/// output at the target cursor, which advances with the write position.
pub open spec fn target_copied(out: Seq<u8>, at: int, t: int, n: int) -> Seq<u8>
    decreases n,
{
    if n <= 0 {
        out
    } else {
        let idx = ((t as i64) as usize) as int;
        let v = if idx < out.len() {
            out[idx]
        } else {
            0u8
        };
        target_copied(out.update(at, v), at + 1, t + 1, n - 1)
    }
}

/// The BPS action interpreter. `body` is the patch without its
/// checksums, `patch` the whole patch.
pub open spec fn bps_actions(
    patch: Seq<u8>,
    body: Seq<u8>,
    base: Seq<u8>,
    dst: int,
    p: int,
    out: Seq<u8>,
    out_pos: int,
    src_rel: int,
    tgt_rel: int,
) -> Applied
    decreases body.len() - p,
{
    if !(0 <= p < body.len() && out_pos < dst) {
        Applied::Done(out)
    } else {
        match bps_vlq(body, p, 0, 0) {
            Vlq::RanOff => Applied::Failed(Fault::BpsVlq),
            Vlq::Overflow => Applied::Overflow,
            Vlq::Value(cmd, p1) => {
                proof {
                    lemma_bps_vlq_advances(body, p, 0, 0);
                }
                let opcode = cmd % 4;
                let length = ((cmd / 4 + 1) as usize) as int;
                let end = out_pos + length;
                if opcode == 0 {
                    if end > usize::MAX {
                        Applied::Overflow
                    } else if end > dst {
                        Applied::Failed(Fault::BpsSourceReadDst)
                    } else {
                        bps_actions(
                            patch,
                            body,
                            base,
                            dst,
                            p1,
                            written(out, out_pos, base_bytes(base, out_pos, length)),
                            end,
                            src_rel,
                            tgt_rel,
                        )
                    }
                } else if opcode == 1 {
                    if p1 + length > usize::MAX {
                        Applied::Overflow
                    } else if p1 + length > body.len() {
                        Applied::Failed(Fault::BpsTargetReadPatch)
                    } else if end > usize::MAX {
                        Applied::Overflow
                    } else if end > dst {
                        Applied::Failed(Fault::BpsTargetReadDst)
                    } else {
                        bps_actions(
                            patch,
                            body,
                            base,
                            dst,
                            p1 + length,
                            written(out, out_pos, patch.subrange(p1, p1 + length)),
                            end,
                            src_rel,
                            tgt_rel,
                        )
                    }
                } else {
                    match bps_vlq(body, p1, 0, 0) {
                        Vlq::RanOff => Applied::Failed(Fault::BpsVlq),
                        Vlq::Overflow => Applied::Overflow,
                        Vlq::Value(raw, p2) => {
                            proof {
                                lemma_bps_vlq_advances(body, p1, 0, 0);
                            }
                            if opcode == 2 {
                                let src1 = src_rel + signed(raw);
                                if !in_i64(src1) || end > usize::MAX {
                                    Applied::Overflow
                                } else if end > dst {
                                    Applied::Failed(Fault::BpsSourceCopyDst)
                                } else if src1 + length > i64::MAX {
                                    Applied::Overflow
                                } else {
                                    bps_actions(
                                        patch,
                                        body,
                                        base,
                                        dst,
                                        p2,
                                        written(out, out_pos, base_bytes(base, src1, length)),
                                        end,
                                        src1 + length,
                                        tgt_rel,
                                    )
                                }
                            } else {
                                let tgt1 = tgt_rel + signed(raw);
                                if !in_i64(tgt1) || end > usize::MAX {
                                    Applied::Overflow
                                } else if end > dst {
                                    Applied::Failed(Fault::BpsTargetCopyDst)
                                } else if tgt1 + length > i64::MAX {
                                    Applied::Overflow
                                } else {
                                    bps_actions(
                                        patch,
                                        body,
                                        base,
                                        dst,
                                        p2,
                                        target_copied(out, out_pos, tgt1, length),
                                        end,
                                        src_rel,
                                        tgt1 + length,
                                    )
                                }
                            }
                        },
                    }
                }
            },
        }
    }
}

proof fn lemma_bps_short_vlq(body: Seq<u8>, p: int, c: u8)
    requires
        0 <= p < body.len(),
        c < 128,
        body[p] == c + 128,
    ensures
        bps_vlq(body, p, 0, 0) == Vlq::Value(c as u64, p + 1),
{
    let b = body[p];
    assert((0u64 | (((b & 0x7F) as u64) << 0u32)) == c as u64 && (b & 0x80) != 0) by (bit_vector)
        requires
            b == c + 128,
            c < 128,
    ;
}

proof fn lemma_bps_one_source_copy(
    patch: Seq<u8>,
    body: Seq<u8>,
    base: Seq<u8>,
    dst: int,
    p: int,
    out: Seq<u8>,
    out_pos: int,
    src_rel: int,
    tgt_rel: int,
    n: int,
    d: int,
)
    requires
        1 <= n <= 32,
        0 <= d < 64,
        0 <= p,
        p + 2 <= body.len(),
        body[p] == ((n - 1) * 4 + 2 + 128) as u8,
        body[p + 1] == (2 * d + 128) as u8,
        0 <= out_pos,
        out_pos + n <= dst,
        dst <= usize::MAX,
        in_i64(src_rel),
        src_rel + d + n <= i64::MAX,
    ensures
        bps_actions(patch, body, base, dst, p, out, out_pos, src_rel, tgt_rel) == bps_actions(
            patch,
            body,
            base,
            dst,
            p + 2,
            written(out, out_pos, base_bytes(base, src_rel + d, n)),
            out_pos + n,
            src_rel + d + n,
            tgt_rel,
        ),
{
    let c = ((n - 1) * 4 + 2) as u8;
    lemma_bps_short_vlq(body, p, c);
    let r = (2 * d) as u8;
    lemma_bps_short_vlq(body, p + 1, r);
    let cmd = c as u64;
    assert(cmd % 4 == 2);
    assert(((cmd / 4 + 1) as usize) as int == n);
    assert(signed(r as u64) == d);
}

/// A BPS SourceCopy moves the source cursor past what it copied. A
/// SourceCopy of `n` bytes at relative offset `d` followed by one of `m`
/// bytes at relative offset 0 copies the `n + m` base bytes that start `d`
/// past the cursor, one after the other, and leaves the cursor after them.
pub proof fn law_bps_source_copy_advances_cursor(
    patch: Seq<u8>,
    body: Seq<u8>,
    base: Seq<u8>,
    dst: int,
    p: int,
    out: Seq<u8>,
    out_pos: int,
    src_rel: int,
    tgt_rel: int,
    n: int,
    d: int,
    m: int,
)
    requires
        1 <= n <= 32,
        1 <= m <= 32,
        0 <= d < 64,
        0 <= p,
        p + 4 <= body.len(),
        body[p] == ((n - 1) * 4 + 2 + 128) as u8,
        body[p + 1] == (2 * d + 128) as u8,
        body[p + 2] == ((m - 1) * 4 + 2 + 128) as u8,
        body[p + 3] == 128u8,
        0 <= out_pos,
        out_pos + n + m <= dst,
        dst <= usize::MAX,
        in_i64(src_rel),
        src_rel + d + n + m <= i64::MAX,
    ensures
        bps_actions(patch, body, base, dst, p, out, out_pos, src_rel, tgt_rel) == bps_actions(
            patch,
            body,
            base,
            dst,
            p + 4,
            written(
                written(out, out_pos, base_bytes(base, src_rel + d, n)),
                out_pos + n,
                base_bytes(base, src_rel + d + n, m),
            ),
            out_pos + n + m,
            src_rel + d + n + m,
            tgt_rel,
        ),
{
    lemma_bps_one_source_copy(patch, body, base, dst, p, out, out_pos, src_rel, tgt_rel, n, d);
    let out1 = written(out, out_pos, base_bytes(base, src_rel + d, n));
    lemma_bps_one_source_copy(patch, body, base, dst, p + 2, out1, out_pos + n, src_rel + d + n, tgt_rel, m, 0);
}

/// What applying a BPS patch to `base` amounts to. The source size and
/// the trailing checksums are read past, not checked; the metadata blob
/// is skipped.
pub open spec fn bps_applied(patch: Seq<u8>, base: Seq<u8>) -> Applied {
    if patch.len() < 16 || !magic_bps(patch) {
        Applied::Failed(Fault::BpsHeader)
    } else {
        let body = patch.take(patch.len() - 12);
        match bps_vlq(body, 4, 0, 0) {
            Vlq::RanOff => Applied::Failed(Fault::BpsVlq),
            Vlq::Overflow => Applied::Overflow,
            Vlq::Value(_, p1) => match bps_vlq(body, p1, 0, 0) {
                Vlq::RanOff => Applied::Failed(Fault::BpsVlq),
                Vlq::Overflow => Applied::Overflow,
                Vlq::Value(d, p2) => match bps_vlq(body, p2, 0, 0) {
                    Vlq::RanOff => Applied::Failed(Fault::BpsVlq),
                    Vlq::Overflow => Applied::Overflow,
                    Vlq::Value(m, p3) => {
                        let p4 = p3 + (m as usize) as int;
                        let dst = (d as usize) as int;
                        if p4 > usize::MAX {
                            Applied::Overflow
                        } else {
                            bps_actions(patch, body, base, dst, p4, filled(dst, 0), 0, 0, 0)
                        }
                    },
                },
            },
        }
    }
}

fn source_read(out: &mut Vec<u8>, at: usize, length: usize, base: &[u8])
    requires
        at + length <= old(out).len(),
    ensures
        final(out)@ == written(old(out)@, at as int, base_bytes(base@, at as int, length as int)),
{
    let ghost before = out@;
    let mut i: usize = 0;
    while i < length
        invariant
            at + length <= out.len(),
            out.len() == before.len(),
            i <= length,
            forall|j: int|
                0 <= j < out.len() ==> out@[j] == (if at <= j < at + i {
                    base_bytes(base@, at as int, length as int)[j - at]
                } else {
                    before[j]
                }),
        decreases length - i,
    {
        let src_idx = at + i;
        let v = if src_idx < base.len() {
            base[src_idx]
        } else {
            0
        };
        out.set(at + i, v);
        i += 1;
    }
    assert(out@ =~= written(before, at as int, base_bytes(base@, at as int, length as int)));
}

fn source_copy(out: &mut Vec<u8>, at: usize, length: usize, base: &[u8], src: i64)
    requires
        at + length <= old(out).len(),
        length <= 0x4000_0000_0000_0000,
        src + length <= i64::MAX,
    ensures
        final(out)@ == written(old(out)@, at as int, base_bytes(base@, src as int, length as int)),
{
    let ghost before = out@;
    let mut i: usize = 0;
    while i < length
        invariant
            at + length <= out.len(),
            out.len() == before.len(),
            src + length <= i64::MAX,
            length <= 0x4000_0000_0000_0000,
            i <= length,
            forall|j: int|
                0 <= j < out.len() ==> out@[j] == (if at <= j < at + i {
                    base_bytes(base@, src as int, length as int)[j - at]
                } else {
                    before[j]
                }),
        decreases length - i,
    {
        let idx = src + i as i64;
        let v = if idx >= 0 && (idx as u64) < (base.len() as u64) {
            base[idx as usize]
        } else {
            0
        };
        out.set(at + i, v);
        i += 1;
    }
    assert(out@ =~= written(before, at as int, base_bytes(base@, src as int, length as int)));
}

fn target_copy(out: &mut Vec<u8>, at: usize, length: usize, tgt: i64)
    requires
        at + length <= old(out).len(),
        length <= 0x4000_0000_0000_0000,
        tgt + length <= i64::MAX,
    ensures
        final(out)@ == target_copied(old(out)@, at as int, tgt as int, length as int),
        final(out).len() == old(out).len(),
{
    let mut pos = at;
    let mut t = tgt;
    let mut left = length;
    while left > 0
        invariant
            pos + left <= out.len(),
            t + left <= i64::MAX,
            target_copied(old(out)@, at as int, tgt as int, length as int) == target_copied(
                out@,
                pos as int,
                t as int,
                left as int,
            ),
            out.len() == old(out).len(),
        decreases left,
    {
        let idx = #[verifier::truncate]
        (t as usize);
        let v = if idx < out.len() {
            out[idx]
        } else {
            0
        };
        out.set(pos, v);
        t += 1;
        pos += 1;
        left -= 1;
    }
}

/// Runs the BPS interpreter.
fn run_bps(patch: &[u8], base: &[u8]) -> (r: Outcome)
    ensures
        outcome_matches(r, bps_applied(patch@, base@)),
{
    if patch.len() < 16 || !(patch[0] == 0x42 && patch[1] == 0x50 && patch[2] == 0x53 && patch[3]
        == 0x31) {
        return Outcome::Rejected(Fault::BpsHeader);
    }
    let body_end = patch.len() - 12;
    let body = slice_subrange(patch, 0, body_end);
    assert(body@ =~= patch@.take(body_end as int));
    let mut p: usize = 4;
    match read_vlq_bps(body, &mut p) {
        VlqRead::RanOff => {
            return Outcome::Rejected(Fault::BpsVlq);
        },
        VlqRead::Overflowed => {
            return Outcome::Overflowed;
        },
        VlqRead::Value(_) => {},
    }
    let dst_size = match read_vlq_bps(body, &mut p) {
        VlqRead::RanOff => {
            return Outcome::Rejected(Fault::BpsVlq);
        },
        VlqRead::Overflowed => {
            return Outcome::Overflowed;
        },
        VlqRead::Value(v) => #[verifier::truncate]
        (v as usize),
    };
    let meta_size = match read_vlq_bps(body, &mut p) {
        VlqRead::RanOff => {
            return Outcome::Rejected(Fault::BpsVlq);
        },
        VlqRead::Overflowed => {
            return Outcome::Overflowed;
        },
        VlqRead::Value(v) => #[verifier::truncate]
        (v as usize),
    };
    if meta_size > usize::MAX - p {
        return Outcome::Overflowed;
    }
    p += meta_size;
    let mut out: Vec<u8> = vec![0u8; dst_size];
    assert(out@ =~= filled(dst_size as int, 0));
    let mut out_pos: usize = 0;
    let mut src_rel: i64 = 0;
    let mut tgt_rel: i64 = 0;
    while p < body_end && out_pos < dst_size
        invariant
            body_end == body.len(),
            body_end + 12 == patch.len(),
            body@ == patch@.take(body_end as int),
            out.len() == dst_size,
            out_pos <= dst_size,
            bps_applied(patch@, base@) == bps_actions(
                patch@,
                body@,
                base@,
                dst_size as int,
                p as int,
                out@,
                out_pos as int,
                src_rel as int,
                tgt_rel as int,
            ),
        decreases body_end - p,
    {
        let ghost p0 = p;
        let cmd = match read_vlq_bps(body, &mut p) {
            VlqRead::RanOff => {
                return Outcome::Rejected(Fault::BpsVlq);
            },
            VlqRead::Overflowed => {
                return Outcome::Overflowed;
            },
            VlqRead::Value(v) => v,
        };
        proof {
            lemma_bps_vlq_advances(body@, p0 as int, 0, 0);
        }
        assert(cmd & 3 == cmd % 4) by (bit_vector);
        assert(cmd >> 2 == cmd / 4) by (bit_vector);
        assert((cmd >> 2) + 1 <= 0x4000_0000_0000_0000u64) by (bit_vector);
        let opcode = cmd & 3;
        let length = #[verifier::truncate]
        (((cmd >> 2) + 1) as usize);
        assert(length <= 0x4000_0000_0000_0000);
        if opcode == 0 {
            if length > usize::MAX - out_pos {
                return Outcome::Overflowed;
            }
            let end = out_pos + length;
            if end > dst_size {
                return Outcome::Rejected(Fault::BpsSourceReadDst);
            }
            source_read(&mut out, out_pos, length, base);
            out_pos = end;
        } else if opcode == 1 {
            if length > usize::MAX - p {
                return Outcome::Overflowed;
            }
            if p + length > body_end {
                return Outcome::Rejected(Fault::BpsTargetReadPatch);
            }
            if length > usize::MAX - out_pos {
                return Outcome::Overflowed;
            }
            let end = out_pos + length;
            if end > dst_size {
                return Outcome::Rejected(Fault::BpsTargetReadDst);
            }
            write_bytes(&mut out, out_pos, slice_subrange(patch, p, p + length));
            out_pos = end;
            p += length;
        } else {
            let ghost p1 = p;
            let raw = match read_vlq_bps(body, &mut p) {
                VlqRead::RanOff => {
                    return Outcome::Rejected(Fault::BpsVlq);
                },
                VlqRead::Overflowed => {
                    return Outcome::Overflowed;
                },
                VlqRead::Value(v) => v,
            };
            proof {
                lemma_bps_vlq_advances(body@, p1 as int, 0, 0);
            }
            let signed = signed_offset(raw);
            if opcode == 2 {
                if (signed > 0 && src_rel > i64::MAX - signed) || (signed < 0 && src_rel < i64::MIN
                    - signed) {
                    return Outcome::Overflowed;
                }
                src_rel += signed;
                if length > usize::MAX - out_pos {
                    return Outcome::Overflowed;
                }
                let end = out_pos + length;
                if end > dst_size {
                    return Outcome::Rejected(Fault::BpsSourceCopyDst);
                }
                if src_rel as i128 + length as i128 > i64::MAX as i128 {
                    return Outcome::Overflowed;
                }
                source_copy(&mut out, out_pos, length, base, src_rel);
                src_rel += length as i64;
                out_pos = end;
            } else {
                if (signed > 0 && tgt_rel > i64::MAX - signed) || (signed < 0 && tgt_rel < i64::MIN
                    - signed) {
                    return Outcome::Overflowed;
                }
                tgt_rel += signed;
                if length > usize::MAX - out_pos {
                    return Outcome::Overflowed;
                }
                let end = out_pos + length;
                if end > dst_size {
                    return Outcome::Rejected(Fault::BpsTargetCopyDst);
                }
                if tgt_rel as i128 + length as i128 > i64::MAX as i128 {
                    return Outcome::Overflowed;
                }
                target_copy(&mut out, out_pos, length, tgt_rel);
                tgt_rel += length as i64;
                out_pos = end;
            }
        }
    }
    Outcome::Patched(out)
}

pub fn apply_bps(patch: &[u8], base: &[u8]) -> (r: Result<Vec<u8>, String>)
    requires
        !(bps_applied(patch@, base@) is Overflow),
    ensures
        match bps_applied(patch@, base@) {
            Applied::Done(s) => r matches Ok(v) && v@ == s,
            Applied::Failed(f) => r matches Err(m) && m@ == fault_text(f),
            Applied::Overflow => false,
        },
{
    match run_bps(patch, base) {
        Outcome::Patched(v) => Ok(v),
        Outcome::Rejected(f) => Err(fault_message(f)),
        Outcome::Overflowed => Err(fault_message(Fault::BpsVlq)),
    }
}

// ---------------------------------------------------------------------
// Entry points
// ---------------------------------------------------------------------

/// Upper-case hex digit of a nibble.
pub open spec fn hex_digit(n: u8) -> char {
    if n < 10 {
        (('0' as u32) + n) as char
    } else {
        (('A' as u32) + n - 10) as char
    }
}

/// `{:02X?}` rendering of a byte slice: `[4E, 4F, 50, 45]`.
pub open spec fn hex_list(b: Seq<u8>) -> Seq<char>
    decreases b.len(),
{
    if b.len() == 0 {
        "[]"@
    } else {
        "["@ + hex_items(b) + "]"@
    }
}

pub open spec fn hex_items(b: Seq<u8>) -> Seq<char>
    decreases b.len(),
{
    if b.len() == 0 {
        seq![]
    } else if b.len() == 1 {
        seq![hex_digit(b[0] / 16), hex_digit(b[0] % 16)]
    } else {
        hex_items(b.drop_last()) + ", "@ + seq![hex_digit(b.last() / 16), hex_digit(b.last() % 16)]
    }
}

fn hex_char(n: u8) -> (r: char)
    requires
        n < 16,
    ensures
        r == hex_digit(n),
{
    let c = if n < 10 {
        (0x30u8 + n) as char
    } else {
        (0x41u8 + n - 10) as char
    };
    c
}

fn push_hex_byte(out: &mut String, b: u8)
    ensures
        final(out)@ == old(out)@ + seq![hex_digit(b / 16), hex_digit(b % 16)],
{
    crate::text::push_char(out, hex_char(b / 16));
    crate::text::push_char(out, hex_char(b % 16));
    assert(out@ =~= old(out)@ + seq![hex_digit(b / 16), hex_digit(b % 16)]);
}

/// The text of the error for an unrecognized patch magic.
pub open spec fn unknown_magic_text(buf: Seq<u8>) -> Seq<char> {
    "unrecognized patch magic: "@ + hex_list(buf.take(if buf.len() < 4 {
        buf.len() as int
    } else {
        4
    }))
}

fn unknown_magic_message(buf: &[u8]) -> (r: String)
    ensures
        r@ == unknown_magic_text(buf@),
{
    let n = if buf.len() < 4 {
        buf.len()
    } else {
        4
    };
    let mut out = "unrecognized patch magic: ".to_owned();
    let ghost prefix = out@;
    crate::text::push_char(&mut out, '[');
    proof {
        reveal_strlit("[");
        assert(buf@.take(0) =~= Seq::<u8>::empty());
        assert(out@ =~= prefix + "["@ + hex_items(buf@.take(0)));
    }
    let mut i: usize = 0;
    while i < n
        invariant
            n <= buf.len(),
            i <= n,
            out@ == prefix + "["@ + hex_items(buf@.take(i as int)),
        decreases n - i,
    {
        let ghost before = out@;
        if i > 0 {
            crate::text::push_char(&mut out, ',');
            crate::text::push_char(&mut out, ' ');
        }
        push_hex_byte(&mut out, buf[i]);
        i += 1;
        proof {
            let t = buf@.take(i as int);
            assert(t.drop_last() =~= buf@.take(i - 1));
            reveal_strlit(", ");
            reveal_strlit("[");
            if i == 1 {
                assert(buf@.take(0) =~= Seq::<u8>::empty());
                assert(out@ =~= prefix + "["@ + hex_items(t));
            } else {
                assert(out@ =~= prefix + "["@ + hex_items(t));
            }
        }
    }
    crate::text::push_char(&mut out, ']');
    proof {
        reveal_strlit("[");
        reveal_strlit("]");
        reveal_strlit("[]");
        let t = buf@.take(n as int);
        if n == 0 {
            assert(t =~= Seq::<u8>::empty());
        }
        assert(out@ =~= prefix + hex_list(t));
    }
    out
}

/// Detect the format of a patch file from its magic bytes.
pub fn parse(buf: Vec<u8>) -> (r: Result<Patch, String>)
    ensures
        buf.len() < 5 ==> (r matches Err(m) && m@ == fault_text(Fault::TooShort)),
        buf.len() >= 5 && magic_patch(buf@) ==> (r matches Ok(Patch::Ips(v)) && v@ == buf@),
        buf.len() >= 5 && !magic_patch(buf@) && magic_ups(buf@) ==> (r matches Ok(Patch::Ups(v))
            && v@ == buf@),
        buf.len() >= 5 && !magic_patch(buf@) && !magic_ups(buf@) && magic_bps(buf@) ==> (r matches Ok(
            Patch::Bps(v),
        ) && v@ == buf@),
        buf.len() >= 5 && !magic_patch(buf@) && !magic_ups(buf@) && !magic_bps(buf@) ==> (r matches Err(
            m,
        ) && m@ == unknown_magic_text(buf@)),
{
    if buf.len() < 5 {
        return Err(fault_message(Fault::TooShort));
    }
    if buf[0] == 0x50 && buf[1] == 0x41 && buf[2] == 0x54 && buf[3] == 0x43 && buf[4] == 0x48 {
        return Ok(Patch::Ips(buf));
    }
    if buf[0] == 0x55 && buf[1] == 0x50 && buf[2] == 0x53 && buf[3] == 0x31 {
        return Ok(Patch::Ups(buf));
    }
    if buf[0] == 0x42 && buf[1] == 0x50 && buf[2] == 0x53 && buf[3] == 0x31 {
        return Ok(Patch::Bps(buf));
    }
    Err(unknown_magic_message(&buf))
}

/// What applying `patch` to `base` amounts to.
pub open spec fn patch_applied(patch: Patch, base: Seq<u8>) -> Applied {
    match patch {
        Patch::Ips(p) => ips_applied(p@, base),
        Patch::Ups(p) => ups_applied(p@, base),
        Patch::Bps(p) => bps_applied(p@, base),
    }
}

/// Runs the patch interpreter, reporting an arithmetic overflow as such.
pub fn evaluate(patch: &Patch, base: &[u8]) -> (r: Outcome)
    ensures
        outcome_matches(r, patch_applied(*patch, base@)),
{
    match patch {
        Patch::Ips(p) => run_ips(p, base),
        Patch::Ups(p) => run_ups(p, base),
        Patch::Bps(p) => run_bps(p, base),
    }
}

/// Apply a patch to a ROM buffer. Returns the patched bytes, or the
/// message of the fault that rejected the patch.
pub fn apply(patch: &Patch, base: &[u8]) -> (r: Result<Vec<u8>, String>)
    requires
        !(patch_applied(*patch, base@) is Overflow),
    ensures
        match patch_applied(*patch, base@) {
            Applied::Done(s) => r matches Ok(v) && v@ == s,
            Applied::Failed(f) => r matches Err(m) && m@ == fault_text(f),
            Applied::Overflow => false,
        },
{
    match patch {
        Patch::Ips(p) => apply_ips(p, base),
        Patch::Ups(p) => apply_ups(p, base),
        Patch::Bps(p) => apply_bps(p, base),
    }
}

// ---------------------------------------------------------------------
// Laws
// ---------------------------------------------------------------------

/// The IPS magic `PATCH`.
pub open spec fn ips_magic() -> Seq<u8> {
    seq![0x50u8, 0x41u8, 0x54u8, 0x43u8, 0x48u8]
}

/// The IPS terminator `EOF`.
pub open spec fn ips_eof() -> Seq<u8> {
    seq![0x45u8, 0x4Fu8, 0x46u8]
}

/// An IPS data record writing `data` at `offset`.
pub open spec fn ips_record(offset: int, data: Seq<u8>) -> Seq<u8> {
    seq![
        (offset / 65536) as u8,
        ((offset / 256) % 256) as u8,
        (offset % 256) as u8,
        (data.len() / 256) as u8,
        (data.len() % 256) as u8,
    ] + data
}

/// An IPS patch with no records leaves every image unchanged.
pub proof fn law_ips_without_records_is_identity(base: Seq<u8>)
    ensures
        ips_applied(ips_magic() + ips_eof(), base) == Applied::Done(base),
{
    let p = ips_magic() + ips_eof();
    assert(p[5] == 0x45u8 && p[6] == 0x4Fu8 && p[7] == 0x46u8);
    assert(magic_patch(p));
}

/// An IPS patch with one data record writes the record's bytes at its
/// offset, growing the image with zeros when the record reaches past its
/// end, and leaves every other byte as it was.
pub proof fn law_ips_one_record_writes_its_bytes(base: Seq<u8>, offset: int, data: Seq<u8>)
    requires
        0 <= offset < 0x100_0000,
        0 < data.len() < 0x1_0000,
        offset != 0x454F46,
    ensures
        ips_applied(ips_magic() + ips_record(offset, data) + ips_eof(), base) == Applied::Done(
            written(grown(base, offset + data.len()), offset, data),
        ),
{
    let r = ips_record(offset, data);
    let p = ips_magic() + r + ips_eof();
    assert(magic_patch(p));
    let hi = offset / 65536;
    let mid = (offset / 256) % 256;
    let lo = offset % 256;
    assert(hi * 65536 + mid * 256 + lo == offset) by (nonlinear_arith)
        requires
            hi == offset / 65536,
            mid == (offset / 256) % 256,
            lo == offset % 256,
            0 <= offset,
    ;
    assert(0 <= hi < 256 && 0 <= mid < 256 && 0 <= lo < 256) by (nonlinear_arith)
        requires
            hi == offset / 65536,
            mid == (offset / 256) % 256,
            lo == offset % 256,
            0 <= offset < 0x100_0000,
    ;
    let n = data.len() as int;
    assert((n / 256) * 256 + n % 256 == n && 0 <= n / 256 < 256 && 0 <= n % 256 < 256) by (nonlinear_arith)
        requires
            0 < n < 0x1_0000,
    ;
    assert(p.subrange(5, 8) =~= seq![hi as u8, mid as u8, lo as u8]);
    assert(p.subrange(8, 10) =~= seq![(n / 256) as u8, (n % 256) as u8]);
    assert(be24(p.subrange(5, 8)) == offset);
    assert(be16(p.subrange(8, 10)) == n);
    assert(!is_eof_marker(p, 5)) by {
        if is_eof_marker(p, 5) {
            assert(hi == 0x45 && mid == 0x4F && lo == 0x46);
        }
    }
    assert(p.subrange(10, 10 + n) =~= data);
    let after = written(grown(base, offset + n), offset, data);
    assert(is_eof_marker(p, 10 + n));
    assert(ips_run(p, 10 + n, after) == Applied::Done(after));
}

/// The BPS offset encoding: an even raw value `2m` means `+m`, an odd
/// one `2m + 1` means `-m`.
pub proof fn law_signed_offset_encoding(m: u64)
    requires
        m < 0x8000_0000_0000_0000,
    ensures
        signed((2 * m) as u64) == m as int,
        signed((2 * m + 1) as u64) == -(m as int),
{
}

} // verus!
