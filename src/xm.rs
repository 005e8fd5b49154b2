//! FastTracker 2 XM: a header, variable-length patterns, then instruments, each with its
//! sample headers followed by their delta-encoded PCM.
use vstd::prelude::*;

use crate::bytes::{
    field, has_tag, in_bounds, le16, le32, read_string, read_u16_le, read_u32_le, text_at, text_field,
    u32_le_at,
};
use crate::error::{Error, ErrorKind};
use crate::module::{
    Encoding, Format, ModuleView, SampleView, TrackerModule, TrackerSample, check_outcome,
    export_pcm, load_outcome, module_fits, sample_fits, whole_len, MAX_FILE_SIZE,
};
use crate::pcm::{
    bytes_as_ints, delta, ints_as_bytes, lemma_delta_u16_round_trip, lemma_delta_u8_round_trip,
    signed_pcm, words_as_bytes,
};
use crate::pitch::{xm_rate, xm_sample_rate};

verus! {

/// Size of one sample header.
pub const XM_SMP_SIZE: u64 = 40;

/// Instrument header size used where the stated one is zero or larger than this.
pub const XM_INS_SIZE: u64 = 263;

/// Oldest supported version.
pub const XM_MIN_VER: u16 = 0x0104;

/// The FastTracker 2 XM format.
pub struct XMFile;

/// `Extended Module: `
pub open spec fn xm_header_id() -> Seq<u8> {
    seq![
        0x45u8, 0x78, 0x74, 0x65, 0x6e, 0x64, 0x65, 0x64, 0x20, 0x4d, 0x6f, 0x64, 0x75, 0x6c, 0x65,
        0x3a, 0x20,
    ]
}

/// `MOD Plugin packed   `
pub open spec fn mod_plugin_packed() -> Seq<u8> {
    seq![
        0x4du8, 0x4f, 0x44, 0x20, 0x50, 0x6c, 0x75, 0x67, 0x69, 0x6e, 0x20, 0x70, 0x61, 0x63, 0x6b,
        0x65, 0x64, 0x20, 0x20, 0x20,
    ]
}

fn header_id() -> (r: [u8; 17])
    ensures
        r@ == xm_header_id(),
{
    let r: [u8; 17] = [
        0x45, 0x78, 0x74, 0x65, 0x6e, 0x64, 0x65, 0x64, 0x20, 0x4d, 0x6f, 0x64, 0x75, 0x6c, 0x65,
        0x3a, 0x20,
    ];
    assert(r@ =~= xm_header_id());
    r
}

fn plugin_packed() -> (r: [u8; 20])
    ensures
        r@ == mod_plugin_packed(),
{
    let r: [u8; 20] = [
        0x4d, 0x4f, 0x44, 0x20, 0x50, 0x6c, 0x75, 0x67, 0x69, 0x6e, 0x20, 0x70, 0x61, 0x63, 0x6b,
        0x65, 0x64, 0x20, 0x20, 0x20,
    ];
    assert(r@ =~= mod_plugin_packed());
    r
}

/// The message of the error validation gives for `buf` (see [`xm_check`]).
pub open spec fn xm_check_message(buf: Seq<u8>) -> Seq<char> {
    if buf.len() < 60 || field(buf, 0, 17) != xm_header_id() || buf[0x25] != 0x1a {
        "Not a valid XM file"@
    } else if field(buf, 0x26, 20) == mod_plugin_packed() {
        "Unsupported XM: Uses 'MOD plugin packed'"@
    } else {
        "Unsupported XM: Version below 0104"@
    }
}

/// What validation says of `buf`: the text tag, the magic byte and the version.
pub open spec fn xm_check(buf: Seq<u8>) -> Result<(), ErrorKind> {
    if buf.len() < 60 || field(buf, 0, 17) != xm_header_id() || buf[0x25] != 0x1a {
        Err(ErrorKind::InvalidFile)
    } else if field(buf, 0x26, 20) == mod_plugin_packed() {
        Err(ErrorKind::UnsupportedFormat)
    } else if le16(buf, 0x3a) < XM_MIN_VER {
        Err(ErrorKind::UnsupportedFormat)
    } else {
        Ok(())
    }
}

/// The offset after `n` pattern headers starting at `off`, each adding its header length
/// and its packed data size; `None` where a header runs past the end.
pub open spec fn xm_skip(buf: Seq<u8>, off: int, n: nat) -> Option<int>
    decreases n,
{
    if n == 0 {
        Some(off)
    } else if !in_bounds(buf, off, 9) {
        None
    } else {
        xm_skip(buf, off + le32(buf, off) + le16(buf, off + 7), (n - 1) as nat)
    }
}

/// A signed byte's value.
pub open spec fn signed(b: u8) -> int {
    if b < 128 {
        b as int
    } else {
        b - 256
    }
}

/// The descriptor of the sample header at `h` whose PCM of `len` bytes lies at `ptr`.
pub open spec fn xm_descriptor(buf: Seq<u8>, h: int, ptr: int, len: int) -> SampleView {
    let sixteen = buf[h + 0x0e] & 0x10u8 != 0;
    SampleView {
        name: text_at(buf, h + 0x12, 22),
        ptr,
        len,
        bits: if sixteen { 16 } else { 8 },
        rate: xm_rate(signed(buf[h + 0x10]), signed(buf[h + 0x0d])) as u32,
        stereo: false,
        encoding: if sixteen { Encoding::Delta16 } else { Encoding::Delta8 },
    }
}

/// The non-empty descriptors of the sample headers at `h` onward, `left` of them at most,
/// with the PCM of the first at `data + cum`; and where the next instrument starts. A header
/// or PCM that runs past the end stops the walk.
pub open spec fn xm_sample_walk(buf: Seq<u8>, h: int, data: int, cum: int, left: nat) -> (Seq<SampleView>, int)
    decreases left,
{
    if left == 0 || !in_bounds(buf, h, 40) || data + cum + le32(buf, h) > buf.len() {
        (Seq::empty(), h + cum)
    } else {
        let len = le32(buf, h);
        let d = xm_descriptor(buf, h, data + cum, len);
        let (rest, end) = xm_sample_walk(buf, h + 40, data, cum + len, (left - 1) as nat);
        (if d.len > 0 { seq![d] + rest } else { rest }, end)
    }
}

/// The stated instrument header size, or the default where it is zero or too large.
pub open spec fn ins_size(raw: int) -> int {
    if raw == 0 || raw > XM_INS_SIZE {
        XM_INS_SIZE as int
    } else {
        raw
    }
}

/// The descriptors of `n` instruments starting at `off`; `None` where an instrument header
/// runs past the end.
pub open spec fn xm_instruments(buf: Seq<u8>, off: int, n: nat) -> Option<Seq<SampleView>>
    decreases n,
{
    if n == 0 {
        Some(Seq::empty())
    } else if !in_bounds(buf, off, 0x1d) {
        None
    } else {
        let start = off + ins_size(le32(buf, off));
        let count = le16(buf, off + 0x1b);
        let (smps, end) = xm_sample_walk(buf, start, start + 40 * count, 0, count as nat);
        match xm_instruments(buf, end, (n - 1) as nat) {
            None => None,
            Some(rest) => Some(smps + rest),
        }
    }
}

/// What loading `buf` as XM gives.
pub open spec fn xm_load(buf: Seq<u8>) -> Result<ModuleView, ErrorKind> {
    if buf.len() > MAX_FILE_SIZE {
        Err(ErrorKind::Io)
    } else if xm_check(buf) is Err {
        Err(xm_check(buf)->Err_0)
    } else if buf.len() < 0x4a {
        Err(ErrorKind::TruncatedFile)
    } else if le16(buf, 0x46) > 256 {
        Err(ErrorKind::InvalidFile)
    } else {
        match xm_skip(buf, 60 + le32(buf, 0x3c), le16(buf, 0x46) as nat) {
            None => Err(ErrorKind::TruncatedFile),
            Some(ins) => if le16(buf, 0x48) > 128 {
                Err(ErrorKind::InvalidFile)
            } else {
                match xm_instruments(buf, ins, le16(buf, 0x48) as nat) {
                    None => Err(ErrorKind::TruncatedFile),
                    Some(samples) => Ok(
                        ModuleView { name: text_at(buf, 0x11, 20), format: Format::XM, samples, buf },
                    ),
                }
            },
        }
    }
}

proof fn lemma_xm_skip_nonneg(buf: Seq<u8>, off: int, n: nat)
    requires
        off >= 0,
    ensures
        xm_skip(buf, off, n) is Some ==> xm_skip(buf, off, n)->Some_0 >= 0,
    decreases n,
{
    if n > 0 && in_bounds(buf, off, 9) {
        lemma_xm_skip_nonneg(buf, off + le32(buf, off) + le16(buf, off + 7), (n - 1) as nat);
    }
}

/// How XM stores every sample: delta-encoded mono PCM whose differences have the sample's
/// width.
pub open spec fn xm_sample_kind(s: SampleView) -> bool {
    &&& !s.stereo
    &&& s.bits == 16 ==> s.encoding == Encoding::Delta16
    &&& s.bits == 8 ==> s.encoding == Encoding::Delta8
}

proof fn lemma_xm_walk_fits(buf: Seq<u8>, h: int, data: int, cum: int, left: nat)
    requires
        h >= 0,
        data >= 0,
        cum >= 0,
    ensures
        xm_sample_walk(buf, h, data, cum, left).1 >= 0,
        forall|k: int|
            0 <= k < xm_sample_walk(buf, h, data, cum, left).0.len() ==> sample_fits(
                #[trigger] xm_sample_walk(buf, h, data, cum, left).0[k],
                buf.len() as int,
            ) && xm_sample_kind(xm_sample_walk(buf, h, data, cum, left).0[k]),
    decreases left,
{
    if !(left == 0 || !in_bounds(buf, h, 40) || data + cum + le32(buf, h) > buf.len()) {
        let len = le32(buf, h);
        let d = xm_descriptor(buf, h, data + cum, len);
        lemma_xm_walk_fits(buf, h + 40, data, cum + len, (left - 1) as nat);
        let rest = xm_sample_walk(buf, h + 40, data, cum + len, (left - 1) as nat).0;
        if d.len > 0 {
            assert(sample_fits(d, buf.len() as int));
            assert forall|k: int| 0 <= k < rest.len() + 1 implies sample_fits(
                #[trigger] (seq![d] + rest)[k],
                buf.len() as int,
            ) && xm_sample_kind((seq![d] + rest)[k]) by {
                if k > 0 {
                    assert((seq![d] + rest)[k] == rest[k - 1]);
                }
            }
        }
    }
}

proof fn lemma_xm_instruments_fit(buf: Seq<u8>, off: int, n: nat)
    requires
        off >= 0,
    ensures
        xm_instruments(buf, off, n) is Some ==> forall|k: int|
            0 <= k < xm_instruments(buf, off, n)->Some_0.len() ==> sample_fits(
                #[trigger] xm_instruments(buf, off, n)->Some_0[k],
                buf.len() as int,
            ) && xm_sample_kind(xm_instruments(buf, off, n)->Some_0[k]),
    decreases n,
{
    if n > 0 && in_bounds(buf, off, 0x1d) {
        let start = off + ins_size(le32(buf, off));
        let count = le16(buf, off + 0x1b);
        lemma_xm_walk_fits(buf, start, start + 40 * count, 0, count as nat);
        let (smps, end) = xm_sample_walk(buf, start, start + 40 * count, 0, count as nat);
        lemma_xm_instruments_fit(buf, end, (n - 1) as nat);
        if xm_instruments(buf, end, (n - 1) as nat) is Some {
            let rest = xm_instruments(buf, end, (n - 1) as nat)->Some_0;
            assert forall|k: int| 0 <= k < smps.len() + rest.len() implies sample_fits(
                #[trigger] (smps + rest)[k],
                buf.len() as int,
            ) && xm_sample_kind((smps + rest)[k]) by {
                if k >= smps.len() {
                    assert((smps + rest)[k] == rest[k - smps.len()]);
                }
            }
        }
    }
}

/// Every module XM loading gives lists only non-empty samples that lie inside its buffer,
/// all of them delta-encoded mono PCM: 8-bit ones as 8-bit differences, 16-bit ones as 16-bit
/// differences.
pub proof fn lemma_xm_load_fits(buf: Seq<u8>)
    ensures
        xm_load(buf) is Ok ==> module_fits(xm_load(buf)->Ok_0),
        xm_load(buf) is Ok ==> forall|k: int|
            0 <= k < xm_load(buf)->Ok_0.samples.len() ==> xm_sample_kind(
                #[trigger] xm_load(buf)->Ok_0.samples[k],
            ),
{
    if xm_load(buf) is Ok {
        lemma_xm_skip_nonneg(buf, 60 + le32(buf, 0x3c), le16(buf, 0x46) as nat);
        let ins = xm_skip(buf, 60 + le32(buf, 0x3c), le16(buf, 0x46) as nat)->Some_0;
        lemma_xm_instruments_fit(buf, ins, le16(buf, 0x48) as nat);
    }
}

/// Exporting an 8-bit sample of a loaded XM module whose stored bytes are the delta encoding
/// of `x` gives `x` back, wraparound included, converted to unsigned PCM.
pub proof fn lemma_xm_export_u8(buf: Seq<u8>, k: int, x: Seq<u8>)
    requires
        xm_load(buf) is Ok,
        0 <= k < xm_load(buf)->Ok_0.samples.len(),
        xm_load(buf)->Ok_0.samples[k].bits == 8,
        buf.subrange(
            xm_load(buf)->Ok_0.samples[k].ptr,
            xm_load(buf)->Ok_0.samples[k].ptr + xm_load(buf)->Ok_0.samples[k].len,
        ) == ints_as_bytes(delta(bytes_as_ints(x), 256)),
    ensures
        export_pcm(buf, xm_load(buf)->Ok_0.samples[k]) == signed_pcm(x, 8),
{
    let s = xm_load(buf)->Ok_0.samples[k];
    lemma_xm_load_fits(buf);
    assert(xm_sample_kind(s));
    assert(whole_len(s) == s.len);
    lemma_delta_u8_round_trip(x);
}

/// Exporting a 16-bit sample of a loaded XM module whose stored bytes are the little-endian
/// delta encoding of the words `w` gives the bytes of `w` back, wraparound included.
pub proof fn lemma_xm_export_u16(buf: Seq<u8>, k: int, w: Seq<int>)
    requires
        xm_load(buf) is Ok,
        0 <= k < xm_load(buf)->Ok_0.samples.len(),
        xm_load(buf)->Ok_0.samples[k].bits == 16,
        forall|i: int| 0 <= i < w.len() ==> 0 <= #[trigger] w[i] < 65536,
        buf.subrange(
            xm_load(buf)->Ok_0.samples[k].ptr,
            xm_load(buf)->Ok_0.samples[k].ptr + xm_load(buf)->Ok_0.samples[k].len,
        ) == words_as_bytes(delta(w, 65536)),
    ensures
        export_pcm(buf, xm_load(buf)->Ok_0.samples[k]) == words_as_bytes(w),
{
    let s = xm_load(buf)->Ok_0.samples[k];
    lemma_xm_load_fits(buf);
    assert(xm_sample_kind(s));
    assert(sample_fits(s, xm_load(buf)->Ok_0.buf.len() as int));
    assert(buf.subrange(s.ptr, s.ptr + s.len).len() == s.len);
    assert(s.len == 2 * w.len());
    assert(s.len % 2 == 0);
    assert(whole_len(s) == s.len);
    lemma_delta_u16_round_trip(w);
}

impl XMFile {
    /// Checks the `Extended Module: ` tag, the magic byte and the version, and refuses files
    /// packed by the MOD plugin.
    pub fn validate(buf: &[u8]) -> (r: Result<(), Error>)
        ensures
            check_outcome(r, xm_check(buf@)),
            r matches Err(e) ==> e.message() == xm_check_message(buf@),
    {
        let id = header_id();
        if buf.len() < 60 || !has_tag(buf, 0, id.as_slice()) || buf[0x25] != 0x1a {
            return Err(Error::invalid("Not a valid XM file"));
        }
        let packed = plugin_packed();
        if has_tag(buf, 0x26, packed.as_slice()) {
            return Err(Error::unsupported("Unsupported XM: Uses 'MOD plugin packed'"));
        }
        let version = match read_u16_le(buf, 0x3a) {
            Ok(v) => v,
            Err(e) => return Err(e),
        };
        if version < XM_MIN_VER {
            return Err(Error::unsupported("Unsupported XM: Version below 0104"));
        }
        Ok(())
    }

    /// Parses `buf` as XM. Within an instrument, a sample whose header or PCM runs past the
    /// end of the buffer ends the reading of that instrument's samples; empty samples are not
    /// listed.
    pub fn load_from_buf(buf: Vec<u8>) -> (r: Result<TrackerModule, Error>)
        ensures
            load_outcome(r, xm_load(buf@)),
    {
        if buf.len() > MAX_FILE_SIZE {
            return Err(Error::io("File is larger than 64 MB"));
        }
        match Self::validate(buf.as_slice()) {
            Ok(()) => {},
            Err(e) => return Err(e),
        }
        let module_name = match read_string(buf.as_slice(), 0x11, 20) {
            Ok(s) => s,
            Err(e) => return Err(e),
        };
        let header_size = match read_u32_le(buf.as_slice(), 0x3c) {
            Ok(v) => v,
            Err(e) => return Err(e),
        };
        let patnum = match read_u16_le(buf.as_slice(), 0x46) {
            Ok(v) => v,
            Err(e) => return Err(e),
        };
        let insnum = match read_u16_le(buf.as_slice(), 0x48) {
            Ok(v) => v,
            Err(e) => return Err(e),
        };
        let ins_offset = match skip_pat_header(buf.as_slice(), patnum as usize, header_size) {
            Ok(o) => o,
            Err(e) => return Err(e),
        };
        let samples = match build_samples(buf.as_slice(), ins_offset, insnum as usize) {
            Ok(s) => s,
            Err(e) => return Err(e),
        };
        Ok(TrackerModule::new(module_name, Format::XM, samples, buf))
    }
}

/// Skips the pattern headers to reach the instrument headers. Pattern headers have no fixed
/// size: each adds its own length and the size of its packed data.
fn skip_pat_header(buf: &[u8], patnum: usize, hdr_size: u32) -> (r: Result<u64, Error>)
    requires
        buf@.len() <= MAX_FILE_SIZE,
    ensures
        match r {
            Ok(o) => patnum <= 256 && xm_skip(buf@, 60 + hdr_size, patnum as nat) == Some(o as int),
            Err(e) => if patnum > 256 {
                e.kind() == ErrorKind::InvalidFile
            } else {
                xm_skip(buf@, 60 + hdr_size, patnum as nat) is None && e.kind()
                    == ErrorKind::TruncatedFile
            },
        },
{
    if patnum > 256 {
        return Err(Error::invalid("Invalid XM: Contains more than 256 patterns"));
    }
    let mut offset: u64 = 60 + hdr_size as u64;
    let mut i: usize = 0;
    while i < patnum
        invariant
            i <= patnum <= 256,
            buf@.len() <= MAX_FILE_SIZE,
            offset <= MAX_FILE_SIZE + 0x1_0001_0000,
            xm_skip(buf@, offset as int, (patnum - i) as nat) == xm_skip(
                buf@,
                60 + hdr_size,
                patnum as nat,
            ),
        decreases patnum - i,
    {
        if offset > buf.len() as u64 {
            return Err(Error::TruncatedFile);
        }
        let pat_hdr_len = match read_u32_le(buf, offset as usize) {
            Ok(v) => v,
            Err(e) => return Err(e),
        };
        let pat_data_size = match read_u16_le(buf, offset as usize + 7) {
            Ok(v) => v,
            Err(e) => return Err(e),
        };
        offset = offset + pat_hdr_len as u64 + pat_data_size as u64;
        i = i + 1;
    }
    Ok(offset)
}

/// Reads the sample headers of every instrument.
fn build_samples(buf: &[u8], ins_offset: u64, ins_num: usize) -> (r: Result<Vec<TrackerSample>, Error>)
    requires
        buf@.len() <= MAX_FILE_SIZE,
    ensures
        match r {
            Ok(v) => ins_num <= 128 && xm_instruments(buf@, ins_offset as int, ins_num as nat)
                == Some(v@.map_values(|s: TrackerSample| s@)) && forall|k: int|
                0 <= k < v@.len() ==> sample_fits(#[trigger] v@[k]@, buf@.len() as int),
            Err(e) => if ins_num > 128 {
                e.kind() == ErrorKind::InvalidFile
            } else {
                xm_instruments(buf@, ins_offset as int, ins_num as nat) is None && e.kind()
                    == ErrorKind::TruncatedFile
            },
        },
{
    if ins_num > 128 {
        return Err(Error::invalid("Invalid XM: Contains more than 128 instruments"));
    }
    let mut samples: Vec<TrackerSample> = Vec::new();
    let mut offset: u64 = ins_offset;
    let mut i: usize = 0;
    while i < ins_num
        invariant
            i <= ins_num <= 128,
            buf@.len() <= MAX_FILE_SIZE,
            forall|k: int| 0 <= k < samples@.len() ==> sample_fits(#[trigger] samples@[k]@, buf@.len() as int),
            match xm_instruments(buf@, offset as int, (ins_num - i) as nat) {
                None => xm_instruments(buf@, ins_offset as int, ins_num as nat) is None,
                Some(rest) => xm_instruments(buf@, ins_offset as int, ins_num as nat) == Some(
                    samples@.map_values(|s: TrackerSample| s@) + rest,
                ),
            },
        decreases ins_num - i,
    {
        if offset > buf.len() as u64 || buf.len() as u64 - offset < 0x1d {
            return Err(Error::TruncatedFile);
        }
        let raw_size = match read_u32_le(buf, offset as usize) {
            Ok(v) => v,
            Err(e) => return Err(e),
        };
        let smp_num = match read_u16_le(buf, offset as usize + 0x1b) {
            Ok(v) => v,
            Err(e) => return Err(e),
        };
        let ins_hdr_size: u64 = if raw_size == 0 || raw_size as u64 > XM_INS_SIZE {
            XM_INS_SIZE
        } else {
            raw_size as u64
        };
        let start: u64 = offset + ins_hdr_size;
        let ghost before = samples@.map_values(|s: TrackerSample| s@);
        let end = walk_samples(buf, start, smp_num, &mut samples);
        proof {
            let (smps, e) = xm_sample_walk(buf@, start as int, start + 40 * smp_num, 0, smp_num as nat);
            assert(end == e);
            assert(samples@.map_values(|s: TrackerSample| s@) == before + smps);
            match xm_instruments(buf@, end as int, (ins_num - i - 1) as nat) {
                None => {},
                Some(rest) => {
                    assert(before + smps + rest =~= before + (smps + rest));
                },
            }
        }
        offset = end;
        i = i + 1;
    }
    assert(samples@.map_values(|s: TrackerSample| s@) + Seq::<SampleView>::empty() =~= samples@.map_values(|s: TrackerSample| s@));
    Ok(samples)
}

/// Walks the `count` sample headers at `start` (see [`xm_sample_walk`]), appending the
/// non-empty descriptors to `out`; returns where the next instrument starts.
fn walk_samples(buf: &[u8], start: u64, count: u16, out: &mut Vec<TrackerSample>) -> (end: u64)
    requires
        buf@.len() <= MAX_FILE_SIZE,
        start <= MAX_FILE_SIZE + XM_INS_SIZE,
        forall|k: int| 0 <= k < old(out)@.len() ==> sample_fits(#[trigger] old(out)@[k]@, buf@.len() as int),
    ensures
        ({
            let (smps, e) = xm_sample_walk(buf@, start as int, start + 40 * count, 0, count as nat);
            &&& end == e
            &&& final(out)@.map_values(|s: TrackerSample| s@) == old(out)@.map_values(|s: TrackerSample| s@) + smps
        }),
        end <= MAX_FILE_SIZE + 0x1_0000_0000,
        forall|k: int| 0 <= k < final(out)@.len() ==> sample_fits(#[trigger] final(out)@[k]@, buf@.len() as int),
{
    let ghost base = old(out)@.map_values(|s: TrackerSample| s@);
    let ghost whole = xm_sample_walk(buf@, start as int, start + 40 * count, 0, count as nat);
    let data: u64 = start + XM_SMP_SIZE * count as u64;
    let mut h: u64 = start;
    let mut cum: u64 = 0;
    let mut j: u16 = 0;
    while j < count
        invariant
            j <= count,
            buf@.len() <= MAX_FILE_SIZE,
            data == start + 40 * count,
            h == start + 40 * j,
            cum <= buf@.len(),
            start <= MAX_FILE_SIZE + XM_INS_SIZE,
            forall|k: int| 0 <= k < out@.len() ==> sample_fits(#[trigger] out@[k]@, buf@.len() as int),
            ({
                let (rest, e) = xm_sample_walk(buf@, h as int, data as int, cum as int, (count - j) as nat);
                &&& e == whole.1
                &&& out@.map_values(|s: TrackerSample| s@) + rest == base + whole.0
            }),
        ensures
            xm_sample_walk(buf@, h as int, data as int, cum as int, (count - j) as nat) == (
                Seq::<SampleView>::empty(),
                h + cum,
            ),
        decreases count - j,
    {
        if h > buf.len() as u64 || buf.len() as u64 - h < XM_SMP_SIZE {
            break;
        }
        let len = u32_le_at(buf, h as usize);
        if data + cum + len as u64 > buf.len() as u64 {
            break;
        }
        let hs = h as usize;
        let flags = buf[hs + 0x0e];
        let finetune = buf[hs + 0x0d];
        let notenum = buf[hs + 0x10];
        let sixteen = flags & 0x10u8 != 0;
        let bits: u8 = if sixteen {
            16
        } else {
            8
        };
        let smp_len: usize = len as usize;
        let ghost d = xm_descriptor(buf@, h as int, data + cum, len as int);
        let ghost (rest, e) = xm_sample_walk(buf@, h + 40, data as int, cum + len, (count - j - 1) as nat);
        if smp_len > 0 {
            let name = text_field(buf, hs + 0x12, 22);
            let rate = xm_sample_rate(as_signed(notenum), as_signed(finetune));
            let smp = TrackerSample {
                name,
                ptr: (data + cum) as usize,
                len: smp_len,
                bits,
                rate,
                stereo: false,
                encoding: if sixteen {
                    Encoding::Delta16
                } else {
                    Encoding::Delta8
                },
            };
            let ghost prev = out@.map_values(|s: TrackerSample| s@);
            out.push(smp);
            assert(smp@ == d);
            assert(sample_fits(smp@, buf@.len() as int));
            assert(out@.map_values(|s: TrackerSample| s@) =~= prev.push(d));
            assert(prev.push(d) + rest =~= prev + (seq![d] + rest));
        }
        cum = cum + len as u64;
        h = h + XM_SMP_SIZE;
        j = j + 1;
    }
    assert(out@.map_values(|s: TrackerSample| s@) + Seq::<SampleView>::empty() =~= out@.map_values(|s: TrackerSample| s@));
    h + cum
}

fn as_signed(b: u8) -> (r: i8)
    ensures
        r == signed(b),
{
    if b < 128 {
        b as i8
    } else {
        (b as i16 - 256) as i8
    }
}

} // verus!
