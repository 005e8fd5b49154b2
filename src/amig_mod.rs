//! ProTracker MOD: a 20-byte title, 15 or 31 sample headers of 30 bytes, a pattern table,
//! pattern data, then the sample PCM one sample after the other.
use vstd::prelude::*;

use crate::bytes::{be16, read_string, text_at, text_field, u16_be_at};
use crate::error::{Error, ErrorKind};
use crate::pcm::{lemma_to_signed_involution, signed_pcm};
use crate::module::{
    Encoding, Format, ModuleView, SampleView, TrackerModule, TrackerSample, check_outcome,
    clamp_len, clamped_len, export_pcm, lemma_clamped_len, load_outcome, module_fits, sample_fits,
    whole_len,
    MAX_FILE_SIZE,
};

verus! {

/// Where the first sample header starts, right after the title.
pub const MOD_SMP_START: usize = 0x14;

/// Size of one sample header.
pub const MOD_SMP_LEN: usize = 0x1e;

/// Where the pattern table starts in a 31-sample module.
pub const PAT_META: usize = 0x3b8;

/// Where the four-byte format tag of a 31-sample module lies.
pub const MOD_TAG: usize = 0x438;

/// Playback rate of MOD samples.
pub const MOD_RATE: u32 = 8363;

/// The ProTracker MOD format.
pub struct MODFile;

/// One sample header of a MOD file: the sample's name, its length in bytes as the header
/// states it, and where its PCM begins.
#[derive(Debug)]
pub struct MODSample {
    pub name: String,
    pub length: usize,
    pub index: usize,
}

pub struct ModSampleView {
    pub name: Seq<char>,
    pub length: int,
    pub index: int,
}

impl View for MODSample {
    type V = ModSampleView;

    open spec fn view(&self) -> ModSampleView {
        ModSampleView { name: self.name@, length: self.length as int, index: self.index as int }
    }
}

/// A byte that the sample-count heuristic takes for something other than tag text.
pub open spec fn odd_tag_byte(b: u8) -> bool {
    b <= 32 || b >= 126
}

/// The number of sample slots: 15 where the tag region holds a byte that is no printable
/// ASCII (Ultimate Soundtracker files have no tag there), else 31. This heuristic can
/// misjudge some files.
pub open spec fn mod_slots(buf: Seq<u8>) -> int {
    if exists|k: int| 0 <= k < 4 && #[trigger] odd_tag_byte(buf[MOD_TAG + k]) {
        15
    } else {
        31
    }
}

/// How many bytes a 15-sample layout lacks before the pattern table: 16 headers' worth.
pub open spec fn slot_shift(slots: int) -> int {
    if slots == 15 {
        480
    } else {
        0
    }
}

/// The largest of the `n` bytes at `o`, or 0 where `n` is 0.
pub open spec fn max_byte(s: Seq<u8>, o: int, n: int) -> int
    decreases n,
{
    if n <= 0 {
        0
    } else {
        let m = max_byte(s, o, n - 1);
        if m >= s[o + n - 1] {
            m
        } else {
            s[o + n - 1] as int
        }
    }
}

/// Where the pattern data is taken to begin: right after the pattern table, at the position
/// of the format tag (which a 15-slot layout lacks).
pub open spec fn patterns_start(slots: int) -> int {
    MOD_TAG - slot_shift(slots)
}

/// Where the PCM begins: after as many 1024-byte patterns as the largest pattern index in
/// the table, plus one.
pub open spec fn mod_pcm_start(buf: Seq<u8>) -> int {
    let slots = mod_slots(buf);
    patterns_start(slots) + (max_byte(buf, PAT_META - slot_shift(slots), 128) + 1) * 1024
}

/// The message of the error validation gives for `buf` (see [`mod_check`]).
pub open spec fn mod_check_message(buf: Seq<u8>) -> Seq<char> {
    if buf.len() < MOD_TAG + 4 {
        "Not a valid MOD file: too small"@
    } else {
        Seq::empty()
    }
}

/// What validation says of `buf`.
pub open spec fn mod_check(buf: Seq<u8>) -> Result<(), ErrorKind> {
    if buf.len() < MOD_TAG + 4 {
        Err(ErrorKind::InvalidFile)
    } else if mod_pcm_start(buf) > buf.len() {
        Err(ErrorKind::TruncatedFile)
    } else {
        Ok(())
    }
}

/// The headers of slots `i..slots` with a non-zero length, the PCM of the first of them
/// starting at `stream`.
pub open spec fn mod_headers(buf: Seq<u8>, slots: int, i: int, stream: int) -> Seq<ModSampleView>
    decreases slots - i,
{
    if i < 0 || i >= slots {
        Seq::empty()
    } else {
        let hdr = MOD_SMP_START + i * MOD_SMP_LEN;
        let len = 2 * be16(buf, hdr + 22);
        if len == 0 {
            mod_headers(buf, slots, i + 1, stream)
        } else {
            seq![ModSampleView { name: text_at(buf, hdr, 22), length: len, index: stream }]
                + mod_headers(buf, slots, i + 1, stream + len)
        }
    }
}

/// The descriptor of a header, its length cut to the buffer.
pub open spec fn mod_descriptor(h: ModSampleView, buf_len: int) -> SampleView {
    SampleView {
        name: h.name,
        ptr: h.index,
        len: clamped_len(h.index, h.length, buf_len, 1),
        bits: 8,
        rate: MOD_RATE,
        stereo: false,
        encoding: Encoding::Signed,
    }
}

/// The descriptors of the headers whose PCM is not cut away entirely.
pub open spec fn mod_descriptors(hs: Seq<ModSampleView>, buf_len: int) -> Seq<SampleView>
    decreases hs.len(),
{
    if hs.len() == 0 {
        Seq::empty()
    } else {
        let rest = mod_descriptors(hs.drop_last(), buf_len);
        let d = mod_descriptor(hs.last(), buf_len);
        if d.len > 0 {
            rest.push(d)
        } else {
            rest
        }
    }
}

/// What loading `buf` as MOD gives.
pub open spec fn mod_load(buf: Seq<u8>) -> Result<ModuleView, ErrorKind> {
    if buf.len() > MAX_FILE_SIZE {
        Err(ErrorKind::Io)
    } else {
        match mod_check(buf) {
            Err(k) => Err(k),
            Ok(_) => Ok(
                ModuleView {
                    name: text_at(buf, 0, 20),
                    format: Format::MOD,
                    samples: mod_descriptors(
                        mod_headers(buf, mod_slots(buf), 0, mod_pcm_start(buf)),
                        buf.len() as int,
                    ),
                    buf,
                },
            ),
        }
    }
}

proof fn lemma_mod_headers_in_order(buf: Seq<u8>, slots: int, i: int, stream: int)
    requires
        stream >= 0,
    ensures
        forall|k: int|
            0 <= k < mod_headers(buf, slots, i, stream).len() ==> #[trigger] mod_headers(
                buf,
                slots,
                i,
                stream,
            )[k].index >= 0 && mod_headers(buf, slots, i, stream)[k].length >= 0,
    decreases slots - i,
{
    if 0 <= i < slots {
        let hdr = MOD_SMP_START + i * MOD_SMP_LEN;
        let len = 2 * be16(buf, hdr + 22);
        if len == 0 {
            lemma_mod_headers_in_order(buf, slots, i + 1, stream);
        } else {
            lemma_mod_headers_in_order(buf, slots, i + 1, stream + len);
            let rest = mod_headers(buf, slots, i + 1, stream + len);
            let x = ModSampleView { name: text_at(buf, hdr, 22), length: len, index: stream };
            assert(mod_headers(buf, slots, i, stream) == seq![x] + rest);
            assert forall|k: int| 0 <= k < rest.len() + 1 implies #[trigger] (seq![x] + rest)[k].index
                >= 0 && (seq![x] + rest)[k].length >= 0 by {
                if k > 0 {
                    assert((seq![x] + rest)[k] == rest[k - 1]);
                }
            }
        }
    }
}

/// How MOD stores every sample: signed 8-bit mono PCM played at the MOD rate.
pub open spec fn mod_sample_kind(s: SampleView) -> bool {
    s.bits == 8 && s.encoding == Encoding::Signed && s.rate == MOD_RATE && !s.stereo
}

proof fn lemma_mod_descriptors_fit(hs: Seq<ModSampleView>, buf_len: int)
    requires
        forall|k: int| 0 <= k < hs.len() ==> #[trigger] hs[k].index >= 0 && hs[k].length >= 0,
    ensures
        forall|k: int|
            0 <= k < mod_descriptors(hs, buf_len).len() ==> sample_fits(
                #[trigger] mod_descriptors(hs, buf_len)[k],
                buf_len,
            ) && mod_sample_kind(mod_descriptors(hs, buf_len)[k]),
    decreases hs.len(),
{
    if hs.len() > 0 {
        let init = hs.drop_last();
        assert forall|k: int| 0 <= k < init.len() implies #[trigger] init[k].index >= 0
            && init[k].length >= 0 by {
            assert(init[k] == hs[k]);
        }
        lemma_mod_descriptors_fit(init, buf_len);
        let h = hs[hs.len() - 1];
        lemma_clamped_len(h.index, h.length, buf_len, 1);
        let rest = mod_descriptors(init, buf_len);
        let d = mod_descriptor(h, buf_len);
        if d.len > 0 {
            assert forall|k: int| 0 <= k < rest.len() + 1 implies sample_fits(
                #[trigger] rest.push(d)[k],
                buf_len,
            ) && mod_sample_kind(rest.push(d)[k]) by {
                if k < rest.len() {
                    assert(rest.push(d)[k] == rest[k]);
                }
            }
        }
    }
}

/// Every module MOD loading gives lists only non-empty samples that lie inside its buffer,
/// all of them signed 8-bit mono PCM at the MOD rate.
pub proof fn lemma_mod_load_fits(buf: Seq<u8>)
    ensures
        mod_load(buf) is Ok ==> module_fits(mod_load(buf)->Ok_0),
        mod_load(buf) is Ok ==> forall|k: int|
            0 <= k < mod_load(buf)->Ok_0.samples.len() ==> mod_sample_kind(
                #[trigger] mod_load(buf)->Ok_0.samples[k],
            ),
{
    if mod_load(buf) is Ok {
        let start = mod_pcm_start(buf);
        assert(start >= 0);
        lemma_mod_headers_in_order(buf, mod_slots(buf), 0, start);
        lemma_mod_descriptors_fit(mod_headers(buf, mod_slots(buf), 0, start), buf.len() as int);
    }
}

/// Exporting a sample of a loaded MOD module flips the top bit of each of its bytes, so
/// flipping the exported PCM again gives the stored bytes back.
pub proof fn lemma_mod_export_flips(buf: Seq<u8>, k: int)
    requires
        mod_load(buf) is Ok,
        0 <= k < mod_load(buf)->Ok_0.samples.len(),
    ensures
        export_pcm(buf, mod_load(buf)->Ok_0.samples[k]) == signed_pcm(
            buf.subrange(
                mod_load(buf)->Ok_0.samples[k].ptr,
                mod_load(buf)->Ok_0.samples[k].ptr + mod_load(buf)->Ok_0.samples[k].len,
            ),
            8,
        ),
        signed_pcm(export_pcm(buf, mod_load(buf)->Ok_0.samples[k]), 8) == buf.subrange(
            mod_load(buf)->Ok_0.samples[k].ptr,
            mod_load(buf)->Ok_0.samples[k].ptr + mod_load(buf)->Ok_0.samples[k].len,
        ),
{
    let s = mod_load(buf)->Ok_0.samples[k];
    lemma_mod_load_fits(buf);
    assert(mod_sample_kind(s));
    assert(whole_len(s) == s.len);
    lemma_to_signed_involution(buf.subrange(s.ptr, s.ptr + s.len));
}

impl MODFile {
    /// The number of sample slots the file's layout has (see [`mod_slots`]).
    pub fn sample_slots(buf: &[u8]) -> (r: Result<u8, Error>)
        ensures
            match r {
                Ok(n) => buf@.len() >= MOD_TAG + 4 && n == mod_slots(buf@),
                Err(e) => buf@.len() < MOD_TAG + 4 && e.kind() == ErrorKind::InvalidFile
                    && e.message() == mod_check_message(buf@),
            },
    {
        if buf.len() < MOD_TAG + 4 {
            return Err(Error::invalid("Not a valid MOD file: too small"));
        }
        let mut k: usize = 0;
        while k < 4
            invariant
                k <= 4,
                buf@.len() >= MOD_TAG + 4,
                forall|j: int| 0 <= j < k ==> !odd_tag_byte(#[trigger] buf@[MOD_TAG + j]),
            decreases 4 - k,
        {
            let b = buf[MOD_TAG + k];
            if b <= 32 || b >= 126 {
                assert(odd_tag_byte(buf@[MOD_TAG + k]));
                return Ok(15);
            }
            k = k + 1;
        }
        Ok(31)
    }

    fn pcm_start(buf: &[u8], slots: u8) -> (r: usize)
        requires
            buf@.len() >= MOD_TAG + 4,
            slots == mod_slots(buf@),
        ensures
            r == mod_pcm_start(buf@),
    {
        let shift: usize = if slots == 15 {
            480
        } else {
            0
        };
        let table: usize = PAT_META - shift;
        let blen: usize = buf.len();
        let mut largest: u8 = 0;
        let mut k: usize = 0;
        while k < 128
            invariant
                k <= 128,
                blen == buf@.len(),
                table + 128 <= buf@.len(),
                largest == max_byte(buf@, table as int, k as int),
            decreases 128 - k,
        {
            if buf[table + k] > largest {
                largest = buf[table + k];
            }
            k = k + 1;
        }
        let patterns: usize = MOD_TAG - shift;
        patterns + (largest as usize + 1) * 1024
    }

    /// Checks that `buf` is large enough for a MOD header and holds all the pattern data its
    /// pattern table calls for.
    pub fn validate(buf: &[u8]) -> (r: Result<(), Error>)
        ensures
            check_outcome(r, mod_check(buf@)),
            r matches Err(e) ==> e.message() == mod_check_message(buf@),
    {
        let slots = match Self::sample_slots(buf) {
            Ok(n) => n,
            Err(e) => return Err(e),
        };
        if Self::pcm_start(buf, slots) > buf.len() {
            return Err(Error::TruncatedFile);
        }
        Ok(())
    }

    /// Parses `buf` as MOD. Sample lengths that run past the end of the buffer are cut to it;
    /// samples left empty are not listed.
    pub fn load_from_buf(buf: Vec<u8>) -> (r: Result<TrackerModule, Error>)
        ensures
            load_outcome(r, mod_load(buf@)),
    {
        if buf.len() > MAX_FILE_SIZE {
            return Err(Error::io("File is larger than 64 MB"));
        }
        match Self::validate(buf.as_slice()) {
            Ok(()) => {},
            Err(e) => return Err(e),
        }
        let slots = match Self::sample_slots(buf.as_slice()) {
            Ok(n) => n,
            Err(e) => return Err(e),
        };
        let start = Self::pcm_start(buf.as_slice(), slots);
        let title = match read_string(buf.as_slice(), 0, 20) {
            Ok(t) => t,
            Err(e) => return Err(e),
        };
        let headers = build_samples(slots, buf.as_slice(), start);
        let samples = descriptors(&headers, buf.len());
        Ok(TrackerModule::new(title, Format::MOD, samples, buf))
    }
}

/// Reads the headers of the `smp_num` slots, skipping empty ones; each sample's PCM follows
/// the one before, starting at `smp_start`.
fn build_samples(smp_num: u8, buf: &[u8], smp_start: usize) -> (r: Vec<MODSample>)
    requires
        smp_num == 15 || smp_num == 31,
        buf@.len() >= MOD_TAG + 4,
        smp_start <= MAX_FILE_SIZE + 0x10000,
    ensures
        r@.map_values(|h: MODSample| h@) == mod_headers(buf@, smp_num as int, 0, smp_start as int),
{
    let mut out: Vec<MODSample> = Vec::new();
    let mut stream: usize = smp_start;
    let mut i: usize = 0;
    while i < smp_num as usize
        invariant
            i <= smp_num,
            smp_num == 15 || smp_num == 31,
            buf@.len() >= MOD_TAG + 4,
            stream <= smp_start + i * 131070,
            smp_start <= MAX_FILE_SIZE + 0x10000,
            out@.map_values(|h: MODSample| h@) + mod_headers(buf@, smp_num as int, i as int, stream as int)
                == mod_headers(buf@, smp_num as int, 0, smp_start as int),
        decreases smp_num - i,
    {
        let hdr: usize = MOD_SMP_START + i * MOD_SMP_LEN;
        let len: usize = 2 * u16_be_at(buf, hdr + 22) as usize;
        let ghost before = out@.map_values(|h: MODSample| h@);
        if len > 0 {
            let h = MODSample { name: text_field(buf, hdr, 22), length: len, index: stream };
            out.push(h);
            assert(out@.map_values(|h: MODSample| h@) =~= before.push(h@));
            assert(before.push(h@) + mod_headers(buf@, smp_num as int, i + 1, stream + len) =~= before
                + mod_headers(buf@, smp_num as int, i as int, stream as int));
            stream = stream + len;
        }
        i = i + 1;
    }
    assert(mod_headers(buf@, smp_num as int, i as int, stream as int) =~= Seq::empty());
    assert(out@.map_values(|h: MODSample| h@) =~= out@.map_values(|h: MODSample| h@) + Seq::<ModSampleView>::empty());
    out
}

/// The descriptors of `headers` for a buffer of `buf_len` bytes (see [`mod_descriptors`]).
fn descriptors(headers: &Vec<MODSample>, buf_len: usize) -> (r: Vec<TrackerSample>)
    ensures
        r@.map_values(|s: TrackerSample| s@) == mod_descriptors(
            headers@.map_values(|h: MODSample| h@),
            buf_len as int,
        ),
        forall|k: int| 0 <= k < r@.len() ==> sample_fits(#[trigger] r@[k]@, buf_len as int),
{
    let ghost hs = headers@.map_values(|h: MODSample| h@);
    let mut out: Vec<TrackerSample> = Vec::new();
    let mut j: usize = 0;
    while j < headers.len()
        invariant
            j <= headers@.len(),
            hs == headers@.map_values(|h: MODSample| h@),
            out@.map_values(|s: TrackerSample| s@) == mod_descriptors(hs.subrange(0, j as int), buf_len as int),
            forall|k: int| 0 <= k < out@.len() ==> sample_fits(#[trigger] out@[k]@, buf_len as int),
        decreases headers@.len() - j,
    {
        let h = &headers[j];
        assert(hs.subrange(0, j + 1).drop_last() =~= hs.subrange(0, j as int));
        assert(hs.subrange(0, j + 1).last() == h@);
        let len = clamp_len(h.index as u64, h.length as u64, buf_len, 1);
        if len > 0 {
            let ghost before = out@.map_values(|s: TrackerSample| s@);
            let d = TrackerSample {
                name: h.name.clone(),
                ptr: h.index,
                len,
                bits: 8,
                rate: MOD_RATE,
                stereo: false,
                encoding: Encoding::Signed,
            };
            out.push(d);
            assert(out@.map_values(|s: TrackerSample| s@) =~= before.push(d@));
        }
        j = j + 1;
    }
    assert(hs.subrange(0, j as int) =~= hs);
    out
}

} // verus!
