//! The handle a successful parse produces: module name, format, sample descriptors and the
//! bytes they point into.
use vstd::prelude::*;
use vstd::slice::{slice_subrange, slice_to_vec};

use crate::error::{Error, ErrorKind};
use crate::pcm::{
    delta_decode_u16, delta_decode_u8, delta_decoded_u16, delta_decoded_u8, signed_pcm,
    to_signed,
};
use crate::wav::{build_header, channels, wav_header, HEADER_SIZE};

verus! {

/// Files larger than this many bytes are not parsed.
pub const MAX_FILE_SIZE: usize = 67108864;

/// The formats this library reads.
#[derive(Debug, Clone, Copy, PartialEq, Eq, Structural)]
pub enum Format {
    IT,
    XM,
    S3M,
    MOD,
    UMX,
}

/// How a sample's bytes are stored in the module.
#[derive(Debug, Clone, Copy, PartialEq, Eq, Structural)]
pub enum Encoding {
    /// Unsigned PCM (8-bit samples biased by 0x80).
    Unsigned,
    /// Signed PCM.
    Signed,
    /// Signed 8-bit PCM stored as differences.
    Delta8,
    /// Signed 16-bit PCM stored as differences.
    Delta16,
}

/// Where one embedded sample lies and how to play it.
#[derive(Debug)]
pub struct TrackerSample {
    pub name: String,
    /// Offset of the first byte in the module's buffer.
    pub ptr: usize,
    /// Length in bytes.
    pub len: usize,
    /// Bits per sample: 8 or 16.
    pub bits: u8,
    /// Playback rate in Hz.
    pub rate: u32,
    pub stereo: bool,
    pub encoding: Encoding,
}

/// A sample descriptor as a mathematical value.
pub struct SampleView {
    pub name: Seq<char>,
    pub ptr: int,
    pub len: int,
    pub bits: u8,
    pub rate: u32,
    pub stereo: bool,
    pub encoding: Encoding,
}

impl View for TrackerSample {
    type V = SampleView;

    open spec fn view(&self) -> SampleView {
        SampleView {
            name: self.name@,
            ptr: self.ptr as int,
            len: self.len as int,
            bits: self.bits,
            rate: self.rate,
            stereo: self.stereo,
            encoding: self.encoding,
        }
    }
}

/// A module handle as a mathematical value.
pub struct ModuleView {
    pub name: Seq<char>,
    pub format: Format,
    pub samples: Seq<SampleView>,
    pub buf: Seq<u8>,
}

/// The descriptor lies inside a buffer of `buf_len` bytes, is not empty, and has 8 or 16
/// bits per sample with an encoding that suits that width.
pub open spec fn sample_fits(s: SampleView, buf_len: int) -> bool {
    &&& 0 <= s.ptr
    &&& 0 < s.len
    &&& s.ptr + s.len <= buf_len
    &&& s.bits == 8 || s.bits == 16
    &&& s.encoding == Encoding::Delta8 ==> s.bits == 8
    &&& s.encoding == Encoding::Delta16 ==> s.bits == 16
}

/// Every descriptor of the module lies inside its buffer, none is empty, and the buffer is
/// within the size ceiling.
pub open spec fn module_fits(m: ModuleView) -> bool {
    &&& m.buf.len() <= MAX_FILE_SIZE
    &&& forall|i: int| 0 <= i < m.samples.len() ==> sample_fits(#[trigger] m.samples[i], m.buf.len() as int)
}

/// The bytes of the whole samples of `s`: its length without a trailing odd byte where its
/// samples have 16 bits.
pub open spec fn whole_len(s: SampleView) -> int {
    s.len - s.len % (s.bits / 8) as int
}

/// The PCM a WAV file carries for sample `s` of `buf`: its whole samples, 8-bit data
/// unsigned, 16-bit data signed little-endian, delta encodings decoded.
pub open spec fn export_pcm(buf: Seq<u8>, s: SampleView) -> Seq<u8> {
    let raw = buf.subrange(s.ptr, s.ptr + whole_len(s));
    match s.encoding {
        Encoding::Unsigned => raw,
        Encoding::Signed => signed_pcm(raw, s.bits),
        Encoding::Delta8 => signed_pcm(delta_decoded_u8(raw), 8),
        Encoding::Delta16 => delta_decoded_u16(raw),
    }
}

/// The WAV file for sample `s` of `buf`: the header, then the PCM.
pub open spec fn export_wav(buf: Seq<u8>, s: SampleView) -> Seq<u8> {
    wav_header(s.rate, s.bits, (s.len / (s.bits / 8) as int) as u32, s.stereo) + export_pcm(buf, s)
}

/// The sample's rate times its channels fits in the header's byte-rate field.
pub open spec fn rate_fits(s: SampleView) -> bool {
    s.rate * channels(s.stereo) <= u32::MAX
}

/// `r` is the outcome that `s` describes: success, or an error of the kind given.
pub open spec fn check_outcome(r: Result<(), Error>, s: Result<(), ErrorKind>) -> bool {
    match (r, s) {
        (Ok(_), Ok(_)) => true,
        (Err(e), Err(k)) => e.kind() == k,
        _ => false,
    }
}

/// `r` is the outcome that `s` describes: a handle with the view given, or an error of the
/// kind given.
pub open spec fn load_outcome(r: Result<TrackerModule, Error>, s: Result<ModuleView, ErrorKind>) -> bool {
    match (r, s) {
        (Ok(m), Ok(v)) => m@ == v,
        (Err(e), Err(k)) => e.kind() == k,
        _ => false,
    }
}

/// The length of a sample of `len` bytes at `ptr` once cut to a buffer of `buf_len` bytes
/// and to whole samples of `width` bytes.
pub open spec fn clamped_len(ptr: int, len: int, buf_len: int, width: int) -> int {
    let avail = if ptr >= buf_len {
        0
    } else if ptr + len > buf_len {
        buf_len - ptr
    } else {
        len
    };
    avail - avail % width
}

/// Cuts a sample of `len` bytes at `ptr` to a buffer of `buf_len` bytes and to whole samples
/// of `width` bytes (see [`clamped_len`]).
pub(crate) fn clamp_len(ptr: u64, len: u64, buf_len: usize, width: u64) -> (r: usize)
    requires
        width == 1 || width == 2,
    ensures
        r == clamped_len(ptr as int, len as int, buf_len as int, width as int),
        r > 0 ==> ptr + r <= buf_len,
        r as int % width as int == 0,
{
    let avail: u64 = if ptr >= buf_len as u64 {
        0
    } else if len > buf_len as u64 - ptr {
        buf_len as u64 - ptr
    } else {
        len
    };
    assert(((avail - avail % width) as int) % (width as int) == 0) by {
        if width == 2 {
            assert(((avail - avail % 2) as int) % 2 == 0);
        }
    }
    (avail - avail % width) as usize
}

/// The descriptor of raw PCM of `count` samples per channel at `ptr`, cut to a buffer of
/// `buf_len` bytes.
pub open spec fn raw_sample(
    name: Seq<char>,
    ptr: int,
    count: int,
    sixteen: bool,
    stereo: bool,
    rate: u32,
    signed: bool,
    buf_len: int,
) -> SampleView {
    let width = if sixteen {
        2
    } else {
        1
    };
    SampleView {
        name,
        ptr,
        len: clamped_len(ptr, count * width * channels(stereo), buf_len, width),
        bits: if sixteen {
            16
        } else {
            8
        },
        rate,
        stereo,
        encoding: if signed {
            Encoding::Signed
        } else {
            Encoding::Unsigned
        },
    }
}

/// A cut length is a whole number of samples, no longer than the stated one, that stays
/// inside the buffer.
pub proof fn lemma_clamped_len(ptr: int, len: int, buf_len: int, width: int)
    requires
        ptr >= 0,
        len >= 0,
        width == 1 || width == 2,
    ensures
        0 <= clamped_len(ptr, len, buf_len, width) <= len,
        clamped_len(ptr, len, buf_len, width) % width == 0,
        clamped_len(ptr, len, buf_len, width) > 0 ==> ptr + clamped_len(ptr, len, buf_len, width)
            <= buf_len,
{
}

/// A non-empty descriptor of raw PCM fits its buffer.
pub proof fn lemma_raw_sample_fits(
    name: Seq<char>,
    ptr: int,
    count: int,
    sixteen: bool,
    stereo: bool,
    rate: u32,
    signed: bool,
    buf_len: int,
)
    requires
        ptr >= 0,
        count >= 0,
    ensures
        raw_sample(name, ptr, count, sixteen, stereo, rate, signed, buf_len).len > 0 ==> sample_fits(
            raw_sample(name, ptr, count, sixteen, stereo, rate, signed, buf_len),
            buf_len,
        ),
{
    let width = if sixteen {
        2int
    } else {
        1int
    };
    assert(count * width * channels(stereo) >= 0) by (nonlinear_arith)
        requires
            count >= 0,
            width >= 1,
            channels(stereo) >= 1,
    ;
    lemma_clamped_len(ptr, count * width * channels(stereo), buf_len, width);
}

/// Builds the descriptor of [`raw_sample`].
pub(crate) fn raw_descriptor(
    name: String,
    ptr: u32,
    count: u32,
    sixteen: bool,
    stereo: bool,
    rate: u32,
    signed: bool,
    buf_len: usize,
) -> (r: TrackerSample)
    ensures
        r@ == raw_sample(name@, ptr as int, count as int, sixteen, stereo, rate, signed, buf_len as int),
        r@.len > 0 ==> sample_fits(r@, buf_len as int),
{
    let width: u64 = if sixteen {
        2
    } else {
        1
    };
    let ch: u64 = if stereo {
        2
    } else {
        1
    };
    let len = clamp_len(ptr as u64, count as u64 * width * ch, buf_len, width);
    TrackerSample {
        name,
        ptr: ptr as usize,
        len,
        bits: if sixteen {
            16
        } else {
            8
        },
        rate,
        stereo,
        encoding: if signed {
            Encoding::Signed
        } else {
            Encoding::Unsigned
        },
    }
}

/// A parsed module: its name, its format, its samples in order, and the bytes they lie in.
#[derive(Debug)]
pub struct TrackerModule {
    name: String,
    format: Format,
    samples: Vec<TrackerSample>,
    buf: Vec<u8>,
}

impl View for TrackerModule {
    type V = ModuleView;

    closed spec fn view(&self) -> ModuleView {
        ModuleView {
            name: self.name@,
            format: self.format,
            samples: self.samples@.map_values(|s: TrackerSample| s@),
            buf: self.buf@,
        }
    }
}

impl TrackerModule {
    #[verifier::type_invariant]
    closed spec fn fits(&self) -> bool {
        module_fits(self@)
    }

    pub(crate) fn new(name: String, format: Format, samples: Vec<TrackerSample>, buf: Vec<u8>) -> (r:
        TrackerModule)
        requires
            module_fits(
                ModuleView {
                    name: name@,
                    format,
                    samples: samples@.map_values(|s: TrackerSample| s@),
                    buf: buf@,
                },
            ),
        ensures
            r@ == (ModuleView {
                name: name@,
                format,
                samples: samples@.map_values(|s: TrackerSample| s@),
                buf: buf@,
            }),
    {
        TrackerModule { name, format, samples, buf }
    }

    /// The same module, tagged with another format.
    pub(crate) fn with_format(self, format: Format) -> (r: TrackerModule)
        ensures
            r@ == (ModuleView { format, ..self@ }),
    {
        proof {
            use_type_invariant(&self);
        }
        TrackerModule { format, ..self }
    }

    pub fn module_name(&self) -> (r: &str)
        ensures
            r@ == self@.name,
    {
        self.name.as_str()
    }

    pub fn format(&self) -> (r: Format)
        ensures
            r == self@.format,
    {
        self.format
    }

    pub fn number_of_samples(&self) -> (r: usize)
        ensures
            r == self@.samples.len(),
    {
        self.samples.len()
    }

    pub fn sample_list(&self) -> (r: &[TrackerSample])
        ensures
            r@.map_values(|s: TrackerSample| s@) == self@.samples,
    {
        self.samples.as_slice()
    }

    /// The PCM of sample `index`, ready for a WAV file.
    pub fn pcm(&self, index: usize) -> (r: Vec<u8>)
        requires
            index < self@.samples.len(),
        ensures
            r@ == export_pcm(self@.buf, self@.samples[index as int]),
    {
        proof {
            use_type_invariant(self);
        }
        let smp = &self.samples[index];
        assert(smp@ == self@.samples[index as int]);
        assert(sample_fits(smp@, self.buf@.len() as int));
        let width: usize = (smp.bits / 8) as usize;
        let whole: usize = smp.len - smp.len % width;
        let raw = slice_subrange(self.buf.as_slice(), smp.ptr, smp.ptr + whole);
        match smp.encoding {
            Encoding::Unsigned => slice_to_vec(raw),
            Encoding::Signed => to_signed(raw, smp.bits),
            Encoding::Delta8 => {
                let decoded = delta_decode_u8(raw);
                to_signed(decoded.as_slice(), 8)
            },
            Encoding::Delta16 => delta_decode_u16(raw),
        }
    }

    /// The WAV file of sample `index`: header and PCM. Fails where there is no such sample, or
    /// where the sample's rate times its channels does not fit the header's 32-bit byte-rate
    /// field.
    pub fn wav(&self, index: usize) -> (r: Result<Vec<u8>, Error>)
        ensures
            index >= self@.samples.len() ==> (r matches Err(e) && e.kind()
                == ErrorKind::UnsupportedFormat),
            index < self@.samples.len() ==> match r {
                Ok(v) => rate_fits(self@.samples[index as int]) && v@ == export_wav(
                    self@.buf,
                    self@.samples[index as int],
                ),
                Err(e) => !rate_fits(self@.samples[index as int]) && e.kind()
                    == ErrorKind::UnsupportedFormat,
            },
    {
        proof {
            use_type_invariant(self);
        }
        if index >= self.samples.len() {
            return Err(Error::unsupported("no sample at that index"));
        }
        let smp = &self.samples[index];
        assert(smp@ == self@.samples[index as int]);
        assert(sample_fits(smp@, self.buf@.len() as int));
        if smp.stereo && smp.rate > u32::MAX / 2 {
            return Err(Error::unsupported("sample rate too high for a WAV header"));
        }
        let width: usize = (smp.bits / 8) as usize;
        let frames: u32 = (smp.len / width) as u32;
        assert(crate::wav::data_size(smp.bits, frames) == whole_len(smp@)) by {
            assert(smp.len <= MAX_FILE_SIZE);
            if smp.bits == 16 {
                assert(frames == smp.len / 2);
                assert(frames * 2 == smp.len - smp.len % 2);
                assert(whole_len(smp@) == smp.len - smp.len % 2);
                assert(crate::wav::data_size(smp.bits, frames) == frames * 2);
            } else {
                assert(whole_len(smp@) == smp.len - smp.len % 1);
                assert(smp.bits == 8);
                assert(width == 1);
                assert(smp.len / width == smp.len);
                assert(frames == smp.len);
                assert(crate::wav::data_size(smp.bits, frames) == frames * 1);
                assert(smp.len % 1 == 0);
            }
        }
        let header = build_header(smp.rate, smp.bits, frames, smp.stereo);
        let mut out: Vec<u8> = Vec::with_capacity(HEADER_SIZE + smp.len);
        let mut i: usize = 0;
        while i < HEADER_SIZE
            invariant
                i <= HEADER_SIZE,
                header@.len() == HEADER_SIZE,
                out@ == header@.subrange(0, i as int),
            decreases HEADER_SIZE - i,
        {
            out.push(header[i]);
            i = i + 1;
        }
        let mut pcm = self.pcm(index);
        out.append(&mut pcm);
        assert(out@ =~= export_wav(self@.buf, self@.samples[index as int]));
        Ok(out)
    }
}

} // verus!
