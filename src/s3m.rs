//! Scream Tracker 3 S3M: a header, the order list, then paragraph pointers to 80-byte
//! instrument headers, each pointing at its raw PCM.
use vstd::prelude::*;

use crate::bytes::{has_tag, in_bounds, field, le16, le32, read_string, read_u16_le, read_u32_le, text_at};
use crate::error::{Error, ErrorKind};
use crate::module::{
    Format, ModuleView, SampleView, TrackerModule, TrackerSample, check_outcome, load_outcome,
    lemma_raw_sample_fits, module_fits, raw_descriptor, raw_sample, sample_fits, MAX_FILE_SIZE,
};

verus! {

/// Size of the S3M header before the order list.
pub const S3M_HEADER_SIZE: usize = 0x60;

/// Size of an instrument header.
pub const S3M_INS_SIZE: usize = 0x50;

/// The Scream Tracker 3 S3M format.
pub struct S3MFile;

/// `SCRM`
pub open spec fn s3m_magic() -> Seq<u8> {
    seq![0x53u8, 0x43, 0x52, 0x4d]
}

fn magic() -> (r: [u8; 4])
    ensures
        r@ == s3m_magic(),
{
    let r: [u8; 4] = [0x53, 0x43, 0x52, 0x4d];
    assert(r@ =~= s3m_magic());
    r
}

/// The message of the error validation gives for `buf` (see [`s3m_check`]).
pub open spec fn s3m_check_message(buf: Seq<u8>) -> Seq<char> {
    "Not a valid Scream Tracker 3 module"@
}

/// What validation says of `buf`: the `SCRM` tag and the file type byte.
pub open spec fn s3m_check(buf: Seq<u8>) -> Result<(), ErrorKind> {
    if buf.len() < S3M_HEADER_SIZE || field(buf, 0x2c, 4) != s3m_magic() || buf[0x1d] != 0x10 {
        Err(ErrorKind::InvalidFile)
    } else {
        Ok(())
    }
}

/// Instrument `i` of the list of paragraph pointers at `list`: `Some(None)` for an
/// instrument that is no PCM sample, `None` where its pointer or header runs past the end.
pub open spec fn s3m_instrument(buf: Seq<u8>, list: int, signed: bool, i: int) -> Option<Option<SampleView>> {
    if !in_bounds(buf, list + 2 * i, 2) {
        None
    } else {
        let p = le16(buf, list + 2 * i) * 16;
        if !in_bounds(buf, p, S3M_INS_SIZE as int) {
            None
        } else if buf[p] != 1 {
            Some(None)
        } else {
            let flags = buf[p + 0x1f];
            Some(
                Some(
                    raw_sample(
                        text_at(buf, p + 0x30, 28),
                        (buf[p + 0x0d] * 65536 + le16(buf, p + 0x0e)) * 16,
                        le32(buf, p + 0x10),
                        flags & 4u8 != 0,
                        flags & 2u8 != 0,
                        le32(buf, p + 0x20) as u32,
                        signed,
                        buf.len() as int,
                    ),
                ),
            )
        }
    }
}

/// The non-empty descriptors of the first `n` instruments; `None` where one of them runs
/// past the end.
pub open spec fn s3m_samples(buf: Seq<u8>, list: int, signed: bool, n: nat) -> Option<Seq<SampleView>>
    decreases n,
{
    if n == 0 {
        Some(Seq::empty())
    } else {
        match s3m_samples(buf, list, signed, (n - 1) as nat) {
            None => None,
            Some(prev) => match s3m_instrument(buf, list, signed, n - 1) {
                None => None,
                Some(Some(d)) => if d.len > 0 {
                    Some(prev.push(d))
                } else {
                    Some(prev)
                },
                Some(None) => Some(prev),
            },
        }
    }
}

/// What loading `buf` as S3M gives. Samples are signed where the header's format field is 1.
pub open spec fn s3m_load(buf: Seq<u8>) -> Result<ModuleView, ErrorKind> {
    if buf.len() > MAX_FILE_SIZE {
        Err(ErrorKind::Io)
    } else if s3m_check(buf) is Err {
        Err(s3m_check(buf)->Err_0)
    } else {
        match s3m_samples(
            buf,
            S3M_HEADER_SIZE + le16(buf, 0x20),
            le16(buf, 0x2a) == 1,
            le16(buf, 0x22) as nat,
        ) {
            None => Err(ErrorKind::TruncatedFile),
            Some(samples) => Ok(
                ModuleView { name: text_at(buf, 0, 28), format: Format::S3M, samples, buf },
            ),
        }
    }
}

proof fn lemma_s3m_one_fits(buf: Seq<u8>, list: int, signed: bool, i: int)
    ensures
        s3m_instrument(buf, list, signed, i) matches Some(Some(d)) ==> (d.len > 0 ==> sample_fits(d, buf.len() as int)),
{
    if in_bounds(buf, list + 2 * i, 2) {
        let p = le16(buf, list + 2 * i) * 16;
        if in_bounds(buf, p, S3M_INS_SIZE as int) && buf[p] == 1 {
            let flags = buf[p + 0x1f];
            lemma_raw_sample_fits(
                text_at(buf, p + 0x30, 28),
                (buf[p + 0x0d] * 65536 + le16(buf, p + 0x0e)) * 16,
                le32(buf, p + 0x10),
                flags & 4u8 != 0,
                flags & 2u8 != 0,
                le32(buf, p + 0x20) as u32,
                signed,
                buf.len() as int,
            );
        }
    }
}

proof fn lemma_s3m_samples_fit(buf: Seq<u8>, list: int, signed: bool, n: nat)
    ensures
        s3m_samples(buf, list, signed, n) is Some ==> forall|k: int|
            0 <= k < s3m_samples(buf, list, signed, n)->Some_0.len() ==> sample_fits(
                #[trigger] s3m_samples(buf, list, signed, n)->Some_0[k],
                buf.len() as int,
            ),
    decreases n,
{
    if n > 0 {
        lemma_s3m_samples_fit(buf, list, signed, (n - 1) as nat);
        lemma_s3m_one_fits(buf, list, signed, n - 1);
        if s3m_samples(buf, list, signed, (n - 1) as nat) is Some {
            let prev = s3m_samples(buf, list, signed, (n - 1) as nat)->Some_0;
            match s3m_instrument(buf, list, signed, n - 1) {
                Some(Some(d)) => {
                    if d.len > 0 {
                        assert forall|k: int| 0 <= k < prev.len() + 1 implies sample_fits(
                            #[trigger] prev.push(d)[k],
                            buf.len() as int,
                        ) by {
                            if k < prev.len() {
                                assert(prev.push(d)[k] == prev[k]);
                            }
                        }
                    }
                },
                _ => {},
            }
        }
    }
}

/// Every module S3M loading gives lists only non-empty samples that lie inside its buffer.
pub proof fn lemma_s3m_load_fits(buf: Seq<u8>)
    ensures
        s3m_load(buf) is Ok ==> module_fits(s3m_load(buf)->Ok_0),
{
    lemma_s3m_samples_fit(buf, S3M_HEADER_SIZE + le16(buf, 0x20), le16(buf, 0x2a) == 1, le16(buf, 0x22) as nat);
}

impl S3MFile {
    /// Checks the `SCRM` tag and the file type.
    pub fn validate(buf: &[u8]) -> (r: Result<(), Error>)
        ensures
            check_outcome(r, s3m_check(buf@)),
            r matches Err(e) ==> e.message() == s3m_check_message(buf@),
    {
        let tag = magic();
        if buf.len() < S3M_HEADER_SIZE || !has_tag(buf, 0x2c, tag.as_slice()) || buf[0x1d] != 0x10 {
            return Err(Error::invalid("Not a valid Scream Tracker 3 module"));
        }
        Ok(())
    }

    /// Parses `buf` as S3M. Instruments that hold no PCM are skipped; sample lengths that run
    /// past the end of the buffer are cut to it, and samples left empty are not listed.
    pub fn load_from_buf(buf: Vec<u8>) -> (r: Result<TrackerModule, Error>)
        ensures
            load_outcome(r, s3m_load(buf@)),
    {
        if buf.len() > MAX_FILE_SIZE {
            return Err(Error::io("File is larger than 64 MB"));
        }
        match Self::validate(buf.as_slice()) {
            Ok(()) => {},
            Err(e) => return Err(e),
        }
        let title = match read_string(buf.as_slice(), 0, 28) {
            Ok(s) => s,
            Err(e) => return Err(e),
        };
        let ord_count = match read_u16_le(buf.as_slice(), 0x20) {
            Ok(v) => v,
            Err(e) => return Err(e),
        };
        let ins_count = match read_u16_le(buf.as_slice(), 0x22) {
            Ok(v) => v,
            Err(e) => return Err(e),
        };
        let ffi = match read_u16_le(buf.as_slice(), 0x2a) {
            Ok(v) => v,
            Err(e) => return Err(e),
        };
        let list: usize = S3M_HEADER_SIZE + ord_count as usize;
        let samples = match build_samples(buf.as_slice(), list, ffi == 1, ins_count) {
            Ok(s) => s,
            Err(e) => return Err(e),
        };
        Ok(TrackerModule::new(title, Format::S3M, samples, buf))
    }
}

/// Reads the headers of the `ins_count` instruments listed at `list`.
fn build_samples(buf: &[u8], list: usize, signed: bool, ins_count: u16) -> (r: Result<Vec<TrackerSample>, Error>)
    requires
        buf@.len() <= MAX_FILE_SIZE,
        list <= S3M_HEADER_SIZE + 0xffff,
    ensures
        match r {
            Ok(v) => s3m_samples(buf@, list as int, signed, ins_count as nat) == Some(
                v@.map_values(|s: TrackerSample| s@),
            ) && forall|k: int| 0 <= k < v@.len() ==> sample_fits(#[trigger] v@[k]@, buf@.len() as int),
            Err(e) => s3m_samples(buf@, list as int, signed, ins_count as nat) is None && e.kind()
                == ErrorKind::TruncatedFile,
        },
{
    let mut out: Vec<TrackerSample> = Vec::new();
    let mut i: u16 = 0;
    while i < ins_count
        invariant
            i <= ins_count,
            buf@.len() <= MAX_FILE_SIZE,
            list <= S3M_HEADER_SIZE + 0xffff,
            s3m_samples(buf@, list as int, signed, i as nat) == Some(out@.map_values(|s: TrackerSample| s@)),
            forall|k: int| 0 <= k < out@.len() ==> sample_fits(#[trigger] out@[k]@, buf@.len() as int),
        decreases ins_count - i,
    {
        match instrument(buf, list, signed, i) {
            Err(e) => {
                proof {
                    lemma_s3m_samples_none(buf@, list as int, signed, (i + 1) as nat, ins_count as nat);
                }
                return Err(e);
            },
            Ok(None) => {},
            Ok(Some(d)) => {
                if d.len > 0 {
                    let ghost prev = out@.map_values(|s: TrackerSample| s@);
                    out.push(d);
                    assert(out@.map_values(|s: TrackerSample| s@) =~= prev.push(d@));
                }
            },
        }
        i = i + 1;
    }
    Ok(out)
}

/// Reads instrument `i` of the list at `list` (see [`s3m_instrument`]).
fn instrument(buf: &[u8], list: usize, signed: bool, i: u16) -> (r: Result<Option<TrackerSample>, Error>)
    requires
        buf@.len() <= MAX_FILE_SIZE,
        list <= S3M_HEADER_SIZE + 0xffff,
    ensures
        match r {
            Ok(None) => s3m_instrument(buf@, list as int, signed, i as int) == Some(None::<SampleView>),
            Ok(Some(d)) => s3m_instrument(buf@, list as int, signed, i as int) == Some(Some(d@)) && (d@.len
                > 0 ==> sample_fits(d@, buf@.len() as int)),
            Err(e) => s3m_instrument(buf@, list as int, signed, i as int) is None && e.kind()
                == ErrorKind::TruncatedFile,
        },
{
    let para = match read_u16_le(buf, list + 2 * i as usize) {
        Ok(v) => v,
        Err(e) => return Err(e),
    };
    let p: usize = para as usize * 16;
    if p > buf.len() || buf.len() - p < S3M_INS_SIZE {
        return Err(Error::TruncatedFile);
    }
    if buf[p] != 1 {
        return Ok(None);
    }
    let name = match read_string(buf, p + 0x30, 28) {
        Ok(s) => s,
        Err(e) => return Err(e),
    };
    let seg_low = match read_u16_le(buf, p + 0x0e) {
        Ok(v) => v,
        Err(e) => return Err(e),
    };
    let length = match read_u32_le(buf, p + 0x10) {
        Ok(v) => v,
        Err(e) => return Err(e),
    };
    let rate = match read_u32_le(buf, p + 0x20) {
        Ok(v) => v,
        Err(e) => return Err(e),
    };
    let flags = buf[p + 0x1f];
    let ptr: u32 = (buf[p + 0x0d] as u32 * 65536 + seg_low as u32) * 16;
    Ok(Some(raw_descriptor(name, ptr, length, flags & 4u8 != 0, flags & 2u8 != 0, rate, signed, buf.len())))
}

/// Once a prefix of the instruments runs past the end, every longer one does.
proof fn lemma_s3m_samples_none(buf: Seq<u8>, list: int, signed: bool, a: nat, b: nat)
    requires
        a <= b,
        s3m_samples(buf, list, signed, a) is None,
    ensures
        s3m_samples(buf, list, signed, b) is None,
    decreases b - a,
{
    if a < b {
        lemma_s3m_samples_none(buf, list, signed, a, (b - 1) as nat);
    }
}

} // verus!
