//! Impulse Tracker IT: a header, the order list, offsets of instrument and sample headers,
//! and sample headers that point at their PCM.
use vstd::prelude::*;

use crate::bytes::{has_tag, in_bounds, field, le16, le32, read_string, read_u16_le, read_u32_le, text_at};
use crate::error::{Error, ErrorKind};
use crate::module::{
    Format, ModuleView, SampleView, TrackerModule, TrackerSample, check_outcome, load_outcome,
    lemma_raw_sample_fits, module_fits, raw_descriptor, raw_sample, sample_fits, MAX_FILE_SIZE,
};

verus! {

/// Size of the IT header before the order list.
pub const IT_HEADER_LEN: usize = 0xc0;

/// Size of a sample header.
pub const IT_SMP_SIZE: usize = 0x50;

/// Sample flag: the header has PCM associated with it.
pub const MASK_SMP_DATA: u8 = 0b0000_0001;

/// Sample flag: 16-bit samples (else 8-bit).
pub const MASK_SMP_BITS: u8 = 0b0000_0010;

/// Sample flag: stereo.
pub const MASK_SMP_STEREO: u8 = 0b0000_0100;

/// Sample flag: the PCM is compressed.
pub const MASK_SMP_COMP: u8 = 0b0000_1000;

/// The Impulse Tracker IT format.
pub struct ITFile;

/// `IMPM`
pub open spec fn it_magic() -> Seq<u8> {
    seq![0x49u8, 0x4d, 0x50, 0x4d]
}

/// `ziRCONia`, the tag of files whose samples use that packer's compression.
pub open spec fn zircon() -> Seq<u8> {
    seq![0x7au8, 0x69, 0x52, 0x43, 0x4f, 0x4e, 0x69, 0x61]
}

fn magic() -> (r: [u8; 4])
    ensures
        r@ == it_magic(),
{
    let r: [u8; 4] = [0x49, 0x4d, 0x50, 0x4d];
    assert(r@ =~= it_magic());
    r
}

fn zircon_tag() -> (r: [u8; 8])
    ensures
        r@ == zircon(),
{
    let r: [u8; 8] = [0x7a, 0x69, 0x52, 0x43, 0x4f, 0x4e, 0x69, 0x61];
    assert(r@ =~= zircon());
    r
}

/// The message of the error validation gives for `buf` (see [`it_check`]).
pub open spec fn it_check_message(buf: Seq<u8>) -> Seq<char> {
    if buf.len() >= IT_HEADER_LEN && field(buf, 0, 8) == zircon() {
        "Unsupported IT: Uses 'ziRCON' sample compression"@
    } else {
        "Not a valid Impulse Tracker module"@
    }
}

/// What validation says of `buf`.
pub open spec fn it_check(buf: Seq<u8>) -> Result<(), ErrorKind> {
    if buf.len() < IT_HEADER_LEN {
        Err(ErrorKind::InvalidFile)
    } else if field(buf, 0, 8) == zircon() {
        Err(ErrorKind::UnsupportedFormat)
    } else if field(buf, 0, 4) != it_magic() {
        Err(ErrorKind::InvalidFile)
    } else {
        Ok(())
    }
}

/// Sample `i` of the table of header offsets at `list`: `Some(None)` for a header without
/// PCM or with compressed PCM, `None` where its offset or header runs past the end.
pub open spec fn it_sample(buf: Seq<u8>, list: int, i: int) -> Option<Option<SampleView>> {
    if !in_bounds(buf, list + 4 * i, 4) {
        None
    } else {
        let h = le32(buf, list + 4 * i);
        if !in_bounds(buf, h, IT_SMP_SIZE as int) {
            None
        } else {
            let flags = buf[h + 0x12];
            if flags & MASK_SMP_DATA == 0 || flags & MASK_SMP_COMP != 0 {
                Some(None)
            } else {
                Some(
                    Some(
                        raw_sample(
                            text_at(buf, h + 0x14, 26),
                            le32(buf, h + 0x48),
                            le32(buf, h + 0x30),
                            flags & MASK_SMP_BITS != 0,
                            flags & MASK_SMP_STEREO != 0,
                            le32(buf, h + 0x3c) as u32,
                            buf[h + 0x2e] & 1u8 != 0,
                            buf.len() as int,
                        ),
                    ),
                )
            }
        }
    }
}

/// The non-empty descriptors of the first `n` samples; `None` where one of them runs past
/// the end.
pub open spec fn it_samples(buf: Seq<u8>, list: int, n: nat) -> Option<Seq<SampleView>>
    decreases n,
{
    if n == 0 {
        Some(Seq::empty())
    } else {
        match it_samples(buf, list, (n - 1) as nat) {
            None => None,
            Some(prev) => match it_sample(buf, list, n - 1) {
                None => None,
                Some(Some(d)) => if d.len > 0 {
                    Some(prev.push(d))
                } else {
                    Some(prev)
                },
                Some(None) => Some(prev),
            },
        }
    }
}

/// What loading `buf` as IT gives. The sample header offsets follow the order list and the
/// instrument offsets.
pub open spec fn it_load(buf: Seq<u8>) -> Result<ModuleView, ErrorKind> {
    if buf.len() > MAX_FILE_SIZE {
        Err(ErrorKind::Io)
    } else if it_check(buf) is Err {
        Err(it_check(buf)->Err_0)
    } else {
        match it_samples(
            buf,
            IT_HEADER_LEN + le16(buf, 0x20) + 4 * le16(buf, 0x22),
            le16(buf, 0x24) as nat,
        ) {
            None => Err(ErrorKind::TruncatedFile),
            Some(samples) => Ok(
                ModuleView { name: text_at(buf, 4, 26), format: Format::IT, samples, buf },
            ),
        }
    }
}

proof fn lemma_it_one_fits(buf: Seq<u8>, list: int, i: int)
    ensures
        it_sample(buf, list, i) matches Some(Some(d)) ==> (d.len > 0 ==> sample_fits(d, buf.len() as int)),
{
    if in_bounds(buf, list + 4 * i, 4) {
        let h = le32(buf, list + 4 * i);
        if in_bounds(buf, h, IT_SMP_SIZE as int) {
            let flags = buf[h + 0x12];
            lemma_raw_sample_fits(
                text_at(buf, h + 0x14, 26),
                le32(buf, h + 0x48),
                le32(buf, h + 0x30),
                flags & MASK_SMP_BITS != 0,
                flags & MASK_SMP_STEREO != 0,
                le32(buf, h + 0x3c) as u32,
                buf[h + 0x2e] & 1u8 != 0,
                buf.len() as int,
            );
        }
    }
}

proof fn lemma_it_samples_fit(buf: Seq<u8>, list: int, n: nat)
    ensures
        it_samples(buf, list, n) is Some ==> forall|k: int|
            0 <= k < it_samples(buf, list, n)->Some_0.len() ==> sample_fits(
                #[trigger] it_samples(buf, list, n)->Some_0[k],
                buf.len() as int,
            ),
    decreases n,
{
    if n > 0 {
        lemma_it_samples_fit(buf, list, (n - 1) as nat);
        lemma_it_one_fits(buf, list, n - 1);
        if it_samples(buf, list, (n - 1) as nat) is Some {
            let prev = it_samples(buf, list, (n - 1) as nat)->Some_0;
            match it_sample(buf, list, n - 1) {
                Some(Some(d)) => {
                    if d.len > 0 {
                        assert forall|k: int| 0 <= k < prev.len() + 1 implies sample_fits(
                            #[trigger] prev.push(d)[k],
                            buf.len() as int,
                        ) by {
                            if k < prev.len() {
                                assert(prev.push(d)[k] == prev[k]);
                            }
                        }
                    }
                },
                _ => {},
            }
        }
    }
}

/// Every module IT loading gives lists only non-empty samples that lie inside its buffer.
pub proof fn lemma_it_load_fits(buf: Seq<u8>)
    ensures
        it_load(buf) is Ok ==> module_fits(it_load(buf)->Ok_0),
{
    lemma_it_samples_fit(buf, IT_HEADER_LEN + le16(buf, 0x20) + 4 * le16(buf, 0x22), le16(buf, 0x24) as nat);
}

impl ITFile {
    /// Checks the `IMPM` tag; refuses files packed as `ziRCONia`.
    pub fn validate(buf: &[u8]) -> (r: Result<(), Error>)
        ensures
            check_outcome(r, it_check(buf@)),
            r matches Err(e) ==> e.message() == it_check_message(buf@),
    {
        if buf.len() < IT_HEADER_LEN {
            return Err(Error::invalid("Not a valid Impulse Tracker module"));
        }
        let packed = zircon_tag();
        if has_tag(buf, 0, packed.as_slice()) {
            return Err(Error::unsupported("Unsupported IT: Uses 'ziRCON' sample compression"));
        }
        let tag = magic();
        if !has_tag(buf, 0, tag.as_slice()) {
            return Err(Error::invalid("Not a valid Impulse Tracker module"));
        }
        Ok(())
    }

    /// Parses `buf` as IT. Headers without PCM and compressed samples are skipped; sample
    /// lengths that run past the end of the buffer are cut to it, and samples left empty are
    /// not listed.
    pub fn load_from_buf(buf: Vec<u8>) -> (r: Result<TrackerModule, Error>)
        ensures
            load_outcome(r, it_load(buf@)),
    {
        if buf.len() > MAX_FILE_SIZE {
            return Err(Error::io("File is larger than 64 MB"));
        }
        match Self::validate(buf.as_slice()) {
            Ok(()) => {},
            Err(e) => return Err(e),
        }
        let title = match read_string(buf.as_slice(), 4, 26) {
            Ok(s) => s,
            Err(e) => return Err(e),
        };
        let ord_num = match read_u16_le(buf.as_slice(), 0x20) {
            Ok(v) => v,
            Err(e) => return Err(e),
        };
        let ins_num = match read_u16_le(buf.as_slice(), 0x22) {
            Ok(v) => v,
            Err(e) => return Err(e),
        };
        let smp_num = match read_u16_le(buf.as_slice(), 0x24) {
            Ok(v) => v,
            Err(e) => return Err(e),
        };
        let list: usize = IT_HEADER_LEN + ord_num as usize + 4 * ins_num as usize;
        let samples = match build_samples(buf.as_slice(), list, smp_num) {
            Ok(s) => s,
            Err(e) => return Err(e),
        };
        Ok(TrackerModule::new(title, Format::IT, samples, buf))
    }
}

/// Reads the `smp_num` sample headers whose offsets are listed at `list`.
fn build_samples(buf: &[u8], list: usize, smp_num: u16) -> (r: Result<Vec<TrackerSample>, Error>)
    requires
        buf@.len() <= MAX_FILE_SIZE,
        list <= IT_HEADER_LEN + 5 * 0xffff,
    ensures
        match r {
            Ok(v) => it_samples(buf@, list as int, smp_num as nat) == Some(
                v@.map_values(|s: TrackerSample| s@),
            ) && forall|k: int| 0 <= k < v@.len() ==> sample_fits(#[trigger] v@[k]@, buf@.len() as int),
            Err(e) => it_samples(buf@, list as int, smp_num as nat) is None && e.kind()
                == ErrorKind::TruncatedFile,
        },
{
    let mut out: Vec<TrackerSample> = Vec::new();
    let mut i: u16 = 0;
    while i < smp_num
        invariant
            i <= smp_num,
            buf@.len() <= MAX_FILE_SIZE,
            list <= IT_HEADER_LEN + 5 * 0xffff,
            it_samples(buf@, list as int, i as nat) == Some(out@.map_values(|s: TrackerSample| s@)),
            forall|k: int| 0 <= k < out@.len() ==> sample_fits(#[trigger] out@[k]@, buf@.len() as int),
        decreases smp_num - i,
    {
        match sample(buf, list, i) {
            Err(e) => {
                proof {
                    lemma_it_samples_none(buf@, list as int, (i + 1) as nat, smp_num as nat);
                }
                return Err(e);
            },
            Ok(None) => {},
            Ok(Some(d)) => {
                if d.len > 0 {
                    let ghost prev = out@.map_values(|s: TrackerSample| s@);
                    out.push(d);
                    assert(out@.map_values(|s: TrackerSample| s@) =~= prev.push(d@));
                }
            },
        }
        i = i + 1;
    }
    Ok(out)
}

/// Reads sample `i` of the offset table at `list` (see [`it_sample`]).
fn sample(buf: &[u8], list: usize, i: u16) -> (r: Result<Option<TrackerSample>, Error>)
    requires
        buf@.len() <= MAX_FILE_SIZE,
        list <= IT_HEADER_LEN + 5 * 0xffff,
    ensures
        match r {
            Ok(None) => it_sample(buf@, list as int, i as int) == Some(None::<SampleView>),
            Ok(Some(d)) => it_sample(buf@, list as int, i as int) == Some(Some(d@)) && (d@.len > 0
                ==> sample_fits(d@, buf@.len() as int)),
            Err(e) => it_sample(buf@, list as int, i as int) is None && e.kind()
                == ErrorKind::TruncatedFile,
        },
{
    let offset = match read_u32_le(buf, list + 4 * i as usize) {
        Ok(v) => v,
        Err(e) => return Err(e),
    };
    if offset as usize > buf.len() || buf.len() - (offset as usize) < IT_SMP_SIZE {
        return Err(Error::TruncatedFile);
    }
    let h: usize = offset as usize;
    let flags = buf[h + 0x12];
    if flags & MASK_SMP_DATA == 0 || flags & MASK_SMP_COMP != 0 {
        return Ok(None);
    }
    let name = match read_string(buf, h + 0x14, 26) {
        Ok(s) => s,
        Err(e) => return Err(e),
    };
    let length = match read_u32_le(buf, h + 0x30) {
        Ok(v) => v,
        Err(e) => return Err(e),
    };
    let rate = match read_u32_le(buf, h + 0x3c) {
        Ok(v) => v,
        Err(e) => return Err(e),
    };
    let ptr = match read_u32_le(buf, h + 0x48) {
        Ok(v) => v,
        Err(e) => return Err(e),
    };
    let signed = buf[h + 0x2e] & 1u8 != 0;
    Ok(
        Some(
            raw_descriptor(
                name,
                ptr,
                length,
                flags & MASK_SMP_BITS != 0,
                flags & MASK_SMP_STEREO != 0,
                rate,
                signed,
                buf.len(),
            ),
        ),
    )
}

/// Once a prefix of the samples runs past the end, every longer one does.
proof fn lemma_it_samples_none(buf: Seq<u8>, list: int, a: nat, b: nat)
    requires
        a <= b,
        it_samples(buf, list, a) is None,
    ensures
        it_samples(buf, list, b) is None,
    decreases b - a,
{
    if a < b {
        lemma_it_samples_none(buf, list, a, (b - 1) as nat);
    }
}

} // verus!
