//! Unreal UMX: an Unreal package whose music object holds a module of another format.
use vstd::prelude::*;
use vstd::slice::{slice_subrange, slice_to_vec};

use crate::amig_mod::{lemma_mod_load_fits, mod_load, MODFile, MOD_TAG};
use crate::bytes::{has_tag, in_bounds, field, le32, read_u32_le};
use crate::error::{Error, ErrorKind};
use crate::it::{it_load, it_magic, lemma_it_load_fits, ITFile};
use crate::module::{
    Format, ModuleView, TrackerModule, check_outcome, load_outcome, module_fits, MAX_FILE_SIZE,
};
use crate::s3m::{lemma_s3m_load_fits, s3m_load, s3m_magic, S3MFile};
use crate::xm::{lemma_xm_load_fits, xm_header_id, xm_load, XMFile};

verus! {

/// The tag an Unreal package starts with, read as a little-endian word.
pub const UPKG_MAGIC: u32 = 0x9e2a83c1;

/// Size of the Unreal package header.
pub const UPKG_HEADER_SIZE: usize = 0x24;

/// The Unreal UMX music package format.
pub struct UMXFile;

/// `M.K.`, the tag of a 31-sample four-channel MOD.
pub open spec fn mod_mk() -> Seq<u8> {
    seq![0x4du8, 0x2e, 0x4b, 0x2e]
}

/// The message of the error validation gives for `buf` (see [`umx_check`]).
pub open spec fn umx_check_message(buf: Seq<u8>) -> Seq<char> {
    "Not a valid Unreal package"@
}

/// What validation says of `buf`: the package tag.
pub open spec fn umx_check(buf: Seq<u8>) -> Result<(), ErrorKind> {
    if buf.len() < UPKG_HEADER_SIZE || le32(buf, 0) != UPKG_MAGIC {
        Err(ErrorKind::InvalidFile)
    } else {
        Ok(())
    }
}

/// The tag `t` lies at `o` in `s`.
pub open spec fn tag_at(s: Seq<u8>, o: int, t: Seq<u8>) -> bool {
    in_bounds(s, o, t.len() as int) && field(s, o, t.len() as int) == t
}

/// The format of a module that starts at `p`, judged by its signature.
pub open spec fn module_sig(buf: Seq<u8>, p: int) -> Option<Format> {
    if tag_at(buf, p, it_magic()) {
        Some(Format::IT)
    } else if tag_at(buf, p, xm_header_id()) {
        Some(Format::XM)
    } else if tag_at(buf, p + 0x2c, s3m_magic()) {
        Some(Format::S3M)
    } else if tag_at(buf, p + MOD_TAG, mod_mk()) {
        Some(Format::MOD)
    } else {
        None
    }
}

/// The first offset at or after `p` where a module starts, with its format.
pub open spec fn find_module(buf: Seq<u8>, p: int) -> Option<(int, Format)>
    decreases buf.len() - p,
{
    if p < 0 || p >= buf.len() {
        None
    } else {
        match module_sig(buf, p) {
            Some(f) => Some((p, f)),
            None => find_module(buf, p + 1),
        }
    }
}

/// What loading `inner` as the wrapped format `f` gives.
pub open spec fn inner_load(f: Format, inner: Seq<u8>) -> Result<ModuleView, ErrorKind> {
    match f {
        Format::IT => it_load(inner),
        Format::XM => xm_load(inner),
        Format::S3M => s3m_load(inner),
        _ => mod_load(inner),
    }
}

/// What loading `buf` as UMX gives: the first module found in the package, from its start to
/// the end of the buffer, tagged UMX.
pub open spec fn umx_load(buf: Seq<u8>) -> Result<ModuleView, ErrorKind> {
    if buf.len() > MAX_FILE_SIZE {
        Err(ErrorKind::Io)
    } else if umx_check(buf) is Err {
        Err(umx_check(buf)->Err_0)
    } else {
        match find_module(buf, 0) {
            None => Err(ErrorKind::InvalidFile),
            Some((p, f)) => match inner_load(f, buf.subrange(p, buf.len() as int)) {
                Err(k) => Err(k),
                Ok(m) => Ok(ModuleView { format: Format::UMX, ..m }),
            },
        }
    }
}

/// Every module UMX loading gives lists only non-empty samples that lie inside its buffer.
pub proof fn lemma_umx_load_fits(buf: Seq<u8>)
    ensures
        umx_load(buf) is Ok ==> module_fits(umx_load(buf)->Ok_0),
{
    if umx_load(buf) is Ok {
        let (p, f) = find_module(buf, 0)->Some_0;
        let inner = buf.subrange(p, buf.len() as int);
        lemma_it_load_fits(inner);
        lemma_xm_load_fits(inner);
        lemma_s3m_load_fits(inner);
        lemma_mod_load_fits(inner);
    }
}

fn it_tag() -> (r: [u8; 4])
    ensures
        r@ == it_magic(),
{
    let r: [u8; 4] = [0x49, 0x4d, 0x50, 0x4d];
    assert(r@ =~= it_magic());
    r
}

fn xm_tag() -> (r: [u8; 17])
    ensures
        r@ == xm_header_id(),
{
    let r: [u8; 17] = [
        0x45, 0x78, 0x74, 0x65, 0x6e, 0x64, 0x65, 0x64, 0x20, 0x4d, 0x6f, 0x64, 0x75, 0x6c, 0x65,
        0x3a, 0x20,
    ];
    assert(r@ =~= xm_header_id());
    r
}

fn s3m_tag() -> (r: [u8; 4])
    ensures
        r@ == s3m_magic(),
{
    let r: [u8; 4] = [0x53, 0x43, 0x52, 0x4d];
    assert(r@ =~= s3m_magic());
    r
}

fn mk_tag() -> (r: [u8; 4])
    ensures
        r@ == mod_mk(),
{
    let r: [u8; 4] = [0x4d, 0x2e, 0x4b, 0x2e];
    assert(r@ =~= mod_mk());
    r
}

/// The format of the module starting at `p`, if any (see [`module_sig`]).
fn sig_at(buf: &[u8], p: usize) -> (r: Option<Format>)
    requires
        p < buf@.len() <= MAX_FILE_SIZE,
    ensures
        r == module_sig(buf@, p as int),
{
    if has_tag(buf, p, it_tag().as_slice()) {
        Some(Format::IT)
    } else if has_tag(buf, p, xm_tag().as_slice()) {
        Some(Format::XM)
    } else if has_tag(buf, p + 0x2c, s3m_tag().as_slice()) {
        Some(Format::S3M)
    } else if has_tag(buf, p + MOD_TAG, mk_tag().as_slice()) {
        Some(Format::MOD)
    } else {
        None
    }
}

impl UMXFile {
    /// Checks the Unreal package tag.
    pub fn validate(buf: &[u8]) -> (r: Result<(), Error>)
        ensures
            check_outcome(r, umx_check(buf@)),
            r matches Err(e) ==> e.message() == umx_check_message(buf@),
    {
        if buf.len() < UPKG_HEADER_SIZE {
            return Err(Error::invalid("Not a valid Unreal package"));
        }
        match read_u32_le(buf, 0) {
            Ok(v) => if v != UPKG_MAGIC {
                return Err(Error::invalid("Not a valid Unreal package"));
            },
            Err(e) => return Err(e),
        }
        Ok(())
    }

    /// Parses `buf` as UMX: finds the first IT, XM, S3M or `M.K.` MOD module the package
    /// holds and parses it with its own format's rules.
    pub fn load_from_buf(buf: Vec<u8>) -> (r: Result<TrackerModule, Error>)
        ensures
            load_outcome(r, umx_load(buf@)),
    {
        if buf.len() > MAX_FILE_SIZE {
            return Err(Error::io("File is larger than 64 MB"));
        }
        match Self::validate(buf.as_slice()) {
            Ok(()) => {},
            Err(e) => return Err(e),
        }
        let mut p: usize = 0;
        while p < buf.len()
            invariant
                p <= buf@.len() <= MAX_FILE_SIZE,
                umx_check(buf@) is Ok,
                find_module(buf@, p as int) == find_module(buf@, 0),
            decreases buf@.len() - p,
        {
            match sig_at(buf.as_slice(), p) {
                Some(f) => {
                    let inner = slice_to_vec(slice_subrange(buf.as_slice(), p, buf.len()));
                    assert(find_module(buf@, p as int) == Some((p as int, f)));
                    assert(inner@ == buf@.subrange(p as int, buf@.len() as int));
                    let loaded = match f {
                        Format::IT => ITFile::load_from_buf(inner),
                        Format::XM => XMFile::load_from_buf(inner),
                        Format::S3M => S3MFile::load_from_buf(inner),
                        _ => MODFile::load_from_buf(inner),
                    };
                    return match loaded {
                        Ok(m) => Ok(m.with_format(Format::UMX)),
                        Err(e) => Err(e),
                    };
                },
                None => {},
            }
            p = p + 1;
        }
        Err(Error::invalid("The Unreal package holds no module"))
    }
}

} // verus!
