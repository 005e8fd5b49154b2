//! Choosing a parser by file extension, with a fallback to the other formats when the
//! extension lies.
use vstd::prelude::*;
use vstd::slice::{slice_subrange, slice_to_vec};
use vstd::string::StringSliceAdditionalSpecFns;
use vstd::utf8::{decode_utf8, encode_utf8_decode_utf8, encode_utf8_valid_utf8, valid_utf8};

use crate::amig_mod::{lemma_mod_load_fits, mod_check, mod_check_message, mod_load, MODFile};
use crate::bytes::{has_tag, lossy_string, lossy_text};
use crate::error::{Error, ErrorKind};
use crate::it::{it_check, it_check_message, it_load, lemma_it_load_fits, ITFile};
use crate::module::{
    Format, ModuleView, TrackerModule, check_outcome, load_outcome, module_fits, MAX_FILE_SIZE,
};
use crate::s3m::{lemma_s3m_load_fits, s3m_check, s3m_check_message, s3m_load, S3MFile};
use crate::umx::{lemma_umx_load_fits, umx_check, umx_check_message, umx_load, UMXFile};
use crate::xm::{lemma_xm_load_fits, xm_check, xm_check_message, xm_load, XMFile};

verus! {

/// The formats in the order they are registered. MOD, whose validation only checks sizes,
/// is the generic format of last resort.
pub open spec fn registry() -> Seq<Format> {
    seq![Format::IT, Format::XM, Format::S3M, Format::UMX, Format::MOD]
}

/// The extension a format is registered under, as ASCII bytes.
pub open spec fn ext_name(f: Format) -> Seq<u8> {
    match f {
        Format::IT => seq![0x69u8, 0x74],
        Format::XM => seq![0x78u8, 0x6d],
        Format::S3M => seq![0x73u8, 0x33, 0x6d],
        Format::UMX => seq![0x75u8, 0x6d, 0x78],
        Format::MOD => seq![0x6du8, 0x6f, 0x64],
    }
}

/// The format registered under the extension `e`, if any.
pub open spec fn format_of_ext(e: Seq<u8>) -> Option<Format> {
    if e == ext_name(Format::IT) {
        Some(Format::IT)
    } else if e == ext_name(Format::XM) {
        Some(Format::XM)
    } else if e == ext_name(Format::S3M) {
        Some(Format::S3M)
    } else if e == ext_name(Format::UMX) {
        Some(Format::UMX)
    } else if e == ext_name(Format::MOD) {
        Some(Format::MOD)
    } else {
        None
    }
}

impl Format {
    /// What the format's validation says of `buf`.
    pub open spec fn check(self, buf: Seq<u8>) -> Result<(), ErrorKind> {
        match self {
            Format::IT => it_check(buf),
            Format::XM => xm_check(buf),
            Format::S3M => s3m_check(buf),
            Format::UMX => umx_check(buf),
            Format::MOD => mod_check(buf),
        }
    }

    /// The message of the error the format's validation gives for `buf`.
    pub open spec fn check_message(self, buf: Seq<u8>) -> Seq<char> {
        match self {
            Format::IT => it_check_message(buf),
            Format::XM => xm_check_message(buf),
            Format::S3M => s3m_check_message(buf),
            Format::UMX => umx_check_message(buf),
            Format::MOD => mod_check_message(buf),
        }
    }

    /// What the format's loader makes of `buf`.
    pub open spec fn loads(self, buf: Seq<u8>) -> Result<ModuleView, ErrorKind> {
        match self {
            Format::IT => it_load(buf),
            Format::XM => xm_load(buf),
            Format::S3M => s3m_load(buf),
            Format::UMX => umx_load(buf),
            Format::MOD => mod_load(buf),
        }
    }

    /// Runs the format's validation.
    pub fn validate(self, buf: &[u8]) -> (r: Result<(), Error>)
        ensures
            check_outcome(r, self.check(buf@)),
            r matches Err(e) ==> e.message() == self.check_message(buf@),
    {
        match self {
            Format::IT => ITFile::validate(buf),
            Format::XM => XMFile::validate(buf),
            Format::S3M => S3MFile::validate(buf),
            Format::UMX => UMXFile::validate(buf),
            Format::MOD => MODFile::validate(buf),
        }
    }

    /// Runs the format's loader.
    pub fn load(self, buf: Vec<u8>) -> (r: Result<TrackerModule, Error>)
        ensures
            load_outcome(r, self.loads(buf@)),
    {
        match self {
            Format::IT => ITFile::load_from_buf(buf),
            Format::XM => XMFile::load_from_buf(buf),
            Format::S3M => S3MFile::load_from_buf(buf),
            Format::UMX => UMXFile::load_from_buf(buf),
            Format::MOD => MODFile::load_from_buf(buf),
        }
    }

    /// The format registered under the extension `ext` (exact, lower case).
    pub fn from_ext(ext: &[u8]) -> (r: Option<Format>)
        ensures
            r == format_of_ext(ext@),
    {
        if ext_is(ext, Format::IT) {
            Some(Format::IT)
        } else if ext_is(ext, Format::XM) {
            Some(Format::XM)
        } else if ext_is(ext, Format::S3M) {
            Some(Format::S3M)
        } else if ext_is(ext, Format::UMX) {
            Some(Format::UMX)
        } else if ext_is(ext, Format::MOD) {
            Some(Format::MOD)
        } else {
            None
        }
    }
}

fn ext_bytes(f: Format) -> (r: Vec<u8>)
    ensures
        r@ == ext_name(f),
{
    let r: Vec<u8> = match f {
        Format::IT => vec![0x69u8, 0x74],
        Format::XM => vec![0x78u8, 0x6d],
        Format::S3M => vec![0x73u8, 0x33, 0x6d],
        Format::UMX => vec![0x75u8, 0x6d, 0x78],
        Format::MOD => vec![0x6du8, 0x6f, 0x64],
    };
    assert(r@ =~= ext_name(f));
    r
}

fn ext_is(ext: &[u8], f: Format) -> (r: bool)
    ensures
        r == (ext@ == ext_name(f)),
{
    let name = ext_bytes(f);
    if ext.len() != name.len() {
        return false;
    }
    let r = has_tag(ext, 0, name.as_slice());
    assert(ext@.subrange(0, name@.len() as int) =~= ext@);
    r
}

/// The first registered format from position `i` on that is neither `tried` nor MOD and
/// whose validation accepts `buf`.
pub open spec fn fallback(buf: Seq<u8>, tried: Format, i: nat) -> Option<Format>
    decreases 5 - i,
{
    if i >= 5 {
        None
    } else {
        let g = registry()[i as int];
        if g != tried && g != Format::MOD && g.check(buf) is Ok {
            Some(g)
        } else {
            fallback(buf, tried, i + 1)
        }
    }
}

/// What loading `buf` under the extension `ext` gives.
///
/// The format registered under `ext` is validated first and, where that passes, loads the
/// buffer. Where it fails, the other formats are validated in their registered order and the
/// first that passes loads the buffer; MOD, being generic, comes last of all. Where none
/// passes, the error is the one the first validation gave.
pub open spec fn load_spec(buf: Seq<u8>, ext: Seq<u8>) -> Result<ModuleView, ErrorKind> {
    if buf.len() > MAX_FILE_SIZE {
        Err(ErrorKind::Io)
    } else {
        match format_of_ext(ext) {
            None => Err(ErrorKind::UnsupportedFormat),
            Some(f) => match f.check(buf) {
                Ok(_) => f.loads(buf),
                Err(first) => match fallback(buf, f, 0) {
                    Some(g) => g.loads(buf),
                    None => if f != Format::MOD && mod_check(buf) is Ok {
                        mod_load(buf)
                    } else {
                        Err(first)
                    },
                },
            },
        }
    }
}

/// The extension `ext` names a format whose validation rejects `buf`, and neither another
/// format nor MOD as the last resort accepts it: the loader then gives the first error.
pub open spec fn first_error_kept(buf: Seq<u8>, ext: Seq<u8>) -> bool {
    &&& buf.len() <= MAX_FILE_SIZE
    &&& format_of_ext(ext) is Some
    &&& format_of_ext(ext)->Some_0.check(buf) is Err
    &&& fallback(buf, format_of_ext(ext)->Some_0, 0) is None
    &&& !(format_of_ext(ext)->Some_0 != Format::MOD && mod_check(buf) is Ok)
}

/// `e` is the error the validation of the format registered under `ext` gives for `buf`.
pub open spec fn is_first_error(e: Error, buf: Seq<u8>, ext: Seq<u8>) -> bool {
    &&& e.kind() == format_of_ext(ext)->Some_0.check(buf)->Err_0
    &&& e.message() == format_of_ext(ext)->Some_0.check_message(buf)
}

/// The lower-cased extension of the path `p`, under which its format is chosen.
pub open spec fn lowered_extension(p: Seq<u8>) -> Seq<u8> {
    extension_of(p).map_values(|b: u8| ascii_lower(b))
}

/// Whatever the bytes and the extension, a module the loader gives lists only non-empty
/// samples, each lying inside the module's buffer.
pub proof fn lemma_loaded_samples_fit(buf: Seq<u8>, ext: Seq<u8>)
    ensures
        load_spec(buf, ext) is Ok ==> module_fits(load_spec(buf, ext)->Ok_0),
{
    lemma_it_load_fits(buf);
    lemma_xm_load_fits(buf);
    lemma_s3m_load_fits(buf);
    lemma_umx_load_fits(buf);
    lemma_mod_load_fits(buf);
}

/// A buffer that only MOD's validation accepts is loaded as MOD under the extension of any
/// other registered format.
pub proof fn lemma_generic_fallback(buf: Seq<u8>, ext: Seq<u8>)
    requires
        buf.len() <= MAX_FILE_SIZE,
        format_of_ext(ext) is Some,
        format_of_ext(ext)->Some_0 != Format::MOD,
        forall|i: int| 0 <= i < 4 ==> (#[trigger] registry()[i]).check(buf) is Err,
        mod_check(buf) is Ok,
    ensures
        load_spec(buf, ext) == mod_load(buf),
{
    let f = format_of_ext(ext)->Some_0;
    assert(registry()[0].check(buf) is Err);
    assert(registry()[1].check(buf) is Err);
    assert(registry()[2].check(buf) is Err);
    assert(registry()[3].check(buf) is Err);
    assert(fallback(buf, f, 0) is None) by {
        reveal_with_fuel(fallback, 6);
    }
}

/// The message of the error for an extension `ext` that names no registered format:
/// `'<ext>' is not a supported format.`
pub open spec fn unsupported_message(ext: Seq<char>) -> Seq<char> {
    "'"@ + ext + "' is not a supported format."@
}

/// `b` in lower case where it is an ASCII capital.
pub open spec fn ascii_lower(b: u8) -> u8 {
    if 65 <= b <= 90 {
        (b + 32) as u8
    } else {
        b
    }
}

/// Where a run of trailing `/` before `end` begins.
pub open spec fn trim_slashes(p: Seq<u8>, end: int) -> int
    decreases end,
{
    if end > 0 && p[end - 1] == 0x2f {
        trim_slashes(p, end - 1)
    } else {
        end
    }
}

/// The last index in `[lo, hi)` that holds `b`, or `lo - 1`.
pub open spec fn last_index(p: Seq<u8>, b: u8, lo: int, hi: int) -> int
    decreases hi - lo,
{
    if hi <= lo {
        lo - 1
    } else if p[hi - 1] == b {
        hi - 1
    } else {
        last_index(p, b, lo, hi - 1)
    }
}

/// The extension of the path `p`: what follows the last `.` of its last `/`-separated
/// component (trailing `/` ignored), or nothing where that component has no `.` after its
/// first byte.
pub open spec fn extension_of(p: Seq<u8>) -> Seq<u8> {
    let end = trim_slashes(p, p.len() as int);
    let start = last_index(p, 0x2f, 0, end) + 1;
    let dot = last_index(p, 0x2e, start, end);
    if dot <= start {
        Seq::empty()
    } else {
        p.subrange(dot + 1, end)
    }
}

/// The extension of `path` (see [`extension_of`]), as it is written.
fn file_extension(path: &[u8]) -> (r: Vec<u8>)
    ensures
        r@ == extension_of(path@),
{
    let mut end: usize = path.len();
    while end > 0 && path[end - 1] == 0x2f
        invariant
            end <= path@.len(),
            trim_slashes(path@, end as int) == trim_slashes(path@, path@.len() as int),
        decreases end,
    {
        end = end - 1;
    }
    let mut s: usize = end;
    while s > 0 && path[s - 1] != 0x2f
        invariant
            s <= end <= path@.len(),
            last_index(path@, 0x2f, 0, s as int) == last_index(path@, 0x2f, 0, end as int),
        decreases s,
    {
        s = s - 1;
    }
    let mut d: usize = end;
    while d > s && path[d - 1] != 0x2e
        invariant
            s <= d <= end <= path@.len(),
            last_index(path@, 0x2e, s as int, d as int) == last_index(path@, 0x2e, s as int, end as int),
        decreases d,
    {
        d = d - 1;
    }
    if d <= s + 1 {
        assert(extension_of(path@) =~= Seq::<u8>::empty());
        return Vec::new();
    }
    slice_to_vec(slice_subrange(path, d, end))
}

/// `b` with its ASCII capitals in lower case.
fn ascii_lowercase(b: &[u8]) -> (r: Vec<u8>)
    ensures
        r@ == b@.map_values(|x: u8| ascii_lower(x)),
{
    let mut out: Vec<u8> = Vec::new();
    let mut i: usize = 0;
    while i < b.len()
        invariant
            i <= b@.len(),
            out@ == b@.subrange(0, i as int).map_values(|x: u8| ascii_lower(x)),
        decreases b@.len() - i,
    {
        let c = b[i];
        let lower: u8 = if 65 <= c && c <= 90 {
            c + 32
        } else {
            c
        };
        out.push(lower);
        assert(b@.subrange(0, i + 1) =~= b@.subrange(0, i as int).push(c));
        i = i + 1;
    }
    assert(b@.subrange(0, b@.len() as int) =~= b@);
    out
}

/// Rejects files over the size ceiling before they are read.
pub fn check_file_size(len: u64) -> (r: Result<(), Error>)
    ensures
        match r {
            Ok(_) => len <= MAX_FILE_SIZE,
            Err(e) => len > MAX_FILE_SIZE && e.kind() == ErrorKind::Io,
        },
{
    if len > MAX_FILE_SIZE as u64 {
        return Err(
            Error::io(
                "File provided is larger than 64MB. No tracker module should ever be close to that",
            ),
        );
    }
    Ok(())
}

/// Loads `buf` as the format registered under `ext`, falling back on the others (see
/// [`load_spec`]).
fn load_with(buf: Vec<u8>, ext: &[u8]) -> (r: Result<TrackerModule, Error>)
    ensures
        load_outcome(r, load_spec(buf@, ext@)),
        buf@.len() <= MAX_FILE_SIZE && format_of_ext(ext@) is None ==> (r matches Err(
            Error::UnsupportedFormat(m),
        ) && m@ == unsupported_message(lossy_text(ext@)) && (valid_utf8(ext@) ==> m@
            == unsupported_message(decode_utf8(ext@)))),
        first_error_kept(buf@, ext@) ==> (r matches Err(e) && is_first_error(e, buf@, ext@)),
{
    if buf.len() > MAX_FILE_SIZE {
        return Err(Error::io("File provided is larger than 64MB"));
    }
    let f = match Format::from_ext(ext) {
        Some(f) => f,
        None => {
            let mut msg = String::from_str("'");
            msg.append(lossy_string(ext).as_str());
            msg.append("' is not a supported format.");
            return Err(Error::UnsupportedFormat(msg));
        },
    };
    let first_err = match f.validate(buf.as_slice()) {
        Ok(()) => return f.load(buf),
        Err(e) => e,
    };
    match find_fallback(buf.as_slice(), f) {
        Some(g) => g.load(buf),
        None => {
            if f != Format::MOD {
                match MODFile::validate(buf.as_slice()) {
                    Ok(()) => return MODFile::load_from_buf(buf),
                    Err(_) => {},
                }
            }
            Err(first_err)
        },
    }
}

/// The first registered format, neither `tried` nor MOD, that accepts `buf` (see
/// [`fallback`]).
fn find_fallback(buf: &[u8], tried: Format) -> (r: Option<Format>)
    ensures
        r == fallback(buf@, tried, 0),
{
    let mut i: usize = 0;
    while i < 5
        invariant
            i <= 5,
            fallback(buf@, tried, i as nat) == fallback(buf@, tried, 0),
        decreases 5 - i,
    {
        let g = registered(i);
        if g != tried && g != Format::MOD {
            match g.validate(buf) {
                Ok(()) => return Some(g),
                Err(_) => {},
            }
        }
        i = i + 1;
    }
    None
}

/// The format registered at position `i`.
fn registered(i: usize) -> (r: Format)
    requires
        i < 5,
    ensures
        r == registry()[i as int],
{
    if i == 0 {
        Format::IT
    } else if i == 1 {
        Format::XM
    } else if i == 2 {
        Format::S3M
    } else if i == 3 {
        Format::UMX
    } else {
        Format::MOD
    }
}

/// The format registered under the extension of `path`, in any case.
pub fn format_of_path(path: &str) -> (r: Option<Format>)
    ensures
        r == format_of_ext(lowered_extension(path.spec_bytes())),
{
    let ext = ascii_lowercase(file_extension(path.as_bytes()).as_slice());
    Format::from_ext(ext.as_slice())
}

/// Loads the module in `buf`, read from the file at `path`: the format is chosen by the
/// path's extension in any case, with the fallback of [`load_spec`].
pub fn load_module(path: &str, buf: Vec<u8>) -> (r: Result<TrackerModule, Error>)
    ensures
        load_outcome(r, load_spec(buf@, lowered_extension(path.spec_bytes()))),
        buf@.len() <= MAX_FILE_SIZE && format_of_ext(lowered_extension(path.spec_bytes())) is None
            ==> (r matches Err(Error::UnsupportedFormat(m)) && m@ == unsupported_message(
            lossy_text(lowered_extension(path.spec_bytes())),
        ) && (valid_utf8(lowered_extension(path.spec_bytes())) ==> m@ == unsupported_message(
            decode_utf8(lowered_extension(path.spec_bytes())),
        ))),
        first_error_kept(buf@, lowered_extension(path.spec_bytes())) ==> (r matches Err(e)
            && is_first_error(e, buf@, lowered_extension(path.spec_bytes()))),
{
    let ext = ascii_lowercase(file_extension(path.as_bytes()).as_slice());
    load_with(buf, ext.as_slice())
}

/// Loads the module in `buf` as the format registered under `ext` (exact, lower case), with
/// the fallback of [`load_spec`].
pub fn load_from_ext(buf: Vec<u8>, ext: &str) -> (r: Result<TrackerModule, Error>)
    ensures
        load_outcome(r, load_spec(buf@, ext.spec_bytes())),
        buf@.len() <= MAX_FILE_SIZE && format_of_ext(ext.spec_bytes()) is None ==> (r matches Err(
            Error::UnsupportedFormat(m),
        ) && m@ == unsupported_message(ext@)),
        first_error_kept(buf@, ext.spec_bytes()) ==> (r matches Err(e) && is_first_error(
            e,
            buf@,
            ext.spec_bytes(),
        )),
{
    proof {
        encode_utf8_valid_utf8(ext@);
        encode_utf8_decode_utf8(ext@);
    }
    load_with(buf, ext.as_bytes())
}

} // verus!
