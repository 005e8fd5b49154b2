//! Bounds-checked reads of fixed-width integers and text fields from a byte buffer.
use vstd::prelude::*;
use vstd::slice::slice_subrange;
use vstd::utf8::{decode_utf8, valid_utf8};

use crate::error::Error;

verus! {

/// The `n` bytes starting at `o` lie inside `s`.
pub open spec fn in_bounds(s: Seq<u8>, o: int, n: int) -> bool {
    0 <= o && 0 <= n && o + n <= s.len()
}

/// Little-endian 16-bit value at `o`.
pub open spec fn le16(s: Seq<u8>, o: int) -> int {
    s[o] + 256 * s[o + 1]
}

/// Little-endian 32-bit value at `o`.
pub open spec fn le32(s: Seq<u8>, o: int) -> int {
    s[o] + 256 * s[o + 1] + 65536 * s[o + 2] + 16777216 * s[o + 3]
}

/// Big-endian 16-bit value at `o`.
pub open spec fn be16(s: Seq<u8>, o: int) -> int {
    256 * s[o] + s[o + 1]
}

/// The bytes of `s` in `[o, o + n)`.
pub open spec fn field(s: Seq<u8>, o: int, n: int) -> Seq<u8> {
    s.subrange(o, o + n)
}

/// The whitespace that `u8::is_ascii_whitespace` names.
pub open spec fn is_ws(b: u8) -> bool {
    b == 32 || b == 9 || b == 10 || b == 12 || b == 13
}

/// Index of the first NUL of `f` at or after `i`, or its length.
pub open spec fn nul_at(f: Seq<u8>, i: int) -> int
    decreases f.len() - i,
{
    if i < 0 || i >= f.len() {
        f.len() as int
    } else if f[i] == 0 {
        i
    } else {
        nul_at(f, i + 1)
    }
}

/// First index at or after `i` and before `end` that holds no whitespace, or `end`.
pub open spec fn skip_ws(f: Seq<u8>, i: int, end: int) -> int
    decreases end - i,
{
    if i < end && is_ws(f[i]) {
        skip_ws(f, i + 1, end)
    } else {
        i
    }
}

/// The end of `f[lo..end]` once trailing whitespace is cut off.
pub open spec fn cut_ws(f: Seq<u8>, lo: int, end: int) -> int
    decreases end - lo,
{
    if end > lo && is_ws(f[end - 1]) {
        cut_ws(f, lo, end - 1)
    } else {
        end
    }
}

/// The text of a fixed-length field: its bytes up to the first NUL, without the whitespace
/// around them.
pub open spec fn field_text(f: Seq<u8>) -> Seq<u8> {
    let n = nul_at(f, 0);
    let a = skip_ws(f, 0, n);
    f.subrange(a, cut_ws(f, a, n))
}

/// What `String::from_utf8_lossy` makes of the bytes `b`.
pub uninterp spec fn lossy_text(b: Seq<u8>) -> Seq<char>;

/// The text a field of `n` bytes at `o` shows.
pub open spec fn text_at(s: Seq<u8>, o: int, n: int) -> Seq<char> {
    lossy_text(field_text(field(s, o, n)))
}

/// Relies on `String::from_utf8_lossy`: the characters depend on the bytes alone; bytes that
/// are not UTF-8 become U+FFFD instead of failing, and valid UTF-8 comes back as the text it
/// encodes.
#[verifier::external_body]
pub(crate) fn lossy_string(b: &[u8]) -> (r: String)
    ensures
        r@ == lossy_text(b@),
        valid_utf8(b@) ==> r@ == decode_utf8(b@),
{
    String::from_utf8_lossy(b).into_owned()
}

/// The big-endian 16-bit value at `offset`, which the buffer holds.
pub fn u16_be_at(buf: &[u8], offset: usize) -> (v: u16)
    requires
        in_bounds(buf@, offset as int, 2),
    ensures
        v == be16(buf@, offset as int),
{
    256 * (buf[offset] as u16) + buf[offset + 1] as u16
}

/// The little-endian 32-bit value at `offset`, which the buffer holds.
pub fn u32_le_at(buf: &[u8], offset: usize) -> (v: u32)
    requires
        in_bounds(buf@, offset as int, 4),
    ensures
        v == le32(buf@, offset as int),
{
    buf[offset] as u32 + 256 * (buf[offset + 1] as u32) + 65536 * (buf[offset + 2] as u32)
        + 16777216 * (buf[offset + 3] as u32)
}

pub fn read_u16_le(buf: &[u8], offset: usize) -> (r: Result<u16, Error>)
    ensures
        match r {
            Ok(v) => in_bounds(buf@, offset as int, 2) && v == le16(buf@, offset as int),
            Err(e) => !in_bounds(buf@, offset as int, 2) && e == Error::TruncatedFile,
        },
{
    if offset > buf.len() || buf.len() - offset < 2 {
        return Err(Error::TruncatedFile);
    }
    Ok(buf[offset] as u16 + 256 * (buf[offset + 1] as u16))
}

pub fn read_u16_be(buf: &[u8], offset: usize) -> (r: Result<u16, Error>)
    ensures
        match r {
            Ok(v) => in_bounds(buf@, offset as int, 2) && v == be16(buf@, offset as int),
            Err(e) => !in_bounds(buf@, offset as int, 2) && e == Error::TruncatedFile,
        },
{
    if offset > buf.len() || buf.len() - offset < 2 {
        return Err(Error::TruncatedFile);
    }
    Ok(u16_be_at(buf, offset))
}

pub fn read_u32_le(buf: &[u8], offset: usize) -> (r: Result<u32, Error>)
    ensures
        match r {
            Ok(v) => in_bounds(buf@, offset as int, 4) && v == le32(buf@, offset as int),
            Err(e) => !in_bounds(buf@, offset as int, 4) && e == Error::TruncatedFile,
        },
{
    if offset > buf.len() || buf.len() - offset < 4 {
        return Err(Error::TruncatedFile);
    }
    Ok(u32_le_at(buf, offset))
}

/// Whether the `tag.len()` bytes at `offset` are those of `tag`; false where they run past
/// the end.
pub fn has_tag(buf: &[u8], offset: usize, tag: &[u8]) -> (r: bool)
    ensures
        r == (in_bounds(buf@, offset as int, tag@.len() as int) && field(
            buf@,
            offset as int,
            tag@.len() as int,
        ) == tag@),
{
    if offset > buf.len() || buf.len() - offset < tag.len() {
        return false;
    }
    let mut i: usize = 0;
    while i < tag.len()
        invariant
            i <= tag@.len(),
            offset + tag@.len() <= buf@.len() <= usize::MAX,
            forall|j: int| 0 <= j < i ==> buf@[offset + j] == tag@[j],
        decreases tag@.len() - i,
    {
        if buf[offset + i] != tag[i] {
            assert(field(buf@, offset as int, tag@.len() as int)[i as int] != tag@[i as int]);
            return false;
        }
        i = i + 1;
    }
    assert(field(buf@, offset as int, tag@.len() as int) =~= tag@);
    true
}

/// Reads the text field of `len` bytes at `offset` (see [`field_text`]).
pub fn read_string(buf: &[u8], offset: usize, len: usize) -> (r: Result<String, Error>)
    ensures
        match r {
            Ok(s) => in_bounds(buf@, offset as int, len as int) && s@ == text_at(
                buf@,
                offset as int,
                len as int,
            ),
            Err(e) => !in_bounds(buf@, offset as int, len as int) && e == Error::TruncatedFile,
        },
{
    if offset > buf.len() || buf.len() - offset < len {
        return Err(Error::TruncatedFile);
    }
    Ok(text_field(buf, offset, len))
}

/// The text field of `len` bytes at `offset`, which the buffer holds (see [`field_text`]).
pub fn text_field(buf: &[u8], offset: usize, len: usize) -> (s: String)
    requires
        in_bounds(buf@, offset as int, len as int),
    ensures
        s@ == text_at(buf@, offset as int, len as int),
{
    let blen: usize = buf.len();
    let ghost f = field(buf@, offset as int, len as int);
    let mut n: usize = 0;
    while n < len && buf[offset + n] != 0
        invariant
            n <= len,
            offset + len <= blen == buf@.len(),
            f == field(buf@, offset as int, len as int),
            nul_at(f, n as int) == nul_at(f, 0),
        decreases len - n,
    {
        n = n + 1;
    }
    assert(nul_at(f, n as int) == n);
    let mut a: usize = 0;
    while a < n && is_space(buf[offset + a])
        invariant
            a <= n <= len,
            offset + len <= blen == buf@.len(),
            f == field(buf@, offset as int, len as int),
            skip_ws(f, a as int, n as int) == skip_ws(f, 0, n as int),
        decreases n - a,
    {
        a = a + 1;
    }
    let mut b: usize = n;
    while b > a && is_space(buf[offset + b - 1])
        invariant
            a <= b <= n <= len,
            offset + len <= blen == buf@.len(),
            f == field(buf@, offset as int, len as int),
            skip_ws(f, 0, n as int) == a,
            cut_ws(f, a as int, b as int) == cut_ws(f, a as int, n as int),
        decreases b - a,
    {
        b = b - 1;
    }
    let text = slice_subrange(buf, offset + a, offset + b);
    assert(text@ =~= field_text(f));
    lossy_string(text)
}

fn is_space(b: u8) -> (r: bool)
    ensures
        r == is_ws(b),
{
    b == 32 || b == 9 || b == 10 || b == 12 || b == 13
}

} // verus!
