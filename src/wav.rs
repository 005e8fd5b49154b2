//! The 44-byte RIFF/WAVE header in front of exported PCM.
use vstd::prelude::*;

verus! {

/// Length of a canonical WAV header.
pub const HEADER_SIZE: usize = 44;

/// `v` as four little-endian bytes.
pub open spec fn le32_bytes(v: int) -> Seq<u8> {
    seq![
        (v % 256) as u8,
        (v / 256 % 256) as u8,
        (v / 65536 % 256) as u8,
        (v / 16777216 % 256) as u8,
    ]
}

/// `v` as two little-endian bytes.
pub open spec fn le16_bytes(v: int) -> Seq<u8> {
    seq![(v % 256) as u8, (v / 256 % 256) as u8]
}

/// Number of channels: two for stereo, else one.
pub open spec fn channels(stereo: bool) -> int {
    if stereo {
        2
    } else {
        1
    }
}

/// Size of the data sub-chunk: `pcm_len` samples of `bits / 8` bytes each.
pub open spec fn data_size(bits: u8, pcm_len: u32) -> int {
    pcm_len * (bits / 8)
}

/// The header: chunk tags as ASCII (written big-endian), sizes and rates little-endian.
pub open spec fn wav_header(rate: u32, bits: u8, pcm_len: u32, stereo: bool) -> Seq<u8> {
    let ch = channels(stereo);
    let data = data_size(bits, pcm_len);
    seq![0x52u8, 0x49, 0x46, 0x46] + le32_bytes(36 + data) + seq![0x57u8, 0x41, 0x56, 0x45]
        + seq![0x66u8, 0x6d, 0x74, 0x20] + le32_bytes(16) + le16_bytes(1) + le16_bytes(ch)
        + le32_bytes(rate as int) + le32_bytes(rate * ch) + le16_bytes(ch * (bits / 8))
        + le16_bytes(bits as int) + seq![0x64u8, 0x61, 0x74, 0x61] + le32_bytes(data)
}

/// Builds the header for `pcm_len` samples of `smp_bits` bits at `smp_rate` Hz.
///
/// The byte rate field holds `smp_rate` times the number of channels; block align is the
/// number of channels times the bytes per sample; the data size is `pcm_len` times the bytes
/// per sample, and the RIFF size that plus 36.
pub fn build_header(smp_rate: u32, smp_bits: u8, pcm_len: u32, stereo: bool) -> (r: [u8; 44])
    requires
        36 + data_size(smp_bits, pcm_len) <= u32::MAX,
        smp_rate * channels(stereo) <= u32::MAX,
    ensures
        r@ == wav_header(smp_rate, smp_bits, pcm_len, stereo),
{
    let ch: u32 = if stereo {
        2
    } else {
        1
    };
    let width: u32 = (smp_bits / 8) as u32;
    let data: u32 = pcm_len * width;
    let riff: u32 = 36 + data;
    let byte_rate: u32 = smp_rate * ch;
    let align: u32 = ch * width;
    let bits: u32 = smp_bits as u32;
    let header: [u8; 44] = [
        0x52,
        0x49,
        0x46,
        0x46,
        (riff % 256) as u8,
        (riff / 256 % 256) as u8,
        (riff / 65536 % 256) as u8,
        (riff / 16777216 % 256) as u8,
        0x57,
        0x41,
        0x56,
        0x45,
        0x66,
        0x6d,
        0x74,
        0x20,
        16,
        0,
        0,
        0,
        1,
        0,
        ch as u8,
        0,
        (smp_rate % 256) as u8,
        (smp_rate / 256 % 256) as u8,
        (smp_rate / 65536 % 256) as u8,
        (smp_rate / 16777216 % 256) as u8,
        (byte_rate % 256) as u8,
        (byte_rate / 256 % 256) as u8,
        (byte_rate / 65536 % 256) as u8,
        (byte_rate / 16777216 % 256) as u8,
        (align % 256) as u8,
        (align / 256 % 256) as u8,
        (bits % 256) as u8,
        (bits / 256 % 256) as u8,
        0x64,
        0x61,
        0x74,
        0x61,
        (data % 256) as u8,
        (data / 256 % 256) as u8,
        (data / 65536 % 256) as u8,
        (data / 16777216 % 256) as u8,
    ];
    assert(header@ =~= wav_header(smp_rate, smp_bits, pcm_len, stereo));
    header
}

} // verus!
