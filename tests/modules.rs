use xmodits::amig_mod::MODFile;
use xmodits::it::ITFile;
use xmodits::loader::check_file_size;
use xmodits::s3m::S3MFile;
use xmodits::umx::UMXFile;
use xmodits::xm::XMFile;
use xmodits::{load_from_ext, load_module, Encoding, ErrorKind, Filters, Format, SupportedFormat};
use xmodits::{Error, TrackerModule};

fn kind(e: &Error) -> ErrorKind {
    match e {
        Error::Io(_) => ErrorKind::Io,
        Error::UnsupportedFormat(_) => ErrorKind::UnsupportedFormat,
        Error::InvalidFile(_) => ErrorKind::InvalidFile,
        Error::TruncatedFile => ErrorKind::TruncatedFile,
    }
}

fn err_kind(r: Result<TrackerModule, Error>) -> ErrorKind {
    match r {
        Ok(_) => panic!("expected an error"),
        Err(e) => kind(&e),
    }
}

fn text(s: &str, n: usize) -> Vec<u8> {
    let mut v = s.as_bytes().to_vec();
    v.resize(n, 0);
    v
}

/// A MOD file with `slots` sample headers; `samples` gives names and lengths in words. The
/// sample data starts where the pattern data that begins at the tag's offset ends.
fn mod_bytes(slots: usize, samples: &[(&str, u16)], max_pattern: u8) -> Vec<u8> {
    let mut b = text("mod title", 20);
    for i in 0..slots {
        let mut hdr = vec![0u8; 30];
        if let Some((name, words)) = samples.get(i) {
            hdr[..22].copy_from_slice(&text(name, 22));
            hdr[22..24].copy_from_slice(&words.to_be_bytes());
            hdr[25] = 64;
            hdr[29] = 1;
        }
        b.extend(hdr);
    }
    b.push(1);
    b.push(127);
    let mut table = vec![0u8; 128];
    table[0] = max_pattern;
    b.extend(table);
    let mut patterns = (max_pattern as usize + 1) * 1024;
    if slots == 31 {
        b.extend(b"M.K.");
        patterns -= 4;
    }
    b.extend(vec![0u8; patterns]);
    for (i, (_, words)) in samples.iter().enumerate() {
        for k in 0..(2 * *words as usize) {
            b.push((i * 16 + k % 16) as u8);
        }
    }
    b
}

struct XmSmp {
    name: &'static str,
    sixteen: bool,
    note: i8,
    finetune: i8,
    data: Vec<u8>,
}

fn xm_bytes(patterns: &[usize], instruments: &[Vec<XmSmp>]) -> Vec<u8> {
    let mut b = b"Extended Module: ".to_vec();
    b.extend(text("xm title", 20));
    b.push(0x1a);
    b.extend(text("FastTracker v2.00", 20));
    b.extend(0x0104u16.to_le_bytes());
    b.extend(276u32.to_le_bytes());
    b.extend(1u16.to_le_bytes());
    b.extend(0u16.to_le_bytes());
    b.extend(4u16.to_le_bytes());
    b.extend((patterns.len() as u16).to_le_bytes());
    b.extend((instruments.len() as u16).to_le_bytes());
    b.extend(1u16.to_le_bytes());
    b.extend(6u16.to_le_bytes());
    b.extend(125u16.to_le_bytes());
    b.extend(vec![0u8; 256]);
    assert_eq!(b.len(), 336);
    for &n in patterns {
        b.extend(9u32.to_le_bytes());
        b.push(0);
        b.extend(64u16.to_le_bytes());
        b.extend((n as u16).to_le_bytes());
        b.extend(vec![0x80u8; n]);
    }
    for smps in instruments {
        let mut ins = vec![0u8; 263];
        ins[..4].copy_from_slice(&263u32.to_le_bytes());
        ins[4..26].copy_from_slice(&text("instrument", 22));
        ins[27..29].copy_from_slice(&(smps.len() as u16).to_le_bytes());
        ins[29..33].copy_from_slice(&40u32.to_le_bytes());
        b.extend(ins);
        for s in smps {
            let mut h = vec![0u8; 40];
            h[..4].copy_from_slice(&(s.data.len() as u32).to_le_bytes());
            h[0x0c] = 64;
            h[0x0d] = s.finetune as u8;
            h[0x0e] = if s.sixteen { 0x10 } else { 0 };
            h[0x10] = s.note as u8;
            h[0x12..0x28].copy_from_slice(&text(s.name, 22));
            b.extend(h);
        }
        for s in smps {
            b.extend(&s.data);
        }
    }
    b
}

struct RawSmp {
    name: &'static str,
    flags: u8,
    rate: u32,
    count: u32,
    data: Vec<u8>,
}

/// An S3M file; each instrument is `Some` sample or `None` for an AdLib instrument.
fn s3m_bytes(ffi: u16, instruments: &[Option<RawSmp>]) -> Vec<u8> {
    let n = instruments.len();
    let mut b = text("s3m title", 28);
    b.push(0x1a);
    b.push(0x10);
    b.extend([0u8, 0]);
    b.extend(2u16.to_le_bytes());
    b.extend((n as u16).to_le_bytes());
    b.extend(0u16.to_le_bytes());
    b.extend(0u16.to_le_bytes());
    b.extend(0x1320u16.to_le_bytes());
    b.extend(ffi.to_le_bytes());
    b.extend(b"SCRM");
    b.resize(0x60, 0);
    b.extend([0u8, 255]);
    let ins_start = 0x100usize;
    for i in 0..n {
        b.extend((((ins_start + 0x50 * i) / 16) as u16).to_le_bytes());
    }
    b.resize(ins_start + 0x50 * n, 0);
    let mut data_at = (b.len() + 15) / 16 * 16;
    let mut datas = Vec::new();
    for (i, ins) in instruments.iter().enumerate() {
        let o = ins_start + 0x50 * i;
        match ins {
            None => {
                b[o] = 2;
                b[o + 0x30..o + 0x30 + 28].copy_from_slice(&text("adlib", 28));
            }
            Some(s) => {
                let seg = data_at / 16;
                b[o] = 1;
                b[o + 0x0d] = (seg >> 16) as u8;
                b[o + 0x0e..o + 0x10].copy_from_slice(&((seg & 0xffff) as u16).to_le_bytes());
                b[o + 0x10..o + 0x14].copy_from_slice(&s.count.to_le_bytes());
                b[o + 0x1c] = 64;
                b[o + 0x1f] = s.flags;
                b[o + 0x20..o + 0x24].copy_from_slice(&s.rate.to_le_bytes());
                b[o + 0x30..o + 0x30 + 28].copy_from_slice(&text(s.name, 28));
                b[o + 0x4c..o + 0x50].copy_from_slice(b"SCRS");
                datas.push((data_at, s.data.clone()));
                data_at = (data_at + s.data.len() + 15) / 16 * 16;
            }
        }
    }
    for (at, d) in datas {
        if b.len() < at {
            b.resize(at, 0);
        }
        b.extend(d);
    }
    b
}

/// An IT file with the given sample headers; `cvt` bit 0 marks signed samples.
fn it_bytes(samples: &[(RawSmp, u8)]) -> Vec<u8> {
    let n = samples.len();
    let mut b = b"IMPM".to_vec();
    b.extend(text("it title", 26));
    b.resize(0x20, 0);
    b.extend(2u16.to_le_bytes());
    b.extend(1u16.to_le_bytes());
    b.extend((n as u16).to_le_bytes());
    b.extend(0u16.to_le_bytes());
    b.extend(0x0214u16.to_le_bytes());
    b.extend(0x0214u16.to_le_bytes());
    b.resize(0xc0, 0);
    b.extend([0u8, 255]);
    b.extend(0u32.to_le_bytes());
    let hdr_start = b.len() + 4 * n;
    for i in 0..n {
        b.extend(((hdr_start + 0x50 * i) as u32).to_le_bytes());
    }
    let mut data_at = hdr_start + 0x50 * n;
    let mut datas = Vec::new();
    for (s, cvt) in samples {
        let mut h = vec![0u8; 0x50];
        h[..4].copy_from_slice(b"IMPS");
        h[0x11] = 64;
        h[0x12] = s.flags;
        h[0x13] = 64;
        h[0x14..0x14 + 26].copy_from_slice(&text(s.name, 26));
        h[0x2e] = *cvt;
        h[0x30..0x34].copy_from_slice(&s.count.to_le_bytes());
        h[0x3c..0x40].copy_from_slice(&s.rate.to_le_bytes());
        h[0x48..0x4c].copy_from_slice(&(data_at as u32).to_le_bytes());
        b.extend(h);
        datas.push(s.data.clone());
        data_at += s.data.len();
    }
    for d in datas {
        b.extend(d);
    }
    b
}

fn umx_wrap(inner: &[u8]) -> Vec<u8> {
    let mut b = 0x9e2a83c1u32.to_le_bytes().to_vec();
    b.extend(61u16.to_le_bytes());
    b.extend(0u16.to_le_bytes());
    b.resize(0x24, 0);
    b.extend(b"\x06Music\x00\x05None\x00");
    b.extend(inner);
    b
}

fn names(m: &TrackerModule) -> Vec<String> {
    m.sample_list().iter().map(|s| s.name.clone()).collect()
}

// ---- MOD ----

#[test]
fn mod_31_sample_layout_is_detected() {
    let b = mod_bytes(31, &[("kick", 4)], 0);
    assert_eq!(MODFile::sample_slots(&b).unwrap(), 31);
}

#[test]
fn mod_15_sample_layout_is_detected() {
    let b = mod_bytes(15, &[("kick", 4)], 0);
    assert_eq!(MODFile::sample_slots(&b).unwrap(), 15);
    let m = MODFile::load_from_buf(b).unwrap();
    assert_eq!(m.number_of_samples(), 1);
    assert_eq!(m.sample_list()[0].ptr, 600 + 1024);
}

#[test]
fn mod_load_lists_samples_in_order() {
    let b = mod_bytes(31, &[("kick", 4), ("snare", 2)], 1);
    let m = MODFile::load_from_buf(b).unwrap();
    assert_eq!(m.module_name(), "mod title");
    assert_eq!(m.format(), Format::MOD);
    assert_eq!(names(&m), vec!["kick".to_string(), "snare".to_string()]);
    let s = m.sample_list();
    assert_eq!((s[0].ptr, s[0].len), (1080 + 2048, 8));
    assert_eq!((s[1].ptr, s[1].len), (1080 + 2048 + 8, 4));
    assert_eq!((s[0].bits, s[0].rate, s[0].stereo), (8, 8363, false));
    assert_eq!(s[0].encoding, Encoding::Signed);
}

#[test]
fn mod_zero_length_slot_is_not_listed() {
    let b = mod_bytes(31, &[("a", 2), ("empty", 0), ("b", 2)], 0);
    let m = MODFile::load_from_buf(b).unwrap();
    assert_eq!(names(&m), vec!["a".to_string(), "b".to_string()]);
    assert!(m.sample_list().iter().all(|s| s.len > 0));
    assert_eq!(m.sample_list()[1].ptr, 1080 + 1024 + 4);
}

#[test]
fn mod_sample_past_the_end_is_cut() {
    let mut b = mod_bytes(31, &[("a", 2), ("long", 100)], 0);
    let full = b.len();
    b.truncate(full - 150);
    let m = MODFile::load_from_buf(b).unwrap();
    let s = m.sample_list();
    assert_eq!(s[1].len, 200 - 150);
    assert_eq!(s[1].ptr + s[1].len, full - 150);
}

#[test]
fn mod_sample_entirely_past_the_end_is_dropped() {
    let mut b = mod_bytes(31, &[("a", 2), ("gone", 4)], 0);
    let full = b.len();
    b.truncate(full - 8);
    let m = MODFile::load_from_buf(b).unwrap();
    assert_eq!(names(&m), vec!["a".to_string()]);
}

#[test]
fn mod_pcm_is_converted_to_unsigned() {
    let b = mod_bytes(31, &[("a", 2)], 0);
    let m = MODFile::load_from_buf(b).unwrap();
    assert_eq!(m.pcm(0), vec![0x80, 0x81, 0x82, 0x83]);
    let wav = m.wav(0).unwrap();
    assert_eq!(&wav[0..4], b"RIFF");
    assert_eq!(u32::from_le_bytes([wav[40], wav[41], wav[42], wav[43]]), 4);
    assert_eq!(&wav[44..], &[0x80, 0x81, 0x82, 0x83]);
}

#[test]
fn mod_too_small_is_invalid() {
    let e = MODFile::validate(&[0u8; 1000]).unwrap_err();
    assert_eq!(kind(&e), ErrorKind::InvalidFile);
    assert_eq!(err_kind(MODFile::load_from_buf(vec![0u8; 1083])), ErrorKind::InvalidFile);
}

#[test]
fn mod_missing_patterns_are_truncated() {
    let mut b = mod_bytes(31, &[("a", 2)], 3);
    b.truncate(1084 + 2000);
    assert_eq!(err_kind(MODFile::load_from_buf(b)), ErrorKind::TruncatedFile);
}

// ---- XM ----

fn sample_xm() -> Vec<u8> {
    xm_bytes(
        &[10, 0],
        &[vec![
            XmSmp { name: "lead", sixteen: false, note: 0, finetune: 0, data: vec![1, 1, 1, 1] },
            XmSmp {
                name: "bass",
                sixteen: true,
                note: 12,
                finetune: 0,
                data: vec![0x00, 0x01, 0x00, 0x01, 0xff, 0xff],
            },
        ]],
    )
}

#[test]
fn xm_load_walks_patterns_and_instruments() {
    let m = XMFile::load_from_buf(sample_xm()).unwrap();
    assert_eq!(m.module_name(), "xm title");
    assert_eq!(m.format(), Format::XM);
    let s = m.sample_list();
    assert_eq!(s.len(), 2);
    assert_eq!(s[0].name, "lead");
    assert_eq!((s[0].ptr, s[0].len, s[0].bits), (336 + 19 + 9 + 263 + 80, 4, 8));
    assert_eq!((s[1].ptr, s[1].len, s[1].bits), (336 + 19 + 9 + 263 + 84, 6, 16));
    assert_eq!(s[0].encoding, Encoding::Delta8);
    assert_eq!(s[1].encoding, Encoding::Delta16);
}

#[test]
fn xm_rates_follow_note_and_finetune() {
    let m = XMFile::load_from_buf(sample_xm()).unwrap();
    assert_eq!(m.sample_list()[0].rate, 8363);
    assert_eq!(m.sample_list()[1].rate, 16726);
    let b = xm_bytes(
        &[],
        &[vec![
            XmSmp { name: "down", sixteen: false, note: -12, finetune: 0, data: vec![0; 2] },
            XmSmp { name: "fifth", sixteen: false, note: 7, finetune: 0, data: vec![0; 2] },
            XmSmp { name: "fine", sixteen: false, note: 0, finetune: 127, data: vec![0; 2] },
        ]],
    );
    let m = XMFile::load_from_buf(b).unwrap();
    let rates: Vec<u32> = m.sample_list().iter().map(|s| s.rate).collect();
    // 8363 * 2^-1, 8363 * 2^(7/12), 8363 * 2^(127/1536)
    assert_eq!(rates, vec![4181, 12530, 8856]);
}

#[test]
fn xm_pcm_is_delta_decoded() {
    let m = XMFile::load_from_buf(sample_xm()).unwrap();
    assert_eq!(m.pcm(0), vec![0x81, 0x82, 0x83, 0x84]);
    assert_eq!(m.pcm(1), vec![0x00, 0x01, 0x00, 0x02, 0xff, 0x01]);
    let wav = m.wav(1).unwrap();
    assert_eq!(u32::from_le_bytes([wav[40], wav[41], wav[42], wav[43]]), 6);
    assert_eq!(u16::from_le_bytes([wav[34], wav[35]]), 16);
}

#[test]
fn xm_empty_sample_is_not_listed() {
    let b = xm_bytes(
        &[],
        &[vec![
            XmSmp { name: "none", sixteen: false, note: 0, finetune: 0, data: vec![] },
            XmSmp { name: "some", sixteen: false, note: 0, finetune: 0, data: vec![5] },
        ]],
    );
    let m = XMFile::load_from_buf(b).unwrap();
    assert_eq!(names(&m), vec!["some".to_string()]);
}

#[test]
fn xm_sample_past_the_end_stops_the_instrument() {
    let mut b = xm_bytes(
        &[],
        &[vec![
            XmSmp { name: "ok", sixteen: false, note: 0, finetune: 0, data: vec![1; 8] },
            XmSmp { name: "cut", sixteen: false, note: 0, finetune: 0, data: vec![1; 8] },
        ]],
    );
    let full = b.len();
    b.truncate(full - 3);
    let m = XMFile::load_from_buf(b).unwrap();
    assert_eq!(names(&m), vec!["ok".to_string()]);
}

#[test]
fn xm_validation_errors() {
    let good = sample_xm();
    assert!(XMFile::validate(&good).is_ok());

    let mut bad_tag = good.clone();
    bad_tag[0] = b'e';
    assert_eq!(kind(&XMFile::validate(&bad_tag).unwrap_err()), ErrorKind::InvalidFile);

    let mut bad_magic = good.clone();
    bad_magic[0x25] = 0;
    assert_eq!(kind(&XMFile::validate(&bad_magic).unwrap_err()), ErrorKind::InvalidFile);

    let mut old = good.clone();
    old[0x3a] = 0x03;
    assert_eq!(kind(&XMFile::validate(&old).unwrap_err()), ErrorKind::UnsupportedFormat);

    let mut packed = good.clone();
    packed[0x26..0x3a].copy_from_slice(b"MOD Plugin packed   ");
    assert_eq!(kind(&XMFile::validate(&packed).unwrap_err()), ErrorKind::UnsupportedFormat);

    assert_eq!(kind(&XMFile::validate(&good[..59]).unwrap_err()), ErrorKind::InvalidFile);
}

#[test]
fn xm_too_many_patterns_or_instruments_is_invalid() {
    let mut b = sample_xm();
    b[0x46..0x48].copy_from_slice(&257u16.to_le_bytes());
    assert_eq!(err_kind(XMFile::load_from_buf(b)), ErrorKind::InvalidFile);
    let mut b = xm_bytes(&[], &[]);
    b[0x48..0x4a].copy_from_slice(&129u16.to_le_bytes());
    assert_eq!(err_kind(XMFile::load_from_buf(b)), ErrorKind::InvalidFile);
}

#[test]
fn xm_truncated_prefixes_never_panic() {
    let good = sample_xm();
    for n in 0..good.len() {
        match XMFile::load_from_buf(good[..n].to_vec()) {
            Ok(m) => {
                for s in m.sample_list() {
                    assert!(s.len > 0 && s.ptr + s.len <= n);
                }
            }
            Err(e) => {
                let k = kind(&e);
                assert!(k == ErrorKind::TruncatedFile || k == ErrorKind::InvalidFile);
            }
        }
    }
    assert_eq!(err_kind(XMFile::load_from_buf(good[..70].to_vec())), ErrorKind::TruncatedFile);
    assert_eq!(err_kind(XMFile::load_from_buf(good[..380].to_vec())), ErrorKind::TruncatedFile);
}

// ---- S3M ----

#[test]
fn s3m_load_reads_pcm_instruments() {
    let b = s3m_bytes(
        2,
        &[
            Some(RawSmp { name: "piano", flags: 0, rate: 8363, count: 4, data: vec![10, 20, 30, 40] }),
            None,
            Some(RawSmp {
                name: "strings",
                flags: 0b110,
                rate: 22050,
                count: 2,
                data: vec![1, 2, 3, 4, 5, 6, 7, 8],
            }),
        ],
    );
    let m = S3MFile::load_from_buf(b).unwrap();
    assert_eq!(m.module_name(), "s3m title");
    assert_eq!(names(&m), vec!["piano".to_string(), "strings".to_string()]);
    let s = m.sample_list();
    assert_eq!((s[0].len, s[0].bits, s[0].stereo, s[0].rate), (4, 8, false, 8363));
    assert_eq!((s[1].len, s[1].bits, s[1].stereo, s[1].rate), (8, 16, true, 22050));
    assert_eq!(s[0].encoding, Encoding::Unsigned);
    assert_eq!(m.pcm(0), vec![10, 20, 30, 40]);
    assert_eq!(m.pcm(1), vec![1, 2, 3, 4, 5, 6, 7, 8]);
}

#[test]
fn s3m_signed_samples_are_converted() {
    let b = s3m_bytes(1, &[Some(RawSmp { name: "s", flags: 0, rate: 8363, count: 2, data: vec![0, 0x7f] })]);
    let m = S3MFile::load_from_buf(b).unwrap();
    assert_eq!(m.sample_list()[0].encoding, Encoding::Signed);
    assert_eq!(m.pcm(0), vec![0x80, 0xff]);
}

#[test]
fn s3m_sample_past_the_end_is_cut_to_whole_samples() {
    let mut b = s3m_bytes(
        2,
        &[Some(RawSmp { name: "s", flags: 0b100, rate: 8363, count: 8, data: vec![1; 16] })],
    );
    let full = b.len();
    b.truncate(full - 7);
    let m = S3MFile::load_from_buf(b).unwrap();
    assert_eq!(m.sample_list()[0].len, 8);
}

#[test]
fn s3m_errors() {
    assert_eq!(err_kind(S3MFile::load_from_buf(vec![0u8; 0x60])), ErrorKind::InvalidFile);
    let b = s3m_bytes(2, &[Some(RawSmp { name: "s", flags: 0, rate: 8363, count: 2, data: vec![1, 2] })]);
    assert_eq!(err_kind(S3MFile::load_from_buf(b[..0x110].to_vec())), ErrorKind::TruncatedFile);
}

// ---- IT ----

fn sample_it() -> Vec<u8> {
    it_bytes(&[
        (RawSmp { name: "signed", flags: 0b0001, rate: 44100, count: 3, data: vec![0, 1, 0xff] }, 1),
        (RawSmp { name: "unsigned16", flags: 0b0011, rate: 22050, count: 2, data: vec![1, 2, 3, 4] }, 0),
        (RawSmp { name: "packed", flags: 0b1001, rate: 8000, count: 2, data: vec![9, 9] }, 1),
        (RawSmp { name: "no data", flags: 0b0000, rate: 8000, count: 2, data: vec![] }, 1),
        (RawSmp { name: "stereo", flags: 0b0101, rate: 8000, count: 2, data: vec![5, 6, 7, 8] }, 1),
    ])
}

#[test]
fn it_load_skips_compressed_and_empty_headers() {
    let m = ITFile::load_from_buf(sample_it()).unwrap();
    assert_eq!(m.module_name(), "it title");
    assert_eq!(m.format(), Format::IT);
    assert_eq!(names(&m), vec!["signed".to_string(), "unsigned16".to_string(), "stereo".to_string()]);
    let s = m.sample_list();
    assert_eq!((s[0].len, s[0].bits, s[0].rate, s[0].encoding), (3, 8, 44100, Encoding::Signed));
    assert_eq!((s[1].len, s[1].bits, s[1].encoding), (4, 16, Encoding::Unsigned));
    assert_eq!((s[2].len, s[2].stereo), (4, true));
    assert_eq!(m.pcm(0), vec![0x80, 0x81, 0x7f]);
    assert_eq!(m.pcm(1), vec![1, 2, 3, 4]);
}

#[test]
fn it_validation_errors() {
    let good = sample_it();
    assert!(ITFile::validate(&good).is_ok());
    let mut zircon = good.clone();
    zircon[..8].copy_from_slice(b"ziRCONia");
    assert_eq!(kind(&ITFile::validate(&zircon).unwrap_err()), ErrorKind::UnsupportedFormat);
    let mut bad = good.clone();
    bad[0] = b'X';
    assert_eq!(kind(&ITFile::validate(&bad).unwrap_err()), ErrorKind::InvalidFile);
    assert_eq!(kind(&ITFile::validate(&good[..0xbf]).unwrap_err()), ErrorKind::InvalidFile);
}

#[test]
fn it_truncated_header_table() {
    let good = sample_it();
    assert_eq!(err_kind(ITFile::load_from_buf(good[..0xc4].to_vec())), ErrorKind::TruncatedFile);
    assert_eq!(err_kind(ITFile::load_from_buf(good[..0xe0].to_vec())), ErrorKind::TruncatedFile);
}

// ---- UMX ----

#[test]
fn umx_holds_an_it_module() {
    let inner = sample_it();
    let b = umx_wrap(&inner);
    assert!(UMXFile::validate(&b).is_ok());
    let m = UMXFile::load_from_buf(b).unwrap();
    assert_eq!(m.format(), Format::UMX);
    assert_eq!(m.module_name(), "it title");
    assert_eq!(m.number_of_samples(), 3);
    assert_eq!(m.pcm(0), vec![0x80, 0x81, 0x7f]);
}

#[test]
fn umx_holds_a_mod_module() {
    let b = umx_wrap(&mod_bytes(31, &[("a", 2), ("b", 3)], 0));
    let m = UMXFile::load_from_buf(b).unwrap();
    assert_eq!(m.number_of_samples(), 2);
    assert_eq!(m.module_name(), "mod title");
}

#[test]
fn umx_errors() {
    assert_eq!(err_kind(UMXFile::load_from_buf(vec![0u8; 100])), ErrorKind::InvalidFile);
    assert_eq!(err_kind(UMXFile::load_from_buf(umx_wrap(&[0u8; 50]))), ErrorKind::InvalidFile);
}

// ---- loader ----

#[test]
fn mod_saved_as_s3m_loads_through_the_fallback() {
    let b = mod_bytes(31, &[("a", 2), ("b", 3), ("c", 1)], 0);
    assert_eq!(kind(&S3MFile::validate(&b).unwrap_err()), ErrorKind::InvalidFile);
    let m = load_from_ext(b, "s3m").unwrap();
    assert_eq!(m.format(), Format::MOD);
    assert_eq!(m.number_of_samples(), 3);
}

#[test]
fn xm_saved_as_it_loads_as_xm() {
    let m = load_from_ext(sample_xm(), "it").unwrap();
    assert_eq!(m.format(), Format::XM);
    assert_eq!(m.number_of_samples(), 2);
}

#[test]
fn original_error_is_kept_when_no_format_accepts() {
    let e = load_from_ext(vec![7u8; 300], "xm").unwrap_err();
    assert_eq!(kind(&e), ErrorKind::InvalidFile);
    let mut old_xm = sample_xm();
    old_xm[0x3a] = 0x02;
    let e = load_from_ext(old_xm[..600].to_vec(), "xm").unwrap_err();
    assert_eq!(kind(&e), ErrorKind::UnsupportedFormat);
}

#[test]
fn unknown_extension_is_unsupported() {
    match load_from_ext(sample_xm(), "wav") {
        Err(Error::UnsupportedFormat(msg)) => assert_eq!(msg, "'wav' is not a supported format."),
        _ => panic!("expected UnsupportedFormat"),
    }
    assert_eq!(err_kind(load_from_ext(sample_xm(), "XM")), ErrorKind::UnsupportedFormat);
}

#[test]
fn load_module_takes_the_extension_in_any_case() {
    let m = load_module("music/Song.Final.XM", sample_xm()).unwrap();
    assert_eq!(m.format(), Format::XM);
    let m = load_module("dir.it/tune.s3M/", s3m_bytes(1, &[])).unwrap();
    assert_eq!(m.format(), Format::S3M);
    assert_eq!(err_kind(load_module("music/.xm", sample_xm())), ErrorKind::UnsupportedFormat);
    assert_eq!(err_kind(load_module("music.xm/song", sample_xm())), ErrorKind::UnsupportedFormat);
}

#[test]
fn files_over_the_ceiling_are_refused() {
    assert!(check_file_size(64 * 1024 * 1024).is_ok());
    assert_eq!(kind(&check_file_size(64 * 1024 * 1024 + 1).unwrap_err()), ErrorKind::Io);
}

#[test]
fn invalid_name_bytes_are_replaced() {
    let mut b2 = mod_bytes(31, &[("abc", 2)], 0);
    b2[20 + 2] = 0xff;
    let m = MODFile::load_from_buf(b2).unwrap();
    assert_eq!(m.sample_list()[0].name, "ab\u{fffd}");
    let mut padded = mod_bytes(31, &[("x", 2)], 0);
    padded[0..20].copy_from_slice(b"  spaced title  \0zz\0");
    let m = MODFile::load_from_buf(padded).unwrap();
    assert_eq!(m.module_name(), "spaced title");
}

#[test]
fn supported_format_filter() {
    let f = Filters::new(vec![SupportedFormat]);
    assert!(f.matches("a/b/song.IT"));
    assert!(f.matches("tune.umx"));
    assert!(!f.matches("a/b/song.txt"));
    assert!(!f.matches("mod"));
    let none: Filters<SupportedFormat> = Filters::new(vec![]);
    assert!(none.matches("anything.txt"));
}

/// Loads every prefix of `full`: each gives a module whose samples lie inside the prefix, or
/// a truncation or signature error; none panics.
fn check_prefixes(full: &[u8], load: fn(Vec<u8>) -> Result<TrackerModule, Error>) {
    for n in 0..=full.len() {
        match load(full[..n].to_vec()) {
            Ok(m) => {
                for s in m.sample_list() {
                    assert!(s.len > 0 && s.ptr + s.len <= n);
                }
                for i in 0..m.number_of_samples() {
                    assert_eq!(m.wav(i).unwrap().len(), 44 + m.sample_list()[i].len);
                }
            }
            Err(e) => {
                let k = kind(&e);
                assert!(k == ErrorKind::TruncatedFile || k == ErrorKind::InvalidFile, "{:?}", e);
            }
        }
    }
}

#[test]
fn every_format_loads_its_fixture_and_survives_truncation() {
    let m = mod_bytes(31, &[("a", 2), ("b", 3)], 0);
    let s = s3m_bytes(2, &[Some(RawSmp { name: "s", flags: 0b100, rate: 8363, count: 4, data: vec![1; 8] })]);
    let i = sample_it();
    let x = sample_xm();
    let u = umx_wrap(&sample_it());
    assert!(MODFile::load_from_buf(m.clone()).is_ok());
    assert!(S3MFile::load_from_buf(s.clone()).is_ok());
    assert!(ITFile::load_from_buf(i.clone()).is_ok());
    assert!(XMFile::load_from_buf(x.clone()).is_ok());
    assert!(UMXFile::load_from_buf(u.clone()).is_ok());
    check_prefixes(&m, MODFile::load_from_buf);
    check_prefixes(&s, S3MFile::load_from_buf);
    check_prefixes(&i, ITFile::load_from_buf);
    check_prefixes(&x, XMFile::load_from_buf);
    check_prefixes(&u, UMXFile::load_from_buf);
    check_prefixes(&x, |b| load_from_ext(b, "xm"));
    check_prefixes(&i, |b| load_from_ext(b, "it"));
}

#[test]
fn xm_odd_16_bit_length_is_kept_and_whole_samples_exported() {
    let b = xm_bytes(
        &[],
        &[vec![
            XmSmp { name: "odd", sixteen: true, note: 0, finetune: 0, data: vec![1, 0, 9] },
            XmSmp { name: "one", sixteen: true, note: 0, finetune: 0, data: vec![7] },
            XmSmp { name: "next", sixteen: false, note: 0, finetune: 0, data: vec![2] },
        ]],
    );
    let m = XMFile::load_from_buf(b).unwrap();
    assert_eq!(names(&m), vec!["odd".to_string(), "one".to_string(), "next".to_string()]);
    let s = m.sample_list();
    assert_eq!((s[0].len, s[1].len, s[2].len), (3, 1, 1));
    assert_eq!(s[1].ptr, s[0].ptr + 3);
    assert_eq!(s[2].ptr, s[0].ptr + 4);
    assert_eq!(m.pcm(0), vec![1, 0]);
    assert_eq!(m.pcm(1), Vec::<u8>::new());
    let wav = m.wav(0).unwrap();
    assert_eq!(u32::from_le_bytes([wav[40], wav[41], wav[42], wav[43]]), 2);
    assert_eq!(wav.len(), 46);
    assert_eq!(m.wav(1).unwrap().len(), 44);
}

#[test]
fn unknown_extension_message_names_the_path_extension() {
    match load_module("music/song.Wav", sample_xm()) {
        Err(Error::UnsupportedFormat(msg)) => assert_eq!(msg, "'wav' is not a supported format."),
        _ => panic!("expected UnsupportedFormat"),
    }
}

#[test]
fn first_validation_error_is_returned_exactly() {
    match load_from_ext(vec![7u8; 300], "xm") {
        Err(Error::InvalidFile(msg)) => assert_eq!(msg, "Not a valid XM file"),
        other => panic!("unexpected {:?}", other.map(|m| m.number_of_samples())),
    }
    match load_module("dir/SONG.IT", vec![7u8; 300]) {
        Err(Error::InvalidFile(msg)) => assert_eq!(msg, "Not a valid Impulse Tracker module"),
        other => panic!("unexpected {:?}", other.map(|m| m.number_of_samples())),
    }
    match load_module("song.wav", vec![7u8; 300]) {
        Err(Error::UnsupportedFormat(msg)) => assert_eq!(msg, "'wav' is not a supported format."),
        other => panic!("unexpected {:?}", other.map(|m| m.number_of_samples())),
    }
}

#[test]
fn wav_of_a_missing_sample_is_an_error() {
    let m = MODFile::load_from_buf(mod_bytes(31, &[("a", 2)], 0)).unwrap();
    assert_eq!(kind(&m.wav(1).unwrap_err()), ErrorKind::UnsupportedFormat);
    assert!(m.wav(0).is_ok());
}
