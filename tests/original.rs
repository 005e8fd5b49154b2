use xmodits::it::{ITFile, MASK_SMP_BITS, MASK_SMP_COMP};
use xmodits::MODFile;

/// An IT module with ten 8-bit samples, every other one 16-bit.
fn ten_sample_it() -> Vec<u8> {
    let n = 10usize;
    let mut b = b"IMPM".to_vec();
    b.extend(b"NYC Streets");
    b.resize(0x20, 0);
    b.extend(0u16.to_le_bytes());
    b.extend(0u16.to_le_bytes());
    b.extend((n as u16).to_le_bytes());
    b.resize(0xc0, 0);
    let hdr_start = b.len() + 4 * n;
    for i in 0..n {
        b.extend(((hdr_start + 0x50 * i) as u32).to_le_bytes());
    }
    let data_start = hdr_start + 0x50 * n;
    for i in 0..n {
        let mut h = vec![0u8; 0x50];
        h[..4].copy_from_slice(b"IMPS");
        h[0x12] = if i % 2 == 0 { 0b01 } else { 0b11 };
        h[0x2e] = 1;
        h[0x30..0x34].copy_from_slice(&4u32.to_le_bytes());
        h[0x3c..0x40].copy_from_slice(&8363u32.to_le_bytes());
        h[0x48..0x4c].copy_from_slice(&((data_start + 8 * i) as u32).to_le_bytes());
        b.extend(h);
    }
    b.extend(vec![0u8; 8 * n]);
    b
}

/// A MOD module whose last sample's stated length runs past the end of the file.
fn out_of_bounds_mod() -> Vec<u8> {
    let mut b = vec![0u8; 20];
    for i in 0..31 {
        let mut hdr = vec![0u8; 30];
        hdr[0] = b'a' + i as u8;
        let words: u16 = if i < 3 { 8 } else { 0 };
        hdr[22..24].copy_from_slice(&if i == 2 { 30000u16 } else { words }.to_be_bytes());
        b.extend(hdr);
    }
    b.extend([1u8, 127]);
    b.extend(vec![0u8; 128]);
    b.extend(b"M.K.");
    b.extend(vec![0u8; 1020]);
    b.extend(vec![0x10u8; 16 + 16 + 40]);
    b
}

#[test]
fn test1() {
    let a = ITFile::load_from_buf(ten_sample_it()).unwrap();
    assert_eq!(a.number_of_samples(), 10);

    for i in 0..10 {
        let s = &a.sample_list()[i];
        println!("{}", i);
        println!("sample bits: {}, stereo: {}, encoding: {:?}\n", s.bits, s.stereo, s.encoding);
    }
}

#[test]
fn test_flag_set() {
    let test_func = |b: u8| 8 * (((b & MASK_SMP_BITS) >> 1) + 1);
    let f1_8 = 0b010100_0_1; // should be 8
    let f2_16 = 0b000000_1_1; // should be 16

    assert_eq!(test_func(f1_8), 8);
    assert_eq!(test_func(f2_16), 16);
}

#[test]
fn test_flag_set_2() {
    let test_func = |b: u8| ((b & MASK_SMP_COMP) >> 3) == 1;
    let f1_false = 0b0101_0_001; // should be false
    let f2_true = 0b0000_1_011; // should be true

    assert_eq!(test_func(f1_false), false);
    assert_eq!(test_func(f2_true), true);
}

#[test]
fn test_panic() {
    let moddy = MODFile::load_from_buf(out_of_bounds_mod()).unwrap();
    println!("{}", &moddy.number_of_samples());
    for i in 0..moddy.number_of_samples() {
        let wav = moddy.wav(i).unwrap();
        assert_eq!(wav.len(), 44 + moddy.sample_list()[i].len);
    }
    assert_eq!(moddy.number_of_samples(), 3);
    assert_eq!(moddy.sample_list()[2].len, 40);
}
