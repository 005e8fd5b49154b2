//! PCM codecs: delta decoding and the unsigned/signed 8-bit conversion.
use vstd::arithmetic::div_mod::{lemma_add_mod_noop_right, lemma_small_mod};
use vstd::prelude::*;

verus! {

/// The sum modulo `m` of the first `i` items of `s`.
pub open spec fn running_sum(s: Seq<int>, m: int, i: int) -> int
    decreases i,
{
    if i <= 0 {
        0
    } else {
        (running_sum(s, m, i - 1) + s[i - 1]) % m
    }
}

/// Delta decoding modulo `m`: each item becomes the wrapping sum of it and all before it.
pub open spec fn undelta(s: Seq<int>, m: int) -> Seq<int> {
    Seq::new(s.len(), |i: int| running_sum(s, m, i + 1))
}

/// Delta encoding modulo `m`: each item becomes its wrapping difference from the one before
/// (the first, from zero).
pub open spec fn delta(x: Seq<int>, m: int) -> Seq<int> {
    Seq::new(x.len(), |i: int| (x[i] - (if i == 0 { 0 } else { x[i - 1] })) % m)
}

/// The bytes as integers.
pub open spec fn bytes_as_ints(s: Seq<u8>) -> Seq<int> {
    Seq::new(s.len(), |i: int| s[i] as int)
}

/// Integers below 256 as bytes.
pub open spec fn ints_as_bytes(s: Seq<int>) -> Seq<u8> {
    Seq::new(s.len(), |i: int| s[i] as u8)
}

/// The little-endian 16-bit words of `s`; a trailing odd byte is left out.
pub open spec fn words_le(s: Seq<u8>) -> Seq<int> {
    Seq::new(s.len() / 2, |i: int| s[2 * i] + 256 * s[2 * i + 1])
}

/// Words below 65536 as little-endian bytes.
pub open spec fn words_as_bytes(w: Seq<int>) -> Seq<u8> {
    Seq::new(
        2 * w.len(),
        |k: int|
            if k % 2 == 0 {
                (w[k / 2] % 256) as u8
            } else {
                (w[k / 2] / 256) as u8
            },
    )
}

/// What 8-bit delta decoding makes of `s`.
pub open spec fn delta_decoded_u8(s: Seq<u8>) -> Seq<u8> {
    ints_as_bytes(undelta(bytes_as_ints(s), 256))
}

/// What 16-bit delta decoding makes of `s`, read as little-endian words.
pub open spec fn delta_decoded_u16(s: Seq<u8>) -> Seq<u8> {
    words_as_bytes(undelta(words_le(s), 65536))
}

/// Each byte with its top bit flipped.
pub open spec fn flip_sign(s: Seq<u8>) -> Seq<u8> {
    Seq::new(s.len(), |i: int| s[i] ^ 0x80u8)
}

/// What [`to_signed`] makes of `s` at `bits` bits per sample.
pub open spec fn signed_pcm(s: Seq<u8>, bits: u8) -> Seq<u8> {
    if bits == 8 {
        flip_sign(s)
    } else {
        s
    }
}

proof fn lemma_running_sum_bound(s: Seq<int>, m: int, i: int)
    requires
        m > 0,
    ensures
        0 <= running_sum(s, m, i) < m,
    decreases i,
{
    if i > 0 {
        lemma_running_sum_bound(s, m, i - 1);
    }
}

proof fn lemma_running_sum_of_delta(x: Seq<int>, m: int, i: int)
    requires
        m > 0,
        0 <= i <= x.len(),
        forall|k: int| 0 <= k < x.len() ==> 0 <= #[trigger] x[k] < m,
    ensures
        running_sum(delta(x, m), m, i) == (if i == 0 { 0 } else { x[i - 1] }),
    decreases i,
{
    if i > 0 {
        lemma_running_sum_of_delta(x, m, i - 1);
        let p = if i == 1 { 0 } else { x[i - 2] };
        lemma_add_mod_noop_right(p, x[i - 1] - p, m);
        lemma_small_mod(x[i - 1] as nat, m as nat);
    }
}

/// Delta decoding undoes delta encoding modulo `m`, wraparound included.
pub proof fn lemma_undelta_delta(x: Seq<int>, m: int)
    requires
        m > 0,
        forall|k: int| 0 <= k < x.len() ==> 0 <= #[trigger] x[k] < m,
    ensures
        undelta(delta(x, m), m) == x,
{
    assert forall|k: int| 0 <= k < x.len() implies #[trigger] undelta(delta(x, m), m)[k] == x[k] by {
        lemma_running_sum_of_delta(x, m, k + 1);
    }
    assert(undelta(delta(x, m), m) =~= x);
}

/// For any byte sequence, 8-bit delta decoding of its delta encoding gives it back.
pub proof fn lemma_delta_u8_round_trip(x: Seq<u8>)
    ensures
        delta_decoded_u8(ints_as_bytes(delta(bytes_as_ints(x), 256))) == x,
{
    let xi = bytes_as_ints(x);
    let e = delta(xi, 256);
    assert forall|k: int| 0 <= k < e.len() implies 0 <= #[trigger] e[k] < 256 by {}
    assert(bytes_as_ints(ints_as_bytes(e)) =~= e);
    lemma_undelta_delta(xi, 256);
    assert(ints_as_bytes(xi) =~= x);
}

/// For any word sequence, 16-bit delta decoding of the bytes of its delta encoding gives the
/// bytes of the words back.
pub proof fn lemma_delta_u16_round_trip(w: Seq<int>)
    requires
        forall|k: int| 0 <= k < w.len() ==> 0 <= #[trigger] w[k] < 65536,
    ensures
        delta_decoded_u16(words_as_bytes(delta(w, 65536))) == words_as_bytes(w),
{
    let e = delta(w, 65536);
    assert forall|k: int| 0 <= k < e.len() implies 0 <= #[trigger] e[k] < 65536 by {}
    lemma_words_round_trip(e);
    lemma_undelta_delta(w, 65536);
}

proof fn lemma_words_round_trip(w: Seq<int>)
    requires
        forall|k: int| 0 <= k < w.len() ==> 0 <= #[trigger] w[k] < 65536,
    ensures
        words_le(words_as_bytes(w)) == w,
{
    let b = words_as_bytes(w);
    assert forall|i: int| 0 <= i < w.len() implies #[trigger] words_le(b)[i] == w[i] by {
        assert(b[2 * i] == w[i] % 256);
        assert(b[2 * i + 1] == w[i] / 256);
    }
    assert(words_le(b) =~= w);
}

/// Converting 8-bit PCM twice gives it back: the conversion flips the sign bit.
pub proof fn lemma_to_signed_involution(s: Seq<u8>)
    ensures
        signed_pcm(signed_pcm(s, 8), 8) == s,
        forall|i: int| 0 <= i < s.len() ==> #[trigger] signed_pcm(s, 8)[i] == s[i] ^ 0x80u8,
{
    assert forall|i: int| 0 <= i < s.len() implies #[trigger] flip_sign(flip_sign(s))[i] == s[i] by {
        let b = s[i];
        assert((b ^ 0x80u8) ^ 0x80u8 == b) by (bit_vector);
    }
    assert(flip_sign(flip_sign(s)) =~= s);
}

/// Converting 16-bit PCM leaves it as it is.
pub proof fn lemma_to_signed_16_identity(s: Seq<u8>)
    ensures
        signed_pcm(s, 16) == s,
{
}

/// Absolute 8-bit amplitudes from differences: a running sum that wraps around at 256.
pub fn delta_decode_u8(pcm: &[u8]) -> (r: Vec<u8>)
    ensures
        r@ == delta_decoded_u8(pcm@),
{
    let ghost s = bytes_as_ints(pcm@);
    let mut out: Vec<u8> = Vec::with_capacity(pcm.len());
    let mut acc: u8 = 0;
    let mut i: usize = 0;
    while i < pcm.len()
        invariant
            i <= pcm@.len(),
            s == bytes_as_ints(pcm@),
            out@.len() == i,
            acc == running_sum(s, 256, i as int),
            forall|k: int| 0 <= k < i ==> out@[k] == running_sum(s, 256, k + 1) as u8,
        decreases pcm@.len() - i,
    {
        proof {
            lemma_running_sum_bound(s, 256, i + 1);
        }
        acc = ((acc as u16 + pcm[i] as u16) % 256) as u8;
        out.push(acc);
        i = i + 1;
    }
    assert(out@ =~= delta_decoded_u8(pcm@));
    out
}

/// Absolute 16-bit amplitudes from little-endian word differences: a running sum that wraps
/// around at 65536. A trailing odd byte is dropped.
pub fn delta_decode_u16(pcm: &[u8]) -> (r: Vec<u8>)
    ensures
        r@ == delta_decoded_u16(pcm@),
{
    let ghost w = words_le(pcm@);
    let n: usize = pcm.len() / 2;
    let mut out: Vec<u8> = Vec::with_capacity(pcm.len());
    let mut acc: u16 = 0;
    let mut i: usize = 0;
    while i < n
        invariant
            i <= n == pcm@.len() / 2,
            pcm@.len() <= usize::MAX,
            w == words_le(pcm@),
            out@.len() == 2 * i,
            acc == running_sum(w, 65536, i as int),
            forall|k: int|
                0 <= k < 2 * i ==> out@[k] == (if k % 2 == 0 {
                    (running_sum(w, 65536, k / 2 + 1) % 256) as u8
                } else {
                    (running_sum(w, 65536, k / 2 + 1) / 256) as u8
                }),
        decreases n - i,
    {
        proof {
            lemma_running_sum_bound(w, 65536, i + 1);
        }
        let word: u32 = pcm[2 * i] as u32 + 256 * (pcm[2 * i + 1] as u32);
        assert(word == w[i as int]);
        acc = ((acc as u32 + word) % 65536) as u16;
        out.push((acc % 256) as u8);
        out.push((acc / 256) as u8);
        i = i + 1;
    }
    assert(out@ =~= delta_decoded_u16(pcm@));
    out
}

/// Converts 8-bit PCM between its unsigned (bias 0x80) and signed forms by flipping each
/// sample's top bit; 16-bit PCM comes back unchanged.
pub fn to_signed(pcm: &[u8], bits: u8) -> (r: Vec<u8>)
    ensures
        r@ == signed_pcm(pcm@, bits),
{
    let mut out: Vec<u8> = Vec::with_capacity(pcm.len());
    let mut i: usize = 0;
    while i < pcm.len()
        invariant
            i <= pcm@.len(),
            out@.len() == i,
            forall|k: int|
                0 <= k < i ==> out@[k] == (if bits == 8 {
                    pcm@[k] ^ 0x80u8
                } else {
                    pcm@[k]
                }),
        decreases pcm@.len() - i,
    {
        if bits == 8 {
            out.push(pcm[i] ^ 0x80u8);
        } else {
            out.push(pcm[i]);
        }
        i = i + 1;
    }
    assert(out@ =~= signed_pcm(pcm@, bits));
    out
}

} // verus!
