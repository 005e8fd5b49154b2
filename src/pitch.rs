//! XM playback rates in integer arithmetic.
//!
//! An XM sample's rate is `8363 * 2^((4608 - period) / 768)` with
//! `period = 7680 - (48 + note) * 64 - finetune / 2`, which is `8363 * 2^(t / 1536)` with
//! `t = 128 * note + finetune`. The power is computed in fixed point with 30 fractional bits:
//! one factor per semitone from a table of twelve, then one per set bit of the remaining
//! finetune steps from a table of seven.
use vstd::prelude::*;

verus! {

/// One in fixed point.
pub const FIX_ONE: u128 = 0x4000_0000;

/// `2^e`.
pub open spec fn two_pow(e: nat) -> nat
    decreases e,
{
    if e == 0 {
        1
    } else {
        2 * two_pow((e - 1) as nat)
    }
}

/// `2^(s / 12)` in fixed point, for semitones `s` in `0..12`.
pub open spec fn semitone_factor(s: int) -> int {
    if s == 0 {
        1073741824
    } else if s == 1 {
        1137589835
    } else if s == 2 {
        1205234447
    } else if s == 3 {
        1276901417
    } else if s == 4 {
        1352829926
    } else if s == 5 {
        1433273380
    } else if s == 6 {
        1518500250
    } else if s == 7 {
        1608794974
    } else if s == 8 {
        1704458901
    } else if s == 9 {
        1805811301
    } else if s == 10 {
        1913190429
    } else {
        2026954652
    }
}

/// `2^(2^i / 1536)` in fixed point, for bits `i` in `0..7` of a finetune step count.
pub open spec fn fine_factor(i: int) -> int {
    if i == 0 {
        1074226478
    } else if i == 1 {
        1074711351
    } else if i == 2 {
        1075681754
    } else if i == 3 {
        1077625190
    } else if i == 4 {
        1081522600
    } else if i == 5 {
        1089359758
    } else {
        1105204861
    }
}

/// `m` times the factor of each set bit `i..7` of `f`, rounding down after each product.
pub open spec fn apply_fine(m: int, f: int, i: nat) -> int
    decreases 7 - i,
{
    if i >= 7 {
        m
    } else {
        let next = if (f / two_pow(i) as int) % 2 == 1 {
            m * fine_factor(i as int) / FIX_ONE as int
        } else {
            m
        };
        apply_fine(next, f, i + 1)
    }
}

/// `2^(t / 1536)` relative to `2^11`, for `u = t + 11 * 1536`, as a fraction over `2^41`
/// whose numerator this is.
pub open spec fn pitch_numerator(u: int) -> int {
    let octave = u / 1536;
    let within = u % 1536;
    8363 * apply_fine(semitone_factor(within / 128), within % 128, 0) * two_pow(octave as nat)
}

/// The playback rate of an XM sample with relative note `note` and finetune `finetune`
/// (both signed bytes).
pub open spec fn xm_rate(note: int, finetune: int) -> int {
    pitch_numerator(128 * note + finetune + 16896) / two_pow(41) as int
}

fn semitone(s: u128) -> (r: u128)
    requires
        s < 12,
    ensures
        r == semitone_factor(s as int),
        r < 0x8000_0000,
{
    if s == 0 {
        1073741824
    } else if s == 1 {
        1137589835
    } else if s == 2 {
        1205234447
    } else if s == 3 {
        1276901417
    } else if s == 4 {
        1352829926
    } else if s == 5 {
        1433273380
    } else if s == 6 {
        1518500250
    } else if s == 7 {
        1608794974
    } else if s == 8 {
        1704458901
    } else if s == 9 {
        1805811301
    } else if s == 10 {
        1913190429
    } else {
        2026954652
    }
}

fn fine(i: u128) -> (r: u128)
    requires
        i < 7,
    ensures
        r == fine_factor(i as int),
        r < 0x8000_0000,
{
    if i == 0 {
        1074226478
    } else if i == 1 {
        1074711351
    } else if i == 2 {
        1075681754
    } else if i == 3 {
        1077625190
    } else if i == 4 {
        1081522600
    } else if i == 5 {
        1089359758
    } else {
        1105204861
    }
}

proof fn lemma_two_pow_grows(e: nat)
    ensures
        two_pow(e + 1) == 2 * two_pow(e),
        two_pow(e) >= 1,
    decreases e,
{
    if e > 0 {
        lemma_two_pow_grows((e - 1) as nat);
    }
}

/// The playback rate for a relative note and finetune (see [`xm_rate`]).
pub fn xm_sample_rate(note: i8, finetune: i8) -> (r: u32)
    ensures
        r == xm_rate(note as int, finetune as int),
{
    let u: u128 = (128 * (note as i32 + 128) + (finetune as i32 + 128)) as u128 + 384;
    assert(u == 128 * note + finetune + 16896);
    let octave: u128 = u / 1536;
    let within: u128 = u % 1536;
    let f: u128 = within % 128;
    let mut m: u128 = semitone(within / 128);
    let ghost m0 = m as int;
    let mut pw: u128 = 1;
    let mut bound: u128 = 0x8000_0000;
    let mut i: u128 = 0;
    while i < 7
        invariant
            i <= 7,
            f < 128,
            pw == two_pow(i as nat),
            pw <= 128,
            bound == 0x8000_0000 * pw,
            m < bound,
            apply_fine(m as int, f as int, i as nat) == apply_fine(m0, f as int, 0),
        decreases 7 - i,
    {
        proof {
            lemma_two_pow_grows(i as nat);
            lemma_two_pow_monotone(i as nat, 6);
            reveal_with_fuel(two_pow, 7);
        }
        assert(pw <= 64);
        if (f / pw) % 2 == 1 {
            let c = fine(i);
            assert(m * c < bound * 0x8000_0000) by (nonlinear_arith)
                requires
                    m < bound,
                    c < 0x8000_0000,
            ;
            m = m * c / FIX_ONE;
            assert(m < 2 * bound);
        }
        pw = 2 * pw;
        bound = 2 * bound;
        i = i + 1;
    }
    assert(pw == 128) by {
        reveal_with_fuel(two_pow, 8);
    }
    assert(octave <= 21);
    let mut scale: u128 = 1;
    let mut k: u128 = 0;
    while k < octave
        invariant
            k <= octave <= 21,
            scale == two_pow(k as nat),
            scale <= 0x20_0000,
        decreases octave - k,
    {
        proof {
            lemma_two_pow_grows(k as nat);
            reveal_with_fuel(two_pow, 22);
        }
        assert(two_pow(k as nat) <= two_pow(20)) by {
            lemma_two_pow_monotone(k as nat, 20);
        }
        scale = 2 * scale;
        k = k + 1;
    }
    assert(m * scale <= 0x40_0000_0000 * 0x20_0000) by (nonlinear_arith)
        requires
            m < 0x40_0000_0000,
            scale <= 0x20_0000,
    ;
    let num: u128 = 8363 * (m * scale);
    assert(num == pitch_numerator(u as int)) by {
        assert(u as int / 1536 == octave);
        assert(8363 * (m * scale) == 8363 * m * scale) by (nonlinear_arith);
    }
    assert(two_pow(41) == 0x200_0000_0000) by {
        reveal_with_fuel(two_pow, 42);
    }
    (num / 0x200_0000_0000) as u32
}

proof fn lemma_two_pow_monotone(a: nat, b: nat)
    requires
        a <= b,
    ensures
        two_pow(a) <= two_pow(b),
    decreases b - a,
{
    if a < b {
        lemma_two_pow_monotone(a, (b - 1) as nat);
        lemma_two_pow_grows((b - 1) as nat);
    }
}

} // verus!
