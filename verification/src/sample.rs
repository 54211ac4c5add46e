//! Audio samples as IEEE-754 binary32 bit patterns.
//!
//! A sample is carried as the raw 32 bits of a binary32 number whose value
//! lies in [-1.0, 1.0].  All arithmetic on samples is done on an exact
//! fixed-point reading of those bits: `sample_mag_fixed` is the magnitude
//! of the encoded number scaled by 2^32 and truncated toward zero, so a
//! magnitude of 0x1_0000_0000 stands for exactly 1.0.  Magnitudes below
//! 2^-32 truncate to zero, far below the 0.01 activity gate and below the
//! 2^-24 resolution binary32 itself has near 1.0.

use vstd::prelude::*;
use vstd::arithmetic::power2::{
    lemma2_to64, lemma2_to64_rest, lemma_pow2_adds, lemma_pow2_pos, lemma_pow2_strictly_increases,
    pow2,
};
use vstd::arithmetic::div_mod::{
    lemma_div_multiples_vanish, lemma_fundamental_div_mod_converse, lemma_mod_multiples_basic,
};

verus! {

/// Bit pattern of 1.0: sign 0, biased exponent 127, fraction 0.
pub const ONE_BITS: u32 = 0x3F80_0000;

/// The fixed-point scale: magnitudes are the encoded value times 2^32.
pub const MAG_ONE: u64 = 0x1_0000_0000;

/// Sign bit of a sample's bit pattern.
pub open spec fn sample_neg(b: u32) -> bool {
    b >= 0x8000_0000
}

/// Biased exponent field (bits 23..31) of a sample's bit pattern.
pub open spec fn sample_exp(b: u32) -> nat {
    (((b / 0x80_0000) % 0x100) as nat)
}

/// Fraction field (bits 0..23) of a sample's bit pattern.
pub open spec fn sample_frac(b: u32) -> nat {
    ((b % 0x80_0000) as nat)
}

/// The bit pattern encodes a number whose magnitude is at most 1.0.
/// This also excludes infinities and NaNs.
pub open spec fn sample_in_range(b: u32) -> bool {
    sample_exp(b) < 127 || (sample_exp(b) == 127 && sample_frac(b) == 0)
}

/// Magnitude of the encoded number, scaled by 2^32, truncated toward zero.
///
/// A biased exponent of e and fraction f encode the magnitude
/// (2^23 + f) * 2^(e - 150) for e >= 1, so scaling by 2^32 shifts the
/// significand by e - 118.  Subnormals (e == 0) are below 2^-126 and
/// truncate to zero.
pub open spec fn sample_mag_fixed(b: u32) -> nat {
    if sample_exp(b) == 0 {
        0
    } else {
        let sig = (0x80_0000 + sample_frac(b)) as nat;
        if sample_exp(b) >= 118 {
            sig * pow2((sample_exp(b) - 118) as nat)
        } else {
            sig / pow2((118 - sample_exp(b)) as nat)
        }
    }
}

/// Signed fixed-point value of a sample: the encoded number times 2^32,
/// truncated toward zero.
pub open spec fn sample_val_fixed(b: u32) -> int {
    if sample_neg(b) {
        -(sample_mag_fixed(b) as int)
    } else {
        sample_mag_fixed(b) as int
    }
}

/// Floor of the base-2 logarithm.
pub open spec fn log2_floor(m: nat) -> nat
    decreases m,
{
    if m < 2 {
        0
    } else {
        (1 + log2_floor(m / 2)) as nat
    }
}

/// The bit pattern encoding a fixed-point magnitude m (scaled by 2^32,
/// m <= 2^32) with the given sign, as a natural number.  The significand
/// is truncated toward zero when m has more than 24 significant bits.
pub open spec fn encode_bits(neg: bool, m: nat) -> nat {
    if m == 0 {
        0
    } else {
        let t = log2_floor(m);
        let e = (t + 95) as nat;
        let sig = if t <= 23 {
            m * pow2((23 - t) as nat)
        } else {
            m / pow2((t - 23) as nat)
        };
        let f = (sig - 0x80_0000) as nat;
        ((if neg {
            0x8000_0000 as nat
        } else {
            0
        }) + e * 0x80_0000 + f) as nat
    }
}

/// The bit pattern encoding a fixed-point magnitude, as a sample.
pub open spec fn fixed_encode(neg: bool, m: nat) -> u32 {
    encode_bits(neg, m) as u32
}

pub proof fn lemma_log2_floor_bounds(m: nat)
    requires
        m >= 1,
    ensures
        pow2(log2_floor(m)) <= m < pow2((log2_floor(m) + 1) as nat),
    decreases m,
{
    lemma2_to64();
    if m < 2 {
        assert(pow2(0) == 1 && pow2(1) == 2);
    } else {
        lemma_log2_floor_bounds(m / 2);
        let t = log2_floor(m / 2);
        assert(pow2((t + 1) as nat) == 2 * pow2(t)) by {
            lemma_pow2_adds(t, 1);
        }
        assert(pow2((t + 2) as nat) == 2 * pow2((t + 1) as nat)) by {
            lemma_pow2_adds((t + 1) as nat, 1);
        }
        assert(m >= 2 * (m / 2));
        assert(m < 2 * (m / 2) + 2);
    }
}

/// Decomposes a 32-bit pattern built from sign, exponent and fraction
/// fields back into those fields.
pub proof fn lemma_bits_fields(s: nat, e: nat, f: nat)
    requires
        s <= 1,
        e < 0x100,
        f < 0x80_0000,
    ensures
        s * 0x8000_0000 + e * 0x80_0000 + f < 0x1_0000_0000,
        sample_exp(((s * 0x8000_0000 + e * 0x80_0000 + f) as u32)) == e,
        sample_frac(((s * 0x8000_0000 + e * 0x80_0000 + f) as u32)) == f,
        sample_neg(((s * 0x8000_0000 + e * 0x80_0000 + f) as u32)) == (s == 1),
{
    let b = s * 0x8000_0000 + e * 0x80_0000 + f;
    assert(b < 0x1_0000_0000) by (nonlinear_arith)
        requires
            s <= 1,
            e < 0x100,
            f < 0x80_0000,
            b == s * 0x8000_0000 + e * 0x80_0000 + f,
    ;
    let bu = b as u32;
    assert(bu == b);
    assert(b == (s * 0x100 + e) * 0x80_0000 + f) by (nonlinear_arith)
        requires
            b == s * 0x8000_0000 + e * 0x80_0000 + f,
    ;
    lemma_fundamental_div_mod_converse(b as int, 0x80_0000, (s * 0x100 + e) as int, f as int);
    assert(b / 0x80_0000 == s * 0x100 + e);
    assert(b % 0x80_0000 == f);
    assert((s * 0x100 + e) % 0x100 == e) by (nonlinear_arith)
        requires
            s <= 1,
            e < 0x100,
    ;
    if s == 1 {
        assert(b >= 0x8000_0000);
    } else {
        assert(b == e * 0x80_0000 + f);
        assert(b < 0x8000_0000) by (nonlinear_arith)
            requires
                e < 0x100,
                f < 0x80_0000,
                b == e * 0x80_0000 + f,
        ;
    }
}

/// Encoding a nonzero magnitude of at most 2^32 yields an in-range sample
/// with the requested sign, and decoding recovers the magnitude exactly
/// whenever the magnitude fits in 24 significant bits or is divisible by
/// the truncated tail.
pub proof fn lemma_encode_fixed(neg: bool, m: nat)
    requires
        1 <= m <= 0x1_0000_0000,
        log2_floor(m) > 23 ==> m % pow2((log2_floor(m) - 23) as nat) == 0,
    ensures
        sample_in_range(fixed_encode(neg, m)),
        sample_neg(fixed_encode(neg, m)) == neg,
        sample_mag_fixed(fixed_encode(neg, m)) == m,
{
    lemma2_to64();
    lemma2_to64_rest();
    lemma_log2_floor_bounds(m);
    let t = log2_floor(m);
    assert(t <= 32) by {
        if t > 32 {
            lemma_pow2_strictly_increases(33, t);
            assert(pow2(33) <= pow2(t) || 33 == t);
            assert(pow2(t) >= pow2(33));
            assert(pow2(t) <= m);
        }
    }
    let e = (t + 95) as nat;
    let sig = if t <= 23 {
        m * pow2((23 - t) as nat)
    } else {
        m / pow2((t - 23) as nat)
    };
    // sig is in [2^23, 2^24)
    assert(0x80_0000 <= sig < 0x100_0000) by {
        if t <= 23 {
            let k = (23 - t) as nat;
            lemma_pow2_adds(t, k);
            lemma_pow2_adds((t + 1) as nat, k);
            assert(pow2(t) * pow2(k) == pow2(23));
            assert(pow2((t + 1) as nat) * pow2(k) == pow2(24));
            lemma_pow2_pos(k);
            assert(pow2(t) * pow2(k) <= m * pow2(k) && m * pow2(k) < pow2((t + 1) as nat) * pow2(
                k,
            )) by (nonlinear_arith)
                requires
                    pow2(t) <= m < pow2((t + 1) as nat),
                    pow2(k) >= 1,
            ;
        } else {
            let k = (t - 23) as nat;
            lemma_pow2_adds(23, k);
            lemma_pow2_adds(24, k);
            lemma_pow2_pos(k);
            assert(pow2(23) * pow2(k) <= m < pow2(24) * pow2(k));
            assert(pow2(23) <= m / pow2(k) < pow2(24)) by (nonlinear_arith)
                requires
                    pow2(23) * pow2(k) <= m < pow2(24) * pow2(k),
                    pow2(k) >= 1,
                    m % pow2(k) == 0,
            ;
        }
    }
    let f = (sig - 0x80_0000) as nat;
    let s: nat = if neg {
        1
    } else {
        0
    };
    // e == 127 only for m == 2^32, where the fraction is zero.
    assert(e <= 127);
    if e == 127 {
        assert(t == 32);
        assert(pow2(32) <= m <= pow2(32));
        assert(m == pow2(32));
        assert(sig == pow2(32) / pow2(9)) by {
            assert((t - 23) as nat == 9nat);
        }
        assert(pow2(32) == pow2(23) * pow2(9)) by {
            lemma_pow2_adds(23, 9);
        }
        assert(sig == pow2(23)) by {
            lemma_div_multiples_vanish(pow2(23) as int, pow2(9) as int);
            assert((pow2(23) * pow2(9)) as int / pow2(9) as int == pow2(23));
        }
        assert(f == 0);
    }
    lemma_bits_fields(s, e, f);
    let b = fixed_encode(neg, m);
    assert(encode_bits(neg, m) == s * 0x8000_0000 + e * 0x80_0000 + f);
    assert(b == encode_bits(neg, m));
    assert(sample_exp(b) == e && sample_frac(b) == f && sample_neg(b) == (s == 1));
    // Decode gives back m.
    assert(sample_exp(b) != 0);
    if e >= 118 {
        assert(t >= 23);
        let k = (e - 118) as nat;
        assert(k == (t - 23) as nat);
        if t == 23 {
            assert(pow2(0) == 1);
            assert(sig == m * 1);
            assert(sample_mag_fixed(b) == sig * 1);
        } else {
            assert(sig == m / pow2(k));
            assert(m == pow2(k) * (m / pow2(k))) by {
                lemma_mod_multiples_basic((m / pow2(k)) as int, pow2(k) as int);
                vstd::arithmetic::div_mod::lemma_fundamental_div_mod(m as int, pow2(k) as int);
                lemma_pow2_pos(k);
            }
            assert(sample_mag_fixed(b) == sig * pow2(k));
            assert(sig * pow2(k) == pow2(k) * sig) by (nonlinear_arith);
        }
    } else {
        assert(t < 23);
        let k = (118 - e) as nat;
        assert(k == (23 - t) as nat);
        assert(sig == m * pow2(k));
        assert(sample_mag_fixed(b) == sig / pow2(k));
        lemma_pow2_pos(k);
        lemma_div_multiples_vanish(m as int, pow2(k) as int);
        assert((pow2(k) * m) as int / pow2(k) as int == m);
        assert(sig == pow2(k) * m) by (nonlinear_arith)
            requires
                sig == m * pow2(k),
        ;
    }
}

/// Raise two to a small power.
pub fn pow2_u64(k: u64) -> (r: u64)
    requires
        k < 64,
    ensures
        r == pow2(k as nat),
{
    proof {
        lemma2_to64();
        lemma2_to64_rest();
    }
    let mut r: u64 = 1;
    let mut i: u64 = 0;
    while i < k
        invariant
            i <= k < 64,
            r == pow2(i as nat),
        decreases k - i,
    {
        proof {
            lemma_pow2_adds(i as nat, 1);
            lemma2_to64();
            if i + 1 < 64 {
                lemma_pow2_strictly_increases((i + 1) as nat, 64);
            }
            lemma2_to64_rest();
        }
        r = r * 2;
        i = i + 1;
    }
    r
}

/// Whether the bit pattern encodes a magnitude of at most 1.0.
pub fn is_sample_in_range(b: u32) -> (r: bool)
    ensures
        r == sample_in_range(b),
{
    let exp: u32 = (b / 0x80_0000) % 0x100;
    let frac: u32 = b % 0x80_0000;
    exp < 127 || (exp == 127 && frac == 0)
}

/// Fixed-point magnitude of a sample: its encoded magnitude scaled by
/// 2^32, truncated toward zero.
pub fn sample_mag(b: u32) -> (m: u64)
    requires
        sample_in_range(b),
    ensures
        m == sample_mag_fixed(b),
        m <= MAG_ONE,
{
    proof {
        lemma2_to64();
        lemma2_to64_rest();
    }
    let exp: u32 = (b / 0x80_0000) % 0x100;
    let frac: u32 = b % 0x80_0000;
    if exp == 0 {
        0
    } else {
        let sig: u64 = 0x80_0000u64 + frac as u64;
        if exp >= 118 {
            let p = pow2_u64((exp - 118) as u64);
            proof {
                assert(exp <= 127);
                if exp == 127 {
                    assert(frac == 0);
                    assert(sig == 0x80_0000);
                    assert(pow2(9) == 512);
                    assert(sig * pow2((exp - 118) as nat) == 0x1_0000_0000) by (nonlinear_arith)
                        requires
                            sig == 0x80_0000,
                            pow2((exp - 118) as nat) == 512,
                    ;
                } else {
                    assert(pow2((exp - 118) as nat) <= pow2(8)) by {
                        if exp - 118 < 8 {
                            lemma_pow2_strictly_increases((exp - 118) as nat, 8);
                        }
                    }
                    assert(sig * pow2((exp - 118) as nat) < 0x1_0000_0000) by (nonlinear_arith)
                        requires
                            sig < 0x100_0000,
                            pow2((exp - 118) as nat) <= 0x100,
                    ;
                }
            }
            sig * p
        } else if exp <= 94 {
            proof {
                let k = (118 - exp) as nat;
                assert(k >= 24);
                assert(pow2(24) <= pow2(k)) by {
                    if k > 24 {
                        lemma_pow2_strictly_increases(24, k);
                    }
                }
                assert(sig < pow2(24));
                lemma_pow2_pos(k);
                assert(sig as nat / pow2(k) == 0) by (nonlinear_arith)
                    requires
                        sig < pow2(k),
                        pow2(k) >= 1,
                ;
            }
            0
        } else {
            let p = pow2_u64((118 - exp) as u64);
            proof {
                lemma_pow2_pos((118 - exp) as nat);
                assert(sig as nat / pow2((118 - exp) as nat) <= sig as nat) by (nonlinear_arith)
                    requires
                        pow2((118 - exp) as nat) >= 1,
                        sig >= 0,
                ;
            }
            sig / p
        }
    }
}

/// Encode a fixed-point magnitude (scaled by 2^32, at most 2^32) and a
/// sign as a sample bit pattern.
pub fn fixed_to_sample(neg: bool, m: u64) -> (b: u32)
    requires
        m <= MAG_ONE,
    ensures
        b == fixed_encode(neg, m as nat),
        sample_in_range(b),
        m == 0 ==> b == 0,
{
    proof {
        lemma2_to64();
        lemma2_to64_rest();
    }
    if m == 0 {
        assert(sample_exp(0) == 0 && sample_frac(0) == 0);
        0
    } else {
        let t = log2_floor_u64(m);
        proof {
            lemma_log2_floor_bounds(m as nat);
            assert(t <= 32) by {
                if t > 32 {
                    lemma_pow2_strictly_increases(33, t as nat);
                    assert(pow2(t as nat) >= pow2(33));
                }
            }
        }
        let sig: u64 = if t <= 23 {
            let p = pow2_u64(23 - t);
            proof {
                let k = (23 - t) as nat;
                lemma_pow2_adds(t as nat, k);
                lemma_pow2_adds((t + 1) as nat, k);
                lemma_pow2_pos(k);
                assert(m * pow2(k) < pow2((t + 1) as nat) * pow2(k)) by (nonlinear_arith)
                    requires
                        m < pow2((t + 1) as nat),
                        pow2(k) >= 1,
                ;
                assert(pow2((t + 1) as nat + k) <= pow2(24)) by {
                    if (t as nat + 1 + k) < 24 {
                        lemma_pow2_strictly_increases(t as nat + 1 + k, 24);
                    }
                }
            }
            m * p
        } else {
            let p = pow2_u64(t - 23);
            m / p
        };
        proof {
            let spec_sig = if t as nat <= 23 {
                (m as nat) * pow2((23 - t as nat) as nat)
            } else {
                (m as nat) / pow2((t as nat - 23) as nat)
            };
            assert(sig == spec_sig);
            assert(0x80_0000 <= spec_sig < 0x100_0000) by {
                if t <= 23 {
                    let k = (23 - t) as nat;
                    lemma_pow2_adds(t as nat, k);
                    lemma_pow2_adds((t + 1) as nat, k);
                    lemma_pow2_pos(k);
                    assert(pow2(t as nat) * pow2(k) <= m * pow2(k) && m * pow2(k) < pow2(
                        (t + 1) as nat,
                    ) * pow2(k)) by (nonlinear_arith)
                        requires
                            pow2(t as nat) <= m < pow2((t + 1) as nat),
                            pow2(k) >= 1,
                    ;
                } else {
                    let k = (t - 23) as nat;
                    lemma_pow2_adds(23, k);
                    lemma_pow2_adds(24, k);
                    lemma_pow2_pos(k);
                    assert(pow2(23) * pow2(k) <= m < pow2(24) * pow2(k));
                    assert(pow2(23) <= m as nat / pow2(k) && m as nat / pow2(k) < pow2(
                        24,
                    )) by (nonlinear_arith)
                        requires
                            pow2(23) * pow2(k) <= m < pow2(24) * pow2(k),
                            pow2(k) >= 1,
                    ;
                }
            }
        }
        let f: u32 = (sig - 0x80_0000) as u32;
        let e: u32 = (t as u32) + 95;
        let base: u32 = if neg {
            0x8000_0000u32
        } else {
            0u32
        };
        proof {
            let s: nat = if neg {
                1
            } else {
                0
            };
            lemma_bits_fields(s, e as nat, f as nat);
            let spec_t = log2_floor(m as nat);
            let spec_sig = if spec_t <= 23 {
                (m as nat) * pow2((23 - spec_t) as nat)
            } else {
                (m as nat) / pow2((spec_t - 23) as nat)
            };
            assert(encode_bits(neg, m as nat) == s * 0x8000_0000 + (spec_t + 95) * 0x80_0000 + (
            spec_sig - 0x80_0000));
            assert(encode_bits(neg, m as nat) == s * 0x8000_0000 + (e as nat) * 0x80_0000 + (
            f as nat));
            let bits = (s * 0x8000_0000 + (e as nat) * 0x80_0000 + f as nat) as nat;
            assert(bits < 0x1_0000_0000);
            assert(fixed_encode(neg, m as nat) == bits as u32);
            // The encoded sample is in range: the exponent tops out at 127,
            // and reaches it only for a magnitude of exactly 2^32, whose
            // fraction field is zero.
            assert(sample_exp(bits as u32) == e as nat && sample_frac(bits as u32) == f as nat);
            if e == 127 {
                assert(t == 32);
                assert(pow2(32) <= m as nat);
                assert(m as nat == pow2(32));
                assert((spec_t - 23) as nat == 9nat);
                assert(pow2(32) == pow2(23) * pow2(9)) by {
                    lemma_pow2_adds(23, 9);
                }
                assert(spec_sig == (pow2(23) * pow2(9)) / pow2(9));
                lemma_div_multiples_vanish(pow2(23) as int, pow2(9) as int);
                assert(spec_sig == pow2(23));
                assert(f == 0);
            }
        }
        base + e * 0x80_0000 + f
    }
}

/// Floor of the base-2 logarithm.
pub fn log2_floor_u64(m: u64) -> (t: u64)
    requires
        m >= 1,
    ensures
        t == log2_floor(m as nat),
        t <= 63,
{
    let mut x: u64 = m;
    let mut t: u64 = 0;
    proof {
        lemma2_to64();
    }
    while x >= 2
        invariant
            1 <= x,
            t <= 63,
            log2_floor(m as nat) == t + log2_floor(x as nat),
            pow2(t as nat) * (x as nat) <= m as nat,
        decreases x,
    {
        proof {
            lemma_pow2_adds(t as nat, 1);
            lemma2_to64();
            assert(pow2((t + 1) as nat) * ((x / 2) as nat) <= pow2(t as nat) * (x as nat))
                by (nonlinear_arith)
                requires
                    x >= 2,
                    pow2((t + 1) as nat) == pow2(t as nat) * 2,
            ;
            assert((t + 1) as nat <= 63) by {
                lemma2_to64_rest();
                if t + 1 > 63 {
                    if t + 1 > 64 {
                        lemma_pow2_strictly_increases(64, (t + 1) as nat);
                    }
                    assert(pow2((t + 1) as nat) >= pow2(64));
                    assert(pow2((t + 1) as nat) * ((x / 2) as nat) >= pow2(64) * 1)
                        by (nonlinear_arith)
                        requires
                            pow2((t + 1) as nat) >= pow2(64),
                            x / 2 >= 1,
                    ;
                    assert(m as nat >= pow2(64));
                    assert(m < pow2(64));
                }
            }
        }
        x = x / 2;
        t = t + 1;
    }
    t
}

/// Convert a signed 16-bit PCM sample to a float sample, mapping s to
/// s / 32768.  The quotient is exact: its fixed-point value is s * 2^17.
pub fn sample_from_i16(s: i16) -> (b: u32)
    ensures
        sample_in_range(b),
        sample_val_fixed(b) == s as int * 0x2_0000,
{
    if s == 0 {
        proof {
            assert(sample_exp(0) == 0);
        }
        0
    } else {
        let neg: bool = s < 0;
        let a: u64 = if s >= 0 {
            s as u64
        } else {
            (-(s as i32)) as u64
        };
        let m: u64 = a * 0x2_0000;
        proof {
            lemma2_to64();
            assert(a as nat * pow2(17) <= 0x1_0000_0000) by (nonlinear_arith)
                requires
                    a <= 0x8000,
                    pow2(17) == 0x2_0000,
            ;
            lemma_scaled_encode_exact(neg, a as nat, 17);
            assert(m as nat == a as nat * pow2(17));
        }
        fixed_to_sample(neg, m)
    }
}

/// Convert an unsigned 16-bit PCM sample to a float sample, mapping u to
/// u / 65536 - 0.5.  The result is exact: its fixed-point value is
/// (u - 32768) * 2^16.
pub fn sample_from_u16(u: u16) -> (b: u32)
    ensures
        sample_in_range(b),
        sample_val_fixed(b) == (u as int - 0x8000) * 0x1_0000,
{
    if u == 0x8000 {
        proof {
            assert(sample_exp(0) == 0);
        }
        0
    } else {
        let neg: bool = u < 0x8000;
        let a: u64 = if u >= 0x8000 {
            (u - 0x8000) as u64
        } else {
            (0x8000 - u) as u64
        };
        let m: u64 = a * 0x1_0000;
        proof {
            lemma2_to64();
            assert(a as nat * pow2(16) <= 0x1_0000_0000) by (nonlinear_arith)
                requires
                    a <= 0x8000,
                    pow2(16) == 0x1_0000,
            ;
            lemma_scaled_encode_exact(neg, a as nat, 16);
            assert(m as nat == a as nat * pow2(16));
        }
        fixed_to_sample(neg, m)
    }
}

/// The native sample formats a capture session can negotiate.  Every
/// other driver format is unsupported and the session is not started.
#[derive(Debug, Clone, Copy, PartialEq, Eq, Structural)]
pub enum NativeSampleFormat {
    /// Signed 16-bit integer samples; each maps to s / 32768.
    Signed16,
    /// Unsigned 16-bit integer samples; each maps to u / 65536 - 0.5.
    Unsigned16,
    /// Native binary32 samples, passed through.
    Float32,
    /// Anything else the driver may report.
    Unsupported,
}

/// Whether a capture session can open with this native format: exactly
/// the three supported formats pass, everything else is rejected with
/// `UnsupportedFormat`.
pub fn check_native_format(f: NativeSampleFormat) -> (r: Result<(), crate::MicError>)
    ensures
        f is Unsupported <==> r is Err,
        r is Err ==> r == Err::<(), crate::MicError>(crate::MicError::UnsupportedFormat),
{
    match f {
        NativeSampleFormat::Unsupported => Err(crate::MicError::UnsupportedFormat),
        _ => Ok(()),
    }
}

/// Convert a whole buffer of signed 16-bit samples.
pub fn convert_i16_buffer(data: &Vec<i16>) -> (out: Vec<u32>)
    ensures
        out@.len() == data@.len(),
        forall|i: int|
            0 <= i < out@.len() ==> sample_in_range(#[trigger] out@[i]) && sample_val_fixed(
                out@[i],
            ) == data@[i] as int * 0x2_0000,
{
    let mut out: Vec<u32> = Vec::new();
    let mut i: usize = 0;
    while i < data.len()
        invariant
            i <= data@.len(),
            out@.len() == i,
            forall|k: int|
                0 <= k < i ==> sample_in_range(#[trigger] out@[k]) && sample_val_fixed(out@[k])
                    == data@[k] as int * 0x2_0000,
        decreases data@.len() - i,
    {
        out.push(sample_from_i16(data[i]));
        i = i + 1;
    }
    out
}

/// Convert a whole buffer of unsigned 16-bit samples.
pub fn convert_u16_buffer(data: &Vec<u16>) -> (out: Vec<u32>)
    ensures
        out@.len() == data@.len(),
        forall|i: int|
            0 <= i < out@.len() ==> sample_in_range(#[trigger] out@[i]) && sample_val_fixed(
                out@[i],
            ) == (data@[i] as int - 0x8000) * 0x1_0000,
{
    let mut out: Vec<u32> = Vec::new();
    let mut i: usize = 0;
    while i < data.len()
        invariant
            i <= data@.len(),
            out@.len() == i,
            forall|k: int|
                0 <= k < i ==> sample_in_range(#[trigger] out@[k]) && sample_val_fixed(out@[k])
                    == (data@[k] as int - 0x8000) * 0x1_0000,
        decreases data@.len() - i,
    {
        out.push(sample_from_u16(data[i]));
        i = i + 1;
    }
    out
}

/// Clamp a buffer of native binary32 bit patterns into [-1.0, 1.0]:
/// every in-range sample passes through unchanged, any other pattern
/// (louder than full scale, infinite or NaN) becomes silence.
pub fn clamp_f32_buffer(data: &Vec<u32>) -> (out: Vec<u32>)
    ensures
        out@.len() == data@.len(),
        forall|i: int| 0 <= i < out@.len() ==> sample_in_range(#[trigger] out@[i]),
        forall|i: int|
            0 <= i < out@.len() ==> #[trigger] out@[i] == (if sample_in_range(data@[i]) {
                data@[i]
            } else {
                0u32
            }),
{
    let mut out: Vec<u32> = Vec::new();
    let mut i: usize = 0;
    while i < data.len()
        invariant
            i <= data@.len(),
            out@.len() == i,
            forall|k: int| 0 <= k < i ==> sample_in_range(#[trigger] out@[k]),
            forall|k: int|
                0 <= k < i ==> #[trigger] out@[k] == (if sample_in_range(data@[k]) {
                    data@[k]
                } else {
                    0u32
                }),
        decreases data@.len() - i,
    {
        let b = data[i];
        if is_sample_in_range(b) {
            out.push(b);
        } else {
            proof {
                assert(sample_exp(0) == 0);
            }
            out.push(0u32);
        }
        i = i + 1;
    }
    out
}

/// A magnitude of the form a * 2^k with a * 2^k <= 2^32 and k >= 9
/// decodes exactly after encoding: the truncated tail is divisible.
proof fn lemma_scaled_encode_exact(neg: bool, a: nat, k: nat)
    requires
        1 <= a,
        9 <= k <= 32,
        a * pow2(k) <= 0x1_0000_0000,
    ensures
        sample_in_range(fixed_encode(neg, a * pow2(k))),
        sample_neg(fixed_encode(neg, a * pow2(k))) == neg,
        sample_mag_fixed(fixed_encode(neg, a * pow2(k))) == a * pow2(k),
{
    let m = a * pow2(k);
    lemma_pow2_pos(k);
    assert(m >= 1) by (nonlinear_arith)
        requires
            a >= 1,
            pow2(k) >= 1,
            m == a * pow2(k),
    ;
    lemma_log2_floor_bounds(m);
    let t = log2_floor(m);
    if t > 23 {
        lemma2_to64();
        lemma2_to64_rest();
        assert(t <= 32) by {
            if t > 32 {
                lemma_pow2_strictly_increases(33, t);
            }
        }
        let d = (t - 23) as nat;
        assert(d <= 9);
        // 2^d divides 2^k since d <= 9 <= k, so it divides m.
        lemma_pow2_adds((k - d) as nat, d);
        assert(pow2(k) == pow2((k - d) as nat) * pow2(d));
        assert(m == (a * pow2((k - d) as nat)) * pow2(d)) by (nonlinear_arith)
            requires
                m == a * pow2(k),
                pow2(k) == pow2((k - d) as nat) * pow2(d),
        ;
        lemma_mod_multiples_basic((a * pow2((k - d) as nat)) as int, pow2(d) as int);
        lemma_pow2_pos(d);
        assert(m % pow2(d) == 0);
    }
    lemma_encode_fixed(neg, m);
}

} // verus!
