//! Marshalling between small ordinals and the 32-bit number payload.
//!
//! The boundary carries every number as an IEEE-754 single-precision bit
//! pattern. List lengths and 1-based list ordinals cross the boundary in
//! that form, so the library converts exactly between an unsigned integer
//! and the bit pattern, for integers up to 2^24, where the encoding is
//! exact. A pattern whose value is negative, fractional, not finite, or
//! above 2^24 has no ordinal reading.

use vstd::arithmetic::div_mod::{
    lemma_div_by_multiple, lemma_div_multiples_vanish, lemma_mod_multiples_basic,
};
use vstd::arithmetic::mul::{lemma_mul_inequality, lemma_mul_strict_inequality};
use vstd::arithmetic::power2::{
    lemma2_to64, lemma_pow2_adds, lemma_pow2_pos, lemma_pow2_strictly_increases, pow2,
};
use vstd::prelude::*;

verus! {

/// The largest integer whose single-precision encoding is exact here.
pub const MAX_EXACT_ORDINAL: u32 = 0x100_0000;

/// The integer a number payload stands for, if it stands for one: `bits`
/// read as an IEEE-754 single must be a nonnegative integer no greater
/// than 2^24. The sign-bit-only pattern (negative zero) has no reading.
pub open spec fn spec_bits_value(bits: u32) -> Option<nat> {
    let sign = bits / 0x8000_0000;
    let e = (bits / 0x80_0000) % 256;
    let m = (bits % 0x80_0000) as nat;
    if bits == 0 {
        Some(0)
    } else if sign != 0 {
        None
    } else if e < 127 || e > 151 {
        None
    } else {
        let p = (e - 127) as nat;
        if p == 24 {
            if m == 0 {
                Some(pow2(24))
            } else {
                None
            }
        } else {
            if m % pow2((23 - p) as nat) == 0 {
                Some(pow2(p) + m / pow2((23 - p) as nat))
            } else {
                None
            }
        }
    }
}

/// The number payload that stands for the integer `n`: the IEEE-754
/// single-precision encoding, exact for every `n` up to 2^24.
pub fn number_bits_of_u32(n: u32) -> (r: u32)
    requires
        n <= MAX_EXACT_ORDINAL,
    ensures
        spec_bits_value(r) == Some(n as nat),
{
    proof {
        lemma2_to64();
    }
    if n == 0 {
        return 0;
    }
    if n == MAX_EXACT_ORDINAL {
        return 0x4B80_0000;
    }
    // 1 <= n < 2^24: normalize to find the exponent p with
    // pow2(p) <= n < pow2(p + 1); q tracks pow2(23 - p).
    let mut p: u32 = 0;
    let mut lo: u32 = 1;
    let mut q: u32 = 0x80_0000;
    while lo * 2 <= n
        invariant
            1 <= n < 0x100_0000,
            p <= 23,
            lo == pow2(p as nat),
            q == pow2((23 - p) as nat),
            lo <= n,
        decreases 23 - p,
    {
        proof {
            lemma2_to64();
            if p + 1 > 23 {
                lemma_pow2_strictly_increases(24, (p + 1) as nat);
                assert(false);
            }
            lemma_pow2_adds(p as nat, 1);
            lemma_pow2_adds((23 - p - 1) as nat, 1);
            lemma_pow2_pos((23 - p - 1) as nat);
        }
        lo = lo * 2;
        q = q / 2;
        p = p + 1;
    }
    proof {
        lemma_pow2_adds(p as nat, 1);
        lemma_pow2_pos(p as nat);
        lemma_pow2_pos((23 - p) as nat);
        // The mantissa fits below pow2(23).
        lemma_pow2_adds(p as nat, (23 - p) as nat);
        if n - lo < lo {
            lemma_mul_inequality((n - lo) as int, lo as int - 1, q as int);
        }
        assert((n - lo) * q < 0x80_0000) by {
            lemma_mul_strict_inequality((n - lo) as int, lo as int, q as int);
        }
    }
    let m = (n - lo) * q;
    let bits = (127 + p) * 0x80_0000 + m;
    proof {
        lemma2_to64();
        let mi = m as int;
        let qi = q as int;
        // Field extraction: exponent and mantissa recover p and m.
        lemma_div_multiples_vanish((127 + p) as int, 0x80_0000);
        assert(bits / 0x80_0000 == 127 + p) by {
            vstd::arithmetic::div_mod::lemma_div_multiples_vanish_fancy(
                (127 + p) as int,
                mi,
                0x80_0000,
            );
        }
        assert(bits % 0x80_0000 == m) by {
            vstd::arithmetic::div_mod::lemma_mod_multiples_vanish(
                (127 + p) as int,
                mi,
                0x80_0000,
            );
            vstd::arithmetic::div_mod::lemma_small_mod(m as nat, 0x80_0000);
        }
        assert(bits / 0x8000_0000 == 0) by {
            vstd::arithmetic::div_mod::lemma_basic_div(bits as int, 0x8000_0000);
        }
        assert((127 + p) % 256 == 127 + p) by {
            vstd::arithmetic::div_mod::lemma_small_mod((127 + p) as nat, 256);
        }
        // The mantissa is an exact multiple of pow2(23 - p), so the value
        // reads back as n.
        lemma_mod_multiples_basic((n - lo) as int, qi);
        lemma_div_by_multiple((n - lo) as int, qi);
        assert(spec_bits_value(bits) == Some(n as nat));
    }
    bits
}

/// The integer a number payload stands for, or `None` when the payload
/// is not an exact nonnegative integer up to 2^24.
pub fn u32_of_number_bits(bits: u32) -> (r: Option<u32>)
    ensures
        match r {
            Some(n) => spec_bits_value(bits) == Some(n as nat) && n <= MAX_EXACT_ORDINAL,
            None => spec_bits_value(bits) is None,
        },
{
    proof {
        lemma2_to64();
    }
    if bits == 0 {
        return Some(0);
    }
    let sign = bits / 0x8000_0000;
    let e = (bits / 0x80_0000) % 256;
    let m = bits % 0x80_0000;
    if sign != 0 || e < 127 || e > 151 {
        return None;
    }
    let p = e - 127;
    if p == 24 {
        if m == 0 {
            return Some(MAX_EXACT_ORDINAL);
        } else {
            return None;
        }
    }
    // Recover pow2(p) and pow2(23 - p).
    let mut i: u32 = 0;
    let mut lo: u32 = 1;
    let mut q: u32 = 0x80_0000;
    while i < p
        invariant
            p <= 23,
            i <= p,
            lo == pow2(i as nat),
            q == pow2((23 - i) as nat),
        decreases p - i,
    {
        proof {
            lemma_pow2_adds(i as nat, 1);
            lemma_pow2_adds((23 - i - 1) as nat, 1);
            lemma_pow2_pos((23 - i - 1) as nat);
            lemma2_to64();
            lemma_pow2_strictly_increases(i as nat, 24);
        }
        lo = lo * 2;
        q = q / 2;
        i = i + 1;
    }
    proof {
        lemma2_to64();
        lemma_pow2_strictly_increases(p as nat, 24);
        lemma_pow2_pos((23 - p) as nat);
    }
    if m % q != 0 {
        return None;
    }
    proof {
        // lo + m / q stays within the exact range.
        assert(m / q < pow2(p as nat)) by {
            lemma_pow2_adds(p as nat, (23 - p) as nat);
            vstd::arithmetic::div_mod::lemma_multiply_divide_lt(
                m as int,
                q as int,
                pow2(p as nat) as int,
            );
        }
        lemma_pow2_adds(p as nat, 1);
        lemma_pow2_strictly_increases((p + 1) as nat, 25);
    }
    Some(lo + m / q)
}

/// Two distinct payloads never read back as the same ordinal: the
/// encoding is one-to-one on its domain.
pub proof fn lemma_bits_value_injective(a: u32, b: u32)
    requires
        spec_bits_value(a) is Some,
        spec_bits_value(a) == spec_bits_value(b),
    ensures
        a == b,
{
    lemma2_to64();
    let va = spec_bits_value(a)->Some_0;
    lemma_bits_value_fields(a);
    lemma_bits_value_fields(b);
}

/// Helper: a payload with an ordinal reading is determined by its fields,
/// and the fields are determined by the ordinal.
proof fn lemma_bits_value_fields(bits: u32)
    requires
        spec_bits_value(bits) is Some,
    ensures
        ({
            let v = spec_bits_value(bits)->Some_0;
            &&& v <= pow2(24)
            &&& (v == 0 ==> bits == 0)
            &&& (v > 0 ==> {
                let p = spec_floor_log2(v);
                &&& pow2(p) <= v < pow2(p + 1)
                &&& bits == (127 + p) * pow2(23) + (v - pow2(p)) * pow2((23 - p) as nat)
            })
        }),
{
    lemma2_to64();
    let v = spec_bits_value(bits)->Some_0;
    let sign = bits / 0x8000_0000;
    let e = (bits / 0x80_0000) % 256;
    let m = (bits % 0x80_0000) as nat;
    vstd::arithmetic::div_mod::lemma_fundamental_div_mod(bits as int, 0x80_0000);
    vstd::arithmetic::div_mod::lemma_fundamental_div_mod(bits as int, 0x8000_0000);
    if bits == 0 {
    } else {
        let p = (e - 127) as nat;
        assert(bits / 0x80_0000 < 256) by {
            vstd::arithmetic::div_mod::lemma_multiply_divide_lt(bits as int, 0x80_0000, 256);
        }
        assert(bits / 0x80_0000 == e);
        if p == 24 {
            assert(v == pow2(24));
            assert(spec_floor_log2(v) == 24) by {
                lemma_floor_log2_unique(v, 24);
            }
            assert(bits == 151 * 0x80_0000);
            assert(v - pow2(24) == 0);
        } else {
            let q = pow2((23 - p) as nat);
            lemma_pow2_pos((23 - p) as nat);
            assert(m % q == 0);
            assert(v == pow2(p) + m / q);
            assert(m / q < pow2(p)) by {
                lemma_pow2_adds(p, (23 - p) as nat);
                vstd::arithmetic::div_mod::lemma_multiply_divide_lt(
                    m as int,
                    q as int,
                    pow2(p) as int,
                );
            }
            assert(pow2(p) <= v < pow2(p + 1)) by {
                lemma_pow2_adds(p, 1);
            }
            assert(spec_floor_log2(v) == p) by {
                lemma_floor_log2_unique(v, p);
            }
            assert((v - pow2(p)) as nat == m / q);
            assert((m / q) * q == m) by {
                vstd::arithmetic::div_mod::lemma_fundamental_div_mod(m as int, q as int);
            }
            assert(v <= pow2(24)) by {
                lemma_pow2_adds(p, 1);
                if p + 1 <= 24 {
                    if p + 1 < 24 {
                        lemma_pow2_strictly_increases(p + 1, 24);
                    }
                }
            }
        }
    }
}

/// The floor of the base-two logarithm of a positive integer.
pub open spec fn spec_floor_log2(n: nat) -> nat
    decreases n,
{
    if n < 2 {
        0
    } else {
        1 + spec_floor_log2(n / 2)
    }
}

/// `spec_floor_log2` is the unique exponent that brackets `n` between
/// consecutive powers of two.
pub proof fn lemma_floor_log2_unique(n: nat, p: nat)
    requires
        pow2(p) <= n < pow2(p + 1),
    ensures
        spec_floor_log2(n) == p,
    decreases n,
{
    lemma_pow2_pos(p);
    if p == 0 {
        assert(pow2(0) == 1 && pow2(1) == 2) by {
            lemma2_to64();
        }
    } else {
        lemma2_to64();
        lemma_pow2_adds((p - 1) as nat, 1);
        lemma_pow2_adds(p, 1);
        lemma_pow2_pos((p - 1) as nat);
        assert(pow2(p) == 2 * pow2((p - 1) as nat));
        assert(pow2(p + 1) == 2 * pow2(p));
        assert(pow2((p - 1) as nat) <= n / 2 < pow2(p));
        lemma_floor_log2_unique(n / 2, (p - 1) as nat);
        assert(n >= 2) by {
            lemma2_to64();
            if p >= 1 {
                lemma_pow2_strictly_increases(0, p);
            }
        }
    }
}

} // verus!
