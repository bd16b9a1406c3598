//! Instants on the recorder's absolute millisecond scale.
//!
//! An instant is carried as the bit pattern of an IEEE-754 binary64 number of
//! milliseconds, so that it passes through the recorder without loss. The only
//! arithmetic done on it here is exact: taking its whole part.

use vstd::prelude::*;
use vstd::arithmetic::div_mod::{
    lemma_div_is_ordered, lemma_div_multiples_vanish, lemma_multiply_divide_lt,
};
use vstd::arithmetic::power2::*;
use vstd::bits::lemma_u64_shr_is_div;

verus! {

/// The shift, in whole milliseconds, from the clock's own origin to the
/// absolute scale on which instants are recorded and exported. Whoever reads
/// the clock adds it to the reading before handing the instant over.
pub const TIME_OFFSET_MILLIS: u64 = 1735660000000;

/// An instant in milliseconds, as the bit pattern of a binary64 number.
#[derive(Clone, Copy, Debug, PartialEq, Eq, Structural)]
pub struct Timestamp {
    pub bits: u64,
}

/// The sign bit of the pattern is set.
pub open spec fn is_negative(bits: u64) -> bool {
    bits >= 0x8000_0000_0000_0000
}

/// The eleven-bit biased exponent of the pattern.
pub open spec fn exponent_field(bits: u64) -> nat {
    ((bits / 0x10_0000_0000_0000) % 2048) as nat
}

/// The fifty-two stored bits of the significand.
pub open spec fn fraction_field(bits: u64) -> nat {
    (bits % 0x10_0000_0000_0000) as nat
}

/// The significand of a normal number, with its leading one.
pub open spec fn significand(bits: u64) -> nat {
    0x10_0000_0000_0000 + fraction_field(bits)
}

/// The number is a NaN, of either sign.
pub open spec fn is_nan(bits: u64) -> bool {
    exponent_field(bits) == 2047 && fraction_field(bits) != 0
}

/// The whole part of the magnitude of a number, whatever its sign. A normal
/// number with biased exponent `e` has the magnitude
/// `significand * 2^(e - 1075)`; below one the whole part is 0. A magnitude
/// of 2^127 or more, infinity included, is brought to 2^127.
pub open spec fn whole_magnitude(bits: u64) -> nat {
    let e = exponent_field(bits);
    if e < 1023 {
        0
    } else if e <= 1075 {
        significand(bits) / pow2((1075 - e) as nat)
    } else if e <= 1149 {
        significand(bits) * pow2((e - 1075) as nat)
    } else {
        0x8000_0000_0000_0000_0000_0000_0000_0000
    }
}

/// The whole milliseconds of an instant: the number truncated toward zero,
/// with its sign. For an instant at or after zero, and for every whole
/// number, that is its floor; an instant between -1 and 0 gives 0. NaN
/// gives 0. The result is an `i128`: what lies past either end of that type,
/// the infinities included, is brought to the end. That is a limit of the
/// machine integer, not of the table, and lies 2^74 times past the last
/// number that a binary64 tells from its neighbour by a whole millisecond.
pub open spec fn whole_part(bits: u64) -> int {
    let magnitude = whole_magnitude(bits) as int;
    if is_nan(bits) {
        0
    } else if is_negative(bits) {
        -magnitude
    } else if magnitude > i128::MAX {
        i128::MAX as int
    } else {
        magnitude
    }
}

/// The place of a number among all numbers, as an integer that grows with
/// it: the pattern itself from zero upwards, and the negated pattern of the
/// magnitude below zero. Both zeros have the place 0.
pub open spec fn order_key(bits: u64) -> int {
    if is_negative(bits) {
        0x8000_0000_0000_0000 - bits
    } else {
        bits as int
    }
}

impl Timestamp {
    /// The whole milliseconds of this instant.
    pub open spec fn whole_millis_spec(self) -> int {
        whole_part(self.bits)
    }

    /// The instant is a number, of either sign, the infinities included.
    pub open spec fn is_instant(self) -> bool {
        !is_nan(self.bits)
    }

    /// `self` is not later than `other`, for two instants: the order of the
    /// numbers, in which the two zeros are one instant.
    pub open spec fn not_after(self, other: Timestamp) -> bool {
        order_key(self.bits) <= order_key(other.bits)
    }

    /// The number is exactly the whole number `n`: its significand is `n`
    /// scaled by a power of two, with no bit below the units.
    pub open spec fn is_whole(self, n: nat) -> bool {
        &&& !is_negative(self.bits)
        &&& 1023 <= exponent_field(self.bits) <= 1075
        &&& significand(self.bits) == n * pow2((1075 - exponent_field(self.bits)) as nat)
    }

    /// The instant of a clock reading of `reading` whole milliseconds: the
    /// reading shifted by `TIME_OFFSET_MILLIS` onto the absolute scale. The
    /// instants below 2^53 are exactly the whole numbers that a binary64
    /// holds without rounding; a reading that leads past them has none.
    pub fn from_clock_millis(reading: u64) -> (r: Option<Timestamp>)
        ensures
            r is Some <==> reading + TIME_OFFSET_MILLIS < 0x20_0000_0000_0000,
            r matches Some(t) ==> t.is_whole((reading + TIME_OFFSET_MILLIS) as nat)
                && t.whole_millis_spec() == reading + TIME_OFFSET_MILLIS,
    {
        if reading >= 0x20_0000_0000_0000 - TIME_OFFSET_MILLIS {
            return None;
        }
        let n: u64 = reading + TIME_OFFSET_MILLIS;
        let mut sig: u64 = n;
        let mut e: u64 = 1075;
        proof {
            lemma2_to64();
            assert(sig == n * pow2(0)) by (nonlinear_arith)
                requires
                    sig == n,
                    pow2(0) == 1,
            ;
        }
        while sig < 0x10_0000_0000_0000
            invariant
                0x100_0000_0000 <= n < 0x20_0000_0000_0000,
                1063 <= e <= 1075,
                sig == n * pow2((1075 - e) as nat),
                n <= sig < 0x20_0000_0000_0000,
            decreases 0x20_0000_0000_0000 - sig,
        {
            proof {
                let k = (1075 - e) as nat;
                lemma_pow2_unfold(k + 1);
                lemma2_to64();
                if k >= 12 {
                    if k > 12 {
                        lemma_pow2_strictly_increases(12, k);
                    }
                    assert(n * pow2(k) >= 0x10_0000_0000_0000) by (nonlinear_arith)
                        requires
                            n >= 0x100_0000_0000,
                            pow2(k) >= 4096,
                    ;
                }
                assert(k < 12);
                assert(2 * (n * pow2(k)) == n * (2 * pow2(k))) by (nonlinear_arith);
            }
            sig = sig * 2;
            e = e - 1;
        }
        let bits: u64 = e * 0x10_0000_0000_0000 + (sig - 0x10_0000_0000_0000);
        let t = Timestamp { bits };
        proof {
            let d = pow2((1075 - e) as nat) as int;
            lemma_pow2_pos((1075 - e) as nat);
            assert(exponent_field(bits) == e);
            assert(fraction_field(bits) == sig - 0x10_0000_0000_0000);
            assert(n * d == d * n) by (nonlinear_arith);
            lemma_div_multiples_vanish(n as int, d);
        }
        Some(t)
    }

    /// The whole milliseconds of this instant, truncated toward zero, with
    /// its sign, and brought into the range of `i128`.
    pub fn whole_millis(&self) -> (r: i128)
        ensures
            r as int == self.whole_millis_spec(),
    {
        let bits: u64 = self.bits;
        let e: u64 = (bits >> 52) & 0x7ff;
        let f: u64 = bits & 0xf_ffff_ffff_ffff;
        assert(e == (bits / 0x10_0000_0000_0000) % 2048) by (bit_vector)
            requires
                e == (bits >> 52) & 0x7ff,
        ;
        assert(f == bits % 0x10_0000_0000_0000) by (bit_vector)
            requires
                f == bits & 0xf_ffff_ffff_ffff,
        ;
        if e == 2047 && f != 0 {
            return 0;
        }
        let negative: bool = bits >= 0x8000_0000_0000_0000;
        if e < 1023 {
            return 0;
        }
        if e > 1149 {
            return if negative {
                i128::MIN
            } else {
                i128::MAX
            };
        }
        let sig: u64 = 0x10_0000_0000_0000 + f;
        proof {
            lemma_whole_magnitude_in_binade(bits);
            lemma_pow2_127();
            if e < 1149 {
                lemma_pow2_strictly_increases((e - 1022) as nat, 127);
            }
        }
        let magnitude: i128 = if e <= 1075 {
            let s: u64 = 1075 - e;
            proof {
                lemma_u64_shr_is_div(sig, s);
            }
            (sig >> s) as i128
        } else {
            let mut scaled: i128 = sig as i128;
            let mut k: u64 = 0;
            proof {
                lemma2_to64();
                assert(sig * pow2(0) == sig) by (nonlinear_arith)
                    requires
                        pow2(0) == 1,
                ;
            }
            while k < e - 1075
                invariant
                    1075 < e <= 1149,
                    k <= e - 1075,
                    scaled == sig * pow2(k as nat),
                    sig * pow2((e - 1075) as nat) < 0x8000_0000_0000_0000_0000_0000_0000_0000,
                decreases e - 1075 - k,
            {
                proof {
                    let last = (e - 1075) as nat;
                    lemma_pow2_unfold((k + 1) as nat);
                    if k + 1 < last {
                        lemma_pow2_strictly_increases((k + 1) as nat, last);
                    }
                    assert(sig * pow2((k + 1) as nat) <= sig * pow2(last)) by (nonlinear_arith)
                        requires
                            pow2((k + 1) as nat) <= pow2(last),
                    ;
                    assert(2 * (sig * pow2(k as nat)) == sig * (2 * pow2(k as nat)))
                        by (nonlinear_arith);
                }
                scaled = scaled * 2;
                k = k + 1;
            }
            scaled
        };
        if negative {
            -magnitude
        } else {
            magnitude
        }
    }
}

/// 2^127, the first magnitude past the range of `i128`.
proof fn lemma_pow2_127()
    ensures
        pow2(127) == 0x8000_0000_0000_0000_0000_0000_0000_0000,
{
    lemma2_to64();
    lemma2_to64_rest();
    lemma_pow2_adds(64, 63);
}

/// The whole part of a normal magnitude of at least one lies in the binade
/// that its exponent names.
proof fn lemma_whole_magnitude_in_binade(bits: u64)
    requires
        1023 <= exponent_field(bits) <= 1149,
    ensures
        pow2((exponent_field(bits) - 1023) as nat) <= whole_magnitude(bits) < pow2(
            (exponent_field(bits) - 1022) as nat,
        ),
{
    let e = exponent_field(bits);
    let sig = significand(bits) as int;
    let low = pow2((e - 1023) as nat) as int;
    let high = pow2((e - 1022) as nat) as int;
    lemma2_to64_rest();
    assert(pow2(52) == 0x10_0000_0000_0000 && pow2(53) == 0x20_0000_0000_0000);
    assert(pow2(52) <= sig < pow2(53));
    if e <= 1075 {
        let s = (1075 - e) as nat;
        let d = pow2(s) as int;
        lemma_pow2_pos(s);
        lemma_pow2_adds(s, (e - 1023) as nat);
        lemma_pow2_adds(s, (e - 1022) as nat);
        assert(d * low == pow2(52));
        assert(d * high == pow2(53));
        lemma_div_multiples_vanish(low, d);
        lemma_div_is_ordered(d * low, sig, d);
        lemma_multiply_divide_lt(sig, d, high);
    } else {
        let s = (e - 1075) as nat;
        let d = pow2(s) as int;
        lemma_pow2_pos(s);
        lemma_pow2_adds(52, s);
        lemma_pow2_adds(53, s);
        assert(pow2(52) * d <= sig * d < pow2(53) * d) by (nonlinear_arith)
            requires
                pow2(52) <= sig < pow2(53),
                0 < d,
        ;
    }
}

/// The whole part of any magnitude is at most 2^127.
proof fn lemma_whole_magnitude_fits(bits: u64)
    ensures
        whole_magnitude(bits) <= 0x8000_0000_0000_0000_0000_0000_0000_0000,
{
    let e = exponent_field(bits);
    if 1023 <= e <= 1149 {
        lemma_whole_magnitude_in_binade(bits);
        lemma_pow2_127();
        if e < 1149 {
            lemma_pow2_strictly_increases((e - 1022) as nat, 127);
        }
    }
}

/// The pattern of the magnitude: the pattern without its sign bit. Its
/// exponent and fraction are those of the pattern.
proof fn lemma_fields_of_magnitude(bits: u64)
    ensures
        exponent_field(bits) == (bits % 0x8000_0000_0000_0000) / 0x10_0000_0000_0000,
        fraction_field(bits) == (bits % 0x8000_0000_0000_0000) % 0x10_0000_0000_0000,
{
    assert((bits / 0x10_0000_0000_0000) % 2048 == (bits % 0x8000_0000_0000_0000)
        / 0x10_0000_0000_0000) by (bit_vector);
    assert(bits % 0x10_0000_0000_0000 == (bits % 0x8000_0000_0000_0000) % 0x10_0000_0000_0000)
        by (bit_vector);
}

/// Of two numbers, the one with the smaller magnitude has no larger whole
/// part of it.
proof fn lemma_whole_magnitude_monotone(a: u64, b: u64)
    requires
        !is_nan(a),
        !is_nan(b),
        a % 0x8000_0000_0000_0000 <= b % 0x8000_0000_0000_0000,
    ensures
        whole_magnitude(a) <= whole_magnitude(b),
{
    let ea = exponent_field(a);
    let eb = exponent_field(b);
    lemma_fields_of_magnitude(a);
    lemma_fields_of_magnitude(b);
    assert(ea <= eb);
    lemma_whole_magnitude_fits(a);
    if ea < 1023 {
    } else if eb > 1149 {
    } else {
        lemma_whole_magnitude_in_binade(a);
        lemma_whole_magnitude_in_binade(b);
        if ea == eb {
            let sa = significand(a) as int;
            let sb = significand(b) as int;
            assert(sa <= sb);
            if ea <= 1075 {
                let d = pow2((1075 - ea) as nat) as int;
                lemma_pow2_pos((1075 - ea) as nat);
                lemma_div_is_ordered(sa, sb, d);
            } else {
                let d = pow2((ea - 1075) as nat) as int;
                lemma_pow2_pos((ea - 1075) as nat);
                assert(sa * d <= sb * d) by (nonlinear_arith)
                    requires
                        sa <= sb,
                        0 < d,
                ;
            }
        } else {
            if ea + 1 < eb {
                lemma_pow2_strictly_increases((ea - 1022) as nat, (eb - 1023) as nat);
            }
        }
    }
}

/// Among instants of either sign, a later one has no smaller whole part:
/// truncation keeps the order of the clock.
pub proof fn lemma_whole_part_monotone(a: Timestamp, b: Timestamp)
    requires
        a.is_instant(),
        b.is_instant(),
        a.not_after(b),
    ensures
        a.whole_millis_spec() <= b.whole_millis_spec(),
{
    if is_negative(a.bits) && is_negative(b.bits) {
        lemma_whole_magnitude_monotone(b.bits, a.bits);
    } else if !is_negative(a.bits) && !is_negative(b.bits) {
        lemma_whole_magnitude_monotone(a.bits, b.bits);
    } else if !is_negative(a.bits) {
        assert(a.bits == 0 && b.bits == 0x8000_0000_0000_0000);
        assert(exponent_field(a.bits) == 0 && exponent_field(b.bits) == 0);
    }
}

} // verus!
