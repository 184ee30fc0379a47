//! Double-precision numbers, held as their IEEE-754 bit patterns.
//!
//! The wire carries numbers as eight bytes. The library keeps those bits: it copies them, tells
//! finite numbers from the others, compares them, and turns integers into them and back. It
//! does no rounding arithmetic on them.
use vstd::arithmetic::power2::{lemma_pow2_adds, lemma_pow2_pos, lemma_pow2_strictly_increases,
    lemma_pow2_unfold, lemma2_to64, lemma2_to64_rest, pow2};
use vstd::prelude::*;

verus! {

/// A double-precision number.
#[derive(Clone, Copy, Debug, PartialEq, Eq, Structural)]
pub struct Double {
    /// The sign bit, eleven exponent bits and 52 fraction bits, most significant first.
    pub bits: u64,
}

/// `2^52`, the weight of the leading bit that a normal number leaves out.
pub const LEADING: u64 = 0x10_0000_0000_0000;

/// `2^63`, the sign bit.
pub const SIGN: u64 = 0x8000_0000_0000_0000;

/// `2^53`: every integer up to here is a double.
pub const INTEGER_MAX: u64 = 0x20_0000_0000_0000;

/// The number of binary digits of `n` behind the first.
pub open spec fn exponent(n: nat) -> nat
    decreases n,
{
    if n <= 1 {
        0
    } else {
        exponent(n / 2) + 1
    }
}

/// The digits of `n` moved so that the first has the weight `2^52`.
pub open spec fn significand(n: nat) -> nat {
    let e = exponent(n);
    if e <= 52 {
        n * pow2((52 - e) as nat)
    } else {
        n / pow2((e - 52) as nat)
    }
}

/// The double of an integer up to `2^53`.
pub open spec fn of_int(n: nat) -> Double {
    if n == 0 {
        Double { bits: 0 }
    } else {
        Double { bits: ((1023 + exponent(n)) * LEADING + (significand(n) - LEADING)) as u64 }
    }
}

/// The double of a signed integer.
pub open spec fn of_signed(n: int) -> Double {
    if n >= 0 {
        of_int(n as nat)
    } else {
        Double { bits: (of_int((-n) as nat).bits + SIGN) as u64 }
    }
}

impl Double {
    /// The eleven exponent bits.
    pub open spec fn biased(self) -> int {
        (self.bits / LEADING % 2048) as int
    }

    /// Neither infinite nor a NaN.
    pub open spec fn finite(self) -> bool {
        self.biased() != 2047
    }

    /// The place of a number that is not a NaN among all numbers: smaller numbers have smaller
    /// places, and the two zeros share theirs.
    pub open spec fn rank(self) -> int {
        if self.bits < SIGN {
            self.bits as int
        } else {
            SIGN - self.bits
        }
    }

    /// The integer part of a finite number that is not negative.
    pub open spec fn trunc(self) -> nat {
        let e = self.biased() - 1023;
        let m = (LEADING + self.bits % LEADING) as nat;
        if e < 0 {
            0
        } else if e <= 52 {
            m / pow2((52 - e) as nat)
        } else {
            m * pow2((e - 52) as nat)
        }
    }

    /// A finite number from zero up to `top`.
    pub open spec fn within(self, top: Double) -> bool {
        self.finite() && 0 <= self.rank() <= top.rank()
    }

    /// Whether the number is neither infinite nor a NaN.
    pub fn is_finite(self) -> (r: bool)
        ensures
            r == self.finite(),
    {
        self.bits / LEADING % 2048 != 2047
    }

    /// Whether this is less than `other`, neither being a NaN.
    pub fn less(self, other: Double) -> (r: bool)
        ensures
            r == (self.rank() < other.rank()),
    {
        if self.bits < SIGN {
            other.bits < SIGN && self.bits < other.bits
        } else if other.bits < SIGN {
            self.bits > SIGN || other.bits > 0
        } else {
            self.bits > other.bits
        }
    }

    /// The double of an integer up to `2^53`.
    pub fn from_u64(n: u64) -> (r: Double)
        requires
            n <= INTEGER_MAX,
        ensures
            r == of_int(n as nat),
    {
        if n == 0 {
            return Double { bits: 0 };
        }
        if n == INTEGER_MAX {
            proof {
                lemma_powers();
                lemma_exponent(n as nat, 53);
            }
            return Double { bits: 1076 * LEADING };
        }
        let mut m: u64 = n;
        let mut e: u64 = 52;
        proof {
            lemma_powers();
            assert(n * pow2(0) == n) by (nonlinear_arith)
                requires
                    pow2(0) == 1,
            ;
        }
        while m < LEADING
            invariant
                0 < n < INTEGER_MAX,
                0 <= e <= 52,
                m == n * pow2((52 - e) as nat),
                0 < m < INTEGER_MAX,
            decreases INTEGER_MAX - m,
        {
            proof {
                let k = (52 - e) as nat;
                lemma_pow2_unfold(k + 1);
                assert(n * pow2(k + 1) == 2 * (n * pow2(k))) by (nonlinear_arith)
                    requires
                        pow2(k + 1) == 2 * pow2(k),
                ;
                if e == 0 {
                    lemma_powers();
                    assert(n * pow2(52) >= pow2(52)) by (nonlinear_arith)
                        requires
                            n >= 1,
                            pow2(52) > 0,
                    ;
                }
            }
            m = m * 2;
            e = e - 1;
        }
        proof {
            let k = (52 - e) as nat;
            lemma_pow2_pos(k);
            lemma_pow2_adds(k, e as nat);
            lemma_pow2_adds(k, (e + 1) as nat);
            lemma_powers();
            assert(pow2(e as nat) <= n) by (nonlinear_arith)
                requires
                    n * pow2(k) >= pow2(k) * pow2(e as nat),
                    pow2(k) > 0,
            ;
            assert(n < pow2((e + 1) as nat)) by (nonlinear_arith)
                requires
                    n * pow2(k) < pow2(k) * pow2((e + 1) as nat),
                    pow2(k) > 0,
            ;
            lemma_exponent(n as nat, e as nat);
        }
        Double { bits: (1023 + e) * LEADING + (m - LEADING) }
    }

    /// The double of a 32-bit integer.
    pub fn from_u32(n: u32) -> (r: Double)
        ensures
            r == of_int(n as nat),
    {
        Double::from_u64(n as u64)
    }

    /// The double of a signed 32-bit integer.
    pub fn from_i32(n: i32) -> (r: Double)
        ensures
            r == of_signed(n as int),
    {
        if n >= 0 {
            Double::from_u64(n as u64)
        } else {
            let d = Double::from_u64((-(n as i64)) as u64);
            proof {
                lemma_of_int_bound((-n) as nat);
            }
            Double { bits: d.bits + SIGN }
        }
    }

    /// The integer part, where it fits.
    fn truncate(self) -> (r: u64)
        requires
            self.bits < 0x43F0_0000_0000_0000,
        ensures
            r == self.trunc(),
    {
        let biased: u64 = self.bits / LEADING;
        if biased < 1023 {
            return 0;
        }
        let e: u64 = biased - 1023;
        let m: u64 = LEADING + self.bits % LEADING;
        proof {
            lemma_powers();
        }
        if e <= 52 {
            let k: u64 = 52 - e;
            proof {
                vstd::bits::lemma_u64_shr_is_div(m, k);
            }
            m >> k
        } else {
            let k: u64 = e - 52;
            proof {
                if k < 11 {
                    lemma_pow2_strictly_increases(k as nat, 11);
                }
                assert(m * pow2(k as nat) <= u64::MAX) by (nonlinear_arith)
                    requires
                        m < 0x20_0000_0000_0000,
                        pow2(k as nat) <= 2048,
                ;
                vstd::bits::lemma_u64_shl_is_mul(m, k);
            }
            m << k
        }
    }

    /// The integer part of a number from 0 to 4294967295.
    pub fn to_u32(self) -> (r: Option<u32>)
        ensures
            r == (if self.within(of_int(u32::MAX as nat)) {
                Some(self.trunc() as u32)
            } else {
                None
            }),
            self.within(of_int(u32::MAX as nat)) ==> self.trunc() <= u32::MAX,
    {
        let top = Double::from_u32(u32::MAX);
        proof {
            lemma_powers();
            lemma_exponent(u32::MAX as nat, 31);
            assert(significand(u32::MAX as nat) == 0xFFFF_FFFF * 0x20_0000);
            assert(top.bits == 0x41EF_FFFF_FFE0_0000);
        }
        if self.bits == SIGN {
            proof {
                assert(self.biased() == 0);
            }
            return Some(0);
        }
        if self.bits > 0x41EF_FFFF_FFE0_0000 {
            return None;
        }
        let n = self.truncate();
        proof {
            lemma_trunc_monotone(self, top);
            lemma_trunc_of_int(u32::MAX as nat);
        }
        Some(n as u32)
    }

    /// The integer part of a number from 0 to `2^64`, the last one brought down to the largest
    /// 64-bit integer.
    pub fn to_u64(self) -> (r: Option<u64>)
        ensures
            r == (if self.within(Double { bits: 0x43F0_0000_0000_0000 }) {
                Some(if self.trunc() <= u64::MAX {
                    self.trunc() as u64
                } else {
                    u64::MAX
                })
            } else {
                None
            }),
    {
        if self.bits == SIGN {
            proof {
                assert(self.biased() == 0);
            }
            return Some(0);
        }
        if self.bits > 0x43F0_0000_0000_0000 {
            return None;
        }
        if self.bits == 0x43F0_0000_0000_0000 {
            proof {
                lemma_powers();
                assert(self.biased() == 1087);
                assert(self.trunc() == LEADING * pow2(12));
            }
            return Some(u64::MAX);
        }
        Some(self.truncate())
    }
}

/// Powers of two that the format is built on.
proof fn lemma_powers()
    ensures
        pow2(0) == 1,
        pow2(1) == 2,
        pow2(11) == 2048,
        pow2(12) == 4096,
        pow2(21) == 0x20_0000,
        pow2(31) == 0x8000_0000,
        pow2(32) == 0x1_0000_0000,
        pow2(52) == LEADING,
        pow2(53) == 2 * LEADING,
        pow2(54) == 4 * LEADING,
        pow2(64) == 0x1_0000_0000_0000_0000,
{
    lemma2_to64();
    lemma2_to64_rest();
}

/// `exponent` is the binary logarithm, rounded down.
proof fn lemma_exponent(n: nat, e: nat)
    requires
        pow2(e) <= n < pow2(e + 1),
    ensures
        exponent(n) == e,
    decreases e,
{
    lemma_pow2_unfold(e + 1);
    if e == 0 {
        lemma_powers();
    } else {
        lemma_pow2_unfold(e);
        lemma_pow2_pos((e - 1) as nat);
        lemma_exponent(n / 2, (e - 1) as nat);
    }
}

/// The binary logarithm of a positive integer exists.
proof fn lemma_exponent_bounds(n: nat)
    requires
        n > 0,
    ensures
        pow2(exponent(n)) <= n < pow2(exponent(n) + 1),
    decreases n,
{
    lemma_powers();
    if n > 1 {
        lemma_exponent_bounds(n / 2);
        lemma_pow2_unfold(exponent(n));
        lemma_pow2_unfold(exponent(n) + 1);
    }
}

/// The first digit of the significand has the weight `2^52`.
proof fn lemma_significand(n: nat)
    requires
        0 < n <= INTEGER_MAX,
    ensures
        exponent(n) <= 53,
        LEADING <= significand(n) < 2 * LEADING,
        exponent(n) == 53 ==> n == INTEGER_MAX && significand(n) == LEADING,
{
    let e = exponent(n);
    lemma_exponent_bounds(n);
    lemma_powers();
    if e > 53 {
        lemma_pow2_strictly_increases(53, e);
    }
    if e <= 52 {
        let k = (52 - e) as nat;
        lemma_pow2_pos(k);
        lemma_pow2_adds(k, e);
        lemma_pow2_adds(k, e + 1);
        assert(pow2(k) * pow2(e) <= n * pow2(k) < pow2(k) * pow2(e + 1)) by (nonlinear_arith)
            requires
                pow2(e) <= n < pow2(e + 1),
                pow2(k) > 0,
        ;
    }
}

/// An integer up to `2^53` is a finite double that is not negative.
pub proof fn lemma_of_int_bound(n: nat)
    requires
        n <= INTEGER_MAX,
    ensures
        of_int(n).bits <= 1076 * LEADING,
        of_int(n).finite(),
        0 <= of_int(n).rank(),
        n > 0 ==> of_int(n).biased() == 1023 + exponent(n) && of_int(n).bits % LEADING
            == significand(n) - LEADING,
{
    if n > 0 {
        lemma_significand(n);
        let e = exponent(n);
        let f = significand(n) - LEADING;
        assert(((1023 + e) * LEADING + f) / (LEADING as int) == 1023 + e && ((1023 + e) * LEADING
            + f) % (LEADING as int) == f) by (nonlinear_arith)
            requires
                0 <= f < LEADING,
                LEADING > 0,
        ;
        assert((1023 + e) * LEADING + f <= 1076 * LEADING) by (nonlinear_arith)
            requires
                0 <= f < LEADING,
                e <= 53,
                e == 53 ==> f == 0,
        ;
    }
}

/// An integer up to `2^53` survives the way to a double and back.
pub proof fn lemma_trunc_of_int(n: nat)
    requires
        n <= INTEGER_MAX,
    ensures
        of_int(n).trunc() == n,
{
    if n > 0 {
        lemma_significand(n);
        lemma_of_int_bound(n);
        let e = exponent(n);
        if e <= 52 {
            let k = (52 - e) as nat;
            lemma_pow2_pos(k);
            assert(n * pow2(k) / pow2(k) == n) by (nonlinear_arith)
                requires
                    pow2(k) > 0,
            ;
        } else {
            lemma_powers();
            assert(LEADING * pow2(1) == n) by (nonlinear_arith)
                requires
                    pow2(1) == 2,
                    n == INTEGER_MAX,
            ;
        }
    } else {
        assert(of_int(0).biased() == 0);
    }
}

/// Of two integers up to `2^53` the larger has the larger double.
pub proof fn lemma_of_int_order(n: nat, m: nat)
    requires
        n <= m <= INTEGER_MAX,
    ensures
        of_int(n).within(of_int(m)),
{
    lemma_of_int_bound(n);
    lemma_of_int_bound(m);
    lemma_trunc_of_int(n);
    lemma_trunc_of_int(m);
    if of_int(m).bits < of_int(n).bits {
        lemma_trunc_monotone(of_int(m), of_int(n));
    }
}

/// Of two finite numbers that are not negative the larger has the larger integer part.
pub proof fn lemma_trunc_monotone(a: Double, b: Double)
    requires
        a.bits <= b.bits < SIGN,
    ensures
        a.trunc() <= b.trunc(),
{
    let e = a.biased() - 1023;
    let f = b.biased() - 1023;
    let m = (LEADING + a.bits % LEADING) as nat;
    let n = (LEADING + b.bits % LEADING) as nat;
    if e >= 0 {
        lemma_powers();
        if e <= 52 {
            lemma_pow2_pos((52 - e) as nat);
        }
        if f <= 52 {
            lemma_pow2_pos((52 - f) as nat);
            if e == f {
                assert(m / pow2((52 - e) as nat) <= n / pow2((52 - e) as nat)) by (nonlinear_arith)
                    requires
                        m <= n,
                        pow2((52 - e) as nat) > 0,
                ;
            } else {
                let k = (52 - e) as nat;
                let j = (52 - f) as nat;
                lemma_pow2_unfold(k);
                if j < k - 1 {
                    lemma_pow2_strictly_increases(j, (k - 1) as nat);
                }
                // m < 2^53 <= 2 n and 2 * 2^j <= 2^k.
                assert(m / pow2(k) <= n / pow2(j)) by (nonlinear_arith)
                    requires
                        m <= 2 * n,
                        2 * pow2(j) <= pow2(k),
                        pow2(j) > 0,
                {
                    vstd::arithmetic::div_mod::lemma_div_is_ordered(
                        m as int,
                        (2 * n) as int,
                        pow2(k) as int,
                    );
                    vstd::arithmetic::div_mod::lemma_div_is_ordered_by_denominator(
                        (2 * n) as int,
                        (2 * pow2(j)) as int,
                        pow2(k) as int,
                    );
                    vstd::arithmetic::div_mod::lemma_div_multiples_vanish_quotient(
                        2,
                        n as int,
                        pow2(j) as int,
                    );
                }
            }
        } else if e <= 52 {
            lemma_pow2_pos((f - 52) as nat);
            lemma_pow2_pos((52 - e) as nat);
            let k = (52 - e) as nat;
            let j = (f - 52) as nat;
            lemma_pow2_unfold(j);
            lemma_pow2_pos((j - 1) as nat);
            vstd::arithmetic::div_mod::lemma_div_nonincreasing(m as int, pow2(k) as int);
            assert(m <= n * pow2(j)) by (nonlinear_arith)
                requires
                    m <= 2 * n,
                    pow2(j) >= 2,
            ;
        } else {
            let k = (e - 52) as nat;
            let j = (f - 52) as nat;
            lemma_pow2_pos(k);
            if e == f {
                assert(m * pow2(k) <= n * pow2(k)) by (nonlinear_arith)
                    requires
                        m <= n,
                ;
            } else {
                lemma_pow2_unfold(k + 1);
                if k + 1 < j {
                    lemma_pow2_strictly_increases(k + 1, j);
                }
                assert(m * pow2(k) <= n * pow2(j)) by (nonlinear_arith)
                    requires
                        m <= 2 * n,
                        2 * pow2(k) <= pow2(j),
                ;
            }
        }
    }
}

/// A number by its bits: a sign, eleven bits of exponent and 52 of fraction. It is finite where the
/// exponent is not the largest; numbers are in the order of their bits, and those with the sign in the
/// reverse order below zero; and without its fraction it is the whole number at or below its size.
pub proof fn law_numbers_by_bits(d: Double)
    ensures
        ({
            let e = d.bits as int / 0x10_0000_0000_0000 % 2048;
            let m = 0x10_0000_0000_0000 + d.bits as int % 0x10_0000_0000_0000;
            let t = d.trunc() as int;
            &&& d.finite() <==> e < 2047
            &&& d.bits < 0x8000_0000_0000_0000 ==> d.rank() == d.bits
            &&& d.bits >= 0x8000_0000_0000_0000 ==> d.rank() == 0x8000_0000_0000_0000 - d.bits
            &&& e < 1023 ==> t == 0
            &&& 1023 <= e <= 1075 ==> ({
                let w = pow2((1075 - e) as nat) as int;
                t * w <= m < (t + 1) * w
            })
            &&& e > 1075 ==> t == m * pow2((e - 1075) as nat)
        }),
{
    let e = d.bits as int / 0x10_0000_0000_0000 % 2048;
    let m = 0x10_0000_0000_0000 + d.bits as int % 0x10_0000_0000_0000;
    if 1023 <= e <= 1075 {
        let w = pow2((1075 - e) as nat) as int;
        lemma_pow2_pos((1075 - e) as nat);
        vstd::arithmetic::div_mod::lemma_fundamental_div_mod(m, w);
        vstd::arithmetic::div_mod::lemma_mod_bound(m, w);
        let t = m / w;
        assert(t * w <= m < (t + 1) * w) by (nonlinear_arith)
            requires
                m == w * t + m % w,
                0 <= m % w < w,
        ;
    }
}

/// A whole number from `2^k` up to the next power of two, `k` at most 52, is the number with exponent
/// `k` whose fraction is what is above `2^k`, scaled. Zero is all zeros, and a negative number is that
/// of its size with the sign.
pub proof fn law_whole_numbers_by_bits(n: nat, k: nat)
    requires
        k <= 52,
        pow2(k) <= n < pow2(k + 1),
    ensures
        of_int(n).bits == (1022 + k) * 0x10_0000_0000_0000 + n * pow2((52 - k) as nat),
        of_int(0).bits == 0,
        of_signed(n as int) == of_int(n),
        of_signed(-(n as int)).bits == of_int(n).bits + 0x8000_0000_0000_0000,
{
    lemma_exponent(n, k);
    lemma_powers();
    lemma_pow2_pos(k);
    if k < 52 {
        lemma_pow2_strictly_increases(k + 1, 53);
    }
    lemma_significand(n);
    lemma_of_int_bound(n);
}

} // verus!
