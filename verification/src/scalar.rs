//! Real-valued measurements (sample amplitudes, decibels, probabilities)
//! carried as whole numbers.
//!
//! A [`Scalar32`] or [`Scalar64`] is an IEEE-754 number held by its rank: its
//! magnitude bits read as an integer, negated for a negative number. Ranks are
//! ordered exactly as the numbers are, so every comparison, minimum and
//! maximum over measurements is exact integer work. Arithmetic on the numbers
//! themselves happens outside this library.

use vstd::prelude::*;
use vstd::arithmetic::power2::{lemma_pow2, lemma_pow2_pos, pow2};

verus! {

/// Rank of single-precision infinity; ranks beyond it would be NaN patterns.
pub const INFINITY_32: i32 = 0x7f80_0000;

/// Rank of double-precision infinity.
pub const INFINITY_64: i64 = 0x7ff0_0000_0000_0000;

/// The number that magnitude bits `m` stand for, in units of the smallest
/// positive number. `hidden` is the weight of the implicit leading bit (two to
/// the count of stored fraction bits). Infinity counts as the first number past
/// the largest finite one.
pub open spec fn magnitude(m: int, hidden: int) -> int {
    let exponent = m / hidden;
    let fraction = m % hidden;
    if exponent == 0 {
        fraction
    } else {
        (hidden + fraction) * pow2((exponent - 1) as nat)
    }
}

/// The number of rank `rank`, in units of the smallest positive number.
pub open spec fn ranked(rank: int, hidden: int) -> int {
    if rank >= 0 {
        magnitude(rank, hidden)
    } else {
        -magnitude(-rank, hidden)
    }
}

proof fn lemma_magnitude_step(m: int, hidden: int)
    requires
        m >= 0,
        hidden > 0,
    ensures
        magnitude(m, hidden) < magnitude(m + 1, hidden),
{
    let e = m / hidden;
    let f = m % hidden;
    assert(m == e * hidden + f && 0 <= f < hidden && e >= 0) by (nonlinear_arith)
        requires
            m >= 0,
            hidden > 0,
            e == m / hidden,
            f == m % hidden,
    ;
    lemma_pow2(0);
    if f + 1 < hidden {
        assert((m + 1) / hidden == e && (m + 1) % hidden == f + 1) by {
            vstd::arithmetic::div_mod::lemma_fundamental_div_mod_converse(m + 1, hidden, e, f + 1);
        }
        if e > 0 {
            let p = pow2((e - 1) as nat);
            lemma_pow2_pos((e - 1) as nat);
            assert((hidden + f) * p < (hidden + (f + 1)) * p) by (nonlinear_arith)
                requires
                    p > 0,
            ;
        }
    } else {
        assert((e + 1) * hidden == e * hidden + hidden) by (nonlinear_arith);
        assert((m + 1) / hidden == e + 1 && (m + 1) % hidden == 0) by {
            vstd::arithmetic::div_mod::lemma_fundamental_div_mod_converse(m + 1, hidden, e + 1, 0);
        }
        if e > 0 {
            let p = pow2((e - 1) as nat);
            lemma_pow2_pos((e - 1) as nat);
            vstd::arithmetic::power2::lemma_pow2_unfold(e as nat);
            assert((hidden + f) * p < hidden * (2 * p)) by (nonlinear_arith)
                requires
                    p > 0,
                    f + 1 == hidden,
            ;
        } else {
            reveal(vstd::arithmetic::power::pow);
            assert(pow2(0) == 1);
        }
    }
}

proof fn lemma_magnitude_increases(a: int, b: int, hidden: int)
    requires
        0 <= a < b,
        hidden > 0,
    ensures
        magnitude(a, hidden) < magnitude(b, hidden),
    decreases b - a,
{
    lemma_magnitude_step(b - 1, hidden);
    if a < b - 1 {
        lemma_magnitude_increases(a, b - 1, hidden);
    }
}

/// Ranks are ordered as the numbers they stand for.
pub proof fn lemma_rank_order(a: int, b: int, hidden: int)
    requires
        hidden > 0,
    ensures
        a < b <==> ranked(a, hidden) < ranked(b, hidden),
        a == b <==> ranked(a, hidden) == ranked(b, hidden),
{
    assert(magnitude(0, hidden) == 0) by {
        vstd::arithmetic::div_mod::lemma_fundamental_div_mod_converse(0, hidden, 0, 0);
    }
    if a != b {
        let (lo, hi) = if a < b { (a, b) } else { (b, a) };
        if lo >= 0 {
            lemma_magnitude_increases(lo, hi, hidden);
        } else if hi <= 0 {
            lemma_magnitude_increases(-hi, -lo, hidden);
        } else {
            lemma_magnitude_increases(0, hi, hidden);
            lemma_magnitude_increases(0, -lo, hidden);
        }
    }
}

/// A single-precision number other than NaN.
#[derive(Clone, Copy, Debug, PartialEq, Eq, Structural)]
pub struct Scalar32 {
    pub rank: i32,
}

impl Scalar32 {
    /// The number in units of the smallest positive single-precision number.
    pub open spec fn value(self) -> int {
        ranked(self.rank as int, 0x80_0000)
    }

    /// The scalar whose IEEE-754 encoding is `bits`; both zeros are one scalar.
    pub open spec fn decoded(bits: u32) -> Option<Scalar32> {
        let m = if bits < 0x8000_0000 { bits as int } else { bits - 0x8000_0000 };
        if m > INFINITY_32 {
            None
        } else if bits < 0x8000_0000 {
            Some(Scalar32 { rank: m as i32 })
        } else {
            Some(Scalar32 { rank: (-m) as i32 })
        }
    }

    /// Reads an IEEE-754 encoding; `None` exactly for NaN.
    pub fn from_bits(bits: u32) -> (scalar: Option<Scalar32>)
        ensures
            scalar == Self::decoded(bits),
    {
        if bits < 0x8000_0000 {
            if bits > 0x7f80_0000 {
                None
            } else {
                Some(Scalar32 { rank: bits as i32 })
            }
        } else {
            let m: u32 = bits - 0x8000_0000;
            if m > 0x7f80_0000 {
                None
            } else {
                let positive: i32 = m as i32;
                Some(Scalar32 { rank: -positive })
            }
        }
    }

    /// The IEEE-754 encoding; zero is encoded as positive zero.
    pub fn to_bits(self) -> (bits: u32)
        requires
            -INFINITY_32 <= self.rank <= INFINITY_32,
        ensures
            Self::decoded(bits) == Some(self),
            self.rank == 0 ==> bits == 0,
    {
        if self.rank >= 0 {
            self.rank as u32
        } else {
            let positive: i32 = -self.rank;
            0x8000_0000 + positive as u32
        }
    }

    /// Zero.
    pub fn zero() -> (scalar: Scalar32)
        ensures
            scalar.rank == 0,
    {
        Scalar32 { rank: 0 }
    }
}

/// A double-precision number other than NaN.
#[derive(Clone, Copy, Debug, PartialEq, Eq, Structural)]
pub struct Scalar64 {
    pub rank: i64,
}

impl Scalar64 {
    /// The number in units of the smallest positive double-precision number.
    pub open spec fn value(self) -> int {
        ranked(self.rank as int, 0x10_0000_0000_0000)
    }

    /// The scalar whose IEEE-754 encoding is `bits`; both zeros are one scalar.
    pub open spec fn decoded(bits: u64) -> Option<Scalar64> {
        let m = if bits < 0x8000_0000_0000_0000 {
            bits as int
        } else {
            bits - 0x8000_0000_0000_0000
        };
        if m > INFINITY_64 {
            None
        } else if bits < 0x8000_0000_0000_0000 {
            Some(Scalar64 { rank: m as i64 })
        } else {
            Some(Scalar64 { rank: (-m) as i64 })
        }
    }

    /// Reads an IEEE-754 encoding; `None` exactly for NaN.
    pub fn from_bits(bits: u64) -> (scalar: Option<Scalar64>)
        ensures
            scalar == Self::decoded(bits),
    {
        if bits < 0x8000_0000_0000_0000 {
            if bits > 0x7ff0_0000_0000_0000 {
                None
            } else {
                Some(Scalar64 { rank: bits as i64 })
            }
        } else {
            let m: u64 = bits - 0x8000_0000_0000_0000;
            if m > 0x7ff0_0000_0000_0000 {
                None
            } else {
                let positive: i64 = m as i64;
                Some(Scalar64 { rank: -positive })
            }
        }
    }

    /// The IEEE-754 encoding; zero is encoded as positive zero.
    pub fn to_bits(self) -> (bits: u64)
        requires
            -INFINITY_64 <= self.rank <= INFINITY_64,
        ensures
            Self::decoded(bits) == Some(self),
            self.rank == 0 ==> bits == 0,
    {
        if self.rank >= 0 {
            self.rank as u64
        } else {
            let positive: i64 = -self.rank;
            0x8000_0000_0000_0000 + positive as u64
        }
    }
}

/// Without the sign, the encoding is the rank; the sign turns it round. What
/// lies past infinity is no number.
pub proof fn law_rank_is_the_encoding(bits: u32)
    ensures
        bits <= 0x7f80_0000 ==> Scalar32::decoded(bits) is Some && Scalar32::decoded(bits)->0.rank
            == bits,
        0x7f80_0000 < bits < 0x8000_0000 ==> Scalar32::decoded(bits) is None,
        0x8000_0000 <= bits <= 0xff80_0000 ==> Scalar32::decoded(bits) is Some && Scalar32::decoded(
            bits,
        )->0.rank == 0x8000_0000 - bits,
        0xff80_0000 < bits ==> Scalar32::decoded(bits) is None,
{
}

/// The same of double precision.
pub proof fn law_long_rank_is_the_encoding(bits: u64)
    ensures
        bits <= 0x7ff0_0000_0000_0000 ==> Scalar64::decoded(bits) is Some && Scalar64::decoded(
            bits,
        )->0.rank == bits,
        0x7ff0_0000_0000_0000 < bits < 0x8000_0000_0000_0000 ==> Scalar64::decoded(bits) is None,
        0x8000_0000_0000_0000 <= bits <= 0xfff0_0000_0000_0000 ==> Scalar64::decoded(bits) is Some
            && Scalar64::decoded(bits)->0.rank == 0x8000_0000_0000_0000 - bits,
        0xfff0_0000_0000_0000 < bits ==> Scalar64::decoded(bits) is None,
{
}

} // verus!
