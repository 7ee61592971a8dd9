//! Positive binary32 numbers in integer arithmetic.
//!
//! Font sizes and cell sizes are binary32 values.  Every pixel position that
//! follows from them is a whole number, and it has to be the one that binary32
//! arithmetic gives: round each product and quotient to 24 significant bits,
//! ties to even, and drop the fraction at the end.  The exponent of a product
//! or a quotient is not held to the range of binary32.  Sizes that text is
//! drawn in keep to numbers for which that makes no difference.

use vstd::arithmetic::power2::lemma2_to64;
use vstd::arithmetic::power2::lemma_pow2_pos;
use vstd::arithmetic::power2::lemma_pow2_unfold;
use vstd::arithmetic::power2::pow2;
use vstd::prelude::*;

verus! {

/// The number of significant values of a 24-bit significand.
pub const SIGNIFICAND_END: u32 = 0x100_0000;

/// The smallest normalised significand.
pub const SIGNIFICAND_MIN: u32 = 0x80_0000;

/// How many low bits of `n` lie below its 24 leading ones.
pub open spec fn excess_bits(n: nat) -> nat
    decreases n,
{
    if n < SIGNIFICAND_END {
        0
    } else {
        1 + excess_bits(n / 2)
    }
}

/// The multiple of `unit` nearest to `n`; of two equally near, the even one.
pub open spec fn nearest_multiple(n: nat, unit: nat) -> nat {
    let q = n / unit;
    let r = n % unit;
    if 2 * r > unit || (2 * r == unit && q % 2 == 1) {
        (q + 1) * unit
    } else {
        q * unit
    }
}

/// `n` rounded to 24 significant bits, ties to even.
pub open spec fn round24(n: nat) -> nat {
    nearest_multiple(n, pow2(excess_bits(n)))
}

/// `v` times two to the power `e`, rounded towards zero.
pub open spec fn scaled(v: nat, e: int) -> nat {
    if e >= 0 {
        v * pow2(e as nat)
    } else {
        v / pow2((-e) as nat)
    }
}

/// The smaller of the two.
pub open spec fn at_most(v: nat, cap: nat) -> nat {
    if v <= cap {
        v
    } else {
        cap
    }
}

/// `excess_bits` is the only exponent that leaves 24 leading bits.
pub proof fn lemma_excess_bits(n: nat)
    ensures
        n / pow2(excess_bits(n)) < SIGNIFICAND_END,
        excess_bits(n) > 0 ==> n / pow2(excess_bits(n)) >= SIGNIFICAND_MIN,
        excess_bits(n) > 0 <==> n >= SIGNIFICAND_END,
    decreases n,
{
    lemma2_to64();
    lemma_pow2_pos(excess_bits(n));
    if n >= SIGNIFICAND_END {
        lemma_excess_bits(n / 2);
        let s = excess_bits(n / 2);
        lemma_pow2_unfold(s + 1);
        lemma_pow2_pos(s);
        vstd::arithmetic::div_mod::lemma_div_denominator(n as int, 2, pow2(s) as int);
        if s == 0 {
            assert(n / 2 / 1 == n / 2);
        }
    } else {
        assert(n / 1 == n);
    }
}

/// A number below 2^(24 + t) has at most `t` excess bits.
pub proof fn lemma_excess_at_most(n: nat, t: nat)
    requires
        n < SIGNIFICAND_END * pow2(t),
    ensures
        excess_bits(n) <= t,
    decreases t,
{
    lemma2_to64();
    if n >= SIGNIFICAND_END {
        assert(t > 0);
        lemma_pow2_unfold(t);
        let u = pow2((t - 1) as nat);
        assert(n / 2 < SIGNIFICAND_END * u) by (nonlinear_arith)
            requires
                n < SIGNIFICAND_END * (2 * u),
        ;
        lemma_excess_at_most(n / 2, (t - 1) as nat);
    }
}

/// Rounds `n` to 24 significant bits, ties to even.
pub fn round_to_24(n: u128) -> (r: u128)
    requires
        n < 0x4000_0000_0000_0000_0000_0000_0000_0000,
    ensures
        r == round24(n as nat),
        r <= 2 * n,
{
    let mut q: u128 = n;
    let mut unit: u128 = 1;
    proof {
        lemma2_to64();
    }
    let ghost mut s: nat = 0;
    assert(n as nat / 1 == n);
    while q >= 0x100_0000
        invariant
            unit == pow2(s),
            unit >= 1,
            q == n as nat / pow2(s),
            excess_bits(n as nat) == s + excess_bits(q as nat),
            q >= 1 ==> unit <= n,
            n < 0x4000_0000_0000_0000_0000_0000_0000_0000,
        decreases q,
    {
        proof {
            lemma_pow2_unfold(s + 1);
            lemma_pow2_pos(s);
            vstd::arithmetic::div_mod::lemma_div_denominator(n as int, pow2(s) as int, 2);
            vstd::arithmetic::div_mod::lemma_fundamental_div_mod(n as int, pow2(s) as int);
            assert(pow2(s) * q >= pow2(s) * 2) by (nonlinear_arith)
                requires
                    q >= 2,
                    pow2(s) > 0,
            ;
            s = s + 1;
        }
        q = q / 2;
        unit = unit * 2;
    }
    proof {
        lemma_pow2_pos(s);
        vstd::arithmetic::div_mod::lemma_fundamental_div_mod(n as int, pow2(s) as int);
        assert(unit * q <= n) by {
            assert(pow2(s) * (n as nat / pow2(s)) + n as nat % pow2(s) == n);
        }
        assert(q * unit == unit * q) by (nonlinear_arith);
    }
    let base: u128 = q * unit;
    let rest: u128 = n - base;
    proof {
        assert(rest == n as nat % pow2(s));
        assert((q + 1) * unit == base + unit) by (nonlinear_arith)
            requires
                base == q * unit,
        ;
    }
    if 2 * rest > unit || (2 * rest == unit && q % 2 == 1) {
        base + unit
    } else {
        base
    }
}

/// Longer numbers have at least as many excess bits.
proof fn lemma_excess_bits_monotone(a: nat, b: nat)
    requires
        a <= b,
    ensures
        excess_bits(a) <= excess_bits(b),
    decreases b,
{
    if a >= SIGNIFICAND_END {
        lemma_excess_bits_monotone(a / 2, b / 2);
    }
}

/// `nearest_multiple` is one of the two multiples around its argument.
proof fn lemma_nearest_multiple(n: nat, unit: nat)
    requires
        unit > 0,
    ensures
        (n / unit) * unit <= nearest_multiple(n, unit) <= (n / unit + 1) * unit,
        (n / unit) * unit <= n,
{
    let q = n / unit;
    vstd::arithmetic::div_mod::lemma_fundamental_div_mod(n as int, unit as int);
    assert((q + 1) * unit == q * unit + unit) by (nonlinear_arith);
    assert(unit * q == q * unit) by (nonlinear_arith);
}

/// A multiple is its own rounding.
pub proof fn lemma_multiple_unchanged(n: nat, unit: nat)
    requires
        unit > 0,
        n % unit == 0,
    ensures
        nearest_multiple(n, unit) == n,
{
    let q = n / unit;
    vstd::arithmetic::div_mod::lemma_fundamental_div_mod(n as int, unit as int);
    assert(unit * q == q * unit) by (nonlinear_arith);
}

/// Rounding to the same unit keeps the order.
proof fn lemma_nearest_multiple_monotone(a: nat, b: nat, unit: nat)
    requires
        a <= b,
        unit > 0,
    ensures
        nearest_multiple(a, unit) <= nearest_multiple(b, unit),
{
    lemma_nearest_multiple(a, unit);
    lemma_nearest_multiple(b, unit);
    vstd::arithmetic::div_mod::lemma_div_is_ordered(a as int, b as int, unit as int);
    let qa = a / unit;
    let qb = b / unit;
    if qa < qb {
        assert((qa + 1) * unit <= qb * unit) by (nonlinear_arith)
            requires
                qa + 1 <= qb,
        ;
    } else {
        vstd::arithmetic::div_mod::lemma_fundamental_div_mod(a as int, unit as int);
        vstd::arithmetic::div_mod::lemma_fundamental_div_mod(b as int, unit as int);
        assert(qa == qb);
        assert((qa + 1) * unit >= qa * unit) by (nonlinear_arith);
    }
}

/// Rounding to 24 significant bits keeps the order.
pub proof fn lemma_round24_monotone(a: nat, b: nat)
    requires
        a <= b,
    ensures
        round24(a) <= round24(b),
{
    let sa = excess_bits(a);
    let sb = excess_bits(b);
    let ua = pow2(sa);
    let ub = pow2(sb);
    lemma_pow2_pos(sa);
    lemma_pow2_pos(sb);
    lemma_excess_bits_monotone(a, b);
    if sa == sb {
        lemma_nearest_multiple_monotone(a, b, ua);
    } else {
        lemma_excess_bits(a);
        lemma_excess_bits(b);
        lemma_nearest_multiple(a, ua);
        lemma_nearest_multiple(b, ub);
        let qa = a / ua;
        let qb = b / ub;
        assert((qa + 1) * ua <= SIGNIFICAND_END * ua) by (nonlinear_arith)
            requires
                qa + 1 <= SIGNIFICAND_END,
        ;
        assert(SIGNIFICAND_MIN * ub <= qb * ub) by (nonlinear_arith)
            requires
                SIGNIFICAND_MIN <= qb,
        ;
        assert(2 * ua <= ub) by {
            lemma_pow2_unfold(sa + 1);
            if sa + 1 < sb {
                vstd::arithmetic::power2::lemma_pow2_strictly_increases(sa + 1, sb);
            }
        }
        assert(SIGNIFICAND_END * ua == SIGNIFICAND_MIN * (2 * ua)) by (nonlinear_arith)
            requires
                SIGNIFICAND_END == 2 * SIGNIFICAND_MIN,
        ;
        assert(SIGNIFICAND_MIN * (2 * ua) <= SIGNIFICAND_MIN * ub) by (nonlinear_arith)
            requires
                2 * ua <= ub,
        ;
    }
}

/// Rounding to 24 significant bits moves a number by at most one part in 2^24.
pub proof fn lemma_round24_error(n: nat)
    ensures
        (round24(n) - n) * SIGNIFICAND_END <= n,
        (n - round24(n)) * SIGNIFICAND_END <= n,
{
    let s = excess_bits(n);
    let unit = pow2(s);
    lemma_pow2_pos(s);
    lemma_excess_bits(n);
    let q = n / unit;
    let r = n % unit;
    vstd::arithmetic::div_mod::lemma_fundamental_div_mod(n as int, unit as int);
    assert((q + 1) * unit == q * unit + unit) by (nonlinear_arith);
    assert(unit * q == q * unit) by (nonlinear_arith);
    if s == 0 {
        lemma2_to64();
        assert(n / 1 == n && n % 1 == 0);
    } else {
        assert(unit * SIGNIFICAND_MIN <= unit * q) by (nonlinear_arith)
            requires
                SIGNIFICAND_MIN <= q,
        ;
    }
}

/// A number that fits 24 bits is its own rounding.
pub proof fn lemma_round24_small(n: nat)
    requires
        n <= SIGNIFICAND_END,
    ensures
        round24(n) == n,
{
    lemma2_to64();
    if n < SIGNIFICAND_END {
        assert(n / 1 == n && n % 1 == 0);
    } else {
        reveal_with_fuel(excess_bits, 2);
        assert(pow2(1) == 2);
        assert(n / 2 == SIGNIFICAND_MIN && n % 2 == 0);
    }
}

/// Computes `scaled(v, e)`, but no more than `cap`.
fn scale_floor(v: u128, e: i32, cap: u64) -> (r: u64)
    requires
        v < 0x8000_0000_0000_0000_0000_0000_0000_0000,
        -10_000 <= e <= 10_000,
    ensures
        r == at_most(scaled(v as nat, e as int), cap as nat),
{
    let mut w: u128 = v;
    let mut k: i32 = 0;
    proof {
        lemma2_to64();
        assert(v * 1 == v);
        assert(v as nat / 1 == v);
    }
    if e >= 0 {
        while k < e && w <= cap as u128
            invariant
                0 <= k <= e <= 10_000,
                w == v * pow2(k as nat),
            decreases e - k,
        {
            proof {
                lemma_pow2_unfold((k + 1) as nat);
                assert(v * (2 * pow2(k as nat)) == (v * pow2(k as nat)) * 2) by (nonlinear_arith);
            }
            w = w * 2;
            k = k + 1;
        }
        proof {
            if k < e {
                vstd::arithmetic::power2::lemma_pow2_strictly_increases(k as nat, e as nat);
                assert(v * pow2(k as nat) <= v * pow2(e as nat)) by (nonlinear_arith)
                    requires
                        pow2(k as nat) <= pow2(e as nat),
                ;
            }
        }
    } else {
        let down: i32 = -e;
        while k < down && w > 0
            invariant
                0 <= k <= down <= 10_000,
                down == -e,
                w == v as nat / pow2(k as nat),
            decreases down - k,
        {
            proof {
                lemma_pow2_unfold((k + 1) as nat);
                lemma_pow2_pos(k as nat);
                vstd::arithmetic::div_mod::lemma_div_denominator(v as int, pow2(k as nat) as int, 2);
            }
            w = w / 2;
            k = k + 1;
        }
        proof {
            if k < down {
                lemma_pow2_pos(k as nat);
                vstd::arithmetic::power2::lemma_pow2_strictly_increases(k as nat, down as nat);
                vstd::arithmetic::div_mod::lemma_div_is_ordered_by_denominator(
                    v as int,
                    pow2(k as nat) as int,
                    pow2(down as nat) as int,
                );
                lemma_pow2_pos(down as nat);
                vstd::arithmetic::div_mod::lemma_div_pos_is_pos(v as int, pow2(down as nat) as int);
            }
        }
    }
    if w <= cap as u128 {
        w as u64
    } else {
        cap
    }
}

/// A positive number, `significand` times two to the power `exponent`.
#[derive(Clone, Copy, Debug, PartialEq, Eq, Structural)]
pub struct Single {
    pub significand: u32,
    pub exponent: i32,
}

/// The number whose significand is `v` rounded to 24 bits, times two to the `e`.
pub open spec fn rounded(v: nat, e: int) -> Single {
    let r = round24(v);
    let s = excess_bits(r);
    Single { significand: (r / pow2(s)) as u32, exponent: (e + s) as i32 }
}

/// `v` times two to the `e`, with the significand doubled until it is normalised.
pub open spec fn raised(v: nat, e: int) -> Single
    decreases SIGNIFICAND_END - v,
{
    if v == 0 || v >= SIGNIFICAND_MIN {
        Single { significand: v as u32, exponent: e as i32 }
    } else {
        raised(2 * v, e - 1)
    }
}

/// What a binary32 bit pattern stands for: nothing for zero, a negative
/// number, an infinity or a NaN.
pub open spec fn decoded(bits: u32) -> Option<Single> {
    let biased = bits / 0x80_0000;
    let fraction = bits % 0x80_0000;
    if biased >= 255 || bits == 0 {
        None
    } else if biased == 0 {
        Some(raised(fraction as nat, -149))
    } else {
        Some(
            Single {
                significand: (fraction + SIGNIFICAND_MIN) as u32,
                exponent: (biased - 150) as i32,
            },
        )
    }
}

/// The binary32 bit pattern nearest to a number: infinity above the range,
/// a multiple of the smallest subnormal below the normal range.
pub open spec fn encoded(s: Single) -> nat {
    if s.exponent > 104 {
        0x7F80_0000
    } else if s.exponent >= -149 {
        ((s.exponent + 149) * 0x80_0000 + s.significand) as nat
    } else {
        let unit = pow2((-149 - s.exponent) as nat);
        nearest_multiple(s.significand as nat, unit) / unit
    }
}

impl Single {
    /// A normalised number of moderate size.
    pub open spec fn wf(self) -> bool {
        &&& SIGNIFICAND_MIN <= self.significand < SIGNIFICAND_END
        &&& -1_000 <= self.exponent <= 1_000
    }

    /// A number in the range of binary32.
    pub open spec fn is_binary32(self) -> bool {
        &&& self.wf()
        &&& -172 <= self.exponent <= 104
    }

    /// A number in the range of binary32 that has all its 24 bits there.
    pub open spec fn is_normal(self) -> bool {
        &&& self.wf()
        &&& -149 <= self.exponent <= 104
    }

    /// A size for text: from 2^-125 on, and below 2^63.  The sizes that follow
    /// from it are normal numbers.
    pub open spec fn is_font_size(self) -> bool {
        &&& self.wf()
        &&& -148 <= self.exponent <= 39
    }

    /// The whole part of the number, but no more than `cap`.
    pub open spec fn whole(self, cap: nat) -> nat {
        at_most(scaled(self.significand as nat, self.exponent as int), cap)
    }

    /// The product, rounded.
    pub open spec fn product(self, other: Single) -> Single {
        rounded(
            (self.significand * other.significand) as nat,
            self.exponent + other.exponent,
        )
    }

    /// The quotient, rounded.  Twenty-eight quotient bits and one more that
    /// says whether anything is left settle which way to round.
    pub open spec fn quotient(self, other: Single) -> Single {
        let n = (self.significand * 0x800_0000) as nat;
        let d = other.significand as nat;
        let rest: nat = if n % d == 0 {
            0
        } else {
            1
        };
        rounded(2 * (n / d) + rest, self.exponent - other.exponent - 28)
    }

    /// The number nearest to the whole number `n`.
    pub open spec fn nearest(n: nat) -> Single {
        rounded(n * (SIGNIFICAND_END as nat), -24)
    }

    /// The whole part of `n` times the number, but no more than `usize::MAX`:
    /// `n` and the product are each rounded to 24 significant bits.
    pub open spec fn edge(self, n: nat) -> nat {
        at_most(
            scaled(round24(round24(n) * self.significand as nat), self.exponent as int),
            usize::MAX as nat,
        )
    }

    /// The positive number that a binary32 bit pattern stands for.
    pub fn from_bits(bits: u32) -> (r: Option<Single>)
        ensures
            r == decoded(bits),
            r matches Some(s) ==> s.is_binary32(),
    {
        let biased: u32 = bits / 0x80_0000;
        let fraction: u32 = bits % 0x80_0000;
        if biased >= 255 || bits == 0 {
            None
        } else if biased == 0 {
            let mut v: u32 = fraction;
            let mut e: i32 = -149;
            let ghost mut k: nat = 0;
            proof {
                lemma2_to64();
            }
            while v < 0x80_0000
                invariant
                    pow2(k) <= v < SIGNIFICAND_END,
                    e == -149 - k,
                    k <= 23,
                    raised(v as nat, e as int) == raised(fraction as nat, -149),
                decreases SIGNIFICAND_END - v,
            {
                proof {
                    lemma2_to64();
                    lemma_pow2_pos(k);
                    lemma_pow2_unfold(k + 1);
                    assert(k != 23);
                    k = k + 1;
                }
                v = 2 * v;
                e = e - 1;
            }
            proof {
                lemma_pow2_pos(k);
            }
            Some(Single { significand: v, exponent: e })
        } else {
            Some(Single { significand: fraction + 0x80_0000, exponent: biased as i32 - 150 })
        }
    }

    /// Rounds `v` times two to the `e` to a normalised number.
    fn rounded_from(v: u128, e: i32) -> (r: Single)
        requires
            SIGNIFICAND_MIN <= v < 0x2000_0000_0000_0000_0000_0000_0000_0000,
            -5_000 <= e <= 5_000,
        ensures
            r == rounded(v as nat, e as int),
            SIGNIFICAND_MIN <= r.significand < SIGNIFICAND_END,
            e <= r.exponent <= e + 127,
    {
        let rounded_v: u128 = round_to_24(v);
        let mut q: u128 = rounded_v;
        let mut shift: i32 = 0;
        proof {
            lemma2_to64();
            assert(rounded_v as nat / 1 == rounded_v);
            lemma_round24_monotone(SIGNIFICAND_MIN as nat, v as nat);
            lemma_round24_small(SIGNIFICAND_MIN as nat);
        }
        while q >= 0x100_0000
            invariant
                0 <= shift <= 127,
                q == rounded_v as nat / pow2(shift as nat),
                excess_bits(rounded_v as nat) == shift + excess_bits(q as nat),
            decreases q,
        {
            proof {
                lemma_pow2_unfold((shift + 1) as nat);
                lemma_pow2_pos(shift as nat);
                vstd::arithmetic::div_mod::lemma_div_denominator(
                    rounded_v as int,
                    pow2(shift as nat) as int,
                    2,
                );
                if shift == 127 {
                    lemma_u128_pow2();
                    vstd::arithmetic::div_mod::lemma_fundamental_div_mod(
                        rounded_v as int,
                        pow2(127) as int,
                    );
                    assert(pow2(127) * q >= pow2(127) * 2) by (nonlinear_arith)
                        requires
                            q >= 2,
                            pow2(127) > 0,
                    ;
                }
            }
            q = q / 2;
            shift = shift + 1;
        }
        proof {
            lemma_excess_bits(rounded_v as nat);
        }
        Single { significand: q as u32, exponent: e + shift }
    }

    /// The product of the two, rounded to 24 significant bits.
    pub fn mul(&self, other: &Single) -> (r: Single)
        requires
            self.wf(),
            other.wf(),
        ensures
            r == self.product(*other),
            SIGNIFICAND_MIN <= r.significand < SIGNIFICAND_END,
            self.exponent + other.exponent <= r.exponent <= self.exponent + other.exponent + 127,
    {
        proof {
            lemma_significand_product(self.significand as nat, other.significand as nat);
        }
        let p: u128 = self.significand as u128 * other.significand as u128;
        Single::rounded_from(p, self.exponent + other.exponent)
    }

    /// The quotient of the two, rounded to 24 significant bits.
    pub fn div(&self, other: &Single) -> (r: Single)
        requires
            self.wf(),
            other.wf(),
        ensures
            r == self.quotient(*other),
            SIGNIFICAND_MIN <= r.significand < SIGNIFICAND_END,
            self.exponent - other.exponent - 28 <= r.exponent <= self.exponent - other.exponent + 99,
    {
        let n: u128 = self.significand as u128 * 0x800_0000;
        let d: u128 = other.significand as u128;
        proof {
            vstd::arithmetic::div_mod::lemma_fundamental_div_mod(n as int, d as int);
            let q = n as int / d as int;
            assert(q >= SIGNIFICAND_MIN) by (nonlinear_arith)
                requires
                    n == d * q + n as int % d as int,
                    0 <= n as int % d as int,
                    (n as int % d as int) < d,
                    d < SIGNIFICAND_END,
                    n >= SIGNIFICAND_MIN * 0x800_0000,
            ;
            assert(q <= n) by (nonlinear_arith)
                requires
                    n == d * q + n as int % d as int,
                    0 <= n as int % d as int,
                    d >= 1,
                    q >= 0,
            ;
        }
        let rest: u128 = if n % d == 0 {
            0
        } else {
            1
        };
        Single::rounded_from(2 * (n / d) + rest, self.exponent - other.exponent - 28)
    }

    /// The number nearest to `n`.
    pub fn from_whole(n: u64) -> (r: Single)
        requires
            n > 0,
        ensures
            r == Single::nearest(n as nat),
            SIGNIFICAND_MIN <= r.significand < SIGNIFICAND_END,
            -24 <= r.exponent <= 103,
    {
        Single::rounded_from(n as u128 * 0x100_0000, -24)
    }

    /// The whole part of the number, but no more than `cap`.
    pub fn floor(&self, cap: u64) -> (r: u64)
        requires
            self.wf(),
        ensures
            r == self.whole(cap as nat),
    {
        scale_floor(self.significand as u128, self.exponent, cap)
    }

    /// The whole part of twice the number, but no more than `cap`.
    pub fn floor_doubled(&self, cap: u64) -> (r: u64)
        requires
            self.wf(),
        ensures
            r == at_most(scaled(self.significand as nat, self.exponent + 1), cap as nat),
    {
        scale_floor(self.significand as u128, self.exponent + 1, cap)
    }

    /// Whether text can be drawn in this size.
    pub fn fits_text(&self) -> (r: bool)
        ensures
            r == self.is_font_size(),
    {
        0x80_0000 <= self.significand && self.significand < 0x100_0000 && -148 <= self.exponent
            && self.exponent <= 39
    }

    /// The binary32 bit pattern of the number.
    pub fn to_bits(&self) -> (r: u32)
        requires
            self.wf(),
        ensures
            r == encoded(*self),
    {
        if self.exponent > 104 {
            0x7F80_0000
        } else if self.exponent >= -149 {
            (self.exponent + 149) as u32 * 0x80_0000 + self.significand
        } else {
            let down: i32 = -149 - self.exponent;
            proof {
                lemma2_to64();
            }
            if down >= 25 {
                proof {
                    let unit = pow2(down as nat);
                    assert(pow2(25) == 0x200_0000);
                    if down > 25 {
                        vstd::arithmetic::power2::lemma_pow2_strictly_increases(25, down as nat);
                    }
                    vstd::arithmetic::div_mod::lemma_basic_div(self.significand as int, unit as int);
                    vstd::arithmetic::div_mod::lemma_small_mod(self.significand as nat, unit);
                    vstd::arithmetic::div_mod::lemma_basic_div(0, unit as int);
                }
                0
            } else {
                let mut unit: u32 = 1;
                let mut k: i32 = 0;
                while k < down
                    invariant
                        0 <= k <= down < 25,
                        unit == pow2(k as nat),
                        unit < 0x200_0000,
                    decreases down - k,
                {
                    proof {
                        lemma_pow2_unfold((k + 1) as nat);
                        lemma2_to64();
                        if k + 1 < 24 {
                            vstd::arithmetic::power2::lemma_pow2_strictly_increases((k + 1) as nat, 24);
                        }
                    }
                    unit = unit * 2;
                    k = k + 1;
                }
                let q: u32 = self.significand / unit;
                let r: u32 = self.significand % unit;
                let up: bool = 2 * r > unit || (2 * r == unit && q % 2 == 1);
                proof {
                    lemma_pow2_pos(down as nat);
                    vstd::arithmetic::div_mod::lemma_div_by_multiple(q as int, unit as int);
                    vstd::arithmetic::div_mod::lemma_div_by_multiple(q + 1, unit as int);
                    vstd::arithmetic::div_mod::lemma_div_nonincreasing(
                        self.significand as int,
                        unit as int,
                    );
                }
                if up {
                    q + 1
                } else {
                    q
                }
            }
        }
    }

    /// Where cell `n` begins in a row of cells of this size.
    pub fn cell_edge(&self, n: usize) -> (r: usize)
        requires
            self.wf(),
        ensures
            r == self.edge(n as nat),
    {
        let count: u128 = round_to_24(n as u128);
        proof {
            assert(count * self.significand <= 0x2_0000_0000_0000_0000 * 0x100_0000)
                by (nonlinear_arith)
                requires
                    count <= 0x2_0000_0000_0000_0000,
                    self.significand < 0x100_0000,
            ;
        }
        let p: u128 = round_to_24(count * self.significand as u128);
        scale_floor(p, self.exponent, usize::MAX as u64) as usize
    }
}

/// The size of 2^127.
proof fn lemma_u128_pow2()
    ensures
        pow2(127) == 0x8000_0000_0000_0000_0000_0000_0000_0000,
{
    lemma2_to64();
    vstd::arithmetic::power2::lemma2_to64_rest();
    vstd::arithmetic::power2::lemma_pow2_adds(63, 64);
}

/// How large a product of significands is.
proof fn lemma_significand_product(a: nat, b: nat)
    by (nonlinear_arith)
    requires
        SIGNIFICAND_MIN <= a < SIGNIFICAND_END,
        SIGNIFICAND_MIN <= b < SIGNIFICAND_END,
    ensures
        SIGNIFICAND_MIN <= a * b < 0x1_0000_0000_0000,
{
}

/// A number of 24 bits times a power of two has as many excess bits, and is its
/// own rounding.
proof fn lemma_excess_of_multiple(m: nat, k: nat)
    requires
        SIGNIFICAND_MIN <= m < SIGNIFICAND_END,
    ensures
        excess_bits(m * pow2(k)) == k,
        round24(m * pow2(k)) == m * pow2(k),
    decreases k,
{
    lemma2_to64();
    let n = m * pow2(k);
    if k == 0 {
        assert(m * 1 == m);
    } else {
        let u = pow2((k - 1) as nat);
        lemma_pow2_unfold(k);
        lemma_pow2_pos((k - 1) as nat);
        assert(n == 2 * (m * u)) by (nonlinear_arith)
            requires
                n == m * (2 * u),
        ;
        assert(m * u >= SIGNIFICAND_MIN) by (nonlinear_arith)
            requires
                m >= SIGNIFICAND_MIN,
                u >= 1,
        ;
        lemma_excess_of_multiple(m, (k - 1) as nat);
    }
    lemma_pow2_pos(k);
    vstd::arithmetic::div_mod::lemma_mod_multiples_basic(m as int, pow2(k) as int);
    lemma_multiple_unchanged(n, pow2(k));
}

/// How many bits rounding takes off a number of a known size.
proof fn lemma_rounded_excess(v: nat, low: nat, high: nat)
    requires
        SIGNIFICAND_MIN * pow2(low) <= v <= (SIGNIFICAND_END - 1) * pow2(high),
    ensures
        low <= excess_bits(round24(v)) <= high,
{
    let least = SIGNIFICAND_MIN * pow2(low);
    let most = (SIGNIFICAND_END - 1) * pow2(high);
    lemma_excess_of_multiple(SIGNIFICAND_MIN as nat, low);
    lemma_excess_of_multiple((SIGNIFICAND_END - 1) as nat, high);
    lemma_round24_monotone(least as nat, v);
    lemma_round24_monotone(v, most as nat);
    lemma_excess_bits_monotone(least as nat, round24(v));
    lemma_excess_bits_monotone(round24(v), most as nat);
}

/// What is rounded is normalised.
proof fn lemma_rounded_significand(v: nat)
    requires
        v >= SIGNIFICAND_MIN,
    ensures
        SIGNIFICAND_MIN <= round24(v) / pow2(excess_bits(round24(v))) < SIGNIFICAND_END,
{
    lemma2_to64();
    lemma_round24_small(SIGNIFICAND_MIN as nat);
    lemma_round24_monotone(SIGNIFICAND_MIN as nat, v);
    lemma_excess_bits(round24(v));
    if excess_bits(round24(v)) == 0 {
        assert(round24(v) / 1 == round24(v));
    }
}

/// How large a product is.
pub proof fn lemma_product_exponent(a: Single, b: Single)
    requires
        a.wf(),
        b.wf(),
    ensures
        a.exponent + b.exponent + 23 <= a.product(b).exponent <= a.exponent + b.exponent + 24,
        SIGNIFICAND_MIN <= a.product(b).significand < SIGNIFICAND_END,
{
    let v = (a.significand * b.significand) as nat;
    assert(0x80_0000 * 0x80_0000 <= v <= 0xFF_FFFF * 0xFF_FFFF) by (nonlinear_arith)
        requires
            v == a.significand * b.significand,
            0x80_0000 <= a.significand <= 0xFF_FFFF,
            0x80_0000 <= b.significand <= 0xFF_FFFF,
    ;
    lemma2_to64();
    lemma_rounded_excess(v, 23, 24);
    lemma_rounded_significand(v);
}

/// How large a quotient is.
pub proof fn lemma_quotient_exponent(a: Single, b: Single)
    requires
        a.wf(),
        b.wf(),
    ensures
        a.exponent - b.exponent - 24 <= a.quotient(b).exponent <= a.exponent - b.exponent - 23,
        SIGNIFICAND_MIN <= a.quotient(b).significand < SIGNIFICAND_END,
{
    let n = a.significand * 0x800_0000;
    let d = b.significand as int;
    let q = n / d;
    let rest: int = if n % d == 0 {
        0
    } else {
        1
    };
    vstd::arithmetic::div_mod::lemma_fundamental_div_mod(n, d);
    assert(q >= 0x400_0000) by (nonlinear_arith)
        requires
            n == d * q + n % d,
            n % d < d <= 0xFF_FFFF,
            n >= 0x80_0000 * 0x800_0000,
    ;
    assert(q * 0x80_0000 <= n && (d > 0x80_0000 ==> q * 0x80_0000 + q <= n)) by (nonlinear_arith)
        requires
            n == d * q + n % d,
            0 <= n % d,
            d >= 0x80_0000,
            q >= 0,
    ;
    if d == 0x80_0000 {
        assert(n == 0x80_0000 * (0x10 * a.significand));
        assert(n % 0x80_0000 == 0);
    }
    assert(2 * q + rest <= 0xFF_FFFF * 0x20);
    lemma2_to64();
    lemma_rounded_excess((2 * q + rest) as nat, 4, 5);
    lemma_rounded_significand((2 * q + rest) as nat);
}

/// How large the number nearest to a whole number of 64 bits is.
pub proof fn lemma_nearest_exponent(n: nat)
    requires
        0 < n <= u64::MAX,
    ensures
        -23 <= Single::nearest(n).exponent <= 41,
        SIGNIFICAND_MIN <= Single::nearest(n).significand < SIGNIFICAND_END,
{
    let v = n * (SIGNIFICAND_END as nat);
    lemma2_to64();
    vstd::arithmetic::power2::lemma2_to64_rest();
    vstd::arithmetic::power2::lemma_pow2_unfold(65);
    lemma_rounded_excess(v, 1, 65);
    lemma_rounded_significand(v);
}

/// A number whose whole part is not zero is not small.
pub proof fn lemma_whole_exponent(s: Single, cap: nat)
    requires
        s.wf(),
        s.whole(cap) > 0,
    ensures
        s.exponent >= -23,
{
    lemma2_to64();
    if s.exponent < -23 {
        let down = (-s.exponent) as nat;
        if down > 24 {
            vstd::arithmetic::power2::lemma_pow2_strictly_increases(24, down);
        }
        vstd::arithmetic::div_mod::lemma_basic_div(s.significand as int, pow2(down) as int);
    }
}

/// The first cell begins at zero.
pub proof fn lemma_first_edge(size: Single)
    ensures
        size.edge(0) == 0,
{
    lemma_round24_small(0);
    assert(0 * size.significand as nat == 0);
    if size.exponent >= 0 {
        assert(0 * pow2(size.exponent as nat) == 0);
    } else {
        lemma_pow2_pos((-size.exponent) as nat);
        vstd::arithmetic::div_mod::lemma_div_basics(pow2((-size.exponent) as nat) as int);
    }
}

/// Later cells begin no earlier.
pub proof fn lemma_edge_monotone(size: Single, a: nat, b: nat)
    requires
        a <= b,
    ensures
        size.edge(a) <= size.edge(b),
{
    let m = size.significand as nat;
    lemma_round24_monotone(a, b);
    assert(round24(a) * m <= round24(b) * m) by (nonlinear_arith)
        requires
            round24(a) <= round24(b),
    ;
    lemma_round24_monotone(round24(a) * m, round24(b) * m);
    let va = round24(round24(a) * m);
    let vb = round24(round24(b) * m);
    if size.exponent >= 0 {
        assert(va * pow2(size.exponent as nat) <= vb * pow2(size.exponent as nat))
            by (nonlinear_arith)
            requires
                va <= vb,
        ;
    } else {
        lemma_pow2_pos((-size.exponent) as nat);
        vstd::arithmetic::div_mod::lemma_div_is_ordered(
            va as int,
            vb as int,
            pow2((-size.exponent) as nat) as int,
        );
    }
}

/// Raising scales the significand up by a power of two.
proof fn lemma_raised_scales(v: nat, e: int) -> (k: nat)
    requires
        0 < v < SIGNIFICAND_END,
        -149 <= e <= 104,
    ensures
        k <= 23,
        raised(v, e).significand == v * pow2(k),
        raised(v, e).exponent == e - k,
        SIGNIFICAND_MIN <= v * pow2(k) < SIGNIFICAND_END,
{
    lemma2_to64();
    assert(v * 1 == v);
    lemma_raised_step(v, e, v, 0)
}

proof fn lemma_raised_step(v: nat, e: int, w: nat, j: nat) -> (k: nat)
    requires
        0 < v,
        -149 <= e <= 104,
        w == v * pow2(j),
        w < SIGNIFICAND_END,
        j <= 23,
    ensures
        k <= 23,
        raised(w, e - j).significand == v * pow2(k),
        raised(w, e - j).exponent == e - k,
        SIGNIFICAND_MIN <= v * pow2(k) < SIGNIFICAND_END,
    decreases 23 - j,
{
    lemma_pow2_pos(j);
    assert(w >= pow2(j)) by (nonlinear_arith)
        requires
            w == v * pow2(j),
            v >= 1,
    ;
    if w >= SIGNIFICAND_MIN {
        j
    } else {
        lemma2_to64();
        assert(pow2(23) == SIGNIFICAND_MIN);
        assert(j != 23);
        lemma_pow2_unfold(j + 1);
        assert(2 * w == v * pow2(j + 1)) by (nonlinear_arith)
            requires
                w == v * pow2(j),
                pow2(j + 1) == 2 * pow2(j),
        ;
        lemma_raised_step(v, e, 2 * w, j + 1)
    }
}

/// A bit pattern that stands for a positive number is the pattern of that number.
pub proof fn lemma_bits_round_trip(bits: u32)
    ensures
        decoded(bits) matches Some(s) ==> encoded(s) == bits,
{
    let biased = bits / 0x80_0000;
    let fraction = bits % 0x80_0000;
    if biased == 0 && bits != 0 {
        let k = lemma_raised_scales(fraction as nat, -149);
        let s = raised(fraction as nat, -149);
        let unit = pow2(k);
        lemma_pow2_pos(k);
        if k == 0 {
            lemma2_to64();
            assert(fraction * 1 == fraction);
            assert(false);
        }
        vstd::arithmetic::div_mod::lemma_div_by_multiple(fraction as int, unit as int);
        vstd::arithmetic::div_mod::lemma_mod_multiples_basic(fraction as int, unit as int);
    }
}

/// The whole part of a number is what its name says: as far as `cap` allows, it
/// is the whole number `b` with `b <= significand * 2^exponent < b + 1`.
pub proof fn lemma_whole_is_floor(s: Single, cap: nat)
    ensures
        s.whole(cap) <= cap,
        s.exponent >= 0 ==> s.whole(cap) <= s.significand * pow2(s.exponent as nat),
        s.exponent >= 0 && s.whole(cap) < cap ==> s.whole(cap) == s.significand * pow2(
            s.exponent as nat,
        ),
        s.exponent < 0 ==> s.whole(cap) * pow2((-s.exponent) as nat) <= s.significand,
        s.exponent < 0 && s.whole(cap) < cap ==> s.significand < (s.whole(cap) + 1) * pow2(
            (-s.exponent) as nat,
        ),
{
    if s.exponent < 0 {
        let u = pow2((-s.exponent) as nat);
        lemma_pow2_pos((-s.exponent) as nat);
        let q = s.significand as nat / u;
        vstd::arithmetic::div_mod::lemma_fundamental_div_mod(s.significand as int, u as int);
        let b = s.whole(cap);
        assert(b * u <= q * u) by (nonlinear_arith)
            requires
                b <= q,
        ;
        assert(q * u == u * q && (q + 1) * u == q * u + u) by (nonlinear_arith);
    }
}

/// Rounding to 24 bits is rounding to the nearest number of 24 bits: of a
/// number from 2^(23 + t) on and below 2^(24 + t), to the nearest multiple of
/// 2^t, and to the even one of two.
pub proof fn lemma_round24_is_nearest(n: nat, t: nat)
    requires
        0x80_0000 * pow2(t) <= n < 0x100_0000 * pow2(t),
    ensures
        ({
            let r = round24(n);
            let u = pow2(t);
            &&& r % u == 0
            &&& 2 * (r - n) <= u
            &&& 2 * (n - r) <= u
            &&& 2 * (r - n) == u || 2 * (n - r) == u ==> r / u % 2 == 0
        }),
{
    let u = pow2(t);
    let q = n / u;
    let rest = n % u;
    lemma_pow2_pos(t);
    lemma_excess_at_most(n, t);
    lemma_excess_of_multiple(SIGNIFICAND_MIN as nat, t);
    lemma_excess_bits_monotone(0x80_0000 * pow2(t), n);
    vstd::arithmetic::div_mod::lemma_fundamental_div_mod(n as int, u as int);
    assert(q * u == u * q && (q + 1) * u == q * u + u) by (nonlinear_arith);
    vstd::arithmetic::div_mod::lemma_mod_multiples_basic(q as int, u as int);
    vstd::arithmetic::div_mod::lemma_mod_multiples_basic((q + 1) as int, u as int);
    vstd::arithmetic::div_mod::lemma_div_by_multiple(q as int, u as int);
    vstd::arithmetic::div_mod::lemma_div_by_multiple((q + 1) as int, u as int);
    assert(2 * rest == u && q % 2 == 1 ==> (q + 1) % 2 == 0);
}

/// What is rounded has its value in significand and exponent.
proof fn lemma_rounded_value(v: nat, e: int)
    requires
        v >= SIGNIFICAND_MIN,
        -10_000 <= e <= 10_000,
        excess_bits(round24(v)) <= 10_000,
    ensures
        rounded(v, e).exponent >= e,
        rounded(v, e).significand * pow2((rounded(v, e).exponent - e) as nat) == round24(v),
{
    let r = round24(v);
    let s = excess_bits(r);
    lemma_rounded_significand(v);
    lemma_pow2_pos(s);
    vstd::arithmetic::div_mod::lemma_fundamental_div_mod(r as int, pow2(s) as int);
    lemma_rounded_divides(v);
    assert(r / pow2(s) * pow2(s) == pow2(s) * (r / pow2(s))) by (nonlinear_arith);
}

/// A number that was rounded is a multiple of its own last place.
proof fn lemma_rounded_divides(v: nat)
    ensures
        round24(v) % pow2(excess_bits(round24(v))) == 0,
{
    let t = excess_bits(v);
    let r = round24(v);
    let u = pow2(t);
    lemma2_to64();
    lemma_pow2_pos(t);
    lemma_excess_bits(v);
    let q = v / u;
    lemma_excess_bits_monotone(v, v);
    if t == 0 {
        assert(v / 1 == v && v % 1 == 0);
        assert(r == v);
    } else if r == q * u {
        lemma_excess_of_multiple(q, t);
        vstd::arithmetic::div_mod::lemma_mod_multiples_basic(q as int, u as int);
    } else if q + 1 < SIGNIFICAND_END {
        assert(r == (q + 1) * u);
        lemma_excess_of_multiple(q + 1, t);
        vstd::arithmetic::div_mod::lemma_mod_multiples_basic((q + 1) as int, u as int);
    } else {
        assert(r == (q + 1) * u);
        lemma_pow2_unfold(t + 1);
        assert(r == SIGNIFICAND_MIN * pow2(t + 1)) by (nonlinear_arith)
            requires
                r == (q + 1) * u,
                q + 1 == 2 * SIGNIFICAND_MIN,
                pow2(t + 1) == 2 * u,
        ;
        lemma_excess_of_multiple(SIGNIFICAND_MIN as nat, t + 1);
        lemma_pow2_pos(t + 1);
        vstd::arithmetic::div_mod::lemma_mod_multiples_basic(
            SIGNIFICAND_MIN as int,
            pow2(t + 1) as int,
        );
    }
}

/// A product is the number of 24 bits nearest to the exact product: in units of
/// its last place it is off by a half at most, and even if it is off by a half.
pub proof fn lemma_product_is_nearest(a: Single, b: Single)
    requires
        a.wf(),
        b.wf(),
    ensures
        ({
            let p = a.product(b);
            let k = p.exponent - (a.exponent + b.exponent);
            &&& 23 <= k <= 24
            &&& 0x80_0000 <= p.significand < 0x100_0000
            &&& 2 * (p.significand * pow2(k as nat) - a.significand * b.significand) <= pow2(k as nat)
            &&& 2 * (a.significand * b.significand - p.significand * pow2(k as nat)) <= pow2(k as nat)
            &&& 2 * (p.significand * pow2(k as nat) - a.significand * b.significand) == pow2(
                k as nat,
            ) || 2 * (a.significand * b.significand - p.significand * pow2(k as nat)) == pow2(
                k as nat,
            ) ==> p.significand % 2 == 0
        }),
{
    let v = (a.significand * b.significand) as nat;
    assert(0x80_0000 * 0x80_0000 <= v <= 0xFF_FFFF * 0xFF_FFFF) by (nonlinear_arith)
        requires
            v == a.significand * b.significand,
            0x80_0000 <= a.significand <= 0xFF_FFFF,
            0x80_0000 <= b.significand <= 0xFF_FFFF,
    ;
    lemma2_to64();
    lemma_product_exponent(a, b);
    lemma_rounded_excess(v, 23, 24);
    lemma_rounded_value(v, a.exponent + b.exponent);
    let p = a.product(b);
    let k = p.exponent - (a.exponent + b.exponent);
    let t: nat = if v < 0x100_0000 * 0x80_0000 {
        23
    } else {
        24
    };
    lemma_round24_is_nearest(v, t);
    if t == 24 {
        lemma_rounded_excess(v, 24, 24);
    }
    vstd::arithmetic::div_mod::lemma_div_by_multiple(p.significand as int, pow2(k as nat) as int);
}

/// A quotient is the number of 24 bits nearest to the exact quotient, in the
/// same way: as a multiple of the divisor it is off by half a last place at
/// most.
pub proof fn lemma_quotient_is_nearest(a: Single, b: Single)
    requires
        a.wf(),
        b.wf(),
    ensures
        ({
            let q = a.quotient(b);
            let k = q.exponent - (a.exponent - b.exponent - 28);
            let got = q.significand * pow2(k as nat) * b.significand;
            let exact = a.significand * 0x1000_0000;
            &&& 4 <= k <= 5
            &&& 0x80_0000 <= q.significand < 0x100_0000
            &&& 2 * (got - exact) <= pow2(k as nat) * b.significand
            &&& 2 * (exact - got) <= pow2(k as nat) * b.significand
        }),
{
    let n = a.significand * 0x800_0000;
    let d = b.significand as int;
    let w = n / d;
    let left = n % d;
    let rest: int = if left == 0 {
        0
    } else {
        1
    };
    let v = (2 * w + rest) as nat;
    vstd::arithmetic::div_mod::lemma_fundamental_div_mod(n, d);
    lemma_quotient_size(n, d, a.significand as int);
    lemma2_to64();
    lemma_quotient_exponent(a, b);
    lemma_rounded_excess(v, 4, 5);
    lemma_rounded_value(v, a.exponent - b.exponent - 28);
    let q = a.quotient(b);
    let k = q.exponent - (a.exponent - b.exponent - 28);
    let r = round24(v) as int;
    let u = pow2(k as nat) as int;
    if v < 0x100_0000 * 0x10 {
        lemma_round24_is_nearest(v, 4);
        lemma_round24_place(v, 4, k);
        lemma_quotient_error(n, d, w, left, rest, v as int, r, 16, u);
    } else {
        lemma_round24_is_nearest(v, 5);
        lemma_rounded_excess(v, 5, 5);
        lemma_quotient_error(n, d, w, left, rest, v as int, r, 32, u);
    }
}

/// How large the quotient of two significands is, in the units used for it.
proof fn lemma_quotient_size(n: int, d: int, m: int)
    requires
        n == m * 0x800_0000,
        0x80_0000 <= m <= 0xFF_FFFF,
        0x80_0000 <= d <= 0xFF_FFFF,
    ensures
        0x800_0000 <= 2 * (n / d) + (if n % d == 0 {
            0int
        } else {
            1int
        }) <= 0xFF_FFFF * 0x20,
{
    let q = n / d;
    vstd::arithmetic::div_mod::lemma_fundamental_div_mod(n, d);
    assert(q >= 0x400_0000) by (nonlinear_arith)
        requires
            n == d * q + n % d,
            n % d < d <= 0xFF_FFFF,
            n >= 0x80_0000 * 0x800_0000,
    ;
    assert(q * 0x80_0000 <= n && (d > 0x80_0000 ==> q * 0x80_0000 + q <= n)) by (nonlinear_arith)
        requires
            n == d * q + n % d,
            0 <= n % d,
            d >= 0x80_0000,
            q >= 0,
    ;
    if d == 0x80_0000 {
        assert(n == 0x80_0000 * (0x10 * m));
        assert(n % 0x80_0000 == 0);
    }
}

/// Rounding never makes the last place smaller.
proof fn lemma_round24_place(v: nat, t: nat, k: int)
    requires
        k == excess_bits(round24(v)),
        0x80_0000 * pow2(t) <= v < 0x100_0000 * pow2(t),
    ensures
        k >= t,
{
    lemma_excess_of_multiple(SIGNIFICAND_MIN as nat, t);
    lemma_round24_monotone(0x80_0000 * pow2(t), v);
    lemma_excess_bits_monotone(0x80_0000 * pow2(t), round24(v));
}

/// The error of the digits that are cut off does not add to that of rounding.
proof fn lemma_quotient_error(
    n: int,
    d: int,
    w: int,
    left: int,
    rest: int,
    v: int,
    r: int,
    place: int,
    u: int,
)
    requires
        n == d * w + left,
        0 <= left < d,
        rest == if left == 0 {
            0int
        } else {
            1
        },
        v == 2 * w + rest,
        r % place == 0,
        2 * (r - v) <= place,
        2 * (v - r) <= place,
        place == 16 || place == 32,
        u >= place,
    ensures
        2 * (r * d - 2 * n) <= u * d,
        2 * (2 * n - r * d) <= u * d,
{
    let off = r - v;
    assert(v * d - 2 * n == rest * d - 2 * left) by (nonlinear_arith)
        requires
            n == d * w + left,
            v == 2 * w + rest,
    ;
    assert(r * d - 2 * n == off * d + (rest * d - 2 * left)) by (nonlinear_arith)
        requires
            v * d - 2 * n == rest * d - 2 * left,
            off == r - v,
    ;
    assert(place * d <= u * d) by (nonlinear_arith)
        requires
            place <= u,
            d >= 0,
    ;
    if rest == 0 {
        assert(2 * (off * d) <= place * d && -(place * d) <= 2 * (off * d)) by (nonlinear_arith)
            requires
                2 * off <= place,
                -place <= 2 * off,
                d >= 0,
        ;
    } else {
        assert(v % 2 == 1);
        assert(r % 2 == 0) by {
            assert(place == 16 ==> r == 16 * (r / 16));
            assert(place == 32 ==> r == 32 * (r / 32));
        }
        assert(2 * off <= place - 2 && -(place - 2) <= 2 * off);
        assert(2 * (off * d) <= place * d - 2 * d && -(place * d - 2 * d) <= 2 * (off * d))
            by (nonlinear_arith)
            requires
                2 * off <= place - 2,
                -(place - 2) <= 2 * off,
                d >= 0,
        ;
    }
}

/// Where a cell begins follows from its number and size: it is the whole part of
/// their product, which is rounded to 24 bits first.  A number of more than 24
/// bits is rounded, too.
pub proof fn lemma_edge_is_floor(size: Single, n: nat)
    ensures
        n <= 0x100_0000 ==> round24(n) == n,
        size.edge(n) <= usize::MAX,
        size.exponent >= 0 ==> size.edge(n) <= round24(round24(n) * size.significand as nat) * pow2(
            size.exponent as nat,
        ),
        size.exponent >= 0 && size.edge(n) < usize::MAX ==> size.edge(n) == round24(
            round24(n) * size.significand as nat,
        ) * pow2(size.exponent as nat),
        size.exponent < 0 ==> size.edge(n) * pow2((-size.exponent) as nat) <= round24(
            round24(n) * size.significand as nat,
        ),
        size.exponent < 0 && size.edge(n) < usize::MAX ==> round24(
            round24(n) * size.significand as nat,
        ) < (size.edge(n) + 1) * pow2((-size.exponent) as nat),
{
    if n <= 0x100_0000 {
        lemma_round24_small(n);
    }
    let v = round24(round24(n) * size.significand as nat);
    if size.exponent < 0 {
        let u = pow2((-size.exponent) as nat);
        lemma_pow2_pos((-size.exponent) as nat);
        let q = v / u;
        let b = size.edge(n);
        vstd::arithmetic::div_mod::lemma_fundamental_div_mod(v as int, u as int);
        assert(b * u <= q * u) by (nonlinear_arith)
            requires
                b <= q,
        ;
        assert(q * u == u * q && (q + 1) * u == q * u + u) by (nonlinear_arith);
    }
}

/// What the bits of a binary32 number mean: eight bits of exponent above 23 of
/// the significand, whose leading one is left out.  Below the normal numbers
/// the significand is the fraction itself.
pub proof fn lemma_bits_mean(bits: u32)
    ensures
        decoded(bits) is None <==> bits == 0 || bits >= 0x7F80_0000,
        0x80_0000 <= bits < 0x7F80_0000 ==> (decoded(bits) matches Some(s) && s.significand
            == 0x80_0000 + bits % 0x80_0000 && s.exponent == bits / 0x80_0000 - 150),
        0 < bits < 0x80_0000 ==> (decoded(bits) matches Some(s) && s.exponent <= -149
            && s.significand == bits * pow2((-149 - s.exponent) as nat)),
{
    if 0 < bits < 0x80_0000 {
        let k = lemma_raised_scales(bits as nat, -149);
    }
}

/// The number nearest to a whole number has its value, rounded to 24 bits: its
/// own where it has no more.
pub proof fn lemma_nearest_value(n: nat)
    requires
        0 < n <= u64::MAX,
    ensures
        ({
            let s = Single::nearest(n);
            &&& s.exponent >= -24
            &&& s.significand * pow2((s.exponent + 24) as nat) == round24(n * 0x100_0000)
            &&& n < 0x100_0000 ==> s.significand * pow2((s.exponent + 24) as nat) == n * 0x100_0000
        }),
{
    let v = n * 0x100_0000;
    lemma2_to64();
    vstd::arithmetic::power2::lemma2_to64_rest();
    lemma_pow2_unfold(65);
    lemma_rounded_excess(v, 1, 65);
    lemma_rounded_value(v, -24);
    if n < 0x100_0000 {
        let s = excess_bits(v);
        lemma_excess_at_most(v, 24);
        lemma_pow2_pos(s);
        vstd::arithmetic::power2::lemma_pow2_adds((24 - s) as nat, s);
        let c = pow2((24 - s) as nat);
        assert(v == (n * c) * pow2(s)) by (nonlinear_arith)
            requires
                v == n * 0x100_0000,
                c * pow2(s) == 0x100_0000,
        ;
        vstd::arithmetic::div_mod::lemma_mod_multiples_basic((n * c) as int, pow2(s) as int);
        lemma_multiple_unchanged(v, pow2(s));
    }
}

/// Which bit patterns stand for sizes of text: those from two to the -125th
/// power on and below the 63rd.
pub proof fn lemma_which_sizes_are_for_text(bits: u32)
    ensures
        decoded(bits) matches Some(s) ==> s.is_binary32() && (s.is_font_size() <==> 0x100_0000
            <= bits < 0x5F00_0000) && (s.is_normal() <==> bits >= 0x80_0000),
{
    if 0 < bits < 0x80_0000 {
        lemma_raised_is_normalised(bits as nat, -149);
    }
}

/// Doubling stops at 24 bits.
proof fn lemma_raised_is_normalised(v: nat, e: int)
    requires
        0 < v < SIGNIFICAND_MIN,
        -400 <= e <= 500,
    ensures
        SIGNIFICAND_MIN <= raised(v, e).significand < SIGNIFICAND_END,
        e - 23 <= raised(v, e).exponent < e,
{
    lemma2_to64();
    lemma_raised_range(v, e, 23);
}

/// How often a number is doubled.
proof fn lemma_raised_range(v: nat, e: int, steps: nat)
    requires
        0 < v < SIGNIFICAND_END,
        SIGNIFICAND_MIN <= v * pow2(steps),
        steps <= 23,
        -500 <= e - steps,
        e <= 500,
    ensures
        SIGNIFICAND_MIN <= raised(v, e).significand < SIGNIFICAND_END,
        e - steps <= raised(v, e).exponent <= e,
        v < SIGNIFICAND_MIN ==> raised(v, e).exponent < e,
    decreases steps,
{
    lemma2_to64();
    if v < SIGNIFICAND_MIN {
        if steps == 0 {
            assert(v * 1 == v);
        }
        lemma_pow2_unfold(steps);
        assert((2 * v) * pow2((steps - 1) as nat) == v * pow2(steps)) by (nonlinear_arith)
            requires
                pow2(steps) == 2 * pow2((steps - 1) as nat),
        ;
        lemma_raised_range(2 * v, e - 1, (steps - 1) as nat);
    }
}

/// The bit pattern of a number is the nearest one: its own where it is in the
/// normal range, infinity above it, and below it the nearest multiple of the
/// smallest number, of two the even one.
pub proof fn lemma_encoded_is_nearest(s: Single)
    requires
        s.wf(),
    ensures
        s.exponent > 104 ==> encoded(s) == 0x7F80_0000,
        -149 <= s.exponent <= 104 ==> encoded(s) % 0x80_0000 == s.significand - 0x80_0000
            && encoded(s) / 0x80_0000 == s.exponent + 150,
        s.exponent < -149 ==> {
            let u = pow2((-149 - s.exponent) as nat);
            &&& 2 * (encoded(s) * u - s.significand) <= u
            &&& 2 * (s.significand - encoded(s) * u) <= u
            &&& 2 * (encoded(s) * u - s.significand) == u || 2 * (s.significand - encoded(s) * u)
                == u ==> encoded(s) % 2 == 0
        },
{
    if s.exponent < -149 {
        let u = pow2((-149 - s.exponent) as nat);
        lemma_pow2_pos((-149 - s.exponent) as nat);
        let n = s.significand as nat;
        let q = n / u;
        vstd::arithmetic::div_mod::lemma_fundamental_div_mod(n as int, u as int);
        assert(q * u == u * q && (q + 1) * u == q * u + u) by (nonlinear_arith);
        vstd::arithmetic::div_mod::lemma_div_by_multiple(q as int, u as int);
        vstd::arithmetic::div_mod::lemma_div_by_multiple((q + 1) as int, u as int);
    }
}

} // verus!
