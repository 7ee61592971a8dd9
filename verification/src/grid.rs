//! How many cells fit into a picture.

use crate::single::at_most;
use crate::single::excess_bits;
use crate::single::lemma_excess_at_most;
use crate::single::lemma_excess_bits;
use crate::single::lemma_first_edge;
use crate::single::lemma_multiple_unchanged;
use crate::single::lemma_round24_error;
use crate::single::lemma_round24_monotone;
use crate::single::lemma_round24_small;
use crate::single::round24;
use crate::single::rounded;
use crate::single::scaled;
use crate::single::Single;
use crate::single::SIGNIFICAND_END;
use crate::single::SIGNIFICAND_MIN;
use vstd::arithmetic::power2::lemma2_to64;
use vstd::arithmetic::power2::lemma_pow2_adds;
use vstd::arithmetic::power2::lemma_pow2_pos;
use vstd::arithmetic::power2::lemma_pow2_unfold;
use vstd::arithmetic::power2::pow2;
use vstd::prelude::*;

verus! {

/// How many cells of a size fit into an extent of pixels: the whole part of
/// the rounded quotient, as far as 16 bits count it.
pub open spec fn cell_count_spec(extent: u16, size: Single) -> nat {
    if extent == 0 {
        0
    } else {
        Single::nearest(extent as nat).quotient(size).whole(u16::MAX as nat)
    }
}

/// How many cells of a size fit into an extent of pixels.
pub fn cell_count(extent: u16, size: &Single) -> (r: u16)
    requires
        size.wf(),
        -500 <= size.exponent <= 500,
    ensures
        r == cell_count_spec(extent, *size),
{
    if extent == 0 {
        0
    } else {
        Single::from_whole(extent as u64).div(size).floor(u16::MAX as u64) as u16
    }
}

/// A 24-bit number times a power of two is a multiple of the unit it is
/// rounded to.
proof fn lemma_shifted_is_multiple(k: nat, t: nat)
    requires
        k < SIGNIFICAND_END,
    ensures
        excess_bits(k * pow2(t)) <= t,
        (k * pow2(t)) % pow2(excess_bits(k * pow2(t))) == 0,
        round24(k * pow2(t)) == k * pow2(t),
{
    let n = k * pow2(t);
    lemma_pow2_pos(t);
    assert(n < SIGNIFICAND_END * pow2(t)) by (nonlinear_arith)
        requires
            n == k * pow2(t),
            k < SIGNIFICAND_END,
            pow2(t) > 0,
    ;
    lemma_excess_at_most(n, t);
    let s = excess_bits(n);
    lemma_pow2_pos(s);
    lemma_pow2_adds((t - s) as nat, s);
    let c = pow2((t - s) as nat);
    assert(n == (k * c) * pow2(s)) by (nonlinear_arith)
        requires
            n == k * pow2(t),
            pow2(t) == c * pow2(s),
    ;
    vstd::arithmetic::div_mod::lemma_mod_multiples_basic((k * c) as int, pow2(s) as int);
    lemma_multiple_unchanged(n, pow2(s));
}

/// A rounded number loses nothing when its low bits are dropped.
proof fn lemma_rounded_is_multiple(v: nat)
    ensures
        round24(v) % pow2(excess_bits(round24(v))) == 0,
{
    let e = excess_bits(v);
    let u = pow2(e);
    lemma_pow2_pos(e);
    lemma_excess_bits(v);
    let q = v / u;
    if round24(v) == q * u {
        lemma_shifted_is_multiple(q, e);
    } else {
        assert(round24(v) == (q + 1) * u);
        if q + 1 < SIGNIFICAND_END {
            lemma_shifted_is_multiple(q + 1, e);
        } else {
            lemma_pow2_unfold(e + 1);
            assert((q + 1) * u == SIGNIFICAND_MIN * (2 * u)) by (nonlinear_arith)
                requires
                    q + 1 == SIGNIFICAND_END,
                    SIGNIFICAND_END == 2 * SIGNIFICAND_MIN,
            ;
            lemma_shifted_is_multiple(SIGNIFICAND_MIN as nat, e + 1);
        }
    }
}

/// Moving a power of two between the number and the exponent changes nothing.
proof fn lemma_scaled_shift(a: nat, s: nat, e: int)
    ensures
        scaled(a * pow2(s), e) == scaled(a, e + s),
{
    lemma_pow2_pos(s);
    if e >= 0 {
        lemma_pow2_adds(s, e as nat);
        assert((a * pow2(s)) * pow2(e as nat) == a * (pow2(s) * pow2(e as nat)))
            by (nonlinear_arith);
    } else if e + s >= 0 {
        let d = (-e) as nat;
        let up = (e + s) as nat;
        lemma_pow2_pos(d);
        lemma_pow2_adds(up, d);
        assert(a * pow2(s) == (a * pow2(up)) * pow2(d)) by (nonlinear_arith)
            requires
                pow2(s) == pow2(up) * pow2(d),
        ;
        vstd::arithmetic::div_mod::lemma_div_by_multiple((a * pow2(up)) as int, pow2(d) as int);
        if e + s == 0 {
            lemma2_to64();
        }
    } else {
        let rest = (-e - s) as nat;
        lemma_pow2_pos(rest);
        lemma_pow2_adds(s, rest);
        vstd::arithmetic::div_mod::lemma_div_denominator(
            (a * pow2(s)) as int,
            pow2(s) as int,
            pow2(rest) as int,
        );
        vstd::arithmetic::div_mod::lemma_div_by_multiple(a as int, pow2(s) as int);
    }
}

/// What rounding to a normalised number keeps.
proof fn lemma_rounded_scaled(v: nat, e: int)
    requires
        SIGNIFICAND_MIN <= v,
        excess_bits(round24(v)) <= 200,
        -5_000 <= e <= 5_000,
    ensures
        rounded(v, e).exponent == e + excess_bits(round24(v)),
        rounded(v, e).significand * pow2(excess_bits(round24(v))) == round24(v),
        scaled(rounded(v, e).significand as nat, rounded(v, e).exponent as int) == scaled(
            round24(v),
            e,
        ),
{
    let r = round24(v);
    let s = excess_bits(r);
    lemma_rounded_is_multiple(v);
    lemma_excess_bits(r);
    lemma_pow2_pos(s);
    vstd::arithmetic::div_mod::lemma_fundamental_div_mod(r as int, pow2(s) as int);
    let q = r / pow2(s);
    assert(pow2(s) * q == q * pow2(s)) by (nonlinear_arith);
    lemma_scaled_shift(q, s, e);
}

/// A whole number of sixteen bits is exact: `w` times a power of two is its
/// significand.
proof fn lemma_nearest_exact(w: nat) -> (k: nat)
    requires
        0 < w < 0x1_0000,
    ensures
        8 <= k <= 23,
        Single::nearest(w).significand == w * pow2(k),
        Single::nearest(w).exponent == -(k as int),
        SIGNIFICAND_MIN <= w * pow2(k) < SIGNIFICAND_END,
{
    let v = w * (SIGNIFICAND_END as nat);
    lemma2_to64();
    assert(v == w * pow2(24));
    lemma_shifted_is_multiple(w, 24);
    assert(v >= SIGNIFICAND_END && v < SIGNIFICAND_END * 0x1_0000) by (nonlinear_arith)
        requires
            v == w * (SIGNIFICAND_END as nat),
            0 < w < 0x1_0000,
    ;
    lemma_excess_at_most(v, 16);
    lemma_excess_bits(v);
    lemma_rounded_scaled(v, -24);
    let s = excess_bits(v);
    let k = (24 - s) as nat;
    lemma_pow2_pos(s);
    lemma_pow2_adds(k, s);
    assert(v == (w * pow2(k)) * pow2(s)) by (nonlinear_arith)
        requires
            v == w * pow2(24),
            pow2(24) == pow2(k) * pow2(s),
    ;
    vstd::arithmetic::div_mod::lemma_div_by_multiple((w * pow2(k)) as int, pow2(s) as int);
    k
}

/// The quotient before it is rounded: twice the whole part, and one more if
/// anything is left.
spec fn raw_quotient(n: nat, d: nat) -> nat {
    2 * (n / d) + (if n % d == 0 {
        0nat
    } else {
        1nat
    })
}

/// How far the raw quotient is from the quotient.
proof fn lemma_raw_quotient(n: nat, d: nat)
    requires
        d > 0,
    ensures
        2 * n <= raw_quotient(n, d) * d + d,
        raw_quotient(n, d) * d <= 2 * n + d,
{
    let q = n / d;
    vstd::arithmetic::div_mod::lemma_fundamental_div_mod(n as int, d as int);
    assert((2 * q) * d == 2 * (d * q)) by (nonlinear_arith);
    assert((2 * q + 1) * d == 2 * (d * q) + d) by (nonlinear_arith);
}

/// The raw quotient of two significands is a number of 28 or 29 bits.
proof fn lemma_raw_quotient_size(m: nat, d: nat)
    requires
        SIGNIFICAND_MIN <= m < SIGNIFICAND_END,
        SIGNIFICAND_MIN <= d < SIGNIFICAND_END,
    ensures
        0x800_0000 <= raw_quotient(m * 0x800_0000, d) <= 0x2000_0001,
{
    let n = m * 0x800_0000;
    let q = n / d;
    vstd::arithmetic::div_mod::lemma_fundamental_div_mod(n as int, d as int);
    if q < 0x400_0000 {
        assert(d * q + d <= d * 0x400_0000) by (nonlinear_arith)
            requires
                q + 1 <= 0x400_0000,
        ;
        assert(false);
    }
    assert(d * q >= SIGNIFICAND_MIN * q) by (nonlinear_arith)
        requires
            d >= SIGNIFICAND_MIN,
    ;
}

/// The number of cells, from the raw quotient.
proof fn lemma_count_scaled(extent: u16, size: Single) -> (k: nat)
    requires
        extent > 0,
        size.wf(),
        -500 <= size.exponent <= 500,
    ensures
        8 <= k <= 23,
        SIGNIFICAND_MIN <= extent * pow2(k) < SIGNIFICAND_END,
        cell_count_spec(extent, size) == at_most(
            scaled(
                round24(
                    raw_quotient(
                        (extent * pow2(k)) as nat * 0x800_0000,
                        size.significand as nat,
                    ),
                ),
                -(k as int) - size.exponent - 28,
            ),
            u16::MAX as nat,
        ),
{
    let k = lemma_nearest_exact(extent as nat);
    let m = (extent * pow2(k)) as nat;
    let v = raw_quotient(m * 0x800_0000, size.significand as nat);
    lemma_raw_quotient_size(m, size.significand as nat);
    lemma2_to64();
    lemma_round24_error(v);
    lemma_excess_at_most(round24(v), 30);
    lemma_rounded_scaled(v, -(k as int) - size.exponent - 28);
    k
}

/// A rounded raw quotient times the divisor is hardly more than the dividend.
proof fn lemma_quotient_bound(n2: nat, d: nat, v: nat, r: nat)
    requires
        d < SIGNIFICAND_END,
        n2 >= 0x8_0000_0000_0000,
        v * d <= n2 + d,
        (r - v) * SIGNIFICAND_END <= v,
    ensures
        (r * d) * 0x8_0000_0000_0000 <= n2 * 0x8_0000_0900_0001,
{
    assert(r * 0x100_0000 <= v * 0x100_0001) by (nonlinear_arith)
        requires
            (r - v) * SIGNIFICAND_END <= v,
            SIGNIFICAND_END == 0x100_0000,
    ;
    assert((r * d) * 0x100_0000 <= (v * d) * 0x100_0001) by (nonlinear_arith)
        requires
            r * 0x100_0000 <= v * 0x100_0001,
    ;
}

/// Rounding a product that is hardly more than `w * p` stays below the next
/// multiple of `p`.
proof fn lemma_rounded_below(x: nat, y: nat, w: nat, p: nat)
    requires
        w < 0x1_0000,
        p > 0,
        x * 0x8_0000_0000_0000 <= (w * p) * 0x8_0000_0900_0001,
        (y - x) * SIGNIFICAND_END <= x,
    ensures
        y < p * (w + 1),
{
    let wp = w * p;
    assert(y * 0x100_0000 <= x * 0x100_0001);
    assert(y * 0x800_0000_0000_0000_0000 <= wp * 0x800_0011_0000_0a00_0001);
    assert(wp <= 0xFFFF * p) by (nonlinear_arith)
        requires
            wp == w * p,
            w <= 0xFFFF,
    ;
    assert(p * (w + 1) == wp + p) by (nonlinear_arith)
        requires
            wp == w * p,
    ;
}

/// The cells that are counted lie inside the extent.
proof fn lemma_counted_cells_fit(extent: u16, size: Single)
    requires
        extent > 0,
        size.wf(),
        -500 <= size.exponent <= 500,
    ensures
        size.edge(cell_count_spec(extent, size)) <= extent,
        size.exponent >= 0 ==> cell_count_spec(extent, size) == 0,
        size.exponent < 0 ==> (cell_count_spec(extent, size) * size.significand) * 0x80_0000 <= (
        extent * pow2((-size.exponent) as nat)) * 0x80_0001,
{
    let w = extent as nat;
    let k = lemma_count_scaled(extent, size);
    let a = pow2(k);
    let d = size.significand as nat;
    let e = size.exponent as int;
    let n = (w * a) * 0x800_0000;
    let v = raw_quotient(n, d);
    let r = round24(v);
    let down = -(k as int) - e - 28;
    let count = cell_count_spec(extent, size);
    lemma_raw_quotient(n, d);
    lemma_raw_quotient_size(w * a, d);
    lemma_round24_error(v);
    lemma_round24_small(count);
    lemma2_to64();
    if e >= 0 {
        let b = pow2((-down) as nat);
        assert(b > 0x4000_0000) by {
            vstd::arithmetic::power2::lemma_pow2_strictly_increases(30, (-down) as nat);
        }
        vstd::arithmetic::div_mod::lemma_basic_div(r as int, b as int);
        assert(count == 0);
        lemma_first_edge(size);
    } else {
        let p = pow2((-e) as nat);
        let x = count * d;
        let y = round24(x);
        lemma_pow2_pos((-e) as nat);
        lemma_quotient_bound(2 * n, d, v, r);
        lemma_pow2_adds(k, 28);
        let whole = pow2(k + 28);
        assert(w * whole == 2 * n) by (nonlinear_arith)
            requires
                whole == a * 0x1000_0000,
                n == (w * a) * 0x800_0000,
        ;
        if down < 0 {
            let b = pow2((-down) as nat);
            lemma_pow2_pos((-down) as nat);
            lemma_pow2_adds((-down) as nat, (-e) as nat);
            assert(b * p == whole);
            vstd::arithmetic::div_mod::lemma_fundamental_div_mod(r as int, b as int);
            assert(count * b <= r) by (nonlinear_arith)
                requires
                    count <= r / b,
                    r == b * (r / b) + r % b,
                    0 <= r % b,
                    b > 0,
            ;
            assert(x * b <= r * d) by (nonlinear_arith)
                requires
                    count * b <= r,
                    x == count * d,
            ;
            assert((w * p) * b == 2 * n) by (nonlinear_arith)
                requires
                    w * whole == 2 * n,
                    b * p == whole,
            ;
            assert(x * 0x8_0000_0000_0000 <= (w * p) * 0x8_0000_0900_0001) by (nonlinear_arith)
                requires
                    x * b <= r * d,
                    (r * d) * 0x8_0000_0000_0000 <= (2 * n) * 0x8_0000_0900_0001,
                    (w * p) * b == 2 * n,
                    b > 0,
            ;
        } else {
            let c = pow2(down as nat);
            lemma_pow2_adds(down as nat, k + 28);
            assert(p == c * whole);
            assert(x <= (r * d) * c) by (nonlinear_arith)
                requires
                    count <= r * c,
                    x == count * d,
            ;
            assert(w * p == (2 * n) * c) by (nonlinear_arith)
                requires
                    w * whole == 2 * n,
                    p == c * whole,
            ;
            assert(x * 0x8_0000_0000_0000 <= (w * p) * 0x8_0000_0900_0001) by (nonlinear_arith)
                requires
                    x <= (r * d) * c,
                    (r * d) * 0x8_0000_0000_0000 <= (2 * n) * 0x8_0000_0900_0001,
                    w * p == (2 * n) * c,
                    c >= 0,
            ;
        }
        assert(x * 0x80_0000 <= (w * p) * 0x80_0001);
        lemma_round24_error(x);
        lemma_rounded_below(x, y, w, p);
        vstd::arithmetic::div_mod::lemma_multiply_divide_lt(y as int, p as int, (w + 1) as int);
    }
}

/// One cell more than is counted does not end inside the extent.
proof fn lemma_counted_cells_fill(extent: u16, size: Single)
    requires
        extent > 0,
        size.wf(),
        -500 <= size.exponent <= 500,
        cell_count_spec(extent, size) < u16::MAX,
    ensures
        extent <= size.edge(cell_count_spec(extent, size) + 1),
        size.exponent < 0 ==> extent * pow2((-size.exponent) as nat) < (cell_count_spec(extent, size)
            + 1) * size.significand,
{
    let w = extent as nat;
    let k = lemma_count_scaled(extent, size);
    let a = pow2(k);
    let d = size.significand as nat;
    let e = size.exponent as int;
    let n = (w * a) * 0x800_0000;
    let v = raw_quotient(n, d);
    let r = round24(v);
    let down = -(k as int) - e - 28;
    let count = cell_count_spec(extent, size);
    let next = count + 1;
    lemma_raw_quotient_size(w * a, d);
    lemma_round24_small(next);
    lemma2_to64();
    let x = next * d;
    let y = round24(x);
    if e >= 0 {
        assert(x >= d) by (nonlinear_arith)
            requires
                x == next * d,
                next >= 1,
        ;
        lemma_round24_monotone(d, x);
        lemma_round24_small(d);
        lemma_pow2_pos(e as nat);
        assert(y * pow2(e as nat) >= y) by (nonlinear_arith)
            requires
                pow2(e as nat) >= 1,
        ;
    } else {
        let p = pow2((-e) as nat);
        lemma_pow2_pos((-e) as nat);
        lemma_pow2_adds(k, 28);
        let whole = pow2(k + 28);
        assert(w * whole == 2 * n) by (nonlinear_arith)
            requires
                whole == a * 0x1000_0000,
                n == (w * a) * 0x800_0000,
        ;
        if down >= 0 {
            lemma_round24_monotone(SIGNIFICAND_MIN as nat, v);
            lemma_round24_small(SIGNIFICAND_MIN as nat);
            lemma_pow2_pos(down as nat);
            assert(r * pow2(down as nat) >= r) by (nonlinear_arith)
                requires
                    pow2(down as nat) >= 1,
            ;
            assert(false);
        }
        let b = pow2((-down) as nat);
        let half = pow2((-down - 1) as nat);
        lemma_pow2_unfold((-down) as nat);
        lemma_pow2_pos((-down) as nat);
        lemma_pow2_adds((-down) as nat, (-e) as nat);
        assert((w * p) * b == 2 * n) by (nonlinear_arith)
            requires
                w * whole == 2 * n,
                b * p == whole,
        ;
        if x <= w * p {
            assert((next * half) * d <= n) by (nonlinear_arith)
                requires
                    x <= w * p,
                    x == next * d,
                    (w * p) * b == 2 * n,
                    b == 2 * half,
                    half > 0,
            ;
            vstd::arithmetic::div_mod::lemma_div_is_ordered(
                ((next * half) * d) as int,
                n as int,
                d as int,
            );
            vstd::arithmetic::div_mod::lemma_div_by_multiple((next * half) as int, d as int);
            assert(v >= next * b) by (nonlinear_arith)
                requires
                    v >= 2 * (next * half),
                    b == 2 * half,
            ;
            lemma_round24_monotone(next * b, v);
            lemma_shifted_is_multiple(next, (-down) as nat);
            vstd::arithmetic::div_mod::lemma_div_is_ordered(
                (next * b) as int,
                r as int,
                b as int,
            );
            vstd::arithmetic::div_mod::lemma_div_by_multiple(next as int, b as int);
            assert(false);
        }
        lemma_round24_monotone(w * p, x);
        lemma_shifted_is_multiple(w, (-e) as nat);
        vstd::arithmetic::div_mod::lemma_div_is_ordered((w * p) as int, y as int, p as int);
        vstd::arithmetic::div_mod::lemma_div_by_multiple(w as int, p as int);
    }
}

/// As many cells as fit are counted: the last one ends inside the extent, and,
/// as far as 16 bits count, one more would not.
pub proof fn lemma_count_fits(extent: u16, size: Single)
    requires
        size.wf(),
        -500 <= size.exponent <= 500,
    ensures
        size.edge(cell_count_spec(extent, size)) <= extent,
        cell_count_spec(extent, size) < u16::MAX ==> extent <= size.edge(
            cell_count_spec(extent, size) + 1,
        ),
{
    if extent == 0 {
        lemma_first_edge(size);
    } else {
        lemma_counted_cells_fit(extent, size);
        if cell_count_spec(extent, size) < u16::MAX {
            lemma_counted_cells_fill(extent, size);
        }
    }
}

/// How many cells are counted: the quotient of the extent and the size, with its
/// fraction dropped.  One more cell would be larger than the extent, and as many
/// as are counted are no larger, but for one part in 2^23 that rounding may add.
/// An extent that holds a number of cells exactly has that many.
pub proof fn lemma_count_is_quotient(extent: u16, size: Single, k: nat)
    requires
        size.wf(),
        -500 <= size.exponent <= 500,
    ensures
        ({
            let count = cell_count_spec(extent, size);
            let unit = pow2((-size.exponent) as nat);
            &&& extent == 0 ==> count == 0
            &&& size.exponent >= 0 ==> count == 0
            &&& count <= 65535
            &&& size.exponent < 0 && count < 65535 ==> extent * unit < (count + 1) * size.significand
            &&& size.exponent < 0 ==> (count * size.significand) * 0x80_0000 <= (extent * unit)
                * 0x80_0001
            &&& size.exponent < 0 && k < 65535 && k * size.significand == extent * unit ==> count
                == k
        }),
{
    let count = cell_count_spec(extent, size);
    let d = size.significand as nat;
    if extent == 0 {
        lemma_pow2_pos((-size.exponent) as nat);
        let unit = pow2((-size.exponent) as nat);
        assert(extent * unit == 0 && count * d == 0 && (count + 1) * d == d) by (nonlinear_arith)
            requires
                extent == 0,
                count == 0,
        ;
        if size.exponent < 0 && k * d == 0 {
            assert(k == 0) by (nonlinear_arith)
                requires
                    k * d == 0,
                    d > 0,
            ;
        }
    } else {
        lemma_counted_cells_fit(extent, size);
        if count < u16::MAX {
            lemma_counted_cells_fill(extent, size);
        }
        if size.exponent < 0 && k < 65535 && k * d == extent * pow2((-size.exponent) as nat) {
            assert(count <= k) by (nonlinear_arith)
                requires
                    (count * d) * 0x80_0000 <= (k * d) * 0x80_0001,
                    k < 65535,
                    d > 0,
            ;
            assert(k <= count) by (nonlinear_arith)
                requires
                    k * d < (count + 1) * d,
                    d > 0,
            ;
        }
    }
}

} // verus!
