//! Arithmetic of non-negative IEEE 754 double-precision numbers, on integers.
//!
//! A double holds 53 significant bits, and each operation gives the double nearest to the exact
//! result, the one with an even significand where two are equally near. That is all that the
//! rates and the byte counts of this crate need, and it can be said exactly over integers.

use vstd::prelude::*;

verus! {

/// Two to the power `k`.
pub open spec fn two_to(k: nat) -> nat
    decreases k,
{
    if k == 0 {
        1
    } else {
        2 * two_to((k - 1) as nat)
    }
}

/// The integer nearest to `p / q`, the even one where two are equally near.
pub open spec fn half_even(p: nat, q: nat) -> nat {
    let whole = p / q;
    let twice = 2 * (p % q);
    if twice < q || (twice == q && whole % 2 == 0) {
        whole
    } else {
        whole + 1
    }
}

/// How often `p` has to be doubled until `p / q` needs 53 bits.
pub open spec fn up_shift(p: nat, q: nat) -> nat
    decreases 0x20_0000_0000_0000 * q - p,
{
    if p == 0 || p >= 0x10_0000_0000_0000 * q {
        0
    } else {
        1 + up_shift(2 * p, q)
    }
}

/// How often `q` has to be doubled until `p / q` needs no more than 53 bits.
pub open spec fn down_shift(p: nat, q: nat) -> nat
    decreases p - q,
{
    if q == 0 || p < 0x20_0000_0000_0000 * q {
        0
    } else {
        1 + down_shift(p, 2 * q)
    }
}

/// The number `significand * 2^exponent`.
pub struct Binary64 {
    pub significand: u64,
    pub exponent: i32,
}

/// The double nearest to `p / q * 2^scale`.
pub open spec fn nearest(p: nat, q: nat, scale: int) -> (nat, int) {
    let up = up_shift(p, q);
    let down = down_shift(p, q);
    (half_even(p * two_to(up), q * two_to(down)), scale + down - up)
}

/// The double nearest to the integer `n`.
pub open spec fn nearest_integer(n: nat) -> nat {
    let down = two_to(down_shift(n, 1));
    half_even(n, down) * down
}

/// The quotient of two doubles.
pub open spec fn quotient(a: (nat, int), b: (nat, int)) -> (nat, int) {
    nearest(a.0, b.0, a.1 - b.1)
}

/// The double that writes `nanos` nanoseconds as seconds: the whole seconds plus the quotient of
/// the remaining nanoseconds by a thousand million.
pub open spec fn seconds(nanos: nat) -> (nat, int) {
    let fraction = nearest(nanos % 1_000_000_000, 1_000_000_000, 0);
    // Every bit of the fraction weighs at least 2^-82, so the sum is exact at that scale.
    let sum = nanos / 1_000_000_000 * two_to(82) + fraction.0 * two_to((82 + fraction.1) as nat);
    nearest(sum, 1, -82)
}

/// The integer part of a double, or the largest `u64` where that is smaller.
pub open spec fn truncated(a: (nat, int)) -> nat {
    if a.1 >= 0 {
        let n = a.0 * two_to(a.1 as nat);
        if n > u64::MAX {
            u64::MAX as nat
        } else {
            n
        }
    } else {
        a.0 / two_to((-a.1) as nat)
    }
}

impl Binary64 {
    /// The significand and the exponent.
    pub open spec fn parts(self) -> (nat, int) {
        (self.significand as nat, self.exponent as int)
    }
}

// ---------------------------------------------------------------------------------------------
// Lemmas

pub proof fn lemma_two_to_adds(a: nat, b: nat)
    ensures
        two_to(a + b) == two_to(a) * two_to(b),
        two_to(a) > 0,
    decreases a,
{
    if a == 0 {
        let y = two_to(b);
        assert(1 * y == y) by (nonlinear_arith);
        assert(two_to(0) == 1);
    } else {
        lemma_two_to_adds((a - 1) as nat, b);
        assert(two_to(a + b) == 2 * two_to((a - 1 + b) as nat));
        let x = two_to((a - 1) as nat);
        let y = two_to(b);
        assert(2 * (x * y) == (2 * x) * y) by (nonlinear_arith);
    }
}

/// Doubling `p` up to 53 bits multiplies it by a power of two.
proof fn lemma_up_shift(p: nat, q: nat)
    requires
        0 < p < 0x20_0000_0000_0000 * q,
    ensures
        0x10_0000_0000_0000 * q <= p * two_to(up_shift(p, q)) < 0x20_0000_0000_0000 * q,
    decreases 0x20_0000_0000_0000 * q - p,
{
    if p >= 0x10_0000_0000_0000 * q {
        assert(two_to(0) == 1);
        assert(p * 1 == p);
    } else {
        lemma_up_shift(2 * p, q);
        let u = up_shift(2 * p, q);
        let t = two_to(u);
        assert(two_to(up_shift(p, q)) == 2 * t);
        assert(p * (2 * t) == (2 * p) * t) by (nonlinear_arith);
    }
}

/// No more than `k` doublings are needed where `k` doublings reach 53 bits.
proof fn lemma_up_shift_bound(p: nat, q: nat, k: nat)
    requires
        p * two_to(k) >= 0x10_0000_0000_0000 * q,
    ensures
        up_shift(p, q) <= k,
    decreases k,
{
    if p == 0 || p >= 0x10_0000_0000_0000 * q {
    } else if k == 0 {
        assert(p * 1 == p);
    } else {
        let t = two_to((k - 1) as nat);
        assert(p * (2 * t) == (2 * p) * t) by (nonlinear_arith);
        lemma_up_shift_bound(2 * p, q, (k - 1) as nat);
    }
}

/// The significand of a quotient that needs no more than 53 bits.
proof fn lemma_half_even_bound(p: nat, q: nat)
    requires
        q > 0,
        p < 0x20_0000_0000_0000 * q,
    ensures
        half_even(p, q) <= 0x20_0000_0000_0000,
        0x10_0000_0000_0000 * q <= p ==> half_even(p, q) >= 0x10_0000_0000_0000,
{
    let whole = p / q;
    assert(whole < 0x20_0000_0000_0000) by (nonlinear_arith)
        requires
            p < 0x20_0000_0000_0000 * q,
            whole == p / q,
            q > 0,
    ;
    if 0x10_0000_0000_0000 * q <= p {
        assert(whole >= 0x10_0000_0000_0000) by (nonlinear_arith)
            requires
                0x10_0000_0000_0000 * q <= p,
                whole == p / q,
                q > 0,
        ;
    }
}

proof fn lemma_two_to_112()
    ensures
        two_to(112) == 0x1_0000_0000_0000_0000_0000_0000_0000,
{
    assert(two_to(28) == 0x1000_0000) by {
        reveal_with_fuel(two_to, 29);
    }
    lemma_two_to_adds(28, 28);
    let a = two_to(28);
    assert(a * a == 0x100_0000_0000_0000) by (nonlinear_arith)
        requires
            a == 0x1000_0000,
    ;
    lemma_two_to_adds(56, 56);
    let b = two_to(56);
    assert(b * b == 0x1_0000_0000_0000_0000_0000_0000_0000) by (nonlinear_arith)
        requires
            b == 0x100_0000_0000_0000,
    ;
}

/// A power of two below `2^112` has an exponent below 112.
proof fn lemma_power_small(k: nat, n: nat)
    requires
        two_to(k) <= n,
        n < 0x1_0000_0000_0000_0000_0000_0000_0000,
    ensures
        k < 112,
{
    if k >= 112 {
        lemma_two_to_adds(112, (k - 112) as nat);
        lemma_two_to_adds((k - 112) as nat, 0);
        lemma_two_to_112();
        let x = two_to((k - 112) as nat);
        assert(0x1_0000_0000_0000_0000_0000_0000_0000 * x
            >= 0x1_0000_0000_0000_0000_0000_0000_0000) by (nonlinear_arith)
            requires
                x >= 1,
        ;
    }
}

proof fn lemma_two_to_below_112(k: nat)
    requires
        k < 112,
    ensures
        1 <= two_to(k) < 0x1_0000_0000_0000_0000_0000_0000_0000,
{
    lemma_two_to_112();
    lemma_two_to_adds(k, (112 - k) as nat);
    let a = two_to(k);
    let b = two_to((112 - k) as nat);
    lemma_two_to_adds((112 - k - 1) as nat, 0);
    assert(b == 2 * two_to((112 - k - 1) as nat));
    assert(a < a * b) by (nonlinear_arith)
        requires
            a > 0,
            b >= 2,
    ;
}

/// A power of two of at most `2^12` has an exponent of at most 12.
proof fn lemma_small_exponent(k: nat, n: nat)
    requires
        two_to(k) == n,
        n <= 0x1000,
    ensures
        k <= 12,
{
    if k > 12 {
        assert(two_to(13) == 0x2000) by {
            reveal_with_fuel(two_to, 14);
        }
        lemma_two_to_adds(13, (k - 13) as nat);
        lemma_two_to_adds((k - 13) as nat, 0);
        let x = two_to((k - 13) as nat);
        assert(0x2000 * x >= 0x2000) by (nonlinear_arith)
            requires
                x >= 1,
        ;
    }
}

/// The power of two that brings a `u64` down to 53 bits is at most `2^11`.
proof fn lemma_top_bit(k: nat, n: u64)
    requires
        0x10_0000_0000_0000 * two_to(k) <= n,
    ensures
        two_to(k) <= 0x800,
{
    let d = two_to(k);
    if k > 11 {
        assert(two_to(12) == 0x1000) by {
            reveal_with_fuel(two_to, 13);
        }
        lemma_two_to_adds(12, (k - 12) as nat);
        lemma_two_to_adds((k - 12) as nat, 0);
        let x = two_to((k - 12) as nat);
        assert(0x1000 * x >= 0x1000) by (nonlinear_arith)
            requires
                x >= 1,
        ;
    } else {
        assert(two_to(11) == 0x800) by {
            reveal_with_fuel(two_to, 12);
        }
        lemma_two_to_adds(k, (11 - k) as nat);
        lemma_two_to_adds((11 - k) as nat, 0);
        let x = two_to((11 - k) as nat);
        assert(d <= d * x) by (nonlinear_arith)
            requires
                x >= 1,
                d >= 0,
        ;
    }
}

proof fn lemma_two_to_82()
    ensures
        two_to(82) == 0x4_0000_0000_0000_0000_0000,
        two_to(29) == 0x2000_0000,
{
    assert(two_to(28) == 0x1000_0000 && two_to(26) == 0x400_0000 && two_to(29) == 0x2000_0000) by {
        reveal_with_fuel(two_to, 30);
    }
    lemma_two_to_adds(28, 28);
    lemma_two_to_adds(56, 26);
    let a = two_to(28);
    let b = two_to(26);
    assert(a * a * b == 0x4_0000_0000_0000_0000_0000) by (nonlinear_arith)
        requires
            a == 0x1000_0000,
            b == 0x400_0000,
    ;
}

/// Every bit of a fraction of a second in nanoseconds weighs at least `2^-82`.
proof fn lemma_fraction_exponent(rest: nat)
    requires
        rest < 1_000_000_000,
    ensures
        ({
            let f = nearest(rest, 1_000_000_000, 0);
            &&& -82 <= f.1 <= 0
            &&& rest > 0 ==> f.1 <= -53
            &&& rest == 0 ==> f.0 == 0
            &&& two_to((82 + f.1) as nat) <= 0x2000_0000 || f.0 == 0
        }),
{
    let q: nat = 1_000_000_000;
    assert(down_shift(rest, q) == 0);
    assert(two_to(0) == 1);
    lemma_two_to_82();
    let up = up_shift(rest, q);
    if rest == 0 {
        assert(0 * two_to(up) == 0);
        assert(half_even(0, q) == 0);
    } else {
        assert(rest * two_to(82) >= 0x10_0000_0000_0000 * q) by (nonlinear_arith)
            requires
                rest >= 1,
                two_to(82) == 0x4_0000_0000_0000_0000_0000,
                q == 1_000_000_000,
        ;
        lemma_up_shift_bound(rest, q, 82);
        lemma_up_shift(rest, q);
        // The product reaches 2^52 times a number above `rest`, so more than 52 doublings went in.
        if up < 53 {
            lemma_two_to_adds(up, (52 - up) as nat);
            lemma_two_to_adds((52 - up) as nat, 0);
            assert(two_to(26) == 0x400_0000) by {
                reveal_with_fuel(two_to, 27);
            }
            lemma_two_to_adds(26, 26);
            let c = two_to(26);
            assert(c * c == 0x10_0000_0000_0000) by (nonlinear_arith)
                requires
                    c == 0x400_0000,
            ;
            let x = two_to(up);
            let y = two_to((52 - up) as nat);
            assert(x <= 0x10_0000_0000_0000) by (nonlinear_arith)
                requires
                    x * y == 0x10_0000_0000_0000,
                    y >= 1,
                    x >= 0,
            ;
            assert(rest * x < 0x10_0000_0000_0000 * q) by (nonlinear_arith)
                requires
                    0 <= x <= 0x10_0000_0000_0000,
                    0 <= rest < q,
            ;
        }
        let e = (82 - up) as nat;
        lemma_two_to_adds(e, (29 - e) as nat);
        lemma_two_to_adds((29 - e) as nat, 0);
        let x = two_to(e);
        let y = two_to((29 - e) as nat);
        assert(x <= 0x2000_0000) by (nonlinear_arith)
            requires
                x * y == 0x2000_0000,
                y >= 1,
                x >= 0,
        ;
    }
}

/// Where one of the two shifts is in use, the other is not.
proof fn lemma_nearest_bounds(p: nat, q: nat)
    requires
        q > 0,
    ensures
        ({
            let a = p * two_to(up_shift(p, q));
            let b = q * two_to(down_shift(p, q));
            &&& b > 0
            &&& a < 0x20_0000_0000_0000 * b
            &&& p > 0 ==> a >= 0x10_0000_0000_0000 * b
            &&& half_even(a, b) <= 0x20_0000_0000_0000
            &&& p > 0 ==> half_even(a, b) >= 0x10_0000_0000_0000
        }),
{
    let a = p * two_to(up_shift(p, q));
    let b = q * two_to(down_shift(p, q));
    assert(two_to(0) == 1);
    assert(p * 1 == p);
    assert(q * 1 == q);
    if p >= 0x20_0000_0000_0000 * q {
        assert(up_shift(p, q) == 0);
        lemma_down_shift(p, q);
    } else {
        assert(down_shift(p, q) == 0);
        if p > 0 {
            lemma_up_shift(p, q);
        } else {
            assert(0 * two_to(up_shift(p, q)) == 0);
        }
    }
    lemma_half_even_bound(a, b);
}

proof fn lemma_down_shift(p: nat, q: nat)
    requires
        q > 0,
        p >= 0x10_0000_0000_0000 * q,
    ensures
        q * two_to(down_shift(p, q)) > 0,
        p < 0x20_0000_0000_0000 * (q * two_to(down_shift(p, q))),
        p >= 0x10_0000_0000_0000 * (q * two_to(down_shift(p, q))),
    decreases p - q,
{
    assert(two_to(0) == 1);
    assert(q * 1 == q);
    if p < 0x20_0000_0000_0000 * q {
    } else {
        lemma_down_shift(p, 2 * q);
        let t = two_to(down_shift(p, 2 * q));
        assert(two_to(down_shift(p, q)) == 2 * t);
        assert(q * (2 * t) == (2 * q) * t) by (nonlinear_arith);
    }
}

/// Any time but none is a positive number of seconds.
pub proof fn lemma_seconds_positive(nanos: nat)
    requires
        nanos > 0,
    ensures
        seconds(nanos).0 > 0,
{
    let whole = nanos / 1_000_000_000;
    let rest = nanos % 1_000_000_000;
    let fraction = nearest(rest, 1_000_000_000, 0);
    let unit = two_to(82);
    let weight = two_to((82 + fraction.1) as nat);
    lemma_two_to_adds(82, 0);
    lemma_two_to_adds((82 + fraction.1) as nat, 0);
    lemma_nearest_bounds(rest, 1_000_000_000);
    let f = fraction.0;
    assert(whole * unit + f * weight > 0) by (nonlinear_arith)
        requires
            unit > 0,
            weight > 0,
            whole > 0 || f > 0,
            whole >= 0,
            f >= 0,
    ;
    lemma_nearest_bounds(whole * unit + f * weight, 1);
}

// ---------------------------------------------------------------------------------------------
// Executable functions

/// The integer nearest to `p / q`, the even one where two are equally near.
pub fn half_even_of(p: u128, q: u128) -> (r: u128)
    requires
        0 < q <= 0x1_0000_0000_0000_0000_0000_0000_0000,
        p < 0x8000_0000_0000_0000_0000_0000_0000_0000,
    ensures
        r == half_even(p as nat, q as nat),
{
    let whole: u128 = p / q;
    let twice: u128 = 2 * (p % q);
    assert(whole <= p) by (nonlinear_arith)
        requires
            whole == p / q,
            q > 0,
            p >= 0,
    ;
    if twice < q || (twice == q && whole % 2 == 0) {
        whole
    } else {
        whole + 1
    }
}

/// The double nearest to `p / q * 2^scale`.
pub fn nearest_of(p: u128, q: u64, scale: i32) -> (r: Binary64)
    requires
        p < 0x80_0000_0000_0000_0000_0000_0000_0000,
        0 < q <= 0x20_0000_0000_0000,
        -1000 <= scale <= 1000,
    ensures
        r.parts() == nearest(p as nat, q as nat, scale as int),
        r.significand <= 0x20_0000_0000_0000,
        p > 0 ==> r.significand >= 0x10_0000_0000_0000,
        scale - 120 <= r.exponent <= scale + 120,
{
    let mut a: u128 = p;
    let mut up: i32 = 0;
    let ghost p0 = p as nat;
    let ghost q0 = q as nat;
    assert(two_to(0) == 1);
    assert(p0 * 1 == p0);
    while a != 0 && a < 0x10_0000_0000_0000 * (q as u128)
        invariant
            p0 == p as nat,
            q0 == q as nat,
            0 < q <= 0x20_0000_0000_0000,
            p < 0x80_0000_0000_0000_0000_0000_0000_0000,
            0 <= up <= 113,
            p > 0 ==> a >= two_to(up as nat),
            a > 0 <==> p > 0,
            a == p0 * two_to(up as nat),
            up_shift(p0, q0) == up + up_shift(a as nat, q0),
            up > 0 ==> a < 0x20_0000_0000_0000 * q0,
            a < 0x80_0000_0000_0000_0000_0000_0000_0000,
        decreases 0x20_0000_0000_0000 * q0 - a,
    {
        proof {
            let t = two_to(up as nat);
            assert(p0 * (2 * t) == 2 * (p0 * t)) by (nonlinear_arith);
            assert(two_to((up + 1) as nat) == 2 * t);
            lemma_power_small(up as nat, a as nat);
        }
        a = 2 * a;
        up = up + 1;
    }
    let mut b: u128 = q as u128;
    let mut down: i32 = 0;
    assert(q0 * 1 == q0);
    while p >= 0x20_0000_0000_0000 * b
        invariant
            p0 == p as nat,
            q0 == q as nat,
            0 < q <= 0x20_0000_0000_0000,
            p < 0x80_0000_0000_0000_0000_0000_0000_0000,
            0 <= down <= 113,
            b >= two_to(down as nat),
            b == q0 * two_to(down as nat),
            down_shift(p0, q0) == down + down_shift(p0, b as nat),
            0 < b,
            b <= 0x20_0000_0000_0000 || 0x10_0000_0000_0000 * b <= p,
        decreases p - b,
    {
        proof {
            let t = two_to(down as nat);
            assert(q0 * (2 * t) == 2 * (q0 * t)) by (nonlinear_arith);
            assert(two_to((down + 1) as nat) == 2 * t);
            lemma_power_small(down as nat, b as nat);
        }
        b = 2 * b;
        down = down + 1;
    }
    proof {
        lemma_nearest_bounds(p0, q0);
    }
    let m: u128 = half_even_of(a, b);
    Binary64 { significand: m as u64, exponent: scale + down - up }
}

/// Two to the power `k`.
pub fn two_to_of(k: u32) -> (r: u128)
    requires
        k < 112,
    ensures
        r == two_to(k as nat),
        1 <= r < 0x1_0000_0000_0000_0000_0000_0000_0000,
{
    let mut r: u128 = 1;
    let mut i: u32 = 0;
    while i < k
        invariant
            i <= k < 112,
            r == two_to(i as nat),
            r >= 1,
            r < 0x1_0000_0000_0000_0000_0000_0000_0000,
        decreases k - i,
    {
        proof {
            lemma_two_to_below_112((i + 1) as nat);
        }
        r = 2 * r;
        i = i + 1;
    }
    r
}

/// The double nearest to the integer `n`.
pub fn nearest_integer_of(n: u64) -> (r: u128)
    ensures
        r == nearest_integer(n as nat),
        r <= 0x1_0000_0000_0000_0000,
{
    let mut down: u128 = 1;
    assert(two_to(0) == 1);
    let mut k: u32 = 0;
    while (n as u128) >= 0x20_0000_0000_0000 * down
        invariant
            down == two_to(k as nat),
            down >= 1,
            k <= 64,
            k > 0 ==> 0x10_0000_0000_0000 * down <= n,
            k == 0 ==> down == 1,
            down_shift(n as nat, 1) == k + down_shift(n as nat, down as nat),
        decreases n - down,
    {
        proof {
            lemma_power_small(k as nat, down as nat);
            lemma_small_exponent(k as nat, down as nat);
        }
        down = 2 * down;
        k = k + 1;
    }
    proof {
        let d = down as nat;
        if k > 0 {
            assert(n < 0x20_0000_0000_0000 * d);
            lemma_half_even_bound(n as nat, d);
            assert(half_even(n as nat, d) * d <= 0x20_0000_0000_0000 * d) by (nonlinear_arith)
                requires
                    half_even(n as nat, d) <= 0x20_0000_0000_0000,
            ;
            lemma_top_bit(k as nat, n);
        } else {
            assert(n as nat % 1 == 0);
            assert(half_even(n as nat, 1) == n);
        }
    }
    let m: u128 = half_even_of(n as u128, down);
    assert(m * down <= 0x1_0000_0000_0000_0000);
    m * down
}

/// The double that writes `nanos` nanoseconds as seconds.
pub fn seconds_of(nanos: u64) -> (r: Binary64)
    requires
        nanos > 0,
    ensures
        r.parts() == seconds(nanos as nat),
        0x10_0000_0000_0000 <= r.significand <= 0x20_0000_0000_0000,
        -202 <= r.exponent <= 38,
{
    let whole: u64 = nanos / 1_000_000_000;
    let rest: u64 = nanos % 1_000_000_000;
    let fraction: Binary64 = nearest_of(rest as u128, 1_000_000_000, 0);
    proof {
        lemma_fraction_exponent(rest as nat);
    }
    let weight: u128 = two_to_of((82 + fraction.exponent) as u32);
    let unit: u128 = two_to_of(82);
    proof {
        lemma_two_to_82();
        assert(whole <= 18_446_744_073);
        let w = whole as nat;
        let u = unit as nat;
        let f = fraction.significand as nat;
        let g = weight as nat;
        assert(w * u <= 18_446_744_073 * u) by (nonlinear_arith)
            requires
                w <= 18_446_744_073,
                u >= 0,
        ;
        assert(f * g <= 0x20_0000_0000_0000 * 0x2000_0000) by (nonlinear_arith)
            requires
                0 <= f <= 0x20_0000_0000_0000,
                0 <= g,
                f == 0 || g <= 0x2000_0000,
        ;
        if w == 0 {
            assert(rest > 0);
            assert(f * g > 0) by (nonlinear_arith)
                requires
                    f > 0,
                    g > 0,
            ;
        } else {
            assert(w * u > 0) by (nonlinear_arith)
                requires
                    w > 0,
                    u > 0,
            ;
        }
    }
    let sum: u128 = (whole as u128) * unit + (fraction.significand as u128) * weight;
    nearest_of(sum, 1, -82)
}

/// The quotient of two doubles.
pub fn quotient_of(a: &Binary64, b: &Binary64) -> (r: Binary64)
    requires
        a.significand <= 0x20_0000_0000_0000,
        0 < b.significand <= 0x20_0000_0000_0000,
        -500 <= a.exponent <= 500,
        -500 <= b.exponent <= 500,
    ensures
        r.parts() == quotient(a.parts(), b.parts()),
        r.significand <= 0x20_0000_0000_0000,
        a.exponent - b.exponent - 120 <= r.exponent <= a.exponent - b.exponent + 120,
{
    nearest_of(a.significand as u128, b.significand, a.exponent - b.exponent)
}

/// The integer part of a double, or the largest `u64` where that is smaller.
pub fn truncated_of(a: &Binary64) -> (r: u64)
    requires
        a.significand <= 0x20_0000_0000_0000,
        -2000 <= a.exponent <= 2000,
    ensures
        r == truncated(a.parts()),
{
    let mut n: u128 = a.significand as u128;
    if a.exponent >= 0 {
        let mut i: i32 = 0;
        assert(two_to(0) == 1);
        assert(a.significand as nat * 1 == n);
        while i < a.exponent
            invariant
                0 <= i <= a.exponent,
                n == a.significand * two_to(i as nat),
                n < 0x1_0000_0000_0000_0000,
            decreases a.exponent - i,
        {
            proof {
                let s = a.significand as nat;
                let t = two_to(i as nat);
                assert(s * (2 * t) == 2 * (s * t)) by (nonlinear_arith);
                assert(two_to((i + 1) as nat) == 2 * t);
            }
            n = 2 * n;
            i = i + 1;
            if n >= 0x1_0000_0000_0000_0000 {
                proof {
                    let s = a.significand as nat;
                    lemma_two_to_adds(i as nat, (a.exponent - i) as nat);
                    lemma_two_to_adds((a.exponent - i) as nat, 0);
                    let x = two_to(i as nat);
                    let y = two_to((a.exponent - i) as nat);
                    assert(s * (x * y) >= s * x) by (nonlinear_arith)
                        requires
                            y >= 1,
                            s >= 0,
                            x >= 0,
                    ;
                }
                return u64::MAX;
            }
        }
        n as u64
    } else {
        let mut i: i32 = 0;
        assert(two_to(0) == 1);
        assert(a.significand as nat / 1 == n);
        while i > a.exponent
            invariant
                a.exponent <= i <= 0,
                n == a.significand as nat / two_to((-i) as nat),
                n <= a.significand,
            decreases i - a.exponent,
        {
            proof {
                let s = a.significand as int;
                let t = two_to((-i) as nat) as int;
                lemma_two_to_adds((-i) as nat, 0);
                assert(two_to((-i + 1) as nat) == 2 * t);
                vstd::arithmetic::div_mod::lemma_div_denominator(s, t, 2);
                assert(t * 2 == 2 * t);
            }
            n = n / 2;
            i = i - 1;
        }
        n as u64
    }
}

// ---------------------------------------------------------------------------------------------
// Laws

proof fn lemma_half_even_near(p: nat, q: nat)
    requires
        q > 0,
    ensures
        2 * (half_even(p, q) * q) <= 2 * p + q,
        2 * p <= 2 * (half_even(p, q) * q) + q,
{
    let whole = p / q;
    let rest = p % q;
    assert(p == whole * q + rest && rest < q) by (nonlinear_arith)
        requires
            whole == p / q,
            rest == p % q,
            q > 0,
    ;
    assert((whole + 1) * q == whole * q + q) by (nonlinear_arith);
}

/// A significand is near to what it stands for: one part in 2^53 at most.
proof fn lemma_near(p: nat, q: nat)
    requires
        p > 0,
        q > 0,
    ensures
        ({
            let h = nearest(p, q, 0).0;
            let a = p * two_to(up_shift(p, q));
            let b = q * two_to(down_shift(p, q));
            &&& 0x20_0000_0000_0000 * (h * b) <= 0x20_0000_0000_0001 * a
            &&& 0x1f_ffff_ffff_ffff * a <= 0x20_0000_0000_0000 * (h * b)
            &&& 0 < h <= 0x20_0000_0000_0000
        }),
{
    let a = p * two_to(up_shift(p, q));
    let b = q * two_to(down_shift(p, q));
    lemma_nearest_bounds(p, q);
    lemma_half_even_near(a, b);
}

proof fn lemma_scaled(u: int, v: int, c: int)
    requires
        u <= v,
        c >= 0,
    ensures
        u * c <= v * c,
{
    assert(u * c <= v * c) by (nonlinear_arith)
        requires
            u <= v,
            c >= 0,
    ;
}

proof fn lemma_cancelled(u: int, v: int, c: int)
    requires
        u * c <= v * c,
        c > 0,
    ensures
        u <= v,
{
    assert(u <= v) by (nonlinear_arith)
        requires
            u * c <= v * c,
            c > 0,
    ;
}

/// Seconds are near to the nanoseconds they stand for.
proof fn lemma_sum_near(time: nat)
    requires
        time > 0,
    ensures
        ({
            let f = nearest(time % 1_000_000_000, 1_000_000_000, 0);
            let sum = time / 1_000_000_000 * two_to(82) + f.0 * two_to((82 + f.1) as nat);
            &&& sum > 0
            &&& 0x20_0000_0000_0000 * (1_000_000_000 * sum) <= 0x20_0000_0000_0001 * (time
                * two_to(82))
            &&& 0x1f_ffff_ffff_ffff * (time * two_to(82)) <= 0x20_0000_0000_0000 * (1_000_000_000
                * sum)
        }),
{
    let whole = time / 1_000_000_000;
    let rest = time % 1_000_000_000;
    let g: nat = 1_000_000_000;
    let f = nearest(rest, g, 0);
    let unit = two_to(82);
    let up = up_shift(rest, g);
    lemma_fraction_exponent(rest);
    lemma_two_to_adds(82, 0);
    assert(down_shift(rest, g) == 0);
    assert(two_to(0) == 1);
    assert(f.1 == -(up as int));
    let weight = two_to((82 + f.1) as nat);
    lemma_two_to_adds((82 + f.1) as nat, up);
    lemma_two_to_adds(up, 0);
    let raised = two_to(up);
    assert(weight * raised == unit);
    let part = f.0 * weight;
    let a = rest * raised;
    let h = f.0;
    if rest > 0 {
        lemma_near(rest, g);
        assert(g * 1 == g);
        lemma_scaled(
            (0x20_0000_0000_0000 * (h * g)) as int,
            (0x20_0000_0000_0001 * a) as int,
            weight as int,
        );
        lemma_scaled(
            (0x1f_ffff_ffff_ffff * a) as int,
            (0x20_0000_0000_0000 * (h * g)) as int,
            weight as int,
        );
    } else {
        assert(0 * raised == 0);
        assert(h == 0);
    }
    assert((0x20_0000_0000_0000 * (h * g)) * weight == 0x20_0000_0000_0000 * (g * part))
        by (nonlinear_arith)
        requires
            part == h * weight,
    ;
    assert(a * weight == rest * unit) by (nonlinear_arith)
        requires
            a == rest * raised,
            weight * raised == unit,
    ;
    assert((0x20_0000_0000_0001 * a) * weight == 0x20_0000_0000_0001 * (rest * unit))
        by (nonlinear_arith)
        requires
            a * weight == rest * unit,
    ;
    assert((0x1f_ffff_ffff_ffff * a) * weight == 0x1f_ffff_ffff_ffff * (rest * unit))
        by (nonlinear_arith)
        requires
            a * weight == rest * unit,
    ;
    if rest == 0 {
        assert(part == 0) by (nonlinear_arith)
            requires
                part == h * weight,
                h == 0,
        ;
        assert(rest * unit == 0) by (nonlinear_arith)
            requires
                rest == 0,
        ;
    }
    let sum = whole * unit + part;
    assert(time * unit == 1_000_000_000 * (whole * unit) + rest * unit) by (nonlinear_arith)
        requires
            time == 1_000_000_000 * whole + rest,
    ;
    assert(whole * unit >= 0) by (nonlinear_arith)
        requires
            whole >= 0,
            unit >= 0,
    ;
    assert(whole > 0 ==> whole * unit > 0) by (nonlinear_arith)
        requires
            unit > 0,
    ;
    assert(rest > 0 ==> part > 0) by {
        if rest > 0 {
            assert(h * weight > 0) by (nonlinear_arith)
                requires
                    h > 0,
                    weight > 0,
            ;
        }
    }
}

proof fn lemma_twice(al: int, be: int, u: int, a: int, z: int, x: int, w: int)
    requires
        al * u <= be * (a * z),
        al * (a * x) <= be * w,
        al >= 0,
        be >= 0,
        x >= 0,
        z >= 0,
    ensures
        (al * al) * (u * x) <= (be * be) * (w * z),
{
    lemma_product(al, x);
    lemma_product(be, z);
    lemma_scaled(al * u, be * (a * z), al * x);
    lemma_scaled(al * (a * x), be * w, be * z);
    assert((al * u) * (al * x) == (al * al) * (u * x)) by (nonlinear_arith);
    assert((be * (a * z)) * (al * x) == (al * (a * x)) * (be * z)) by (nonlinear_arith);
    assert((be * w) * (be * z) == (be * be) * (w * z)) by (nonlinear_arith);
}

proof fn lemma_linked(l: int, m: int, h: int, u: int, b: int, v: int, w: int, r: int)
    requires
        l * u <= m * (b * v),
        m * (b * w) <= h * r,
        v >= 0,
        w >= 0,
    ensures
        l * (u * w) <= h * (r * v),
{
    lemma_scaled(l * u, m * (b * v), w);
    lemma_scaled(m * (b * w), h * r, v);
    assert((l * u) * w == l * (u * w)) by (nonlinear_arith);
    assert((m * (b * v)) * w == (m * (b * w)) * v) by (nonlinear_arith);
    assert((h * r) * v == h * (r * v)) by (nonlinear_arith);
}

proof fn lemma_product(a: int, b: int)
    requires
        a >= 0,
        b >= 0,
    ensures
        a * b >= 0,
{
    assert(a * b >= 0) by (nonlinear_arith)
        requires
            a >= 0,
            b >= 0,
    ;
}

/// Puts the four roundings together, for a quotient `q` of `a` by `b`.
proof fn lemma_chain(
    lo: int,
    m: int,
    hi: int,
    g: int,
    q: int,
    a: int,
    b: int,
    sum: int,
    bytes: int,
    time: int,
    p: int,
    x: int,
    x1: int,
    y: int,
    y1: int,
    z: int,
    z1: int,
)
    requires
        lo >= 0 && m >= 0 && hi >= 0 && g >= 0 && q >= 0,
        p >= 0 && x >= 0 && x1 >= 0 && y >= 0 && y1 >= 0 && z >= 0 && z1 >= 0,
        lo * (time * p) <= m * (g * sum) <= hi * (time * p),
        lo * (sum * y) <= m * (b * y1) <= hi * (sum * y),
        lo * (a * z) <= m * (q * (b * z1)) <= hi * (a * z),
        lo * (bytes * x) <= m * (a * x1) <= hi * (bytes * x),
    ensures
        (lo * lo) * ((q * time) * (x1 * y * z1 * p)) <= (hi * hi) * ((g * bytes) * (x * y1 * z)),
        (lo * lo) * ((g * bytes) * (x * y1 * z)) <= (hi * hi) * ((q * time) * (x1 * y * z1 * p)),
{
    let u = (time * p) * y;
    let v = y1 * g;
    let w = q * (z1 * x1);
    let r = (bytes * x) * z;
    assert(g * sum == sum * g) by (nonlinear_arith);
    assert((b * y1) * g == b * v) by (nonlinear_arith)
        requires
            v == y1 * g,
    ;
    assert((q * (b * z1)) * x1 == b * w) by (nonlinear_arith)
        requires
            w == q * (z1 * x1),
    ;
    lemma_twice(lo, m, time * p, sum, g, y, b * y1);
    lemma_twice(m, hi, q * (b * z1), a, z, x1, bytes * x);
    lemma_twice(m, hi, b * y1, sum, y, g, time * p);
    lemma_twice(lo, m, bytes * x, a, x1, z, q * (b * z1));
    lemma_product(y1, g);
    lemma_product(z1, x1);
    lemma_product(q, z1 * x1);
    lemma_linked(lo * lo, m * m, hi * hi, u, b, v, w, r);
    lemma_linked(lo * lo, m * m, hi * hi, r, b, w, v, u);
    lemma_regrouped(q, time, x1, y, z1, p);
    lemma_regrouped_other(g, bytes, x, y1, z);
    assert(u * w == w * u && r * v == v * r) by (nonlinear_arith);
}

proof fn lemma_regrouped(q: int, time: int, x1: int, y: int, z1: int, p: int)
    ensures
        ((time * p) * y) * (q * (z1 * x1)) == (q * time) * (x1 * y * z1 * p),
{
    let c = z1 * x1;
    let d = p * y;
    assert((time * p) * y == time * d) by (nonlinear_arith)
        requires
            d == p * y,
    ;
    assert((time * d) * (q * c) == (q * time) * (c * d)) by (nonlinear_arith);
    assert(x1 * y * z1 * p == (z1 * x1) * (p * y)) by (nonlinear_arith);
}

proof fn lemma_regrouped_other(g: int, bytes: int, x: int, y1: int, z: int)
    ensures
        ((bytes * x) * z) * (y1 * g) == (g * bytes) * (x * y1 * z),
{
    let c = x * z;
    assert((bytes * x) * z == bytes * c) by (nonlinear_arith)
        requires
            c == x * z,
    ;
    assert((bytes * c) * (y1 * g) == (g * bytes) * (c * y1)) by (nonlinear_arith);
    assert((x * z) * y1 == x * y1 * z) by (nonlinear_arith);
}

/// The quotient of bytes by seconds before it is cut to an integer: `t` and `s` are the powers of
/// two by which its significand is multiplied and divided.
proof fn lemma_quotient_near(bytes: nat, time: nat, t: nat, s: nat)
    requires
        bytes > 0,
        time > 0,
        ({
            let e = quotient(nearest(bytes, 1, 0), seconds(time)).1;
            &&& e >= 0 ==> t == two_to(e as nat) && s == 1
            &&& e < 0 ==> t == 1 && s == two_to((-e) as nat)
        }),
    ensures
        ({
            let q = quotient(nearest(bytes, 1, 0), seconds(time)).0;
            &&& 0 < q <= 0x20_0000_0000_0000
            &&& t > 0 && s > 0
            &&& 0x1f_ffff_ffff_ffff * 0x1f_ffff_ffff_ffff * (q * t * time) <= 0x20_0000_0000_0001
                * 0x20_0000_0000_0001 * (1_000_000_000 * bytes) * s
            &&& 0x1f_ffff_ffff_ffff * 0x1f_ffff_ffff_ffff * (1_000_000_000 * bytes) * s
                <= 0x20_0000_0000_0001 * 0x20_0000_0000_0001 * (q * t * time)
        }),
{
    let a = nearest(bytes, 1, 0);
    let b = seconds(time);
    let f = nearest(time % 1_000_000_000, 1_000_000_000, 0);
    let sum = time / 1_000_000_000 * two_to(82) + f.0 * two_to((82 + f.1) as nat);
    lemma_sum_near(time);
    let q = quotient(a, b);
    lemma_near(bytes, 1);
    lemma_near(sum, 1);
    assert(b.0 == nearest(sum, 1, 0).0);
    lemma_near(a.0, b.0);
    assert(q.0 == nearest(a.0, b.0, 0).0);
    let (ua, da) = (up_shift(bytes, 1), down_shift(bytes, 1));
    let (ub, db) = (up_shift(sum, 1), down_shift(sum, 1));
    let (uq, dq) = (up_shift(a.0, b.0), down_shift(a.0, b.0));
    let (x, x1) = (two_to(ua), two_to(da));
    let (y, y1) = (two_to(ub), two_to(db));
    let (z, z1) = (two_to(uq), two_to(dq));
    let p = two_to(82);
    lemma_two_to_adds(ua, 0);
    lemma_two_to_adds(da, 0);
    lemma_two_to_adds(ub, 0);
    lemma_two_to_adds(db, 0);
    lemma_two_to_adds(uq, 0);
    lemma_two_to_adds(dq, 0);
    lemma_two_to_adds(82, 0);
    assert(1 * x1 == x1 && 1 * y1 == y1);
    assert(q.0 * (b.0 * z1) >= 0);
    let e = q.1;
    assert(e == (da - ua) - (-82 + db - ub) + dq - uq);
    let te = if e >= 0 {
        e as nat
    } else {
        0
    };
    let se = if e < 0 {
        (-e) as nat
    } else {
        0
    };
    assert(two_to(0) == 1);
    assert(t == two_to(te) && s == two_to(se));
    lemma_two_to_adds(te, 0);
    lemma_two_to_adds(se, 0);
    // Both sides are the same power of two.
    lemma_two_to_adds(te, ua);
    lemma_two_to_adds(te + ua, db);
    lemma_two_to_adds(te + ua + db, uq);
    lemma_two_to_adds(da, ub);
    lemma_two_to_adds(da + ub, dq);
    lemma_two_to_adds(da + ub + dq, 82);
    lemma_two_to_adds(se, da + ub + dq + 82);
    let k = x1 * y * z1 * p;
    assert(t * x * y1 * z == two_to(te + ua + db + uq));
    assert(k == two_to(da + ub + dq + 82));
    assert(te + ua + db + uq == se + (da + ub + dq + 82));
    assert(t * x * y1 * z == s * k);
    lemma_two_to_adds(da + ub + dq + 82, 0);
    let m: int = 0x20_0000_0000_0000;
    let lo: int = 0x1f_ffff_ffff_ffff;
    let hi: int = 0x20_0000_0000_0001;
    let g: int = 1_000_000_000;
    assert(q.0 * (b.0 * z1) == q.0 * (b.0 * z1));
    lemma_chain(
        lo,
        m,
        hi,
        g,
        q.0 as int,
        a.0 as int,
        b.0 as int,
        sum as int,
        bytes as int,
        time as int,
        p as int,
        x as int,
        x1 as int,
        y as int,
        y1 as int,
        z as int,
        z1 as int,
    );
    let n = q.0 * time;
    let d = g * bytes;
    let v = x * y1 * z;
    assert(t * x * y1 * z == t * v) by (nonlinear_arith)
        requires
            v == x * y1 * z,
    ;
    lemma_rescaled(lo * lo, hi * hi, n as int, k as int, d, v as int, t as int, s as int);
    assert((q.0 * time) * t == q.0 * t * time) by (nonlinear_arith);
    assert(hi * hi * d * s == (hi * hi) * (d * s)) by (nonlinear_arith);
    assert(lo * lo * d * s == (lo * lo) * (d * s)) by (nonlinear_arith);
}

proof fn lemma_rescaled(l: int, h: int, n: int, k: int, d: int, v: int, t: int, s: int)
    requires
        l * (n * k) <= h * (d * v),
        l * (d * v) <= h * (n * k),
        t * v == s * k,
        t > 0,
        k > 0,
    ensures
        l * (n * t) <= h * (d * s),
        l * (d * s) <= h * (n * t),
{
    lemma_scaled(l * (n * k), h * (d * v), t);
    lemma_scaled(l * (d * v), h * (n * k), t);
    assert((l * (n * k)) * t == (l * (n * t)) * k) by (nonlinear_arith);
    assert((h * (n * k)) * t == (h * (n * t)) * k) by (nonlinear_arith);
    let w = t * v;
    assert((h * (d * v)) * t == (h * d) * w) by (nonlinear_arith)
        requires
            w == t * v,
    ;
    assert((l * (d * v)) * t == (l * d) * w) by (nonlinear_arith)
        requires
            w == t * v,
    ;
    assert((h * d) * (s * k) == (h * (d * s)) * k) by (nonlinear_arith);
    assert((l * d) * (s * k) == (l * (d * s)) * k) by (nonlinear_arith);
    lemma_cancelled(l * (n * t), h * (d * s), k);
    lemma_cancelled(l * (d * s), h * (n * t), k);
}

/// Bytes per second are the bytes divided by the time, cut to an integer, up to one part in 2^50
/// that rounding may add or take; they are cut off at what 64 bits hold.
pub proof fn law_per_second(bytes: nat, time: nat)
    requires
        bytes > 0,
        time > 0,
    ensures
        ({
            let r = truncated(quotient(nearest(bytes, 1, 0), seconds(time)));
            &&& r <= u64::MAX
            &&& 0x4_0000_0000_0000 * (r * time) <= 0x4_0000_0000_0001 * (1_000_000_000 * bytes)
            &&& r < u64::MAX ==> 0x3_ffff_ffff_ffff * (1_000_000_000 * bytes) <= 0x4_0000_0000_0000
                * ((r + 1) * time)
        }),
{
    let q = quotient(nearest(bytes, 1, 0), seconds(time));
    let r = truncated(q);
    let e = q.1;
    let t = if e >= 0 {
        two_to(e as nat)
    } else {
        1
    };
    let s = if e < 0 {
        two_to((-e) as nat)
    } else {
        1
    };
    lemma_quotient_near(bytes, time, t, s);
    let n = q.0 * t;
    let d = 1_000_000_000 * bytes;
    assert(r * s <= n && (r < u64::MAX ==> n <= (r + 1) * s) && r <= u64::MAX) by {
        if e < 0 {
            let h = q.0;
            assert(h == r * s + h % s && h % s < s) by (nonlinear_arith)
                requires
                    r == h / s,
                    s > 0,
            ;
            assert((r + 1) * s == r * s + s) by (nonlinear_arith);
            assert(r <= h) by (nonlinear_arith)
                requires
                    r * s <= h,
                    s > 0,
                    r >= 0,
            ;
        }
    }
    // Above.
    lemma_scaled((r * s) as int, n as int, time as int);
    assert((r * s) * time == (r * time) * s) by (nonlinear_arith);
    let lo: int = 0x1f_ffff_ffff_ffffint * 0x1f_ffff_ffff_ffffint;
    let hi: int = 0x20_0000_0000_0001int * 0x20_0000_0000_0001int;
    lemma_scaled(((r * time) * s) as int, (n * time) as int, lo);
    assert(((r * time) * s) * lo == (lo * (r * time)) * s) by (nonlinear_arith);
    assert((n * time) * lo == lo * (n * time)) by (nonlinear_arith);
    lemma_cancelled(lo * (r * time), hi * d, s as int);
    lemma_rounded((r * time) as int, d as int);
    // Below.
    if r < u64::MAX {
        lemma_scaled(n as int, ((r + 1) * s) as int, time as int);
        assert(((r + 1) * s) * time == ((r + 1) * time) * s) by (nonlinear_arith);
        lemma_scaled((n * time) as int, (((r + 1) * time) * s) as int, hi);
        assert((((r + 1) * time) * s) * hi == (hi * ((r + 1) * time)) * s) by (nonlinear_arith);
        assert((n * time) * hi == hi * (n * time)) by (nonlinear_arith);
        lemma_cancelled(lo * d, hi * ((r + 1) * time), s as int);
        lemma_rounded_below(((r + 1) * time) as int, d as int);
    }
}

proof fn lemma_rounded(x: int, d: int)
    requires
        0x3ff_ffff_ffff_ffc0_0000_0000_0001 * x <= 0x400_0000_0000_0040_0000_0000_0001 * d,
        d >= 0,
    ensures
        0x4_0000_0000_0000 * x <= 0x4_0000_0000_0001 * d,
{
}

proof fn lemma_rounded_below(y: int, d: int)
    requires
        0x3ff_ffff_ffff_ffc0_0000_0000_0001 * d <= 0x400_0000_0000_0040_0000_0000_0001 * y,
        d >= 0,
    ensures
        0x3_ffff_ffff_ffff * d <= 0x4_0000_0000_0000 * y,
{
}

} // verus!
