//! Exact integer model of IEEE 754 binary64 round-to-nearest, the arithmetic
//! that token counts go through on their way to one decimal place.
//!
//! A binary64 number in the normal range is `m * 2^e` with a 53-bit
//! significand `m`. Converting an integer, or dividing two such numbers,
//! yields the representable value nearest to the exact result, ties going to
//! the even significand. Printing with one fractional digit rounds the exact
//! binary value to the nearest tenth, ties again to even.

use vstd::prelude::*;

use vstd::arithmetic::div_mod::{
    lemma_fundamental_div_mod, lemma_fundamental_div_mod_converse, lemma_mod_pos_bound,
};

verus! {

/// `2^n`.
pub open spec fn two_pow(n: nat) -> nat
    decreases n,
{
    if n == 0 {
        1
    } else {
        2 * two_pow((n - 1) as nat)
    }
}

/// Number of binary digits of `n` (0 for 0).
pub open spec fn bit_len(n: nat) -> nat
    decreases n,
{
    if n == 0 {
        0
    } else {
        1 + bit_len(n / 2)
    }
}

/// `a / b` rounded to the nearest integer, ties to the even one.
pub open spec fn div_round_even(a: nat, b: nat) -> nat
    recommends
        b > 0,
{
    let q = a / b;
    let r = a % b;
    if 2 * r > b || (2 * r == b && q % 2 == 1) {
        q + 1
    } else {
        q
    }
}

/// The binary64 number nearest to `p / q` (ties to even), as a pair
/// `(m, e)` standing for `m * 2^e`, for `p / q >= 1` in the normal range.
///
/// With `L` the bit length of `p / q`, `2^(L-1) <= p / q < 2^L`; scaling by
/// `2^(53 - L)` brings the quotient into `[2^52, 2^53)`, where it is rounded
/// to an integer significand.
pub open spec fn nearest_binary64(p: nat, q: nat) -> (nat, int) {
    let shift: int = 53 - bit_len(p / q);
    if shift >= 0 {
        (div_round_even(p * two_pow(shift as nat), q), -shift)
    } else {
        (div_round_even(p, q * two_pow((-shift) as nat)), -shift)
    }
}

/// `m * 2^e` written as a fraction `(numerator, denominator)`.
pub open spec fn exact_fraction(m: nat, e: int) -> (nat, nat) {
    if e >= 0 {
        (m * two_pow(e as nat), 1)
    } else {
        (m, two_pow((-e) as nat))
    }
}

/// The value that `format!("{:.1}", count as f64 / unit as f64)` prints, in
/// tenths: the count is rounded to binary64, divided with rounding, and the
/// quotient rounded to the nearest tenth.
pub open spec fn displayed_tenths(count: nat, unit: nat) -> nat {
    let c = nearest_binary64(count, 1);
    let cf = exact_fraction(c.0, c.1);
    let v = nearest_binary64(cf.0, cf.1 * unit);
    let vf = exact_fraction(v.0, v.1);
    div_round_even(10 * vf.0, vf.1)
}

pub proof fn lemma_two_pow_pos(n: nat)
    ensures
        two_pow(n) > 0,
    decreases n,
{
    if n > 0 {
        lemma_two_pow_pos((n - 1) as nat);
    }
}

pub proof fn lemma_two_pow_add(a: nat, b: nat)
    ensures
        two_pow(a + b) == two_pow(a) * two_pow(b),
    decreases a,
{
    if a > 0 {
        lemma_two_pow_add((a - 1) as nat, b);
        let x = two_pow((a - 1) as nat);
        let y = two_pow(b);
        assert(two_pow(a + b) == 2 * two_pow((a - 1 + b) as nat));
        assert(two_pow(a) == 2 * x);
        assert(2 * (x * y) == (2 * x) * y) by (nonlinear_arith);
    } else {
        let y = two_pow(b);
        assert(two_pow(a) == 1);
        assert(1 * y == y) by (nonlinear_arith);
    }
}

pub proof fn lemma_two_pow_mono(a: nat, b: nat)
    requires
        a <= b,
    ensures
        two_pow(a) <= two_pow(b),
{
    lemma_two_pow_add(a, (b - a) as nat);
    lemma_two_pow_pos(a);
    lemma_two_pow_pos((b - a) as nat);
    let x = two_pow(a);
    let y = two_pow((b - a) as nat);
    assert(x <= x * y) by (nonlinear_arith)
        requires
            x > 0,
            y > 0,
    ;
}

/// The powers of two that bound the computations below.
pub proof fn lemma_two_pow_values()
    ensures
        two_pow(11) == 2048,
        two_pow(13) == 8192,
        two_pow(16) == 65536,
        two_pow(32) == 0x1_0000_0000,
        two_pow(53) == 0x20_0000_0000_0000,
        two_pow(64) == 0x1_0000_0000_0000_0000,
        two_pow(66) == 0x4_0000_0000_0000_0000,
        two_pow(73) == 0x200_0000_0000_0000_0000,
        two_pow(127) == 0x8000_0000_0000_0000_0000_0000_0000_0000,
{
    reveal_with_fuel(two_pow, 17);
    lemma_two_pow_add(16, 16);
    lemma_two_pow_add(32, 32);
    lemma_two_pow_add(53, 11);
    lemma_two_pow_add(53, 13);
    lemma_two_pow_add(64, 2);
    lemma_two_pow_add(64, 9);
    lemma_two_pow_add(64, 63);
    lemma_two_pow_add(32, 31);
    let a = two_pow(16);
    assert(a * a == 0x1_0000_0000) by (nonlinear_arith)
        requires
            a == 65536,
    ;
    let b = two_pow(32);
    assert(b * b == 0x1_0000_0000_0000_0000) by (nonlinear_arith)
        requires
            b == 0x1_0000_0000,
    ;
    assert(two_pow(9) == 512);
    assert(two_pow(2) == 4);
    assert(two_pow(31) * 2 == two_pow(32));
    let c = two_pow(31);
    assert(b * c == 0x8000_0000_0000_0000) by (nonlinear_arith)
        requires
            b == 0x1_0000_0000,
            c == 0x8000_0000,
    ;
    let d = two_pow(64);
    let f = two_pow(63);
    assert(d * f == 0x8000_0000_0000_0000_0000_0000_0000_0000) by (nonlinear_arith)
        requires
            d == 0x1_0000_0000_0000_0000,
            f == 0x8000_0000_0000_0000,
    ;
    let g = two_pow(53);
    assert(g * 2048 == 0x1_0000_0000_0000_0000 ==> g == 0x20_0000_0000_0000);
}

/// `2^(L-1) <= n < 2^L` for the bit length `L` of `n > 0`.
pub proof fn lemma_bit_len_bounds(n: nat)
    ensures
        n < two_pow(bit_len(n)),
        n > 0 ==> two_pow((bit_len(n) - 1) as nat) <= n,
    decreases n,
{
    if n > 0 {
        lemma_bit_len_bounds(n / 2);
        if n / 2 > 0 {
            assert(bit_len(n / 2) >= 1);
        }
    }
}

pub proof fn lemma_bit_len_le(n: nat, k: nat)
    requires
        n < two_pow(k),
    ensures
        bit_len(n) <= k,
{
    lemma_bit_len_bounds(n);
    if bit_len(n) > k {
        lemma_two_pow_mono(k, (bit_len(n) - 1) as nat);
    }
}

/// The rounded quotient is within half of `b` of `a`: `|2a - 2qb| <= b`.
pub proof fn lemma_div_round_even_close(a: nat, b: nat)
    requires
        b > 0,
    ensures
        2 * a <= 2 * div_round_even(a, b) * b + b,
        2 * div_round_even(a, b) * b <= 2 * a + b,
{
    let q = a / b;
    let r = a % b;
    lemma_fundamental_div_mod(a as int, b as int);
    lemma_mod_pos_bound(a as int, b as int);
    if 2 * r > b || (2 * r == b && q % 2 == 1) {
        assert(2 * a <= 2 * (q + 1) * b + b && 2 * (q + 1) * b <= 2 * a + b) by (nonlinear_arith)
            requires
                a == b * q + r,
                r < b,
                2 * r >= b,
        ;
    } else {
        assert(2 * a <= 2 * q * b + b && 2 * q * b <= 2 * a + b) by (nonlinear_arith)
            requires
                a == b * q + r,
                0 <= r,
                2 * r <= b,
        ;
    }
}

/// Division by one needs no rounding.
pub proof fn lemma_div_round_even_by_one(a: nat)
    ensures
        div_round_even(a, 1) == a,
{
    lemma_fundamental_div_mod(a as int, 1);
    lemma_mod_pos_bound(a as int, 1);
}

/// A common factor of numerator and denominator leaves the quotient alone.
pub proof fn lemma_div_cancel(n: nat, d: nat, k: nat)
    requires
        d > 0,
        k > 0,
    ensures
        (n * k) / (k * d) == n / d,
{
    lemma_fundamental_div_mod(n as int, d as int);
    lemma_mod_pos_bound(n as int, d as int);
    let q = n / d;
    let r = n % d;
    assert(n * k == q * (k * d) + r * k && 0 <= r * k < k * d) by (nonlinear_arith)
        requires
            n == d * q + r,
            0 <= r < d,
            k > 0,
    ;
    lemma_fundamental_div_mod_converse((n * k) as int, (k * d) as int, q as int, (r * k) as int);
}

/// For a count below `2^53` (exact in binary64) whose quotient by `unit`
/// stays below `2^44`, the displayed tenths are within 0.51 of a tenth of
/// the exact quotient: `100 * |10 * n - t * unit| <= 51 * unit`.
pub proof fn lemma_displayed_tenths_close(n: nat, unit: nat)
    requires
        1 <= n < two_pow(53),
        unit > 0,
        n / unit < two_pow(44),
    ensures
        100 * (10 * n - displayed_tenths(n, unit) * unit) <= 51 * unit,
        100 * (displayed_tenths(n, unit) * unit - 10 * n) <= 51 * unit,
{
    lemma_bit_len_le(n, 53);
    lemma_bit_len_bounds(n);
    let s1: nat = (53 - bit_len(n)) as nat;
    let k: nat = two_pow(s1);
    lemma_two_pow_pos(s1);
    assert(n / 1 == n);
    lemma_div_round_even_by_one(n * k);
    let c = nearest_binary64(n, 1);
    assert(c.0 == n * k && c.1 == -(s1 as int));
    let cf = exact_fraction(c.0, c.1);
    if s1 == 0 {
        assert(k == 1);
        assert(two_pow(0) == 1);
        assert(n * k * 1 == n * k) by (nonlinear_arith);
    }
    assert(cf.0 == n * k && cf.1 == k);
    let p = n * k;
    let q = k * unit;
    lemma_div_cancel(n, unit, k);
    assert(p / q == n / unit);
    lemma_bit_len_le(n / unit, 44);
    let s2: nat = (53 - bit_len(n / unit)) as nat;
    let big_s: nat = two_pow(s2);
    lemma_two_pow_mono(9, s2);
    lemma_two_pow_values();
    assert(two_pow(9) == 512) by {
        reveal_with_fuel(two_pow, 10);
    }
    assert(q > 0) by (nonlinear_arith)
        requires
            k > 0,
            unit > 0,
            q == k * unit,
    ;
    let v = nearest_binary64(p, q);
    let m2: nat = div_round_even(p * big_s, q);
    assert(v.0 == m2 && v.1 == -(s2 as int));
    let vf = exact_fraction(v.0, v.1);
    assert(vf.0 == m2 && vf.1 == big_s);
    let t: nat = div_round_even(10 * m2, big_s);
    assert(displayed_tenths(n, unit) == t);
    lemma_div_round_even_close(p * big_s, q);
    lemma_div_round_even_close(10 * m2, big_s);
    let ni: int = n as int;
    let ui: int = unit as int;
    let si: int = big_s as int;
    let mi: int = m2 as int;
    let ti: int = t as int;
    let ki: int = k as int;
    // |2 n S - 2 m2 unit| <= unit, after cancelling k
    assert(2 * ni * si - 2 * mi * ui <= ui && 2 * mi * ui - 2 * ni * si <= ui) by (nonlinear_arith)
        requires
            2 * (ni * ki * si) <= 2 * mi * (ki * ui) + ki * ui,
            2 * mi * (ki * ui) <= 2 * (ni * ki * si) + ki * ui,
            ki > 0,
    ;
    // |20 m2 - 2 t S| <= S
    assert(20 * mi - 2 * ti * si <= si && 2 * ti * si - 20 * mi <= si);
    // combined: 2 S |10 n - t unit| <= (S + 10) unit
    assert(2 * si * (10 * ni - ti * ui) <= (si + 10) * ui && 2 * si * (ti * ui - 10 * ni) <= (si
        + 10) * ui) by (nonlinear_arith)
        requires
            2 * ni * si - 2 * mi * ui <= ui,
            2 * mi * ui - 2 * ni * si <= ui,
            20 * mi - 2 * ti * si <= si,
            2 * ti * si - 20 * mi <= si,
            ui > 0,
    ;
    assert(100 * (10 * ni - ti * ui) <= 51 * ui && 100 * (ti * ui - 10 * ni) <= 51 * ui)
        by (nonlinear_arith)
        requires
            2 * si * (10 * ni - ti * ui) <= (si + 10) * ui,
            2 * si * (ti * ui - 10 * ni) <= (si + 10) * ui,
            si >= 512,
            ui > 0,
    ;
}

/// Counts from `2^53` on are rounded to binary64 before they are divided;
/// shown in millions they still stay within 0.53 of a tenth of the exact
/// quotient: `100 * |10 * n - t * 10^6| <= 53 * 10^6`.
pub proof fn lemma_displayed_millions_close_large(n: nat)
    requires
        two_pow(53) <= n < two_pow(64),
    ensures
        100 * (10 * n - displayed_tenths(n, 1_000_000) * 1_000_000) <= 53 * 1_000_000,
        100 * (displayed_tenths(n, 1_000_000) * 1_000_000 - 10 * n) <= 53 * 1_000_000,
{
    lemma_two_pow_values();
    lemma_bit_len_le(n, 64);
    lemma_bit_len_bounds(n);
    if bit_len(n) <= 53 {
        lemma_two_pow_mono(bit_len(n), 53);
    }
    let h: nat = (bit_len(n) - 53) as nat;
    let big_h: nat = two_pow(h);
    lemma_two_pow_mono(h, 11);
    lemma_two_pow_pos(h);
    assert(n / 1 == n);
    assert(1 * big_h == big_h);
    let m1: nat = div_round_even(n, big_h);
    let c = nearest_binary64(n, 1);
    assert(c.0 == m1 && c.1 == h as int);
    let cf = exact_fraction(c.0, c.1);
    let cn: nat = m1 * big_h;
    assert(cf.0 == cn && cf.1 == 1);
    lemma_div_round_even_close(n, big_h);
    // |n - cn| <= H / 2 <= 1024
    assert(2 * n <= 2 * cn + big_h && 2 * cn <= 2 * n + big_h) by (nonlinear_arith)
        requires
            2 * n <= 2 * m1 * big_h + big_h,
            2 * m1 * big_h <= 2 * n + big_h,
            cn == m1 * big_h,
    ;
    let u: nat = 1_000_000;
    assert(1 * u == u);
    assert(cn / u < two_pow(45)) by {
        lemma_two_pow_add(45, 19);
        lemma_two_pow_add(64, 2);
        assert(two_pow(19) == 0x8_0000) by {
            reveal_with_fuel(two_pow, 20);
        }
        assert(two_pow(45) == 0x2000_0000_0000);
    }
    lemma_bit_len_le(cn / u, 45);
    let s2: nat = (53 - bit_len(cn / u)) as nat;
    let big_s: nat = two_pow(s2);
    lemma_two_pow_mono(8, s2);
    assert(two_pow(8) == 256) by {
        reveal_with_fuel(two_pow, 9);
    }
    let v = nearest_binary64(cn, u);
    let m2: nat = div_round_even(cn * big_s, u);
    assert(v.0 == m2 && v.1 == -(s2 as int));
    let vf = exact_fraction(v.0, v.1);
    assert(vf.0 == m2 && vf.1 == big_s);
    let t: nat = div_round_even(10 * m2, big_s);
    assert(displayed_tenths(n, u) == t);
    lemma_div_round_even_close(cn * big_s, u);
    lemma_div_round_even_close(10 * m2, big_s);
    let ni: int = n as int;
    let ci: int = cn as int;
    let hi: int = big_h as int;
    let si: int = big_s as int;
    let mi: int = m2 as int;
    let ti: int = t as int;
    assert(20 * mi - 2 * ti * si <= si && 2 * ti * si - 20 * mi <= si);
    assert(200 * si * (10 * ni - ti * 1_000_000) <= 106 * si * 1_000_000 && 200 * si * (ti
        * 1_000_000 - 10 * ni) <= 106 * si * 1_000_000) by (nonlinear_arith)
        requires
            2 * (ci * si) <= 2 * mi * 1_000_000 + 1_000_000,
            2 * mi * 1_000_000 <= 2 * (ci * si) + 1_000_000,
            20 * mi - 2 * ti * si <= si,
            2 * ti * si - 20 * mi <= si,
            2 * ni <= 2 * ci + hi,
            2 * ci <= 2 * ni + hi,
            hi <= 2048,
            si >= 256,
    ;
    assert(100 * (10 * ni - ti * 1_000_000) <= 53 * 1_000_000 && 100 * (ti * 1_000_000 - 10
        * ni) <= 53 * 1_000_000) by (nonlinear_arith)
        requires
            200 * si * (10 * ni - ti * 1_000_000) <= 106 * si * 1_000_000,
            200 * si * (ti * 1_000_000 - 10 * ni) <= 106 * si * 1_000_000,
            si >= 256,
    ;
}

/// `2^k` for `k <= 127`.
pub fn two_pow_exec(k: u32) -> (r: u128)
    requires
        k <= 127,
    ensures
        r == two_pow(k as nat),
{
    proof {
        lemma_two_pow_values();
    }
    let mut r: u128 = 1;
    let mut i: u32 = 0;
    while i < k
        invariant
            i <= k <= 127,
            r == two_pow(i as nat),
            two_pow(127) == 0x8000_0000_0000_0000_0000_0000_0000_0000,
        decreases k - i,
    {
        proof {
            lemma_two_pow_mono(i as nat, 126);
            lemma_two_pow_mono(126, 127);
            assert(two_pow(127) == 2 * two_pow(126));
        }
        r = r * 2;
        i = i + 1;
    }
    r
}

/// The bit length of `n`.
pub fn bit_len_exec(n: u128) -> (r: u32)
    ensures
        r == bit_len(n as nat),
        r <= 128,
{
    proof {
        assert(n as nat <= u128::MAX);
        lemma_two_pow_values();
        assert(u128::MAX < 2 * two_pow(127));
        assert(two_pow(128) == 2 * two_pow(127));
        lemma_bit_len_le(n as nat, 128);
    }
    let mut x: u128 = n;
    let mut len: u32 = 0;
    while x > 0
        invariant
            bit_len(n as nat) == len + bit_len(x as nat),
            len + bit_len(x as nat) <= 128,
        decreases x,
    {
        x = x / 2;
        len = len + 1;
    }
    len
}

/// `a / b` rounded to nearest, ties to even.
pub fn div_round_even_exec(a: u128, b: u128) -> (r: u128)
    requires
        0 < b < 0x8000_0000_0000_0000_0000_0000_0000_0000,
    ensures
        r == div_round_even(a as nat, b as nat),
        r <= a / b + 1,
{
    let q: u128 = a / b;
    let rem: u128 = a % b;
    if 2 * rem > b || (2 * rem == b && q % 2 == 1) {
        assert(q < u128::MAX) by {
            assert(q <= a);
            if q == u128::MAX {
                assert(b >= 1);
                assert(a / b == u128::MAX ==> b == 1) by (nonlinear_arith)
                    requires
                        b >= 1,
                        a <= u128::MAX,
                ;
                assert(rem == 0);
            }
        }
        q + 1
    } else {
        q
    }
}

/// The binary64 number nearest to `p / q`; see [`nearest_binary64`].
pub fn nearest_binary64_exec(p: u128, q: u128) -> (r: (u128, i32))
    requires
        0 < q < two_pow(73),
        p < two_pow(66),
    ensures
        r.0 as nat == nearest_binary64(p as nat, q as nat).0,
        r.1 as int == nearest_binary64(p as nat, q as nat).1,
        r.1 as int == bit_len((p / q) as nat) - 53,
        r.0 <= two_pow(53),
        -53 <= r.1 <= 13,
{
    proof {
        lemma_two_pow_values();
    }
    let n: u128 = p / q;
    let len: u32 = bit_len_exec(n);
    proof {
        lemma_bit_len_bounds(n as nat);
        assert(n <= p) by (nonlinear_arith)
            requires
                n == p / q,
                q > 0,
        ;
        lemma_bit_len_le(n as nat, 66);
        // p < q * 2^len
        let t = two_pow(len as nat);
        assert(p < q * t) by (nonlinear_arith)
            requires
                n == p / q,
                q > 0,
                n < t,
        ;
    }
    if len <= 53 {
        let shift: u32 = 53 - len;
        let scale: u128 = two_pow_exec(shift);
        proof {
            lemma_two_pow_pos(shift as nat);
            lemma_two_pow_add(len as nat, shift as nat);
            let t = two_pow(len as nat);
            let s = two_pow(shift as nat);
            let t53 = two_pow(53);
            let t73 = two_pow(73);
            assert(p * s < q * t53) by (nonlinear_arith)
                requires
                    p < q * t,
                    t * s == t53,
                    s > 0,
            ;
            assert(q * t53 < 0x8000_0000_0000_0000_0000_0000_0000_0000) by (nonlinear_arith)
                requires
                    q < t73,
                    t73 == 0x200_0000_0000_0000_0000,
                    t53 == 0x20_0000_0000_0000,
            ;
        }
        let num: u128 = p * scale;
        let m: u128 = div_round_even_exec(num, q);
        proof {
            let t53 = two_pow(53);
            assert(num / q < t53) by (nonlinear_arith)
                requires
                    num < q * t53,
                    q > 0,
            ;
        }
        (m, -(shift as i32))
    } else {
        let shift: u32 = len - 53;
        let scale: u128 = two_pow_exec(shift);
        proof {
            lemma_two_pow_add(53, shift as nat);
            lemma_two_pow_mono(shift as nat, 13);
            let t = two_pow(len as nat);
            let s = two_pow(shift as nat);
            let t53 = two_pow(53);
            let t73 = two_pow(73);
            assert(q * s < 0x8000_0000_0000_0000_0000_0000_0000_0000) by (nonlinear_arith)
                requires
                    q < t73,
                    t73 == 0x200_0000_0000_0000_0000,
                    s <= 8192,
            ;
            assert(p < (q * s) * t53) by (nonlinear_arith)
                requires
                    p < q * t,
                    t == t53 * s,
            ;
        }
        let den: u128 = q * scale;
        let m: u128 = div_round_even_exec(p, den);
        proof {
            let t53 = two_pow(53);
            assert(p / den < t53) by (nonlinear_arith)
                requires
                    p < den * t53,
                    den > 0,
            ;
        }
        (m, shift as i32)
    }
}

/// `m * 2^e` as a fraction; see [`exact_fraction`].
pub fn exact_fraction_exec(m: u128, e: i32) -> (r: (u128, u128))
    requires
        m <= two_pow(53),
        -53 <= e <= 13,
    ensures
        r.0 as nat == exact_fraction(m as nat, e as int).0,
        r.1 as nat == exact_fraction(m as nat, e as int).1,
        0 < r.1 <= two_pow(53),
        r.0 <= two_pow(66),
{
    proof {
        lemma_two_pow_values();
    }
    if e >= 0 {
        let scale: u128 = two_pow_exec(e as u32);
        proof {
            lemma_two_pow_mono(e as nat, 13);
            lemma_two_pow_add(53, 13);
            let s = two_pow(e as nat);
            let t53 = two_pow(53);
            assert(m * s <= t53 * 8192) by (nonlinear_arith)
                requires
                    m <= t53,
                    s <= 8192,
            ;
        }
        (m * scale, 1)
    } else {
        let den: u128 = two_pow_exec((-e) as u32);
        proof {
            lemma_two_pow_pos((-e) as nat);
            lemma_two_pow_mono((-e) as nat, 53);
            lemma_two_pow_mono(53, 66);
        }
        (m, den)
    }
}

/// See [`displayed_tenths`].
pub fn displayed_tenths_exec(count: u64, unit: u64) -> (t: u128)
    requires
        0 < unit <= 1_000_000,
    ensures
        t == displayed_tenths(count as nat, unit as nat),
{
    proof {
        lemma_two_pow_values();
    }
    let c: (u128, i32) = nearest_binary64_exec(count as u128, 1);
    proof {
        lemma_bit_len_le(count as nat, 64);
    }
    let cf: (u128, u128) = exact_fraction_exec(c.0, c.1);
    proof {
        // the rounded count is at most 2^53 * 2^11 = 2^64
        if c.1 >= 0 {
            lemma_two_pow_mono(c.1 as nat, 11);
            lemma_two_pow_add(53, 11);
            let s = two_pow(c.1 as nat);
            let t53 = two_pow(53);
            assert(c.0 * s <= t53 * 2048) by (nonlinear_arith)
                requires
                    c.0 <= t53,
                    s <= 2048,
            ;
        } else {
            lemma_two_pow_mono(53, 66);
        }
        let t53 = two_pow(53);
        assert(0 < cf.1 * unit < 0x200_0000_0000_0000_0000) by (nonlinear_arith)
            requires
                0 < cf.1 <= t53,
                0 < unit,
                t53 == 0x20_0000_0000_0000,
                unit <= 1_000_000,
        ;
    }
    let v: (u128, i32) = nearest_binary64_exec(cf.0, cf.1 * (unit as u128));
    let vf: (u128, u128) = exact_fraction_exec(v.0, v.1);
    proof {
        lemma_two_pow_mono(53, 127);
    }
    div_round_even_exec(10 * vf.0, vf.1)
}

} // verus!
