//! Floating-point values carried as their IEEE 754 bit patterns, and the
//! conversions the library needs: integers and doubles to `f32` (round to
//! nearest, ties to even), `f32` to `i32` (round half away from zero, then
//! saturate) and doubles to `i32` (toward zero, then saturate), as Rust's
//! `as` and `round` compute them.
use vstd::prelude::*;
use vstd::arithmetic::power2::{
    pow2, lemma_pow2_pos, lemma_pow2_unfold, lemma_pow2_adds, lemma_pow2_strictly_increases,
    lemma2_to64,
};

verus! {

/// Bit pattern of `1.0`.
pub const ONE: u32 = 0x3f80_0000;

/// Bit pattern of `0.5`.
pub const HALF: u32 = 0x3f00_0000;

pub open spec fn two23() -> nat {
    0x80_0000
}

/// `floor(log2(n))` for `n >= 1`.
pub open spec fn log2(n: nat) -> nat
    decreases n,
{
    if n < 2 {
        0
    } else {
        1 + log2(n / 2)
    }
}

/// `n / 2^s` rounded to nearest, ties to even.
pub open spec fn round_even(n: nat, s: nat) -> nat {
    if s == 0 {
        n
    } else {
        let q = n / pow2(s);
        let r = n % pow2(s);
        let h = pow2((s - 1) as nat);
        if r > h || (r == h && q % 2 == 1) {
            q + 1
        } else {
            q
        }
    }
}

/// Bits of the non-negative `n < 2^64` as an `f32`, rounded to nearest, ties
/// to even.
pub open spec fn f32_of_nat(n: nat) -> nat {
    if n == 0 {
        0
    } else {
        let p = log2(n);
        if p <= 23 {
            ((p + 127) * two23() + (n * pow2((23 - p) as nat) - two23())) as nat
        } else {
            let q = round_even(n, (p - 23) as nat);
            if q == 2 * two23() {
                (p + 128) * two23()
            } else {
                ((p + 127) * two23() + (q - two23())) as nat
            }
        }
    }
}

/// Bits of the integer `v` (`|v| < 2^64`) as an `f32`: `v as f32`.
pub open spec fn f32_of_int(v: int) -> u32 {
    if v < 0 {
        (0x8000_0000 + f32_of_nat((-v) as nat)) as u32
    } else {
        f32_of_nat(v as nat) as u32
    }
}

/// `f.round() as i32` for the `f32` with bits `b`: nearest integer, halves
/// away from zero, saturated to the `i32` range, `NaN` to zero.
pub open spec fn round_to_i32(b: u32) -> i32 {
    let neg = b >= 0x8000_0000;
    let e = (b / 0x80_0000) as nat % 256;
    let f = (b % 0x80_0000) as nat;
    if e == 255 {
        if f != 0 {
            0
        } else if neg {
            i32::MIN
        } else {
            i32::MAX
        }
    } else {
        let m: nat = if e == 0 {
            f
        } else {
            f + two23()
        };
        let ee: nat = if e == 0 {
            1
        } else {
            e
        };
        let mag: int = if ee >= 150 {
            (m * pow2((ee - 150) as nat)) as int
        } else {
            ((m + pow2((149 - ee) as nat)) / pow2((150 - ee) as nat)) as int
        };
        let v = if neg {
            -mag
        } else {
            mag
        };
        if v > i32::MAX {
            i32::MAX
        } else if v < i32::MIN {
            i32::MIN
        } else {
            v as i32
        }
    }
}

/// `1.0` rounds to 1 and `0.0` to 0; the first is nonzero, the second not.
pub proof fn lemma_round_unit()
    ensures
        round_to_i32(ONE) == 1,
        round_to_i32(0) == 0,
        nonzero(ONE),
        !nonzero(0),
{
    lemma2_to64();
    assert((0x80_0000nat + 0x40_0000nat) / 0x80_0000nat == 1);
    lemma_pow2_unfold(149);
    lemma_pow2_pos(148);
    vstd::arithmetic::div_mod::lemma_basic_div(pow2(148) as int, pow2(149) as int);
}

/// Whether the `f32` with bits `b` differs from `0.0` (`NaN` does).
pub open spec fn nonzero(b: u32) -> bool {
    b % 0x8000_0000 != 0
}

pub fn is_nonzero(b: u32) -> (r: bool)
    ensures
        r == nonzero(b),
{
    b % 0x8000_0000 != 0
}

proof fn lemma_log2(n: nat)
    requires
        n >= 1,
    ensures
        pow2(log2(n)) <= n < pow2(log2(n) + 1),
    decreases n,
{
    lemma_pow2_unfold(log2(n) + 1);
    if n >= 2 {
        lemma_log2(n / 2);
        lemma_pow2_unfold(log2(n));
        lemma_pow2_unfold(log2(n / 2) + 1);
    } else {
        lemma2_to64();
    }
}

/// `2^k` for `k < 64`.
pub fn pow2_u64(k: u32) -> (r: u64)
    requires
        k < 64,
    ensures
        r == pow2(k as nat),
{
    let mut r: u64 = 1;
    let mut i: u32 = 0;
    proof {
        lemma2_to64();
    }
    while i < k
        invariant
            i <= k < 64,
            r == pow2(i as nat),
        decreases k - i,
    {
        proof {
            lemma_pow2_unfold((i + 1) as nat);
            lemma_pow2_strictly_increases((i + 1) as nat, 64);
            lemma2_to64();
        }
        r = r * 2;
        i = i + 1;
    }
    r
}

fn f32_of_u64(n: u64) -> (r: u32)
    requires
        n > 0,
    ensures
        r as nat == f32_of_nat(n as nat),
        r < 0x8000_0000,
{
    let mut m = n;
    let mut p: u32 = 0;
    proof {
        lemma2_to64();
    }
    while m >= 2
        invariant
            m >= 1,
            p <= 64,
            log2(n as nat) == p + log2(m as nat),
            pow2(p as nat) * m <= n,
        decreases m,
    {
        proof {
            lemma_pow2_unfold((p + 1) as nat);
            assert(pow2((p + 1) as nat) * (m / 2) <= pow2(p as nat) * m) by (nonlinear_arith)
                requires
                    pow2((p + 1) as nat) == 2 * pow2(p as nat),
                    m >= 2,
            ;
            lemma_pow2_pos(p as nat);
            lemma2_to64();
            assert(p < 63) by {
                if p >= 63 {
                    if p > 63 {
                        lemma_pow2_strictly_increases(63, p as nat);
                    }
                    assert(pow2(p as nat) * m >= pow2(p as nat) * 2) by (nonlinear_arith)
                        requires
                            m >= 2,
                    ;
                }
            }
        }
        m = m / 2;
        p = p + 1;
    }
    proof {
        lemma_log2(n as nat);
        assert(log2(m as nat) == 0);
        lemma2_to64();
    }
    let ghost pp = p as nat;
    assert(pow2(pp) <= n < pow2(pp + 1));
    assert(p <= 63) by {
        if p >= 64 {
            if p > 64 {
                lemma_pow2_strictly_increases(64, pp);
            }
        }
    }
    if p <= 23 {
        let sh = pow2_u64(23 - p);
        proof {
            lemma_pow2_adds(pp, (23 - pp) as nat);
            lemma_pow2_adds(pp + 1, (23 - pp) as nat);
            assert(pow2(pp) * pow2((23 - pp) as nat) <= n * pow2((23 - pp) as nat) < pow2(pp + 1)
                * pow2((23 - pp) as nat)) by (nonlinear_arith)
                requires
                    pow2(pp) <= n < pow2(pp + 1),
                    pow2((23 - pp) as nat) > 0,
            ;
            assert(pp + (23 - pp) == 23);
            assert(pp + 1 + (23 - pp) == 24);
            lemma2_to64();
        }
        let mant = n * sh;
        let r = (p + 127) * 0x80_0000 + (mant as u32 - 0x80_0000);
        r
    } else {
        let s = p - 23;
        let pw = pow2_u64(s);
        proof {
            lemma_pow2_pos(s as nat);
        }
        let q = n / pw;
        let rem = n % pw;
        let h = pw / 2;
        proof {
            lemma_pow2_unfold(s as nat);
            lemma_pow2_adds(23, s as nat);
            lemma_pow2_adds(24, s as nat);
            assert(23 + s == pp);
            assert(24 + s == pp + 1);
            lemma2_to64();
            lemma_pow2_pos(s as nat);
            assert(0x80_0000 <= q < 0x100_0000) by (nonlinear_arith)
                requires
                    pow2(pp) <= n < pow2(pp + 1),
                    pow2(pp) == 0x80_0000 * pw,
                    pow2(pp + 1) == 0x100_0000 * pw,
                    q == n / pw,
                    pw > 0,
            ;
        }
        let q2 = if rem > h || (rem == h && q % 2 == 1) {
            q + 1
        } else {
            q
        };
        assert(q2 == round_even(n as nat, s as nat));
        if q2 == 0x100_0000 {
            (p + 128) * 0x80_0000
        } else {
            (p + 127) * 0x80_0000 + (q2 as u32 - 0x80_0000)
        }
    }
}

/// `v as f32`, as bits.
pub fn int_to_f32(v: i64) -> (r: u32)
    ensures
        r == f32_of_int(v as int),
{
    if v == 0 {
        return 0;
    }
    if v < 0 {
        let n: u64 = (-(v as i128)) as u64;
        let b = f32_of_u64(n);
        0x8000_0000 + b
    } else {
        f32_of_u64(v as u64)
    }
}

/// `f.round() as i32` for the `f32` with bits `b`.
pub fn round_f32_to_i32(b: u32) -> (r: i32)
    ensures
        r == round_to_i32(b),
{
    let neg = b >= 0x8000_0000;
    let e = (b / 0x80_0000) % 256;
    let f = b % 0x80_0000;
    proof {
        lemma2_to64();
    }
    if e == 255 {
        return if f != 0 {
            0
        } else if neg {
            i32::MIN
        } else {
            i32::MAX
        };
    }
    let m: u64 = if e == 0 {
        f as u64
    } else {
        f as u64 + 0x80_0000
    };
    let ee: u32 = if e == 0 {
        1
    } else {
        e
    };
    let ghost mag: int = if ee >= 150 {
        (m * pow2((ee - 150) as nat)) as int
    } else {
        ((m as nat + pow2((149 - ee) as nat)) / pow2((150 - ee) as nat)) as int
    };
    if ee >= 158 {
        proof {
            if ee > 158 {
                lemma_pow2_strictly_increases(8, (ee - 150) as nat);
            }
            assert(mag >= 0x80_0000 * 0x100) by (nonlinear_arith)
                requires
                    mag == m * pow2((ee - 150) as nat),
                    m >= 0x80_0000,
                    pow2((ee - 150) as nat) >= 0x100,
            ;
        }
        return if neg {
            i32::MIN
        } else {
            i32::MAX
        };
    }
    let mg: u64 = if ee >= 150 {
        let sh = pow2_u64(ee - 150);
        proof {
            assert(m * sh < 0x1_0000_0000_0000) by (nonlinear_arith)
                requires
                    m < 0x100_0000,
                    sh <= 0x80,
            ;
            if ee > 150 {
                lemma_pow2_strictly_increases((ee - 150) as nat, 8);
            }
        }
        m * sh
    } else if 150 - ee >= 25 {
        proof {
            let k = (150 - ee) as nat;
            lemma_pow2_unfold(k);
            if k - 1 > 24 {
                lemma_pow2_strictly_increases(24, (k - 1) as nat);
            }
            assert(m + pow2((149 - ee) as nat) < pow2(k));
            lemma_pow2_pos(k);
            vstd::arithmetic::div_mod::lemma_basic_div(
                (m + pow2((149 - ee) as nat)) as int,
                pow2(k) as int,
            );
        }
        0
    } else {
        let k = 150 - ee;
        let pk = pow2_u64(k);
        let ph = pow2_u64(k - 1);
        proof {
            lemma_pow2_unfold(k as nat);
            lemma_pow2_strictly_increases(k as nat, 25);
        }
        (m + ph) / pk
    };
    assert(mg == mag);
    if neg {
        if mg > 0x8000_0000 {
            i32::MIN
        } else {
            (-(mg as i64)) as i32
        }
    } else {
        if mg > 0x7fff_ffff {
            i32::MAX
        } else {
            mg as i32
        }
    }
}


// ---------------------------------------------------------------- doubles
/// `2^52`: the hidden bit of a double's significand.
pub open spec fn two52() -> nat {
    0x10_0000_0000_0000
}

/// Bits of the `f32` nearest to `m * 2^e` (`m > 0`), ties to even; values
/// beyond the largest `f32` become infinity. The result is placed on the
/// grid of `2^k` with `k` the larger of `log2(value) - 23` and `-149`, so
/// subnormal results come out of the same formula.
pub open spec fn f32_of_scaled(m: nat, e: int) -> nat {
    let p = log2(m) + e;
    let k = if p - 23 > -149 {
        p - 23
    } else {
        -149
    };
    let s = k - e;
    let q = if s <= 0 {
        m * pow2((-s) as nat)
    } else {
        round_even(m, s as nat)
    };
    let b = (k + 149) * two23() + q;
    if b >= 0x7f80_0000 {
        0x7f80_0000
    } else {
        b as nat
    }
}

/// `x as f32` for the double with bits `b`: rounded to nearest, ties to
/// even, the sign kept; a `NaN` stays a quiet `NaN` with the top of its
/// payload.
pub open spec fn f32_of_f64(b: u64) -> u32 {
    let sign: nat = if b >= 0x8000_0000_0000_0000 {
        0x8000_0000
    } else {
        0
    };
    let e = (b as nat / two52()) % 2048;
    let f = b as nat % two52();
    if e == 2047 {
        if f == 0 {
            (sign + 0x7f80_0000) as u32
        } else {
            let top = f / 0x2000_0000;
            (sign + 0x7f80_0000 + if top >= 0x40_0000 {
                top
            } else {
                top + 0x40_0000
            }) as u32
        }
    } else {
        let m: nat = if e == 0 {
            f
        } else {
            f + two52()
        };
        let ee: int = if e == 0 {
            1
        } else {
            e as int
        };
        if m == 0 {
            sign as u32
        } else {
            (sign + f32_of_scaled(m, ee - 1075)) as u32
        }
    }
}

/// `x as i32` for the double with bits `b`: toward zero, saturated to the
/// `i32` range, `NaN` to zero.
pub open spec fn i32_of_f64(b: u64) -> i32 {
    let neg = b >= 0x8000_0000_0000_0000;
    let e = (b as nat / two52()) % 2048;
    let f = b as nat % two52();
    if e == 2047 {
        if f != 0 {
            0
        } else if neg {
            i32::MIN
        } else {
            i32::MAX
        }
    } else {
        let m: nat = if e == 0 {
            f
        } else {
            f + two52()
        };
        let ee: int = if e == 0 {
            1
        } else {
            e as int
        };
        let mag: int = if ee >= 1075 {
            (m * pow2((ee - 1075) as nat)) as int
        } else {
            (m / pow2((1075 - ee) as nat)) as int
        };
        let v = if neg {
            -mag
        } else {
            mag
        };
        if v > i32::MAX {
            i32::MAX
        } else if v < i32::MIN {
            i32::MIN
        } else {
            v as i32
        }
    }
}

/// Whether the double with bits `b` differs from `0.0` (`NaN` does).
pub open spec fn f64_nonzero(b: u64) -> bool {
    b % 0x8000_0000_0000_0000 != 0
}

pub fn is_nonzero_f64(b: u64) -> (r: bool)
    ensures
        r == f64_nonzero(b),
{
    b % 0x8000_0000_0000_0000 != 0
}

fn log2_u64(n: u64) -> (r: u32)
    requires
        n > 0,
    ensures
        r == log2(n as nat),
        r < 64,
        pow2(r as nat) <= n < pow2(r as nat + 1),
{
    let mut m = n;
    let mut p: u32 = 0;
    proof {
        lemma2_to64();
    }
    while m >= 2
        invariant
            m >= 1,
            p <= 64,
            log2(n as nat) == p + log2(m as nat),
            pow2(p as nat) * m <= n,
        decreases m,
    {
        proof {
            lemma2_to64();
            lemma_pow2_unfold((p + 1) as nat);
            assert(pow2((p + 1) as nat) * (m / 2) <= pow2(p as nat) * m) by (nonlinear_arith)
                requires
                    pow2((p + 1) as nat) == 2 * pow2(p as nat),
                    m >= 2,
            ;
            lemma_pow2_pos(p as nat);
            assert(p < 63) by {
                if p >= 63 {
                    if p > 63 {
                        lemma_pow2_strictly_increases(63, p as nat);
                    }
                    assert(pow2(p as nat) * m >= pow2(p as nat) * 2) by (nonlinear_arith)
                        requires
                            m >= 2,
                    ;
                }
            }
        }
        m = m / 2;
        p = p + 1;
    }
    proof {
        lemma_log2(n as nat);
        assert(log2(m as nat) == 0);
        if p >= 64 {
            if p > 64 {
                lemma_pow2_strictly_increases(64, p as nat);
            }
            assert(false);
        }
    }
    p
}

proof fn lemma_round_even_vanishes(m: nat, s: nat)
    requires
        m < pow2(53),
        s >= 54,
    ensures
        round_even(m, s) == 0,
{
    lemma_pow2_unfold(s);
    if s > 54 {
        lemma_pow2_strictly_increases(53, (s - 1) as nat);
    }
    lemma_pow2_pos(s);
    vstd::arithmetic::div_mod::lemma_basic_div(m as int, pow2(s) as int);
    vstd::arithmetic::div_mod::lemma_small_mod(m, pow2(s));
}

/// `f32_of_scaled` for `0 < m < 2^53` and `-1074 <= e <= 971`.
fn f32_of_scaled_exec(m: u64, e: i64) -> (r: u32)
    requires
        0 < m < 0x20_0000_0000_0000,
        -1074 <= e <= 971,
    ensures
        r as nat == f32_of_scaled(m as nat, e as int),
        r <= 0x7f80_0000,
{
    let lg = log2_u64(m);
    proof {
        lemma2_to64();
        if lg >= 53 {
            if lg > 53 {
                lemma_pow2_strictly_increases(53, lg as nat);
            }
            vstd::arithmetic::power2::lemma2_to64_rest();
        }
    }
    assert(lg < 53) by {
        vstd::arithmetic::power2::lemma2_to64_rest();
        if lg >= 53 {
            if lg > 53 {
                lemma_pow2_strictly_increases(53, lg as nat);
            }
        }
    }
    let p: i64 = lg as i64 + e;
    let k: i64 = if p - 23 > -149 {
        p - 23
    } else {
        -149
    };
    let s: i64 = k - e;
    let ghost mm = m as nat;
    if k + 149 >= 255 {
        proof {
            lemma_pow2_pos((-s) as nat);
        }
        assert(s > 0 ==> round_even(mm, s as nat) >= 0);
        return 0x7f80_0000;
    }
    let q: u64 = if s <= 0 {
        let sh = (-s) as u32;
        assert(lg + sh <= 23);
        let pw = pow2_u64(sh);
        let ghost t: nat = (lg + 1 + sh) as nat;
        proof {
            lemma_pow2_adds((lg + 1) as nat, sh as nat);
            assert(m * pw < pow2((lg + 1) as nat) * pw) by (nonlinear_arith)
                requires
                    m < pow2((lg + 1) as nat),
                    pw > 0,
            ;
            if t < 24 {
                lemma_pow2_strictly_increases(t, 24);
            }
        }
        m * pw
    } else if s >= 54 {
        proof {
            vstd::arithmetic::power2::lemma2_to64_rest();
            lemma_round_even_vanishes(mm, s as nat);
        }
        0
    } else {
        let pw = pow2_u64(s as u32);
        proof {
            lemma_pow2_pos(s as nat);
            lemma_pow2_unfold(s as nat);
        }
        let q0 = m / pw;
        let rem = m % pw;
        let h = pw / 2;
        assert(q0 <= m) by {
            vstd::arithmetic::div_mod::lemma_div_is_ordered_by_denominator(m as int, 1, pw as int);
        }
        if rem > h || (rem == h && q0 % 2 == 1) {
            q0 + 1
        } else {
            q0
        }
    };
    let b: u64 = (k + 149) as u64 * 0x80_0000 + q;
    if b >= 0x7f80_0000 {
        0x7f80_0000
    } else {
        b as u32
    }
}

/// `x as f32` for the double with bits `b`, as bits.
pub fn f64_to_f32(b: u64) -> (r: u32)
    ensures
        r == f32_of_f64(b),
{
    let sign: u32 = if b >= 0x8000_0000_0000_0000 {
        0x8000_0000
    } else {
        0
    };
    let e = (b / 0x10_0000_0000_0000) % 2048;
    let f = b % 0x10_0000_0000_0000;
    if e == 2047 {
        if f == 0 {
            return sign + 0x7f80_0000;
        }
        let top = (f / 0x2000_0000) as u32;
        let quiet = if top >= 0x40_0000 {
            top
        } else {
            top + 0x40_0000
        };
        return sign + 0x7f80_0000 + quiet;
    }
    let m: u64 = if e == 0 {
        f
    } else {
        f + 0x10_0000_0000_0000
    };
    let ee: i64 = if e == 0 {
        1
    } else {
        e as i64
    };
    if m == 0 {
        return sign;
    }
    let v = f32_of_scaled_exec(m, ee - 1075);
    sign + v
}

/// `x as i32` for the double with bits `b`.
pub fn f64_to_i32(b: u64) -> (r: i32)
    ensures
        r == i32_of_f64(b),
{
    let neg = b >= 0x8000_0000_0000_0000;
    let e = (b / 0x10_0000_0000_0000) % 2048;
    let f = b % 0x10_0000_0000_0000;
    proof {
        lemma2_to64();
    }
    if e == 2047 {
        return if f != 0 {
            0
        } else if neg {
            i32::MIN
        } else {
            i32::MAX
        };
    }
    let m: u64 = if e == 0 {
        f
    } else {
        f + 0x10_0000_0000_0000
    };
    let ee: u64 = if e == 0 {
        1
    } else {
        e
    };
    let ghost mag: int = if ee >= 1075 {
        (m * pow2((ee - 1075) as nat)) as int
    } else {
        (m as nat / pow2((1075 - ee) as nat)) as int
    };
    if ee >= 1075 && m > 0 {
        // at least 2^52: beyond the i32 range either way
        proof {
            lemma_pow2_pos((ee - 1075) as nat);
            assert(m >= 0x10_0000_0000_0000);
            assert(mag >= m) by (nonlinear_arith)
                requires
                    mag == m * pow2((ee - 1075) as nat),
                    pow2((ee - 1075) as nat) >= 1,
                    m >= 0,
            ;
        }
        return if neg {
            i32::MIN
        } else {
            i32::MAX
        };
    }
    let mg: u64 = if m == 0 {
        proof {
            if ee >= 1075 {
                assert(mag == 0);
            } else {
                lemma_pow2_pos((1075 - ee) as nat);
                vstd::arithmetic::div_mod::lemma_basic_div(0, pow2((1075 - ee) as nat) as int);
            }
        }
        0
    } else if 1075 - ee >= 64 {
        proof {
            let k = (1075 - ee) as nat;
            vstd::arithmetic::power2::lemma2_to64_rest();
            if k > 64 {
                lemma_pow2_strictly_increases(64, k);
            }
            lemma_pow2_pos(k);
            vstd::arithmetic::div_mod::lemma_basic_div(m as int, pow2(k) as int);
        }
        0
    } else {
        let pw = pow2_u64((1075 - ee) as u32);
        proof {
            lemma_pow2_pos((1075 - ee) as nat);
        }
        m / pw
    };
    assert(mg == mag);
    if neg {
        if mg > 0x8000_0000 {
            i32::MIN
        } else {
            (-(mg as i64)) as i32
        }
    } else {
        if mg > 0x7fff_ffff {
            i32::MAX
        } else {
            mg as i32
        }
    }
}

} // verus!
