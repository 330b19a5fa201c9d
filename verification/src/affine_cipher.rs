//! The affine cipher over the 26 lower-case letters.

use vstd::prelude::*;

verus! {

/// The size of the alphabet.
pub const MODULUS: i32 = 26;

/// Why a key is refused.
#[derive(Debug, Eq, PartialEq)]
pub enum AffineCipherError {
    /// The multiplier shares a factor with the size of the alphabet.
    NotCoprime(i32),
}

/// Whether multiplying by `x` undoes multiplying by `a` on the alphabet.
pub open spec fn is_inverse(a: int, x: int) -> bool {
    (a * x) % 26 == 1
}

/// Whether `ch` is one of the ten digits.
pub open spec fn is_digit(ch: char) -> bool {
    '0' <= ch <= '9'
}

/// The letter that `ch` stands for under the key whose multiplier has the
/// inverse `inv` and whose shift is `b`. Digits stand for themselves.
pub open spec fn decoded_char(ch: char, inv: i32, b: i32) -> char {
    if is_digit(ch) {
        ch
    } else {
        (((inv as int) * ((ch as int) - ('a' as int) - (b as int))) % 26 + ('a' as int)) as char
    }
}

proof fn lemma_product_bound(x: int, y: int)
    by (nonlinear_arith)
    requires
        -0x8000_0000 <= x < 0x8000_0000,
        -0x1_0000_0000 < y < 0x1_0000_0000,
    ensures
        -0x8000_0000_0000_0000 <= x * y < 0x8000_0000_0000_0000,
{
}

/// Decodes one character.
pub fn decode_char(ch: char, inv: i32, b: i32) -> (decoded: char)
    ensures
        decoded == decoded_char(ch, inv, b),
{
    if ch >= '0' && ch <= '9' {
        ch
    } else {
        let index: i64 = (ch as u32) as i64 - ('a' as u32) as i64;
        let shifted: i64 = index - b as i64;
        proof {
            lemma_product_bound(inv as int, shifted as int);
        }
        let product: i64 = (inv as i64) * shifted;
        let rest: i64 = product % 26;
        let place: i64 = if rest < 0 {
            rest + 26
        } else {
            rest
        };
        assert(place == (product as int) % 26);
        ((place + 97) as u8) as char
    }
}

proof fn lemma_unit_divisor(g: int, c: int)
    by (nonlinear_arith)
    requires
        g > 0,
        g * c == 1,
    ensures
        g == 1,
{
}

/// `x`, or `-x` where `flip` is set.
pub open spec fn signed(flip: bool, x: int) -> int {
    if flip {
        -x
    } else {
        x
    }
}

proof fn lemma_step(r0: int, r1: int, p: int, n: int, q: int)
    by (nonlinear_arith)
    requires
        0 < r1 < r0,
        q >= 1,
        r0 - q * r1 >= 0,
        p > 0,
        n >= 0,
        p * r0 + n * r1 == 26,
    ensures
        (n + q * p) * r1 + p * (r0 - q * r1) == 26,
        p * r0 <= 26,
        (n + q * p) * r1 <= 26,
        n + q * p <= 26,
        n + q * p > 0,
        p <= 26,
{
}

proof fn lemma_combine(u0: int, u1: int, q: int, r0: int, r1: int, total: int)
    by (nonlinear_arith)
    requires
        total == u0 * r0 + u1 * r1,
    ensures
        total == (u0 * q + u1) * r1 + u0 * (r0 - q * r1),
{
}

proof fn lemma_inverse_found(a: int, a0: int, k: int, s: int, t: int)
    by (nonlinear_arith)
    requires
        a == a0 + 26 * k,
        1 == s * 26 + t * a0,
    ensures
        a * t == 1 + 26 * (k * t - s),
{
}

proof fn lemma_no_inverse(a: int, a0: int, k: int, g: int, u: int, v: int, y: int, m: int)
    by (nonlinear_arith)
    requires
        a == a0 + 26 * k,
        26 == u * g,
        a0 == v * g,
        a * y == 1 + 26 * m,
    ensures
        g * ((v + u * k) * y - u * m) == 1,
{
}

proof fn lemma_half(t: int, prev: int)
    by (nonlinear_arith)
    requires
        prev >= 2,
        t >= 0,
        t * prev <= 26,
    ensures
        t <= 13,
{
}

/// The inverse of `a` on the alphabet, if it has one: the one between -13
/// and 13. A multiplier that shares a factor with 26 has none.
pub fn modular_multiplicative_inverse(a: i32) -> (inverse: Option<i32>)
    ensures
        match inverse {
            Some(x) => is_inverse(a as int, x as int) && -13 <= x <= 13,
            None => forall|y: int| !is_inverse(a as int, y),
        },
{
    let rest: i32 = a % MODULUS;
    let a0: i32 = if rest < 0 {
        rest + MODULUS
    } else {
        rest
    };
    assert(a0 == (a as int) % 26);
    let ghost k: int = (a as int) / 26;
    assert(a as int == a0 + 26 * k);
    let mut rs: (i32, i32) = (MODULUS, a0);
    let mut ts: (i32, i32) = (0, 1);
    let ghost mut ss: (int, int) = (1, 0);
    let ghost mut us: (int, int) = (1, 0);
    let ghost mut vs: (int, int) = (0, 1);
    let ghost mut flip: bool = false;
    let ghost mut prev: int = 27;
    while rs.1 != 0
        invariant
            0 <= rs.1 < rs.0 <= 26,
            0 <= a0 < 26,
            rs.0 == ss.0 * 26 + ts.0 * a0,
            rs.1 == ss.1 * 26 + ts.1 * a0,
            26 == us.0 * rs.0 + us.1 * rs.1,
            a0 == vs.0 * rs.0 + vs.1 * rs.1,
            signed(flip, ts.1 as int) > 0,
            signed(flip, ts.0 as int) <= 0,
            signed(flip, ts.1 as int) * rs.0 + signed(flip, -ts.0) * rs.1 == 26,
            signed(flip, ts.1 as int) <= 26,
            prev > rs.0,
            signed(flip, -ts.0) * prev <= 26,
        decreases rs.1,
    {
        let q: i32 = rs.0 / rs.1;
        let ghost p = signed(flip, ts.1 as int);
        let ghost n = signed(flip, -ts.0);
        proof {
            assert(q >= 1 && q <= 26 && rs.0 - q * rs.1 == rs.0 % rs.1 && 0 <= rs.0 % rs.1 < rs.1)
                by (nonlinear_arith)
                requires
                    q == rs.0 / rs.1,
                    0 < rs.1 < rs.0 <= 26,
            ;
            lemma_step(rs.0 as int, rs.1 as int, p, n, q as int);
            lemma_combine(us.0, us.1, q as int, rs.0 as int, rs.1 as int, 26);
            lemma_combine(vs.0, vs.1, q as int, rs.0 as int, rs.1 as int, a0 as int);
            assert(q * rs.1 <= 26);
            assert(q * p <= 26);
            assert(signed(flip, q * ts.1) == q * p) by (nonlinear_arith)
                requires
                    p == signed(flip, ts.1 as int),
            ;
            assert(-26 <= q * ts.1 <= 26);
            assert((ss.0 - q * ss.1) * 26 + (ts.0 - q * ts.1) * a0 == rs.0 - q * rs.1)
                by (nonlinear_arith)
                requires
                    rs.0 == ss.0 * 26 + ts.0 * a0,
                    rs.1 == ss.1 * 26 + ts.1 * a0,
            ;
        }
        let r2: i32 = rs.0 - q * rs.1;
        let t2: i32 = ts.0 - q * ts.1;
        proof {
            assert(signed(!flip, t2 as int) == n + q * p);
            assert(signed(!flip, -ts.1) == p);
            ss = (ss.1, ss.0 - q * ss.1);
            us = (us.0 * q + us.1, us.0);
            vs = (vs.0 * q + vs.1, vs.0);
            prev = rs.0 as int;
            flip = !flip;
        }
        rs = (rs.1, r2);
        ts = (ts.1, t2);
    }
    if rs.0 == 1 {
        proof {
            lemma_inverse_found(a as int, a0 as int, k, ss.0, ts.0 as int);
            assert(is_inverse(a as int, ts.0 as int));
            assert(prev >= 2);
            lemma_half(signed(flip, -ts.0), prev);
        }
        Some(ts.0)
    } else {
        proof {
            let g = rs.0 as int;
            assert forall|y: int| !is_inverse(a as int, y) by {
                if is_inverse(a as int, y) {
                    let m = (a as int * y) / 26;
                    assert(a as int * y == 1 + 26 * m);
                    lemma_no_inverse(a as int, a0 as int, k, g, us.0, vs.0, y, m);
                    lemma_unit_divisor(g, (vs.0 + us.0 * k) * y - us.0 * m);
                }
            }
        }
        None
    }
}

} // verus!
