//! Integer helpers: Rust's truncating division and remainder on `i32`,
//! stated over mathematical integers.

use vstd::prelude::*;
use vstd::arithmetic::div_mod::*;

verus! {

/// Absolute value over `int`.
pub open spec fn abs_int(a: int) -> int {
    if a >= 0 { a } else { -a }
}

/// Remainder of Rust's `%` on signed integers: it takes the sign of the
/// dividend and the magnitude `|a| mod |b|`.
pub open spec fn trunc_rem(a: int, b: int) -> int {
    if a >= 0 { a % abs_int(b) } else { -((-a) % abs_int(b)) }
}

/// Quotient of Rust's `/` on signed integers: rounded toward zero.
pub open spec fn trunc_div(a: int, b: int) -> int {
    let q = abs_int(a) / abs_int(b);
    if (a >= 0) == (b > 0) || a == 0 { q } else { -q }
}

/// `a % b` as Rust computes it for `i32`.
pub fn rem_i32(a: i32, b: i32) -> (r: i32)
    requires
        b != 0,
        !(a == i32::MIN && b == -1),
    ensures
        r == trunc_rem(a as int, b as int),
{
    let r = a.checked_rem(b);
    proof {
        let x = a as int;
        let d = b as int;
        if x > 0 && d < 0 {
            assert(x % (d * -1) == x % (-d));
            assert(0 <= x % (-d) < -d) by { lemma_mod_bound(x, -d); }
        } else if x < 0 && d < 0 {
            assert(0 <= (-x) % (-d) < -d) by { lemma_mod_bound(-x, -d); }
        } else if x < 0 {
            assert(0 <= (-x) % d < d) by { lemma_mod_bound(-x, d); }
        } else if x > 0 {
            assert(0 <= x % d < d) by { lemma_mod_bound(x, d); }
        }
    }
    r.unwrap()
}

/// `a / b` as Rust computes it for `i32`.
pub fn div_i32(a: i32, b: i32) -> (r: i32)
    requires
        b != 0,
        !(a == i32::MIN && b == -1),
    ensures
        r == trunc_div(a as int, b as int),
{
    let r = a.checked_div(b);
    proof {
        let x = a as int;
        let d = b as int;
        if x > 0 && d < 0 {
            lemma_div_pos_is_pos(x, -d);
            lemma_div_nonincreasing(x, -d);
        } else if x < 0 && d < 0 {
            lemma_div_pos_is_pos(-x, -d);
            lemma_div_nonincreasing(-x, -d);
            if d <= -2 {
                lemma_div_is_ordered_by_denominator(-x, 2, -d);
            }
        } else if x < 0 {
            lemma_div_pos_is_pos(-x, d);
            lemma_div_nonincreasing(-x, d);
        } else if x > 0 {
            lemma_div_pos_is_pos(x, d);
            lemma_div_nonincreasing(x, d);
        }
    }
    r.unwrap()
}

/// For a positive modulus, Rust's `((x % w) + w) % w` is the Euclidean
/// remainder of `x` by `w`.
pub proof fn lemma_wrap_is_euclid_mod(x: int, w: int)
    requires
        w > 0,
    ensures
        trunc_rem(trunc_rem(x, w) + w, w) == x % w,
        0 <= x % w < w,
{
    lemma_mod_bound(x, w);
    if x >= 0 {
        let r = x % w;
        lemma_mod_bound(x, w);
        lemma_mod_add_multiples_vanish(r, w);
        lemma_small_mod(r as nat, w as nat);
    } else {
        let q = (-x) % w;
        let k = (-x) / w;
        lemma_fundamental_div_mod(-x, w);
        lemma_mod_bound(-x, w);
        assert(x == w * (-k - 1) + (w - q)) by (nonlinear_arith)
            requires -x == w * k + q;
        if q == 0 {
            lemma_mod_self_0(w);
            assert(x == w * (-k)) by (nonlinear_arith)
                requires -x == w * k + q, q == 0;
            lemma_mod_multiples_basic(-k, w);
            assert(x % w == 0) by (nonlinear_arith)
                requires x == w * (-k), (-k * w) % w == 0;
        } else {
            lemma_fundamental_div_mod_converse_mod(x, w, -k - 1, w - q);
            lemma_small_mod((w - q) as nat, w as nat);
        }
    }
}

} // verus!
