//! Exact arithmetic on fixed-point measurements.
//!
//! Every measurement the library reasons about (temperatures, pressures,
//! wind speeds, flows, coordinates) is an integer count of a small unit,
//! documented at each field. Means of such values are rationals; this module
//! compares them exactly instead of rounding them.
use vstd::prelude::*;
use vstd::arithmetic::div_mod::{lemma_fundamental_div_mod, lemma_mod_pos_bound, lemma_div_pos_is_pos};

verus! {

/// Numerators handled by `compare_fractions` stay within this magnitude (2^100).
pub const NUMERATOR_BOUND: i128 = 1267650600228229401496703205376;

/// Largest magnitude of a fixed-point measurement sum's per-item value (2^31).
pub const ITEM_BOUND: i128 = 2147483648;

/// Sum of a sequence of integers.
pub open spec fn sum_of(s: Seq<int>) -> int
    decreases s.len(),
{
    if s.len() == 0 {
        0
    } else {
        sum_of(s.drop_last()) + s.last()
    }
}

/// The values of a sequence of `i32`, as integers.
pub open spec fn ints_of(s: Seq<i32>) -> Seq<int> {
    s.map_values(|v: i32| v as int)
}

/// Sign of an integer: -1, 0 or 1.
pub open spec fn sign_of(x: int) -> i8 {
    if x < 0 {
        -1i8
    } else if x == 0 {
        0i8
    } else {
        1i8
    }
}

/// Sign of `p1 / q1 - p2 / q2` for positive denominators.
pub open spec fn fraction_order(p1: int, q1: int, p2: int, q2: int) -> i8 {
    sign_of(p1 * q2 - p2 * q1)
}

/// `p == f * q + r` with `0 <= r < q`: the floor quotient and remainder.
fn floor_div_mod(p: i128, q: u64) -> (res: (i128, u64))
    requires
        q > 0,
        -NUMERATOR_BOUND <= p <= NUMERATOR_BOUND,
    ensures
        p == res.0 * q + res.1,
        res.1 < q,
        -NUMERATOR_BOUND - 1 <= res.0 <= NUMERATOR_BOUND,
{
    let qq: u128 = q as u128;
    if p >= 0 {
        let m: u128 = p as u128;
        let d: u128 = m / qq;
        let r: u128 = m % qq;
        proof {
            lemma_fundamental_div_mod(m as int, qq as int);
            lemma_mod_pos_bound(m as int, qq as int);
            lemma_div_pos_is_pos(m as int, qq as int);
            assert(d <= m) by (nonlinear_arith)
                requires
                    m == qq * d + r,
                    r >= 0,
                    qq >= 1,
                    d >= 0,
            ;
            assert(p == (d as int) * q + r) by (nonlinear_arith)
                requires
                    p == m,
                    m == qq * d + r,
                    qq == q,
            ;
        }
        (d as i128, r as u64)
    } else {
        let m: u128 = (-p) as u128;
        let d: u128 = m / qq;
        let r: u128 = m % qq;
        proof {
            lemma_fundamental_div_mod(m as int, qq as int);
            lemma_mod_pos_bound(m as int, qq as int);
            lemma_div_pos_is_pos(m as int, qq as int);
            assert(d <= m) by (nonlinear_arith)
                requires
                    m == qq * d + r,
                    r >= 0,
                    qq >= 1,
                    d >= 0,
            ;
        }
        if r == 0 {
            proof {
                assert(p == (-(d as int)) * q) by (nonlinear_arith)
                    requires
                        p == -(m as int),
                        m == qq * d + r,
                        r == 0,
                        qq == q,
                ;
            }
            (-(d as i128), 0)
        } else {
            proof {
                assert(p == (-(d as int) - 1) * q + (q - r)) by (nonlinear_arith)
                    requires
                        p == -(m as int),
                        m == qq * d + r,
                        qq == q,
                ;
            }
            (-(d as i128) - 1, (q - r as u64))
        }
    }
}

proof fn lemma_fraction_order_by_parts(
    p1: int,
    q1: int,
    f1: int,
    r1: int,
    p2: int,
    q2: int,
    f2: int,
    r2: int,
)
    requires
        q1 > 0,
        q2 > 0,
        p1 == f1 * q1 + r1,
        p2 == f2 * q2 + r2,
        0 <= r1 < q1,
        0 <= r2 < q2,
    ensures
        f1 < f2 ==> fraction_order(p1, q1, p2, q2) == -1,
        f1 > f2 ==> fraction_order(p1, q1, p2, q2) == 1,
        f1 == f2 ==> fraction_order(p1, q1, p2, q2) == sign_of(r1 * q2 - r2 * q1),
{
    assert(p1 * q2 - p2 * q1 == (f1 - f2) * (q1 * q2) + (r1 * q2 - r2 * q1)) by (nonlinear_arith)
        requires
            p1 == f1 * q1 + r1,
            p2 == f2 * q2 + r2,
    ;
    assert(r1 * q2 < q1 * q2) by (nonlinear_arith)
        requires
            0 <= r1 < q1,
            q2 > 0,
    ;
    assert(r2 * q1 < q1 * q2) by (nonlinear_arith)
        requires
            0 <= r2 < q2,
            q1 > 0,
    ;
    assert(r1 * q2 >= 0 && r2 * q1 >= 0) by (nonlinear_arith)
        requires
            r1 >= 0,
            r2 >= 0,
            q1 > 0,
            q2 > 0,
    ;
    if f1 < f2 {
        assert((f1 - f2) * (q1 * q2) <= -(q1 * q2)) by (nonlinear_arith)
            requires
                f1 - f2 <= -1,
                q1 * q2 > 0,
        ;
    }
    if f1 == f2 {
        assert((f1 - f2) * (q1 * q2) == 0) by (nonlinear_arith)
            requires
                f1 == f2,
        ;
    }
    if f1 > f2 {
        assert((f1 - f2) * (q1 * q2) >= q1 * q2) by (nonlinear_arith)
            requires
                f1 - f2 >= 1,
                q1 * q2 > 0,
        ;
    }
}

/// Compares `p1 / q1` with `p2 / q2` exactly: -1, 0 or 1 as the first is
/// smaller, equal or larger.
pub fn compare_fractions(p1: i128, q1: u64, p2: i128, q2: u64) -> (r: i8)
    requires
        q1 > 0,
        q2 > 0,
        -NUMERATOR_BOUND <= p1 <= NUMERATOR_BOUND,
        -NUMERATOR_BOUND <= p2 <= NUMERATOR_BOUND,
    ensures
        r == fraction_order(p1 as int, q1 as int, p2 as int, q2 as int),
{
    let (f1, r1) = floor_div_mod(p1, q1);
    let (f2, r2) = floor_div_mod(p2, q2);
    proof {
        lemma_fraction_order_by_parts(
            p1 as int,
            q1 as int,
            f1 as int,
            r1 as int,
            p2 as int,
            q2 as int,
            f2 as int,
            r2 as int,
        );
    }
    if f1 < f2 {
        -1
    } else if f1 > f2 {
        1
    } else {
        proof {
            assert((r1 as int) * (q2 as int) < 0x1_0000_0000_0000_0000_0000_0000_0000_0000) by (nonlinear_arith)
                requires
                    0 <= r1 < q1,
                    q1 <= 0xffff_ffff_ffff_ffff,
                    0 < q2 <= 0xffff_ffff_ffff_ffff,
            ;
            assert((r2 as int) * (q1 as int) < 0x1_0000_0000_0000_0000_0000_0000_0000_0000) by (nonlinear_arith)
                requires
                    0 <= r2 < q2,
                    q2 <= 0xffff_ffff_ffff_ffff,
                    0 < q1 <= 0xffff_ffff_ffff_ffff,
            ;
        }
        let a: u128 = (r1 as u128) * (q2 as u128);
        let b: u128 = (r2 as u128) * (q1 as u128);
        if a < b {
            -1
        } else if a > b {
            1
        } else {
            0
        }
    }
}

} // verus!
