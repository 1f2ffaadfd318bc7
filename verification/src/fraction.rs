//! Exact comparison of products of integers whose products may not fit a
//! machine word.
use vstd::prelude::*;

verus! {

/// Whether `a * d < c * b`, that is `a / b < c / d` for positive `b` and
/// `d`, computed without forming the products.
pub fn frac_less(a: u128, b: u128, c: u128, d: u128) -> (r: bool)
    ensures
        r == (a * d < c * b),
    decreases b + d,
{
    if b == 0 {
        assert(a * d >= 0) by (nonlinear_arith);
        return false;
    }
    if d == 0 {
        assert(c * b > 0 <==> c > 0) by (nonlinear_arith)
            requires
                b > 0,
        ;
        return c > 0;
    }
    let q1 = a / b;
    let r1 = a % b;
    let q2 = c / d;
    let r2 = c % d;
    proof {
        vstd::arithmetic::div_mod::lemma_fundamental_div_mod(a as int, b as int);
        vstd::arithmetic::div_mod::lemma_fundamental_div_mod(c as int, d as int);
        vstd::arithmetic::div_mod::lemma_mod_bound(a as int, b as int);
        vstd::arithmetic::div_mod::lemma_mod_bound(c as int, d as int);
    }
    if q1 < q2 {
        assert(a * d < c * b) by (nonlinear_arith)
            requires
                a == b * q1 + r1,
                c == d * q2 + r2,
                0 <= r1 < b,
                0 <= r2 < d,
                q1 + 1 <= q2,
                b > 0,
                d > 0,
        {
            assert(a < b * (q1 + 1));
            assert(a * d < b * (q1 + 1) * d);
            assert(d * (q1 + 1) <= d * q2);
            assert(b * (q1 + 1) * d <= b * (d * q2));
        }
        return true;
    }
    if q2 < q1 {
        assert(!(a * d < c * b)) by (nonlinear_arith)
            requires
                a == b * q1 + r1,
                c == d * q2 + r2,
                0 <= r1 < b,
                0 <= r2 < d,
                q2 + 1 <= q1,
                b > 0,
                d > 0,
        {
            assert(c < d * (q2 + 1));
            assert(c * b < d * (q2 + 1) * b);
            assert(b * (q2 + 1) <= b * q1);
            assert(d * (q2 + 1) * b <= d * (b * q1));
        }
        return false;
    }
    assert((a * d < c * b) == (r1 * d < r2 * b)) by (nonlinear_arith)
        requires
            a == b * q1 + r1,
            c == d * q1 + r2,
    ;
    if r1 == 0 {
        assert(r1 * d == 0) by (nonlinear_arith)
            requires
                r1 == 0,
        ;
        assert((0int < r2 * b) == (r2 > 0)) by (nonlinear_arith)
            requires
                b > 0,
                r2 >= 0,
        ;
        return r2 > 0;
    }
    if r2 == 0 {
        assert(r2 * b == 0) by (nonlinear_arith)
            requires
                r2 == 0,
        ;
        assert(r1 * d >= 0) by (nonlinear_arith)
            requires
                r1 >= 0,
                d >= 0,
        ;
        return false;
    }
    assert(r1 * d == d * r1 && r2 * b == b * r2) by (nonlinear_arith);
    frac_less(d, r2, b, r1)
}

/// The absolute value of `x`.
pub fn abs_i128(x: i128) -> (r: u128)
    ensures
        r as int == (if x < 0 { -(x as int) } else { x as int }),
{
    if x >= 0 {
        x as u128
    } else {
        (-(x + 1)) as u128 + 1
    }
}

/// Whether `x * p < y * q`, computed without forming the products.
pub fn lt_products(x: i128, p: u128, y: i128, q: u128) -> (r: bool)
    ensures
        r == (x * p < y * q),
{
    if p == 0 {
        assert((0int < y * q) == (y > 0 && q > 0)) by (nonlinear_arith)
            requires
                q >= 0,
        ;
        return y > 0 && q > 0;
    }
    if q == 0 {
        assert((x * p < 0int) == (x < 0)) by (nonlinear_arith)
            requires
                p > 0,
        ;
        return x < 0;
    }
    if x >= 0 && y < 0 {
        assert(x * p >= 0 && y * q < 0) by (nonlinear_arith)
            requires
                x >= 0,
                y < 0,
                p > 0,
                q > 0,
        ;
        return false;
    }
    if x < 0 && y >= 0 {
        assert(x * p < 0 && y * q >= 0) by (nonlinear_arith)
            requires
                x < 0,
                y >= 0,
                p > 0,
                q > 0,
        ;
        return true;
    }
    if x >= 0 {
        let r = frac_less(x as u128, q, y as u128, p);
        r
    } else {
        let ax = abs_i128(x);
        let ay = abs_i128(y);
        assert((x * p < y * q) == (ay * q < ax * p)) by (nonlinear_arith)
            requires
                ax == -x,
                ay == -y,
        ;
        frac_less(ay, p, ax, q)
    }
}

} // verus!
