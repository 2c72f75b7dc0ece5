//! Exact integer arithmetic the tables rely on: a quotient that exists only when the
//! division has no remainder.
use vstd::prelude::*;

verus! {

/// A value that a signed 64-bit integer can hold.
pub open spec fn fits_i64(v: int) -> bool {
    i64::MIN <= v <= i64::MAX
}

proof fn lemma_divides_by_magnitude(a: int, d: int, m: int)
    requires
        d != 0,
        m >= 0,
        (if a < 0 { -a } else { a }) == (if d < 0 { -d } else { d }) * m,
    ensures
        a % d == 0,
        a / d == (if (a < 0) == (d < 0) { m } else { -m }),
{
    let q = if (a < 0) == (d < 0) { m } else { -m };
    assert(a == d * q) by (nonlinear_arith)
        requires
            d != 0,
            m >= 0,
            (if a < 0 { -a } else { a }) == (if d < 0 { -d } else { d }) * m,
            q == (if (a < 0) == (d < 0) { m } else { -m }),
    ;
    assert(a % d == 0 && a / d == q) by (nonlinear_arith)
        requires
            a == d * q,
            d != 0,
    ;
}

proof fn lemma_not_divides_by_magnitude(a: int, d: int)
    requires
        d != 0,
        (if a < 0 { -a } else { a }) % (if d < 0 { -d } else { d }) != 0,
    ensures
        a % d != 0,
{
    if a % d == 0 {
        let q = a / d;
        vstd::arithmetic::div_mod::lemma_fundamental_div_mod(a, d);
        let aa = if a < 0 { -a } else { a };
        let dd = if d < 0 { -d } else { d };
        let m = if q < 0 { -q } else { q };
        assert(aa == dd * m) by (nonlinear_arith)
            requires
                a == d * q,
                aa == (if a < 0 { -a } else { a }),
                dd == (if d < 0 { -d } else { d }),
                m == (if q < 0 { -q } else { q }),
        ;
        assert(aa % dd == 0) by (nonlinear_arith)
            requires
                aa == dd * m,
                dd > 0,
        ;
    }
}

/// `a / d` when `d` divides `a` exactly, and `None` when it does not (or `d` is zero).
pub fn exact_quotient(a: i128, d: i128) -> (r: Option<i128>)
    requires
        -0x4000_0000_0000_0000_0000_0000_0000_0000 <= a <= 0x4000_0000_0000_0000_0000_0000_0000_0000,
        -0x4000_0000_0000_0000_0000_0000_0000_0000 <= d <= 0x4000_0000_0000_0000_0000_0000_0000_0000,
    ensures
        r == (if d == 0 || a % d != 0 {
            None::<i128>
        } else {
            Some((a / d) as i128)
        }),
        r matches Some(q) ==> q == a / d,
{
    if d == 0 {
        return None;
    }
    let aa: u128 = if a < 0 { (0 - a) as u128 } else { a as u128 };
    let dd: u128 = if d < 0 { (0 - d) as u128 } else { d as u128 };
    if aa % dd != 0 {
        proof {
            lemma_not_divides_by_magnitude(a as int, d as int);
        }
        return None;
    }
    let m: u128 = aa / dd;
    proof {
        vstd::arithmetic::div_mod::lemma_fundamental_div_mod(aa as int, dd as int);
        lemma_divides_by_magnitude(a as int, d as int, m as int);
        assert(m <= aa) by (nonlinear_arith)
            requires
                aa == dd * m,
                dd >= 1,
        ;
    }
    if (a < 0) == (d < 0) {
        Some(m as i128)
    } else {
        Some(0 - m as i128)
    }
}

} // verus!
