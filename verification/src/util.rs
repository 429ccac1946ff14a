//! Mathematical views of nested vectors, integer helpers, and the
//! index arithmetic behind row-major reshaping.
use vstd::prelude::*;

verus! {

/// `x` is representable as an `i32`.
pub open spec fn fits_i32(x: int) -> bool {
    i32::MIN <= x <= i32::MAX
}

/// Integer division rounding toward zero, as Rust's `/` does on signed integers.
pub open spec fn trunc_div(a: int, d: int) -> int {
    if a >= 0 {
        if d > 0 {
            a / d
        } else {
            -(a / (-d))
        }
    } else {
        if d > 0 {
            -((-a) / d)
        } else {
            (-a) / (-d)
        }
    }
}

/// A matrix of `i32` seen as a sequence of rows.
pub open spec fn view2(v: Vec<Vec<i32>>) -> Seq<Seq<i32>> {
    Seq::new(v.len() as nat, |i: int| v[i]@)
}

/// A three-dimensional tensor seen as nested sequences.
pub open spec fn view3(v: Vec<Vec<Vec<i32>>>) -> Seq<Seq<Seq<i32>>> {
    Seq::new(v.len() as nat, |i: int| view2(v[i]))
}

/// A four-dimensional tensor seen as nested sequences.
pub open spec fn view4(v: Vec<Vec<Vec<Vec<i32>>>>) -> Seq<Seq<Seq<Seq<i32>>>> {
    Seq::new(v.len() as nat, |i: int| view3(v[i]))
}

/// Every row of `m` is at least as long as its first row.
pub open spec fn rows_cover_first(m: Seq<Seq<i32>>) -> bool {
    m.len() >= 1 && forall|r: int| 0 <= r < m.len() ==> #[trigger] m[r].len() >= m[0].len()
}

/// The product of two `i32` values fits in an `i64`.
pub proof fn lemma_i32_product_bound(a: int, b: int)
    requires
        fits_i32(a),
        fits_i32(b),
    ensures
        -0x4000_0000_0000_0000 <= a * b <= 0x4000_0000_0000_0000,
{
    assert(-0x4000_0000_0000_0000 <= a * b <= 0x4000_0000_0000_0000) by (nonlinear_arith)
        requires
            -0x8000_0000 <= a <= 0x7fff_ffff,
            -0x8000_0000 <= b <= 0x7fff_ffff,
    ;
}

/// Decides `rows_cover_first`.
pub fn rows_cover_first_check(m: &Vec<Vec<i32>>) -> (b: bool)
    ensures
        b == rows_cover_first(view2(*m)),
{
    if m.len() == 0 {
        return false;
    }
    let w = m[0].len();
    for r in 0..m.len()
        invariant
            m.len() >= 1,
            w == view2(*m)[0].len(),
            forall|q: int| 0 <= q < r ==> #[trigger] view2(*m)[q].len() >= w,
    {
        assert(view2(*m)[r as int] == m[r as int]@);
        if m[r].len() < w {
            return false;
        }
    }
    true
}

/// The pair `(x, c)` of a mixed-radix number with digit base `s` stays below `n * s`.
pub proof fn lemma_radix_bound(x: int, c: int, n: int, s: int)
    requires
        0 <= x < n,
        0 <= c < s,
    ensures
        0 <= x * s + c < n * s,
{
    assert(0 <= x * s) by (nonlinear_arith)
        requires
            0 <= x,
            0 <= s,
    ;
    assert(x * s + s <= n * s) by (nonlinear_arith)
        requires
            x + 1 <= n,
            0 <= s,
    ;
}

/// A mixed-radix digit pair `(x, c)` with digit base `s` is determined by
/// `x * s + c`.
pub proof fn lemma_radix_unique(x: int, c: int, x0: int, c0: int, s: int)
    requires
        0 <= c < s,
        0 <= c0 < s,
        x * s + c == x0 * s + c0,
    ensures
        x == x0,
        c == c0,
{
    assert((x - x0) * s == c0 - c) by (nonlinear_arith)
        requires
            x * s + c == x0 * s + c0,
    ;
    if x > x0 {
        assert((x - x0) * s >= s) by (nonlinear_arith)
            requires
                x - x0 >= 1,
                s > 0,
        ;
    } else if x < x0 {
        assert((x0 - x) * s >= s) by (nonlinear_arith)
            requires
                x0 - x >= 1,
                s > 0,
        ;
        assert((x - x0) * s == -((x0 - x) * s)) by (nonlinear_arith);
    }
}

/// Carrying one digit of base `s` into the next position.
pub proof fn lemma_radix_next(x: int, s: int)
    ensures
        x * s + s == (x + 1) * s,
{
    assert(x * s + s == (x + 1) * s) by (nonlinear_arith);
}

/// Rounding toward zero by a positive divisor keeps values inside `i32`.
pub proof fn lemma_trunc_div_fits(a: int, d: int)
    requires
        fits_i32(a),
        d >= 1,
    ensures
        fits_i32(trunc_div(a, d)),
        a >= 0 ==> 0 <= trunc_div(a, d) <= a,
        a < 0 ==> a <= trunc_div(a, d) <= 0,
{
    if a >= 0 {
        assert(0 <= a / d <= a) by (nonlinear_arith)
            requires
                a >= 0,
                d >= 1,
        ;
    } else {
        assert(0 <= (-a) / d <= -a) by (nonlinear_arith)
            requires
                -a >= 0,
                d >= 1,
        ;
    }
}

/// Rounding toward zero by any non-zero divisor never moves away from zero.
pub proof fn lemma_trunc_div_bound(a: int, d: int)
    requires
        d != 0,
    ensures
        a >= 0 ==> -a <= trunc_div(a, d) <= a,
        a < 0 ==> a <= trunc_div(a, d) <= -a,
{
    if a >= 0 {
        if d > 0 {
            assert(0 <= a / d <= a) by (nonlinear_arith)
                requires
                    a >= 0,
                    d >= 1,
            ;
        } else {
            assert(0 <= a / (-d) <= a) by (nonlinear_arith)
                requires
                    a >= 0,
                    -d >= 1,
            ;
        }
    } else {
        if d > 0 {
            assert(0 <= (-a) / d <= -a) by (nonlinear_arith)
                requires
                    -a >= 0,
                    d >= 1,
            ;
        } else {
            assert(0 <= (-a) / (-d) <= -a) by (nonlinear_arith)
                requires
                    -a >= 0,
                    -d >= 1,
            ;
        }
    }
}

} // verus!
