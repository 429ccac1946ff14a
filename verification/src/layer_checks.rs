//! Deciders for the conditions under which the layers of the convolutional
//! network run: each returns exactly whether the layer's precondition holds,
//! so that a model read from outside can be refused instead of run.
use vstd::prelude::*;
use crate::helper::{
    bias_reshape, kernel_reshape, reshape1_ok, reshape1_ok_check, reshape4_ok, reshape4_ok_check,
    spec_bias_reshape, spec_kernel_reshape,
};
use crate::op::{
    add_ok, avgpool_ok, conv_entry_fits, conv_input, conv_ok, conv_out0, conv_out1, conv_plane,
    conv_row, conv_step_fits, conv_sum, conv_term, conv_window, covers_box, dim0, dim1, dim2,
    kernel_box, mul_ok, pad_image, pool_out0, pool_out1, pool_row, pool_step_fits, pool_sum,
    window_cell_ok, ConvWindow, PoolWindow,
};
use crate::processing::{Tensor, TensorView};
use crate::util::{
    fits_i32, lemma_i32_product_bound, lemma_trunc_div_bound, lemma_trunc_div_fits, trunc_div,
    view2, view3, view4,
};

verus! {

/// Row `a` of `x` has the columns of the first row, each with the channels
/// of the first cell.
pub open spec fn row_covers(x: Seq<Seq<Seq<i32>>>, a: int) -> bool {
    &&& x[a].len() >= dim1(x)
    &&& forall|q: int| 0 <= q < dim1(x) ==> #[trigger] x[a][q].len() >= dim2(x)
}

/// Decides `covers_box`.
pub fn covers_box_check(x: &Vec<Vec<Vec<i32>>>) -> (b: bool)
    ensures
        b == covers_box(view3(*x)),
{
    let ghost xv = view3(*x);
    if x.len() == 0 || x[0].len() == 0 {
        return true;
    }
    assert(xv[0] == view2(x[0]) && xv[0][0] == x[0][0]@);
    let w = x[0].len();
    let c = x[0][0].len();
    for i in 0..x.len()
        invariant
            xv == view3(*x),
            x.len() > 0,
            w == dim1(xv),
            c == dim2(xv),
            w > 0,
            forall|a: int| 0 <= a < i ==> #[trigger] row_covers(xv, a),
    {
        assert(xv[i as int] == view2(x[i as int]));
        if x[i].len() < w {
            assert(!(w - 1 < xv[i as int].len()));
            assert(xv[i as int][w - 1].len() >= 0);
            return false;
        }
        for j in 0..w
            invariant
                xv == view3(*x),
                0 <= i < x.len(),
                w == dim1(xv),
                c == dim2(xv),
                x[i as int].len() >= w,
                xv[i as int] == view2(x[i as int]),
                forall|q: int| 0 <= q < j ==> #[trigger] xv[i as int][q].len() >= c,
        {
            assert(xv[i as int][j as int] == x[i as int][j as int]@);
            if x[i][j].len() < c {
                return false;
            }
        }
        assert(row_covers(xv, i as int));
    }
    assert(forall|a: int| 0 <= a < x.len() ==> #[trigger] row_covers(xv, a));
    assert forall|a: int| #![trigger xv[a]] 0 <= a < dim0(xv) implies xv[a].len() >= dim1(xv) by {
        assert(row_covers(xv, a));
    }
    assert forall|a: int, q: int| 0 <= a < dim0(xv) && 0 <= q < dim1(xv) implies #[trigger] xv[a][q].len()
        >= dim2(xv) by {
        assert(row_covers(xv, a));
    }
    assert(covers_box(xv));
    true
}

/// Decides `add_ok`: whether `add` can run on `x` with this bias.
pub fn add_ok_check(x: &Vec<Vec<Vec<i32>>>, bias: &Tensor) -> (b: bool)
    ensures
        b == add_ok(view3(*x), bias@),
{
    let ghost xv = view3(*x);
    if !reshape1_ok_check(bias) || !covers_box_check(x) {
        return false;
    }
    if x.len() == 0 || x[0].len() == 0 {
        return true;
    }
    assert(xv[0] == view2(x[0]) && xv[0][0] == x[0][0]@);
    let w = x[0].len();
    let c = x[0][0].len();
    if c > bias.shape[0] as usize {
        return false;
    }
    for i in 0..x.len()
        invariant
            xv == view3(*x),
            covers_box(xv),
            x.len() > 0,
            w == dim1(xv),
            c == dim2(xv),
            c <= bias@.shape[0] <= bias@.data.len(),
            forall|a: int, q: int, r: int|
                0 <= a < i && 0 <= q < w && 0 <= r < c ==> fits_i32(
                    #[trigger] xv[a][q][r] + bias@.data[r],
                ),
    {
        for j in 0..w
            invariant
                xv == view3(*x),
                covers_box(xv),
                0 <= i < x.len(),
                w == dim1(xv),
                c == dim2(xv),
                c <= bias@.shape[0] <= bias@.data.len(),
                forall|a: int, q: int, r: int|
                    ((0 <= a < i && 0 <= q < w) || (a == i && 0 <= q < j)) && 0 <= r < c ==> fits_i32(
                        #[trigger] xv[a][q][r] + bias@.data[r],
                    ),
        {
            assert(xv[i as int][j as int] == x[i as int][j as int]@);
            assert(j < xv[i as int].len() && xv[i as int][j as int].len() >= c);
            for k in 0..c
                invariant
                    xv == view3(*x),
                    0 <= i < x.len(),
                    0 <= j < w,
                    w == dim1(xv),
                    c == dim2(xv),
                    x[i as int].len() > j,
                    x[i as int][j as int].len() >= c,
                    xv[i as int][j as int] == x[i as int][j as int]@,
                    c <= bias@.shape[0] <= bias@.data.len(),
                    forall|a: int, q: int, r: int|
                        (((0 <= a < i && 0 <= q < w) || (a == i && 0 <= q < j)) && 0 <= r < c) || (a
                            == i && q == j && 0 <= r < k) ==> fits_i32(
                            #[trigger] xv[a][q][r] + bias@.data[r],
                        ),
            {
                let v: i64 = x[i][j][k] as i64 + bias.data[k] as i64;
                if v < i32::MIN as i64 || v > i32::MAX as i64 {
                    assert(!fits_i32(xv[i as int][j as int][k as int] + bias@.data[k as int]));
                    return false;
                }
            }
        }
    }
    true
}

/// Decides `mul_ok`: whether `mul` can run on `x` with this scale.
pub fn mul_ok_check(x: &Vec<Vec<Vec<i32>>>, scale: &Tensor) -> (b: bool)
    ensures
        b == mul_ok(view3(*x), scale@),
{
    let ghost xv = view3(*x);
    if !reshape1_ok_check(scale) || !covers_box_check(x) {
        return false;
    }
    if x.len() == 0 || x[0].len() == 0 {
        return true;
    }
    assert(xv[0] == view2(x[0]) && xv[0][0] == x[0][0]@);
    let w = x[0].len();
    let c = x[0][0].len();
    if c > scale.shape[0] as usize {
        return false;
    }
    for i in 0..x.len()
        invariant
            xv == view3(*x),
            covers_box(xv),
            x.len() > 0,
            w == dim1(xv),
            c == dim2(xv),
            c <= scale@.shape[0] <= scale@.data.len(),
            forall|a: int, q: int, r: int|
                0 <= a < i && 0 <= q < w && 0 <= r < c ==> fits_i32(
                    #[trigger] xv[a][q][r] * scale@.data[r],
                ),
    {
        for j in 0..w
            invariant
                xv == view3(*x),
                covers_box(xv),
                0 <= i < x.len(),
                w == dim1(xv),
                c == dim2(xv),
                c <= scale@.shape[0] <= scale@.data.len(),
                forall|a: int, q: int, r: int|
                    ((0 <= a < i && 0 <= q < w) || (a == i && 0 <= q < j)) && 0 <= r < c ==> fits_i32(
                        #[trigger] xv[a][q][r] * scale@.data[r],
                    ),
        {
            assert(xv[i as int][j as int] == x[i as int][j as int]@);
            assert(j < xv[i as int].len() && xv[i as int][j as int].len() >= c);
            for k in 0..c
                invariant
                    xv == view3(*x),
                    0 <= i < x.len(),
                    0 <= j < w,
                    w == dim1(xv),
                    c == dim2(xv),
                    x[i as int].len() > j,
                    x[i as int][j as int].len() >= c,
                    xv[i as int][j as int] == x[i as int][j as int]@,
                    c <= scale@.shape[0] <= scale@.data.len(),
                    forall|a: int, q: int, r: int|
                        (((0 <= a < i && 0 <= q < w) || (a == i && 0 <= q < j)) && 0 <= r < c) || (a
                            == i && q == j && 0 <= r < k) ==> fits_i32(
                            #[trigger] xv[a][q][r] * scale@.data[r],
                        ),
            {
                let xa = x[i][j][k];
                let sa = scale.data[k];
                proof {
                    lemma_i32_product_bound(xa as int, sa as int);
                }
                let v: i64 = xa as i64 * sa as i64;
                if v < i32::MIN as i64 || v > i32::MAX as i64 {
                    assert(!fits_i32(xv[i as int][j as int][k as int] * scale@.data[k as int]));
                    return false;
                }
            }
        }
    }
    true
}

/// Every offset `(m, l)` of the `mm x ll` window at output `(i, j)` is a
/// cell of `x` with at least `c` channels.
pub open spec fn window_ok(
    x: Seq<Seq<Seq<i32>>>,
    sh: int,
    sw: int,
    i: int,
    j: int,
    mm: int,
    ll: int,
    c: int,
) -> bool {
    forall|m: int, l: int|
        0 <= m < mm && 0 <= l < ll ==> #[trigger] window_cell_ok(x, sh, sw, i, j, m, l, c)
}

/// Decides `window_ok`.
fn window_ok_at(
    x: &Vec<Vec<Vec<i32>>>,
    sh: i32,
    sw: i32,
    i: usize,
    j: usize,
    mm: usize,
    ll: usize,
    c: usize,
) -> (b: bool)
    requires
        i <= i32::MAX,
        j <= i32::MAX,
        mm <= i32::MAX,
        ll <= i32::MAX,
    ensures
        b == window_ok(view3(*x), sh as int, sw as int, i as int, j as int, mm as int, ll as int, c as int),
{
    let ghost xv = view3(*x);
    proof {
        lemma_i32_product_bound(i as int, sh as int);
        lemma_i32_product_bound(j as int, sw as int);
    }
    for m in 0..mm
        invariant
            xv == view3(*x),
            i <= i32::MAX,
            j <= i32::MAX,
            mm <= i32::MAX,
            ll <= i32::MAX,
            -0x4000_0000_0000_0000 <= i * sh <= 0x4000_0000_0000_0000,
            -0x4000_0000_0000_0000 <= j * sw <= 0x4000_0000_0000_0000,
            forall|a: int, b: int|
                0 <= a < m && 0 <= b < ll ==> #[trigger] window_cell_ok(
                    xv,
                    sh as int,
                    sw as int,
                    i as int,
                    j as int,
                    a,
                    b,
                    c as int,
                ),
    {
        for l in 0..ll
            invariant
                xv == view3(*x),
                i <= i32::MAX,
                j <= i32::MAX,
                0 <= m < mm,
                mm <= i32::MAX,
                ll <= i32::MAX,
                -0x4000_0000_0000_0000 <= i * sh <= 0x4000_0000_0000_0000,
                -0x4000_0000_0000_0000 <= j * sw <= 0x4000_0000_0000_0000,
                forall|a: int, b: int|
                    (0 <= a < m && 0 <= b < ll) || (a == m && 0 <= b < l) ==> #[trigger] window_cell_ok(
                        xv,
                        sh as int,
                        sw as int,
                        i as int,
                        j as int,
                        a,
                        b,
                        c as int,
                    ),
        {
            let r: i64 = i as i64 * sh as i64 + m as i64;
            if r < 0 || r as u64 >= x.len() as u64 {
                assert(!window_cell_ok(xv, sh as int, sw as int, i as int, j as int, m as int, l as int, c as int));
                return false;
            }
            let ru = r as usize;
            assert(xv[ru as int] == view2(x[ru as int]));
            let q: i64 = j as i64 * sw as i64 + l as i64;
            if q < 0 || q as u64 >= x[ru].len() as u64 {
                assert(!window_cell_ok(xv, sh as int, sw as int, i as int, j as int, m as int, l as int, c as int));
                return false;
            }
            let qu = q as usize;
            assert(xv[ru as int][qu as int] == x[ru as int][qu as int]@);
            if x[ru][qu].len() < c {
                assert(!window_cell_ok(xv, sh as int, sw as int, i as int, j as int, m as int, l as int, c as int));
                return false;
            }
        }
    }
    true
}

/// Every running total of the pooling window stays inside `i32`.
pub open spec fn pool_steps_ok(p: PoolWindow, mm: int, ll: int) -> bool {
    forall|m: int, l: int| 0 <= m < mm && 0 <= l < ll ==> #[trigger] pool_step_fits(p, m, l, ll)
}

/// Sums a pooling window in `i32` as `avgpool2d` does: `None` when a running
/// total leaves `i32`.
fn pool_window_checked(
    x: &Vec<Vec<Vec<i32>>>,
    sh: i32,
    sw: i32,
    i: usize,
    j: usize,
    k: usize,
    mm: usize,
    ll: usize,
) -> (r: Option<i32>)
    requires
        i <= i32::MAX,
        j <= i32::MAX,
        mm <= i32::MAX,
        ll <= i32::MAX,
        window_ok(view3(*x), sh as int, sw as int, i as int, j as int, mm as int, ll as int, k + 1),
    ensures
        r is Some <==> pool_steps_ok(
            PoolWindow { x: view3(*x), sh: sh as int, sw: sw as int, i: i as int, j: j as int, k: k as int },
            mm as int,
            ll as int,
        ),
        r is Some ==> r->0 == pool_sum(
            PoolWindow { x: view3(*x), sh: sh as int, sw: sw as int, i: i as int, j: j as int, k: k as int },
            mm as int,
            ll as int,
        ),
{
    let ghost xv = view3(*x);
    let ghost p = PoolWindow { x: xv, sh: sh as int, sw: sw as int, i: i as int, j: j as int, k: k as int };
    proof {
        lemma_i32_product_bound(i as int, sh as int);
        lemma_i32_product_bound(j as int, sw as int);
    }
    let mut acc: i32 = 0;
    for m in 0..mm
        invariant
            xv == view3(*x),
            p == (PoolWindow { x: xv, sh: sh as int, sw: sw as int, i: i as int, j: j as int, k: k as int }),
            i <= i32::MAX,
            j <= i32::MAX,
            mm <= i32::MAX,
            ll <= i32::MAX,
            -0x4000_0000_0000_0000 <= i * sh <= 0x4000_0000_0000_0000,
            -0x4000_0000_0000_0000 <= j * sw <= 0x4000_0000_0000_0000,
            window_ok(xv, sh as int, sw as int, i as int, j as int, mm as int, ll as int, k + 1),
            acc == pool_sum(p, m as int, ll as int),
            forall|a: int, b: int| 0 <= a < m && 0 <= b < ll ==> #[trigger] pool_step_fits(p, a, b, ll as int),
    {
        for l in 0..ll
            invariant
                xv == view3(*x),
                p == (PoolWindow { x: xv, sh: sh as int, sw: sw as int, i: i as int, j: j as int, k: k as int }),
                i <= i32::MAX,
                j <= i32::MAX,
                0 <= m < mm,
                mm <= i32::MAX,
                ll <= i32::MAX,
                -0x4000_0000_0000_0000 <= i * sh <= 0x4000_0000_0000_0000,
                -0x4000_0000_0000_0000 <= j * sw <= 0x4000_0000_0000_0000,
                window_ok(xv, sh as int, sw as int, i as int, j as int, mm as int, ll as int, k + 1),
                acc == pool_sum(p, m as int, ll as int) + pool_row(p, m as int, l as int),
                forall|a: int, b: int|
                    (0 <= a < m && 0 <= b < ll) || (a == m && 0 <= b < l) ==> #[trigger] pool_step_fits(
                        p,
                        a,
                        b,
                        ll as int,
                    ),
        {
            assert(window_cell_ok(xv, sh as int, sw as int, i as int, j as int, m as int, l as int, k + 1));
            let ru = (i as i64 * sh as i64 + m as i64) as usize;
            let qu = (j as i64 * sw as i64 + l as i64) as usize;
            assert(xv[ru as int] == view2(x[ru as int]));
            assert(xv[ru as int][qu as int] == x[ru as int][qu as int]@);
            let s: i64 = acc as i64 + x[ru][qu][k] as i64;
            if s < i32::MIN as i64 || s > i32::MAX as i64 {
                assert(!pool_step_fits(p, m as int, l as int, ll as int));
                return None;
            }
            acc = s as i32;
        }
    }
    Some(acc)
}

/// The sums of the pooling window at `(i, j)` in channel `k` stay inside
/// `i32`, and so does their quotient by `params[0] * params[2]`.
pub open spec fn pool_cell_ok(x: Seq<Seq<Seq<i32>>>, params: Seq<i32>, i: int, j: int, k: int) -> bool {
    let p = PoolWindow { x, sh: params[2] as int, sw: params[3] as int, i, j, k };
    &&& pool_steps_ok(p, params[0] as int, params[1] as int)
    &&& fits_i32(trunc_div(pool_sum(p, params[0] as int, params[1] as int), params[0] * params[2]))
}

/// Decides `avgpool_ok`: whether `avgpool2d` can run on `x` with these parameters.
pub fn avgpool_ok_check(x: &Vec<Vec<Vec<i32>>>, params: &Vec<i32>) -> (b: bool)
    ensures
        b == avgpool_ok(view3(*x), params@),
{
    let ghost xv = view3(*x);
    let ghost ps = params@;
    if params.len() < 4 || x.len() < 1 || x.len() > i32::MAX as usize {
        return false;
    }
    assert(xv[0] == view2(x[0]));
    if x[0].len() < 1 || x[0].len() > i32::MAX as usize {
        return false;
    }
    assert(xv[0][0] == x[0][0]@);
    let c = x[0][0].len();
    let p0 = params[0];
    let p1 = params[1];
    let p2 = params[2];
    let p3 = params[3];
    if c > i32::MAX as usize || p2 == 0 || p3 == 0 {
        return false;
    }
    let rl: i64 = x.len() as i64 - p0 as i64;
    let cl: i64 = x[0].len() as i64 - p1 as i64;
    if rl < i32::MIN as i64 || rl > i32::MAX as i64 || cl < i32::MIN as i64 || cl > i32::MAX as i64 {
        return false;
    }
    let rows_left = rl as i32;
    let cols_left = cl as i32;
    proof {
        lemma_trunc_div_bound(rows_left as int, p2 as int);
        lemma_trunc_div_bound(cols_left as int, p3 as int);
    }
    let od0: i64 = rows_left.checked_div(p2).unwrap() as i64 + 1;
    let od1: i64 = cols_left.checked_div(p3).unwrap() as i64 + 1;
    assert(od0 == pool_out0(xv, ps) && od1 == pool_out1(xv, ps));
    if od0 < 0 || od0 > i32::MAX as i64 || od1 < 0 || od1 > i32::MAX as i64 {
        return false;
    }
    if od0 == 0 || od1 == 0 || c == 0 {
        return true;
    }
    if p0 < 1 || p1 < 0 {
        return false;
    }
    proof {
        lemma_i32_product_bound(p0 as int, p2 as int);
        assert(p0 * p2 != 0) by (nonlinear_arith)
            requires
                p0 >= 1,
                p2 != 0,
        ;
    }
    let prod: i64 = p0 as i64 * p2 as i64;
    if prod < i32::MIN as i64 || prod > i32::MAX as i64 {
        return false;
    }
    if (p1 > 0 && p2 < 0 && od0 != 1) || (p1 > 0 && p3 < 0 && od1 != 1) {
        return false;
    }
    let mm = p0 as usize;
    let ll = p1 as usize;
    let n0 = od0 as usize;
    let n1 = od1 as usize;
    for i in 0..n0
        invariant
            xv == view3(*x),
            ps == params@,
            ps.len() >= 4,
            p0 == ps[0] && p1 == ps[1] && p2 == ps[2] && p3 == ps[3],
            mm == p0 && ll == p1,
            n0 == pool_out0(xv, ps) && n1 == pool_out1(xv, ps),
            c == xv[0][0].len(),
            c > 0,
            n0 <= i32::MAX && n1 <= i32::MAX,
            mm <= i32::MAX && ll <= i32::MAX,
            forall|a: int, b: int|
                0 <= a < i && 0 <= b < n1 ==> #[trigger] window_ok(
                    xv,
                    p2 as int,
                    p3 as int,
                    a,
                    b,
                    mm as int,
                    ll as int,
                    c as int,
                ),
    {
        for j in 0..n1
            invariant
                xv == view3(*x),
                ps == params@,
                ps.len() >= 4,
                p0 == ps[0] && p1 == ps[1] && p2 == ps[2] && p3 == ps[3],
                mm == p0 && ll == p1,
                c == xv[0][0].len(),
                c > 0,
                n0 == pool_out0(xv, ps) && n1 == pool_out1(xv, ps),
                0 <= i < n0,
                n0 <= i32::MAX && n1 <= i32::MAX,
                mm <= i32::MAX && ll <= i32::MAX,
                forall|a: int, b: int|
                    (0 <= a < i && 0 <= b < n1) || (a == i && 0 <= b < j) ==> #[trigger] window_ok(
                        xv,
                        p2 as int,
                        p3 as int,
                        a,
                        b,
                        mm as int,
                        ll as int,
                        c as int,
                    ),
        {
            if !window_ok_at(x, p2, p3, i, j, mm, ll, c) {
                proof {
                    if avgpool_ok(xv, ps) {
                        assert forall|m: int, l: int| 0 <= m < mm && 0 <= l < ll implies #[trigger] window_cell_ok(
                            xv,
                            p2 as int,
                            p3 as int,
                            i as int,
                            j as int,
                            m,
                            l,
                            c as int,
                        ) by {}
                    }
                }
                return false;
            }
        }
    }
    for i in 0..n0
        invariant
            xv == view3(*x),
            ps == params@,
            ps.len() >= 4,
            p0 == ps[0] && p1 == ps[1] && p2 == ps[2] && p3 == ps[3],
            mm == p0 && ll == p1,
            prod == p0 * p2,
            prod != 0,
            fits_i32(prod as int),
            n0 == pool_out0(xv, ps) && n1 == pool_out1(xv, ps),
            c == xv[0][0].len(),
            n0 == pool_out0(xv, ps) && n1 == pool_out1(xv, ps),
            n0 <= i32::MAX && n1 <= i32::MAX,
            mm <= i32::MAX && ll <= i32::MAX,
            forall|a: int, b: int|
                0 <= a < n0 && 0 <= b < n1 ==> #[trigger] window_ok(
                    xv,
                    p2 as int,
                    p3 as int,
                    a,
                    b,
                    mm as int,
                    ll as int,
                    c as int,
                ),
            forall|a: int, b: int, e: int|
                0 <= a < i && 0 <= b < n1 && 0 <= e < c ==> #[trigger] pool_cell_ok(xv, ps, a, b, e),
    {
        for j in 0..n1
            invariant
                xv == view3(*x),
                ps == params@,
                ps.len() >= 4,
                p0 == ps[0] && p1 == ps[1] && p2 == ps[2] && p3 == ps[3],
                mm == p0 && ll == p1,
                prod == p0 * p2,
                prod != 0,
                fits_i32(prod as int),
                n0 == pool_out0(xv, ps) && n1 == pool_out1(xv, ps),
                c == xv[0][0].len(),
                0 <= i < n0,
                n0 <= i32::MAX && n1 <= i32::MAX,
                mm <= i32::MAX && ll <= i32::MAX,
                forall|a: int, b: int|
                    0 <= a < n0 && 0 <= b < n1 ==> #[trigger] window_ok(
                        xv,
                        p2 as int,
                        p3 as int,
                        a,
                        b,
                        mm as int,
                        ll as int,
                        c as int,
                    ),
                forall|a: int, b: int, e: int|
                    ((0 <= a < i && 0 <= b < n1) || (a == i && 0 <= b < j)) && 0 <= e < c
                        ==> #[trigger] pool_cell_ok(xv, ps, a, b, e),
        {
            for k in 0..c
                invariant
                    xv == view3(*x),
                    ps == params@,
                    ps.len() >= 4,
                    p0 == ps[0] && p1 == ps[1] && p2 == ps[2] && p3 == ps[3],
                    mm == p0 && ll == p1,
                    prod == p0 * p2,
                    prod != 0,
                    fits_i32(prod as int),
                    n0 == pool_out0(xv, ps) && n1 == pool_out1(xv, ps),
                    c == xv[0][0].len(),
                    0 <= i < n0,
                    0 <= j < n1,
                    n0 <= i32::MAX && n1 <= i32::MAX,
                    mm <= i32::MAX && ll <= i32::MAX,
                    window_ok(xv, p2 as int, p3 as int, i as int, j as int, mm as int, ll as int, c as int),
                    forall|a: int, b: int, e: int|
                        (((0 <= a < i && 0 <= b < n1) || (a == i && 0 <= b < j)) && 0 <= e < c) || (a
                            == i && b == j && 0 <= e < k) ==> #[trigger] pool_cell_ok(xv, ps, a, b, e),
            {
                assert forall|m: int, l: int| 0 <= m < mm && 0 <= l < ll implies #[trigger] window_cell_ok(
                    xv,
                    p2 as int,
                    p3 as int,
                    i as int,
                    j as int,
                    m,
                    l,
                    k + 1,
                ) by {
                    assert(window_cell_ok(xv, p2 as int, p3 as int, i as int, j as int, m, l, c as int));
                }
                match pool_window_checked(x, p2, p3, i, j, k, mm, ll) {
                    None => {
                        proof {
                            if avgpool_ok(xv, ps) {
                                assert forall|m: int, l: int| 0 <= m < mm && 0 <= l < ll implies #[trigger] pool_step_fits(
                                    PoolWindow { x: xv, sh: p2 as int, sw: p3 as int, i: i as int, j: j as int, k: k as int },
                                    m,
                                    l,
                                    ll as int,
                                ) by {}
                            }
                        }
                        return false;
                    },
                    Some(total) => {
                        if total.checked_div(prod as i32).is_none() {
                            proof {
                                if avgpool_ok(xv, ps) {
                                    assert(fits_i32(
                                        trunc_div(
                                            pool_sum(
                                                PoolWindow { x: xv, sh: ps[2] as int, sw: ps[3] as int, i: i as int, j: j as int, k: k as int },
                                                ps[0] as int,
                                                ps[1] as int,
                                            ),
                                            ps[0] * ps[2],
                                        ),
                                    ));
                                }
                            }
                            return false;
                        }
                        assert(pool_cell_ok(xv, ps, i as int, j as int, k as int));
                    },
                }
            }
        }
    }
    proof {
        assert forall|a: int, b: int, m: int, l: int|
            0 <= a < n0 && 0 <= b < n1 && 0 <= m < ps[0] && 0 <= l < ps[1] implies #[trigger] window_cell_ok(
                xv,
                ps[2] as int,
                ps[3] as int,
                a,
                b,
                m,
                l,
                c as int,
            ) by {
            assert(window_ok(xv, p2 as int, p3 as int, a, b, mm as int, ll as int, c as int));
        }
        assert forall|a: int, b: int, e: int, m: int, l: int|
            0 <= a < n0 && 0 <= b < n1 && 0 <= e < c && 0 <= m < ps[0] && 0 <= l < ps[1] implies #[trigger] pool_step_fits(
                PoolWindow { x: xv, sh: ps[2] as int, sw: ps[3] as int, i: a, j: b, k: e },
                m,
                l,
                ps[1] as int,
            ) by {
            assert(pool_cell_ok(xv, ps, a, b, e));
        }
        assert forall|a: int, b: int, e: int|
            0 <= a < n0 && 0 <= b < n1 && 0 <= e < c implies fits_i32(
                trunc_div(
                    #[trigger] pool_sum(
                        PoolWindow { x: xv, sh: ps[2] as int, sw: ps[3] as int, i: a, j: b, k: e },
                        ps[0] as int,
                        ps[1] as int,
                    ),
                    ps[0] * ps[2],
                ),
            ) by {
            assert(pool_cell_ok(xv, ps, a, b, e));
        }
    }
    true
}

/// Every product and running total of the convolution window stays inside `i32`.
pub open spec fn conv_steps_ok(c: ConvWindow, nn: int, mm: int, ll: int) -> bool {
    forall|n: int, m: int, l: int|
        0 <= n < nn && 0 <= m < mm && 0 <= l < ll ==> #[trigger] conv_step_fits(c, n, m, l, mm, ll)
}

/// Sums a convolution window in `i32` as `conv2d` does: `None` when a
/// product or a running total leaves `i32`.
fn conv_window_checked(
    image: &Vec<Vec<Vec<i32>>>,
    kernel: &Vec<Vec<Vec<Vec<i32>>>>,
    stride: i32,
    i: usize,
    j: usize,
    k: usize,
    nn: usize,
    mm: usize,
    ll: usize,
) -> (r: Option<i32>)
    requires
        i <= i32::MAX,
        j <= i32::MAX,
        mm <= i32::MAX,
        ll <= i32::MAX,
        nn > 0 ==> window_ok(view3(*image), stride as int, stride as int, i as int, j as int, mm as int, ll as int, nn as int),
        kernel_box(view4(*kernel), k as int, mm as int, ll as int, nn as int),
    ensures
        r is Some <==> conv_steps_ok(
            ConvWindow { x: view3(*image), w: view4(*kernel), s: stride as int, i: i as int, j: j as int, k: k as int },
            nn as int,
            mm as int,
            ll as int,
        ),
        r is Some ==> r->0 == conv_sum(
            ConvWindow { x: view3(*image), w: view4(*kernel), s: stride as int, i: i as int, j: j as int, k: k as int },
            nn as int,
            mm as int,
            ll as int,
        ),
{
    let ghost xv = view3(*image);
    let ghost wv = view4(*kernel);
    let ghost c = ConvWindow { x: xv, w: wv, s: stride as int, i: i as int, j: j as int, k: k as int };
    proof {
        lemma_i32_product_bound(i as int, stride as int);
        lemma_i32_product_bound(j as int, stride as int);
    }
    let mut acc: i32 = 0;
    for n in 0..nn
        invariant
            xv == view3(*image),
            wv == view4(*kernel),
            c == (ConvWindow { x: xv, w: wv, s: stride as int, i: i as int, j: j as int, k: k as int }),
            i <= i32::MAX && j <= i32::MAX && mm <= i32::MAX && ll <= i32::MAX,
            -0x4000_0000_0000_0000 <= i * stride <= 0x4000_0000_0000_0000,
            -0x4000_0000_0000_0000 <= j * stride <= 0x4000_0000_0000_0000,
            nn > 0 ==> window_ok(xv, stride as int, stride as int, i as int, j as int, mm as int, ll as int, nn as int),
            kernel_box(wv, k as int, mm as int, ll as int, nn as int),
            acc == conv_sum(c, n as int, mm as int, ll as int),
            forall|a: int, b: int, e: int|
                0 <= a < n && 0 <= b < mm && 0 <= e < ll ==> #[trigger] conv_step_fits(c, a, b, e, mm as int, ll as int),
    {
        for m in 0..mm
            invariant
                xv == view3(*image),
                wv == view4(*kernel),
                c == (ConvWindow { x: xv, w: wv, s: stride as int, i: i as int, j: j as int, k: k as int }),
                0 <= n < nn,
                i <= i32::MAX && j <= i32::MAX && mm <= i32::MAX && ll <= i32::MAX,
                -0x4000_0000_0000_0000 <= i * stride <= 0x4000_0000_0000_0000,
                -0x4000_0000_0000_0000 <= j * stride <= 0x4000_0000_0000_0000,
                window_ok(xv, stride as int, stride as int, i as int, j as int, mm as int, ll as int, nn as int),
                kernel_box(wv, k as int, mm as int, ll as int, nn as int),
                acc == conv_sum(c, n as int, mm as int, ll as int) + conv_plane(c, n as int, m as int, ll as int),
                forall|a: int, b: int, e: int|
                    (0 <= a < n && 0 <= b < mm && 0 <= e < ll) || (a == n && 0 <= b < m && 0 <= e < ll)
                        ==> #[trigger] conv_step_fits(c, a, b, e, mm as int, ll as int),
        {
            for l in 0..ll
                invariant
                    xv == view3(*image),
                    wv == view4(*kernel),
                    c == (ConvWindow { x: xv, w: wv, s: stride as int, i: i as int, j: j as int, k: k as int }),
                    0 <= n < nn,
                    0 <= m < mm,
                    i <= i32::MAX && j <= i32::MAX && mm <= i32::MAX && ll <= i32::MAX,
                    -0x4000_0000_0000_0000 <= i * stride <= 0x4000_0000_0000_0000,
                    -0x4000_0000_0000_0000 <= j * stride <= 0x4000_0000_0000_0000,
                    window_ok(xv, stride as int, stride as int, i as int, j as int, mm as int, ll as int, nn as int),
                    kernel_box(wv, k as int, mm as int, ll as int, nn as int),
                    acc == conv_sum(c, n as int, mm as int, ll as int) + conv_plane(c, n as int, m as int, ll as int)
                        + conv_row(c, n as int, m as int, l as int),
                    forall|a: int, b: int, e: int|
                        (0 <= a < n && 0 <= b < mm && 0 <= e < ll) || (a == n && 0 <= b < m && 0 <= e < ll)
                            || (a == n && b == m && 0 <= e < l) ==> #[trigger] conv_step_fits(
                            c,
                            a,
                            b,
                            e,
                            mm as int,
                            ll as int,
                        ),
            {
                assert(window_cell_ok(xv, stride as int, stride as int, i as int, j as int, m as int, l as int, nn as int));
                assert(wv[k as int][m as int].len() >= ll);
                assert(wv[k as int][m as int][l as int].len() >= nn);
                let ru = (i as i64 * stride as i64 + m as i64) as usize;
                let qu = (j as i64 * stride as i64 + l as i64) as usize;
                assert(xv[ru as int] == view2(image[ru as int]));
                assert(xv[ru as int][qu as int] == image[ru as int][qu as int]@);
                assert(wv[k as int] == view3(kernel[k as int]));
                assert(wv[k as int][m as int] == view2(kernel[k as int][m as int]));
                assert(wv[k as int][m as int][l as int] == kernel[k as int][m as int][l as int]@);
                let xa = image[ru][qu][n];
                let wa = kernel[k][m][l][n];
                proof {
                    lemma_i32_product_bound(xa as int, wa as int);
                }
                let t: i64 = xa as i64 * wa as i64;
                assert(t == conv_term(c, n as int, m as int, l as int));
                if t < i32::MIN as i64 || t > i32::MAX as i64 {
                    assert(!conv_step_fits(c, n as int, m as int, l as int, mm as int, ll as int));
                    return None;
                }
                let s: i64 = acc as i64 + t;
                if s < i32::MIN as i64 || s > i32::MAX as i64 {
                    assert(!conv_step_fits(c, n as int, m as int, l as int, mm as int, ll as int));
                    return None;
                }
                assert(conv_step_fits(c, n as int, m as int, l as int, mm as int, ll as int));
                acc = s as i32;
            }
        }
    }
    Some(acc)
}

/// The conditions of `conv_ok` on the (padded) image `xi`: its size, the
/// output size, and, when there is an output, the windows and the arithmetic.
pub open spec fn conv_image_ok(xi: Seq<Seq<Seq<i32>>>, kernel: TensorView, bias: TensorView, stride: i32) -> bool {
    let od0 = conv_out0(xi, kernel, stride);
    let od1 = conv_out1(xi, kernel, stride);
    let kk = kernel.shape[0] as int;
    let mm = kernel.shape[1] as int;
    let ll = kernel.shape[2] as int;
    let nn = kernel.shape[3] as int;
    &&& 1 <= xi.len() <= i32::MAX
    &&& xi[0].len() <= i32::MAX
    &&& 0 <= od0 <= i32::MAX
    &&& 0 <= od1 <= i32::MAX
    &&& od0 > 0 && od1 > 0 ==> {
        &&& ll >= 1
        &&& bias.shape[0] >= kk
        &&& nn > 0 && stride < 0 ==> od0 == 1 && od1 == 1
        &&& forall|i: int, j: int, m: int, l: int|
            0 <= i < od0 && 0 <= j < od1 && 0 <= m < mm && 0 <= l < ll && nn > 0
                ==> #[trigger] window_cell_ok(xi, stride as int, stride as int, i, j, m, l, nn)
        &&& forall|i: int, j: int, k: int|
            0 <= i < od0 && 0 <= j < od1 && 0 <= k < kk ==> #[trigger] conv_entry_fits(
                conv_window(xi, kernel, stride, i, j, k),
                nn,
                mm,
                ll,
                spec_bias_reshape(bias),
            )
    }
}

/// Decides `conv_image_ok` on an image, with the kernel and bias already
/// unfolded.
fn conv_image_check(
    xi: &Vec<Vec<Vec<i32>>>,
    kernel: &Vec<Vec<Vec<Vec<i32>>>>,
    bias: &Vec<i32>,
    Ghost(kt): Ghost<TensorView>,
    Ghost(bt): Ghost<TensorView>,
    stride: i32,
) -> (b: bool)
    requires
        reshape4_ok(kt.data.len() as int, kt.shape),
        reshape1_ok(bt),
        kt.shape[0] >= 1,
        kt.shape[1] >= 1,
        stride != 0,
        view4(*kernel) == spec_kernel_reshape(kt),
        bias@ == spec_bias_reshape(bt),
    ensures
        b == conv_image_ok(view3(*xi), kt, bt, stride),
{
    let ghost xv = view3(*xi);
    let ghost wv = view4(*kernel);
    let ghost bv = bias@;
    if xi.len() < 1 || xi.len() > i32::MAX as usize {
        return false;
    }
    assert(xv[0] == view2(xi[0]));
    if xi[0].len() > i32::MAX as usize {
        return false;
    }
    assert(wv.len() == kt.shape[0] && wv[0].len() == kt.shape[1]);
    assert(wv[0] == view3(kernel[0]) && wv[0][0] == view2(kernel[0][0]));
    let kk = kernel.len();
    let mm = kernel[0].len();
    let ll = kernel[0][0].len();
    assert(kt.shape.len() >= 3 && kt.shape[2] >= 0);
    assert(wv[0][0].len() == kt.shape[2]);
    assert(view2(kernel[0][0]).len() == kernel[0][0].len());
    assert(ll == kt.shape[2]);
    let rows_left = xi.len() as i32 - mm as i32;
    let cols_left = xi[0].len() as i32 - ll as i32;
    proof {
        lemma_trunc_div_bound(rows_left as int, stride as int);
        lemma_trunc_div_bound(cols_left as int, stride as int);
    }
    let od0: i64 = rows_left.checked_div(stride).unwrap() as i64 + 1;
    let od1: i64 = cols_left.checked_div(stride).unwrap() as i64 + 1;
    assert(od0 == conv_out0(xv, kt, stride) && od1 == conv_out1(xv, kt, stride));
    if od0 < 0 || od0 > i32::MAX as i64 || od1 < 0 || od1 > i32::MAX as i64 {
        return false;
    }
    if od0 == 0 || od1 == 0 {
        return true;
    }
    if ll < 1 || bias.len() < kk {
        return false;
    }
    assert(wv[0][0][0] == kernel[0][0][0]@);
    let nn = kernel[0][0][0].len();
    assert(nn == kt.shape[3]);
    if nn > 0 && stride < 0 && !(od0 == 1 && od1 == 1) {
        return false;
    }
    let n0 = od0 as usize;
    let n1 = od1 as usize;
    if nn > 0 {
        for i in 0..n0
            invariant
                xv == view3(*xi),
                n0 == conv_out0(xv, kt, stride) && n1 == conv_out1(xv, kt, stride),
                n0 <= i32::MAX && n1 <= i32::MAX,
                mm == kt.shape[1] && ll == kt.shape[2] && nn == kt.shape[3],
                mm <= i32::MAX && ll <= i32::MAX,
                nn > 0,
                forall|a: int, b: int|
                    0 <= a < i && 0 <= b < n1 ==> #[trigger] window_ok(
                        xv,
                        stride as int,
                        stride as int,
                        a,
                        b,
                        mm as int,
                        ll as int,
                        nn as int,
                    ),
        {
            for j in 0..n1
                invariant
                    xv == view3(*xi),
                    n0 == conv_out0(xv, kt, stride) && n1 == conv_out1(xv, kt, stride),
                    0 <= i < n0,
                    n0 <= i32::MAX && n1 <= i32::MAX,
                    mm == kt.shape[1] && ll == kt.shape[2] && nn == kt.shape[3],
                    mm <= i32::MAX && ll <= i32::MAX,
                    nn > 0,
                    forall|a: int, b: int|
                        (0 <= a < i && 0 <= b < n1) || (a == i && 0 <= b < j) ==> #[trigger] window_ok(
                            xv,
                            stride as int,
                            stride as int,
                            a,
                            b,
                            mm as int,
                            ll as int,
                            nn as int,
                        ),
            {
                if !window_ok_at(xi, stride, stride, i, j, mm, ll, nn) {
                    proof {
                        if conv_image_ok(xv, kt, bt, stride) {
                            assert forall|m: int, l: int| 0 <= m < mm && 0 <= l < ll implies #[trigger] window_cell_ok(
                                xv,
                                stride as int,
                                stride as int,
                                i as int,
                                j as int,
                                m,
                                l,
                                nn as int,
                            ) by {}
                        }
                    }
                    return false;
                }
            }
        }
    }
    for i in 0..n0
        invariant
            xv == view3(*xi),
            wv == view4(*kernel),
            wv == spec_kernel_reshape(kt),
            bv == bias@,
            bv == spec_bias_reshape(bt),
            reshape4_ok(kt.data.len() as int, kt.shape),
            n0 == conv_out0(xv, kt, stride) && n1 == conv_out1(xv, kt, stride),
            n0 <= i32::MAX && n1 <= i32::MAX,
            kk == kt.shape[0] && mm == kt.shape[1] && ll == kt.shape[2] && nn == kt.shape[3],
            kk >= 1 && mm >= 1 && ll >= 1,
            mm <= i32::MAX && ll <= i32::MAX,
            bias.len() >= kk,
            nn > 0 ==> forall|a: int, b: int|
                0 <= a < n0 && 0 <= b < n1 ==> #[trigger] window_ok(
                    xv,
                    stride as int,
                    stride as int,
                    a,
                    b,
                    mm as int,
                    ll as int,
                    nn as int,
                ),
            forall|a: int, b: int, e: int|
                0 <= a < i && 0 <= b < n1 && 0 <= e < kk ==> #[trigger] conv_entry_fits(
                    conv_window(xv, kt, stride, a, b, e),
                    nn as int,
                    mm as int,
                    ll as int,
                    bv,
                ),
    {
        for j in 0..n1
            invariant
                xv == view3(*xi),
                wv == view4(*kernel),
                wv == spec_kernel_reshape(kt),
                bv == bias@,
                bv == spec_bias_reshape(bt),
                reshape4_ok(kt.data.len() as int, kt.shape),
                n0 == conv_out0(xv, kt, stride) && n1 == conv_out1(xv, kt, stride),
                0 <= i < n0,
                n0 <= i32::MAX && n1 <= i32::MAX,
                kk == kt.shape[0] && mm == kt.shape[1] && ll == kt.shape[2] && nn == kt.shape[3],
                kk >= 1 && mm >= 1 && ll >= 1,
                mm <= i32::MAX && ll <= i32::MAX,
                bias.len() >= kk,
                nn > 0 ==> forall|a: int, b: int|
                    0 <= a < n0 && 0 <= b < n1 ==> #[trigger] window_ok(
                        xv,
                        stride as int,
                        stride as int,
                        a,
                        b,
                        mm as int,
                        ll as int,
                        nn as int,
                    ),
                forall|a: int, b: int, e: int|
                    ((0 <= a < i && 0 <= b < n1) || (a == i && 0 <= b < j)) && 0 <= e < kk
                        ==> #[trigger] conv_entry_fits(
                        conv_window(xv, kt, stride, a, b, e),
                        nn as int,
                        mm as int,
                        ll as int,
                        bv,
                    ),
        {
            for k in 0..kk
                invariant
                    xv == view3(*xi),
                    wv == view4(*kernel),
                    wv == spec_kernel_reshape(kt),
                    bv == bias@,
                    bv == spec_bias_reshape(bt),
                    reshape4_ok(kt.data.len() as int, kt.shape),
                    n0 == conv_out0(xv, kt, stride) && n1 == conv_out1(xv, kt, stride),
                    0 <= i < n0,
                    0 <= j < n1,
                    n0 <= i32::MAX && n1 <= i32::MAX,
                    kk == kt.shape[0] && mm == kt.shape[1] && ll == kt.shape[2] && nn == kt.shape[3],
                    kk >= 1 && mm >= 1 && ll >= 1,
                    mm <= i32::MAX && ll <= i32::MAX,
                    bias.len() >= kk,
                    nn > 0 ==> window_ok(xv, stride as int, stride as int, i as int, j as int, mm as int, ll as int, nn as int),
                    forall|a: int, b: int, e: int|
                        (((0 <= a < i && 0 <= b < n1) || (a == i && 0 <= b < j)) && 0 <= e < kk) || (a == i && b
                            == j && 0 <= e < k) ==> #[trigger] conv_entry_fits(
                            conv_window(xv, kt, stride, a, b, e),
                            nn as int,
                            mm as int,
                            ll as int,
                            bv,
                        ),
            {
                let ghost cw = conv_window(xv, kt, stride, i as int, j as int, k as int);
                assert(kernel_box(wv, k as int, mm as int, ll as int, nn as int));
                match conv_window_checked(xi, kernel, stride, i, j, k, nn, mm, ll) {
                    None => {
                        assert(!conv_entry_fits(cw, nn as int, mm as int, ll as int, bv));
                        return false;
                    },
                    Some(total) => {
                        proof {
                            lemma_trunc_div_fits(total as int, 512);
                        }
                        let v: i64 = (total / 512) as i64 + bias[k] as i64;
                        if v < i32::MIN as i64 || v > i32::MAX as i64 {
                            assert(!conv_entry_fits(cw, nn as int, mm as int, ll as int, bv));
                            return false;
                        }
                        assert(conv_entry_fits(cw, nn as int, mm as int, ll as int, bv));
                    },
                }
            }
        }
    }
    proof {
        assert forall|a: int, b: int, m: int, l: int|
            0 <= a < n0 && 0 <= b < n1 && 0 <= m < mm && 0 <= l < ll && nn > 0 implies #[trigger] window_cell_ok(
                xv,
                stride as int,
                stride as int,
                a,
                b,
                m,
                l,
                nn as int,
            ) by {
            assert(window_ok(xv, stride as int, stride as int, a, b, mm as int, ll as int, nn as int));
        }
    }
    true
}

/// Decides `conv_ok`: whether `conv2d` can run on `x` with this kernel, bias,
/// stride and padding.
pub fn conv_ok_check(x: &Vec<Vec<Vec<i32>>>, kernel: Tensor, bias: Tensor, stride: i32, padding: i32) -> (b: bool)
    ensures
        b == conv_ok(view3(*x), kernel@, bias@, stride, padding),
{
    let ghost xv = view3(*x);
    let ghost kt = kernel@;
    let ghost bt = bias@;
    if !reshape4_ok_check(&kernel) || !reshape1_ok_check(&bias) || kernel.shape[0] < 1 {
        return false;
    }
    if kernel.shape[1] < 1 || stride == 0 {
        return false;
    }
    let ll = kernel.shape[2];
    let kernel = kernel_reshape(kernel);
    let bias = bias_reshape(bias);
    if padding == 0 {
        if ll < 1 || x.len() < 1 {
            return false;
        }
        let p = ((ll - 1) / 2) as usize;
        assert(p == (kt.shape[2] - 1) / 2);
        assert(xv[0] == view2(x[0]));
        if (x[0].len() < 1 && p != 0) || !covers_box_check(x) {
            return false;
        }
        if x.len() as u128 + 2 * (p as u128) > 0x7fff_ffff || x[0].len() as u128 + 2 * (p as u128) > 0x7fff_ffff {
            assert(!conv_image_ok(conv_input(xv, kt, padding), kt, bt, stride));
            return false;
        }
        let padded = pad_image(x, p);
        conv_image_check(&padded, &kernel, &bias, Ghost(kt), Ghost(bt), stride)
    } else {
        conv_image_check(x, &kernel, &bias, Ghost(kt), Ghost(bt), stride)
    }
}

} // verus!
