//! The layers of the integer networks: convolution, average pooling,
//! channel-wise addition and scaling, fully connected layers and the
//! activations. Values are fixed-point numbers with scale 512: products are
//! divided by 512, rounding toward zero.
use vstd::prelude::*;
use crate::helper::{
    bias_reshape, kernel_reshape, reshape1_ok, reshape4_ok, spec_bias_reshape,
    spec_kernel_reshape,
};
use crate::processing::{Tensor, TensorView};
use crate::shape::{spec_transpose, transpose};
use crate::util::{
    fits_i32, lemma_i32_product_bound, lemma_radix_bound, lemma_radix_unique, lemma_trunc_div_bound,
    lemma_trunc_div_fits, rows_cover_first,
    rows_cover_first_check, trunc_div, view2, view3, view4,
};

verus! {

/// `x` clamped to the fixed-point range `[0, 6]`, that is `[0, 6 * 512]` = `[0, 3072]`.
pub open spec fn spec_relu6(x: int) -> int {
    if x < 0 {
        0
    } else if x > 3072 {
        3072
    } else {
        x
    }
}

/// `x` with negative values replaced by 0.
pub open spec fn spec_relu(x: int) -> int {
    if x < 0 {
        0
    } else {
        x
    }
}

/// Clamps a fixed-point value to `[0, 6]`.
pub fn relu6(inp: i32) -> (out: i32)
    ensures
        out == spec_relu6(inp as int),
{
    if inp < 0 {
        return 0;
    } else if inp > 6 * 512 {
        return 6 * 512;
    } else {
        return inp;
    }
}

/// `relu6` keeps every value inside the fixed-point range `[0, 6]`, and
/// leaves the values inside it unchanged.
pub proof fn lemma_relu6_range(x: int)
    ensures
        0 <= spec_relu6(x) <= 3072,
        0 <= x <= 3072 ==> spec_relu6(x) == x,
{
}

/// Replaces a negative value by 0.
pub fn relu(inp: i32) -> (out: i32)
    ensures
        out == spec_relu(inp as int),
{
    if inp < 0 {
        return 0;
    } else {
        return inp;
    }
}

/// Number of rows of a tensor.
pub open spec fn dim0(x: Seq<Seq<Seq<i32>>>) -> int {
    x.len() as int
}

/// Number of columns of the first row, 0 for an empty tensor.
pub open spec fn dim1(x: Seq<Seq<Seq<i32>>>) -> int {
    if x.len() > 0 {
        x[0].len() as int
    } else {
        0
    }
}

/// Number of channels of the first cell, 0 when there is none.
pub open spec fn dim2(x: Seq<Seq<Seq<i32>>>) -> int {
    if x.len() > 0 && x[0].len() > 0 {
        x[0][0].len() as int
    } else {
        0
    }
}

/// Every row has the columns of the first row, and every cell of them the
/// channels of the first cell.
pub open spec fn covers_box(x: Seq<Seq<Seq<i32>>>) -> bool {
    forall|i: int, j: int|
        0 <= i < dim0(x) && 0 <= j < dim1(x) ==> j < x[i].len() && #[trigger] x[i][j].len()
            >= dim2(x)
}

/// A tensor with the same nesting as `x` whose entry `(i, j, k)` is `x[i][j][k] + b[k]`
/// inside the box fixed by the first row and cell, and `x[i][j][k]` outside it.
pub open spec fn spec_add(x: Seq<Seq<Seq<i32>>>, b: Seq<i32>) -> Seq<Seq<Seq<i32>>> {
    Seq::new(
        x.len(),
        |i: int|
            Seq::new(
                x[i].len(),
                |j: int|
                    Seq::new(
                        x[i][j].len(),
                        |k: int|
                            if j < dim1(x) && k < dim2(x) {
                                (x[i][j][k] + b[k]) as i32
                            } else {
                                x[i][j][k]
                            },
                    ),
            ),
    )
}

/// `add` reads only entries that exist and its sums stay inside `i32`.
pub open spec fn add_ok(x: Seq<Seq<Seq<i32>>>, bias: TensorView) -> bool {
    &&& reshape1_ok(bias)
    &&& covers_box(x)
    &&& dim2(x) <= bias.shape[0]
    &&& forall|i: int, j: int, k: int|
        0 <= i < dim0(x) && 0 <= j < dim1(x) && 0 <= k < dim2(x) ==> fits_i32(
            #[trigger] x[i][j][k] + bias.data[k],
        )
}

/// Adds `bias[k]` to channel `k` of every cell in the box fixed by the first
/// row and cell; other entries stay as they are.
pub fn add(inp: Vec<Vec<Vec<i32>>>, bias: Tensor) -> (out: Vec<Vec<Vec<i32>>>)
    requires
        add_ok(view3(inp), bias@),
    ensures
        view3(out) == spec_add(view3(inp), spec_bias_reshape(bias@)),
{
    let ghost x = view3(inp);
    let ghost bv = bias@;
    let b = bias_reshape(bias);
    let ghost spec = spec_add(x, b@);
    let h = inp.len();
    let w = if h > 0 {
        inp[0].len()
    } else {
        0
    };
    let c = if h > 0 && w > 0 {
        inp[0][0].len()
    } else {
        0
    };
    let mut out: Vec<Vec<Vec<i32>>> = Vec::new();
    for i in 0..h
        invariant
            x == view3(inp),
            add_ok(x, bv),
            b@ == spec_bias_reshape(bv),
            spec == spec_add(x, b@),
            h == dim0(x),
            w == dim1(x),
            c == dim2(x),
            out.len() == i,
            forall|r: int| 0 <= r < i ==> #[trigger] view2(out[r]) == spec[r],
    {
        let mut row: Vec<Vec<i32>> = Vec::new();
        let wi = inp[i].len();
        for j in 0..wi
            invariant
                x == view3(inp),
                add_ok(x, bv),
                b@ == spec_bias_reshape(bv),
                spec == spec_add(x, b@),
                h == dim0(x),
                w == dim1(x),
                c == dim2(x),
                0 <= i < h,
                wi == inp[i as int].len(),
                row.len() == j,
                forall|q: int| 0 <= q < j ==> #[trigger] row[q]@ == spec[i as int][q],
        {
            let mut cell: Vec<i32> = Vec::new();
            if j < w {
                assert(x[i as int][j as int].len() >= c);
            }
            let cij = inp[i][j].len();
            for k in 0..cij
                invariant
                    x == view3(inp),
                    add_ok(x, bv),
                    b@ == spec_bias_reshape(bv),
                    spec == spec_add(x, b@),
                    h == dim0(x),
                    w == dim1(x),
                    c == dim2(x),
                    0 <= i < h,
                    0 <= j < inp[i as int].len(),
                    cij == inp[i as int][j as int].len(),
                    cell@ == spec[i as int][j as int].subrange(0, k as int),
            {
                let v = if j < w && k < c {
                    assert(fits_i32(x[i as int][j as int][k as int] + bv.data[k as int]));
                    inp[i][j][k] + b[k]
                } else {
                    inp[i][j][k]
                };
                cell.push(v);
                assert(cell@ =~= spec[i as int][j as int].subrange(0, k + 1));
            }
            assert(cell@ =~= spec[i as int][j as int]);
            row.push(cell);
        }
        assert(view2(row) =~= spec[i as int]);
        out.push(row);
    }
    assert(view3(out) =~= spec);
    out
}

/// Entry `(i, j, k)` multiplied by `s[k]` and divided by 512 inside the box
/// fixed by the first row and cell, unchanged outside it.
pub open spec fn spec_mul(x: Seq<Seq<Seq<i32>>>, s: Seq<i32>) -> Seq<Seq<Seq<i32>>> {
    Seq::new(
        x.len(),
        |i: int|
            Seq::new(
                x[i].len(),
                |j: int|
                    Seq::new(
                        x[i][j].len(),
                        |k: int|
                            if j < dim1(x) && k < dim2(x) {
                                trunc_div(x[i][j][k] * s[k], 512) as i32
                            } else {
                                x[i][j][k]
                            },
                    ),
            ),
    )
}

/// `mul` reads only entries that exist and its products stay inside `i32`.
pub open spec fn mul_ok(x: Seq<Seq<Seq<i32>>>, scale: TensorView) -> bool {
    &&& reshape1_ok(scale)
    &&& covers_box(x)
    &&& dim2(x) <= scale.shape[0]
    &&& forall|i: int, j: int, k: int|
        0 <= i < dim0(x) && 0 <= j < dim1(x) && 0 <= k < dim2(x) ==> fits_i32(
            #[trigger] x[i][j][k] * scale.data[k],
        )
}

/// Multiplies channel `k` of every cell in the box fixed by the first row
/// and cell by the fixed-point factor `scale[k]`.
pub fn mul(inp: Vec<Vec<Vec<i32>>>, scale: Tensor) -> (out: Vec<Vec<Vec<i32>>>)
    requires
        mul_ok(view3(inp), scale@),
    ensures
        view3(out) == spec_mul(view3(inp), spec_bias_reshape(scale@)),
{
    let ghost x = view3(inp);
    let ghost sv = scale@;
    let s = bias_reshape(scale);
    let ghost spec = spec_mul(x, s@);
    let h = inp.len();
    let w = if h > 0 {
        inp[0].len()
    } else {
        0
    };
    let c = if h > 0 && w > 0 {
        inp[0][0].len()
    } else {
        0
    };
    let mut out: Vec<Vec<Vec<i32>>> = Vec::new();
    for i in 0..h
        invariant
            x == view3(inp),
            mul_ok(x, sv),
            s@ == spec_bias_reshape(sv),
            spec == spec_mul(x, s@),
            h == dim0(x),
            w == dim1(x),
            c == dim2(x),
            out.len() == i,
            forall|r: int| 0 <= r < i ==> #[trigger] view2(out[r]) == spec[r],
    {
        let mut row: Vec<Vec<i32>> = Vec::new();
        let wi = inp[i].len();
        for j in 0..wi
            invariant
                x == view3(inp),
                mul_ok(x, sv),
                s@ == spec_bias_reshape(sv),
                spec == spec_mul(x, s@),
                h == dim0(x),
                w == dim1(x),
                c == dim2(x),
                0 <= i < h,
                wi == inp[i as int].len(),
                row.len() == j,
                forall|q: int| 0 <= q < j ==> #[trigger] row[q]@ == spec[i as int][q],
        {
            let mut cell: Vec<i32> = Vec::new();
            if j < w {
                assert(x[i as int][j as int].len() >= c);
            }
            let cij = inp[i][j].len();
            for k in 0..cij
                invariant
                    x == view3(inp),
                    mul_ok(x, sv),
                    s@ == spec_bias_reshape(sv),
                    spec == spec_mul(x, s@),
                    h == dim0(x),
                    w == dim1(x),
                    c == dim2(x),
                    0 <= i < h,
                    0 <= j < inp[i as int].len(),
                    cij == inp[i as int][j as int].len(),
                    cell@ == spec[i as int][j as int].subrange(0, k as int),
            {
                let v = if j < w && k < c {
                    assert(fits_i32(x[i as int][j as int][k as int] * sv.data[k as int]));
                    let p = inp[i][j][k] * s[k];
                    proof {
                        lemma_trunc_div_fits(p as int, 512);
                    }
                    p / 512
                } else {
                    inp[i][j][k]
                };
                cell.push(v);
                assert(cell@ =~= spec[i as int][j as int].subrange(0, k + 1));
            }
            assert(cell@ =~= spec[i as int][j as int]);
            row.push(cell);
        }
        assert(view2(row) =~= spec[i as int]);
        out.push(row);
    }
    assert(view3(out) =~= spec);
    out
}

/// `a[0] * b[0] + ... + a[n - 1] * b[n - 1]`.
pub open spec fn dot(a: Seq<i32>, b: Seq<i32>, n: int) -> int
    decreases n,
{
    if n <= 0 {
        0
    } else {
        dot(a, b, n - 1) + a[n - 1] * b[n - 1]
    }
}

/// Accumulating `dot(a, b, n)` term by term in `i32` never overflows.
pub open spec fn dot_fits(a: Seq<i32>, b: Seq<i32>, n: int) -> bool {
    forall|t: int|
        0 <= t < n ==> fits_i32(a[t] * b[t]) && fits_i32(#[trigger] dot(a, b, t) + a[t] * b[t])
}

/// One output of a fully connected layer: the dot product divided by 512,
/// plus the bias unless it is switched off, through ReLU when `relu_on`.
pub open spec fn fc_value(
    row: Seq<i32>,
    weights: Seq<i32>,
    n: int,
    bias: Seq<i32>,
    j: int,
    relu_on: bool,
    biasoff: bool,
) -> int {
    let v = trunc_div(dot(row, weights, n), 512);
    let v = if biasoff {
        v
    } else {
        v + bias[j]
    };
    if relu_on {
        spec_relu(v)
    } else {
        v
    }
}

/// Entry `(i, j)` is the fixed-point product of input row `i` with kernel row
/// `j` over the first `inp[0].len()` positions, finished by `fc_value`.
pub open spec fn spec_fc_layer(
    inp: Seq<Seq<i32>>,
    kernel: Seq<Seq<i32>>,
    bias: Seq<i32>,
    params: Seq<i32>,
    biasoff: bool,
) -> Seq<Seq<i32>> {
    Seq::new(
        inp.len(),
        |i: int|
            Seq::new(
                kernel.len(),
                |j: int|
                    fc_value(
                        inp[i],
                        kernel[j],
                        inp[0].len() as int,
                        bias,
                        j,
                        params[0] == 1,
                        biasoff,
                    ) as i32,
            ),
    )
}

/// `fc_layer` reads only entries that exist and its arithmetic stays inside `i32`.
pub open spec fn fc_ok(
    inp: Seq<Seq<i32>>,
    kernel: Seq<Seq<i32>>,
    bias: Seq<i32>,
    params: Seq<i32>,
    biasoff: bool,
) -> bool {
    &&& rows_cover_first(kernel)
    &&& inp.len() > 0 ==> {
        &&& kernel[0].len() >= 1
        &&& rows_cover_first(inp)
        &&& inp[0].len() <= kernel[0].len()
        &&& params.len() >= 1
        &&& !biasoff ==> bias.len() >= kernel.len()
        &&& forall|i: int, j: int|
            0 <= i < inp.len() && 0 <= j < kernel.len() ==> #[trigger] fc_entry_fits(
                inp[i],
                kernel[j],
                inp[0].len() as int,
                bias,
                j,
                biasoff,
            )
    }
}

/// The arithmetic of one output of `fc_layer` stays inside `i32`.
pub open spec fn fc_entry_fits(
    row: Seq<i32>,
    weights: Seq<i32>,
    n: int,
    bias: Seq<i32>,
    j: int,
    biasoff: bool,
) -> bool {
    &&& dot_fits(row, weights, n)
    &&& !biasoff ==> fits_i32(trunc_div(dot(row, weights, n), 512) + bias[j])
}

/// A fully connected layer: multiplies every input row by the transposed
/// kernel, divides by 512, adds the bias unless `biasoff`, and applies ReLU
/// when `params[0] == 1`.
pub fn fc_layer(
    inp: Vec<Vec<i32>>,
    kernel: Vec<Vec<i32>>,
    bias: Vec<i32>,
    params: Vec<i32>,
    biasoff: bool,
) -> (out: Vec<Vec<i32>>)
    requires
        fc_ok(view2(inp), view2(kernel), bias@, params@, biasoff),
    ensures
        view2(out) == spec_fc_layer(view2(inp), view2(kernel), bias@, params@, biasoff),
{
    let ghost x = view2(inp);
    let ghost kv = view2(kernel);
    let ghost spec = spec_fc_layer(x, kv, bias@, params@, biasoff);
    let transposed_kernel = transpose(kernel);
    let ghost t = view2(transposed_kernel);
    let mut out: Vec<Vec<i32>> = Vec::new();
    for i in 0..inp.len()
        invariant
            x == view2(inp),
            t == view2(transposed_kernel),
            t == spec_transpose(kv),
            fc_ok(x, kv, bias@, params@, biasoff),
            spec == spec_fc_layer(x, kv, bias@, params@, biasoff),
            out.len() == i,
            forall|r: int| 0 <= r < i ==> #[trigger] out[r]@ == spec[r],
    {
        assert(x.len() > 0);
        assert(t.len() == kv[0].len() && t.len() == transposed_kernel.len());
        assert(t[0] == transposed_kernel[0]@);
        let nj = transposed_kernel[0].len();
        let nk = inp[0].len();
        assert(x[i as int].len() >= x[0].len());
        let mut row: Vec<i32> = Vec::new();
        for j in 0..nj
            invariant
                x == view2(inp),
                t == view2(transposed_kernel),
                t == spec_transpose(kv),
                fc_ok(x, kv, bias@, params@, biasoff),
                spec == spec_fc_layer(x, kv, bias@, params@, biasoff),
                0 <= i < x.len(),
                nj == kv.len(),
                nk == x[0].len(),
                x[i as int].len() >= nk,
                t.len() == transposed_kernel.len(),
                row@ == spec[i as int].subrange(0, j as int),
        {
            assert(fc_entry_fits(x[i as int], kv[j as int], nk as int, bias@, j as int, biasoff));
            assert(kv[j as int].len() >= kv[0].len());
            let mut acc: i32 = 0;
            for k in 0..nk
                invariant
                    x == view2(inp),
                    t == view2(transposed_kernel),
                    t == spec_transpose(kv),
                    fc_ok(x, kv, bias@, params@, biasoff),
                    0 <= i < x.len(),
                    0 <= j < kv.len(),
                    nk == x[0].len(),
                    x[i as int].len() >= nk,
                    kv[j as int].len() >= kv[0].len(),
                    nk <= kv[0].len(),
                    t.len() == transposed_kernel.len(),
                    dot_fits(x[i as int], kv[j as int], nk as int),
                    acc == dot(x[i as int], kv[j as int], k as int),
            {
                assert(t[k as int] == transposed_kernel[k as int]@);
                assert(t[k as int][j as int] == kv[j as int][k as int]);
                assert(fits_i32(dot(x[i as int], kv[j as int], k as int) + x[i as int][k as int] * kv[j as int][k as int]));
                let buf = inp[i][k] * transposed_kernel[k][j];
                acc = acc + buf;
            }
            proof {
                lemma_trunc_div_fits(acc as int, 512);
            }
            acc = acc / 512;
            if !biasoff {
                acc = acc + bias[j];
            }
            if params[0] == 1 {
                acc = relu(acc);
            }
            row.push(acc);
            assert(row@ =~= spec[i as int].subrange(0, j + 1));
        }
        assert(row@ =~= spec[i as int]);
        out.push(row);
    }
    assert(view2(out) =~= spec);
    out
}

/// Accumulates `dot(a, b, n)` in `i32` as `fc_layer` does: `None` when a
/// product or a running total leaves `i32`.
fn dot_checked(a: &Vec<i32>, b: &Vec<i32>, n: usize) -> (r: Option<i32>)
    requires
        n <= a.len(),
        n <= b.len(),
    ensures
        r is Some <==> dot_fits(a@, b@, n as int),
        r is Some ==> r->0 == dot(a@, b@, n as int),
{
    let mut acc: i32 = 0;
    for k in 0..n
        invariant
            n <= a.len(),
            n <= b.len(),
            dot_fits(a@, b@, k as int),
            acc == dot(a@, b@, k as int),
    {
        let ak = a[k];
        let bk = b[k];
        proof {
            lemma_i32_product_bound(ak as int, bk as int);
        }
        let p: i64 = ak as i64 * bk as i64;
        assert(p == a@[k as int] * b@[k as int]);
        if p < i32::MIN as i64 || p > i32::MAX as i64 {
            assert(!fits_i32(a@[k as int] * b@[k as int]));
            assert(dot(a@, b@, k as int) == acc);
            return None;
        }
        let s: i64 = acc as i64 + p;
        if s < i32::MIN as i64 || s > i32::MAX as i64 {
            assert(!fits_i32(dot(a@, b@, k as int) + a@[k as int] * b@[k as int]));
            return None;
        }
        proof {
            assert(dot(a@, b@, k + 1) == s);
            assert forall|t: int| #![trigger a@[t]] 0 <= t < k + 1 implies fits_i32(a@[t] * b@[t]) && fits_i32(
                dot(a@, b@, t) + a@[t] * b@[t],
            ) by {
                if t < k {
                    assert(dot_fits(a@, b@, k as int));
                    assert(fits_i32(dot(a@, b@, t) + a@[t] * b@[t]));
                }
            }
            assert(dot_fits(a@, b@, k + 1));
        }
        acc = s as i32;
    }
    Some(acc)
}

/// Decides `fc_ok`: whether `fc_layer` can run on these arguments.
pub fn fc_ok_check(
    inp: &Vec<Vec<i32>>,
    kernel: &Vec<Vec<i32>>,
    bias: &Vec<i32>,
    params: &Vec<i32>,
    biasoff: bool,
) -> (b: bool)
    ensures
        b == fc_ok(view2(*inp), view2(*kernel), bias@, params@, biasoff),
{
    let ghost x = view2(*inp);
    let ghost kv = view2(*kernel);
    if !rows_cover_first_check(kernel) {
        return false;
    }
    if inp.len() == 0 {
        return true;
    }
    assert(kv[0] == kernel[0]@ && x[0] == inp[0]@);
    if kernel[0].len() < 1 || !rows_cover_first_check(inp) || inp[0].len() > kernel[0].len()
        || params.len() < 1 || (!biasoff && bias.len() < kernel.len()) {
        return false;
    }
    let n = inp[0].len();
    for i in 0..inp.len()
        invariant
            x == view2(*inp),
            kv == view2(*kernel),
            rows_cover_first(kv),
            rows_cover_first(x),
            n == x[0].len(),
            n <= kv[0].len(),
            !biasoff ==> bias.len() >= kernel.len(),
            forall|a: int, c: int|
                0 <= a < i && 0 <= c < kv.len() ==> #[trigger] fc_entry_fits(
                    x[a],
                    kv[c],
                    n as int,
                    bias@,
                    c,
                    biasoff,
                ),
    {
        for j in 0..kernel.len()
            invariant
                x == view2(*inp),
                kv == view2(*kernel),
                rows_cover_first(kv),
                rows_cover_first(x),
                0 <= i < x.len(),
                n == x[0].len(),
                n <= kv[0].len(),
                !biasoff ==> bias.len() >= kernel.len(),
                forall|a: int, c: int|
                    (0 <= a < i && 0 <= c < kv.len()) || (a == i && 0 <= c < j) ==> #[trigger] fc_entry_fits(
                        x[a],
                        kv[c],
                        n as int,
                        bias@,
                        c,
                        biasoff,
                    ),
        {
            assert(x[i as int] == inp[i as int]@ && kv[j as int] == kernel[j as int]@);
            assert(x[i as int].len() >= n && kv[j as int].len() >= kv[0].len());
            match dot_checked(&inp[i], &kernel[j], n) {
                None => {
                    assert(!fc_entry_fits(x[i as int], kv[j as int], n as int, bias@, j as int, biasoff));
                    return false;
                },
                Some(d) => {
                    if !biasoff {
                        proof {
                            lemma_trunc_div_fits(d as int, 512);
                        }
                        let v: i64 = (d / 512) as i64 + bias[j] as i64;
                        if v < i32::MIN as i64 || v > i32::MAX as i64 {
                            assert(!fc_entry_fits(x[i as int], kv[j as int], n as int, bias@, j as int, biasoff));
                            return false;
                        }
                    }
                    assert(fc_entry_fits(x[i as int], kv[j as int], n as int, bias@, j as int, biasoff));
                },
            }
        }
    }
    true
}

/// One pooling window: output position `(i, j)`, channel `k`, and the
/// vertical and horizontal strides.
pub struct PoolWindow {
    pub x: Seq<Seq<Seq<i32>>>,
    pub sh: int,
    pub sw: int,
    pub i: int,
    pub j: int,
    pub k: int,
}

/// The entry at offset `(m, l)` of the window.
pub open spec fn pool_term(p: PoolWindow, m: int, l: int) -> int {
    p.x[p.i * p.sh + m][p.j * p.sw + l][p.k] as int
}

/// The first `l` entries of row `m` of the window.
pub open spec fn pool_row(p: PoolWindow, m: int, l: int) -> int
    decreases l,
{
    if l <= 0 {
        0
    } else {
        pool_row(p, m, l - 1) + pool_term(p, m, l - 1)
    }
}

/// The first `m` rows of `ll` entries of the window.
pub open spec fn pool_sum(p: PoolWindow, m: int, ll: int) -> int
    decreases m,
{
    if m <= 0 {
        0
    } else {
        pool_sum(p, m - 1, ll) + pool_row(p, m - 1, ll)
    }
}

/// The running total after adding entry `(m, l)` stays inside `i32`.
pub open spec fn pool_step_fits(p: PoolWindow, m: int, l: int, ll: int) -> bool {
    fits_i32(pool_sum(p, m, ll) + pool_row(p, m, l) + pool_term(p, m, l))
}

/// Window position `(i, j)` with offset `(m, l)` is a cell of `x` with at
/// least `c` channels.
pub open spec fn window_cell_ok(
    x: Seq<Seq<Seq<i32>>>,
    sh: int,
    sw: int,
    i: int,
    j: int,
    m: int,
    l: int,
    c: int,
) -> bool {
    &&& 0 <= i * sh + m < x.len()
    &&& 0 <= j * sw + l < x[i * sh + m].len()
    &&& x[i * sh + m][j * sw + l].len() >= c
}

/// Number of output rows of `avgpool2d`.
pub open spec fn pool_out0(x: Seq<Seq<Seq<i32>>>, params: Seq<i32>) -> int {
    trunc_div(x.len() - params[0], params[2] as int) + 1
}

/// Number of output columns of `avgpool2d`.
pub open spec fn pool_out1(x: Seq<Seq<Seq<i32>>>, params: Seq<i32>) -> int {
    trunc_div(x[0].len() - params[1], params[3] as int) + 1
}

/// `avgpool2d` reads only entries that exist, its loops are bounded by
/// non-negative sizes, it never divides by zero, and its arithmetic stays in
/// `i32`. Window sizes matter only when there is an output to compute; a
/// negative stride only when there is a single window along it.
pub open spec fn avgpool_ok(x: Seq<Seq<Seq<i32>>>, params: Seq<i32>) -> bool {
    let od0 = pool_out0(x, params);
    let od1 = pool_out1(x, params);
    let c = x[0][0].len() as int;
    &&& params.len() >= 4
    &&& 1 <= x.len() <= i32::MAX
    &&& 1 <= x[0].len() <= i32::MAX
    &&& c <= i32::MAX
    &&& params[2] != 0
    &&& params[3] != 0
    &&& fits_i32(x.len() - params[0])
    &&& fits_i32(x[0].len() - params[1])
    &&& 0 <= od0 <= i32::MAX
    &&& 0 <= od1 <= i32::MAX
    &&& od0 > 0 && od1 > 0 && c > 0 ==> {
        &&& params[0] >= 1
        &&& params[1] >= 0
        &&& fits_i32(params[0] * params[2])
        &&& params[1] > 0 && params[2] < 0 ==> od0 == 1
        &&& params[1] > 0 && params[3] < 0 ==> od1 == 1
        &&& forall|i: int, j: int, m: int, l: int|
            0 <= i < od0 && 0 <= j < od1 && 0 <= m < params[0] && 0 <= l < params[1]
                ==> #[trigger] window_cell_ok(x, params[2] as int, params[3] as int, i, j, m, l, c)
        &&& forall|i: int, j: int, k: int, m: int, l: int|
            0 <= i < od0 && 0 <= j < od1 && 0 <= k < c && 0 <= m < params[0] && 0 <= l
                < params[1] ==> #[trigger] pool_step_fits(
                PoolWindow { x, sh: params[2] as int, sw: params[3] as int, i, j, k },
                m,
                l,
                params[1] as int,
            )
        &&& forall|i: int, j: int, k: int|
            0 <= i < od0 && 0 <= j < od1 && 0 <= k < c ==> fits_i32(
                trunc_div(
                    #[trigger] pool_sum(
                        PoolWindow { x, sh: params[2] as int, sw: params[3] as int, i, j, k },
                        params[0] as int,
                        params[1] as int,
                    ),
                    params[0] * params[2],
                ),
            )
    }
}

/// Entry `(i, j, k)` is the sum of the `params[0] x params[1]` window at
/// `(i * params[2], j * params[3])` in channel `k`, divided, rounding toward
/// zero, by `params[0] * params[2]`.
pub open spec fn spec_avgpool2d(x: Seq<Seq<Seq<i32>>>, params: Seq<i32>) -> Seq<Seq<Seq<i32>>> {
    Seq::new(
        pool_out0(x, params) as nat,
        |i: int|
            Seq::new(
                pool_out1(x, params) as nat,
                |j: int|
                    Seq::new(
                        x[0][0].len(),
                        |k: int|
                            trunc_div(
                                pool_sum(
                                    PoolWindow {
                                        x,
                                        sh: params[2] as int,
                                        sw: params[3] as int,
                                        i,
                                        j,
                                        k,
                                    },
                                    params[0] as int,
                                    params[1] as int,
                                ),
                                params[0] * params[2],
                            ) as i32,
                    ),
            ),
    )
}

/// Sums one pooling window.
fn pool_window_sum(
    inp: &Vec<Vec<Vec<i32>>>,
    sh: i32,
    sw: i32,
    i: usize,
    j: usize,
    k: usize,
    mm: usize,
    ll: usize,
) -> (acc: i32)
    requires
        sh != 0,
        sw != 0,
        ll > 0 && sh < 0 ==> i == 0,
        ll > 0 && sw < 0 ==> j == 0,
        forall|m: int, l: int|
            0 <= m < mm && 0 <= l < ll ==> #[trigger] window_cell_ok(
                view3(*inp),
                sh as int,
                sw as int,
                i as int,
                j as int,
                m,
                l,
                k + 1,
            ),
        forall|m: int, l: int|
            0 <= m < mm && 0 <= l < ll ==> #[trigger] pool_step_fits(
                PoolWindow { x: view3(*inp), sh: sh as int, sw: sw as int, i: i as int, j: j as int, k: k as int },
                m,
                l,
                ll as int,
            ),
    ensures
        acc == pool_sum(
            PoolWindow { x: view3(*inp), sh: sh as int, sw: sw as int, i: i as int, j: j as int, k: k as int },
            mm as int,
            ll as int,
        ),
{
    let ghost p = PoolWindow {
        x: view3(*inp),
        sh: sh as int,
        sw: sw as int,
        i: i as int,
        j: j as int,
        k: k as int,
    };
    let shu = sh as usize;
    let swu = sw as usize;
    let mut acc: i32 = 0;
    for m in 0..mm
        invariant
            p == (PoolWindow { x: view3(*inp), sh: sh as int, sw: sw as int, i: i as int, j: j as int, k: k as int }),
            sh > 0 ==> shu == sh,
            sw > 0 ==> swu == sw,
            ll > 0 && sh < 0 ==> i == 0,
            ll > 0 && sw < 0 ==> j == 0,
            sh != 0,
            sw != 0,
            forall|m: int, l: int|
                0 <= m < mm && 0 <= l < ll ==> #[trigger] window_cell_ok(
                    view3(*inp),
                    sh as int,
                    sw as int,
                    i as int,
                    j as int,
                    m,
                    l,
                    k + 1,
                ),
            forall|m: int, l: int|
                0 <= m < mm && 0 <= l < ll ==> #[trigger] pool_step_fits(p, m, l, ll as int),
            acc == pool_sum(p, m as int, ll as int),
    {
        for l in 0..ll
            invariant
                p == (PoolWindow { x: view3(*inp), sh: sh as int, sw: sw as int, i: i as int, j: j as int, k: k as int }),
                0 <= m < mm,
                sh > 0 ==> shu == sh,
                sw > 0 ==> swu == sw,
                ll > 0 && sh < 0 ==> i == 0,
                ll > 0 && sw < 0 ==> j == 0,
                sh != 0,
                sw != 0,
                forall|m: int, l: int|
                    0 <= m < mm && 0 <= l < ll ==> #[trigger] window_cell_ok(
                        view3(*inp),
                        sh as int,
                        sw as int,
                        i as int,
                        j as int,
                        m,
                        l,
                        k + 1,
                    ),
                forall|m: int, l: int|
                    0 <= m < mm && 0 <= l < ll ==> #[trigger] pool_step_fits(p, m, l, ll as int),
                acc == pool_sum(p, m as int, ll as int) + pool_row(p, m as int, l as int),
        {
            assert(window_cell_ok(view3(*inp), sh as int, sw as int, i as int, j as int, m as int, l as int, k + 1));
            assert(pool_step_fits(p, m as int, l as int, ll as int));
            assert(i * shu == i * sh && j * swu == j * sw) by {
                if sh < 0 {
                    assert(i == 0);
                }
                if sw < 0 {
                    assert(j == 0);
                }
            }
            let r = i * shu + m;
            let c = j * swu + l;
            assert(view3(*inp)[r as int][c as int][k as int] == inp[r as int][c as int][k as int]);
            acc = acc + inp[r][c][k];
        }
    }
    acc
}

/// Average pooling with a `params[0] x params[1]` window and strides
/// `params[2]`, `params[3]`; each window sum is divided by
/// `params[0] * params[2]`.
pub fn avgpool2d(inp: Vec<Vec<Vec<i32>>>, params: Vec<i32>) -> (out: Vec<Vec<Vec<i32>>>)
    requires
        avgpool_ok(view3(inp), params@),
    ensures
        view3(out) == spec_avgpool2d(view3(inp), params@),
{
    let ghost x = view3(inp);
    let ghost spec = spec_avgpool2d(x, params@);
    assert(x[0] == view2(inp[0]) && x[0][0] == inp[0][0]@);
    let rows_left = inp.len() as i32 - params[0];
    let cols_left = inp[0].len() as i32 - params[1];
    proof {
        lemma_trunc_div_bound(rows_left as int, params@[2] as int);
        lemma_trunc_div_bound(cols_left as int, params@[3] as int);
    }
    let od0 = rows_left.checked_div(params[2]).unwrap() + 1;
    let od1 = cols_left.checked_div(params[3]).unwrap() + 1;
    let od2 = inp[0][0].len() as i32;
    let sh = params[2];
    let sw = params[3];
    let mut out: Vec<Vec<Vec<i32>>> = Vec::new();
    for i in 0..od0 as usize
        invariant
            x == view3(inp),
            avgpool_ok(x, params@),
            spec == spec_avgpool2d(x, params@),
            od0 == pool_out0(x, params@),
            od1 == pool_out1(x, params@),
            od2 == x[0][0].len(),
            sh == params@[2],
            sw == params@[3],
            out.len() == i,
            forall|r: int| 0 <= r < i ==> #[trigger] view2(out[r]) == spec[r],
    {
        let mut row: Vec<Vec<i32>> = Vec::new();
        for j in 0..od1 as usize
            invariant
                x == view3(inp),
                avgpool_ok(x, params@),
                spec == spec_avgpool2d(x, params@),
                od0 == pool_out0(x, params@),
                od1 == pool_out1(x, params@),
                od2 == x[0][0].len(),
                sh == params@[2],
                sw == params@[3],
                0 <= i < od0,
                row.len() == j,
                forall|q: int| 0 <= q < j ==> #[trigger] row[q]@ == spec[i as int][q],
        {
            let mut cell: Vec<i32> = Vec::new();
            for k in 0..od2 as usize
                invariant
                    x == view3(inp),
                    avgpool_ok(x, params@),
                    spec == spec_avgpool2d(x, params@),
                    od0 == pool_out0(x, params@),
                    od1 == pool_out1(x, params@),
                    od2 == x[0][0].len(),
                    sh == params@[2],
                    sw == params@[3],
                    0 <= i < od0,
                    0 <= j < od1,
                    cell@ == spec[i as int][j as int].subrange(0, k as int),
            {
                let mm = params[0] as usize;
                let ll = params[1] as usize;
                let ghost p = PoolWindow {
                    x,
                    sh: sh as int,
                    sw: sw as int,
                    i: i as int,
                    j: j as int,
                    k: k as int,
                };
                assert forall|m: int, l: int|
                    0 <= m < mm && 0 <= l < ll implies #[trigger] window_cell_ok(
                        x,
                        sh as int,
                        sw as int,
                        i as int,
                        j as int,
                        m,
                        l,
                        k + 1,
                    ) by {
                    assert(window_cell_ok(x, sh as int, sw as int, i as int, j as int, m, l, od2 as int));
                }
                assert forall|m: int, l: int|
                    0 <= m < mm && 0 <= l < ll implies #[trigger] pool_step_fits(p, m, l, ll as int) by {
                    assert(pool_step_fits(
                        PoolWindow { x, sh: params@[2] as int, sw: params@[3] as int, i: i as int, j: j as int, k: k as int },
                        m,
                        l,
                        params@[1] as int,
                    ));
                }
                assert(ll > 0 && sh < 0 ==> i == 0);
                assert(ll > 0 && sw < 0 ==> j == 0);
                let acc = pool_window_sum(&inp, sh, sw, i, j, k, mm, ll);
                assert(fits_i32(
                    trunc_div(
                        pool_sum(
                            PoolWindow { x, sh: params@[2] as int, sw: params@[3] as int, i: i as int, j: j as int, k: k as int },
                            params@[0] as int,
                            params@[1] as int,
                        ),
                        params@[0] * params@[2],
                    ),
                ));
                assert(params@[0] * params@[2] != 0) by (nonlinear_arith)
                    requires
                        params@[0] >= 1,
                        params@[2] != 0,
                ;
                let div_factor = params[0] * params[2];
                let v = acc.checked_div(div_factor).unwrap();
                cell.push(v);
                assert(cell@ =~= spec[i as int][j as int].subrange(0, k + 1));
            }
            assert(cell@ =~= spec[i as int][j as int]);
            row.push(cell);
        }
        assert(view2(row) =~= spec[i as int]);
        out.push(row);
    }
    assert(view3(out) =~= spec);
    out
}

/// `pad_image` reads only entries that exist: the first row and cell fix the
/// columns and channels of every row and cell.
pub open spec fn pad_ok(x: Seq<Seq<Seq<i32>>>, p: int) -> bool {
    &&& x.len() >= 1
    &&& x[0].len() >= 1 || p == 0
    &&& covers_box(x)
}

/// `x` surrounded by `p` rows and columns of zeros on every side; every cell
/// has the channels of the first cell of `x`.
pub open spec fn spec_pad(x: Seq<Seq<Seq<i32>>>, p: int) -> Seq<Seq<Seq<i32>>> {
    Seq::new(
        (x.len() + 2 * p) as nat,
        |i: int|
            Seq::new(
                (dim1(x) + 2 * p) as nat,
                |j: int|
                    Seq::new(
                        dim2(x) as nat,
                        |k: int|
                            if p <= i < x.len() + p && p <= j < dim1(x) + p {
                                x[i - p][j - p][k]
                            } else {
                                0
                            },
                    ),
            ),
    )
}

pub(crate) fn pad_image(image: &Vec<Vec<Vec<i32>>>, padlen: usize) -> (out: Vec<Vec<Vec<i32>>>)
    requires
        pad_ok(view3(*image), padlen as int),
        image.len() + 2 * padlen <= usize::MAX,
        image[0].len() + 2 * padlen <= usize::MAX,
    ensures
        view3(out) == spec_pad(view3(*image), padlen as int),
{
    let ghost x = view3(*image);
    let ghost spec = spec_pad(x, padlen as int);
    assert(x[0] == view2(image[0]));
    let h = image.len();
    let mut padded: Vec<Vec<Vec<i32>>> = Vec::new();
    for i in 0..h + 2 * padlen
        invariant
            x == view3(*image),
            spec == spec_pad(x, padlen as int),
            pad_ok(x, padlen as int),
            h == x.len(),
            image[0].len() + 2 * padlen <= usize::MAX,
            h + 2 * padlen <= usize::MAX,
            padded.len() == i,
            forall|r: int| 0 <= r < i ==> #[trigger] view2(padded[r]) == spec[r],
    {
        let w = image[0].len();
        let mut row: Vec<Vec<i32>> = Vec::new();
        for j in 0..w + 2 * padlen
            invariant
                x == view3(*image),
                spec == spec_pad(x, padlen as int),
                pad_ok(x, padlen as int),
                h == x.len(),
                w == dim1(x),
                0 <= i < h + 2 * padlen,
                h + 2 * padlen <= usize::MAX,
                w + 2 * padlen <= usize::MAX,
                row.len() == j,
                forall|q: int| 0 <= q < j ==> #[trigger] row[q]@ == spec[i as int][q],
        {
            assert(w >= 1);
            assert(x[0][0] == image[0][0]@);
            let c = image[0][0].len();
            let mut col: Vec<i32> = Vec::new();
            for k in 0..c
                invariant
                    x == view3(*image),
                    spec == spec_pad(x, padlen as int),
                    pad_ok(x, padlen as int),
                    h == x.len(),
                    w == dim1(x),
                    c == dim2(x),
                    0 <= i < h + 2 * padlen,
                    0 <= j < w + 2 * padlen,
                    h + 2 * padlen <= usize::MAX,
                    w + 2 * padlen <= usize::MAX,
                    col@ == spec[i as int][j as int].subrange(0, k as int),
            {
                if i < padlen || j < padlen || i >= h + padlen || j >= w + padlen {
                    col.push(0);
                } else {
                    assert(x[i - padlen][j - padlen].len() >= dim2(x));
                    col.push(image[i - padlen][j - padlen][k]);
                }
                assert(col@ =~= spec[i as int][j as int].subrange(0, k + 1));
            }
            assert(col@ =~= spec[i as int][j as int]);
            row.push(col);
        }
        assert(view2(row) =~= spec[i as int]);
        padded.push(row);
    }
    assert(view3(padded) =~= spec);
    padded
}

/// One convolution window: output position `(i, j)`, output channel `k`,
/// the input `x`, the kernel `w` (output channel, row, column, input
/// channel) and the stride `s`.
pub struct ConvWindow {
    pub x: Seq<Seq<Seq<i32>>>,
    pub w: Seq<Seq<Seq<Seq<i32>>>>,
    pub s: int,
    pub i: int,
    pub j: int,
    pub k: int,
}

/// The product for input channel `n` at kernel offset `(m, l)`.
pub open spec fn conv_term(c: ConvWindow, n: int, m: int, l: int) -> int {
    c.x[c.i * c.s + m][c.j * c.s + l][n] * c.w[c.k][m][l][n]
}

/// The first `l` products of kernel row `m` in input channel `n`.
pub open spec fn conv_row(c: ConvWindow, n: int, m: int, l: int) -> int
    decreases l,
{
    if l <= 0 {
        0
    } else {
        conv_row(c, n, m, l - 1) + conv_term(c, n, m, l - 1)
    }
}

/// The first `m` kernel rows, of `ll` products each, in input channel `n`.
pub open spec fn conv_plane(c: ConvWindow, n: int, m: int, ll: int) -> int
    decreases m,
{
    if m <= 0 {
        0
    } else {
        conv_plane(c, n, m - 1, ll) + conv_row(c, n, m - 1, ll)
    }
}

/// The products of the first `n` input channels of an `mm x ll` window.
pub open spec fn conv_sum(c: ConvWindow, n: int, mm: int, ll: int) -> int
    decreases n,
{
    if n <= 0 {
        0
    } else {
        conv_sum(c, n - 1, mm, ll) + conv_plane(c, n - 1, mm, ll)
    }
}

/// The product at `(n, m, l)`, and the running total after adding it, stay
/// inside `i32`.
pub open spec fn conv_step_fits(c: ConvWindow, n: int, m: int, l: int, mm: int, ll: int) -> bool {
    &&& fits_i32(conv_term(c, n, m, l))
    &&& fits_i32(
        conv_sum(c, n, mm, ll) + conv_plane(c, n, m, ll) + conv_row(c, n, m, l) + conv_term(
            c,
            n,
            m,
            l,
        ),
    )
}

/// The arithmetic of one output of `conv2d` stays inside `i32`.
pub open spec fn conv_entry_fits(c: ConvWindow, nn: int, mm: int, ll: int, b: Seq<i32>) -> bool {
    &&& forall|n: int, m: int, l: int|
        0 <= n < nn && 0 <= m < mm && 0 <= l < ll ==> #[trigger] conv_step_fits(c, n, m, l, mm, ll)
    &&& fits_i32(trunc_div(conv_sum(c, nn, mm, ll), 512) + b[c.k])
}

/// Output channel `k` of the kernel has `mm` rows of `ll` columns of at least `nn` channels.
pub open spec fn kernel_box(w: Seq<Seq<Seq<Seq<i32>>>>, k: int, mm: int, ll: int, nn: int) -> bool {
    &&& 0 <= k < w.len()
    &&& w[k].len() >= mm
    &&& forall|m: int| 0 <= m < mm ==> #[trigger] w[k][m].len() >= ll
    &&& forall|m: int, l: int| 0 <= m < mm && 0 <= l < ll ==> #[trigger] w[k][m][l].len() >= nn
}

fn conv_window_sum(
    image: &Vec<Vec<Vec<i32>>>,
    kernel: &Vec<Vec<Vec<Vec<i32>>>>,
    stride: i32,
    i: usize,
    j: usize,
    k: usize,
    nn: usize,
    mm: usize,
    ll: usize,
) -> (acc: i32)
    requires
        stride != 0,
        nn > 0 && stride < 0 ==> i == 0 && j == 0,
        nn > 0 ==> forall|m: int, l: int|
            0 <= m < mm && 0 <= l < ll ==> #[trigger] window_cell_ok(
                view3(*image),
                stride as int,
                stride as int,
                i as int,
                j as int,
                m,
                l,
                nn as int,
            ),
        kernel_box(view4(*kernel), k as int, mm as int, ll as int, nn as int),
        forall|n: int, m: int, l: int|
            0 <= n < nn && 0 <= m < mm && 0 <= l < ll ==> #[trigger] conv_step_fits(
                ConvWindow {
                    x: view3(*image),
                    w: view4(*kernel),
                    s: stride as int,
                    i: i as int,
                    j: j as int,
                    k: k as int,
                },
                n,
                m,
                l,
                mm as int,
                ll as int,
            ),
    ensures
        acc == conv_sum(
            ConvWindow {
                x: view3(*image),
                w: view4(*kernel),
                s: stride as int,
                i: i as int,
                j: j as int,
                k: k as int,
            },
            nn as int,
            mm as int,
            ll as int,
        ),
{
    let ghost c = ConvWindow {
        x: view3(*image),
        w: view4(*kernel),
        s: stride as int,
        i: i as int,
        j: j as int,
        k: k as int,
    };
    let su = stride as usize;
    let mut acc: i32 = 0;
    for n in 0..nn
        invariant
            c == (ConvWindow { x: view3(*image), w: view4(*kernel), s: stride as int, i: i as int, j: j as int, k: k as int }),
            stride != 0,
            stride > 0 ==> su == stride,
            nn > 0 && stride < 0 ==> i == 0 && j == 0,
            nn > 0 ==> forall|m: int, l: int|
                0 <= m < mm && 0 <= l < ll ==> #[trigger] window_cell_ok(
                    view3(*image),
                    stride as int,
                    stride as int,
                    i as int,
                    j as int,
                    m,
                    l,
                    nn as int,
                ),
            kernel_box(view4(*kernel), k as int, mm as int, ll as int, nn as int),
            forall|n: int, m: int, l: int|
                0 <= n < nn && 0 <= m < mm && 0 <= l < ll ==> #[trigger] conv_step_fits(
                    c,
                    n,
                    m,
                    l,
                    mm as int,
                    ll as int,
                ),
            acc == conv_sum(c, n as int, mm as int, ll as int),
    {
        for m in 0..mm
            invariant
                c == (ConvWindow { x: view3(*image), w: view4(*kernel), s: stride as int, i: i as int, j: j as int, k: k as int }),
                0 <= n < nn,
                stride != 0,
                stride > 0 ==> su == stride,
                stride < 0 ==> i == 0 && j == 0,
                forall|m: int, l: int|
                    0 <= m < mm && 0 <= l < ll ==> #[trigger] window_cell_ok(
                        view3(*image),
                        stride as int,
                        stride as int,
                        i as int,
                        j as int,
                        m,
                        l,
                        nn as int,
                    ),
                kernel_box(view4(*kernel), k as int, mm as int, ll as int, nn as int),
                forall|n: int, m: int, l: int|
                    0 <= n < nn && 0 <= m < mm && 0 <= l < ll ==> #[trigger] conv_step_fits(
                        c,
                        n,
                        m,
                        l,
                        mm as int,
                        ll as int,
                    ),
                acc == conv_sum(c, n as int, mm as int, ll as int) + conv_plane(
                    c,
                    n as int,
                    m as int,
                    ll as int,
                ),
        {
            for l in 0..ll
                invariant
                    c == (ConvWindow { x: view3(*image), w: view4(*kernel), s: stride as int, i: i as int, j: j as int, k: k as int }),
                    0 <= n < nn,
                    0 <= m < mm,
                    stride != 0,
                    stride > 0 ==> su == stride,
                    stride < 0 ==> i == 0 && j == 0,
                    forall|m: int, l: int|
                        0 <= m < mm && 0 <= l < ll ==> #[trigger] window_cell_ok(
                            view3(*image),
                            stride as int,
                            stride as int,
                            i as int,
                            j as int,
                            m,
                            l,
                            nn as int,
                        ),
                    kernel_box(view4(*kernel), k as int, mm as int, ll as int, nn as int),
                    forall|n: int, m: int, l: int|
                        0 <= n < nn && 0 <= m < mm && 0 <= l < ll ==> #[trigger] conv_step_fits(
                            c,
                            n,
                            m,
                            l,
                            mm as int,
                            ll as int,
                        ),
                    acc == conv_sum(c, n as int, mm as int, ll as int) + conv_plane(
                        c,
                        n as int,
                        m as int,
                        ll as int,
                    ) + conv_row(c, n as int, m as int, l as int),
            {
                assert(window_cell_ok(view3(*image), stride as int, stride as int, i as int, j as int, m as int, l as int, nn as int));
                assert(conv_step_fits(c, n as int, m as int, l as int, mm as int, ll as int));
                assert(view4(*kernel)[k as int][m as int].len() >= ll);
                assert(view4(*kernel)[k as int][m as int][l as int].len() >= nn);
                assert(i * su == i * stride && j * su == j * stride) by {
                    if stride < 0 {
                        assert(i == 0 && j == 0);
                    }
                }
                let r = i * su + m;
                let q = j * su + l;
                assert(view3(*image)[r as int][q as int][n as int] == image[r as int][q as int][n as int]);
                assert(view4(*kernel)[k as int][m as int][l as int][n as int] == kernel[k as int][m as int][l as int][n as int]);
                let buf = image[r][q][n] * kernel[k][m][l][n];
                acc = acc + buf;
            }
        }
    }
    acc
}

/// The input after the optional zero padding: with `padding == 0` the image
/// is padded by `(kernel width - 1) / 2` on every side.
pub open spec fn conv_input(x: Seq<Seq<Seq<i32>>>, kernel: TensorView, padding: i32) -> Seq<Seq<Seq<i32>>> {
    if padding == 0 {
        spec_pad(x, (kernel.shape[2] - 1) / 2)
    } else {
        x
    }
}

/// Number of output rows of `conv2d` over the (padded) input `x`.
pub open spec fn conv_out0(x: Seq<Seq<Seq<i32>>>, kernel: TensorView, stride: i32) -> int {
    trunc_div(x.len() - kernel.shape[1], stride as int) + 1
}

/// Number of output columns of `conv2d` over the (padded) input `x`.
pub open spec fn conv_out1(x: Seq<Seq<Seq<i32>>>, kernel: TensorView, stride: i32) -> int {
    trunc_div(x[0].len() - kernel.shape[2], stride as int) + 1
}

/// The window of output `(i, j, k)`.
pub open spec fn conv_window(
    x: Seq<Seq<Seq<i32>>>,
    kernel: TensorView,
    stride: i32,
    i: int,
    j: int,
    k: int,
) -> ConvWindow {
    ConvWindow { x, w: spec_kernel_reshape(kernel), s: stride as int, i, j, k }
}

/// One output of `conv2d`: the window sum divided by 512, plus the bias,
/// clamped by `relu6` unless `reluoff`.
pub open spec fn conv_value(c: ConvWindow, kernel: TensorView, b: Seq<i32>, reluoff: bool) -> int {
    let v = trunc_div(
        conv_sum(c, kernel.shape[3] as int, kernel.shape[1] as int, kernel.shape[2] as int),
        512,
    ) + b[c.k];
    if reluoff {
        v
    } else {
        spec_relu6(v)
    }
}

/// `conv2d` reads only entries that exist, its loops are bounded by
/// non-negative sizes, and its arithmetic stays inside `i32`.
pub open spec fn conv_ok(
    x: Seq<Seq<Seq<i32>>>,
    kernel: TensorView,
    bias: TensorView,
    stride: i32,
    padding: i32,
) -> bool {
    let xi = conv_input(x, kernel, padding);
    let od0 = conv_out0(xi, kernel, stride);
    let od1 = conv_out1(xi, kernel, stride);
    let kk = kernel.shape[0] as int;
    let mm = kernel.shape[1] as int;
    let ll = kernel.shape[2] as int;
    let nn = kernel.shape[3] as int;
    &&& reshape4_ok(kernel.data.len() as int, kernel.shape)
    &&& reshape1_ok(bias)
    &&& kk >= 1
    &&& mm >= 1
    &&& padding == 0 ==> ll >= 1 && pad_ok(x, (ll - 1) / 2)
    &&& stride != 0
    &&& 1 <= xi.len() <= i32::MAX
    &&& xi[0].len() <= i32::MAX
    &&& 0 <= od0 <= i32::MAX
    &&& 0 <= od1 <= i32::MAX
    &&& od0 > 0 && od1 > 0 ==> {
        &&& ll >= 1
        &&& bias.shape[0] >= kk
        &&& nn > 0 && stride < 0 ==> od0 == 1 && od1 == 1
        &&& forall|i: int, j: int, m: int, l: int|
            0 <= i < od0 && 0 <= j < od1 && 0 <= m < mm && 0 <= l < ll && nn > 0
                ==> #[trigger] window_cell_ok(xi, stride as int, stride as int, i, j, m, l, nn)
        &&& forall|i: int, j: int, k: int|
            0 <= i < od0 && 0 <= j < od1 && 0 <= k < kk ==> #[trigger] conv_entry_fits(
                conv_window(xi, kernel, stride, i, j, k),
                nn,
                mm,
                ll,
                spec_bias_reshape(bias),
            )
    }
}

/// The output of `conv2d`: `conv_out0 x conv_out1` positions with one value
/// per kernel output channel.
pub open spec fn spec_conv2d(
    x: Seq<Seq<Seq<i32>>>,
    kernel: TensorView,
    bias: TensorView,
    stride: i32,
    padding: i32,
    reluoff: bool,
) -> Seq<Seq<Seq<i32>>> {
    let xi = conv_input(x, kernel, padding);
    Seq::new(
        conv_out0(xi, kernel, stride) as nat,
        |i: int|
            Seq::new(
                conv_out1(xi, kernel, stride) as nat,
                |j: int|
                    Seq::new(
                        kernel.shape[0] as nat,
                        |k: int|
                            conv_value(
                                conv_window(xi, kernel, stride, i, j, k),
                                kernel,
                                spec_bias_reshape(bias),
                                reluoff,
                            ) as i32,
                    ),
            ),
    )
}

/// A two-dimensional convolution with stride `stride`, zero padding when
/// `padding == 0`, fixed-point rescaling by 512, bias, and `relu6` unless
/// `reluoff`.
pub fn conv2d(
    inp: Vec<Vec<Vec<i32>>>,
    kernel: Tensor,
    bias: Tensor,
    stride: i32,
    padding: i32,
    reluoff: bool,
) -> (out: Vec<Vec<Vec<i32>>>)
    requires
        conv_ok(view3(inp), kernel@, bias@, stride, padding),
    ensures
        view3(out) == spec_conv2d(view3(inp), kernel@, bias@, stride, padding, reluoff),
{
    let ghost x = view3(inp);
    let ghost kt = kernel@;
    let ghost bt = bias@;
    let ghost xi = conv_input(x, kt, padding);
    let ghost spec = spec_conv2d(x, kt, bt, stride, padding, reluoff);
    let ghost wv = spec_kernel_reshape(kt);
    let mut image = inp;
    let kernel = kernel_reshape(kernel);
    let bias = bias_reshape(bias);
    assert(kt.shape[0] >= 1 && kt.shape[1] >= 1);
    assert(wv.len() == kt.shape[0] && wv[0].len() == kt.shape[1]);
    assert(view4(kernel) == wv);
    assert(kernel.len() >= 1);
    assert(view4(kernel)[0] == view3(kernel[0]));
    assert(kernel[0].len() == kt.shape[1]);
    assert(view4(kernel)[0][0] == view2(kernel[0][0]));
    if padding == 0 {
        let padlen = (kernel[0][0].len() - 1) / 2;
        image = pad_image(&image, padlen);
    }
    assert(view3(image) == xi);
    assert(xi[0] == view2(image[0]));
    let rows_left = image.len() as i32 - kernel[0].len() as i32;
    let cols_left = image[0].len() as i32 - kernel[0][0].len() as i32;
    proof {
        lemma_trunc_div_bound(rows_left as int, stride as int);
        lemma_trunc_div_bound(cols_left as int, stride as int);
    }
    let od0 = rows_left.checked_div(stride).unwrap() + 1;
    let od1 = cols_left.checked_div(stride).unwrap() + 1;
    let od2 = kernel.len() as i32;
    let mut out: Vec<Vec<Vec<i32>>> = Vec::new();
    for i in 0..od0 as usize
        invariant
            xi == view3(image),
            wv == view4(kernel),
            wv == spec_kernel_reshape(kt),
            bias@ == spec_bias_reshape(bt),
            conv_ok(x, kt, bt, stride, padding),
            xi == conv_input(x, kt, padding),
            spec == spec_conv2d(x, kt, bt, stride, padding, reluoff),
            od0 == conv_out0(xi, kt, stride),
            od1 == conv_out1(xi, kt, stride),
            od2 == kt.shape[0],
            kernel.len() == kt.shape[0],
            kt.shape[0] >= 1,
            kt.shape[1] >= 1,
            out.len() == i,
            forall|r: int| 0 <= r < i ==> #[trigger] view2(out[r]) == spec[r],
    {
        let mut row: Vec<Vec<i32>> = Vec::new();
        for j in 0..od1 as usize
            invariant
                xi == view3(image),
                wv == view4(kernel),
                wv == spec_kernel_reshape(kt),
                bias@ == spec_bias_reshape(bt),
                conv_ok(x, kt, bt, stride, padding),
                xi == conv_input(x, kt, padding),
                spec == spec_conv2d(x, kt, bt, stride, padding, reluoff),
                od0 == conv_out0(xi, kt, stride),
                od1 == conv_out1(xi, kt, stride),
                od2 == kt.shape[0],
                kernel.len() == kt.shape[0],
                kt.shape[0] >= 1,
                kt.shape[1] >= 1,
                    0 <= i < od0,
                row.len() == j,
                forall|q: int| 0 <= q < j ==> #[trigger] row[q]@ == spec[i as int][q],
        {
            let mut cell: Vec<i32> = Vec::new();
            for k in 0..od2 as usize
                invariant
                    xi == view3(image),
                    wv == view4(kernel),
                    wv == spec_kernel_reshape(kt),
                    bias@ == spec_bias_reshape(bt),
                    conv_ok(x, kt, bt, stride, padding),
                    xi == conv_input(x, kt, padding),
                    spec == spec_conv2d(x, kt, bt, stride, padding, reluoff),
                    od0 == conv_out0(xi, kt, stride),
                    od1 == conv_out1(xi, kt, stride),
                    od2 == kt.shape[0],
                    kernel.len() == kt.shape[0],
                    kt.shape[0] >= 1,
                    kt.shape[1] >= 1,
                            0 <= i < od0,
                    0 <= j < od1,
                    cell@ == spec[i as int][j as int].subrange(0, k as int),
            {
                let ghost cw = conv_window(xi, kt, stride, i as int, j as int, k as int);
                let ghost mm = kt.shape[1] as int;
                let ghost ll = kt.shape[2] as int;
                let ghost nn = kt.shape[3] as int;
                assert(od0 > 0 && od1 > 0);
                assert(kt.shape[2] >= 1);
                assert(wv[0][0].len() == kt.shape[2]);
                assert(wv[0] == view3(kernel[0]));
                assert(wv[0].len() == kt.shape[1]);
                assert(view3(kernel[0]).len() == kernel[0].len());
                assert(kernel[0].len() == kt.shape[1]);
                assert(wv[0][0] == view2(kernel[0][0]));
                assert(wv[0][0][0] == kernel[0][0][0]@);
                let nk = kernel[0][0][0].len();
                let mk = kernel[0].len();
                let lk = kernel[0][0].len();
                assert(conv_entry_fits(cw, nn, mm, ll, bias@));
                assert(kernel_box(wv, k as int, mm, ll, nn));
                assert forall|m: int, l: int|
                    nk > 0 && 0 <= m < mk && 0 <= l < lk implies #[trigger] window_cell_ok(
                        xi,
                        stride as int,
                        stride as int,
                        i as int,
                        j as int,
                        m,
                        l,
                        nk as int,
                    ) by {
                    assert(window_cell_ok(xi, stride as int, stride as int, i as int, j as int, m, l, nn));
                }
                assert forall|n: int, m: int, l: int|
                    0 <= n < nk && 0 <= m < mk && 0 <= l < lk implies #[trigger] conv_step_fits(
                        ConvWindow { x: xi, w: wv, s: stride as int, i: i as int, j: j as int, k: k as int },
                        n,
                        m,
                        l,
                        mk as int,
                        lk as int,
                    ) by {
                    assert(conv_step_fits(cw, n, m, l, mm, ll));
                }
                assert(nk > 0 && stride < 0 ==> i == 0 && j == 0);
                let acc = conv_window_sum(&image, &kernel, stride, i, j, k, nk, mk, lk);
                proof {
                    lemma_trunc_div_fits(acc as int, 512);
                }
                let mut v = acc / 512;
                v = v + bias[k];
                if !reluoff {
                    v = relu6(v);
                }
                cell.push(v);
                assert(cell@ =~= spec[i as int][j as int].subrange(0, k + 1));
            }
            assert(cell@ =~= spec[i as int][j as int]);
            row.push(cell);
        }
        assert(view2(row) =~= spec[i as int]);
        out.push(row);
    }
    assert(view3(out) =~= spec);
    out
}

/// Every value of a three-dimensional tensor passed through `relu6`.
pub open spec fn relu6_all(t: Seq<Seq<Seq<i32>>>) -> Seq<Seq<Seq<i32>>> {
    Seq::new(
        t.len(),
        |i: int|
            Seq::new(
                t[i].len(),
                |j: int| Seq::new(t[i][j].len(), |k: int| spec_relu6(t[i][j][k] as int) as i32),
            ),
    )
}

/// With `padding == 0`, `conv2d` is the unpadded convolution (any other
/// `padding`) of the image surrounded by `(kernel width - 1) / 2` zero rows
/// and columns on every side; whatever the first runs on, the second runs on.
pub proof fn lemma_conv2d_zero_padding(
    x: Seq<Seq<Seq<i32>>>,
    kernel: TensorView,
    bias: TensorView,
    stride: i32,
    padding: i32,
    reluoff: bool,
)
    requires
        padding != 0,
    ensures
        spec_conv2d(x, kernel, bias, stride, 0, reluoff) == spec_conv2d(
            spec_pad(x, (kernel.shape[2] - 1) / 2),
            kernel,
            bias,
            stride,
            padding,
            reluoff,
        ),
        conv_ok(x, kernel, bias, stride, 0) ==> conv_ok(
            spec_pad(x, (kernel.shape[2] - 1) / 2),
            kernel,
            bias,
            stride,
            padding,
        ),
{
    let xp = spec_pad(x, (kernel.shape[2] - 1) / 2);
    assert(conv_input(x, kernel, 0) == xp);
    assert(conv_input(xp, kernel, padding) == xp);
}

/// On the inputs `conv2d` accepts, its output with `relu6` on is its output
/// with `relu6` off, clamped by `relu6` value by value; every such value lies
/// in `[0, 3072]`.
pub proof fn lemma_conv2d_relu6(
    x: Seq<Seq<Seq<i32>>>,
    kernel: TensorView,
    bias: TensorView,
    stride: i32,
    padding: i32,
)
    requires
        conv_ok(x, kernel, bias, stride, padding),
    ensures
        spec_conv2d(x, kernel, bias, stride, padding, false) == relu6_all(
            spec_conv2d(x, kernel, bias, stride, padding, true),
        ),
        forall|i: int, j: int, k: int|
            0 <= i < spec_conv2d(x, kernel, bias, stride, padding, false).len() && 0 <= j
                < spec_conv2d(x, kernel, bias, stride, padding, false)[i].len() && 0 <= k
                < spec_conv2d(x, kernel, bias, stride, padding, false)[i][j].len() ==> 0
                <= #[trigger] spec_conv2d(x, kernel, bias, stride, padding, false)[i][j][k] <= 3072,
{
    let on = spec_conv2d(x, kernel, bias, stride, padding, false);
    let off = spec_conv2d(x, kernel, bias, stride, padding, true);
    let r = relu6_all(off);
    let xi = conv_input(x, kernel, padding);
    let od0 = conv_out0(xi, kernel, stride);
    let od1 = conv_out1(xi, kernel, stride);
    let b = spec_bias_reshape(bias);
    assert forall|i: int| 0 <= i < on.len() implies #[trigger] on[i] =~= r[i] by {
        assert forall|j: int| 0 <= j < on[i].len() implies #[trigger] on[i][j] =~= r[i][j] by {
            assert forall|k: int| 0 <= k < on[i][j].len() implies #[trigger] on[i][j][k] == r[i][j][k] by {
                let c = conv_window(xi, kernel, stride, i, j, k);
                assert(od0 > 0 && od1 > 0);
                assert(conv_entry_fits(c, kernel.shape[3] as int, kernel.shape[1] as int, kernel.shape[2] as int, b));
                lemma_relu6_range(conv_value(c, kernel, b, true));
            }
        }
    }
    assert(on =~= r);
    assert forall|i: int, j: int, k: int|
        0 <= i < on.len() && 0 <= j < on[i].len() && 0 <= k < on[i][j].len() implies 0
            <= #[trigger] on[i][j][k] <= 3072 by {
        lemma_relu6_range(conv_value(conv_window(xi, kernel, stride, i, j, k), kernel, b, false));
        lemma_relu6_range(on[i][j][k] as int);
        assert(on[i][j][k] == r[i][j][k]);
    }
}

/// With `relu6` off, raising bias entry `k` by `c[k]` raises every output of
/// channel `k` by `c[k]`: the bias is added after the rescaling by 512. The
/// two outputs have the same shape.
pub proof fn lemma_conv2d_bias_shift(
    x: Seq<Seq<Seq<i32>>>,
    kernel: TensorView,
    bias: TensorView,
    bias2: TensorView,
    c: Seq<int>,
    stride: i32,
    padding: i32,
)
    requires
        conv_ok(x, kernel, bias, stride, padding),
        conv_ok(x, kernel, bias2, stride, padding),
        bias2.shape == bias.shape,
        forall|k: int| 0 <= k < kernel.shape[0] ==> #[trigger] bias2.data[k] == bias.data[k] + c[k],
    ensures
        spec_conv2d(x, kernel, bias2, stride, padding, true).len() == spec_conv2d(
            x,
            kernel,
            bias,
            stride,
            padding,
            true,
        ).len(),
        forall|i: int|
            0 <= i < spec_conv2d(x, kernel, bias, stride, padding, true).len() ==> #[trigger] spec_conv2d(
                x,
                kernel,
                bias2,
                stride,
                padding,
                true,
            )[i].len() == spec_conv2d(x, kernel, bias, stride, padding, true)[i].len(),
        forall|i: int, j: int|
            0 <= i < spec_conv2d(x, kernel, bias, stride, padding, true).len() && 0 <= j
                < spec_conv2d(x, kernel, bias, stride, padding, true)[i].len() ==> #[trigger] spec_conv2d(
                x,
                kernel,
                bias2,
                stride,
                padding,
                true,
            )[i][j].len() == spec_conv2d(x, kernel, bias, stride, padding, true)[i][j].len(),
        forall|i: int, j: int, k: int|
            0 <= i < spec_conv2d(x, kernel, bias, stride, padding, true).len() && 0 <= j
                < spec_conv2d(x, kernel, bias, stride, padding, true)[i].len() && 0 <= k
                < spec_conv2d(x, kernel, bias, stride, padding, true)[i][j].len() ==> #[trigger] spec_conv2d(
                x,
                kernel,
                bias2,
                stride,
                padding,
                true,
            )[i][j][k] == spec_conv2d(x, kernel, bias, stride, padding, true)[i][j][k] + c[k],
{
    let o1 = spec_conv2d(x, kernel, bias, stride, padding, true);
    let o2 = spec_conv2d(x, kernel, bias2, stride, padding, true);
    let xi = conv_input(x, kernel, padding);
    let b1 = spec_bias_reshape(bias);
    let b2 = spec_bias_reshape(bias2);
    assert forall|i: int, j: int, k: int|
        0 <= i < o1.len() && 0 <= j < o1[i].len() && 0 <= k < o1[i][j].len() implies #[trigger] o2[i][j][k]
            == o1[i][j][k] + c[k] by {
        let cw = conv_window(xi, kernel, stride, i, j, k);
        let nn = kernel.shape[3] as int;
        let mm = kernel.shape[1] as int;
        let ll = kernel.shape[2] as int;
        assert(conv_entry_fits(cw, nn, mm, ll, b1));
        assert(conv_entry_fits(cw, nn, mm, ll, b2));
        assert(b1[k] == bias.data[k]);
        assert(b2[k] == bias2.data[k]);
    }
}

/// `dot(a, b, n)` stays inside `i32` when every running total does.
proof fn lemma_dot_fits_total(a: Seq<i32>, b: Seq<i32>, n: int)
    requires
        dot_fits(a, b, n),
    ensures
        fits_i32(dot(a, b, n)),
{
    if n > 0 {
        assert(fits_i32(dot(a, b, n - 1) + a[n - 1] * b[n - 1]));
    }
}

/// Entry `(i, j)` of a fully connected layer is the dot product of input
/// row `i` with kernel row `j` over the input width, divided by 512 rounding
/// toward zero, plus `bias[j]` unless `biasoff`, and clamped below at 0
/// exactly when `params[0] == 1`, whether or not the bias is on. In
/// particular, with `params[0] == 1` no output is negative.
pub proof fn lemma_fc_layer_entries(
    inp: Seq<Seq<i32>>,
    kernel: Seq<Seq<i32>>,
    bias: Seq<i32>,
    params: Seq<i32>,
    biasoff: bool,
)
    requires
        fc_ok(inp, kernel, bias, params, biasoff),
    ensures
        spec_fc_layer(inp, kernel, bias, params, biasoff).len() == inp.len(),
        forall|i: int|
            0 <= i < inp.len() ==> #[trigger] spec_fc_layer(inp, kernel, bias, params, biasoff)[i].len()
                == kernel.len(),
        forall|i: int, j: int|
            0 <= i < inp.len() && 0 <= j < kernel.len() ==> {
                let v = trunc_div(dot(inp[i], kernel[j], inp[0].len() as int), 512) + if biasoff {
                    0
                } else {
                    bias[j] as int
                };
                #[trigger] spec_fc_layer(inp, kernel, bias, params, biasoff)[i][j] == if params[0] == 1 {
                    if v < 0 {
                        0
                    } else {
                        v
                    }
                } else {
                    v
                }
            },
        params.len() >= 1 && params[0] == 1 ==> forall|i: int, j: int|
            0 <= i < inp.len() && 0 <= j < kernel.len() ==> #[trigger] spec_fc_layer(
                inp,
                kernel,
                bias,
                params,
                biasoff,
            )[i][j] >= 0,
{
    let out = spec_fc_layer(inp, kernel, bias, params, biasoff);
    assert forall|i: int, j: int| 0 <= i < inp.len() && 0 <= j < kernel.len() implies {
        let v = trunc_div(dot(inp[i], kernel[j], inp[0].len() as int), 512) + if biasoff {
            0
        } else {
            bias[j] as int
        };
        &&& #[trigger] out[i][j] == if params[0] == 1 {
            if v < 0 {
                0
            } else {
                v
            }
        } else {
            v
        }
        &&& params[0] == 1 ==> out[i][j] >= 0
    } by {
        let n = inp[0].len() as int;
        assert(fc_entry_fits(inp[i], kernel[j], n, bias, j, biasoff));
        lemma_dot_fits_total(inp[i], kernel[j], n);
        lemma_trunc_div_fits(dot(inp[i], kernel[j], n), 512);
    }
}

/// The window sum depends only on the window's entries.
proof fn lemma_pool_sum_same(p1: PoolWindow, p2: PoolWindow, mm: int, ll: int)
    requires
        forall|m: int, l: int| 0 <= m < mm && 0 <= l < ll ==> pool_term(p1, m, l) == pool_term(p2, m, l),
    ensures
        pool_sum(p1, mm, ll) == pool_sum(p2, mm, ll),
    decreases mm,
{
    if mm > 0 {
        lemma_pool_sum_same(p1, p2, mm - 1, ll);
        lemma_pool_row_same(p1, p2, mm - 1, ll);
    }
}

proof fn lemma_pool_row_same(p1: PoolWindow, p2: PoolWindow, m: int, l: int)
    requires
        forall|l2: int| 0 <= l2 < l ==> pool_term(p1, m, l2) == pool_term(p2, m, l2),
    ensures
        pool_row(p1, m, l) == pool_row(p2, m, l),
    decreases l,
{
    if l > 0 {
        lemma_pool_row_same(p1, p2, m, l - 1);
    }
}

/// Output channel `k` of `avgpool2d` at `(i, j)` is the sum of channel `k`
/// over the `params[0] x params[1]` window at `(i * params[2], j * params[3])`,
/// divided by `params[0] * params[2]` rounding toward zero.
pub proof fn lemma_avgpool2d_entries(x: Seq<Seq<Seq<i32>>>, params: Seq<i32>)
    requires
        avgpool_ok(x, params),
    ensures
        spec_avgpool2d(x, params).len() == pool_out0(x, params),
        forall|i: int|
            0 <= i < pool_out0(x, params) ==> #[trigger] spec_avgpool2d(x, params)[i].len() == pool_out1(
                x,
                params,
            ),
        forall|i: int, j: int|
            0 <= i < pool_out0(x, params) && 0 <= j < pool_out1(x, params) ==> #[trigger] spec_avgpool2d(
                x,
                params,
            )[i][j].len() == x[0][0].len(),
        forall|i: int, j: int, k: int|
            0 <= i < pool_out0(x, params) && 0 <= j < pool_out1(x, params) && 0 <= k < x[0][0].len()
                ==> #[trigger] spec_avgpool2d(x, params)[i][j][k] == trunc_div(
                pool_sum(
                    PoolWindow { x, sh: params[2] as int, sw: params[3] as int, i, j, k },
                    params[0] as int,
                    params[1] as int,
                ),
                params[0] * params[2],
            ),
{
    let out = spec_avgpool2d(x, params);
    assert forall|i: int, j: int, k: int|
        0 <= i < pool_out0(x, params) && 0 <= j < pool_out1(x, params) && 0 <= k < x[0][0].len()
            implies #[trigger] out[i][j][k] == trunc_div(
            pool_sum(
                PoolWindow { x, sh: params[2] as int, sw: params[3] as int, i, j, k },
                params[0] as int,
                params[1] as int,
            ),
            params[0] * params[2],
        ) by {
        let p = PoolWindow { x, sh: params[2] as int, sw: params[3] as int, i, j, k };
        assert(fits_i32(trunc_div(pool_sum(p, params[0] as int, params[1] as int), params[0] * params[2])));
    }
}

/// Output channel `k` of `avgpool2d` depends on input channel `k` alone: two
/// inputs of the same size that agree on channel `k` give the same outputs
/// in channel `k`, whatever their other channels hold.
pub proof fn lemma_avgpool2d_channel_independent(
    x: Seq<Seq<Seq<i32>>>,
    x2: Seq<Seq<Seq<i32>>>,
    params: Seq<i32>,
    k: int,
)
    requires
        avgpool_ok(x, params),
        avgpool_ok(x2, params),
        x2.len() == x.len(),
        x2[0].len() == x[0].len(),
        x2[0][0].len() == x[0][0].len(),
        0 <= k < x[0][0].len(),
        forall|r: int, q: int|
            0 <= r < x.len() && 0 <= q < x[r].len() && q < x2[r].len() && k < x[r][q].len() && k
                < x2[r][q].len() ==> #[trigger] x2[r][q][k] == x[r][q][k],
    ensures
        forall|i: int, j: int|
            0 <= i < pool_out0(x, params) && 0 <= j < pool_out1(x, params) ==> #[trigger] spec_avgpool2d(
                x2,
                params,
            )[i][j][k] == spec_avgpool2d(x, params)[i][j][k],
{
    lemma_avgpool2d_entries(x, params);
    lemma_avgpool2d_entries(x2, params);
    let c = x[0][0].len() as int;
    assert forall|i: int, j: int|
        0 <= i < pool_out0(x, params) && 0 <= j < pool_out1(x, params) implies #[trigger] spec_avgpool2d(
            x2,
            params,
        )[i][j][k] == spec_avgpool2d(x, params)[i][j][k] by {
        let p1 = PoolWindow { x, sh: params[2] as int, sw: params[3] as int, i, j, k };
        let p2 = PoolWindow { x: x2, sh: params[2] as int, sw: params[3] as int, i, j, k };
        assert forall|m: int, l: int| 0 <= m < params[0] && 0 <= l < params[1] implies pool_term(p1, m, l)
            == pool_term(p2, m, l) by {
            assert(window_cell_ok(x, params[2] as int, params[3] as int, i, j, m, l, c));
            assert(window_cell_ok(x2, params[2] as int, params[3] as int, i, j, m, l, c));
            let r = i * params[2] + m;
            let q = j * params[3] + l;
            assert(x2[r][q][k] == x[r][q][k]);
        }
        lemma_pool_sum_same(p1, p2, params[0] as int, params[1] as int);
    }
}

/// `add` adds `bias[k]` to channel `k` of every cell inside the box fixed by
/// the first row and cell, and leaves every other entry as it is; the
/// output has the nesting of the input.
pub proof fn lemma_add_entries(x: Seq<Seq<Seq<i32>>>, bias: TensorView)
    requires
        add_ok(x, bias),
    ensures
        spec_add(x, spec_bias_reshape(bias)).len() == x.len(),
        forall|i: int| 0 <= i < x.len() ==> #[trigger] spec_add(x, spec_bias_reshape(bias))[i].len() == x[i].len(),
        forall|i: int, j: int|
            0 <= i < x.len() && 0 <= j < x[i].len() ==> #[trigger] spec_add(x, spec_bias_reshape(bias))[i][j].len()
                == x[i][j].len(),
        forall|i: int, j: int, k: int|
            0 <= i < x.len() && 0 <= j < x[i].len() && 0 <= k < x[i][j].len() ==> #[trigger] spec_add(
                x,
                spec_bias_reshape(bias),
            )[i][j][k] == if j < x[0].len() && k < x[0][0].len() {
                x[i][j][k] + bias.data[k]
            } else {
                x[i][j][k] as int
            },
{
    let out = spec_add(x, spec_bias_reshape(bias));
    assert forall|i: int, j: int, k: int|
        0 <= i < x.len() && 0 <= j < x[i].len() && 0 <= k < x[i][j].len() implies #[trigger] out[i][j][k]
            == if j < x[0].len() && k < x[0][0].len() {
            x[i][j][k] + bias.data[k]
        } else {
            x[i][j][k] as int
        } by {
        if j < x[0].len() && k < x[0][0].len() {
            assert(fits_i32(x[i][j][k] + bias.data[k]));
        }
    }
}

/// `mul` multiplies channel `k` of every cell inside the box fixed by the
/// first row and cell by `scale[k]` and divides by 512 rounding toward zero,
/// and leaves every other entry as it is; the output has the nesting of the
/// input.
pub proof fn lemma_mul_entries(x: Seq<Seq<Seq<i32>>>, scale: TensorView)
    requires
        mul_ok(x, scale),
    ensures
        spec_mul(x, spec_bias_reshape(scale)).len() == x.len(),
        forall|i: int| 0 <= i < x.len() ==> #[trigger] spec_mul(x, spec_bias_reshape(scale))[i].len() == x[i].len(),
        forall|i: int, j: int|
            0 <= i < x.len() && 0 <= j < x[i].len() ==> #[trigger] spec_mul(x, spec_bias_reshape(scale))[i][j].len()
                == x[i][j].len(),
        forall|i: int, j: int, k: int|
            0 <= i < x.len() && 0 <= j < x[i].len() && 0 <= k < x[i][j].len() ==> #[trigger] spec_mul(
                x,
                spec_bias_reshape(scale),
            )[i][j][k] == if j < x[0].len() && k < x[0][0].len() {
                trunc_div(x[i][j][k] * scale.data[k], 512)
            } else {
                x[i][j][k] as int
            },
{
    let out = spec_mul(x, spec_bias_reshape(scale));
    assert forall|i: int, j: int, k: int|
        0 <= i < x.len() && 0 <= j < x[i].len() && 0 <= k < x[i][j].len() implies #[trigger] out[i][j][k]
            == if j < x[0].len() && k < x[0][0].len() {
            trunc_div(x[i][j][k] * scale.data[k], 512)
        } else {
            x[i][j][k] as int
        } by {
        if j < x[0].len() && k < x[0][0].len() {
            assert(fits_i32(x[i][j][k] * scale.data[k]));
            lemma_trunc_div_fits(x[i][j][k] * scale.data[k], 512);
        }
    }
}

/// The flat position of kernel weight `(k, m, l, n)` in a kernel tensor of
/// shape `s`, row-major.
pub open spec fn kernel_position(s: Seq<i32>, k: int, m: int, l: int, n: int) -> int {
    ((k * s[1] + m) * s[2] + l) * s[3] + n
}

/// A row of window products that are all 0 but the one at `l0` sums to it.
proof fn lemma_conv_row_tap(c: ConvWindow, n: int, m: int, l: int, l0: int)
    requires
        forall|l2: int| 0 <= l2 < l && l2 != l0 ==> conv_term(c, n, m, l2) == 0,
    ensures
        conv_row(c, n, m, l) == if 0 <= l0 < l {
            conv_term(c, n, m, l0)
        } else {
            0
        },
    decreases l,
{
    if l > 0 {
        lemma_conv_row_tap(c, n, m, l - 1, l0);
    }
}

/// A plane of window products that are all 0 but the one at `(m0, l0)`
/// sums to it.
proof fn lemma_conv_plane_tap(c: ConvWindow, n: int, m: int, ll: int, m0: int, l0: int)
    requires
        0 <= l0 < ll,
        forall|m2: int, l2: int|
            0 <= m2 < m && 0 <= l2 < ll && !(m2 == m0 && l2 == l0) ==> conv_term(c, n, m2, l2) == 0,
    ensures
        conv_plane(c, n, m, ll) == if 0 <= m0 < m {
            conv_term(c, n, m0, l0)
        } else {
            0
        },
    decreases m,
{
    if m > 0 {
        lemma_conv_plane_tap(c, n, m - 1, ll, m0, l0);
        if m - 1 == m0 {
            lemma_conv_row_tap(c, n, m - 1, ll, l0);
        } else {
            lemma_conv_row_tap(c, n, m - 1, ll, -1);
        }
    }
}

/// A window whose products are all 0 but the one at `(n0, m0, l0)` sums to it.
proof fn lemma_conv_sum_tap(c: ConvWindow, n: int, mm: int, ll: int, n0: int, m0: int, l0: int)
    requires
        0 <= m0 < mm,
        0 <= l0 < ll,
        forall|n2: int, m2: int, l2: int|
            0 <= n2 < n && 0 <= m2 < mm && 0 <= l2 < ll && !(n2 == n0 && m2 == m0 && l2 == l0)
                ==> conv_term(c, n2, m2, l2) == 0,
    ensures
        conv_sum(c, n, mm, ll) == if 0 <= n0 < n {
            conv_term(c, n0, m0, l0)
        } else {
            0
        },
    decreases n,
{
    if n > 0 {
        lemma_conv_sum_tap(c, n - 1, mm, ll, n0, m0, l0);
        if n - 1 == n0 {
            lemma_conv_plane_tap(c, n - 1, mm, ll, m0, l0);
        } else {
            lemma_conv_plane_tap(c, n - 1, mm, ll, -1, l0);
        }
    }
}

/// With relu6 off, a kernel whose only non-zero weight is 512 (the fixed-point
/// 1) at output channel `k0`, row `m0`, column `l0`, input channel `n0` copies
/// one entry: output `(i, j, k0)` is the (padded) input at row
/// `i * stride + m0`, column `j * stride + l0`, channel `n0`, plus `bias[k0]`,
/// and every other output channel `k` is `bias[k]`.
pub proof fn lemma_conv2d_single_tap(
    x: Seq<Seq<Seq<i32>>>,
    kernel: TensorView,
    bias: TensorView,
    stride: i32,
    padding: i32,
    k0: int,
    m0: int,
    l0: int,
    n0: int,
)
    requires
        conv_ok(x, kernel, bias, stride, padding),
        0 <= k0 < kernel.shape[0],
        0 <= m0 < kernel.shape[1],
        0 <= l0 < kernel.shape[2],
        0 <= n0 < kernel.shape[3],
        forall|d: int|
            0 <= d < kernel.data.len() ==> #[trigger] kernel.data[d] == if d == kernel_position(
                kernel.shape,
                k0,
                m0,
                l0,
                n0,
            ) {
                512int
            } else {
                0int
            },
    ensures
        forall|i: int, j: int, k: int|
            0 <= i < conv_out0(conv_input(x, kernel, padding), kernel, stride) && 0 <= j < conv_out1(
                conv_input(x, kernel, padding),
                kernel,
                stride,
            ) && 0 <= k < kernel.shape[0] ==> #[trigger] spec_conv2d(x, kernel, bias, stride, padding, true)[i][j][k]
                == if k == k0 {
                conv_input(x, kernel, padding)[i * stride + m0][j * stride + l0][n0] + bias.data[k]
            } else {
                bias.data[k] as int
            },
{
    let xi = conv_input(x, kernel, padding);
    let s = kernel.shape;
    let out = spec_conv2d(x, kernel, bias, stride, padding, true);
    let w = spec_kernel_reshape(kernel);
    let kk = s[0] as int;
    let mm = s[1] as int;
    let ll = s[2] as int;
    let nn = s[3] as int;
    let pos0 = kernel_position(s, k0, m0, l0, n0);
    assert forall|k: int, m: int, l: int, n: int|
        0 <= k < kk && 0 <= m < mm && 0 <= l < ll && 0 <= n < nn implies #[trigger] w[k][m][l][n] == if k == k0
            && m == m0 && l == l0 && n == n0 {
            512int
        } else {
            0int
        } by {
        lemma_radix_bound(k, m, kk, mm);
        lemma_radix_bound(k * mm + m, l, kk * mm, ll);
        lemma_radix_bound((k * mm + m) * ll + l, n, kk * mm * ll, nn);
        let d = kernel_position(s, k, m, l, n);
        assert(d < kernel.data.len());
        if d == pos0 {
            lemma_radix_bound(k0, m0, kk, mm);
            lemma_radix_bound(k0 * mm + m0, l0, kk * mm, ll);
            lemma_radix_unique((k * mm + m) * ll + l, n, (k0 * mm + m0) * ll + l0, n0, nn);
            lemma_radix_unique(k * mm + m, l, k0 * mm + m0, l0, ll);
            lemma_radix_unique(k, m, k0, m0, mm);
        }
    }
    assert forall|i: int, j: int, k: int|
        0 <= i < conv_out0(xi, kernel, stride) && 0 <= j < conv_out1(xi, kernel, stride) && 0 <= k < kk
            implies #[trigger] out[i][j][k] == if k == k0 {
            xi[i * stride + m0][j * stride + l0][n0] + bias.data[k]
        } else {
            bias.data[k] as int
        } by {
        let c = conv_window(xi, kernel, stride, i, j, k);
        assert(conv_entry_fits(c, nn, mm, ll, spec_bias_reshape(bias)));
        assert forall|n2: int, m2: int, l2: int|
            0 <= n2 < nn && 0 <= m2 < mm && 0 <= l2 < ll && !(n2 == n0 && m2 == m0 && l2 == l0 && k == k0)
                implies conv_term(c, n2, m2, l2) == 0 by {
            assert(w[k][m2][l2][n2] == 0);
        }
        if k == k0 {
            lemma_conv_sum_tap(c, nn, mm, ll, n0, m0, l0);
            assert(w[k][m0][l0][n0] == 512);
            let v = xi[i * stride + m0][j * stride + l0][n0] as int;
            assert(conv_term(c, n0, m0, l0) == v * 512);
            assert(trunc_div(v * 512, 512) == v) by (nonlinear_arith);
        } else {
            lemma_conv_sum_tap(c, nn, mm, ll, -1, m0, l0);
        }
    }
}

} // verus!
