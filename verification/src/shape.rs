//! Reshaping of matrices: transposition, row-wise concatenation, and the
//! conversions between a single flat row and a matrix.
use vstd::prelude::*;
use vstd::arithmetic::div_mod::lemma_fundamental_div_mod_converse;
use crate::util::{lemma_radix_bound, lemma_radix_next, rows_cover_first, rows_cover_first_check, view2};

verus! {

/// The transpose of the `m[0].len()` leading columns of `m`.
pub open spec fn spec_transpose(m: Seq<Seq<i32>>) -> Seq<Seq<i32>> {
    Seq::new(m[0].len(), |i: int| Seq::new(m.len(), |j: int| m[j][i]))
}

/// Transposes a matrix whose first row fixes the number of columns.
pub fn transpose(inp: Vec<Vec<i32>>) -> (out: Vec<Vec<i32>>)
    requires
        rows_cover_first(view2(inp)),
    ensures
        view2(out) == spec_transpose(view2(inp)),
{
    let ghost m = view2(inp);
    let cols = inp[0].len();
    let rows = inp.len();
    let mut out: Vec<Vec<i32>> = Vec::new();
    for i in 0..cols
        invariant
            m == view2(inp),
            rows_cover_first(m),
            cols == m[0].len(),
            rows == m.len(),
            out.len() == i,
            forall|a: int| 0 <= a < i ==> #[trigger] out[a]@ == spec_transpose(m)[a],
    {
        let mut row: Vec<i32> = Vec::new();
        for j in 0..rows
            invariant
                m == view2(inp),
                rows_cover_first(m),
                cols == m[0].len(),
                rows == m.len(),
                0 <= i < cols,
                row@ == Seq::new(j as nat, |b: int| m[b][i as int]),
        {
            assert(m[j as int].len() >= m[0].len());
            row.push(inp[j][i]);
            assert(row@ =~= Seq::new((j + 1) as nat, |b: int| m[b][i as int]));
        }
        out.push(row);
    }
    assert(view2(out) =~= spec_transpose(m));
    out
}

/// `concatenate` reads only rows and columns that exist.
pub open spec fn concatenate_ok(a: Seq<Seq<i32>>, b: Seq<Seq<i32>>) -> bool {
    a.len() > 0 ==> {
        &&& forall|i: int| 0 <= i < a.len() ==> #[trigger] a[i].len() >= a[0].len()
        &&& b.len() >= 1
        &&& b[0].len() > 0 ==> {
            &&& b.len() >= a.len()
            &&& forall|i: int| 0 <= i < a.len() ==> #[trigger] b[i].len() >= b[0].len()
        }
    }
}

/// Row `i` of the result is the first `a[0].len()` entries of `a[i]`
/// followed by the first `b[0].len()` entries of `b[i]`.
pub open spec fn spec_concatenate(a: Seq<Seq<i32>>, b: Seq<Seq<i32>>) -> Seq<Seq<i32>> {
    Seq::new(
        a.len(),
        |i: int| a[i].subrange(0, a[0].len() as int) + b[i].subrange(0, b[0].len() as int),
    )
}

/// Decides `concatenate_ok`: whether `concatenate` can join these matrices.
pub fn concatenate_ok_check(a: &Vec<Vec<i32>>, b: &Vec<Vec<i32>>) -> (r: bool)
    ensures
        r == concatenate_ok(view2(*a), view2(*b)),
{
    let ghost av = view2(*a);
    let ghost bv = view2(*b);
    if a.len() == 0 {
        return true;
    }
    if !rows_cover_first_check(a) || b.len() < 1 {
        return false;
    }
    assert(bv[0] == b[0]@);
    if b[0].len() == 0 {
        return true;
    }
    if b.len() < a.len() {
        return false;
    }
    let w = b[0].len();
    for i in 0..a.len()
        invariant
            bv == view2(*b),
            b.len() >= a.len(),
            w == bv[0].len(),
            forall|q: int| 0 <= q < i ==> #[trigger] bv[q].len() >= w,
    {
        assert(bv[i as int] == b[i as int]@);
        if b[i].len() < w {
            return false;
        }
    }
    true
}

/// Joins two matrices side by side, row by row.
pub fn concatenate(input1: Vec<Vec<i32>>, input2: Vec<Vec<i32>>) -> (out: Vec<Vec<i32>>)
    requires
        concatenate_ok(view2(input1), view2(input2)),
    ensures
        view2(out) == spec_concatenate(view2(input1), view2(input2)),
{
    let ghost a = view2(input1);
    let ghost b = view2(input2);
    let mut out: Vec<Vec<i32>> = Vec::new();
    for i in 0..input1.len()
        invariant
            a == view2(input1),
            b == view2(input2),
            concatenate_ok(a, b),
            out.len() == i,
            i <= a.len(),
            forall|r: int| 0 <= r < i ==> #[trigger] out[r]@ == spec_concatenate(a, b)[r],
    {
        let mut row: Vec<i32> = Vec::new();
        let w1 = input1[0].len();
        assert(a[i as int].len() >= a[0].len());
        for j in 0..w1
            invariant
                a == view2(input1),
                b == view2(input2),
                0 <= i < a.len(),
                w1 == a[0].len(),
                a[i as int].len() >= w1,
                row@ == a[i as int].subrange(0, j as int),
        {
            row.push(input1[i][j]);
            assert(row@ =~= a[i as int].subrange(0, j + 1));
        }
        let w2 = input2[0].len();
        if w2 > 0 {
            assert(b[i as int].len() >= b[0].len());
        }
        for j in 0..w2
            invariant
                a == view2(input1),
                b == view2(input2),
                concatenate_ok(a, b),
                0 <= i < a.len(),
                w1 == a[0].len(),
                w2 == b[0].len(),
                w2 > 0 ==> i < b.len() && b[i as int].len() >= w2,
                row@ == a[i as int].subrange(0, w1 as int) + b[i as int].subrange(0, j as int),
        {
            row.push(input2[i][j]);
            assert(row@ =~= a[i as int].subrange(0, w1 as int) + b[i as int].subrange(0, j + 1));
        }
        out.push(row);
    }
    assert(view2(out) =~= spec_concatenate(a, b));
    out
}

/// `reshape1dto2d` reads only entries of the first row that exist.
pub open spec fn reshape1dto2d_ok(input: Seq<Seq<i32>>, shape: Seq<i32>) -> bool {
    &&& shape.len() >= 1
    &&& shape[0] >= 0
    &&& shape[0] > 0 ==> {
        &&& shape.len() >= 2
        &&& shape[1] >= 0
        &&& shape[1] > 0 ==> input.len() >= 1 && input[0].len() >= shape[0] * shape[1]
    }
}

/// A `shape[0]` by `shape[1]` matrix filled row by row from `input[0]`.
pub open spec fn spec_reshape1dto2d(input: Seq<Seq<i32>>, shape: Seq<i32>) -> Seq<Seq<i32>> {
    Seq::new(
        shape[0] as nat,
        |i: int| Seq::new(shape[1] as nat, |j: int| input[0][i * shape[1] + j]),
    )
}

/// Cuts the first row of `input` into `shape[0]` rows of `shape[1]` entries.
pub fn reshape1dto2d(input: Vec<Vec<i32>>, shape: Vec<i32>) -> (out: Vec<Vec<i32>>)
    requires
        reshape1dto2d_ok(view2(input), shape@),
    ensures
        view2(out) == spec_reshape1dto2d(view2(input), shape@),
{
    let ghost m = view2(input);
    let mut out: Vec<Vec<i32>> = Vec::new();
    let mut idx: usize = 0;
    let n0 = shape[0] as usize;
    for i in 0..n0
        invariant
            m == view2(input),
            reshape1dto2d_ok(m, shape@),
            n0 == shape@[0],
            out.len() == i,
            i > 0 ==> idx == i * shape@[1],
            i == 0 ==> idx == 0,
            forall|r: int| 0 <= r < i ==> #[trigger] out[r]@ == spec_reshape1dto2d(m, shape@)[r],
    {
        let n1 = shape[1] as usize;
        let mut row: Vec<i32> = Vec::new();
        assert(idx == i * n1) by {
            if i == 0 {
                assert(0 * n1 == 0) by (nonlinear_arith);
            }
        }
        for j in 0..n1
            invariant
                m == view2(input),
                reshape1dto2d_ok(m, shape@),
                n0 == shape@[0],
                n1 == shape@[1],
                0 <= i < n0,
                idx == i * n1 + j,
                row@ == Seq::new(j as nat, |c: int| m[0][i * shape@[1] + c]),
        {
            proof {
                lemma_radix_bound(i as int, j as int, n0 as int, n1 as int);
            }
            row.push(input[0][idx]);
            idx = idx + 1;
            assert(row@ =~= Seq::new((j + 1) as nat, |c: int| m[0][i * shape@[1] + c]));
        }
        proof {
            lemma_radix_next(i as int, n1 as int);
        }
        out.push(row);
        assert(out[i as int]@ =~= spec_reshape1dto2d(m, shape@)[i as int]);
    }
    assert(view2(out) =~= spec_reshape1dto2d(m, shape@));
    out
}

/// `reshape2dto1d` reads only entries that exist.
pub open spec fn reshape2dto1d_ok(input: Seq<Seq<i32>>) -> bool {
    input.len() > 0 ==> rows_cover_first(input)
}

/// Every entry of the leading `input[0].len()` columns, in row-major order,
/// each wrapped in a row of its own.
pub open spec fn spec_reshape2dto1d(input: Seq<Seq<i32>>) -> Seq<Seq<i32>> {
    let w = if input.len() > 0 {
        input[0].len() as int
    } else {
        0
    };
    Seq::new((input.len() * w) as nat, |t: int| seq![input[t / w][t % w]])
}

/// Flattens a matrix into a column: one single-entry row per entry.
pub fn reshape2dto1d(input: Vec<Vec<i32>>, _shape: Vec<i32>) -> (out: Vec<Vec<i32>>)
    requires
        reshape2dto1d_ok(view2(input)),
    ensures
        view2(out) == spec_reshape2dto1d(view2(input)),
{
    let ghost m = view2(input);
    let mut out: Vec<Vec<i32>> = Vec::new();
    let n = input.len();
    if n == 0 {
        assert(view2(out) =~= spec_reshape2dto1d(m));
        return out;
    }
    let w = input[0].len();
    let ghost spec = spec_reshape2dto1d(m);
    assert(0 * w == 0) by (nonlinear_arith);
    for i in 0..n
        invariant
            m == view2(input),
            reshape2dto1d_ok(m),
            n == m.len(),
            n > 0,
            w == m[0].len(),
            spec == spec_reshape2dto1d(m),
            out.len() == i * w,
            forall|t: int| 0 <= t < i * w ==> #[trigger] out[t]@ == spec[t],
    {
        assert(m[i as int].len() >= w);
        for j in 0..w
            invariant
                m == view2(input),
                reshape2dto1d_ok(m),
                n == m.len(),
                w == m[0].len(),
                0 <= i < n,
                m[i as int].len() >= w,
                spec == spec_reshape2dto1d(m),
                out.len() == i * w + j,
                forall|t: int| 0 <= t < i * w + j ==> #[trigger] out[t]@ == spec[t],
        {
            proof {
                lemma_radix_bound(i as int, j as int, n as int, w as int);
                lemma_fundamental_div_mod_converse(i * w + j, w as int, i as int, j as int);
            }
            let cell = vec![input[i][j]];
            out.push(cell);
            assert(out[i * w + j]@ =~= spec[i * w + j]);
        }
        proof {
            lemma_radix_next(i as int, w as int);
        }
    }
    assert(view2(out) =~= spec);
    out
}

/// Every row of `m` has exactly as many entries as the first.
pub open spec fn is_rectangular(m: Seq<Seq<i32>>) -> bool {
    m.len() >= 1 && forall|r: int| 0 <= r < m.len() ==> #[trigger] m[r].len() == m[0].len()
}

/// Transposing a rectangular matrix with at least one column twice gives it back.
pub proof fn lemma_transpose_twice(m: Seq<Seq<i32>>)
    requires
        is_rectangular(m),
        m[0].len() >= 1,
    ensures
        spec_transpose(spec_transpose(m)) == m,
{
    let t = spec_transpose(m);
    let tt = spec_transpose(t);
    assert(tt.len() == m.len());
    assert forall|i: int| 0 <= i < m.len() implies #[trigger] tt[i] =~= m[i] by {
        assert(m[i].len() == m[0].len());
    }
    assert(tt =~= m);
}

/// Flattening a rectangular matrix into a column, turning the column into a
/// row, and cutting that row back into rows of the same width gives the
/// matrix back.
pub proof fn lemma_flatten_reshape_round_trip(m: Seq<Seq<i32>>)
    requires
        is_rectangular(m),
        m[0].len() >= 1,
        m.len() <= i32::MAX,
        m[0].len() <= i32::MAX,
    ensures
        spec_reshape1dto2d(
            spec_transpose(spec_reshape2dto1d(m)),
            seq![m.len() as i32, m[0].len() as i32],
        ) == m,
{
    let h = m.len() as int;
    let w = m[0].len() as int;
    let f = spec_reshape2dto1d(m);
    let t = spec_transpose(f);
    let shape = seq![h as i32, w as i32];
    let r = spec_reshape1dto2d(t, shape);
    assert(h * w >= 1) by (nonlinear_arith)
        requires
            h >= 1,
            w >= 1,
    ;
    assert(f.len() == h * w);
    assert(f[0].len() == 1);
    assert(t.len() == 1);
    assert(r.len() == h);
    assert forall|i: int| 0 <= i < h implies #[trigger] r[i] =~= m[i] by {
        assert(m[i].len() == w);
        assert forall|j: int| 0 <= j < w implies r[i][j] == m[i][j] by {
            lemma_radix_bound(i, j, h, w);
            lemma_fundamental_div_mod_converse(i * w + j, w, i, j);
            assert(r[i][j] == t[0][i * w + j]);
            assert(t[0][i * w + j] == f[i * w + j][0]);
        }
    }
    assert(r =~= m);
}

/// Row `i` of `concatenate(a, b)` is the first `a[0].len()` entries of
/// `a[i]` followed by the first `b[0].len()` entries of `b[i]`; the result
/// has the rows of `a`.
pub proof fn lemma_concatenate_layout(a: Seq<Seq<i32>>, b: Seq<Seq<i32>>)
    requires
        concatenate_ok(a, b),
        a.len() > 0,
    ensures
        spec_concatenate(a, b).len() == a.len(),
        forall|i: int|
            0 <= i < a.len() ==> #[trigger] spec_concatenate(a, b)[i].len() == a[0].len() + b[0].len(),
        forall|i: int, t: int|
            0 <= i < a.len() && 0 <= t < a[0].len() ==> #[trigger] spec_concatenate(a, b)[i][t] == a[i][t],
        forall|i: int, t: int|
            0 <= i < a.len() && 0 <= t < b[0].len() ==> #[trigger] spec_concatenate(a, b)[i][a[0].len() + t]
                == b[i][t],
{
    let out = spec_concatenate(a, b);
    assert forall|i: int| 0 <= i < a.len() implies #[trigger] out[i].len() == a[0].len() + b[0].len() by {
        assert(a[i].len() >= a[0].len());
        if b[0].len() > 0 {
            assert(b[i].len() >= b[0].len());
        }
    }
    assert forall|i: int, t: int| 0 <= i < a.len() && 0 <= t < a[0].len() implies #[trigger] out[i][t]
        == a[i][t] by {
        assert(a[i].len() >= a[0].len());
        if b[0].len() > 0 {
            assert(b[i].len() >= b[0].len());
        }
    }
    assert forall|i: int, t: int| 0 <= i < a.len() && 0 <= t < b[0].len() implies #[trigger] out[i][a[0].len()
        + t] == b[i][t] by {
        assert(a[i].len() >= a[0].len());
        assert(b[i].len() >= b[0].len());
    }
}

/// The transpose of a matrix whose first row fixes the number of columns has
/// one row per column and one column per row, and entry `(a, b)` is entry
/// `(b, a)` of the matrix.
pub proof fn lemma_transpose_entries(m: Seq<Seq<i32>>)
    requires
        rows_cover_first(m),
    ensures
        spec_transpose(m).len() == m[0].len(),
        forall|a: int| 0 <= a < m[0].len() ==> #[trigger] spec_transpose(m)[a].len() == m.len(),
        forall|a: int, b: int|
            0 <= a < m[0].len() && 0 <= b < m.len() ==> #[trigger] spec_transpose(m)[a][b] == m[b][a]
                && a < m[b].len(),
{
    assert forall|a: int, b: int| 0 <= a < m[0].len() && 0 <= b < m.len() implies #[trigger] spec_transpose(
        m,
    )[a][b] == m[b][a] && a < m[b].len() by {
        assert(m[b].len() >= m[0].len());
    }
}

} // verus!
