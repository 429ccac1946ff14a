//! Looking up tensors of a model and unfolding their flat, row-major data
//! into nested vectors.
use vstd::prelude::*;
use crate::processing::{tensor_views, Tensor, TensorView};
use crate::util::{lemma_radix_bound, lemma_radix_next, view2, view3, view4};

verus! {

/// The tensor that `get_tensor` hands back when no tensor has the index.
pub open spec fn empty_tensor() -> TensorView {
    TensorView { idx: 0, shape: Seq::empty(), data: Seq::empty() }
}

/// The last tensor of `ts` whose index is `idx`, or the empty tensor.
pub open spec fn spec_get_tensor(idx: i32, ts: Seq<TensorView>) -> TensorView
    decreases ts.len(),
{
    if ts.len() == 0 {
        empty_tensor()
    } else if ts.last().idx == idx {
        ts.last()
    } else {
        spec_get_tensor(idx, ts.drop_last())
    }
}

pub(crate) fn copy_i32s(v: &Vec<i32>) -> (r: Vec<i32>)
    ensures
        r@ == v@,
{
    let mut r: Vec<i32> = Vec::new();
    for i in 0..v.len()
        invariant
            r@ == v@.subrange(0, i as int),
    {
        r.push(v[i]);
        assert(r@ =~= v@.subrange(0, i + 1));
    }
    assert(r@ =~= v@);
    r
}

/// A copy of a matrix, row by row.
pub(crate) fn copy_rows(m: &Vec<Vec<i32>>) -> (r: Vec<Vec<i32>>)
    ensures
        view2(r) == view2(*m),
{
    let mut r: Vec<Vec<i32>> = Vec::new();
    for i in 0..m.len()
        invariant
            r.len() == i,
            i <= m.len(),
            forall|q: int| 0 <= q < i ==> #[trigger] r[q]@ == m[q]@,
    {
        r.push(copy_i32s(&m[i]));
    }
    assert(view2(r) =~= view2(*m));
    r
}

fn copy_tensor(t: &Tensor) -> (r: Tensor)
    ensures
        r@ == t@,
{
    Tensor { idx: t.idx, shape: copy_i32s(&t.shape), data: copy_i32s(&t.data) }
}

/// `get_tensor` hands back either the empty tensor or one of the tensors,
/// and that one carries the requested index.
pub proof fn lemma_get_tensor_found(idx: i32, ts: Seq<TensorView>)
    ensures
        spec_get_tensor(idx, ts) == empty_tensor() || (exists|t: int|
            0 <= t < ts.len() && #[trigger] ts[t] == spec_get_tensor(idx, ts) && ts[t].idx == idx),
        (forall|t: int| 0 <= t < ts.len() ==> #[trigger] ts[t].idx != idx) ==> spec_get_tensor(
            idx,
            ts,
        ) == empty_tensor(),
    decreases ts.len(),
{
    if ts.len() > 0 {
        lemma_get_tensor_found(idx, ts.drop_last());
        let prev = ts.drop_last();
        if ts.last().idx != idx {
            if spec_get_tensor(idx, prev) != empty_tensor() {
                let t = choose|t: int|
                    0 <= t < prev.len() && #[trigger] prev[t] == spec_get_tensor(idx, prev)
                        && prev[t].idx == idx;
                assert(ts[t] == prev[t]);
            }
            if forall|t: int| 0 <= t < ts.len() ==> #[trigger] ts[t].idx != idx {
                assert forall|t: int| 0 <= t < prev.len() implies #[trigger] prev[t].idx != idx by {
                    assert(ts[t] == prev[t]);
                }
            }
        } else {
            assert(ts[ts.len() - 1] == ts.last());
        }
    }
}

/// Returns a copy of the last tensor with index `tensor_idx`, or an empty
/// tensor of index 0 when there is none.
pub fn get_tensor(tensor_idx: i32, tensors: &Vec<Tensor>) -> (r: Tensor)
    ensures
        r@ == spec_get_tensor(tensor_idx, tensor_views(tensors@)),
{
    let ghost ts = tensor_views(tensors@);
    let mut req_tensor = Tensor { idx: 0, shape: Vec::new(), data: Vec::new() };
    assert(ts.take(0) =~= Seq::<TensorView>::empty());
    assert(req_tensor@ =~= empty_tensor());
    for i in 0..tensors.len()
        invariant
            ts == tensor_views(tensors@),
            req_tensor@ == spec_get_tensor(tensor_idx, ts.take(i as int)),
    {
        assert(ts.take(i + 1).drop_last() =~= ts.take(i as int));
        assert(ts.take(i + 1).last() == tensors@[i as int]@);
        if tensors[i].idx == tensor_idx {
            req_tensor = copy_tensor(&tensors[i]);
        }
    }
    assert(ts.take(tensors.len() as int) =~= ts);
    req_tensor
}

/// `inp_reshape` reads only shape entries and data that exist, and its
/// loops are bounded by non-negative sizes.
pub open spec fn reshape3_ok(data_len: int, shape: Seq<i32>) -> bool {
    &&& shape.len() >= 1
    &&& shape[0] >= 0
    &&& shape[0] > 0 ==> {
        &&& shape.len() >= 2
        &&& shape[1] >= 0
        &&& shape[1] > 0 ==> {
            &&& shape.len() >= 3
            &&& shape[2] >= 0
            &&& data_len >= shape[0] * shape[1] * shape[2]
        }
    }
}

/// A `shape[0] x shape[1] x shape[2]` tensor filled in row-major order from `data`.
pub open spec fn spec_inp_reshape(data: Seq<i32>, shape: Seq<i32>) -> Seq<Seq<Seq<i32>>> {
    Seq::new(
        shape[0] as nat,
        |a: int|
            Seq::new(
                shape[1] as nat,
                |b: int| Seq::new(shape[2] as nat, |c: int| data[(a * shape[1] + b) * shape[2] + c]),
            ),
    )
}

/// Unfolds flat data into a three-dimensional tensor of the given shape.
pub fn inp_reshape(data: &Vec<i32>, shape: Vec<i32>) -> (out: Vec<Vec<Vec<i32>>>)
    requires
        reshape3_ok(data.len() as int, shape@),
    ensures
        view3(out) == spec_inp_reshape(data@, shape@),
{
    let ghost spec = spec_inp_reshape(data@, shape@);
    let mut reshaped_data: Vec<Vec<Vec<i32>>> = Vec::new();
    let mut idx: usize = 0;
    let n0 = shape[0] as usize;
    for a in 0..n0
        invariant
            reshape3_ok(data.len() as int, shape@),
            spec == spec_inp_reshape(data@, shape@),
            n0 == shape@[0],
            reshaped_data.len() == a,
            a == 0 ==> idx == 0,
            a > 0 ==> idx == (a * shape@[1]) * shape@[2],
            forall|r: int| 0 <= r < a ==> #[trigger] view2(reshaped_data[r]) == spec[r],
    {
        let n1 = shape[1] as usize;
        let mut row: Vec<Vec<i32>> = Vec::new();
        for b in 0..n1
            invariant
                reshape3_ok(data.len() as int, shape@),
                spec == spec_inp_reshape(data@, shape@),
                n0 == shape@[0],
                n1 == shape@[1],
                0 <= a < n0,
                row.len() == b,
                b == 0 && a == 0 ==> idx == 0,
                !(b == 0 && a == 0) ==> idx == (a * n1 + b) * shape@[2],
                forall|q: int| 0 <= q < b ==> #[trigger] row[q]@ == spec[a as int][q],
        {
            let n2 = shape[2] as usize;
            proof {
                if b == 0 && a == 0 {
                    assert((0 * n1 + 0) * n2 == 0) by (nonlinear_arith);
                }
                lemma_radix_bound(a as int, b as int, n0 as int, n1 as int);
            }
            let mut col: Vec<i32> = Vec::new();
            for c in 0..n2
                invariant
                    reshape3_ok(data.len() as int, shape@),
                    n0 == shape@[0],
                    n1 == shape@[1],
                    n2 == shape@[2],
                    0 <= a < n0,
                    0 <= b < n1,
                    0 <= a * n1 + b < n0 * n1,
                    idx == (a * n1 + b) * n2 + c,
                    col@ == Seq::new(c as nat, |x: int| data@[(a * n1 + b) * n2 + x]),
            {
                proof {
                    lemma_radix_bound(a * n1 + b, c as int, n0 * n1, n2 as int);
                }
                col.push(data[idx]);
                idx = idx + 1;
                assert(col@ =~= Seq::new((c + 1) as nat, |x: int| data@[(a * n1 + b) * n2 + x]));
            }
            proof {
                lemma_radix_next(a * n1 + b, n2 as int);
            }
            assert(col@ =~= spec[a as int][b as int]);
            row.push(col);
        }
        proof {
            lemma_radix_next(a as int, n1 as int);
            if n1 == 0 {
                assert(a * 0 == 0) by (nonlinear_arith);
                assert((a + 1) * 0 == 0) by (nonlinear_arith);
                assert(idx == 0 || idx == (a * n1) * shape@[2]);
                assert(((a + 1) * n1) * shape@[2] == 0) by (nonlinear_arith)
                    requires
                        n1 == 0,
                ;
                if a > 0 {
                    assert((a * n1) * shape@[2] == 0) by (nonlinear_arith)
                        requires
                            n1 == 0,
                    ;
                }
            }
        }
        assert(view2(row) =~= spec[a as int]);
        reshaped_data.push(row);
    }
    assert(view3(reshaped_data) =~= spec);
    reshaped_data
}

/// `kernel_reshape` reads only shape entries and data that exist, its loops
/// are bounded by non-negative sizes, and its `i32` position counter does not
/// overflow.
pub open spec fn reshape4_ok(data_len: int, shape: Seq<i32>) -> bool {
    &&& shape.len() >= 1
    &&& shape[0] >= 0
    &&& shape[0] > 0 ==> {
        &&& shape.len() >= 2
        &&& shape[1] >= 0
        &&& shape[1] > 0 ==> {
            &&& shape.len() >= 3
            &&& shape[2] >= 0
            &&& shape[2] > 0 ==> {
                &&& shape.len() >= 4
                &&& shape[3] >= 0
                &&& data_len >= shape[0] * shape[1] * shape[2] * shape[3]
                &&& shape[0] * shape[1] * shape[2] * shape[3] <= i32::MAX
            }
        }
    }
}

/// A four-dimensional tensor of shape `t.shape[0..4]` filled in row-major order.
pub open spec fn spec_kernel_reshape(t: TensorView) -> Seq<Seq<Seq<Seq<i32>>>> {
    let s = t.shape;
    Seq::new(
        s[0] as nat,
        |a: int|
            Seq::new(
                s[1] as nat,
                |b: int|
                    Seq::new(
                        s[2] as nat,
                        |c: int|
                            Seq::new(
                                s[3] as nat,
                                |d: int| t.data[((a * s[1] + b) * s[2] + c) * s[3] + d],
                            ),
                    ),
            ),
    )
}

/// Unfolds a convolution kernel tensor into four nested dimensions.
pub fn kernel_reshape(kernel: Tensor) -> (out: Vec<Vec<Vec<Vec<i32>>>>)
    requires
        reshape4_ok(kernel.data.len() as int, kernel.shape@),
    ensures
        view4(out) == spec_kernel_reshape(kernel@),
{
    let ghost spec = spec_kernel_reshape(kernel@);
    let shape = kernel.shape;
    let data = kernel.data;
    let mut reshaped_kernel: Vec<Vec<Vec<Vec<i32>>>> = Vec::new();
    let mut idx: i32 = 0;
    let n0 = shape[0] as usize;
    for a in 0..n0
        invariant
            reshape4_ok(data.len() as int, shape@),
            spec == spec_kernel_reshape(TensorView { idx: kernel.idx, shape: shape@, data: data@ }),
            n0 == shape@[0],
            reshaped_kernel.len() == a,
            a == 0 ==> idx == 0,
            a > 0 ==> idx == (a * shape@[1]) * shape@[2] * shape@[3],
            forall|r: int| 0 <= r < a ==> #[trigger] view3(reshaped_kernel[r]) == spec[r],
    {
        let n1 = shape[1] as usize;
        let mut row: Vec<Vec<Vec<i32>>> = Vec::new();
        for b in 0..n1
            invariant
                reshape4_ok(data.len() as int, shape@),
                spec == spec_kernel_reshape(TensorView { idx: kernel.idx, shape: shape@, data: data@ }),
                n0 == shape@[0],
                n1 == shape@[1],
                0 <= a < n0,
                row.len() == b,
                b == 0 && a == 0 ==> idx == 0,
                !(b == 0 && a == 0) ==> idx == (a * n1 + b) * shape@[2] * shape@[3],
                forall|q: int| 0 <= q < b ==> #[trigger] view2(row[q]) == spec[a as int][q],
        {
            let n2 = shape[2] as usize;
            proof {
                if b == 0 && a == 0 {
                    assert((0 * n1 + 0) * n2 * shape@[3] == 0) by (nonlinear_arith);
                }
                lemma_radix_bound(a as int, b as int, n0 as int, n1 as int);
            }
            let mut col: Vec<Vec<i32>> = Vec::new();
            for c in 0..n2
                invariant
                    reshape4_ok(data.len() as int, shape@),
                    spec == spec_kernel_reshape(TensorView { idx: kernel.idx, shape: shape@, data: data@ }),
                    n0 == shape@[0],
                    n1 == shape@[1],
                    n2 == shape@[2],
                    0 <= a < n0,
                    0 <= b < n1,
                    0 <= a * n1 + b < n0 * n1,
                    col.len() == c,
                    c == 0 && b == 0 && a == 0 ==> idx == 0,
                    !(c == 0 && b == 0 && a == 0) ==> idx == ((a * n1 + b) * n2 + c) * shape@[3],
                    forall|q: int| 0 <= q < c ==> #[trigger] col[q]@ == spec[a as int][b as int][q],
            {
                let n3 = shape[3] as usize;
                proof {
                    if c == 0 && b == 0 && a == 0 {
                        assert(((0 * n1 + 0) * n2 + 0) * n3 == 0) by (nonlinear_arith);
                    }
                    lemma_radix_bound(a * n1 + b, c as int, n0 * n1, n2 as int);
                }
                let mut dep: Vec<i32> = Vec::new();
                for d in 0..n3
                    invariant
                        reshape4_ok(data.len() as int, shape@),
                        n0 == shape@[0],
                        n1 == shape@[1],
                        n2 == shape@[2],
                        n3 == shape@[3],
                        0 <= a < n0,
                        0 <= b < n1,
                        0 <= c < n2,
                        0 <= (a * n1 + b) * n2 + c < n0 * n1 * n2,
                        idx == ((a * n1 + b) * n2 + c) * n3 + d,
                        dep@ == Seq::new(d as nat, |x: int| data@[((a * n1 + b) * n2 + c) * n3 + x]),
                {
                    proof {
                        lemma_radix_bound((a * n1 + b) * n2 + c, d as int, n0 * n1 * n2, n3 as int);
                    }
                    dep.push(data[idx as usize]);
                    idx = idx + 1;
                    assert(dep@ =~= Seq::new((d + 1) as nat, |x: int| data@[((a * n1 + b) * n2 + c) * n3 + x]));
                }
                proof {
                    lemma_radix_next((a * n1 + b) * n2 + c, n3 as int);
                }
                assert(dep@ =~= spec[a as int][b as int][c as int]);
                col.push(dep);
            }
            proof {
                lemma_radix_next(a * n1 + b, n2 as int);
                if n2 == 0 {
                    assert(((a * n1 + b) * n2) * shape@[3] == 0) by (nonlinear_arith)
                        requires
                            n2 == 0,
                    ;
                    assert(((a * n1 + b + 1) * n2) * shape@[3] == 0) by (nonlinear_arith)
                        requires
                            n2 == 0,
                    ;
                }
                assert(((a * n1 + b) * n2 + n2) * shape@[3] == ((a * n1 + b + 1) * n2) * shape@[3]);
            }
            assert(view2(col) =~= spec[a as int][b as int]);
            row.push(col);
        }
        proof {
            lemma_radix_next(a as int, n1 as int);
            if n1 == 0 {
                assert(((a + 1) * n1) * shape@[2] * shape@[3] == 0) by (nonlinear_arith)
                    requires
                        n1 == 0,
                ;
                if a > 0 {
                    assert((a * n1) * shape@[2] * shape@[3] == 0) by (nonlinear_arith)
                        requires
                            n1 == 0,
                    ;
                }
            }
        }
        assert(view3(row) =~= spec[a as int]);
        reshaped_kernel.push(row);
    }
    assert(view4(reshaped_kernel) =~= spec);
    reshaped_kernel
}

/// `bias_reshape` and `fc_kernel_reshape` read only shape entries and data that exist.
pub open spec fn reshape1_ok(t: TensorView) -> bool {
    t.shape.len() >= 1 && 0 <= t.shape[0] <= t.data.len()
}

/// Decides `reshape1_ok`.
pub fn reshape1_ok_check(t: &Tensor) -> (r: bool)
    ensures
        r == reshape1_ok(t@),
{
    t.shape.len() >= 1 && t.shape[0] >= 0 && (t.shape[0] as usize) <= t.data.len()
}

/// The first `t.shape[0]` entries of the data.
pub open spec fn spec_bias_reshape(t: TensorView) -> Seq<i32> {
    t.data.subrange(0, t.shape[0] as int)
}

/// Reads a bias vector: the first `shape[0]` entries of the tensor's data.
pub fn bias_reshape(bias: Tensor) -> (out: Vec<i32>)
    requires
        reshape1_ok(bias@),
    ensures
        out@ == spec_bias_reshape(bias@),
{
    let shape = bias.shape;
    let data = bias.data;
    let mut reshaped_bias: Vec<i32> = Vec::new();
    let n0 = shape[0] as usize;
    for i in 0..n0
        invariant
            n0 == shape@[0],
            n0 <= data.len(),
            reshaped_bias@ == data@.subrange(0, i as int),
    {
        reshaped_bias.push(data[i]);
        assert(reshaped_bias@ =~= data@.subrange(0, i + 1));
    }
    assert(reshaped_bias@ =~= spec_bias_reshape(bias@));
    reshaped_bias
}

/// `fc_kernel_reshape` reads only shape entries and data that exist.
pub open spec fn reshape2_ok(t: TensorView) -> bool {
    &&& t.shape.len() >= 1
    &&& t.shape[0] >= 0
    &&& t.shape[0] > 0 ==> {
        &&& t.shape.len() >= 2
        &&& t.shape[1] >= 0
        &&& t.data.len() >= t.shape[0] * t.shape[1]
    }
}

/// Decides `reshape2_ok`.
pub fn reshape2_ok_check(t: &Tensor) -> (r: bool)
    ensures
        r == reshape2_ok(t@),
{
    if t.shape.len() < 1 || t.shape[0] < 0 {
        return false;
    }
    if t.shape[0] == 0 {
        return true;
    }
    if t.shape.len() < 2 || t.shape[1] < 0 {
        return false;
    }
    let n0 = t.shape[0] as u64;
    let n1 = t.shape[1] as u64;
    assert(n0 * n1 <= 0x7fff_ffff * 0x7fff_ffff) by (nonlinear_arith)
        requires
            0 <= n0 <= 0x7fff_ffff,
            0 <= n1 <= 0x7fff_ffff,
    ;
    (t.data.len() as u64) >= n0 * n1
}

/// Decides `reshape4_ok` for a kernel tensor.
pub fn reshape4_ok_check(t: &Tensor) -> (r: bool)
    ensures
        r == reshape4_ok(t.data.len() as int, t.shape@),
{
    let s = &t.shape;
    if s.len() < 1 || s[0] < 0 {
        return false;
    }
    if s[0] == 0 {
        return true;
    }
    if s.len() < 2 || s[1] < 0 {
        return false;
    }
    if s[1] == 0 {
        return true;
    }
    if s.len() < 3 || s[2] < 0 {
        return false;
    }
    if s[2] == 0 {
        return true;
    }
    if s.len() < 4 || s[3] < 0 {
        return false;
    }
    let a = s[0] as u128;
    let b = s[1] as u128;
    let c = s[2] as u128;
    let d = s[3] as u128;
    proof {
        assert(a * b <= 0x8000_0000 * 0x8000_0000) by (nonlinear_arith)
            requires
                a <= 0x8000_0000,
                b <= 0x8000_0000,
        ;
        assert((a * b) * c <= (0x8000_0000 * 0x8000_0000) * 0x8000_0000) by (nonlinear_arith)
            requires
                a * b <= 0x8000_0000 * 0x8000_0000,
                c <= 0x8000_0000,
        ;
        assert(((a * b) * c) * d <= ((0x8000_0000 * 0x8000_0000) * 0x8000_0000) * 0x8000_0000)
            by (nonlinear_arith)
            requires
                (a * b) * c <= (0x8000_0000 * 0x8000_0000) * 0x8000_0000,
                d <= 0x8000_0000,
        ;
    }
    let p = a * b * c * d;
    p <= 0x7fff_ffff && (t.data.len() as u128) >= p
}

/// A `shape[0] x shape[1]` matrix filled in row-major order.
pub open spec fn spec_fc_kernel_reshape(t: TensorView) -> Seq<Seq<i32>> {
    Seq::new(
        t.shape[0] as nat,
        |a: int| Seq::new(t.shape[1] as nat, |b: int| t.data[a * t.shape[1] + b]),
    )
}

/// Unfolds the weights of a fully connected layer into a matrix.
pub fn fc_kernel_reshape(kernel: Tensor) -> (out: Vec<Vec<i32>>)
    requires
        reshape2_ok(kernel@),
    ensures
        view2(out) == spec_fc_kernel_reshape(kernel@),
{
    let ghost spec = spec_fc_kernel_reshape(kernel@);
    let shape = kernel.shape;
    let data = kernel.data;
    let mut reshaped_kernel: Vec<Vec<i32>> = Vec::new();
    let mut idx: usize = 0;
    let n0 = shape[0] as usize;
    for a in 0..n0
        invariant
            reshape2_ok(TensorView { idx: kernel.idx, shape: shape@, data: data@ }),
            spec == spec_fc_kernel_reshape(TensorView { idx: kernel.idx, shape: shape@, data: data@ }),
            n0 == shape@[0],
            reshaped_kernel.len() == a,
            a == 0 ==> idx == 0,
            a > 0 ==> idx == a * shape@[1],
            forall|r: int| 0 <= r < a ==> #[trigger] reshaped_kernel[r]@ == spec[r],
    {
        let n1 = shape[1] as usize;
        proof {
            if a == 0 {
                assert(0 * n1 == 0) by (nonlinear_arith);
            }
        }
        let mut row: Vec<i32> = Vec::new();
        for b in 0..n1
            invariant
                reshape2_ok(TensorView { idx: kernel.idx, shape: shape@, data: data@ }),
                n0 == shape@[0],
                n1 == shape@[1],
                0 <= a < n0,
                idx == a * n1 + b,
                row@ == Seq::new(b as nat, |x: int| data@[a * n1 + x]),
        {
            proof {
                lemma_radix_bound(a as int, b as int, n0 as int, n1 as int);
            }
            assert(idx < data.len());
            row.push(data[idx]);
            idx = idx + 1;
            assert(row@ =~= Seq::new((b + 1) as nat, |x: int| data@[a * n1 + x]));
        }
        proof {
            lemma_radix_next(a as int, n1 as int);
        }
        assert(row@ =~= spec[a as int]);
        reshaped_kernel.push(row);
    }
    assert(view2(reshaped_kernel) =~= spec);
    reshaped_kernel
}

/// The row-major positions `i * 27 + j` with `j < i` of a `27 x 27` matrix,
/// for the rows `1 <= i < rows`: the entries strictly below the diagonal.
pub open spec fn gather_positions(rows: int) -> Seq<i32>
    decreases rows,
{
    if rows <= 1 {
        Seq::empty()
    } else {
        gather_positions(rows - 1) + Seq::new((rows - 1) as nat, |j: int| ((rows - 1) * 27 + j) as i32)
    }
}

/// The positions, in a flattened `27 x 27` interaction matrix, of the
/// entries strictly below the diagonal, row by row.
pub fn get_gather_idx() -> (gather_idx: Vec<i32>)
    ensures
        gather_idx@ == gather_positions(27),
{
    let mut gather_idx: Vec<i32> = Vec::new();
    assert(gather_idx@ =~= gather_positions(1));
    for i in 1..27i32
        invariant
            gather_idx@ == gather_positions(i as int),
    {
        let ghost before = gather_idx@;
        for j in 0..i
            invariant
                1 <= i < 27,
                gather_idx@ == before + Seq::new(j as nat, |x: int| (i * 27 + x) as i32),
        {
            gather_idx.push(i * 27 + j);
            assert(gather_idx@ =~= before + Seq::new((j + 1) as nat, |x: int| (i * 27 + x) as i32));
        }
    }
    gather_idx
}

/// When several tensors carry the requested index, `get_tensor` hands back
/// the last of them.
pub proof fn lemma_get_tensor_last(idx: i32, ts: Seq<TensorView>, t: int)
    requires
        0 <= t < ts.len(),
        ts[t].idx == idx,
        forall|u: int| t < u < ts.len() ==> #[trigger] ts[u].idx != idx,
    ensures
        spec_get_tensor(idx, ts) == ts[t],
    decreases ts.len(),
{
    if t < ts.len() - 1 {
        let prev = ts.drop_last();
        assert(ts.last().idx != idx);
        assert forall|u: int| t < u < prev.len() implies #[trigger] prev[u].idx != idx by {
            assert(prev[u] == ts[u]);
        }
        lemma_get_tensor_last(idx, prev, t);
        assert(prev[t] == ts[t]);
    }
}

/// `inp_reshape` reads the data in row-major order: entry `(a, b, c)` of the
/// `shape[0] x shape[1] x shape[2]` result is the value at offset
/// `a * shape[1] * shape[2] + b * shape[2] + c`.
pub proof fn lemma_inp_reshape_offsets(data: Seq<i32>, shape: Seq<i32>)
    requires
        reshape3_ok(data.len() as int, shape),
        shape[0] > 0,
        shape[1] > 0,
    ensures
        spec_inp_reshape(data, shape).len() == shape[0],
        forall|a: int| 0 <= a < shape[0] ==> #[trigger] spec_inp_reshape(data, shape)[a].len() == shape[1],
        forall|a: int, b: int|
            0 <= a < shape[0] && 0 <= b < shape[1] ==> #[trigger] spec_inp_reshape(data, shape)[a][b].len()
                == shape[2],
        forall|a: int, b: int, c: int|
            0 <= a < shape[0] && 0 <= b < shape[1] && 0 <= c < shape[2] ==> #[trigger] spec_inp_reshape(
                data,
                shape,
            )[a][b][c] == data[a * shape[1] * shape[2] + b * shape[2] + c],
{
    assert forall|a: int, b: int, c: int| 0 <= a < shape[0] && 0 <= b < shape[1] && 0 <= c < shape[2] implies #[trigger] spec_inp_reshape(
        data,
        shape,
    )[a][b][c] == data[a * shape[1] * shape[2] + b * shape[2] + c] by {
        let s1 = shape[1] as int;
        let s2 = shape[2] as int;
        assert((a * s1 + b) * s2 + c == a * s1 * s2 + b * s2 + c) by (nonlinear_arith);
        lemma_radix_bound(a, b, shape[0] as int, s1);
        lemma_radix_bound(a * s1 + b, c, shape[0] * s1, s2);
    }
}

/// `fc_kernel_reshape` reads the weights in row-major order: entry `(a, b)`
/// of the `shape[0] x shape[1]` matrix is the value at offset
/// `a * shape[1] + b`.
pub proof fn lemma_fc_kernel_reshape_offsets(t: TensorView)
    requires
        reshape2_ok(t),
        t.shape[0] > 0,
    ensures
        spec_fc_kernel_reshape(t).len() == t.shape[0],
        forall|a: int| 0 <= a < t.shape[0] ==> #[trigger] spec_fc_kernel_reshape(t)[a].len() == t.shape[1],
        forall|a: int, b: int|
            0 <= a < t.shape[0] && 0 <= b < t.shape[1] ==> #[trigger] spec_fc_kernel_reshape(t)[a][b]
                == t.data[a * t.shape[1] + b],
{
    assert forall|a: int, b: int| 0 <= a < t.shape[0] && 0 <= b < t.shape[1] implies #[trigger] spec_fc_kernel_reshape(
        t,
    )[a][b] == t.data[a * t.shape[1] + b] by {
        lemma_radix_bound(a, b, t.shape[0] as int, t.shape[1] as int);
    }
}

} // verus!
