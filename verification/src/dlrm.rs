//! Inference of the DLRM recommendation model: a bottom stack of fully
//! connected layers over the sparse features, pairwise dot-product
//! interactions with the 26 dense embeddings, and a top stack of fully
//! connected layers.
use vstd::prelude::*;
use crate::helper::{
    bias_reshape, copy_rows, fc_kernel_reshape, gather_positions, get_gather_idx, get_tensor,
    inp_reshape, reshape1_ok, reshape1_ok_check, reshape2_ok, reshape2_ok_check, reshape3_ok,
    spec_bias_reshape, spec_fc_kernel_reshape, spec_get_tensor, spec_inp_reshape,
};
use crate::op::{dot, fc_layer, fc_ok, fc_ok_check, lemma_fc_layer_entries, spec_fc_layer};
use crate::processing::{LayerView, ModelConfig, ModelView};
use crate::shape::{
    concatenate, concatenate_ok, concatenate_ok_check, reshape1dto2d, reshape1dto2d_ok, reshape2dto1d, spec_concatenate,
    spec_reshape1dto2d, spec_reshape2dto1d, spec_transpose, transpose,
};
use crate::util::{rows_cover_first, trunc_div, view2, view3};

verus! {

/// The layer kind of a fully connected layer.
pub open spec fn fc_name() -> Seq<char> {
    "FullyConnected"@
}

/// The weight matrix of a fully connected layer, read through `inp_idxes[1]`.
pub open spec fn fc_kernel_of(m: ModelView, layer: LayerView) -> Seq<Seq<i32>> {
    spec_fc_kernel_reshape(spec_get_tensor(layer.inp_idxes[1], m.tensors))
}

/// The bias of a fully connected layer, read through `inp_idxes[2]`.
pub open spec fn fc_bias_of(m: ModelView, layer: LayerView) -> Seq<i32> {
    spec_bias_reshape(spec_get_tensor(layer.inp_idxes[2], m.tensors))
}

/// The effect of one layer: a `"FullyConnected"` layer is applied with its
/// bias, any other layer leaves `x` as it is.
pub open spec fn fc_step(m: ModelView, layer: LayerView, x: Seq<Seq<i32>>) -> Seq<Seq<i32>> {
    if layer.layer_type == fc_name() {
        spec_fc_layer(x, fc_kernel_of(m, layer), fc_bias_of(m, layer), layer.params, false)
    } else {
        x
    }
}

/// Running `layer` on `x` reads only what exists and stays inside `i32`.
pub open spec fn fc_step_ok(m: ModelView, layer: LayerView, x: Seq<Seq<i32>>) -> bool {
    layer.layer_type == fc_name() ==> {
        &&& layer.inp_idxes.len() >= 3
        &&& reshape2_ok(spec_get_tensor(layer.inp_idxes[1], m.tensors))
        &&& reshape1_ok(spec_get_tensor(layer.inp_idxes[2], m.tensors))
        &&& fc_ok(x, fc_kernel_of(m, layer), fc_bias_of(m, layer), layer.params, false)
    }
}

/// The matrix after layers `lo .. n` of the model, starting from `x`.
pub open spec fn run_fc(m: ModelView, x: Seq<Seq<i32>>, lo: int, n: int) -> Seq<Seq<i32>>
    decreases n - lo,
{
    if n <= lo {
        x
    } else {
        fc_step(m, m.layers[n - 1], run_fc(m, x, lo, n - 1))
    }
}

/// Every layer of `lo .. hi` can run on what the layers before it produced.
pub open spec fn fc_layers_ok(m: ModelView, x: Seq<Seq<i32>>, lo: int, hi: int) -> bool {
    forall|t: int| lo <= t < hi ==> #[trigger] fc_step_ok(m, m.layers[t], run_fc(m, x, lo, t))
}

/// The shape `[26, 1, 64]` of the dense embeddings.
pub open spec fn dense_shape() -> Seq<i32> {
    seq![26i32, 1i32, 64i32]
}

/// The 26 dense embeddings, each a `1 x 64` matrix.
pub open spec fn dlrm_dense(dense: Seq<i32>) -> Seq<Seq<Seq<i32>>> {
    spec_inp_reshape(dense, dense_shape())
}

/// `x` with the first `n` matrices of `d` appended to its right, one after another.
pub open spec fn concat_dense(x: Seq<Seq<i32>>, d: Seq<Seq<Seq<i32>>>, n: int) -> Seq<Seq<i32>>
    decreases n,
{
    if n <= 0 {
        x
    } else {
        spec_concatenate(concat_dense(x, d, n - 1), d[n - 1])
    }
}

/// Each of the first `n` concatenations reads only what exists.
pub open spec fn concat_dense_ok(x: Seq<Seq<i32>>, d: Seq<Seq<Seq<i32>>>, n: int) -> bool {
    forall|t: int| 0 <= t < n ==> #[trigger] concatenate_ok(concat_dense(x, d, t), d[t])
}

/// The output of the bottom layers (0, 1 and 2) on the sparse features.
pub open spec fn dlrm_bottom(m: ModelView, sparse: Seq<Seq<i32>>) -> Seq<Seq<i32>> {
    run_fc(m, sparse, 0, 3)
}

/// The shape `[27, 64]` of the interaction features.
pub open spec fn features_shape() -> Seq<i32> {
    seq![27i32, 64i32]
}

/// The bottom output and the dense embeddings laid out as 27 feature rows of 64.
pub open spec fn dlrm_features(m: ModelView, dense: Seq<i32>, sparse: Seq<Seq<i32>>) -> Seq<
    Seq<i32>,
> {
    spec_reshape1dto2d(
        concat_dense(dlrm_bottom(m, sparse), dlrm_dense(dense), 26),
        features_shape(),
    )
}

/// The pairwise dot products of the feature rows, divided by 512.
pub open spec fn dlrm_interactions(m: ModelView, dense: Seq<i32>, sparse: Seq<Seq<i32>>) -> Seq<
    Seq<i32>,
> {
    let r = dlrm_features(m, dense, sparse);
    spec_fc_layer(r, r, seq![0i32], seq![0i32], true)
}

/// The interactions strictly below the diagonal, as a column.
pub open spec fn dlrm_gathered(m: ModelView, dense: Seq<i32>, sparse: Seq<Seq<i32>>) -> Seq<
    Seq<i32>,
> {
    let f = spec_reshape2dto1d(dlrm_interactions(m, dense, sparse));
    let g = gather_positions(27);
    Seq::new(g.len(), |t: int| seq![f[g[t] as int][0]])
}

/// The bottom output followed, on the right, by the gathered interactions.
pub open spec fn dlrm_top_input(m: ModelView, dense: Seq<i32>, sparse: Seq<Seq<i32>>) -> Seq<
    Seq<i32>,
> {
    spec_concatenate(dlrm_bottom(m, sparse), spec_transpose(dlrm_gathered(m, dense, sparse)))
}

/// The model's output: the top layers (10 to 13) on the top input.
pub open spec fn spec_dlrm(m: ModelView, dense: Seq<i32>, sparse: Seq<Seq<i32>>) -> Seq<Seq<i32>> {
    run_fc(m, dlrm_top_input(m, dense, sparse), 10, 14)
}

/// `dlrm` runs without reading past its inputs or overflowing.
pub open spec fn dlrm_ok(m: ModelView, dense: Seq<i32>, sparse: Seq<Seq<i32>>) -> bool {
    let bottom = dlrm_bottom(m, sparse);
    let joined = concat_dense(bottom, dlrm_dense(dense), 26);
    let r = dlrm_features(m, dense, sparse);
    &&& sparse.len() >= 1
    &&& dense.len() >= 1664
    &&& m.layers.len() >= 14
    &&& fc_layers_ok(m, sparse, 0, 3)
    &&& concat_dense_ok(bottom, dlrm_dense(dense), 26)
    &&& reshape1dto2d_ok(joined, features_shape())
    &&& fc_ok(r, r, seq![0i32], seq![0i32], true)
    &&& concatenate_ok(bottom, spec_transpose(dlrm_gathered(m, dense, sparse)))
    &&& fc_layers_ok(m, dlrm_top_input(m, dense, sparse), 10, 14)
}

/// `gather_positions(27)` has 351 entries, all inside a flattened `27 x 27` matrix.
pub proof fn lemma_gather_positions_range(rows: int)
    requires
        1 <= rows <= 27,
    ensures
        gather_positions(rows).len() == (rows - 1) * rows / 2,
        forall|t: int|
            0 <= t < gather_positions(rows).len() ==> 27 <= #[trigger] gather_positions(rows)[t]
                < 27 * rows,
    decreases rows,
{
    if rows > 1 {
        lemma_gather_positions_range(rows - 1);
        let prev = gather_positions(rows - 1);
        let g = gather_positions(rows);
        assert((rows - 2) * (rows - 1) / 2 + (rows - 1) == (rows - 1) * rows / 2) by (nonlinear_arith)
            requires
                rows >= 2,
        ;
        assert forall|t: int| 0 <= t < g.len() implies 27 <= #[trigger] g[t] < 27 * rows by {
            if t < prev.len() {
                assert(g[t] == prev[t]);
            } else {
                let j = t - prev.len();
                assert(g[t] == ((rows - 1) * 27 + j) as i32);
                assert(0 <= j < rows - 1);
            }
        }
    }
}

/// A column of single-entry rows always has rows at least as long as its first.
proof fn lemma_column_rows(g: Seq<Seq<i32>>)
    requires
        g.len() >= 1,
        forall|t: int| 0 <= t < g.len() ==> #[trigger] g[t].len() == 1,
    ensures
        rows_cover_first(g),
{
}

/// Runs the DLRM model on the dense embeddings (26 x 64 values) and the
/// sparse features.
pub fn dlrm(model: &ModelConfig, dense: &Vec<i32>, sparse: &Vec<Vec<i32>>) -> (out: Vec<Vec<i32>>)
    requires
        dlrm_ok(model@, dense@, view2(*sparse)),
    ensures
        view2(out) == spec_dlrm(model@, dense@, view2(*sparse)),
{
    let ghost mv = model@;
    let ghost sp = view2(*sparse);
    let ghost bottom = dlrm_bottom(mv, sp);
    let ghost d = dlrm_dense(dense@);
    let mut output = copy_rows(sparse);
    let shape: Vec<i32> = vec![26, 1, 64];
    assert(shape@ =~= dense_shape());
    assert(reshape3_ok(dense.len() as int, shape@));
    let reshaped_dense = inp_reshape(dense, shape);
    let fc_kind = "FullyConnected".to_owned();
    for i in 0..3usize
        invariant
            mv == model@,
            sp == view2(*sparse),
            dlrm_ok(mv, dense@, sp),
            fc_kind@ == fc_name(),
            view2(output) == run_fc(mv, sp, 0, i as int),
    {
        let layer = &model.layers[i];
        assert(mv.layers[i as int] == layer@);
        assert(fc_step_ok(mv, mv.layers[i as int], run_fc(mv, sp, 0, i as int)));
        if layer.layer_type == fc_kind {
            let kernel = get_tensor(layer.inp_idxes[1], &model.tensors);
            let kernel = fc_kernel_reshape(kernel);
            let bias = get_tensor(layer.inp_idxes[2], &model.tensors);
            let bias = bias_reshape(bias);
            let params = crate::helper::copy_i32s(&layer.params);
            output = fc_layer(output, kernel, bias, params, false);
        }
    }
    assert(view2(output) == bottom);
    let output_copy = copy_rows(&output);
    for i in 0..reshaped_dense.len()
        invariant
            dlrm_ok(mv, dense@, sp),
            bottom == dlrm_bottom(mv, sp),
            d == dlrm_dense(dense@),
            view3(reshaped_dense) == d,
            d.len() == 26,
            view2(output) == concat_dense(bottom, d, i as int),
    {
        assert(concatenate_ok(concat_dense(bottom, d, i as int), d[i as int]));
        assert(view3(reshaped_dense)[i as int] == view2(reshaped_dense[i as int]));
        let block = copy_rows(&reshaped_dense[i]);
        output = concatenate(output, block);
    }
    let ghost joined = concat_dense(bottom, d, 26);
    assert(view2(output) == joined);
    let fshape: Vec<i32> = vec![27, 64];
    assert(fshape@ =~= features_shape());
    let reshaped_output = reshape1dto2d(output, fshape);
    let ghost r = dlrm_features(mv, dense@, sp);
    assert(view2(reshaped_output) == r);
    let lhs = copy_rows(&reshaped_output);
    let rhs = copy_rows(&reshaped_output);
    let zero_bias: Vec<i32> = vec![0];
    let zero_params: Vec<i32> = vec![0];
    assert(zero_bias@ =~= seq![0i32]);
    assert(zero_params@ =~= seq![0i32]);
    let interactions = fc_layer(lhs, rhs, zero_bias, zero_params, true);
    let ghost z = dlrm_interactions(mv, dense@, sp);
    assert(view2(interactions) == z);
    assert(r.len() == 27);
    assert(z.len() == 27 && z[0].len() == 27);
    assert forall|q: int| 0 <= q < z.len() implies #[trigger] z[q].len() >= z[0].len() by {}
    let fshape2: Vec<i32> = vec![729, 1];
    let reshaped_output_2 = reshape2dto1d(interactions, fshape2);
    let ghost f = spec_reshape2dto1d(z);
    assert(view2(reshaped_output_2) == f);
    assert(f.len() == 729) by {
        assert(27 * 27 == 729int) by (nonlinear_arith);
    }
    let gather_idx = get_gather_idx();
    let ghost g = gather_positions(27);
    proof {
        lemma_gather_positions_range(27);
        assert((27 - 1) * 27 / 2 == 351int) by (nonlinear_arith);
    }
    let ghost gathered = dlrm_gathered(mv, dense@, sp);
    let mut gathered_output: Vec<Vec<i32>> = Vec::new();
    for i in 0..gather_idx.len()
        invariant
            gather_idx@ == g,
            g == gather_positions(27),
            g.len() == 351,
            forall|t: int| 0 <= t < g.len() ==> 27 <= #[trigger] g[t] < 27 * 27,
            view2(reshaped_output_2) == f,
            f == spec_reshape2dto1d(z),
            f.len() == 729,
            z.len() == 27 && z[0].len() == 27,
            gathered == dlrm_gathered(mv, dense@, sp),
            z == dlrm_interactions(mv, dense@, sp),
            gathered_output.len() == i,
            forall|t: int| 0 <= t < i ==> #[trigger] gathered_output[t]@ == gathered[t],
    {
        let pos = gather_idx[i] as usize;
        assert(27 <= g[i as int] < 729);
        assert(f[pos as int] == reshaped_output_2[pos as int]@);
        assert(f[pos as int].len() == 1);
        let entry = reshaped_output_2[pos][0];
        let cell: Vec<i32> = vec![entry];
        assert(cell@ =~= gathered[i as int]);
        gathered_output.push(cell);
    }
    assert(view2(gathered_output) =~= gathered);
    proof {
        lemma_column_rows(gathered);
    }
    let column = transpose(gathered_output);
    let top_input = concatenate(output_copy, column);
    let ghost top = dlrm_top_input(mv, dense@, sp);
    assert(view2(top_input) == top);
    let mut result = top_input;
    for i in 10..14usize
        invariant
            mv == model@,
            dlrm_ok(mv, dense@, sp),
            top == dlrm_top_input(mv, dense@, sp),
            fc_kind@ == fc_name(),
            view2(result) == run_fc(mv, top, 10, i as int),
    {
        let layer = &model.layers[i];
        assert(mv.layers[i as int] == layer@);
        assert(fc_step_ok(mv, mv.layers[i as int], run_fc(mv, top, 10, i as int)));
        if layer.layer_type == fc_kind {
            let kernel = get_tensor(layer.inp_idxes[1], &model.tensors);
            let kernel = fc_kernel_reshape(kernel);
            let bias = get_tensor(layer.inp_idxes[2], &model.tensors);
            let bias = bias_reshape(bias);
            let params = crate::helper::copy_i32s(&layer.params);
            result = fc_layer(result, kernel, bias, params, false);
        }
    }
    result
}

/// Runs one fully connected layer of the model on `x` when `fc_step_ok`
/// holds; `None` when it does not.
fn fc_step_checked(model: &ModelConfig, i: usize, x: Vec<Vec<i32>>) -> (r: Option<Vec<Vec<i32>>>)
    requires
        i < model.layers.len(),
    ensures
        r is Some <==> fc_step_ok(model@, model@.layers[i as int], view2(x)),
        r is Some ==> view2(r->0) == fc_step(model@, model@.layers[i as int], view2(x)),
{
    let ghost mv = model@;
    let layer = &model.layers[i];
    assert(mv.layers[i as int] == layer@);
    let fc_kind = "FullyConnected".to_owned();
    if layer.layer_type != fc_kind {
        return Some(x);
    }
    if layer.inp_idxes.len() < 3 {
        return None;
    }
    let kernel = get_tensor(layer.inp_idxes[1], &model.tensors);
    let bias = get_tensor(layer.inp_idxes[2], &model.tensors);
    if !reshape2_ok_check(&kernel) || !reshape1_ok_check(&bias) {
        return None;
    }
    let kernel = fc_kernel_reshape(kernel);
    let bias = bias_reshape(bias);
    let params = crate::helper::copy_i32s(&layer.params);
    if !fc_ok_check(&x, &kernel, &bias, &params, false) {
        return None;
    }
    Some(fc_layer(x, kernel, bias, params, false))
}

/// Runs `dlrm` when `dlrm_ok` holds of its arguments, checking each
/// condition just before the step that needs it; `None` when one fails.
pub fn dlrm_checked(model: &ModelConfig, dense: &Vec<i32>, sparse: &Vec<Vec<i32>>) -> (out: Option<
    Vec<Vec<i32>>,
>)
    ensures
        out is Some <==> dlrm_ok(model@, dense@, view2(*sparse)),
        out is Some ==> view2(out->0) == spec_dlrm(model@, dense@, view2(*sparse)),
{
    let ghost mv = model@;
    let ghost sp = view2(*sparse);
    if sparse.len() < 1 || dense.len() < 1664 || model.layers.len() < 14 {
        return None;
    }
    let ghost bottom = dlrm_bottom(mv, sp);
    let ghost d = dlrm_dense(dense@);
    let mut output = copy_rows(sparse);
    for i in 0..3usize
        invariant
            mv == model@,
            sp == view2(*sparse),
            mv.layers.len() >= 14,
            view2(output) == run_fc(mv, sp, 0, i as int),
            fc_layers_ok(mv, sp, 0, i as int),
    {
        match fc_step_checked(model, i, output) {
            None => {
                assert(!fc_layers_ok(mv, sp, 0, 3));
                return None;
            },
            Some(next) => {
                output = next;
            },
        }
    }
    assert(view2(output) == bottom);
    let shape: Vec<i32> = vec![26, 1, 64];
    assert(shape@ =~= dense_shape());
    assert(reshape3_ok(dense.len() as int, shape@));
    let reshaped_dense = inp_reshape(dense, shape);
    let output_copy = copy_rows(&output);
    for i in 0..reshaped_dense.len()
        invariant
            mv == model@,
            sp == view2(*sparse),
            bottom == dlrm_bottom(mv, sp),
            d == dlrm_dense(dense@),
            view3(reshaped_dense) == d,
            d.len() == 26,
            view2(output) == concat_dense(bottom, d, i as int),
            concat_dense_ok(bottom, d, i as int),
    {
        assert(view3(reshaped_dense)[i as int] == view2(reshaped_dense[i as int]));
        let block = copy_rows(&reshaped_dense[i]);
        if !concatenate_ok_check(&output, &block) {
            assert(!concat_dense_ok(bottom, d, 26));
            return None;
        }
        output = concatenate(output, block);
    }
    let ghost joined = concat_dense(bottom, d, 26);
    assert(view2(output) == joined);
    if output.len() < 1 || output[0].len() < 27 * 64 {
        assert(!reshape1dto2d_ok(joined, features_shape()));
        return None;
    }
    let fshape: Vec<i32> = vec![27, 64];
    assert(fshape@ =~= features_shape());
    let reshaped_output = reshape1dto2d(output, fshape);
    let ghost r = dlrm_features(mv, dense@, sp);
    assert(view2(reshaped_output) == r);
    let lhs = copy_rows(&reshaped_output);
    let rhs = copy_rows(&reshaped_output);
    let zero_bias: Vec<i32> = vec![0];
    let zero_params: Vec<i32> = vec![0];
    assert(zero_bias@ =~= seq![0i32]);
    assert(zero_params@ =~= seq![0i32]);
    if !fc_ok_check(&lhs, &rhs, &zero_bias, &zero_params, true) {
        return None;
    }
    let interactions = fc_layer(lhs, rhs, zero_bias, zero_params, true);
    let ghost z = dlrm_interactions(mv, dense@, sp);
    assert(view2(interactions) == z);
    assert(r.len() == 27);
    assert(z.len() == 27 && z[0].len() == 27);
    assert forall|q: int| 0 <= q < z.len() implies #[trigger] z[q].len() >= z[0].len() by {}
    let fshape2: Vec<i32> = vec![729, 1];
    let reshaped_output_2 = reshape2dto1d(interactions, fshape2);
    let ghost f = spec_reshape2dto1d(z);
    assert(view2(reshaped_output_2) == f);
    assert(f.len() == 729) by {
        assert(27 * 27 == 729int) by (nonlinear_arith);
    }
    let gather_idx = get_gather_idx();
    let ghost g = gather_positions(27);
    proof {
        lemma_gather_positions_range(27);
        assert((27 - 1) * 27 / 2 == 351int) by (nonlinear_arith);
    }
    let ghost gathered = dlrm_gathered(mv, dense@, sp);
    let mut gathered_output: Vec<Vec<i32>> = Vec::new();
    for i in 0..gather_idx.len()
        invariant
            gather_idx@ == g,
            g == gather_positions(27),
            g.len() == 351,
            forall|t: int| 0 <= t < g.len() ==> 27 <= #[trigger] g[t] < 27 * 27,
            view2(reshaped_output_2) == f,
            f == spec_reshape2dto1d(z),
            f.len() == 729,
            z.len() == 27 && z[0].len() == 27,
            gathered == dlrm_gathered(mv, dense@, sp),
            z == dlrm_interactions(mv, dense@, sp),
            gathered_output.len() == i,
            forall|t: int| 0 <= t < i ==> #[trigger] gathered_output[t]@ == gathered[t],
    {
        let pos = gather_idx[i] as usize;
        assert(27 <= g[i as int] < 729);
        assert(f[pos as int] == reshaped_output_2[pos as int]@);
        assert(f[pos as int].len() == 1);
        let entry = reshaped_output_2[pos][0];
        let cell: Vec<i32> = vec![entry];
        assert(cell@ =~= gathered[i as int]);
        gathered_output.push(cell);
    }
    assert(view2(gathered_output) =~= gathered);
    proof {
        lemma_column_rows(gathered);
    }
    let column = transpose(gathered_output);
    assert(view2(output_copy) == bottom);
    if !concatenate_ok_check(&output_copy, &column) {
        return None;
    }
    let top_input = concatenate(output_copy, column);
    let ghost top = dlrm_top_input(mv, dense@, sp);
    assert(view2(top_input) == top);
    let mut result = top_input;
    for i in 10..14usize
        invariant
            mv == model@,
            sp == view2(*sparse),
            mv.layers.len() >= 14,
            top == dlrm_top_input(mv, dense@, sp),
            view2(result) == run_fc(mv, top, 10, i as int),
            fc_layers_ok(mv, top, 10, i as int),
    {
        match fc_step_checked(model, i, result) {
            None => {
                assert(!fc_layers_ok(mv, top, 10, 14));
                return None;
            },
            Some(next) => {
                result = next;
            },
        }
    }
    Some(result)
}

/// Layers `lo .. n` keep the number of rows.
proof fn lemma_run_fc_rows(m: ModelView, x: Seq<Seq<i32>>, lo: int, n: int)
    ensures
        run_fc(m, x, lo, n).len() == x.len(),
    decreases n - lo,
{
    if n > lo {
        lemma_run_fc_rows(m, x, lo, n - 1);
    }
}

/// Two models with the same tensors and the same layers `lo .. n` run those
/// layers alike.
proof fn lemma_run_fc_same(m1: ModelView, m2: ModelView, x: Seq<Seq<i32>>, lo: int, n: int)
    requires
        m1.tensors == m2.tensors,
        forall|t: int| lo <= t < n ==> #[trigger] m1.layers[t] == m2.layers[t],
    ensures
        run_fc(m1, x, lo, n) == run_fc(m2, x, lo, n),
    decreases n - lo,
{
    if n > lo {
        lemma_run_fc_same(m1, m2, x, lo, n - 1);
        assert(m1.layers[n - 1] == m2.layers[n - 1]);
    }
}

/// `fc_layers_ok` over layers `lo .. hi` holds of both models or of neither.
proof fn lemma_fc_layers_ok_same(m1: ModelView, m2: ModelView, x: Seq<Seq<i32>>, lo: int, hi: int)
    requires
        m1.tensors == m2.tensors,
        forall|t: int| lo <= t < hi ==> #[trigger] m1.layers[t] == m2.layers[t],
    ensures
        fc_layers_ok(m1, x, lo, hi) <==> fc_layers_ok(m2, x, lo, hi),
{
    if fc_layers_ok(m1, x, lo, hi) {
        assert forall|t: int| lo <= t < hi implies #[trigger] fc_step_ok(
            m2,
            m2.layers[t],
            run_fc(m2, x, lo, t),
        ) by {
            lemma_run_fc_same(m1, m2, x, lo, t);
            assert(fc_step_ok(m1, m1.layers[t], run_fc(m1, x, lo, t)));
        }
    }
    if fc_layers_ok(m2, x, lo, hi) {
        assert forall|t: int| lo <= t < hi implies #[trigger] fc_step_ok(
            m1,
            m1.layers[t],
            run_fc(m1, x, lo, t),
        ) by {
            lemma_run_fc_same(m1, m2, x, lo, t);
            assert(fc_step_ok(m2, m2.layers[t], run_fc(m2, x, lo, t)));
        }
    }
}

/// The dense embeddings are the first `26 * 64` values of `dense`.
proof fn lemma_dense_prefix(d1: Seq<i32>, d2: Seq<i32>)
    requires
        d1.len() >= 1664,
        d2.len() >= 1664,
        d1.subrange(0, 1664) == d2.subrange(0, 1664),
    ensures
        dlrm_dense(d1) == dlrm_dense(d2),
{
    let e1 = dlrm_dense(d1);
    let e2 = dlrm_dense(d2);
    assert forall|a: int| 0 <= a < 26 implies #[trigger] e1[a] =~= e2[a] by {
        assert(e1[a][0].len() == 64 && e2[a][0].len() == 64);
        assert forall|c: int| 0 <= c < 64 implies #[trigger] e1[a][0][c] == e2[a][0][c] by {
            let idx = (a * 1 + 0) * 64 + c;
            assert(0 <= idx < 1664) by (nonlinear_arith)
                requires
                    0 <= a < 26,
                    0 <= c < 64,
                    idx == (a * 1 + 0) * 64 + c,
            ;
            assert(dense_shape()[1] == 1 && dense_shape()[2] == 64);
            assert(e1[a][0][c] == d1[idx]);
            assert(e2[a][0][c] == d2[idx]);
            assert(d1[idx] == d1.subrange(0, 1664)[idx]);
            assert(d2[idx] == d2.subrange(0, 1664)[idx]);
        }
        assert(e1[a][0] =~= e2[a][0]);
    }
    assert(e1 =~= e2);
}

/// `dlrm` reads only the tensors, layers 0 to 2 and 10 to 13 of the model,
/// and the first `26 * 64` dense values: two calls that agree on these run
/// on the same inputs and give the same output.
pub proof fn lemma_dlrm_reads(
    m1: ModelView,
    m2: ModelView,
    dense1: Seq<i32>,
    dense2: Seq<i32>,
    sparse: Seq<Seq<i32>>,
)
    requires
        m1.tensors == m2.tensors,
        m1.layers.len() >= 14,
        m2.layers.len() >= 14,
        forall|t: int| (0 <= t < 3 || 10 <= t < 14) ==> #[trigger] m1.layers[t] == m2.layers[t],
        dense1.len() >= 1664,
        dense2.len() >= 1664,
        dense1.subrange(0, 1664) == dense2.subrange(0, 1664),
    ensures
        dlrm_ok(m1, dense1, sparse) <==> dlrm_ok(m2, dense2, sparse),
        spec_dlrm(m1, dense1, sparse) == spec_dlrm(m2, dense2, sparse),
{
    assert forall|t: int| 0 <= t < 3 implies #[trigger] m1.layers[t] == m2.layers[t] by {
        assert(0 <= t < 3 || 10 <= t < 14);
    }
    assert forall|t: int| 10 <= t < 14 implies #[trigger] m1.layers[t] == m2.layers[t] by {
        assert(0 <= t < 3 || 10 <= t < 14);
    }
    lemma_run_fc_same(m1, m2, sparse, 0, 3);
    lemma_fc_layers_ok_same(m1, m2, sparse, 0, 3);
    lemma_dense_prefix(dense1, dense2);
    assert(dlrm_bottom(m1, sparse) == dlrm_bottom(m2, sparse));
    assert(dlrm_features(m1, dense1, sparse) == dlrm_features(m2, dense2, sparse));
    assert(dlrm_interactions(m1, dense1, sparse) == dlrm_interactions(m2, dense2, sparse));
    assert(dlrm_gathered(m1, dense1, sparse) == dlrm_gathered(m2, dense2, sparse));
    let top = dlrm_top_input(m1, dense1, sparse);
    assert(top == dlrm_top_input(m2, dense2, sparse));
    lemma_run_fc_same(m1, m2, top, 10, 14);
    lemma_fc_layers_ok_same(m1, m2, top, 10, 14);
}

/// On the inputs it accepts, `dlrm` gives exactly one row: the interaction
/// column has 351 entries, so the bottom output it is joined to has one row,
/// and fully connected layers keep the number of rows.
pub proof fn lemma_dlrm_one_row(m: ModelView, dense: Seq<i32>, sparse: Seq<Seq<i32>>)
    requires
        dlrm_ok(m, dense, sparse),
    ensures
        spec_dlrm(m, dense, sparse).len() == 1,
{
    let bottom = dlrm_bottom(m, sparse);
    let g = dlrm_gathered(m, dense, sparse);
    let col = spec_transpose(g);
    lemma_run_fc_rows(m, sparse, 0, 3);
    lemma_gather_positions_range(27);
    assert((27 - 1) * 27 / 2 == 351int) by (nonlinear_arith);
    assert(g.len() == 351);
    assert(g[0].len() == 1);
    assert(col.len() == 1);
    assert(col[0].len() == 351);
    assert(bottom.len() == 1);
    let top = dlrm_top_input(m, dense, sparse);
    assert(top.len() == 1);
    lemma_run_fc_rows(m, top, 10, 14);
}

/// Entry `a * (a - 1) / 2 + b` of `gather_positions(rows)` is the position
/// `a * 27 + b` of row `a`, column `b < a`.
proof fn lemma_gather_position_of(rows: int, a: int, b: int)
    requires
        1 <= rows <= 27,
        0 <= b < a < rows,
    ensures
        0 <= a * (a - 1) / 2 + b < gather_positions(rows).len(),
        gather_positions(rows)[a * (a - 1) / 2 + b] == a * 27 + b,
    decreases rows,
{
    lemma_gather_positions_range(rows);
    let prev = gather_positions(rows - 1);
    lemma_gather_positions_range(rows - 1);
    assert(a * (a - 1) / 2 + b < (rows - 1) * rows / 2) by (nonlinear_arith)
        requires
            0 <= b < a < rows,
    ;
    assert(0 <= a * (a - 1) / 2) by (nonlinear_arith)
        requires
            a >= 1,
    ;
    if a < rows - 1 {
        lemma_gather_position_of(rows - 1, a, b);
        assert(a * (a - 1) / 2 + b < prev.len());
    } else {
        assert((rows - 2) * (rows - 1) == a * (a - 1)) by (nonlinear_arith)
            requires
                a == rows - 1,
        ;
        assert(prev.len() == a * (a - 1) / 2);
    }
}

/// Each gathered interaction is the dot product of two feature rows `a > b`
/// over their 64 values, divided by 512 rounding toward zero, with no
/// clamping: the pair `(a, b)` stands at place `a * (a - 1) / 2 + b` of the
/// 351 gathered entries, so a dot product of at most -512 gives a negative
/// entry.
pub proof fn lemma_dlrm_interactions(m: ModelView, dense: Seq<i32>, sparse: Seq<Seq<i32>>)
    requires
        dlrm_ok(m, dense, sparse),
    ensures
        dlrm_gathered(m, dense, sparse).len() == 351,
        dlrm_features(m, dense, sparse).len() == 27,
        forall|a: int| 0 <= a < 27 ==> #[trigger] dlrm_features(m, dense, sparse)[a].len() == 64,
        forall|a: int, b: int|
            0 <= b < a < 27 ==> {
                &&& #[trigger] dlrm_gathered(m, dense, sparse)[a * (a - 1) / 2 + b].len() == 1
                &&& dlrm_gathered(m, dense, sparse)[a * (a - 1) / 2 + b][0] == trunc_div(
                    dot(dlrm_features(m, dense, sparse)[a], dlrm_features(m, dense, sparse)[b], 64),
                    512,
                )
            },
{
    let r = dlrm_features(m, dense, sparse);
    let z = dlrm_interactions(m, dense, sparse);
    let f = spec_reshape2dto1d(z);
    let g = gather_positions(27);
    let gathered = dlrm_gathered(m, dense, sparse);
    lemma_gather_positions_range(27);
    assert((27 - 1) * 27 / 2 == 351int) by (nonlinear_arith);
    lemma_fc_layer_entries(r, r, seq![0i32], seq![0i32], true);
    assert(r.len() == 27 && r[0].len() == 64);
    assert(z.len() == 27 && z[0].len() == 27);
    assert(f.len() == 729) by {
        assert(27 * 27 == 729int) by (nonlinear_arith);
    }
    assert forall|a: int, b: int| 0 <= b < a < 27 implies {
        &&& #[trigger] gathered[a * (a - 1) / 2 + b].len() == 1
        &&& gathered[a * (a - 1) / 2 + b][0] == trunc_div(dot(r[a], r[b], 64), 512)
    } by {
        let t = a * (a - 1) / 2 + b;
        lemma_gather_position_of(27, a, b);
        let pos = a * 27 + b;
        assert(g[t] == pos);
        assert(pos / 27 == a && pos % 27 == b) by (nonlinear_arith)
            requires
                pos == a * 27 + b,
                0 <= b < 27,
        ;
        assert(0 <= pos < 729) by (nonlinear_arith)
            requires
                pos == a * 27 + b,
                0 <= b < a < 27,
        ;
        assert(f[pos] == seq![z[a][b]]);
        assert(gathered[t] == seq![f[g[t] as int][0]]);
    }
}

} // verus!
