//! Inference of the MNIST convolutional network: the input image is unfolded
//! to `28 x 28 x 1` and every layer of the model is applied in turn.
use vstd::prelude::*;
use crate::helper::{get_tensor, inp_reshape, spec_bias_reshape, spec_get_tensor, spec_inp_reshape, reshape3_ok};
use crate::op::{
    add_ok, avgpool2d, avgpool_ok, conv2d, conv_entry_fits, conv_input, conv_ok, conv_out0,
    conv_out1, conv_sum, conv_window, mul_ok, spec_add, spec_avgpool2d, spec_conv2d, spec_mul,
};
use crate::layer_checks::{add_ok_check, avgpool_ok_check, conv_ok_check, mul_ok_check};
use crate::processing::{LayerView, ModelConfig, ModelView};
use crate::util::{trunc_div, view3};

verus! {

/// The layer kind of a convolution.
pub open spec fn conv2d_name() -> Seq<char> {
    "Conv2D"@
}

/// The layer kind of an average pooling.
pub open spec fn avgpool2d_name() -> Seq<char> {
    "AveragePool2D"@
}

/// The layer kind of a channel-wise scaling.
pub open spec fn mul_name() -> Seq<char> {
    "Mul"@
}

/// The layer kind of a channel-wise addition.
pub open spec fn add_name() -> Seq<char> {
    "Add"@
}

/// `layer` is a convolution that `mnist` runs: kind `"Conv2D"` and `params[0] == 0`.
pub open spec fn is_conv_step(layer: LayerView) -> bool {
    layer.layer_type == conv2d_name() && layer.params[0] == 0
}

/// The effect of one layer on the current tensor `x`. A `"Conv2D"` layer
/// reads its kernel and bias through `inp_idxes[1]` and `inp_idxes[2]`, its
/// padding from `params[1]`, its ReLU switch from `params[2]` (0 turns
/// `relu6` off) and its stride from `params[3]`; `"Mul"` and `"Add"` read
/// their tensor through `inp_idxes[1]`. Layers of any other kind, and
/// convolutions with `params[0] != 0`, leave `x` as it is.
pub open spec fn layer_step(m: ModelView, layer: LayerView, x: Seq<Seq<Seq<i32>>>) -> Seq<
    Seq<Seq<i32>>,
> {
    if is_conv_step(layer) {
        spec_conv2d(
            x,
            spec_get_tensor(layer.inp_idxes[1], m.tensors),
            spec_get_tensor(layer.inp_idxes[2], m.tensors),
            layer.params[3],
            layer.params[1],
            layer.params[2] == 0,
        )
    } else if layer.layer_type == avgpool2d_name() {
        spec_avgpool2d(x, layer.params)
    } else if layer.layer_type == mul_name() {
        spec_mul(x, spec_bias_reshape(spec_get_tensor(layer.inp_idxes[1], m.tensors)))
    } else if layer.layer_type == add_name() {
        spec_add(x, spec_bias_reshape(spec_get_tensor(layer.inp_idxes[1], m.tensors)))
    } else {
        x
    }
}

/// Running `layer` on `x` reads only what exists and stays inside `i32`.
pub open spec fn layer_step_ok(m: ModelView, layer: LayerView, x: Seq<Seq<Seq<i32>>>) -> bool {
    &&& layer.layer_type == conv2d_name() ==> layer.params.len() >= 1
    &&& is_conv_step(layer) ==> {
        &&& layer.inp_idxes.len() >= 3
        &&& layer.params.len() >= 4
        &&& conv_ok(
            x,
            spec_get_tensor(layer.inp_idxes[1], m.tensors),
            spec_get_tensor(layer.inp_idxes[2], m.tensors),
            layer.params[3],
            layer.params[1],
        )
    }
    &&& !is_conv_step(layer) && layer.layer_type == avgpool2d_name() ==> avgpool_ok(
        x,
        layer.params,
    )
    &&& !is_conv_step(layer) && layer.layer_type == mul_name() ==> {
        &&& layer.inp_idxes.len() >= 2
        &&& mul_ok(x, spec_get_tensor(layer.inp_idxes[1], m.tensors))
    }
    &&& !is_conv_step(layer) && layer.layer_type == add_name() ==> {
        &&& layer.inp_idxes.len() >= 2
        &&& add_ok(x, spec_get_tensor(layer.inp_idxes[1], m.tensors))
    }
}

/// The tensor after the first `n` layers of the model, starting from `x`.
pub open spec fn run_layers(m: ModelView, x: Seq<Seq<Seq<i32>>>, n: int) -> Seq<Seq<Seq<i32>>>
    decreases n,
{
    if n <= 0 {
        x
    } else {
        layer_step(m, m.layers[n - 1], run_layers(m, x, n - 1))
    }
}

/// Every one of the first `n` layers can run on what the layers before it produced.
pub open spec fn layers_ok(m: ModelView, x: Seq<Seq<Seq<i32>>>, n: int) -> bool {
    forall|t: int| 0 <= t < n ==> #[trigger] layer_step_ok(m, m.layers[t], run_layers(m, x, t))
}

/// The shape `[28, 28, 1]` of an MNIST image.
pub open spec fn mnist_shape() -> Seq<i32> {
    seq![28i32, 28i32, 1i32]
}

/// The input image unfolded to `28 x 28 x 1`.
pub open spec fn mnist_input(data: Seq<i32>) -> Seq<Seq<Seq<i32>>> {
    spec_inp_reshape(data, mnist_shape())
}

/// `mnist` runs on `data` without reading past its inputs or overflowing.
pub open spec fn mnist_ok(m: ModelView, data: Seq<i32>) -> bool {
    &&& data.len() >= 784
    &&& layers_ok(m, mnist_input(data), m.layers.len() as int)
}

/// The network's output on `data`.
pub open spec fn spec_mnist(m: ModelView, data: Seq<i32>) -> Seq<Seq<Seq<i32>>> {
    run_layers(m, mnist_input(data), m.layers.len() as int)
}

/// Runs the MNIST model on a flat `28 x 28` image.
pub fn mnist(model: &ModelConfig, data: &Vec<i32>) -> (out: Vec<Vec<Vec<i32>>>)
    requires
        mnist_ok(model@, data@),
    ensures
        view3(out) == spec_mnist(model@, data@),
{
    let ghost mv = model@;
    let ghost x0 = mnist_input(data@);
    let shape: Vec<i32> = vec![28, 28, 1];
    assert(shape@ =~= mnist_shape());
    assert(reshape3_ok(data.len() as int, shape@));
    let mut output = inp_reshape(data, shape);
    let conv_kind = "Conv2D".to_owned();
    let pool_kind = "AveragePool2D".to_owned();
    let mul_kind = "Mul".to_owned();
    let add_kind = "Add".to_owned();
    for i in 0..model.layers.len()
        invariant
            mv == model@,
            x0 == mnist_input(data@),
            mnist_ok(mv, data@),
            conv_kind@ == conv2d_name(),
            pool_kind@ == avgpool2d_name(),
            mul_kind@ == mul_name(),
            add_kind@ == add_name(),
            view3(output) == run_layers(mv, x0, i as int),
    {
        let layer = &model.layers[i];
        assert(mv.layers[i as int] == layer@);
        assert(layer_step_ok(mv, mv.layers[i as int], run_layers(mv, x0, i as int)));
        if layer.layer_type == conv_kind && layer.params[0] == 0 {
            let kernel = get_tensor(layer.inp_idxes[1], &model.tensors);
            let bias = get_tensor(layer.inp_idxes[2], &model.tensors);
            let stride = layer.params[3];
            let padding = layer.params[1];
            let mut reluoff = false;
            if layer.params[2] == 0 {
                reluoff = true;
            }
            output = conv2d(output, kernel, bias, stride, padding, reluoff);
        } else if layer.layer_type == pool_kind {
            let params = crate::helper::copy_i32s(&layer.params);
            output = avgpool2d(output, params);
        } else if layer.layer_type == mul_kind {
            let scale = get_tensor(layer.inp_idxes[1], &model.tensors);
            output = crate::op::mul(output, scale);
        } else if layer.layer_type == add_kind {
            let bias = get_tensor(layer.inp_idxes[1], &model.tensors);
            output = crate::op::add(output, bias);
        }
    }
    output
}

/// `layer` is one that `mnist` passes over: a `"Conv2D"` layer with a first
/// parameter other than 0, or a layer of a kind it does not run.
pub open spec fn is_skipped(layer: LayerView) -> bool {
    ||| layer.layer_type == conv2d_name() && layer.params.len() >= 1 && layer.params[0] != 0
    ||| layer.layer_type != conv2d_name() && layer.layer_type != avgpool2d_name()
        && layer.layer_type != mul_name() && layer.layer_type != add_name()
}

/// Runs layer `i` of the model on `x` when `layer_step_ok` holds; `None`
/// when it does not.
fn layer_step_checked(model: &ModelConfig, i: usize, x: Vec<Vec<Vec<i32>>>) -> (r: Option<
    Vec<Vec<Vec<i32>>>,
>)
    requires
        i < model.layers.len(),
    ensures
        r is Some <==> layer_step_ok(model@, model@.layers[i as int], view3(x)),
        r is Some ==> view3(r->0) == layer_step(model@, model@.layers[i as int], view3(x)),
{
    let ghost mv = model@;
    let layer = &model.layers[i];
    assert(mv.layers[i as int] == layer@);
    proof {
        lemma_kinds_distinct();
    }
    let conv_kind = "Conv2D".to_owned();
    let pool_kind = "AveragePool2D".to_owned();
    let mul_kind = "Mul".to_owned();
    let add_kind = "Add".to_owned();
    if layer.layer_type == conv_kind && layer.params.len() < 1 {
        return None;
    }
    if layer.layer_type == conv_kind && layer.params[0] == 0 {
        if layer.inp_idxes.len() < 3 || layer.params.len() < 4 {
            return None;
        }
        let stride = layer.params[3];
        let padding = layer.params[1];
        let kernel = get_tensor(layer.inp_idxes[1], &model.tensors);
        let bias = get_tensor(layer.inp_idxes[2], &model.tensors);
        if !conv_ok_check(&x, kernel, bias, stride, padding) {
            return None;
        }
        let kernel = get_tensor(layer.inp_idxes[1], &model.tensors);
        let bias = get_tensor(layer.inp_idxes[2], &model.tensors);
        let reluoff = layer.params[2] == 0;
        Some(conv2d(x, kernel, bias, stride, padding, reluoff))
    } else if layer.layer_type == pool_kind {
        let params = crate::helper::copy_i32s(&layer.params);
        if !avgpool_ok_check(&x, &params) {
            return None;
        }
        Some(avgpool2d(x, params))
    } else if layer.layer_type == mul_kind {
        if layer.inp_idxes.len() < 2 {
            return None;
        }
        let scale = get_tensor(layer.inp_idxes[1], &model.tensors);
        if !mul_ok_check(&x, &scale) {
            return None;
        }
        Some(crate::op::mul(x, scale))
    } else if layer.layer_type == add_kind {
        if layer.inp_idxes.len() < 2 {
            return None;
        }
        let bias = get_tensor(layer.inp_idxes[1], &model.tensors);
        if !add_ok_check(&x, &bias) {
            return None;
        }
        Some(crate::op::add(x, bias))
    } else {
        Some(x)
    }
}

/// Runs `mnist` when `mnist_ok` holds of its arguments, checking each layer's
/// condition just before running it; `None` when one fails.
pub fn mnist_checked(model: &ModelConfig, data: &Vec<i32>) -> (out: Option<Vec<Vec<Vec<i32>>>>)
    ensures
        out is Some <==> mnist_ok(model@, data@),
        out is Some ==> view3(out->0) == spec_mnist(model@, data@),
{
    let ghost mv = model@;
    let ghost x0 = mnist_input(data@);
    if data.len() < 784 {
        return None;
    }
    let shape: Vec<i32> = vec![28, 28, 1];
    assert(shape@ =~= mnist_shape());
    assert(reshape3_ok(data.len() as int, shape@));
    let mut output = inp_reshape(data, shape);
    for i in 0..model.layers.len()
        invariant
            mv == model@,
            x0 == mnist_input(data@),
            data.len() >= 784,
            view3(output) == run_layers(mv, x0, i as int),
            layers_ok(mv, x0, i as int),
    {
        match layer_step_checked(model, i, output) {
            None => {
                assert(!layers_ok(mv, x0, mv.layers.len() as int));
                return None;
            },
            Some(next) => {
                output = next;
            },
        }
    }
    Some(output)
}

/// The four layer kinds that `mnist` runs are different words.
proof fn lemma_kinds_distinct()
    ensures
        conv2d_name() != avgpool2d_name(),
        conv2d_name() != mul_name(),
        conv2d_name() != add_name(),
        avgpool2d_name() != mul_name(),
        avgpool2d_name() != add_name(),
        mul_name() != add_name(),
{
    reveal_strlit("Conv2D");
    reveal_strlit("AveragePool2D");
    reveal_strlit("Mul");
    reveal_strlit("Add");
    assert(conv2d_name().len() != avgpool2d_name().len());
    assert(conv2d_name().len() != mul_name().len());
    assert(conv2d_name().len() != add_name().len());
    assert(avgpool2d_name().len() != mul_name().len());
    assert(avgpool2d_name().len() != add_name().len());
    assert(mul_name()[0] != add_name()[0]);
}

/// Inserting `layer` at `pos` shifts the layers from `pos` on by one place.
proof fn lemma_run_layers_insert(
    m: ModelView,
    m2: ModelView,
    pos: int,
    layer: LayerView,
    x: Seq<Seq<Seq<i32>>>,
    t: int,
)
    requires
        0 <= pos <= m.layers.len(),
        0 <= t <= m.layers.len() + 1,
        m2.tensors == m.tensors,
        m2.layers == m.layers.insert(pos, layer),
        is_skipped(layer),
    ensures
        t <= pos ==> run_layers(m2, x, t) == run_layers(m, x, t),
        t > pos ==> run_layers(m2, x, t) == run_layers(m, x, t - 1),
    decreases t,
{
    if t > 0 {
        lemma_run_layers_insert(m, m2, pos, layer, x, t - 1);
        let y = run_layers(m2, x, t - 1);
        if t - 1 < pos {
            assert(m2.layers[t - 1] == m.layers[t - 1]);
            assert(layer_step(m2, m.layers[t - 1], y) == layer_step(m, m.layers[t - 1], y));
        } else if t - 1 > pos {
            assert(m2.layers[t - 1] == m.layers[t - 2]);
            assert(layer_step(m2, m.layers[t - 2], y) == layer_step(m, m.layers[t - 2], y));
            assert(run_layers(m, x, t - 1) == layer_step(m, m.layers[t - 2], run_layers(m, x, t - 2)));
        } else {
            assert(m2.layers[t - 1] == layer);
            lemma_kinds_distinct();
            assert(layer_step(m2, layer, y) == y);
        }
    }
}

/// A layer that `mnist` passes over, inserted anywhere in the model, changes
/// neither its output nor the inputs on which it runs.
pub proof fn lemma_mnist_skipped_layer(
    m: ModelView,
    m2: ModelView,
    pos: int,
    layer: LayerView,
    data: Seq<i32>,
)
    requires
        0 <= pos <= m.layers.len(),
        m2.tensors == m.tensors,
        m2.layers == m.layers.insert(pos, layer),
        is_skipped(layer),
    ensures
        spec_mnist(m2, data) == spec_mnist(m, data),
        mnist_ok(m2, data) <==> mnist_ok(m, data),
{
    let x = mnist_input(data);
    let n = m.layers.len() as int;
    lemma_run_layers_insert(m, m2, pos, layer, x, n + 1);
    assert forall|t: int| 0 <= t <= n + 1 implies (t <= pos ==> #[trigger] run_layers(m2, x, t)
        == run_layers(m, x, t)) && (t > pos ==> run_layers(m2, x, t) == run_layers(m, x, t - 1)) by {
        lemma_run_layers_insert(m, m2, pos, layer, x, t);
    }
    if mnist_ok(m, data) {
        assert forall|t: int| 0 <= t < n + 1 implies #[trigger] layer_step_ok(
            m2,
            m2.layers[t],
            run_layers(m2, x, t),
        ) by {
            if t < pos {
                assert(m2.layers[t] == m.layers[t]);
                assert(layer_step_ok(m, m.layers[t], run_layers(m, x, t)));
            } else if t > pos {
                assert(m2.layers[t] == m.layers[t - 1]);
                assert(layer_step_ok(m, m.layers[t - 1], run_layers(m, x, t - 1)));
            } else {
                assert(m2.layers[t] == layer);
                lemma_kinds_distinct();
            }
        }
    }
    if mnist_ok(m2, data) {
        assert forall|t: int| 0 <= t < n implies #[trigger] layer_step_ok(
            m,
            m.layers[t],
            run_layers(m, x, t),
        ) by {
            if t < pos {
                assert(m2.layers[t] == m.layers[t]);
                assert(layer_step_ok(m2, m2.layers[t], run_layers(m2, x, t)));
            } else {
                assert(m2.layers[t + 1] == m.layers[t]);
                assert(layer_step_ok(m2, m2.layers[t + 1], run_layers(m2, x, t + 1)));
            }
        }
    }
}

/// A convolution that `mnist` runs, with kernel `K`, bias `b`, stride
/// `params[3]` and padding `params[1]`, gives at `(i, j, k)` the window sum of
/// `K`'s output channel `k` over the (padded) input, divided by 512 rounding
/// toward zero, plus `b[k]`; that value is clamped to `[0, 3072]` exactly when
/// the activation flag `params[2]` is not 0, and left as it is when it is 0.
pub proof fn lemma_mnist_conv_activation(m: ModelView, layer: LayerView, x: Seq<Seq<Seq<i32>>>)
    requires
        is_conv_step(layer),
        layer_step_ok(m, layer, x),
    ensures
        ({
            let kernel = spec_get_tensor(layer.inp_idxes[1], m.tensors);
            let bias = spec_get_tensor(layer.inp_idxes[2], m.tensors);
            let stride = layer.params[3];
            let xi = conv_input(x, kernel, layer.params[1]);
            let out = layer_step(m, layer, x);
            &&& out.len() == conv_out0(xi, kernel, stride)
            &&& forall|i: int, j: int, k: int|
                0 <= i < conv_out0(xi, kernel, stride) && 0 <= j < conv_out1(xi, kernel, stride) && 0 <= k
                    < kernel.shape[0] ==> {
                    let raw = trunc_div(
                        conv_sum(
                            conv_window(xi, kernel, stride, i, j, k),
                            kernel.shape[3] as int,
                            kernel.shape[1] as int,
                            kernel.shape[2] as int,
                        ),
                        512,
                    ) + spec_bias_reshape(bias)[k];
                    &&& out[i].len() == conv_out1(xi, kernel, stride)
                    &&& out[i][j].len() == kernel.shape[0]
                    &&& #[trigger] out[i][j][k] == if layer.params[2] != 0 {
                        if raw < 0 {
                            0
                        } else if raw > 3072 {
                            3072
                        } else {
                            raw
                        }
                    } else {
                        raw
                    }
                    &&& layer.params[2] != 0 ==> 0 <= out[i][j][k] <= 3072
                }
        }),
{
    let kernel = spec_get_tensor(layer.inp_idxes[1], m.tensors);
    let bias = spec_get_tensor(layer.inp_idxes[2], m.tensors);
    let stride = layer.params[3];
    let padding = layer.params[1];
    let xi = conv_input(x, kernel, padding);
    let out = layer_step(m, layer, x);
    assert(conv_ok(x, kernel, bias, stride, padding));
    assert forall|i: int, j: int, k: int|
        0 <= i < conv_out0(xi, kernel, stride) && 0 <= j < conv_out1(xi, kernel, stride) && 0 <= k
            < kernel.shape[0] implies {
        let raw = trunc_div(
            conv_sum(
                conv_window(xi, kernel, stride, i, j, k),
                kernel.shape[3] as int,
                kernel.shape[1] as int,
                kernel.shape[2] as int,
            ),
            512,
        ) + spec_bias_reshape(bias)[k];
        &&& out[i].len() == conv_out1(xi, kernel, stride)
        &&& out[i][j].len() == kernel.shape[0]
        &&& #[trigger] out[i][j][k] == if layer.params[2] != 0 {
            if raw < 0 {
                0
            } else if raw > 3072 {
                3072
            } else {
                raw
            }
        } else {
            raw
        }
        &&& layer.params[2] != 0 ==> 0 <= out[i][j][k] <= 3072
    } by {
        let c = conv_window(xi, kernel, stride, i, j, k);
        assert(conv_entry_fits(
            c,
            kernel.shape[3] as int,
            kernel.shape[1] as int,
            kernel.shape[2] as int,
            spec_bias_reshape(bias),
        ));
    }
}

} // verus!
