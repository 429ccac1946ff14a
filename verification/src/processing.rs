//! The model description that the inference routines read: layers, their
//! parameters, and the weight tensors they refer to.
use vstd::prelude::*;

verus! {

/// A whole model: its layers in execution order and the tensors they use.
#[derive(Debug, Clone, PartialEq, Eq)]
pub struct ModelConfig {
    pub global_sf: i32,
    pub k: i32,
    pub num_cols: i32,
    pub num_random: i32,
    pub inp_idxes: Vec<i32>,
    pub out_idxes: Vec<i32>,
    pub layers: Vec<Layer>,
    pub tensors: Vec<Tensor>,
    pub use_selectors: bool,
    pub commit_before: Vec<i32>,
    pub commit_after: Vec<i32>,
}

/// One layer: its kind (such as `"Conv2D"`), the indices of the tensors it
/// reads, and its integer parameters.
#[derive(Debug, Clone, PartialEq, Eq)]
pub struct Layer {
    pub layer_type: String,
    pub inp_idxes: Vec<i32>,
    pub inp_shapes: Vec<Vec<i32>>,
    pub out_idxes: Vec<i32>,
    pub out_shapes: Vec<Vec<i32>>,
    pub params: Vec<i32>,
    pub mask: Vec<String>,
}

/// A tensor stored flat, in row-major order, with its shape.
#[derive(Debug, Clone, PartialEq, Eq)]
pub struct Tensor {
    pub idx: i32,
    pub shape: Vec<i32>,
    pub data: Vec<i32>,
}

/// What the inference routines read of a tensor.
#[verifier::ext_equal]
pub struct TensorView {
    pub idx: i32,
    pub shape: Seq<i32>,
    pub data: Seq<i32>,
}

impl View for Tensor {
    type V = TensorView;

    open spec fn view(&self) -> TensorView {
        TensorView { idx: self.idx, shape: self.shape@, data: self.data@ }
    }
}

/// What the inference routines read of a layer.
#[verifier::ext_equal]
pub struct LayerView {
    pub layer_type: Seq<char>,
    pub inp_idxes: Seq<i32>,
    pub params: Seq<i32>,
}

impl View for Layer {
    type V = LayerView;

    open spec fn view(&self) -> LayerView {
        LayerView { layer_type: self.layer_type@, inp_idxes: self.inp_idxes@, params: self.params@ }
    }
}

/// The views of a sequence of tensors.
pub open spec fn tensor_views(ts: Seq<Tensor>) -> Seq<TensorView> {
    ts.map_values(|t: Tensor| t@)
}

/// The views of a sequence of layers.
pub open spec fn layer_views(ls: Seq<Layer>) -> Seq<LayerView> {
    ls.map_values(|l: Layer| l@)
}

/// What the inference routines read of a model: its layers and tensors.
#[verifier::ext_equal]
pub struct ModelView {
    pub layers: Seq<LayerView>,
    pub tensors: Seq<TensorView>,
}

impl View for ModelConfig {
    type V = ModelView;

    open spec fn view(&self) -> ModelView {
        ModelView {
            layers: layer_views(self.layers@),
            tensors: tensor_views(self.tensors@),
        }
    }
}

} // verus!
