use mllib::dlrm::{dlrm, dlrm_checked};
use mllib::mnist::{mnist, mnist_checked};
use mllib::processing::{Layer, ModelConfig, Tensor};

fn layer(kind: &str, inp_idxes: Vec<i32>, params: Vec<i32>) -> Layer {
    Layer {
        layer_type: kind.to_string(),
        inp_idxes,
        inp_shapes: vec![],
        out_idxes: vec![],
        out_shapes: vec![],
        params,
        mask: vec![],
    }
}

fn model(layers: Vec<Layer>, tensors: Vec<Tensor>) -> ModelConfig {
    ModelConfig {
        global_sf: 512,
        k: 0,
        num_cols: 0,
        num_random: 0,
        inp_idxes: vec![],
        out_idxes: vec![],
        layers,
        tensors,
        use_selectors: false,
        commit_before: vec![],
        commit_after: vec![],
    }
}

#[test]
fn mnist_runs_every_layer_kind() {
    let tensors = vec![
        Tensor { idx: 1, shape: vec![1, 1, 1, 1], data: vec![1024] },
        Tensor { idx: 2, shape: vec![1], data: vec![0] },
        Tensor { idx: 5, shape: vec![1], data: vec![2] },
        Tensor { idx: 6, shape: vec![1], data: vec![1024] },
    ];
    let layers = vec![
        layer("Conv2D", vec![0, 1, 2], vec![0, 1, 1, 1]),
        layer("AveragePool2D", vec![0], vec![28, 28, 1, 1]),
        layer("Add", vec![0, 5], vec![]),
        layer("Mul", vec![0, 6], vec![]),
        layer("Softmax", vec![0], vec![]),
        layer("Conv2D", vec![0, 1, 2], vec![1, 1, 1, 1]),
    ];
    let data = vec![1; 784];
    let out = mnist(&model(layers, tensors), &data);
    // conv: 1 * 1024 / 512 = 2 everywhere; pool: 784 * 2 / 28 = 56;
    // add: 58; mul: 58 * 1024 / 512 = 116; the last two layers change nothing.
    assert_eq!(out, vec![vec![vec![116]]]);
}

#[test]
fn mnist_without_layers_is_the_reshaped_image() {
    let data: Vec<i32> = (0..784).collect();
    let out = mnist(&model(vec![], vec![]), &data);
    assert_eq!(out.len(), 28);
    assert_eq!(out[0].len(), 28);
    assert_eq!(out[3][5], vec![3 * 28 + 5]);
}

fn skip_layers(n: usize) -> Vec<Layer> {
    (0..n).map(|_| layer("Identity", vec![], vec![])).collect()
}

#[test]
fn dlrm_interactions_without_dense_layers() {
    let mut dense = vec![0; 1664];
    for v in dense.iter_mut().take(64) {
        *v = 512;
    }
    let sparse = vec![vec![512; 64]];
    let out = dlrm(&model(skip_layers(14), vec![]), &dense, &sparse);
    let mut expected = vec![512; 64];
    // feature rows 0 and 1 are all 512: their product is 64 * 512 * 512 / 512
    expected.push(32768);
    expected.extend(vec![0; 350]);
    assert_eq!(out, vec![expected]);
}

#[test]
fn dlrm_with_bottom_and_top_fully_connected_layers() {
    let mut layers = skip_layers(14);
    layers[0] = layer("FullyConnected", vec![0, 1, 2], vec![0]);
    layers[13] = layer("FullyConnected", vec![0, 3, 4], vec![1]);
    // bottom: 13 -> 64, every output copies sparse feature 0
    let mut bottom_kernel = vec![0; 64 * 13];
    for j in 0..64 {
        bottom_kernel[j * 13] = 512;
    }
    // top: 415 -> 2, output 0 copies input 64 (the first interaction) minus 1,
    // output 1 negates input 0 and goes through ReLU
    let mut top_kernel = vec![0; 2 * 415];
    top_kernel[64] = 512;
    top_kernel[415] = -512;
    let tensors = vec![
        Tensor { idx: 1, shape: vec![64, 13], data: bottom_kernel },
        Tensor { idx: 2, shape: vec![64], data: vec![0; 64] },
        Tensor { idx: 3, shape: vec![2, 415], data: top_kernel },
        Tensor { idx: 4, shape: vec![2], data: vec![-1, 0] },
    ];
    let mut dense = vec![0; 1664];
    for v in dense.iter_mut().take(64) {
        *v = 512;
    }
    let mut sparse_row = vec![0; 13];
    sparse_row[0] = 512;
    let out = dlrm(&model(layers, tensors), &dense, &vec![sparse_row]);
    assert_eq!(out, vec![vec![32767, 0]]);
}

fn mnist_layers() -> (Vec<Layer>, Vec<Tensor>) {
    let tensors = vec![
        Tensor { idx: 1, shape: vec![2, 3, 3, 1], data: (0..18).map(|t| (t - 9) * 40).collect() },
        Tensor { idx: 2, shape: vec![2], data: vec![3, -4] },
        Tensor { idx: 5, shape: vec![2], data: vec![2, 7] },
        Tensor { idx: 6, shape: vec![2], data: vec![1024, 256] },
    ];
    let layers = vec![
        layer("Conv2D", vec![0, 1, 2], vec![0, 0, 1, 2]),
        layer("Add", vec![0, 5], vec![]),
        layer("AveragePool2D", vec![0], vec![2, 2, 2, 2]),
        layer("Mul", vec![0, 6], vec![]),
    ];
    (layers, tensors)
}

#[test]
fn mnist_skipped_layer_changes_nothing() {
    let (layers, tensors) = mnist_layers();
    let data: Vec<i32> = (0..784).map(|t| (t % 29) * 17 - 200).collect();
    let base = mnist(&model(layers.clone(), tensors.clone()), &data);
    assert_eq!(base.len(), 7);
    let skipped = [
        layer("Softmax", vec![0], vec![]),
        layer("Conv2D", vec![0, 1, 2], vec![1, 0, 1, 2]),
        layer("Reshape", vec![], vec![]),
    ];
    for pos in 0..=layers.len() {
        for extra in skipped.iter() {
            let mut more = layers.clone();
            more.insert(pos, extra.clone());
            assert_eq!(mnist(&model(more, tensors.clone()), &data), base);
        }
    }
}

fn dlrm_model() -> (Vec<Layer>, Vec<Tensor>) {
    let mut layers = skip_layers(14);
    layers[0] = layer("FullyConnected", vec![0, 1, 2], vec![0]);
    layers[13] = layer("FullyConnected", vec![0, 3, 4], vec![1]);
    let mut bottom_kernel = vec![0; 64 * 13];
    for j in 0..64 {
        bottom_kernel[j * 13] = 512;
    }
    let mut top_kernel = vec![0; 2 * 415];
    top_kernel[64] = 512;
    top_kernel[415] = -512;
    let tensors = vec![
        Tensor { idx: 1, shape: vec![64, 13], data: bottom_kernel },
        Tensor { idx: 2, shape: vec![64], data: vec![0; 64] },
        Tensor { idx: 3, shape: vec![2, 415], data: top_kernel },
        Tensor { idx: 4, shape: vec![2], data: vec![-1, 0] },
    ];
    (layers, tensors)
}

#[test]
fn dlrm_reads_only_its_layers_and_dense_prefix() {
    let (layers, tensors) = dlrm_model();
    let mut dense = vec![0; 1664];
    for v in dense.iter_mut().take(64) {
        *v = 512;
    }
    let mut sparse_row = vec![0; 13];
    sparse_row[0] = 512;
    let sparse = vec![sparse_row];
    let base = dlrm(&model(layers.clone(), tensors.clone()), &dense, &sparse);
    assert_eq!(base, vec![vec![32767, 0]]);
    let mut other_layers = layers.clone();
    other_layers[5] = layer("FullyConnected", vec![0, 3, 4], vec![1]);
    other_layers.push(layer("FullyConnected", vec![0, 1, 2], vec![0]));
    let mut longer_dense = dense.clone();
    longer_dense.extend(vec![9999; 100]);
    let out = dlrm(&model(other_layers, tensors), &longer_dense, &sparse);
    assert_eq!(out, base);
    assert_eq!(out.len(), 1);
}

#[test]
fn mnist_checked_runs_what_mnist_runs() {
    let (layers, tensors) = mnist_layers();
    let data: Vec<i32> = (0..784).map(|t| (t % 29) * 17 - 200).collect();
    let m = model(layers, tensors);
    assert_eq!(mnist_checked(&m, &data), Some(mnist(&m, &data)));
    assert_eq!(mnist_checked(&model(vec![], vec![]), &data).map(|o| o.len()), Some(28));
}

#[test]
fn mnist_checked_refuses_what_mnist_cannot_run() {
    let (layers, tensors) = mnist_layers();
    let data: Vec<i32> = (0..784).map(|t| (t % 29) * 17 - 200).collect();
    // too little input
    assert_eq!(mnist_checked(&model(layers.clone(), tensors.clone()), &data[..783].to_vec()), None);
    // a convolution without parameters
    let mut bad = layers.clone();
    bad[0] = layer("Conv2D", vec![0, 1, 2], vec![]);
    assert_eq!(mnist_checked(&model(bad, tensors.clone()), &data), None);
    // a convolution without its stride
    let mut bad = layers.clone();
    bad[0] = layer("Conv2D", vec![0, 1, 2], vec![0, 0, 1]);
    assert_eq!(mnist_checked(&model(bad, tensors.clone()), &data), None);
    // a pooling with a zero stride
    let mut bad = layers.clone();
    bad[2] = layer("AveragePool2D", vec![0], vec![2, 2, 0, 2]);
    assert_eq!(mnist_checked(&model(bad, tensors.clone()), &data), None);
    // a scale with fewer entries than channels
    let mut short = tensors.clone();
    short[3] = Tensor { idx: 6, shape: vec![1], data: vec![1024] };
    assert_eq!(mnist_checked(&model(layers.clone(), short), &data), None);
    // an addition without its tensor index
    let mut bad = layers.clone();
    bad[1] = layer("Add", vec![0], vec![]);
    assert_eq!(mnist_checked(&model(bad, tensors.clone()), &data), None);
    // a product that leaves i32
    let big = vec![
        Tensor { idx: 1, shape: vec![1, 1, 1, 1], data: vec![4] },
        Tensor { idx: 2, shape: vec![1], data: vec![0] },
    ];
    let conv = vec![layer("Conv2D", vec![0, 1, 2], vec![0, 1, 0, 1])];
    assert_eq!(mnist_checked(&model(conv, big), &vec![i32::MAX; 784]), None);
}

#[test]
fn dlrm_checked_runs_what_dlrm_runs() {
    let (layers, tensors) = dlrm_model();
    let mut dense = vec![0; 1664];
    for v in dense.iter_mut().take(64) {
        *v = 512;
    }
    let mut sparse_row = vec![0; 13];
    sparse_row[0] = 512;
    let m = model(layers, tensors);
    let out = dlrm_checked(&m, &dense, &vec![sparse_row.clone()]);
    assert_eq!(out, Some(vec![vec![32767, 0]]));
    assert_eq!(out, Some(dlrm(&m, &dense, &vec![sparse_row])));
}

#[test]
fn dlrm_checked_refuses_what_dlrm_cannot_run() {
    let (layers, tensors) = dlrm_model();
    let dense = vec![1; 1664];
    let mut sparse_row = vec![0; 13];
    sparse_row[0] = 512;
    let sparse = vec![sparse_row];
    let m = model(layers.clone(), tensors.clone());
    assert!(dlrm_checked(&m, &dense, &sparse).is_some());
    // no sparse row, too few dense values, too few layers
    assert_eq!(dlrm_checked(&m, &dense, &vec![]), None);
    assert_eq!(dlrm_checked(&m, &dense[..1663].to_vec(), &sparse), None);
    assert_eq!(dlrm_checked(&model(layers[..13].to_vec(), tensors.clone()), &dense, &sparse), None);
    // two sparse rows cannot be joined to the single interaction row
    assert_eq!(dlrm_checked(&m, &dense, &vec![sparse[0].clone(), sparse[0].clone()]), None);
    // a bottom kernel with fewer values than its shape
    let mut short = tensors.clone();
    short[0] = Tensor { idx: 1, shape: vec![64, 13], data: vec![512; 100] };
    assert_eq!(dlrm_checked(&model(layers.clone(), short), &dense, &sparse), None);
    // interactions that leave i32
    assert_eq!(dlrm_checked(&m, &vec![i32::MAX; 1664], &sparse), None);
}
