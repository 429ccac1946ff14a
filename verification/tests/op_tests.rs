use mllib::op::{add, avgpool2d, conv2d, fc_layer, mul, relu, relu6};
use mllib::processing::Tensor;

fn tensor(shape: Vec<i32>, data: Vec<i32>) -> Tensor {
    Tensor { idx: 0, shape, data }
}

#[test]
fn relu6_clamps() {
    assert_eq!(relu6(-5), 0);
    assert_eq!(relu6(0), 0);
    assert_eq!(relu6(1000), 1000);
    assert_eq!(relu6(3072), 3072);
    assert_eq!(relu6(3073), 3072);
    assert_eq!(relu6(i32::MAX), 3072);
}

#[test]
fn relu_zeroes_negatives() {
    assert_eq!(relu(-1), 0);
    assert_eq!(relu(i32::MIN), 0);
    assert_eq!(relu(7), 7);
}

#[test]
fn add_adds_bias_per_channel() {
    let inp = vec![vec![vec![1, 2], vec![3, 4]]];
    let out = add(inp, tensor(vec![2], vec![10, 20, 99]));
    assert_eq!(out, vec![vec![vec![11, 22], vec![13, 24]]]);
}

#[test]
fn add_leaves_entries_outside_first_box() {
    let inp = vec![vec![vec![1, 2]], vec![vec![3, 4, 5], vec![6]]];
    let out = add(inp, tensor(vec![2], vec![10, 20]));
    assert_eq!(out, vec![vec![vec![11, 22]], vec![vec![13, 24, 5], vec![6]]]);
}

#[test]
fn mul_rescales_and_rounds_toward_zero() {
    let inp = vec![vec![vec![-1000, 7], vec![3, 4]]];
    let out = mul(inp, tensor(vec![2], vec![1, 512]));
    // -1000 * 1 / 512 is -1.95..., which rounds toward zero to -1.
    assert_eq!(out, vec![vec![vec![-1, 7], vec![0, 4]]]);
}

#[test]
fn fc_layer_with_bias_and_relu() {
    let inp = vec![vec![512, 1024]];
    let kernel = vec![vec![512, 0], vec![512, 512], vec![0, -512]];
    let out = fc_layer(inp.clone(), kernel.clone(), vec![1, 2, 3], vec![1], false);
    assert_eq!(out, vec![vec![513, 1538, 0]]);
    let out = fc_layer(inp.clone(), kernel.clone(), vec![1, 2, 3], vec![0], false);
    assert_eq!(out, vec![vec![513, 1538, -1021]]);
    let out = fc_layer(inp, kernel, vec![], vec![0], true);
    assert_eq!(out, vec![vec![512, 1536, -1024]]);
}

#[test]
fn fc_layer_empty_input() {
    let out = fc_layer(vec![], vec![vec![1]], vec![], vec![], false);
    assert_eq!(out, Vec::<Vec<i32>>::new());
}

#[test]
fn fc_layer_self_product() {
    // The interaction step multiplies a matrix by its own transpose.
    let r = vec![vec![512, 512], vec![1024, 0]];
    let out = fc_layer(r.clone(), r, vec![0], vec![0], true);
    assert_eq!(out, vec![vec![1024, 1024], vec![1024, 2048]]);
}

#[test]
fn avgpool2d_averages_blocks() {
    let inp: Vec<Vec<Vec<i32>>> = (0..4)
        .map(|i| (0..4).map(|j| vec![i * 4 + j + 1]).collect())
        .collect();
    let out = avgpool2d(inp, vec![2, 2, 2, 2]);
    assert_eq!(out, vec![vec![vec![3], vec![5]], vec![vec![11], vec![13]]]);
}

#[test]
fn avgpool2d_divides_by_window_height_times_stride() {
    let inp = vec![vec![vec![1]], vec![vec![2]], vec![vec![3]], vec![vec![4]], vec![vec![5]]];
    let out = avgpool2d(inp, vec![2, 1, 3, 1]);
    // windows {1, 2} and {4, 5}, each divided by 2 * 3 = 6
    assert_eq!(out, vec![vec![vec![0]], vec![vec![1]]]);
}

#[test]
fn avgpool2d_negative_sum_rounds_toward_zero() {
    let inp = vec![vec![vec![-3], vec![-2]], vec![vec![0], vec![0]]];
    let out = avgpool2d(inp, vec![2, 2, 2, 2]);
    assert_eq!(out, vec![vec![vec![-1]]]);
}

#[test]
fn conv2d_without_padding() {
    let inp: Vec<Vec<Vec<i32>>> = (0..3)
        .map(|i| (0..3).map(|j| vec![i * 3 + j + 1]).collect())
        .collect();
    let kernel = tensor(vec![1, 2, 2, 1], vec![512, 0, 0, 512]);
    let bias = tensor(vec![1], vec![10]);
    let out = conv2d(inp, kernel, bias, 1, 1, true);
    assert_eq!(out, vec![vec![vec![16], vec![18]], vec![vec![22], vec![24]]]);
}

#[test]
fn conv2d_with_zero_padding_and_relu6() {
    let inp = vec![vec![vec![512], vec![512]], vec![vec![512], vec![512]]];
    let kernel = tensor(vec![1, 3, 3, 1], vec![512; 9]);
    let out = conv2d(inp.clone(), kernel.clone(), tensor(vec![1], vec![0]), 1, 0, false);
    assert_eq!(out, vec![vec![vec![2048], vec![2048]], vec![vec![2048], vec![2048]]]);
    let out = conv2d(inp, kernel, tensor(vec![1], vec![2000]), 1, 0, false);
    assert_eq!(out, vec![vec![vec![3072], vec![3072]], vec![vec![3072], vec![3072]]]);
}

#[test]
fn conv2d_stride_and_channels() {
    // 4 x 4 image with two channels; two output channels of a 2 x 2 kernel, stride 2.
    let inp: Vec<Vec<Vec<i32>>> = (0..4)
        .map(|i| (0..4).map(|j| vec![i * 4 + j, 1]).collect())
        .collect();
    // output channel 0 sums channel 0 of the window, output channel 1 sums channel 1
    let mut data = Vec::new();
    for k in 0..2 {
        for _m in 0..2 {
            for _l in 0..2 {
                for n in 0..2 {
                    data.push(if n == k { 512 } else { 0 });
                }
            }
        }
    }
    let kernel = tensor(vec![2, 2, 2, 2], data);
    let out = conv2d(inp, kernel, tensor(vec![2], vec![0, 100]), 2, 1, true);
    assert_eq!(
        out,
        vec![
            vec![vec![0 + 1 + 4 + 5, 104], vec![2 + 3 + 6 + 7, 104]],
            vec![vec![8 + 9 + 12 + 13, 104], vec![10 + 11 + 14 + 15, 104]],
        ]
    );
}

#[test]
fn conv2d_rounds_toward_zero_before_bias() {
    let inp = vec![vec![vec![-1]]];
    let kernel = tensor(vec![1, 1, 1, 1], vec![256]);
    let out = conv2d(inp, kernel, tensor(vec![1], vec![0]), 1, 1, true);
    // -256 / 512 is -0.5, which rounds toward zero
    assert_eq!(out, vec![vec![vec![0]]]);
}

#[test]
fn avgpool2d_without_channels_needs_no_window() {
    let out = avgpool2d(vec![vec![vec![]]], vec![0, 0, 1, 1]);
    assert_eq!(out, vec![vec![Vec::<i32>::new(), vec![]], vec![vec![], vec![]]]);
}

#[test]
fn conv2d_negative_stride_single_window() {
    let inp = vec![vec![vec![1], vec![2]], vec![vec![3], vec![4]]];
    let kernel = tensor(vec![1, 2, 2, 1], vec![512; 4]);
    let out = conv2d(inp, kernel, tensor(vec![1], vec![0]), -1, 1, true);
    assert_eq!(out, vec![vec![vec![10]]]);
}

#[test]
fn avgpool2d_negative_stride_divides_by_negative_factor() {
    let inp = vec![vec![vec![1], vec![2]], vec![vec![3], vec![5]]];
    let out = avgpool2d(inp, vec![2, 2, -1, -1]);
    // 11 / (2 * -1) is -5.5, which rounds toward zero
    assert_eq!(out, vec![vec![vec![-5]]]);
}

fn pad_one(inp: &Vec<Vec<Vec<i32>>>) -> Vec<Vec<Vec<i32>>> {
    let h = inp.len();
    let w = inp[0].len();
    let c = inp[0][0].len();
    let mut out = vec![vec![vec![0; c]; w + 2]; h + 2];
    for i in 0..h {
        for j in 0..w {
            out[i + 1][j + 1] = inp[i][j].clone();
        }
    }
    out
}

#[test]
fn conv2d_zero_padding_is_convolution_of_padded_image() {
    let inp: Vec<Vec<Vec<i32>>> = (0..3)
        .map(|i| (0..3).map(|j| vec![(i * 3 + j) * 100 - 400]).collect())
        .collect();
    let kernel = tensor(vec![1, 3, 3, 1], vec![512, -512, 256, 0, 1024, 0, -256, 512, 512]);
    let bias = tensor(vec![1], vec![7]);
    for reluoff in [true, false] {
        let padded = conv2d(inp.clone(), kernel.clone(), bias.clone(), 1, 0, reluoff);
        let explicit = conv2d(pad_one(&inp), kernel.clone(), bias.clone(), 1, 5, reluoff);
        assert_eq!(padded.len(), 3);
        assert_eq!(padded, explicit);
    }
}

#[test]
fn conv2d_relu6_clamps_the_unclamped_output() {
    let inp = vec![
        vec![vec![3000], vec![-3000], vec![10]],
        vec![vec![8000], vec![20], vec![-5]],
    ];
    let kernel = tensor(vec![1, 1, 1, 1], vec![512]);
    let bias = tensor(vec![1], vec![0]);
    let raw = conv2d(inp.clone(), kernel.clone(), bias.clone(), 1, 1, true);
    let clamped = conv2d(inp, kernel, bias, 1, 1, false);
    assert_eq!(raw, vec![vec![vec![3000], vec![-3000], vec![10]], vec![vec![8000], vec![20], vec![-5]]]);
    assert_eq!(clamped, vec![vec![vec![3000], vec![0], vec![10]], vec![vec![3072], vec![20], vec![0]]]);
    for i in 0..2 {
        for j in 0..3 {
            assert_eq!(clamped[i][j][0], relu6(raw[i][j][0]));
        }
    }
}

#[test]
fn conv2d_bias_shift_shifts_each_channel() {
    let inp: Vec<Vec<Vec<i32>>> = (0..3)
        .map(|i| (0..3).map(|j| vec![i * 3 + j + 1, 2 * (i + j)]).collect())
        .collect();
    let kernel = tensor(vec![2, 2, 2, 2], (0..16).map(|t| (t - 8) * 64).collect());
    let base = conv2d(inp.clone(), kernel.clone(), tensor(vec![2], vec![5, -3]), 1, 1, true);
    let shifted = conv2d(inp, kernel, tensor(vec![2], vec![5 + 100, -3 - 7]), 1, 1, true);
    assert_eq!(base.len(), 2);
    for i in 0..2 {
        for j in 0..2 {
            assert_eq!(shifted[i][j][0], base[i][j][0] + 100);
            assert_eq!(shifted[i][j][1], base[i][j][1] - 7);
        }
    }
}
