use mllib::helper::{reshape1_ok_check, reshape2_ok_check, reshape4_ok_check};
use mllib::layer_checks::{add_ok_check, avgpool_ok_check, conv_ok_check, covers_box_check, mul_ok_check};
use mllib::op::fc_ok_check;
use mllib::processing::Tensor;
use mllib::shape::concatenate_ok_check;
use mllib::util::rows_cover_first_check;

fn tensor(shape: Vec<i32>, data: Vec<i32>) -> Tensor {
    Tensor { idx: 0, shape, data }
}

fn image(h: i32, w: i32, c: i32, v: i32) -> Vec<Vec<Vec<i32>>> {
    vec![vec![vec![v; c as usize]; w as usize]; h as usize]
}

#[test]
fn tensor_shape_checks() {
    assert!(reshape1_ok_check(&tensor(vec![2], vec![1, 2, 3])));
    assert!(!reshape1_ok_check(&tensor(vec![4], vec![1, 2, 3])));
    assert!(!reshape1_ok_check(&tensor(vec![], vec![1])));
    assert!(reshape2_ok_check(&tensor(vec![2, 3], vec![0; 6])));
    assert!(!reshape2_ok_check(&tensor(vec![2, 3], vec![0; 5])));
    assert!(reshape2_ok_check(&tensor(vec![0], vec![])));
    assert!(reshape4_ok_check(&tensor(vec![1, 2, 2, 3], vec![0; 12])));
    assert!(!reshape4_ok_check(&tensor(vec![1, 2, 2, 3], vec![0; 11])));
    assert!(!reshape4_ok_check(&tensor(vec![1, 2, 2], vec![0; 12])));
    assert!(!reshape4_ok_check(&tensor(vec![65536, 65536, 1, 1], vec![])));
}

#[test]
fn matrix_checks() {
    assert!(rows_cover_first_check(&vec![vec![1, 2], vec![3, 4, 5]]));
    assert!(!rows_cover_first_check(&vec![vec![1, 2], vec![3]]));
    assert!(!rows_cover_first_check(&vec![]));
    assert!(concatenate_ok_check(&vec![], &vec![]));
    assert!(concatenate_ok_check(&vec![vec![1]], &vec![vec![2, 3]]));
    assert!(!concatenate_ok_check(&vec![vec![1], vec![2]], &vec![vec![2, 3]]));
    assert!(!concatenate_ok_check(&vec![vec![1]], &vec![]));
}

#[test]
fn fc_checks() {
    let x = vec![vec![512, 1024]];
    let k = vec![vec![512, 512], vec![1, 2]];
    assert!(fc_ok_check(&x, &k, &vec![0, 0], &vec![0], false));
    assert!(!fc_ok_check(&x, &k, &vec![0], &vec![0], false));
    assert!(fc_ok_check(&x, &k, &vec![0], &vec![0], true));
    assert!(!fc_ok_check(&x, &k, &vec![0, 0], &vec![], false));
    assert!(!fc_ok_check(&vec![vec![i32::MAX, 1]], &k, &vec![0, 0], &vec![0], false));
    assert!(fc_ok_check(&vec![], &k, &vec![], &vec![], false));
}

#[test]
fn box_and_channel_checks() {
    let x = image(2, 2, 2, 100);
    assert!(covers_box_check(&x));
    assert!(!covers_box_check(&vec![vec![vec![1, 2]], vec![vec![1]]]));
    assert!(add_ok_check(&x, &tensor(vec![2], vec![1, 2])));
    assert!(!add_ok_check(&x, &tensor(vec![1], vec![1])));
    assert!(!add_ok_check(&x, &tensor(vec![2], vec![i32::MAX, 0])));
    assert!(mul_ok_check(&x, &tensor(vec![2], vec![512, 512])));
    assert!(!mul_ok_check(&x, &tensor(vec![2], vec![i32::MAX, 1])));
}

#[test]
fn pooling_and_convolution_checks() {
    let x = image(4, 4, 1, 100);
    assert!(avgpool_ok_check(&x, &vec![2, 2, 2, 2]));
    assert!(!avgpool_ok_check(&x, &vec![2, 2, 0, 2]));
    assert!(!avgpool_ok_check(&x, &vec![2, 2, 2]));
    assert!(!avgpool_ok_check(&image(4, 4, 1, i32::MAX), &vec![2, 2, 2, 2]));
    let kernel = tensor(vec![1, 3, 3, 1], vec![512; 9]);
    assert!(conv_ok_check(&x, kernel.clone(), tensor(vec![1], vec![0]), 1, 0));
    assert!(conv_ok_check(&x, kernel.clone(), tensor(vec![1], vec![0]), 1, 1));
    assert!(!conv_ok_check(&x, kernel.clone(), tensor(vec![1], vec![0]), 0, 1));
    assert!(!conv_ok_check(&x, kernel.clone(), tensor(vec![0], vec![]), 1, 1));
    assert!(!conv_ok_check(&image(4, 4, 1, i32::MAX), kernel, tensor(vec![1], vec![0]), 1, 1));
}
