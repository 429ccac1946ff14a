use mllib::shape::{concatenate, reshape1dto2d, reshape2dto1d, transpose};

#[test]
fn transpose_square_and_rectangular() {
    assert_eq!(transpose(vec![vec![1, 2], vec![3, 4]]), vec![vec![1, 3], vec![2, 4]]);
    assert_eq!(
        transpose(vec![vec![1, 2, 3], vec![4, 5, 6]]),
        vec![vec![1, 4], vec![2, 5], vec![3, 6]]
    );
}

#[test]
fn transpose_uses_first_row_width() {
    // Columns beyond the first row's width are dropped.
    assert_eq!(transpose(vec![vec![1], vec![2, 9]]), vec![vec![1, 2]]);
    assert_eq!(transpose(vec![vec![], vec![5]]), Vec::<Vec<i32>>::new());
}

#[test]
fn concatenate_joins_rows() {
    let a = vec![vec![1, 2], vec![3, 4]];
    let b = vec![vec![5], vec![6]];
    assert_eq!(concatenate(a, b), vec![vec![1, 2, 5], vec![3, 4, 6]]);
}

#[test]
fn concatenate_empty_left_is_empty() {
    assert_eq!(concatenate(vec![], vec![vec![1]]), Vec::<Vec<i32>>::new());
}

#[test]
fn concatenate_single_row_with_wider_blocks() {
    let a = vec![vec![1, 2, 3]];
    let b = vec![vec![4, 5, 6, 7]];
    assert_eq!(concatenate(a, b), vec![vec![1, 2, 3, 4, 5, 6, 7]]);
}

#[test]
fn reshape1dto2d_cuts_first_row() {
    let input = vec![vec![1, 2, 3, 4, 5, 6, 7]];
    assert_eq!(reshape1dto2d(input, vec![2, 3]), vec![vec![1, 2, 3], vec![4, 5, 6]]);
}

#[test]
fn reshape1dto2d_empty_shape() {
    assert_eq!(reshape1dto2d(vec![], vec![0]), Vec::<Vec<i32>>::new());
    assert_eq!(reshape1dto2d(vec![], vec![2, 0]), vec![Vec::<i32>::new(), vec![]]);
}

#[test]
fn reshape2dto1d_makes_a_column() {
    let input = vec![vec![1, 2], vec![3, 4], vec![5, 6]];
    assert_eq!(
        reshape2dto1d(input, vec![6, 1]),
        vec![vec![1], vec![2], vec![3], vec![4], vec![5], vec![6]]
    );
    assert_eq!(reshape2dto1d(vec![], vec![]), Vec::<Vec<i32>>::new());
}

#[test]
fn reshape_round_trip() {
    let m = vec![vec![1, 2, 3], vec![4, 5, 6]];
    let col = reshape2dto1d(m.clone(), vec![6, 1]);
    let row = transpose(col);
    assert_eq!(reshape1dto2d(row, vec![2, 3]), m);
}

#[test]
fn transpose_twice_gives_back_the_matrix() {
    let m = vec![vec![1, 2, 3], vec![4, 5, 6]];
    assert_eq!(transpose(transpose(m.clone())), m);
}
