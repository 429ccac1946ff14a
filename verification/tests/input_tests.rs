use mllib::risc0_ml::{demerge_data, gen_dlrm_data, merge_data};

#[test]
fn merge_then_demerge_round_trip() {
    let dense: Vec<i32> = (0..1664).collect();
    let sparse = vec![(100..113).collect::<Vec<i32>>()];
    let merged = merge_data(dense.clone(), sparse.clone());
    assert_eq!(merged.len(), 1677);
    assert_eq!(merged[1664], 100);
    assert_eq!(demerge_data(merged), (dense, sparse));
}

#[test]
fn demerge_then_merge_round_trip() {
    let merged: Vec<i32> = (0..1677).map(|x| x * 3 - 7).collect();
    let (dense, sparse) = demerge_data(merged.clone());
    assert_eq!(dense.len(), 1664);
    assert_eq!(sparse.len(), 1);
    assert_eq!(merge_data(dense, sparse), merged);
}

#[test]
fn demerge_ignores_trailing_values() {
    let merged: Vec<i32> = (0..1700).collect();
    let (dense, sparse) = demerge_data(merged);
    assert_eq!(dense, (0..1664).collect::<Vec<i32>>());
    assert_eq!(sparse, vec![(1664..1677).collect::<Vec<i32>>()]);
}

#[test]
fn merge_concatenates_all_rows() {
    assert_eq!(merge_data(vec![1], vec![vec![2, 3], vec![], vec![4]]), vec![1, 2, 3, 4]);
}

#[test]
fn risc0_dlrm_input_is_all_zeros() {
    assert_eq!(gen_dlrm_data(), vec![0; 1677]);
}

#[test]
fn sp1_dlrm_input_matches_risc0_input() {
    let (dense, sparse) = mllib::sp1_ml::gen_dlrm_data();
    assert_eq!(dense, vec![0; 1664]);
    assert_eq!(sparse, vec![vec![0; 13]]);
    assert_eq!(merge_data(dense, sparse), gen_dlrm_data());
}
