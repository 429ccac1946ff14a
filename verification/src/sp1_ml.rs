//! The DLRM input as the SP1 benchmark ships it: the dense embeddings and
//! the sparse features as two separate values.
use vstd::prelude::*;
use crate::risc0_ml::{flatten, zeros, DENSE_SIZE, SPARSE_SIZE};
use crate::util::view2;

verus! {

/// The all-zero DLRM input of the benchmark: 1664 dense values and one row
/// of 13 sparse features.
pub fn gen_dlrm_data() -> (data: (Vec<i32>, Vec<Vec<i32>>))
    ensures
        data.0@ == zeros(DENSE_SIZE as nat),
        view2(data.1) == seq![zeros(SPARSE_SIZE as nat)],
{
    let mut dense: Vec<i32> = Vec::new();
    for i in 0..DENSE_SIZE
        invariant
            dense@ == zeros(i as nat),
    {
        dense.push(0);
        assert(dense@ =~= zeros((i + 1) as nat));
    }
    let mut sparse: Vec<Vec<i32>> = Vec::new();
    let mut temp: Vec<i32> = Vec::new();
    for j in 0..SPARSE_SIZE
        invariant
            temp@ == zeros(j as nat),
    {
        temp.push(0);
        assert(temp@ =~= zeros((j + 1) as nat));
    }
    sparse.push(temp);
    assert(view2(sparse) =~= seq![zeros(SPARSE_SIZE as nat)]);
    (dense, sparse)
}

/// Both benchmarks feed the model the same values: merging the SP1 input
/// gives the RISC Zero input, and splitting that gives the SP1 input back.
pub proof fn lemma_inputs_agree()
    ensures
        crate::risc0_ml::spec_demerge(zeros(DENSE_SIZE as nat) + flatten(seq![zeros(SPARSE_SIZE as nat)]))
            == (zeros(DENSE_SIZE as nat), seq![zeros(SPARSE_SIZE as nat)]),
{
    crate::risc0_ml::lemma_demerge_merge(zeros(DENSE_SIZE as nat), seq![zeros(SPARSE_SIZE as nat)]);
}

} // verus!
